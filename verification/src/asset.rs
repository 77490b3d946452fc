use vstd::prelude::*;

verus! {

/// The only asset schema version this crate reads.
pub const ASSET_SCHEMA_VERSION: u32 = 1;

/// A structural import schema, independent of the source parser.
pub struct AssetDocument {
    pub schema_version: u32,
    pub entries: Vec<AssetEntry>,
}

/// Ordered entries preserve repeated definitions, effects and mixed lists/objects.
pub enum AssetEntry {
    Property { key: String, operator: AssetOperator, value: AssetValue },
    Item(AssetValue),
}

#[derive(Clone, Copy, Debug, PartialEq, Eq)]
pub enum AssetOperator {
    Assign,
    Equal,
    NotEqual,
    LessThan,
    LessThanOrEqual,
    GreaterThan,
    GreaterThanOrEqual,
    Exists,
}

pub enum AssetValue {
    /// Strings and symbols remain distinct; no guessing about engine-specific expressions.
    Text(String),
    Symbol(String),
    /// Exact numeric spelling avoids loss through float conversion during import.
    Number(String),
    Boolean(bool),
    Null,
    /// Arrays are distinct from empty objects.
    Array(Vec<AssetValue>),
    Block(Vec<AssetEntry>),
    /// Typed source headers, for example HSV colors, remain explicit data.
    Tagged { tag: String, value: Box<AssetValue> },
}

/// Why a structurally decoded document was refused.
#[derive(Clone, Copy, Debug, PartialEq, Eq)]
pub enum AssetDocumentError {
    UnsupportedSchemaVersion(u32),
}

/// Accepts a decoded document only when it declares the supported schema version;
/// the document is handed back unchanged.
pub fn accept_asset_document(document: AssetDocument) -> (result: Result<AssetDocument, AssetDocumentError>)
    ensures
        document.schema_version == ASSET_SCHEMA_VERSION ==> result == Ok::<AssetDocument, AssetDocumentError>(document),
        document.schema_version != ASSET_SCHEMA_VERSION ==> result == Err::<AssetDocument, AssetDocumentError>(
            AssetDocumentError::UnsupportedSchemaVersion(document.schema_version),
        ),
{
    if document.schema_version != ASSET_SCHEMA_VERSION {
        return Err(AssetDocumentError::UnsupportedSchemaVersion(document.schema_version));
    }
    Ok(document)
}

} // verus!
