use aggregate::asset::{
    accept_asset_document, AssetDocument, AssetDocumentError, AssetEntry, AssetOperator, AssetValue,
    ASSET_SCHEMA_VERSION,
};

fn document(version: u32) -> AssetDocument {
    AssetDocument {
        schema_version: version,
        entries: vec![
            AssetEntry::Property {
                key: "cost".to_string(),
                operator: AssetOperator::GreaterThanOrEqual,
                value: AssetValue::Number("1.50".to_string()),
            },
            AssetEntry::Item(AssetValue::Array(vec![AssetValue::Symbol("yes".to_string()), AssetValue::Null])),
        ],
    }
}

#[test]
fn supported_version_is_handed_back_unchanged() {
    let accepted = accept_asset_document(document(ASSET_SCHEMA_VERSION)).ok().expect("version 1 is read");
    assert_eq!(accepted.schema_version, 1);
    assert_eq!(accepted.entries.len(), 2);
    match &accepted.entries[0] {
        AssetEntry::Property { key, operator, value } => {
            assert_eq!(key, "cost");
            assert_eq!(*operator, AssetOperator::GreaterThanOrEqual);
            assert!(matches!(value, AssetValue::Number(text) if text == "1.50"));
        }
        AssetEntry::Item(_) => panic!("entry order changed"),
    }
}

#[test]
fn unknown_schema_versions_are_refused() {
    assert_eq!(
        accept_asset_document(document(2)).err(),
        Some(AssetDocumentError::UnsupportedSchemaVersion(2))
    );
    assert_eq!(
        accept_asset_document(document(0)).err(),
        Some(AssetDocumentError::UnsupportedSchemaVersion(0))
    );
}
