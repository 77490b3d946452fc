//! Fresh identities for sessions and facilities, from the `uuid` crate.
use crate::text::push_char;
use vstd::prelude::*;

verus! {

/// The version field of a UUID held as its big-endian 128-bit value (the high
/// nibble of byte 6).
pub open spec fn uuid_version(id: u128) -> u128 {
    (id >> 76u128) & 0xfu128
}

/// The variant field of a UUID held as its big-endian 128-bit value (the two high
/// bits of byte 8); the RFC variant is `0b10`.
pub open spec fn uuid_variant(id: u128) -> u128 {
    (id >> 62u128) & 0x3u128
}

/// Calls `uuid::Uuid::now_v7` and converts the result with `Uuid::as_u128`.
/// The crate builds a new version 7 UUID of the RFC variant from the current time
/// and random bits; the contract states those two fields only, since the rest
/// rests on the clock and on chance.
#[verifier::external_body]
pub(crate) fn new_v7_id() -> (id: u128)
    ensures
        uuid_version(id) == 7,
        uuid_variant(id) == 2,
{
    uuid::Uuid::now_v7().as_u128()
}

/// The lowercase hexadecimal digit of a value below 16.
pub open spec fn hex_digit(value: u128) -> char {
    if value < 10 {
        ((48 + value) as u8) as char
    } else {
        ((87 + value) as u8) as char
    }
}

/// The `k`-th hexadecimal digit of a 128-bit value, the most significant first.
pub open spec fn nibble(id: u128, k: int) -> u128 {
    (id >> ((124 - 4 * k) as u128)) & 0xf
}

/// The hexadecimal digits of `id` from the `k`-th on, with a dash before the
/// 9th, 13th, 17th and 21st digit: the hyphenated form of a UUID.
pub open spec fn hyphenated_from(id: u128, k: int) -> Seq<char>
    decreases 32 - k,
{
    if k >= 32 || k < 0 {
        Seq::empty()
    } else {
        let digit = seq![hex_digit(nibble(id, k))];
        let rest = hyphenated_from(id, k + 1);
        if k == 8 || k == 12 || k == 16 || k == 20 {
            seq!['-'] + digit + rest
        } else {
            digit + rest
        }
    }
}

/// The hyphenated lowercase form of a UUID, such as `01a07577-e209-7938-8120-efb504849d04`.
pub open spec fn hyphenated(id: u128) -> Seq<char> {
    hyphenated_from(id, 0)
}

/// Writes a UUID in its hyphenated lowercase form.
pub fn uuid_text(id: u128) -> (text: String)
    ensures
        text@ == hyphenated(id),
{
    let mut text = String::new();
    let mut k: u32 = 0;
    while k < 32
        invariant
            k <= 32,
            text@ + hyphenated_from(id, k as int) == hyphenated(id),
        decreases 32 - k,
    {
        if k == 8 || k == 12 || k == 16 || k == 20 {
            push_char(&mut text, '-');
        }
        let shift: u128 = (124 - 4 * k) as u128;
        let value: u128 = (id >> shift) & 0xf;
        assert(value < 16) by (bit_vector)
            requires
                value == (id >> shift) & 0xf,
        ;
        let digit: u8 = if value < 10 {
            48 + value as u8
        } else {
            87 + value as u8
        };
        push_char(&mut text, digit as char);
        proof {
            assert(value == nibble(id, k as int));
            assert(digit as char == hex_digit(value));
            let rest = hyphenated_from(id, k + 1);
            if k == 8 || k == 12 || k == 16 || k == 20 {
                assert(hyphenated_from(id, k as int) == seq!['-'] + seq![hex_digit(value)] + rest);
            } else {
                assert(hyphenated_from(id, k as int) == seq![hex_digit(value)] + rest);
            }
        }
        k = k + 1;
    }
    assert(hyphenated_from(id, 32) =~= Seq::<char>::empty());
    text
}

} // verus!
