use vstd::prelude::*;

verus! {

/// The lowercase hexadecimal digit of a number below 16.
pub open spec fn hex_digit(n: int) -> char {
    if n < 10 {
        ('0' as int + n) as char
    } else {
        ('a' as int + n - 10) as char
    }
}

/// A byte sequence written in lowercase hexadecimal: two digits for each
/// byte, the high half first.
pub open spec fn hex_text(bytes: Seq<u8>) -> Seq<char> {
    Seq::new(
        2 * bytes.len(),
        |i: int|
            if i % 2 == 0 {
                hex_digit(bytes[i / 2] as int / 16)
            } else {
                hex_digit(bytes[i / 2] as int % 16)
            },
    )
}

/// Calls `bson::oid::ObjectId::from_bytes(..).to_hex()`: the hexadecimal text
/// of a database key. The contract claims what the outside crate hands to
/// `hex::encode`: the twelve bytes in order, each as two lowercase digits.
#[verifier::external_body]
pub(crate) fn object_id_hex(bytes: &[u8; 12]) -> (hex: String)
    ensures
        hex@ == hex_text(bytes@),
{
    bson::oid::ObjectId::from_bytes(*bytes).to_hex()
}

} // verus!
