//! Random identifiers and their text.
use crate::text::digits;
use vstd::prelude::*;

verus! {

/// Calls `uuid::Uuid::new_v4`: a random number, but for the version (four) and the
/// variant (two) that stand in fixed bits.
#[verifier::external_body]
pub(crate) fn uuid_new_v4() -> (r: u128)
    ensures
        (r as nat / 0x1000_0000_0000_0000_0000) % 16 == 4,
        (r as nat / 0x4000_0000_0000_0000) % 4 == 2,
{
    uuid::Uuid::new_v4().as_u128()
}

/// The text of a UUID: 32 hexadecimal digits in groups of 8, 4, 4, 4 and 12.
pub open spec fn uuid_text(x: nat) -> Seq<char> {
    let d = digits(x, 16, 32);
    d.subrange(0, 8) + "-"@ + d.subrange(8, 12) + "-"@ + d.subrange(12, 16) + "-"@ + d.subrange(
        16,
        20,
    ) + "-"@ + d.subrange(20, 32)
}

/// Calls `uuid::Uuid`'s `to_string`: hyphenated hexadecimal digits in lower case.
#[verifier::external_body]
pub(crate) fn uuid_to_string(x: u128) -> (r: String)
    ensures
        r@ == uuid_text(x as nat),
{
    uuid::Uuid::from_u128(x).to_string()
}

} // verus!
