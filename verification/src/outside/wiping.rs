//! Wiping secrets from memory.
use vstd::prelude::*;

verus! {

/// A key of zeroes.
pub open spec fn zeroes() -> Seq<u8> {
    Seq::new(32, |i: int| 0u8)
}

/// Calls `zeroize::Zeroize::zeroize` of an array: every byte is overwritten with zero, by
/// writes that are not optimised away.
#[verifier::external_body]
pub(crate) fn wipe(key: &mut [u8; 32])
    ensures
        final(key)@ == zeroes(),
    opens_invariants none
    no_unwind
{
    zeroize::Zeroize::zeroize(key)
}

} // verus!
