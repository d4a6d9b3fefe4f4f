//! Compressed sets of row numbers.
use vstd::prelude::*;

verus! {

/// A compressed set of row numbers.
#[verifier::external_type_specification]
#[verifier::external_body]
pub struct ExRoaringBitmap(roaring::RoaringBitmap);

/// The rows in a bitmap.
pub uninterp spec fn bitmap_rows(b: roaring::RoaringBitmap) -> Set<u32>;

/// Calls `roaring::RoaringBitmap::new`: the set is empty.
#[verifier::external_body]
pub(crate) fn bitmap_new() -> (r: roaring::RoaringBitmap)
    ensures
        bitmap_rows(r) == Set::<u32>::empty(),
{
    roaring::RoaringBitmap::new()
}

/// Calls `roaring::RoaringBitmap::insert`: the number is in the set, and nothing else
/// changes.
#[verifier::external_body]
pub(crate) fn bitmap_insert(b: &mut roaring::RoaringBitmap, row: u32)
    ensures
        bitmap_rows(*final(b)) == bitmap_rows(*old(b)).insert(row),
{
    b.insert(row);
}

} // verus!
