//! The row mask of a search: which rows of a segment matched.
use crate::outside::bitmaps::{bitmap_insert, bitmap_new, bitmap_rows};
use crate::wire::{i64_pattern, i64_to_u64};
use vstd::prelude::*;

verus! {

/// The value of the row-number field in a stored document.
pub enum StoredValue {
    U64(u64),
    I64(i64),
    Other,
}

/// The row number that a stored value holds, if it is a number.
pub open spec fn stored_row(v: StoredValue) -> Option<u64> {
    match v {
        StoredValue::U64(u) => Some(u),
        StoredValue::I64(i) => Some(i64_pattern(i) as u64),
        StoredValue::Other => None,
    }
}

/// The row number that a stored value holds, if it is a number.
pub fn extract_u64_from_value(v: &StoredValue) -> (r: Option<u64>)
    ensures
        r == stored_row(*v),
{
    match v {
        StoredValue::U64(u) => Some(*u),
        StoredValue::I64(i) => Some(i64_to_u64(*i)),
        StoredValue::Other => None,
    }
}

/// A document that matched: its row number out of the column store, or, in older segments
/// that lack it there, the value in the stored document.
pub enum Hit {
    Fast(u64),
    Stored(Option<StoredValue>),
}

/// The row of a document that matched, if it is known. Row numbers have 32 bits.
pub open spec fn hit_row(h: Hit) -> Option<u32> {
    let row = match h {
        Hit::Fast(u) => Some(u),
        Hit::Stored(Some(v)) => stored_row(v),
        Hit::Stored(None) => None,
    };
    match row {
        Some(u) => Some((u as nat % 0x1_0000_0000) as u32),
        None => None,
    }
}

/// Some document stands for this row.
pub open spec fn is_hit(hits: Seq<Hit>, row: u32) -> bool {
    exists|i: int| 0 <= i < hits.len() && hit_row(#[trigger] hits[i]) == Some(row)
}

/// The rows of the documents that matched.
pub fn row_mask(hits: &Vec<Hit>) -> (r: roaring::RoaringBitmap)
    ensures
        forall|row: u32| #[trigger] bitmap_rows(r).contains(row) <==> is_hit(hits@, row),
{
    let mut mask = bitmap_new();
    let mut i: usize = 0;
    while i < hits.len()
        invariant
            i <= hits@.len(),
            forall|row: u32| #[trigger]
                bitmap_rows(mask).contains(row) <==> is_hit(hits@.take(i as int), row),
        decreases hits@.len() - i,
    {
        let row: Option<u64> = match &hits[i] {
            Hit::Fast(u) => Some(*u),
            Hit::Stored(Some(v)) => extract_u64_from_value(v),
            Hit::Stored(None) => None,
        };
        let ghost before = bitmap_rows(mask);
        match row {
            Some(u) => {
                bitmap_insert(&mut mask, (u % 0x1_0000_0000) as u32);
            },
            None => {},
        }
        proof {
            let n = i as int;
            let head = hits@.take(n);
            let all = hits@.take(n + 1);
            assert forall|row: u32| #[trigger] bitmap_rows(mask).contains(row) <==> is_hit(
                all,
                row,
            ) by {
                assert(all[n] == hits@[n]);
                if is_hit(head, row) {
                    let k = choose|k: int|
                        0 <= k < head.len() && hit_row(#[trigger] head[k]) == Some(row);
                    assert(all[k] == head[k]);
                }
                if is_hit(all, row) {
                    let k = choose|k: int|
                        0 <= k < all.len() && hit_row(#[trigger] all[k]) == Some(row);
                    if k < n {
                        assert(head[k] == all[k]);
                    }
                }
                assert(before.contains(row) <==> is_hit(head, row));
                if hit_row(hits@[n]) == Some(row) {
                    assert(hit_row(all[n]) == Some(row));
                }
            }
        }
        i = i + 1;
    }
    assert(hits@.take(hits@.len() as int) =~= hits@);
    mask
}

} // verus!
