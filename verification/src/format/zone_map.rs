//! Zone maps: the smallest and the largest value of a column in a row group.
use crate::cursor::{
    blob_bytes, lemma_take_blob, lemma_take_i64, lemma_take_uint, put_blob, take_blob, take_i64,
    take_uint, Cursor,
};
use crate::order::{bytes_le, lemma_lex_total, lemma_lex_transitive, lex_le};
use crate::rows::{copy_bytes, slice_rows};
use crate::wire::{i64_pattern, le_bytes, lemma_pow256_values, put_i64, put_u32};
use vstd::prelude::*;

verus! {

/// The value range of a column.
#[derive(Clone, Debug, PartialEq)]
pub enum ZoneMapValue {
    /// No range is known.
    Unknown,
    I64 { min: i64, max: i64 },
    Bytes { min: Vec<u8>, max: Vec<u8> },
    Fixed { min: Vec<u8>, max: Vec<u8> },
}

/// The value range of a column and how many values are missing.
#[derive(Clone, Debug, PartialEq)]
pub struct ZoneMap {
    pub value: ZoneMapValue,
    pub null_count: u32,
}

/// The content of a value range.
pub ghost enum RangeView {
    Unknown,
    I64 { min: i64, max: i64 },
    Bytes { min: Seq<u8>, max: Seq<u8> },
    Fixed { min: Seq<u8>, max: Seq<u8> },
}

/// The content of a zone map.
pub ghost struct ZoneView {
    pub value: RangeView,
    pub null_count: u32,
}

impl ZoneView {
    /// The zone map in written form: a 32-bit tag, the bounds, the null count.
    pub open spec fn bytes(self) -> Seq<u8> {
        (match self.value {
            RangeView::Unknown => le_bytes(0, 4),
            RangeView::I64 { min, max } => le_bytes(1, 4) + (le_bytes(i64_pattern(min), 8)
                + le_bytes(i64_pattern(max), 8)),
            RangeView::Bytes { min, max } => le_bytes(2, 4) + (blob_bytes(min) + blob_bytes(max)),
            RangeView::Fixed { min, max } => le_bytes(3, 4) + (blob_bytes(min) + blob_bytes(max)),
        }) + le_bytes(self.null_count as nat, 4)
    }

    /// The bounds fit their counts.
    pub open spec fn fits(self) -> bool {
        match self.value {
            RangeView::Bytes { min, max } => min.len() <= u64::MAX && max.len() <= u64::MAX,
            RangeView::Fixed { min, max } => min.len() <= u64::MAX && max.len() <= u64::MAX,
            _ => true,
        }
    }
}

/// A value range off the front.
pub open spec fn take_range(s: Seq<u8>) -> Option<(RangeView, Seq<u8>)> {
    match take_uint(s, 4) {
        None => None,
        Some((tag, s)) => if tag == 0 {
            Some((RangeView::Unknown, s))
        } else if tag == 1 {
            match take_i64(s) {
                None => None,
                Some((min, s)) => match take_i64(s) {
                    None => None,
                    Some((max, s)) => Some((RangeView::I64 { min, max }, s)),
                },
            }
        } else if tag == 2 || tag == 3 {
            match take_blob(s) {
                None => None,
                Some((min, s)) => match take_blob(s) {
                    None => None,
                    Some((max, s)) => if tag == 2 {
                        Some((RangeView::Bytes { min, max }, s))
                    } else {
                        Some((RangeView::Fixed { min, max }, s))
                    },
                },
            }
        } else {
            None
        },
    }
}

/// A zone map off the front.
pub open spec fn take_zone_map(s: Seq<u8>) -> Option<(ZoneView, Seq<u8>)> {
    match take_range(s) {
        None => None,
        Some((value, s)) => match take_uint(s, 4) {
            None => None,
            Some((n, s)) => Some((ZoneView { value, null_count: n as u32 }, s)),
        },
    }
}

proof fn lemma_take_numbers(min: i64, max: i64, end: Seq<u8>)
    ensures
        take_range(
            le_bytes(1, 4) + (le_bytes(i64_pattern(min), 8) + (le_bytes(i64_pattern(max), 8)
                + end)),
        ) == Some((RangeView::I64 { min, max }, end)),
{
    lemma_pow256_values();
    let b = le_bytes(i64_pattern(max), 8) + end;
    lemma_take_uint(1, 4, le_bytes(i64_pattern(min), 8) + b);
    lemma_take_i64(min, b);
    lemma_take_i64(max, end);
}

proof fn lemma_take_blobs(tag: nat, min: Seq<u8>, max: Seq<u8>, end: Seq<u8>)
    requires
        tag == 2 || tag == 3,
        min.len() <= u64::MAX,
        max.len() <= u64::MAX,
    ensures
        take_range(le_bytes(tag, 4) + (blob_bytes(min) + (blob_bytes(max) + end))) == Some(
            (
                if tag == 2 {
                    RangeView::Bytes { min, max }
                } else {
                    RangeView::Fixed { min, max }
                },
                end,
            ),
        ),
{
    lemma_pow256_values();
    lemma_take_uint(tag, 4, blob_bytes(min) + (blob_bytes(max) + end));
    lemma_take_blob(min, blob_bytes(max) + end);
    lemma_take_blob(max, end);
}

proof fn lemma_regroup(t: Seq<u8>, a: Seq<u8>, b: Seq<u8>, c: Seq<u8>, d: Seq<u8>)
    ensures
        t + (a + b) + c + d == t + (a + (b + (c + d))),
{
    assert(t + (a + b) + c + d =~= t + (a + (b + (c + d))));
}

/// A written zone map reads back as it was.
pub proof fn zone_map_round_trip(z: ZoneView, rest: Seq<u8>)
    requires
        z.fits(),
    ensures
        take_zone_map(z.bytes() + rest) == Some((z, rest)),
{
    lemma_pow256_values();
    let nulls = le_bytes(z.null_count as nat, 4);
    let end = nulls + rest;
    lemma_take_uint(z.null_count as nat, 4, rest);
    match z.value {
        RangeView::Unknown => {
            lemma_take_uint(0, 4, end);
            assert(z.bytes() + rest =~= le_bytes(0, 4) + end);
        },
        RangeView::I64 { min, max } => {
            let a = le_bytes(i64_pattern(min), 8);
            let b = le_bytes(i64_pattern(max), 8);
            lemma_take_numbers(min, max, end);
            lemma_regroup(le_bytes(1, 4), a, b, nulls, rest);
        },
        RangeView::Bytes { min, max } => {
            lemma_take_blobs(2, min, max, end);
            lemma_regroup(le_bytes(2, 4), blob_bytes(min), blob_bytes(max), nulls, rest);
        },
        RangeView::Fixed { min, max } => {
            lemma_take_blobs(3, min, max, end);
            lemma_regroup(le_bytes(3, 4), blob_bytes(min), blob_bytes(max), nulls, rest);
        },
    }
}

/// `min` and `max` are values of the column, and all others lie between them.
pub open spec fn is_i64_range(values: Seq<i64>, min: i64, max: i64) -> bool {
    &&& values.contains(min)
    &&& values.contains(max)
    &&& forall|i: int| 0 <= i < values.len() ==> min <= #[trigger] values[i] <= max
}

/// `min` and `max` are values of the column, and all others lie between them.
pub open spec fn is_bytes_range(values: Seq<Seq<u8>>, min: Seq<u8>, max: Seq<u8>) -> bool {
    &&& values.contains(min)
    &&& values.contains(max)
    &&& forall|i: int|
        0 <= i < values.len() ==> lex_le(min, #[trigger] values[i]) && lex_le(values[i], max)
}

impl ZoneMapValue {
    pub open spec fn view(&self) -> RangeView {
        match self {
            ZoneMapValue::Unknown => RangeView::Unknown,
            ZoneMapValue::I64 { min, max } => RangeView::I64 { min: *min, max: *max },
            ZoneMapValue::Bytes { min, max } => RangeView::Bytes { min: min@, max: max@ },
            ZoneMapValue::Fixed { min, max } => RangeView::Fixed { min: min@, max: max@ },
        }
    }
}

impl Default for ZoneMap {
    fn default() -> (r: Self)
        ensures
            r@ == (ZoneView { value: RangeView::Unknown, null_count: 0 }),
    {
        ZoneMap { value: ZoneMapValue::Unknown, null_count: 0 }
    }
}

impl ZoneMap {
    pub open spec fn view(&self) -> ZoneView {
        ZoneView { value: self.value@, null_count: self.null_count }
    }

    /// The zone map of an integer column.
    pub fn from_i64(values: &[i64], null_count: u32) -> (r: Self)
        ensures
            r.null_count == null_count,
            match r@.value {
                RangeView::Unknown => values@.len() == 0,
                RangeView::I64 { min, max } => values@.len() > 0 && is_i64_range(values@, min, max),
                _ => false,
            },
    {
        if values.len() == 0 {
            return ZoneMap { value: ZoneMapValue::Unknown, null_count };
        }
        let mut min: i64 = values[0];
        let mut max: i64 = values[0];
        let mut i: usize = 1;
        assert(values@[0] == min);
        while i < values.len()
            invariant
                1 <= i <= values@.len(),
                values@.contains(min),
                values@.contains(max),
                forall|k: int| 0 <= k < i ==> min <= #[trigger] values@[k] <= max,
            decreases values.len() - i,
        {
            let v: i64 = values[i];
            assert(values@[i as int] == v);
            if v < min {
                min = v;
            }
            if v > max {
                max = v;
            }
            i = i + 1;
        }
        ZoneMap { value: ZoneMapValue::I64 { min, max }, null_count }
    }

    /// The zone map of a column of byte strings.
    pub fn from_bytes(values: &[&[u8]], null_count: u32) -> (r: Self)
        ensures
            r.null_count == null_count,
            match r@.value {
                RangeView::Unknown => values@.len() == 0,
                RangeView::Bytes { min, max } => values@.len() > 0 && is_bytes_range(
                    slice_rows(values@),
                    min,
                    max,
                ),
                _ => false,
            },
    {
        if values.len() == 0 {
            return ZoneMap { value: ZoneMapValue::Unknown, null_count };
        }
        let ghost rows = slice_rows(values@);
        let mut lo: usize = 0;
        let mut hi: usize = 0;
        let mut i: usize = 1;
        proof {
            lemma_lex_total(rows[0], rows[0]);
        }
        while i < values.len()
            invariant
                1 <= i <= values@.len(),
                lo < values@.len(),
                hi < values@.len(),
                rows == slice_rows(values@),
                forall|k: int|
                    0 <= k < i ==> lex_le(rows[lo as int], #[trigger] rows[k]) && lex_le(
                        rows[k],
                        rows[hi as int],
                    ),
            decreases values.len() - i,
        {
            let ghost old_lo = lo;
            let ghost old_hi = hi;
            let new_lo: usize = if bytes_le(values[lo], values[i]) {
                lo
            } else {
                i
            };
            let new_hi: usize = if bytes_le(values[i], values[hi]) {
                hi
            } else {
                i
            };
            proof {
                lemma_lex_total(rows[lo as int], rows[i as int]);
                lemma_lex_total(rows[i as int], rows[hi as int]);
                lemma_lex_total(rows[i as int], rows[i as int]);
                assert forall|k: int| 0 <= k < i + 1 implies lex_le(
                    rows[new_lo as int],
                    #[trigger] rows[k],
                ) && lex_le(rows[k], rows[new_hi as int]) by {
                    if k < i {
                        if new_lo == i {
                            lemma_lex_transitive(rows[i as int], rows[lo as int], rows[k]);
                        }
                        if new_hi == i {
                            lemma_lex_transitive(rows[k], rows[hi as int], rows[i as int]);
                        }
                    }
                }
            }
            lo = new_lo;
            hi = new_hi;
            i = i + 1;
        }
        let min: Vec<u8> = copy_bytes(values[lo]);
        let max: Vec<u8> = copy_bytes(values[hi]);
        assert(rows[lo as int] == min@);
        assert(rows[hi as int] == max@);
        ZoneMap { value: ZoneMapValue::Bytes { min, max }, null_count }
    }

    /// Appends the written form.
    pub fn write(&self, out: &mut Vec<u8>)
        ensures
            final(out)@ == old(out)@ + self@.bytes(),
    {
        let ghost before = out@;
        match &self.value {
            ZoneMapValue::Unknown => {
                put_u32(out, 0);
            },
            ZoneMapValue::I64 { min, max } => {
                put_u32(out, 1);
                put_i64(out, *min);
                put_i64(out, *max);
            },
            ZoneMapValue::Bytes { min, max } => {
                put_u32(out, 2);
                put_blob(out, min.as_slice());
                put_blob(out, max.as_slice());
            },
            ZoneMapValue::Fixed { min, max } => {
                put_u32(out, 3);
                put_blob(out, min.as_slice());
                put_blob(out, max.as_slice());
            },
        }
        put_u32(out, self.null_count);
        assert(out@ =~= before + self@.bytes());
    }

    /// Reads a zone map off the front.
    pub fn read(c: &mut Cursor<'_>) -> (r: Option<Self>)
        requires
            old(c).wf(),
        ensures
            final(c).wf(),
            match take_zone_map(old(c)@) {
                Some((z, rest)) => r matches Some(x) && x@ == z && final(c)@ == rest,
                None => r is None,
            },
    {
        let tag: u32 = match c.take_u32() {
            Some(v) => v,
            None => return None,
        };
        let value: ZoneMapValue = if tag == 0 {
            ZoneMapValue::Unknown
        } else if tag == 1 {
            let min: i64 = match c.take_i64() {
                Some(v) => v,
                None => return None,
            };
            let max: i64 = match c.take_i64() {
                Some(v) => v,
                None => return None,
            };
            ZoneMapValue::I64 { min, max }
        } else if tag == 2 || tag == 3 {
            let min: Vec<u8> = match c.take_blob() {
                Some(v) => v,
                None => return None,
            };
            let max: Vec<u8> = match c.take_blob() {
                Some(v) => v,
                None => return None,
            };
            if tag == 2 {
                ZoneMapValue::Bytes { min, max }
            } else {
                ZoneMapValue::Fixed { min, max }
            }
        } else {
            return None;
        };
        match c.take_u32() {
            Some(null_count) => Some(ZoneMap { value, null_count }),
            None => None,
        }
    }
}

} // verus!
