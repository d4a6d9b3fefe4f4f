//! What the hotcache says of a row group: the value range of each column, and for some
//! columns which rows hold which value.
use crate::common::record::{record_spans, Span, SpanRecord};
use crate::common::schema::{ColumnView, Schema};
use crate::compactor::columns::{field_named, named_from, Field, FieldKind};
use crate::format::hotcache::{column_entries, ColumnEntryView, ColumnHotcacheEntry};
use crate::format::page::borrow_rows;
use crate::format::zone_map::{
    is_bytes_range, is_i64_range, RangeView, ZoneMap, ZoneMapValue, ZoneView,
};
use crate::intern::{distinct, Interner};
use crate::rows::{byte_rows, slice_rows};
use crate::wire::low_u32;
use vstd::prelude::*;

verus! {

/// How the range of a field is known.
pub open spec fn has_number_range(f: Field) -> bool {
    f.kind_of() == FieldKind::Number && !(f is PromptTokens || f is CompletionTokens)
}

pub open spec fn has_text_range(f: Field) -> bool {
    f.kind_of() == FieldKind::Text && !(f is Prompt || f is Completion || f is ToolIoText)
}

pub open spec fn has_id_range(f: Field) -> bool {
    f is Trace || f is SpanKey
}

/// `z` is the range of the column called `name` over these rows. Missing text counts as
/// empty text; columns without a range, and all columns of no rows, have none.
pub open spec fn is_zone(name: Seq<char>, rows: Seq<Span>, z: ZoneView) -> bool {
    &&& z.null_count == 0
    &&& match named_from(0, name) {
        Some(f) => if rows.len() == 0 {
            z.value is Unknown
        } else if has_number_range(f) {
            z.value matches RangeView::I64 { min, max } && is_i64_range(
                f.numbers_of(rows),
                min,
                max,
            )
        } else if has_text_range(f) {
            z.value matches RangeView::Bytes { min, max } && is_bytes_range(
                f.strings_of(rows),
                min,
                max,
            )
        } else if has_id_range(f) {
            z.value matches RangeView::Fixed { min, max } && is_bytes_range(
                f.ids_of(rows),
                min,
                max,
            )
        } else {
            z.value is Unknown
        },
        None => z.value is Unknown,
    }
}

/// An entry that has a range but no indexes.
pub open spec fn bare_entry(i: int, z: ZoneView) -> ColumnEntryView {
    ColumnEntryView {
        column_idx: (i % 0x1_0000_0000) as u32,
        zone_map: z,
        posting: (None, None),
        fts: (None, None),
        jsonpath: (None, None),
        hnsw: (None, None),
    }
}

/// One entry per column of the schema, with its range and no indexes.
pub open spec fn is_zones(
    columns: Seq<ColumnView>,
    rows: Seq<Span>,
    entries: Seq<ColumnEntryView>,
) -> bool {
    &&& entries.len() == columns.len()
    &&& forall|i: int|
        0 <= i < entries.len() ==> (#[trigger] entries[i]) == bare_entry(i, entries[i].zone_map)
            && is_zone(columns[i].name, rows, entries[i].zone_map)
}

/// The range of a list of identifiers.
fn id_zone(ids: &Vec<[u8; 16]>, Ghost(all): Ghost<Seq<Seq<u8>>>) -> (r: ZoneMap)
    requires
        all.len() == ids@.len(),
        forall|i: int| 0 <= i < all.len() ==> (#[trigger] ids@[i])@ == all[i],
    ensures
        r@.null_count == 0,
        if all.len() == 0 {
            r@.value is Unknown
        } else {
            r@.value matches RangeView::Fixed { min, max } && is_bytes_range(all, min, max)
        },
{
    let mut refs: Vec<&[u8]> = Vec::new();
    let mut i: usize = 0;
    while i < ids.len()
        invariant
            i <= ids@.len(),
            refs@.len() == i,
            forall|k: int| 0 <= k < i ==> (#[trigger] refs@[k])@ == ids@[k]@,
        decreases ids.len() - i,
    {
        refs.push(ids[i].as_slice());
        i = i + 1;
    }
    assert(slice_rows(refs@) =~= all);
    let ZoneMap { value, null_count } = ZoneMap::from_bytes(refs.as_slice(), 0);
    let value = match value {
        ZoneMapValue::Bytes { min, max } => ZoneMapValue::Fixed { min, max },
        other => other,
    };
    ZoneMap { value, null_count }
}

/// The range of the column called `name`.
fn zone_of(name: &str, rows: &[SpanRecord]) -> (r: ZoneMap)
    ensures
        is_zone(name@, record_spans(rows@), r@),
{
    match field_named(name) {
        Some(f) => match f {
            Field::Tenant | Field::Partition | Field::StartTime | Field::EndTime | Field::Duration
            | Field::Commit => {
                let v = f.numbers(rows);
                assert(v@.len() == record_spans(rows@).len());
                ZoneMap::from_i64(v.as_slice(), 0)
            },
            Field::SpanKind | Field::Status | Field::Provider | Field::Model | Field::ToolName
            | Field::User | Field::Session | Field::Request => {
                let v = f.strings(rows);
                let refs = borrow_rows(&v);
                assert(slice_rows(refs@) == f.strings_of(record_spans(rows@)));
                assert(slice_rows(refs@).len() == refs@.len());
                ZoneMap::from_bytes(refs.as_slice(), 0)
            },
            Field::Trace | Field::SpanKey => {
                let ids = f.ids(rows);
                id_zone(&ids, Ghost(f.ids_of(record_spans(rows@))))
            },
            _ => ZoneMap::default(),
        },
        None => ZoneMap::default(),
    }
}

/// One entry per column of the schema with the column's value range in these rows.
pub fn build_zone_maps(rows: &[SpanRecord], schema: &Schema) -> (r: Vec<ColumnHotcacheEntry>)
    ensures
        is_zones(schema@, record_spans(rows@), column_entries(r@)),
{
    let mut out: Vec<ColumnHotcacheEntry> = Vec::new();
    let mut i: usize = 0;
    while i < schema.columns.len()
        invariant
            i <= schema.columns@.len(),
            schema@.len() == schema.columns@.len(),
            out@.len() == i,
            forall|k: int|
                0 <= k < i ==> (#[trigger] column_entries(out@)[k]) == bare_entry(
                    k,
                    column_entries(out@)[k].zone_map,
                ) && is_zone(
                    schema@[k].name,
                    record_spans(rows@),
                    column_entries(out@)[k].zone_map,
                ),
        decreases schema.columns.len() - i,
    {
        let zone_map = zone_of(schema.columns[i].name.as_str(), rows);
        let ghost before = out@;
        out.push(
            ColumnHotcacheEntry {
                column_idx: low_u32(i),
                zone_map,
                posting_offset: None,
                posting_length: None,
                fts_offset: None,
                fts_length: None,
                jsonpath_offset: None,
                jsonpath_length: None,
                hnsw_offset: None,
                hnsw_length: None,
            },
        );
        proof {
            assert forall|k: int| 0 <= k < i + 1 implies (#[trigger] column_entries(out@)[k])
                == bare_entry(k, column_entries(out@)[k].zone_map) && is_zone(
                schema@[k].name,
                record_spans(rows@),
                column_entries(out@)[k].zone_map,
            ) by {
                if k < i {
                    assert(column_entries(out@)[k] == column_entries(before)[k]);
                }
            }
        }
        i = i + 1;
    }
    out
}

/// For each value of a column the rows that hold it.
pub struct PostingMap {
    pub entries: Vec<(Vec<u8>, Vec<u32>)>,
}

/// The rows among the first `n` that hold `value`.
pub open spec fn rows_with(values: Seq<Seq<u8>>, value: Seq<u8>, n: nat) -> Seq<u32>
    decreases n,
{
    if n == 0 {
        Seq::empty()
    } else if values[n - 1] == value {
        rows_with(values, value, (n - 1) as nat).push((n - 1) as u32)
    } else {
        rows_with(values, value, (n - 1) as nat)
    }
}

impl PostingMap {
    /// The values with their rows.
    pub open spec fn view(&self) -> Seq<(Seq<u8>, Seq<u32>)> {
        Seq::new(self.entries@.len(), |i: int| (self.entries@[i].0@, self.entries@[i].1@))
    }
}

/// `map` lists every value of the column once, with its rows in order.
pub open spec fn is_posting(values: Seq<Seq<u8>>, map: Seq<(Seq<u8>, Seq<u32>)>) -> bool {
    &&& forall|i: int, j: int|
        0 <= i < j < map.len() ==> (#[trigger] map[i]).0 != (#[trigger] map[j]).0
    &&& forall|i: int|
        0 <= i < map.len() ==> values.contains((#[trigger] map[i]).0) && map[i].1 == rows_with(
            values,
            map[i].0,
            values.len(),
        )
    &&& forall|k: int| 0 <= k < values.len() ==> lists_value(map, #[trigger] values[k])
}

/// The map has an entry for the value.
pub open spec fn lists_value(map: Seq<(Seq<u8>, Seq<u32>)>, value: Seq<u8>) -> bool {
    exists|i: int| 0 <= i < map.len() && (#[trigger] map[i]).0 == value
}

/// The values of a column that has posting lists; other columns have none.
pub open spec fn posting_values(name: Seq<char>, rows: Seq<Span>) -> Seq<Seq<u8>> {
    match named_from(0, name) {
        Some(f) => if is_bitmap_field(f) {
            f.strings_of(rows)
        } else {
            Seq::empty()
        },
        None => Seq::empty(),
    }
}

/// The fields that get posting lists.
pub open spec fn is_bitmap_field(f: Field) -> bool {
    f is Model || f is Status || f is Provider || f is ToolName || f is SpanKind
}

/// The posting lists of a list of values.
fn posting_of(values: &Vec<Vec<u8>>) -> (r: PostingMap)
    requires
        values@.len() <= u32::MAX,
    ensures
        is_posting(byte_rows(values@), r@),
{
    let ghost all = byte_rows(values@);
    let mut seen = Interner::new();
    let mut lists: Vec<Vec<u32>> = Vec::new();
    let mut i: usize = 0;
    while i < values.len()
        invariant
            i <= values@.len(),
            values@.len() <= u32::MAX,
            all == byte_rows(values@),
            lists@.len() == seen@.len(),
            distinct(seen@),
            forall|d: int|
                0 <= d < seen@.len() ==> (#[trigger] lists@[d])@ == rows_with(
                    all,
                    seen@[d],
                    i as nat,
                ),
            forall|d: int| 0 <= d < seen@.len() ==> all.contains(#[trigger] seen@[d]),
            forall|k: int| 0 <= k < i ==> seen@.contains(#[trigger] all[k]),
        decreases values.len() - i,
    {
        let ghost seen0 = seen@;
        let ghost lists0 = lists@;
        let (d, fresh) = seen.find_or_add(values[i].as_slice());
        assert(all[i as int] == values@[i as int]@);
        if fresh {
            let mut one: Vec<u32> = Vec::new();
            one.push(i as u32);
            proof {
                lemma_no_rows(all, all[i as int], i as nat, seen0);
                assert(one@ =~= rows_with(all, all[i as int], (i + 1) as nat));
            }
            lists.push(one);
        } else {
            let mut list: Vec<u32> = Vec::new();
            std::mem::swap(&mut lists[d], &mut list);
            list.push(i as u32);
            lists.set(d, list);
        }
        proof {
            assert forall|e: int| 0 <= e < seen@.len() implies (#[trigger] lists@[e])@ == rows_with(
                all,
                seen@[e],
                (i + 1) as nat,
            ) by {
                if e != d {
                    assert(lists@[e] == lists0[e]);
                    if e < d {
                        assert(seen@[e] != seen@[d as int]);
                    } else {
                        assert(seen@[d as int] != seen@[e]);
                    }
                }
            }
            assert forall|k: int| 0 <= k < i + 1 implies seen@.contains(#[trigger] all[k]) by {
                if k < i {
                    let j = choose|j: int| 0 <= j < seen0.len() && seen0[j] == all[k];
                    assert(seen@[j] == all[k]);
                } else {
                    assert(seen@[d as int] == all[k]);
                }
            }
        }
        i = i + 1;
    }
    let ghost keys = seen@;
    let values = seen.into_items();
    assert(byte_rows(values@) == keys);
    zip_lists(values, lists, Ghost(keys), Ghost(all))
}

proof fn lemma_no_rows(all: Seq<Seq<u8>>, value: Seq<u8>, n: nat, seen: Seq<Seq<u8>>)
    requires
        n <= all.len(),
        forall|k: int| 0 <= k < n ==> seen.contains(#[trigger] all[k]),
        !seen.contains(value),
    ensures
        rows_with(all, value, n) == Seq::<u32>::empty(),
    decreases n,
{
    if n > 0 {
        lemma_no_rows(all, value, (n - 1) as nat, seen);
        assert(seen.contains(all[n - 1]));
    }
}

fn zip_lists(
    values: Vec<Vec<u8>>,
    lists: Vec<Vec<u32>>,
    Ghost(keys): Ghost<Seq<Seq<u8>>>,
    Ghost(all): Ghost<Seq<Seq<u8>>>,
) -> (r: PostingMap)
    requires
        byte_rows(values@) == keys,
        lists@.len() == keys.len(),
        distinct(keys),
        forall|d: int|
            0 <= d < keys.len() ==> (#[trigger] lists@[d])@ == rows_with(all, keys[d], all.len()),
        forall|d: int| 0 <= d < keys.len() ==> all.contains(#[trigger] keys[d]),
        forall|k: int| 0 <= k < all.len() ==> keys.contains(#[trigger] all[k]),
    ensures
        is_posting(all, r@),
{
    let mut entries: Vec<(Vec<u8>, Vec<u32>)> = Vec::new();
    let mut i: usize = 0;
    assert(values@.len() == keys.len());
    while i < values.len()
        invariant
            i <= values@.len(),
            values@.len() == lists@.len(),
            entries@.len() == i,
            forall|k: int|
                0 <= k < i ==> (#[trigger] entries@[k]).0@ == values@[k]@ && entries@[k].1@
                    == lists@[k]@,
        decreases values.len() - i,
    {
        let list: Vec<u32> = vstd::slice::slice_to_vec(lists[i].as_slice());
        entries.push((crate::rows::copy_bytes(values[i].as_slice()), list));
        i = i + 1;
    }
    let r = PostingMap { entries };
    proof {
        assert forall|d: int| 0 <= d < r@.len() implies (#[trigger] r@[d]) == (
            keys[d],
            lists@[d]@,
        ) by {
            assert(keys[d] == values@[d]@);
        }
        assert forall|i: int, j: int| 0 <= i < j < r@.len() implies (#[trigger] r@[i]).0
            != (#[trigger] r@[j]).0 by {
            assert(keys[i] != keys[j]);
        }
        assert forall|k: int| 0 <= k < all.len() implies lists_value(r@, #[trigger] all[k]) by {
            assert(keys.contains(all[k]));
            let j = choose|j: int| 0 <= j < keys.len() && keys[j] == all[k];
            assert(r@[j].0 == all[k]);
        }
    }
    r
}

/// The posting lists of a column over these rows: for each value the rows that hold it.
/// Columns without posting lists give an empty map.
pub fn build_posting_for_column(rows: &[SpanRecord], column: &str) -> (r: PostingMap)
    requires
        rows@.len() <= u32::MAX,
    ensures
        is_posting(posting_values(column@, record_spans(rows@)), r@),
{
    let mut values: Vec<Vec<u8>> = Vec::new();
    match field_named(column) {
        Some(f) => match f {
            Field::Model | Field::Status | Field::Provider | Field::ToolName | Field::SpanKind => {
                values = f.strings(rows);
            },
            _ => {},
        },
        None => {},
    }
    assert(byte_rows(values@) =~= posting_values(column@, record_spans(rows@)));
    assert(byte_rows(values@).len() == values@.len());
    posting_of(&values)
}

} // verus!
