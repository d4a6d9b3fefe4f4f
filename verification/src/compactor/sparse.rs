//! The key ranges of row groups, which the catalog keeps with a segment.
use crate::common::record::{record_spans, Span, SpanRecord};
use crate::common::types::filled16;
use crate::cursor::string_views;
use crate::format::hotcache::{ColumnEntryView, ColumnHotcacheEntry, GroupEntryView};
use crate::format::meta::id_lt;
use crate::format::reader::SegmentReader;
use crate::format::row_group::HeaderView;
use crate::format::zone_map::{RangeView, ZoneMapValue};
use crate::order::{lemma_lex_total, lemma_lex_transitive, lex_le, lex_lt};
use crate::text::text_eq;
use crate::wire::{i64_pattern, i64_to_u64};
use vstd::prelude::*;
use vstd::slice::slice_subrange;
use vstd::string::*;

verus! {

/// The ranges of a row group's traces, start times and commits.
#[derive(Clone, Copy, Debug)]
pub struct RowGroupKey {
    pub min_trace_id: [u8; 16],
    pub max_trace_id: [u8; 16],
    pub min_start_time: i64,
    pub max_start_time: i64,
    pub min_commit_id: u64,
    pub max_commit_id: u64,
}

/// Every range of the key holds the row.
pub open spec fn key_holds(key: RowGroupKey, r: Span) -> bool {
    &&& lex_le(key.min_trace_id@, r.trace_id) && lex_le(r.trace_id, key.max_trace_id@)
    &&& key.min_start_time <= r.start_time_ms <= key.max_start_time
    &&& key.min_commit_id <= r.commit_id.0 <= key.max_commit_id
}

/// The ranges of the key are those of the rows: they hold every row, and each end is
/// reached by one.
pub open spec fn is_group_key(rows: Seq<Span>, key: RowGroupKey) -> bool {
    &&& forall|i: int| 0 <= i < rows.len() ==> key_holds(key, #[trigger] rows[i])
    &&& exists|i: int| 0 <= i < rows.len() && (#[trigger] rows[i]).trace_id == key.min_trace_id@
    &&& exists|i: int| 0 <= i < rows.len() && (#[trigger] rows[i]).trace_id == key.max_trace_id@
    &&& exists|i: int| 0 <= i < rows.len() && (#[trigger] rows[i]).start_time_ms == key.min_start_time
    &&& exists|i: int| 0 <= i < rows.len() && (#[trigger] rows[i]).start_time_ms == key.max_start_time
    &&& exists|i: int| 0 <= i < rows.len() && (#[trigger] rows[i]).commit_id.0 == key.min_commit_id
    &&& exists|i: int| 0 <= i < rows.len() && (#[trigger] rows[i]).commit_id.0 == key.max_commit_id
}

/// The key of a list of rows.
fn group_key(rows: &[SpanRecord]) -> (r: RowGroupKey)
    requires
        rows@.len() > 0,
    ensures
        is_group_key(record_spans(rows@), r),
{
    let ghost all = record_spans(rows@);
    let mut lo: usize = 0;
    let mut hi: usize = 0;
    let mut first: usize = 0;
    let mut last: usize = 0;
    let mut low: usize = 0;
    let mut high: usize = 0;
    let mut i: usize = 1;
    proof {
        lemma_lex_total(all[0].trace_id, all[0].trace_id);
    }
    while i < rows.len()
        invariant
            1 <= i <= rows.len(),
            all == record_spans(rows@),
            lo < i,
            hi < i,
            first < i,
            last < i,
            low < i,
            high < i,
            forall|k: int|
                0 <= k < i ==> lex_le(all[lo as int].trace_id, (#[trigger] all[k]).trace_id)
                    && lex_le(all[k].trace_id, all[hi as int].trace_id),
            forall|k: int|
                0 <= k < i ==> all[first as int].start_time_ms <= (#[trigger] all[k]).start_time_ms
                    <= all[last as int].start_time_ms,
            forall|k: int|
                0 <= k < i ==> all[low as int].commit_id.0 <= (#[trigger] all[k]).commit_id.0
                    <= all[high as int].commit_id.0,
        decreases rows.len() - i,
    {
        let ghost id = all[i as int].trace_id;
        let ghost old_lo = all[lo as int].trace_id;
        let ghost old_hi = all[hi as int].trace_id;
        assert(rows@[i as int]@ == all[i as int]);
        proof {
            lemma_lex_total(id, id);
            lemma_lex_total(id, old_lo);
            lemma_lex_total(id, old_hi);
        }
        let row = &rows[i];
        if id_lt(&row.trace_id.0, &rows[lo].trace_id.0) {
            lo = i;
        }
        if id_lt(&rows[hi].trace_id.0, &row.trace_id.0) {
            hi = i;
        }
        proof {
            assert forall|k: int| 0 <= k < i implies lex_le(
                all[lo as int].trace_id,
                (#[trigger] all[k]).trace_id,
            ) && lex_le(all[k].trace_id, all[hi as int].trace_id) by {
                if lex_lt(id, old_lo) {
                    lemma_lex_transitive(id, old_lo, all[k].trace_id);
                }
                if lex_lt(old_hi, id) {
                    lemma_lex_transitive(all[k].trace_id, old_hi, id);
                }
            }
        }
        if row.start_time_ms < rows[first].start_time_ms {
            first = i;
        }
        if row.start_time_ms > rows[last].start_time_ms {
            last = i;
        }
        if row.commit_id.0 < rows[low].commit_id.0 {
            low = i;
        }
        if row.commit_id.0 > rows[high].commit_id.0 {
            high = i;
        }
        i = i + 1;
    }
    let key = RowGroupKey {
        min_trace_id: rows[lo].trace_id.0,
        max_trace_id: rows[hi].trace_id.0,
        min_start_time: rows[first].start_time_ms,
        max_start_time: rows[last].start_time_ms,
        min_commit_id: rows[low].commit_id.0,
        max_commit_id: rows[high].commit_id.0,
    };
    proof {
        assert(all[lo as int].trace_id == key.min_trace_id@);
        assert(all[hi as int].trace_id == key.max_trace_id@);
        assert(all[first as int].start_time_ms == key.min_start_time);
        assert(all[last as int].start_time_ms == key.max_start_time);
        assert(all[low as int].commit_id.0 == key.min_commit_id);
        assert(all[high as int].commit_id.0 == key.max_commit_id);
        assert forall|k: int| 0 <= k < all.len() implies key_holds(key, #[trigger] all[k]) by {}
    }
    key
}

/// The rows of each row group that has any, when the groups take up the rows in order.
pub open spec fn rows_by_group(rows: Seq<Span>, groups: Seq<HeaderView>) -> Seq<Seq<Span>>
    decreases groups.len(),
{
    if groups.len() == 0 {
        Seq::empty()
    } else {
        let n = groups[0].row_count as int;
        let end = if n < rows.len() { n } else { rows.len() as int };
        let rest = rows_by_group(rows.skip(end), groups.drop_first());
        if end == 0 {
            rest
        } else {
            seq![rows.take(end)] + rest
        }
    }
}

/// The keys are those of the groups, in order.
pub open spec fn are_group_keys(groups: Seq<Seq<Span>>, keys: Seq<RowGroupKey>) -> bool {
    &&& keys.len() == groups.len()
    &&& forall|k: int| 0 <= k < keys.len() ==> is_group_key(groups[k], #[trigger] keys[k])
}

/// The keys of the row groups of a segment that holds these rows in order.
pub fn keys_from_rows(rows: &[SpanRecord], reader: &SegmentReader) -> (r: Vec<RowGroupKey>)
    ensures
        are_group_keys(rows_by_group(record_spans(rows@), reader@.row_groups), r@),
{
    let ghost spans = record_spans(rows@);
    let ghost heads = reader@.row_groups;
    let ghost whole = rows_by_group(spans, heads);
    let mut out: Vec<RowGroupKey> = Vec::new();
    let mut start: usize = 0;
    let mut g: usize = 0;
    assert(spans.skip(0) =~= spans);
    assert(heads.skip(0) =~= heads);
    while g < reader.row_groups.len()
        invariant
            g <= reader.row_groups@.len(),
            start <= rows.len(),
            spans == record_spans(rows@),
            heads == reader@.row_groups,
            heads.len() == reader.row_groups@.len(),
            whole == rows_by_group(spans, heads),
            whole.len() == out@.len() + rows_by_group(
                spans.skip(start as int),
                heads.skip(g as int),
            ).len(),
            rows_by_group(spans.skip(start as int), heads.skip(g as int)) == whole.skip(
                out@.len() as int,
            ),
            forall|k: int| 0 <= k < out@.len() ==> is_group_key(whole[k], #[trigger] out@[k]),
        decreases reader.row_groups.len() - g,
    {
        let n: u32 = reader.row_groups[g].row_count;
        let left: usize = rows.len() - start;
        let take: usize = if (n as u64) < left as u64 {
            n as usize
        } else {
            left
        };
        let end: usize = start + take;
        let ghost here = rows_by_group(spans.skip(start as int), heads.skip(g as int));
        let ghost next = rows_by_group(spans.skip(end as int), heads.skip(g + 1));
        proof {
            assert(heads.skip(g as int)[0] == heads[g as int]);
            assert(heads[g as int] == reader.row_groups@[g as int]@);
            assert(heads.skip(g as int).drop_first() =~= heads.skip(g + 1));
            assert(spans.skip(start as int).skip(take as int) =~= spans.skip(end as int));
            assert(spans.skip(start as int).take(take as int) =~= spans.subrange(
                start as int,
                end as int,
            ));
        }
        if take > 0 {
            let chunk = slice_subrange(rows, start, end);
            assert(record_spans(chunk@) =~= spans.subrange(start as int, end as int));
            let key = group_key(chunk);
            proof {
                assert(here =~= seq![spans.subrange(start as int, end as int)] + next);
                assert(here[0] == whole[out@.len() as int]);
                assert(next =~= here.drop_first());
                assert(here.drop_first() =~= whole.skip(out@.len() as int + 1));
            }
            out.push(key);
        }
        start = end;
        g = g + 1;
    }
    assert(heads.skip(g as int) =~= Seq::empty());
    out
}

/// The entry belongs to the column of that name.
pub open spec fn entry_named(names: Seq<Seq<char>>, e: ColumnEntryView, name: Seq<char>) -> bool {
    e.column_idx < names.len() && names[e.column_idx as int] == name
}

/// The range of the first entry for the column of that name.
pub open spec fn range_named(
    names: Seq<Seq<char>>,
    entries: Seq<ColumnEntryView>,
    name: Seq<char>,
) -> RangeView
    decreases entries.len(),
{
    if entries.len() == 0 {
        RangeView::Unknown
    } else if entry_named(names, entries[0], name) {
        entries[0].zone_map.value
    } else {
        range_named(names, entries.drop_first(), name)
    }
}

/// The first sixteen bytes, filled up with zeros.
pub open spec fn padded(b: Seq<u8>) -> Seq<u8> {
    Seq::new(16, |i: int| if i < b.len() { b[i] } else { 0u8 })
}

/// The key of a row group as its hotcache entry tells it. A range that is not known is as
/// wide as can be.
pub open spec fn is_hotcache_key(
    names: Seq<Seq<char>>,
    entry: GroupEntryView,
    key: RowGroupKey,
) -> bool {
    &&& match range_named(names, entry.columns, "trace_id"@) {
        RangeView::Fixed { min, max } | RangeView::Bytes { min, max } => key.min_trace_id@
            == padded(min) && key.max_trace_id@ == padded(max),
        _ => key.min_trace_id@ == padded(Seq::empty()) && key.max_trace_id@ == Seq::new(
            16,
            |i: int| 255u8,
        ),
    }
    &&& match range_named(names, entry.columns, "start_time_ms"@) {
        RangeView::I64 { min, max } => key.min_start_time == min && key.max_start_time == max,
        _ => key.min_start_time == i64::MIN && key.max_start_time == i64::MAX,
    }
    &&& match range_named(names, entry.columns, "commit_id"@) {
        RangeView::I64 { min, max } => key.min_commit_id == i64_pattern(min) && key.max_commit_id
            == i64_pattern(max),
        _ => key.min_commit_id == 0 && key.max_commit_id == u64::MAX,
    }
}

/// The first entry for the column of that name.
fn find_entry<'a>(
    names: &Vec<String>,
    entries: &'a Vec<ColumnHotcacheEntry>,
    name: &str,
) -> (r: Option<&'a ZoneMapValue>)
    ensures
        match r {
            Some(v) => range_named(
                string_views(names@),
                crate::format::hotcache::column_entries(entries@),
                name@,
            ) == v@,
            None => range_named(
                string_views(names@),
                crate::format::hotcache::column_entries(entries@),
                name@,
            ) is Unknown,
        },
{
    let ghost all = crate::format::hotcache::column_entries(entries@);
    let ghost texts = string_views(names@);
    let mut i: usize = 0;
    assert(all.skip(0) =~= all);
    while i < entries.len()
        invariant
            i <= entries@.len(),
            all == crate::format::hotcache::column_entries(entries@),
            texts == string_views(names@),
            range_named(texts, all, name@) == range_named(texts, all.skip(i as int), name@),
        decreases entries.len() - i,
    {
        let c: u32 = entries[i].column_idx;
        proof {
            assert(all.skip(i as int).drop_first() =~= all.skip(i + 1));
            assert(all.skip(i as int)[0] == entries@[i as int]@);
        }
        if (c as u64) < names.len() as u64 {
            assert(texts[c as int] == names@[c as int]@);
            if text_eq(names[c as usize].as_str(), name) {
                return Some(&entries[i].zone_map.value);
            }
        }
        i = i + 1;
    }
    None
}

fn pad16(b: &Vec<u8>) -> (r: [u8; 16])
    ensures
        r@ == padded(b@),
{
    let mut a: [u8; 16] = [0u8; 16];
    let mut i: usize = 0;
    while i < 16
        invariant
            i <= 16,
            forall|k: int| 0 <= k < i ==> #[trigger] a@[k] == padded(b@)[k],
        decreases 16 - i,
    {
        a[i] = if i < b.len() { b[i] } else { 0 };
        i = i + 1;
    }
    assert(a@ =~= padded(b@));
    a
}

/// The keys of a segment's row groups as its hotcache tells them.
pub fn keys_from_hotcache(reader: &SegmentReader) -> (r: Vec<RowGroupKey>)
    ensures
        r@.len() == (if reader@.row_groups.len() <= reader@.hotcache.len() {
            reader@.row_groups.len()
        } else {
            reader@.hotcache.len()
        }),
        forall|k: int|
            0 <= k < r@.len() ==> is_hotcache_key(
                reader@.metadata.column_names,
                reader@.hotcache[k],
                #[trigger] r@[k],
            ),
{
    let mut out: Vec<RowGroupKey> = Vec::new();
    let mut i: usize = 0;
    while i < reader.row_groups.len() && i < reader.hotcache.row_groups.len()
        invariant
            i <= reader.row_groups@.len(),
            i <= reader.hotcache.row_groups@.len(),
            out@.len() == i,
            reader@.row_groups.len() == reader.row_groups@.len(),
            reader@.hotcache.len() == reader.hotcache.row_groups@.len(),
            forall|k: int|
                0 <= k < i ==> is_hotcache_key(
                    reader@.metadata.column_names,
                    reader@.hotcache[k],
                    #[trigger] out@[k],
                ),
        decreases reader.row_groups.len() - i,
    {
        let names = &reader.metadata.column_names;
        let entry = &reader.hotcache.row_groups[i];
        assert(reader@.hotcache[i as int] == entry@);
        let none: Vec<u8> = Vec::new();
        assert(none@ =~= Seq::empty());
        let (min_trace_id, max_trace_id) = match find_entry(names, &entry.columns, "trace_id") {
            Some(ZoneMapValue::Fixed { min, max }) => (pad16(min), pad16(max)),
            Some(ZoneMapValue::Bytes { min, max }) => (pad16(min), pad16(max)),
            _ => (pad16(&none), filled16(255)),
        };
        let (min_start_time, max_start_time) = match find_entry(
            names,
            &entry.columns,
            "start_time_ms",
        ) {
            Some(ZoneMapValue::I64 { min, max }) => (*min, *max),
            _ => (i64::MIN, i64::MAX),
        };
        let (min_commit_id, max_commit_id) = match find_entry(names, &entry.columns, "commit_id") {
            Some(ZoneMapValue::I64 { min, max }) => (i64_to_u64(*min), i64_to_u64(*max)),
            _ => (0, u64::MAX),
        };
        out.push(
            RowGroupKey {
                min_trace_id,
                max_trace_id,
                min_start_time,
                max_start_time,
                min_commit_id,
                max_commit_id,
            },
        );
        i = i + 1;
    }
    out
}

} // verus!
