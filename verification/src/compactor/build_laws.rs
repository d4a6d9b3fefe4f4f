//! What a built segment promises: its metadata covers its rows, its columns and index
//! blobs read back, and so do its rows.
use crate::common::errors::ErrorView;
use crate::common::record::Span;
use crate::common::schema::ColumnView;
use crate::compactor::assembly::{
    bitmap_columns, blob_or_empty, columns_of, first_column, fts_columns, group_entry, groups_ok,
    index_parts, is_first_column, place, plain_parts, posting_place, segment_parts, GroupView,
};
use crate::compactor::builder::{observed, with_row};
use crate::compactor::columns::{
    field_names_are_distinct, fields_in, is_field_page, is_row_group, last_named, stored_fields,
    Field, FIELD_COUNT,
};
use crate::format::meta::MetaView;
use crate::format::page::Column;
use crate::format::page_laws::page_fits;
use crate::format::row_group::PageEntry;
use crate::format::segment_laws::{segment_column_round_trip, written_view};
use crate::order::{lemma_lex_total, lemma_lex_transitive, lex_le};
use crate::rows::{flat, lemma_flat_at, offset_of};
use vstd::prelude::*;

verus! {

/// The ranges of the metadata hold the row.
pub open spec fn covers(m: MetaView, r: Span) -> bool {
    &&& m.time_min_ms <= r.start_time_ms <= m.time_max_ms
    &&& m.commit_id_min.0 <= r.commit_id.0 <= m.commit_id_max.0
    &&& lex_le(m.trace_id_min, r.trace_id) && lex_le(r.trace_id, m.trace_id_max)
    &&& lex_le(m.span_id_min, r.span_id) && lex_le(r.span_id, m.span_id_max)
}

proof fn lemma_still_covers(m: MetaView, r: Span, next: Span)
    requires
        covers(m, r),
    ensures
        covers(with_row(m, next), r),
{
    let w = with_row(m, next);
    lemma_lex_total(w.trace_id_min, m.trace_id_min);
    lemma_lex_total(w.trace_id_max, m.trace_id_max);
    lemma_lex_total(w.span_id_min, m.span_id_min);
    lemma_lex_total(w.span_id_max, m.span_id_max);
    lemma_lex_transitive(w.trace_id_min, m.trace_id_min, r.trace_id);
    lemma_lex_transitive(r.trace_id, m.trace_id_max, w.trace_id_max);
    lemma_lex_transitive(w.span_id_min, m.span_id_min, r.span_id);
    lemma_lex_transitive(r.span_id, m.span_id_max, w.span_id_max);
}

/// The ranges in a segment's metadata hold every row, so that a reader can tell from them
/// whether the segment matters to a query.
pub proof fn metadata_covers_rows(m: MetaView, rows: Seq<Span>, i: int)
    requires
        0 <= i < rows.len(),
    ensures
        covers(observed(m, rows), rows[i]),
    decreases rows.len(),
{
    let head = rows.drop_last();
    let before = observed(m, head);
    if i < rows.len() - 1 {
        metadata_covers_rows(m, head, i);
        lemma_still_covers(before, rows[i], rows.last());
    } else {
        let r = rows.last();
        lemma_lex_total(r.trace_id, r.trace_id);
        lemma_lex_total(r.span_id, r.span_id);
        lemma_lex_total(r.trace_id, before.trace_id_min);
        lemma_lex_total(r.trace_id, before.trace_id_max);
        lemma_lex_total(r.span_id, before.span_id_min);
        lemma_lex_total(r.span_id, before.span_id_max);
    }
}

proof fn lemma_nth_distinct(i: int, j: int)
    requires
        0 <= i < j < FIELD_COUNT,
    ensures
        Field::nth(i) != Field::nth(j),
{
}

proof fn lemma_field_place(columns: Seq<ColumnView>, n: nat, k: int) -> (m: int)
    requires
        0 <= k < fields_in(columns, n).len(),
    ensures
        0 <= m < n,
        fields_in(columns, n)[k] == Field::nth(m),
        last_named(columns, Field::nth(m).name_text()) is Some,
    decreases n,
{
    let rest = fields_in(columns, (n - 1) as nat);
    if k < rest.len() {
        lemma_field_place(columns, (n - 1) as nat, k)
    } else {
        n - 1
    }
}

proof fn lemma_fields_distinct(columns: Seq<ColumnView>, n: nat, i: int, j: int)
    requires
        n <= FIELD_COUNT,
        0 <= i < j < fields_in(columns, n).len(),
    ensures
        fields_in(columns, n)[i] != fields_in(columns, n)[j],
    decreases n,
{
    let rest = fields_in(columns, (n - 1) as nat);
    if j < rest.len() {
        lemma_fields_distinct(columns, (n - 1) as nat, i, j);
    } else {
        let m = lemma_field_place(columns, (n - 1) as nat, i);
        lemma_nth_distinct(m, n - 1);
    }
}

pub proof fn lemma_last_named(columns: Seq<ColumnView>, name: Seq<char>)
    ensures
        match last_named(columns, name) {
            Some(i) => {
                &&& 0 <= i < columns.len()
                &&& columns[i].name == name
                &&& forall|j: int| i < j < columns.len() ==> (#[trigger] columns[j]).name != name
            },
            None => forall|j: int| 0 <= j < columns.len() ==> (#[trigger] columns[j]).name != name,
        },
    decreases columns.len(),
{
    if columns.len() > 0 && columns.last().name != name {
        let d = columns.drop_last();
        lemma_last_named(d, name);
        assert forall|j: int| 0 <= j < d.len() implies (#[trigger] columns[j]) == d[j] by {}
    }
}

/// The pages of a row group are of different columns.
proof fn lemma_page_columns(columns: Seq<ColumnView>, rows: Seq<Span>, pages: Seq<PageEntry>, j: int)
    requires
        is_row_group(columns, rows, pages),
        columns.len() <= u32::MAX,
        0 <= j < pages.len(),
    ensures
        last_named(columns, stored_fields(columns)[j].name_text()) is Some,
        0 <= last_named(columns, stored_fields(columns)[j].name_text())->0 < columns.len(),
        pages[j].column_idx == last_named(columns, stored_fields(columns)[j].name_text())->0,
        forall|i: int| 0 <= i < j ==> (#[trigger] pages[i]).column_idx != pages[j].column_idx,
{
    let fields = stored_fields(columns);
    let f = fields[j];
    assert(is_field_page(columns, rows, f, pages[j]));
    let m = lemma_field_place(columns, FIELD_COUNT as nat, j);
    lemma_last_named(columns, f.name_text());
    assert forall|i: int| 0 <= i < j implies (#[trigger] pages[i]).column_idx
        != pages[j].column_idx by {
        assert(is_field_page(columns, rows, fields[i], pages[i]));
        let mi = lemma_field_place(columns, FIELD_COUNT as nat, i);
        lemma_last_named(columns, fields[i].name_text());
        lemma_fields_distinct(columns, FIELD_COUNT as nat, i, j);
        field_names_are_distinct(fields[i], f);
    }
}

/// The column of a stored field reads back from a built segment, within the limits of the
/// format.
pub proof fn built_columns_read_back(
    meta: MetaView,
    columns: Seq<ColumnView>,
    groups: Seq<GroupView>,
    k: int,
    j: int,
)
    requires
        groups_ok(columns, groups),
        columns.len() <= u32::MAX,
        segment_parts(meta, columns, groups).in_range(),
        0 <= k < groups.len(),
        0 <= j < stored_fields(columns).len(),
        page_fits(
            groups[k].pages[j].bytes,
            stored_fields(columns)[j].encoding_of(),
            stored_fields(columns)[j].column_of(groups[k].rows),
        ),
        groups[k].pages[j].bytes.len() <= u32::MAX,
    ensures
        last_named(columns, stored_fields(columns)[j].name_text()) is Some,
        written_view(segment_parts(meta, columns, groups)).column(
            k,
            last_named(columns, stored_fields(columns)[j].name_text())->0 as u32,
        ) == Ok::<Column, ErrorView>(stored_fields(columns)[j].column_of(groups[k].rows)),
{
    let parts = segment_parts(meta, columns, groups);
    let g = groups[k];
    let fields = stored_fields(columns);
    let f = fields[j];
    assert(g.ok(columns));
    assert(is_field_page(columns, g.rows, f, g.pages[j]));
    lemma_page_columns(columns, g.rows, g.pages, j);
    assert(parts.headers[k] == g.header());
    assert(parts.payloads[k] == g.payload());
    segment_column_round_trip(
        parts,
        k,
        g.rows.len() as u32,
        g.pages,
        j,
        f.column_of(g.rows),
    );
}

proof fn lemma_blob_in_segment(
    meta: MetaView,
    columns: Seq<ColumnView>,
    groups: Seq<GroupView>,
    k: int,
    from: int,
    len: int,
)
    requires
        segment_parts(meta, columns, groups).body().len() <= u64::MAX,
        0 <= k < groups.len(),
        0 <= from,
        0 <= len,
        from + len <= groups[k].indexes.bytes().len(),
    ensures
        ({
            let parts = segment_parts(meta, columns, groups);
            let at = parts.groups_end().len() + offset_of(index_parts(groups), k) + from;
            &&& at + len <= parts.body().len()
            &&& parts.bytes().subrange(at, at + len) == groups[k].indexes.bytes().subrange(
                from,
                from + len,
            )
        }),
{
    let parts = segment_parts(meta, columns, groups);
    let all = index_parts(groups);
    let inline = parts.inline_indexes;
    let base = parts.groups_end().len() as int;
    let rel = offset_of(all, k) as int;
    let blob = groups[k].indexes.bytes();
    lemma_flat_at(all, k);
    assert(all[k] == blob);
    assert(inline.subrange(rel, rel + blob.len()) == blob);
    let bytes = parts.bytes();
    assert(bytes.subrange(base, base + inline.len()) =~= inline);
    let at = base + rel + from;
    assert(bytes.subrange(at, at + len) =~= blob.subrange(from, from + len)) by {
        assert forall|i: int| 0 <= i < len implies #[trigger] bytes[at + i] == blob[from + i] by {
            assert(inline.subrange(rel, rel + blob.len())[from + i] == inline[rel + from + i]);
            assert(bytes.subrange(base, base + inline.len())[rel + from + i] == bytes[at + i]);
        }
    }
}

proof fn lemma_first_column(columns: Seq<ColumnView>, name: Seq<char>)
    ensures
        first_column(columns, name) matches Some(i) ==> is_first_column(columns, name, i),
{
}

proof fn lemma_columns_of(columns: Seq<ColumnView>, fields: Seq<Field>, j: int) -> (m: int)
    requires
        0 <= j < columns_of(columns, fields).len(),
    ensures
        0 <= m < fields.len(),
        0 <= columns_of(columns, fields)[j] < columns.len(),
        columns[columns_of(columns, fields)[j]].name == fields[m].name_text(),
    decreases fields.len(),
{
    let rest = columns_of(columns, fields.drop_last());
    if j < rest.len() {
        let m = lemma_columns_of(columns, fields.drop_last(), j);
        assert(fields.drop_last()[m] == fields[m]);
        m
    } else {
        lemma_first_column(columns, fields.last().name_text());
        fields.len() - 1
    }
}

proof fn lemma_columns_of_distinct(columns: Seq<ColumnView>, fields: Seq<Field>, i: int, j: int)
    requires
        forall|a: int, b: int| 0 <= a < b < fields.len() ==> fields[a] != fields[b],
        0 <= i < j < columns_of(columns, fields).len(),
    ensures
        columns_of(columns, fields)[i] != columns_of(columns, fields)[j],
    decreases fields.len(),
{
    let d = fields.drop_last();
    let rest = columns_of(columns, d);
    if j < rest.len() {
        assert forall|a: int, b: int| 0 <= a < b < d.len() implies d[a] != d[b] by {
            assert(fields[a] != fields[b]);
        }
        lemma_columns_of_distinct(columns, d, i, j);
    } else {
        let m = lemma_columns_of(columns, d, i);
        assert(d[m] == fields[m]);
        assert(fields[m] != fields[fields.len() - 1]);
        lemma_first_column(columns, fields.last().name_text());
        field_names_are_distinct(fields[m], fields.last());
    }
}

proof fn lemma_posting_place(
    cols: Seq<int>,
    blobs: Seq<Seq<u8>>,
    at: nat,
    n: nat,
    j: int,
)
    requires
        0 <= j < n <= cols.len(),
        forall|a: int, b: int| 0 <= a < b < cols.len() ==> cols[a] != cols[b],
    ensures
        posting_place(cols, blobs, at, n, cols[j]) == place(
            at + offset_of(blobs, j),
            blobs[j].len(),
        ),
    decreases n,
{
    if j < n - 1 {
        assert(cols[j] != cols[n - 1]);
        lemma_posting_place(cols, blobs, at, (n - 1) as nat, j);
    }
}

/// Where the inline indexes begin does not depend on them.
proof fn lemma_entry_at(
    meta: MetaView,
    columns: Seq<ColumnView>,
    groups: Seq<GroupView>,
    k: int,
    c: int,
)
    requires
        0 <= k < groups.len(),
        0 <= c < columns.len(),
    ensures
        segment_parts(meta, columns, groups).hotcache[k].columns[c] == groups[k].entry(
            columns,
            segment_parts(meta, columns, groups).groups_end().len() + offset_of(
                index_parts(groups),
                k,
            ),
            c,
        ),
{
    let parts = segment_parts(meta, columns, groups);
    let plain = plain_parts(meta, groups);
    assert(parts.absolute_headers() =~= plain.absolute_headers());
    assert(parts.groups_end() == plain.groups_end());
    assert(parts.hotcache[k] == group_entry(columns, groups, plain.groups_end().len(), k));
}

/// A posting list stands in the segment where the hotcache entry of its column says.
#[verifier::rlimit(60)]
pub proof fn posting_lists_read_back(
    meta: MetaView,
    columns: Seq<ColumnView>,
    groups: Seq<GroupView>,
    k: int,
    j: int,
)
    requires
        groups_ok(columns, groups),
        segment_parts(meta, columns, groups).body().len() <= u64::MAX,
        0 <= k < groups.len(),
        0 <= j < groups[k].indexes.postings.len(),
        groups[k].indexes.postings[j].len() <= u32::MAX,
    ensures
        ({
            let parts = segment_parts(meta, columns, groups);
            let entry = parts.hotcache[k].columns[bitmap_columns(columns)[j]];
            &&& entry.posting.0 is Some && entry.posting.1 is Some
            &&& parts.bytes().subrange(
                entry.posting.0->0 as int,
                entry.posting.0->0 + entry.posting.1->0,
            ) == groups[k].indexes.postings[j]
        }),
{
    let parts = segment_parts(meta, columns, groups);
    let g = groups[k];
    let blobs = g.indexes.postings;
    let cols = bitmap_columns(columns);
    let fields = seq![
        Field::Model,
        Field::Status,
        Field::Provider,
        Field::ToolName,
        Field::SpanKind,
    ];
    assert(g.ok(columns));
    assert forall|a: int, b: int| 0 <= a < b < cols.len() implies cols[a] != cols[b] by {
        lemma_columns_of_distinct(columns, fields, a, b);
    }
    let m = lemma_columns_of(columns, fields, j);
    let base = parts.groups_end().len();
    let at = base + offset_of(index_parts(groups), k);
    lemma_posting_place(cols, blobs, at, blobs.len(), j);
    lemma_flat_at(blobs, j);
    let from = offset_of(blobs, j) as int;
    let len = blobs[j].len() as int;
    assert(g.indexes.bytes().subrange(from, from + len) =~= flat(blobs).subrange(from, from + len));
    lemma_blob_in_segment(meta, columns, groups, k, from, len);
    lemma_entry_at(meta, columns, groups, k, cols[j]);
}

/// The full-text index of a group stands where the entries of the text columns say.
#[verifier::rlimit(60)]
pub proof fn full_text_index_reads_back(
    meta: MetaView,
    columns: Seq<ColumnView>,
    groups: Seq<GroupView>,
    k: int,
    c: int,
)
    requires
        groups_ok(columns, groups),
        segment_parts(meta, columns, groups).body().len() <= u64::MAX,
        0 <= k < groups.len(),
        0 <= c < columns.len(),
        fts_columns(columns).contains(c),
        blob_or_empty(groups[k].indexes.fts).len() <= u32::MAX,
    ensures
        groups[k].indexes.fts is Some,
        segment_parts(meta, columns, groups).hotcache[k].columns[c].fts matches (
            Some(off),
            Some(len),
        ) && segment_parts(meta, columns, groups).bytes().subrange(off as int, off + len)
            == groups[k].indexes.fts->0,
{
    let g = groups[k];
    let ix = g.indexes;
    assert(g.ok(columns) && ix.fits(columns));
    lemma_entry_at(meta, columns, groups, k, c);
    let p = flat(ix.postings).len() as int;
    let f = ix.fts->0;
    assert(ix.bytes().subrange(p, p + f.len()) =~= f);
    lemma_blob_in_segment(meta, columns, groups, k, p, f.len() as int);
}

/// The JSON-path index of a group stands where the entry of the metadata column says.
#[verifier::rlimit(60)]
pub proof fn jsonpath_index_reads_back(
    meta: MetaView,
    columns: Seq<ColumnView>,
    groups: Seq<GroupView>,
    k: int,
    c: int,
)
    requires
        groups_ok(columns, groups),
        segment_parts(meta, columns, groups).body().len() <= u64::MAX,
        0 <= k < groups.len(),
        0 <= c < columns.len(),
        first_column(columns, "metadata"@) == Some(c),
        groups[k].indexes.jsonpath is Some,
        groups[k].indexes.jsonpath->0.len() <= u32::MAX,
    ensures
        segment_parts(meta, columns, groups).hotcache[k].columns[c].jsonpath matches (
            Some(off),
            Some(len),
        ) && segment_parts(meta, columns, groups).bytes().subrange(off as int, off + len)
            == groups[k].indexes.jsonpath->0,
{
    let g = groups[k];
    let ix = g.indexes;
    lemma_entry_at(meta, columns, groups, k, c);
    let p = (flat(ix.postings).len() + blob_or_empty(ix.fts).len()) as int;
    let j = ix.jsonpath->0;
    assert(ix.bytes().subrange(p, p + j.len()) =~= j);
    lemma_blob_in_segment(meta, columns, groups, k, p, j.len() as int);
}

} // verus!
