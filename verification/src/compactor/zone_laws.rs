//! What value ranges and posting lists say of the rows they were made for.
use crate::common::laws::columns_are_indexed_by_their_use;
use crate::common::record::Span;
use crate::common::schema::{spans_v1_columns, ColumnView, IndexHint};
use crate::compactor::assembly::{
    bitmap_columns, columns_of, first_column, fts_columns, is_first_column,
};
use crate::compactor::columns::{field_names_are_distinct, named_from, Field, FIELD_COUNT};
use crate::compactor::decode_laws::lemma_field_is_nth;
use crate::compactor::field_laws::same_word;
use crate::compactor::zones::{
    has_id_range, has_number_range, has_text_range, is_posting, is_zone, is_zones, lists_value,
    posting_values, rows_with,
};
use crate::format::hotcache::ColumnEntryView;
use crate::format::zone_map::{RangeView, ZoneView};
use crate::order::lex_le;
use vstd::prelude::*;
use vstd::string::*;
use vstd::utf8::encode_utf8;

verus! {

/// A range of integers: no row has a number outside, and both ends are reached.
pub open spec fn spans_numbers(
    z: RangeView,
    rows: Seq<Span>,
    rel: spec_fn(Span, int) -> bool,
) -> bool {
    &&& z matches RangeView::I64 { min, max }
    &&& forall|i: int, v: i64|
        0 <= i < rows.len() && #[trigger] rel(rows[i], v as int) ==> min <= v <= max
    &&& exists|i: int| 0 <= i < rows.len() && #[trigger] rel(rows[i], min as int)
    &&& exists|i: int| 0 <= i < rows.len() && #[trigger] rel(rows[i], max as int)
}

/// The bytes of a text, of none where it is missing.
pub open spec fn text_value(t: Option<Seq<char>>) -> Seq<u8> {
    match t {
        Some(s) => encode_utf8(s),
        None => Seq::empty(),
    }
}

/// A range of byte strings: no row's value is outside, and both ends are reached.
pub open spec fn spans_bytes(
    min: Seq<u8>,
    max: Seq<u8>,
    rows: Seq<Span>,
    value: spec_fn(Span) -> Seq<u8>,
) -> bool {
    &&& forall|i: int|
        0 <= i < rows.len() ==> lex_le(min, value(#[trigger] rows[i])) && lex_le(
            value(rows[i]),
            max,
        )
    &&& exists|i: int| 0 <= i < rows.len() && value(#[trigger] rows[i]) == min
    &&& exists|i: int| 0 <= i < rows.len() && value(#[trigger] rows[i]) == max
}

/// A range of texts.
pub open spec fn spans_texts(
    z: RangeView,
    rows: Seq<Span>,
    value: spec_fn(Span) -> Seq<u8>,
) -> bool {
    z matches RangeView::Bytes { min, max } && spans_bytes(min, max, rows, value)
}

/// A range of identifiers.
pub open spec fn spans_ids(z: RangeView, rows: Seq<Span>, value: spec_fn(Span) -> Seq<u8>) -> bool {
    z matches RangeView::Fixed { min, max } && spans_bytes(min, max, rows, value)
}

proof fn lemma_named_from(i: nat, f: Field, m: int)
    requires
        i <= m < FIELD_COUNT,
        Field::nth(m) == f,
    ensures
        named_from(i, f.name_text()) == Some(f),
    decreases m - i,
{
    field_names_are_distinct(Field::nth(i as int), f);
    if i < m && Field::nth(i as int).name_text() != f.name_text() {
        lemma_named_from(i + 1, f, m);
    }
}

/// The column of a field's name belongs to the field.
pub proof fn lemma_named(f: Field)
    ensures
        named_from(0, f.name_text()) == Some(f),
{
    let m = lemma_field_is_nth(f);
    lemma_named_from(0, f, m);
}

proof fn lemma_number_zone(
    f: Field,
    rows: Seq<Span>,
    z: ZoneView,
    rel: spec_fn(Span, int) -> bool,
)
    requires
        rows.len() > 0,
        is_zone(f.name_text(), rows, z),
        has_number_range(f),
        forall|i: int, v: i64|
            0 <= i < rows.len() ==> (#[trigger] rel(rows[i], v as int) <==> v == f.number_of(
                rows[i],
            )),
    ensures
        spans_numbers(z.value, rows, rel),
{
    lemma_named(f);
    let vs = f.numbers_of(rows);
    let min = z.value->I64_min;
    let max = z.value->I64_max;
    let a = choose|i: int| 0 <= i < vs.len() && vs[i] == min;
    let b = choose|i: int| 0 <= i < vs.len() && vs[i] == max;
    assert(rel(rows[a], min as int));
    assert(rel(rows[b], max as int));
    assert forall|i: int, v: i64| 0 <= i < rows.len() && #[trigger] rel(
        rows[i],
        v as int,
    ) implies min <= v <= max by {
        assert(vs[i] == v);
    }
}

/// The range of a numeric column is that of the field it is named after.
pub proof fn number_ranges_span_their_fields(name: Seq<char>, rows: Seq<Span>, z: ZoneView)
    requires
        rows.len() > 0,
        is_zone(name, rows, z),
    ensures
        name == "tenant_id"@ ==> spans_numbers(
            z.value,
            rows,
            |s: Span, v: int| same_word(s.tenant_id.0, v),
        ),
        name == "partition_id"@ ==> spans_numbers(
            z.value,
            rows,
            |s: Span, v: int| v == s.partition_id.0,
        ),
        name == "start_time_ms"@ ==> spans_numbers(
            z.value,
            rows,
            |s: Span, v: int| v == s.start_time_ms,
        ),
        name == "end_time_ms"@ ==> spans_numbers(
            z.value,
            rows,
            |s: Span, v: int| v == s.end_time_ms,
        ),
        name == "duration_ms"@ ==> spans_numbers(
            z.value,
            rows,
            |s: Span, v: int| v == s.duration_ms,
        ),
        name == "commit_id"@ ==> spans_numbers(
            z.value,
            rows,
            |s: Span, v: int| same_word(s.commit_id.0, v),
        ),
{
    if name == "tenant_id"@ {
        lemma_number_zone(
            Field::Tenant,
            rows,
            z,
            |s: Span, v: int| same_word(s.tenant_id.0, v),
        );
    }
    if name == "partition_id"@ {
        lemma_number_zone(Field::Partition, rows, z, |s: Span, v: int| v == s.partition_id.0);
    }
    if name == "start_time_ms"@ {
        lemma_number_zone(Field::StartTime, rows, z, |s: Span, v: int| v == s.start_time_ms);
    }
    if name == "end_time_ms"@ {
        lemma_number_zone(Field::EndTime, rows, z, |s: Span, v: int| v == s.end_time_ms);
    }
    if name == "duration_ms"@ {
        lemma_number_zone(Field::Duration, rows, z, |s: Span, v: int| v == s.duration_ms);
    }
    if name == "commit_id"@ {
        lemma_number_zone(
            Field::Commit,
            rows,
            z,
            |s: Span, v: int| same_word(s.commit_id.0, v),
        );
    }
}

proof fn lemma_text_zone(f: Field, rows: Seq<Span>, z: ZoneView, value: spec_fn(Span) -> Seq<u8>)
    requires
        rows.len() > 0,
        is_zone(f.name_text(), rows, z),
        has_text_range(f),
        forall|i: int| 0 <= i < rows.len() ==> value(#[trigger] rows[i]) == f.bytes_of(rows[i]),
    ensures
        spans_texts(z.value, rows, value),
{
    lemma_named(f);
    let vs = f.strings_of(rows);
    let min = z.value->Bytes_min;
    let max = z.value->Bytes_max;
    let a = choose|i: int| 0 <= i < vs.len() && vs[i] == min;
    let b = choose|i: int| 0 <= i < vs.len() && vs[i] == max;
    assert(value(rows[a]) == min);
    assert(value(rows[b]) == max);
    assert forall|i: int| 0 <= i < rows.len() implies lex_le(min, value(#[trigger] rows[i]))
        && lex_le(value(rows[i]), max) by {
        assert(vs[i] == value(rows[i]));
    }
}

/// The range of a text column is that of the field it is named after.
pub proof fn text_ranges_span_their_fields(name: Seq<char>, rows: Seq<Span>, z: ZoneView)
    requires
        rows.len() > 0,
        is_zone(name, rows, z),
    ensures
        name == "span_type"@ ==> spans_texts(z.value, rows, |s: Span| text_value(s.span_type)),
        name == "status"@ ==> spans_texts(z.value, rows, |s: Span| text_value(s.status)),
        name == "provider"@ ==> spans_texts(z.value, rows, |s: Span| text_value(s.provider)),
        name == "model"@ ==> spans_texts(z.value, rows, |s: Span| text_value(s.model)),
        name == "tool_name"@ ==> spans_texts(z.value, rows, |s: Span| text_value(s.tool_name)),
        name == "user_id"@ ==> spans_texts(z.value, rows, |s: Span| text_value(s.user_id)),
        name == "session_id"@ ==> spans_texts(z.value, rows, |s: Span| text_value(s.session_id)),
        name == "request_id"@ ==> spans_texts(z.value, rows, |s: Span| text_value(s.request_id)),
{
    if name == "span_type"@ {
        lemma_text_zone(Field::SpanKind, rows, z, |s: Span| text_value(s.span_type));
    }
    if name == "status"@ {
        lemma_text_zone(Field::Status, rows, z, |s: Span| text_value(s.status));
    }
    if name == "provider"@ {
        lemma_text_zone(Field::Provider, rows, z, |s: Span| text_value(s.provider));
    }
    if name == "model"@ {
        lemma_text_zone(Field::Model, rows, z, |s: Span| text_value(s.model));
    }
    if name == "tool_name"@ {
        lemma_text_zone(Field::ToolName, rows, z, |s: Span| text_value(s.tool_name));
    }
    if name == "user_id"@ {
        lemma_text_zone(Field::User, rows, z, |s: Span| text_value(s.user_id));
    }
    if name == "session_id"@ {
        lemma_text_zone(Field::Session, rows, z, |s: Span| text_value(s.session_id));
    }
    if name == "request_id"@ {
        lemma_text_zone(Field::Request, rows, z, |s: Span| text_value(s.request_id));
    }
}

/// The range of a column of identifiers is that of the field it is named after.
pub proof fn id_ranges_span_their_fields(name: Seq<char>, rows: Seq<Span>, z: ZoneView)
    requires
        rows.len() > 0,
        is_zone(name, rows, z),
    ensures
        name == "trace_id"@ ==> spans_ids(z.value, rows, |s: Span| s.trace_id),
        name == "span_id"@ ==> spans_ids(z.value, rows, |s: Span| s.span_id),
{
    if name == "trace_id"@ {
        lemma_named(Field::Trace);
        lemma_id_zone(Field::Trace, rows, z, |s: Span| s.trace_id);
    }
    if name == "span_id"@ {
        lemma_named(Field::SpanKey);
        lemma_id_zone(Field::SpanKey, rows, z, |s: Span| s.span_id);
    }
}

proof fn lemma_id_zone(f: Field, rows: Seq<Span>, z: ZoneView, value: spec_fn(Span) -> Seq<u8>)
    requires
        rows.len() > 0,
        is_zone(f.name_text(), rows, z),
        has_id_range(f),
        forall|i: int| 0 <= i < rows.len() ==> value(#[trigger] rows[i]) == f.id_of(rows[i]),
    ensures
        spans_ids(z.value, rows, value),
{
    lemma_named(f);
    let vs = f.ids_of(rows);
    let min = z.value->Fixed_min;
    let max = z.value->Fixed_max;
    let a = choose|i: int| 0 <= i < vs.len() && vs[i] == min;
    let b = choose|i: int| 0 <= i < vs.len() && vs[i] == max;
    assert(value(rows[a]) == min);
    assert(value(rows[b]) == max);
    assert forall|i: int| 0 <= i < rows.len() implies lex_le(min, value(#[trigger] rows[i]))
        && lex_le(value(rows[i]), max) by {
        assert(vs[i] == value(rows[i]));
    }
}

/// Wide texts, metadata, counts of tokens, floats and parents have no range, nor has any
/// column over no rows.
pub proof fn other_columns_have_no_range(name: Seq<char>, rows: Seq<Span>, z: ZoneView)
    requires
        is_zone(name, rows, z),
    ensures
        z.null_count == 0,
        rows.len() == 0 || name == "prompt"@ || name == "completion"@ || name == "tool_io_text"@
            || name == "metadata"@ || name == "prompt_tokens"@ || name == "completion_tokens"@
            || name == "cost_usd"@ || name == "temperature"@ || name == "top_p"@ || name
            == "parent_span_id"@ ==> z.value is Unknown,
{
    lemma_named(Field::Prompt);
    lemma_named(Field::Completion);
    lemma_named(Field::ToolIoText);
    lemma_named(Field::Metadata);
    lemma_named(Field::PromptTokens);
    lemma_named(Field::CompletionTokens);
    lemma_named(Field::CostUsd);
    lemma_named(Field::Temperature);
    lemma_named(Field::TopP);
    lemma_named(Field::Parent);
}

/// The range of each column stands in the entry at the column's place.
pub proof fn ranges_stand_at_their_columns(
    columns: Seq<ColumnView>,
    rows: Seq<Span>,
    entries: Seq<ColumnEntryView>,
    c: int,
)
    requires
        is_zones(columns, rows, entries),
        0 <= c < columns.len() <= u32::MAX,
    ensures
        entries.len() == columns.len(),
        entries[c].column_idx == c,
        is_zone(columns[c].name, rows, entries[c].zone_map),
        entries[c].posting == (None::<u64>, None::<u32>),
        entries[c].fts == (None::<u64>, None::<u32>),
        entries[c].jsonpath == (None::<u64>, None::<u32>),
        entries[c].hnsw == (None::<u64>, None::<u32>),
{
}

proof fn lemma_rows_with(values: Seq<Seq<u8>>, value: Seq<u8>, n: nat)
    requires
        n <= values.len(),
        values.len() <= u32::MAX,
    ensures
        forall|r: u32|
            #[trigger] rows_with(values, value, n).contains(r) <==> r < n && values[r as int]
                == value,
        forall|i: int, j: int|
            0 <= i < j < rows_with(values, value, n).len() ==> #[trigger] rows_with(
                values,
                value,
                n,
            )[i] < #[trigger] rows_with(values, value, n)[j],
    decreases n,
{
    if n > 0 {
        let m = (n - 1) as nat;
        lemma_rows_with(values, value, m);
        let before = rows_with(values, value, m);
        let list = rows_with(values, value, n);
        assert forall|r: u32|
            #[trigger] list.contains(r) <==> r < n && values[r as int] == value by {
            if list.contains(r) {
                let i = choose|i: int| 0 <= i < list.len() && list[i] == r;
                if i < before.len() {
                    assert(before[i] == r);
                    assert(before.contains(r));
                }
            }
            if r < n && values[r as int] == value {
                if r < m {
                    assert(before.contains(r));
                    let i = choose|i: int| 0 <= i < before.len() && before[i] == r;
                    assert(list[i] == r);
                } else {
                    assert(list[before.len() as int] == r);
                }
            }
        }
        assert forall|i: int, j: int| 0 <= i < j < list.len() implies #[trigger] list[i]
            < #[trigger] list[j] by {
            assert(list[i] == before[i]);
            assert(before.contains(before[i]));
            if j < before.len() {
                assert(list[j] == before[j]);
            }
        }
    }
}

/// The posting lists say of every row which value it has: the row is in the list of its own
/// value and in no other, each list is in order, and no value has two lists.
pub open spec fn lists_rows_by(
    map: Seq<(Seq<u8>, Seq<u32>)>,
    rows: Seq<Span>,
    value: spec_fn(Span) -> Seq<u8>,
) -> bool {
    &&& forall|e: int, r: u32|
        #![trigger map[e].1.contains(r)]
        0 <= e < map.len() ==> (map[e].1.contains(r) <==> r < rows.len() && value(rows[r as int])
            == map[e].0)
    &&& forall|e: int, i: int, j: int|
        0 <= e < map.len() && 0 <= i < j < map[e].1.len() ==> #[trigger] map[e].1[i]
            < #[trigger] map[e].1[j]
    &&& forall|e: int| 0 <= e < map.len() ==> (#[trigger] map[e]).1.len() > 0
    &&& forall|a: int, b: int|
        0 <= a < b < map.len() ==> (#[trigger] map[a]).0 != (#[trigger] map[b]).0
    &&& forall|r: int| 0 <= r < rows.len() ==> lists_value(map, value(#[trigger] rows[r]))
}

proof fn lemma_posting(
    f: Field,
    rows: Seq<Span>,
    map: Seq<(Seq<u8>, Seq<u32>)>,
    value: spec_fn(Span) -> Seq<u8>,
)
    requires
        rows.len() <= u32::MAX,
        is_posting(posting_values(f.name_text(), rows), map),
        crate::compactor::zones::is_bitmap_field(f),
        forall|i: int| 0 <= i < rows.len() ==> value(#[trigger] rows[i]) == f.bytes_of(rows[i]),
    ensures
        lists_rows_by(map, rows, value),
{
    lemma_named(f);
    let vs = f.strings_of(rows);
    assert(posting_values(f.name_text(), rows) == vs);
    assert forall|e: int, r: u32|
        #![trigger map[e].1.contains(r)]
        0 <= e < map.len() implies (map[e].1.contains(r) <==> r < rows.len() && value(
        rows[r as int],
    ) == map[e].0) by {
        lemma_rows_with(vs, map[e].0, vs.len());
        if r < rows.len() {
            assert(vs[r as int] == value(rows[r as int]));
        }
        assert(rows_with(vs, map[e].0, vs.len()).contains(r) <==> r < vs.len() && vs[r as int]
            == map[e].0);
    }
    assert forall|e: int, i: int, j: int| 0 <= e < map.len() && 0 <= i < j
        < map[e].1.len() implies #[trigger] map[e].1[i] < #[trigger] map[e].1[j] by {
        lemma_rows_with(vs, map[e].0, vs.len());
    }
    assert forall|e: int| 0 <= e < map.len() implies (#[trigger] map[e]).1.len() > 0 by {
        lemma_rows_with(vs, map[e].0, vs.len());
        let k = choose|k: int| 0 <= k < vs.len() && vs[k] == map[e].0;
        assert(vs[k as u32 as int] == map[e].0);
        assert(map[e].1.contains(k as u32));
    }
    assert forall|r: int| 0 <= r < rows.len() implies lists_value(
        map,
        value(#[trigger] rows[r]),
    ) by {
        assert(lists_value(map, vs[r]));
    }
}

/// Posting lists are those of the field that the column is named after. Columns that have
/// none give an empty map.
pub proof fn posting_lists_are_of_their_fields(
    name: Seq<char>,
    rows: Seq<Span>,
    map: Seq<(Seq<u8>, Seq<u32>)>,
)
    requires
        rows.len() <= u32::MAX,
        is_posting(posting_values(name, rows), map),
    ensures
        name == "model"@ ==> lists_rows_by(map, rows, |s: Span| text_value(s.model)),
        name == "status"@ ==> lists_rows_by(map, rows, |s: Span| text_value(s.status)),
        name == "provider"@ ==> lists_rows_by(map, rows, |s: Span| text_value(s.provider)),
        name == "tool_name"@ ==> lists_rows_by(map, rows, |s: Span| text_value(s.tool_name)),
        name == "span_type"@ ==> lists_rows_by(map, rows, |s: Span| text_value(s.span_type)),
        name != "model"@ && name != "status"@ && name != "provider"@ && name != "tool_name"@ && name
            != "span_type"@ ==> map.len() == 0,
{
    if name == "model"@ {
        lemma_posting(Field::Model, rows, map, |s: Span| text_value(s.model));
    }
    if name == "status"@ {
        lemma_posting(Field::Status, rows, map, |s: Span| text_value(s.status));
    }
    if name == "provider"@ {
        lemma_posting(Field::Provider, rows, map, |s: Span| text_value(s.provider));
    }
    if name == "tool_name"@ {
        lemma_posting(Field::ToolName, rows, map, |s: Span| text_value(s.tool_name));
    }
    if name == "span_type"@ {
        lemma_posting(Field::SpanKind, rows, map, |s: Span| text_value(s.span_type));
    }
    if name != "model"@ && name != "status"@ && name != "provider"@ && name != "tool_name"@ && name
        != "span_type"@ {
        lemma_found_name(0, name);
        if map.len() > 0 {
            assert(posting_values(name, rows).contains(map[0].0));
        }
    }
}

/// What is found for a name is a field of that name.
proof fn lemma_found_name(i: nat, name: Seq<char>)
    ensures
        named_from(i, name) matches Some(f) ==> f.name_text() == name,
    decreases FIELD_COUNT - i,
{
    if i < FIELD_COUNT {
        lemma_found_name(i + 1, name);
    }
}

proof fn lemma_first_of(columns: Seq<ColumnView>, name: Seq<char>, i: int)
    requires
        0 <= i < columns.len(),
        forall|a: int, b: int|
            0 <= a < b < columns.len() ==> (#[trigger] columns[a]).name != (
            #[trigger] columns[b]).name,
    ensures
        first_column(columns, name) == Some(i) <==> columns[i].name == name,
{
    if columns[i].name == name {
        assert(is_first_column(columns, name, i));
        let c = choose|k: int| is_first_column(columns, name, k);
        assert(is_first_column(columns, name, c));
        assert(columns[c].name == columns[i].name);
    }
    if first_column(columns, name) == Some(i) {
        let c = choose|k: int| is_first_column(columns, name, k);
        assert(is_first_column(columns, name, c));
    }
}

proof fn lemma_among(columns: Seq<ColumnView>, fields: Seq<Field>, i: int)
    requires
        0 <= i < columns.len(),
        forall|a: int, b: int|
            0 <= a < b < columns.len() ==> (#[trigger] columns[a]).name != (
            #[trigger] columns[b]).name,
    ensures
        columns_of(columns, fields).contains(i) <==> exists|k: int|
            0 <= k < fields.len() && (#[trigger] fields[k]).name_text() == columns[i].name,
    decreases fields.len(),
{
    if fields.len() > 0 {
        let head = fields.drop_last();
        let f = fields.last();
        lemma_among(columns, head, i);
        lemma_first_of(columns, f.name_text(), i);
        let all = columns_of(columns, fields);
        let rest = columns_of(columns, head);
        if rest.contains(i) {
            let k = choose|k: int|
                0 <= k < head.len() && (#[trigger] head[k]).name_text() == columns[i].name;
            assert(fields[k].name_text() == columns[i].name);
            let m = choose|m: int| 0 <= m < rest.len() && rest[m] == i;
            assert(all[m] == i);
        }
        if f.name_text() == columns[i].name {
            assert(fields[fields.len() - 1].name_text() == columns[i].name);
            assert(all[all.len() - 1] == i);
        }
        if all.contains(i) && !rest.contains(i) {
            let m = choose|m: int| 0 <= m < all.len() && all[m] == i;
            if m < rest.len() {
                assert(rest[m] == i);
            }
        }
        if exists|k: int|
            0 <= k < fields.len() && (#[trigger] fields[k]).name_text() == columns[i].name {
            let k = choose|k: int|
                0 <= k < fields.len() && (#[trigger] fields[k]).name_text() == columns[i].name;
            if k < head.len() {
                assert(head[k].name_text() == columns[i].name);
            }
        }
    }
}

/// The indexes of a segment are those that the span schema asks for: posting lists for bitmap
/// columns, the full-text index for columns to search, and paths for the JSON column.
pub proof fn index_hints_are_followed(i: int)
    requires
        0 <= i < spans_v1_columns().len(),
    ensures
        bitmap_columns(spans_v1_columns()).contains(i) <==> spans_v1_columns()[i].index
            == IndexHint::Bitmap,
        fts_columns(spans_v1_columns()).contains(i) <==> spans_v1_columns()[i].index
            == IndexHint::Fts,
        first_column(spans_v1_columns(), "metadata"@) == Some(i) <==> spans_v1_columns()[i].index
            == IndexHint::JsonPath,
{
    let c = spans_v1_columns();
    assert forall|a: int, b: int| 0 <= a < b < c.len() implies (#[trigger] c[a]).name != (
    #[trigger] c[b]).name by {
        columns_are_indexed_by_their_use(a);
    }
    columns_are_indexed_by_their_use(i);
    lemma_first_of(c, "metadata"@, i);
    let bitmaps = seq![
        Field::Model,
        Field::Status,
        Field::Provider,
        Field::ToolName,
        Field::SpanKind,
    ];
    let texts = seq![Field::Prompt, Field::Completion, Field::ToolIoText];
    lemma_among(c, bitmaps, i);
    lemma_among(c, texts, i);
    assert(bitmaps[0].name_text() == "model"@ && bitmaps[1].name_text() == "status"@);
    assert(bitmaps[2].name_text() == "provider"@ && bitmaps[3].name_text() == "tool_name"@);
    assert(bitmaps[4].name_text() == "span_type"@);
    assert(texts[0].name_text() == "prompt"@ && texts[1].name_text() == "completion"@);
    assert(texts[2].name_text() == "tool_io_text"@);
}

} // verus!
