//! Which field of a span each column of a built segment holds.
use crate::common::errors::{ErrorView, ZenError};
use crate::common::record::{record_spans, Span, SpanRecord};
use crate::common::schema::ColumnView;
use crate::compactor::assembly::{groups_ok, segment_parts, GroupIndexes, GroupView};
use crate::compactor::build_laws::{built_columns_read_back, lemma_last_named};
use crate::compactor::builder::{groups_hold, is_segment};
use crate::compactor::columns::{
    field_names_are_distinct, is_field_page, stored_fields, Field, FIELD_COUNT,
};
use crate::compactor::decode_laws::{
    group_fits, lemma_field_is_nth, lemma_field_stored, lemma_zero_array,
};
use crate::format::meta::MetaView;
use crate::format::page::{lemma_array_of, Column, PageEncoding};
use crate::format::reader::segment_parse;
use crate::format::row_group::PageEntry;
use crate::format::segment_laws::{segment_fits, segment_round_trip, written_view};
use crate::rows::flat;
use vstd::prelude::*;
use vstd::utf8::encode_utf8;

verus! {

/// A column of integers with one entry per row, which stands in the relation to its row.
pub open spec fn holds_numbers(
    col: Result<Column, ErrorView>,
    rows: Seq<Span>,
    rel: spec_fn(Span, int) -> bool,
) -> bool {
    &&& col matches Ok(Column::I64(v))
    &&& v.len() == rows.len()
    &&& forall|i: int| 0 <= i < rows.len() ==> rel(rows[i], #[trigger] v[i] as int)
}

/// A column of floats, by their bit patterns: the value of each row, or zero for none.
pub open spec fn holds_floats(
    col: Result<Column, ErrorView>,
    rows: Seq<Span>,
    value: spec_fn(Span) -> Option<u64>,
) -> bool {
    &&& col matches Ok(Column::F64(v))
    &&& v.len() == rows.len()
    &&& forall|i: int|
        0 <= i < rows.len() ==> (value(rows[i]) matches Some(x) ==> #[trigger] v[i] == x) && (value(
            rows[i],
        ) is None ==> v[i] == 0)
}

/// A column of identifiers: that of each row, or sixteen zeros for none.
pub open spec fn holds_ids(
    col: Result<Column, ErrorView>,
    rows: Seq<Span>,
    value: spec_fn(Span) -> Option<Seq<u8>>,
) -> bool {
    &&& col matches Ok(Column::Fixed16(v))
    &&& v.len() == rows.len()
    &&& forall|i: int|
        0 <= i < rows.len() ==> (value(rows[i]) matches Some(x) ==> (#[trigger] v[i])@ == x) && (
        value(rows[i]) is None ==> forall|b: int| 0 <= b < 16 ==> #[trigger] v[i]@[b] == 0)
}

/// A column of texts: the UTF-8 bytes of each row's text, or nothing for none.
pub open spec fn holds_texts(
    col: Result<Column, ErrorView>,
    rows: Seq<Span>,
    value: spec_fn(Span) -> Option<Seq<char>>,
) -> bool {
    &&& col matches Ok(Column::Strings(v))
    &&& v.len() == rows.len()
    &&& forall|i: int|
        0 <= i < rows.len() ==> (value(rows[i]) matches Some(x) ==> #[trigger] v[i] == encode_utf8(
            x,
        )) && (value(rows[i]) is None ==> v[i].len() == 0)
}

/// A column of binary data: that of each row, or nothing for none.
pub open spec fn holds_blobs(
    col: Result<Column, ErrorView>,
    rows: Seq<Span>,
    value: spec_fn(Span) -> Option<Seq<u8>>,
) -> bool {
    &&& col matches Ok(Column::Bytes(v))
    &&& v.len() == rows.len()
    &&& forall|i: int|
        0 <= i < rows.len() ==> (value(rows[i]) matches Some(x) ==> #[trigger] v[i] == x) && (value(
            rows[i],
        ) is None ==> v[i].len() == 0)
}

/// A 64-bit number is held by the signed number with the same low 64 bits.
pub open spec fn same_word(n: u64, v: int) -> bool {
    v == n || v == n - 0x1_0000_0000_0000_0000
}

/// A count is held as it is, a missing one as zero.
pub open spec fn held_count(n: Option<u32>, v: int) -> bool {
    &&& n matches Some(x) ==> v == x
    &&& n is None ==> v == 0
}

/// The numeric columns hold the fields of their names.
pub open spec fn numbers_in_place(
    name: Seq<char>,
    col: Result<Column, ErrorView>,
    rows: Seq<Span>,
) -> bool {
    &&& name == "tenant_id"@ ==> holds_numbers(
        col,
        rows,
        |s: Span, v: int| same_word(s.tenant_id.0, v),
    )
    &&& name == "partition_id"@ ==> holds_numbers(
        col,
        rows,
        |s: Span, v: int| v == s.partition_id.0,
    )
    &&& name == "start_time_ms"@ ==> holds_numbers(col, rows, |s: Span, v: int| v == s.start_time_ms)
    &&& name == "end_time_ms"@ ==> holds_numbers(col, rows, |s: Span, v: int| v == s.end_time_ms)
    &&& name == "duration_ms"@ ==> holds_numbers(col, rows, |s: Span, v: int| v == s.duration_ms)
    &&& name == "prompt_tokens"@ ==> holds_numbers(
        col,
        rows,
        |s: Span, v: int| held_count(s.prompt_tokens, v),
    )
    &&& name == "completion_tokens"@ ==> holds_numbers(
        col,
        rows,
        |s: Span, v: int| held_count(s.completion_tokens, v),
    )
    &&& name == "commit_id"@ ==> holds_numbers(
        col,
        rows,
        |s: Span, v: int| same_word(s.commit_id.0, v),
    )
}

/// The columns of floats and identifiers hold the fields of their names.
pub open spec fn patterns_in_place(
    name: Seq<char>,
    col: Result<Column, ErrorView>,
    rows: Seq<Span>,
) -> bool {
    &&& name == "cost_usd"@ ==> holds_floats(col, rows, |s: Span| s.cost_usd)
    &&& name == "temperature"@ ==> holds_floats(col, rows, |s: Span| s.temperature)
    &&& name == "top_p"@ ==> holds_floats(col, rows, |s: Span| s.top_p)
    &&& name == "trace_id"@ ==> holds_ids(col, rows, |s: Span| Some(s.trace_id))
    &&& name == "span_id"@ ==> holds_ids(col, rows, |s: Span| Some(s.span_id))
    &&& name == "parent_span_id"@ ==> holds_ids(col, rows, |s: Span| s.parent_span_id)
}

/// The columns of texts and of binary data hold the fields of their names.
pub open spec fn texts_in_place(
    name: Seq<char>,
    col: Result<Column, ErrorView>,
    rows: Seq<Span>,
) -> bool {
    &&& name == "span_type"@ ==> holds_texts(col, rows, |s: Span| s.span_type)
    &&& name == "status"@ ==> holds_texts(col, rows, |s: Span| s.status)
    &&& name == "provider"@ ==> holds_texts(col, rows, |s: Span| s.provider)
    &&& name == "model"@ ==> holds_texts(col, rows, |s: Span| s.model)
    &&& name == "tool_name"@ ==> holds_texts(col, rows, |s: Span| s.tool_name)
    &&& name == "prompt"@ ==> holds_texts(col, rows, |s: Span| s.prompt)
    &&& name == "completion"@ ==> holds_texts(col, rows, |s: Span| s.completion)
    &&& name == "tool_io_text"@ ==> holds_texts(col, rows, |s: Span| s.tool_io_text)
    &&& name == "user_id"@ ==> holds_texts(col, rows, |s: Span| s.user_id)
    &&& name == "session_id"@ ==> holds_texts(col, rows, |s: Span| s.session_id)
    &&& name == "request_id"@ ==> holds_texts(col, rows, |s: Span| s.request_id)
    &&& name == "metadata"@ ==> holds_blobs(col, rows, |s: Span| s.metadata)
}

/// The last column of its name holds the field.
proof fn lemma_field_column(
    meta: MetaView,
    columns: Seq<ColumnView>,
    groups: Seq<GroupView>,
    k: int,
    c: int,
    f: Field,
)
    requires
        groups_ok(columns, groups),
        columns.len() <= u32::MAX,
        segment_parts(meta, columns, groups).in_range(),
        0 <= k < groups.len(),
        group_fits(columns, groups[k]),
        0 <= c < columns.len(),
        columns[c].name == f.name_text(),
        forall|j: int| c < j < columns.len() ==> (#[trigger] columns[j]).name != columns[c].name,
    ensures
        written_view(segment_parts(meta, columns, groups)).column(k, c as u32) == Ok::<
            Column,
            ErrorView,
        >(f.column_of(groups[k].rows)),
{
    lemma_last_named(columns, f.name_text());
    let m = lemma_field_is_nth(f);
    let j = lemma_field_stored(columns, FIELD_COUNT as nat, m);
    assert(stored_fields(columns)[j] == f);
    assert(groups[k].ok(columns));
    built_columns_read_back(meta, columns, groups, k, j);
}

/// In a built segment the column of each name holds the field of that name: row by row the
/// record's own value, and zero or nothing where the record has none.
pub proof fn columns_hold_their_fields(
    meta: MetaView,
    columns: Seq<ColumnView>,
    groups: Seq<GroupView>,
    recs: Seq<SpanRecord>,
    k: int,
    c: int,
)
    requires
        groups_ok(columns, groups),
        columns.len() <= u32::MAX,
        segment_parts(meta, columns, groups).in_range(),
        0 <= k < groups.len(),
        groups[k].rows == record_spans(recs),
        group_fits(columns, groups[k]),
        0 <= c < columns.len(),
        forall|j: int| c < j < columns.len() ==> (#[trigger] columns[j]).name != columns[c].name,
    ensures
        numbers_in_place(
            columns[c].name,
            written_view(segment_parts(meta, columns, groups)).column(k, c as u32),
            record_spans(recs),
        ),
        patterns_in_place(
            columns[c].name,
            written_view(segment_parts(meta, columns, groups)).column(k, c as u32),
            record_spans(recs),
        ),
        texts_in_place(
            columns[c].name,
            written_view(segment_parts(meta, columns, groups)).column(k, c as u32),
            record_spans(recs),
        ),
{
    lemma_numbers_in_place(meta, columns, groups, recs, k, c);
    lemma_patterns_in_place(meta, columns, groups, recs, k, c);
    lemma_texts_in_place(meta, columns, groups, recs, k, c);
}

proof fn lemma_numbers_in_place(
    meta: MetaView,
    columns: Seq<ColumnView>,
    groups: Seq<GroupView>,
    recs: Seq<SpanRecord>,
    k: int,
    c: int,
)
    requires
        groups_ok(columns, groups),
        columns.len() <= u32::MAX,
        segment_parts(meta, columns, groups).in_range(),
        0 <= k < groups.len(),
        groups[k].rows == record_spans(recs),
        group_fits(columns, groups[k]),
        0 <= c < columns.len(),
        forall|j: int| c < j < columns.len() ==> (#[trigger] columns[j]).name != columns[c].name,
    ensures
        numbers_in_place(
            columns[c].name,
            written_view(segment_parts(meta, columns, groups)).column(k, c as u32),
            record_spans(recs),
        ),
{
    let name = columns[c].name;
    if name == "tenant_id"@ {
        lemma_field_column(meta, columns, groups, k, c, Field::Tenant);
    }
    if name == "partition_id"@ {
        lemma_field_column(meta, columns, groups, k, c, Field::Partition);
    }
    if name == "start_time_ms"@ {
        lemma_field_column(meta, columns, groups, k, c, Field::StartTime);
    }
    if name == "end_time_ms"@ {
        lemma_field_column(meta, columns, groups, k, c, Field::EndTime);
    }
    if name == "duration_ms"@ {
        lemma_field_column(meta, columns, groups, k, c, Field::Duration);
    }
    if name == "prompt_tokens"@ {
        lemma_field_column(meta, columns, groups, k, c, Field::PromptTokens);
    }
    if name == "completion_tokens"@ {
        lemma_field_column(meta, columns, groups, k, c, Field::CompletionTokens);
    }
    if name == "commit_id"@ {
        lemma_field_column(meta, columns, groups, k, c, Field::Commit);
    }
}

proof fn lemma_patterns_in_place(
    meta: MetaView,
    columns: Seq<ColumnView>,
    groups: Seq<GroupView>,
    recs: Seq<SpanRecord>,
    k: int,
    c: int,
)
    requires
        groups_ok(columns, groups),
        columns.len() <= u32::MAX,
        segment_parts(meta, columns, groups).in_range(),
        0 <= k < groups.len(),
        groups[k].rows == record_spans(recs),
        group_fits(columns, groups[k]),
        0 <= c < columns.len(),
        forall|j: int| c < j < columns.len() ==> (#[trigger] columns[j]).name != columns[c].name,
    ensures
        patterns_in_place(
            columns[c].name,
            written_view(segment_parts(meta, columns, groups)).column(k, c as u32),
            record_spans(recs),
        ),
{
    let name = columns[c].name;
    let rows = record_spans(recs);
    let col = written_view(segment_parts(meta, columns, groups)).column(k, c as u32);
    if name == "cost_usd"@ {
        lemma_field_column(meta, columns, groups, k, c, Field::CostUsd);
    }
    if name == "temperature"@ {
        lemma_field_column(meta, columns, groups, k, c, Field::Temperature);
    }
    if name == "top_p"@ {
        lemma_field_column(meta, columns, groups, k, c, Field::TopP);
    }
    if name == "trace_id"@ {
        lemma_field_column(meta, columns, groups, k, c, Field::Trace);
        assert forall|i: int| 0 <= i < rows.len() implies (#[trigger] col->Ok_0->Fixed16_0[i])@
            == rows[i].trace_id by {
            lemma_array_of(recs[i].trace_id.0);
        }
    }
    if name == "span_id"@ {
        lemma_field_column(meta, columns, groups, k, c, Field::SpanKey);
        assert forall|i: int| 0 <= i < rows.len() implies (#[trigger] col->Ok_0->Fixed16_0[i])@
            == rows[i].span_id by {
            lemma_array_of(recs[i].span_id.0);
        }
    }
    if name == "parent_span_id"@ {
        lemma_field_column(meta, columns, groups, k, c, Field::Parent);
        let zeros = Seq::new(16, |b: int| 0u8);
        assert forall|i: int| 0 <= i < rows.len() implies (#[trigger] col->Ok_0->Fixed16_0[i])@ == (
        match rows[i].parent_span_id {
            Some(p) => p,
            None => zeros,
        }) by {
            match recs[i].parent_span_id {
                Some(p) => {
                    lemma_array_of(p.0);
                },
                None => {
                    lemma_zero_array();
                    let zero = choose|a: [u8; 16]| #[trigger] a@ == zeros;
                    lemma_array_of(zero);
                },
            }
        }
    }
}

proof fn lemma_texts_in_place(
    meta: MetaView,
    columns: Seq<ColumnView>,
    groups: Seq<GroupView>,
    recs: Seq<SpanRecord>,
    k: int,
    c: int,
)
    requires
        groups_ok(columns, groups),
        columns.len() <= u32::MAX,
        segment_parts(meta, columns, groups).in_range(),
        0 <= k < groups.len(),
        groups[k].rows == record_spans(recs),
        group_fits(columns, groups[k]),
        0 <= c < columns.len(),
        forall|j: int| c < j < columns.len() ==> (#[trigger] columns[j]).name != columns[c].name,
    ensures
        texts_in_place(
            columns[c].name,
            written_view(segment_parts(meta, columns, groups)).column(k, c as u32),
            record_spans(recs),
        ),
{
    let name = columns[c].name;
    if name == "span_type"@ {
        lemma_field_column(meta, columns, groups, k, c, Field::SpanKind);
    }
    if name == "status"@ {
        lemma_field_column(meta, columns, groups, k, c, Field::Status);
    }
    if name == "provider"@ {
        lemma_field_column(meta, columns, groups, k, c, Field::Provider);
    }
    if name == "model"@ {
        lemma_field_column(meta, columns, groups, k, c, Field::Model);
    }
    if name == "tool_name"@ {
        lemma_field_column(meta, columns, groups, k, c, Field::ToolName);
    }
    if name == "prompt"@ {
        lemma_field_column(meta, columns, groups, k, c, Field::Prompt);
    }
    if name == "completion"@ {
        lemma_field_column(meta, columns, groups, k, c, Field::Completion);
    }
    if name == "tool_io_text"@ {
        lemma_field_column(meta, columns, groups, k, c, Field::ToolIoText);
    }
    if name == "user_id"@ {
        lemma_field_column(meta, columns, groups, k, c, Field::User);
    }
    if name == "session_id"@ {
        lemma_field_column(meta, columns, groups, k, c, Field::Session);
    }
    if name == "request_id"@ {
        lemma_field_column(meta, columns, groups, k, c, Field::Request);
    }
    if name == "metadata"@ {
        lemma_field_column(meta, columns, groups, k, c, Field::Metadata);
    }
}

/// Whatever row groups the segment is made of, they are within the limits of the format.
pub open spec fn any_groups_fit<F: Fn(&[SpanRecord]) -> Result<GroupIndexes, ZenError>>(
    index: F,
    columns: Seq<ColumnView>,
    meta: MetaView,
    chunks: Seq<Seq<Span>>,
    bytes: Seq<u8>,
) -> bool {
    forall|groups: Seq<GroupView>|
        #[trigger] groups_ok(columns, groups) && groups_hold(index, groups, chunks) && bytes
            == segment_parts(meta, columns, groups).bytes() ==> {
            &&& segment_fits(segment_parts(meta, columns, groups))
            &&& forall|k: int| 0 <= k < groups.len() ==> group_fits(columns, #[trigger] groups[k])
        }
}

/// Opening the bytes of a built segment and reading a column of a row group gives the field
/// that the column is named after, for the rows of that group.
pub proof fn built_segments_hold_their_fields<
    F: Fn(&[SpanRecord]) -> Result<GroupIndexes, ZenError>,
>(
    index: F,
    columns: Seq<ColumnView>,
    meta: MetaView,
    chunks: Seq<Seq<Span>>,
    bytes: Seq<u8>,
    recs: Seq<SpanRecord>,
    k: int,
    c: int,
)
    requires
        is_segment(index, columns, meta, chunks, bytes),
        any_groups_fit(index, columns, meta, chunks, bytes),
        columns.len() <= u32::MAX,
        0 <= k < chunks.len(),
        chunks[k] == record_spans(recs),
        0 <= c < columns.len(),
        forall|j: int| c < j < columns.len() ==> (#[trigger] columns[j]).name != columns[c].name,
    ensures
        segment_parse(bytes) is Ok,
        numbers_in_place(
            columns[c].name,
            segment_parse(bytes)->Ok_0.column(k, c as u32),
            record_spans(recs),
        ),
        patterns_in_place(
            columns[c].name,
            segment_parse(bytes)->Ok_0.column(k, c as u32),
            record_spans(recs),
        ),
        texts_in_place(
            columns[c].name,
            segment_parse(bytes)->Ok_0.column(k, c as u32),
            record_spans(recs),
        ),
{
    let groups = choose|groups: Seq<GroupView>|
        #[trigger] groups_ok(columns, groups) && groups_hold(index, groups, chunks) && bytes
            == segment_parts(meta, columns, groups).bytes();
    assert(groups_ok(columns, groups));
    assert(groups[k].rows == chunks[k]);
    segment_round_trip(segment_parts(meta, columns, groups));
    columns_hold_their_fields(meta, columns, groups, recs, k, c);
}

/// A page is encoded by what its column holds: tenants and partitions repeat, identifiers have
/// a fixed width, floats change little, and texts to search share their symbols where others
/// share whole values.
pub proof fn pages_are_encoded_by_their_use(
    columns: Seq<ColumnView>,
    rows: Seq<Span>,
    f: Field,
    page: PageEntry,
)
    requires
        is_field_page(columns, rows, f, page),
    ensures
        ({
            let name = f.name_text();
            &&& page.encoding == PageEncoding::Rle <==> name == "tenant_id"@ || name
                == "partition_id"@
            &&& page.encoding == PageEncoding::FixedRaw <==> name == "trace_id"@ || name
                == "span_id"@ || name == "parent_span_id"@
            &&& page.encoding == PageEncoding::Gorilla <==> name == "cost_usd"@ || name
                == "temperature"@ || name == "top_p"@
            &&& page.encoding == PageEncoding::Zstd <==> name == "metadata"@
            &&& page.encoding == PageEncoding::FsstWithOffsets <==> name == "prompt"@ || name
                == "completion"@ || name == "tool_io_text"@
            &&& page.encoding == PageEncoding::For <==> name == "start_time_ms"@ || name
                == "end_time_ms"@ || name == "duration_ms"@ || name == "prompt_tokens"@ || name
                == "completion_tokens"@ || name == "commit_id"@
        }),
{
    lemma_names_tell_fields(f);
}

proof fn lemma_names_tell_fields(f: Field)
    ensures
        f.name_text() == "tenant_id"@ <==> f is Tenant,
        f.name_text() == "partition_id"@ <==> f is Partition,
        f.name_text() == "trace_id"@ <==> f is Trace,
        f.name_text() == "span_id"@ <==> f is SpanKey,
        f.name_text() == "parent_span_id"@ <==> f is Parent,
        f.name_text() == "start_time_ms"@ <==> f is StartTime,
        f.name_text() == "end_time_ms"@ <==> f is EndTime,
        f.name_text() == "duration_ms"@ <==> f is Duration,
        f.name_text() == "prompt"@ <==> f is Prompt,
        f.name_text() == "completion"@ <==> f is Completion,
        f.name_text() == "tool_io_text"@ <==> f is ToolIoText,
        f.name_text() == "prompt_tokens"@ <==> f is PromptTokens,
        f.name_text() == "completion_tokens"@ <==> f is CompletionTokens,
        f.name_text() == "cost_usd"@ <==> f is CostUsd,
        f.name_text() == "temperature"@ <==> f is Temperature,
        f.name_text() == "top_p"@ <==> f is TopP,
        f.name_text() == "metadata"@ <==> f is Metadata,
        f.name_text() == "commit_id"@ <==> f is Commit,
{
    field_names_are_distinct(f, Field::Tenant);
    field_names_are_distinct(f, Field::Partition);
    field_names_are_distinct(f, Field::Trace);
    field_names_are_distinct(f, Field::SpanKey);
    field_names_are_distinct(f, Field::Parent);
    field_names_are_distinct(f, Field::StartTime);
    field_names_are_distinct(f, Field::EndTime);
    field_names_are_distinct(f, Field::Duration);
    field_names_are_distinct(f, Field::Prompt);
    field_names_are_distinct(f, Field::Completion);
    field_names_are_distinct(f, Field::ToolIoText);
    field_names_are_distinct(f, Field::PromptTokens);
    field_names_are_distinct(f, Field::CompletionTokens);
    field_names_are_distinct(f, Field::CostUsd);
    field_names_are_distinct(f, Field::Temperature);
    field_names_are_distinct(f, Field::TopP);
    field_names_are_distinct(f, Field::Metadata);
    field_names_are_distinct(f, Field::Commit);
}

/// Another row adds to the size of a column what its value takes before it is encoded: four
/// bytes for a partition or a count of tokens, sixteen for an identifier, eight for any other
/// number, and as many as there are for texts and binary data.
pub proof fn sizes_grow_by_the_value(f: Field, rows: Seq<Span>, r: Span)
    requires
        flat(f.strings_of(rows.push(r))).len() <= u64::MAX,
        16 * rows.len() + 16 <= u64::MAX,
    ensures
        ({
            let name = f.name_text();
            let growth = f.size_of(rows.push(r)) - f.size_of(rows);
            &&& name == "partition_id"@ || name == "prompt_tokens"@ || name == "completion_tokens"@
                ==> growth == 4
            &&& name == "trace_id"@ || name == "span_id"@ || name == "parent_span_id"@ ==> growth
                == 16
            &&& name == "tenant_id"@ || name == "start_time_ms"@ || name == "end_time_ms"@ || name
                == "duration_ms"@ || name == "commit_id"@ || name == "cost_usd"@ || name
                == "temperature"@ || name == "top_p"@ ==> growth == 8
            &&& name == "prompt"@ ==> growth == text_len(r.prompt)
            &&& name == "completion"@ ==> growth == text_len(r.completion)
            &&& name == "tool_io_text"@ ==> growth == text_len(r.tool_io_text)
            &&& name == "metadata"@ ==> growth == match r.metadata {
                Some(b) => b.len(),
                None => 0,
            }
        }),
        f.size_of(Seq::empty()) == 0,
{
    lemma_names_tell_fields(f);
    assert(f.strings_of(rows.push(r)).drop_last() =~= f.strings_of(rows));
    assert(f.strings_of(Seq::empty()) =~= Seq::empty());
    let w = f.width_of();
    let n = rows.len();
    assert(w * (n + 1) == w * n + w) by (nonlinear_arith);
    assert(w * (n + 1) <= 16 * (n + 1)) by (nonlinear_arith)
        requires
            w <= 16,
    ;
    assert(w * 0 == 0) by (nonlinear_arith);
}

/// How many bytes a text takes.
pub open spec fn text_len(t: Option<Seq<char>>) -> nat {
    match t {
        Some(s) => encode_utf8(s).len(),
        None => 0,
    }
}

} // verus!
