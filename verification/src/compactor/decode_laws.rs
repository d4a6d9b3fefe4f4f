//! What a full compaction reads back of a segment that was built before.
use crate::common::errors::ErrorView;
use crate::common::record::{record_spans, Span, SpanRecord};
use crate::common::schema::ColumnView;
use crate::compactor::assembly::{groups_ok, segment_parts, GroupView};
use crate::compactor::build_laws::{built_columns_read_back, lemma_last_named};
use crate::compactor::builder::column_names;
use crate::compactor::columns::{fields_in, last_named, stored_fields, Field, FIELD_COUNT};
use crate::compactor::decode::{
    columns_complete, decoded_group, decoded_span, is_first_name, named_column, text_of_bytes,
    zero_id,
};
use crate::format::meta::MetaView;
use crate::format::reader::SegmentView;
use crate::format::page::{lemma_array_of, Column};
use crate::format::page_laws::page_fits;
use crate::format::segment_laws::written_view;
use crate::outside::json::json_compact_of;
use crate::text::opt_bytes;
use vstd::prelude::*;
use vstd::utf8::{encode_utf8, encode_utf8_decode_utf8, encode_utf8_valid_utf8};

verus! {

/// The schema has one column for each field, and no two columns of the same name.
pub open spec fn complete_schema(columns: Seq<ColumnView>) -> bool {
    &&& forall|f: Field| last_named(columns, #[trigger] f.name_text()) is Some
    &&& forall|i: int, j: int|
        0 <= i < j < columns.len() ==> (#[trigger] columns[i]).name != (#[trigger] columns[j]).name
}

/// A text that is kept: empty text counts as none.
pub open spec fn kept_text(t: Option<Seq<char>>) -> Option<Seq<char>> {
    match t {
        Some(s) => if s.len() > 0 { Some(s) } else { None },
        None => None,
    }
}

/// What a span comes back as after it was stored: empty texts, an all-zero parent and
/// unreadable metadata are gone, and so are the fields that are not read back.
pub open spec fn kept(s: Span) -> Span {
    Span {
        tenant_id: s.tenant_id,
        partition_id: s.partition_id,
        trace_id: s.trace_id,
        span_id: s.span_id,
        parent_span_id: match s.parent_span_id {
            Some(p) => if p == zero_id() { None } else { Some(p) },
            None => None,
        },
        start_time_ms: s.start_time_ms,
        end_time_ms: s.end_time_ms,
        duration_ms: s.duration_ms,
        span_type: kept_text(s.span_type),
        status: kept_text(s.status),
        provider: kept_text(s.provider),
        model: kept_text(s.model),
        tool_name: kept_text(s.tool_name),
        prompt: kept_text(s.prompt),
        completion: kept_text(s.completion),
        prompt_tokens: None,
        completion_tokens: None,
        cost_usd: None,
        temperature: None,
        top_p: None,
        tool_io_text: None,
        user_id: None,
        session_id: None,
        request_id: None,
        metadata: match s.metadata {
            Some(m) => if m.len() > 0 { json_compact_of(m) } else { None },
            None => None,
        },
        embedding: None,
        commit_id: s.commit_id,
    }
}

pub proof fn lemma_field_is_nth(f: Field) -> (m: int)
    ensures
        0 <= m < FIELD_COUNT,
        Field::nth(m) == f,
{
    match f {
        Field::Tenant => 0,
        Field::Partition => 1,
        Field::Trace => 2,
        Field::SpanKey => 3,
        Field::Parent => 4,
        Field::StartTime => 5,
        Field::EndTime => 6,
        Field::Duration => 7,
        Field::SpanKind => 8,
        Field::Status => 9,
        Field::Provider => 10,
        Field::Model => 11,
        Field::ToolName => 12,
        Field::Prompt => 13,
        Field::Completion => 14,
        Field::ToolIoText => 15,
        Field::PromptTokens => 16,
        Field::CompletionTokens => 17,
        Field::CostUsd => 18,
        Field::Temperature => 19,
        Field::TopP => 20,
        Field::User => 21,
        Field::Session => 22,
        Field::Request => 23,
        Field::Metadata => 24,
        Field::Commit => 25,
    }
}

pub proof fn lemma_field_stored(columns: Seq<ColumnView>, n: nat, m: int) -> (j: int)
    requires
        0 <= m < n,
        last_named(columns, Field::nth(m).name_text()) is Some,
    ensures
        0 <= j < fields_in(columns, n).len(),
        fields_in(columns, n)[j] == Field::nth(m),
    decreases n,
{
    let rest = fields_in(columns, (n - 1) as nat);
    if m == n - 1 {
        rest.len() as int
    } else {
        lemma_field_stored(columns, (n - 1) as nat, m)
    }
}

/// All pages of the group are within the limits of the format.
pub open spec fn group_fits(columns: Seq<ColumnView>, g: GroupView) -> bool {
    forall|j: int|
        0 <= j < stored_fields(columns).len() ==> page_fits(
            (#[trigger] g.pages[j]).bytes,
            stored_fields(columns)[j].encoding_of(),
            stored_fields(columns)[j].column_of(g.rows),
        ) && g.pages[j].bytes.len() <= u32::MAX
}

proof fn lemma_found_column(
    view: SegmentView,
    columns: Seq<ColumnView>,
    k: int,
    name: Seq<char>,
    col: Column,
)
    requires
        columns.len() <= u32::MAX,
        complete_schema(columns),
        view.metadata.column_names == column_names(columns),
        last_named(columns, name) is Some,
        view.column(k, last_named(columns, name)->0 as u32) == Ok::<Column, ErrorView>(col),
    ensures
        named_column(view, k, name) == Some(col),
{
    reveal(named_column);
    lemma_last_named(columns, name);
    let i = last_named(columns, name)->0;
    let names = column_names(columns);
    assert(is_first_name(names, name, i)) by {
        assert forall|c: int| 0 <= c < i implies (#[trigger] names[c]) != name by {
            assert(columns[c].name != columns[i].name);
        }
    }
    let c = choose|c: int| is_first_name(names, name, c);
    assert(is_first_name(names, name, c));
    assert(c == i);
}

/// Every field reads back from the segment as it was stored.
pub open spec fn reads_back(view: SegmentView, k: int, rows: Seq<Span>) -> bool {
    forall|f: Field| #[trigger] named_column(view, k, f.name_text()) == Some(f.column_of(rows))
}

proof fn lemma_named(
    meta: MetaView,
    columns: Seq<ColumnView>,
    groups: Seq<GroupView>,
    k: int,
    f: Field,
)
    requires
        groups_ok(columns, groups),
        columns.len() <= u32::MAX,
        segment_parts(meta, columns, groups).in_range(),
        complete_schema(columns),
        meta.column_names == column_names(columns),
        0 <= k < groups.len(),
        group_fits(columns, groups[k]),
    ensures
        named_column(
            written_view(segment_parts(meta, columns, groups)),
            k,
            f.name_text(),
        ) == Some(f.column_of(groups[k].rows)),
{
    let m = lemma_field_is_nth(f);
    assert(last_named(columns, f.name_text()) is Some);
    let j = lemma_field_stored(columns, FIELD_COUNT as nat, m);
    assert(stored_fields(columns)[j] == f);
    assert(page_fits(
        groups[k].pages[j].bytes,
        stored_fields(columns)[j].encoding_of(),
        stored_fields(columns)[j].column_of(groups[k].rows),
    ));
    built_columns_read_back(meta, columns, groups, k, j);
    let view = written_view(segment_parts(meta, columns, groups));
    lemma_found_column(view, columns, k, f.name_text(), f.column_of(groups[k].rows));
}

proof fn lemma_kept_text(t: Option<Seq<char>>)
    ensures
        text_of_bytes(opt_bytes(t)) == kept_text(t),
{
    if let Some(s) = t {
        encode_utf8_decode_utf8(s);
        encode_utf8_valid_utf8(s);
        if encode_utf8(s).len() == 0 && s.len() > 0 {
            let e = Seq::<char>::empty();
            encode_utf8_decode_utf8(e);
            assert(encode_utf8(e) =~= Seq::empty());
            assert(encode_utf8(s) =~= encode_utf8(e));
        }
        if s.len() == 0 {
            assert(s =~= Seq::empty());
            assert(encode_utf8(s) =~= Seq::empty());
        }
    }
}

/// One row, where every field reads back.
proof fn lemma_kept_row(view: SegmentView, k: int, recs: Seq<SpanRecord>, i: int)
    requires
        reads_back(view, k, record_spans(recs)),
        0 <= i < recs.len(),
    ensures
        decoded_span(view, k, recs.len(), i) == kept(recs[i]@),
{
    let rows = record_spans(recs);
    let n = recs.len();
    let s = recs[i]@;
    let d = decoded_span(view, k, n, i);
    assert(rows[i] == s);
    assert(named_column(view, k, Field::Tenant.name_text()) == Some(Field::Tenant.column_of(rows)));
    assert(d.tenant_id == s.tenant_id);
    assert(named_column(view, k, Field::Partition.name_text()) == Some(
        Field::Partition.column_of(rows),
    ));
    assert(d.partition_id == s.partition_id);
    lemma_kept_numbers(view, k, recs, i);
    lemma_kept_ids(view, k, recs, i);
    lemma_kept_texts(view, k, recs, i);
    assert(d =~= kept(s));
}

proof fn lemma_kept_numbers(view: SegmentView, k: int, recs: Seq<SpanRecord>, i: int)
    requires
        reads_back(view, k, record_spans(recs)),
        0 <= i < recs.len(),
    ensures
        ({
            let d = decoded_span(view, k, recs.len(), i);
            let s = recs[i]@;
            &&& d.start_time_ms == s.start_time_ms
            &&& d.end_time_ms == s.end_time_ms
            &&& d.duration_ms == s.duration_ms
            &&& d.commit_id == s.commit_id
        }),
{
    let rows = record_spans(recs);
    assert(rows[i] == recs[i]@);
    assert(named_column(view, k, Field::StartTime.name_text()) == Some(
        Field::StartTime.column_of(rows),
    ));
    assert(named_column(view, k, Field::EndTime.name_text()) == Some(
        Field::EndTime.column_of(rows),
    ));
    assert(named_column(view, k, Field::Duration.name_text()) == Some(
        Field::Duration.column_of(rows),
    ));
    assert(named_column(view, k, Field::Commit.name_text()) == Some(Field::Commit.column_of(rows)));
}

proof fn lemma_kept_ids(view: SegmentView, k: int, recs: Seq<SpanRecord>, i: int)
    requires
        reads_back(view, k, record_spans(recs)),
        0 <= i < recs.len(),
    ensures
        ({
            let d = decoded_span(view, k, recs.len(), i);
            let s = recs[i]@;
            &&& d.trace_id == s.trace_id
            &&& d.span_id == s.span_id
            &&& d.parent_span_id == kept(s).parent_span_id
        }),
{
    let rows = record_spans(recs);
    let s = recs[i]@;
    assert(rows[i] == s);
    assert(named_column(view, k, Field::Trace.name_text()) == Some(Field::Trace.column_of(rows)));
    assert(named_column(view, k, Field::SpanKey.name_text()) == Some(
        Field::SpanKey.column_of(rows),
    ));
    assert(named_column(view, k, Field::Parent.name_text()) == Some(Field::Parent.column_of(rows)));
    lemma_array_of(recs[i].trace_id.0);
    lemma_array_of(recs[i].span_id.0);
    match recs[i].parent_span_id {
        Some(p) => {
            lemma_array_of(p.0);
        },
        None => {
            let zero = choose|a: [u8; 16]| a@ == zero_id();
            lemma_zero_array();
            lemma_array_of(zero);
            assert(Field::Parent.id_of(s) =~= zero_id());
        },
    }
}

/// There is an array of sixteen zeros.
pub proof fn lemma_zero_array()
    ensures
        exists|a: [u8; 16]| #[trigger] a@ == zero_id(),
{
    broadcast use vstd::array::group_array_axioms;

    let a = vstd::array::spec_array_fill_for_copy_type::<u8, 16>(0u8);
    assert(a@ =~= zero_id());
}

proof fn lemma_kept_texts(view: SegmentView, k: int, recs: Seq<SpanRecord>, i: int)
    requires
        reads_back(view, k, record_spans(recs)),
        0 <= i < recs.len(),
    ensures
        ({
            let d = decoded_span(view, k, recs.len(), i);
            let w = kept(recs[i]@);
            &&& d.span_type == w.span_type
            &&& d.status == w.status
            &&& d.provider == w.provider
            &&& d.model == w.model
            &&& d.tool_name == w.tool_name
            &&& d.prompt == w.prompt
            &&& d.completion == w.completion
            &&& d.metadata == w.metadata
        }),
{
    let rows = record_spans(recs);
    let s = recs[i]@;
    assert(rows[i] == s);
    assert(named_column(view, k, Field::SpanKind.name_text()) == Some(
        Field::SpanKind.column_of(rows),
    ));
    assert(named_column(view, k, Field::Status.name_text()) == Some(Field::Status.column_of(rows)));
    assert(named_column(view, k, Field::Provider.name_text()) == Some(
        Field::Provider.column_of(rows),
    ));
    assert(named_column(view, k, Field::Model.name_text()) == Some(Field::Model.column_of(rows)));
    assert(named_column(view, k, Field::ToolName.name_text()) == Some(
        Field::ToolName.column_of(rows),
    ));
    assert(named_column(view, k, Field::Prompt.name_text()) == Some(Field::Prompt.column_of(rows)));
    assert(named_column(view, k, Field::Completion.name_text()) == Some(
        Field::Completion.column_of(rows),
    ));
    assert(named_column(view, k, Field::Metadata.name_text()) == Some(
        Field::Metadata.column_of(rows),
    ));
    lemma_kept_text(s.span_type);
    lemma_kept_text(s.status);
    lemma_kept_text(s.provider);
    lemma_kept_text(s.model);
    lemma_kept_text(s.tool_name);
    lemma_kept_text(s.prompt);
    lemma_kept_text(s.completion);
}

/// A segment that was built from rows reads back as those rows, row group by row group,
/// as far as a full compaction reads fields back.
pub proof fn compacted_rows_read_back(
    meta: MetaView,
    columns: Seq<ColumnView>,
    groups: Seq<GroupView>,
    recs: Seq<SpanRecord>,
    k: int,
)
    requires
        groups_ok(columns, groups),
        columns.len() <= u32::MAX,
        segment_parts(meta, columns, groups).in_range(),
        complete_schema(columns),
        meta.column_names == column_names(columns),
        0 <= k < groups.len(),
        groups[k].rows == record_spans(recs),
        group_fits(columns, groups[k]),
    ensures
        columns_complete(written_view(segment_parts(meta, columns, groups)), k, recs.len()),
        decoded_group(written_view(segment_parts(meta, columns, groups)), k, recs.len())
            == Seq::new(recs.len(), |i: int| kept(recs[i]@)),
{
    let view = written_view(segment_parts(meta, columns, groups));
    let rows = record_spans(recs);
    assert forall|f: Field|
        #[trigger] named_column(view, k, f.name_text()) == Some(f.column_of(rows)) by {
        lemma_named(meta, columns, groups, k, f);
    }
    lemma_complete(view, k, recs);
    assert forall|i: int| 0 <= i < recs.len() implies decoded_group(view, k, recs.len())[i]
        == kept(#[trigger] recs[i]@) by {
        lemma_kept_row(view, k, recs, i);
    }
    assert(decoded_group(view, k, recs.len()) =~= Seq::new(
        recs.len(),
        |i: int| kept(recs[i]@),
    ));
}

proof fn lemma_complete(view: SegmentView, k: int, recs: Seq<SpanRecord>)
    requires
        reads_back(view, k, record_spans(recs)),
    ensures
        columns_complete(view, k, recs.len()),
{
    let rows = record_spans(recs);
    let n = recs.len();
    assert(named_column(view, k, Field::Tenant.name_text()) == Some(Field::Tenant.column_of(rows)));
    assert(named_column(view, k, Field::Partition.name_text()) == Some(
        Field::Partition.column_of(rows),
    ));
    assert(named_column(view, k, Field::Trace.name_text()) == Some(Field::Trace.column_of(rows)));
    assert(named_column(view, k, Field::SpanKey.name_text()) == Some(
        Field::SpanKey.column_of(rows),
    ));
    assert(named_column(view, k, Field::Parent.name_text()) == Some(Field::Parent.column_of(rows)));
    assert(named_column(view, k, Field::StartTime.name_text()) == Some(
        Field::StartTime.column_of(rows),
    ));
    assert(named_column(view, k, Field::EndTime.name_text()) == Some(
        Field::EndTime.column_of(rows),
    ));
    assert(named_column(view, k, Field::Duration.name_text()) == Some(
        Field::Duration.column_of(rows),
    ));
    assert(named_column(view, k, Field::SpanKind.name_text()) == Some(
        Field::SpanKind.column_of(rows),
    ));
    assert(named_column(view, k, Field::Status.name_text()) == Some(Field::Status.column_of(rows)));
    assert(named_column(view, k, Field::Provider.name_text()) == Some(
        Field::Provider.column_of(rows),
    ));
    assert(named_column(view, k, Field::Model.name_text()) == Some(Field::Model.column_of(rows)));
    assert(named_column(view, k, Field::ToolName.name_text()) == Some(
        Field::ToolName.column_of(rows),
    ));
    assert(named_column(view, k, Field::Prompt.name_text()) == Some(Field::Prompt.column_of(rows)));
    assert(named_column(view, k, Field::Completion.name_text()) == Some(
        Field::Completion.column_of(rows),
    ));
    assert(named_column(view, k, Field::Metadata.name_text()) == Some(
        Field::Metadata.column_of(rows),
    ));
    assert(named_column(view, k, Field::Commit.name_text()) == Some(Field::Commit.column_of(rows)));
}

} // verus!
