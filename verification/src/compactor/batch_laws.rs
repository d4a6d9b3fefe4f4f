//! What a batch of the write-ahead log becomes: each column the field of its name.
use crate::common::record::Span;
use crate::compactor::batch::{first_named, BatchView, CellsView};
use crate::outside::json::json_compact_of;
use vstd::prelude::*;
use vstd::string::*;
use vstd::utf8::{decode_utf8, decode_utf8_encode_utf8, encode_utf8, valid_utf8};

verus! {

/// The column stands at `c`, and no column before it has its name.
pub open spec fn is_first_of_name(b: BatchView, c: int) -> bool {
    &&& 0 <= c < b.columns.len()
    &&& forall|j: int| 0 <= j < c ==> (#[trigger] b.columns[j]).0 != b.columns[c].0
}

/// No column has that name.
pub open spec fn has_no_column(b: BatchView, name: Seq<char>) -> bool {
    forall|j: int| 0 <= j < b.columns.len() ==> (#[trigger] b.columns[j]).0 != name
}

/// The value of a cell, if it is not null.
pub open spec fn cell_value<T>(cell: (bool, T)) -> Option<T> {
    if cell.0 {
        None
    } else {
        Some(cell.1)
    }
}

pub(crate) proof fn lemma_first_named(columns: Seq<(Seq<char>, CellsView)>, c: int)
    requires
        0 <= c < columns.len(),
        forall|j: int| 0 <= j < c ==> (#[trigger] columns[j]).0 != columns[c].0,
    ensures
        first_named(columns, columns[c].0) == Some(columns[c].1),
    decreases c,
{
    if c > 0 {
        let tail = columns.drop_first();
        assert(columns[0].0 != columns[c].0);
        assert forall|j: int| 0 <= j < c - 1 implies (#[trigger] tail[j]).0 != tail[c - 1].0 by {
            assert(tail[j] == columns[j + 1]);
        }
        lemma_first_named(tail, c - 1);
    }
}

proof fn lemma_not_named(columns: Seq<(Seq<char>, CellsView)>, name: Seq<char>)
    requires
        forall|j: int| 0 <= j < columns.len() ==> (#[trigger] columns[j]).0 != name,
    ensures
        first_named(columns, name) is None,
    decreases columns.len(),
{
    if columns.len() > 0 {
        let tail = columns.drop_first();
        assert(columns[0].0 != name);
        assert forall|j: int| 0 <= j < tail.len() implies (#[trigger] tail[j]).0 != name by {
            assert(tail[j] == columns[j + 1]);
        }
        lemma_not_named(tail, name);
    }
}

/// The required fields of row `i` are the cells of the columns that have their names,
/// whether or not these are marked as null.
pub proof fn cells_become_required_fields(b: BatchView, c: int, i: int)
    requires
        is_first_of_name(b, c),
        0 <= i < b.rows,
    ensures
        b.columns[c].0 == "tenant_id"@ ==> (
            b.columns[c].1 matches CellsView::U64(v) ==>
                b.spans()[i].tenant_id.0 == v[i].1),
        b.columns[c].0 == "partition_id"@ ==> (
            b.columns[c].1 matches CellsView::U32(v) ==>
                b.spans()[i].partition_id.0 == v[i].1),
        b.columns[c].0 == "trace_id"@ ==> (
            b.columns[c].1 matches CellsView::Fixed(v) ==>
                b.spans()[i].trace_id == v[i].1),
        b.columns[c].0 == "span_id"@ ==> (
            b.columns[c].1 matches CellsView::Fixed(v) ==>
                b.spans()[i].span_id == v[i].1),
        b.columns[c].0 == "start_time_ms"@ ==> (
            b.columns[c].1 matches CellsView::I64(v) ==>
                b.spans()[i].start_time_ms == v[i].1),
        b.columns[c].0 == "end_time_ms"@ ==> (
            b.columns[c].1 matches CellsView::I64(v) ==>
                b.spans()[i].end_time_ms == v[i].1),
        b.columns[c].0 == "duration_ms"@ ==> (
            b.columns[c].1 matches CellsView::I64(v) ==>
                b.spans()[i].duration_ms == v[i].1),
        b.columns[c].0 == "commit_id"@ ==> (
            b.columns[c].1 matches CellsView::U64(v) ==>
                b.spans()[i].commit_id.0 == v[i].1),
{
    lemma_first_named(b.columns, c);
}

/// The optional fields of row `i` are the cells of the columns that have their names, and
/// are missing where these are null.
pub proof fn cells_become_optional_fields(b: BatchView, c: int, i: int)
    requires
        is_first_of_name(b, c),
        0 <= i < b.rows,
    ensures
        b.columns[c].0 == "parent_span_id"@ ==> (
            b.columns[c].1 matches CellsView::Fixed(v) ==>
                b.spans()[i].parent_span_id == cell_value(v[i])),
        b.columns[c].0 == "span_type"@ ==> (
            b.columns[c].1 matches CellsView::Text(v) ==>
                b.spans()[i].span_type == cell_value(v[i])),
        b.columns[c].0 == "status"@ ==> (
            b.columns[c].1 matches CellsView::Text(v) ==>
                b.spans()[i].status == cell_value(v[i])),
        b.columns[c].0 == "provider"@ ==> (
            b.columns[c].1 matches CellsView::Text(v) ==>
                b.spans()[i].provider == cell_value(v[i])),
        b.columns[c].0 == "model"@ ==> (
            b.columns[c].1 matches CellsView::Text(v) ==>
                b.spans()[i].model == cell_value(v[i])),
        b.columns[c].0 == "tool_name"@ ==> (
            b.columns[c].1 matches CellsView::Text(v) ==>
                b.spans()[i].tool_name == cell_value(v[i])),
        b.columns[c].0 == "prompt"@ ==> (
            b.columns[c].1 matches CellsView::Text(v) ==>
                b.spans()[i].prompt == cell_value(v[i])),
        b.columns[c].0 == "completion"@ ==> (
            b.columns[c].1 matches CellsView::Text(v) ==>
                b.spans()[i].completion == cell_value(v[i])),
        b.columns[c].0 == "prompt_tokens"@ ==> (
            b.columns[c].1 matches CellsView::U32(v) ==>
                b.spans()[i].prompt_tokens == cell_value(v[i])),
        b.columns[c].0 == "completion_tokens"@ ==> (
            b.columns[c].1 matches CellsView::U32(v) ==>
                b.spans()[i].completion_tokens == cell_value(v[i])),
        b.columns[c].0 == "cost_usd"@ ==> (
            b.columns[c].1 matches CellsView::F64(v) ==>
                b.spans()[i].cost_usd == cell_value(v[i])),
        b.columns[c].0 == "temperature"@ ==> (
            b.columns[c].1 matches CellsView::F64(v) ==>
                b.spans()[i].temperature == cell_value(v[i])),
        b.columns[c].0 == "top_p"@ ==> (
            b.columns[c].1 matches CellsView::F64(v) ==>
                b.spans()[i].top_p == cell_value(v[i])),
        b.columns[c].0 == "tool_io_text"@ ==> (
            b.columns[c].1 matches CellsView::Text(v) ==>
                b.spans()[i].tool_io_text == cell_value(v[i])),
        b.columns[c].0 == "user_id"@ ==> (
            b.columns[c].1 matches CellsView::Text(v) ==>
                b.spans()[i].user_id == cell_value(v[i])),
        b.columns[c].0 == "session_id"@ ==> (
            b.columns[c].1 matches CellsView::Text(v) ==>
                b.spans()[i].session_id == cell_value(v[i])),
        b.columns[c].0 == "request_id"@ ==> (
            b.columns[c].1 matches CellsView::Text(v) ==>
                b.spans()[i].request_id == cell_value(v[i])),
        b.columns[c].0 == "metadata_json"@ ==> (b.columns[c].1 matches CellsView::Text(v) ==> b.spans()[i].metadata
            == (if v[i].0 {
            None
        } else {
            json_compact_of(encode_utf8(v[i].1))
        })),
{
    lemma_first_named(b.columns, c);
}

/// A field without a column of its name is missing, or has its default.
pub proof fn missing_columns_leave_defaults(b: BatchView, name: Seq<char>, i: int)
    requires
        has_no_column(b, name),
        0 <= i < b.rows,
    ensures
        name == "tenant_id"@ ==> b.spans()[i].tenant_id.0 == 0,
        name == "partition_id"@ ==> b.spans()[i].partition_id.0 == 0,
        name == "trace_id"@ ==> b.spans()[i].trace_id == Seq::new(16, |x: int| 0u8),
        name == "span_id"@ ==> b.spans()[i].span_id == Seq::new(16, |x: int| 0u8),
        name == "parent_span_id"@ ==> b.spans()[i].parent_span_id is None,
        name == "start_time_ms"@ ==> b.spans()[i].start_time_ms == 0,
        name == "end_time_ms"@ ==> b.spans()[i].end_time_ms == 0,
        name == "duration_ms"@ ==> b.spans()[i].duration_ms == 0,
        name == "span_type"@ ==> b.spans()[i].span_type is None,
        name == "status"@ ==> b.spans()[i].status is None,
        name == "provider"@ ==> b.spans()[i].provider is None,
        name == "model"@ ==> b.spans()[i].model is None,
        name == "tool_name"@ ==> b.spans()[i].tool_name is None,
        name == "prompt"@ ==> b.spans()[i].prompt is None,
        name == "completion"@ ==> b.spans()[i].completion is None,
        name == "prompt_tokens"@ ==> b.spans()[i].prompt_tokens is None,
        name == "completion_tokens"@ ==> b.spans()[i].completion_tokens is None,
        name == "cost_usd"@ ==> b.spans()[i].cost_usd is None,
        name == "temperature"@ ==> b.spans()[i].temperature is None,
        name == "top_p"@ ==> b.spans()[i].top_p is None,
        name == "tool_io_text"@ ==> b.spans()[i].tool_io_text is None,
        name == "user_id"@ ==> b.spans()[i].user_id is None,
        name == "session_id"@ ==> b.spans()[i].session_id is None,
        name == "request_id"@ ==> b.spans()[i].request_id is None,
        name == "metadata_json"@ ==> b.spans()[i].metadata is None,
        name == "commit_id"@ ==> b.spans()[i].commit_id.0 == 0,
        b.spans()[i].embedding is None,
{
    lemma_not_named(b.columns, name);
}

/// The cell of a value that may be missing.
pub open spec fn cell_of<T>(value: Option<T>, blank: T) -> (bool, T) {
    match value {
        Some(v) => (false, v),
        None => (true, blank),
    }
}

/// A column of unsigned numbers, written row by row.
pub open spec fn u64_cells(rows: Seq<Span>, value: spec_fn(Span) -> u64) -> CellsView {
    CellsView::U64(Seq::new(rows.len(), |i: int| (false, value(rows[i]))))
}

pub open spec fn u32_cells(rows: Seq<Span>, value: spec_fn(Span) -> Option<u32>) -> CellsView {
    CellsView::U32(Seq::new(rows.len(), |i: int| cell_of(value(rows[i]), 0)))
}

pub open spec fn i64_cells(rows: Seq<Span>, value: spec_fn(Span) -> i64) -> CellsView {
    CellsView::I64(Seq::new(rows.len(), |i: int| (false, value(rows[i]))))
}

pub open spec fn f64_cells(rows: Seq<Span>, value: spec_fn(Span) -> Option<u64>) -> CellsView {
    CellsView::F64(Seq::new(rows.len(), |i: int| cell_of(value(rows[i]), 0)))
}

pub open spec fn fixed_cells(rows: Seq<Span>, value: spec_fn(Span) -> Option<Seq<u8>>) -> CellsView {
    CellsView::Fixed(Seq::new(rows.len(), |i: int| cell_of(value(rows[i]), Seq::empty())))
}

pub open spec fn text_cells(rows: Seq<Span>, value: spec_fn(Span) -> Option<Seq<char>>) -> CellsView {
    CellsView::Text(Seq::new(rows.len(), |i: int| cell_of(value(rows[i]), Seq::empty())))
}

/// The batch that spans are logged as: one column per field, under the field's name.
pub open spec fn logged(rows: Seq<Span>) -> BatchView {
    BatchView {
        rows: rows.len(),
        columns: seq![
            ("tenant_id"@, u64_cells(rows, |s: Span| s.tenant_id.0)),
            ("partition_id"@, u32_cells(rows, |s: Span| Some(s.partition_id.0))),
            ("trace_id"@, fixed_cells(rows, |s: Span| Some(s.trace_id))),
            ("span_id"@, fixed_cells(rows, |s: Span| Some(s.span_id))),
            ("parent_span_id"@, fixed_cells(rows, |s: Span| s.parent_span_id)),
            ("start_time_ms"@, i64_cells(rows, |s: Span| s.start_time_ms)),
            ("end_time_ms"@, i64_cells(rows, |s: Span| s.end_time_ms)),
            ("duration_ms"@, i64_cells(rows, |s: Span| s.duration_ms)),
            ("span_type"@, text_cells(rows, |s: Span| s.span_type)),
            ("status"@, text_cells(rows, |s: Span| s.status)),
            ("provider"@, text_cells(rows, |s: Span| s.provider)),
            ("model"@, text_cells(rows, |s: Span| s.model)),
            ("tool_name"@, text_cells(rows, |s: Span| s.tool_name)),
            ("prompt"@, text_cells(rows, |s: Span| s.prompt)),
            ("completion"@, text_cells(rows, |s: Span| s.completion)),
            ("prompt_tokens"@, u32_cells(rows, |s: Span| s.prompt_tokens)),
            ("completion_tokens"@, u32_cells(rows, |s: Span| s.completion_tokens)),
            ("cost_usd"@, f64_cells(rows, |s: Span| s.cost_usd)),
            ("temperature"@, f64_cells(rows, |s: Span| s.temperature)),
            ("top_p"@, f64_cells(rows, |s: Span| s.top_p)),
            ("tool_io_text"@, text_cells(rows, |s: Span| s.tool_io_text)),
            ("user_id"@, text_cells(rows, |s: Span| s.user_id)),
            ("session_id"@, text_cells(rows, |s: Span| s.session_id)),
            ("request_id"@, text_cells(rows, |s: Span| s.request_id)),
            ("metadata_json"@, text_cells(rows, |s: Span| metadata_text(s))),
            ("commit_id"@, u64_cells(rows, |s: Span| s.commit_id.0)),
        ],
    }
}

/// The metadata as text.
pub open spec fn metadata_text(s: Span) -> Option<Seq<char>> {
    match s.metadata {
        Some(m) => Some(decode_utf8(m)),
        None => None,
    }
}

/// The span can be logged as it is: its metadata is compact JSON, and it has no embedding,
/// which the log does not hold.
pub open spec fn is_loggable(s: Span) -> bool {
    &&& s.metadata matches Some(m) ==> valid_utf8(m) && json_compact_of(m) == Some(m)
    &&& s.embedding is None
}

/// The length and the first two letters of a column's name, which tell the names apart.
spec fn shape(name: Seq<char>) -> (nat, char, char) {
    (name.len(), name[0], name[1])
}

proof fn lemma_log_names(rows: Seq<Span>)
    ensures
        shape(logged(rows).columns[0].0) == (9nat, 't', 'e'),
        shape(logged(rows).columns[1].0) == (12nat, 'p', 'a'),
        shape(logged(rows).columns[2].0) == (8nat, 't', 'r'),
        shape(logged(rows).columns[3].0) == (7nat, 's', 'p'),
        shape(logged(rows).columns[4].0) == (14nat, 'p', 'a'),
        shape(logged(rows).columns[5].0) == (13nat, 's', 't'),
        shape(logged(rows).columns[6].0) == (11nat, 'e', 'n'),
        shape(logged(rows).columns[7].0) == (11nat, 'd', 'u'),
        shape(logged(rows).columns[8].0) == (9nat, 's', 'p'),
        shape(logged(rows).columns[9].0) == (6nat, 's', 't'),
        shape(logged(rows).columns[10].0) == (8nat, 'p', 'r'),
        shape(logged(rows).columns[11].0) == (5nat, 'm', 'o'),
        shape(logged(rows).columns[12].0) == (9nat, 't', 'o'),
        shape(logged(rows).columns[13].0) == (6nat, 'p', 'r'),
        shape(logged(rows).columns[14].0) == (10nat, 'c', 'o'),
        shape(logged(rows).columns[15].0) == (13nat, 'p', 'r'),
        shape(logged(rows).columns[16].0) == (17nat, 'c', 'o'),
        shape(logged(rows).columns[17].0) == (8nat, 'c', 'o'),
        shape(logged(rows).columns[18].0) == (11nat, 't', 'e'),
        shape(logged(rows).columns[19].0) == (5nat, 't', 'o'),
        shape(logged(rows).columns[20].0) == (12nat, 't', 'o'),
        shape(logged(rows).columns[21].0) == (7nat, 'u', 's'),
        shape(logged(rows).columns[22].0) == (10nat, 's', 'e'),
        shape(logged(rows).columns[23].0) == (10nat, 'r', 'e'),
        shape(logged(rows).columns[24].0) == (13nat, 'm', 'e'),
        shape(logged(rows).columns[25].0) == (9nat, 'c', 'o'),
{
    reveal_strlit("tenant_id");
    reveal_strlit("partition_id");
    reveal_strlit("trace_id");
    reveal_strlit("span_id");
    reveal_strlit("parent_span_id");
    reveal_strlit("start_time_ms");
    reveal_strlit("end_time_ms");
    reveal_strlit("duration_ms");
    reveal_strlit("span_type");
    reveal_strlit("status");
    reveal_strlit("provider");
    reveal_strlit("model");
    reveal_strlit("tool_name");
    reveal_strlit("prompt");
    reveal_strlit("completion");
    reveal_strlit("prompt_tokens");
    reveal_strlit("completion_tokens");
    reveal_strlit("cost_usd");
    reveal_strlit("temperature");
    reveal_strlit("top_p");
    reveal_strlit("tool_io_text");
    reveal_strlit("user_id");
    reveal_strlit("session_id");
    reveal_strlit("request_id");
    reveal_strlit("metadata_json");
    reveal_strlit("commit_id");
}

pub(crate) proof fn lemma_log_columns(rows: Seq<Span>, c: int)
    requires
        0 <= c < 26,
    ensures
        is_first_of_name(logged(rows), c),
{
    lemma_log_names(rows);
}

/// Logging and reading back: the batch that spans are logged as turns back into them.
pub proof fn logged_spans_read_back(rows: Seq<Span>)
    requires
        forall|i: int| 0 <= i < rows.len() ==> is_loggable(#[trigger] rows[i]),
    ensures
        logged(rows).wf(),
        logged(rows).spans() == rows,
{
    let b = logged(rows);
    assert forall|i: int| 0 <= i < rows.len() implies b.spans()[i] == #[trigger] rows[i] by {
        lemma_required_back(rows, i);
        lemma_texts_back(rows, i);
        lemma_values_back(rows, i);
        lemma_metadata_back(rows, i);
        assert(b.spans()[i] =~= rows[i]);
    }
    assert(b.spans() =~= rows);
}

proof fn lemma_required_back(rows: Seq<Span>, i: int)
    requires
        0 <= i < rows.len(),
    ensures
        logged(rows).spans()[i].tenant_id.0 == rows[i].tenant_id.0,
        logged(rows).spans()[i].partition_id.0 == rows[i].partition_id.0,
        logged(rows).spans()[i].trace_id == rows[i].trace_id,
        logged(rows).spans()[i].span_id == rows[i].span_id,
        logged(rows).spans()[i].start_time_ms == rows[i].start_time_ms,
        logged(rows).spans()[i].end_time_ms == rows[i].end_time_ms,
        logged(rows).spans()[i].duration_ms == rows[i].duration_ms,
        logged(rows).spans()[i].commit_id.0 == rows[i].commit_id.0,
{
    let b = logged(rows);
    lemma_log_columns(rows, 0);
    lemma_first_named(b.columns, 0);
    lemma_log_columns(rows, 1);
    lemma_first_named(b.columns, 1);
    lemma_log_columns(rows, 2);
    lemma_first_named(b.columns, 2);
    lemma_log_columns(rows, 3);
    lemma_first_named(b.columns, 3);
    lemma_log_columns(rows, 5);
    lemma_first_named(b.columns, 5);
    lemma_log_columns(rows, 6);
    lemma_first_named(b.columns, 6);
    lemma_log_columns(rows, 7);
    lemma_first_named(b.columns, 7);
    lemma_log_columns(rows, 25);
    lemma_first_named(b.columns, 25);
}

proof fn lemma_texts_back(rows: Seq<Span>, i: int)
    requires
        0 <= i < rows.len(),
    ensures
        logged(rows).spans()[i].span_type == rows[i].span_type,
        logged(rows).spans()[i].status == rows[i].status,
        logged(rows).spans()[i].provider == rows[i].provider,
        logged(rows).spans()[i].model == rows[i].model,
        logged(rows).spans()[i].tool_name == rows[i].tool_name,
        logged(rows).spans()[i].prompt == rows[i].prompt,
        logged(rows).spans()[i].completion == rows[i].completion,
        logged(rows).spans()[i].tool_io_text == rows[i].tool_io_text,
        logged(rows).spans()[i].user_id == rows[i].user_id,
        logged(rows).spans()[i].session_id == rows[i].session_id,
        logged(rows).spans()[i].request_id == rows[i].request_id,
{
    let b = logged(rows);
    lemma_log_columns(rows, 8);
    lemma_first_named(b.columns, 8);
    lemma_log_columns(rows, 9);
    lemma_first_named(b.columns, 9);
    lemma_log_columns(rows, 10);
    lemma_first_named(b.columns, 10);
    lemma_log_columns(rows, 11);
    lemma_first_named(b.columns, 11);
    lemma_log_columns(rows, 12);
    lemma_first_named(b.columns, 12);
    lemma_log_columns(rows, 13);
    lemma_first_named(b.columns, 13);
    lemma_log_columns(rows, 14);
    lemma_first_named(b.columns, 14);
    lemma_log_columns(rows, 20);
    lemma_first_named(b.columns, 20);
    lemma_log_columns(rows, 21);
    lemma_first_named(b.columns, 21);
    lemma_log_columns(rows, 22);
    lemma_first_named(b.columns, 22);
    lemma_log_columns(rows, 23);
    lemma_first_named(b.columns, 23);
}

proof fn lemma_values_back(rows: Seq<Span>, i: int)
    requires
        0 <= i < rows.len(),
    ensures
        logged(rows).spans()[i].parent_span_id == rows[i].parent_span_id,
        logged(rows).spans()[i].prompt_tokens == rows[i].prompt_tokens,
        logged(rows).spans()[i].completion_tokens == rows[i].completion_tokens,
        logged(rows).spans()[i].cost_usd == rows[i].cost_usd,
        logged(rows).spans()[i].temperature == rows[i].temperature,
        logged(rows).spans()[i].top_p == rows[i].top_p,
{
    let b = logged(rows);
    lemma_log_columns(rows, 4);
    lemma_first_named(b.columns, 4);
    lemma_log_columns(rows, 15);
    lemma_first_named(b.columns, 15);
    lemma_log_columns(rows, 16);
    lemma_first_named(b.columns, 16);
    lemma_log_columns(rows, 17);
    lemma_first_named(b.columns, 17);
    lemma_log_columns(rows, 18);
    lemma_first_named(b.columns, 18);
    lemma_log_columns(rows, 19);
    lemma_first_named(b.columns, 19);
}

proof fn lemma_metadata_back(rows: Seq<Span>, i: int)
    requires
        0 <= i < rows.len(),
        is_loggable(rows[i]),
    ensures
        logged(rows).spans()[i].metadata == rows[i].metadata,
{
    let b = logged(rows);
    lemma_log_columns(rows, 24);
    lemma_first_named(b.columns, 24);
    if let Some(m) = rows[i].metadata {
        decode_utf8_encode_utf8(m);
    }
}

} // verus!
