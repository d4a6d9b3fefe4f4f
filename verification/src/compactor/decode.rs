//! Reading the rows of a sealed segment back, for merging it into a larger one.
use crate::common::errors::{ErrorView, ZenError};
use crate::common::record::{record_spans, Span, SpanRecord};
use crate::common::types::{CommitId, PartitionId, SpanId, TenantId, TraceId};
use crate::cursor::string_views;
use crate::format::page::{Column, ColumnValues};
use crate::format::reader::{SegmentReader, SegmentView};
use crate::order::bytes_eq;
use crate::outside::json::{json_compact, json_compact_of};
use crate::rows::{byte_rows, copy_bytes, slice_rows};
use crate::text::{opt_text, text_eq, utf8_string};
use crate::wire::{i64_pattern, i64_to_u64, low_u32};
use vstd::prelude::*;
use vstd::string::*;
use vstd::utf8::{decode_utf8, valid_utf8};

verus! {

/// The first of the names stands at `i`.
pub open spec fn is_first_name(names: Seq<Seq<char>>, name: Seq<char>, i: int) -> bool {
    &&& 0 <= i < names.len()
    &&& names[i] == name
    &&& forall|j: int| 0 <= j < i ==> (#[trigger] names[j]) != name
}

/// The column of that name in a row group, if it can be read.
#[verifier::opaque]
pub open spec fn named_column(view: SegmentView, rg: int, name: Seq<char>) -> Option<Column> {
    let names = view.metadata.column_names;
    if exists|i: int| is_first_name(names, name, i) {
        let i = choose|i: int| is_first_name(names, name, i);
        match view.column(rg, (i % 0x1_0000_0000) as u32) {
            Ok(c) => Some(c),
            Err(_) => None,
        }
    } else {
        None
    }
}

/// The numbers of a column; zeros where there is no such column.
pub open spec fn number_cells(view: SegmentView, rg: int, name: Seq<char>, n: nat) -> Seq<i64> {
    match named_column(view, rg, name) {
        Some(Column::I64(v)) => v,
        _ => Seq::new(n, |i: int| 0i64),
    }
}

/// The identifiers of a column; zeros where there is no such column.
pub open spec fn id_cells(view: SegmentView, rg: int, name: Seq<char>, n: nat) -> Seq<Seq<u8>> {
    match named_column(view, rg, name) {
        Some(Column::Fixed16(v)) => Seq::new(v.len(), |i: int| v[i]@),
        _ => Seq::new(n, |i: int| zero_id()),
    }
}

/// Sixteen zeros.
pub open spec fn zero_id() -> Seq<u8> {
    Seq::new(16, |i: int| 0u8)
}

fn zero_array() -> (r: [u8; 16])
    ensures
        r@ == zero_id(),
{
    let blank = SpanRecord::default();
    assert(blank@.span_id =~= zero_id());
    blank.span_id.0
}

/// The texts of a column as bytes; empty where there is no such column.
pub open spec fn text_cells(view: SegmentView, rg: int, name: Seq<char>, n: nat) -> Seq<Seq<u8>> {
    match named_column(view, rg, name) {
        Some(Column::Strings(v)) => v,
        _ => Seq::new(n, |i: int| Seq::<u8>::empty()),
    }
}

/// The binary values of a column; empty where there is no such column.
pub open spec fn blob_cells(view: SegmentView, rg: int, name: Seq<char>, n: nat) -> Seq<Seq<u8>> {
    match named_column(view, rg, name) {
        Some(Column::Bytes(v)) => v,
        _ => Seq::new(n, |i: int| Seq::<u8>::empty()),
    }
}

/// A stored text: empty bytes stand for none, and so do bytes that are no text.
pub open spec fn text_of_bytes(b: Seq<u8>) -> Option<Seq<char>> {
    if b.len() == 0 || !valid_utf8(b) {
        None
    } else {
        Some(decode_utf8(b))
    }
}

/// Stored metadata: empty bytes stand for none, and so do bytes that are no JSON.
pub open spec fn metadata_of_bytes(b: Seq<u8>) -> Option<Seq<u8>> {
    if b.len() == 0 {
        None
    } else {
        json_compact_of(b)
    }
}

/// Every column that is read has a value for each of `n` rows.
pub open spec fn columns_complete(view: SegmentView, rg: int, n: nat) -> bool {
    &&& number_cells(view, rg, "tenant_id"@, n).len() >= n
    &&& number_cells(view, rg, "partition_id"@, n).len() >= n
    &&& id_cells(view, rg, "trace_id"@, n).len() >= n
    &&& id_cells(view, rg, "span_id"@, n).len() >= n
    &&& id_cells(view, rg, "parent_span_id"@, n).len() >= n
    &&& number_cells(view, rg, "start_time_ms"@, n).len() >= n
    &&& number_cells(view, rg, "end_time_ms"@, n).len() >= n
    &&& number_cells(view, rg, "duration_ms"@, n).len() >= n
    &&& text_cells(view, rg, "model"@, n).len() >= n
    &&& text_cells(view, rg, "status"@, n).len() >= n
    &&& text_cells(view, rg, "provider"@, n).len() >= n
    &&& text_cells(view, rg, "tool_name"@, n).len() >= n
    &&& text_cells(view, rg, "span_type"@, n).len() >= n
    &&& text_cells(view, rg, "prompt"@, n).len() >= n
    &&& text_cells(view, rg, "completion"@, n).len() >= n
    &&& blob_cells(view, rg, "metadata"@, n).len() >= n
    &&& number_cells(view, rg, "commit_id"@, n).len() >= n
}

/// Row `i` of a row group of `n` rows. Only the columns that survive a full compaction
/// are read; the other fields are left out.
pub open spec fn decoded_span(view: SegmentView, rg: int, n: nat, i: int) -> Span {
    let parent = id_cells(view, rg, "parent_span_id"@, n)[i];
    Span {
        tenant_id: TenantId(i64_pattern(number_cells(view, rg, "tenant_id"@, n)[i]) as u64),
        partition_id: PartitionId(
            (i64_pattern(number_cells(view, rg, "partition_id"@, n)[i]) % 0x1_0000_0000) as u32,
        ),
        trace_id: id_cells(view, rg, "trace_id"@, n)[i],
        span_id: id_cells(view, rg, "span_id"@, n)[i],
        parent_span_id: if parent == zero_id() { None } else { Some(parent) },
        start_time_ms: number_cells(view, rg, "start_time_ms"@, n)[i],
        end_time_ms: number_cells(view, rg, "end_time_ms"@, n)[i],
        duration_ms: number_cells(view, rg, "duration_ms"@, n)[i],
        span_type: text_of_bytes(text_cells(view, rg, "span_type"@, n)[i]),
        status: text_of_bytes(text_cells(view, rg, "status"@, n)[i]),
        provider: text_of_bytes(text_cells(view, rg, "provider"@, n)[i]),
        model: text_of_bytes(text_cells(view, rg, "model"@, n)[i]),
        tool_name: text_of_bytes(text_cells(view, rg, "tool_name"@, n)[i]),
        prompt: text_of_bytes(text_cells(view, rg, "prompt"@, n)[i]),
        completion: text_of_bytes(text_cells(view, rg, "completion"@, n)[i]),
        prompt_tokens: None,
        completion_tokens: None,
        cost_usd: None,
        temperature: None,
        top_p: None,
        tool_io_text: None,
        user_id: None,
        session_id: None,
        request_id: None,
        metadata: metadata_of_bytes(blob_cells(view, rg, "metadata"@, n)[i]),
        embedding: None,
        commit_id: CommitId(i64_pattern(number_cells(view, rg, "commit_id"@, n)[i]) as u64),
    }
}

/// The rows of a row group of `n` rows.
pub open spec fn decoded_group(view: SegmentView, rg: int, n: nat) -> Seq<Span> {
    Seq::new(n, |i: int| decoded_span(view, rg, n, i))
}

/// The column of that name, if it can be read.
fn read_named(reader: &SegmentReader, rg: usize, name: &str) -> (r: Option<ColumnValues<'static>>)
    ensures
        match named_column(reader@, rg as int, name@) {
            Some(c) => r matches Some(v) && v@ == c,
            None => r is None,
        },
{
    proof {
        reveal(named_column);
    }
    let ghost names = reader@.metadata.column_names;
    let mut i: usize = 0;
    while i < reader.metadata.column_names.len()
        invariant
            i <= reader.metadata.column_names@.len(),
            names == reader@.metadata.column_names,
            names == string_views(reader.metadata.column_names@),
            forall|j: int| 0 <= j < i ==> (#[trigger] names[j]) != name@,
        decreases reader.metadata.column_names.len() - i,
    {
        assert(names[i as int] == reader.metadata.column_names@[i as int]@);
        if text_eq(reader.metadata.column_names[i].as_str(), name) {
            proof {
                reveal(named_column);
                assert(is_first_name(names, name@, i as int));
                let c = choose|c: int| is_first_name(names, name@, c);
                assert(c == i);
            }
            return match reader.read_column(rg, low_u32(i)) {
                Ok(v) => Some(v),
                Err(_) => None,
            };
        }
        i = i + 1;
    }
    proof {
        assert forall|c: int| !is_first_name(names, name@, c) by {}
    }
    None
}

fn read_numbers(reader: &SegmentReader, rg: usize, name: &str, n: usize) -> (r: Vec<i64>)
    ensures
        r@ == number_cells(reader@, rg as int, name@, n as nat),
{
    match read_named(reader, rg, name) {
        Some(ColumnValues::I64(v)) => v,
        _ => {
            let v: Vec<i64> = vec![0i64; n];
            assert(v@ =~= Seq::new(n as nat, |i: int| 0i64));
            v
        },
    }
}

/// The contents of a list of identifiers.
spec fn id_views(v: Seq<[u8; 16]>) -> Seq<Seq<u8>> {
    Seq::new(v.len(), |i: int| v[i]@)
}

fn read_ids(reader: &SegmentReader, rg: usize, name: &str, n: usize) -> (r: Vec<[u8; 16]>)
    ensures
        id_views(r@) == id_cells(reader@, rg as int, name@, n as nat),
{
    match read_named(reader, rg, name) {
        Some(ColumnValues::Fixed16(v)) => {
            assert(id_views(v@) =~= Seq::new(v@.len(), |i: int| v@[i]@));
            v
        },
        _ => {
            let mut v: Vec<[u8; 16]> = Vec::new();
            let mut i: usize = 0;
            while i < n
                invariant
                    i <= n,
                    v@.len() == i,
                    forall|k: int| 0 <= k < i ==> (#[trigger] v@[k])@ == zero_id(),
                decreases n - i,
            {
                v.push(zero_array());
                i = i + 1;
            }
            assert(id_views(v@) =~= Seq::new(n as nat, |i: int| zero_id()));
            v
        },
    }
}

fn empty_rows(n: usize) -> (r: Vec<Vec<u8>>)
    ensures
        byte_rows(r@) == Seq::new(n as nat, |i: int| Seq::<u8>::empty()),
{
    let mut v: Vec<Vec<u8>> = Vec::new();
    let mut i: usize = 0;
    while i < n
        invariant
            i <= n,
            v@.len() == i,
            forall|k: int| 0 <= k < i ==> (#[trigger] v@[k])@ == Seq::<u8>::empty(),
        decreases n - i,
    {
        v.push(Vec::new());
        i = i + 1;
    }
    assert(byte_rows(v@) =~= Seq::new(n as nat, |i: int| Seq::<u8>::empty()));
    v
}

fn own_rows(rows: &Vec<&[u8]>) -> (r: Vec<Vec<u8>>)
    ensures
        byte_rows(r@) == slice_rows(rows@),
{
    let mut v: Vec<Vec<u8>> = Vec::new();
    let mut i: usize = 0;
    while i < rows.len()
        invariant
            i <= rows@.len(),
            v@.len() == i,
            forall|k: int| 0 <= k < i ==> (#[trigger] v@[k])@ == rows@[k]@,
        decreases rows.len() - i,
    {
        v.push(copy_bytes(rows[i]));
        i = i + 1;
    }
    assert(byte_rows(v@) =~= slice_rows(rows@));
    v
}

fn read_texts(reader: &SegmentReader, rg: usize, name: &str, n: usize) -> (r: Vec<Vec<u8>>)
    ensures
        byte_rows(r@) == text_cells(reader@, rg as int, name@, n as nat),
{
    match read_named(reader, rg, name) {
        Some(ColumnValues::StringsOwned(v)) => v,
        Some(ColumnValues::Strings(v)) => own_rows(&v),
        _ => empty_rows(n),
    }
}

fn read_blobs(reader: &SegmentReader, rg: usize, name: &str, n: usize) -> (r: Vec<Vec<u8>>)
    ensures
        byte_rows(r@) == blob_cells(reader@, rg as int, name@, n as nat),
{
    match read_named(reader, rg, name) {
        Some(ColumnValues::BytesOwned(v)) => v,
        Some(ColumnValues::Bytes(v)) => own_rows(&v),
        _ => empty_rows(n),
    }
}

/// The text of stored bytes.
fn opt_str(b: &Vec<u8>) -> (r: Option<String>)
    ensures
        opt_text(r) == text_of_bytes(b@),
{
    if b.len() == 0 {
        None
    } else {
        utf8_string(copy_bytes(b.as_slice()))
    }
}

/// Appends the rows of a row group that has `n` of them. Fails if a column is too short.
pub fn decode_row_group_to_records(
    reader: &SegmentReader,
    rg_idx: usize,
    n: usize,
    out: &mut Vec<SpanRecord>,
) -> (r: Result<(), ZenError>)
    ensures
        match r {
            Ok(()) => {
                &&& columns_complete(reader@, rg_idx as int, n as nat)
                &&& record_spans(final(out)@) == record_spans(old(out)@) + decoded_group(
                    reader@,
                    rg_idx as int,
                    n as nat,
                )
            },
            Err(e) => {
                &&& !columns_complete(reader@, rg_idx as int, n as nat)
                &&& final(out)@ == old(out)@
                &&& e@ == ErrorView::Format("column shorter than its row group"@)
            },
        },
{
    let tenant = read_numbers(reader, rg_idx, "tenant_id", n);
    let partition = read_numbers(reader, rg_idx, "partition_id", n);
    let trace_id = read_ids(reader, rg_idx, "trace_id", n);
    let span_id = read_ids(reader, rg_idx, "span_id", n);
    let parent_span_id = read_ids(reader, rg_idx, "parent_span_id", n);
    let start_time = read_numbers(reader, rg_idx, "start_time_ms", n);
    let end_time = read_numbers(reader, rg_idx, "end_time_ms", n);
    let duration = read_numbers(reader, rg_idx, "duration_ms", n);
    let model = read_texts(reader, rg_idx, "model", n);
    let status = read_texts(reader, rg_idx, "status", n);
    let provider = read_texts(reader, rg_idx, "provider", n);
    let tool_name = read_texts(reader, rg_idx, "tool_name", n);
    let span_type = read_texts(reader, rg_idx, "span_type", n);
    let prompt = read_texts(reader, rg_idx, "prompt", n);
    let completion = read_texts(reader, rg_idx, "completion", n);
    let metadata = read_blobs(reader, rg_idx, "metadata", n);
    let commit_id = read_numbers(reader, rg_idx, "commit_id", n);
    let ghost view = reader@;
    let ghost rg = rg_idx as int;
    proof {
        assert(id_views(trace_id@).len() == trace_id@.len());
        assert(id_views(span_id@).len() == span_id@.len());
        assert(id_views(parent_span_id@).len() == parent_span_id@.len());
        assert(byte_rows(model@).len() == model@.len());
        assert(byte_rows(status@).len() == status@.len());
        assert(byte_rows(provider@).len() == provider@.len());
        assert(byte_rows(tool_name@).len() == tool_name@.len());
        assert(byte_rows(span_type@).len() == span_type@.len());
        assert(byte_rows(prompt@).len() == prompt@.len());
        assert(byte_rows(completion@).len() == completion@.len());
        assert(byte_rows(metadata@).len() == metadata@.len());
    }
    if tenant.len() < n || partition.len() < n || trace_id.len() < n || span_id.len() < n
        || parent_span_id.len() < n || start_time.len() < n || end_time.len() < n || duration.len()
        < n || model.len() < n || status.len() < n || provider.len() < n || tool_name.len() < n
        || span_type.len() < n || prompt.len() < n || completion.len() < n || metadata.len() < n
        || commit_id.len() < n {
        return Err(ZenError::format("column shorter than its row group"));
    }
    let ghost before = record_spans(out@);
    let ghost all = decoded_group(view, rg, n as nat);
    let mut i: usize = 0;
    assert(record_spans(out@) =~= before + all.take(0));
    #[verifier::loop_isolation(false)]
    while i < n
        invariant
            i <= n,
            record_spans(out@) == before + all.take(i as int),
        decreases n - i,
    {
        let zero = zero_array();
        let parent: [u8; 16] = parent_span_id[i];
        let meta = if metadata[i].len() == 0 {
            None
        } else {
            json_compact(metadata[i].as_slice())
        };
        let r = SpanRecord {
            tenant_id: TenantId(i64_to_u64(tenant[i])),
            partition_id: PartitionId((i64_to_u64(partition[i]) % 0x1_0000_0000) as u32),
            trace_id: TraceId(trace_id[i]),
            span_id: SpanId(span_id[i]),
            parent_span_id: if bytes_eq(parent.as_slice(), zero.as_slice()) {
                None
            } else {
                Some(SpanId(parent))
            },
            start_time_ms: start_time[i],
            end_time_ms: end_time[i],
            duration_ms: duration[i],
            span_type: opt_str(&span_type[i]),
            status: opt_str(&status[i]),
            provider: opt_str(&provider[i]),
            model: opt_str(&model[i]),
            tool_name: opt_str(&tool_name[i]),
            prompt: opt_str(&prompt[i]),
            completion: opt_str(&completion[i]),
            prompt_tokens: None,
            completion_tokens: None,
            cost_usd: None,
            temperature: None,
            top_p: None,
            tool_io_text: None,
            user_id: None,
            session_id: None,
            request_id: None,
            metadata: meta,
            embedding: None,
            commit_id: CommitId(i64_to_u64(commit_id[i])),
        };
        proof {
            let k = i as int;
            assert(id_views(trace_id@)[k] == trace_id@[k]@);
            assert(id_views(span_id@)[k] == span_id@[k]@);
            assert(id_views(parent_span_id@)[k] == parent_span_id@[k]@);
            assert(byte_rows(model@)[k] == model@[k]@);
            assert(byte_rows(status@)[k] == status@[k]@);
            assert(byte_rows(provider@)[k] == provider@[k]@);
            assert(byte_rows(tool_name@)[k] == tool_name@[k]@);
            assert(byte_rows(span_type@)[k] == span_type@[k]@);
            assert(byte_rows(prompt@)[k] == prompt@[k]@);
            assert(byte_rows(completion@)[k] == completion@[k]@);
            assert(byte_rows(metadata@)[k] == metadata@[k]@);
            assert(r@ == decoded_span(view, rg, n as nat, k));
        }
        let ghost prev = out@;
        out.push(r);
        proof {
            assert(record_spans(out@) =~= record_spans(prev).push(r@));
            assert(all.take(i + 1) =~= all.take(i as int).push(all[i as int]));
            assert(record_spans(out@) =~= before + all.take(i + 1));
        }
        i = i + 1;
    }
    assert(all.take(n as int) =~= all);
    Ok(())
}

} // verus!
