//! The span record, the shape that flows from clients into storage.
use crate::common::types::{filled16, CommitId, PartitionId, SpanId, TenantId, TraceId};
use crate::rows::copy_bytes;
use crate::text::{copy_opt, opt_text};
use vstd::prelude::*;

verus! {

/// A single span. Floats are held by their bit patterns and the free-form metadata by
/// its compact JSON text.
#[derive(Clone, Debug)]
pub struct SpanRecord {
    pub tenant_id: TenantId,
    pub partition_id: PartitionId,
    pub trace_id: TraceId,
    pub span_id: SpanId,
    pub parent_span_id: Option<SpanId>,
    pub start_time_ms: i64,
    pub end_time_ms: i64,
    pub duration_ms: i64,
    pub span_type: Option<String>,
    pub status: Option<String>,
    pub provider: Option<String>,
    pub model: Option<String>,
    pub tool_name: Option<String>,
    pub prompt: Option<String>,
    pub completion: Option<String>,
    pub prompt_tokens: Option<u32>,
    pub completion_tokens: Option<u32>,
    pub cost_usd: Option<u64>,
    pub temperature: Option<u64>,
    pub top_p: Option<u64>,
    pub tool_io_text: Option<String>,
    pub user_id: Option<String>,
    pub session_id: Option<String>,
    pub request_id: Option<String>,
    pub metadata: Option<Vec<u8>>,
    pub embedding: Option<Vec<u32>>,
    /// Monotonically increasing per (tenant, partition); set by the writer.
    pub commit_id: CommitId,
}

/// The content of a span record.
#[verifier::ext_equal]
pub ghost struct Span {
    pub tenant_id: TenantId,
    pub partition_id: PartitionId,
    pub trace_id: Seq<u8>,
    pub span_id: Seq<u8>,
    pub parent_span_id: Option<Seq<u8>>,
    pub start_time_ms: i64,
    pub end_time_ms: i64,
    pub duration_ms: i64,
    pub span_type: Option<Seq<char>>,
    pub status: Option<Seq<char>>,
    pub provider: Option<Seq<char>>,
    pub model: Option<Seq<char>>,
    pub tool_name: Option<Seq<char>>,
    pub prompt: Option<Seq<char>>,
    pub completion: Option<Seq<char>>,
    pub prompt_tokens: Option<u32>,
    pub completion_tokens: Option<u32>,
    pub cost_usd: Option<u64>,
    pub temperature: Option<u64>,
    pub top_p: Option<u64>,
    pub tool_io_text: Option<Seq<char>>,
    pub user_id: Option<Seq<char>>,
    pub session_id: Option<Seq<char>>,
    pub request_id: Option<Seq<char>>,
    pub metadata: Option<Seq<u8>>,
    pub embedding: Option<Seq<u32>>,
    pub commit_id: CommitId,
}

/// The bytes of an optional span identifier.
pub open spec fn opt_id(o: Option<SpanId>) -> Option<Seq<u8>> {
    match o {
        Some(id) => Some(id.0@),
        None => None,
    }
}

/// The content of an optional list.
pub open spec fn opt_seq<T>(o: Option<Vec<T>>) -> Option<Seq<T>> {
    match o {
        Some(v) => Some(v@),
        None => None,
    }
}

impl SpanRecord {
    pub open spec fn view(&self) -> Span {
        Span {
            tenant_id: self.tenant_id,
            partition_id: self.partition_id,
            trace_id: self.trace_id.0@,
            span_id: self.span_id.0@,
            parent_span_id: opt_id(self.parent_span_id),
            start_time_ms: self.start_time_ms,
            end_time_ms: self.end_time_ms,
            duration_ms: self.duration_ms,
            span_type: opt_text(self.span_type),
            status: opt_text(self.status),
            provider: opt_text(self.provider),
            model: opt_text(self.model),
            tool_name: opt_text(self.tool_name),
            prompt: opt_text(self.prompt),
            completion: opt_text(self.completion),
            prompt_tokens: self.prompt_tokens,
            completion_tokens: self.completion_tokens,
            cost_usd: self.cost_usd,
            temperature: self.temperature,
            top_p: self.top_p,
            tool_io_text: opt_text(self.tool_io_text),
            user_id: opt_text(self.user_id),
            session_id: opt_text(self.session_id),
            request_id: opt_text(self.request_id),
            metadata: opt_seq(self.metadata),
            embedding: opt_seq(self.embedding),
            commit_id: self.commit_id,
        }
    }

    /// A record with fresh identifiers and everything else at its default.
    pub fn new(tenant_id: TenantId, partition_id: PartitionId) -> (r: Self)
        ensures
            r@ == (Span {
                tenant_id,
                partition_id,
                trace_id: r.trace_id.0@,
                span_id: r.span_id.0@,
                ..blank_span()
            }),
    {
        let mut r = SpanRecord::default();
        r.tenant_id = tenant_id;
        r.partition_id = partition_id;
        r.trace_id = TraceId::new_random();
        r.span_id = SpanId::new_random();
        r
    }

    /// A copy with the same content.
    pub fn copy(&self) -> (r: Self)
        ensures
            r@ == self@,
    {
        SpanRecord {
            tenant_id: self.tenant_id,
            partition_id: self.partition_id,
            trace_id: self.trace_id,
            span_id: self.span_id,
            parent_span_id: self.parent_span_id,
            start_time_ms: self.start_time_ms,
            end_time_ms: self.end_time_ms,
            duration_ms: self.duration_ms,
            span_type: copy_opt(&self.span_type),
            status: copy_opt(&self.status),
            provider: copy_opt(&self.provider),
            model: copy_opt(&self.model),
            tool_name: copy_opt(&self.tool_name),
            prompt: copy_opt(&self.prompt),
            completion: copy_opt(&self.completion),
            prompt_tokens: self.prompt_tokens,
            completion_tokens: self.completion_tokens,
            cost_usd: self.cost_usd,
            temperature: self.temperature,
            top_p: self.top_p,
            tool_io_text: copy_opt(&self.tool_io_text),
            user_id: copy_opt(&self.user_id),
            session_id: copy_opt(&self.session_id),
            request_id: copy_opt(&self.request_id),
            metadata: match &self.metadata {
                Some(v) => Some(copy_bytes(v.as_slice())),
                None => None,
            },
            embedding: match &self.embedding {
                Some(v) => Some(vstd::slice::slice_to_vec(v.as_slice())),
                None => None,
            },
            commit_id: self.commit_id,
        }
    }
}

/// The contents of a list of records.
pub open spec fn record_spans(v: Seq<SpanRecord>) -> Seq<Span> {
    Seq::new(v.len(), |i: int| v[i]@)
}

/// All identifiers zero, all times zero, nothing else set.
pub open spec fn blank_span() -> Span {
    Span {
        tenant_id: TenantId(0),
        partition_id: PartitionId(0),
        trace_id: Seq::new(16, |i: int| 0u8),
        span_id: Seq::new(16, |i: int| 0u8),
        parent_span_id: None,
        start_time_ms: 0,
        end_time_ms: 0,
        duration_ms: 0,
        span_type: None,
        status: None,
        provider: None,
        model: None,
        tool_name: None,
        prompt: None,
        completion: None,
        prompt_tokens: None,
        completion_tokens: None,
        cost_usd: None,
        temperature: None,
        top_p: None,
        tool_io_text: None,
        user_id: None,
        session_id: None,
        request_id: None,
        metadata: None,
        embedding: None,
        commit_id: CommitId(0),
    }
}

impl Default for SpanRecord {
    fn default() -> (r: Self)
        ensures
            r@ == blank_span(),
    {
        let r = SpanRecord {
            tenant_id: TenantId(0),
            partition_id: PartitionId(0),
            trace_id: TraceId(filled16(0)),
            span_id: SpanId(filled16(0)),
            parent_span_id: None,
            start_time_ms: 0,
            end_time_ms: 0,
            duration_ms: 0,
            span_type: None,
            status: None,
            provider: None,
            model: None,
            tool_name: None,
            prompt: None,
            completion: None,
            prompt_tokens: None,
            completion_tokens: None,
            cost_usd: None,
            temperature: None,
            top_p: None,
            tool_io_text: None,
            user_id: None,
            session_id: None,
            request_id: None,
            metadata: None,
            embedding: None,
            commit_id: CommitId(0),
        };
        r
    }
}

} // verus!
