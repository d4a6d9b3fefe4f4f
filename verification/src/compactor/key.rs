//! The order of spans in a segment: by trace, then start time, then span.
use crate::common::record::{Span, SpanRecord};
use crate::order::{
    bytes_eq, bytes_le, lemma_lex_antisymmetric, lemma_lex_total, lemma_lex_transitive, lex_le,
    lex_lt, Ranked,
};
use vstd::prelude::*;

verus! {

/// Both spans have the same place in a segment.
pub open spec fn key_eq(a: Span, b: Span) -> bool {
    a.trace_id == b.trace_id && a.start_time_ms == b.start_time_ms && a.span_id == b.span_id
}

/// `a` stands before `b` in a segment, or has the same place.
pub open spec fn key_le(a: Span, b: Span) -> bool {
    if a.trace_id != b.trace_id {
        lex_le(a.trace_id, b.trace_id)
    } else if a.start_time_ms != b.start_time_ms {
        a.start_time_ms < b.start_time_ms
    } else {
        lex_le(a.span_id, b.span_id)
    }
}

/// The order in which log rows are merged: by place in a segment, and at the same place
/// the higher commit first.
pub open spec fn merge_le(a: Span, b: Span) -> bool {
    if key_eq(a, b) {
        a.commit_id.0 >= b.commit_id.0
    } else {
        key_le(a, b)
    }
}

/// The list is in segment order.
pub open spec fn key_sorted(s: Seq<Span>) -> bool {
    forall|i: int, j: int| 0 <= i < j < s.len() ==> key_le(#[trigger] s[i], #[trigger] s[j])
}

pub proof fn key_le_total(a: Span, b: Span)
    ensures
        key_le(a, b) || key_le(b, a),
        key_le(a, b) && key_le(b, a) ==> key_eq(a, b),
        key_eq(a, b) ==> key_le(a, b),
{
    lemma_lex_total(a.trace_id, b.trace_id);
    lemma_lex_total(a.span_id, b.span_id);
    if lex_le(a.trace_id, b.trace_id) && lex_le(b.trace_id, a.trace_id) {
        lemma_lex_antisymmetric(a.trace_id, b.trace_id);
    }
    if lex_le(a.span_id, b.span_id) && lex_le(b.span_id, a.span_id) {
        lemma_lex_antisymmetric(a.span_id, b.span_id);
    }
}

pub proof fn key_le_transitive(a: Span, b: Span, c: Span)
    requires
        key_le(a, b),
        key_le(b, c),
    ensures
        key_le(a, c),
{
    if a.trace_id != b.trace_id && b.trace_id != c.trace_id {
        lemma_lex_transitive(a.trace_id, b.trace_id, c.trace_id);
        if a.trace_id == c.trace_id {
            lemma_lex_antisymmetric(a.trace_id, b.trace_id);
        }
    }
    if a.trace_id == b.trace_id && b.trace_id == c.trace_id && a.start_time_ms == b.start_time_ms
        && b.start_time_ms == c.start_time_ms {
        lemma_lex_transitive(a.span_id, b.span_id, c.span_id);
    }
}

/// Whether `a` stands before `b` in a segment, or has the same place.
pub fn record_key_le(a: &SpanRecord, b: &SpanRecord) -> (r: bool)
    ensures
        r == key_le(a@, b@),
{
    if !bytes_eq(a.trace_id.0.as_slice(), b.trace_id.0.as_slice()) {
        return bytes_le(a.trace_id.0.as_slice(), b.trace_id.0.as_slice());
    }
    if a.start_time_ms != b.start_time_ms {
        return a.start_time_ms < b.start_time_ms;
    }
    bytes_le(a.span_id.0.as_slice(), b.span_id.0.as_slice())
}

impl Ranked for SpanRecord {
    open spec fn precedes(&self, other: &Self) -> bool {
        merge_le(self@, other@)
    }

    proof fn precedes_total(a: &Self, b: &Self) {
        key_le_total(a@, b@);
    }

    proof fn precedes_transitive(a: &Self, b: &Self, c: &Self) {
        key_le_total(a@, b@);
        key_le_total(b@, c@);
        key_le_total(a@, c@);
        key_le_transitive(a@, b@, c@);
        if key_le(b@, a@) {
            key_le_total(b@, a@);
        }
        if key_le(c@, a@) && key_eq(a@, c@) {
            key_le_transitive(c@, a@, b@);
            key_le_total(c@, b@);
        }
    }

    fn is_before(&self, other: &Self) -> (r: bool) {
        let le = record_key_le(self, other);
        let ge = record_key_le(other, self);
        proof {
            key_le_total(self@, other@);
        }
        if le && ge {
            self.commit_id.0 >= other.commit_id.0
        } else {
            le
        }
    }
}

/// The trace decides which of two spans comes first, within a trace the start, and at one start
/// the span itself.
pub proof fn traces_then_starts_then_spans_decide(a: Span, b: Span)
    ensures
        lex_lt(a.trace_id, b.trace_id) ==> key_le(a, b) && !key_le(b, a),
        a.trace_id == b.trace_id && a.start_time_ms < b.start_time_ms ==> key_le(a, b) && !key_le(
            b,
            a,
        ),
        a.trace_id == b.trace_id && a.start_time_ms == b.start_time_ms && lex_lt(
            a.span_id,
            b.span_id,
        ) ==> key_le(a, b) && !key_le(b, a),
{
    lemma_lex_total(a.trace_id, b.trace_id);
    lemma_lex_total(a.span_id, b.span_id);
    lemma_lex_total(a.trace_id, a.trace_id);
    lemma_lex_total(a.span_id, a.span_id);
    if lex_le(a.trace_id, b.trace_id) && lex_le(b.trace_id, a.trace_id) {
        lemma_lex_antisymmetric(a.trace_id, b.trace_id);
    }
    if lex_le(a.span_id, b.span_id) && lex_le(b.span_id, a.span_id) {
        lemma_lex_antisymmetric(a.span_id, b.span_id);
    }
}

} // verus!
