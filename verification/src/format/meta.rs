//! Segment-level metadata: identity, schema fingerprint, time/commit ranges.
//!
//! Stands at the head of the segment so that a reader can decide from the first few KB
//! whether the segment is relevant to a query.
use crate::common::types::{
    filled16, CommitId, PartitionId, SchemaFingerprint, SpanId, TenantId, TraceId,
};
use crate::cursor::{
    lemma_take_bytes, lemma_take_i64, lemma_take_text_list, lemma_take_uint, put_text_list,
    put_u128, string_views, take_bytes, take_i64, take_text_list, take_uint, text_list_bytes,
    texts_fit, Cursor,
};
use crate::order::{bytes_le, lex_lt};
use crate::wire::{lemma_le_bytes_len, i64_pattern, le_bytes, lemma_pow256_values, put_i64, put_slice, put_u32, put_u64};
use vstd::prelude::*;

verus! {

#[derive(Clone, Debug, PartialEq)]
pub struct SegmentMetadata {
    pub segment_id: u128,
    pub tenant_id: TenantId,
    pub partition_id: PartitionId,
    pub schema_fingerprint: SchemaFingerprint,
    pub time_min_ms: i64,
    pub time_max_ms: i64,
    pub commit_id_min: CommitId,
    pub commit_id_max: CommitId,
    pub row_count: u64,
    pub trace_id_min: TraceId,
    pub trace_id_max: TraceId,
    pub span_id_min: SpanId,
    pub span_id_max: SpanId,
    /// Names of columns that drive the sort, in priority order.
    pub sort_keys: Vec<String>,
    /// Names of columns in the schema, in stored order.
    pub column_names: Vec<String>,
}

/// The content of segment metadata.
#[verifier::ext_equal]
pub ghost struct MetaView {
    pub segment_id: u128,
    pub tenant_id: TenantId,
    pub partition_id: PartitionId,
    pub schema_fingerprint: SchemaFingerprint,
    pub time_min_ms: i64,
    pub time_max_ms: i64,
    pub commit_id_min: CommitId,
    pub commit_id_max: CommitId,
    pub row_count: u64,
    pub trace_id_min: Seq<u8>,
    pub trace_id_max: Seq<u8>,
    pub span_id_min: Seq<u8>,
    pub span_id_max: Seq<u8>,
    pub sort_keys: Seq<Seq<char>>,
    pub column_names: Seq<Seq<char>>,
}

impl MetaView {
    /// The metadata in written form.
    #[verifier::opaque]
    pub open spec fn bytes(self) -> Seq<u8> {
        le_bytes(self.segment_id as nat, 16) + (le_bytes(self.tenant_id.0 as nat, 8) + (le_bytes(
            self.partition_id.0 as nat,
            4,
        ) + (le_bytes(self.schema_fingerprint.0 as nat, 16) + (le_bytes(
            i64_pattern(self.time_min_ms),
            8,
        ) + (le_bytes(i64_pattern(self.time_max_ms), 8) + (le_bytes(
            self.commit_id_min.0 as nat,
            8,
        ) + (le_bytes(self.commit_id_max.0 as nat, 8) + (le_bytes(self.row_count as nat, 8) + (
        self.trace_id_min + (self.trace_id_max + (self.span_id_min + (self.span_id_max + (
        text_list_bytes(self.sort_keys) + text_list_bytes(self.column_names))))))))))))))
    }

    /// The identifiers have 16 bytes and the names fit their counts.
    pub open spec fn fits(self) -> bool {
        &&& self.trace_id_min.len() == 16
        &&& self.trace_id_max.len() == 16
        &&& self.span_id_min.len() == 16
        &&& self.span_id_max.len() == 16
        &&& self.sort_keys.len() <= u64::MAX
        &&& self.column_names.len() <= u64::MAX
        &&& texts_fit(self.sort_keys)
        &&& texts_fit(self.column_names)
    }
}

/// Metadata off the front, without the names.
pub open spec fn take_meta_head(s: Seq<u8>) -> Option<(MetaView, Seq<u8>)> {
    match take_uint(s, 16) {
        None => None,
        Some((a, s)) => match take_uint(s, 8) {
            None => None,
            Some((b, s)) => match take_uint(s, 4) {
                None => None,
                Some((c, s)) => match take_uint(s, 16) {
                    None => None,
                    Some((d, s)) => match take_i64(s) {
                        None => None,
                        Some((e, s)) => match take_i64(s) {
                            None => None,
                            Some((f, s)) => match take_uint(s, 8) {
                                None => None,
                                Some((g, s)) => match take_uint(s, 8) {
                                    None => None,
                                    Some((h, s)) => match take_uint(s, 8) {
                                        None => None,
                                        Some((i, s)) => Some(
                                            (
                                                MetaView {
                                                    segment_id: a as u128,
                                                    tenant_id: TenantId(b as u64),
                                                    partition_id: PartitionId(c as u32),
                                                    schema_fingerprint: SchemaFingerprint(
                                                        d as u128,
                                                    ),
                                                    time_min_ms: e,
                                                    time_max_ms: f,
                                                    commit_id_min: CommitId(g as u64),
                                                    commit_id_max: CommitId(h as u64),
                                                    row_count: i as u64,
                                                    trace_id_min: Seq::empty(),
                                                    trace_id_max: Seq::empty(),
                                                    span_id_min: Seq::empty(),
                                                    span_id_max: Seq::empty(),
                                                    sort_keys: Seq::empty(),
                                                    column_names: Seq::empty(),
                                                },
                                                s,
                                            ),
                                        ),
                                    },
                                },
                            },
                        },
                    },
                },
            },
        },
    }
}

/// The identifier bounds and the names off the front, added to `m`.
pub open spec fn take_meta_tail(m: MetaView, s: Seq<u8>) -> Option<(MetaView, Seq<u8>)> {
    match take_bytes(s, 16) {
        None => None,
        Some((a, s)) => match take_bytes(s, 16) {
            None => None,
            Some((b, s)) => match take_bytes(s, 16) {
                None => None,
                Some((c, s)) => match take_bytes(s, 16) {
                    None => None,
                    Some((d, s)) => match take_text_list(s) {
                        None => None,
                        Some((e, s)) => match take_text_list(s) {
                            None => None,
                            Some((f, s)) => Some(
                                (
                                    MetaView {
                                        trace_id_min: a,
                                        trace_id_max: b,
                                        span_id_min: c,
                                        span_id_max: d,
                                        sort_keys: e,
                                        column_names: f,
                                        ..m
                                    },
                                    s,
                                ),
                            ),
                        },
                    },
                },
            },
        },
    }
}

/// Metadata off the front.
#[verifier::opaque]
pub open spec fn take_meta(s: Seq<u8>) -> Option<(MetaView, Seq<u8>)> {
    match take_meta_head(s) {
        None => None,
        Some((m, s)) => take_meta_tail(m, s),
    }
}

/// Written metadata reads back as it was.
pub proof fn meta_round_trip(m: MetaView)
    requires
        m.fits(),
    ensures
        take_meta(m.bytes()) == Some((m, Seq::<u8>::empty())),
{
    reveal(MetaView::bytes);
    reveal(take_meta);
    lemma_pow256_values();
    let none = Seq::<u8>::empty();
    let names = text_list_bytes(m.column_names);
    let t4 = text_list_bytes(m.sort_keys) + names;
    let t3 = m.span_id_max + t4;
    let t2 = m.span_id_min + t3;
    let t1 = m.trace_id_max + t2;
    let t0 = m.trace_id_min + t1;
    let s8 = le_bytes(m.row_count as nat, 8) + t0;
    let s7 = le_bytes(m.commit_id_max.0 as nat, 8) + s8;
    let s6 = le_bytes(m.commit_id_min.0 as nat, 8) + s7;
    let s5 = le_bytes(i64_pattern(m.time_max_ms), 8) + s6;
    let s4 = le_bytes(i64_pattern(m.time_min_ms), 8) + s5;
    let s3 = le_bytes(m.schema_fingerprint.0 as nat, 16) + s4;
    let s2 = le_bytes(m.partition_id.0 as nat, 4) + s3;
    let s1 = le_bytes(m.tenant_id.0 as nat, 8) + s2;
    lemma_take_uint(m.segment_id as nat, 16, s1);
    lemma_take_uint(m.tenant_id.0 as nat, 8, s2);
    lemma_take_uint(m.partition_id.0 as nat, 4, s3);
    lemma_take_uint(m.schema_fingerprint.0 as nat, 16, s4);
    lemma_take_i64(m.time_min_ms, s5);
    lemma_take_i64(m.time_max_ms, s6);
    lemma_take_uint(m.commit_id_min.0 as nat, 8, s7);
    lemma_take_uint(m.commit_id_max.0 as nat, 8, s8);
    lemma_take_uint(m.row_count as nat, 8, t0);
    lemma_take_bytes(m.trace_id_min, t1);
    lemma_take_bytes(m.trace_id_max, t2);
    lemma_take_bytes(m.span_id_min, t3);
    lemma_take_bytes(m.span_id_max, t4);
    lemma_take_text_list(m.sort_keys, names);
    lemma_take_text_list(m.column_names, none);
    assert(names + none =~= names);
}

/// The smaller of two times.
pub open spec fn min_time(a: i64, b: i64) -> i64 {
    if b < a {
        b
    } else {
        a
    }
}

/// The larger of two times.
pub open spec fn max_time(a: i64, b: i64) -> i64 {
    if b > a {
        b
    } else {
        a
    }
}

/// The smaller of two commits.
pub open spec fn min_commit(a: CommitId, b: CommitId) -> CommitId {
    if b.0 < a.0 {
        b
    } else {
        a
    }
}

/// The larger of two commits.
pub open spec fn max_commit(a: CommitId, b: CommitId) -> CommitId {
    if b.0 > a.0 {
        b
    } else {
        a
    }
}

/// The smaller of two identifiers in byte order.
pub open spec fn min_id(a: Seq<u8>, b: Seq<u8>) -> Seq<u8> {
    if lex_lt(b, a) {
        b
    } else {
        a
    }
}

/// The larger of two identifiers in byte order.
pub open spec fn max_id(a: Seq<u8>, b: Seq<u8>) -> Seq<u8> {
    if lex_lt(a, b) {
        b
    } else {
        a
    }
}

/// Whether `a` stands strictly before `b` in byte order.
pub fn id_lt(a: &[u8; 16], b: &[u8; 16]) -> (r: bool)
    ensures
        r == lex_lt(a@, b@),
{
    bytes_le(a.as_slice(), b.as_slice()) && !bytes_le(b.as_slice(), a.as_slice())
}

/// The size of the written form does not depend on the row count.
pub proof fn lemma_meta_len(m: MetaView, rows: u64)
    ensures
        (MetaView { row_count: rows, ..m }).bytes().len() == m.bytes().len(),
{
    reveal(MetaView::bytes);
    lemma_le_bytes_len(m.row_count as nat, 8);
    lemma_le_bytes_len(rows as nat, 8);
}

/// Sixteen equal bytes.
pub open spec fn sixteen(b: u8) -> Seq<u8> {
    Seq::new(16, |i: int| b)
}

/// Metadata of a segment in which nothing was observed yet.
pub open spec fn unobserved(
    segment_id: u128,
    tenant_id: TenantId,
    partition_id: PartitionId,
    schema_fingerprint: SchemaFingerprint,
    column_names: Seq<Seq<char>>,
    sort_keys: Seq<Seq<char>>,
) -> MetaView {
    MetaView {
        segment_id,
        tenant_id,
        partition_id,
        schema_fingerprint,
        time_min_ms: i64::MAX,
        time_max_ms: i64::MIN,
        commit_id_min: CommitId(u64::MAX),
        commit_id_max: CommitId(0),
        row_count: 0,
        trace_id_min: sixteen(0xff),
        trace_id_max: sixteen(0),
        span_id_min: sixteen(0xff),
        span_id_max: sixteen(0),
        sort_keys,
        column_names,
    }
}

/// A copy of a list of texts.
fn copy_texts(v: &Vec<String>) -> (r: Vec<String>)
    ensures
        string_views(r@) == string_views(v@),
{
    let mut out: Vec<String> = Vec::new();
    let mut i: usize = 0;
    while i < v.len()
        invariant
            i <= v@.len(),
            out@.len() == i,
            forall|k: int| 0 <= k < i ==> (#[trigger] out@[k])@ == v@[k]@,
        decreases v.len() - i,
    {
        out.push(v[i].clone());
        i = i + 1;
    }
    assert(string_views(out@) =~= string_views(v@));
    out
}

impl SegmentMetadata {
    pub open spec fn view(&self) -> MetaView {
        MetaView {
            segment_id: self.segment_id,
            tenant_id: self.tenant_id,
            partition_id: self.partition_id,
            schema_fingerprint: self.schema_fingerprint,
            time_min_ms: self.time_min_ms,
            time_max_ms: self.time_max_ms,
            commit_id_min: self.commit_id_min,
            commit_id_max: self.commit_id_max,
            row_count: self.row_count,
            trace_id_min: self.trace_id_min.0@,
            trace_id_max: self.trace_id_max.0@,
            span_id_min: self.span_id_min.0@,
            span_id_max: self.span_id_max.0@,
            sort_keys: string_views(self.sort_keys@),
            column_names: string_views(self.column_names@),
        }
    }

    pub fn new(
        segment_id: u128,
        tenant_id: TenantId,
        partition_id: PartitionId,
        schema_fingerprint: SchemaFingerprint,
        column_names: Vec<String>,
        sort_keys: Vec<String>,
    ) -> (r: Self)
        ensures
            r@ == unobserved(
                segment_id,
                tenant_id,
                partition_id,
                schema_fingerprint,
                string_views(column_names@),
                string_views(sort_keys@),
            ),
    {
        let r = SegmentMetadata {
            segment_id,
            tenant_id,
            partition_id,
            schema_fingerprint,
            time_min_ms: i64::MAX,
            time_max_ms: i64::MIN,
            commit_id_min: CommitId(u64::MAX),
            commit_id_max: CommitId(0),
            row_count: 0,
            trace_id_min: TraceId(filled16(0xff)),
            trace_id_max: TraceId(filled16(0)),
            span_id_min: SpanId(filled16(0xff)),
            span_id_max: SpanId(filled16(0)),
            sort_keys,
            column_names,
        };
        assert(r.trace_id_min.0@ =~= sixteen(0xff));
        assert(r.trace_id_max.0@ =~= sixteen(0));
        assert(r.span_id_min.0@ =~= sixteen(0xff));
        assert(r.span_id_max.0@ =~= sixteen(0));
        r
    }

    /// A copy with the same content.
    pub fn copy(&self) -> (r: Self)
        ensures
            r@ == self@,
    {
        SegmentMetadata {
            segment_id: self.segment_id,
            tenant_id: self.tenant_id,
            partition_id: self.partition_id,
            schema_fingerprint: self.schema_fingerprint,
            time_min_ms: self.time_min_ms,
            time_max_ms: self.time_max_ms,
            commit_id_min: self.commit_id_min,
            commit_id_max: self.commit_id_max,
            row_count: self.row_count,
            trace_id_min: self.trace_id_min,
            trace_id_max: self.trace_id_max,
            span_id_min: self.span_id_min,
            span_id_max: self.span_id_max,
            sort_keys: copy_texts(&self.sort_keys),
            column_names: copy_texts(&self.column_names),
        }
    }

    /// Widens the time range to hold `t`.
    pub fn observe_time(&mut self, t: i64)
        ensures
            final(self)@ == (MetaView {
                time_min_ms: min_time(old(self)@.time_min_ms, t),
                time_max_ms: max_time(old(self)@.time_max_ms, t),
                ..old(self)@
            }),
    {
        if t < self.time_min_ms {
            self.time_min_ms = t;
        }
        if t > self.time_max_ms {
            self.time_max_ms = t;
        }
    }

    /// Widens the commit range to hold `c`.
    pub fn observe_commit(&mut self, c: CommitId)
        ensures
            final(self)@ == (MetaView {
                commit_id_min: min_commit(old(self)@.commit_id_min, c),
                commit_id_max: max_commit(old(self)@.commit_id_max, c),
                ..old(self)@
            }),
    {
        if c.0 < self.commit_id_min.0 {
            self.commit_id_min = c;
        }
        if c.0 > self.commit_id_max.0 {
            self.commit_id_max = c;
        }
    }

    /// Widens the trace range to hold `t`.
    pub fn observe_trace_id(&mut self, t: TraceId)
        ensures
            final(self)@ == (MetaView {
                trace_id_min: min_id(old(self)@.trace_id_min, t.0@),
                trace_id_max: max_id(old(self)@.trace_id_max, t.0@),
                ..old(self)@
            }),
    {
        if id_lt(&t.0, &self.trace_id_min.0) {
            self.trace_id_min = t;
        }
        if id_lt(&self.trace_id_max.0, &t.0) {
            self.trace_id_max = t;
        }
    }

    /// Widens the span range to hold `s`.
    pub fn observe_span_id(&mut self, s: SpanId)
        ensures
            final(self)@ == (MetaView {
                span_id_min: min_id(old(self)@.span_id_min, s.0@),
                span_id_max: max_id(old(self)@.span_id_max, s.0@),
                ..old(self)@
            }),
    {
        if id_lt(&s.0, &self.span_id_min.0) {
            self.span_id_min = s;
        }
        if id_lt(&self.span_id_max.0, &s.0) {
            self.span_id_max = s;
        }
    }

    /// The written form.
    pub fn to_bytes(&self) -> (r: Vec<u8>)
        ensures
            r@ == self@.bytes(),
    {
        proof {
            reveal(MetaView::bytes);
        }
        let mut out: Vec<u8> = Vec::new();
        put_u128(&mut out, self.segment_id);
        put_u64(&mut out, self.tenant_id.0);
        put_u32(&mut out, self.partition_id.0);
        put_u128(&mut out, self.schema_fingerprint.0);
        put_i64(&mut out, self.time_min_ms);
        put_i64(&mut out, self.time_max_ms);
        put_u64(&mut out, self.commit_id_min.0);
        put_u64(&mut out, self.commit_id_max.0);
        put_u64(&mut out, self.row_count);
        put_slice(&mut out, self.trace_id_min.0.as_slice());
        put_slice(&mut out, self.trace_id_max.0.as_slice());
        put_slice(&mut out, self.span_id_min.0.as_slice());
        put_slice(&mut out, self.span_id_max.0.as_slice());
        put_text_list(&mut out, &self.sort_keys);
        put_text_list(&mut out, &self.column_names);
        assert(out@ =~= self@.bytes());
        out
    }

    /// Reads metadata off the front of `bytes`; what follows it is not looked at.
    pub fn from_bytes(bytes: &[u8]) -> (r: Option<Self>)
        ensures
            match take_meta(bytes@) {
                Some((m, _)) => r matches Some(x) && x@ == m,
                None => r is None,
            },
    {
        proof {
            reveal(take_meta);
        }
        let mut c = Cursor::new(bytes);
        let segment_id: u128 = match c.take_u128() {
            Some(v) => v,
            None => return None,
        };
        let tenant: u64 = match c.take_u64() {
            Some(v) => v,
            None => return None,
        };
        let partition: u32 = match c.take_u32() {
            Some(v) => v,
            None => return None,
        };
        let fingerprint: u128 = match c.take_u128() {
            Some(v) => v,
            None => return None,
        };
        let time_min_ms: i64 = match c.take_i64() {
            Some(v) => v,
            None => return None,
        };
        let time_max_ms: i64 = match c.take_i64() {
            Some(v) => v,
            None => return None,
        };
        let commit_min: u64 = match c.take_u64() {
            Some(v) => v,
            None => return None,
        };
        let commit_max: u64 = match c.take_u64() {
            Some(v) => v,
            None => return None,
        };
        let row_count: u64 = match c.take_u64() {
            Some(v) => v,
            None => return None,
        };
        let trace_min: [u8; 16] = match c.take_array16() {
            Some(v) => v,
            None => return None,
        };
        let trace_max: [u8; 16] = match c.take_array16() {
            Some(v) => v,
            None => return None,
        };
        let span_min: [u8; 16] = match c.take_array16() {
            Some(v) => v,
            None => return None,
        };
        let span_max: [u8; 16] = match c.take_array16() {
            Some(v) => v,
            None => return None,
        };
        let sort_keys: Vec<String> = match c.take_text_list() {
            Some(v) => v,
            None => return None,
        };
        let column_names: Vec<String> = match c.take_text_list() {
            Some(v) => v,
            None => return None,
        };
        Some(
            SegmentMetadata {
                segment_id,
                tenant_id: TenantId(tenant),
                partition_id: PartitionId(partition),
                schema_fingerprint: SchemaFingerprint(fingerprint),
                time_min_ms,
                time_max_ms,
                commit_id_min: CommitId(commit_min),
                commit_id_max: CommitId(commit_max),
                row_count,
                trace_id_min: TraceId(trace_min),
                trace_id_max: TraceId(trace_max),
                span_id_min: SpanId(span_min),
                span_id_max: SpanId(span_max),
                sort_keys,
                column_names,
            },
        )
    }
}

} // verus!
