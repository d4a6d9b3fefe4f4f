//! Catalog row types. Times are microseconds since the epoch, row identifiers the numbers
//! of their UUIDs.
use crate::common::record::SpanRecord;
use crate::common::types::{
    filled16, CommitId, PartitionId, SchemaFingerprint, TenantId, TraceId,
};
use crate::format::meta::id_lt;
use crate::order::{lemma_lex_total, lemma_lex_transitive, lex_le, lex_lt};
use crate::rows::copy_bytes;
use vstd::prelude::*;

verus! {

#[derive(Clone, Copy, Debug)]
pub struct WalObjectBounds {
    pub time_min: i64,
    pub time_max: i64,
    pub trace_id_min: TraceId,
    pub trace_id_max: TraceId,
}

/// The bounds are those of the records: each is reached by a record, and no record lies
/// outside. Of no records, the bounds are as wide as can be.
pub open spec fn bounds_of(records: Seq<SpanRecord>, b: WalObjectBounds) -> bool {
    if records.len() == 0 {
        &&& b.time_min == i64::MIN
        &&& b.time_max == i64::MAX
        &&& b.trace_id_min.0@ == Seq::new(16, |i: int| 0u8)
        &&& b.trace_id_max.0@ == Seq::new(16, |i: int| 255u8)
    } else {
        &&& exists|i: int| 0 <= i < records.len() && (#[trigger] records[i]).start_time_ms == b.time_min
        &&& exists|i: int| 0 <= i < records.len() && (#[trigger] records[i]).start_time_ms == b.time_max
        &&& exists|i: int| 0 <= i < records.len() && (#[trigger] records[i]).trace_id == b.trace_id_min
        &&& exists|i: int| 0 <= i < records.len() && (#[trigger] records[i]).trace_id == b.trace_id_max
        &&& forall|i: int|
            0 <= i < records.len() ==> b.time_min <= (#[trigger] records[i]).start_time_ms
                <= b.time_max && lex_le(b.trace_id_min.0@, records[i].trace_id.0@) && lex_le(
                records[i].trace_id.0@,
                b.trace_id_max.0@,
            )
    }
}

impl WalObjectBounds {
    /// The time and trace bounds of a list of records.
    pub fn from_span_records(records: &[SpanRecord]) -> (r: Self)
        ensures
            bounds_of(records@, r),
    {
        if records.len() == 0 {
            return WalObjectBounds {
                time_min: i64::MIN,
                time_max: i64::MAX,
                trace_id_min: TraceId(filled16(0)),
                trace_id_max: TraceId(filled16(0xff)),
            };
        }
        let mut time_min: i64 = records[0].start_time_ms;
        let mut time_max: i64 = records[0].start_time_ms;
        let mut trace_min: TraceId = records[0].trace_id;
        let mut trace_max: TraceId = records[0].trace_id;
        let ghost mut a: int = 0;
        let ghost mut b: int = 0;
        let ghost mut c: int = 0;
        let ghost mut d: int = 0;
        let mut i: usize = 1;
        proof {
            lemma_lex_total(records@[0].trace_id.0@, records@[0].trace_id.0@);
        }
        while i < records.len()
            invariant
                1 <= i <= records.len(),
                0 <= a < i,
                0 <= b < i,
                0 <= c < i,
                0 <= d < i,
                records@[a].start_time_ms == time_min,
                records@[b].start_time_ms == time_max,
                records@[c].trace_id == trace_min,
                records@[d].trace_id == trace_max,
                forall|k: int|
                    0 <= k < i ==> time_min <= (#[trigger] records@[k]).start_time_ms <= time_max
                        && lex_le(trace_min.0@, records@[k].trace_id.0@) && lex_le(
                        records@[k].trace_id.0@,
                        trace_max.0@,
                    ),
            decreases records.len() - i,
        {
            let t: i64 = records[i].start_time_ms;
            let id: TraceId = records[i].trace_id;
            let ghost old_min = trace_min.0@;
            let ghost old_max = trace_max.0@;
            proof {
                lemma_lex_total(id.0@, id.0@);
                lemma_lex_total(id.0@, old_min);
                lemma_lex_total(id.0@, old_max);
            }
            if t < time_min {
                time_min = t;
                proof {
                    a = i as int;
                }
            }
            if t > time_max {
                time_max = t;
                proof {
                    b = i as int;
                }
            }
            if id_lt(&id.0, &trace_min.0) {
                trace_min = id;
                proof {
                    c = i as int;
                }
            }
            if id_lt(&trace_max.0, &id.0) {
                trace_max = id;
                proof {
                    d = i as int;
                }
            }
            proof {
                assert forall|k: int| 0 <= k < i implies lex_le(
                    trace_min.0@,
                    (#[trigger] records@[k]).trace_id.0@,
                ) && lex_le(records@[k].trace_id.0@, trace_max.0@) by {
                    if lex_lt(id.0@, old_min) {
                        lemma_lex_transitive(id.0@, old_min, records@[k].trace_id.0@);
                    }
                    if lex_lt(old_max, id.0@) {
                        lemma_lex_transitive(records@[k].trace_id.0@, old_max, id.0@);
                    }
                }
            }
            i = i + 1;
        }
        WalObjectBounds { time_min, time_max, trace_id_min: trace_min, trace_id_max: trace_max }
    }
}

#[derive(Clone, Debug)]
pub struct WalObjectRow {
    pub wal_id: u128,
    pub tenant_id: TenantId,
    pub partition_id: PartitionId,
    pub object_key: String,
    pub commit_id_min: CommitId,
    pub commit_id_max: CommitId,
    pub byte_count: i64,
    pub row_count: i64,
    pub time_min: i64,
    pub time_max: i64,
    pub trace_id_min: TraceId,
    pub trace_id_max: TraceId,
    pub schema_fingerprint: SchemaFingerprint,
    pub consumed_at: Option<i64>,
    pub created_at: i64,
}

impl WalObjectRow {
    pub fn copy(&self) -> (r: Self)
        ensures
            r == *self,
    {
        WalObjectRow {
            wal_id: self.wal_id,
            tenant_id: self.tenant_id,
            partition_id: self.partition_id,
            object_key: self.object_key.clone(),
            commit_id_min: self.commit_id_min,
            commit_id_max: self.commit_id_max,
            byte_count: self.byte_count,
            row_count: self.row_count,
            time_min: self.time_min,
            time_max: self.time_max,
            trace_id_min: self.trace_id_min,
            trace_id_max: self.trace_id_max,
            schema_fingerprint: self.schema_fingerprint,
            consumed_at: self.consumed_at,
            created_at: self.created_at,
        }
    }
}

#[derive(Clone, Debug)]
pub struct SegmentRow {
    pub segment_id: u128,
    pub tenant_id: TenantId,
    pub partition_id: PartitionId,
    pub object_key: String,
    pub level: i16,
    pub byte_count: i64,
    pub row_count: i64,
    pub time_min: i64,
    pub time_max: i64,
    pub trace_id_min: TraceId,
    pub trace_id_max: TraceId,
    pub commit_id_min: CommitId,
    pub commit_id_max: CommitId,
    pub schema_fingerprint: SchemaFingerprint,
    /// The serialized sparse row-group index.
    pub rowgroup_index: Vec<u8>,
    pub superseded_at: Option<i64>,
    pub created_at: i64,
}

/// The content of a segment row.
pub ghost struct SegmentRowView {
    pub segment_id: u128,
    pub tenant_id: TenantId,
    pub partition_id: PartitionId,
    pub object_key: Seq<char>,
    pub level: i16,
    pub byte_count: i64,
    pub row_count: i64,
    pub time_min: i64,
    pub time_max: i64,
    pub trace_id_min: TraceId,
    pub trace_id_max: TraceId,
    pub commit_id_min: CommitId,
    pub commit_id_max: CommitId,
    pub schema_fingerprint: SchemaFingerprint,
    pub rowgroup_index: Seq<u8>,
    pub superseded_at: Option<i64>,
    pub created_at: i64,
}

impl SegmentRow {
    pub open spec fn view(&self) -> SegmentRowView {
        SegmentRowView {
            segment_id: self.segment_id,
            tenant_id: self.tenant_id,
            partition_id: self.partition_id,
            object_key: self.object_key@,
            level: self.level,
            byte_count: self.byte_count,
            row_count: self.row_count,
            time_min: self.time_min,
            time_max: self.time_max,
            trace_id_min: self.trace_id_min,
            trace_id_max: self.trace_id_max,
            commit_id_min: self.commit_id_min,
            commit_id_max: self.commit_id_max,
            schema_fingerprint: self.schema_fingerprint,
            rowgroup_index: self.rowgroup_index@,
            superseded_at: self.superseded_at,
            created_at: self.created_at,
        }
    }

    pub fn copy(&self) -> (r: Self)
        ensures
            r@ == self@,
    {
        SegmentRow {
            segment_id: self.segment_id,
            tenant_id: self.tenant_id,
            partition_id: self.partition_id,
            object_key: self.object_key.clone(),
            level: self.level,
            byte_count: self.byte_count,
            row_count: self.row_count,
            time_min: self.time_min,
            time_max: self.time_max,
            trace_id_min: self.trace_id_min,
            trace_id_max: self.trace_id_max,
            commit_id_min: self.commit_id_min,
            commit_id_max: self.commit_id_max,
            schema_fingerprint: self.schema_fingerprint,
            rowgroup_index: copy_bytes(self.rowgroup_index.as_slice()),
            superseded_at: self.superseded_at,
            created_at: self.created_at,
        }
    }
}

/// Cluster node row. Used by the node registry.
#[derive(Clone, Debug)]
pub struct NodeRow {
    pub node_id: u128,
    pub endpoint: String,
    pub role: String,
    pub shards: String,
    pub last_heartbeat_ms: i64,
}

impl NodeRow {
    pub fn copy(&self) -> (r: Self)
        ensures
            r == *self,
    {
        NodeRow {
            node_id: self.node_id,
            endpoint: self.endpoint.clone(),
            role: self.role.clone(),
            shards: self.shards.clone(),
            last_heartbeat_ms: self.last_heartbeat_ms,
        }
    }
}

} // verus!
