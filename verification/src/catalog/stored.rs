//! Rows as a database stores them, and the decisions of a catalog on top of one.
use crate::catalog::codec::{fp_from_bytes, trace_from_bytes};
use crate::catalog::model::{NodeRow, SegmentRow, SegmentRowView, WalObjectRow};
use crate::common::errors::{ErrorView, ZenError};
use crate::common::types::{
    filled16, u128_of_bytes, CommitId, PartitionId, SchemaFingerprint, TenantId, TraceId,
};
use crate::format::page::array16;
use crate::text::{concat3, decimal, decimal_string, text_eq};
use crate::wire::{be, i64_pattern, i64_to_u64, le};
use vstd::prelude::*;
use vstd::string::*;

verus! {

/// A segment row with its columns as they are stored: identifiers as bytes, unsigned
/// numbers by their bit patterns.
pub struct StoredSegment {
    pub segment_id: Vec<u8>,
    pub tenant_id: i64,
    pub partition_id: i64,
    pub object_key: String,
    pub level: i16,
    pub byte_count: i64,
    pub row_count: i64,
    pub time_min: i64,
    pub time_max: i64,
    pub trace_id_min: Vec<u8>,
    pub trace_id_max: Vec<u8>,
    pub commit_id_min: i64,
    pub commit_id_max: i64,
    pub schema_fingerprint: Vec<u8>,
    pub rowgroup_index: Vec<u8>,
    pub superseded_at: Option<i64>,
    pub created_at: i64,
}

/// A log-object row as it is stored.
pub struct StoredWalObject {
    pub wal_id: Vec<u8>,
    pub tenant_id: i64,
    pub partition_id: i64,
    pub object_key: String,
    pub commit_id_min: i64,
    pub commit_id_max: i64,
    pub byte_count: i64,
    pub row_count: i64,
    pub schema_fingerprint: Vec<u8>,
    pub consumed_at: Option<i64>,
    pub created_at: i64,
}

/// A node row as it is stored.
pub struct StoredNode {
    pub node_id: Vec<u8>,
    pub endpoint: String,
    pub role: String,
    pub shards: String,
    pub last_heartbeat_ms: i64,
}

/// The message for an identifier column of the wrong length.
pub open spec fn id_fault(column: Seq<char>, len: nat) -> ErrorView {
    ErrorView::Catalog(
        column + " parse: invalid length: expected 16 bytes, found "@ + decimal(len),
    )
}

/// The identifier that a column holds.
fn stored_id(column: &str, b: &Vec<u8>) -> (r: Result<u128, ZenError>)
    ensures
        if b@.len() == 16 {
            r matches Ok(v) && v == be(b@)
        } else {
            r matches Err(e) && e@ == id_fault(column@, b@.len())
        },
{
    if b.len() != 16 {
        return Err(
            ZenError::Catalog(
                concat3(
                    column,
                    " parse: invalid length: expected 16 bytes, found ",
                    decimal_string(b.len() as u64).as_str(),
                ),
            ),
        );
    }
    let a = array16(b.as_slice(), 0);
    assert(a@ =~= b@);
    Ok(u128_of_bytes(&a))
}

/// The low 32 bits of a stored number.
pub open spec fn stored_u32(v: i64) -> u32 {
    (i64_pattern(v) % 0x1_0000_0000) as u32
}

fn low_32(v: i64) -> (r: u32)
    ensures
        r == stored_u32(v),
{
    (i64_to_u64(v) % 0x1_0000_0000) as u32
}

/// Why a stored segment row cannot be read, if it cannot.
pub open spec fn segment_fault(s: StoredSegment) -> Option<ErrorView> {
    if s.segment_id@.len() != 16 {
        Some(id_fault("segment_id"@, s.segment_id@.len()))
    } else if s.trace_id_min@.len() != 16 || s.trace_id_max@.len() != 16 {
        Some(ErrorView::Catalog("trace_id length != 16"@))
    } else {
        None
    }
}

/// `r` is the segment row that is stored as `s`.
pub open spec fn is_stored_segment(s: StoredSegment, r: SegmentRow) -> bool {
    &&& r.trace_id_min.0@ == s.trace_id_min@
    &&& r.trace_id_max.0@ == s.trace_id_max@
    &&& r@ == (SegmentRowView {
        segment_id: be(s.segment_id@) as u128,
        tenant_id: TenantId(i64_pattern(s.tenant_id) as u64),
        partition_id: PartitionId(stored_u32(s.partition_id)),
        object_key: s.object_key@,
        level: s.level,
        byte_count: s.byte_count,
        row_count: s.row_count,
        time_min: s.time_min,
        time_max: s.time_max,
        trace_id_min: r.trace_id_min,
        trace_id_max: r.trace_id_max,
        commit_id_min: CommitId(i64_pattern(s.commit_id_min) as u64),
        commit_id_max: CommitId(i64_pattern(s.commit_id_max) as u64),
        schema_fingerprint: SchemaFingerprint(le(s.schema_fingerprint@.take(16)) as u128),
        rowgroup_index: s.rowgroup_index@,
        superseded_at: s.superseded_at,
        created_at: s.created_at,
    })
}

/// The segment row that a stored one stands for.
pub fn segment_from_row(s: StoredSegment) -> (r: Result<SegmentRow, ZenError>)
    requires
        segment_fault(s) is None ==> s.schema_fingerprint@.len() >= 16,
    ensures
        match segment_fault(s) {
            Some(f) => r matches Err(e) && e@ == f,
            None => r matches Ok(row) && is_stored_segment(s, row),
        },
{
    let segment_id: u128 = match stored_id("segment_id", &s.segment_id) {
        Ok(v) => v,
        Err(e) => {
            return Err(e);
        },
    };
    let trace_id_min = match trace_from_bytes(s.trace_id_min.as_slice()) {
        Ok(t) => t,
        Err(e) => {
            return Err(e);
        },
    };
    let trace_id_max = match trace_from_bytes(s.trace_id_max.as_slice()) {
        Ok(t) => t,
        Err(e) => {
            return Err(e);
        },
    };
    Ok(
        SegmentRow {
            segment_id,
            tenant_id: TenantId(i64_to_u64(s.tenant_id)),
            partition_id: PartitionId(low_32(s.partition_id)),
            object_key: s.object_key,
            level: s.level,
            byte_count: s.byte_count,
            row_count: s.row_count,
            time_min: s.time_min,
            time_max: s.time_max,
            trace_id_min,
            trace_id_max,
            commit_id_min: CommitId(i64_to_u64(s.commit_id_min)),
            commit_id_max: CommitId(i64_to_u64(s.commit_id_max)),
            schema_fingerprint: fp_from_bytes(s.schema_fingerprint.as_slice()),
            rowgroup_index: s.rowgroup_index,
            superseded_at: s.superseded_at,
            created_at: s.created_at,
        },
    )
}

/// `r` is the log-object row that is stored as `s`. Bounds are not stored, so that they are
/// the widest.
pub open spec fn is_stored_wal(s: StoredWalObject, r: WalObjectRow) -> bool {
    &&& r.trace_id_min.0@ == Seq::new(16, |i: int| 0u8)
    &&& r.trace_id_max.0@ == Seq::new(16, |i: int| 255u8)
    &&& r == (WalObjectRow {
        wal_id: be(s.wal_id@) as u128,
        tenant_id: TenantId(i64_pattern(s.tenant_id) as u64),
        partition_id: PartitionId(stored_u32(s.partition_id)),
        object_key: s.object_key,
        commit_id_min: CommitId(i64_pattern(s.commit_id_min) as u64),
        commit_id_max: CommitId(i64_pattern(s.commit_id_max) as u64),
        byte_count: s.byte_count,
        row_count: s.row_count,
        time_min: i64::MIN,
        time_max: i64::MAX,
        trace_id_min: r.trace_id_min,
        trace_id_max: r.trace_id_max,
        schema_fingerprint: SchemaFingerprint(le(s.schema_fingerprint@.take(16)) as u128),
        consumed_at: s.consumed_at,
        created_at: s.created_at,
    })
}

/// The log-object row that a stored one stands for.
pub fn wal_from_row(s: StoredWalObject) -> (r: Result<WalObjectRow, ZenError>)
    requires
        s.wal_id@.len() == 16 ==> s.schema_fingerprint@.len() >= 16,
    ensures
        if s.wal_id@.len() == 16 {
            r matches Ok(row) && is_stored_wal(s, row)
        } else {
            r matches Err(e) && e@ == id_fault("wal_id"@, s.wal_id@.len())
        },
{
    let wal_id: u128 = match stored_id("wal_id", &s.wal_id) {
        Ok(v) => v,
        Err(e) => {
            return Err(e);
        },
    };
    Ok(
        WalObjectRow {
            wal_id,
            tenant_id: TenantId(i64_to_u64(s.tenant_id)),
            partition_id: PartitionId(low_32(s.partition_id)),
            object_key: s.object_key,
            commit_id_min: CommitId(i64_to_u64(s.commit_id_min)),
            commit_id_max: CommitId(i64_to_u64(s.commit_id_max)),
            byte_count: s.byte_count,
            row_count: s.row_count,
            time_min: i64::MIN,
            time_max: i64::MAX,
            trace_id_min: TraceId(filled16(0)),
            trace_id_max: TraceId(filled16(255)),
            schema_fingerprint: fp_from_bytes(s.schema_fingerprint.as_slice()),
            consumed_at: s.consumed_at,
            created_at: s.created_at,
        },
    )
}

/// The node row that a stored one stands for.
pub fn node_from_row(s: StoredNode) -> (r: Result<NodeRow, ZenError>)
    ensures
        if s.node_id@.len() == 16 {
            r matches Ok(row) && row == (NodeRow {
                node_id: be(s.node_id@) as u128,
                endpoint: s.endpoint,
                role: s.role,
                shards: s.shards,
                last_heartbeat_ms: s.last_heartbeat_ms,
            })
        } else {
            r matches Err(e) && e@ == ErrorView::Catalog("nodes.node_id length != 16"@)
        },
{
    match stored_id("node_id", &s.node_id) {
        Ok(node_id) => Ok(
            NodeRow {
                node_id,
                endpoint: s.endpoint,
                role: s.role,
                shards: s.shards,
                last_heartbeat_ms: s.last_heartbeat_ms,
            },
        ),
        Err(_) => Err(ZenError::catalog("nodes.node_id length != 16")),
    }
}

/// Whether a worker may take a lease, given who holds it and until when: nobody does, it
/// has run out, or the worker has it. Otherwise there is a conflict.
pub fn lease_decision(
    held: &Option<(String, i64)>,
    tenant: TenantId,
    partition: PartitionId,
    worker_id: &str,
    now: i64,
) -> (r: Result<(), ZenError>)
    ensures
        if held matches Some(h) && h.1 > now && h.0@ != worker_id@ {
            r matches Err(e) && e@ == ErrorView::Conflict(
                "compaction lease for (TenantId("@ + decimal(tenant.0 as nat) + "),PartitionId("@
                    + decimal(partition.0 as nat) + ")) is held"@,
            )
        } else {
            r is Ok
        },
{
    match held {
        None => Ok(()),
        Some(h) => {
            if h.1 <= now || text_eq(h.0.as_str(), worker_id) {
                return Ok(());
            }
            let mut text = String::from_str("compaction lease for (TenantId(");
            text.append(decimal_string(tenant.0).as_str());
            text.append("),PartitionId(");
            text.append(decimal_string(partition.0 as u64).as_str());
            text.append(")) is held");
            Err(ZenError::Conflict(text))
        },
    }
}

} // verus!
