//! Rows that a database stores read back column by column.
use crate::catalog::model::{SegmentRow, WalObjectRow};
use crate::catalog::stored::{
    is_stored_segment, is_stored_wal, segment_fault, StoredSegment, StoredWalObject,
};
use crate::wire::{be, le, lemma_be_bytes_of_be, lemma_le_bytes_of_le, lemma_pow256_values};
use vstd::prelude::*;

verus! {

/// The unsigned number and the stored one have the same low 64 bits.
pub open spec fn same_bits(stored: i64, n: u64) -> bool {
    stored == n || stored == n - 0x1_0000_0000_0000_0000
}

/// A segment row has in each field what its column holds.
pub proof fn stored_segments_read_back(s: StoredSegment, r: SegmentRow)
    requires
        is_stored_segment(s, r),
        s.segment_id@.len() == 16,
        s.schema_fingerprint@.len() >= 16,
        0 <= s.partition_id <= u32::MAX,
    ensures
        r.segment_id == be(s.segment_id@),
        same_bits(s.tenant_id, r.tenant_id.0),
        r.partition_id.0 == s.partition_id,
        r.object_key@ == s.object_key@,
        r.level == s.level,
        r.byte_count == s.byte_count,
        r.row_count == s.row_count,
        r.time_min == s.time_min,
        r.time_max == s.time_max,
        r.trace_id_min.0@ == s.trace_id_min@,
        r.trace_id_max.0@ == s.trace_id_max@,
        same_bits(s.commit_id_min, r.commit_id_min.0),
        same_bits(s.commit_id_max, r.commit_id_max.0),
        r.schema_fingerprint.0 == le(s.schema_fingerprint@.take(16)),
        r.rowgroup_index@ == s.rowgroup_index@,
        r.superseded_at == s.superseded_at,
        r.created_at == s.created_at,
{
    lemma_pow256_values();
    lemma_be_bytes_of_be(s.segment_id@);
    lemma_le_bytes_of_le(s.schema_fingerprint@.take(16));
}

/// A log-object row has in each field what its column holds, and the widest bounds of times
/// and traces, which are not stored.
pub proof fn stored_log_objects_read_back(s: StoredWalObject, r: WalObjectRow)
    requires
        is_stored_wal(s, r),
        s.wal_id@.len() == 16,
        s.schema_fingerprint@.len() >= 16,
        0 <= s.partition_id <= u32::MAX,
    ensures
        r.wal_id == be(s.wal_id@),
        same_bits(s.tenant_id, r.tenant_id.0),
        r.partition_id.0 == s.partition_id,
        r.object_key@ == s.object_key@,
        same_bits(s.commit_id_min, r.commit_id_min.0),
        same_bits(s.commit_id_max, r.commit_id_max.0),
        r.byte_count == s.byte_count,
        r.row_count == s.row_count,
        r.time_min == i64::MIN,
        r.time_max == i64::MAX,
        forall|i: int| 0 <= i < 16 ==> #[trigger] r.trace_id_min.0@[i] == 0,
        forall|i: int| 0 <= i < 16 ==> #[trigger] r.trace_id_max.0@[i] == 255,
        r.schema_fingerprint.0 == le(s.schema_fingerprint@.take(16)),
        r.consumed_at == s.consumed_at,
        r.created_at == s.created_at,
{
    lemma_pow256_values();
    lemma_be_bytes_of_be(s.wal_id@);
    lemma_le_bytes_of_le(s.schema_fingerprint@.take(16));
}

/// A stored segment is read exactly when its identifier and both traces have sixteen bytes.
pub proof fn segments_need_whole_identifiers(s: StoredSegment)
    ensures
        segment_fault(s) is None <==> s.segment_id@.len() == 16 && s.trace_id_min@.len() == 16
            && s.trace_id_max@.len() == 16,
{
}

} // verus!
