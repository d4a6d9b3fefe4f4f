//! The segments of the in-process benchmark.
use crate::catalog::model::{SegmentRow, SegmentRowView};
use crate::common::types::{PartitionId, TenantId};
use crate::compactor::builder::BuildOptions;
use crate::format::meta::SegmentMetadata;
use crate::text::{concat3, decimal, decimal_string, digit_string, digits};
use crate::wire::{i64_of_pattern, u64_to_i64};
use vstd::prelude::*;
use vstd::string::*;

verus! {

/// The build options of a run: row groups of the given number of rows and 64 MiB.
pub fn corpus_options(row_group_rows: u32) -> (r: BuildOptions)
    ensures
        r.row_group_max_rows == row_group_rows,
        r.row_group_max_bytes == 67_108_864,
{
    BuildOptions { row_group_max_rows: row_group_rows, row_group_max_bytes: 67_108_864 }
}

/// The key of the segment numbered `idx`, with at least six digits.
pub open spec fn corpus_key_text(idx: nat) -> Seq<char> {
    "bench/segment-"@ + (if idx < 1_000_000 {
        digits(idx, 10, 6)
    } else {
        decimal(idx)
    }) + ".zseg"@
}

/// The key of the segment numbered `idx`.
pub fn corpus_key(idx: usize) -> (r: String)
    ensures
        r@ == corpus_key_text(idx as nat),
{
    if idx < 1_000_000 {
        concat3("bench/segment-", digit_string(idx as u128, 10, 6).as_str(), ".zseg")
    } else {
        concat3("bench/segment-", decimal_string(idx as u64).as_str(), ".zseg")
    }
}

/// The catalog row of the segment numbered `idx`.
pub fn corpus_segment_row(meta: &SegmentMetadata, idx: usize, byte_count: usize, now: i64) -> (r:
    SegmentRow)
    ensures
        r@ == (SegmentRowView {
            segment_id: meta.segment_id,
            tenant_id: TenantId(0),
            partition_id: PartitionId(0),
            object_key: corpus_key_text(idx as nat),
            level: 1,
            byte_count: i64_of_pattern(byte_count as nat),
            row_count: i64_of_pattern(meta.row_count as nat),
            time_min: meta.time_min_ms,
            time_max: meta.time_max_ms,
            trace_id_min: meta.trace_id_min,
            trace_id_max: meta.trace_id_max,
            commit_id_min: meta.commit_id_min,
            commit_id_max: meta.commit_id_max,
            schema_fingerprint: meta.schema_fingerprint,
            rowgroup_index: Seq::empty(),
            superseded_at: None,
            created_at: now,
        }),
{
    let rowgroup_index: Vec<u8> = Vec::new();
    assert(rowgroup_index@ =~= Seq::<u8>::empty());
    SegmentRow {
        segment_id: meta.segment_id,
        tenant_id: TenantId(0),
        partition_id: PartitionId(0),
        object_key: corpus_key(idx),
        level: 1,
        byte_count: u64_to_i64(byte_count as u64),
        row_count: u64_to_i64(meta.row_count),
        time_min: meta.time_min_ms,
        time_max: meta.time_max_ms,
        trace_id_min: meta.trace_id_min,
        trace_id_max: meta.trace_id_max,
        commit_id_min: meta.commit_id_min,
        commit_id_max: meta.commit_id_max,
        schema_fingerprint: meta.schema_fingerprint,
        rowgroup_index,
        superseded_at: None,
        created_at: now,
    }
}

} // verus!
