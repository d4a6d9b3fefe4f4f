//! Flushing memory tables to the log on shutdown.
use crate::catalog::model::WalObjectRow;
use crate::common::schema::{canonical, spans_v1_columns, Schema};
use crate::common::types::{PartitionId, TenantId};
use crate::compactor::batch::SpanBatch;
use crate::compactor::wal_meta::{
    has_commit, is_wal_metadata, wal_metadata_from_batch, WalBatchMetadata,
};
use crate::outside::hashes::xxh3_128_of;
use crate::outside::uuids::uuid_new_v4;
use crate::wire::{i64_of_pattern, u64_to_i64};
use vstd::prelude::*;
use vstd::utf8::encode_utf8;

verus! {

/// What to do with the rows of a memory table.
pub enum FlushPlan {
    /// There are none.
    Skip,
    /// No row has a commit number: nothing can be written.
    NoMetadata,
    /// Write a log object that starts at the lowest commit.
    Write(WalBatchMetadata),
}

/// What to do with the rows of a memory table.
pub fn flush_plan(batch: &SpanBatch) -> (r: FlushPlan)
    ensures
        if batch@.rows == 0 {
            r is Skip
        } else if !has_commit(batch@) {
            r is NoMetadata
        } else {
            r matches FlushPlan::Write(m) && is_wal_metadata(batch@, m)
        },
{
    if batch.num_rows() == 0 {
        return FlushPlan::Skip;
    }
    match wal_metadata_from_batch(batch) {
        Some(m) => FlushPlan::Write(m),
        None => FlushPlan::NoMetadata,
    }
}

/// The catalog row of a log object that was written. Its identifier is random.
pub fn flushed_wal_row(
    tenant: TenantId,
    partition: PartitionId,
    object_key: String,
    m: &WalBatchMetadata,
    byte_count: usize,
    row_count: usize,
    now: i64,
) -> (r: WalObjectRow)
    ensures
        (r.wal_id as nat / 0x1000_0000_0000_0000_0000) % 16 == 4,
        (r.wal_id as nat / 0x4000_0000_0000_0000) % 4 == 2,
        r.schema_fingerprint.0 == xxh3_128_of(
            encode_utf8(canonical(spans_v1_columns())),
        ),
        r == (WalObjectRow {
            wal_id: r.wal_id,
            tenant_id: tenant,
            partition_id: partition,
            object_key,
            commit_id_min: m.commit_id_min,
            commit_id_max: m.commit_id_max,
            byte_count: i64_of_pattern(byte_count as nat),
            row_count: i64_of_pattern(row_count as nat),
            time_min: m.time_min,
            time_max: m.time_max,
            trace_id_min: m.trace_id_min,
            trace_id_max: m.trace_id_max,
            schema_fingerprint: r.schema_fingerprint,
            consumed_at: None,
            created_at: now,
        }),
{
    WalObjectRow {
        wal_id: uuid_new_v4(),
        tenant_id: tenant,
        partition_id: partition,
        object_key,
        commit_id_min: m.commit_id_min,
        commit_id_max: m.commit_id_max,
        byte_count: u64_to_i64(byte_count as u64),
        row_count: u64_to_i64(row_count as u64),
        time_min: m.time_min,
        time_max: m.time_max,
        trace_id_min: m.trace_id_min,
        trace_id_max: m.trace_id_max,
        schema_fingerprint: Schema::spans_v1().fingerprint(),
        consumed_at: None,
        created_at: now,
    }
}

} // verus!
