//! Restoring a tenant from a backup: which keys of the manifest are accepted, and the catalog
//! rows of the restored segments.
use crate::catalog::model::{SegmentRow, SegmentRowView};
use crate::chars::{begins_with, find_dots, split_dots, starts_with};
use crate::common::types::{
    filled16, CommitId, PartitionId, SchemaFingerprint, TenantId, TraceId,
};
use crate::outside::uuids::{uuid_text, uuid_to_string};
use crate::text::{chars_of, concat2, concat3, decimal, decimal_string};
use crate::wire::{i64_pattern, i64_to_u64};
use vstd::prelude::*;
use vstd::string::*;

verus! {

/// A segment as a backup's manifest lists it. A number may be missing.
pub struct BackupEntry {
    pub segment_id: u128,
    pub object_key: String,
    pub level: Option<i64>,
    pub byte_count: Option<i64>,
    pub row_count: Option<i64>,
    pub time_min: Option<i64>,
    pub time_max: Option<i64>,
    pub commit_id_min: Option<u64>,
    pub commit_id_max: Option<u64>,
}

/// A key that cannot leave the store: not empty, without `..`, not absolute, without NUL.
pub open spec fn is_safe_key(key: Seq<char>) -> bool {
    &&& key.len() > 0
    &&& split_dots(key) is None
    &&& key[0] != '/'
    &&& forall|i: int| 0 <= i < key.len() ==> #[trigger] key[i] as u32 != 0
}

/// Whether a key cannot leave the store.
pub fn is_object_key_safe(key: &str) -> (r: bool)
    ensures
        r == is_safe_key(key@),
{
    let chars = chars_of(key);
    if chars.len() == 0 || find_dots(chars.as_slice()).is_some() || chars[0] == '/' {
        return false;
    }
    let mut i: usize = 0;
    while i < chars.len()
        invariant
            i <= chars@.len(),
            chars@ == key@,
            forall|k: int| 0 <= k < i ==> #[trigger] chars@[k] as u32 != 0,
        decreases chars@.len() - i,
    {
        if chars[i] as u32 == 0 {
            return false;
        }
        i = i + 1;
    }
    true
}

/// The key stands under the tenant's prefix.
pub open spec fn is_tenant_key(key: Seq<char>, tenant: u64) -> bool {
    begins_with(key, "tenants/"@ + decimal(tenant as nat) + "/"@) || begins_with(
        key,
        "seg/"@ + decimal(tenant as nat) + "/"@,
    )
}

/// Whether a key stands under the tenant's prefix. Older manifests may hold others.
pub fn has_tenant_prefix(key: &str, tenant: u64) -> (r: bool)
    ensures
        r == is_tenant_key(key@, tenant),
{
    let chars = chars_of(key);
    let number = decimal_string(tenant);
    let first = concat3("tenants/", number.as_str(), "/");
    let second = concat3("seg/", number.as_str(), "/");
    starts_with(chars.as_slice(), chars_of(first.as_str()).as_slice()) || starts_with(
        chars.as_slice(),
        chars_of(second.as_str()).as_slice(),
    )
}

/// The name of a segment's file in a backup.
pub fn backup_file_name(segment_id: u128) -> (r: String)
    ensures
        r@ == uuid_text(segment_id as nat) + ".zseg"@,
{
    concat2(uuid_to_string(segment_id).as_str(), ".zseg")
}

/// The number, or zero where it is missing.
pub open spec fn or_zero(v: Option<i64>) -> i64 {
    match v {
        Some(x) => x,
        None => 0,
    }
}

pub open spec fn commit_or_zero(v: Option<u64>) -> u64 {
    match v {
        Some(x) => x,
        None => 0,
    }
}

/// The low 16 bits, as a signed number.
pub open spec fn low_i16(v: i64) -> i16 {
    let m = i64_pattern(v) % 0x1_0000;
    if m < 0x8000 {
        m as i16
    } else {
        (m - 0x1_0000) as i16
    }
}

fn i64_or_zero(v: Option<i64>) -> (r: i64)
    ensures
        r == or_zero(v),
{
    match v {
        Some(x) => x,
        None => 0,
    }
}

fn u64_or_zero(v: Option<u64>) -> (r: u64)
    ensures
        r == commit_or_zero(v),
{
    match v {
        Some(x) => x,
        None => 0,
    }
}

fn level_of(v: i64) -> (r: i16)
    ensures
        r == low_i16(v),
{
    let m: u64 = i64_to_u64(v) % 0x1_0000;
    if m < 0x8000 {
        m as i16
    } else {
        (m as i32 - 0x1_0000) as i16
    }
}

/// The catalog row of a restored segment, or nothing where its key is not safe. The
/// manifest holds no bounds of the trace identifiers, so that they are the widest.
pub fn restored_segment_row(entry: &BackupEntry, tenant: TenantId, now: i64) -> (r: Option<
    SegmentRow,
>)
    ensures
        r is Some <==> is_safe_key(entry.object_key@),
        r matches Some(row) ==> {
            &&& row.trace_id_min.0@ == Seq::new(16, |i: int| 0u8)
            &&& row.trace_id_max.0@ == Seq::new(16, |i: int| 255u8)
            &&& row@ == (SegmentRowView {
                segment_id: entry.segment_id,
                tenant_id: tenant,
                partition_id: PartitionId(0),
                object_key: entry.object_key@,
                level: low_i16(or_zero(entry.level)),
                byte_count: or_zero(entry.byte_count),
                row_count: or_zero(entry.row_count),
                time_min: or_zero(entry.time_min),
                time_max: or_zero(entry.time_max),
                trace_id_min: row.trace_id_min,
                trace_id_max: row.trace_id_max,
                commit_id_min: CommitId(commit_or_zero(entry.commit_id_min)),
                commit_id_max: CommitId(commit_or_zero(entry.commit_id_max)),
                schema_fingerprint: SchemaFingerprint(0),
                rowgroup_index: Seq::empty(),
                superseded_at: None,
                created_at: now,
            })
        },
{
    if !is_object_key_safe(entry.object_key.as_str()) {
        return None;
    }
    let rowgroup_index: Vec<u8> = Vec::new();
    assert(rowgroup_index@ =~= Seq::<u8>::empty());
    Some(
        SegmentRow {
            segment_id: entry.segment_id,
            tenant_id: tenant,
            partition_id: PartitionId(0),
            object_key: entry.object_key.clone(),
            level: level_of(i64_or_zero(entry.level)),
            byte_count: i64_or_zero(entry.byte_count),
            row_count: i64_or_zero(entry.row_count),
            time_min: i64_or_zero(entry.time_min),
            time_max: i64_or_zero(entry.time_max),
            trace_id_min: TraceId(filled16(0)),
            trace_id_max: TraceId(filled16(255)),
            commit_id_min: CommitId(u64_or_zero(entry.commit_id_min)),
            commit_id_max: CommitId(u64_or_zero(entry.commit_id_max)),
            schema_fingerprint: SchemaFingerprint(0),
            rowgroup_index,
            superseded_at: None,
            created_at: now,
        },
    )
}

} // verus!
