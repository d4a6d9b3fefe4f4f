//! In-memory catalog.
//!
//! Keeps all the promises that the engine needs of a catalog: commit numbers increase,
//! listings are scoped by tenant, leases run out.
use crate::catalog::model::{NodeRow, SegmentRow, SegmentRowView, WalObjectRow};
use crate::common::errors::{ErrorView, ZenError};
use crate::common::types::{CommitId, PartitionId, TenantId};
use crate::order::{is_stable_order, lists, sort_order, Ranked};
use crate::text::{decimal, decimal_string, text_eq};
use std::collections::HashMap;
use vstd::prelude::*;
use vstd::string::*;

verus! {

broadcast use vstd::std_specs::hash::group_hash_axioms;

/// The number that stands for a partition of a tenant.
pub open spec fn slot(tenant: TenantId, partition: PartitionId) -> u128 {
    (tenant.0 * 0x1_0000_0000 + partition.0) as u128
}

/// Different partitions have different numbers.
pub proof fn slots_are_distinct(t1: TenantId, p1: PartitionId, t2: TenantId, p2: PartitionId)
    ensures
        slot(t1, p1) == slot(t2, p2) ==> t1 == t2 && p1 == p2,
{
}

fn slot_of(tenant: TenantId, partition: PartitionId) -> (r: u128)
    ensures
        r == slot(tenant, partition),
{
    tenant.0 as u128 * 0x1_0000_0000 + partition.0 as u128
}

struct Lease {
    worker_id: String,
    expires_at: i64,
}

/// Who holds a lease, and until when.
pub ghost struct LeaseView {
    pub worker_id: Seq<char>,
    pub expires_at: i64,
}

/// In-memory catalog for tests and benches.
pub struct MockCatalog {
    tenants: HashMap<u64, String>,
    partitions: HashMap<u128, bool>,
    commit_seq: HashMap<u128, u64>,
    wals: Vec<WalObjectRow>,
    segments: Vec<SegmentRow>,
    leases: HashMap<u128, Lease>,
    nodes: Vec<NodeRow>,
}

/// The content of a catalog. What is kept per partition is found by the partition's slot.
#[verifier::ext_equal]
pub ghost struct CatalogView {
    pub tenants: Map<u64, Seq<char>>,
    pub partitions: Set<u128>,
    /// The commit number that is given out next.
    pub next_commit: Map<u128, u64>,
    pub wals: Seq<WalObjectRow>,
    pub segments: Seq<SegmentRowView>,
    pub leases: Map<u128, LeaseView>,
    pub nodes: Seq<NodeRow>,
}

/// The contents of segment rows.
pub open spec fn segment_views(v: Seq<SegmentRow>) -> Seq<SegmentRowView> {
    Seq::new(v.len(), |i: int| v[i]@)
}

/// The items that satisfy `p`, in order.
pub open spec fn chosen<T>(items: Seq<T>, p: spec_fn(T) -> bool) -> Seq<T>
    decreases items.len(),
{
    if items.len() == 0 {
        Seq::empty()
    } else if p(items.last()) {
        chosen(items.drop_last(), p).push(items.last())
    } else {
        chosen(items.drop_last(), p)
    }
}

/// How many items satisfy `p`.
pub open spec fn tally<T>(items: Seq<T>, p: spec_fn(T) -> bool) -> nat {
    chosen(items, p).len()
}

/// The log object belongs to the partition, is not consumed and holds no commit before
/// `since`.
pub open spec fn is_listed_wal(
    w: WalObjectRow,
    tenant: TenantId,
    partition: PartitionId,
    since: CommitId,
) -> bool {
    w.tenant_id == tenant && w.partition_id == partition && w.consumed_at is None
        && w.commit_id_min.0 >= since.0
}

/// The log objects to list.
pub open spec fn listed_wals(
    v: CatalogView,
    tenant: TenantId,
    partition: PartitionId,
    since: CommitId,
) -> Seq<WalObjectRow> {
    chosen(v.wals, |w: WalObjectRow| is_listed_wal(w, tenant, partition, since))
}

/// `out` holds the rows in order of their first commits; rows with the same first commit
/// keep their order.
pub open spec fn is_by_commit(rows: Seq<WalObjectRow>, out: Seq<WalObjectRow>) -> bool {
    exists|p: Seq<usize>| #[trigger] is_commit_order(rows, p) && out == picked(rows, p)
}

/// The rows in the order `p`.
pub open spec fn picked(rows: Seq<WalObjectRow>, p: Seq<usize>) -> Seq<WalObjectRow> {
    Seq::new(p.len(), |i: int| rows[p[i] as int])
}

/// `p` lists all rows once each, by first commit and then by place.
pub open spec fn is_commit_order(rows: Seq<WalObjectRow>, p: Seq<usize>) -> bool {
    &&& p.len() == rows.len()
    &&& forall|i: int| 0 <= i < p.len() ==> (#[trigger] p[i]) < rows.len()
    &&& forall|i: int, j: int|
        0 <= i < j < p.len() ==> rows[#[trigger] p[i] as int].commit_id_min.0
            < rows[#[trigger] p[j] as int].commit_id_min.0 || (rows[p[i] as int].commit_id_min.0
            == rows[p[j] as int].commit_id_min.0 && p[i] < p[j])
    &&& forall|k: int| 0 <= k < rows.len() ==> #[trigger] lists(p, k)
}

/// The log object is consumed by a compaction through `through`.
pub open spec fn is_consumed_by(
    w: WalObjectRow,
    tenant: TenantId,
    partition: PartitionId,
    through: CommitId,
) -> bool {
    w.tenant_id == tenant && w.partition_id == partition && w.consumed_at is None
        && w.commit_id_max.0 <= through.0
}

/// The log objects after a compaction consumed those up to `through`.
pub open spec fn consumed_wals(
    wals: Seq<WalObjectRow>,
    tenant: TenantId,
    partition: PartitionId,
    through: CommitId,
    at: i64,
) -> Seq<WalObjectRow> {
    Seq::new(
        wals.len(),
        |i: int|
            if is_consumed_by(wals[i], tenant, partition, through) {
                WalObjectRow { consumed_at: Some(at), ..wals[i] }
            } else {
                wals[i]
            },
    )
}

/// The segment is active in the partition and overlaps the time range.
pub open spec fn is_in_range(
    s: SegmentRowView,
    tenant: TenantId,
    partition: PartitionId,
    time_min: i64,
    time_max: i64,
) -> bool {
    s.tenant_id == tenant && s.partition_id == partition && s.superseded_at is None && s.time_min
        <= time_max && s.time_max >= time_min
}

/// The segment is active for the tenant.
pub open spec fn is_active(s: SegmentRowView, tenant: TenantId) -> bool {
    s.tenant_id == tenant && s.superseded_at is None
}

/// The active segments of the tenant.
pub open spec fn tenant_segments(segments: Seq<SegmentRowView>, tenant: TenantId) -> Seq<
    SegmentRowView,
> {
    chosen(segments, |s: SegmentRowView| is_active(s, tenant))
}

/// The active segments of the partition that overlap the time range.
pub open spec fn range_segments(
    segments: Seq<SegmentRowView>,
    tenant: TenantId,
    partition: PartitionId,
    time_min: i64,
    time_max: i64,
) -> Seq<SegmentRowView> {
    chosen(segments, |s: SegmentRowView| is_in_range(s, tenant, partition, time_min, time_max))
}

/// The segments after those of the tenant with these identifiers were superseded.
pub open spec fn superseded_segments(
    segments: Seq<SegmentRowView>,
    tenant: TenantId,
    ids: Seq<u128>,
    at: i64,
) -> Seq<SegmentRowView> {
    Seq::new(
        segments.len(),
        |i: int|
            if is_active(segments[i], tenant) && ids.contains(segments[i].segment_id) {
                SegmentRowView { superseded_at: Some(at), ..segments[i] }
            } else {
                segments[i]
            },
    )
}

/// A worker may take the lease: nobody holds it, it has run out, or the worker has it.
pub open spec fn may_take(v: CatalogView, k: u128, worker: Seq<char>, now: i64) -> bool {
    !v.leases.contains_key(k) || v.leases[k].expires_at <= now || v.leases[k].worker_id == worker
}

/// The commit number that is given out next.
pub open spec fn next_of(v: CatalogView, k: u128) -> u64 {
    if v.next_commit.contains_key(k) {
        v.next_commit[k]
    } else {
        1
    }
}

/// A catalog that holds nothing.
pub open spec fn blank_catalog() -> CatalogView {
    CatalogView {
        tenants: Map::empty(),
        partitions: Set::empty(),
        next_commit: Map::empty(),
        wals: Seq::empty(),
        segments: Seq::empty(),
        leases: Map::empty(),
        nodes: Seq::empty(),
    }
}

/// The catalog after a commit number was given out.
pub open spec fn allocated(v: CatalogView, k: u128) -> CatalogView {
    CatalogView {
        next_commit: v.next_commit.insert(
            k,
            ((next_of(v, k) + 1) % 0x1_0000_0000_0000_0000) as u64,
        ),
        ..v
    }
}

/// The catalog after a worker took the lease until `until`.
pub open spec fn leased(v: CatalogView, k: u128, worker: Seq<char>, until: i64) -> CatalogView {
    CatalogView {
        leases: v.leases.insert(k, LeaseView { worker_id: worker, expires_at: until }),
        ..v
    }
}

/// The catalog after a worker gave the lease back, if it held it.
pub open spec fn released(v: CatalogView, k: u128, worker: Seq<char>) -> CatalogView {
    if v.leases.contains_key(k) && v.leases[k].worker_id == worker {
        CatalogView { leases: v.leases.remove(k), ..v }
    } else {
        v
    }
}

/// The nodes after one row was written: it replaces the row of its node, or is appended.
pub open spec fn with_node(nodes: Seq<NodeRow>, row: NodeRow) -> Seq<NodeRow> {
    if exists|i: int| 0 <= i < nodes.len() && (#[trigger] nodes[i]).node_id == row.node_id {
        Seq::new(
            nodes.len(),
            |i: int| if nodes[i].node_id == row.node_id { row } else { nodes[i] },
        )
    } else {
        nodes.push(row)
    }
}

/// Orders log objects by first commit.
pub struct CommitRank {
    pub first: u64,
}

impl Ranked for CommitRank {
    open spec fn precedes(&self, other: &Self) -> bool {
        self.first <= other.first
    }

    proof fn precedes_total(a: &Self, b: &Self) {
    }

    proof fn precedes_transitive(a: &Self, b: &Self, c: &Self) {
    }

    fn is_before(&self, other: &Self) -> (r: bool) {
        self.first <= other.first
    }
}

/// Sorts log objects by first commit.
fn sort_wals(rows: &Vec<WalObjectRow>) -> (r: Vec<WalObjectRow>)
    ensures
        is_by_commit(rows@, r@),
{
    let mut ranks: Vec<CommitRank> = Vec::new();
    let mut i: usize = 0;
    while i < rows.len()
        invariant
            i <= rows@.len(),
            ranks@.len() == i,
            forall|k: int| 0 <= k < i ==> (#[trigger] ranks@[k]).first == rows@[k].commit_id_min.0,
        decreases rows.len() - i,
    {
        ranks.push(CommitRank { first: rows[i].commit_id_min.0 });
        i = i + 1;
    }
    let p = sort_order(ranks.as_slice());
    proof {
        assert(is_stable_order(ranks@, p@));
        assert forall|i: int, j: int| 0 <= i < j < p@.len() implies rows@[#[trigger] p@[i] as int].commit_id_min.0
            < rows@[#[trigger] p@[j] as int].commit_id_min.0 || (
        rows@[p@[i] as int].commit_id_min.0 == rows@[p@[j] as int].commit_id_min.0 && p@[i] < p@[j]) by {
            assert(ranks@[p@[i] as int].precedes(&ranks@[p@[j] as int]));
        }
        assert(is_commit_order(rows@, p@));
    }
    let mut out: Vec<WalObjectRow> = Vec::new();
    let mut k: usize = 0;
    while k < p.len()
        invariant
            k <= p@.len(),
            is_commit_order(rows@, p@),
            out@ == picked(rows@, p@).take(k as int),
        decreases p.len() - k,
    {
        out.push(rows[p[k]].copy());
        k = k + 1;
        assert(out@ =~= picked(rows@, p@).take(k as int));
    }
    assert(out@ =~= picked(rows@, p@));
    out
}

impl MockCatalog {
    pub closed spec fn view(&self) -> CatalogView {
        CatalogView {
            tenants: self.tenants@.map_values(|s: String| s@),
            partitions: self.partitions@.dom(),
            next_commit: self.commit_seq@,
            wals: self.wals@,
            segments: segment_views(self.segments@),
            leases: self.leases@.map_values(
                |l: Lease| LeaseView { worker_id: l.worker_id@, expires_at: l.expires_at },
            ),
            nodes: self.nodes@,
        }
    }

    /// An empty catalog.
    pub fn new() -> (r: Self)
        ensures
            r@ == blank_catalog(),
    {
        let r = MockCatalog {
            tenants: HashMap::new(),
            partitions: HashMap::new(),
            commit_seq: HashMap::new(),
            wals: Vec::new(),
            segments: Vec::new(),
            leases: HashMap::new(),
            nodes: Vec::new(),
        };
        proof {
            assert(r@.tenants =~= Map::empty());
            assert(r@.partitions =~= Set::empty());
            assert(r@.segments =~= Seq::empty());
            assert(r@.leases =~= Map::empty());
        }
        r
    }

    /// Makes sure that the tenant is known. A known tenant keeps its name.
    pub fn ensure_tenant(&mut self, tenant: TenantId, name: &str) -> (r: Result<(), ZenError>)
        ensures
            r is Ok,
            final(self)@ == (CatalogView {
                tenants: if old(self)@.tenants.contains_key(tenant.0) {
                    old(self)@.tenants
                } else {
                    old(self)@.tenants.insert(tenant.0, name@)
                },
                ..old(self)@
            }),
    {
        let ghost before = self@;
        if !self.tenants.contains_key(&tenant.0) {
            self.tenants.insert(tenant.0, String::from_str(name));
            assert(self@.tenants =~= before.tenants.insert(tenant.0, name@));
        }
        assert(self@ =~= CatalogView { tenants: self@.tenants, ..before });
        Ok(())
    }

    /// Makes sure that the partition is known. Its first commit number will be one.
    pub fn ensure_partition(&mut self, tenant: TenantId, partition: PartitionId) -> (r: Result<
        (),
        ZenError,
    >)
        ensures
            r is Ok,
            final(self)@ == (CatalogView {
                partitions: old(self)@.partitions.insert(slot(tenant, partition)),
                next_commit: old(self)@.next_commit.insert(
                    slot(tenant, partition),
                    next_of(old(self)@, slot(tenant, partition)),
                ),
                ..old(self)@
            }),
    {
        let ghost before = self@;
        let k: u128 = slot_of(tenant, partition);
        self.partitions.insert(k, true);
        if !self.commit_seq.contains_key(&k) {
            self.commit_seq.insert(k, 1);
        }
        proof {
            assert(self@.partitions =~= before.partitions.insert(k));
            assert(self@.next_commit =~= before.next_commit.insert(k, next_of(before, k)));
        }
        Ok(())
    }

    /// Allocates the next commit number of the partition. The counter has 64 bits.
    pub fn next_commit_id(&mut self, tenant: TenantId, partition: PartitionId) -> (r: Result<
        CommitId,
        ZenError,
    >)
        ensures
            r matches Ok(c) && c.0 == next_of(old(self)@, slot(tenant, partition)),
            final(self)@ == allocated(old(self)@, slot(tenant, partition)),
    {
        let k: u128 = slot_of(tenant, partition);
        let c: u64 = match self.commit_seq.get(&k) {
            Some(c) => *c,
            None => 1,
        };
        self.commit_seq.insert(k, c.wrapping_add(1));
        Ok(CommitId(c))
    }

    /// Registers a freshly flushed log object.
    pub fn register_wal_object(&mut self, w: WalObjectRow) -> (r: Result<(), ZenError>)
        ensures
            r is Ok,
            final(self)@ == (CatalogView { wals: old(self)@.wals.push(w), ..old(self)@ }),
    {
        self.wals.push(w);
        Ok(())
    }

    /// Lists the log objects of the partition that are not consumed, from
    /// `since_commit_id` on, by first commit.
    pub fn list_wal_objects(
        &self,
        tenant: TenantId,
        partition: PartitionId,
        since_commit_id: CommitId,
    ) -> (r: Result<Vec<WalObjectRow>, ZenError>)
        ensures
            r matches Ok(out) && is_by_commit(
                listed_wals(self@, tenant, partition, since_commit_id),
                out@,
            ),
    {
        let ghost p = |w: WalObjectRow| is_listed_wal(w, tenant, partition, since_commit_id);
        let mut found: Vec<WalObjectRow> = Vec::new();
        let mut i: usize = 0;
        assert(self.wals@.take(0) =~= Seq::empty());
        while i < self.wals.len()
            invariant
                i <= self.wals@.len(),
                p == (|w: WalObjectRow| is_listed_wal(w, tenant, partition, since_commit_id)),
                found@ == chosen(self.wals@.take(i as int), p),
            decreases self.wals.len() - i,
        {
            let w = &self.wals[i];
            proof {
                assert(self.wals@.take(i + 1).drop_last() =~= self.wals@.take(i as int));
                assert(self.wals@.take(i + 1).last() == *w);
            }
            if w.tenant_id.0 == tenant.0 && w.partition_id.0 == partition.0
                && w.consumed_at.is_none() && w.commit_id_min.0 >= since_commit_id.0 {
                found.push(w.copy());
            }
            i = i + 1;
        }
        assert(self.wals@.take(i as int) =~= self.wals@);
        Ok(sort_wals(&found))
    }

    /// Registers a freshly published segment.
    pub fn register_segment(&mut self, s: SegmentRow) -> (r: Result<(), ZenError>)
        ensures
            r is Ok,
            final(self)@ == (CatalogView { segments: old(self)@.segments.push(s@), ..old(self)@ }),
    {
        let ghost before = self@;
        self.segments.push(s);
        assert(self@.segments =~= before.segments.push(s@));
        Ok(())
    }

    /// Lists the active segments of the partition that overlap `[time_min, time_max]`.
    pub fn list_segments_in_range(
        &self,
        tenant: TenantId,
        partition: PartitionId,
        time_min: i64,
        time_max: i64,
    ) -> (r: Result<Vec<SegmentRow>, ZenError>)
        ensures
            r matches Ok(out) && segment_views(out@) == range_segments(
                self@.segments,
                tenant,
                partition,
                time_min,
                time_max,
            ),
    {
        let ghost p = |s: SegmentRowView| is_in_range(s, tenant, partition, time_min, time_max);
        let ghost all = segment_views(self.segments@);
        let mut out: Vec<SegmentRow> = Vec::new();
        let mut i: usize = 0;
        assert(all.take(0) =~= Seq::empty());
        assert(segment_views(out@) =~= chosen(all.take(0), p));
        while i < self.segments.len()
            invariant
                i <= self.segments@.len(),
                all == segment_views(self.segments@),
                p == (|s: SegmentRowView| is_in_range(s, tenant, partition, time_min, time_max)),
                segment_views(out@) == chosen(all.take(i as int), p),
            decreases self.segments.len() - i,
        {
            let s = &self.segments[i];
            proof {
                assert(all.take(i + 1).drop_last() =~= all.take(i as int));
                assert(all.take(i + 1).last() == s@);
            }
            if s.tenant_id.0 == tenant.0 && s.partition_id.0 == partition.0
                && s.superseded_at.is_none() && s.time_min <= time_max && s.time_max >= time_min {
                let ghost prev = segment_views(out@);
                out.push(s.copy());
                assert(segment_views(out@) =~= prev.push(s@));
            }
            i = i + 1;
        }
        assert(all.take(i as int) =~= all);
        Ok(out)
    }

    /// Marks the log objects of the partition up to `consumed_through` as consumed.
    /// Returns how many there were.
    pub fn mark_wal_consumed(
        &mut self,
        tenant: TenantId,
        partition: PartitionId,
        consumed_through: CommitId,
        at: i64,
    ) -> (r: Result<u64, ZenError>)
        ensures
            r matches Ok(n) && n == tally(
                old(self)@.wals,
                |w: WalObjectRow| is_consumed_by(w, tenant, partition, consumed_through),
            ),
            final(self)@ == (CatalogView {
                wals: consumed_wals(old(self)@.wals, tenant, partition, consumed_through, at),
                ..old(self)@
            }),
    {
        let ghost p = |w: WalObjectRow| is_consumed_by(w, tenant, partition, consumed_through);
        let ghost before = self.wals@;
        let ghost whole = self@;
        let ghost after = consumed_wals(before, tenant, partition, consumed_through, at);
        let mut n: u64 = 0;
        let mut i: usize = 0;
        assert(before.take(0) =~= Seq::empty());
        while i < self.wals.len()
            invariant
                i <= self.wals@.len(),
                self.wals@.len() == before.len(),
                self@ == (CatalogView { wals: self.wals@, ..whole }),
                p == (|w: WalObjectRow| is_consumed_by(w, tenant, partition, consumed_through)),
                after == consumed_wals(before, tenant, partition, consumed_through, at),
                forall|k: int| 0 <= k < i ==> (#[trigger] self.wals@[k]) == after[k],
                forall|k: int| i <= k < before.len() ==> (#[trigger] self.wals@[k]) == before[k],
                n == chosen(before.take(i as int), p).len(),
                n <= i,
            decreases self.wals.len() - i,
        {
            proof {
                assert(before.take(i + 1).drop_last() =~= before.take(i as int));
                assert(before.take(i + 1).last() == before[i as int]);
                assert(self.wals@[i as int] == before[i as int]);
            }
            let hit = self.wals[i].tenant_id.0 == tenant.0 && self.wals[i].partition_id.0
                == partition.0 && self.wals[i].consumed_at.is_none()
                && self.wals[i].commit_id_max.0 <= consumed_through.0;
            assert(hit == p(before[i as int]));
            if hit {
                self.wals[i].consumed_at = Some(at);
                n = n + 1;
            }
            i = i + 1;
        }
        proof {
            assert(before.take(i as int) =~= before);
            assert(self.wals@ =~= after);
            assert(self@ =~= CatalogView { wals: after, ..whole });
        }
        Ok(n)
    }

    /// Takes the compaction lease of the partition for `ttl_seconds` from `now` on, unless
    /// another worker holds it.
    pub fn acquire_compaction_lease(
        &mut self,
        tenant: TenantId,
        partition: PartitionId,
        worker_id: &str,
        ttl_seconds: u64,
        now: i64,
    ) -> (r: Result<(), ZenError>)
        requires
            now + ttl_seconds * 1_000_000 <= i64::MAX,
        ensures
            match r {
                Ok(()) => {
                    &&& may_take(old(self)@, slot(tenant, partition), worker_id@, now)
                    &&& final(self)@ == leased(
                        old(self)@,
                        slot(tenant, partition),
                        worker_id@,
                        (now + ttl_seconds * 1_000_000) as i64,
                    )
                },
                Err(e) => {
                    &&& !may_take(old(self)@, slot(tenant, partition), worker_id@, now)
                    &&& final(self)@ == old(self)@
                    &&& e@ == ErrorView::Catalog(
                        "compaction lease for (TenantId("@ + decimal(tenant.0 as nat)
                            + "), PartitionId("@ + decimal(partition.0 as nat) + ")) is held by "@
                            + old(self)@.leases[slot(tenant, partition)].worker_id,
                    )
                },
            },
    {
        let ghost before = self@;
        let k: u128 = slot_of(tenant, partition);
        match self.leases.get(&k) {
            None => {},
            Some(l) => {
                assert(before.leases[k].worker_id == l.worker_id@);
                assert(before.leases[k].expires_at == l.expires_at);
                if !(l.expires_at <= now || text_eq(l.worker_id.as_str(), worker_id)) {
                    let mut text = String::from_str("compaction lease for (TenantId(");
                    text.append(decimal_string(tenant.0).as_str());
                    text.append("), PartitionId(");
                    text.append(decimal_string(partition.0 as u64).as_str());
                    text.append(")) is held by ");
                    text.append(l.worker_id.as_str());
                    return Err(ZenError::Catalog(text));
                }
            },
        }
        let expires_at: i64 = (now as i128 + ttl_seconds as i128 * 1_000_000) as i64;
        self.leases.insert(k, Lease { worker_id: String::from_str(worker_id), expires_at });
        assert(self@.leases =~= before.leases.insert(
            k,
            LeaseView {
                worker_id: worker_id@,
                expires_at: (now + ttl_seconds * 1_000_000) as i64,
            },
        ));
        Ok(())
    }

    /// Gives the compaction lease of the partition back, if the worker holds it.
    pub fn release_compaction_lease(
        &mut self,
        tenant: TenantId,
        partition: PartitionId,
        worker_id: &str,
    ) -> (r: Result<(), ZenError>)
        ensures
            r is Ok,
            final(self)@ == released(old(self)@, slot(tenant, partition), worker_id@),
    {
        let ghost before = self@;
        let k: u128 = slot_of(tenant, partition);
        let held = match self.leases.get(&k) {
            Some(l) => {
                assert(before.leases[k].worker_id == l.worker_id@);
                text_eq(l.worker_id.as_str(), worker_id)
            },
            None => false,
        };
        if held {
            self.leases.remove(&k);
            assert(self@.leases =~= before.leases.remove(k));
        }
        Ok(())
    }

    /// Lists the active segments of the tenant.
    pub fn list_segments_for_tenant(&self, tenant: TenantId) -> (r: Result<
        Vec<SegmentRow>,
        ZenError,
    >)
        ensures
            r matches Ok(out) && segment_views(out@) == tenant_segments(self@.segments, tenant),
    {
        let ghost p = |s: SegmentRowView| is_active(s, tenant);
        let ghost all = segment_views(self.segments@);
        let mut out: Vec<SegmentRow> = Vec::new();
        let mut i: usize = 0;
        assert(all.take(0) =~= Seq::empty());
        assert(segment_views(out@) =~= chosen(all.take(0), p));
        while i < self.segments.len()
            invariant
                i <= self.segments@.len(),
                all == segment_views(self.segments@),
                p == (|s: SegmentRowView| is_active(s, tenant)),
                segment_views(out@) == chosen(all.take(i as int), p),
            decreases self.segments.len() - i,
        {
            let s = &self.segments[i];
            proof {
                assert(all.take(i + 1).drop_last() =~= all.take(i as int));
                assert(all.take(i + 1).last() == s@);
            }
            if s.tenant_id.0 == tenant.0 && s.superseded_at.is_none() {
                let ghost prev = segment_views(out@);
                out.push(s.copy());
                assert(segment_views(out@) =~= prev.push(s@));
            }
            i = i + 1;
        }
        assert(all.take(i as int) =~= all);
        Ok(out)
    }

    /// Marks segments as superseded by a larger one, those of other tenants excepted.
    /// Returns how many there were.
    pub fn mark_segments_superseded(
        &mut self,
        tenant: TenantId,
        segment_ids: &[u128],
        at: i64,
    ) -> (r: Result<u64, ZenError>)
        ensures
            r matches Ok(n) && n == tally(
                old(self)@.segments,
                |s: SegmentRowView|
                    is_active(s, tenant) && segment_ids@.contains(s.segment_id),
            ),
            final(self)@ == (CatalogView {
                segments: superseded_segments(old(self)@.segments, tenant, segment_ids@, at),
                ..old(self)@
            }),
    {
        let ghost ids = segment_ids@;
        let ghost p = |s: SegmentRowView| is_active(s, tenant) && ids.contains(s.segment_id);
        let ghost before = segment_views(self.segments@);
        let ghost whole = self@;
        let ghost after = superseded_segments(before, tenant, ids, at);
        let mut n: u64 = 0;
        let mut i: usize = 0;
        assert(before.take(0) =~= Seq::empty());
        while i < self.segments.len()
            invariant
                i <= self.segments@.len(),
                self.segments@.len() == before.len(),
                ids == segment_ids@,
                self@ == (CatalogView { segments: segment_views(self.segments@), ..whole }),
                p == (|s: SegmentRowView| is_active(s, tenant) && ids.contains(s.segment_id)),
                after == superseded_segments(before, tenant, ids, at),
                forall|k: int| 0 <= k < i ==> (#[trigger] self.segments@[k])@ == after[k],
                forall|k: int| i <= k < before.len() ==> (#[trigger] self.segments@[k])@ == before[k],
                n == chosen(before.take(i as int), p).len(),
                n <= i,
            decreases self.segments.len() - i,
        {
            proof {
                assert(before.take(i + 1).drop_last() =~= before.take(i as int));
                assert(before.take(i + 1).last() == before[i as int]);
                assert(self.segments@[i as int]@ == before[i as int]);
            }
            let hit = self.segments[i].tenant_id.0 == tenant.0
                && self.segments[i].superseded_at.is_none() && has_id(
                segment_ids,
                self.segments[i].segment_id,
            );
            assert(hit == p(before[i as int]));
            if hit {
                self.segments[i].superseded_at = Some(at);
                n = n + 1;
            }
            i = i + 1;
        }
        proof {
            assert(before.take(i as int) =~= before);
            assert(segment_views(self.segments@) =~= after);
            assert(self@ =~= CatalogView { segments: after, ..whole });
        }
        Ok(n)
    }

    /// Writes a node's heartbeat row.
    pub fn upsert_node(&mut self, row: NodeRow) -> (r: Result<(), ZenError>)
        ensures
            r is Ok,
            final(self)@ == (CatalogView {
                nodes: with_node(old(self)@.nodes, row),
                ..old(self)@
            }),
    {
        let ghost before = self.nodes@;
        let ghost whole = self@;
        let mut found = false;
        let mut i: usize = 0;
        while i < self.nodes.len()
            invariant
                i <= self.nodes@.len(),
                self.nodes@.len() == before.len(),
                self@ == (CatalogView { nodes: self.nodes@, ..whole }),
                found == (exists|k: int|
                    0 <= k < i && (#[trigger] before[k]).node_id == row.node_id),
                forall|k: int|
                    0 <= k < i ==> (#[trigger] self.nodes@[k]) == (if before[k].node_id
                        == row.node_id {
                        row
                    } else {
                        before[k]
                    }),
                forall|k: int| i <= k < before.len() ==> (#[trigger] self.nodes@[k]) == before[k],
            decreases self.nodes.len() - i,
        {
            assert(self.nodes@[i as int] == before[i as int]);
            if self.nodes[i].node_id == row.node_id {
                found = true;
                let copy = row.copy();
                self.nodes.set(i, copy);
            }
            i = i + 1;
        }
        if !found {
            self.nodes.push(row);
        }
        assert(self.nodes@ =~= with_node(before, row));
        Ok(())
    }

    /// Lists all node rows, stale ones too.
    pub fn list_nodes(&self) -> (r: Result<Vec<NodeRow>, ZenError>)
        ensures
            r matches Ok(out) && out@ == self@.nodes,
    {
        let mut out: Vec<NodeRow> = Vec::new();
        let mut i: usize = 0;
        while i < self.nodes.len()
            invariant
                i <= self.nodes@.len(),
                out@ == self.nodes@.take(i as int),
            decreases self.nodes.len() - i,
        {
            out.push(self.nodes[i].copy());
            i = i + 1;
            assert(out@ =~= self.nodes@.take(i as int));
        }
        assert(out@ =~= self.nodes@);
        Ok(out)
    }
}

impl Default for MockCatalog {
    fn default() -> (r: Self)
        ensures
            r@ == blank_catalog(),
    {
        MockCatalog::new()
    }
}

/// Whether the identifier is in the list.
fn has_id(ids: &[u128], id: u128) -> (r: bool)
    ensures
        r == ids@.contains(id),
{
    let mut i: usize = 0;
    while i < ids.len()
        invariant
            i <= ids.len(),
            forall|k: int| 0 <= k < i ==> ids@[k] != id,
        decreases ids.len() - i,
    {
        if ids[i] == id {
            assert(ids@[i as int] == id);
            return true;
        }
        i = i + 1;
    }
    false
}

} // verus!
