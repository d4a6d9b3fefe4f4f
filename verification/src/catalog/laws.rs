//! What the catalog promises.
use crate::catalog::mock::{
    allocated, blank_catalog, chosen, consumed_wals, is_active, is_by_commit, is_commit_order,
    is_consumed_by, is_in_range, is_listed_wal, leased, listed_wals, may_take, next_of, picked,
    range_segments, released, slot, slots_are_distinct, superseded_segments, tally,
    tenant_segments, with_node, CatalogView,
};
use crate::catalog::model::{
    bounds_of, NodeRow, SegmentRowView, WalObjectBounds, WalObjectRow,
};
use crate::common::record::SpanRecord;
use crate::common::types::{CommitId, PartitionId, TenantId};
use crate::order::{lex_le, lists};
use vstd::prelude::*;

verus! {

/// What is chosen satisfies the condition, and nothing that does is left out.
pub proof fn lemma_chosen<T>(items: Seq<T>, p: spec_fn(T) -> bool)
    ensures
        forall|i: int|
            0 <= i < chosen(items, p).len() ==> p(#[trigger] chosen(items, p)[i])
                && items.contains(chosen(items, p)[i]),
        forall|k: int|
            0 <= k < items.len() && p(#[trigger] items[k]) ==> chosen(items, p).contains(items[k]),
        chosen(items, p).len() <= items.len(),
    decreases items.len(),
{
    if items.len() > 0 {
        let head = items.drop_last();
        lemma_chosen(head, p);
        let c = chosen(items, p);
        let d = chosen(head, p);
        assert forall|i: int| 0 <= i < c.len() implies p(#[trigger] c[i]) && items.contains(c[i]) by {
            if i < d.len() {
                assert(c[i] == d[i]);
                let j = choose|j: int| 0 <= j < head.len() && head[j] == d[i];
                assert(items[j] == c[i]);
            } else {
                assert(items[items.len() - 1] == c[i]);
            }
        }
        assert forall|k: int| 0 <= k < items.len() && p(#[trigger] items[k]) implies c.contains(
            items[k],
        ) by {
            if k < head.len() {
                assert(head[k] == items[k]);
                assert(d.contains(head[k]));
                let j = choose|j: int| 0 <= j < d.len() && d[j] == head[k];
                assert(c[j] == items[k]);
            } else {
                assert(c[c.len() - 1] == items[k]);
            }
        }
    }
}

/// Commit numbers of a partition increase by one with each allocation, up to the end of
/// the 64-bit range.
pub proof fn commit_ids_increase(v: CatalogView, tenant: TenantId, partition: PartitionId)
    requires
        next_of(v, slot(tenant, partition)) < u64::MAX,
    ensures
        next_of(allocated(v, slot(tenant, partition)), slot(tenant, partition)) == next_of(
            v,
            slot(tenant, partition),
        ) + 1,
{
}

/// Allocating in one partition does not touch another.
pub proof fn commit_ids_are_per_partition(
    v: CatalogView,
    t1: TenantId,
    p1: PartitionId,
    t2: TenantId,
    p2: PartitionId,
)
    requires
        t1 != t2 || p1 != p2,
    ensures
        next_of(allocated(v, slot(t1, p1)), slot(t2, p2)) == next_of(v, slot(t2, p2)),
{
    slots_are_distinct(t1, p1, t2, p2);
}

/// While a lease runs, no other worker can take it; its holder can renew it.
pub proof fn leases_are_exclusive(
    v: CatalogView,
    k: u128,
    holder: Seq<char>,
    until: i64,
    worker: Seq<char>,
    now: i64,
)
    requires
        now < until,
    ensures
        may_take(leased(v, k, holder, until), k, worker, now) <==> worker == holder,
{
}

/// When a lease has run out, or was given back by its holder, anyone can take it.
pub proof fn leases_end(
    v: CatalogView,
    k: u128,
    holder: Seq<char>,
    until: i64,
    worker: Seq<char>,
    now: i64,
)
    ensures
        until <= now ==> may_take(leased(v, k, holder, until), k, worker, now),
        may_take(released(leased(v, k, holder, until), k, holder), k, worker, now),
{
}

/// Only the holder can give a lease back.
pub proof fn leases_are_released_by_their_holder(
    v: CatalogView,
    k: u128,
    holder: Seq<char>,
    until: i64,
    other: Seq<char>,
)
    requires
        other != holder,
    ensures
        released(leased(v, k, holder, until), k, other) == leased(v, k, holder, until),
{
}

/// Log objects that a compaction consumed are not listed again.
pub proof fn consumed_objects_are_not_listed(
    v: CatalogView,
    tenant: TenantId,
    partition: PartitionId,
    through: CommitId,
    at: i64,
    since: CommitId,
    i: int,
)
    requires
        ({
            let after = CatalogView {
                wals: consumed_wals(v.wals, tenant, partition, through, at),
                ..v
            };
            0 <= i < listed_wals(after, tenant, partition, since).len()
        }),
    ensures
        ({
            let after = CatalogView {
                wals: consumed_wals(v.wals, tenant, partition, through, at),
                ..v
            };
            listed_wals(after, tenant, partition, since)[i].commit_id_max.0 > through.0
        }),
{
    let wals = consumed_wals(v.wals, tenant, partition, through, at);
    let p = |w: WalObjectRow| is_listed_wal(w, tenant, partition, since);
    lemma_chosen(wals, p);
    let w = chosen(wals, p)[i];
    assert(p(w) && wals.contains(w));
    let k = choose|k: int| 0 <= k < wals.len() && wals[k] == w;
    assert(!is_consumed_by(v.wals[k], tenant, partition, through));
}

/// Consuming the log of one partition leaves every other partition's objects alone.
pub proof fn consuming_is_scoped(
    wals: Seq<WalObjectRow>,
    tenant: TenantId,
    partition: PartitionId,
    through: CommitId,
    at: i64,
    i: int,
)
    requires
        0 <= i < wals.len(),
        wals[i].tenant_id != tenant || wals[i].partition_id != partition,
    ensures
        consumed_wals(wals, tenant, partition, through, at)[i] == wals[i],
{
}

/// Superseded segments are not listed for their tenant any more.
pub proof fn superseded_segments_are_not_listed(
    segments: Seq<SegmentRowView>,
    tenant: TenantId,
    ids: Seq<u128>,
    at: i64,
    i: int,
)
    requires
        0 <= i < tenant_segments(superseded_segments(segments, tenant, ids, at), tenant).len(),
    ensures
        !ids.contains(
            tenant_segments(superseded_segments(segments, tenant, ids, at), tenant)[i].segment_id,
        ),
{
    let after = superseded_segments(segments, tenant, ids, at);
    let p = |s: SegmentRowView| is_active(s, tenant);
    lemma_chosen(after, p);
    let s = chosen(after, p)[i];
    assert(p(s) && after.contains(s));
    let k = choose|k: int| 0 <= k < after.len() && after[k] == s;
    assert(after[k].segment_id == segments[k].segment_id);
}

/// Superseded segments are not found in any time range any more.
pub proof fn superseded_segments_are_not_in_range(
    segments: Seq<SegmentRowView>,
    tenant: TenantId,
    ids: Seq<u128>,
    at: i64,
    partition: PartitionId,
    time_min: i64,
    time_max: i64,
    i: int,
)
    requires
        0 <= i < range_segments(
            superseded_segments(segments, tenant, ids, at),
            tenant,
            partition,
            time_min,
            time_max,
        ).len(),
    ensures
        !ids.contains(
            range_segments(
                superseded_segments(segments, tenant, ids, at),
                tenant,
                partition,
                time_min,
                time_max,
            )[i].segment_id,
        ),
{
    let after = superseded_segments(segments, tenant, ids, at);
    let p = |s: SegmentRowView| is_in_range(s, tenant, partition, time_min, time_max);
    lemma_chosen(after, p);
    let s = chosen(after, p)[i];
    assert(p(s) && after.contains(s));
    let k = choose|k: int| 0 <= k < after.len() && after[k] == s;
    assert(after[k].segment_id == segments[k].segment_id);
}

/// A range query misses no active segment of the partition that overlaps the range.
pub proof fn range_queries_are_complete(
    segments: Seq<SegmentRowView>,
    tenant: TenantId,
    partition: PartitionId,
    time_min: i64,
    time_max: i64,
    k: int,
)
    requires
        0 <= k < segments.len(),
    ensures
        is_in_range(segments[k], tenant, partition, time_min, time_max) ==> range_segments(
            segments,
            tenant,
            partition,
            time_min,
            time_max,
        ).contains(segments[k]),
{
    lemma_chosen(
        segments,
        |s: SegmentRowView| is_in_range(s, tenant, partition, time_min, time_max),
    );
}

/// Superseding is scoped by tenant: a segment of another tenant stays as it is, whatever
/// identifiers are named.
pub proof fn superseding_is_scoped(
    segments: Seq<SegmentRowView>,
    tenant: TenantId,
    ids: Seq<u128>,
    at: i64,
    i: int,
)
    requires
        0 <= i < segments.len(),
        segments[i].tenant_id != tenant,
    ensures
        superseded_segments(segments, tenant, ids, at)[i] == segments[i],
{
}

/// A segment and a query's range have a time in common.
pub open spec fn shares_a_time(s: SegmentRowView, time_min: i64, time_max: i64) -> bool {
    exists|t: i64| s.time_min <= t <= s.time_max && time_min <= t && #[trigger] at_most(t, time_max)
}

/// One time is not after another.
pub open spec fn at_most(t: i64, end: i64) -> bool {
    t <= end
}

/// A range query finds every segment of the partition that was not superseded and has a
/// time in common with the range.
pub proof fn range_queries_find_common_times(
    segments: Seq<SegmentRowView>,
    tenant: TenantId,
    partition: PartitionId,
    time_min: i64,
    time_max: i64,
    k: int,
    t: i64,
)
    requires
        0 <= k < segments.len(),
        segments[k].tenant_id == tenant,
        segments[k].partition_id == partition,
        segments[k].superseded_at is None,
        segments[k].time_min <= t <= segments[k].time_max,
        time_min <= t <= time_max,
    ensures
        range_segments(segments, tenant, partition, time_min, time_max).contains(segments[k]),
{
    range_queries_are_complete(segments, tenant, partition, time_min, time_max, k);
}

/// A range query finds nothing else: what it lists is a registered segment of the tenant and
/// partition, was not superseded, and has a time in common with the range, unless the range
/// or the segment is empty.
pub proof fn range_queries_are_sound(
    segments: Seq<SegmentRowView>,
    tenant: TenantId,
    partition: PartitionId,
    time_min: i64,
    time_max: i64,
    i: int,
)
    requires
        0 <= i < range_segments(segments, tenant, partition, time_min, time_max).len(),
    ensures
        ({
            let s = range_segments(segments, tenant, partition, time_min, time_max)[i];
            &&& segments.contains(s)
            &&& s.tenant_id == tenant
            &&& s.partition_id == partition
            &&& s.superseded_at is None
            &&& time_min <= time_max && s.time_min <= s.time_max ==> shares_a_time(
                s,
                time_min,
                time_max,
            )
        }),
{
    let p = |s: SegmentRowView| is_in_range(s, tenant, partition, time_min, time_max);
    lemma_chosen(segments, p);
    let s = chosen(segments, p)[i];
    assert(p(s) && segments.contains(s));
    if time_min <= time_max && s.time_min <= s.time_max {
        let t = if s.time_min >= time_min {
            s.time_min
        } else {
            time_min
        };
        assert(at_most(t, time_max));
    }
}

/// What is chosen keeps its order: `at` says where each of the chosen items stood.
proof fn lemma_chosen_in_order<T>(items: Seq<T>, p: spec_fn(T) -> bool) -> (at: Seq<int>)
    ensures
        at.len() == chosen(items, p).len(),
        forall|i: int|
            0 <= i < at.len() ==> 0 <= #[trigger] at[i] < items.len() && items[at[i]] == chosen(
                items,
                p,
            )[i],
        forall|i: int, j: int| 0 <= i < j < at.len() ==> #[trigger] at[i] < #[trigger] at[j],
        forall|k: int| 0 <= k < items.len() && p(#[trigger] items[k]) ==> at.contains(k),
    decreases items.len(),
{
    if items.len() == 0 {
        Seq::empty()
    } else {
        let head = items.drop_last();
        let rest = lemma_chosen_in_order(head, p);
        let at = if p(items.last()) {
            rest.push(items.len() - 1)
        } else {
            rest
        };
        assert forall|k: int| 0 <= k < items.len() && p(#[trigger] items[k]) implies at.contains(
            k,
        ) by {
            if k < head.len() {
                assert(head[k] == items[k]);
                assert(rest.contains(k));
                let j = choose|j: int| 0 <= j < rest.len() && rest[j] == k;
                assert(at[j] == k);
            } else {
                assert(at[at.len() - 1] == k);
            }
        }
        at
    }
}

/// `out` lists some of the items, in their order and each place once: those at the places
/// `at`.
pub open spec fn lists_in_order<T>(items: Seq<T>, at: Seq<int>, out: Seq<T>) -> bool {
    &&& at.len() == out.len()
    &&& forall|i: int|
        0 <= i < at.len() ==> 0 <= #[trigger] at[i] < items.len() && items[at[i]] == out[i]
    &&& forall|i: int, j: int| 0 <= i < j < at.len() ==> #[trigger] at[i] < #[trigger] at[j]
}

/// The segments of a range query come in the order in which they were registered, each as
/// often as it was.
pub proof fn range_queries_keep_the_order(
    segments: Seq<SegmentRowView>,
    tenant: TenantId,
    partition: PartitionId,
    time_min: i64,
    time_max: i64,
)
    ensures
        exists|at: Seq<int>| #[trigger]
            lists_in_order(
                segments,
                at,
                range_segments(segments, tenant, partition, time_min, time_max),
            ),
{
    let at = lemma_chosen_in_order(
        segments,
        |s: SegmentRowView| is_in_range(s, tenant, partition, time_min, time_max),
    );
    assert(lists_in_order(
        segments,
        at,
        range_segments(segments, tenant, partition, time_min, time_max),
    ));
}

/// A tenant's listing holds the segments of the tenant that were not superseded, and no
/// other, in the order in which they were registered.
pub proof fn tenant_listings_are_exact(segments: Seq<SegmentRowView>, tenant: TenantId)
    ensures
        exists|at: Seq<int>| #[trigger]
            lists_in_order(segments, at, tenant_segments(segments, tenant)),
        forall|k: int|
            0 <= k < segments.len() && (#[trigger] segments[k]).tenant_id == tenant
                && segments[k].superseded_at is None ==> tenant_segments(
                segments,
                tenant,
            ).contains(segments[k]),
        forall|i: int|
            0 <= i < tenant_segments(segments, tenant).len() ==> (#[trigger] tenant_segments(
                segments,
                tenant,
            )[i]).tenant_id == tenant && tenant_segments(segments, tenant)[i].superseded_at is None,
{
    let p = |s: SegmentRowView| is_active(s, tenant);
    lemma_chosen(segments, p);
    let at = lemma_chosen_in_order(segments, p);
    assert(lists_in_order(segments, at, tenant_segments(segments, tenant)));
    assert forall|i: int| 0 <= i < chosen(segments, p).len() implies (#[trigger] tenant_segments(
        segments,
        tenant,
    )[i]).tenant_id == tenant && tenant_segments(segments, tenant)[i].superseded_at is None by {
        assert(p(chosen(segments, p)[i]));
    }
    assert forall|k: int|
        0 <= k < segments.len() && (#[trigger] segments[k]).tenant_id == tenant
            && segments[k].superseded_at is None implies tenant_segments(
        segments,
        tenant,
    ).contains(segments[k]) by {
        assert(p(segments[k]));
    }
}

/// The listing of a partition's log holds each object of the partition that is not consumed
/// and whose first commit is not before `since`, and no other, by first commit.
pub proof fn log_listings_are_exact(
    v: CatalogView,
    tenant: TenantId,
    partition: PartitionId,
    since: CommitId,
    out: Seq<WalObjectRow>,
)
    requires
        is_by_commit(listed_wals(v, tenant, partition, since), out),
    ensures
        forall|k: int|
            0 <= k < v.wals.len() && (#[trigger] v.wals[k]).tenant_id == tenant
                && v.wals[k].partition_id == partition && v.wals[k].consumed_at is None
                && v.wals[k].commit_id_min.0 >= since.0 ==> out.contains(v.wals[k]),
        forall|i: int|
            0 <= i < out.len() ==> v.wals.contains(#[trigger] out[i]) && out[i].tenant_id == tenant
                && out[i].partition_id == partition && out[i].consumed_at is None
                && out[i].commit_id_min.0 >= since.0,
        forall|i: int, j: int|
            0 <= i < j < out.len() ==> (#[trigger] out[i]).commit_id_min.0 <= (
            #[trigger] out[j]).commit_id_min.0,
        out.len() <= v.wals.len(),
{
    let p = |w: WalObjectRow| is_listed_wal(w, tenant, partition, since);
    let rows = chosen(v.wals, p);
    lemma_chosen(v.wals, p);
    let order = choose|order: Seq<usize>| #[trigger]
        is_commit_order(rows, order) && out == picked(rows, order);
    assert(is_commit_order(rows, order) && out == picked(rows, order));
    assert forall|k: int|
        0 <= k < v.wals.len() && (#[trigger] v.wals[k]).tenant_id == tenant
            && v.wals[k].partition_id == partition && v.wals[k].consumed_at is None
            && v.wals[k].commit_id_min.0 >= since.0 implies out.contains(v.wals[k]) by {
        assert(p(v.wals[k]));
        let j = choose|j: int| 0 <= j < rows.len() && rows[j] == v.wals[k];
        assert(lists(order, j));
        let i = choose|i: int| 0 <= i < order.len() && #[trigger] order[i] == j;
        assert(out[i] == v.wals[k]);
    }
    assert forall|i: int| 0 <= i < out.len() implies v.wals.contains(#[trigger] out[i])
        && out[i].tenant_id == tenant && out[i].partition_id == partition
        && out[i].consumed_at is None && out[i].commit_id_min.0 >= since.0 by {
        let j = order[i] as int;
        assert(out[i] == rows[j]);
        assert(p(rows[j]));
    }
    assert forall|i: int, j: int| 0 <= i < j < out.len() implies (#[trigger] out[i]).commit_id_min.0
        <= (#[trigger] out[j]).commit_id_min.0 by {
        assert(order[i] as int != order[j] as int || order[i] < order[j]);
    }
}

/// Consuming through a commit marks exactly the partition's unconsumed objects whose last
/// commit is not after it, with the time, and changes nothing else.
pub proof fn consuming_marks_what_was_compacted(
    wals: Seq<WalObjectRow>,
    tenant: TenantId,
    partition: PartitionId,
    through: CommitId,
    at: i64,
    i: int,
)
    requires
        0 <= i < wals.len(),
    ensures
        ({
            let before = wals[i];
            let after = consumed_wals(wals, tenant, partition, through, at)[i];
            &&& consumed_wals(wals, tenant, partition, through, at).len() == wals.len()
            &&& after == (WalObjectRow { consumed_at: after.consumed_at, ..before })
            &&& before.consumed_at is Some ==> after == before
            &&& before.consumed_at is None && before.tenant_id == tenant && before.partition_id
                == partition && before.commit_id_max.0 <= through.0 ==> after.consumed_at == Some(
                at,
            )
            &&& before.commit_id_max.0 > through.0 ==> after == before
            &&& before.tenant_id != tenant || before.partition_id != partition ==> after == before
        }),
{
}

/// Superseding marks exactly the tenant's active segments that are named, with the time, and
/// changes nothing else.
pub proof fn superseding_marks_what_is_named(
    segments: Seq<SegmentRowView>,
    tenant: TenantId,
    ids: Seq<u128>,
    at: i64,
    i: int,
)
    requires
        0 <= i < segments.len(),
    ensures
        ({
            let before = segments[i];
            let after = superseded_segments(segments, tenant, ids, at)[i];
            &&& superseded_segments(segments, tenant, ids, at).len() == segments.len()
            &&& after == (SegmentRowView { superseded_at: after.superseded_at, ..before })
            &&& before.superseded_at is Some ==> after == before
            &&& before.superseded_at is None && before.tenant_id == tenant && ids.contains(
                before.segment_id,
            ) ==> after.superseded_at == Some(at)
            &&& !ids.contains(before.segment_id) ==> after == before
            &&& before.tenant_id != tenant ==> after == before
        }),
{
}

/// How many of the first `n` log objects differ from before.
pub open spec fn changed_wals(before: Seq<WalObjectRow>, after: Seq<WalObjectRow>, n: nat) -> nat
    decreases n,
{
    if n == 0 {
        0
    } else {
        changed_wals(before, after, (n - 1) as nat) + if before[n - 1] != after[n - 1] {
            1nat
        } else {
            0
        }
    }
}

/// The number that consuming reports is the number of objects that it marked.
pub proof fn consumed_objects_are_counted(
    wals: Seq<WalObjectRow>,
    tenant: TenantId,
    partition: PartitionId,
    through: CommitId,
    at: i64,
)
    ensures
        tally(wals, |w: WalObjectRow| is_consumed_by(w, tenant, partition, through))
            == changed_wals(
            wals,
            consumed_wals(wals, tenant, partition, through, at),
            wals.len(),
        ),
{
    lemma_counted(wals, tenant, partition, through, at, wals.len());
    assert(wals.take(wals.len() as int) =~= wals);
}

proof fn lemma_counted(
    wals: Seq<WalObjectRow>,
    tenant: TenantId,
    partition: PartitionId,
    through: CommitId,
    at: i64,
    n: nat,
)
    requires
        n <= wals.len(),
    ensures
        tally(
            wals.take(n as int),
            |w: WalObjectRow| is_consumed_by(w, tenant, partition, through),
        ) == changed_wals(wals, consumed_wals(wals, tenant, partition, through, at), n),
    decreases n,
{
    if n > 0 {
        lemma_counted(wals, tenant, partition, through, at, (n - 1) as nat);
        assert(wals.take(n as int).drop_last() =~= wals.take(n - 1));
    }
}

/// How many of the first `n` segments differ from before.
pub open spec fn changed_segments(
    before: Seq<SegmentRowView>,
    after: Seq<SegmentRowView>,
    n: nat,
) -> nat
    decreases n,
{
    if n == 0 {
        0
    } else {
        changed_segments(before, after, (n - 1) as nat) + if before[n - 1] != after[n - 1] {
            1nat
        } else {
            0
        }
    }
}

/// The number that superseding reports is the number of segments that it marked.
pub proof fn superseded_segments_are_counted(
    segments: Seq<SegmentRowView>,
    tenant: TenantId,
    ids: Seq<u128>,
    at: i64,
)
    ensures
        tally(
            segments,
            |s: SegmentRowView| is_active(s, tenant) && ids.contains(s.segment_id),
        ) == changed_segments(
            segments,
            superseded_segments(segments, tenant, ids, at),
            segments.len(),
        ),
{
    lemma_superseded_counted(segments, tenant, ids, at, segments.len());
    assert(segments.take(segments.len() as int) =~= segments);
}

proof fn lemma_superseded_counted(
    segments: Seq<SegmentRowView>,
    tenant: TenantId,
    ids: Seq<u128>,
    at: i64,
    n: nat,
)
    requires
        n <= segments.len(),
    ensures
        tally(
            segments.take(n as int),
            |s: SegmentRowView| is_active(s, tenant) && ids.contains(s.segment_id),
        ) == changed_segments(segments, superseded_segments(segments, tenant, ids, at), n),
    decreases n,
{
    if n > 0 {
        lemma_superseded_counted(segments, tenant, ids, at, (n - 1) as nat);
        assert(segments.take(n as int).drop_last() =~= segments.take(n - 1));
    }
}

/// The first commit number of a partition is one.
pub proof fn commit_ids_begin_at_one(tenant: TenantId, partition: PartitionId)
    ensures
        next_of(blank_catalog(), slot(tenant, partition)) == 1,
{
}

/// After a node wrote its row, the list of nodes has that row, none of the node's older rows,
/// and every other node's row as it was.
pub proof fn node_rows_are_replaced(nodes: Seq<NodeRow>, row: NodeRow)
    ensures
        with_node(nodes, row).contains(row),
        forall|i: int|
            0 <= i < with_node(nodes, row).len() && (#[trigger] with_node(nodes, row)[i]).node_id
                == row.node_id ==> with_node(nodes, row)[i] == row,
        forall|i: int|
            0 <= i < nodes.len() && (#[trigger] nodes[i]).node_id != row.node_id ==> with_node(
                nodes,
                row,
            )[i] == nodes[i],
        forall|i: int|
            0 <= i < with_node(nodes, row).len() ==> #[trigger] with_node(nodes, row)[i] == row
                || nodes.contains(with_node(nodes, row)[i]),
        with_node(nodes, row).len() <= nodes.len() + 1,
{
    let out = with_node(nodes, row);
    if exists|i: int| 0 <= i < nodes.len() && (#[trigger] nodes[i]).node_id == row.node_id {
        let i = choose|i: int| 0 <= i < nodes.len() && (#[trigger] nodes[i]).node_id == row.node_id;
        assert(out[i] == row);
        assert forall|k: int| 0 <= k < out.len() implies #[trigger] out[k] == row || nodes.contains(
            out[k],
        ) by {
            if nodes[k].node_id != row.node_id {
                assert(out[k] == nodes[k]);
            }
        }
    } else {
        assert(out[nodes.len() as int] == row);
        assert forall|k: int| 0 <= k < out.len() implies #[trigger] out[k] == row || nodes.contains(
            out[k],
        ) by {
            if k < nodes.len() {
                assert(out[k] == nodes[k]);
            }
        }
        assert forall|k: int| 0 <= k < out.len() && (#[trigger] out[k]).node_id
            == row.node_id implies out[k] == row by {
            if k < nodes.len() {
                assert(nodes[k].node_id == row.node_id);
            }
        }
    }
}

/// A log object's bounds hold the time and the trace of each of its spans, and no narrower
/// bounds do. The bounds of no spans hold every time and every trace.
pub proof fn object_bounds_hold_their_spans(records: Seq<SpanRecord>, b: WalObjectBounds)
    requires
        bounds_of(records, b),
    ensures
        forall|i: int|
            0 <= i < records.len() ==> b.time_min <= (#[trigger] records[i]).start_time_ms
                <= b.time_max && lex_le(b.trace_id_min.0@, records[i].trace_id.0@) && lex_le(
                records[i].trace_id.0@,
                b.trace_id_max.0@,
            ),
        records.len() > 0 ==> forall|low: i64, high: i64|
            (forall|i: int|
                0 <= i < records.len() ==> low <= (#[trigger] records[i]).start_time_ms <= high)
                ==> #[trigger] at_most(low, b.time_min) && #[trigger] at_most(b.time_max, high),
        records.len() > 0 ==> forall|low: Seq<u8>|
            (forall|i: int|
                0 <= i < records.len() ==> lex_le(low, (#[trigger] records[i]).trace_id.0@))
                ==> #[trigger] lex_le(low, b.trace_id_min.0@),
        records.len() > 0 ==> forall|high: Seq<u8>|
            (forall|i: int|
                0 <= i < records.len() ==> lex_le((#[trigger] records[i]).trace_id.0@, high))
                ==> #[trigger] lex_le(b.trace_id_max.0@, high),
        records.len() == 0 ==> b.time_min == i64::MIN && b.time_max == i64::MAX,
        records.len() == 0 ==> (forall|i: int|
            0 <= i < 16 ==> #[trigger] b.trace_id_min.0@[i] == 0 && b.trace_id_max.0@[i] == 0xff),
{
}

} // verus!
