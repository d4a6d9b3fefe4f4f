//! Whole compactions, from the first step to the last.
use crate::catalog::model::{SegmentRow, WalObjectRow};
use crate::common::types::CommitId;
use crate::compactor::runner::{
    consumed_through, consumed_through_covers, ActionView, CompactionStats, Event, FullView,
    PartitionCompaction, Stage,
};
use vstd::prelude::*;

verus! {

/// The keys are those of the log objects, in order.
pub open spec fn are_wal_keys(wals: Seq<WalObjectRow>, keys: Seq<Seq<char>>) -> bool {
    &&& keys.len() == wals.len()
    &&& forall|i: int| 0 <= i < wals.len() ==> #[trigger] keys[i] == wals[i].object_key@
}

/// `c` is the highest commit of the log objects.
pub open spec fn is_last_commit(wals: Seq<WalObjectRow>, c: CommitId) -> bool {
    &&& forall|i: int| 0 <= i < wals.len() ==> (#[trigger] wals[i]).commit_id_max.0 <= c.0
    &&& exists|i: int| 0 <= i < wals.len() && (#[trigger] wals[i]).commit_id_max == c
}

proof fn lemma_last_commit(wals: Seq<WalObjectRow>)
    requires
        wals.len() > 0,
    ensures
        is_last_commit(wals, consumed_through(wals)),
    decreases wals.len(),
{
    assert forall|i: int| 0 <= i < wals.len() implies (#[trigger] wals[i]).commit_id_max.0
        <= consumed_through(wals).0 by {
        consumed_through_covers(wals, i);
    }
    let head = wals.drop_last();
    if head.len() > 0 {
        lemma_last_commit(head);
        let i = choose|i: int|
            0 <= i < head.len() && (#[trigger] head[i]).commit_id_max == consumed_through(head);
        assert(wals[i].commit_id_max == consumed_through(head));
    }
    let n = wals.len() - 1;
    assert(wals[n] == wals.last());
    if wals.last().commit_id_max.0 == 0 && head.len() == 0 {
        assert(wals[n].commit_id_max == consumed_through(wals));
    }
}

/// A compaction at its start.
pub open spec fn fresh_compaction() -> PartitionCompaction {
    PartitionCompaction {
        stage: Stage::Idle,
        wal_objects: 0,
        through: CommitId(0),
        rows: 0,
        bytes: 0,
    }
}

/// A compaction of a partition takes the lease, lists the log from its beginning, reads every
/// object that is listed, builds and stores a segment, registers it at the lowest level, marks
/// the log consumed through the highest commit it read, gives the lease back, and reports what
/// it did.
pub proof fn partitions_are_compacted(
    start: Event,
    held: Event,
    wals: Vec<WalObjectRow>,
    rows: usize,
    bytes: usize,
    built_rows: usize,
    stored: Event,
    registered: Event,
    consumed: Event,
    elapsed_ms: u64,
)
    requires
        start is Done,
        held is Done,
        stored is Done,
        registered is Done,
        consumed is Done,
        0 < wals@.len() <= u32::MAX,
        rows > 0,
    ensures
        ({
            let s1 = fresh_compaction().next(start);
            let s2 = s1.0.next(held);
            let s3 = s2.0.next(Event::Wals(wals));
            let s4 = s3.0.next(Event::Merged { rows });
            let s5 = s4.0.next(Event::Built { bytes, rows: built_rows });
            let s6 = s5.0.next(stored);
            let s7 = s6.0.next(registered);
            let s8 = s7.0.next(consumed);
            let s9 = s8.0.next(Event::Released { elapsed_ms });
            &&& s1.1 == (ActionView::AcquireLease { ttl_seconds: 60 })
            &&& s2.1 == (ActionView::ListWals { since: CommitId(0) })
            &&& s3.1 matches ActionView::ReadInputs { segment_keys, wal_keys }
            &&& segment_keys.len() == 0 && are_wal_keys(wals@, wal_keys)
            &&& s4.1 == ActionView::BuildSegment
            &&& s5.1 == ActionView::Upload
            &&& s6.1 == (ActionView::Register { level: 0 })
            &&& s7.1 matches ActionView::MarkConsumed { through }
            &&& is_last_commit(wals@, through)
            &&& s8.1 == ActionView::Release
            &&& s9.1 == ActionView::Success(
                CompactionStats {
                    wal_objects_consumed: wals@.len() as u32,
                    rows_compacted: rows as u64,
                    segment_bytes: bytes as u64,
                    elapsed_ms,
                },
            )
            &&& s9.0.stage == Stage::Finished
        }),
{
    lemma_last_commit(wals@);
}

/// A compaction that finds no log objects gives the lease back and reports nothing; one whose
/// log objects hold no rows marks them consumed through their highest commit and builds
/// nothing.
pub proof fn idle_partitions_are_left_alone(
    start: Event,
    held: Event,
    none: Vec<WalObjectRow>,
    wals: Vec<WalObjectRow>,
    consumed: Event,
    elapsed_ms: u64,
)
    requires
        start is Done,
        held is Done,
        consumed is Done || consumed is Failed,
        none@.len() == 0,
        0 < wals@.len() <= u32::MAX,
    ensures
        ({
            let s2 = fresh_compaction().next(start).0.next(held);
            let a3 = s2.0.next(Event::Wals(none));
            let a4 = a3.0.next(Event::Released { elapsed_ms });
            let b3 = s2.0.next(Event::Wals(wals));
            let b4 = b3.0.next(Event::Merged { rows: 0 });
            let b5 = b4.0.next(consumed);
            let b6 = b5.0.next(Event::Released { elapsed_ms });
            &&& a3.1 == ActionView::Release
            &&& a4.1 == ActionView::Success(
                CompactionStats {
                    wal_objects_consumed: 0,
                    rows_compacted: 0,
                    segment_bytes: 0,
                    elapsed_ms: 0,
                },
            )
            &&& b4.1 matches ActionView::MarkConsumed { through }
            &&& is_last_commit(wals@, through)
            &&& b5.1 == ActionView::Release
            &&& b6.1 == ActionView::Success(
                CompactionStats {
                    wal_objects_consumed: wals@.len() as u32,
                    rows_compacted: 0,
                    segment_bytes: 0,
                    elapsed_ms: 0,
                },
            )
        }),
{
    lemma_last_commit(wals@);
}

/// A failure of any step but the last ones ends the compaction with that failure. So does one
/// to mark objects consumed whose rows were compacted.
pub proof fn failures_end_a_compaction(m: PartitionCompaction, ev: Event)
    requires
        ev is Failed,
        m.stage != Stage::Idle,
        m.stage == Stage::Consuming ==> m.rows > 0,
    ensures
        m.next(ev).0.stage == Stage::Finished,
        ev matches Event::Failed(e) && m.next(ev).1 == ActionView::Failure(e@),
{
}

/// A full compaction at its start.
pub open spec fn fresh_full() -> FullView {
    FullView {
        stage: Stage::Idle,
        segment_keys: Seq::empty(),
        segment_ids: Seq::empty(),
        wal_objects: 0,
        has_wals: false,
        through: CommitId(0),
        rows: 0,
        bytes: 0,
        built: false,
    }
}

/// The keys are those of the segments, in order.
pub open spec fn are_segment_keys(segments: Seq<SegmentRow>, keys: Seq<Seq<char>>) -> bool {
    &&& keys.len() == segments.len()
    &&& forall|i: int| 0 <= i < segments.len() ==> #[trigger] keys[i] == segments[i].object_key@
}

/// The identifiers are those of the segments, in order.
pub open spec fn are_segment_ids(segments: Seq<SegmentRow>, ids: Seq<u128>) -> bool {
    &&& ids.len() == segments.len()
    &&& forall|i: int| 0 <= i < segments.len() ==> #[trigger] ids[i] == segments[i].segment_id
}

/// A full compaction takes the lease, lists all segments and the whole log, reads every one of
/// them, builds and stores one segment, registers it one level up, supersedes every segment it
/// read and no other, marks the log consumed through the highest commit it read where there
/// was any, gives the lease back, and reports what it did.
pub proof fn partitions_are_fully_compacted(
    start: Event,
    held: Event,
    segments: Vec<SegmentRow>,
    wals: Vec<WalObjectRow>,
    merged: usize,
    bytes: usize,
    rows: usize,
    stored: Event,
    registered: Event,
    superseded: Event,
    consumed: Event,
    elapsed_ms: u64,
)
    requires
        start is Done,
        held is Done,
        stored is Done,
        registered is Done,
        superseded is Done,
        consumed is Done || consumed is Failed,
        segments@.len() > 0 || wals@.len() > 0,
        wals@.len() <= u32::MAX,
    ensures
        ({
            let s1 = fresh_full().next(start);
            let s2 = s1.0.next(held);
            let s3 = s2.0.next(Event::Segments(segments));
            let s4 = s3.0.next(Event::Wals(wals));
            let s5 = s4.0.next(Event::Merged { rows: merged });
            let s6 = s5.0.next(Event::Built { bytes, rows });
            let s7 = s6.0.next(stored);
            let s8 = s7.0.next(registered);
            let s9 = s8.0.next(superseded);
            let s10 = if wals@.len() > 0 {
                s9.0.next(consumed)
            } else {
                s9
            };
            let s11 = s10.0.next(Event::Released { elapsed_ms });
            &&& s1.1 == (ActionView::AcquireLease { ttl_seconds: 120 })
            &&& s2.1 == (ActionView::ListSegments { time_min: i64::MIN, time_max: i64::MAX })
            &&& s3.1 == (ActionView::ListWals { since: CommitId(0) })
            &&& s4.1 matches ActionView::ReadInputs { segment_keys, wal_keys }
            &&& are_segment_keys(segments@, segment_keys) && are_wal_keys(wals@, wal_keys)
            &&& s5.1 == ActionView::BuildSegment
            &&& s6.1 == ActionView::Upload
            &&& s7.1 == (ActionView::Register { level: 1 })
            &&& s8.1 matches ActionView::Supersede { segment_ids }
            &&& are_segment_ids(segments@, segment_ids)
            &&& wals@.len() > 0 ==> (s9.1 matches ActionView::MarkConsumed { through }
                && is_last_commit(wals@, through))
            &&& s10.1 == ActionView::Release
            &&& s11.1 == ActionView::Success(
                CompactionStats {
                    wal_objects_consumed: wals@.len() as u32,
                    rows_compacted: rows as u64,
                    segment_bytes: bytes as u64,
                    elapsed_ms,
                },
            )
            &&& s11.0.stage == Stage::Finished
        }),
{
    if wals@.len() > 0 {
        lemma_last_commit(wals@);
    }
}

/// A full compaction of which nothing came, or that found nothing, supersedes and consumes
/// nothing and reports nothing.
pub proof fn full_compaction_of_nothing(
    start: Event,
    held: Event,
    segments: Vec<SegmentRow>,
    wals: Vec<WalObjectRow>,
    merged: usize,
    empty: Event,
    elapsed_ms: u64,
)
    requires
        start is Done,
        held is Done,
        empty is NothingBuilt,
    ensures
        ({
            let s4 = fresh_full().next(start).0.next(held).0.next(Event::Segments(segments)).0.next(
                Event::Wals(wals),
            );
            let s6 = if segments@.len() == 0 && wals@.len() == 0 {
                s4
            } else {
                s4.0.next(Event::Merged { rows: merged }).0.next(empty)
            };
            &&& s6.1 == ActionView::Release
            &&& s6.0.next(Event::Released { elapsed_ms }).1 == ActionView::Success(
                CompactionStats {
                    wal_objects_consumed: 0,
                    rows_compacted: 0,
                    segment_bytes: 0,
                    elapsed_ms: 0,
                },
            )
        }),
{
}

/// A failure of any step but marking the log consumed ends a full compaction with that
/// failure.
pub proof fn failures_end_a_full_compaction(m: FullView, ev: Event)
    requires
        ev is Failed,
        m.stage != Stage::Idle,
        m.stage != Stage::Consuming,
    ensures
        m.next(ev).0.stage == Stage::Finished,
        ev matches Event::Failed(e) && m.next(ev).1 == ActionView::Failure(e@),
{
}

} // verus!
