//! The steps of a compaction: lease, list, merge, build, publish.
//!
//! A compaction is driven from outside: each step says what to do next, and is told how
//! that went.
use crate::catalog::model::{SegmentRow, SegmentRowView, WalObjectRow};
use crate::common::errors::{ErrorView, ZenError};
use crate::common::types::{CommitId, PartitionId, TenantId};
use crate::cursor::string_views;
use crate::format::meta::SegmentMetadata;
use crate::outside::ids::{base32, ulid_to_string};
use crate::wire::{i64_of_pattern, low_u32, u64_to_i64};
use vstd::prelude::*;
use vstd::string::*;

verus! {

/// What a compaction did.
#[derive(Copy, Clone, Debug, PartialEq, Eq, Structural)]
pub struct CompactionStats {
    pub wal_objects_consumed: u32,
    pub rows_compacted: u64,
    pub segment_bytes: u64,
    pub elapsed_ms: u64,
}

/// A compaction that did nothing.
pub open spec fn no_stats() -> CompactionStats {
    CompactionStats {
        wal_objects_consumed: 0,
        rows_compacted: 0,
        segment_bytes: 0,
        elapsed_ms: 0,
    }
}

impl Default for CompactionStats {
    fn default() -> (r: Self)
        ensures
            r == no_stats(),
    {
        CompactionStats {
            wal_objects_consumed: 0,
            rows_compacted: 0,
            segment_bytes: 0,
            elapsed_ms: 0,
        }
    }
}

/// The object keys of the listed log objects.
pub open spec fn wal_keys(wals: Seq<WalObjectRow>) -> Seq<Seq<char>> {
    Seq::new(wals.len(), |i: int| wals[i].object_key@)
}

/// The highest commit that the log objects hold, or zero. The commit in an object's
/// header is its lowest, and too low to mark it consumed.
pub open spec fn consumed_through(wals: Seq<WalObjectRow>) -> CommitId
    decreases wals.len(),
{
    if wals.len() == 0 {
        CommitId(0)
    } else {
        let rest = consumed_through(wals.drop_last());
        let last = wals.last().commit_id_max;
        if last.0 > rest.0 { last } else { rest }
    }
}

/// Consuming up to that commit consumes every listed object.
pub proof fn consumed_through_covers(wals: Seq<WalObjectRow>, i: int)
    requires
        0 <= i < wals.len(),
    ensures
        wals[i].commit_id_max.0 <= consumed_through(wals).0,
    decreases wals.len(),
{
    if i < wals.len() - 1 {
        consumed_through_covers(wals.drop_last(), i);
    }
}

/// Objects are consumed through a commit that one of them holds, and through none where there
/// are none.
pub proof fn consumed_through_is_reached(wals: Seq<WalObjectRow>)
    ensures
        wals.len() == 0 ==> consumed_through(wals).0 == 0,
        wals.len() > 0 ==> exists|i: int|
            0 <= i < wals.len() && (#[trigger] wals[i]).commit_id_max == consumed_through(wals),
    decreases wals.len(),
{
    if wals.len() > 0 {
        let head = wals.drop_last();
        consumed_through_is_reached(head);
        let n = wals.len() - 1;
        if wals[n].commit_id_max == consumed_through(wals) {
        } else if head.len() > 0 {
            let i = choose|i: int|
                0 <= i < head.len() && (#[trigger] head[i]).commit_id_max == consumed_through(head);
            assert(wals[i].commit_id_max == consumed_through(wals));
        }
    }
}

fn keys_of(wals: &Vec<WalObjectRow>) -> (r: Vec<String>)
    ensures
        string_views(r@) == wal_keys(wals@),
{
    let mut out: Vec<String> = Vec::new();
    let mut i: usize = 0;
    while i < wals.len()
        invariant
            i <= wals@.len(),
            out@.len() == i,
            forall|k: int| 0 <= k < i ==> (#[trigger] out@[k])@ == wals@[k].object_key@,
        decreases wals.len() - i,
    {
        out.push(wals[i].object_key.clone());
        i = i + 1;
    }
    assert(string_views(out@) =~= wal_keys(wals@));
    out
}

fn through_of(wals: &Vec<WalObjectRow>) -> (r: CommitId)
    ensures
        r == consumed_through(wals@),
{
    let mut best = CommitId(0);
    let mut i: usize = 0;
    assert(wals@.take(0) =~= Seq::empty());
    while i < wals.len()
        invariant
            i <= wals@.len(),
            best == consumed_through(wals@.take(i as int)),
        decreases wals.len() - i,
    {
        assert(wals@.take(i + 1).drop_last() =~= wals@.take(i as int));
        if wals[i].commit_id_max.0 > best.0 {
            best = wals[i].commit_id_max;
        }
        i = i + 1;
    }
    assert(wals@.take(i as int) =~= wals@);
    best
}

/// Where a segment is stored.
pub open spec fn segment_key(tenant: TenantId, partition: PartitionId, segment_id: u128) -> Seq<
    char,
> {
    "segments/"@ + tenant.text() + "/"@ + partition.text() + "/"@ + base32(segment_id as nat, 26)
        + ".zseg"@
}

/// Where a segment is stored.
pub fn segment_object_key(
    tenant: TenantId,
    partition: PartitionId,
    segment_id: u128,
) -> (r: String)
    ensures
        r@ == segment_key(tenant, partition, segment_id),
{
    let mut s = String::from_str("segments/");
    s.append(tenant.to_string().as_str());
    s.append("/");
    s.append(partition.to_string().as_str());
    s.append("/");
    s.append(ulid_to_string(segment_id).as_str());
    s.append(".zseg");
    s
}

/// The catalog row of a new segment. Sizes have 64 bits.
pub fn new_segment_row(
    meta: &SegmentMetadata,
    tenant: TenantId,
    partition: PartitionId,
    level: i16,
    byte_count: usize,
    row_count: usize,
    rowgroup_index: Vec<u8>,
    now: i64,
) -> (r: SegmentRow)
    ensures
        r@ == (SegmentRowView {
            segment_id: meta.segment_id,
            tenant_id: tenant,
            partition_id: partition,
            object_key: segment_key(tenant, partition, meta.segment_id),
            level,
            byte_count: i64_of_pattern(byte_count as nat),
            row_count: i64_of_pattern(row_count as nat),
            time_min: meta.time_min_ms,
            time_max: meta.time_max_ms,
            trace_id_min: meta.trace_id_min,
            trace_id_max: meta.trace_id_max,
            commit_id_min: meta.commit_id_min,
            commit_id_max: meta.commit_id_max,
            schema_fingerprint: meta.schema_fingerprint,
            rowgroup_index: rowgroup_index@,
            superseded_at: None,
            created_at: now,
        }),
{
    SegmentRow {
        segment_id: meta.segment_id,
        tenant_id: tenant,
        partition_id: partition,
        object_key: segment_object_key(tenant, partition, meta.segment_id),
        level,
        byte_count: u64_to_i64(byte_count as u64),
        row_count: u64_to_i64(row_count as u64),
        time_min: meta.time_min_ms,
        time_max: meta.time_max_ms,
        trace_id_min: meta.trace_id_min,
        trace_id_max: meta.trace_id_max,
        commit_id_min: meta.commit_id_min,
        commit_id_max: meta.commit_id_max,
        schema_fingerprint: meta.schema_fingerprint,
        rowgroup_index,
        superseded_at: None,
        created_at: now,
    }
}

/// What to do next in a compaction.
pub enum Action {
    /// Take the compaction lease of the partition.
    AcquireLease { ttl_seconds: u64 },
    /// List the active segments of the partition.
    ListSegments { time_min: i64, time_max: i64 },
    /// List the log objects of the partition that are not consumed.
    ListWals { since: CommitId },
    /// Read these segments and log objects and merge their rows.
    ReadInputs { segment_keys: Vec<String>, wal_keys: Vec<String> },
    /// Build the segment and the index of its row groups.
    BuildSegment,
    /// Store the segment.
    Upload,
    /// Register the segment in the catalog at this level.
    Register { level: i16 },
    /// Mark these segments as superseded.
    Supersede { segment_ids: Vec<u128> },
    /// Mark the log objects up to this commit as consumed.
    MarkConsumed { through: CommitId },
    /// Give the lease back.
    Release,
    /// All is done.
    Finish(Result<CompactionStats, ZenError>),
}

/// The content of an action.
pub ghost enum ActionView {
    AcquireLease { ttl_seconds: u64 },
    ListSegments { time_min: i64, time_max: i64 },
    ListWals { since: CommitId },
    ReadInputs { segment_keys: Seq<Seq<char>>, wal_keys: Seq<Seq<char>> },
    BuildSegment,
    Upload,
    Register { level: i16 },
    Supersede { segment_ids: Seq<u128> },
    MarkConsumed { through: CommitId },
    Release,
    Success(CompactionStats),
    Failure(ErrorView),
}

impl Action {
    pub open spec fn view(&self) -> ActionView {
        match self {
            Action::AcquireLease { ttl_seconds } => ActionView::AcquireLease {
                ttl_seconds: *ttl_seconds,
            },
            Action::ListSegments { time_min, time_max } => ActionView::ListSegments {
                time_min: *time_min,
                time_max: *time_max,
            },
            Action::ListWals { since } => ActionView::ListWals { since: *since },
            Action::ReadInputs { segment_keys, wal_keys } => ActionView::ReadInputs {
                segment_keys: string_views(segment_keys@),
                wal_keys: string_views(wal_keys@),
            },
            Action::BuildSegment => ActionView::BuildSegment,
            Action::Upload => ActionView::Upload,
            Action::Register { level } => ActionView::Register { level: *level },
            Action::Supersede { segment_ids } => ActionView::Supersede {
                segment_ids: segment_ids@,
            },
            Action::MarkConsumed { through } => ActionView::MarkConsumed { through: *through },
            Action::Release => ActionView::Release,
            Action::Finish(Ok(s)) => ActionView::Success(*s),
            Action::Finish(Err(e)) => ActionView::Failure(e@),
        }
    }
}

/// How the last action went.
pub enum Event {
    /// It is done. The first event of a compaction, too.
    Done,
    /// The segments that were listed.
    Segments(Vec<SegmentRow>),
    /// The log objects that were listed.
    Wals(Vec<WalObjectRow>),
    /// The inputs were read; so many rows came of the log objects.
    Merged { rows: usize },
    /// The segment was built; so many bytes and rows.
    Built { bytes: usize, rows: usize },
    /// There were no rows to build a segment from.
    NothingBuilt,
    /// The lease was given back; so much time has passed since the start.
    Released { elapsed_ms: u64 },
    /// It failed.
    Failed(ZenError),
}

/// How far a compaction is.
#[derive(Copy, Clone, Debug, PartialEq, Eq, Structural)]
pub enum Stage {
    Idle,
    Acquiring,
    ListingSegments,
    ListingWals,
    Reading,
    Building,
    Uploading,
    Registering,
    Superseding,
    Consuming,
    Releasing,
    Finished,
}

impl Stage {
    /// The place of a stage in the order of a compaction.
    pub open spec fn rank(self) -> int {
        match self {
            Stage::Idle => 0,
            Stage::Acquiring => 1,
            Stage::ListingSegments => 2,
            Stage::ListingWals => 3,
            Stage::Reading => 4,
            Stage::Building => 5,
            Stage::Uploading => 6,
            Stage::Registering => 7,
            Stage::Superseding => 8,
            Stage::Consuming => 9,
            Stage::Releasing => 10,
            Stage::Finished => 11,
        }
    }
}

/// The event can follow in this stage.
pub open spec fn expects(stage: Stage, full: bool, ev: Event) -> bool {
    match stage {
        Stage::Idle => ev is Done,
        Stage::Acquiring | Stage::Uploading | Stage::Registering | Stage::Superseding
        | Stage::Consuming => ev is Done || ev is Failed,
        Stage::ListingSegments => ev is Segments || ev is Failed,
        Stage::ListingWals => ev is Wals || ev is Failed,
        Stage::Reading => ev is Merged || ev is Failed,
        Stage::Building => ev is Built || ev is Failed || (full && ev is NothingBuilt),
        Stage::Releasing => ev is Released,
        Stage::Finished => false,
    }
}

/// Compacts the log objects of a partition into one segment.
#[derive(Copy, Clone, Debug, PartialEq, Eq, Structural)]
pub struct PartitionCompaction {
    pub stage: Stage,
    pub wal_objects: u32,
    pub through: CommitId,
    pub rows: u64,
    pub bytes: u64,
}

impl PartitionCompaction {
    pub fn new() -> (r: Self)
        ensures
            r == (PartitionCompaction {
                stage: Stage::Idle,
                wal_objects: 0,
                through: CommitId(0),
                rows: 0,
                bytes: 0,
            }),
    {
        PartitionCompaction {
            stage: Stage::Idle,
            wal_objects: 0,
            through: CommitId(0),
            rows: 0,
            bytes: 0,
        }
    }

    /// What the compaction did, when nothing more is to be done. The time counts only if
    /// a segment was built.
    pub open spec fn stats_of(self, elapsed_ms: u64) -> CompactionStats {
        if self.rows == 0 {
            CompactionStats { wal_objects_consumed: self.wal_objects, ..no_stats() }
        } else {
            CompactionStats {
                wal_objects_consumed: self.wal_objects,
                rows_compacted: self.rows,
                segment_bytes: self.bytes,
                elapsed_ms,
            }
        }
    }

    /// The next state and action. A failure ends the compaction at once, and the lease
    /// runs out by itself; only a failure to mark objects consumed that held no rows is
    /// passed over.
    pub open spec fn next(self, ev: Event) -> (PartitionCompaction, ActionView) {
        match (self.stage, ev) {
            (Stage::Idle, _) => (
                PartitionCompaction { stage: Stage::Acquiring, ..self },
                ActionView::AcquireLease { ttl_seconds: 60 },
            ),
            (Stage::Acquiring, Event::Done) => (
                PartitionCompaction { stage: Stage::ListingWals, ..self },
                ActionView::ListWals { since: CommitId(0) },
            ),
            (Stage::ListingWals, Event::Wals(wals)) => if wals@.len() == 0 {
                (PartitionCompaction { stage: Stage::Releasing, ..self }, ActionView::Release)
            } else {
                (
                    PartitionCompaction {
                        stage: Stage::Reading,
                        wal_objects: (wals@.len() % 0x1_0000_0000) as u32,
                        through: consumed_through(wals@),
                        ..self
                    },
                    ActionView::ReadInputs {
                        segment_keys: Seq::empty(),
                        wal_keys: wal_keys(wals@),
                    },
                )
            },
            (Stage::Reading, Event::Merged { rows }) => if rows == 0 {
                (
                    PartitionCompaction { stage: Stage::Consuming, ..self },
                    ActionView::MarkConsumed { through: self.through },
                )
            } else {
                (
                    PartitionCompaction { stage: Stage::Building, rows: rows as u64, ..self },
                    ActionView::BuildSegment,
                )
            },
            (Stage::Building, Event::Built { bytes, rows }) => (
                PartitionCompaction { stage: Stage::Uploading, bytes: bytes as u64, ..self },
                ActionView::Upload,
            ),
            (Stage::Uploading, Event::Done) => (
                PartitionCompaction { stage: Stage::Registering, ..self },
                ActionView::Register { level: 0 },
            ),
            (Stage::Registering, Event::Done) => (
                PartitionCompaction { stage: Stage::Consuming, ..self },
                ActionView::MarkConsumed { through: self.through },
            ),
            (Stage::Consuming, Event::Done) => (
                PartitionCompaction { stage: Stage::Releasing, ..self },
                ActionView::Release,
            ),
            (Stage::Consuming, Event::Failed(e)) => if self.rows == 0 {
                (PartitionCompaction { stage: Stage::Releasing, ..self }, ActionView::Release)
            } else {
                (
                    PartitionCompaction { stage: Stage::Finished, ..self },
                    ActionView::Failure(e@),
                )
            },
            (Stage::Releasing, Event::Released { elapsed_ms }) => (
                PartitionCompaction { stage: Stage::Finished, ..self },
                ActionView::Success(self.stats_of(elapsed_ms)),
            ),
            (_, Event::Failed(e)) => (
                PartitionCompaction { stage: Stage::Finished, ..self },
                ActionView::Failure(e@),
            ),
            _ => (self, ActionView::Release),
        }
    }

    /// Takes note of how the last action went and says what to do next.
    pub fn step(&mut self, ev: Event) -> (r: Action)
        requires
            expects(old(self).stage, false, ev),
            old(self).stage != Stage::ListingSegments && old(self).stage != Stage::Superseding,
        ensures
            *final(self) == old(self).next(ev).0,
            r@ == old(self).next(ev).1,
    {
        match (self.stage, ev) {
            (Stage::Idle, _) => {
                self.stage = Stage::Acquiring;
                Action::AcquireLease { ttl_seconds: 60 }
            },
            (Stage::Acquiring, Event::Done) => {
                self.stage = Stage::ListingWals;
                Action::ListWals { since: CommitId(0) }
            },
            (Stage::ListingWals, Event::Wals(wals)) => {
                if wals.len() == 0 {
                    self.stage = Stage::Releasing;
                    return Action::Release;
                }
                self.stage = Stage::Reading;
                self.wal_objects = low_u32(wals.len());
                self.through = through_of(&wals);
                let none: Vec<String> = Vec::new();
                assert(string_views(none@) =~= Seq::empty());
                Action::ReadInputs { segment_keys: none, wal_keys: keys_of(&wals) }
            },
            (Stage::Reading, Event::Merged { rows }) => {
                if rows == 0 {
                    self.stage = Stage::Consuming;
                    return Action::MarkConsumed { through: self.through };
                }
                self.stage = Stage::Building;
                self.rows = rows as u64;
                Action::BuildSegment
            },
            (Stage::Building, Event::Built { bytes, rows }) => {
                self.stage = Stage::Uploading;
                self.bytes = bytes as u64;
                Action::Upload
            },
            (Stage::Uploading, Event::Done) => {
                self.stage = Stage::Registering;
                Action::Register { level: 0 }
            },
            (Stage::Registering, Event::Done) => {
                self.stage = Stage::Consuming;
                Action::MarkConsumed { through: self.through }
            },
            (Stage::Consuming, Event::Done) => {
                self.stage = Stage::Releasing;
                Action::Release
            },
            (Stage::Consuming, Event::Failed(e)) => {
                if self.rows == 0 {
                    self.stage = Stage::Releasing;
                    Action::Release
                } else {
                    self.stage = Stage::Finished;
                    Action::Finish(Err(e))
                }
            },
            (Stage::Releasing, Event::Released { elapsed_ms }) => {
                self.stage = Stage::Finished;
                let mut stats = CompactionStats::default();
                stats.wal_objects_consumed = self.wal_objects;
                if self.rows > 0 {
                    stats.rows_compacted = self.rows;
                    stats.segment_bytes = self.bytes;
                    stats.elapsed_ms = elapsed_ms;
                }
                Action::Finish(Ok(stats))
            },
            (_, Event::Failed(e)) => {
                self.stage = Stage::Finished;
                Action::Finish(Err(e))
            },
            _ => Action::Release,
        }
    }
}

/// Log objects are marked consumed only when they held no rows, or when the segment that
/// holds their rows is registered.
pub proof fn consumed_only_when_safe(m: PartitionCompaction, ev: Event)
    requires
        m.next(ev).1 is MarkConsumed,
    ensures
        (m.stage == Stage::Registering && ev is Done) || (m.stage == Stage::Reading && (ev matches Event::Merged {
            rows,
        } && rows == 0)),
{
}

/// A compaction succeeds only after it gave the lease back.
pub proof fn success_releases_the_lease(m: PartitionCompaction, ev: Event)
    requires
        m.next(ev).1 is Success,
    ensures
        m.stage == Stage::Releasing,
{
}

/// Every step of a compaction moves forward, so that it ends after a dozen at most.
pub proof fn compaction_moves_forward(m: PartitionCompaction, ev: Event)
    requires
        expects(m.stage, false, ev),
        m.stage != Stage::ListingSegments && m.stage != Stage::Superseding,
    ensures
        m.next(ev).0.stage.rank() > m.stage.rank(),
{
}

/// Compacts all segments and log objects of a partition into one segment.
pub struct FullCompaction {
    stage: Stage,
    segment_keys: Vec<String>,
    segment_ids: Vec<u128>,
    wal_objects: u32,
    has_wals: bool,
    through: CommitId,
    rows: u64,
    bytes: u64,
    built: bool,
}

/// The content of a full compaction.
#[verifier::ext_equal]
pub ghost struct FullView {
    pub stage: Stage,
    pub segment_keys: Seq<Seq<char>>,
    pub segment_ids: Seq<u128>,
    pub wal_objects: u32,
    pub has_wals: bool,
    pub through: CommitId,
    pub rows: u64,
    pub bytes: u64,
    /// A segment was built.
    pub built: bool,
}

/// The object keys of the listed segments.
pub open spec fn segment_keys(rows: Seq<SegmentRow>) -> Seq<Seq<char>> {
    Seq::new(rows.len(), |i: int| rows[i].object_key@)
}

/// The identifiers of the listed segments.
pub open spec fn segment_ids(rows: Seq<SegmentRow>) -> Seq<u128> {
    Seq::new(rows.len(), |i: int| rows[i].segment_id)
}

impl FullView {
    pub open spec fn stats_of(self, elapsed_ms: u64) -> CompactionStats {
        if self.built {
            CompactionStats {
                wal_objects_consumed: self.wal_objects,
                rows_compacted: self.rows,
                segment_bytes: self.bytes,
                elapsed_ms,
            }
        } else {
            no_stats()
        }
    }

    /// The next state and action. A failure ends the compaction at once, and the lease
    /// runs out by itself; only a failure to mark log objects consumed is passed over.
    pub open spec fn next(self, ev: Event) -> (FullView, ActionView) {
        match (self.stage, ev) {
            (Stage::Idle, _) => (
                FullView { stage: Stage::Acquiring, ..self },
                ActionView::AcquireLease { ttl_seconds: 120 },
            ),
            (Stage::Acquiring, Event::Done) => (
                FullView { stage: Stage::ListingSegments, ..self },
                ActionView::ListSegments { time_min: i64::MIN, time_max: i64::MAX },
            ),
            (Stage::ListingSegments, Event::Segments(rows)) => (
                FullView {
                    stage: Stage::ListingWals,
                    segment_keys: segment_keys(rows@),
                    segment_ids: segment_ids(rows@),
                    ..self
                },
                ActionView::ListWals { since: CommitId(0) },
            ),
            (Stage::ListingWals, Event::Wals(wals)) => if wals@.len() == 0
                && self.segment_keys.len() == 0 {
                (FullView { stage: Stage::Releasing, ..self }, ActionView::Release)
            } else {
                (
                    FullView {
                        stage: Stage::Reading,
                        wal_objects: (wals@.len() % 0x1_0000_0000) as u32,
                        has_wals: wals@.len() > 0,
                        through: consumed_through(wals@),
                        ..self
                    },
                    ActionView::ReadInputs {
                        segment_keys: self.segment_keys,
                        wal_keys: wal_keys(wals@),
                    },
                )
            },
            (Stage::Reading, Event::Merged { rows }) => (
                FullView { stage: Stage::Building, ..self },
                ActionView::BuildSegment,
            ),
            (Stage::Building, Event::Built { bytes, rows }) => (
                FullView {
                    stage: Stage::Uploading,
                    bytes: bytes as u64,
                    rows: rows as u64,
                    built: true,
                    ..self
                },
                ActionView::Upload,
            ),
            (Stage::Building, Event::NothingBuilt) => (
                FullView { stage: Stage::Releasing, ..self },
                ActionView::Release,
            ),
            (Stage::Uploading, Event::Done) => (
                FullView { stage: Stage::Registering, ..self },
                ActionView::Register { level: 1 },
            ),
            (Stage::Registering, Event::Done) => (
                FullView { stage: Stage::Superseding, ..self },
                ActionView::Supersede { segment_ids: self.segment_ids },
            ),
            (Stage::Superseding, Event::Done) => if self.has_wals {
                (
                    FullView { stage: Stage::Consuming, ..self },
                    ActionView::MarkConsumed { through: self.through },
                )
            } else {
                (FullView { stage: Stage::Releasing, ..self }, ActionView::Release)
            },
            (Stage::Consuming, _) => (
                FullView { stage: Stage::Releasing, ..self },
                ActionView::Release,
            ),
            (Stage::Releasing, Event::Released { elapsed_ms }) => (
                FullView { stage: Stage::Finished, ..self },
                ActionView::Success(self.stats_of(elapsed_ms)),
            ),
            (_, Event::Failed(e)) => (
                FullView { stage: Stage::Finished, ..self },
                ActionView::Failure(e@),
            ),
            _ => (self, ActionView::Release),
        }
    }
}

fn copy_keys(v: &Vec<String>) -> (r: Vec<String>)
    ensures
        string_views(r@) == string_views(v@),
{
    let mut out: Vec<String> = Vec::new();
    let mut i: usize = 0;
    while i < v.len()
        invariant
            i <= v@.len(),
            out@ == v@.take(i as int),
        decreases v.len() - i,
    {
        out.push(v[i].clone());
        i = i + 1;
        assert(out@ =~= v@.take(i as int));
    }
    assert(out@ =~= v@);
    out
}

impl FullCompaction {
    pub closed spec fn view(&self) -> FullView {
        FullView {
            stage: self.stage,
            segment_keys: string_views(self.segment_keys@),
            segment_ids: self.segment_ids@,
            wal_objects: self.wal_objects,
            has_wals: self.has_wals,
            through: self.through,
            rows: self.rows,
            bytes: self.bytes,
            built: self.built,
        }
    }

    pub fn new() -> (r: Self)
        ensures
            r@ == (FullView {
                stage: Stage::Idle,
                segment_keys: Seq::empty(),
                segment_ids: Seq::empty(),
                wal_objects: 0,
                has_wals: false,
                through: CommitId(0),
                rows: 0,
                bytes: 0,
                built: false,
            }),
    {
        let r = FullCompaction {
            stage: Stage::Idle,
            segment_keys: Vec::new(),
            segment_ids: Vec::new(),
            wal_objects: 0,
            has_wals: false,
            through: CommitId(0),
            rows: 0,
            bytes: 0,
            built: false,
        };
        assert(r@.segment_keys =~= Seq::empty());
        r
    }

    /// Takes note of how the last action went and says what to do next.
    pub fn step(&mut self, ev: Event) -> (r: Action)
        requires
            expects(old(self)@.stage, true, ev),
        ensures
            final(self)@ == old(self)@.next(ev).0,
            r@ == old(self)@.next(ev).1,
    {
        match (self.stage, ev) {
            (Stage::Idle, _) => {
                self.stage = Stage::Acquiring;
                Action::AcquireLease { ttl_seconds: 120 }
            },
            (Stage::Acquiring, Event::Done) => {
                self.stage = Stage::ListingSegments;
                Action::ListSegments { time_min: i64::MIN, time_max: i64::MAX }
            },
            (Stage::ListingSegments, Event::Segments(rows)) => {
                let mut keys: Vec<String> = Vec::new();
                let mut ids: Vec<u128> = Vec::new();
                let mut i: usize = 0;
                while i < rows.len()
                    invariant
                        i <= rows@.len(),
                        keys@.len() == i,
                        ids@.len() == i,
                        forall|k: int|
                            0 <= k < i ==> (#[trigger] keys@[k])@ == rows@[k].object_key@,
                        forall|k: int| 0 <= k < i ==> (#[trigger] ids@[k]) == rows@[k].segment_id,
                    decreases rows.len() - i,
                {
                    keys.push(rows[i].object_key.clone());
                    ids.push(rows[i].segment_id);
                    i = i + 1;
                }
                assert(string_views(keys@) =~= segment_keys(rows@));
                assert(ids@ =~= segment_ids(rows@));
                self.stage = Stage::ListingWals;
                self.segment_keys = keys;
                self.segment_ids = ids;
                Action::ListWals { since: CommitId(0) }
            },
            (Stage::ListingWals, Event::Wals(wals)) => {
                assert(string_views(self.segment_keys@).len() == self.segment_keys@.len());
                if wals.len() == 0 && self.segment_keys.len() == 0 {
                    self.stage = Stage::Releasing;
                    return Action::Release;
                }
                self.stage = Stage::Reading;
                self.wal_objects = low_u32(wals.len());
                self.has_wals = wals.len() > 0;
                self.through = through_of(&wals);
                Action::ReadInputs {
                    segment_keys: copy_keys(&self.segment_keys),
                    wal_keys: keys_of(&wals),
                }
            },
            (Stage::Reading, Event::Merged { rows }) => {
                self.stage = Stage::Building;
                Action::BuildSegment
            },
            (Stage::Building, Event::Built { bytes, rows }) => {
                self.stage = Stage::Uploading;
                self.bytes = bytes as u64;
                self.rows = rows as u64;
                self.built = true;
                Action::Upload
            },
            (Stage::Building, Event::NothingBuilt) => {
                self.stage = Stage::Releasing;
                Action::Release
            },
            (Stage::Uploading, Event::Done) => {
                self.stage = Stage::Registering;
                Action::Register { level: 1 }
            },
            (Stage::Registering, Event::Done) => {
                self.stage = Stage::Superseding;
                Action::Supersede {
                    segment_ids: vstd::slice::slice_to_vec(self.segment_ids.as_slice()),
                }
            },
            (Stage::Superseding, Event::Done) => {
                if self.has_wals {
                    self.stage = Stage::Consuming;
                    Action::MarkConsumed { through: self.through }
                } else {
                    self.stage = Stage::Releasing;
                    Action::Release
                }
            },
            (Stage::Consuming, _) => {
                self.stage = Stage::Releasing;
                Action::Release
            },
            (Stage::Releasing, Event::Released { elapsed_ms }) => {
                self.stage = Stage::Finished;
                let mut stats = CompactionStats::default();
                if self.built {
                    stats.wal_objects_consumed = self.wal_objects;
                    stats.rows_compacted = self.rows;
                    stats.segment_bytes = self.bytes;
                    stats.elapsed_ms = elapsed_ms;
                }
                Action::Finish(Ok(stats))
            },
            (_, Event::Failed(e)) => {
                self.stage = Stage::Finished;
                Action::Finish(Err(e))
            },
            _ => Action::Release,
        }
    }
}

/// The inputs of a full compaction are superseded only when the segment that replaces
/// them is registered, and log objects are marked consumed only after that.
pub proof fn inputs_retired_only_when_safe(m: FullView, ev: Event)
    ensures
        m.next(ev).1 is Supersede ==> m.stage == Stage::Registering && ev is Done,
        m.next(ev).1 is MarkConsumed ==> m.stage == Stage::Superseding && ev is Done,
        m.next(ev).1 is Success ==> m.stage == Stage::Releasing,
{
}

/// Every step of a full compaction moves forward.
pub proof fn full_compaction_moves_forward(m: FullView, ev: Event)
    requires
        expects(m.stage, true, ev),
    ensures
        m.next(ev).0.stage.rank() > m.stage.rank(),
{
}

} // verus!
