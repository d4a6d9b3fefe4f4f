//! Streams of rows: lists, segments read group by group, and the merge of several.
use crate::common::record::{record_spans, Span, SpanRecord};
use crate::compactor::decode::{columns_complete, decode_row_group_to_records, decoded_group};
use crate::compactor::key::{key_le, key_le_total, key_le_transitive, record_key_le};
use crate::format::reader::{SegmentReader, SegmentView};
use vstd::prelude::*;

verus! {

/// A stream of rows.
pub trait RowSource: Sized {
    spec fn wf(&self) -> bool;

    /// The rows to come.
    spec fn rest(&self) -> Seq<Span>;

    /// The next row, or nothing at the end.
    fn next(&mut self) -> (r: Option<SpanRecord>)
        requires
            old(self).wf(),
        ensures
            final(self).wf(),
            match r {
                Some(row) => {
                    &&& old(self).rest().len() > 0
                    &&& row@ == old(self).rest()[0]
                    &&& final(self).rest() == old(self).rest().drop_first()
                },
                None => old(self).rest().len() == 0 && final(self).rest().len() == 0,
            },
    ;
}

/// The rows of a list in order.
pub struct RowList {
    rows: Vec<SpanRecord>,
    at: usize,
}

impl RowList {
    pub fn new(rows: Vec<SpanRecord>) -> (r: Self)
        ensures
            r.wf(),
            r.rest() == record_spans(rows@),
    {
        let r = RowList { rows, at: 0 };
        assert(r.rest() =~= record_spans(rows@));
        r
    }
}

impl RowSource for RowList {
    closed spec fn wf(&self) -> bool {
        self.at <= self.rows@.len()
    }

    closed spec fn rest(&self) -> Seq<Span> {
        record_spans(self.rows@).skip(self.at as int)
    }

    fn next(&mut self) -> (r: Option<SpanRecord>) {
        if self.at < self.rows.len() {
            let row = self.rows[self.at].copy();
            let ghost before = self.rest();
            self.at = self.at + 1;
            assert(self.rest() =~= before.drop_first());
            Some(row)
        } else {
            None
        }
    }
}

/// The rows of the groups of a segment from `from` on, up to the first group that cannot
/// be read.
#[verifier::opaque]
pub open spec fn segment_rows(view: SegmentView, from: int) -> Seq<Span>
    decreases view.row_groups.len() - from,
{
    if from < 0 || from >= view.row_groups.len() {
        Seq::empty()
    } else {
        let n = view.row_groups[from].row_count as nat;
        if columns_complete(view, from, n) {
            decoded_group(view, from, n) + segment_rows(view, from + 1)
        } else {
            Seq::empty()
        }
    }
}

/// The rows of a segment. Holds one decoded row group at a time, so that memory is
/// bounded by the size of a group, not of the segment.
pub struct SegmentRowIter {
    reader: SegmentReader,
    next_group: usize,
    row_in_group: usize,
    current_rows: Vec<SpanRecord>,
}

impl SegmentRowIter {
    pub fn new(reader: SegmentReader) -> (r: Self)
        ensures
            r.wf(),
            r.rest() == segment_rows(reader@, 0),
    {
        let r = SegmentRowIter {
            reader,
            next_group: 0,
            row_in_group: 0,
            current_rows: Vec::new(),
        };
        assert(r.rest() =~= segment_rows(reader@, 0));
        r
    }

    /// Decodes the next row group; says whether there was one that could be read.
    fn load_next_rg(&mut self) -> (r: bool)
        requires
            old(self).wf(),
            old(self).row_in_group == old(self).current_rows@.len(),
        ensures
            final(self).wf(),
            final(self).reader@ == old(self).reader@,
            final(self).rest() == old(self).rest(),
            r ==> old(self).next_group < old(self).reader@.row_groups.len()
                && final(self).next_group == old(self).next_group + 1,
            !r ==> old(self).rest().len() == 0,
    {
        proof {
            reveal(segment_rows);
        }
        let ghost before = self.rest();
        let ghost view = self.reader@;
        let ghost from = self.next_group as int;
        assert(record_spans(self.current_rows@).skip(self.row_in_group as int) =~= Seq::empty());
        assert(before =~= segment_rows(view, from));
        if self.next_group >= self.reader.row_group_count() {
            return false;
        }
        let group: usize = self.next_group;
        let n: usize = self.reader.row_groups[group].row_count as usize;
        assert(view.row_groups[group as int] == self.reader.row_groups@[group as int]@);
        let mut rows: Vec<SpanRecord> = Vec::new();
        match decode_row_group_to_records(&self.reader, group, n, &mut rows) {
            Ok(()) => {
                proof {
                    assert(record_spans(rows@) =~= decoded_group(view, from, n as nat));
                    assert(record_spans(rows@).skip(0) =~= record_spans(rows@));
                }
                self.current_rows = rows;
                self.row_in_group = 0;
                self.next_group = group + 1;
                assert(self.rest() =~= before);
                true
            },
            Err(_) => {
                self.next_group = self.reader.row_group_count();
                assert(self.rest() =~= before);
                false
            },
        }
    }
}

impl RowSource for SegmentRowIter {
    closed spec fn wf(&self) -> bool {
        self.row_in_group <= self.current_rows@.len()
    }

    closed spec fn rest(&self) -> Seq<Span> {
        record_spans(self.current_rows@).skip(self.row_in_group as int) + segment_rows(
            self.reader@,
            self.next_group as int,
        )
    }

    fn next(&mut self) -> (r: Option<SpanRecord>) {
        let ghost whole = self.rest();
        while self.row_in_group >= self.current_rows.len()
            invariant
                self.wf(),
                self.rest() == whole,
                whole == old(self).rest(),
            decreases self.reader@.row_groups.len() - self.next_group,
        {
            if !self.load_next_rg() {
                return None;
            }
        }
        let row = self.current_rows[self.row_in_group].copy();
        self.row_in_group = self.row_in_group + 1;
        assert(self.rest() =~= whole.drop_first());
        assert(row@ == whole[0]);
        Some(row)
    }
}

/// A segment or a list.
pub enum Source {
    Segment(SegmentRowIter),
    Rows(RowList),
}

impl RowSource for Source {
    open spec fn wf(&self) -> bool {
        match self {
            Source::Segment(s) => s.wf(),
            Source::Rows(s) => s.wf(),
        }
    }

    open spec fn rest(&self) -> Seq<Span> {
        match self {
            Source::Segment(s) => s.rest(),
            Source::Rows(s) => s.rest(),
        }
    }

    fn next(&mut self) -> (r: Option<SpanRecord>) {
        match self {
            Source::Segment(s) => s.next(),
            Source::Rows(s) => s.next(),
        }
    }
}

/// Among the first `n` queues, the first one whose head no other head precedes.
pub open spec fn least(queues: Seq<Seq<Span>>, n: nat) -> Option<int>
    decreases n,
{
    if n == 0 {
        None
    } else {
        let best = least(queues, (n - 1) as nat);
        if queues[n - 1].len() == 0 {
            best
        } else {
            match best {
                None => Some(n - 1),
                Some(i) => if key_le(queues[i][0], queues[n - 1][0]) {
                    Some(i)
                } else {
                    Some(n - 1)
                },
            }
        }
    }
}

/// How many rows the queues hold.
pub open spec fn queued(queues: Seq<Seq<Span>>) -> nat
    decreases queues.len(),
{
    if queues.len() == 0 {
        0
    } else {
        queued(queues.drop_last()) + queues.last().len()
    }
}

/// The queues without the head of queue `i`.
pub open spec fn popped(queues: Seq<Seq<Span>>, i: int) -> Seq<Seq<Span>> {
    queues.update(i, queues[i].drop_first())
}

pub proof fn lemma_least(queues: Seq<Seq<Span>>, n: nat)
    requires
        n <= queues.len(),
    ensures
        match least(queues, n) {
            Some(i) => {
                &&& 0 <= i < n
                &&& queues[i].len() > 0
                &&& forall|k: int|
                    0 <= k < n && (#[trigger] queues[k]).len() > 0 ==> key_le(
                        queues[i][0],
                        queues[k][0],
                    )
            },
            None => forall|k: int| 0 <= k < n ==> (#[trigger] queues[k]).len() == 0,
        },
    decreases n,
{
    if n > 0 {
        lemma_least(queues, (n - 1) as nat);
        let last = queues[n - 1];
        if last.len() > 0 {
            key_le_total(last[0], last[0]);
            if let Some(i) = least(queues, (n - 1) as nat) {
                key_le_total(queues[i][0], last[0]);
                if !key_le(queues[i][0], last[0]) {
                    assert forall|k: int|
                        0 <= k < n && (#[trigger] queues[k]).len() > 0 implies key_le(
                        last[0],
                        queues[k][0],
                    ) by {
                        if k < n - 1 {
                            key_le_transitive(last[0], queues[i][0], queues[k][0]);
                        }
                    }
                }
            }
        }
    }
}

pub proof fn lemma_queued_popped(queues: Seq<Seq<Span>>, i: int)
    requires
        0 <= i < queues.len(),
        queues[i].len() > 0,
    ensures
        queued(popped(queues, i)) + 1 == queued(queues),
    decreases queues.len(),
{
    let p = popped(queues, i);
    if i == queues.len() - 1 {
        assert(p.drop_last() =~= queues.drop_last());
    } else {
        lemma_queued_popped(queues.drop_last(), i);
        assert(p.drop_last() =~= popped(queues.drop_last(), i));
    }
}

/// The merge of sorted queues: always the least head, of equal ones the first queue's.
pub open spec fn k_merge(queues: Seq<Seq<Span>>) -> Seq<Span>
    decreases queued(queues),
{
    match least(queues, queues.len()) {
        None => Seq::empty(),
        Some(i) => {
            proof {
                lemma_least(queues, queues.len());
                lemma_queued_popped(queues, i);
            }
            seq![queues[i][0]] + k_merge(popped(queues, i))
        },
    }
}

/// Merges several streams in the order of segments.
pub struct KWayMerge<S: RowSource> {
    sources: Vec<S>,
    heads: Vec<Option<SpanRecord>>,
}

/// A head that was drawn, before what is still to come.
pub open spec fn with_head(head: Option<SpanRecord>, rest: Seq<Span>) -> Seq<Span> {
    match head {
        Some(r) => seq![r@] + rest,
        None => rest,
    }
}

impl<S: RowSource> KWayMerge<S> {
    /// What is still to come from each source.
    pub closed spec fn queues(&self) -> Seq<Seq<Span>> {
        Seq::new(
            self.sources@.len(),
            |k: int| with_head(self.heads@[k], self.sources@[k].rest()),
        )
    }

    pub fn new(sources: Vec<S>) -> (r: Self)
        requires
            forall|k: int| 0 <= k < sources@.len() ==> (#[trigger] sources@[k]).wf(),
        ensures
            r.wf(),
            r.queues() == Seq::new(sources@.len(), |k: int| sources@[k].rest()),
            r.rest() == k_merge(r.queues()),
    {
        let ghost rests = Seq::new(sources@.len(), |k: int| sources@[k].rest());
        let mut sources = sources;
        let mut heads: Vec<Option<SpanRecord>> = Vec::new();
        let mut i: usize = 0;
        while i < sources.len()
            invariant
                i <= sources@.len(),
                heads@.len() == i,
                sources@.len() == rests.len(),
                forall|k: int| 0 <= k < sources@.len() ==> (#[trigger] sources@[k]).wf(),
                forall|k: int|
                    0 <= k < i ==> with_head(#[trigger] heads@[k], sources@[k].rest()) == rests[k]
                        && (heads@[k] is None ==> rests[k].len() == 0),
                forall|k: int|
                    i <= k < sources@.len() ==> (#[trigger] sources@[k]).rest() == rests[k],
            decreases sources.len() - i,
        {
            let ghost before = sources@;
            assert(sources@[i as int].rest() == rests[i as int]);
            let head = sources[i].next();
            heads.push(head);
            proof {
                assert(with_head(heads@[i as int], sources@[i as int].rest()) =~= rests[i as int]);
                assert forall|k: int| 0 <= k < sources@.len() && k != i implies (
                #[trigger] sources@[k]) == before[k] by {}
            }
            i = i + 1;
        }
        let r = KWayMerge { sources, heads };
        assert(r.queues() =~= rests);
        r
    }

    /// Which source has the least head.
    fn pick(&self) -> (r: Option<usize>)
        requires
            self.wf(),
        ensures
            match least(self.queues(), self.queues().len()) {
                Some(i) => r matches Some(k) && k == i,
                None => r is None,
            },
    {
        let ghost queues = self.queues();
        let mut best: Option<usize> = None;
        let mut i: usize = 0;
        while i < self.heads.len()
            invariant
                i <= self.heads@.len(),
                self.wf(),
                queues == self.queues(),
                match least(queues, i as nat) {
                    Some(b) => best matches Some(k) && k == b && k < i && self.heads@[b] is Some,
                    None => best is None,
                },
            decreases self.heads.len() - i,
        {
            assert(queues[i as int] == with_head(
                self.heads@[i as int],
                self.sources@[i as int].rest(),
            ));
            match &self.heads[i] {
                Some(row) => {
                    match best {
                        None => {
                            best = Some(i);
                        },
                        Some(b) => {
                            assert(queues[b as int] == with_head(
                                self.heads@[b as int],
                                self.sources@[b as int].rest(),
                            ));
                            match &self.heads[b] {
                                Some(held) => {
                                    if !record_key_le(held, row) {
                                        best = Some(i);
                                    }
                                },
                                None => {},
                            }
                        },
                    }
                },
                None => {},
            }
            i = i + 1;
        }
        best
    }
}

impl<S: RowSource> RowSource for KWayMerge<S> {
    closed spec fn wf(&self) -> bool {
        &&& self.heads@.len() == self.sources@.len()
        &&& forall|k: int| 0 <= k < self.sources@.len() ==> (#[trigger] self.sources@[k]).wf()
        &&& forall|k: int|
            0 <= k < self.heads@.len() ==> ((#[trigger] self.heads@[k]) is None
                ==> self.sources@[k].rest().len() == 0)
    }

    open spec fn rest(&self) -> Seq<Span> {
        k_merge(self.queues())
    }

    fn next(&mut self) -> (r: Option<SpanRecord>) {
        let ghost queues = self.queues();
        proof {
            lemma_least(queues, queues.len());
        }
        match self.pick() {
            None => None,
            Some(k) => {
                assert(queues[k as int] == with_head(
                    self.heads@[k as int],
                    self.sources@[k as int].rest(),
                ));
                let ghost heads0 = self.heads@;
                let ghost sources0 = self.sources@;
                let mut head = self.sources[k].next();
                std::mem::swap(&mut self.heads[k], &mut head);
                proof {
                    assert forall|j: int| 0 <= j < queues.len() implies (#[trigger] self.queues()[j])
                        == popped(queues, k as int)[j] by {
                        if j == k {
                            assert(queues[j] =~= seq![heads0[j]->0@] + sources0[j].rest());
                            assert(self.queues()[j] =~= queues[j].drop_first());
                        } else {
                            assert(self.heads@[j] == heads0[j]);
                            assert(self.sources@[j] == sources0[j]);
                        }
                    }
                    assert(self.queues() =~= popped(queues, k as int));
                    assert(k_merge(queues).drop_first() =~= k_merge(popped(queues, k as int)));
                }
                head
            },
        }
    }
}

} // verus!
