//! Cutting sorted rows into row groups.
//!
//! A group ends between two traces, so that the spans of a trace lie in one group, unless
//! one trace alone has more rows than a group may hold.
use crate::common::record::{record_spans, Span, SpanRecord};
use crate::order::bytes_eq;
use vstd::prelude::*;

verus! {

/// The rows at `end - 1` and `end` belong to one trace.
pub open spec fn splits_trace(rows: Seq<Span>, end: int) -> bool {
    0 < end < rows.len() && rows[end - 1].trace_id == rows[end].trace_id
}

/// The last place at or before `end`, but not before `start`, that splits no trace.
pub open spec fn back_off(rows: Seq<Span>, start: int, end: int) -> int
    decreases end - start,
{
    if end > start && splits_trace(rows, end) {
        back_off(rows, start, end - 1)
    } else {
        end
    }
}

/// Where a group of at most `max` rows that begins at `start` ends.
pub open spec fn group_end(rows: Seq<Span>, start: int, max: nat) -> int {
    let full = if start + max < rows.len() { start + max } else { rows.len() as int };
    let cut = back_off(rows, start, full);
    if cut == start {
        full
    } else {
        cut
    }
}

/// The ends of the groups from `start` on.
pub open spec fn group_ends(rows: Seq<Span>, start: int, max: nat) -> Seq<int>
    decreases rows.len() - start,
{
    if start >= rows.len() || max == 0 {
        Seq::empty()
    } else {
        let end = group_end(rows, start, max);
        if end <= start || end > rows.len() {
            Seq::empty()
        } else {
            seq![end] + group_ends(rows, end, max)
        }
    }
}

/// The rows of each group.
pub open spec fn groups_of(rows: Seq<Span>, start: int, ends: Seq<int>) -> Seq<Seq<Span>>
    decreases ends.len(),
{
    if ends.len() == 0 {
        Seq::empty()
    } else {
        seq![rows.subrange(start, ends[0])] + groups_of(rows, ends[0], ends.drop_first())
    }
}

/// The row groups of a sorted list of rows.
pub open spec fn row_groups(rows: Seq<Span>, max: nat) -> Seq<Seq<Span>> {
    groups_of(rows, 0, group_ends(rows, 0, max))
}

pub proof fn lemma_back_off(rows: Seq<Span>, start: int, end: int)
    requires
        start <= end,
    ensures
        start <= back_off(rows, start, end) <= end,
        back_off(rows, start, end) > start ==> !splits_trace(rows, back_off(rows, start, end)),
        forall|k: int| back_off(rows, start, end) < k <= end ==> splits_trace(rows, k),
    decreases end - start,
{
    if end > start && splits_trace(rows, end) {
        lemma_back_off(rows, start, end - 1);
    }
}

/// A group is not empty, not larger than allowed and within the rows.
pub proof fn lemma_group_end(rows: Seq<Span>, start: int, max: nat)
    requires
        0 <= start < rows.len(),
        max > 0,
    ensures
        start < group_end(rows, start, max) <= rows.len(),
        group_end(rows, start, max) <= start + max,
{
    let full = if start + max < rows.len() { start + max } else { rows.len() as int };
    lemma_back_off(rows, start, full);
}

/// Where the group of at most `max_rows` rows that begins at `start` ends.
pub fn row_group_end(rows: &[SpanRecord], start: usize, max_rows: u32) -> (r: usize)
    requires
        start < rows@.len(),
        max_rows > 0,
    ensures
        r == group_end(record_spans(rows@), start as int, max_rows as nat),
        start < r <= rows@.len(),
        r - start <= max_rows,
{
    let ghost spans = record_spans(rows@);
    proof {
        lemma_group_end(spans, start as int, max_rows as nat);
    }
    let left: usize = rows.len() - start;
    let full: usize = if (max_rows as u64) < left as u64 {
        start + max_rows as usize
    } else {
        rows.len()
    };
    let mut end: usize = full;
    while end > start && end < rows.len() && bytes_eq(
        rows[end - 1].trace_id.0.as_slice(),
        rows[end].trace_id.0.as_slice(),
    )
        invariant
            start <= end <= full <= rows.len(),
            spans == record_spans(rows@),
            back_off(spans, start as int, full as int) == back_off(
                spans,
                start as int,
                end as int,
            ),
        decreases end,
    {
        end = end - 1;
    }
    if end == start {
        full
    } else {
        end
    }
}

/// The ranges of the row groups of a sorted list of rows.
pub fn row_group_ranges(rows: &[SpanRecord], max_rows: u32) -> (r: Vec<(usize, usize)>)
    requires
        max_rows > 0,
    ensures
        r@.len() == row_groups(record_spans(rows@), max_rows as nat).len(),
        forall|k: int|
            0 <= k < r@.len() ==> (#[trigger] r@[k]).0 < r@[k].1 <= rows@.len() && row_groups(
                record_spans(rows@),
                max_rows as nat,
            )[k] == record_spans(rows@).subrange(r@[k].0 as int, r@[k].1 as int),
{
    let ghost spans = record_spans(rows@);
    let ghost all = row_groups(spans, max_rows as nat);
    let mut out: Vec<(usize, usize)> = Vec::new();
    let mut start: usize = 0;
    let ghost mut rest = all;
    while start < rows.len()
        invariant
            start <= rows.len(),
            max_rows > 0,
            spans == record_spans(rows@),
            all == row_groups(spans, max_rows as nat),
            rest == groups_of(
                spans,
                start as int,
                group_ends(spans, start as int, max_rows as nat),
            ),
            all.len() == out@.len() + rest.len(),
            rest == all.skip(out@.len() as int),
            forall|k: int|
                0 <= k < out@.len() ==> (#[trigger] out@[k]).0 < out@[k].1 <= rows@.len() && all[k]
                    == spans.subrange(out@[k].0 as int, out@[k].1 as int),
        decreases rows.len() - start,
    {
        let end = row_group_end(rows, start, max_rows);
        proof {
            let ends = group_ends(spans, start as int, max_rows as nat);
            let tail = group_ends(spans, end as int, max_rows as nat);
            assert(ends =~= seq![end as int] + tail);
            assert(ends.drop_first() =~= tail);
            let next = groups_of(spans, end as int, tail);
            assert(rest =~= seq![spans.subrange(start as int, end as int)] + next);
            assert(rest[0] == all[out@.len() as int]);
            assert(next =~= rest.drop_first());
            assert(rest.drop_first() =~= all.skip(out@.len() as int + 1));
            rest = next;
        }
        out.push((start, end));
        start = end;
    }
    assert(group_ends(spans, start as int, max_rows as nat) =~= Seq::empty());
    out
}

/// The rows from `a` up to `b` are all rows of one trace.
pub open spec fn is_run(rows: Seq<Span>, a: int, b: int) -> bool {
    &&& 0 <= a < b <= rows.len()
    &&& forall|k: int| a < k < b ==> #[trigger] splits_trace(rows, k)
    &&& a > 0 ==> !splits_trace(rows, a)
    &&& b < rows.len() ==> !splits_trace(rows, b)
}

proof fn lemma_run_not_cut(rows: Seq<Span>, max: nat, start: int, a: int, b: int, i: int)
    requires
        max > 0,
        is_run(rows, a, b),
        b - a <= max,
        0 <= start <= rows.len(),
        start <= a || b <= start,
        0 <= i < group_ends(rows, start, max).len(),
    ensures
        group_ends(rows, start, max)[i] <= a || b <= group_ends(rows, start, max)[i],
    decreases i,
{
    let end = group_end(rows, start, max);
    let full = if start + max < rows.len() { start + max } else { rows.len() as int };
    lemma_group_end(rows, start, max);
    lemma_back_off(rows, start, full);
    if a < end < b {
        assert(splits_trace(rows, end));
        // The walk back stopped at the start, so every place up to the end splits a trace.
        if start < a {
            assert(splits_trace(rows, a));
        }
    }
    let tail = group_ends(rows, end, max);
    assert(group_ends(rows, start, max) =~= seq![end] + tail);
    if i > 0 {
        lemma_run_not_cut(rows, max, end, a, b, i - 1);
        assert(group_ends(rows, start, max)[i] == tail[i - 1]);
    }
}

/// Trace locality: no row group ends inside the rows of a trace, if they are together and
/// not more than a group may hold.
pub proof fn traces_stay_together(rows: Seq<Span>, max: nat, a: int, b: int, i: int)
    requires
        max > 0,
        is_run(rows, a, b),
        b - a <= max,
        0 <= i < group_ends(rows, 0, max).len(),
    ensures
        group_ends(rows, 0, max)[i] <= a || b <= group_ends(rows, 0, max)[i],
{
    lemma_run_not_cut(rows, max, 0, a, b, i);
}

proof fn lemma_group_bounds(rows: Seq<Span>, max: nat, start: int, i: int)
    requires
        max > 0,
        0 <= start <= rows.len(),
        0 <= i < group_ends(rows, start, max).len(),
    ensures
        ({
            let ends = group_ends(rows, start, max);
            let from = if i == 0 { start } else { ends[i - 1] };
            start <= from < ends[i] <= rows.len() && ends[i] - from <= max
        }),
    decreases i,
{
    lemma_group_end(rows, start, max);
    let end = group_end(rows, start, max);
    let tail = group_ends(rows, end, max);
    assert(group_ends(rows, start, max) =~= seq![end] + tail);
    if i > 0 {
        lemma_group_bounds(rows, max, end, i - 1);
        assert(group_ends(rows, start, max)[i] == tail[i - 1]);
        if i > 1 {
            assert(group_ends(rows, start, max)[i - 1] == tail[i - 2]);
        }
    }
}

/// No row group is empty or holds more rows than allowed.
pub proof fn row_groups_are_bounded(rows: Seq<Span>, max: nat, i: int)
    requires
        max > 0,
        0 <= i < group_ends(rows, 0, max).len(),
    ensures
        ({
            let ends = group_ends(rows, 0, max);
            let from = if i == 0 { 0 } else { ends[i - 1] };
            0 <= from < ends[i] <= rows.len() && ends[i] - from <= max
        }),
{
    lemma_group_bounds(rows, max, 0, i);
}

proof fn lemma_group_is_full(rows: Seq<Span>, max: nat, start: int, i: int)
    requires
        max > 0,
        0 <= start <= rows.len(),
        0 <= i < group_ends(rows, start, max).len(),
    ensures
        ({
            let ends = group_ends(rows, start, max);
            let from = if i == 0 { start } else { ends[i - 1] };
            &&& forall|k: int|
                ends[i] < k <= from + max && k <= rows.len() ==> #[trigger] splits_trace(rows, k)
            &&& splits_trace(rows, ends[i]) ==> ends[i] - from == max && forall|k: int|
                from < k <= ends[i] ==> #[trigger] splits_trace(rows, k)
        }),
    decreases i,
{
    lemma_group_end(rows, start, max);
    let end = group_end(rows, start, max);
    let tail = group_ends(rows, end, max);
    assert(group_ends(rows, start, max) =~= seq![end] + tail);
    if i == 0 {
        let full = if start + max < rows.len() { start + max } else { rows.len() as int };
        lemma_back_off(rows, start, full);
    } else {
        lemma_group_is_full(rows, max, end, i - 1);
        assert(group_ends(rows, start, max)[i] == tail[i - 1]);
        if i > 1 {
            assert(group_ends(rows, start, max)[i - 1] == tail[i - 2]);
        }
    }
}

/// A row group ends as late as it can: every later end that its size allows would lie within a
/// trace. It ends within a trace only if all its rows are of that trace.
pub proof fn row_groups_are_as_large_as_they_can_be(rows: Seq<Span>, max: nat, i: int)
    requires
        max > 0,
        0 <= i < group_ends(rows, 0, max).len(),
    ensures
        ({
            let ends = group_ends(rows, 0, max);
            let from = if i == 0 { 0 } else { ends[i - 1] };
            &&& forall|k: int|
                ends[i] < k <= from + max && k <= rows.len() ==> k < rows.len() && rows[k
                    - 1].trace_id == (#[trigger] rows[k]).trace_id
            &&& ends[i] < rows.len() && rows[ends[i] - 1].trace_id == rows[ends[i]].trace_id ==> (
            forall|k: int|
                from < k <= ends[i] ==> rows[k - 1].trace_id == (#[trigger] rows[k]).trace_id)
        }),
{
    lemma_group_bounds(rows, max, 0, i);
    lemma_group_is_full(rows, max, 0, i);
    let ends = group_ends(rows, 0, max);
    let from = if i == 0 { 0 } else { ends[i - 1] };
    assert forall|k: int| ends[i] < k <= from + max && k <= rows.len() implies k < rows.len()
        && rows[k - 1].trace_id == (#[trigger] rows[k]).trace_id by {
        assert(splits_trace(rows, k));
    }
    if ends[i] < rows.len() && rows[ends[i] - 1].trace_id == rows[ends[i]].trace_id {
        assert(splits_trace(rows, ends[i]));
        assert forall|k: int| from < k <= ends[i] implies rows[k - 1].trace_id == (
        #[trigger] rows[k]).trace_id by {
            assert(splits_trace(rows, k));
        }
    }
}

/// Lists one after the other.
pub open spec fn joined(groups: Seq<Seq<Span>>) -> Seq<Span>
    decreases groups.len(),
{
    if groups.len() == 0 {
        Seq::empty()
    } else {
        groups[0] + joined(groups.drop_first())
    }
}

proof fn lemma_joined(rows: Seq<Span>, max: nat, start: int)
    requires
        max > 0,
        0 <= start <= rows.len(),
    ensures
        joined(groups_of(rows, start, group_ends(rows, start, max))) == rows.skip(start),
    decreases rows.len() - start,
{
    if start < rows.len() {
        lemma_group_end(rows, start, max);
        let end = group_end(rows, start, max);
        let ends = group_ends(rows, start, max);
        let tail = group_ends(rows, end, max);
        assert(ends =~= seq![end] + tail);
        assert(ends.drop_first() =~= tail);
        lemma_joined(rows, max, end);
        let groups = groups_of(rows, start, ends);
        assert(groups.drop_first() =~= groups_of(rows, end, tail));
        assert(rows.subrange(start, end) + rows.skip(end) =~= rows.skip(start));
    } else {
        assert(rows.skip(start) =~= Seq::empty());
    }
}

/// Cutting loses and reorders nothing: the row groups one after the other are the rows.
pub proof fn row_groups_join_to_rows(rows: Seq<Span>, max: nat)
    requires
        max > 0,
    ensures
        joined(row_groups(rows, max)) == rows,
{
    lemma_joined(rows, max, 0);
    assert(rows.skip(0) =~= rows);
}

} // verus!
