//! What a streamed build promises of the rows that come in.
use crate::common::record::Span;
use crate::compactor::merge::same_span;
use crate::compactor::streaming::{
    lemma_streamed, no_adjacent_versions, stream_step, streamed, streamed_groups, StreamView,
};
use vstd::prelude::*;

verus! {

/// The rows of groups, joined.
pub open spec fn joined_groups(groups: Seq<Seq<Span>>) -> Seq<Span>
    decreases groups.len(),
{
    if groups.len() == 0 {
        Seq::empty()
    } else {
        joined_groups(groups.drop_last()) + groups.last()
    }
}

/// Some row of the list is this span in this version or a later one.
pub open spec fn keeps(rows: Seq<Span>, r: Span) -> bool {
    exists|j: int|
        0 <= j < rows.len() && same_span(#[trigger] rows[j], r) && rows[j].commit_id.0
            >= r.commit_id.0
}

/// The rows that a stream has kept so far.
spec fn kept_rows(s: StreamView) -> Seq<Span> {
    joined_groups(s.groups) + s.buf
}

proof fn lemma_step_rows(s: StreamView, r: Span, max: nat)
    ensures
        kept_rows(stream_step(s, r, max)) == (if s.buf.len() > 0 && same_span(s.buf.last(), r) {
            if r.commit_id.0 > s.buf.last().commit_id.0 {
                kept_rows(s).update(kept_rows(s).len() - 1, r)
            } else {
                kept_rows(s)
            }
        } else {
            kept_rows(s).push(r)
        }),
{
    let next = stream_step(s, r, max);
    let head = joined_groups(s.groups);
    if s.buf.len() > 0 && same_span(s.buf.last(), r) {
        if r.commit_id.0 > s.buf.last().commit_id.0 {
            assert(kept_rows(next) =~= kept_rows(s).update(kept_rows(s).len() - 1, r));
        }
    } else if s.buf.len() > 0 && s.buf.len() >= max {
        assert(next.groups.drop_last() =~= s.groups);
        assert(kept_rows(next) =~= kept_rows(s).push(r));
    } else {
        assert(kept_rows(next) =~= kept_rows(s).push(r));
    }
}

proof fn lemma_step_keeps(s: StreamView, r: Span, max: nat, x: Span)
    requires
        keeps(kept_rows(s), x) || x == r,
    ensures
        keeps(kept_rows(stream_step(s, r, max)), x),
{
    lemma_step_rows(s, r, max);
    let before = kept_rows(s);
    let after = kept_rows(stream_step(s, r, max));
    let last = before.len() - 1;
    if s.buf.len() > 0 && same_span(s.buf.last(), r) {
        assert(before[last] == s.buf.last());
        if x == r && !keeps(before, x) {
            assert(same_span(after[last], x));
        } else {
            let j = choose|j: int|
                0 <= j < before.len() && same_span(#[trigger] before[j], x)
                    && before[j].commit_id.0 >= x.commit_id.0;
            if j < last {
                assert(after[j] == before[j]);
            }
            assert(same_span(after[j], x) && after[j].commit_id.0 >= x.commit_id.0);
        }
    } else {
        if x == r && !keeps(before, x) {
            assert(after[before.len() as int] == r);
        } else {
            let j = choose|j: int|
                0 <= j < before.len() && same_span(#[trigger] before[j], x)
                    && before[j].commit_id.0 >= x.commit_id.0;
            assert(after[j] == before[j]);
        }
    }
}

proof fn lemma_stream_keeps(rows: Seq<Span>, max: nat, i: int)
    requires
        0 <= i < rows.len(),
    ensures
        keeps(kept_rows(streamed(rows, max)), rows[i]),
    decreases rows.len(),
{
    let head = rows.drop_last();
    if i < head.len() {
        lemma_stream_keeps(head, max, i);
        assert(head[i] == rows[i]);
    }
    lemma_step_keeps(streamed(head, max), rows.last(), max, rows[i]);
}

proof fn lemma_groups_join(rows: Seq<Span>, max: nat)
    ensures
        joined_groups(streamed_groups(rows, max)) == kept_rows(streamed(rows, max)),
{
    let s = streamed(rows, max);
    if s.buf.len() > 0 {
        assert(s.groups.push(s.buf).drop_last() =~= s.groups);
    } else {
        assert(kept_rows(s) =~= joined_groups(s.groups));
    }
}

/// No span gets lost in a stream: each row, or a later version of its span, stands in some
/// row group.
pub proof fn streaming_keeps_every_span(rows: Seq<Span>, max: nat, i: int)
    requires
        0 <= i < rows.len(),
    ensures
        keeps(joined_groups(streamed_groups(rows, max)), rows[i]),
{
    lemma_stream_keeps(rows, max, i);
    lemma_groups_join(rows, max);
}

proof fn lemma_stream_source(rows: Seq<Span>, max: nat, j: int) -> (i: int)
    requires
        0 <= j < kept_rows(streamed(rows, max)).len(),
    ensures
        0 <= i < rows.len(),
        kept_rows(streamed(rows, max))[j] == rows[i],
    decreases rows.len(),
{
    if rows.len() == 0 {
        assert(kept_rows(streamed(rows, max)) =~= Seq::empty());
        0
    } else {
        let head = rows.drop_last();
        let s = streamed(head, max);
        lemma_step_rows(s, rows.last(), max);
        let before = kept_rows(s);
        let after = kept_rows(streamed(rows, max));
        if j < before.len() && after[j] == before[j] {
            lemma_stream_source(head, max, j)
        } else {
            rows.len() - 1
        }
    }
}

/// Nothing is made up in a stream: each row of a row group is one of the rows that came in.
pub proof fn streaming_adds_nothing(rows: Seq<Span>, max: nat, j: int)
    requires
        0 <= j < joined_groups(streamed_groups(rows, max)).len(),
    ensures
        rows.contains(joined_groups(streamed_groups(rows, max))[j]),
{
    lemma_groups_join(rows, max);
    let i = lemma_stream_source(rows, max, j);
    assert(rows[i] == joined_groups(streamed_groups(rows, max))[j]);
}

proof fn lemma_stream_total(rows: Seq<Span>, max: nat)
    ensures
        kept_rows(streamed(rows, max)).len() == streamed(rows, max).total,
    decreases rows.len(),
{
    if rows.len() > 0 {
        lemma_stream_total(rows.drop_last(), max);
        lemma_step_rows(streamed(rows.drop_last(), max), rows.last(), max);
    } else {
        assert(kept_rows(streamed(rows, max)) =~= Seq::empty());
    }
}

/// The number of rows that a streamed build reports is the number that its groups hold.
pub proof fn streamed_rows_are_counted(rows: Seq<Span>, max: nat)
    ensures
        joined_groups(streamed_groups(rows, max)).len() == streamed(rows, max).total,
{
    lemma_groups_join(rows, max);
    lemma_stream_total(rows, max);
}

/// The last row that a stream has kept is a version of the last row that came in.
proof fn lemma_stream_last(rows: Seq<Span>, max: nat)
    requires
        rows.len() > 0,
    ensures
        kept_rows(streamed(rows, max)).len() > 0,
        kept_rows(streamed(rows, max)).last() == streamed(rows, max).buf.last(),
        same_span(kept_rows(streamed(rows, max)).last(), rows.last()),
{
    lemma_streamed(rows, max);
}

proof fn lemma_stream_deduplicates(rows: Seq<Span>, max: nat)
    ensures
        no_adjacent_versions(kept_rows(streamed(rows, max))),
    decreases rows.len(),
{
    if rows.len() > 0 {
        let head = rows.drop_last();
        let before = kept_rows(streamed(head, max));
        let after = kept_rows(streamed(rows, max));
        lemma_stream_deduplicates(head, max);
        lemma_step_rows(streamed(head, max), rows.last(), max);
        if head.len() > 0 {
            lemma_streamed(head, max);
            lemma_stream_last(head, max);
        } else {
            assert(before =~= Seq::empty());
        }
        assert forall|i: int, j: int| 0 <= i && j == i + 1 && j < after.len() implies !same_span(
            #[trigger] after[i],
            #[trigger] after[j],
        ) by {
            if j < before.len() {
                assert(!same_span(before[i], before[j]));
            }
        }
    } else {
        assert(kept_rows(streamed(rows, max)) =~= Seq::empty());
    }
}

/// In a streamed segment no row is followed by another version of its span, neither in a
/// row group nor from one row group to the next.
pub proof fn streaming_leaves_no_adjacent_versions(rows: Seq<Span>, max: nat)
    ensures
        no_adjacent_versions(joined_groups(streamed_groups(rows, max))),
{
    lemma_stream_deduplicates(rows, max);
    lemma_groups_join(rows, max);
}

/// The versions of a span follow one another, as they do in sorted rows.
pub open spec fn versions_together(rows: Seq<Span>) -> bool {
    forall|i: int, j: int, k: int|
        0 <= i < j < k < rows.len() && same_span(#[trigger] rows[i], #[trigger] rows[k])
            ==> same_span(rows[i], #[trigger] rows[j])
}

/// No two rows are versions of one span.
pub open spec fn one_version_each(rows: Seq<Span>) -> bool {
    forall|i: int, j: int|
        0 <= i < j < rows.len() ==> !same_span(#[trigger] rows[i], #[trigger] rows[j])
}

proof fn lemma_stream_unique(rows: Seq<Span>, max: nat)
    requires
        versions_together(rows),
    ensures
        one_version_each(kept_rows(streamed(rows, max))),
    decreases rows.len(),
{
    if rows.len() > 0 {
        let head = rows.drop_last();
        let before = kept_rows(streamed(head, max));
        let after = kept_rows(streamed(rows, max));
        assert(versions_together(head)) by {
            assert forall|i: int, j: int, k: int|
                0 <= i < j < k < head.len() && same_span(
                    #[trigger] head[i],
                    #[trigger] head[k],
                ) implies same_span(head[i], #[trigger] head[j]) by {
                assert(same_span(rows[i], rows[k]));
                assert(same_span(rows[i], rows[j]));
            }
        }
        lemma_stream_unique(head, max);
        lemma_step_rows(streamed(head, max), rows.last(), max);
        if head.len() > 0 {
            lemma_streamed(head, max);
            lemma_stream_last(head, max);
        } else {
            assert(before =~= Seq::empty());
        }
        assert forall|i: int, j: int| 0 <= i < j < after.len() implies !same_span(
            #[trigger] after[i],
            #[trigger] after[j],
        ) by {
            if j < before.len() {
                assert(!same_span(before[i], before[j]));
            } else {
                let at = lemma_stream_source(head, max, i);
                assert(rows[at] == after[i]);
                let n = head.len() as int;
                if at < n - 1 && same_span(rows[at], rows[n]) {
                    assert(same_span(rows[at], rows[n - 1]));
                }
                assert(head.last() == rows[n - 1]);
            }
        }
    } else {
        assert(kept_rows(streamed(rows, max)) =~= Seq::empty());
    }
}

/// Where the versions of each span follow one another, a streamed segment holds each span
/// once, whatever row group it falls into, and in the version with the highest commit.
pub proof fn streaming_keeps_the_highest_commit(rows: Seq<Span>, max: nat)
    requires
        versions_together(rows),
    ensures
        one_version_each(joined_groups(streamed_groups(rows, max))),
        forall|i: int, j: int|
            0 <= i < rows.len() && 0 <= j < joined_groups(streamed_groups(rows, max)).len()
                && same_span(
                #[trigger] joined_groups(streamed_groups(rows, max))[j],
                #[trigger] rows[i],
            ) ==> joined_groups(streamed_groups(rows, max))[j].commit_id.0
                >= rows[i].commit_id.0,
{
    lemma_stream_unique(rows, max);
    lemma_groups_join(rows, max);
    let kept = joined_groups(streamed_groups(rows, max));
    assert forall|i: int, j: int|
        0 <= i < rows.len() && 0 <= j < kept.len() && same_span(
            #[trigger] kept[j],
            #[trigger] rows[i],
        ) implies kept[j].commit_id.0 >= rows[i].commit_id.0 by {
        streaming_keeps_every_span(rows, max, i);
        let k = choose|k: int|
            0 <= k < kept.len() && same_span(#[trigger] kept[k], rows[i])
                && kept[k].commit_id.0 >= rows[i].commit_id.0;
        if k < j {
            assert(!same_span(kept[k], kept[j]));
        } else if j < k {
            assert(!same_span(kept[j], kept[k]));
        }
    }
}

/// The rows of a streamed segment keep each tenant's spans: for every row that came in there
/// is a row of the same tenant and span with a commit that is not lower.
pub proof fn streaming_keeps_each_tenants_spans(rows: Seq<Span>, max: nat, i: int)
    requires
        0 <= i < rows.len(),
    ensures
        exists|j: int|
            0 <= j < joined_groups(streamed_groups(rows, max)).len() && (#[trigger] joined_groups(
                streamed_groups(rows, max),
            )[j]).tenant_id == rows[i].tenant_id && joined_groups(
                streamed_groups(rows, max),
            )[j].span_id == rows[i].span_id && joined_groups(
                streamed_groups(rows, max),
            )[j].commit_id.0 >= rows[i].commit_id.0,
{
    streaming_keeps_every_span(rows, max, i);
    let kept = joined_groups(streamed_groups(rows, max));
    let j = choose|j: int|
        0 <= j < kept.len() && same_span(#[trigger] kept[j], rows[i]) && kept[j].commit_id.0
            >= rows[i].commit_id.0;
    assert(kept[j].tenant_id == rows[i].tenant_id);
}

} // verus!
