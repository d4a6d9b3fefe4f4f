//! What merging streams promises: sorted streams give a sorted stream of the same rows.
use crate::common::record::Span;
use crate::compactor::key::{key_le, key_le_total, key_le_transitive, key_sorted};
use crate::compactor::sources::{k_merge, least, lemma_least, lemma_queued_popped, popped, queued};
use crate::order::{lemma_lex_total, lex_le};
use vstd::multiset::Multiset;
use vstd::prelude::*;

verus! {

/// Every row of the queues stands at or after `a`.
spec fn all_after(a: Span, queues: Seq<Seq<Span>>) -> bool {
    forall|k: int, j: int|
        0 <= k < queues.len() && 0 <= j < queues[k].len() ==> key_le(a, #[trigger] queues[k][j])
}

proof fn lemma_all_after(a: Span, queues: Seq<Seq<Span>>)
    requires
        all_after(a, queues),
    ensures
        forall|i: int| 0 <= i < k_merge(queues).len() ==> key_le(a, #[trigger] k_merge(queues)[i]),
    decreases queued(queues),
{
    lemma_least(queues, queues.len());
    if let Some(c) = least(queues, queues.len()) {
        lemma_queued_popped(queues, c);
        let p = popped(queues, c);
        assert forall|k: int, j: int| 0 <= k < p.len() && 0 <= j < p[k].len() implies key_le(
            a,
            #[trigger] p[k][j],
        ) by {
            if k == c {
                assert(p[k][j] == queues[k][j + 1]);
            } else {
                assert(p[k][j] == queues[k][j]);
            }
        }
        lemma_all_after(a, p);
        let m = k_merge(queues);
        assert forall|i: int| 0 <= i < m.len() implies key_le(a, #[trigger] m[i]) by {
            if i == 0 {
                assert(m[0] == queues[c][0]);
            } else {
                assert(m[i] == k_merge(p)[i - 1]);
            }
        }
    }
}

/// Merging sorted streams gives a sorted stream.
pub proof fn merged_streams_are_sorted(queues: Seq<Seq<Span>>)
    requires
        forall|k: int| 0 <= k < queues.len() ==> key_sorted(#[trigger] queues[k]),
    ensures
        key_sorted(k_merge(queues)),
    decreases queued(queues),
{
    lemma_least(queues, queues.len());
    if let Some(c) = least(queues, queues.len()) {
        lemma_queued_popped(queues, c);
        let p = popped(queues, c);
        let head = queues[c][0];
        assert forall|k: int| 0 <= k < p.len() implies key_sorted(#[trigger] p[k]) by {
            assert(key_sorted(queues[k]));
            if k == c {
                assert forall|i: int, j: int| 0 <= i < j < p[k].len() implies key_le(
                    #[trigger] p[k][i],
                    #[trigger] p[k][j],
                ) by {
                    assert(key_le(queues[k][i + 1], queues[k][j + 1]));
                }
            }
        }
        merged_streams_are_sorted(p);
        assert forall|k: int, j: int| 0 <= k < p.len() && 0 <= j < p[k].len() implies key_le(
            head,
            #[trigger] p[k][j],
        ) by {
            assert(key_sorted(queues[k]));
            assert(key_le(head, queues[k][0]));
            if k == c {
                assert(key_le(queues[k][0], queues[k][j + 1]));
            } else if j > 0 {
                assert(key_le(queues[k][0], queues[k][j]));
                key_le_transitive(head, queues[k][0], queues[k][j]);
            }
        }
        lemma_all_after(head, p);
        let m = k_merge(queues);
        assert forall|i: int, j: int| 0 <= i < j < m.len() implies key_le(
            #[trigger] m[i],
            #[trigger] m[j],
        ) by {
            assert(m[j] == k_merge(p)[j - 1]);
            if i > 0 {
                assert(m[i] == k_merge(p)[i - 1]);
            }
        }
    }
}

/// All rows of the queues, with how often each occurs.
pub open spec fn queued_rows(queues: Seq<Seq<Span>>) -> Multiset<Span>
    decreases queues.len(),
{
    if queues.len() == 0 {
        Multiset::empty()
    } else {
        queued_rows(queues.drop_last()).add(queues.last().to_multiset())
    }
}

proof fn lemma_rows_popped(queues: Seq<Seq<Span>>, i: int)
    requires
        0 <= i < queues.len(),
        queues[i].len() > 0,
    ensures
        queued_rows(queues) == queued_rows(popped(queues, i)).insert(queues[i][0]),
    decreases queues.len(),
{
    let p = popped(queues, i);
    if i == queues.len() - 1 {
        assert(p.drop_last() =~= queues.drop_last());
        let q = queues[i];
        lemma_first_out(q);
        assert(queued_rows(queues) =~= queued_rows(p).insert(q[0]));
    } else {
        lemma_rows_popped(queues.drop_last(), i);
        assert(p.drop_last() =~= popped(queues.drop_last(), i));
        assert(queues.drop_last()[i] == queues[i]);
        assert(queued_rows(queues) =~= queued_rows(p).insert(queues[i][0]));
    }
}

proof fn lemma_first_out(q: Seq<Span>)
    requires
        q.len() > 0,
    ensures
        q.to_multiset() == q.drop_first().to_multiset().insert(q[0]),
{
    broadcast use vstd::seq_lib::group_to_multiset_ensures;

    assert(q =~= seq![q[0]] + q.drop_first());
    vstd::seq_lib::lemma_multiset_commutative(seq![q[0]], q.drop_first());
    assert(seq![q[0]] =~= Seq::<Span>::empty().push(q[0]));
    assert(q.to_multiset() =~= q.drop_first().to_multiset().insert(q[0]));
}

/// Merging streams loses no row and adds none.
pub proof fn merged_streams_keep_rows(queues: Seq<Seq<Span>>)
    ensures
        k_merge(queues).to_multiset() == queued_rows(queues),
    decreases queued(queues),
{
    broadcast use vstd::seq_lib::group_to_multiset_ensures;

    lemma_least(queues, queues.len());
    match least(queues, queues.len()) {
        Some(c) => {
            lemma_queued_popped(queues, c);
            let p = popped(queues, c);
            merged_streams_keep_rows(p);
            lemma_rows_popped(queues, c);
            let m = k_merge(queues);
            lemma_first_out(m);
            assert(m.drop_first() =~= k_merge(p));
        },
        None => {
            lemma_no_rows(queues);
            assert(k_merge(queues).to_multiset() =~= Multiset::empty());
        },
    }
}

proof fn lemma_no_rows(queues: Seq<Seq<Span>>)
    requires
        forall|k: int| 0 <= k < queues.len() ==> (#[trigger] queues[k]).len() == 0,
    ensures
        queued_rows(queues) == Multiset::<Span>::empty(),
    decreases queues.len(),
{
    broadcast use vstd::seq_lib::group_to_multiset_ensures;

    if queues.len() > 0 {
        let d = queues.drop_last();
        assert forall|k: int| 0 <= k < d.len() implies (#[trigger] d[k]).len() == 0 by {
            assert(d[k] == queues[k]);
        }
        lemma_no_rows(d);
        assert(queues[queues.len() - 1].len() == 0);
        assert(queues.last() =~= Seq::<Span>::empty());
        assert(queued_rows(queues) =~= Multiset::<Span>::empty());
    }
}

/// The rows of streams that are in trace order come out in trace order: by trace, within a
/// trace by start time, and at the same time by span.
pub proof fn merged_streams_are_in_trace_order(queues: Seq<Seq<Span>>, i: int, j: int)
    requires
        forall|k: int| 0 <= k < queues.len() ==> key_sorted(#[trigger] queues[k]),
        0 <= i < j < k_merge(queues).len(),
    ensures
        lex_le(k_merge(queues)[i].trace_id, k_merge(queues)[j].trace_id),
        k_merge(queues)[i].trace_id == k_merge(queues)[j].trace_id ==> k_merge(
            queues,
        )[i].start_time_ms <= k_merge(queues)[j].start_time_ms,
        k_merge(queues)[i].trace_id == k_merge(queues)[j].trace_id && k_merge(
            queues,
        )[i].start_time_ms == k_merge(queues)[j].start_time_ms ==> lex_le(
            k_merge(queues)[i].span_id,
            k_merge(queues)[j].span_id,
        ),
{
    merged_streams_are_sorted(queues);
    let m = k_merge(queues);
    assert(key_le(m[i], m[j]));
    lemma_lex_total(m[i].trace_id, m[i].trace_id);
}

/// The next row of merged streams comes from a stream whose first row has the first place in
/// segment order, and of several such streams from the first.
pub proof fn first_streams_come_first(queues: Seq<Seq<Span>>, n: nat)
    requires
        n <= queues.len(),
    ensures
        match least(queues, n) {
            Some(i) => {
                &&& 0 <= i < n && queues[i].len() > 0
                &&& forall|j: int|
                    0 <= j < n && (#[trigger] queues[j]).len() > 0 ==> key_le(
                        queues[i][0],
                        queues[j][0],
                    )
                &&& forall|j: int|
                    0 <= j < i && (#[trigger] queues[j]).len() > 0 ==> !key_le(
                        queues[j][0],
                        queues[i][0],
                    )
            },
            None => forall|j: int| 0 <= j < n ==> (#[trigger] queues[j]).len() == 0,
        },
    decreases n,
{
    if n > 0 {
        let m = (n - 1) as nat;
        first_streams_come_first(queues, m);
        if queues[m as int].len() > 0 {
            let last = queues[m as int][0];
            key_le_total(last, last);
            if let Some(i) = least(queues, m) {
                let best = queues[i][0];
                key_le_total(best, last);
                assert forall|j: int| 0 <= j < m && (#[trigger] queues[j]).len() > 0 && !key_le(
                    best,
                    last,
                ) implies key_le(last, queues[j][0]) && !key_le(queues[j][0], last) by {
                    key_le_transitive(last, best, queues[j][0]);
                    if key_le(queues[j][0], last) {
                        key_le_transitive(best, queues[j][0], last);
                    }
                }
            }
        }
    }
}

} // verus!
