//! What merging promises: one sorted row per span, the latest one.
use crate::common::record::Span;
use crate::compactor::batch::BatchView;
use crate::compactor::key::{key_le, key_le_total, key_sorted, merge_le};
use crate::compactor::merge::{
    arranged, batch_spans, batch_views, highest_commit, is_merge_order, is_merged, object_spans,
    same_span, survivors, unbeaten, WalObject,
};
use crate::order::{lemma_lex_antisymmetric, lemma_lex_total, lex_le, lists};
use vstd::prelude::*;

verus! {

/// Where the `k`-th survivor stands among the rows.
spec fn survivor_pos(s: Seq<Span>, n: nat, k: int) -> int
    decreases n,
{
    if n == 0 {
        0
    } else if unbeaten(s, n - 1, s.len() as int) && k == survivors(s, (n - 1) as nat).len() {
        n - 1
    } else {
        survivor_pos(s, (n - 1) as nat, k)
    }
}

proof fn lemma_survivor_pos(s: Seq<Span>, n: nat, k: int)
    requires
        0 <= k < survivors(s, n).len(),
    ensures
        0 <= survivor_pos(s, n, k) < n,
        survivors(s, n)[k] == s[survivor_pos(s, n, k)],
        unbeaten(s, survivor_pos(s, n, k), s.len() as int),
    decreases n,
{
    if n > 0 {
        let m = (n - 1) as nat;
        if !(unbeaten(s, n - 1, s.len() as int) && k == survivors(s, m).len()) {
            lemma_survivor_pos(s, m, k);
        }
    }
}

proof fn lemma_survivor_order(s: Seq<Span>, n: nat, j: int, k: int)
    requires
        0 <= j < k < survivors(s, n).len(),
    ensures
        survivor_pos(s, n, j) < survivor_pos(s, n, k),
    decreases n,
{
    if n > 0 {
        let m = (n - 1) as nat;
        if unbeaten(s, n - 1, s.len() as int) && k == survivors(s, m).len() {
            lemma_survivor_pos(s, m, j);
        } else {
            lemma_survivor_order(s, m, j, k);
        }
    }
}

proof fn lemma_survives(s: Seq<Span>, n: nat, i: int) -> (k: int)
    requires
        0 <= i < n,
        unbeaten(s, i, s.len() as int),
    ensures
        0 <= k < survivors(s, n).len(),
        survivors(s, n)[k] == s[i],
    decreases n,
{
    let m = (n - 1) as nat;
    if i == n - 1 {
        survivors(s, m).len() as int
    } else {
        lemma_survives(s, m, i)
    }
}

/// A version of the span of row `i` that none of the first `n` rows beats.
proof fn lemma_winner(s: Seq<Span>, i: int, n: int) -> (w: int)
    requires
        0 <= i < s.len(),
        0 <= n <= s.len(),
    ensures
        0 <= w < s.len(),
        same_span(s[i], s[w]),
        s[w].commit_id.0 >= s[i].commit_id.0,
        unbeaten(s, w, n),
    decreases n,
{
    if n == 0 {
        i
    } else {
        let w = lemma_winner(s, i, n - 1);
        let c = n - 1;
        if same_span(s[w], s[c]) && (s[c].commit_id.0 > s[w].commit_id.0 || (s[c].commit_id.0
            == s[w].commit_id.0 && c < w)) {
            assert forall|j: int|
                0 <= j < n && same_span(s[c], #[trigger] s[j]) implies s[j].commit_id.0
                < s[c].commit_id.0 || (s[j].commit_id.0 == s[c].commit_id.0 && c <= j) by {
                assert(same_span(s[w], s[j]));
            }
            c
        } else {
            w
        }
    }
}

/// Merged rows are in segment order.
pub proof fn merged_rows_are_sorted(rows: Seq<Span>, out: Seq<Span>)
    requires
        is_merged(rows, out),
    ensures
        key_sorted(out),
{
    let p = choose|p: Seq<usize>|
        #[trigger] is_merge_order(rows, p) && out == survivors(arranged(rows, p), rows.len());
    let s = arranged(rows, p);
    let n = rows.len();
    assert forall|i: int, j: int| 0 <= i < j < out.len() implies key_le(
        #[trigger] out[i],
        #[trigger] out[j],
    ) by {
        lemma_survivor_pos(s, n, i);
        lemma_survivor_pos(s, n, j);
        lemma_survivor_order(s, n, i, j);
        let a = survivor_pos(s, n, i);
        let b = survivor_pos(s, n, j);
        assert(merge_le(rows[p[a] as int], rows[p[b] as int]));
        key_le_total(out[i], out[j]);
    }
}

/// After merging no span occurs twice.
pub proof fn merged_spans_are_unique(rows: Seq<Span>, out: Seq<Span>, i: int, j: int)
    requires
        is_merged(rows, out),
        0 <= i < j < out.len(),
    ensures
        !same_span(out[i], out[j]),
{
    let p = choose|p: Seq<usize>|
        #[trigger] is_merge_order(rows, p) && out == survivors(arranged(rows, p), rows.len());
    let s = arranged(rows, p);
    let n = rows.len();
    lemma_survivor_pos(s, n, i);
    lemma_survivor_pos(s, n, j);
    lemma_survivor_order(s, n, i, j);
    let a = survivor_pos(s, n, i);
    let b = survivor_pos(s, n, j);
    if same_span(s[a], s[b]) {
        assert(same_span(s[b], s[a]));
    }
}

/// A later commit wins: every merged row is one of the rows, and no row holds a later
/// version of its span.
pub proof fn merged_rows_are_latest(rows: Seq<Span>, out: Seq<Span>, i: int)
    requires
        is_merged(rows, out),
        0 <= i < out.len(),
    ensures
        rows.contains(out[i]),
        forall|k: int|
            0 <= k < rows.len() && same_span(out[i], #[trigger] rows[k]) ==> rows[k].commit_id.0
                <= out[i].commit_id.0,
{
    let p = choose|p: Seq<usize>|
        #[trigger] is_merge_order(rows, p) && out == survivors(arranged(rows, p), rows.len());
    let s = arranged(rows, p);
    lemma_survivor_pos(s, rows.len(), i);
    let a = survivor_pos(s, rows.len(), i);
    assert(rows[p[a] as int] == out[i]);
    assert forall|k: int|
        0 <= k < rows.len() && same_span(out[i], #[trigger] rows[k]) implies rows[k].commit_id.0
        <= out[i].commit_id.0 by {
        assert(lists(p, k));
        let j = choose|j: int| 0 <= j < p.len() && #[trigger] p[j] == k;
        assert(s[j] == rows[k]);
    }
}

/// Of versions with the same commit the one with the first place in segment order is kept, and
/// of those with the same place the one that came in first.
pub proof fn equal_commits_keep_the_first_row(rows: Seq<Span>, out: Seq<Span>, i: int, k: int)
    requires
        is_merged(rows, out),
        0 <= i < out.len(),
        0 <= k < rows.len(),
        same_span(out[i], rows[k]),
        rows[k].commit_id == out[i].commit_id,
    ensures
        key_le(out[i], rows[k]),
        key_le(rows[k], out[i]) ==> exists|m: int| 0 <= m <= k && #[trigger] rows[m] == out[i],
{
    let p = choose|p: Seq<usize>|
        #[trigger] is_merge_order(rows, p) && out == survivors(arranged(rows, p), rows.len());
    let s = arranged(rows, p);
    lemma_survivor_pos(s, rows.len(), i);
    let a = survivor_pos(s, rows.len(), i);
    assert(rows[p[a] as int] == out[i]);
    assert(lists(p, k));
    let j = choose|j: int| 0 <= j < p.len() && #[trigger] p[j] == k;
    assert(s[j] == rows[k]);
    key_le_total(out[i], rows[k]);
    key_le_total(out[i], out[i]);
    if a == j {
        assert(rows[k] == out[i]);
    } else {
        assert(a < j);
        assert(merge_le(rows[p[a] as int], rows[p[j] as int]));
    }
}

/// No span is lost: merging keeps a version of every row's span.
pub proof fn merging_keeps_every_span(rows: Seq<Span>, out: Seq<Span>, k: int)
    requires
        is_merged(rows, out),
        0 <= k < rows.len(),
    ensures
        exists|i: int|
            0 <= i < out.len() && same_span(rows[k], #[trigger] out[i]) && out[i].commit_id.0
                >= rows[k].commit_id.0,
{
    let p = choose|p: Seq<usize>|
        #[trigger] is_merge_order(rows, p) && out == survivors(arranged(rows, p), rows.len());
    let s = arranged(rows, p);
    assert(lists(p, k));
    let j = choose|j: int| 0 <= j < p.len() && #[trigger] p[j] == k;
    assert(s[j] == rows[k]);
    let w = lemma_winner(s, j, s.len() as int);
    let i = lemma_survives(s, rows.len(), w);
    assert(same_span(rows[k], out[i]));
}

/// Rows have one merge only.
pub proof fn merge_is_unique(rows: Seq<Span>, a: Seq<Span>, b: Seq<Span>)
    requires
        is_merged(rows, a),
        is_merged(rows, b),
    ensures
        a == b,
{
    let p = choose|p: Seq<usize>|
        #[trigger] is_merge_order(rows, p) && a == survivors(arranged(rows, p), rows.len());
    let q = choose|q: Seq<usize>|
        #[trigger] is_merge_order(rows, q) && b == survivors(arranged(rows, q), rows.len());
    lemma_same_order(rows, p, q, p.len() as int);
    assert(p =~= q);
}

proof fn lemma_same_order(rows: Seq<Span>, p: Seq<usize>, q: Seq<usize>, n: int)
    requires
        is_merge_order(rows, p),
        is_merge_order(rows, q),
        0 <= n <= p.len(),
    ensures
        forall|i: int| 0 <= i < n ==> p[i] == q[i],
    decreases n,
{
    if n > 0 {
        let i = n - 1;
        lemma_same_order(rows, p, q, i);
        if p[i] != q[i] {
            let x = p[i] as int;
            let y = q[i] as int;
            assert(lists(q, x) && lists(p, y));
            let j = choose|j: int| 0 <= j < q.len() && #[trigger] q[j] == x;
            let k = choose|k: int| 0 <= k < p.len() && #[trigger] p[k] == y;
            if j < i {
                assert(p[j] == q[j]);
                assert(merge_le(rows[p[j] as int], rows[p[i] as int]));
            }
            if k < i {
                assert(p[k] == q[k]);
                assert(merge_le(rows[q[k] as int], rows[q[i] as int]));
            }
            assert(merge_le(rows[q[i] as int], rows[q[j] as int]));
            assert(merge_le(rows[p[i] as int], rows[p[k] as int]));
        }
    }
}

/// Merged rows are in the order of their traces, within a trace in that of their start times,
/// and at the same time in that of their identifiers.
pub proof fn merged_rows_are_in_trace_order(rows: Seq<Span>, out: Seq<Span>, i: int, j: int)
    requires
        is_merged(rows, out),
        0 <= i < j < out.len(),
    ensures
        lex_le(out[i].trace_id, out[j].trace_id),
        out[i].trace_id == out[j].trace_id ==> out[i].start_time_ms <= out[j].start_time_ms,
        out[i].trace_id == out[j].trace_id && out[i].start_time_ms == out[j].start_time_ms
            ==> lex_le(out[i].span_id, out[j].span_id),
{
    merged_rows_are_sorted(rows, out);
    assert(key_le(out[i], out[j]));
    lemma_lex_total(out[i].trace_id, out[i].trace_id);
}

/// The spans of a trace lie together in merged rows.
pub proof fn merged_traces_lie_together(rows: Seq<Span>, out: Seq<Span>, i: int, k: int, j: int)
    requires
        is_merged(rows, out),
        0 <= i <= k <= j < out.len(),
        out[i].trace_id == out[j].trace_id,
    ensures
        out[k].trace_id == out[i].trace_id,
{
    if i < k && k < j {
        merged_rows_are_in_trace_order(rows, out, i, k);
        merged_rows_are_in_trace_order(rows, out, k, j);
        lemma_lex_antisymmetric(out[i].trace_id, out[k].trace_id);
    }
}

/// Merging keeps one row for each tenant's span, no matter how many versions came in, and it
/// is one that came in with the highest commit.
pub proof fn merging_keeps_each_tenants_spans(rows: Seq<Span>, out: Seq<Span>)
    requires
        is_merged(rows, out),
    ensures
        forall|k: int|
            0 <= k < rows.len() ==> exists|i: int|
                0 <= i < out.len() && (#[trigger] out[i]).tenant_id == (
                #[trigger] rows[k]).tenant_id && out[i].span_id == rows[k].span_id
                    && out[i].commit_id.0 >= rows[k].commit_id.0,
        forall|i: int| 0 <= i < out.len() ==> rows.contains(#[trigger] out[i]),
        forall|i: int, j: int|
            0 <= i < j < out.len() ==> !((#[trigger] out[i]).tenant_id == (
            #[trigger] out[j]).tenant_id && out[i].span_id == out[j].span_id),
{
    assert forall|k: int| 0 <= k < rows.len() implies exists|i: int|
        0 <= i < out.len() && (#[trigger] out[i]).tenant_id == (#[trigger] rows[k]).tenant_id
            && out[i].span_id == rows[k].span_id && out[i].commit_id.0 >= rows[k].commit_id.0 by {
        merging_keeps_every_span(rows, out, k);
        let i = choose|i: int|
            0 <= i < out.len() && same_span(rows[k], #[trigger] out[i]) && out[i].commit_id.0
                >= rows[k].commit_id.0;
        assert(out[i].tenant_id == rows[k].tenant_id);
    }
    assert forall|i: int| 0 <= i < out.len() implies rows.contains(#[trigger] out[i]) by {
        merged_rows_are_latest(rows, out, i);
    }
    assert forall|i: int, j: int| 0 <= i < j < out.len() implies !((#[trigger] out[i]).tenant_id
        == (#[trigger] out[j]).tenant_id && out[i].span_id == out[j].span_id) by {
        merged_spans_are_unique(rows, out, i, j);
    }
}

proof fn lemma_batch_rows(batches: Seq<BatchView>, n: nat, b: int, i: int)
    requires
        0 <= b < n <= batches.len(),
        0 <= i < batches[b].rows,
    ensures
        batch_spans(batches, n).contains(batches[b].spans()[i]),
    decreases n,
{
    let before = batch_spans(batches, (n - 1) as nat);
    let last = batches[n - 1].spans();
    if b < n - 1 {
        lemma_batch_rows(batches, (n - 1) as nat, b, i);
        let k = choose|k: int| 0 <= k < before.len() && before[k] == batches[b].spans()[i];
        assert((before + last)[k] == batches[b].spans()[i]);
    } else {
        assert((before + last)[before.len() + i] == last[i]);
    }
}

proof fn lemma_object_rows(objects: Seq<WalObject>, n: nat, o: int, s: Span)
    requires
        0 <= o < n <= objects.len(),
        batch_spans(batch_views(objects[o].batches@), objects[o].batches@.len()).contains(s),
    ensures
        object_spans(objects, n).contains(s),
    decreases n,
{
    let before = object_spans(objects, (n - 1) as nat);
    let views = batch_views(objects[n - 1].batches@);
    let last = batch_spans(views, views.len());
    if o < n - 1 {
        lemma_object_rows(objects, (n - 1) as nat, o, s);
        let k = choose|k: int| 0 <= k < before.len() && before[k] == s;
        assert((before + last)[k] == s);
    } else {
        let k = choose|k: int| 0 <= k < last.len() && last[k] == s;
        assert((before + last)[before.len() + k] == s);
    }
}

/// Merging log objects keeps the span of every row of every batch of every object, in that
/// version or a later one.
pub proof fn merging_reads_every_batch(
    objects: Seq<WalObject>,
    out: Seq<Span>,
    o: int,
    b: int,
    i: int,
)
    requires
        is_merged(object_spans(objects, objects.len()), out),
        0 <= o < objects.len(),
        0 <= b < objects[o].batches@.len(),
        0 <= i < objects[o].batches@[b]@.rows,
    ensures
        exists|k: int|
            0 <= k < out.len() && (#[trigger] out[k]).tenant_id
                == objects[o].batches@[b]@.spans()[i].tenant_id && out[k].span_id
                == objects[o].batches@[b]@.spans()[i].span_id && out[k].commit_id.0
                >= objects[o].batches@[b]@.spans()[i].commit_id.0,
{
    let views = batch_views(objects[o].batches@);
    let s = views[b].spans()[i];
    assert(views[b] == objects[o].batches@[b]@);
    lemma_batch_rows(views, views.len(), b, i);
    lemma_object_rows(objects, objects.len(), o, s);
    let rows = object_spans(objects, objects.len());
    let k = choose|k: int| 0 <= k < rows.len() && rows[k] == s;
    merging_keeps_each_tenants_spans(rows, out);
    assert(rows[k] == s);
}

/// The highest commit of merged objects is that of one of them, and no header has a higher.
pub proof fn highest_commits_are_reached(objects: Seq<WalObject>)
    ensures
        forall|i: int|
            0 <= i < objects.len() ==> (#[trigger] objects[i]).commit_id.0 <= highest_commit(
                objects,
                objects.len(),
            ),
        objects.len() > 0 ==> exists|i: int|
            0 <= i < objects.len() && (#[trigger] objects[i]).commit_id.0 == highest_commit(
                objects,
                objects.len(),
            ),
        objects.len() == 0 ==> highest_commit(objects, objects.len()) == 0,
{
    lemma_highest(objects, objects.len());
}

proof fn lemma_highest(objects: Seq<WalObject>, n: nat)
    requires
        n <= objects.len(),
    ensures
        forall|i: int|
            0 <= i < n ==> (#[trigger] objects[i]).commit_id.0 <= highest_commit(objects, n),
        n > 0 ==> exists|i: int|
            0 <= i < n && (#[trigger] objects[i]).commit_id.0 == highest_commit(objects, n),
    decreases n,
{
    if n > 0 {
        let m = (n - 1) as nat;
        lemma_highest(objects, m);
        if m > 0 {
            let i = choose|i: int|
                0 <= i < m && (#[trigger] objects[i]).commit_id.0 == highest_commit(objects, m);
            assert(objects[i].commit_id.0 == highest_commit(objects, n) || objects[m as int].commit_id.0
                == highest_commit(objects, n));
        } else {
            assert(highest_commit(objects, m) == 0);
            assert(objects[m as int].commit_id.0 == highest_commit(objects, n));
        }
    }
}

} // verus!
