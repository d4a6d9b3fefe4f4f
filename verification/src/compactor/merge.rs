//! Merging log objects: rows are sorted by trace, start time and span, and of the
//! versions of one span only the latest stays.
use crate::common::record::{record_spans, Span, SpanRecord};
use crate::common::types::CommitId;
use crate::compactor::batch::{arrow_to_records, BatchView, SpanBatch};
use crate::compactor::key::merge_le;
use crate::intern::{distinct, Interner};
use crate::order::{is_stable_order, lists, sort_order, Ranked};
use crate::wire::{le_bytes, lemma_le_of_le_bytes, lemma_pow256_values, put_slice, put_u64};
use vstd::prelude::*;

verus! {

/// A log object: the commit of its header and its batches.
pub struct WalObject {
    pub commit_id: CommitId,
    pub batches: Vec<SpanBatch>,
}

/// The rows of the merged objects, and the highest commit in their headers.
pub struct MergedRows {
    pub rows: Vec<SpanRecord>,
    pub commit_id_max: CommitId,
}

/// The contents of a list of batches.
pub open spec fn batch_views(v: Seq<SpanBatch>) -> Seq<BatchView> {
    Seq::new(v.len(), |i: int| v[i]@)
}

/// The spans of the first `n` batches.
pub open spec fn batch_spans(batches: Seq<BatchView>, n: nat) -> Seq<Span>
    decreases n,
{
    if n == 0 {
        Seq::empty()
    } else {
        batch_spans(batches, (n - 1) as nat) + batches[n - 1].spans()
    }
}

/// The spans of the first `n` objects.
pub open spec fn object_spans(objects: Seq<WalObject>, n: nat) -> Seq<Span>
    decreases n,
{
    if n == 0 {
        Seq::empty()
    } else {
        let batches = batch_views(objects[n - 1].batches@);
        object_spans(objects, (n - 1) as nat) + batch_spans(batches, batches.len())
    }
}

/// The identifiers of all rows are 16 bytes wide.
pub open spec fn object_ids_fit(o: WalObject) -> bool {
    forall|i: int| 0 <= i < o.batches@.len() ==> (#[trigger] o.batches@[i])@.all_ids_fit()
}

/// The highest header commit of the first `n` objects, or zero.
pub open spec fn highest_commit(objects: Seq<WalObject>, n: nat) -> u64
    decreases n,
{
    if n == 0 {
        0
    } else {
        let rest = highest_commit(objects, (n - 1) as nat);
        let c = objects[n - 1].commit_id.0;
        if c > rest { c } else { rest }
    }
}

/// Two versions of one span.
pub open spec fn same_span(a: Span, b: Span) -> bool {
    a.tenant_id == b.tenant_id && a.span_id == b.span_id
}

/// `p` lists all rows once each, in merge order; rows of the same rank keep their order.
pub open spec fn is_merge_order(rows: Seq<Span>, p: Seq<usize>) -> bool {
    &&& p.len() == rows.len()
    &&& forall|i: int| 0 <= i < p.len() ==> 0 <= #[trigger] p[i] < rows.len()
    &&& forall|i: int, j: int|
        0 <= i < j < p.len() ==> merge_le(rows[#[trigger] p[i] as int], rows[#[trigger] p[j] as int])
            && (merge_le(rows[p[j] as int], rows[p[i] as int]) ==> p[i] < p[j])
    &&& forall|k: int| 0 <= k < rows.len() ==> #[trigger] lists(p, k)
}

/// The rows in the order `p`.
pub open spec fn arranged(rows: Seq<Span>, p: Seq<usize>) -> Seq<Span> {
    Seq::new(p.len(), |i: int| rows[p[i] as int])
}

/// Among the first `n` rows, none beats row `i` as the version of its span to keep: a
/// higher commit does, and at the same commit an earlier row.
pub open spec fn unbeaten(s: Seq<Span>, i: int, n: int) -> bool {
    forall|j: int|
        0 <= j < n && same_span(s[i], #[trigger] s[j]) ==> s[j].commit_id.0 < s[i].commit_id.0 || (
        s[j].commit_id.0 == s[i].commit_id.0 && i <= j)
}

/// The first `n` rows without those that another version of their span beats.
pub open spec fn survivors(s: Seq<Span>, n: nat) -> Seq<Span>
    decreases n,
{
    if n == 0 {
        Seq::empty()
    } else if unbeaten(s, n - 1, s.len() as int) {
        survivors(s, (n - 1) as nat).push(s[n - 1])
    } else {
        survivors(s, (n - 1) as nat)
    }
}

/// `out` is the merge of `rows`: sorted, with the latest version of every span.
pub open spec fn is_merged(rows: Seq<Span>, out: Seq<Span>) -> bool {
    exists|p: Seq<usize>|
        #[trigger] is_merge_order(rows, p) && out == survivors(arranged(rows, p), rows.len())
}

/// Tenant and span identifier in one byte string.
spec fn span_key(s: Span) -> Seq<u8> {
    le_bytes(s.tenant_id.0 as nat, 8) + s.span_id
}

proof fn lemma_span_key(a: Span, b: Span)
    ensures
        same_span(a, b) <==> span_key(a) == span_key(b),
{
    let x = a.tenant_id.0 as nat;
    let y = b.tenant_id.0 as nat;
    lemma_pow256_values();
    lemma_le_of_le_bytes(x, 8);
    lemma_le_of_le_bytes(y, 8);
    assert(span_key(a).subrange(0, 8) =~= le_bytes(x, 8));
    assert(span_key(b).subrange(0, 8) =~= le_bytes(y, 8));
    assert(span_key(a).skip(8) =~= a.span_id);
    assert(span_key(b).skip(8) =~= b.span_id);
}

fn record_key(r: &SpanRecord) -> (k: Vec<u8>)
    ensures
        k@ == span_key(r@),
{
    let mut out: Vec<u8> = Vec::new();
    put_u64(&mut out, r.tenant_id.0);
    put_slice(&mut out, r.span_id.0.as_slice());
    assert(out@ =~= span_key(r@));
    out
}

/// For each span that occurs, which of the rows to keep. Gives each row the number of its
/// span, and each span the row to keep.
fn pick_versions(rows: &Vec<SpanRecord>, p: &Vec<usize>) -> (r: (Vec<usize>, Vec<usize>))
    requires
        p@.len() == rows@.len(),
        forall|i: int| 0 <= i < p@.len() ==> 0 <= #[trigger] p@[i] < rows@.len(),
    ensures
        r.0@.len() == p@.len(),
        forall|i: int| 0 <= i < p@.len() ==> (#[trigger] r.0@[i]) < r.1@.len(),
        forall|i: int|
            0 <= i < p@.len() ==> (r.1@[#[trigger] r.0@[i] as int] == i) == unbeaten(
                arranged(record_spans(rows@), p@),
                i,
                p@.len() as int,
            ),
{
    let ghost s = arranged(record_spans(rows@), p@);
    let mut seen = Interner::new();
    let mut number: Vec<usize> = Vec::new();
    let mut best: Vec<usize> = Vec::new();
    let mut k: usize = 0;
    while k < p.len()
        invariant
            k <= p@.len(),
            p@.len() == rows@.len(),
            s == arranged(record_spans(rows@), p@),
            forall|i: int| 0 <= i < p@.len() ==> 0 <= #[trigger] p@[i] < rows@.len(),
            number@.len() == k,
            best@.len() == seen@.len(),
            distinct(seen@),
            forall|i: int|
                0 <= i < k ==> (#[trigger] number@[i]) < seen@.len() && seen@[number@[i] as int]
                    == span_key(s[i]),
            forall|d: int| #![trigger best@[d]]
                0 <= d < best@.len() ==> best@[d] < k && number@[best@[d] as int] == d && unbeaten(
                    s,
                    best@[d] as int,
                    k as int,
                ),
        decreases p.len() - k,
    {
        let row = &rows[p[k]];
        assert(row@ == s[k as int]);
        let key = record_key(row);
        let ghost seen0 = seen@;
        let ghost best0 = best@;
        let ghost number0 = number@;
        let (d, fresh) = seen.find_or_add(key.as_slice());
        number.push(d);
        proof {
            assert forall|i: int| 0 <= i < k implies (number0[i] == d) == same_span(
                s[k as int],
                s[i],
            ) by {
                lemma_span_key(s[k as int], s[i]);
                assert(number0[i] < seen0.len());
                assert(seen@[number0[i] as int] == span_key(s[i]));
                if number0[i] != d {
                    if number0[i] < d {
                        assert(seen@[number0[i] as int] != seen@[d as int]);
                    } else {
                        assert(seen@[d as int] != seen@[number0[i] as int]);
                    }
                }
            }
        }
        if fresh {
            best.push(k);
            proof {
                assert forall|i: int| 0 <= i < k implies !same_span(s[k as int], s[i]) by {
                    assert(number0[i] < seen0.len());
                }
                assert(unbeaten(s, k as int, k + 1));
                assert forall|e: int| 0 <= e < best0.len() implies unbeaten(
                    s,
                    #[trigger] best0[e] as int,
                    k + 1,
                ) by {
                    assert(unbeaten(s, best0[e] as int, k as int));
                    assert(!same_span(s[k as int], s[best0[e] as int]));
                }
            }
        } else {
            assert(d < seen0.len());
            let b: usize = best[d];
            let held = &rows[p[b]];
            assert(held@ == s[b as int]);
            assert(unbeaten(s, b as int, k as int));
            assert(same_span(s[k as int], s[b as int]));
            proof {
                assert forall|e: int| 0 <= e < best0.len() && e != d implies unbeaten(
                    s,
                    #[trigger] best0[e] as int,
                    k + 1,
                ) by {
                    assert(unbeaten(s, best0[e] as int, k as int));
                    assert(number0[best0[e] as int] == e);
                    assert(!same_span(s[k as int], s[best0[e] as int]));
                }
            }
            if row.commit_id.0 > held.commit_id.0 {
                best.set(d, k);
                assert(unbeaten(s, k as int, k + 1)) by {
                    assert forall|j: int|
                        0 <= j < k + 1 && same_span(s[k as int], #[trigger] s[j]) implies s[j].commit_id.0
                        < s[k as int].commit_id.0 || (s[j].commit_id.0 == s[k as int].commit_id.0 && k
                        <= j) by {
                        assert(same_span(s[b as int], s[j]));
                    }
                }
            } else {
                assert(unbeaten(s, b as int, k + 1));
            }
        }
        k = k + 1;
    }
    proof {
        assert forall|i: int| 0 <= i < p@.len() implies (best@[#[trigger] number@[i] as int] == i)
            == unbeaten(s, i, p@.len() as int) by {
            let d = number@[i] as int;
            let b = best@[d] as int;
            assert(unbeaten(s, b, p@.len() as int));
            assert(number@[b] == d);
            assert(seen@[number@[b] as int] == span_key(s[b]));
            lemma_span_key(s[i], s[b]);
            if b != i && unbeaten(s, i, p@.len() as int) {
                assert(same_span(s[i], s[b]) && same_span(s[b], s[i]));
            }
        }
    }
    (number, best)
}

/// Sorts rows and keeps the latest version of each span.
pub fn merge_records(rows: Vec<SpanRecord>) -> (r: Vec<SpanRecord>)
    ensures
        is_merged(record_spans(rows@), record_spans(r@)),
{
    let p = sort_order(rows.as_slice());
    let ghost all = record_spans(rows@);
    proof {
        assert(is_stable_order(rows@, p@));
        assert forall|i: int, j: int| 0 <= i < j < p@.len() implies merge_le(
            all[#[trigger] p@[i] as int],
            all[#[trigger] p@[j] as int],
        ) && (merge_le(all[p@[j] as int], all[p@[i] as int]) ==> p@[i] < p@[j]) by {
            assert(rows@[p@[i] as int].precedes(&rows@[p@[j] as int]));
        }
        assert(is_merge_order(all, p@));
    }
    let ghost s = arranged(all, p@);
    let (number, best) = pick_versions(&rows, &p);
    let mut out: Vec<SpanRecord> = Vec::new();
    let mut k: usize = 0;
    assert(record_spans(out@) =~= survivors(s, 0));
    while k < p.len()
        invariant
            k <= p@.len(),
            p@.len() == rows@.len(),
            number@.len() == p@.len(),
            all == record_spans(rows@),
            s == arranged(all, p@),
            forall|i: int| 0 <= i < p@.len() ==> 0 <= #[trigger] p@[i] < rows@.len(),
            forall|i: int| 0 <= i < p@.len() ==> (#[trigger] number@[i]) < best@.len(),
            forall|i: int|
                0 <= i < p@.len() ==> (best@[#[trigger] number@[i] as int] == i) == unbeaten(
                    s,
                    i,
                    p@.len() as int,
                ),
            record_spans(out@) == survivors(s, k as nat),
        decreases p.len() - k,
    {
        if best[number[k]] == k {
            let ghost prev = out@;
            let r = rows[p[k]].copy();
            out.push(r);
            assert(record_spans(out@) =~= record_spans(prev).push(s[k as int]));
        }
        k = k + 1;
    }
    out
}

/// Merges log objects: all their rows, sorted, with the latest version of each span.
pub fn merge_wals(objects: &Vec<WalObject>) -> (r: MergedRows)
    requires
        forall|i: int| 0 <= i < objects@.len() ==> object_ids_fit(#[trigger] objects@[i]),
    ensures
        is_merged(object_spans(objects@, objects@.len()), record_spans(r.rows@)),
        r.commit_id_max.0 == highest_commit(objects@, objects@.len()),
{
    let mut all: Vec<SpanRecord> = Vec::new();
    let mut commit_id_max = CommitId(0);
    let mut i: usize = 0;
    assert(record_spans(all@) =~= object_spans(objects@, 0));
    while i < objects.len()
        invariant
            i <= objects@.len(),
            forall|i: int| 0 <= i < objects@.len() ==> object_ids_fit(#[trigger] objects@[i]),
            record_spans(all@) == object_spans(objects@, i as nat),
            commit_id_max.0 == highest_commit(objects@, i as nat),
        decreases objects.len() - i,
    {
        let object = &objects[i];
        assert(object_ids_fit(*object));
        if object.commit_id.0 > commit_id_max.0 {
            commit_id_max = object.commit_id;
        }
        let ghost batches = batch_views(object.batches@);
        let ghost before = object_spans(objects@, i as nat);
        let mut k: usize = 0;
        assert(record_spans(all@) =~= before + batch_spans(batches, 0));
        while k < object.batches.len()
            invariant
                k <= object.batches@.len(),
                batches == batch_views(object.batches@),
                object_ids_fit(*object),
                record_spans(all@) == before + batch_spans(batches, k as nat),
            decreases object.batches.len() - k,
        {
            arrow_to_records(&object.batches[k], &mut all);
            assert(record_spans(all@) =~= before + batch_spans(batches, (k + 1) as nat));
            k = k + 1;
        }
        i = i + 1;
    }
    MergedRows { rows: merge_records(all), commit_id_max }
}

} // verus!
