//! Orders on values and a stable sort.
use vstd::prelude::*;

verus! {

/// Lexicographic order on byte strings, the empty string first.
pub open spec fn lex_le(a: Seq<u8>, b: Seq<u8>) -> bool
    decreases a.len(),
{
    if a.len() == 0 {
        true
    } else if b.len() == 0 {
        false
    } else {
        a[0] < b[0] || (a[0] == b[0] && lex_le(a.drop_first(), b.drop_first()))
    }
}

/// Strictly less in lexicographic order.
pub open spec fn lex_lt(a: Seq<u8>, b: Seq<u8>) -> bool {
    lex_le(a, b) && !lex_le(b, a)
}

pub proof fn lemma_lex_total(a: Seq<u8>, b: Seq<u8>)
    ensures
        lex_le(a, b) || lex_le(b, a),
    decreases a.len(),
{
    if a.len() > 0 && b.len() > 0 {
        lemma_lex_total(a.drop_first(), b.drop_first());
    }
}

pub proof fn lemma_lex_transitive(a: Seq<u8>, b: Seq<u8>, c: Seq<u8>)
    requires
        lex_le(a, b),
        lex_le(b, c),
    ensures
        lex_le(a, c),
    decreases a.len(),
{
    if a.len() > 0 && b.len() > 0 && c.len() > 0 && a[0] == b[0] && b[0] == c[0] {
        lemma_lex_transitive(a.drop_first(), b.drop_first(), c.drop_first());
    }
}

pub proof fn lemma_lex_antisymmetric(a: Seq<u8>, b: Seq<u8>)
    requires
        lex_le(a, b),
        lex_le(b, a),
    ensures
        a == b,
    decreases a.len(),
{
    if a.len() == 0 || b.len() == 0 {
        assert(a =~= b);
    } else {
        lemma_lex_antisymmetric(a.drop_first(), b.drop_first());
        assert(a =~= seq![a[0]] + a.drop_first());
        assert(b =~= seq![b[0]] + b.drop_first());
    }
}

/// Whether `a` stands before or equals `b` in lexicographic order.
pub fn bytes_le(a: &[u8], b: &[u8]) -> (r: bool)
    ensures
        r == lex_le(a@, b@),
{
    let mut i: usize = 0;
    assert(a@.skip(0) =~= a@);
    assert(b@.skip(0) =~= b@);
    while i < a.len() && i < b.len()
        invariant
            i <= a.len(),
            i <= b.len(),
            lex_le(a@, b@) == lex_le(a@.skip(i as int), b@.skip(i as int)),
        decreases a.len() - i,
    {
        assert(a@.skip(i as int).drop_first() =~= a@.skip(i + 1));
        assert(b@.skip(i as int).drop_first() =~= b@.skip(i + 1));
        if a[i] < b[i] {
            return true;
        }
        if a[i] > b[i] {
            return false;
        }
        i = i + 1;
    }
    i >= a.len()
}

/// Whether two byte strings are equal.
pub fn bytes_eq(a: &[u8], b: &[u8]) -> (r: bool)
    ensures
        r == (a@ == b@),
{
    if a.len() != b.len() {
        return false;
    }
    let mut i: usize = 0;
    while i < a.len()
        invariant
            i <= a.len(),
            a@.len() == b@.len(),
            forall|k: int| 0 <= k < i ==> a@[k] == b@[k],
        decreases a.len() - i,
    {
        if a[i] != b[i] {
            return false;
        }
        i = i + 1;
    }
    assert(a@ =~= b@);
    true
}

/// A total preorder. Values that precede each other both ways have the same rank.
pub trait Ranked: Sized {
    spec fn precedes(&self, other: &Self) -> bool;

    proof fn precedes_total(a: &Self, b: &Self)
        ensures
            a.precedes(b) || b.precedes(a),
    ;

    proof fn precedes_transitive(a: &Self, b: &Self, c: &Self)
        requires
            a.precedes(b),
            b.precedes(c),
        ensures
            a.precedes(c),
    ;

    fn is_before(&self, other: &Self) -> (r: bool)
        ensures
            r == self.precedes(other),
    ;
}

impl Ranked for Vec<u8> {
    open spec fn precedes(&self, other: &Self) -> bool {
        lex_le(self@, other@)
    }

    proof fn precedes_total(a: &Self, b: &Self) {
        lemma_lex_total(a@, b@);
    }

    proof fn precedes_transitive(a: &Self, b: &Self, c: &Self) {
        lemma_lex_transitive(a@, b@, c@);
    }

    fn is_before(&self, other: &Self) -> (r: bool) {
        bytes_le(self.as_slice(), other.as_slice())
    }
}

/// The item at `a` comes before the item at `b` in a stable sort: it ranks lower, or
/// the same and stood first.
pub open spec fn stable_before<T: Ranked>(items: Seq<T>, a: int, b: int) -> bool {
    items[a].precedes(&items[b]) && (items[b].precedes(&items[a]) ==> a < b)
}

/// The index `k` occurs in `p`.
pub open spec fn lists(p: Seq<usize>, k: int) -> bool {
    exists|i: int| 0 <= i < p.len() && #[trigger] p[i] == k
}

/// `p` lists the indices `lo..hi` once each, in stable order of their items.
pub open spec fn is_stable_order_of<T: Ranked>(
    items: Seq<T>,
    p: Seq<usize>,
    lo: int,
    hi: int,
) -> bool {
    &&& p.len() == hi - lo
    &&& forall|i: int| 0 <= i < p.len() ==> lo <= #[trigger] p[i] < hi
    &&& forall|i: int, j: int|
        0 <= i < j < p.len() ==> stable_before(items, #[trigger] p[i] as int, #[trigger] p[j] as int)
    &&& forall|k: int| lo <= k < hi ==> #[trigger] lists(p, k)
}

/// `p` lists all indices once each, in stable order of their items.
pub open spec fn is_stable_order<T: Ranked>(items: Seq<T>, p: Seq<usize>) -> bool {
    is_stable_order_of(items, p, 0, items.len() as int)
}

proof fn lemma_stable_transitive<T: Ranked>(items: Seq<T>, a: int, b: int, c: int)
    requires
        stable_before(items, a, b),
        stable_before(items, b, c),
    ensures
        stable_before(items, a, c),
{
    T::precedes_transitive(&items[a], &items[b], &items[c]);
    if items[c].precedes(&items[a]) {
        T::precedes_transitive(&items[c], &items[a], &items[b]);
        T::precedes_transitive(&items[b], &items[c], &items[a]);
    }
}

/// There is one stable order only.
pub proof fn stable_order_unique<T: Ranked>(items: Seq<T>, p: Seq<usize>, q: Seq<usize>)
    requires
        is_stable_order(items, p),
        is_stable_order(items, q),
    ensures
        p == q,
{
    lemma_stable_unique_prefix(items, p, q, p.len() as int);
    assert(p =~= q);
}

proof fn lemma_stable_unique_prefix<T: Ranked>(
    items: Seq<T>,
    p: Seq<usize>,
    q: Seq<usize>,
    n: int,
)
    requires
        is_stable_order(items, p),
        is_stable_order(items, q),
        0 <= n <= p.len(),
    ensures
        forall|i: int| 0 <= i < n ==> p[i] == q[i],
    decreases n,
{
    if n > 0 {
        let i = n - 1;
        lemma_stable_unique_prefix(items, p, q, i);
        if p[i] != q[i] {
            let x = p[i] as int;
            let y = q[i] as int;
            assert(lists(q, x) && lists(p, y));
            let j = choose|j: int| 0 <= j < q.len() && #[trigger] q[j] == x;
            let k = choose|k: int| 0 <= k < p.len() && #[trigger] p[k] == y;
            assert(q[j] == x && p[k] == y);
            if j < i {
                assert(p[j] == q[j]);
                assert(stable_before(items, p[j] as int, p[i] as int));
            }
            if k < i {
                assert(p[k] == q[k]);
                assert(stable_before(items, q[k] as int, q[i] as int));
            }
            assert(stable_before(items, q[i] as int, q[j] as int));
            assert(stable_before(items, p[i] as int, p[k] as int));
        }
    }
}

/// Merges two neighbouring sorted ranges.
fn merge_orders<T: Ranked>(
    items: &[T],
    left: &Vec<usize>,
    right: &Vec<usize>,
    Ghost(lo): Ghost<int>,
    Ghost(mid): Ghost<int>,
    Ghost(hi): Ghost<int>,
) -> (r: Vec<usize>)
    requires
        0 <= lo <= mid <= hi <= items@.len(),
        is_stable_order_of(items@, left@, lo, mid),
        is_stable_order_of(items@, right@, mid, hi),
    ensures
        is_stable_order_of(items@, r@, lo, hi),
{
    let mut out: Vec<usize> = Vec::new();
    let mut i: usize = 0;
    let mut j: usize = 0;
    while i < left.len() || j < right.len()
        invariant
            0 <= lo <= mid <= hi <= items@.len(),
            is_stable_order_of(items@, left@, lo, mid),
            is_stable_order_of(items@, right@, mid, hi),
            i <= left@.len(),
            j <= right@.len(),
            out@.len() == i + j,
            forall|k: int| 0 <= k < out@.len() ==> lo <= #[trigger] out@[k] < hi,
            forall|a: int, b: int|
                0 <= a < b < out@.len() ==> stable_before(
                    items@,
                    #[trigger] out@[a] as int,
                    #[trigger] out@[b] as int,
                ),
            forall|a: int, b: int|
                0 <= a < out@.len() && i <= b < left@.len() ==> stable_before(
                    items@,
                    #[trigger] out@[a] as int,
                    #[trigger] left@[b] as int,
                ),
            forall|a: int, b: int|
                0 <= a < out@.len() && j <= b < right@.len() ==> stable_before(
                    items@,
                    #[trigger] out@[a] as int,
                    #[trigger] right@[b] as int,
                ),
            forall|a: int| 0 <= a < i ==> lists(out@, #[trigger] left@[a] as int),
            forall|a: int| 0 <= a < j ==> lists(out@, #[trigger] right@[a] as int),
        decreases left.len() - i + right.len() - j,
    {
        let take_left: bool = if i >= left.len() {
            false
        } else if j >= right.len() {
            true
        } else {
            items[left[i]].is_before(&items[right[j]])
        };
        let ghost before = out@;
        if take_left {
            let x: usize = left[i];
            proof {
                assert forall|b: int| j <= b < right@.len() implies stable_before(
                    items@,
                    x as int,
                    #[trigger] right@[b] as int,
                ) by {
                    assert(stable_before(items@, x as int, right@[j as int] as int));
                    if b > j {
                        lemma_stable_transitive(
                            items@,
                            x as int,
                            right@[j as int] as int,
                            right@[b] as int,
                        );
                    }
                }
            }
            out.push(x);
            i = i + 1;
        } else {
            let x: usize = right[j];
            proof {
                assert forall|b: int| i <= b < left@.len() implies stable_before(
                    items@,
                    x as int,
                    #[trigger] left@[b] as int,
                ) by {
                    T::precedes_total(&items@[left@[i as int] as int], &items@[x as int]);
                    assert(stable_before(items@, x as int, left@[i as int] as int));
                    if b > i {
                        lemma_stable_transitive(
                            items@,
                            x as int,
                            left@[i as int] as int,
                            left@[b] as int,
                        );
                    }
                }
            }
            out.push(x);
            j = j + 1;
        }
        proof {
            assert(out@.last() == out@[before.len() as int]);
            assert forall|a: int| 0 <= a < i implies lists(out@, #[trigger] left@[a] as int) by {
                if out@[before.len() as int] != left@[a] {
                    assert(lists(before, left@[a] as int));
                    let k = choose|k: int|
                        0 <= k < before.len() && #[trigger] before[k] == left@[a];
                    assert(out@[k] == left@[a]);
                }
            }
            assert forall|a: int| 0 <= a < j implies lists(out@, #[trigger] right@[a] as int) by {
                if out@[before.len() as int] != right@[a] {
                    assert(lists(before, right@[a] as int));
                    let k = choose|k: int|
                        0 <= k < before.len() && #[trigger] before[k] == right@[a];
                    assert(out@[k] == right@[a]);
                }
            }
        }
    }
    proof {
        assert forall|k: int| lo <= k < hi implies #[trigger] lists(out@, k) by {
            if k < mid {
                assert(lists(left@, k));
                let a = choose|a: int| 0 <= a < left@.len() && #[trigger] left@[a] == k;
                assert(left@[a] == k);
            } else {
                assert(lists(right@, k));
                let a = choose|a: int| 0 <= a < right@.len() && #[trigger] right@[a] == k;
                assert(right@[a] == k);
            }
        }
    }
    out
}

fn sort_range<T: Ranked>(items: &[T], lo: usize, hi: usize) -> (r: Vec<usize>)
    requires
        lo <= hi <= items@.len(),
    ensures
        is_stable_order_of(items@, r@, lo as int, hi as int),
    decreases hi - lo,
{
    if hi - lo == 0 {
        return Vec::new();
    }
    if hi - lo == 1 {
        let mut one: Vec<usize> = Vec::new();
        one.push(lo);
        assert(one@[0] == lo);
        return one;
    }
    let mid: usize = lo + (hi - lo) / 2;
    let left: Vec<usize> = sort_range(items, lo, mid);
    let right: Vec<usize> = sort_range(items, mid, hi);
    merge_orders(items, &left, &right, Ghost(lo as int), Ghost(mid as int), Ghost(hi as int))
}

/// The indices of `items` in stable sorted order.
pub fn sort_order<T: Ranked>(items: &[T]) -> (r: Vec<usize>)
    ensures
        is_stable_order(items@, r@),
{
    sort_range(items, 0, items.len())
}

/// The first byte in which two strings differ decides their order.
pub proof fn first_difference_decides(a: Seq<u8>, b: Seq<u8>, n: int)
    requires
        0 <= n < a.len(),
        n < b.len(),
        forall|i: int| 0 <= i < n ==> a[i] == b[i],
        a[n] != b[n],
    ensures
        lex_le(a, b) <==> a[n] < b[n],
        lex_lt(a, b) <==> a[n] < b[n],
    decreases n,
{
    if n > 0 {
        let x = a.drop_first();
        let y = b.drop_first();
        assert(a[0] == b[0]);
        assert forall|i: int| 0 <= i < n - 1 implies x[i] == y[i] by {
            assert(a[i + 1] == b[i + 1]);
        }
        first_difference_decides(x, y, n - 1);
    }
}

/// A string comes before every longer one that it begins, and not before a shorter one.
pub proof fn prefixes_come_first(a: Seq<u8>, b: Seq<u8>)
    ensures
        lex_le(a, a + b),
        b.len() > 0 ==> !lex_le(a + b, a),
    decreases a.len(),
{
    if a.len() > 0 {
        prefixes_come_first(a.drop_first(), b);
        assert((a + b).drop_first() =~= a.drop_first() + b);
    } else {
        assert(a + b =~= b);
    }
}

} // verus!
