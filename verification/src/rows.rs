//! Views of lists of byte strings, and their concatenation.
use vstd::prelude::*;

verus! {

/// The contents of a list of owned byte strings.
pub open spec fn byte_rows(v: Seq<Vec<u8>>) -> Seq<Seq<u8>> {
    Seq::new(v.len(), |i: int| v[i]@)
}

/// The contents of a list of borrowed byte strings.
pub open spec fn slice_rows(v: Seq<&[u8]>) -> Seq<Seq<u8>> {
    Seq::new(v.len(), |i: int| v[i]@)
}

/// All byte strings one after the other.
pub open spec fn flat(parts: Seq<Seq<u8>>) -> Seq<u8>
    decreases parts.len(),
{
    if parts.len() == 0 {
        Seq::empty()
    } else {
        flat(parts.drop_last()) + parts.last()
    }
}

/// Where the part at `i` begins in the concatenation.
pub open spec fn offset_of(parts: Seq<Seq<u8>>, i: int) -> nat {
    flat(parts.take(i)).len()
}

pub proof fn lemma_flat_push(parts: Seq<Seq<u8>>, part: Seq<u8>)
    ensures
        flat(parts.push(part)) == flat(parts) + part,
{
    assert(parts.push(part).drop_last() =~= parts);
}

/// The first part and the rest.
pub proof fn lemma_flat_first(parts: Seq<Seq<u8>>)
    requires
        parts.len() > 0,
    ensures
        flat(parts) == parts[0] + flat(parts.drop_first()),
    decreases parts.len(),
{
    let init = parts.drop_last();
    if parts.len() == 1 {
        assert(init =~= Seq::empty());
        assert(parts.drop_first() =~= Seq::empty());
        assert(flat(parts) =~= parts[0] + flat(parts.drop_first()));
    } else {
        lemma_flat_first(init);
        assert(parts.drop_first().drop_last() =~= init.drop_first());
        assert(flat(parts) =~= parts[0] + flat(parts.drop_first()));
    }
}

/// A part stands at its offset, and the next part begins where it ends.
pub proof fn lemma_flat_at(parts: Seq<Seq<u8>>, i: int)
    requires
        0 <= i < parts.len(),
    ensures
        offset_of(parts, i) + parts[i].len() == offset_of(parts, i + 1),
        offset_of(parts, i + 1) <= flat(parts).len(),
        flat(parts).subrange(offset_of(parts, i) as int, offset_of(parts, i + 1) as int)
            == parts[i],
    decreases parts.len(),
{
    let init = parts.drop_last();
    if i == parts.len() - 1 {
        assert(parts.take(i) =~= init);
        assert(parts.take(i + 1) =~= parts);
        assert(flat(parts).subrange(offset_of(parts, i) as int, offset_of(parts, i + 1) as int)
            =~= parts[i]);
    } else {
        lemma_flat_at(init, i);
        assert(init.take(i) =~= parts.take(i));
        assert(init.take(i + 1) =~= parts.take(i + 1));
        assert(flat(parts).subrange(offset_of(parts, i) as int, offset_of(parts, i + 1) as int)
            =~= flat(init).subrange(offset_of(parts, i) as int, offset_of(parts, i + 1) as int));
    }
}

pub proof fn lemma_offset_zero(parts: Seq<Seq<u8>>)
    ensures
        offset_of(parts, 0) == 0,
        offset_of(parts, parts.len() as int) == flat(parts).len(),
{
    assert(parts.take(0) =~= Seq::empty());
    assert(parts.take(parts.len() as int) =~= parts);
}

/// All parts have the size `k`.
pub open spec fn uniform(parts: Seq<Seq<u8>>, k: nat) -> bool {
    forall|i: int| 0 <= i < parts.len() ==> (#[trigger] parts[i]).len() == k
}

pub proof fn lemma_flat_uniform_len(parts: Seq<Seq<u8>>, k: nat)
    requires
        uniform(parts, k),
    ensures
        flat(parts).len() == parts.len() * k,
    decreases parts.len(),
{
    if parts.len() > 0 {
        let init = parts.drop_last();
        assert(parts.last().len() == k);
        assert(uniform(init, k)) by {
            assert forall|i: int| 0 <= i < init.len() implies (#[trigger] init[i]).len() == k by {
                assert(init[i] == parts[i]);
            }
        }
        lemma_flat_uniform_len(init, k);
        assert((parts.len() - 1) * k + k == parts.len() * k) by (nonlinear_arith);
    }
}

/// Parts of one size `k` stand at multiples of `k`.
pub proof fn lemma_flat_uniform_at(parts: Seq<Seq<u8>>, k: nat, i: int)
    requires
        uniform(parts, k),
        0 <= i < parts.len(),
    ensures
        0 <= i * k,
        i * k + k <= flat(parts).len(),
        flat(parts).subrange(i * k, i * k + k) == parts[i],
{
    lemma_flat_at(parts, i);
    let head = parts.take(i);
    assert(uniform(head, k)) by {
        assert forall|j: int| 0 <= j < head.len() implies (#[trigger] head[j]).len() == k by {
            assert(head[j] == parts[j]);
        }
    }
    lemma_flat_uniform_len(head, k);
    assert(parts[i].len() == k);
}

/// A copy of a byte string.
pub fn copy_bytes(bytes: &[u8]) -> (r: Vec<u8>)
    ensures
        r@ == bytes@,
{
    let mut out: Vec<u8> = Vec::new();
    out.extend_from_slice(bytes);
    assert(out@ =~= bytes@);
    out
}

} // verus!
