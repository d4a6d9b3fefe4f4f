//! Little-endian integers on byte sequences.
//!
//! Every on-disk structure of the crate is written with these helpers. The model is
//! arithmetic: a byte sequence stands for the number it spells in base 256, least
//! significant byte first.
use vstd::prelude::*;

verus! {

/// The number that `s` spells in base 256, least significant byte first.
pub open spec fn le(s: Seq<u8>) -> nat
    decreases s.len(),
{
    if s.len() == 0 {
        0
    } else {
        s[0] as nat + 256 * le(s.drop_first())
    }
}

/// The lowest `n` base-256 digits of `v`, least significant first.
pub open spec fn le_bytes(v: nat, n: nat) -> Seq<u8>
    decreases n,
{
    if n == 0 {
        Seq::empty()
    } else {
        seq![(v % 256) as u8] + le_bytes(v / 256, (n - 1) as nat)
    }
}

/// `256` to the power `n`.
pub open spec fn pow256(n: nat) -> nat
    decreases n,
{
    if n == 0 {
        1
    } else {
        256 * pow256((n - 1) as nat)
    }
}

/// The two's complement pattern of a signed 64-bit number.
pub open spec fn i64_pattern(v: i64) -> nat {
    if v >= 0 {
        v as nat
    } else {
        (v + 0x1_0000_0000_0000_0000) as nat
    }
}

/// The signed number whose two's complement pattern is `p`.
pub open spec fn i64_of_pattern(p: nat) -> i64 {
    if p < 0x8000_0000_0000_0000 {
        p as i64
    } else {
        (p - 0x1_0000_0000_0000_0000) as i64
    }
}

pub proof fn lemma_pow256_values()
    ensures
        pow256(0) == 1,
        pow256(1) == 0x100,
        pow256(2) == 0x1_0000,
        pow256(4) == 0x1_0000_0000,
        pow256(8) == 0x1_0000_0000_0000_0000,
        pow256(16) == 0x1_0000_0000_0000_0000_0000_0000_0000_0000,
{
    reveal_with_fuel(pow256, 17);
}

pub proof fn lemma_le_bytes_len(v: nat, n: nat)
    ensures
        le_bytes(v, n).len() == n,
    decreases n,
{
    if n > 0 {
        lemma_le_bytes_len(v / 256, (n - 1) as nat);
    }
}

/// Reading back the digits of a number that fits gives the number.
pub proof fn lemma_le_of_le_bytes(v: nat, n: nat)
    requires
        v < pow256(n),
    ensures
        le(le_bytes(v, n)) == v,
        le_bytes(v, n).len() == n,
    decreases n,
{
    lemma_le_bytes_len(v, n);
    if n > 0 {
        let rest = le_bytes(v / 256, (n - 1) as nat);
        lemma_le_of_le_bytes(v / 256, (n - 1) as nat);
        assert(le_bytes(v, n).drop_first() =~= rest);
    }
}

/// A byte sequence is the digits of the number that it spells.
pub proof fn lemma_le_bytes_of_le(s: Seq<u8>)
    ensures
        le_bytes(le(s), s.len()) == s,
        le(s) < pow256(s.len()),
    decreases s.len(),
{
    if s.len() > 0 {
        let rest = s.drop_first();
        lemma_le_bytes_of_le(rest);
        assert(le(s) == s[0] as nat + 256 * le(rest));
        assert(le(s) / 256 == le(rest));
        assert(le(s) % 256 == s[0] as nat);
        assert(seq![s[0]] + rest =~= s);
    } else {
        assert(le_bytes(le(s), s.len()) =~= s);
    }
}

/// Only the lowest `n` digits of a number matter to its `n`-byte form.
pub proof fn lemma_le_bytes_mod(v: nat, n: nat)
    ensures
        le_bytes(v % pow256(n), n) == le_bytes(v, n),
        pow256(n) > 0,
    decreases n,
{
    if n > 0 {
        let m = (n - 1) as nat;
        lemma_le_bytes_mod(v / 256, m);
        let p = pow256(m);
        vstd::arithmetic::div_mod::lemma_mod_breakdown(v as int, 256, p as int);
        let w = v % (256 * p);
        assert(w == 256 * ((v / 256) % p) + v % 256);
        assert(w % 256 == v % 256);
        assert(w / 256 == (v / 256) % p);
    }
}

/// The two's complement pattern of `v`.
pub fn i64_to_u64(v: i64) -> (r: u64)
    ensures
        r == i64_pattern(v),
{
    assert(v < 0 ==> (v as u64) == v + 0x1_0000_0000_0000_0000) by (bit_vector);
    v as u64
}

/// The signed number with the two's complement pattern `p`.
pub fn u64_to_i64(p: u64) -> (r: i64)
    ensures
        r == i64_of_pattern(p as nat),
{
    assert(p >= 0x8000_0000_0000_0000u64 ==> (p as i64) == p - 0x1_0000_0000_0000_0000) by (bit_vector);
    p as i64
}

/// The low 32 bits of a length.
pub fn low_u32(x: usize) -> (r: u32)
    ensures
        r as nat == (x as nat) % 0x1_0000_0000,
{
    (x as u64 % 0x1_0000_0000u64) as u32
}

pub fn put_u8(out: &mut Vec<u8>, v: u8)
    ensures
        final(out)@ == old(out)@ + le_bytes(v as nat, 1),
{
    proof {
        reveal_with_fuel(le_bytes, 2);
        assert(le_bytes(v as nat, 1) =~= seq![v]);
    }
    out.push(v);
}

/// Appends the lowest `n` bytes of `v`.
fn put_le(out: &mut Vec<u8>, v: u64, n: usize)
    ensures
        final(out)@ == old(out)@ + le_bytes(v as nat, n as nat),
{
    let mut rest: u64 = v;
    let mut i: usize = 0;
    assert(out@ + le_bytes(rest as nat, n as nat) == old(out)@ + le_bytes(v as nat, n as nat));
    while i < n
        invariant
            i <= n,
            out@ + le_bytes(rest as nat, (n - i) as nat) == old(out)@ + le_bytes(v as nat, n as nat),
        decreases n - i,
    {
        let ghost before = out@;
        let ghost tail = le_bytes((rest / 256) as nat, (n - i - 1) as nat);
        let b: u8 = (rest % 256) as u8;
        out.push(b);
        proof {
            assert(before + (seq![b] + tail) =~= out@ + tail);
        }
        rest = rest / 256;
        i = i + 1;
    }
    assert(out@ + le_bytes(rest as nat, 0) =~= out@);
}

pub fn put_u16(out: &mut Vec<u8>, v: u16)
    ensures
        final(out)@ == old(out)@ + le_bytes(v as nat, 2),
{
    put_le(out, v as u64, 2);
}

pub fn put_u32(out: &mut Vec<u8>, v: u32)
    ensures
        final(out)@ == old(out)@ + le_bytes(v as nat, 4),
{
    put_le(out, v as u64, 4);
}

/// Appends the low 32 bits of a length.
pub fn put_len32(out: &mut Vec<u8>, v: usize)
    ensures
        final(out)@ == old(out)@ + le_bytes(v as nat, 4),
{
    proof {
        lemma_pow256_values();
        lemma_le_bytes_mod(v as nat, 4);
    }
    put_u32(out, low_u32(v));
}

pub fn put_u64(out: &mut Vec<u8>, v: u64)
    ensures
        final(out)@ == old(out)@ + le_bytes(v as nat, 8),
{
    put_le(out, v, 8);
}

pub fn put_i64(out: &mut Vec<u8>, v: i64)
    ensures
        final(out)@ == old(out)@ + le_bytes(i64_pattern(v), 8),
{
    put_u64(out, i64_to_u64(v));
}

/// Appends a whole byte slice.
pub fn put_slice(out: &mut Vec<u8>, bytes: &[u8])
    ensures
        final(out)@ == old(out)@ + bytes@,
{
    out.extend_from_slice(bytes);
    assert(out@ =~= old(out)@ + bytes@);
}

/// Reads the `n` bytes at `pos` as a little-endian number.
fn get_le(buf: &[u8], pos: usize, n: usize) -> (r: u64)
    requires
        pos + n <= buf@.len(),
        n <= 8,
    ensures
        r == le(buf@.subrange(pos as int, pos + n)),
{
    let mut acc: u64 = 0;
    let mut i: usize = n;
    let ghost whole = buf@.subrange(pos as int, pos + n);
    assert(whole.subrange(n as int, n as int) =~= Seq::empty());
    proof {
        lemma_pow256_values();
    }
    while i > 0
        invariant
            i <= n <= 8,
            pos + n <= buf.len(),
            whole == buf@.subrange(pos as int, pos + n),
            acc == le(whole.subrange(i as int, n as int)),
        decreases i,
    {
        let ghost tail = whole.subrange(i as int, n as int);
        let ghost longer = whole.subrange(i - 1, n as int);
        proof {
            lemma_le_bytes_of_le(tail);
            lemma_le_bytes_of_le(longer);
            assert(longer.drop_first() =~= tail);
            lemma_pow256_mono(longer.len(), 8);
            lemma_pow256_values();
        }
        acc = acc * 256 + buf[pos + i - 1] as u64;
        i = i - 1;
    }
    assert(whole.subrange(0, n as int) =~= whole);
    acc
}

pub proof fn lemma_pow256_mono(a: nat, b: nat)
    requires
        a <= b,
    ensures
        0 < pow256(a) <= pow256(b),
    decreases b,
{
    if a < b {
        lemma_pow256_mono(a, (b - 1) as nat);
    } else if a > 0 {
        lemma_pow256_mono((a - 1) as nat, (b - 1) as nat);
    }
}

pub fn get_u16(buf: &[u8], pos: usize) -> (r: u16)
    requires
        pos + 2 <= buf@.len(),
    ensures
        r == le(buf@.subrange(pos as int, pos + 2)),
{
    proof {
        lemma_le_bytes_of_le(buf@.subrange(pos as int, pos + 2));
        lemma_pow256_values();
    }
    get_le(buf, pos, 2) as u16
}

pub fn get_u32(buf: &[u8], pos: usize) -> (r: u32)
    requires
        pos + 4 <= buf@.len(),
    ensures
        r == le(buf@.subrange(pos as int, pos + 4)),
{
    proof {
        lemma_le_bytes_of_le(buf@.subrange(pos as int, pos + 4));
        lemma_pow256_values();
    }
    get_le(buf, pos, 4) as u32
}

pub fn get_u64(buf: &[u8], pos: usize) -> (r: u64)
    requires
        pos + 8 <= buf@.len(),
    ensures
        r == le(buf@.subrange(pos as int, pos + 8)),
{
    get_le(buf, pos, 8)
}

pub fn get_i64(buf: &[u8], pos: usize) -> (r: i64)
    requires
        pos + 8 <= buf@.len(),
    ensures
        r == i64_of_pattern(le(buf@.subrange(pos as int, pos + 8))),
{
    u64_to_i64(get_u64(buf, pos))
}

/// The number that `s` spells in base 256, most significant byte first.
pub open spec fn be(s: Seq<u8>) -> nat
    decreases s.len(),
{
    if s.len() == 0 {
        0
    } else {
        256 * be(s.drop_last()) + s.last() as nat
    }
}

/// The lowest `n` base-256 digits of `v`, most significant first.
pub open spec fn be_bytes(v: nat, n: nat) -> Seq<u8>
    decreases n,
{
    if n == 0 {
        Seq::empty()
    } else {
        be_bytes(v / 256, (n - 1) as nat).push((v % 256) as u8)
    }
}

pub proof fn lemma_be_of_be_bytes(v: nat, n: nat)
    requires
        v < pow256(n),
    ensures
        be(be_bytes(v, n)) == v,
        be_bytes(v, n).len() == n,
    decreases n,
{
    if n > 0 {
        lemma_be_of_be_bytes(v / 256, (n - 1) as nat);
        assert(be_bytes(v, n).drop_last() =~= be_bytes(v / 256, (n - 1) as nat));
    }
}

pub proof fn lemma_be_bytes_of_be(s: Seq<u8>)
    ensures
        be_bytes(be(s), s.len()) == s,
        be(s) < pow256(s.len()),
    decreases s.len(),
{
    if s.len() > 0 {
        let init = s.drop_last();
        lemma_be_bytes_of_be(init);
        assert(be(s) / 256 == be(init));
        assert(init.push(s.last()) =~= s);
    } else {
        assert(be_bytes(be(s), s.len()) =~= s);
    }
}

/// What is written with a 32-bit length or count reads back as that number.
pub proof fn lemma_u32_round_trip(v: nat)
    requires
        v <= u32::MAX,
    ensures
        le(le_bytes(v, 4)) == v,
        le_bytes(v, 4).len() == 4,
{
    lemma_pow256_values();
    lemma_le_of_le_bytes(v, 4);
}

/// What is written as a signed 64-bit number reads back as that number.
pub proof fn lemma_i64_round_trip(v: i64)
    ensures
        i64_of_pattern(le(le_bytes(i64_pattern(v), 8))) == v,
        le_bytes(i64_pattern(v), 8).len() == 8,
{
    lemma_pow256_values();
    lemma_le_of_le_bytes(i64_pattern(v), 8);
}

} // verus!
