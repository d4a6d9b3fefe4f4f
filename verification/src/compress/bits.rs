//! Bit streams, least significant bit first.
//!
//! A stream is modelled as a `Seq<bool>`. Numbers enter and leave it in binary, lowest
//! bit first, and bytes are the stream cut into groups of eight.
use crate::common::errors::ZenError;
use crate::wire::{le, le_bytes, lemma_le_bytes_len, lemma_le_bytes_of_le, pow256};
use vstd::arithmetic::div_mod::{
    lemma_div_denominator, lemma_fundamental_div_mod_converse, lemma_mod_breakdown,
};
use vstd::arithmetic::power2::{
    lemma_pow2_adds, lemma_pow2_pos, lemma_pow2_strictly_increases, lemma_pow2_unfold, lemma2_to64,
    pow2,
};
use vstd::bits::{lemma_u64_pow2_no_overflow, lemma_u64_shl_is_mul, lemma_u64_shr_is_div};
use vstd::prelude::*;

verus! {

/// The lowest `n` binary digits of `v`, lowest first.
pub open spec fn nat_bits(v: nat, n: nat) -> Seq<bool>
    decreases n,
{
    if n == 0 {
        Seq::empty()
    } else {
        seq![v % 2 == 1] + nat_bits(v / 2, (n - 1) as nat)
    }
}

/// The number whose binary digits are `s`, lowest first.
pub open spec fn bits_nat(s: Seq<bool>) -> nat
    decreases s.len(),
{
    if s.len() == 0 {
        0
    } else {
        (if s[0] { 1nat } else { 0nat }) + 2 * bits_nat(s.drop_first())
    }
}

/// The bits of a byte sequence, first byte first.
pub open spec fn bytes_bits(s: Seq<u8>) -> Seq<bool> {
    nat_bits(le(s), 8 * s.len())
}

/// How many bytes hold `n` bits.
pub open spec fn byte_count(n: nat) -> nat {
    (n + 7) / 8
}

/// The bytes of a bit stream; the last byte is filled up with zero bits.
pub open spec fn pack(s: Seq<bool>) -> Seq<u8> {
    le_bytes(bits_nat(s), byte_count(s.len()))
}

pub proof fn lemma_nat_bits_len(v: nat, n: nat)
    ensures
        nat_bits(v, n).len() == n,
    decreases n,
{
    if n > 0 {
        lemma_nat_bits_len(v / 2, (n - 1) as nat);
    }
}

/// The first `k` digits and the rest.
pub proof fn lemma_nat_bits_split(v: nat, k: nat, m: nat)
    ensures
        nat_bits(v, k + m) == nat_bits(v, k) + nat_bits(v / pow2(k), m),
    decreases k,
{
    lemma_pow2_pos(k);
    if k == 0 {
        lemma2_to64();
        assert(nat_bits(v, k) + nat_bits(v / pow2(k), m) =~= nat_bits(v, m));
    } else {
        let j = (k - 1) as nat;
        lemma_nat_bits_split(v / 2, j, m);
        lemma_pow2_pos(j);
        lemma_pow2_unfold(k);
        lemma_div_denominator(v as int, 2, pow2(j) as int);
        assert((v / 2) / pow2(j) == v / pow2(k));
        assert(seq![v % 2 == 1] + (nat_bits(v / 2, j) + nat_bits(v / pow2(k), m)) =~= (seq![
            v % 2 == 1,
        ] + nat_bits(v / 2, j)) + nat_bits(v / pow2(k), m));
    }
}

/// Only the lowest `k` digits matter to the first `k` bits.
pub proof fn lemma_nat_bits_mod(v: nat, k: nat)
    ensures
        nat_bits(v % pow2(k), k) == nat_bits(v, k),
    decreases k,
{
    if k > 0 {
        let j = (k - 1) as nat;
        lemma_nat_bits_mod(v / 2, j);
        lemma_pow2_pos(j);
        lemma_pow2_unfold(k);
        lemma_mod_breakdown(v as int, 2, pow2(j) as int);
        let w = v % pow2(k);
        assert(w == 2 * ((v / 2) % pow2(j)) + v % 2);
        assert(w % 2 == v % 2);
        assert(w / 2 == (v / 2) % pow2(j));
        assert(nat_bits(w, k) == seq![w % 2 == 1] + nat_bits(w / 2, j));
        assert(nat_bits(v, k) == seq![v % 2 == 1] + nat_bits(v / 2, j));
    } else {
        lemma2_to64();
        assert(nat_bits(v % pow2(0), 0) =~= nat_bits(v, 0));
    }
}

/// Digits of a number put together from a low and a high part.
pub proof fn lemma_nat_bits_join(a: nat, k: nat, b: nat, m: nat)
    requires
        a < pow2(k),
    ensures
        nat_bits(a + b * pow2(k), k + m) == nat_bits(a, k) + nat_bits(b, m),
{
    let v = a + b * pow2(k);
    lemma_pow2_pos(k);
    lemma_fundamental_div_mod_converse(v as int, pow2(k) as int, b as int, a as int);
    lemma_nat_bits_split(v, k, m);
    lemma_nat_bits_mod(v, k);
}

/// A number that fits into `n` bits is given back by its bits.
pub proof fn lemma_bits_nat_of_nat_bits(v: nat, n: nat)
    requires
        v < pow2(n),
    ensures
        bits_nat(nat_bits(v, n)) == v,
    decreases n,
{
    lemma_nat_bits_len(v, n);
    if n == 0 {
        lemma2_to64();
    } else {
        lemma_pow2_unfold(n);
        lemma_bits_nat_of_nat_bits(v / 2, (n - 1) as nat);
        assert(nat_bits(v, n).drop_first() =~= nat_bits(v / 2, (n - 1) as nat));
    }
}

/// Bits are given back by the number that they spell.
pub proof fn lemma_nat_bits_of_bits_nat(s: Seq<bool>)
    ensures
        nat_bits(bits_nat(s), s.len()) == s,
        bits_nat(s) < pow2(s.len()),
    decreases s.len(),
{
    if s.len() == 0 {
        lemma2_to64();
        assert(nat_bits(bits_nat(s), s.len()) =~= s);
    } else {
        let rest = s.drop_first();
        lemma_nat_bits_of_bits_nat(rest);
        lemma_pow2_unfold(s.len());
        assert(bits_nat(s) / 2 == bits_nat(rest));
        assert(seq![s[0]] + rest =~= s);
    }
}

pub proof fn lemma_bits_nat_concat(a: Seq<bool>, b: Seq<bool>)
    ensures
        bits_nat(a + b) == bits_nat(a) + pow2(a.len()) * bits_nat(b),
    decreases a.len(),
{
    if a.len() == 0 {
        lemma2_to64();
        assert(a + b =~= b);
    } else {
        let rest = a.drop_first();
        lemma_bits_nat_concat(rest, b);
        lemma_pow2_unfold(a.len());
        assert((a + b).drop_first() =~= rest + b);
        assert(2 * (pow2(rest.len()) * bits_nat(b)) == pow2(a.len()) * bits_nat(b))
            by (nonlinear_arith)
            requires
                pow2(a.len()) == 2 * pow2(rest.len()),
        ;
    }
}

pub proof fn lemma_pow256_is_pow2(n: nat)
    ensures
        pow256(n) == pow2(8 * n),
    decreases n,
{
    lemma2_to64();
    if n > 0 {
        lemma_pow256_is_pow2((n - 1) as nat);
        lemma_pow2_adds(8, (8 * (n - 1)) as nat);
        assert(8 + 8 * (n - 1) == 8 * n);
    }
}

pub proof fn lemma_le_concat(a: Seq<u8>, b: Seq<u8>)
    ensures
        le(a + b) == le(a) + pow256(a.len()) * le(b),
    decreases a.len(),
{
    if a.len() == 0 {
        assert(a + b =~= b);
        assert(pow256(0) * le(b) == le(b)) by (nonlinear_arith)
            requires
                pow256(0) == 1,
        ;
    } else {
        let rest = a.drop_first();
        lemma_le_concat(rest, b);
        assert((a + b).drop_first() =~= rest + b);
        assert(256 * (pow256(rest.len()) * le(b)) == pow256(a.len()) * le(b)) by (nonlinear_arith)
            requires
                pow256(a.len()) == 256 * pow256(rest.len()),
        ;
    }
}

/// The bits of concatenated byte sequences.
pub proof fn lemma_bytes_bits_concat(a: Seq<u8>, b: Seq<u8>)
    ensures
        bytes_bits(a + b) == bytes_bits(a) + bytes_bits(b),
{
    lemma_le_concat(a, b);
    lemma_le_bytes_of_le(a);
    lemma_pow256_is_pow2(a.len());
    lemma_nat_bits_join(le(a), 8 * a.len(), le(b), 8 * b.len());
    assert(pow256(a.len()) * le(b) == le(b) * pow2(8 * a.len())) by (nonlinear_arith)
        requires
            pow256(a.len()) == pow2(8 * a.len()),
    ;
    assert(8 * (a + b).len() == 8 * a.len() + 8 * b.len());
}

pub proof fn lemma_le_single(b: u8)
    ensures
        le(seq![b]) == b,
        bytes_bits(seq![b]) == nat_bits(b as nat, 8),
{
    reveal_with_fuel(le, 2);
    assert(seq![b].drop_first() =~= Seq::empty());
}

/// Packing and unpacking gives the stream back, followed by the fill bits.
pub proof fn lemma_unpack(s: Seq<bool>)
    ensures
        bytes_bits(pack(s)).len() >= s.len(),
        bytes_bits(pack(s)).take(s.len() as int) == s,
        pack(s).len() == byte_count(s.len()),
{
    let n = s.len();
    let c = byte_count(n);
    let v = bits_nat(s);
    lemma_nat_bits_of_bits_nat(s);
    lemma_le_bytes_len(v, c);
    lemma_pow256_is_pow2(c);
    if n < 8 * c {
        lemma_pow2_strictly_increases(n, 8 * c);
    }
    crate::wire::lemma_le_of_le_bytes(v, c);
    lemma_nat_bits_split(v, n, (8 * c - n) as nat);
    lemma_nat_bits_len(v, n);
    lemma_nat_bits_len(v, 8 * c);
    assert(n + (8 * c - n) as nat == 8 * c);
    assert(bytes_bits(pack(s)).take(n as int) =~= s);
}

/// Whole bytes at the front of a stream are packed as they are.
pub proof fn lemma_pack_bytes(head: Seq<u8>, tail: Seq<bool>)
    ensures
        pack(bytes_bits(head) + tail) == head + pack(tail),
{
    let n = head.len();
    lemma_le_bytes_of_le(head);
    lemma_pow256_is_pow2(n);
    lemma_nat_bits_len(le(head), 8 * n);
    lemma_bits_nat_of_nat_bits(le(head), 8 * n);
    lemma_bits_nat_concat(bytes_bits(head), tail);
    let x = bits_nat(tail);
    let k = byte_count(tail.len());
    assert(byte_count((bytes_bits(head) + tail).len()) == n + k);
    lemma_le_bytes_prefix(head, x, k);
}

/// The digits of a number whose low digits are `head`.
proof fn lemma_le_bytes_prefix(head: Seq<u8>, x: nat, k: nat)
    ensures
        le_bytes(le(head) + pow256(head.len()) * x, head.len() + k) == head + le_bytes(x, k),
    decreases head.len(),
{
    if head.len() == 0 {
        assert(head + le_bytes(x, k) =~= le_bytes(x, k));
        assert(pow256(0) * x == x) by (nonlinear_arith)
            requires
                pow256(0) == 1,
        ;
    } else {
        let rest = head.drop_first();
        lemma_le_bytes_prefix(rest, x, k);
        let v = le(head) + pow256(head.len()) * x;
        assert(pow256(head.len()) * x == 256 * (pow256(rest.len()) * x)) by (nonlinear_arith)
            requires
                pow256(head.len()) == 256 * pow256(rest.len()),
        ;
        assert(v / 256 == le(rest) + pow256(rest.len()) * x);
        assert(v % 256 == head[0]);
        assert(seq![head[0]] + (rest + le_bytes(x, k)) =~= head + le_bytes(x, k));
    }
}

/// A shifted one is a power of two.
proof fn lemma_one_shl(n: u64)
    requires
        n < 64,
    ensures
        (1u64 << n) == pow2(n as nat),
{
    lemma_u64_pow2_no_overflow(n as nat);
    lemma_u64_shl_is_mul(1, n);
}

/// Collects a bit stream into bytes.
pub struct BitWriter {
    out: Vec<u8>,
    buf: u64,
    bits: u8,
}

impl BitWriter {
    /// The bits written so far.
    pub closed spec fn view(&self) -> Seq<bool> {
        bytes_bits(self.out@) + nat_bits(self.buf as nat, self.bits as nat)
    }

    #[verifier::type_invariant]
    spec fn inv(&self) -> bool {
        &&& self.bits < 8
        &&& self.buf < pow2(self.bits as nat)
    }

    pub fn new() -> (r: Self)
        ensures
            r@ == Seq::<bool>::empty(),
    {
        proof {
            lemma2_to64();
        }
        let r = BitWriter { out: Vec::new(), buf: 0, bits: 0 };
        assert(r@ =~= Seq::empty());
        r
    }

    /// Appends the lowest `n` bits of `value`.
    pub fn write_bits(&mut self, value: u64, n: u8)
        requires
            n <= 64,
        ensures
            final(self)@ == old(self)@ + nat_bits(value as nat, n as nat),
    {
        if n == 0 {
            assert(self@ + nat_bits(value as nat, 0) =~= self@);
            return;
        }
        if n > 32 {
            let hi_n: u8 = n - 32;
            let lo: u64 = value % 0x1_0000_0000;
            let hi: u64 = value / 0x1_0000_0000;
            proof {
                lemma2_to64();
                lemma_nat_bits_mod(value as nat, 32);
                lemma_nat_bits_split(value as nat, 32, hi_n as nat);
            }
            let ghost start = self@;
            self.write_bits_inner(lo, 32);
            self.write_bits_inner(hi, hi_n);
            proof {
                assert(start + nat_bits(lo as nat, 32) + nat_bits(hi as nat, hi_n as nat) =~= start
                    + (nat_bits(value as nat, 32) + nat_bits(hi as nat, hi_n as nat)));
            }
            return;
        }
        self.write_bits_inner(value, n);
    }

    fn write_bits_inner(&mut self, value: u64, n: u8)
        requires
            1 <= n <= 32,
        ensures
            final(self)@ == old(self)@ + nat_bits(value as nat, n as nat),
    {
        proof {
            use_type_invariant(&*self);
            lemma2_to64();
            lemma_one_shl(n as u64);
            lemma_pow2_strictly_increases(n as nat, 33);
            lemma_nat_bits_mod(value as nat, n as nat);
        }
        let masked: u64 = value % (1u64 << n);
        let ghost start = self@;
        let ghost k = self.bits as nat;
        let ghost m = masked as nat;
        let shift: u64 = self.bits as u64;
        proof {
            lemma_pow2_adds(k, n as nat);
            lemma_pow2_strictly_increases(k + n as nat, 64);
            lemma_u64_pow2_no_overflow(k + n as nat);
            assert(m * pow2(k) + pow2(k) <= pow2(n as nat) * pow2(k)) by (nonlinear_arith)
                requires
                    m + 1 <= pow2(n as nat),
            ;
            assert(pow2(n as nat) * pow2(k) == pow2(k) * pow2(n as nat)) by (nonlinear_arith);
            lemma_pow2_strictly_increases(k + n as nat, 41);
            lemma_pow2_pos(k);
            lemma_u64_shl_is_mul(masked, shift);
            lemma_nat_bits_join(self.buf as nat, k, m, n as nat);
        }
        let mut buf: u64 = self.buf + (masked << shift);
        let mut bits: u8 = self.bits + n;
        let mut out: Vec<u8> = Vec::new();
        std::mem::swap(&mut out, &mut self.out);
        self.buf = 0;
        self.bits = 0;
        proof {
            assert(bytes_bits(out@) + (nat_bits(self.buf as nat, 0) + nat_bits(m, n as nat)) =~= bytes_bits(out@) + nat_bits(m, n as nat));
        }
        assert(bytes_bits(out@) + nat_bits(buf as nat, bits as nat) =~= start + nat_bits(m, n as nat));
        while bits >= 8
            invariant
                buf < pow2(bits as nat),
                bits <= 39,
                bytes_bits(out@) + nat_bits(buf as nat, bits as nat) == start + nat_bits(m, n as nat),
            decreases bits,
        {
            let low: u8 = (buf % 256) as u8;
            let ghost before = out@;
            proof {
                lemma2_to64();
                lemma_nat_bits_split(buf as nat, 8, (bits - 8) as nat);
                lemma_nat_bits_mod(buf as nat, 8);
                lemma_pow2_adds(8, (bits - 8) as nat);
                lemma_le_single(low);
                lemma_bytes_bits_concat(before, seq![low]);
            }
            out.push(low);
            proof {
                assert(out@ =~= before + seq![low]);
                assert(bytes_bits(before) + (nat_bits(low as nat, 8) + nat_bits((buf / 256) as nat, (bits - 8) as nat)) =~= bytes_bits(out@) + nat_bits((buf / 256) as nat, (bits - 8) as nat));
                assert(buf / 256 < pow2((bits - 8) as nat)) by (nonlinear_arith)
                    requires
                        buf < pow2(bits as nat),
                        pow2(bits as nat) == 256 * pow2((bits - 8) as nat),
                ;
            }
            buf = buf / 256;
            bits = bits - 8;
        }
        *self = BitWriter { out, buf, bits };
    }

    /// The bytes of the stream.
    pub fn finish(self) -> (r: Vec<u8>)
        ensures
            r@ == pack(self@),
    {
        proof {
            use_type_invariant(&self);
            lemma_pack_bytes(self.out@, nat_bits(self.buf as nat, self.bits as nat));
            lemma_nat_bits_len(self.buf as nat, self.bits as nat);
            lemma_bits_nat_of_nat_bits(self.buf as nat, self.bits as nat);
            reveal_with_fuel(le_bytes, 2);
        }
        let BitWriter { out, buf, bits } = self;
        let mut out: Vec<u8> = out;
        if bits > 0 {
            proof {
                lemma2_to64();
                lemma_pow2_strictly_increases(bits as nat, 8);
            }
            let ghost before = out@;
            out.push(buf as u8);
            assert(pack(nat_bits(buf as nat, bits as nat)) =~= seq![buf as u8]);
            assert(out@ =~= before + seq![buf as u8]);
        } else {
            assert(pack(nat_bits(buf as nat, bits as nat)) =~= Seq::empty());
            assert(out@ =~= out@ + Seq::<u8>::empty());
        }
        out
    }
}

/// Takes a bit stream apart.
pub struct BitReader<'a> {
    src: &'a [u8],
    pos: usize,
    buf: u64,
    bits: u8,
}

impl<'a> BitReader<'a> {
    /// The bits not yet read.
    pub closed spec fn view(&self) -> Seq<bool> {
        nat_bits(self.buf as nat, self.bits as nat) + bytes_bits(self.src@.skip(self.pos as int))
    }

    #[verifier::type_invariant]
    spec fn inv(&self) -> bool {
        &&& self.pos <= self.src@.len()
        &&& self.bits < 40
        &&& self.buf < pow2(self.bits as nat)
    }

    pub fn new(src: &'a [u8]) -> (r: Self)
        ensures
            r@ == bytes_bits(src@),
    {
        proof {
            lemma2_to64();
            assert(src@.skip(0) =~= src@);
        }
        let r = BitReader { src, pos: 0, buf: 0, bits: 0 };
        assert(r@ =~= bytes_bits(src@));
        r
    }

    /// Reads the next `n` bits as a number, lowest bit first.
    pub fn read_bits(&mut self, n: u8) -> (r: Result<u64, ZenError>)
        requires
            n <= 64,
        ensures
            match r {
                Ok(v) => {
                    &&& n <= old(self)@.len()
                    &&& v == bits_nat(old(self)@.take(n as int))
                    &&& final(self)@ == old(self)@.skip(n as int)
                },
                Err(e) => {
                    &&& old(self)@.len() < n
                    &&& e matches ZenError::Compress(m)
                    &&& m@ == "gorilla EOF mid-bits"@
                },
            },
    {
        let ghost start = self@;
        if n == 0 {
            assert(start.skip(0) =~= start);
            assert(start.take(0) =~= Seq::empty());
            return Ok(0);
        }
        if n > 32 {
            let hi_n: u8 = n - 32;
            let lo: u64 = match self.read_bits_inner(32) {
                Ok(v) => v,
                Err(e) => return Err(e),
            };
            let ghost mid = self@;
            let hi: u64 = match self.read_bits_inner(hi_n) {
                Ok(v) => v,
                Err(e) => return Err(e),
            };
            proof {
                let a = start.take(32);
                let b = mid.take(hi_n as int);
                assert(start.take(n as int) =~= a + b);
                assert(mid.skip(hi_n as int) =~= start.skip(n as int));
                lemma_bits_nat_concat(a, b);
                lemma_nat_bits_of_bits_nat(a);
                lemma_nat_bits_of_bits_nat(b);
                lemma2_to64();
                if hi_n < 32 {
                    lemma_pow2_strictly_increases(hi_n as nat, 32);
                }
            }
            return Ok(lo + hi * 0x1_0000_0000);
        }
        self.read_bits_inner(n)
    }

    fn read_bits_inner(&mut self, n: u8) -> (r: Result<u64, ZenError>)
        requires
            1 <= n <= 32,
        ensures
            match r {
                Ok(v) => {
                    &&& n <= old(self)@.len()
                    &&& v == bits_nat(old(self)@.take(n as int))
                    &&& final(self)@ == old(self)@.skip(n as int)
                },
                Err(e) => {
                    &&& old(self)@.len() < n
                    &&& e matches ZenError::Compress(m)
                    &&& m@ == "gorilla EOF mid-bits"@
                },
            },
    {
        proof {
            use_type_invariant(&*self);
        }
        let ghost start = self@;
        let src: &'a [u8] = self.src;
        let mut pos: usize = self.pos;
        let mut buf: u64 = self.buf;
        let mut bits: u8 = self.bits;
        while bits < n
            invariant
                1 <= n <= 32,
                pos <= src.len(),
                bits < 40,
                buf < pow2(bits as nat),
                start == old(self)@,
                nat_bits(buf as nat, bits as nat) + bytes_bits(src@.skip(pos as int)) == start,
            decreases src.len() - pos,
        {
            if pos >= src.len() {
                proof {
                    assert(src@.skip(pos as int) =~= Seq::empty());
                    lemma_nat_bits_len(buf as nat, bits as nat);
                }
                return Err(ZenError::compress("gorilla EOF mid-bits"));
            }
            let byte: u8 = src[pos];
            let ghost k = bits as nat;
            let ghost rest = src@.skip(pos + 1);
            proof {
                lemma2_to64();
                lemma_pow2_adds(k, 8);
                lemma_pow2_strictly_increases(k + 8, 64);
                if k + 8 < 40 {
                    lemma_pow2_strictly_increases(k + 8, 40);
                }
                lemma_u64_pow2_no_overflow(k + 8);
                assert(byte as nat * pow2(k) + pow2(k) <= 256 * pow2(k)) by (nonlinear_arith)
                    requires
                        byte as nat + 1 <= 256,
                ;
                lemma_pow2_pos(k);
                lemma_u64_shl_is_mul(byte as u64, bits as u64);
                lemma_nat_bits_join(buf as nat, k, byte as nat, 8);
                lemma_le_single(byte);
                lemma_bytes_bits_concat(seq![byte], rest);
                assert(src@.skip(pos as int) =~= seq![byte] + rest);
                assert(nat_bits(buf as nat, k) + (nat_bits(byte as nat, 8) + bytes_bits(rest)) =~= (
                nat_bits(buf as nat, k) + nat_bits(byte as nat, 8)) + bytes_bits(rest));
            }
            buf = buf + ((byte as u64) << (bits as u64));
            pos = pos + 1;
            bits = bits + 8;
        }
        let ghost left = (bits - n) as nat;
        proof {
            lemma2_to64();
            lemma_one_shl(n as u64);
            lemma_pow2_pos(n as nat);
            lemma_nat_bits_split(buf as nat, n as nat, left);
            lemma_nat_bits_mod(buf as nat, n as nat);
            lemma_nat_bits_len(buf as nat, n as nat);
            lemma_nat_bits_len((buf as nat) / pow2(n as nat), left);
            lemma_pow2_adds(n as nat, left);
            lemma_u64_shr_is_div(buf, n as u64);
        }
        let v: u64 = buf % (1u64 << n);
        let rest_buf: u64 = buf >> (n as u64);
        proof {
            lemma_bits_nat_of_nat_bits(v as nat, n as nat);
            let b = buf as nat;
            let p = pow2(n as nat);
            let q = pow2(left);
            assert(b / p < q) by (nonlinear_arith)
                requires
                    b < p * q,
                    p > 0,
            ;
            let tail = bytes_bits(src@.skip(pos as int));
            assert(start.take(n as int) =~= nat_bits(v as nat, n as nat));
            assert(start.skip(n as int) =~= nat_bits(rest_buf as nat, left) + tail);
        }
        *self = BitReader { src, pos, buf: rest_buf, bits: bits - n };
        Ok(v)
    }
}

} // verus!
