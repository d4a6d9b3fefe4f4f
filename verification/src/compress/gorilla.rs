//! Gorilla-style XOR encoding for 64-bit float streams.
//!
//! The codec works on the bit patterns of the floats, so every value round-trips,
//! NaN payloads and signed zeros included.
//!
//! Format (little-endian):
//! ```text
//! count: u32
//! body_len: u32               (only if count > 0)
//! body: bit stream
//!   - first value: 64 bits
//!   - each subsequent value:
//!       1 bit `0` if it repeats its predecessor
//!       1 bit `1` + 6 bits trailing-zero count + (64 - trail) bits XOR >> trail
//! ```
use crate::common::errors::ZenError;
use crate::compress::bits::{
    bits_nat, byte_count, bytes_bits, lemma_bits_nat_of_nat_bits, lemma_nat_bits_len,
    lemma_nat_bits_of_bits_nat, lemma_unpack, nat_bits, pack, BitReader, BitWriter,
};
use crate::wire::{
    get_u32, le, le_bytes, lemma_le_bytes_len, lemma_u32_round_trip, put_len32, put_slice,
};
use vstd::arithmetic::power2::{
    lemma2_to64, lemma2_to64_rest, lemma_pow2_adds, lemma_pow2_pos, pow2,
};
use vstd::bits::lemma_u64_shr_is_div;
use vstd::prelude::*;
use vstd::slice::slice_subrange;
use vstd::std_specs::bits::axiom_u64_trailing_zeros;

verus! {

/// The bits that lead from the pattern `prev` to the pattern `cur`.
pub open spec fn gorilla_step(prev: u64, cur: u64) -> Seq<bool> {
    let x = prev ^ cur;
    if x == 0 {
        seq![false]
    } else {
        let trail = x.trailing_zeros();
        seq![true] + nat_bits(trail as nat, 6) + nat_bits(
            (x >> trail as u64) as nat,
            (64 - trail) as nat,
        )
    }
}

/// The bits of `values` after the pattern `prev`.
pub open spec fn gorilla_steps(prev: u64, values: Seq<u64>) -> Seq<bool>
    decreases values.len(),
{
    if values.len() == 0 {
        Seq::empty()
    } else {
        gorilla_step(prev, values[0]) + gorilla_steps(values[0], values.drop_first())
    }
}

/// The whole bit stream of a non-empty series.
pub open spec fn gorilla_stream(values: Seq<u64>) -> Seq<bool> {
    nat_bits(values[0] as nat, 64) + gorilla_steps(values[0], values.drop_first())
}

/// The encoded page of a series.
pub open spec fn gorilla_page(values: Seq<u64>) -> Seq<u8> {
    let header = le_bytes(values.len(), 4);
    if values.len() == 0 {
        header
    } else {
        let body = pack(gorilla_stream(values));
        header + le_bytes(body.len(), 4) + body
    }
}

/// The `n` values that follow the pattern `prev` in a bit stream, if it holds that many.
pub open spec fn gorilla_read_steps(bits: Seq<bool>, prev: u64, n: nat) -> Option<Seq<u64>>
    decreases n,
{
    if n == 0 {
        Some(Seq::empty())
    } else if bits.len() < 1 {
        None
    } else if !bits[0] {
        match gorilla_read_steps(bits.skip(1), prev, (n - 1) as nat) {
            Some(rest) => Some(seq![prev] + rest),
            None => None,
        }
    } else if bits.len() < 7 {
        None
    } else {
        let trail = bits_nat(bits.subrange(1, 7));
        let width = 64 - trail;
        if bits.len() < 7 + width {
            None
        } else {
            let payload = bits_nat(bits.subrange(7, 7 + width)) as u64;
            let cur = prev ^ (payload << trail as u64);
            match gorilla_read_steps(bits.skip(7 + width), cur, (n - 1) as nat) {
                Some(rest) => Some(seq![cur] + rest),
                None => None,
            }
        }
    }
}

/// What a page holds: its series, or why it cannot be read.
pub open spec fn gorilla_parse(input: Seq<u8>) -> Result<Seq<u64>, Seq<char>> {
    if input.len() < 4 {
        Err("gorilla input too short"@)
    } else {
        let n = le(input.subrange(0, 4));
        if n == 0 {
            Ok(Seq::empty())
        } else if input.len() < 8 {
            Err("gorilla missing body length"@)
        } else {
            let body_len = le(input.subrange(4, 8));
            if input.len() < 8 + body_len {
                Err("gorilla body truncated"@)
            } else {
                let bits = bytes_bits(input.subrange(8, 8 + body_len as int));
                if bits.len() < 64 {
                    Err("gorilla EOF mid-bits"@)
                } else {
                    let first = bits_nat(bits.take(64)) as u64;
                    match gorilla_read_steps(bits.skip(64), first, (n - 1) as nat) {
                        Some(rest) => Ok(seq![first] + rest),
                        None => Err("gorilla EOF mid-bits"@),
                    }
                }
            }
        }
    }
}

/// Encodes a series of float bit patterns. Counts and body lengths beyond 32 bits are
/// cut to their low 32 bits, as the format's fields are.
pub fn gorilla_encode(values: &[u64]) -> (r: Result<Vec<u8>, ZenError>)
    ensures
        r matches Ok(page) && page@ == gorilla_page(values@),
{
    let mut out: Vec<u8> = Vec::new();
    put_len32(&mut out, values.len());
    if values.len() == 0 {
        assert(out@ =~= gorilla_page(values@));
        return Ok(out);
    }
    let mut w = BitWriter::new();
    w.write_bits(values[0], 64);
    let mut prev: u64 = values[0];
    let mut i: usize = 1;
    let ghost whole = gorilla_stream(values@);
    assert(values@.skip(1) =~= values@.drop_first());
    assert(w@ =~= nat_bits(values@[0] as nat, 64));
    while i < values.len()
        invariant
            1 <= i <= values.len(),
            prev == values@[i - 1],
            w@ + gorilla_steps(prev, values@.skip(i as int)) == whole,
        decreases values.len() - i,
    {
        let cur: u64 = values[i];
        let x: u64 = prev ^ cur;
        let ghost before = w@;
        let ghost rest = values@.skip(i + 1);
        proof {
            assert(values@.skip(i as int).drop_first() =~= rest);
            reveal_with_fuel(nat_bits, 2);
        }
        if x == 0 {
            w.write_bits(0, 1);
            assert(nat_bits(0, 1) =~= seq![false]);
        } else {
            proof {
                axiom_u64_trailing_zeros(x);
            }
            let trail: u32 = x.trailing_zeros();
            w.write_bits(1, 1);
            assert(nat_bits(1, 1) =~= seq![true]);
            w.write_bits(trail as u64, 6);
            w.write_bits(x >> (trail as u64), 64 - trail as u8);
            assert(w@ =~= before + gorilla_step(prev, cur));
        }
        assert(before + (gorilla_step(prev, cur) + gorilla_steps(cur, rest)) =~= w@
            + gorilla_steps(cur, rest));
        prev = cur;
        i = i + 1;
    }
    proof {
        assert(values@.skip(i as int) =~= Seq::empty());
        assert(w@ + Seq::<bool>::empty() =~= w@);
    }
    let body: Vec<u8> = w.finish();
    put_len32(&mut out, body.len());
    put_slice(&mut out, body.as_slice());
    Ok(out)
}

/// Decodes a page back to float bit patterns.
pub fn gorilla_decompress(input: &[u8]) -> (r: Result<Vec<u64>, ZenError>)
    ensures
        match gorilla_parse(input@) {
            Ok(values) => r matches Ok(v) && v@ == values,
            Err(msg) => r matches Err(ZenError::Compress(m)) && m@ == msg,
        },
{
    if input.len() < 4 {
        return Err(ZenError::compress("gorilla input too short"));
    }
    let n: u32 = get_u32(input, 0);
    let mut out: Vec<u64> = Vec::new();
    if n == 0 {
        return Ok(out);
    }
    if input.len() < 8 {
        return Err(ZenError::compress("gorilla missing body length"));
    }
    let body_len: u32 = get_u32(input, 4);
    if ((input.len() - 8) as u64) < body_len as u64 {
        return Err(ZenError::compress("gorilla body truncated"));
    }
    let body: &[u8] = slice_subrange(input, 8, 8 + body_len as usize);
    let mut r = BitReader::new(body);
    let ghost bits = r@;
    let first: u64 = match r.read_bits(64) {
        Ok(v) => v,
        Err(e) => return Err(e),
    };
    out.push(first);
    let mut prev: u64 = first;
    let mut i: u32 = 1;
    let ghost whole = gorilla_read_steps(bits.skip(64), first, (n - 1) as nat);
    proof {
        if let Some(rest) = whole {
            assert(seq![first] + rest =~= out@ + rest);
        }
    }
    while i < n
        invariant
            1 <= i <= n,
            4 <= input@.len(),
            n == le(input@.subrange(0, 4)),
            bits.len() >= 64,
            first == bits_nat(bits.take(64)),
            8 + body_len <= input@.len(),
            body_len == le(input@.subrange(4, 8)),
            bits == bytes_bits(input@.subrange(8, 8 + body_len as int)),
            whole == gorilla_read_steps(bits.skip(64), first, (n - 1) as nat),
            whole is Some <==> gorilla_read_steps(r@, prev, (n - i) as nat) is Some,
            whole matches Some(all) ==> seq![first] + all == out@ + gorilla_read_steps(
                r@,
                prev,
                (n - i) as nat,
            )->0,
        decreases n - i,
    {
        let ghost before = r@;
        let ghost sofar = out@;
        let ghost left = (n - i - 1) as nat;
        let nz: u64 = match r.read_bits(1) {
            Ok(v) => v,
            Err(e) => return Err(e),
        };
        proof {
            reveal_with_fuel(bits_nat, 2);
            assert(before.take(1)[0] == before[0]);
        }
        if nz == 0 {
            out.push(prev);
            proof {
                if let Some(rest) = gorilla_read_steps(r@, prev, left) {
                    assert(sofar + (seq![prev] + rest) =~= out@ + rest);
                }
            }
        } else {
            let ghost b1 = r@;
            let trail: u64 = match r.read_bits(6) {
                Ok(v) => v,
                Err(e) => return Err(e),
            };
            proof {
                lemma2_to64();
                lemma_nat_bits_of_bits_nat(b1.take(6));
                assert(b1.take(6) =~= before.subrange(1, 7));
            }
            let width: u8 = 64 - trail as u8;
            let ghost b2 = r@;
            let payload: u64 = match r.read_bits(width) {
                Ok(v) => v,
                Err(e) => return Err(e),
            };
            let cur: u64 = prev ^ (payload << trail);
            out.push(cur);
            proof {
                assert(b2.take(width as int) =~= before.subrange(7, 7 + width));
                assert(r@ =~= before.skip(7 + width));
                if let Some(rest) = gorilla_read_steps(r@, cur, left) {
                    assert(sofar + (seq![cur] + rest) =~= out@ + rest);
                }
            }
            prev = cur;
        }
        i = i + 1;
    }
    proof {
        assert(out@ + Seq::<u64>::empty() =~= out@);
    }
    Ok(out)
}

/// One step reads back as the value that it was written for.
proof fn lemma_step(prev: u64, cur: u64, values: Seq<u64>, fill: Seq<bool>)
    requires
        values.len() > 0,
        values[0] == cur,
        gorilla_read_steps(
            gorilla_steps(cur, values.drop_first()) + fill,
            cur,
            (values.len() - 1) as nat,
        ) == Some(values.drop_first()),
    ensures
        gorilla_read_steps(gorilla_steps(prev, values) + fill, prev, values.len()) == Some(values),
{
    let x = prev ^ cur;
    let tail = gorilla_steps(cur, values.drop_first()) + fill;
    let bits = gorilla_steps(prev, values) + fill;
    assert(seq![cur] + values.drop_first() =~= values);
    assert(x == 0 ==> prev == cur) by (bit_vector)
        requires
            x == prev ^ cur,
    ;
    if x == 0 {
        assert(bits =~= seq![false] + tail);
        assert(bits.skip(1) =~= tail);
    } else {
        axiom_u64_trailing_zeros(x);
        let trail = x.trailing_zeros() as u64;
        let p = x >> trail;
        let width = (64 - trail) as nat;
        lemma2_to64();
        lemma2_to64_rest();
        lemma_u64_shr_is_div(x, trail);
        lemma_pow2_pos(trail as nat);
        lemma_pow2_adds(trail as nat, width);
        assert(x as nat / pow2(trail as nat) < pow2(width)) by (nonlinear_arith)
            requires
                (x as nat) < pow2(trail as nat) * pow2(width),
                pow2(trail as nat) > 0,
        ;
        lemma_nat_bits_len(trail as nat, 6);
        lemma_nat_bits_len(p as nat, width);
        lemma_bits_nat_of_nat_bits(trail as nat, 6);
        lemma_bits_nat_of_nat_bits(p as nat, width);
        assert(bits =~= seq![true] + nat_bits(trail as nat, 6) + nat_bits(p as nat, width) + tail);
        assert(bits.subrange(1, 7) =~= nat_bits(trail as nat, 6));
        assert(bits.subrange(7, 7 + width as int) =~= nat_bits(p as nat, width));
        assert(bits.skip(7 + width as int) =~= tail);
        assert(prev ^ (p << trail) == cur) by (bit_vector)
            requires
                x == prev ^ cur,
                p == x >> trail,
                trail < 64,
                x << ((64 - trail) as u64) == 0,
        ;
    }
}

proof fn lemma_steps(prev: u64, values: Seq<u64>, fill: Seq<bool>)
    ensures
        gorilla_read_steps(gorilla_steps(prev, values) + fill, prev, values.len()) == Some(values),
    decreases values.len(),
{
    if values.len() == 0 {
        assert(Seq::<u64>::empty() =~= values);
    } else {
        lemma_steps(values[0], values.drop_first(), fill);
        lemma_step(prev, values[0], values, fill);
    }
}

/// Decoding an encoded series gives the series back, for every bit pattern. The count
/// and the body length have to fit into their 32-bit fields.
pub proof fn gorilla_round_trip(values: Seq<u64>)
    requires
        values.len() <= u32::MAX,
        values.len() > 0 ==> pack(gorilla_stream(values)).len() <= u32::MAX,
    ensures
        gorilla_parse(gorilla_page(values)) == Ok::<Seq<u64>, Seq<char>>(values),
{
    let page = gorilla_page(values);
    lemma_u32_round_trip(values.len());
    if values.len() == 0 {
        assert(page.subrange(0, 4) =~= page);
        assert(values =~= Seq::empty());
    } else {
        let stream = gorilla_stream(values);
        let body = pack(stream);
        lemma_u32_round_trip(body.len());
        assert(page.subrange(0, 4) =~= le_bytes(values.len(), 4));
        assert(page.subrange(4, 8) =~= le_bytes(body.len(), 4));
        assert(page.subrange(8, 8 + body.len() as int) =~= body);
        lemma_unpack(stream);
        let bits = bytes_bits(body);
        let n = stream.len() as int;
        let fill = bits.skip(n);
        assert(bits =~= stream + fill);
        lemma_nat_bits_len(values[0] as nat, 64);
        lemma2_to64();
        lemma2_to64_rest();
        lemma_bits_nat_of_nat_bits(values[0] as nat, 64);
        assert(bits.take(64) =~= nat_bits(values[0] as nat, 64));
        let rest = values.drop_first();
        assert(bits.skip(64) =~= gorilla_steps(values[0], rest) + fill);
        lemma_steps(values[0], rest, fill);
        assert(seq![values[0]] + rest =~= values);
    }
}

proof fn lemma_steps_len(prev: u64, values: Seq<u64>)
    ensures
        gorilla_steps(prev, values).len() <= 71 * values.len(),
    decreases values.len(),
{
    if values.len() > 0 {
        let x = prev ^ values[0];
        lemma_steps_len(values[0], values.drop_first());
        if x != 0 {
            axiom_u64_trailing_zeros(x);
            let trail = x.trailing_zeros();
            lemma_nat_bits_len(trail as nat, 6);
            lemma_nat_bits_len((x >> trail as u64) as nat, (64 - trail) as nat);
        }
    }
}

/// A page takes at most nine bytes per value and the header.
pub proof fn lemma_gorilla_page_len(values: Seq<u64>)
    ensures
        gorilla_page(values).len() <= 9 + 9 * values.len(),
        values.len() > 0 ==> gorilla_page(values).len() == 8 + pack(gorilla_stream(values)).len(),
{
    lemma_le_bytes_len(values.len(), 4);
    if values.len() > 0 {
        let stream = gorilla_stream(values);
        lemma_nat_bits_len(values[0] as nat, 64);
        lemma_steps_len(values[0], values.drop_first());
        lemma_le_bytes_len(bits_nat(stream), byte_count(stream.len()));
        lemma_le_bytes_len(pack(stream).len(), 4);
    }
}

} // verus!
