//! Frame-of-Reference (FoR) + bit-pack for integer columns.
//!
//! The smallest value is the frame; every value is stored as its distance from the
//! frame in the smallest number of bits that fits the largest distance:
//!
//! ```text
//! count: u32 little-endian
//! width: u8 (number of bits)
//! frame: i64 little-endian (min)
//! packed: bytes
//! ```
//!
//! `width = 0` is the "all values equal frame" case; the packed area is then empty.
use crate::common::errors::ZenError;
use crate::compress::bits::{
    bits_nat, byte_count, bytes_bits, lemma_bits_nat_of_nat_bits, lemma_nat_bits_len, lemma_unpack,
    nat_bits, pack, BitReader, BitWriter,
};
use crate::wire::{
    get_i64, get_u32, i64_of_pattern, i64_pattern, i64_to_u64, le, le_bytes, lemma_i64_round_trip,
    lemma_le_of_le_bytes, lemma_pow256_values, lemma_u32_round_trip, put_i64, put_len32, put_slice,
    put_u8, u64_to_i64,
};
use vstd::arithmetic::power2::{lemma2_to64, lemma_pow2_unfold, pow2};
use vstd::prelude::*;
use vstd::slice::slice_subrange;
use vstd::std_specs::bits::{axiom_u64_leading_zeros, u64_leading_zeros};

verus! {

/// The smallest value of a non-empty sequence.
pub open spec fn smallest(s: Seq<i64>) -> i64
    decreases s.len(),
{
    if s.len() <= 1 {
        s[0]
    } else if s.last() < smallest(s.drop_last()) {
        s.last()
    } else {
        smallest(s.drop_last())
    }
}

/// The largest value of a non-empty sequence.
pub open spec fn largest(s: Seq<i64>) -> i64
    decreases s.len(),
{
    if s.len() <= 1 {
        s[0]
    } else if s.last() > largest(s.drop_last()) {
        s.last()
    } else {
        largest(s.drop_last())
    }
}

/// How many binary digits `v` has.
pub open spec fn bit_len(v: nat) -> nat
    decreases v,
{
    if v == 0 {
        0
    } else {
        1 + bit_len(v / 2)
    }
}

/// The width of a page: what the largest distance from the frame needs.
pub open spec fn for_width(values: Seq<i64>) -> nat {
    if values.len() == 0 {
        0
    } else {
        bit_len((largest(values) - smallest(values)) as nat)
    }
}

/// The distances from `frame`, each in `width` bits.
pub open spec fn for_stream(values: Seq<i64>, frame: i64, width: nat) -> Seq<bool>
    decreases values.len(),
{
    if values.len() == 0 {
        Seq::empty()
    } else {
        for_stream(values.drop_last(), frame, width) + nat_bits(
            (values.last() - frame) as nat,
            width,
        )
    }
}

/// The encoded page of a column.
pub open spec fn for_page(values: Seq<i64>) -> Seq<u8> {
    let frame = if values.len() == 0 { 0i64 } else { smallest(values) };
    let width = for_width(values);
    le_bytes(values.len(), 4) + le_bytes(width, 1) + le_bytes(i64_pattern(frame), 8) + pack(
        for_stream(values, frame, width),
    )
}

/// The value at distance `d` from `frame`, in 64-bit two's complement arithmetic.
pub open spec fn for_value(frame: i64, d: nat) -> i64 {
    i64_of_pattern((i64_pattern(frame) + d) % 0x1_0000_0000_0000_0000)
}

/// The values packed in a bit stream.
pub open spec fn for_unpack(bits: Seq<bool>, frame: i64, width: nat, count: nat) -> Seq<i64> {
    Seq::new(
        count,
        |i: int| for_value(frame, bits_nat(bits.subrange(i * width, i * width + width))),
    )
}

/// What a page holds: its values, or why it cannot be read.
pub open spec fn for_parse(input: Seq<u8>) -> Result<Seq<i64>, Seq<char>> {
    if input.len() < 13 {
        Err("FoR input too short"@)
    } else {
        let count = le(input.subrange(0, 4));
        let width = input[4] as nat;
        let frame = i64_of_pattern(le(input.subrange(5, 13)));
        let needed = byte_count(count * width);
        if input.len() - 13 < needed {
            Err("FoR packed area truncated"@)
        } else if count > 0 && width > 64 {
            Err("FoR width exceeds 64 bits"@)
        } else {
            Ok(for_unpack(bytes_bits(input.subrange(13, 13 + needed as int)), frame, width, count))
        }
    }
}

pub proof fn lemma_extremes(s: Seq<i64>)
    requires
        s.len() > 0,
    ensures
        forall|i: int| 0 <= i < s.len() ==> smallest(s) <= #[trigger] s[i] <= largest(s),
        smallest(s) <= largest(s),
    decreases s.len(),
{
    if s.len() > 1 {
        lemma_extremes(s.drop_last());
        assert forall|i: int| 0 <= i < s.len() implies smallest(s) <= #[trigger] s[i] <= largest(
            s,
        ) by {
            if i < s.len() - 1 {
                assert(s.drop_last()[i] == s[i]);
            }
        }
    }
}

/// A number fits into as many bits as it has digits.
pub proof fn lemma_bit_len(v: nat)
    ensures
        v < pow2(bit_len(v)),
    decreases v,
{
    lemma2_to64();
    if v > 0 {
        lemma_bit_len(v / 2);
        lemma_pow2_unfold(bit_len(v));
    }
}

proof fn lemma_bit_len_u64(v: u64)
    ensures
        bit_len(v as nat) == 64 - u64_leading_zeros(v),
    decreases v,
{
    reveal(u64_leading_zeros);
    if v > 0 {
        lemma_bit_len_u64(v / 2);
    }
}

pub proof fn lemma_for_stream_len(values: Seq<i64>, frame: i64, width: nat)
    ensures
        for_stream(values, frame, width).len() == values.len() * width,
    decreases values.len(),
{
    if values.len() > 0 {
        lemma_for_stream_len(values.drop_last(), frame, width);
        lemma_nat_bits_len((values.last() - frame) as nat, width);
        assert((values.len() - 1) * width + width == values.len() * width) by (nonlinear_arith);
    }
}

/// Encodes a column. Counts beyond 32 bits are cut to their low 32 bits, as the
/// format's field is.
pub fn for_encode(values: &[i64]) -> (r: Vec<u8>)
    ensures
        r@ == for_page(values@),
{
    let mut out: Vec<u8> = Vec::new();
    if values.len() == 0 {
        put_len32(&mut out, 0);
        put_u8(&mut out, 0);
        put_i64(&mut out, 0);
        assert(pack(for_stream(values@, 0, 0)) =~= Seq::empty());
        assert(out@ =~= for_page(values@));
        return out;
    }
    let mut frame: i64 = values[0];
    let mut top: i64 = values[0];
    let mut i: usize = 1;
    assert(values@.take(1)[0] == values@[0]);
    while i < values.len()
        invariant
            1 <= i <= values.len(),
            frame == smallest(values@.take(i as int)),
            top == largest(values@.take(i as int)),
        decreases values.len() - i,
    {
        let v: i64 = values[i];
        assert(values@.take(i + 1).drop_last() =~= values@.take(i as int));
        if v < frame {
            frame = v;
        }
        if v > top {
            top = v;
        }
        i = i + 1;
    }
    assert(values@.take(i as int) =~= values@);
    proof {
        lemma_extremes(values@);
    }
    let max_delta: u64 = (top as i128 - frame as i128) as u64;
    proof {
        lemma_bit_len_u64(max_delta);
        axiom_u64_leading_zeros(max_delta);
        lemma_bit_len(max_delta as nat);
    }
    let width: u8 = 64 - max_delta.leading_zeros() as u8;
    put_len32(&mut out, values.len());
    put_u8(&mut out, width);
    put_i64(&mut out, frame);
    let mut w = BitWriter::new();
    let mut j: usize = 0;
    assert(values@.take(0) =~= Seq::empty());
    while j < values.len()
        invariant
            j <= values.len(),
            width <= 64,
            forall|k: int| 0 <= k < values@.len() ==> frame <= #[trigger] values@[k] <= top,
            w@ == for_stream(values@.take(j as int), frame, width as nat),
        decreases values.len() - j,
    {
        let d: u64 = (values[j] as i128 - frame as i128) as u64;
        assert(values@.take(j + 1).drop_last() =~= values@.take(j as int));
        w.write_bits(d, width);
        j = j + 1;
    }
    assert(values@.take(j as int) =~= values@);
    let packed: Vec<u8> = w.finish();
    put_slice(&mut out, packed.as_slice());
    out
}

/// Decodes a page back to its values.
pub fn for_decompress(input: &[u8]) -> (r: Result<Vec<i64>, ZenError>)
    ensures
        match for_parse(input@) {
            Ok(values) => r matches Ok(v) && v@ == values,
            Err(msg) => r matches Err(ZenError::Compress(m)) && m@ == msg,
        },
{
    if input.len() < 13 {
        return Err(ZenError::compress("FoR input too short"));
    }
    let count: u32 = get_u32(input, 0);
    let width: u8 = input[4];
    let frame: i64 = get_i64(input, 5);
    proof {
        assert(count * width <= 0x1_0000_0000 * 256) by (nonlinear_arith)
            requires
                count < 0x1_0000_0000,
                width < 256,
        ;
    }
    let needed: u64 = (count as u64 * width as u64 + 7) / 8;
    if ((input.len() - 13) as u64) < needed {
        return Err(ZenError::compress("FoR packed area truncated"));
    }
    if count > 0 && width > 64 {
        return Err(ZenError::compress("FoR width exceeds 64 bits"));
    }
    let packed: &[u8] = slice_subrange(input, 13, 13 + needed as usize);
    let ghost bits = bytes_bits(packed@);
    let mut r = BitReader::new(packed);
    let mut out: Vec<i64> = Vec::new();
    let mut i: u32 = 0;
    proof {
        crate::compress::bits::lemma_nat_bits_len(le(packed@), 8 * packed@.len());
        assert(bits.skip(0) =~= bits);
        assert(0 * width == 0);
    }
    while i < count
        invariant
            i <= count,
            count > 0 ==> width <= 64,
            count as nat * width as nat <= bits.len(),
            r@ == bits.skip(i * width),
            out@ == for_unpack(bits, frame, width as nat, i as nat),
        decreases count - i,
    {
        proof {
            assert(i * width + width == (i + 1) * width) by (nonlinear_arith);
            assert((i + 1) * width <= count * width) by (nonlinear_arith)
                requires
                    i + 1 <= count,
            ;
            assert(0 <= i * width) by (nonlinear_arith);
        }
        let ghost rest = r@;
        let d: u64 = match r.read_bits(width) {
            Ok(v) => v,
            Err(_) => {
                assert(false);
                0
            },
        };
        let v: i64 = u64_to_i64(i64_to_u64(frame).wrapping_add(d));
        proof {
            assert(rest.take(width as int) =~= bits.subrange(i * width, i * width + width));
            assert(r@ =~= bits.skip((i + 1) * width));
        }
        out.push(v);
        assert(out@ =~= for_unpack(bits, frame, width as nat, (i + 1) as nat));
        i = i + 1;
    }
    Ok(out)
}

/// The bits of the value at `i` stand at its place in the stream.
proof fn lemma_for_stream_at(values: Seq<i64>, frame: i64, width: nat, i: int)
    requires
        0 <= i < values.len(),
    ensures
        0 <= i * width,
        i * width + width <= for_stream(values, frame, width).len(),
        for_stream(values, frame, width).subrange(i * width, i * width + width) == nat_bits(
            (values[i] - frame) as nat,
            width,
        ),
    decreases values.len(),
{
    let whole = for_stream(values, frame, width);
    let init = for_stream(values.drop_last(), frame, width);
    lemma_for_stream_len(values, frame, width);
    lemma_for_stream_len(values.drop_last(), frame, width);
    lemma_nat_bits_len((values.last() - frame) as nat, width);
    assert(0 <= i * width) by (nonlinear_arith)
        requires
            0 <= i,
    ;
    assert(i * width + width == (i + 1) * width) by (nonlinear_arith);
    if i < values.len() - 1 {
        lemma_for_stream_at(values.drop_last(), frame, width, i);
        assert(whole.subrange(i * width, i * width + width) =~= init.subrange(
            i * width,
            i * width + width,
        ));
    } else {
        assert(whole.subrange(i * width, i * width + width) =~= nat_bits(
            (values.last() - frame) as nat,
            width,
        ));
    }
}

/// Decoding an encoded column gives the column back, for all 64-bit values. The count
/// has to fit into its 32-bit field.
pub proof fn for_round_trip(values: Seq<i64>)
    requires
        values.len() <= u32::MAX,
    ensures
        for_parse(for_page(values)) == Ok::<Seq<i64>, Seq<char>>(values),
{
    let page = for_page(values);
    let frame = if values.len() == 0 { 0i64 } else { smallest(values) };
    let width = for_width(values);
    let stream = for_stream(values, frame, width);
    let count = values.len();
    if count > 0 {
        lemma_extremes(values);
        let top = (largest(values) - frame) as u64;
        lemma_bit_len_u64(top);
        axiom_u64_leading_zeros(top);
        lemma_bit_len(top as nat);
    }
    lemma_u32_round_trip(count);
    lemma_pow256_values();
    lemma_le_of_le_bytes(width, 1);
    lemma_i64_round_trip(frame);
    assert(page.subrange(0, 4) =~= le_bytes(count, 4));
    assert(page.subrange(4, 5) =~= le_bytes(width, 1));
    assert(page.subrange(5, 13) =~= le_bytes(i64_pattern(frame), 8));
    assert(page[4] == width) by {
        reveal_with_fuel(le, 2);
        assert(page.subrange(4, 5)[0] == page[4]);
    }
    lemma_for_stream_len(values, frame, width);
    lemma_unpack(stream);
    let needed = byte_count(count * width);
    assert(page.subrange(13, 13 + needed as int) =~= pack(stream));
    let bits = bytes_bits(pack(stream));
    assert(for_unpack(bits, frame, width, count) =~= values) by {
        assert forall|i: int| 0 <= i < count implies for_value(
            frame,
            #[trigger] bits_nat(bits.subrange(i * width, i * width + width)),
        ) == values[i] by {
            lemma_for_stream_at(values, frame, width, i);
            assert(bits.take(stream.len() as int).subrange(i * width, i * width + width)
                =~= bits.subrange(i * width, i * width + width));
            let d = (values[i] - frame) as nat;
            assert(values[i] <= largest(values));
            lemma_bits_nat_of_nat_bits(d, width);
        }
    }
}

} // verus!
