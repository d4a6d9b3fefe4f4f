//! Run-length encoding for high-repetition columns.
//!
//! Format:
//! ```text
//! count: u32 le
//! pairs: { value: i64 le, run: u32 le } * pair_count
//! ```
//!
//! `run` is the number of repetitions. The runs add up to `count`.
use crate::common::errors::ZenError;
use crate::text::{decimal, decimal_string};
use crate::wire::{
    get_i64, get_u32, i64_of_pattern, i64_pattern, le, le_bytes, lemma_i64_round_trip,
    lemma_u32_round_trip, put_i64, put_len32, put_u32,
};
use vstd::prelude::*;
use vstd::string::*;

verus! {

/// The runs of `cur` repeated `run` times followed by `rest`: maximal, but for the
/// 32-bit limit on one run.
pub open spec fn rle_runs(cur: i64, run: u32, rest: Seq<i64>) -> Seq<(i64, u32)>
    decreases rest.len(),
{
    if rest.len() == 0 {
        seq![(cur, run)]
    } else if rest[0] == cur && run < u32::MAX {
        rle_runs(cur, (run + 1) as u32, rest.drop_first())
    } else {
        seq![(cur, run)] + rle_runs(rest[0], 1, rest.drop_first())
    }
}

/// The bytes of one run.
pub open spec fn rle_pair_bytes(pair: (i64, u32)) -> Seq<u8> {
    le_bytes(i64_pattern(pair.0), 8) + le_bytes(pair.1 as nat, 4)
}

/// The bytes of a list of runs.
pub open spec fn rle_pairs_bytes(pairs: Seq<(i64, u32)>) -> Seq<u8>
    decreases pairs.len(),
{
    if pairs.len() == 0 {
        Seq::empty()
    } else {
        rle_pair_bytes(pairs[0]) + rle_pairs_bytes(pairs.drop_first())
    }
}

/// The encoded page of a column.
pub open spec fn rle_page(values: Seq<i64>) -> Seq<u8> {
    if values.len() == 0 {
        le_bytes(0, 4)
    } else {
        le_bytes(values.len(), 4) + rle_pairs_bytes(rle_runs(values[0], 1, values.drop_first()))
    }
}

/// `n` copies of `v`.
pub open spec fn repeated(v: i64, n: nat) -> Seq<i64> {
    Seq::new(n, |i: int| v)
}

/// The values of the runs in `bytes`, unless the last run is cut short.
pub open spec fn rle_expand(bytes: Seq<u8>) -> Option<Seq<i64>>
    decreases bytes.len(),
{
    if bytes.len() == 0 {
        Some(Seq::empty())
    } else if bytes.len() < 12 {
        None
    } else {
        let value = i64_of_pattern(le(bytes.subrange(0, 8)));
        let run = le(bytes.subrange(8, 12));
        match rle_expand(bytes.skip(12)) {
            Some(rest) => Some(repeated(value, run) + rest),
            None => None,
        }
    }
}

/// What a page holds: its values, or why it cannot be read.
pub open spec fn rle_parse(input: Seq<u8>) -> Result<Seq<i64>, Seq<char>> {
    if input.len() < 4 {
        Err("RLE input too short"@)
    } else {
        let count = le(input.subrange(0, 4));
        match rle_expand(input.skip(4)) {
            None => Err("RLE truncated mid-pair"@),
            Some(values) => if values.len() == count {
                Ok(values)
            } else {
                Err("RLE expected "@ + decimal(count) + " values, got "@ + decimal(values.len()))
            },
        }
    }
}

/// Encodes a column. Counts beyond 32 bits are cut to their low 32 bits, as the
/// format's field is.
pub fn rle_encode(values: &[i64]) -> (r: Vec<u8>)
    ensures
        r@ == rle_page(values@),
{
    let mut out: Vec<u8> = Vec::new();
    put_len32(&mut out, values.len());
    if values.len() == 0 {
        assert(out@ =~= rle_page(values@));
        return out;
    }
    let mut current: i64 = values[0];
    let mut run: u32 = 1;
    let mut i: usize = 1;
    let ghost head = out@;
    let ghost whole = rle_pairs_bytes(rle_runs(values@[0], 1, values@.drop_first()));
    assert(values@.skip(1) =~= values@.drop_first());
    while i < values.len()
        invariant
            1 <= i <= values.len(),
            out@ + rle_pairs_bytes(rle_runs(current, run, values@.skip(i as int))) == head + whole,
        decreases values.len() - i,
    {
        let v: i64 = values[i];
        let ghost rest = values@.skip(i + 1);
        let ghost before = out@;
        assert(values@.skip(i as int).drop_first() =~= rest);
        if v == current && run < u32::MAX {
            run = run + 1;
        } else {
            proof {
                let tail = rle_runs(v, 1, rest);
                let all = seq![(current, run)] + tail;
                assert(all.drop_first() =~= tail);
                assert(before + (rle_pair_bytes((current, run)) + rle_pairs_bytes(tail)) =~= (before
                    + le_bytes(i64_pattern(current), 8) + le_bytes(run as nat, 4))
                    + rle_pairs_bytes(tail));
            }
            put_i64(&mut out, current);
            put_u32(&mut out, run);
            current = v;
            run = 1;
        }
        i = i + 1;
    }
    proof {
        assert(values@.skip(i as int) =~= Seq::empty());
        let last = seq![(current, run)];
        assert(last.drop_first() =~= Seq::empty());
        reveal_with_fuel(rle_pairs_bytes, 2);
        assert(out@ + rle_pairs_bytes(last) =~= out@ + le_bytes(i64_pattern(current), 8) + le_bytes(
            run as nat,
            4,
        ));
    }
    put_i64(&mut out, current);
    put_u32(&mut out, run);
    out
}

/// Decodes a page back to its values.
pub fn rle_decompress(input: &[u8]) -> (r: Result<Vec<i64>, ZenError>)
    ensures
        match rle_parse(input@) {
            Ok(values) => r matches Ok(v) && v@ == values,
            Err(msg) => r matches Err(ZenError::Compress(m)) && m@ == msg,
        },
{
    if input.len() < 4 {
        return Err(ZenError::compress("RLE input too short"));
    }
    let count: u32 = get_u32(input, 0);
    let mut out: Vec<i64> = Vec::new();
    let mut pos: usize = 4;
    let ghost whole = rle_expand(input@.skip(4));
    proof {
        if let Some(all) = whole {
            assert(Seq::<i64>::empty() + all =~= all);
        }
    }
    while pos < input.len()
        invariant
            4 <= pos <= input.len(),
            whole == rle_expand(input@.skip(4)),
            whole is Some <==> rle_expand(input@.skip(pos as int)) is Some,
            whole matches Some(all) ==> all == out@ + rle_expand(input@.skip(pos as int))->0,
        decreases input.len() - pos,
    {
        if input.len() - pos < 12 {
            return Err(ZenError::compress("RLE truncated mid-pair"));
        }
        let value: i64 = get_i64(input, pos);
        let run: u32 = get_u32(input, pos + 8);
        let ghost here = input@.skip(pos as int);
        let ghost start = out@;
        proof {
            assert(here.subrange(0, 8) =~= input@.subrange(pos as int, pos + 8));
            assert(here.subrange(8, 12) =~= input@.subrange(pos + 8, pos + 12));
            assert(here.skip(12) =~= input@.skip(pos + 12));
        }
        let mut k: u32 = 0;
        while k < run
            invariant
                k <= run,
                out@ == start + repeated(value, k as nat),
            decreases run - k,
        {
            out.push(value);
            k = k + 1;
            assert(out@ =~= start + repeated(value, k as nat));
        }
        assert(out@ =~= start + repeated(value, run as nat));
        proof {
            if let Some(rest) = rle_expand(here.skip(12)) {
                assert(start + (repeated(value, run as nat) + rest) =~= out@ + rest);
            }
        }
        pos = pos + 12;
    }
    proof {
        assert(input@.skip(pos as int) =~= Seq::empty());
        assert(out@ + Seq::<i64>::empty() =~= out@);
    }
    if out.len() as u64 != count as u64 {
        let mut msg: String = String::from_str("RLE expected ");
        msg.append(decimal_string(count as u64).as_str());
        msg.append(" values, got ");
        msg.append(decimal_string(out.len() as u64).as_str());
        return Err(ZenError::Compress(msg));
    }
    Ok(out)
}

proof fn lemma_expand_pair(pair: (i64, u32), rest: Seq<u8>)
    ensures
        rle_expand(rle_pair_bytes(pair) + rest) == (match rle_expand(rest) {
            Some(values) => Some(repeated(pair.0, pair.1 as nat) + values),
            None => None,
        }),
{
    let bytes = rle_pair_bytes(pair) + rest;
    lemma_i64_round_trip(pair.0);
    lemma_u32_round_trip(pair.1 as nat);
    assert(bytes.subrange(0, 8) =~= le_bytes(i64_pattern(pair.0), 8));
    assert(bytes.subrange(8, 12) =~= le_bytes(pair.1 as nat, 4));
    assert(bytes.skip(12) =~= rest);
}

proof fn lemma_expand_runs(cur: i64, run: u32, rest: Seq<i64>)
    ensures
        rle_expand(rle_pairs_bytes(rle_runs(cur, run, rest))) == Some(
            repeated(cur, run as nat) + rest,
        ),
    decreases rest.len(),
{
    reveal_with_fuel(rle_pairs_bytes, 2);
    if rest.len() == 0 {
        let pairs = seq![(cur, run)];
        assert(pairs.drop_first() =~= Seq::empty());
        lemma_expand_pair((cur, run), Seq::empty());
        assert(repeated(cur, run as nat) + Seq::empty() =~= repeated(cur, run as nat) + rest);
    } else if rest[0] == cur && run < u32::MAX {
        lemma_expand_runs(cur, (run + 1) as u32, rest.drop_first());
        assert(repeated(cur, (run + 1) as nat) + rest.drop_first() =~= repeated(cur, run as nat)
            + rest);
    } else {
        let tail = rle_runs(rest[0], 1, rest.drop_first());
        let pairs = seq![(cur, run)] + tail;
        assert(pairs.drop_first() =~= tail);
        lemma_expand_runs(rest[0], 1, rest.drop_first());
        lemma_expand_pair((cur, run), rle_pairs_bytes(tail));
        assert(repeated(rest[0], 1) + rest.drop_first() =~= rest);
    }
}

/// Decoding an encoded column gives the column back. The count has to fit into its
/// 32-bit field.
pub proof fn rle_round_trip(values: Seq<i64>)
    requires
        values.len() <= u32::MAX,
    ensures
        rle_parse(rle_page(values)) == Ok::<Seq<i64>, Seq<char>>(values),
{
    let page = rle_page(values);
    lemma_u32_round_trip(values.len());
    assert(page.subrange(0, 4) =~= le_bytes(values.len(), 4));
    if values.len() == 0 {
        assert(page.skip(4) =~= Seq::empty());
        assert(Seq::<i64>::empty() =~= values);
    } else {
        assert(page.skip(4) =~= rle_pairs_bytes(rle_runs(values[0], 1, values.drop_first())));
        lemma_expand_runs(values[0], 1, values.drop_first());
        assert(repeated(values[0], 1) + values.drop_first() =~= values);
    }
}

} // verus!
