//! Where the fields of encoded pages stand, and how small pages are.
use crate::compress::bits::{
    bytes_bits, lemma_nat_bits_len, lemma_pack_bytes, lemma_unpack, pack,
};
use crate::compress::dict::{
    dict_page_bytes, entry_parts, is_dict_page, is_dictionary, key_parts, key_width,
};
use crate::compress::for_bitpack::{
    bit_len, for_page, for_stream, for_width, largest, lemma_bit_len, lemma_extremes,
    lemma_for_stream_len, smallest,
};
use crate::compress::fsst::{fsst_page_bytes, offset_parts, symbol_parts};
use crate::compress::gorilla::{gorilla_page, gorilla_step, gorilla_steps, gorilla_stream};
use crate::compress::rle::{rle_page, rle_pair_bytes, rle_pairs_bytes, rle_runs};
use crate::format::page::{fixed_list, fixed_parts};
use crate::order::lex_lt;
use crate::outside::codecs::lz4_holds;
use crate::rows::{
    flat, lemma_flat_at, lemma_flat_uniform_at, lemma_flat_uniform_len, offset_of, uniform,
};
use crate::wire::{
    i64_pattern, le, le_bytes, lemma_le_bytes_len, lemma_le_of_le_bytes, lemma_pow256_values,
    lemma_u32_round_trip, pow256,
};
use vstd::arithmetic::power2::{lemma2_to64, lemma_pow2_strictly_increases, lemma_pow2_unfold, pow2};
use vstd::prelude::*;

verus! {

/// Numbers are written with their lowest byte first: byte `i` counts the 256 to the `i`.
pub proof fn lowest_bytes_come_first(v: nat, n: nat, i: int)
    requires
        0 <= i < n,
    ensures
        le_bytes(v, n).len() == n,
        le_bytes(v, n)[i] == (v / pow256(i as nat)) % 256,
    decreases i,
{
    lemma_le_bytes_len(v, n);
    if i > 0 {
        lowest_bytes_come_first(v / 256, (n - 1) as nat, i - 1);
        let p = pow256((i - 1) as nat);
        lemma_pow256_positive((i - 1) as nat);
        assert(pow256(i as nat) == 256 * p);
        vstd::arithmetic::div_mod::lemma_div_denominator(v as int, 256, p as int);
        assert(le_bytes(v, n)[i] == le_bytes(v / 256, (n - 1) as nat)[i - 1]);
        assert(v / pow256(i as nat) == (v / 256) / p);
    } else {
        assert(pow256(0) == 1);
        vstd::arithmetic::div_mod::lemma_div_basics(v as int);
        assert(v / pow256(0) == v);
        assert(le_bytes(v, n)[0] == v % 256);
    }
}

proof fn lemma_pow256_positive(n: nat)
    ensures
        pow256(n) > 0,
    decreases n,
{
    if n > 0 {
        lemma_pow256_positive((n - 1) as nat);
    }
}

proof fn lemma_bit_len_least(v: nat)
    requires
        v > 0,
    ensures
        bit_len(v) > 0,
        pow2((bit_len(v) - 1) as nat) <= v,
    decreases v,
{
    if v / 2 > 0 {
        lemma_bit_len_least(v / 2);
        lemma_pow2_unfold((bit_len(v) - 1) as nat);
    } else {
        assert(bit_len(v / 2) == 0);
        lemma2_to64();
    }
}

proof fn lemma_extremes_reached(s: Seq<i64>)
    requires
        s.len() > 0,
    ensures
        s.contains(smallest(s)),
        s.contains(largest(s)),
    decreases s.len(),
{
    assert(s[s.len() - 1] == s.last());
    if s.len() > 1 {
        let d = s.drop_last();
        lemma_extremes_reached(d);
        let i = choose|i: int| 0 <= i < d.len() && d[i] == smallest(d);
        let j = choose|j: int| 0 <= j < d.len() && d[j] == largest(d);
        assert(s[i] == smallest(d));
        assert(s[j] == largest(d));
    } else {
        assert(s[0] == smallest(s));
    }
}

/// A bit-packed page begins with the number of values in four bytes, the width in one and the
/// smallest value in eight. Every value takes `width` bits, and no smaller width would do.
pub proof fn bit_packed_pages_are_minimal(values: Seq<i64>)
    requires
        0 < values.len() <= u32::MAX,
    ensures
        ({
            let p = for_page(values);
            let width = p[4] as nat;
            &&& p.len() == 13 + (values.len() * width + 7) / 8
            &&& le(p.subrange(0, 4)) == values.len()
            &&& exists|k: int|
                {
                    &&& 0 <= k < values.len()
                    &&& le(p.subrange(5, 13)) == #[trigger] values[k] || le(p.subrange(5, 13))
                        == values[k] + 0x1_0000_0000_0000_0000
                    &&& forall|i: int|
                        0 <= i < values.len() ==> values[k] <= #[trigger] values[i] && values[i]
                            - values[k] < pow2(width)
                    &&& width > 0 ==> exists|i: int|
                        0 <= i < values.len() && #[trigger] values[i] - values[k] >= pow2(
                            (width - 1) as nat,
                        )
                }
        }),
{
    let n = values.len();
    let lo = smallest(values);
    let hi = largest(values);
    let top = (hi - lo) as nat;
    let width = for_width(values);
    let p = for_page(values);
    lemma_extremes(values);
    lemma_extremes_reached(values);
    lemma_bit_len(top);
    lemma2_to64();
    if top > 0 {
        lemma_bit_len_least(top);
        if width > 64 {
            if width > 65 {
                lemma_pow2_strictly_increases(64, (width - 1) as nat);
            }
            vstd::arithmetic::power2::lemma2_to64_rest();
            assert(top < pow2(64));
        }
    }
    assert(width <= 64);
    lemma_pow256_values();
    lemma_u32_round_trip(n);
    lemma_le_of_le_bytes(width, 1);
    lemma_le_of_le_bytes(i64_pattern(lo), 8);
    lemma_le_bytes_len(n, 4);
    lemma_le_bytes_len(width, 1);
    lemma_le_bytes_len(i64_pattern(lo), 8);
    let stream = for_stream(values, lo, width);
    lemma_for_stream_len(values, lo, width);
    lemma_unpack(stream);
    assert(p.subrange(0, 4) =~= le_bytes(n, 4));
    assert(p.subrange(4, 5) =~= le_bytes(width, 1));
    assert(p.subrange(5, 13) =~= le_bytes(i64_pattern(lo), 8));
    assert(p[4] == width) by {
        reveal_with_fuel(le, 2);
        assert(p.subrange(4, 5)[0] == p[4]);
    }
    let k = choose|k: int| 0 <= k < n && values[k] == lo;
    let j = choose|j: int| 0 <= j < n && values[j] == hi;
    assert(values[k] == lo && values[j] == hi);
    assert(width > 0 ==> values[j] - values[k] >= pow2((width - 1) as nat));
}

/// How often a series changes after `prev`.
pub open spec fn changes(prev: i64, rest: Seq<i64>) -> nat
    decreases rest.len(),
{
    if rest.len() == 0 {
        0
    } else {
        (if rest[0] != prev {
            1nat
        } else {
            0
        }) + changes(rest[0], rest.drop_first())
    }
}

proof fn lemma_runs(cur: i64, run: u32, rest: Seq<i64>)
    requires
        run + rest.len() <= u32::MAX,
    ensures
        rle_runs(cur, run, rest).len() == 1 + changes(cur, rest),
    decreases rest.len(),
{
    if rest.len() > 0 {
        let d = rest.drop_first();
        if rest[0] == cur {
            lemma_runs(cur, (run + 1) as u32, d);
        } else {
            lemma_runs(rest[0], 1, d);
        }
    }
}

proof fn lemma_pairs_len(pairs: Seq<(i64, u32)>)
    ensures
        rle_pairs_bytes(pairs).len() == 12 * pairs.len(),
    decreases pairs.len(),
{
    if pairs.len() > 0 {
        lemma_pairs_len(pairs.drop_first());
        lemma_le_bytes_len(i64_pattern(pairs[0].0), 8);
        lemma_le_bytes_len(pairs[0].1 as nat, 4);
        assert(rle_pair_bytes(pairs[0]).len() == 12);
    }
}

/// A run-length page begins with the number of values in four bytes, and has twelve more for
/// each run of equal values, however long.
pub proof fn equal_values_take_one_run(values: Seq<i64>)
    requires
        0 < values.len() <= u32::MAX,
    ensures
        le(rle_page(values).subrange(0, 4)) == values.len(),
        rle_page(values).len() == 4 + 12 * (1 + changes(values[0], values.drop_first())),
{
    lemma_runs(values[0], 1, values.drop_first());
    let runs = rle_runs(values[0], 1, values.drop_first());
    lemma_pairs_len(runs);
    lemma_u32_round_trip(values.len());
    lemma_le_bytes_len(values.len(), 4);
    assert(rle_page(values).subrange(0, 4) =~= le_bytes(values.len(), 4));
}

proof fn lemma_same_steps(v: u64, n: nat)
    ensures
        gorilla_steps(v, Seq::new(n, |i: int| v)).len() == n,
    decreases n,
{
    let s = Seq::new(n, |i: int| v);
    if n > 0 {
        let x = v ^ v;
        assert(x == 0) by (bit_vector)
            requires
                x == v ^ v,
        ;
        assert(gorilla_step(v, v) == seq![false]);
        lemma_same_steps(v, (n - 1) as nat);
        assert(s.drop_first() =~= Seq::new((n - 1) as nat, |i: int| v));
    }
}

/// A series of one repeated float takes 64 bits for the first value and one for each other.
pub proof fn repeated_floats_take_one_bit(v: u64, n: nat)
    requires
        n > 0,
    ensures
        gorilla_page(Seq::new(n, |i: int| v)).len() == 8 + (64 + (n - 1) + 7) / 8,
{
    let s = Seq::new(n, |i: int| v);
    lemma_same_steps(v, (n - 1) as nat);
    assert(s.drop_first() =~= Seq::new((n - 1) as nat, |i: int| v));
    lemma_nat_bits_len(v as nat, 64);
    assert(gorilla_stream(s).len() == 64 + (n - 1));
    lemma_unpack(gorilla_stream(s));
    lemma_le_bytes_len(n, 4);
    lemma_le_bytes_len(crate::compress::bits::pack(gorilla_stream(s)).len(), 4);
}

/// A page of identifiers begins with their number in four bytes, and holds the one at `i`
/// unchanged behind it and those before.
pub proof fn identifiers_stand_in_line(values: Seq<[u8; 16]>, i: int)
    requires
        0 <= i < values.len() <= u32::MAX,
    ensures
        fixed_list(values).len() == 4 + 16 * values.len(),
        le(fixed_list(values).subrange(0, 4)) == values.len(),
        fixed_list(values).subrange(4 + 16 * i, 20 + 16 * i) == values[i]@,
{
    let parts = fixed_parts(values);
    assert(uniform(parts, 16));
    lemma_flat_uniform_len(parts, 16);
    lemma_flat_uniform_at(parts, 16, i);
    lemma_u32_round_trip(values.len());
    lemma_le_bytes_len(values.len(), 4);
    let p = fixed_list(values);
    assert(p.subrange(0, 4) =~= le_bytes(values.len(), 4));
    assert(p.subrange(4 + 16 * i, 20 + 16 * i) =~= flat(parts).subrange(i * 16, i * 16 + 16));
}

/// The list holds every value of the rows once, in order, and no other.
pub open spec fn lists_values_once(dict: Seq<Seq<u8>>, rows: Seq<Seq<u8>>) -> bool {
    &&& forall|i: int, j: int|
        0 <= i < j < dict.len() ==> lex_lt(#[trigger] dict[i], #[trigger] dict[j])
    &&& forall|k: int| 0 <= k < rows.len() ==> dict.contains(#[trigger] rows[k])
    &&& forall|i: int| 0 <= i < dict.len() ==> rows.contains(#[trigger] dict[i])
}

/// A dictionary page begins with the number of rows and of distinct values in four bytes each
/// and the width of a key, which is the least of one, two and four bytes that will do.
pub proof fn dictionary_pages_are_minimal(bytes: Seq<u8>, rows: Seq<Seq<u8>>)
    requires
        is_dict_page(bytes, rows),
        rows.len() <= u32::MAX,
    ensures
        le(bytes.subrange(0, 4)) == rows.len(),
        exists|dict: Seq<Seq<u8>>| #[trigger]
            lists_values_once(dict, rows) && (dict.len() <= u32::MAX ==> le(bytes.subrange(4, 8))
                == dict.len()) && (dict.len() <= 0x100 ==> bytes[8] == 1) && (0x100 < dict.len()
                <= 0x1_0000 ==> bytes[8] == 2) && (0x1_0000 < dict.len() ==> bytes[8] == 4),
{
    let (dict, block) = choose|dict: Seq<Seq<u8>>, block: Seq<u8>|
        #![trigger dict_page_bytes(dict, rows.len(), block)]
        is_dictionary(dict, rows) && lz4_holds(block, flat(key_parts(dict, rows))) && bytes
            == dict_page_bytes(dict, rows.len(), block);
    assert(is_dictionary(dict, rows) && bytes == dict_page_bytes(dict, rows.len(), block));
    let w = key_width(dict.len());
    lemma_pow256_values();
    lemma_u32_round_trip(rows.len());
    lemma_le_of_le_bytes(w, 1);
    lemma_le_bytes_len(rows.len(), 4);
    lemma_le_bytes_len(dict.len(), 4);
    lemma_le_bytes_len(w, 1);
    lemma_le_bytes_len(flat(entry_parts(dict)).len(), 4);
    assert(bytes.subrange(0, 4) =~= le_bytes(rows.len(), 4));
    assert(bytes.subrange(4, 8) =~= le_bytes(dict.len(), 4));
    assert(bytes.subrange(8, 9) =~= le_bytes(w, 1));
    if dict.len() <= u32::MAX {
        lemma_u32_round_trip(dict.len());
    }
    assert(bytes[8] == w) by {
        reveal_with_fuel(le, 2);
        assert(bytes.subrange(8, 9)[0] == bytes[8]);
    }
    assert(lists_values_once(dict, rows));
}

/// A page of floats begins with their number and the length of what follows. The first float
/// stands there in full.
pub proof fn first_floats_stand_in_full(values: Seq<u64>)
    requires
        0 < values.len() <= u32::MAX,
        gorilla_page(values).len() <= u32::MAX,
    ensures
        le(gorilla_page(values).subrange(0, 4)) == values.len(),
        le(gorilla_page(values).subrange(4, 8)) == gorilla_page(values).len() - 8,
        le(gorilla_page(values).subrange(8, 16)) == values[0],
{
    lemma_pow256_values();
    let page = gorilla_page(values);
    let head = le_bytes(values[0] as nat, 8);
    let tail = gorilla_steps(values[0], values.drop_first());
    let body = pack(gorilla_stream(values));
    lemma_le_of_le_bytes(values[0] as nat, 8);
    lemma_le_of_le_bytes(values.len(), 4);
    lemma_le_bytes_len(body.len(), 4);
    lemma_pack_bytes(head, tail);
    assert(gorilla_stream(values) =~= bytes_bits(head) + tail);
    assert(page.len() == 8 + body.len());
    lemma_le_of_le_bytes(body.len(), 4);
    assert(page.subrange(0, 4) =~= le_bytes(values.len(), 4));
    assert(page.subrange(4, 8) =~= le_bytes(body.len(), 4));
    assert(page.subrange(8, 16) =~= head);
}

/// A page of compressed texts begins with the number of its symbols, the symbols in eight bytes
/// each and their lengths in one. The number of rows follows, and where the codes of each row
/// begin and end among those that come last.
pub proof fn symbols_come_before_codes(
    table: Seq<(u64, u8)>,
    codes: Seq<Seq<u8>>,
    i: int,
    r: int,
)
    requires
        table.len() <= 255,
        0 <= i < table.len(),
        0 <= r < codes.len() <= u32::MAX,
        flat(codes).len() <= u32::MAX,
    ensures
        ({
            let s = fsst_page_bytes(table, codes);
            let n = table.len() as int;
            let rows = 5 + 9 * n;
            let start = le(s.subrange(rows + 4 * r, rows + 4 * r + 4));
            let end = le(s.subrange(rows + 4 * r + 4, rows + 4 * r + 8));
            let first = rows + 4 * (codes.len() as int + 1);
            &&& s[0] == n
            &&& le(s.subrange(1 + 8 * i, 9 + 8 * i)) == table[i].0
            &&& s[1 + 8 * n + i] == table[i].1
            &&& le(s.subrange(1 + 9 * n, 5 + 9 * n)) == codes.len()
            &&& end - start == codes[r].len()
            &&& s.subrange(first + start, first + end) == codes[r]
        }),
{
    lemma_pow256_values();
    let s = fsst_page_bytes(table, codes);
    let n = table.len() as int;
    let symbols = symbol_parts(table);
    let lens = Seq::new(table.len(), |k: int| table[k].1);
    let offsets = offset_parts(codes);
    assert forall|k: int| 0 <= k < symbols.len() implies (#[trigger] symbols[k]).len() == 8 by {
        lemma_le_bytes_len(table[k].0 as nat, 8);
    }
    assert forall|k: int| 0 <= k < offsets.len() implies (#[trigger] offsets[k]).len() == 4 by {
        lemma_le_bytes_len(offset_of(codes, k), 4);
    }
    lemma_flat_uniform_len(symbols, 8);
    lemma_flat_uniform_at(symbols, 8, i);
    lemma_flat_uniform_len(offsets, 4);
    lemma_flat_uniform_at(offsets, 4, r);
    lemma_flat_uniform_at(offsets, 4, r + 1);
    lemma_le_of_le_bytes(codes.len(), 4);
    lemma_le_of_le_bytes(table[i].0 as nat, 8);
    lemma_flat_at(codes, r);
    lemma_le_of_le_bytes(offset_of(codes, r), 4);
    lemma_le_of_le_bytes(offset_of(codes, r + 1), 4);
    let rows = 5 + 9 * n;
    let first = rows + 4 * (codes.len() as int + 1);
    assert(s.subrange(1 + 8 * i, 9 + 8 * i) =~= flat(symbols).subrange(i * 8, i * 8 + 8));
    assert(s[1 + 8 * n + i] == lens[i]);
    assert(s.subrange(1 + 9 * n, 5 + 9 * n) =~= le_bytes(codes.len(), 4));
    assert(s.subrange(rows + 4 * r, rows + 4 * r + 4) =~= flat(offsets).subrange(
        r * 4,
        r * 4 + 4,
    ));
    assert(s.subrange(rows + 4 * r + 4, rows + 4 * r + 8) =~= flat(offsets).subrange(
        (r + 1) * 4,
        (r + 1) * 4 + 4,
    ));
    let a = offset_of(codes, r);
    let b = offset_of(codes, r + 1);
    assert(s.subrange(first + a, first + b) =~= flat(codes).subrange(
        a as int,
        b as int,
    ));
}

} // verus!
