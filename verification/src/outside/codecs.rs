//! General-purpose compressors.
use crate::rows::{flat, slice_rows};
use crate::wire::{le_bytes, pow256};
use vstd::prelude::*;

verus! {

/// What `lz4_flex::decompress_size_prepended` returns for `block`; an error is taken by
/// its text.
pub uninterp spec fn lz4_content(block: Seq<u8>) -> Result<Seq<u8>, Seq<char>>;

/// What `zstd::stream::decode_all` returns for `frame`; an error is taken by its text.
pub uninterp spec fn zstd_content(frame: Seq<u8>) -> Result<Seq<u8>, Seq<char>>;

/// What `fsst::Compressor::compress` returns for `row` under a table of symbols.
pub uninterp spec fn fsst_codes(table: Seq<(u64, u8)>, row: Seq<u8>) -> Seq<u8>;

/// The symbols of an FSST compressor with their lengths, in code order.
pub uninterp spec fn fsst_table(c: fsst::Compressor) -> Seq<(u64, u8)>;

/// How many bytes 0xFF follow one another from `at` on.
pub open spec fn lz4_run(block: Seq<u8>, at: int) -> nat
    decreases block.len() - at,
{
    if 0 <= at < block.len() && block[at] == 0xff {
        1 + lz4_run(block, at + 1)
    } else {
        0
    }
}

/// The sum of the bytes of a length from `at` on: those of a run of 0xFF and the byte
/// after it, where there is one.
pub open spec fn lz4_sum(block: Seq<u8>, at: int) -> nat {
    let end = at + lz4_run(block, at);
    255 * lz4_run(block, at) + if end < block.len() {
        block[end] as nat
    } else {
        0
    }
}

/// The sums of the lengths in the sequences of a block from `at` on fit 32 bits. A sequence
/// is a token, the further bytes of the literals' length where the token's high half is 15,
/// the literals, two bytes of an offset, and the further bytes of the match's length where
/// the token's low half is 15.
pub open spec fn lz4_lengths_fit(block: Seq<u8>, at: int) -> bool
    decreases block.len() - at,
{
    if 0 <= at < block.len() {
        let high = block[at] / 16;
        let low = block[at] % 16;
        let literals = if high == 15 {
            at + 2 + lz4_run(block, at + 1)
        } else {
            at + 1
        };
        let offset = literals + high + if high == 15 {
            lz4_sum(block, at + 1)
        } else {
            0
        };
        let next = if low == 15 {
            offset + 3 + lz4_run(block, offset + 2)
        } else {
            offset + 2
        };
        &&& high == 15 ==> lz4_sum(block, at + 1) <= u32::MAX
        &&& low == 15 && offset + 2 <= block.len() ==> lz4_sum(block, offset + 2) <= u32::MAX
        &&& next < block.len() ==> lz4_lengths_fit(block, next)
    } else {
        true
    }
}

/// `block` is an LZ4 block of `data`, at most a tenth longer but for 24 bytes, and no length
/// in it, after the four bytes of the size, overflows 32 bits. The size has 32 bits, so
/// nothing is said of longer data.
pub open spec fn lz4_holds(block: Seq<u8>, data: Seq<u8>) -> bool {
    data.len() <= u32::MAX ==> (lz4_content(block) matches Ok(d) && d == data && block.len() <= 24
        + data.len() * 110 / 100 && lz4_lengths_fit(block, 4))
}

/// Calls `lz4_flex::compress_prepend_size`. The block it returns can be decompressed
/// back to the input, and has at most `get_maximum_output_size` bytes and four for the
/// size. The literals and the match of a sequence are parts of the input, so their lengths
/// fit 32 bits where the input's does. Which of the possible blocks that is depends on the
/// machine's word size and is left open.
#[verifier::external_body]
pub(crate) fn lz4_compress(data: &[u8]) -> (r: Vec<u8>)
    ensures
        lz4_holds(r@, data@),
{
    lz4_flex::compress_prepend_size(data)
}

/// Calls `lz4_flex::decompress_size_prepended`. The content of a block, or the error, is
/// a function of the block alone. It adds up the bytes of a length in 32 bits, which must
/// not overflow.
#[verifier::external_body]
pub(crate) fn lz4_decompress(block: &[u8]) -> (r: Result<Vec<u8>, String>)
    requires
        lz4_lengths_fit(block@, 4),
    ensures
        r matches Ok(data) ==> (lz4_content(block@) matches Ok(d) && d == data@),
        r matches Err(text) ==> (lz4_content(block@) matches Err(t) && t == text@),
{
    lz4_flex::decompress_size_prepended(block).map_err(|e| e.to_string())
}

/// `zstd::stream::encode_all` may return `frame` for `data` at this level.
pub uninterp spec fn zstd_framed(data: Seq<u8>, level: i32, frame: Seq<u8>) -> bool;

/// Calls `zstd::stream::encode_all`. A frame that it returns decodes back to the input.
/// Which of the frames that it may return that is, and whether memory suffices to build
/// it, is left open.
#[verifier::external_body]
pub(crate) fn zstd_encode(data: &[u8], level: i32) -> (r: Result<Vec<u8>, String>)
    ensures
        r matches Ok(frame) ==> (zstd_content(frame@) matches Ok(d) && d == data@),
        r matches Ok(frame) ==> zstd_framed(data@, level, frame@),
{
    zstd::stream::encode_all(data, level).map_err(|e| e.to_string())
}

/// Calls `zstd::stream::decode_all`. The content of a frame, or the error, is a function
/// of the frame alone, given the memory to decode it.
#[verifier::external_body]
pub(crate) fn zstd_decode(frame: &[u8]) -> (r: Result<Vec<u8>, String>)
    ensures
        r matches Ok(data) ==> (zstd_content(frame@) matches Ok(d) && d == data@),
        r matches Err(text) ==> (zstd_content(frame@) matches Err(t) && t == text@),
{
    zstd::stream::decode_all(frame).map_err(|e| e.to_string())
}

/// A trained FSST symbol table, opaque here.
#[verifier::external_type_specification]
#[verifier::external_body]
pub struct ExCompressor(fsst::Compressor);

/// The bytes that a symbol stands for.
pub open spec fn symbol_bytes(symbol: (u64, u8)) -> Seq<u8> {
    le_bytes(symbol.0 as nat, 8).take(symbol.1 as int)
}

/// Every symbol has one to eight bytes, none beyond its length, and but for the
/// one-byte symbol zero it does not end in a zero byte.
pub open spec fn fsst_table_valid(table: Seq<(u64, u8)>) -> bool {
    &&& table.len() <= 255
    &&& forall|i: int|
        #![trigger table[i]]
        0 <= i < table.len() ==> {
            &&& 1 <= table[i].1 <= 8
            &&& (table[i].0 as nat) < pow256(table[i].1 as nat)
            &&& table[i].1 > 1 ==> table[i].0 as nat >= pow256((table[i].1 - 1) as nat)
        }
}

/// The escape code: the byte after it stands for itself.
pub const FSST_ESCAPE: u8 = 255;

/// No escape code stands at the end.
pub open spec fn fsst_codes_ok(codes: Seq<u8>) -> bool
    decreases codes.len(),
{
    if codes.len() == 0 {
        true
    } else if codes[0] == FSST_ESCAPE {
        codes.len() >= 2 && fsst_codes_ok(codes.skip(2))
    } else {
        fsst_codes_ok(codes.skip(1))
    }
}

/// What a string of codes stands for; codes without a symbol stand for nothing.
pub open spec fn fsst_decode(table: Seq<(u64, u8)>, codes: Seq<u8>) -> Seq<u8>
    decreases codes.len(),
{
    if codes.len() == 0 {
        Seq::empty()
    } else if codes[0] == FSST_ESCAPE {
        if codes.len() < 2 {
            Seq::empty()
        } else {
            seq![codes[1]] + fsst_decode(table, codes.skip(2))
        }
    } else if codes[0] < table.len() {
        symbol_bytes(table[codes[0] as int]) + fsst_decode(table, codes.skip(1))
    } else {
        fsst_decode(table, codes.skip(1))
    }
}

/// Every code that is not escaped stands for at most eight bytes.
pub open spec fn fsst_codes_fit(table: Seq<(u64, u8)>, codes: Seq<u8>) -> bool
    decreases codes.len(),
{
    if codes.len() == 0 {
        true
    } else if codes[0] == FSST_ESCAPE {
        codes.len() < 2 || fsst_codes_fit(table, codes.skip(2))
    } else {
        (codes[0] < table.len() ==> table[codes[0] as int].1 <= 8) && fsst_codes_fit(
            table,
            codes.skip(1),
        )
    }
}

/// `fsst::Compressor::train` may pick this table for these samples.
pub uninterp spec fn fsst_trains(samples: Seq<Seq<u8>>, table: Seq<(u64, u8)>) -> bool;

/// Calls `fsst::Compressor::train`. Training yields at most 255 symbols of one to eight
/// bytes: none without samples, and some from 16,384 bytes of samples on. Which symbols it
/// picks is left open: with so many bytes it samples them by numbers of the machine's word
/// size.
#[verifier::external_body]
pub(crate) fn fsst_train(samples: &Vec<&[u8]>) -> (r: fsst::Compressor)
    ensures
        fsst_table_valid(fsst_table(r)),
        fsst_trains(slice_rows(samples@), fsst_table(r)),
        samples@.len() == 0 ==> fsst_table(r).len() == 0,
        flat(slice_rows(samples@)).len() >= 16_384 ==> fsst_table(r).len() > 0,
{
    fsst::Compressor::train(samples)
}

/// Calls `fsst::Compressor::compress`. The codes it returns are a function of the
/// compressor's table and the input. They stand for the input under that table, and no
/// escape is left open at their end.
#[verifier::external_body]
pub(crate) fn fsst_compress(c: &fsst::Compressor, row: &[u8]) -> (r: Vec<u8>)
    requires
        fsst_table_valid(fsst_table(*c)),
    ensures
        r@ == fsst_codes(fsst_table(*c), row@),
        fsst_codes_ok(r@),
        fsst_decode(fsst_table(*c), r@) == row@,
{
    c.compress(row)
}

/// Calls `fsst::Compressor::symbol_table`: the symbols in code order.
#[verifier::external_body]
pub(crate) fn fsst_symbols(c: &fsst::Compressor) -> (r: Vec<u64>)
    ensures
        r@.len() == fsst_table(*c).len(),
        forall|i: int| 0 <= i < r@.len() ==> #[trigger] r@[i] == fsst_table(*c)[i].0,
{
    c.symbol_table().iter().map(|s| s.to_u64()).collect()
}

/// Calls `fsst::Compressor::symbol_lengths`: the lengths of the symbols in code order.
#[verifier::external_body]
pub(crate) fn fsst_lengths(c: &fsst::Compressor) -> (r: Vec<u8>)
    ensures
        r@.len() == fsst_table(*c).len(),
        forall|i: int| 0 <= i < r@.len() ==> #[trigger] r@[i] == fsst_table(*c)[i].1,
{
    c.symbol_lengths().to_vec()
}

/// Calls `fsst::Decompressor::decompress` on the table made of `symbols` and `lengths`:
/// each code is replaced by the first `length` bytes of its symbol, an escaped byte by
/// itself.
#[verifier::external_body]
pub(crate) fn fsst_decompress(symbols: &Vec<u64>, lengths: &Vec<u8>, codes: &[u8]) -> (r: Vec<u8>)
    requires
        symbols@.len() == lengths@.len() <= 255,
        fsst_codes_ok(codes@),
        fsst_codes_fit(Seq::new(symbols@.len(), |i: int| (symbols@[i], lengths@[i])), codes@),
    ensures
        r@ == fsst_decode(
            Seq::new(symbols@.len(), |i: int| (symbols@[i], lengths@[i])),
            codes@,
        ),
{
    let mut table: [fsst::Symbol; 255] = [fsst::Symbol::ZERO; 255];
    for (slot, s) in table.iter_mut().zip(symbols.iter()) {
        *slot = fsst::Symbol::from_slice(&s.to_le_bytes());
    }
    let mut lens: [u8; 255] = [0u8; 255];
    lens[..lengths.len()].copy_from_slice(lengths);
    fsst::Decompressor::new(&table, &lens).decompress(codes)
}

} // verus!
