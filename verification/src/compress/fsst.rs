//! FSST (Fast Static Symbol Table) compression for wide string columns.
//!
//! A symbol table is trained per page and every row is compressed on its own. The page
//! carries a per-row offset directory, so row N is decoded without touching other rows.
//!
//! ```text
//! symbol_count: u8
//! symbols:    u64[symbol_count]
//! lengths:    u8[symbol_count]
//! row_count:  u32
//! offsets:    u32[row_count + 1]   into compressed_payload
//! compressed_payload: bytes
//! ```
use crate::common::errors::ZenError;
use crate::outside::codecs::{
    fsst_codes, fsst_codes_fit, fsst_codes_ok, fsst_compress, fsst_decode, fsst_decompress,
    fsst_lengths, fsst_symbols, fsst_table, fsst_table_valid, fsst_train, fsst_trains, FSST_ESCAPE,
};
use crate::rows::{
    byte_rows, flat, lemma_flat_at, lemma_flat_push, lemma_flat_uniform_at,
    lemma_flat_uniform_len, lemma_offset_zero, offset_of, slice_rows, uniform,
};
use crate::text::{concat2, decimal, decimal_string};
use crate::wire::{
    get_u32, get_u64, le, le_bytes, lemma_le_bytes_len, lemma_le_of_le_bytes, lemma_pow256_values,
    lemma_u32_round_trip, put_len32, put_slice, put_u64,
};
use vstd::prelude::*;
use vstd::slice::{slice_subrange, slice_to_vec};
use vstd::string::*;

verus! {

#[derive(Debug)]
pub struct FsstHeader {
    pub row_count: u32,
    pub symbol_count: u8,
}

/// The parts of a page.
#[verifier::ext_equal]
pub ghost struct FsstPage {
    pub table: Seq<(u64, u8)>,
    pub offsets: Seq<u32>,
    pub payload: Seq<u8>,
}

impl FsstPage {
    pub open spec fn row_count(self) -> int {
        self.offsets.len() - 1
    }

    /// The row at `idx`, or why it cannot be read.
    pub open spec fn row(self, idx: int) -> Result<Seq<u8>, Seq<char>> {
        if idx >= self.row_count() {
            Err(
                "row index "@ + decimal(idx as nat) + " >= row count "@ + decimal(
                    self.row_count() as nat,
                ),
            )
        } else {
            let start = self.offsets[idx] as int;
            let end = self.offsets[idx + 1] as int;
            if start == end {
                Ok(Seq::empty())
            } else if end > self.payload.len() {
                Err("FSST row offset out of bounds for payload"@)
            } else if start > end {
                Err("FSST row offsets out of order"@)
            } else if !fsst_codes_ok(self.payload.subrange(start, end)) {
                Err("FSST row ends in an escape code"@)
            } else if !fsst_codes_fit(self.table, self.payload.subrange(start, end)) {
                Err("FSST symbol longer than 8 bytes"@)
            } else {
                Ok(fsst_decode(self.table, self.payload.subrange(start, end)))
            }
        }
    }

    /// The rows `start..end`, or why the first bad one cannot be read.
    pub open spec fn range(self, start: int, end: int) -> Result<Seq<Seq<u8>>, Seq<char>>
        decreases end - start,
    {
        if start >= end {
            Ok(Seq::empty())
        } else {
            match self.row(start) {
                Err(m) => Err(m),
                Ok(row) => match self.range(start + 1, end) {
                    Err(m) => Err(m),
                    Ok(rest) => Ok(seq![row] + rest),
                },
            }
        }
    }
}

/// The symbols of a table, eight bytes each.
pub open spec fn symbol_parts(table: Seq<(u64, u8)>) -> Seq<Seq<u8>> {
    Seq::new(table.len(), |i: int| le_bytes(table[i].0 as nat, 8))
}

/// The offset directory of rows with the given codes.
pub open spec fn offset_parts(codes: Seq<Seq<u8>>) -> Seq<Seq<u8>> {
    Seq::new(codes.len() + 1, |i: int| le_bytes(offset_of(codes, i), 4))
}

/// The page made of a table and the codes of its rows.
pub open spec fn fsst_page_bytes(table: Seq<(u64, u8)>, codes: Seq<Seq<u8>>) -> Seq<u8> {
    seq![table.len() as u8] + flat(symbol_parts(table)) + Seq::new(
        table.len(),
        |i: int| table[i].1,
    ) + le_bytes(codes.len(), 4) + flat(offset_parts(codes)) + flat(codes)
}

/// The codes of a row; an empty row has none.
pub open spec fn row_codes(table: Seq<(u64, u8)>, row: Seq<u8>) -> Seq<u8> {
    if row.len() == 0 {
        Seq::empty()
    } else {
        fsst_codes(table, row)
    }
}

/// The codes are those of the rows, row by row, and stand for them.
pub open spec fn codes_of(
    table: Seq<(u64, u8)>,
    codes: Seq<Seq<u8>>,
    rows: Seq<Seq<u8>>,
) -> bool {
    &&& codes.len() == rows.len()
    &&& forall|i: int|
        #![trigger codes[i]]
        0 <= i < codes.len() ==> {
            &&& codes[i] == row_codes(table, rows[i])
            &&& fsst_codes_ok(codes[i])
            &&& fsst_decode(table, codes[i]) == rows[i]
        }
}

/// `bytes` is a page of `rows` under the symbol table `table`.
pub open spec fn is_fsst_page(
    bytes: Seq<u8>,
    table: Seq<(u64, u8)>,
    rows: Seq<Seq<u8>>,
) -> bool {
    exists|codes: Seq<Seq<u8>>|
        #![trigger fsst_page_bytes(table, codes)]
        codes_of(table, codes, rows) && bytes == fsst_page_bytes(table, codes)
}

/// What a page holds: its parts, or why they cannot be told apart.
pub open spec fn fsst_parse(page: Seq<u8>) -> Result<FsstPage, Seq<char>> {
    if page.len() == 0 {
        Err("empty FSST page"@)
    } else {
        let n = page[0] as int;
        if page.len() - 1 < n * 9 + 4 {
            Err("FSST page truncated in symbol table"@)
        } else {
            let rows = le(page.subrange(1 + n * 9, 5 + n * 9));
            let dir = 5 + n * 9;
            if page.len() - dir < (rows + 1) * 4 {
                Err("FSST page truncated in offsets"@)
            } else {
                Ok(
                    FsstPage {
                        table: Seq::new(
                            n as nat,
                            |i: int|
                                (
                                    le(page.subrange(1 + i * 8, 9 + i * 8)) as u64,
                                    page[1 + n * 8 + i],
                                ),
                        ),
                        offsets: Seq::new(
                            rows + 1,
                            |i: int| le(page.subrange(dir + i * 4, dir + i * 4 + 4)) as u32,
                        ),
                        payload: page.skip(dir + (rows + 1) * 4),
                    },
                )
            }
        }
    }
}

/// Whether no escape code stands at the end.
fn codes_ok(codes: &[u8]) -> (r: bool)
    ensures
        r == fsst_codes_ok(codes@),
{
    let mut i: usize = 0;
    assert(codes@.skip(0) =~= codes@);
    while i < codes.len()
        invariant
            i <= codes.len(),
            fsst_codes_ok(codes@) == fsst_codes_ok(codes@.skip(i as int)),
        decreases codes.len() - i,
    {
        assert(codes@.skip(i as int).skip(1) =~= codes@.skip(i + 1));
        if codes[i] == FSST_ESCAPE {
            if codes.len() - i < 2 {
                return false;
            }
            assert(codes@.skip(i as int).skip(2) =~= codes@.skip(i + 2));
            i = i + 2;
        } else {
            i = i + 1;
        }
    }
    true
}

/// Whether every code that is not escaped stands for at most eight bytes.
fn codes_fit(lengths: &Vec<u8>, codes: &[u8], Ghost(table): Ghost<Seq<(u64, u8)>>) -> (r: bool)
    requires
        table.len() == lengths@.len(),
        forall|i: int| 0 <= i < table.len() ==> (#[trigger] table[i]).1 == lengths@[i],
    ensures
        r == fsst_codes_fit(table, codes@),
{
    let mut i: usize = 0;
    assert(codes@.skip(0) =~= codes@);
    while i < codes.len()
        invariant
            i <= codes.len(),
            table.len() == lengths@.len(),
            forall|k: int| 0 <= k < table.len() ==> (#[trigger] table[k]).1 == lengths@[k],
            fsst_codes_fit(table, codes@) == fsst_codes_fit(table, codes@.skip(i as int)),
        decreases codes.len() - i,
    {
        assert(codes@.skip(i as int).skip(1) =~= codes@.skip(i + 1));
        if codes[i] == FSST_ESCAPE {
            if codes.len() - i < 2 {
                return true;
            }
            assert(codes@.skip(i as int).skip(2) =~= codes@.skip(i + 2));
            i = i + 2;
        } else {
            let c: usize = codes[i] as usize;
            if c < lengths.len() && lengths[c] > 8 {
                assert(table[c as int].1 > 8);
                return false;
            }
            i = i + 1;
        }
    }
    true
}

/// The symbols of a valid table are short enough for all codes.
proof fn lemma_valid_table_fits(table: Seq<(u64, u8)>, codes: Seq<u8>)
    requires
        fsst_table_valid(table),
    ensures
        fsst_codes_fit(table, codes),
    decreases codes.len(),
{
    if codes.len() > 0 {
        if codes[0] == FSST_ESCAPE {
            if codes.len() >= 2 {
                lemma_valid_table_fits(table, codes.skip(2));
            }
        } else {
            lemma_valid_table_fits(table, codes.skip(1));
        }
    }
}

/// A symbol table trained for a column page.
pub struct FsstCompressor {
    compressor: fsst::Compressor,
}

impl FsstCompressor {
    /// The symbol table.
    pub closed spec fn table(&self) -> Seq<(u64, u8)> {
        fsst_table(self.compressor)
    }

    #[verifier::type_invariant]
    spec fn inv(&self) -> bool {
        fsst_table_valid(fsst_table(self.compressor))
    }

    /// Trains a symbol table on a sample of rows. There are no symbols without samples, and
    /// some from 16,384 bytes of samples on.
    pub fn train(samples: &[&[u8]]) -> (r: Self)
        ensures
            fsst_table_valid(r.table()),
            fsst_trains(slice_rows(samples@), r.table()),
            samples@.len() == 0 ==> r.table().len() == 0,
            flat(slice_rows(samples@)).len() >= 16_384 ==> r.table().len() > 0,
    {
        let v: Vec<&[u8]> = slice_to_vec(samples);
        FsstCompressor { compressor: fsst_train(&v) }
    }

    /// Compresses a column page. Empty rows take no space in the payload. Counts and
    /// offsets beyond 32 bits are cut to their low 32 bits, as the format's fields are.
    pub fn encode_page(&self, rows: &[&[u8]]) -> (r: Vec<u8>)
        ensures
            is_fsst_page(r@, self.table(), slice_rows(rows@)),
    {
        proof {
            use_type_invariant(self);
        }
        let ghost table = self.table();
        let mut payload: Vec<u8> = Vec::new();
        let mut dir: Vec<u8> = Vec::new();
        let ghost mut codes: Seq<Seq<u8>> = Seq::empty();
        put_len32(&mut dir, 0);
        proof {
            lemma_offset_zero(codes);
            lemma_flat_push(Seq::empty(), le_bytes(0, 4));
            assert(offset_parts(codes) =~= Seq::<Seq<u8>>::empty().push(le_bytes(0, 4)));
            assert(flat(Seq::<Seq<u8>>::empty()) + le_bytes(0, 4) =~= le_bytes(0, 4));
        }
        let mut i: usize = 0;
        while i < rows.len()
            invariant
                i <= rows.len(),
                table == fsst_table(self.compressor),
                fsst_table_valid(table),
                codes_of(table, codes, slice_rows(rows@).take(i as int)),
                payload@ == flat(codes),
                dir@ == flat(offset_parts(codes)),
            decreases rows.len() - i,
        {
            let row: &[u8] = rows[i];
            let ghost old_codes = codes;
            let code: Vec<u8> = if row.len() > 0 {
                fsst_compress(&self.compressor, row)
            } else {
                assert(Seq::<u8>::empty() =~= row@);
                Vec::new()
            };
            put_slice(&mut payload, code.as_slice());
            proof {
                codes = old_codes.push(code@);
                lemma_flat_push(old_codes, code@);
                let rows2 = slice_rows(rows@).take(i + 1);
                assert forall|k: int| #![trigger codes[k]] 0 <= k < codes.len() implies codes[k]
                    == row_codes(table, rows2[k]) && fsst_codes_ok(codes[k]) && fsst_decode(
                    table,
                    codes[k],
                ) == rows2[k] by {
                    if k < i {
                        assert(old_codes[k] == codes[k]);
                        assert(rows2[k] == slice_rows(rows@).take(i as int)[k]);
                    }
                }
                let next = le_bytes(payload@.len(), 4);
                lemma_offset_zero(codes);
                assert(offset_parts(codes) =~= offset_parts(old_codes).push(next)) by {
                    assert forall|k: int| 0 <= k <= old_codes.len() implies offset_of(codes, k)
                        == #[trigger] offset_of(old_codes, k) by {
                        assert(codes.take(k) =~= old_codes.take(k));
                    }
                }
                lemma_flat_push(offset_parts(old_codes), next);
            }
            put_len32(&mut dir, payload.len());
            i = i + 1;
        }
        assert(slice_rows(rows@).take(i as int) =~= slice_rows(rows@));
        let symbols: Vec<u64> = fsst_symbols(&self.compressor);
        let lengths: Vec<u8> = fsst_lengths(&self.compressor);
        let mut out: Vec<u8> = Vec::new();
        out.push(symbols.len() as u8);
        let ghost head = out@;
        let mut k: usize = 0;
        assert(symbol_parts(table).take(0) =~= Seq::empty());
        assert(head + Seq::<u8>::empty() =~= head);
        while k < symbols.len()
            invariant
                k <= symbols.len(),
                symbols@.len() == table.len(),
                forall|j: int| 0 <= j < symbols@.len() ==> #[trigger] symbols@[j] == table[j].0,
                out@ == head + flat(symbol_parts(table).take(k as int)),
            decreases symbols.len() - k,
        {
            let ghost parts = symbol_parts(table).take(k as int);
            proof {
                let next = le_bytes(symbols@[k as int] as nat, 8);
                lemma_flat_push(parts, next);
                assert(symbol_parts(table).take(k + 1) =~= parts.push(next));
                assert(head + (flat(parts) + next) =~= head + flat(parts) + next);
            }
            put_u64(&mut out, symbols[k]);
            k = k + 1;
        }
        assert(symbol_parts(table).take(k as int) =~= symbol_parts(table));
        put_slice(&mut out, lengths.as_slice());
        assert(lengths@ =~= Seq::new(table.len(), |j: int| table[j].1));
        put_len32(&mut out, rows.len());
        put_slice(&mut out, dir.as_slice());
        put_slice(&mut out, payload.as_slice());
        assert(out@ =~= fsst_page_bytes(table, codes));
        out
    }

    /// Takes a page apart for reading.
    pub fn open<'a>(page: &'a [u8]) -> (r: Result<DecodedFsst<'a>, ZenError>)
        ensures
            match fsst_parse(page@) {
                Ok(parts) => r matches Ok(d) && d.wf() && d@ == parts,
                Err(msg) => r matches Err(ZenError::Format(m)) && m@ == msg,
            },
    {
        if page.len() == 0 {
            return Err(ZenError::format("empty FSST page"));
        }
        let n: usize = page[0] as usize;
        if page.len() - 1 < n * 9 + 4 {
            return Err(ZenError::format("FSST page truncated in symbol table"));
        }
        let row_count: u32 = get_u32(page, 1 + n * 9);
        let dir: usize = 5 + n * 9;
        if ((page.len() - dir) as u64) < (row_count as u64 + 1) * 4 {
            return Err(ZenError::format("FSST page truncated in offsets"));
        }
        let mut symbols: Vec<u64> = Vec::new();
        let mut lengths: Vec<u8> = Vec::new();
        let mut i: usize = 0;
        while i < n
            invariant
                i <= n <= 255,
                n == page@[0],
                1 + n * 9 <= page.len(),
                symbols@ == Seq::new(i as nat, |j: int| le(page@.subrange(1 + j * 8, 9 + j * 8)) as u64),
                lengths@ == Seq::new(i as nat, |j: int| page@[1 + n * 8 + j]),
                dir == 5 + n * 9,
                1 + n * 9 + 4 <= page@.len(),
                row_count == le(page@.subrange(1 + n * 9, 5 + n * 9)),
                page@.len() - dir >= (row_count + 1) * 4,
            decreases n - i,
        {
            let sym: u64 = get_u64(page, 1 + i * 8);
            let len: u8 = page[1 + n * 8 + i];
            symbols.push(sym);
            lengths.push(len);
            i = i + 1;
            assert(symbols@ =~= Seq::new(i as nat, |j: int| le(page@.subrange(1 + j * 8, 9 + j * 8)) as u64));
            assert(lengths@ =~= Seq::new(i as nat, |j: int| page@[1 + n * 8 + j]));
        }
        let mut offsets: Vec<u32> = Vec::new();
        let total: usize = row_count as usize + 1;
        let mut k: usize = 0;
        while k < total
            invariant
                k <= total,
                dir + total * 4 <= page.len(),
                offsets@ == Seq::new(
                    k as nat,
                    |j: int| le(page@.subrange(dir + j * 4, dir + j * 4 + 4)) as u32,
                ),
            decreases total - k,
        {
            offsets.push(get_u32(page, dir + k * 4));
            k = k + 1;
            assert(offsets@ =~= Seq::new(
                k as nat,
                |j: int| le(page@.subrange(dir + j * 4, dir + j * 4 + 4)) as u32,
            ));
        }
        let payload: &'a [u8] = slice_subrange(page, dir + total * 4, page.len());
        let d = DecodedFsst {
            symbols,
            lengths,
            header: FsstHeader { row_count, symbol_count: n as u8 },
            offsets,
            payload,
        };
        proof {
            let parts = fsst_parse(page@)->Ok_0;
            assert(d@.table =~= parts.table);
            assert(d@.offsets =~= parts.offsets);
            assert(d@.payload =~= parts.payload);
        }
        Ok(d)
    }
}

/// A page taken apart for reading: the symbol table, the offsets and the compressed
/// payload.
pub struct DecodedFsst<'a> {
    pub symbols: Vec<u64>,
    pub lengths: Vec<u8>,
    pub header: FsstHeader,
    pub offsets: Vec<u32>,
    pub payload: &'a [u8],
}

impl<'a> DecodedFsst<'a> {
    pub open spec fn view(&self) -> FsstPage {
        FsstPage {
            table: Seq::new(self.symbols@.len(), |i: int| (self.symbols@[i], self.lengths@[i])),
            offsets: self.offsets@,
            payload: self.payload@,
        }
    }

    /// The parts fit together.
    pub open spec fn wf(&self) -> bool {
        &&& self.offsets@.len() == self.header.row_count + 1
        &&& self.symbols@.len() == self.lengths@.len()
        &&& self.symbols@.len() == self.header.symbol_count
    }

    pub fn row_count(&self) -> (r: usize)
        ensures
            r == self.header.row_count,
            self.wf() ==> r == self@.row_count(),
    {
        self.header.row_count as usize
    }

    /// Decodes the row at `idx`.
    pub fn decode_row(&self, idx: usize) -> (r: Result<Vec<u8>, ZenError>)
        requires
            self.wf(),
        ensures
            match self@.row(idx as int) {
                Ok(row) => r matches Ok(v) && v@ == row,
                Err(msg) => r matches Err(ZenError::Format(m)) && m@ == msg,
            },
    {
        if idx >= self.row_count() {
            let mut msg: String = concat2("row index ", decimal_string(idx as u64).as_str());
            msg.append(" >= row count ");
            msg.append(decimal_string(self.row_count() as u64).as_str());
            return Err(ZenError::Format(msg));
        }
        let start: usize = self.offsets[idx] as usize;
        let end: usize = self.offsets[idx + 1] as usize;
        if start == end {
            let empty: Vec<u8> = Vec::new();
            return Ok(empty);
        }
        if end > self.payload.len() {
            return Err(ZenError::format("FSST row offset out of bounds for payload"));
        }
        if start > end {
            return Err(ZenError::format("FSST row offsets out of order"));
        }
        let codes: &[u8] = slice_subrange(self.payload, start, end);
        if !codes_ok(codes) {
            return Err(ZenError::format("FSST row ends in an escape code"));
        }
        if !codes_fit(&self.lengths, codes, Ghost(self@.table)) {
            return Err(ZenError::format("FSST symbol longer than 8 bytes"));
        }
        Ok(fsst_decompress(&self.symbols, &self.lengths, codes))
    }

    /// Decodes the rows from `start` up to `end` or the last row.
    pub fn decode_range(&self, start: usize, end: usize) -> (r: Result<Vec<Vec<u8>>, ZenError>)
        requires
            self.wf(),
        ensures
            match self@.range(
                start as int,
                if end as int <= self@.row_count() { end as int } else { self@.row_count() },
            ) {
                Ok(rows) => r matches Ok(v) && byte_rows(v@) == rows,
                Err(msg) => r matches Err(ZenError::Format(m)) && m@ == msg,
            },
    {
        let stop: usize = if end < self.row_count() { end } else { self.row_count() };
        let mut out: Vec<Vec<u8>> = Vec::new();
        if start >= stop {
            assert(byte_rows(out@) =~= Seq::empty());
            return Ok(out);
        }
        let mut i: usize = start;
        let ghost whole = self@.range(start as int, stop as int);
        proof {
            assert(byte_rows(out@) =~= Seq::empty());
            if let Ok(rows) = whole {
                assert(Seq::<Seq<u8>>::empty() + rows =~= rows);
            }
        }
        while i < stop
            invariant
                self.wf(),
                start <= i <= stop,
                stop as int == if end as int <= self@.row_count() { end as int } else { self@.row_count() },
                whole == self@.range(start as int, stop as int),
                match self@.range(i as int, stop as int) {
                    Ok(rest) => whole == Ok::<Seq<Seq<u8>>, Seq<char>>(byte_rows(out@) + rest),
                    Err(m) => whole == Err::<Seq<Seq<u8>>, Seq<char>>(m),
                },
            decreases stop - i,
        {
            let ghost before = byte_rows(out@);
            match self.decode_row(i) {
                Ok(row) => {
                    let ghost content = row@;
                    out.push(row);
                    proof {
                        assert(byte_rows(out@) =~= before.push(content));
                        if let Ok(rest) = self@.range(i + 1, stop as int) {
                            assert(before + (seq![content] + rest) =~= before.push(content) + rest);
                        }
                    }
                },
                Err(e) => {
                    return Err(e);
                },
            }
            i = i + 1;
        }
        assert(byte_rows(out@) + Seq::<Seq<u8>>::empty() =~= byte_rows(out@));
        Ok(out)
    }
}

/// Opening a page of rows and reading any row gives that row back. The row count and
/// the payload length have to fit into their 32-bit fields.
pub proof fn fsst_round_trip(
    bytes: Seq<u8>,
    table: Seq<(u64, u8)>,
    codes: Seq<Seq<u8>>,
    rows: Seq<Seq<u8>>,
)
    requires
        fsst_table_valid(table),
        codes_of(table, codes, rows),
        bytes == fsst_page_bytes(table, codes),
        rows.len() <= u32::MAX,
        flat(codes).len() <= u32::MAX,
    ensures
        fsst_parse(bytes) matches Ok(page) && page.row_count() == rows.len() && page.table == table
            && forall|i: int|
            0 <= i < rows.len() ==> #[trigger] page.row(i) == Ok::<Seq<u8>, Seq<char>>(rows[i]),
{
    let n = table.len() as int;
    let m = codes.len() as int;
    let syms = symbol_parts(table);
    let lens = Seq::new(table.len(), |i: int| table[i].1);
    let dirs = offset_parts(codes);
    assert(uniform(syms, 8)) by {
        assert forall|i: int| 0 <= i < syms.len() implies (#[trigger] syms[i]).len() == 8 by {
            lemma_le_bytes_len(table[i].0 as nat, 8);
        }
    }
    assert(uniform(dirs, 4)) by {
        assert forall|i: int| 0 <= i < dirs.len() implies (#[trigger] dirs[i]).len() == 4 by {
            lemma_le_bytes_len(offset_of(codes, i), 4);
        }
    }
    lemma_flat_uniform_len(syms, 8);
    lemma_flat_uniform_len(dirs, 4);
    lemma_u32_round_trip(codes.len());
    let dir = 5 + n * 9;
    assert(bytes[0] == n);
    assert(bytes.subrange(1 + n * 9, 5 + n * 9) =~= le_bytes(codes.len(), 4));
    assert forall|i: int| 0 <= i < n implies #[trigger] bytes[1 + n * 8 + i] == table[i].1 by {
        assert(bytes[1 + n * 8 + i] == lens[i]);
    }
    let page = fsst_parse(bytes)->Ok_0;
    assert(fsst_parse(bytes) is Ok);
    assert(page.payload =~= flat(codes));
    assert(page.table =~= table) by {
        assert forall|i: int| 0 <= i < n implies page.table[i] == table[i] by {
            lemma_flat_uniform_at(syms, 8, i);
            assert(bytes.subrange(1 + i * 8, 9 + i * 8) =~= flat(syms).subrange(i * 8, i * 8 + 8));
            lemma_pow256_values();
            lemma_le_of_le_bytes(table[i].0 as nat, 8);
        }
    }
    assert forall|i: int| 0 <= i <= m implies page.offsets[i] == offset_of(codes, i) by {
        lemma_flat_uniform_at(dirs, 4, i);
        assert(bytes.subrange(dir + i * 4, dir + i * 4 + 4) =~= flat(dirs).subrange(
            i * 4,
            i * 4 + 4,
        ));
        if i < m {
            lemma_flat_at(codes, i);
        } else {
            lemma_offset_zero(codes);
        }
        lemma_u32_round_trip(offset_of(codes, i));
    }
    assert forall|i: int| 0 <= i < rows.len() implies #[trigger] page.row(i) == Ok::<
        Seq<u8>,
        Seq<char>,
    >(rows[i]) by {
        lemma_flat_at(codes, i);
        assert(page.offsets[i] == offset_of(codes, i));
        assert(page.offsets[i + 1] == offset_of(codes, i + 1));
        assert(fsst_decode(table, codes[i]) == rows[i]);
        lemma_valid_table_fits(table, codes[i]);
        if codes[i].len() == 0 {
            assert(codes[i] =~= Seq::empty());
        }
    }
}

} // verus!
