//! Per-column pages within a row group.
//!
//! A page is the smallest independently decodable unit. Wide string columns carry a
//! per-row offset directory, so that one row is decoded without touching the others.
use crate::common::errors::{ErrorView, ZenError};
use crate::compress::dict::{dict_parse, has_long_row, is_dict_page, DictBuilder, DictDecoder};
use crate::compress::for_bitpack::{for_decompress, for_encode, for_page, for_parse};
use crate::compress::fsst::{fsst_parse, is_fsst_page, FsstCompressor};
use crate::compress::gorilla::{
    gorilla_decompress, gorilla_encode, gorilla_page, gorilla_parse,
};
use crate::compress::rle::{rle_decompress, rle_encode, rle_page, rle_parse};
use crate::compress::zstd_page::{zstd_compress, zstd_decompress};
use crate::outside::codecs::{fsst_table_valid, fsst_trains, zstd_content, zstd_framed};
use crate::rows::{byte_rows, copy_bytes, flat, lemma_flat_push, slice_rows};
use crate::text::{concat2, concat3, decimal, decimal_string};
use crate::wire::{get_u32, le, le_bytes, put_len32, put_slice};
use vstd::prelude::*;
use vstd::slice::slice_subrange;
use vstd::string::*;

verus! {

#[derive(Copy, Clone, Eq, PartialEq, Debug, Structural)]
pub enum PageEncoding {
    Raw,
    /// Used for `prompt`, `completion`, `tool_io_text`. Ships symbol table + per-row offsets.
    FsstWithOffsets,
    /// ZSTD-wrapped binary blob (e.g. `metadata` JSON).
    Zstd,
    /// Gorilla XOR for f64 streams.
    Gorilla,
    /// Frame-of-Reference + bit-pack for i64.
    For,
    /// RLE for high-repetition i64.
    Rle,
    /// Dictionary keys + LZ4 wrap, for low-cardinality strings.
    Dict,
    /// Fixed-width binary (e.g. TraceId/SpanId) - concatenated raw.
    FixedRaw,
}

impl PageEncoding {
    /// The byte that stands for the encoding.
    pub open spec fn tag(self) -> u8 {
        match self {
            PageEncoding::Raw => 0,
            PageEncoding::FsstWithOffsets => 1,
            PageEncoding::Zstd => 2,
            PageEncoding::Gorilla => 3,
            PageEncoding::For => 4,
            PageEncoding::Rle => 5,
            PageEncoding::Dict => 6,
            PageEncoding::FixedRaw => 7,
        }
    }

    /// The name of the encoding.
    pub open spec fn name_text(self) -> Seq<char> {
        match self {
            PageEncoding::Raw => "Raw"@,
            PageEncoding::FsstWithOffsets => "FsstWithOffsets"@,
            PageEncoding::Zstd => "Zstd"@,
            PageEncoding::Gorilla => "Gorilla"@,
            PageEncoding::For => "For"@,
            PageEncoding::Rle => "Rle"@,
            PageEncoding::Dict => "Dict"@,
            PageEncoding::FixedRaw => "FixedRaw"@,
        }
    }

    fn name(self) -> (r: &'static str)
        ensures
            r@ == self.name_text(),
    {
        match self {
            PageEncoding::Raw => "Raw",
            PageEncoding::FsstWithOffsets => "FsstWithOffsets",
            PageEncoding::Zstd => "Zstd",
            PageEncoding::Gorilla => "Gorilla",
            PageEncoding::For => "For",
            PageEncoding::Rle => "Rle",
            PageEncoding::Dict => "Dict",
            PageEncoding::FixedRaw => "FixedRaw",
        }
    }

    /// The encoding that the byte stands for.
    pub open spec fn of_tag(x: u8) -> Result<PageEncoding, ErrorView> {
        if x == 0 {
            Ok(PageEncoding::Raw)
        } else if x == 1 {
            Ok(PageEncoding::FsstWithOffsets)
        } else if x == 2 {
            Ok(PageEncoding::Zstd)
        } else if x == 3 {
            Ok(PageEncoding::Gorilla)
        } else if x == 4 {
            Ok(PageEncoding::For)
        } else if x == 5 {
            Ok(PageEncoding::Rle)
        } else if x == 6 {
            Ok(PageEncoding::Dict)
        } else if x == 7 {
            Ok(PageEncoding::FixedRaw)
        } else {
            Err(ErrorView::Format("unknown page encoding "@ + decimal(x as nat)))
        }
    }

    pub fn try_from_u8(x: u8) -> (r: Result<Self, ZenError>)
        ensures
            match PageEncoding::of_tag(x) {
                Ok(e) => r matches Ok(v) && v == e,
                Err(view) => r matches Err(e) && e@ == view,
            },
    {
        match x {
            0 => Ok(PageEncoding::Raw),
            1 => Ok(PageEncoding::FsstWithOffsets),
            2 => Ok(PageEncoding::Zstd),
            3 => Ok(PageEncoding::Gorilla),
            4 => Ok(PageEncoding::For),
            5 => Ok(PageEncoding::Rle),
            6 => Ok(PageEncoding::Dict),
            7 => Ok(PageEncoding::FixedRaw),
            other => {
                let n: String = decimal_string(other as u64);
                Err(ZenError::Format(concat2("unknown page encoding ", n.as_str())))
            },
        }
    }

    pub fn as_u8(self) -> (r: u8)
        ensures
            r == self.tag(),
    {
        match self {
            PageEncoding::Raw => 0,
            PageEncoding::FsstWithOffsets => 1,
            PageEncoding::Zstd => 2,
            PageEncoding::Gorilla => 3,
            PageEncoding::For => 4,
            PageEncoding::Rle => 5,
            PageEncoding::Dict => 6,
            PageEncoding::FixedRaw => 7,
        }
    }
}

/// The byte of an encoding reads back as that encoding.
pub proof fn page_encoding_round_trip(e: PageEncoding)
    ensures
        PageEncoding::of_tag(e.tag()) == Ok::<PageEncoding, ErrorView>(e),
{
}

/// The content of a column.
pub ghost enum Column {
    /// Text, one byte string per row.
    Strings(Seq<Seq<u8>>),
    I64(Seq<i64>),
    U32(Seq<u32>),
    /// Floats by their bit patterns.
    F64(Seq<u64>),
    Fixed16(Seq<[u8; 16]>),
    /// Binary data, one byte string per row.
    Bytes(Seq<Seq<u8>>),
}

/// The content of one row of a column.
pub ghost enum Row {
    Bytes(Seq<u8>),
    I64(i64),
    F64(u64),
    Fixed16([u8; 16]),
}

impl Column {
    pub open spec fn row_count(self) -> nat {
        match self {
            Column::Strings(v) => v.len(),
            Column::I64(v) => v.len(),
            Column::U32(v) => v.len(),
            Column::F64(v) => v.len(),
            Column::Fixed16(v) => v.len(),
            Column::Bytes(v) => v.len(),
        }
    }

    /// The row at `i`. Unsigned integers are read as signed ones.
    pub open spec fn row(self, i: int) -> Row {
        match self {
            Column::Strings(v) => Row::Bytes(v[i]),
            Column::I64(v) => Row::I64(v[i]),
            Column::U32(v) => Row::I64(v[i] as i64),
            Column::F64(v) => Row::F64(v[i]),
            Column::Fixed16(v) => Row::Fixed16(v[i]),
            Column::Bytes(v) => Row::Bytes(v[i]),
        }
    }
}

/// Untyped column buffer used to hand data into and out of the page codec.
#[derive(Clone, Debug)]
pub enum ColumnValues<'a> {
    /// One byte slice per row (variable length).
    Strings(Vec<&'a [u8]>),
    /// Owned variant returned from decoders.
    StringsOwned(Vec<Vec<u8>>),
    /// i64 column.
    I64(Vec<i64>),
    /// u32 column.
    U32(Vec<u32>),
    /// f64 column, by bit patterns.
    F64(Vec<u64>),
    /// Fixed 16-byte column (TraceId/SpanId).
    Fixed16(Vec<[u8; 16]>),
    /// Raw bytes column (variable length).
    Bytes(Vec<&'a [u8]>),
    /// Owned bytes column.
    BytesOwned(Vec<Vec<u8>>),
}

impl<'a> ColumnValues<'a> {
    /// The rows are not borrowed.
    pub open spec fn is_owned(&self) -> bool {
        !(self is Strings) && !(self is Bytes)
    }

    pub open spec fn view(&self) -> Column {
        match self {
            ColumnValues::Strings(v) => Column::Strings(slice_rows(v@)),
            ColumnValues::StringsOwned(v) => Column::Strings(byte_rows(v@)),
            ColumnValues::I64(v) => Column::I64(v@),
            ColumnValues::U32(v) => Column::U32(v@),
            ColumnValues::F64(v) => Column::F64(v@),
            ColumnValues::Fixed16(v) => Column::Fixed16(v@),
            ColumnValues::Bytes(v) => Column::Bytes(slice_rows(v@)),
            ColumnValues::BytesOwned(v) => Column::Bytes(byte_rows(v@)),
        }
    }

    pub fn row_count(&self) -> (r: usize)
        ensures
            r == self@.row_count(),
    {
        match self {
            ColumnValues::Strings(v) => v.len(),
            ColumnValues::StringsOwned(v) => v.len(),
            ColumnValues::I64(v) => v.len(),
            ColumnValues::U32(v) => v.len(),
            ColumnValues::F64(v) => v.len(),
            ColumnValues::Fixed16(v) => v.len(),
            ColumnValues::Bytes(v) => v.len(),
            ColumnValues::BytesOwned(v) => v.len(),
        }
    }
}

/// Length-prefixed byte strings.
pub open spec fn blob_parts(rows: Seq<Seq<u8>>) -> Seq<Seq<u8>> {
    Seq::new(rows.len(), |i: int| le_bytes(rows[i].len(), 4) + rows[i])
}

/// A counted list of length-prefixed byte strings.
pub open spec fn blob_list(rows: Seq<Seq<u8>>) -> Seq<u8> {
    le_bytes(rows.len(), 4) + flat(blob_parts(rows))
}

/// The bytes of fixed-width values.
pub open spec fn fixed_parts(values: Seq<[u8; 16]>) -> Seq<Seq<u8>> {
    Seq::new(values.len(), |i: int| values[i]@)
}

/// A counted list of fixed-width values.
pub open spec fn fixed_list(values: Seq<[u8; 16]>) -> Seq<u8> {
    le_bytes(values.len(), 4) + flat(fixed_parts(values))
}

/// Unsigned 32-bit values as signed 64-bit ones.
pub open spec fn widened(values: Seq<u32>) -> Seq<i64> {
    Seq::new(values.len(), |i: int| values[i] as i64)
}

/// The encoding can hold this kind of column.
pub open spec fn encodable(enc: PageEncoding, col: Column) -> bool {
    match (enc, col) {
        (PageEncoding::FsstWithOffsets, Column::Strings(_)) => true,
        (PageEncoding::Dict, Column::Strings(_)) => true,
        (PageEncoding::For, Column::I64(_)) => true,
        (PageEncoding::For, Column::U32(_)) => true,
        (PageEncoding::Rle, Column::I64(_)) => true,
        (PageEncoding::Gorilla, Column::F64(_)) => true,
        (PageEncoding::Zstd, Column::Bytes(_)) => true,
        (PageEncoding::FixedRaw, Column::Fixed16(_)) => true,
        (PageEncoding::Raw, Column::Bytes(_)) => true,
        _ => false,
    }
}

/// `bytes` is a page of the column in the encoding.
pub open spec fn is_page(bytes: Seq<u8>, enc: PageEncoding, col: Column) -> bool {
    match (enc, col) {
        (PageEncoding::FsstWithOffsets, Column::Strings(rows)) => exists|table: Seq<(u64, u8)>|
            #[trigger] fsst_table_valid(table) && fsst_trains(rows, table) && is_fsst_page(
                bytes,
                table,
                rows,
            ),
        (PageEncoding::Dict, Column::Strings(rows)) => is_dict_page(bytes, rows),
        (PageEncoding::For, Column::I64(v)) => bytes == for_page(v),
        (PageEncoding::For, Column::U32(v)) => bytes == for_page(widened(v)),
        (PageEncoding::Rle, Column::I64(v)) => bytes == rle_page(v),
        (PageEncoding::Gorilla, Column::F64(v)) => bytes == gorilla_page(v),
        (PageEncoding::Zstd, Column::Bytes(rows)) => zstd_content(bytes) == Ok::<
            Seq<u8>,
            Seq<char>,
        >(blob_list(rows)) && zstd_framed(blob_list(rows), 3, bytes),
        (PageEncoding::FixedRaw, Column::Fixed16(v)) => bytes == fixed_list(v),
        (PageEncoding::Raw, Column::Bytes(rows)) => bytes == blob_list(rows),
        _ => false,
    }
}

/// Borrows every row.
pub(crate) fn borrow_rows<'b>(rows: &'b Vec<Vec<u8>>) -> (r: Vec<&'b [u8]>)
    ensures
        slice_rows(r@) == byte_rows(rows@),
{
    let mut out: Vec<&'b [u8]> = Vec::new();
    let mut i: usize = 0;
    while i < rows.len()
        invariant
            i <= rows@.len(),
            out@.len() == i,
            forall|k: int| 0 <= k < i ==> (#[trigger] out@[k])@ == rows@[k]@,
        decreases rows.len() - i,
    {
        out.push(rows[i].as_slice());
        i = i + 1;
    }
    assert(slice_rows(out@) =~= byte_rows(rows@));
    out
}

fn write_blobs(rows: &Vec<&[u8]>) -> (r: Vec<u8>)
    ensures
        r@ == blob_list(slice_rows(rows@)),
{
    let mut out: Vec<u8> = Vec::new();
    put_len32(&mut out, rows.len());
    let ghost parts = blob_parts(slice_rows(rows@));
    let ghost head = out@;
    let mut i: usize = 0;
    assert(parts.take(0) =~= Seq::empty());
    assert(head + Seq::<u8>::empty() =~= head);
    while i < rows.len()
        invariant
            i <= rows@.len(),
            parts == blob_parts(slice_rows(rows@)),
            out@ == head + flat(parts.take(i as int)),
        decreases rows.len() - i,
    {
        let row: &[u8] = rows[i];
        let ghost before = out@;
        put_len32(&mut out, row.len());
        put_slice(&mut out, row);
        proof {
            lemma_flat_push(parts.take(i as int), parts[i as int]);
            assert(parts.take(i + 1) =~= parts.take(i as int).push(parts[i as int]));
            assert(out@ =~= head + (flat(parts.take(i as int)) + parts[i as int]));
        }
        i = i + 1;
    }
    assert(parts.take(i as int) =~= parts);
    assert(head == le_bytes(rows@.len(), 4));
    out
}

fn write_fixed(values: &Vec<[u8; 16]>) -> (r: Vec<u8>)
    ensures
        r@ == fixed_list(values@),
{
    let mut out: Vec<u8> = Vec::new();
    put_len32(&mut out, values.len());
    let ghost parts = fixed_parts(values@);
    let ghost head = out@;
    let mut i: usize = 0;
    assert(parts.take(0) =~= Seq::empty());
    assert(head + Seq::<u8>::empty() =~= head);
    while i < values.len()
        invariant
            i <= values@.len(),
            parts == fixed_parts(values@),
            out@ == head + flat(parts.take(i as int)),
        decreases values.len() - i,
    {
        put_slice(&mut out, values[i].as_slice());
        proof {
            lemma_flat_push(parts.take(i as int), parts[i as int]);
            assert(parts.take(i + 1) =~= parts.take(i as int).push(parts[i as int]));
            assert(out@ =~= head + (flat(parts.take(i as int)) + parts[i as int]));
        }
        i = i + 1;
    }
    assert(parts.take(i as int) =~= parts);
    out
}

fn dict_of(rows: &Vec<&[u8]>) -> (r: DictBuilder)
    ensures
        r@ == slice_rows(rows@),
{
    let mut b = DictBuilder::new();
    let mut i: usize = 0;
    while i < rows.len()
        invariant
            i <= rows@.len(),
            b@ == slice_rows(rows@).take(i as int),
        decreases rows.len() - i,
    {
        b.push(rows[i]);
        i = i + 1;
        assert(b@ =~= slice_rows(rows@).take(i as int));
    }
    assert(slice_rows(rows@).take(i as int) =~= slice_rows(rows@));
    b
}

/// The error for a column that the encoding cannot hold.
pub open spec fn unsupported_text(hint: PageEncoding, n: nat) -> Seq<char> {
    "unsupported encoding/values combination: "@ + hint.name_text() + " / "@ + decimal(n)
        + " rows"@
}

/// How encoding a column can fail.
pub open spec fn encode_failure(hint: PageEncoding, col: Column, e: ErrorView) -> bool {
    if !encodable(hint, col) {
        e == ErrorView::Format(unsupported_text(hint, col.row_count()))
    } else {
        match (hint, col) {
            (PageEncoding::Dict, Column::Strings(rows)) => has_long_row(rows) && exists|k: int|
                #![trigger rows[k]]
                {
                    &&& 0 <= k < rows.len()
                    &&& rows[k].len() > u16::MAX
                    &&& forall|j: int| 0 <= j < k ==> (#[trigger] rows[j]).len() <= u16::MAX
                    &&& e == ErrorView::Compress(
                        "dict entry length "@ + decimal(rows[k].len()) + " exceeds u16"@,
                    )
                },
            (PageEncoding::Zstd, _) => exists|t: Seq<char>|
                e == ErrorView::Compress(#[trigger] ("zstd encode: "@ + t)),
            _ => false,
        }
    }
}

/// Encodes a column page. Returns the encoding used and the page. Beyond columns that
/// the encoding cannot hold, only dictionary pages with an overlong row and ZSTD pages
/// can fail.
pub fn encode_page(values: ColumnValues<'_>, hint: PageEncoding) -> (r: Result<
    (PageEncoding, Vec<u8>),
    ZenError,
>)
    ensures
        match r {
            Ok(p) => {
                &&& p.0 == hint
                &&& is_page(p.1@, hint, values@)
                &&& (hint == PageEncoding::Dict ==> !has_long_row(values@->Strings_0))
            },
            Err(e) => encode_failure(hint, values@, e@),
        },
{
    match (hint, values) {
        (PageEncoding::FsstWithOffsets, ColumnValues::Strings(v)) => {
            let comp = FsstCompressor::train(v.as_slice());
            let page: Vec<u8> = comp.encode_page(v.as_slice());
            assert(fsst_table_valid(comp.table()));
            Ok((PageEncoding::FsstWithOffsets, page))
        },
        (PageEncoding::FsstWithOffsets, ColumnValues::StringsOwned(v)) => {
            let refs: Vec<&[u8]> = borrow_rows(&v);
            let comp = FsstCompressor::train(refs.as_slice());
            let page: Vec<u8> = comp.encode_page(refs.as_slice());
            assert(fsst_table_valid(comp.table()));
            Ok((PageEncoding::FsstWithOffsets, page))
        },
        (PageEncoding::Dict, ColumnValues::Strings(v)) => {
            let b = dict_of(&v);
            match b.finish() {
                Ok(page) => Ok((PageEncoding::Dict, page)),
                Err(e) => Err(e),
            }
        },
        (PageEncoding::Dict, ColumnValues::StringsOwned(v)) => {
            let refs: Vec<&[u8]> = borrow_rows(&v);
            let b = dict_of(&refs);
            match b.finish() {
                Ok(page) => Ok((PageEncoding::Dict, page)),
                Err(e) => Err(e),
            }
        },
        (PageEncoding::For, ColumnValues::I64(v)) => {
            Ok((PageEncoding::For, for_encode(v.as_slice())))
        },
        (PageEncoding::Rle, ColumnValues::I64(v)) => {
            Ok((PageEncoding::Rle, rle_encode(v.as_slice())))
        },
        (PageEncoding::Gorilla, ColumnValues::F64(v)) => {
            match gorilla_encode(v.as_slice()) {
                Ok(page) => Ok((PageEncoding::Gorilla, page)),
                Err(e) => Err(e),
            }
        },
        (PageEncoding::Zstd, ColumnValues::Bytes(v)) => {
            let raw: Vec<u8> = write_blobs(&v);
            match zstd_compress(raw.as_slice(), 3) {
                Ok(page) => Ok((PageEncoding::Zstd, page)),
                Err(e) => Err(e),
            }
        },
        (PageEncoding::Zstd, ColumnValues::BytesOwned(v)) => {
            let raw: Vec<u8> = write_blobs(&borrow_rows(&v));
            match zstd_compress(raw.as_slice(), 3) {
                Ok(page) => Ok((PageEncoding::Zstd, page)),
                Err(e) => Err(e),
            }
        },
        (PageEncoding::FixedRaw, ColumnValues::Fixed16(v)) => {
            Ok((PageEncoding::FixedRaw, write_fixed(&v)))
        },
        (PageEncoding::Raw, ColumnValues::Bytes(v)) => Ok((PageEncoding::Raw, write_blobs(&v))),
        (PageEncoding::Raw, ColumnValues::BytesOwned(v)) => {
            Ok((PageEncoding::Raw, write_blobs(&borrow_rows(&v))))
        },
        (PageEncoding::For, ColumnValues::U32(v)) => {
            let mut wide: Vec<i64> = Vec::new();
            let mut i: usize = 0;
            while i < v.len()
                invariant
                    i <= v@.len(),
                    wide@ == widened(v@).take(i as int),
                decreases v.len() - i,
            {
                wide.push(v[i] as i64);
                i = i + 1;
                assert(wide@ =~= widened(v@).take(i as int));
            }
            assert(widened(v@).take(i as int) =~= widened(v@));
            Ok((PageEncoding::For, for_encode(wide.as_slice())))
        },
        (h, v) => {
            let mut msg: String = concat3(
                "unsupported encoding/values combination: ",
                h.name(),
                " / ",
            );
            msg.append(decimal_string(v.row_count() as u64).as_str());
            msg.append(" rows");
            Err(ZenError::Format(msg))
        },
    }
}

/// Maximum row count honoured from a page header. Row groups cap at 16 K rows; this is
/// generous slack that still rejects a crafted count before any allocation.
pub const MAX_PAGE_ROWS: usize = 1_000_000;

/// The messages for the faults of a counted list of byte strings.
pub ghost struct BlobTexts {
    pub header: Seq<char>,
    pub count: Seq<char>,
    pub row: Seq<char>,
    pub body: Seq<char>,
}

pub open spec fn zstd_texts() -> BlobTexts {
    BlobTexts {
        header: "zstd page header truncated"@,
        count: "zstd page row count "@,
        row: "zstd page truncated"@,
        body: "zstd page body truncated"@,
    }
}

pub open spec fn raw_texts() -> BlobTexts {
    BlobTexts {
        header: "Raw header truncated"@,
        count: "Raw row count "@,
        row: "raw page truncated"@,
        body: "raw page body truncated"@,
    }
}

/// The first `n` length-prefixed byte strings, or why they cannot be read.
pub open spec fn blob_rows(bytes: Seq<u8>, n: nat, t: BlobTexts) -> Result<
    Seq<Seq<u8>>,
    Seq<char>,
>
    decreases n,
{
    if n == 0 {
        Ok(Seq::empty())
    } else if bytes.len() < 4 {
        Err(t.row)
    } else {
        let len = le(bytes.subrange(0, 4)) as int;
        if bytes.len() - 4 < len {
            Err(t.body)
        } else {
            match blob_rows(bytes.skip(4 + len), (n - 1) as nat, t) {
                Err(m) => Err(m),
                Ok(rest) => Ok(seq![bytes.subrange(4, 4 + len)] + rest),
            }
        }
    }
}

/// A row count over the limit.
pub open spec fn too_many_text(label: Seq<char>, n: nat) -> Seq<char> {
    label + decimal(n) + " > 1000000 max"@
}

/// A counted list of byte strings, at most `limit` of them.
pub open spec fn blob_parse(bytes: Seq<u8>, t: BlobTexts, limit: nat) -> Result<
    Seq<Seq<u8>>,
    Seq<char>,
> {
    if bytes.len() < 4 {
        Err(t.header)
    } else {
        let n = le(bytes.subrange(0, 4));
        if n > limit {
            Err(too_many_text(t.count, n))
        } else {
            blob_rows(bytes.skip(4), n, t)
        }
    }
}

/// A counted list of fixed-width values.
pub open spec fn fixed_parse(page: Seq<u8>) -> Result<Seq<[u8; 16]>, Seq<char>> {
    if page.len() < 4 {
        Err("FixedRaw header truncated"@)
    } else {
        let n = le(page.subrange(0, 4));
        if n > MAX_PAGE_ROWS {
            Err(too_many_text("FixedRaw row count "@, n))
        } else if page.len() - 4 < n * 16 {
            Err("FixedRaw page truncated"@)
        } else {
            Ok(Seq::new(n, |i: int| fixed_at(page, 4 + i * 16)))
        }
    }
}

/// The array with the content `s`.
pub open spec fn array_of(s: Seq<u8>) -> [u8; 16] {
    choose|a: [u8; 16]| a@ == s
}

/// The fixed-width value at `pos`.
pub open spec fn fixed_at(page: Seq<u8>, pos: int) -> [u8; 16] {
    array_of(page.subrange(pos, pos + 16))
}

pub proof fn lemma_array_of(a: [u8; 16])
    ensures
        array_of(a@) == a,
{
    let b = array_of(a@);
    assert(b@ == a@);
    assert(b =~= a);
}

/// What a page holds, or why it cannot be read.
pub open spec fn page_parse(enc: PageEncoding, page: Seq<u8>) -> Result<Column, ErrorView> {
    match enc {
        PageEncoding::FsstWithOffsets => match fsst_parse(page) {
            Err(m) => Err(ErrorView::Format(m)),
            Ok(p) => match p.range(0, p.row_count()) {
                Err(m) => Err(ErrorView::Format(m)),
                Ok(rows) => Ok(Column::Strings(rows)),
            },
        },
        PageEncoding::Dict => match dict_parse(page) {
            Err(m) => Err(ErrorView::Compress(m)),
            Ok(c) => if exists|i: int|
                0 <= i < c.keys.len() && #[trigger] c.keys[i] >= c.dict.len() {
                Err(ErrorView::Compress("dict key out of range"@))
            } else {
                Ok(Column::Strings(Seq::new(c.keys.len(), |i: int| c.dict[c.keys[i] as int])))
            },
        },
        PageEncoding::For => match for_parse(page) {
            Err(m) => Err(ErrorView::Compress(m)),
            Ok(v) => Ok(Column::I64(v)),
        },
        PageEncoding::Rle => match rle_parse(page) {
            Err(m) => Err(ErrorView::Compress(m)),
            Ok(v) => Ok(Column::I64(v)),
        },
        PageEncoding::Gorilla => match gorilla_parse(page) {
            Err(m) => Err(ErrorView::Compress(m)),
            Ok(v) => Ok(Column::F64(v)),
        },
        PageEncoding::Zstd => match zstd_content(page) {
            Err(t) => Err(ErrorView::Compress("zstd decode: "@ + t)),
            Ok(raw) => match blob_parse(raw, zstd_texts(), MAX_PAGE_ROWS as nat) {
                Err(m) => Err(ErrorView::Format(m)),
                Ok(rows) => Ok(Column::Bytes(rows)),
            },
        },
        PageEncoding::FixedRaw => match fixed_parse(page) {
            Err(m) => Err(ErrorView::Format(m)),
            Ok(v) => Ok(Column::Fixed16(v)),
        },
        PageEncoding::Raw => match blob_parse(page, raw_texts(), MAX_PAGE_ROWS as nat) {
            Err(m) => Err(ErrorView::Format(m)),
            Ok(rows) => Ok(Column::Bytes(rows)),
        },
    }
}

/// The 16 bytes at `pos`.
pub fn array16(bytes: &[u8], pos: usize) -> (r: [u8; 16])
    requires
        pos + 16 <= bytes@.len(),
    ensures
        r@ == bytes@.subrange(pos as int, pos + 16),
{
    let mut a: [u8; 16] = [0u8; 16];
    let mut i: usize = 0;
    while i < 16
        invariant
            i <= 16,
            pos + 16 <= bytes.len(),
            forall|k: int| 0 <= k < i ==> #[trigger] a@[k] == bytes@[pos + k],
        decreases 16 - i,
    {
        a[i] = bytes[pos + i];
        i = i + 1;
    }
    assert(a@ =~= bytes@.subrange(pos as int, pos + 16));
    a
}

fn read_blobs(
    bytes: &[u8],
    n: u32,
    row_text: &str,
    body_text: &str,
    Ghost(t): Ghost<BlobTexts>,
) -> (r: Result<Vec<Vec<u8>>, ZenError>)
    requires
        row_text@ == t.row,
        body_text@ == t.body,
    ensures
        match blob_rows(bytes@, n as nat, t) {
            Ok(rows) => r matches Ok(v) && byte_rows(v@) == rows,
            Err(m) => r matches Err(e) && e@ == ErrorView::Format(m),
        },
{
    let mut out: Vec<Vec<u8>> = Vec::new();
    let mut pos: usize = 0;
    let mut i: u32 = 0;
    let ghost whole = blob_rows(bytes@, n as nat, t);
    proof {
        assert(bytes@.skip(0) =~= bytes@);
        assert(byte_rows(out@) =~= Seq::empty());
        if let Ok(all) = whole {
            assert(Seq::<Seq<u8>>::empty() + all =~= all);
        }
    }
    while i < n
        invariant
            i <= n,
            pos <= bytes.len(),
            row_text@ == t.row,
            body_text@ == t.body,
            whole == blob_rows(bytes@, n as nat, t),
            match blob_rows(bytes@.skip(pos as int), (n - i) as nat, t) {
                Ok(rest) => whole == Ok::<Seq<Seq<u8>>, Seq<char>>(byte_rows(out@) + rest),
                Err(m) => whole == Err::<Seq<Seq<u8>>, Seq<char>>(m),
            },
        decreases n - i,
    {
        let ghost here = bytes@.skip(pos as int);
        let ghost before = byte_rows(out@);
        if bytes.len() - pos < 4 {
            return Err(ZenError::format(row_text));
        }
        let len: u32 = get_u32(bytes, pos);
        assert(here.subrange(0, 4) =~= bytes@.subrange(pos as int, pos + 4));
        if ((bytes.len() - pos - 4) as u64) < len as u64 {
            return Err(ZenError::format(body_text));
        }
        let len: usize = len as usize;
        let row: Vec<u8> = copy_bytes(slice_subrange(bytes, pos + 4, pos + 4 + len));
        let ghost content = row@;
        out.push(row);
        proof {
            assert(here.subrange(4, 4 + len) =~= content);
            assert(here.skip(4 + len) =~= bytes@.skip(pos + 4 + len));
            assert(byte_rows(out@) =~= before.push(content));
            if let Ok(rest) = blob_rows(here.skip(4 + len), (n - i - 1) as nat, t) {
                assert(before + (seq![content] + rest) =~= before.push(content) + rest);
            }
        }
        pos = pos + 4 + len;
        i = i + 1;
    }
    assert(byte_rows(out@) + Seq::<Seq<u8>>::empty() =~= byte_rows(out@));
    Ok(out)
}

fn too_many(label: &str, n: u32) -> (e: ZenError)
    ensures
        e@ == ErrorView::Format(too_many_text(label@, n as nat)),
{
    let count: String = decimal_string(n as u64);
    ZenError::Format(concat3(label, count.as_str(), " > 1000000 max"))
}

pub(crate) fn read_zstd(raw: &[u8], limit: u32) -> (r: Result<Vec<Vec<u8>>, ZenError>)
    ensures
        match blob_parse(raw@, zstd_texts(), limit as nat) {
            Ok(rows) => r matches Ok(v) && byte_rows(v@) == rows,
            Err(m) => r matches Err(e) && e@ == ErrorView::Format(m),
        },
{
    if raw.len() < 4 {
        return Err(ZenError::format("zstd page header truncated"));
    }
    let n: u32 = get_u32(raw, 0);
    if n > limit {
        return Err(too_many("zstd page row count ", n));
    }
    assert(raw@.skip(4) =~= raw@.subrange(4, raw@.len() as int));
    read_blobs(
        slice_subrange(raw, 4, raw.len()),
        n,
        "zstd page truncated",
        "zstd page body truncated",
        Ghost(zstd_texts()),
    )
}

pub(crate) fn read_raw(page: &[u8], limit: u32) -> (r: Result<Vec<Vec<u8>>, ZenError>)
    ensures
        match blob_parse(page@, raw_texts(), limit as nat) {
            Ok(rows) => r matches Ok(v) && byte_rows(v@) == rows,
            Err(m) => r matches Err(e) && e@ == ErrorView::Format(m),
        },
{
    if page.len() < 4 {
        return Err(ZenError::format("Raw header truncated"));
    }
    let n: u32 = get_u32(page, 0);
    if n > limit {
        return Err(too_many("Raw row count ", n));
    }
    assert(page@.skip(4) =~= page@.subrange(4, page@.len() as int));
    read_blobs(
        slice_subrange(page, 4, page.len()),
        n,
        "raw page truncated",
        "raw page body truncated",
        Ghost(raw_texts()),
    )
}

fn read_fixed(page: &[u8]) -> (r: Result<Vec<[u8; 16]>, ZenError>)
    ensures
        match fixed_parse(page@) {
            Ok(values) => r matches Ok(v) && v@ == values,
            Err(m) => r matches Err(e) && e@ == ErrorView::Format(m),
        },
{
    if page.len() < 4 {
        return Err(ZenError::format("FixedRaw header truncated"));
    }
    let n: u32 = get_u32(page, 0);
    if n > 1_000_000 {
        return Err(too_many("FixedRaw row count ", n));
    }
    if ((page.len() - 4) as u64) < n as u64 * 16 {
        return Err(ZenError::format("FixedRaw page truncated"));
    }
    let ghost values = fixed_parse(page@)->Ok_0;
    let mut out: Vec<[u8; 16]> = Vec::new();
    let mut i: usize = 0;
    while i < n as usize
        invariant
            i <= n <= 1_000_000,
            4 + n * 16 <= page.len(),
            values == Seq::new(n as nat, |i: int| fixed_at(page@, 4 + i * 16)),
            out@ == values.take(i as int),
        decreases n - i,
    {
        let a: [u8; 16] = array16(page, 4 + i * 16);
        proof {
            lemma_array_of(a);
        }
        out.push(a);
        i = i + 1;
        assert(out@ =~= values.take(i as int));
    }
    assert(values.take(n as int) =~= values);
    Ok(out)
}

fn read_dict_rows(dec: &DictDecoder) -> (r: Result<Vec<Vec<u8>>, ZenError>)
    requires
        dec.wf(),
    ensures
        match r {
            Ok(v) => (forall|i: int|
                0 <= i < dec@.keys.len() ==> #[trigger] dec@.keys[i] < dec@.dict.len())
                && byte_rows(v@) == Seq::new(
                dec@.keys.len(),
                |i: int| dec@.dict[dec@.keys[i] as int],
            ),
            Err(e) => (exists|i: int|
                0 <= i < dec@.keys.len() && #[trigger] dec@.keys[i] >= dec@.dict.len()) && e@
                == ErrorView::Compress("dict key out of range"@),
        },
{
    let mut out: Vec<Vec<u8>> = Vec::new();
    let mut i: usize = 0;
    while i < dec.row_count
        invariant
            dec.wf(),
            i <= dec.row_count,
            out@.len() == i,
            forall|k: int| 0 <= k < i ==> #[trigger] dec@.keys[k] < dec@.dict.len(),
            forall|k: int|
                0 <= k < i ==> (#[trigger] out@[k])@ == dec@.dict[dec@.keys[k] as int],
        decreases dec.row_count - i,
    {
        match dec.row(i) {
            Ok(row) => {
                out.push(copy_bytes(row));
            },
            Err(e) => {
                assert(dec@.keys[i as int] >= dec@.dict.len());
                return Err(e);
            },
        }
        i = i + 1;
    }
    assert(byte_rows(out@) =~= Seq::new(
        dec@.keys.len(),
        |i: int| dec@.dict[dec@.keys[i] as int],
    ));
    Ok(out)
}

/// Decodes a page back into owned column values.
pub fn decode_page(enc: PageEncoding, page: &[u8]) -> (r: Result<ColumnValues<'static>, ZenError>)
    ensures
        match page_parse(enc, page@) {
            Ok(col) => r matches Ok(v) && v@ == col && v.is_owned(),
            Err(view) => r matches Err(e) && e@ == view,
        },
{
    match enc {
        PageEncoding::FsstWithOffsets => {
            let view = match FsstCompressor::open(page) {
                Ok(v) => v,
                Err(e) => return Err(e),
            };
            let n: usize = view.row_count();
            match view.decode_range(0, n) {
                Ok(rows) => Ok(ColumnValues::StringsOwned(rows)),
                Err(e) => Err(e),
            }
        },
        PageEncoding::Dict => {
            let dec = match DictDecoder::open(page) {
                Ok(d) => d,
                Err(e) => return Err(e),
            };
            match read_dict_rows(&dec) {
                Ok(rows) => Ok(ColumnValues::StringsOwned(rows)),
                Err(e) => Err(e),
            }
        },
        PageEncoding::For => match for_decompress(page) {
            Ok(v) => Ok(ColumnValues::I64(v)),
            Err(e) => Err(e),
        },
        PageEncoding::Rle => match rle_decompress(page) {
            Ok(v) => Ok(ColumnValues::I64(v)),
            Err(e) => Err(e),
        },
        PageEncoding::Gorilla => match gorilla_decompress(page) {
            Ok(v) => Ok(ColumnValues::F64(v)),
            Err(e) => Err(e),
        },
        PageEncoding::Zstd => {
            let raw: Vec<u8> = match zstd_decompress(page) {
                Ok(v) => v,
                Err(e) => return Err(e),
            };
            match read_zstd(raw.as_slice(), 1_000_000) {
                Ok(rows) => Ok(ColumnValues::BytesOwned(rows)),
                Err(e) => Err(e),
            }
        },
        PageEncoding::FixedRaw => match read_fixed(page) {
            Ok(v) => Ok(ColumnValues::Fixed16(v)),
            Err(e) => Err(e),
        },
        PageEncoding::Raw => match read_raw(page, 1_000_000) {
            Ok(rows) => Ok(ColumnValues::BytesOwned(rows)),
            Err(e) => Err(e),
        },
    }
}

} // verus!
