//! Reading single rows out of pages.
use crate::common::errors::{ErrorView, ZenError};
use crate::compress::dict::{dict_parse, DictContent, DictDecoder};
use crate::compress::for_bitpack::{for_decompress, for_parse};
use crate::compress::fsst::{fsst_parse, DecodedFsst, FsstCompressor, FsstPage};
use crate::compress::gorilla::{gorilla_decompress, gorilla_parse};
use crate::compress::rle::{rle_decompress, rle_parse};
use crate::compress::zstd_page::zstd_decompress;
use crate::format::page::{
    array16, blob_parse, fixed_at, lemma_array_of, raw_texts, read_raw, read_zstd, zstd_texts,
    PageEncoding, Row,
};
use crate::outside::codecs::zstd_content;
use crate::rows::{byte_rows, copy_bytes};
use crate::text::{concat3, decimal, decimal_string};
use crate::wire::{get_u32, le};
use vstd::prelude::*;
use vstd::slice::slice_subrange;
use vstd::string::*;

verus! {

/// One value of a column.
#[derive(Clone, Debug)]
pub enum RowValue {
    Bytes(Vec<u8>),
    I64(i64),
    /// A float by its bit pattern.
    F64(u64),
    Fixed16([u8; 16]),
}

impl RowValue {
    pub open spec fn view(&self) -> Row {
        match self {
            RowValue::Bytes(v) => Row::Bytes(v@),
            RowValue::I64(v) => Row::I64(*v),
            RowValue::F64(v) => Row::F64(*v),
            RowValue::Fixed16(v) => Row::Fixed16(*v),
        }
    }
}

/// The byte string at `idx` among `n` length-prefixed ones. The rows before it have to
/// be whole.
pub open spec fn blob_row(
    bytes: Seq<u8>,
    n: nat,
    idx: int,
    cut: Seq<char>,
    missing: Seq<char>,
) -> Result<Seq<u8>, Seq<char>>
    decreases n,
{
    if n == 0 {
        Err(missing)
    } else if bytes.len() < 4 {
        Err(cut)
    } else {
        let len = le(bytes.subrange(0, 4)) as int;
        if bytes.len() - 4 < len {
            Err(cut)
        } else if idx == 0 {
            Ok(bytes.subrange(4, 4 + len))
        } else {
            blob_row(bytes.skip(4 + len), (n - 1) as nat, idx - 1, cut, missing)
        }
    }
}

/// The byte string at `idx` of a counted list.
pub open spec fn blob_list_row(
    bytes: Seq<u8>,
    idx: int,
    cut: Seq<char>,
    missing: Seq<char>,
) -> Result<Seq<u8>, Seq<char>> {
    if bytes.len() < 4 {
        Err(cut)
    } else {
        blob_row(bytes.skip(4), le(bytes.subrange(0, 4)), idx, cut, missing)
    }
}

/// An index beyond the end of a page.
pub open spec fn oob_text(idx: nat, kind: Seq<char>) -> Seq<char> {
    "row idx "@ + decimal(idx) + kind
}

/// The row at `idx` of a page, or why it cannot be read.
pub open spec fn page_row(enc: PageEncoding, page: Seq<u8>, idx: int) -> Result<Row, ErrorView> {
    match enc {
        PageEncoding::FsstWithOffsets => match fsst_parse(page) {
            Err(m) => Err(ErrorView::Format(m)),
            Ok(p) => match p.row(idx) {
                Err(m) => Err(ErrorView::Format(m)),
                Ok(row) => Ok(Row::Bytes(row)),
            },
        },
        PageEncoding::Dict => match dict_parse(page) {
            Err(m) => Err(ErrorView::Compress(m)),
            Ok(c) => match c.row(idx) {
                Err(m) => Err(ErrorView::Compress(m)),
                Ok(row) => Ok(Row::Bytes(row)),
            },
        },
        PageEncoding::For => match for_parse(page) {
            Err(m) => Err(ErrorView::Compress(m)),
            Ok(v) => if idx < v.len() {
                Ok(Row::I64(v[idx]))
            } else {
                Err(ErrorView::Format(oob_text(idx as nat, " out of bounds for FoR page"@)))
            },
        },
        PageEncoding::Rle => match rle_parse(page) {
            Err(m) => Err(ErrorView::Compress(m)),
            Ok(v) => if idx < v.len() {
                Ok(Row::I64(v[idx]))
            } else {
                Err(ErrorView::Format(oob_text(idx as nat, " out of bounds for RLE page"@)))
            },
        },
        PageEncoding::Gorilla => match gorilla_parse(page) {
            Err(m) => Err(ErrorView::Compress(m)),
            Ok(v) => if idx < v.len() {
                Ok(Row::F64(v[idx]))
            } else {
                Err(ErrorView::Format(oob_text(idx as nat, " out of bounds for Gorilla page"@)))
            },
        },
        PageEncoding::Zstd => match zstd_content(page) {
            Err(t) => Err(ErrorView::Compress("zstd decode: "@ + t)),
            Ok(raw) => match blob_list_row(
                raw,
                idx,
                "zstd one-row truncated"@,
                "zstd row idx "@ + decimal(idx as nat) + " not found"@,
            ) {
                Err(m) => Err(ErrorView::Format(m)),
                Ok(row) => Ok(Row::Bytes(row)),
            },
        },
        PageEncoding::FixedRaw => if page.len() < 4 {
            Err(ErrorView::Format("FixedRaw one-row truncated"@))
        } else if idx >= le(page.subrange(0, 4)) {
            Err(ErrorView::Format("FixedRaw row idx oob"@))
        } else if page.len() - 4 < idx * 16 + 16 {
            Err(ErrorView::Format("FixedRaw one-row truncated"@))
        } else {
            Ok(Row::Fixed16(fixed_at(page, 4 + idx * 16)))
        },
        PageEncoding::Raw => match blob_list_row(
            page,
            idx,
            "raw one-row truncated"@,
            "raw row idx "@ + decimal(idx as nat) + " not found"@,
        ) {
            Err(m) => Err(ErrorView::Format(m)),
            Ok(row) => Ok(Row::Bytes(row)),
        },
    }
}

fn read_one_blob(bytes: &[u8], idx: usize, cut: &str, label: &str) -> (r: Result<Vec<u8>, ZenError>)
    ensures
        match blob_list_row(
            bytes@,
            idx as int,
            cut@,
            label@ + decimal(idx as nat) + " not found"@,
        ) {
            Ok(row) => r matches Ok(v) && v@ == row,
            Err(m) => r matches Err(e) && e@ == ErrorView::Format(m),
        },
{
    if bytes.len() < 4 {
        return Err(ZenError::format(cut));
    }
    let n: u32 = get_u32(bytes, 0);
    let ghost missing = label@ + decimal(idx as nat) + " not found"@;
    let ghost whole = blob_row(bytes@.skip(4), n as nat, idx as int, cut@, missing);
    let mut pos: usize = 4;
    let mut i: u32 = 0;
    while i < n
        invariant
            i <= n,
            i <= idx || i == n,
            4 <= pos <= bytes.len(),
            whole == blob_list_row(bytes@, idx as int, cut@, missing),
            missing == label@ + decimal(idx as nat) + " not found"@,
            whole == blob_row(bytes@.skip(pos as int), (n - i) as nat, idx - i, cut@, missing),
        decreases n - i,
    {
        let ghost here = bytes@.skip(pos as int);
        if bytes.len() - pos < 4 {
            return Err(ZenError::format(cut));
        }
        let len: u32 = get_u32(bytes, pos);
        assert(here.subrange(0, 4) =~= bytes@.subrange(pos as int, pos + 4));
        if ((bytes.len() - pos - 4) as u64) < len as u64 {
            return Err(ZenError::format(cut));
        }
        let len: usize = len as usize;
        if i as usize == idx {
            assert(here.subrange(4, 4 + len) =~= bytes@.subrange(pos + 4, pos + 4 + len));
            return Ok(copy_bytes(slice_subrange(bytes, pos + 4, pos + 4 + len)));
        }
        assert(here.skip(4 + len) =~= bytes@.skip(pos + 4 + len));
        pos = pos + 4 + len;
        i = i + 1;
    }
    let at: String = decimal_string(idx as u64);
    Err(ZenError::Format(concat3(label, at.as_str(), " not found")))
}

fn out_of_bounds(idx: usize, kind: &str) -> (e: ZenError)
    ensures
        e@ == ErrorView::Format(oob_text(idx as nat, kind@)),
{
    let at: String = decimal_string(idx as u64);
    ZenError::Format(concat3("row idx ", at.as_str(), kind))
}

/// Decodes the row at `idx` alone. Used for late materialization.
pub fn decode_one_row(enc: PageEncoding, page: &[u8], idx: usize) -> (r: Result<RowValue, ZenError>)
    ensures
        match page_row(enc, page@, idx as int) {
            Ok(row) => r matches Ok(v) && v@ == row,
            Err(view) => r matches Err(e) && e@ == view,
        },
{
    match enc {
        PageEncoding::FsstWithOffsets => match FsstCompressor::open(page) {
            Ok(view) => match view.decode_row(idx) {
                Ok(row) => Ok(RowValue::Bytes(row)),
                Err(e) => Err(e),
            },
            Err(e) => Err(e),
        },
        PageEncoding::Dict => match DictDecoder::open(page) {
            Ok(dec) => match dec.row(idx) {
                Ok(row) => Ok(RowValue::Bytes(copy_bytes(row))),
                Err(e) => Err(e),
            },
            Err(e) => Err(e),
        },
        PageEncoding::For => match for_decompress(page) {
            Ok(v) => if idx < v.len() {
                Ok(RowValue::I64(v[idx]))
            } else {
                Err(out_of_bounds(idx, " out of bounds for FoR page"))
            },
            Err(e) => Err(e),
        },
        PageEncoding::Rle => match rle_decompress(page) {
            Ok(v) => if idx < v.len() {
                Ok(RowValue::I64(v[idx]))
            } else {
                Err(out_of_bounds(idx, " out of bounds for RLE page"))
            },
            Err(e) => Err(e),
        },
        PageEncoding::Gorilla => match gorilla_decompress(page) {
            Ok(v) => if idx < v.len() {
                Ok(RowValue::F64(v[idx]))
            } else {
                Err(out_of_bounds(idx, " out of bounds for Gorilla page"))
            },
            Err(e) => Err(e),
        },
        PageEncoding::Zstd => match zstd_decompress(page) {
            Ok(raw) => match read_one_blob(
                raw.as_slice(),
                idx,
                "zstd one-row truncated",
                "zstd row idx ",
            ) {
                Ok(row) => Ok(RowValue::Bytes(row)),
                Err(e) => Err(e),
            },
            Err(e) => Err(e),
        },
        PageEncoding::FixedRaw => {
            if page.len() < 4 {
                return Err(ZenError::format("FixedRaw one-row truncated"));
            }
            let n: u32 = get_u32(page, 0);
            if idx as u64 >= n as u64 {
                return Err(ZenError::format("FixedRaw row idx oob"));
            }
            if ((page.len() - 4) as u64) < idx as u64 * 16 + 16 {
                return Err(ZenError::format("FixedRaw one-row truncated"));
            }
            let a: [u8; 16] = array16(page, 4 + idx * 16);
            proof {
                lemma_array_of(a);
            }
            Ok(RowValue::Fixed16(a))
        },
        PageEncoding::Raw => match read_one_blob(
            page,
            idx,
            "raw one-row truncated",
            "raw row idx ",
        ) {
            Ok(row) => Ok(RowValue::Bytes(row)),
            Err(e) => Err(e),
        },
    }
}

/// What an opened page holds.
pub ghost enum PageContent {
    Fsst(FsstPage),
    Dict(DictContent),
    I64(Seq<i64>),
    F64(Seq<u64>),
    Fixed16 { page: Seq<u8>, n: nat },
    Bytes(Seq<Seq<u8>>),
}

impl PageContent {
    pub open spec fn row_count(self) -> int {
        match self {
            PageContent::Fsst(p) => p.row_count(),
            PageContent::Dict(c) => c.keys.len() as int,
            PageContent::I64(v) => v.len() as int,
            PageContent::F64(v) => v.len() as int,
            PageContent::Fixed16 { page, n } => n as int,
            PageContent::Bytes(v) => v.len() as int,
        }
    }

    /// The row at `idx`, or why it cannot be read.
    pub open spec fn row(self, idx: int) -> Result<Row, ErrorView> {
        match self {
            PageContent::Fsst(p) => match p.row(idx) {
                Err(m) => Err(ErrorView::Format(m)),
                Ok(row) => Ok(Row::Bytes(row)),
            },
            PageContent::Dict(c) => match c.row(idx) {
                Err(m) => Err(ErrorView::Compress(m)),
                Ok(row) => Ok(Row::Bytes(row)),
            },
            PageContent::I64(v) => if idx < v.len() {
                Ok(Row::I64(v[idx]))
            } else {
                Err(
                    ErrorView::Format(
                        "row "@ + decimal(idx as nat) + " oob (i64 page len "@ + decimal(v.len())
                            + ")"@,
                    ),
                )
            },
            PageContent::F64(v) => if idx < v.len() {
                Ok(Row::F64(v[idx]))
            } else {
                Err(
                    ErrorView::Format(
                        "row "@ + decimal(idx as nat) + " oob (f64 page len "@ + decimal(v.len())
                            + ")"@,
                    ),
                )
            },
            PageContent::Fixed16 { page, n } => if idx >= n {
                Err(ErrorView::Format("row idx oob"@))
            } else if page.len() < idx * 16 + 16 {
                Err(ErrorView::Format("FixedRaw page truncated"@))
            } else {
                Ok(Row::Fixed16(fixed_at(page, idx * 16)))
            },
            PageContent::Bytes(v) => if idx < v.len() {
                Ok(Row::Bytes(v[idx]))
            } else {
                Err(ErrorView::Format("row "@ + decimal(idx as nat) + " oob (bytes page)"@))
            },
        }
    }
}

/// What opening a page gives.
pub open spec fn page_open(enc: PageEncoding, page: Seq<u8>) -> Result<PageContent, ErrorView> {
    match enc {
        PageEncoding::FsstWithOffsets => match fsst_parse(page) {
            Err(m) => Err(ErrorView::Format(m)),
            Ok(p) => Ok(PageContent::Fsst(p)),
        },
        PageEncoding::Dict => match dict_parse(page) {
            Err(m) => Err(ErrorView::Compress(m)),
            Ok(c) => Ok(PageContent::Dict(c)),
        },
        PageEncoding::For => match for_parse(page) {
            Err(m) => Err(ErrorView::Compress(m)),
            Ok(v) => Ok(PageContent::I64(v)),
        },
        PageEncoding::Rle => match rle_parse(page) {
            Err(m) => Err(ErrorView::Compress(m)),
            Ok(v) => Ok(PageContent::I64(v)),
        },
        PageEncoding::Gorilla => match gorilla_parse(page) {
            Err(m) => Err(ErrorView::Compress(m)),
            Ok(v) => Ok(PageContent::F64(v)),
        },
        PageEncoding::FixedRaw => if page.len() < 4 {
            Err(ErrorView::Format("FixedRaw header truncated"@))
        } else {
            Ok(PageContent::Fixed16 { page: page.skip(4), n: le(page.subrange(0, 4)) })
        },
        PageEncoding::Zstd => match zstd_content(page) {
            Err(t) => Err(ErrorView::Compress("zstd decode: "@ + t)),
            Ok(raw) => match blob_parse(raw, zstd_texts(), u32::MAX as nat) {
                Err(m) => Err(ErrorView::Format(m)),
                Ok(rows) => Ok(PageContent::Bytes(rows)),
            },
        },
        PageEncoding::Raw => match blob_parse(page, raw_texts(), u32::MAX as nat) {
            Err(m) => Err(ErrorView::Format(m)),
            Ok(rows) => Ok(PageContent::Bytes(rows)),
        },
    }
}

/// Opened page: amortizes per-page setup across multiple row reads.
pub enum PageView<'a> {
    Fsst(DecodedFsst<'a>),
    Dict(DictDecoder),
    I64(Vec<i64>),
    /// Floats by their bit patterns.
    F64(Vec<u64>),
    Fixed16Page { page: &'a [u8], n: usize },
    Bytes(Vec<Vec<u8>>),
}

impl<'a> PageView<'a> {
    pub open spec fn view(&self) -> PageContent {
        match self {
            PageView::Fsst(v) => PageContent::Fsst(v@),
            PageView::Dict(d) => PageContent::Dict(d@),
            PageView::I64(v) => PageContent::I64(v@),
            PageView::F64(v) => PageContent::F64(v@),
            PageView::Fixed16Page { page, n } => PageContent::Fixed16 { page: page@, n: *n as nat },
            PageView::Bytes(v) => PageContent::Bytes(byte_rows(v@)),
        }
    }

    pub open spec fn wf(&self) -> bool {
        match self {
            PageView::Fsst(v) => v.wf(),
            PageView::Dict(d) => d.wf(),
            _ => true,
        }
    }

    pub fn open(enc: PageEncoding, page: &'a [u8]) -> (r: Result<Self, ZenError>)
        ensures
            match page_open(enc, page@) {
                Ok(content) => r matches Ok(v) && v.wf() && v@ == content,
                Err(view) => r matches Err(e) && e@ == view,
            },
    {
        match enc {
            PageEncoding::FsstWithOffsets => match FsstCompressor::open(page) {
                Ok(v) => Ok(PageView::Fsst(v)),
                Err(e) => Err(e),
            },
            PageEncoding::Dict => match DictDecoder::open(page) {
                Ok(d) => Ok(PageView::Dict(d)),
                Err(e) => Err(e),
            },
            PageEncoding::For => match for_decompress(page) {
                Ok(v) => Ok(PageView::I64(v)),
                Err(e) => Err(e),
            },
            PageEncoding::Rle => match rle_decompress(page) {
                Ok(v) => Ok(PageView::I64(v)),
                Err(e) => Err(e),
            },
            PageEncoding::Gorilla => match gorilla_decompress(page) {
                Ok(v) => Ok(PageView::F64(v)),
                Err(e) => Err(e),
            },
            PageEncoding::FixedRaw => {
                if page.len() < 4 {
                    return Err(ZenError::format("FixedRaw header truncated"));
                }
                let n: u32 = get_u32(page, 0);
                let body: &'a [u8] = slice_subrange(page, 4, page.len());
                assert(body@ =~= page@.skip(4));
                Ok(PageView::Fixed16Page { page: body, n: n as usize })
            },
            PageEncoding::Zstd => match zstd_decompress(page) {
                Ok(raw) => match read_zstd(raw.as_slice(), u32::MAX) {
                    Ok(rows) => Ok(PageView::Bytes(rows)),
                    Err(e) => Err(e),
                },
                Err(e) => Err(e),
            },
            PageEncoding::Raw => match read_raw(page, u32::MAX) {
                Ok(rows) => Ok(PageView::Bytes(rows)),
                Err(e) => Err(e),
            },
        }
    }

    pub fn row_count(&self) -> (r: usize)
        requires
            self.wf(),
        ensures
            r == self@.row_count(),
    {
        match self {
            PageView::Fsst(v) => v.row_count(),
            PageView::Dict(d) => d.row_count,
            PageView::I64(v) => v.len(),
            PageView::F64(v) => v.len(),
            PageView::Fixed16Page { n, .. } => *n,
            PageView::Bytes(v) => v.len(),
        }
    }

    /// Decodes the row at `idx`.
    pub fn row(&self, idx: usize) -> (r: Result<RowValue, ZenError>)
        requires
            self.wf(),
        ensures
            match self@.row(idx as int) {
                Ok(row) => r matches Ok(v) && v@ == row,
                Err(view) => r matches Err(e) && e@ == view,
            },
    {
        match self {
            PageView::Fsst(v) => match v.decode_row(idx) {
                Ok(row) => Ok(RowValue::Bytes(row)),
                Err(e) => Err(e),
            },
            PageView::Dict(d) => match d.row(idx) {
                Ok(row) => Ok(RowValue::Bytes(copy_bytes(row))),
                Err(e) => Err(e),
            },
            PageView::I64(v) => {
                if idx < v.len() {
                    Ok(RowValue::I64(v[idx]))
                } else {
                    Err(beyond(idx, " oob (i64 page len ", v.len()))
                }
            },
            PageView::F64(v) => {
                if idx < v.len() {
                    Ok(RowValue::F64(v[idx]))
                } else {
                    Err(beyond(idx, " oob (f64 page len ", v.len()))
                }
            },
            PageView::Fixed16Page { page, n } => {
                if idx >= *n {
                    return Err(ZenError::format("row idx oob"));
                }
                if (page.len() as u128) < idx as u128 * 16 + 16 {
                    return Err(ZenError::format("FixedRaw page truncated"));
                }
                let a: [u8; 16] = array16(page, idx * 16);
                proof {
                    lemma_array_of(a);
                }
                Ok(RowValue::Fixed16(a))
            },
            PageView::Bytes(v) => {
                if idx < v.len() {
                    Ok(RowValue::Bytes(copy_bytes(v[idx].as_slice())))
                } else {
                    let at: String = decimal_string(idx as u64);
                    Err(ZenError::Format(concat3("row ", at.as_str(), " oob (bytes page)")))
                }
            },
        }
    }
}

fn beyond(idx: usize, kind: &str, len: usize) -> (e: ZenError)
    ensures
        e@ == ErrorView::Format(
            "row "@ + decimal(idx as nat) + kind@ + decimal(len as nat) + ")"@,
        ),
{
    let at: String = decimal_string(idx as u64);
    let mut msg: String = concat3("row ", at.as_str(), kind);
    msg.append(decimal_string(len as u64).as_str());
    msg.append(")");
    ZenError::Format(msg)
}

} // verus!
