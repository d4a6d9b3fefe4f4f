//! Segment reader over a fully loaded byte buffer.
use crate::common::errors::{ErrorView, ZenError};
use crate::cursor::Cursor;
use crate::format::footer::{take_footer, Footer};
use crate::format::hotcache::{take_hotcache, GroupEntryView, Hotcache};
use crate::format::magic::{FORMAT_VERSION, MAGIC_HEADER, MAGIC_TRAILER};
use crate::format::meta::{take_meta, MetaView, SegmentMetadata};
use crate::format::page::{decode_page, page_parse, Column, ColumnValues, PageEncoding, Row};
use crate::format::page_view::{
    decode_one_row, page_open, page_row, PageContent, PageView, RowValue,
};
use crate::format::row_group::{
    take_header, ColumnPageDescriptor, HeaderView, RowGroupHeader, RowGroupReader,
};
use crate::order::bytes_eq;
use crate::text::{concat2, concat3, decimal, decimal_string};
use crate::wire::{get_u32, le};
use vstd::prelude::*;
use vstd::slice::slice_subrange;
use vstd::string::*;

verus! {

/// What a segment holds.
#[verifier::ext_equal]
pub ghost struct SegmentView {
    pub bytes: Seq<u8>,
    pub footer: Footer,
    pub metadata: MetaView,
    pub row_groups: Seq<HeaderView>,
    pub hotcache: Seq<GroupEntryView>,
}

/// `n` length-prefixed headers off the front.
pub open spec fn header_list(s: Seq<u8>, n: nat) -> Result<Seq<HeaderView>, Seq<char>>
    decreases n,
{
    if n == 0 {
        Ok(Seq::empty())
    } else if s.len() < 4 {
        Err("rg header length truncated"@)
    } else {
        let len = le(s.subrange(0, 4)) as int;
        if s.len() - 4 < len {
            Err("rg header body truncated"@)
        } else {
            match take_header(s.subrange(4, 4 + len)) {
                None => Err("rg header deserialize: malformed"@),
                Some((h, _)) => match header_list(s.skip(4 + len), (n - 1) as nat) {
                    Err(m) => Err(m),
                    Ok(hs) => Ok(seq![h] + hs),
                },
            }
        }
    }
}

/// The footer at the end of a file.
pub open spec fn footer_parse(bytes: Seq<u8>) -> Result<Footer, Seq<char>> {
    let n = bytes.len() as int;
    if n < 28 {
        Err("segment too short"@)
    } else if bytes.subrange(0, 8) != MAGIC_HEADER@ {
        Err("bad magic header"@)
    } else if bytes.subrange(n - 8, n) != MAGIC_TRAILER@ {
        Err("bad magic trailer"@)
    } else {
        let len = le(bytes.subrange(n - 12, n - 8)) as int;
        if n - 12 < len {
            Err("footer length too large"@)
        } else {
            match take_footer(bytes.subrange(n - 12 - len, n - 12)) {
                None => Err("footer deserialize: malformed"@),
                Some((f, _)) => if f.format_version != FORMAT_VERSION {
                    Err(
                        "format version mismatch: got "@ + decimal(f.format_version as nat)
                            + " expected 1"@,
                    )
                } else {
                    Ok(f)
                },
            }
        }
    }
}

/// The metadata at the offset in the footer.
pub open spec fn meta_parse(bytes: Seq<u8>, offset: int) -> Result<MetaView, Seq<char>> {
    if bytes.len() < offset + 4 {
        Err("metadata length truncated"@)
    } else {
        let len = le(bytes.subrange(offset, offset + 4)) as int;
        if bytes.len() < offset + 4 + len {
            Err("metadata body truncated"@)
        } else {
            match take_meta(bytes.subrange(offset + 4, offset + 4 + len)) {
                None => Err("metadata deserialize: malformed"@),
                Some((m, _)) => Ok(m),
            }
        }
    }
}

/// The row-group headers at the offset in the footer.
pub open spec fn groups_parse(bytes: Seq<u8>, offset: int) -> Result<Seq<HeaderView>, Seq<char>> {
    if bytes.len() < offset + 4 {
        Err("rg headers count truncated"@)
    } else {
        header_list(bytes.skip(offset + 4), le(bytes.subrange(offset, offset + 4)))
    }
}

/// The hotcache at the place in the footer; a place without length holds none.
pub open spec fn hotcache_parse(bytes: Seq<u8>, offset: int, length: int) -> Result<
    Seq<GroupEntryView>,
    Seq<char>,
> {
    if length == 0 {
        Ok(Seq::empty())
    } else if bytes.len() < offset + length {
        Err("hotcache truncated"@)
    } else {
        match take_hotcache(bytes.subrange(offset, offset + length)) {
            None => Err("hotcache deserialize: malformed"@),
            Some((es, _)) => Ok(es),
        }
    }
}

/// What a file holds, or why it is no segment.
pub open spec fn segment_parse(bytes: Seq<u8>) -> Result<SegmentView, Seq<char>> {
    match footer_parse(bytes) {
        Err(m) => Err(m),
        Ok(footer) => match meta_parse(bytes, footer.metadata_offset as int) {
            Err(m) => Err(m),
            Ok(metadata) => match groups_parse(bytes, footer.row_group_payload_offset as int) {
                Err(m) => Err(m),
                Ok(row_groups) => match hotcache_parse(
                    bytes,
                    footer.hotcache_offset as int,
                    footer.hotcache_length as int,
                ) {
                    Err(m) => Err(m),
                    Ok(hotcache) => Ok(
                        SegmentView { bytes, footer, metadata, row_groups, hotcache },
                    ),
                },
            },
        },
    }
}

impl SegmentView {
    /// The descriptor of a column page.
    pub open spec fn descriptor(self, rg: int, column: u32) -> Result<
        ColumnPageDescriptor,
        ErrorView,
    > {
        if rg >= self.row_groups.len() {
            Err(ErrorView::Format("row group "@ + decimal(rg as nat) + " out of range"@))
        } else {
            match self.row_groups[rg].descriptor(column) {
                None => Err(
                    ErrorView::Format(
                        "column "@ + decimal(column as nat) + " not in rg "@ + decimal(rg as nat),
                    ),
                ),
                Some(d) => Ok(d),
            }
        }
    }

    /// The bytes of a column page.
    pub open spec fn page(self, rg: int, column: u32) -> Result<Seq<u8>, ErrorView> {
        match self.descriptor(rg, column) {
            Err(e) => Err(e),
            Ok(d) => if self.bytes.len() < d.page_offset + d.page_length {
                Err(ErrorView::Format("column page bytes out of range"@))
            } else {
                Ok(self.bytes.subrange(d.page_offset as int, d.page_offset + d.page_length))
            },
        }
    }

    /// The encoding of a column page.
    pub open spec fn encoding(self, rg: int, column: u32) -> Result<PageEncoding, ErrorView> {
        match self.descriptor(rg, column) {
            Err(e) => Err(e),
            Ok(d) => PageEncoding::of_tag(d.encoding),
        }
    }

    /// The content of a column page.
    pub open spec fn column(self, rg: int, column: u32) -> Result<Column, ErrorView> {
        match self.page(rg, column) {
            Err(e) => Err(e),
            Ok(page) => match self.encoding(rg, column) {
                Err(e) => Err(e),
                Ok(enc) => page_parse(enc, page),
            },
        }
    }

    /// The content of one row of a column page.
    pub open spec fn row(self, rg: int, column: u32, row: int) -> Result<Row, ErrorView> {
        match self.page(rg, column) {
            Err(e) => Err(e),
            Ok(page) => match self.encoding(rg, column) {
                Err(e) => Err(e),
                Ok(enc) => page_row(enc, page, row),
            },
        }
    }

    /// A column page opened for reading rows.
    pub open spec fn opened(self, rg: int, column: u32) -> Result<PageContent, ErrorView> {
        match self.page(rg, column) {
            Err(e) => Err(e),
            Ok(page) => match self.encoding(rg, column) {
                Err(e) => Err(e),
                Ok(enc) => page_open(enc, page),
            },
        }
    }
}

/// The rows at the given indices of an opened page, or the first fault.
pub open spec fn picked_rows(content: PageContent, at: Seq<usize>) -> Result<Seq<Row>, ErrorView>
    decreases at.len(),
{
    if at.len() == 0 {
        Ok(Seq::empty())
    } else {
        match content.row(at[0] as int) {
            Err(e) => Err(e),
            Ok(row) => match picked_rows(content, at.drop_first()) {
                Err(e) => Err(e),
                Ok(rest) => Ok(seq![row] + rest),
            },
        }
    }
}

/// The contents of a list of row values.
pub open spec fn row_views(v: Seq<RowValue>) -> Seq<Row> {
    Seq::new(v.len(), |i: int| v[i]@)
}

/// The contents of a list of headers.
pub open spec fn header_views(v: Seq<RowGroupHeader>) -> Seq<HeaderView> {
    Seq::new(v.len(), |i: int| v[i]@)
}

fn read_headers(s: &[u8], n: u32) -> (r: Result<Vec<RowGroupHeader>, ZenError>)
    ensures
        match header_list(s@, n as nat) {
            Ok(hs) => r matches Ok(v) && header_views(v@) == hs,
            Err(m) => r matches Err(e) && e@ == ErrorView::Format(m),
        },
{
    let mut out: Vec<RowGroupHeader> = Vec::new();
    let mut pos: usize = 0;
    let mut i: u32 = 0;
    let ghost whole = header_list(s@, n as nat);
    proof {
        assert(s@.skip(0) =~= s@);
        assert(header_views(out@) =~= Seq::empty());
        if let Ok(all) = whole {
            assert(Seq::<HeaderView>::empty() + all =~= all);
        }
    }
    while i < n
        invariant
            i <= n,
            pos <= s.len(),
            whole == header_list(s@, n as nat),
            match header_list(s@.skip(pos as int), (n - i) as nat) {
                Ok(hs) => whole == Ok::<Seq<HeaderView>, Seq<char>>(header_views(out@) + hs),
                Err(m) => whole == Err::<Seq<HeaderView>, Seq<char>>(m),
            },
        decreases n - i,
    {
        let ghost here = s@.skip(pos as int);
        let ghost before = header_views(out@);
        if s.len() - pos < 4 {
            return Err(ZenError::format("rg header length truncated"));
        }
        let len: u32 = get_u32(s, pos);
        assert(here.subrange(0, 4) =~= s@.subrange(pos as int, pos + 4));
        if ((s.len() - pos - 4) as u64) < len as u64 {
            return Err(ZenError::format("rg header body truncated"));
        }
        let len: usize = len as usize;
        let mut c = Cursor::new(slice_subrange(s, pos + 4, pos + 4 + len));
        assert(here.subrange(4, 4 + len) =~= s@.subrange(pos + 4, pos + 4 + len));
        match RowGroupHeader::read(&mut c) {
            Some(h) => {
                let ghost content = h@;
                out.push(h);
                proof {
                    assert(here.skip(4 + len) =~= s@.skip(pos + 4 + len));
                    assert(header_views(out@) =~= before.push(content));
                    if let Ok(hs) = header_list(here.skip(4 + len), (n - i - 1) as nat) {
                        assert(before + (seq![content] + hs) =~= before.push(content) + hs);
                    }
                }
            },
            None => {
                return Err(ZenError::format("rg header deserialize: malformed"));
            },
        }
        pos = pos + 4 + len;
        i = i + 1;
    }
    assert(header_views(out@) + Seq::<HeaderView>::empty() =~= header_views(out@));
    Ok(out)
}

fn read_footer(bytes: &[u8]) -> (r: Result<Footer, ZenError>)
    ensures
        match footer_parse(bytes@) {
            Ok(f) => r matches Ok(x) && x == f,
            Err(m) => r matches Err(e) && e@ == ErrorView::Format(m),
        },
{
    let n: usize = bytes.len();
    if n < 28 {
        return Err(ZenError::format("segment too short"));
    }
    if !bytes_eq(slice_subrange(bytes, 0, 8), MAGIC_HEADER.as_slice()) {
        return Err(ZenError::format("bad magic header"));
    }
    if !bytes_eq(slice_subrange(bytes, n - 8, n), MAGIC_TRAILER.as_slice()) {
        return Err(ZenError::format("bad magic trailer"));
    }
    let len: u32 = get_u32(bytes, n - 12);
    if ((n - 12) as u64) < len as u64 {
        return Err(ZenError::format("footer length too large"));
    }
    match Footer::from_bytes(slice_subrange(bytes, n - 12 - len as usize, n - 12)) {
        None => Err(ZenError::format("footer deserialize: malformed")),
        Some(f) => {
            if f.format_version != FORMAT_VERSION {
                let got: String = decimal_string(f.format_version as u64);
                return Err(
                    ZenError::Format(
                        concat3("format version mismatch: got ", got.as_str(), " expected 1"),
                    ),
                );
            }
            Ok(f)
        },
    }
}

fn read_meta(bytes: &[u8], offset: u64) -> (r: Result<SegmentMetadata, ZenError>)
    ensures
        match meta_parse(bytes@, offset as int) {
            Ok(m) => r matches Ok(x) && x@ == m,
            Err(m) => r matches Err(e) && e@ == ErrorView::Format(m),
        },
{
    if (bytes.len() as u128) < offset as u128 + 4 {
        return Err(ZenError::format("metadata length truncated"));
    }
    let at: usize = offset as usize;
    let len: u32 = get_u32(bytes, at);
    if (bytes.len() as u128) < offset as u128 + 4 + len as u128 {
        return Err(ZenError::format("metadata body truncated"));
    }
    match SegmentMetadata::from_bytes(slice_subrange(bytes, at + 4, at + 4 + len as usize)) {
        None => Err(ZenError::format("metadata deserialize: malformed")),
        Some(m) => Ok(m),
    }
}

fn read_groups(bytes: &[u8], offset: u64) -> (r: Result<Vec<RowGroupHeader>, ZenError>)
    ensures
        match groups_parse(bytes@, offset as int) {
            Ok(hs) => r matches Ok(v) && header_views(v@) == hs,
            Err(m) => r matches Err(e) && e@ == ErrorView::Format(m),
        },
{
    if (bytes.len() as u128) < offset as u128 + 4 {
        return Err(ZenError::format("rg headers count truncated"));
    }
    let at: usize = offset as usize;
    let n: u32 = get_u32(bytes, at);
    assert(bytes@.skip(at + 4) =~= bytes@.subrange(at + 4, bytes@.len() as int));
    read_headers(slice_subrange(bytes, at + 4, bytes.len()), n)
}

fn read_hotcache(bytes: &[u8], offset: u64, length: u64) -> (r: Result<Hotcache, ZenError>)
    ensures
        match hotcache_parse(bytes@, offset as int, length as int) {
            Ok(es) => r matches Ok(x) && x@ == es,
            Err(m) => r matches Err(e) && e@ == ErrorView::Format(m),
        },
{
    if length == 0 {
        return Ok(Hotcache::new());
    }
    if (bytes.len() as u128) < offset as u128 + length as u128 {
        return Err(ZenError::format("hotcache truncated"));
    }
    let at: usize = offset as usize;
    match Hotcache::from_bytes(slice_subrange(bytes, at, at + length as usize)) {
        None => Err(ZenError::format("hotcache deserialize: malformed")),
        Some(h) => Ok(h),
    }
}

/// An opened segment.
pub struct SegmentReader {
    pub bytes: Vec<u8>,
    pub footer: Footer,
    pub metadata: SegmentMetadata,
    pub row_groups: Vec<RowGroupHeader>,
    pub hotcache: Hotcache,
}

impl SegmentReader {
    pub open spec fn view(&self) -> SegmentView {
        SegmentView {
            bytes: self.bytes@,
            footer: self.footer,
            metadata: self.metadata@,
            row_groups: header_views(self.row_groups@),
            hotcache: self.hotcache@,
        }
    }

    /// Opens a segment from its bytes.
    pub fn from_bytes(bytes: Vec<u8>) -> (r: Result<Self, ZenError>)
        ensures
            match segment_parse(bytes@) {
                Ok(view) => r matches Ok(s) && s@ == view,
                Err(m) => r matches Err(e) && e@ == ErrorView::Format(m),
            },
    {
        let footer: Footer = match read_footer(bytes.as_slice()) {
            Ok(f) => f,
            Err(e) => return Err(e),
        };
        let metadata: SegmentMetadata = match read_meta(bytes.as_slice(), footer.metadata_offset) {
            Ok(m) => m,
            Err(e) => return Err(e),
        };
        let row_groups: Vec<RowGroupHeader> = match read_groups(
            bytes.as_slice(),
            footer.row_group_payload_offset,
        ) {
            Ok(g) => g,
            Err(e) => return Err(e),
        };
        let hotcache: Hotcache = match read_hotcache(
            bytes.as_slice(),
            footer.hotcache_offset,
            footer.hotcache_length,
        ) {
            Ok(h) => h,
            Err(e) => return Err(e),
        };
        Ok(SegmentReader { bytes, footer, metadata, row_groups, hotcache })
    }

    pub fn row_group_count(&self) -> (r: usize)
        ensures
            r == self@.row_groups.len(),
    {
        self.row_groups.len()
    }

    pub fn row_group(&self, idx: usize) -> (r: Result<RowGroupReader, ZenError>)
        ensures
            if idx < self@.row_groups.len() {
                r matches Ok(x) && x.header@ == self@.row_groups[idx as int]
            } else {
                r matches Err(e) && e@ == ErrorView::Format(
                    "row group "@ + decimal(idx as nat) + " out of range"@,
                )
            },
    {
        if idx >= self.row_groups.len() {
            let n: String = decimal_string(idx as u64);
            return Err(ZenError::Format(concat3("row group ", n.as_str(), " out of range")));
        }
        Ok(RowGroupReader::new(self.row_groups[idx].copy()))
    }

    fn descriptor(&self, rg_idx: usize, column_idx: u32) -> (r: Result<
        &ColumnPageDescriptor,
        ZenError,
    >)
        ensures
            match self@.descriptor(rg_idx as int, column_idx) {
                Ok(d) => r matches Ok(x) && *x == d,
                Err(view) => r matches Err(e) && e@ == view,
            },
    {
        if rg_idx >= self.row_groups.len() {
            let n: String = decimal_string(rg_idx as u64);
            return Err(ZenError::Format(concat3("row group ", n.as_str(), " out of range")));
        }
        match self.row_groups[rg_idx].descriptor_for_column(column_idx) {
            Some(d) => Ok(d),
            None => {
                let mut msg: String = concat2("column ", decimal_string(column_idx as u64).as_str());
                msg.append(" not in rg ");
                msg.append(decimal_string(rg_idx as u64).as_str());
                Err(ZenError::Format(msg))
            },
        }
    }

    /// A column's page bytes.
    pub fn column_page_bytes(&self, rg_idx: usize, column_idx: u32) -> (r: Result<&[u8], ZenError>)
        ensures
            match self@.page(rg_idx as int, column_idx) {
                Ok(page) => r matches Ok(x) && x@ == page,
                Err(view) => r matches Err(e) && e@ == view,
            },
    {
        match self.descriptor(rg_idx, column_idx) {
            Err(e) => Err(e),
            Ok(d) => {
                if (self.bytes.len() as u128) < d.page_offset as u128 + d.page_length as u128 {
                    return Err(ZenError::format("column page bytes out of range"));
                }
                let off: usize = d.page_offset as usize;
                let len: usize = d.page_length as usize;
                Ok(slice_subrange(self.bytes.as_slice(), off, off + len))
            },
        }
    }

    pub fn column_encoding(&self, rg_idx: usize, column_idx: u32) -> (r: Result<
        PageEncoding,
        ZenError,
    >)
        ensures
            match self@.encoding(rg_idx as int, column_idx) {
                Ok(enc) => r matches Ok(x) && x == enc,
                Err(view) => r matches Err(e) && e@ == view,
            },
    {
        match self.descriptor(rg_idx, column_idx) {
            Err(e) => Err(e),
            Ok(d) => PageEncoding::try_from_u8(d.encoding),
        }
    }

    /// Decodes a full column page of a row group.
    pub fn read_column(&self, rg_idx: usize, column_idx: u32) -> (r: Result<
        ColumnValues<'static>,
        ZenError,
    >)
        ensures
            match self@.column(rg_idx as int, column_idx) {
                Ok(col) => r matches Ok(x) && x@ == col && x.is_owned(),
                Err(view) => r matches Err(e) && e@ == view,
            },
    {
        match self.column_page_bytes(rg_idx, column_idx) {
            Err(e) => Err(e),
            Ok(page) => match self.column_encoding(rg_idx, column_idx) {
                Err(e) => Err(e),
                Ok(enc) => decode_page(enc, page),
            },
        }
    }

    /// Decodes a single row from a column page (late materialization).
    pub fn read_row(&self, rg_idx: usize, column_idx: u32, row_in_rg: usize) -> (r: Result<
        RowValue,
        ZenError,
    >)
        ensures
            match self@.row(rg_idx as int, column_idx, row_in_rg as int) {
                Ok(row) => r matches Ok(x) && x@ == row,
                Err(view) => r matches Err(e) && e@ == view,
            },
    {
        match self.column_page_bytes(rg_idx, column_idx) {
            Err(e) => Err(e),
            Ok(page) => match self.column_encoding(rg_idx, column_idx) {
                Err(e) => Err(e),
                Ok(enc) => decode_one_row(enc, page, row_in_rg),
            },
        }
    }

    /// Opens a page for a (row group, column); rows are then decoded cheaply.
    pub fn open_page<'a>(&'a self, rg_idx: usize, column_idx: u32) -> (r: Result<
        PageView<'a>,
        ZenError,
    >)
        ensures
            match self@.opened(rg_idx as int, column_idx) {
                Ok(content) => r matches Ok(x) && x.wf() && x@ == content,
                Err(view) => r matches Err(e) && e@ == view,
            },
    {
        match self.column_page_bytes(rg_idx, column_idx) {
            Err(e) => Err(e),
            Ok(page) => match self.column_encoding(rg_idx, column_idx) {
                Err(e) => Err(e),
                Ok(enc) => PageView::open(enc, page),
            },
        }
    }

    /// Decodes the requested rows of one column; the page is opened once.
    pub fn read_rows(&self, rg_idx: usize, column_idx: u32, rows: &[usize]) -> (r: Result<
        Vec<RowValue>,
        ZenError,
    >)
        ensures
            match self@.opened(rg_idx as int, column_idx) {
                Err(view) => r matches Err(e) && e@ == view,
                Ok(content) => match picked_rows(content, rows@) {
                    Ok(picked) => r matches Ok(v) && row_views(v@) == picked,
                    Err(view) => r matches Err(e) && e@ == view,
                },
            },
    {
        let view = match self.open_page(rg_idx, column_idx) {
            Ok(v) => v,
            Err(e) => return Err(e),
        };
        let mut out: Vec<RowValue> = Vec::new();
        let mut i: usize = 0;
        let ghost whole = picked_rows(view@, rows@);
        proof {
            assert(rows@.skip(0) =~= rows@);
            assert(row_views(out@) =~= Seq::empty());
            if let Ok(all) = whole {
                assert(Seq::<Row>::empty() + all =~= all);
            }
        }
        while i < rows.len()
            invariant
                view.wf(),
                i <= rows@.len(),
                self@.opened(rg_idx as int, column_idx) == Ok::<PageContent, ErrorView>(view@),
                whole == picked_rows(view@, rows@),
                match picked_rows(view@, rows@.skip(i as int)) {
                    Ok(rest) => whole == Ok::<Seq<Row>, ErrorView>(row_views(out@) + rest),
                    Err(e) => whole == Err::<Seq<Row>, ErrorView>(e),
                },
            decreases rows.len() - i,
        {
            let ghost before = row_views(out@);
            assert(rows@.skip(i as int).drop_first() =~= rows@.skip(i + 1));
            match view.row(rows[i]) {
                Ok(row) => {
                    let ghost content = row@;
                    out.push(row);
                    proof {
                        assert(row_views(out@) =~= before.push(content));
                        if let Ok(rest) = picked_rows(view@, rows@.skip(i + 1)) {
                            assert(before + (seq![content] + rest) =~= before.push(content) + rest);
                        }
                    }
                },
                Err(e) => return Err(e),
            }
            i = i + 1;
        }
        assert(rows@.skip(i as int) =~= Seq::empty());
        assert(row_views(out@) + Seq::<Row>::empty() =~= row_views(out@));
        Ok(out)
    }
}

} // verus!
