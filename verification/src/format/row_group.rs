//! Row groups within a segment.
//!
//! A row group is a horizontal slice of the segment with one page per column. Its header
//! lists the pages:
//!
//! ```text
//! row_count: u32
//! total_bytes: u64
//! per-column descriptors: (column, encoding, page offset, page length, uncompressed size)
//! ```
use crate::common::errors::{ErrorView, ZenError};
use crate::cursor::{
    lemma_take_uint, put_len64, take_uint, Cursor,
};
use crate::format::page::PageEncoding;
use crate::rows::{flat, lemma_flat_push, offset_of};
use crate::text::{concat3, decimal, decimal_string};
use crate::wire::{le_bytes, lemma_pow256_values, low_u32, put_slice, put_u32, put_u64, put_u8};
use vstd::prelude::*;

verus! {

#[derive(Copy, Clone, Debug, PartialEq, Eq, Structural)]
pub struct ColumnPageDescriptor {
    /// Index into the column names of the segment.
    pub column_idx: u32,
    pub encoding: u8,
    /// Absolute offset within the segment file.
    pub page_offset: u64,
    pub page_length: u32,
    /// Approximate uncompressed byte count.
    pub uncompressed_size: u64,
}

impl ColumnPageDescriptor {
    /// The descriptor in written form.
    pub open spec fn bytes(self) -> Seq<u8> {
        le_bytes(self.column_idx as nat, 4) + (le_bytes(self.encoding as nat, 1) + (le_bytes(
            self.page_offset as nat,
            8,
        ) + (le_bytes(self.page_length as nat, 4) + le_bytes(self.uncompressed_size as nat, 8))))
    }

    fn write(&self, out: &mut Vec<u8>)
        ensures
            final(out)@ == old(out)@ + self.bytes(),
    {
        let ghost before = out@;
        put_u32(out, self.column_idx);
        put_u8(out, self.encoding);
        put_u64(out, self.page_offset);
        put_u32(out, self.page_length);
        put_u64(out, self.uncompressed_size);
        assert(out@ =~= before + self.bytes());
    }

    fn read(c: &mut Cursor<'_>) -> (r: Option<Self>)
        requires
            old(c).wf(),
        ensures
            final(c).wf(),
            match take_descriptor(old(c)@) {
                Some((d, rest)) => r == Some(d) && final(c)@ == rest,
                None => r is None,
            },
    {
        let column_idx: u32 = match c.take_u32() {
            Some(v) => v,
            None => return None,
        };
        let encoding: u8 = match c.take_u8() {
            Some(v) => v,
            None => return None,
        };
        let page_offset: u64 = match c.take_u64() {
            Some(v) => v,
            None => return None,
        };
        let page_length: u32 = match c.take_u32() {
            Some(v) => v,
            None => return None,
        };
        let uncompressed_size: u64 = match c.take_u64() {
            Some(v) => v,
            None => return None,
        };
        Some(
            ColumnPageDescriptor {
                column_idx,
                encoding,
                page_offset,
                page_length,
                uncompressed_size,
            },
        )
    }
}

/// A descriptor off the front.
pub open spec fn take_descriptor(s: Seq<u8>) -> Option<(ColumnPageDescriptor, Seq<u8>)> {
    match take_uint(s, 4) {
        None => None,
        Some((column_idx, s)) => match take_uint(s, 1) {
            None => None,
            Some((encoding, s)) => match take_uint(s, 8) {
                None => None,
                Some((page_offset, s)) => match take_uint(s, 4) {
                    None => None,
                    Some((page_length, s)) => match take_uint(s, 8) {
                        None => None,
                        Some((uncompressed_size, s)) => Some(
                            (
                                ColumnPageDescriptor {
                                    column_idx: column_idx as u32,
                                    encoding: encoding as u8,
                                    page_offset: page_offset as u64,
                                    page_length: page_length as u32,
                                    uncompressed_size: uncompressed_size as u64,
                                },
                                s,
                            ),
                        ),
                    },
                },
            },
        },
    }
}

/// `n` descriptors off the front.
pub open spec fn take_descriptors(s: Seq<u8>, n: nat) -> Option<
    (Seq<ColumnPageDescriptor>, Seq<u8>),
>
    decreases n,
{
    if n == 0 {
        Some((Seq::empty(), s))
    } else {
        match take_descriptor(s) {
            None => None,
            Some((d, rest)) => match take_descriptors(rest, (n - 1) as nat) {
                None => None,
                Some((ds, end)) => Some((seq![d] + ds, end)),
            },
        }
    }
}

/// Descriptors in written form.
pub open spec fn descriptors_bytes(ds: Seq<ColumnPageDescriptor>) -> Seq<u8>
    decreases ds.len(),
{
    if ds.len() == 0 {
        Seq::empty()
    } else {
        ds[0].bytes() + descriptors_bytes(ds.drop_first())
    }
}

proof fn lemma_take_descriptor(d: ColumnPageDescriptor, rest: Seq<u8>)
    ensures
        take_descriptor(d.bytes() + rest) == Some((d, rest)),
{
    lemma_pow256_values();
    let a = le_bytes(d.column_idx as nat, 4);
    let b = le_bytes(d.encoding as nat, 1);
    let c = le_bytes(d.page_offset as nat, 8);
    let e = le_bytes(d.page_length as nat, 4);
    let f = le_bytes(d.uncompressed_size as nat, 8);
    assert(d.bytes() + rest =~= a + (b + (c + (e + (f + rest)))));
    lemma_take_uint(d.column_idx as nat, 4, b + (c + (e + (f + rest))));
    lemma_take_uint(d.encoding as nat, 1, c + (e + (f + rest)));
    lemma_take_uint(d.page_offset as nat, 8, e + (f + rest));
    lemma_take_uint(d.page_length as nat, 4, f + rest);
    lemma_take_uint(d.uncompressed_size as nat, 8, rest);
}

proof fn lemma_take_descriptors(ds: Seq<ColumnPageDescriptor>, rest: Seq<u8>)
    ensures
        take_descriptors(descriptors_bytes(ds) + rest, ds.len()) == Some((ds, rest)),
    decreases ds.len(),
{
    if ds.len() == 0 {
        assert(descriptors_bytes(ds) + rest =~= rest);
        assert(ds =~= Seq::empty());
    } else {
        let tail = ds.drop_first();
        lemma_take_descriptors(tail, rest);
        lemma_take_descriptor(ds[0], descriptors_bytes(tail) + rest);
        assert(descriptors_bytes(ds) + rest =~= ds[0].bytes() + (descriptors_bytes(tail) + rest));
        assert(seq![ds[0]] + tail =~= ds);
    }
}

#[derive(Clone, Debug, PartialEq)]
pub struct RowGroupHeader {
    pub row_count: u32,
    pub total_bytes: u64,
    pub columns: Vec<ColumnPageDescriptor>,
}

/// The content of a row-group header.
#[verifier::ext_equal]
pub ghost struct HeaderView {
    pub row_count: u32,
    pub total_bytes: u64,
    pub columns: Seq<ColumnPageDescriptor>,
}

impl HeaderView {
    /// The header in written form.
    #[verifier::opaque]
    pub open spec fn bytes(self) -> Seq<u8> {
        le_bytes(self.row_count as nat, 4) + (le_bytes(self.total_bytes as nat, 8) + (le_bytes(
            self.columns.len(),
            8,
        ) + descriptors_bytes(self.columns)))
    }

    /// The first descriptor for the column.
    pub open spec fn descriptor(self, column_idx: u32) -> Option<ColumnPageDescriptor> {
        first_descriptor(self.columns, column_idx)
    }
}

/// The first descriptor for the column.
pub open spec fn first_descriptor(ds: Seq<ColumnPageDescriptor>, column_idx: u32) -> Option<
    ColumnPageDescriptor,
>
    decreases ds.len(),
{
    if ds.len() == 0 {
        None
    } else if ds[0].column_idx == column_idx {
        Some(ds[0])
    } else {
        first_descriptor(ds.drop_first(), column_idx)
    }
}

/// A header off the front.
#[verifier::opaque]
pub open spec fn take_header(s: Seq<u8>) -> Option<(HeaderView, Seq<u8>)> {
    match take_uint(s, 4) {
        None => None,
        Some((row_count, s)) => match take_uint(s, 8) {
            None => None,
            Some((total_bytes, s)) => match take_uint(s, 8) {
                None => None,
                Some((n, s)) => match take_descriptors(s, n) {
                    None => None,
                    Some((columns, s)) => Some(
                        (
                            HeaderView {
                                row_count: row_count as u32,
                                total_bytes: total_bytes as u64,
                                columns,
                            },
                            s,
                        ),
                    ),
                },
            },
        },
    }
}

/// A written header reads back as the header.
pub proof fn header_round_trip(h: HeaderView, rest: Seq<u8>)
    requires
        h.columns.len() <= u64::MAX,
    ensures
        take_header(h.bytes() + rest) == Some((h, rest)),
{
    reveal(HeaderView::bytes);
    reveal(take_header);
    lemma_pow256_values();
    let a = le_bytes(h.row_count as nat, 4);
    let b = le_bytes(h.total_bytes as nat, 8);
    let c = le_bytes(h.columns.len(), 8);
    let d = descriptors_bytes(h.columns);
    assert(h.bytes() + rest =~= a + (b + (c + (d + rest))));
    lemma_take_uint(h.row_count as nat, 4, b + (c + (d + rest)));
    lemma_take_uint(h.total_bytes as nat, 8, c + (d + rest));
    lemma_take_uint(h.columns.len(), 8, d + rest);
    lemma_take_descriptors(h.columns, rest);
}

impl RowGroupHeader {
    pub open spec fn view(&self) -> HeaderView {
        HeaderView {
            row_count: self.row_count,
            total_bytes: self.total_bytes,
            columns: self.columns@,
        }
    }

    pub fn new(row_count: u32) -> (r: Self)
        ensures
            r@ == (HeaderView { row_count, total_bytes: 0, columns: Seq::empty() }),
    {
        RowGroupHeader { row_count, total_bytes: 0, columns: Vec::new() }
    }

    /// A copy with the same content.
    pub fn copy(&self) -> (r: Self)
        ensures
            r@ == self@,
    {
        RowGroupHeader {
            row_count: self.row_count,
            total_bytes: self.total_bytes,
            columns: vstd::slice::slice_to_vec(self.columns.as_slice()),
        }
    }

    /// The first descriptor for the column.
    pub fn descriptor_for_column(&self, column_idx: u32) -> (r: Option<&ColumnPageDescriptor>)
        ensures
            match r {
                Some(d) => self@.descriptor(column_idx) == Some(*d),
                None => self@.descriptor(column_idx) is None,
            },
    {
        let mut i: usize = 0;
        assert(self.columns@.skip(0) =~= self.columns@);
        while i < self.columns.len()
            invariant
                i <= self.columns@.len(),
                self@.descriptor(column_idx) == first_descriptor(
                    self.columns@.skip(i as int),
                    column_idx,
                ),
            decreases self.columns.len() - i,
        {
            assert(self.columns@.skip(i as int).drop_first() =~= self.columns@.skip(i + 1));
            if self.columns[i].column_idx == column_idx {
                return Some(&self.columns[i]);
            }
            i = i + 1;
        }
        None
    }

    /// Appends the written form.
    pub fn write(&self, out: &mut Vec<u8>)
        ensures
            final(out)@ == old(out)@ + self@.bytes(),
    {
        let ghost before = out@;
        proof {
            reveal(HeaderView::bytes);
        }
        put_u32(out, self.row_count);
        put_u64(out, self.total_bytes);
        put_len64(out, self.columns.len());
        let ghost head = out@;
        let ghost all = self.columns@;
        let mut i: usize = 0;
        assert(all.skip(0) =~= all);
        while i < self.columns.len()
            invariant
                i <= self.columns@.len(),
                all == self.columns@,
                out@ + descriptors_bytes(all.skip(i as int)) == head + descriptors_bytes(all),
            decreases self.columns.len() - i,
        {
            let ghost mid = out@;
            self.columns[i].write(out);
            proof {
                let here = all.skip(i as int);
                assert(here.drop_first() =~= all.skip(i + 1));
                assert(mid + (here[0].bytes() + descriptors_bytes(all.skip(i + 1))) =~= out@
                    + descriptors_bytes(all.skip(i + 1)));
            }
            i = i + 1;
        }
        assert(all.skip(i as int) =~= Seq::empty());
        assert(out@ + Seq::<u8>::empty() =~= out@);
        assert(out@ =~= before + self@.bytes());
    }

    /// Reads a header off the front.
    pub fn read(c: &mut Cursor<'_>) -> (r: Option<Self>)
        requires
            old(c).wf(),
        ensures
            final(c).wf(),
            match take_header(old(c)@) {
                Some((h, rest)) => r matches Some(x) && x@ == h && final(c)@ == rest,
                None => r is None,
            },
    {
        proof {
            reveal(take_header);
        }
        let ghost whole = take_header(c@);
        let row_count: u32 = match c.take_u32() {
            Some(v) => v,
            None => return None,
        };
        let total_bytes: u64 = match c.take_u64() {
            Some(v) => v,
            None => return None,
        };
        let n: u64 = match c.take_u64() {
            Some(v) => v,
            None => return None,
        };
        let mut columns: Vec<ColumnPageDescriptor> = Vec::new();
        let ghost listed = take_descriptors(c@, n as nat);
        let mut i: u64 = 0;
        proof {
            if let Some((all, end)) = listed {
                assert(Seq::<ColumnPageDescriptor>::empty() + all =~= all);
            }
        }
        while i < n
            invariant
                c.wf(),
                i <= n,
                whole == take_header(old(c)@),
                whole == (match listed {
                    None => None,
                    Some((columns, end)) => Some(
                        (HeaderView { row_count, total_bytes, columns }, end),
                    ),
                }),
                match take_descriptors(c@, (n - i) as nat) {
                    Some((ds, end)) => listed == Some((columns@ + ds, end)),
                    None => listed is None,
                },
            decreases n - i,
        {
            let ghost before = columns@;
            match ColumnPageDescriptor::read(c) {
                Some(d) => {
                    columns.push(d);
                    proof {
                        if let Some((ds, end)) = take_descriptors(c@, (n - i - 1) as nat) {
                            assert(before + (seq![d] + ds) =~= columns@ + ds);
                        }
                    }
                },
                None => return None,
            }
            i = i + 1;
        }
        assert(columns@ + Seq::<ColumnPageDescriptor>::empty() =~= columns@);
        Some(RowGroupHeader { row_count, total_bytes, columns })
    }
}

/// Collects the pages of a row group. Offsets are relative to the start of the group's
/// payload; the segment writer makes them absolute.
pub struct RowGroupBuilder {
    pub row_count: u32,
    /// (column, encoding, page bytes, uncompressed size)
    pub buffers: Vec<(u32, PageEncoding, Vec<u8>, u64)>,
}

/// A page with its column, encoding and uncompressed size.
pub ghost struct PageEntry {
    pub column_idx: u32,
    pub encoding: PageEncoding,
    pub bytes: Seq<u8>,
    pub uncompressed_size: u64,
}

/// The page contents of a list of pages.
pub open spec fn entry_bytes(pages: Seq<PageEntry>) -> Seq<Seq<u8>> {
    Seq::new(pages.len(), |i: int| pages[i].bytes)
}

/// The descriptor of the page at `i`, relative to the start of the group.
pub open spec fn relative_descriptor(pages: Seq<PageEntry>, i: int) -> ColumnPageDescriptor {
    ColumnPageDescriptor {
        column_idx: pages[i].column_idx,
        encoding: pages[i].encoding.tag(),
        page_offset: offset_of(entry_bytes(pages), i) as u64,
        page_length: (pages[i].bytes.len() % 0x1_0000_0000) as u32,
        uncompressed_size: pages[i].uncompressed_size,
    }
}

/// The header of a row group with the given pages.
pub open spec fn relative_header(row_count: u32, pages: Seq<PageEntry>) -> HeaderView {
    HeaderView {
        row_count,
        total_bytes: flat(entry_bytes(pages)).len() as u64,
        columns: Seq::new(pages.len(), |i: int| relative_descriptor(pages, i)),
    }
}

impl RowGroupBuilder {
    /// The pages added so far.
    pub open spec fn view(&self) -> Seq<PageEntry> {
        Seq::new(
            self.buffers@.len(),
            |i: int|
                PageEntry {
                    column_idx: self.buffers@[i].0,
                    encoding: self.buffers@[i].1,
                    bytes: self.buffers@[i].2@,
                    uncompressed_size: self.buffers@[i].3,
                },
        )
    }

    pub fn new(row_count: u32) -> (r: Self)
        ensures
            r.row_count == row_count,
            r@ == Seq::<PageEntry>::empty(),
    {
        let r = RowGroupBuilder { row_count, buffers: Vec::new() };
        assert(r@ =~= Seq::empty());
        r
    }

    pub fn add_page(
        &mut self,
        column_idx: u32,
        encoding: PageEncoding,
        bytes: Vec<u8>,
        uncompressed_size: u64,
    )
        ensures
            final(self).row_count == old(self).row_count,
            final(self)@ == old(self)@.push(
                PageEntry { column_idx, encoding, bytes: bytes@, uncompressed_size },
            ),
    {
        let ghost before = self@;
        let ghost content = bytes@;
        self.buffers.push((column_idx, encoding, bytes, uncompressed_size));
        assert(self@ =~= before.push(
            PageEntry { column_idx, encoding, bytes: content, uncompressed_size },
        ));
    }

    /// The pages one after the other, and the header with relative offsets. Page lengths
    /// beyond 32 bits are cut to their low 32 bits, as the format's field is.
    pub fn finish(self) -> (r: (Vec<u8>, RowGroupHeader))
        ensures
            r.0@ == flat(entry_bytes(self@)),
            r.1@ == relative_header(self.row_count, self@),
    {
        let ghost pages = self@;
        let ghost parts = entry_bytes(pages);
        let mut payload: Vec<u8> = Vec::new();
        let mut columns: Vec<ColumnPageDescriptor> = Vec::new();
        let mut i: usize = 0;
        assert(parts.take(0) =~= Seq::empty());
        while i < self.buffers.len()
            invariant
                i <= self.buffers@.len(),
                pages == self@,
                parts == entry_bytes(pages),
                payload@ == flat(parts.take(i as int)),
                columns@ == Seq::new(i as nat, |k: int| relative_descriptor(pages, k)),
            decreases self.buffers.len() - i,
        {
            let entry = &self.buffers[i];
            let off: u64 = payload.len() as u64;
            let len: u32 = low_u32(entry.2.len());
            put_slice(&mut payload, entry.2.as_slice());
            let d = ColumnPageDescriptor {
                column_idx: entry.0,
                encoding: entry.1.as_u8(),
                page_offset: off,
                page_length: len,
                uncompressed_size: entry.3,
            };
            assert(d == relative_descriptor(pages, i as int));
            columns.push(d);
            proof {
                lemma_flat_push(parts.take(i as int), parts[i as int]);
                assert(parts.take(i + 1) =~= parts.take(i as int).push(parts[i as int]));
            }
            i = i + 1;
            assert(columns@ =~= Seq::new(i as nat, |k: int| relative_descriptor(pages, k)));
        }
        assert(parts.take(i as int) =~= parts);
        let header = RowGroupHeader {
            row_count: self.row_count,
            total_bytes: payload.len() as u64,
            columns,
        };
        assert(header@ =~= relative_header(self.row_count, pages));
        (payload, header)
    }
}

/// Reader for a row group given its header.
pub struct RowGroupReader {
    pub header: RowGroupHeader,
}

impl RowGroupReader {
    pub fn new(header: RowGroupHeader) -> (r: Self)
        ensures
            r.header == header,
    {
        RowGroupReader { header }
    }

    /// Looks up a column page descriptor by column index.
    pub fn column_descriptor(&self, column_idx: u32) -> (r: Result<&ColumnPageDescriptor, ZenError>)
        ensures
            match self.header@.descriptor(column_idx) {
                Some(d) => r matches Ok(x) && *x == d,
                None => r matches Err(e) && e@ == ErrorView::Format(
                    "column "@ + decimal(column_idx as nat) + " not in row group"@,
                ),
            },
    {
        match self.header.descriptor_for_column(column_idx) {
            Some(d) => Ok(d),
            None => {
                let n: String = decimal_string(column_idx as u64);
                Err(ZenError::Format(concat3("column ", n.as_str(), " not in row group")))
            },
        }
    }
}

} // verus!
