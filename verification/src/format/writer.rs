//! Segment writer.
//!
//! Accumulates row groups, then writes them out in the order: magic, metadata, row-group
//! headers and payloads, inline indexes, hotcache, footer, trailer. Inline indexes are
//! passed in pre-built.
use crate::common::errors::ZenError;
use crate::format::footer::{footer_round_trip, Footer};
use crate::format::hotcache::{hotcache_bytes, GroupEntryView, Hotcache};
use crate::format::magic::{FORMAT_VERSION, MAGIC_HEADER, MAGIC_TRAILER};
use crate::format::meta::{lemma_meta_len, MetaView, SegmentMetadata};
use crate::format::row_group::{
    descriptors_bytes, ColumnPageDescriptor, HeaderView, RowGroupHeader,
};
use crate::outside::hashes::{crc32, crc32_of};
use crate::rows::{flat, lemma_flat_push, lemma_offset_zero, offset_of};
use crate::wire::{le_bytes, lemma_le_bytes_len, low_u32, put_len32, put_slice, put_u32};
use vstd::prelude::*;
use vstd::slice::slice_subrange;

verus! {

/// What goes into a segment.
#[verifier::ext_equal]
pub ghost struct SegmentParts {
    pub meta: MetaView,
    /// Row-group headers with relative offsets, and the payloads.
    pub headers: Seq<HeaderView>,
    pub payloads: Seq<Seq<u8>>,
    pub inline_indexes: Seq<u8>,
    pub hotcache: Seq<GroupEntryView>,
}

/// The rows of all row groups.
pub open spec fn total_rows(headers: Seq<HeaderView>) -> nat
    decreases headers.len(),
{
    if headers.len() == 0 {
        0
    } else {
        total_rows(headers.drop_last()) + headers.last().row_count as nat
    }
}

/// A descriptor with its page offset moved by `by`; an offset has 64 bits.
pub open spec fn moved_descriptor(d: ColumnPageDescriptor, by: nat) -> ColumnPageDescriptor {
    ColumnPageDescriptor {
        page_offset: ((d.page_offset + by) % 0x1_0000_0000_0000_0000) as u64,
        ..d
    }
}

/// A header with its page offsets moved by `by`.
pub open spec fn moved(h: HeaderView, by: nat) -> HeaderView {
    HeaderView {
        columns: Seq::new(h.columns.len(), |i: int| moved_descriptor(h.columns[i], by)),
        ..h
    }
}

/// Headers in written form, each behind its length.
pub open spec fn header_parts(headers: Seq<HeaderView>) -> Seq<Seq<u8>> {
    Seq::new(headers.len(), |i: int| le_bytes(headers[i].bytes().len(), 4) + headers[i].bytes())
}

impl SegmentParts {
    /// The metadata with the row count filled in.
    pub open spec fn full_meta(self) -> MetaView {
        MetaView { row_count: total_rows(self.headers) as u64, ..self.meta }
    }

    /// Everything before the row-group headers.
    pub open spec fn head(self) -> Seq<u8> {
        MAGIC_HEADER@ + le_bytes(FORMAT_VERSION as nat, 4) + le_bytes(
            self.full_meta().bytes().len(),
            4,
        ) + self.full_meta().bytes()
    }

    /// Where the payloads begin.
    pub open spec fn payloads_start(self) -> nat {
        self.head().len() + 4 + flat(header_parts(self.headers)).len()
    }

    /// Where the payload of the row group at `i` begins.
    pub open spec fn group_start(self, i: int) -> nat {
        self.payloads_start() + offset_of(self.payloads, i)
    }

    /// The headers with absolute page offsets.
    pub open spec fn absolute_headers(self) -> Seq<HeaderView> {
        Seq::new(self.headers.len(), |i: int| moved(self.headers[i], self.group_start(i)))
    }

    /// Everything up to the inline indexes.
    pub open spec fn groups_end(self) -> Seq<u8> {
        self.head() + le_bytes(self.headers.len(), 4) + flat(header_parts(self.absolute_headers()))
            + flat(self.payloads)
    }

    /// Everything up to the footer.
    pub open spec fn body(self) -> Seq<u8> {
        self.groups_end() + self.inline_indexes + hotcache_bytes(self.hotcache)
    }

    /// The footer that describes the body.
    pub open spec fn footer(self) -> Footer {
        let head = self.head().len();
        let groups = self.groups_end().len();
        let inline_end = groups + self.inline_indexes.len();
        Footer {
            format_version: FORMAT_VERSION,
            metadata_offset: 12,
            metadata_length: ((head - 12) % 0x1_0000_0000) as u32,
            row_group_payload_offset: head as u64,
            row_group_payload_length: (groups - head) as u64,
            inline_indexes_offset: groups as u64,
            inline_indexes_length: self.inline_indexes.len() as u64,
            hotcache_offset: inline_end as u64,
            hotcache_length: hotcache_bytes(self.hotcache).len() as u64,
            content_crc32: crc32_of(self.body().skip(12)),
        }
    }

    /// The segment file.
    pub open spec fn bytes(self) -> Seq<u8> {
        self.body() + self.footer().bytes() + le_bytes(68, 4) + MAGIC_TRAILER@
    }

    /// Row counts and page offsets stay within 64 bits.
    pub open spec fn in_range(self) -> bool {
        &&& self.headers.len() == self.payloads.len()
        &&& total_rows(self.headers) <= u64::MAX
        &&& self.body().len() <= u64::MAX
        &&& forall|i: int, j: int|
            #![trigger self.headers[i].columns[j]]
            0 <= i < self.headers.len() && 0 <= j < self.headers[i].columns.len()
                ==> self.headers[i].columns[j].page_offset + self.group_start(i) <= u64::MAX
    }
}

proof fn lemma_descriptors_len(ds: Seq<ColumnPageDescriptor>)
    ensures
        descriptors_bytes(ds).len() == 25 * ds.len(),
    decreases ds.len(),
{
    if ds.len() > 0 {
        lemma_descriptors_len(ds.drop_first());
        let d = ds[0];
        lemma_le_bytes_len(d.column_idx as nat, 4);
        lemma_le_bytes_len(d.encoding as nat, 1);
        lemma_le_bytes_len(d.page_offset as nat, 8);
        lemma_le_bytes_len(d.page_length as nat, 4);
        lemma_le_bytes_len(d.uncompressed_size as nat, 8);
    }
}

/// The size of a header depends on its number of pages only.
pub proof fn lemma_header_len(h: HeaderView)
    ensures
        h.bytes().len() == 20 + 25 * h.columns.len(),
{
    reveal(HeaderView::bytes);
    lemma_descriptors_len(h.columns);
    lemma_le_bytes_len(h.row_count as nat, 4);
    lemma_le_bytes_len(h.total_bytes as nat, 8);
    lemma_le_bytes_len(h.columns.len(), 8);
}

/// Lists of headers with the same numbers of pages have the same size.
pub proof fn lemma_header_parts_len(a: Seq<HeaderView>, b: Seq<HeaderView>)
    requires
        a.len() == b.len(),
        forall|i: int|
            #![trigger a[i]]
            0 <= i < a.len() ==> a[i].columns.len() == b[i].columns.len(),
    ensures
        flat(header_parts(a)).len() == flat(header_parts(b)).len(),
    decreases a.len(),
{
    if a.len() > 0 {
        let x = a.drop_last();
        let y = b.drop_last();
        assert forall|i: int|
            #![trigger x[i]]
            0 <= i < x.len() implies x[i].columns.len() == y[i].columns.len() by {
            assert(x[i] == a[i]);
        }
        lemma_header_parts_len(x, y);
        assert(header_parts(a).drop_last() =~= header_parts(x));
        assert(header_parts(b).drop_last() =~= header_parts(y));
        assert(a[a.len() - 1].columns.len() == b[a.len() - 1].columns.len());
        lemma_header_len(a.last());
        lemma_header_len(b.last());
        lemma_le_bytes_len(a.last().bytes().len(), 4);
        lemma_le_bytes_len(b.last().bytes().len(), 4);
    }
}

/// Builder accumulator for the writer.
pub struct SegmentWriter {
    pub metadata: SegmentMetadata,
    row_groups: Vec<(RowGroupHeader, Vec<u8>)>,
    inline_indexes: Vec<u8>,
    hotcache: Hotcache,
}

impl SegmentWriter {
    pub closed spec fn view(&self) -> SegmentParts {
        SegmentParts {
            meta: self.metadata@,
            headers: Seq::new(self.row_groups@.len(), |i: int| self.row_groups@[i].0@),
            payloads: Seq::new(self.row_groups@.len(), |i: int| self.row_groups@[i].1@),
            inline_indexes: self.inline_indexes@,
            hotcache: self.hotcache@,
        }
    }

    pub fn new(metadata: SegmentMetadata) -> (r: Self)
        ensures
            r@ == (SegmentParts {
                meta: metadata@,
                headers: Seq::empty(),
                payloads: Seq::empty(),
                inline_indexes: Seq::empty(),
                hotcache: Seq::empty(),
            }),
    {
        let r = SegmentWriter {
            metadata,
            row_groups: Vec::new(),
            inline_indexes: Vec::new(),
            hotcache: Hotcache::new(),
        };
        assert(r@.headers =~= Seq::empty());
        assert(r@.payloads =~= Seq::empty());
        r
    }

    pub fn add_row_group(&mut self, header: RowGroupHeader, payload: Vec<u8>)
        ensures
            final(self)@ == (SegmentParts {
                headers: old(self)@.headers.push(header@),
                payloads: old(self)@.payloads.push(payload@),
                ..old(self)@
            }),
    {
        let ghost before = self@;
        let ghost h = header@;
        let ghost p = payload@;
        self.row_groups.push((header, payload));
        assert(self@.headers =~= before.headers.push(h));
        assert(self@.payloads =~= before.payloads.push(p));
    }

    pub fn set_metadata(&mut self, metadata: SegmentMetadata)
        ensures
            final(self)@ == (SegmentParts { meta: metadata@, ..old(self)@ }),
    {
        self.metadata = metadata;
    }

    pub fn set_inline_indexes(&mut self, bytes: Vec<u8>)
        ensures
            final(self)@ == (SegmentParts { inline_indexes: bytes@, ..old(self)@ }),
    {
        self.inline_indexes = bytes;
    }

    pub fn set_hotcache(&mut self, hc: Hotcache)
        ensures
            final(self)@ == (SegmentParts { hotcache: hc@, ..old(self)@ }),
    {
        self.hotcache = hc;
    }

    fn count_rows(&self) -> (r: u64)
        requires
            total_rows(self@.headers) <= u64::MAX,
        ensures
            r == total_rows(self@.headers),
    {
        let mut sum: u64 = 0;
        let mut i: usize = 0;
        let ghost headers = self@.headers;
        assert(headers.take(0) =~= Seq::empty());
        while i < self.row_groups.len()
            invariant
                i <= self.row_groups@.len(),
                headers == self@.headers,
                total_rows(headers) <= u64::MAX,
                sum == total_rows(headers.take(i as int)),
            decreases self.row_groups.len() - i,
        {
            proof {
                assert(headers.take(i + 1).drop_last() =~= headers.take(i as int));
                lemma_total_rows_mono(headers, i + 1);
            }
            sum = sum + self.row_groups[i].0.row_count as u64;
            i = i + 1;
        }
        assert(headers.take(i as int) =~= headers);
        sum
    }

    /// Where the inline indexes will begin, in 64 bits.
    pub fn inline_indexes_offset(&self) -> (r: u64)
        ensures
            r == self@.groups_end().len() % 0x1_0000_0000_0000_0000,
    {
        let ghost parts = self@;
        let meta_bytes: Vec<u8> = self.metadata.to_bytes();
        proof {
            lemma_meta_len(parts.meta, total_rows(parts.headers) as u64);
            lemma_le_bytes_len(FORMAT_VERSION as nat, 4);
            lemma_le_bytes_len(parts.full_meta().bytes().len(), 4);
            lemma_layout(parts);
            assert(parts.head().len() == 16 + meta_bytes@.len());
        }
        let mut n: u64 = (meta_bytes.len() as u64).wrapping_add(20);
        let mut i: usize = 0;
        assert(header_parts(parts.headers.take(0)) =~= Seq::empty());
        assert(parts.payloads.take(0) =~= Seq::empty());
        while i < self.row_groups.len()
            invariant
                i <= self.row_groups@.len(),
                parts == self@,
                n == (meta_bytes@.len() + 20 + flat(
                    header_parts(parts.headers.take(i as int)),
                ).len() + flat(parts.payloads.take(i as int)).len()) % 0x1_0000_0000_0000_0000,
            decreases self.row_groups.len() - i,
        {
            let mut one: Vec<u8> = Vec::new();
            put_header(&mut one, &self.row_groups[i].0);
            proof {
                let hs = parts.headers;
                let ps = parts.payloads;
                lemma_flat_push(header_parts(hs.take(i as int)), header_parts(hs)[i as int]);
                assert(header_parts(hs.take(i + 1)) =~= header_parts(hs.take(i as int)).push(
                    header_parts(hs)[i as int],
                ));
                lemma_flat_push(ps.take(i as int), ps[i as int]);
                assert(ps.take(i + 1) =~= ps.take(i as int).push(ps[i as int]));
                assert(one@ =~= header_parts(hs)[i as int]);
            }
            n = n.wrapping_add(one.len() as u64).wrapping_add(self.row_groups[i].1.len() as u64);
            i = i + 1;
        }
        assert(parts.headers.take(i as int) =~= parts.headers);
        assert(parts.payloads.take(i as int) =~= parts.payloads);
        n
    }

    /// Finalizes the segment to bytes.
    pub fn finish(self) -> (r: Result<Vec<u8>, ZenError>)
        requires
            total_rows(self@.headers) <= u64::MAX,
        ensures
            r matches Ok(bytes) && bytes@ == self@.bytes(),
    {
        let ghost parts = self@;
        let rows: u64 = self.count_rows();
        let SegmentWriter { mut metadata, row_groups, inline_indexes, hotcache } = self;
        metadata.row_count = rows;
        let mut buf: Vec<u8> = Vec::new();
        put_slice(&mut buf, MAGIC_HEADER.as_slice());
        put_u32(&mut buf, FORMAT_VERSION);
        proof {
            lemma_le_bytes_len(FORMAT_VERSION as nat, 4);
        }
        let meta_bytes: Vec<u8> = metadata.to_bytes();
        assert(metadata@ =~= parts.full_meta());
        put_len32(&mut buf, meta_bytes.len());
        put_slice(&mut buf, meta_bytes.as_slice());
        assert(buf@ =~= parts.head());
        let head_len: usize = buf.len();
        let block: Vec<u8> = write_headers(&row_groups, head_len, Ghost(parts));
        put_slice(&mut buf, block.as_slice());
        let mut i: usize = 0;
        let ghost before = buf@;
        assert(parts.payloads.take(0) =~= Seq::empty());
        assert(before + Seq::<u8>::empty() =~= before);
        while i < row_groups.len()
            invariant
                i <= row_groups@.len(),
                parts.payloads == Seq::new(row_groups@.len(), |i: int| row_groups@[i].1@),
                buf@ == before + flat(parts.payloads.take(i as int)),
            decreases row_groups.len() - i,
        {
            put_slice(&mut buf, row_groups[i].1.as_slice());
            proof {
                let done = parts.payloads.take(i as int);
                let next = parts.payloads[i as int];
                lemma_flat_push(done, next);
                assert(parts.payloads.take(i + 1) =~= done.push(next));
                assert(before + flat(done) + next =~= before + (flat(done) + next));
            }
            i = i + 1;
        }
        assert(parts.payloads.take(i as int) =~= parts.payloads);
        assert(buf@ =~= parts.groups_end());
        let groups_len: usize = buf.len();
        put_slice(&mut buf, inline_indexes.as_slice());
        let inline_end: usize = buf.len();
        let hc_bytes: Vec<u8> = hotcache.to_bytes();
        put_slice(&mut buf, hc_bytes.as_slice());
        assert(buf@ =~= parts.body());
        let content: &[u8] = slice_subrange(buf.as_slice(), 12, buf.len());
        assert(content@ =~= parts.body().skip(12));
        let footer = Footer {
            format_version: FORMAT_VERSION,
            metadata_offset: 12,
            metadata_length: low_u32(head_len - 12),
            row_group_payload_offset: head_len as u64,
            row_group_payload_length: (groups_len - head_len) as u64,
            inline_indexes_offset: groups_len as u64,
            inline_indexes_length: (inline_end - groups_len) as u64,
            hotcache_offset: inline_end as u64,
            hotcache_length: hc_bytes.len() as u64,
            content_crc32: crc32(content),
        };
        assert(footer == parts.footer());
        let footer_bytes: Vec<u8> = footer.to_bytes();
        proof {
            footer_round_trip(footer);
        }
        put_slice(&mut buf, footer_bytes.as_slice());
        put_len32(&mut buf, footer_bytes.len());
        put_slice(&mut buf, MAGIC_TRAILER.as_slice());
        assert(buf@ =~= parts.bytes());
        Ok(buf)
    }
}

/// The row groups in `row_groups` are those of `parts`.
spec fn groups_of(row_groups: Seq<(RowGroupHeader, Vec<u8>)>, parts: SegmentParts) -> bool {
    &&& parts.headers == Seq::new(row_groups.len(), |i: int| row_groups[i].0@)
    &&& parts.payloads == Seq::new(row_groups.len(), |i: int| row_groups[i].1@)
}

/// Absolute headers are as long as relative ones, so the payloads begin where the
/// relative headers say.
pub proof fn lemma_layout(parts: SegmentParts)
    requires
        parts.headers.len() == parts.payloads.len(),
    ensures
        flat(header_parts(parts.absolute_headers())).len() == flat(
            header_parts(parts.headers),
        ).len(),
        parts.payloads_start() + flat(parts.payloads).len() == parts.groups_end().len(),
        parts.groups_end().len() <= parts.body().len(),
{
    let a = parts.absolute_headers();
    assert forall|i: int|
        #![trigger a[i]]
        0 <= i < a.len() implies a[i].columns.len() == parts.headers[i].columns.len() by {
        assert(a[i] == moved(parts.headers[i], parts.group_start(i)));
    }
    lemma_header_parts_len(a, parts.headers);
    lemma_le_bytes_len(parts.headers.len(), 4);
}

/// A header with its page offsets moved by `by`.
fn move_header(h: &RowGroupHeader, by: u64, Ghost(full): Ghost<nat>) -> (r: RowGroupHeader)
    requires
        by == full % 0x1_0000_0000_0000_0000,
    ensures
        r@ == moved(h@, full),
{
    let mut columns: Vec<ColumnPageDescriptor> = Vec::new();
    let mut j: usize = 0;
    while j < h.columns.len()
        invariant
            j <= h.columns@.len(),
            by == full % 0x1_0000_0000_0000_0000,
            columns@ == moved(h@, full).columns.take(j as int),
        decreases h.columns.len() - j,
    {
        let d: ColumnPageDescriptor = h.columns[j];
        columns.push(
            ColumnPageDescriptor {
                column_idx: d.column_idx,
                encoding: d.encoding,
                page_offset: d.page_offset.wrapping_add(by),
                page_length: d.page_length,
                uncompressed_size: d.uncompressed_size,
            },
        );
        j = j + 1;
        assert(columns@ =~= moved(h@, full).columns.take(j as int));
    }
    let r = RowGroupHeader { row_count: h.row_count, total_bytes: h.total_bytes, columns };
    assert(r@ =~= moved(h@, full));
    r
}

fn put_header(out: &mut Vec<u8>, h: &RowGroupHeader)
    ensures
        final(out)@ == old(out)@ + (le_bytes(h@.bytes().len(), 4) + h@.bytes()),
{
    let ghost before = out@;
    let mut one: Vec<u8> = Vec::new();
    h.write(&mut one);
    assert(one@ =~= h@.bytes());
    put_len32(out, one.len());
    put_slice(out, one.as_slice());
    assert(out@ =~= before + (le_bytes(h@.bytes().len(), 4) + h@.bytes()));
}

/// The count of row groups and their headers with absolute offsets.
fn write_headers(
    row_groups: &Vec<(RowGroupHeader, Vec<u8>)>,
    head_len: usize,
    Ghost(parts): Ghost<SegmentParts>,
) -> (r: Vec<u8>)
    requires
        groups_of(row_groups@, parts),
        head_len == parts.head().len(),
    ensures
        r@ == le_bytes(parts.headers.len(), 4) + flat(header_parts(parts.absolute_headers())),
{
    // The size of the headers does not depend on the offsets in them.
    let mut probe: Vec<u8> = Vec::new();
    let mut i: usize = 0;
    let ghost rel = header_parts(parts.headers);
    assert(rel.take(0) =~= Seq::empty());
    while i < row_groups.len()
        invariant
            i <= row_groups@.len(),
            groups_of(row_groups@, parts),
            rel == header_parts(parts.headers),
            probe@ == flat(rel.take(i as int)),
        decreases row_groups.len() - i,
    {
        put_header(&mut probe, &row_groups[i].0);
        proof {
            lemma_flat_push(rel.take(i as int), rel[i as int]);
            assert(rel.take(i + 1) =~= rel.take(i as int).push(rel[i as int]));
        }
        i = i + 1;
    }
    assert(rel.take(i as int) =~= rel);
    proof {
        lemma_layout(parts);
        lemma_offset_zero(parts.payloads);
    }
    let mut at: u64 = (head_len as u64).wrapping_add(4).wrapping_add(probe.len() as u64);
    let mut out: Vec<u8> = Vec::new();
    put_len32(&mut out, row_groups.len());
    let ghost head = out@;
    let ghost abs = header_parts(parts.absolute_headers());
    let mut k: usize = 0;
    assert(abs.take(0) =~= Seq::empty());
    assert(head + Seq::<u8>::empty() =~= head);
    while k < row_groups.len()
        invariant
            k <= row_groups@.len(),
            groups_of(row_groups@, parts),
            abs == header_parts(parts.absolute_headers()),
            at == parts.group_start(k as int) % 0x1_0000_0000_0000_0000,
            out@ == head + flat(abs.take(k as int)),
        decreases row_groups.len() - k,
    {
        let ghost before = out@;
        proof {
            crate::rows::lemma_flat_at(parts.payloads, k as int);
        }
        let h: RowGroupHeader = move_header(
            &row_groups[k].0,
            at,
            Ghost(parts.group_start(k as int)),
        );
        put_header(&mut out, &h);
        proof {
            assert(h@ == parts.absolute_headers()[k as int]);
            lemma_flat_push(abs.take(k as int), abs[k as int]);
            assert(abs.take(k + 1) =~= abs.take(k as int).push(abs[k as int]));
            assert(out@ =~= head + (flat(abs.take(k as int)) + abs[k as int]));
        }
        at = at.wrapping_add(row_groups[k].1.len() as u64);
        k = k + 1;
    }
    assert(abs.take(k as int) =~= abs);
    out
}

proof fn lemma_total_rows_mono(headers: Seq<HeaderView>, n: int)
    requires
        0 <= n <= headers.len(),
    ensures
        total_rows(headers.take(n)) <= total_rows(headers),
    decreases headers.len(),
{
    if n == headers.len() {
        assert(headers.take(n) =~= headers);
    } else {
        lemma_total_rows_mono(headers.drop_last(), n);
        assert(headers.drop_last().take(n) =~= headers.take(n));
    }
}

} // verus!
