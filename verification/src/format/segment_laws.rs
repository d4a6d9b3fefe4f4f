//! What is written into a segment is read back from it.
use crate::common::errors::ErrorView;
use crate::format::footer::footer_round_trip;
use crate::format::hotcache::{hotcache_bytes, hotcache_fits, hotcache_round_trip};
use crate::format::magic::{FORMAT_VERSION, MAGIC_HEADER, MAGIC_TRAILER};
use crate::format::meta::meta_round_trip;
use crate::format::page::{is_page, Column, PageEncoding};
use crate::format::page_laws::{page_fits, page_round_trip, stored};
use crate::format::reader::{
    footer_parse, groups_parse, header_list, hotcache_parse, meta_parse, segment_parse,
    SegmentView,
};
use crate::format::row_group::{
    entry_bytes, first_descriptor, header_round_trip, relative_descriptor, relative_header,
    ColumnPageDescriptor, HeaderView, PageEntry,
};
use crate::format::writer::{
    header_parts, lemma_header_len, lemma_layout, moved_descriptor, SegmentParts,
};
use crate::rows::{flat, lemma_flat_at, lemma_flat_first, offset_of};
use crate::wire::{le_bytes, lemma_le_bytes_len, lemma_u32_round_trip};
use vstd::prelude::*;

verus! {

/// The parts stay within the limits of the format's fields.
pub open spec fn segment_fits(parts: SegmentParts) -> bool {
    &&& parts.in_range()
    &&& parts.meta.fits()
    &&& hotcache_fits(parts.hotcache)
    &&& parts.full_meta().bytes().len() <= u32::MAX
    &&& parts.headers.len() <= u32::MAX
    &&& forall|i: int|
        0 <= i < parts.headers.len() ==> (#[trigger] parts.headers[i]).bytes().len() <= u32::MAX
}

/// What opening the written segment gives.
pub open spec fn written_view(parts: SegmentParts) -> SegmentView {
    SegmentView {
        bytes: parts.bytes(),
        footer: parts.footer(),
        metadata: parts.full_meta(),
        row_groups: parts.absolute_headers(),
        hotcache: parts.hotcache,
    }
}

proof fn lemma_header_list(headers: Seq<HeaderView>, rest: Seq<u8>)
    requires
        forall|i: int|
            0 <= i < headers.len() ==> (#[trigger] headers[i]).bytes().len() <= u32::MAX
                && headers[i].columns.len() <= u64::MAX,
    ensures
        header_list(flat(header_parts(headers)) + rest, headers.len()) == Ok::<
            Seq<HeaderView>,
            Seq<char>,
        >(headers),
    decreases headers.len(),
{
    let parts = header_parts(headers);
    if headers.len() == 0 {
        assert(headers =~= Seq::empty());
    } else {
        let tail = headers.drop_first();
        assert forall|i: int| 0 <= i < tail.len() implies (#[trigger] tail[i]).bytes().len()
            <= u32::MAX && tail[i].columns.len() <= u64::MAX by {
            assert(tail[i] == headers[i + 1]);
        }
        lemma_header_list(tail, rest);
        lemma_flat_first(parts);
        assert(parts.drop_first() =~= header_parts(tail));
        let h = headers[0];
        let b = h.bytes();
        let s = flat(parts) + rest;
        let n = b.len() as int;
        lemma_u32_round_trip(b.len());
        assert(s.subrange(0, 4) =~= le_bytes(b.len(), 4));
        assert(s.subrange(4, 4 + n) =~= b);
        assert(s.skip(4 + n) =~= flat(header_parts(tail)) + rest);
        header_round_trip(h, Seq::empty());
        assert(b + Seq::<u8>::empty() =~= b);
        assert(seq![h] + tail =~= headers);
    }
}

proof fn lemma_written_footer(parts: SegmentParts)
    ensures
        footer_parse(parts.bytes()) == Ok::<crate::format::footer::Footer, Seq<char>>(
            parts.footer(),
        ),
{
    let bytes = parts.bytes();
    let body = parts.body();
    let f = parts.footer();
    footer_round_trip(f);
    lemma_u32_round_trip(68);
    lemma_le_bytes_len(FORMAT_VERSION as nat, 4);
    let n = bytes.len() as int;
    assert(bytes.subrange(n - 8, n) =~= MAGIC_TRAILER@);
    assert(bytes.subrange(n - 12, n - 8) =~= le_bytes(68, 4));
    assert(bytes.subrange(n - 80, n - 12) =~= f.bytes());
    assert(bytes.subrange(0, 8) =~= MAGIC_HEADER@);
}

proof fn lemma_written_meta(parts: SegmentParts)
    requires
        parts.meta.fits(),
        parts.full_meta().bytes().len() <= u32::MAX,
    ensures
        meta_parse(parts.bytes(), 12) == Ok::<crate::format::meta::MetaView, Seq<char>>(
            parts.full_meta(),
        ),
{
    let bytes = parts.bytes();
    let m = parts.full_meta();
    let b = m.bytes();
    let n = b.len() as int;
    meta_round_trip(m);
    lemma_u32_round_trip(b.len());
    lemma_le_bytes_len(FORMAT_VERSION as nat, 4);
    let head = parts.head();
    assert(head.subrange(12, 16) =~= le_bytes(b.len(), 4));
    assert(head.subrange(16, 16 + n) =~= b);
    assert(bytes.subrange(12, 16) =~= head.subrange(12, 16));
    assert(bytes.subrange(16, 16 + n) =~= head.subrange(16, 16 + n));
}

proof fn lemma_written_groups(parts: SegmentParts)
    requires
        segment_fits(parts),
    ensures
        groups_parse(parts.bytes(), parts.head().len() as int) == Ok::<Seq<HeaderView>, Seq<char>>(
            parts.absolute_headers(),
        ),
{
    let bytes = parts.bytes();
    let at = parts.head().len() as int;
    let abs = parts.absolute_headers();
    lemma_u32_round_trip(parts.headers.len());
    assert forall|i: int| 0 <= i < abs.len() implies (#[trigger] abs[i]).bytes().len() <= u32::MAX
        && abs[i].columns.len() <= u64::MAX by {
        lemma_header_len(abs[i]);
        lemma_header_len(parts.headers[i]);
        assert(parts.headers[i].bytes().len() <= u32::MAX);
    }
    let rest = flat(parts.payloads) + parts.inline_indexes + hotcache_bytes(parts.hotcache)
        + parts.footer().bytes() + le_bytes(68, 4) + MAGIC_TRAILER@;
    lemma_header_list(abs, rest);
    assert(bytes.subrange(at, at + 4) =~= le_bytes(parts.headers.len(), 4));
    assert(bytes.skip(at + 4) =~= flat(header_parts(abs)) + rest);
}

proof fn lemma_written_hotcache(parts: SegmentParts)
    requires
        hotcache_fits(parts.hotcache),
        parts.body().len() <= u64::MAX,
    ensures
        parts.footer().hotcache_length > 0,
        hotcache_parse(
            parts.bytes(),
            parts.footer().hotcache_offset as int,
            parts.footer().hotcache_length as int,
        ) == Ok::<Seq<crate::format::hotcache::GroupEntryView>, Seq<char>>(parts.hotcache),
{
    let bytes = parts.bytes();
    let hb = hotcache_bytes(parts.hotcache);
    let at = (parts.groups_end().len() + parts.inline_indexes.len()) as int;
    hotcache_round_trip(parts.hotcache);
    lemma_le_bytes_len(parts.hotcache.len(), 8);
    assert(bytes.subrange(at, at + hb.len()) =~= hb);
}

/// Opening a written segment gives back its metadata with the row count, its row-group
/// headers with absolute offsets and its hotcache.
pub proof fn segment_round_trip(parts: SegmentParts)
    requires
        segment_fits(parts),
    ensures
        segment_parse(parts.bytes()) == Ok::<SegmentView, Seq<char>>(written_view(parts)),
{
    lemma_layout(parts);
    lemma_written_footer(parts);
    lemma_written_meta(parts);
    lemma_written_groups(parts);
    lemma_written_hotcache(parts);
    lemma_le_bytes_len(parts.headers.len(), 4);
}

/// Inline indexes stand in the written segment where its footer says.
pub proof fn inline_indexes_round_trip(parts: SegmentParts)
    requires
        parts.in_range(),
    ensures
        parts.bytes().subrange(
            parts.footer().inline_indexes_offset as int,
            parts.footer().inline_indexes_offset + parts.footer().inline_indexes_length,
        ) == parts.inline_indexes,
{
    let at = parts.groups_end().len() as int;
    let n = parts.inline_indexes.len() as int;
    assert(parts.bytes().subrange(at, at + n) =~= parts.inline_indexes);
}

proof fn lemma_first_moved(ds: Seq<ColumnPageDescriptor>, by: nat, column: u32)
    ensures
        first_descriptor(Seq::new(ds.len(), |i: int| moved_descriptor(ds[i], by)), column) == (
        match first_descriptor(ds, column) {
            Some(d) => Some(moved_descriptor(d, by)),
            None => None,
        }),
    decreases ds.len(),
{
    let ms = Seq::new(ds.len(), |i: int| moved_descriptor(ds[i], by));
    if ds.len() > 0 {
        let tail = ds.drop_first();
        lemma_first_moved(tail, by, column);
        assert(ms.drop_first() =~= Seq::new(tail.len(), |i: int| moved_descriptor(tail[i], by)));
    }
}

/// A page stands in the written segment where its descriptor says.
pub proof fn segment_page_round_trip(parts: SegmentParts, rg: int, column: u32)
    requires
        parts.in_range(),
        0 <= rg < parts.headers.len(),
        parts.headers[rg].descriptor(column) is Some,
        parts.headers[rg].descriptor(column)->0.page_offset + parts.headers[rg].descriptor(
            column,
        )->0.page_length <= parts.payloads[rg].len(),
    ensures
        written_view(parts).page(rg, column) == Ok::<Seq<u8>, ErrorView>(
            parts.payloads[rg].subrange(
                parts.headers[rg].descriptor(column)->0.page_offset as int,
                parts.headers[rg].descriptor(column)->0.page_offset + parts.headers[rg].descriptor(
                    column,
                )->0.page_length,
            ),
        ),
        written_view(parts).encoding(rg, column) == PageEncoding::of_tag(
            parts.headers[rg].descriptor(column)->0.encoding,
        ),
{
    let d = parts.headers[rg].descriptor(column)->0;
    let by = parts.group_start(rg);
    lemma_layout(parts);
    lemma_first_moved(parts.headers[rg].columns, by, column);
    assert(parts.absolute_headers()[rg].columns =~= Seq::new(
        parts.headers[rg].columns.len(),
        |i: int| moved_descriptor(parts.headers[rg].columns[i], by),
    ));
    lemma_flat_at(parts.payloads, rg);
    lemma_le_bytes_len(parts.headers.len(), 4);
    let bytes = parts.bytes();
    let start = parts.payloads_start() as int;
    let all = flat(parts.payloads);
    assert(bytes.subrange(start, start + all.len()) =~= all);
    let off = (d.page_offset + by) as int;
    assert(off + d.page_length <= start + all.len());
    assert(off <= u64::MAX);
    let payload = parts.payloads[rg];
    let rel = offset_of(parts.payloads, rg) as int;
    assert(payload.subrange(d.page_offset as int, d.page_offset + d.page_length)
        =~= bytes.subrange(off, off + d.page_length)) by {
        assert forall|k: int| 0 <= k < d.page_length implies payload[d.page_offset + k]
            == #[trigger] bytes[off + k] by {
            assert(all.subrange(rel, rel + payload.len())[d.page_offset + k] == payload[d.page_offset
                + k]);
            assert(bytes.subrange(start, start + all.len())[rel + d.page_offset + k] == bytes[off
                + k]);
        }
    }
}

proof fn lemma_first_page(pages: Seq<PageEntry>, all: Seq<PageEntry>, from: int, j: int)
    requires
        0 <= from <= j < all.len(),
        pages == all.skip(from),
        forall|k: int|
            from <= k < j ==> (#[trigger] all[k]).column_idx != all[j].column_idx,
    ensures
        first_descriptor(
            Seq::new(pages.len(), |i: int| relative_descriptor(all, from + i)),
            all[j].column_idx,
        ) == Some(relative_descriptor(all, j)),
    decreases j - from,
{
    let ds = Seq::new(pages.len(), |i: int| relative_descriptor(all, from + i));
    if from < j {
        lemma_first_page(all.skip(from + 1), all, from + 1, j);
        assert(all[from].column_idx != all[j].column_idx);
        assert(ds.drop_first() =~= Seq::new(
            all.skip(from + 1).len(),
            |i: int| relative_descriptor(all, from + 1 + i),
        ));
    }
}

/// The page added for a column stands in the written segment.
proof fn lemma_entry_page(parts: SegmentParts, rg: int, rows: u32, pages: Seq<PageEntry>, j: int)
    requires
        parts.in_range(),
        0 <= rg < parts.headers.len(),
        0 <= j < pages.len(),
        parts.headers[rg] == relative_header(rows, pages),
        parts.payloads[rg] == flat(entry_bytes(pages)),
        forall|k: int|
            0 <= k < j ==> (#[trigger] pages[k]).column_idx != pages[j].column_idx,
        pages[j].bytes.len() <= u32::MAX,
    ensures
        written_view(parts).page(rg, pages[j].column_idx) == Ok::<Seq<u8>, ErrorView>(
            pages[j].bytes,
        ),
        written_view(parts).encoding(rg, pages[j].column_idx) == Ok::<PageEncoding, ErrorView>(
            pages[j].encoding,
        ),
{
    let column = pages[j].column_idx;
    let all = entry_bytes(pages);
    assert(pages.skip(0) =~= pages);
    lemma_first_page(pages, pages, 0, j);
    assert(relative_header(rows, pages).columns =~= Seq::new(
        pages.len(),
        |i: int| relative_descriptor(pages, 0 + i),
    ));
    lemma_flat_at(all, j);
    lemma_layout(parts);
    lemma_flat_at(parts.payloads, rg);
    let d = relative_descriptor(pages, j);
    assert(d.page_offset == offset_of(all, j));
    segment_page_round_trip(parts, rg, column);
    crate::format::page::page_encoding_round_trip(pages[j].encoding);
}

/// Reading a column of a written segment gives back the column whose page was added for
/// it, within the limits of the format.
pub proof fn segment_column_round_trip(
    parts: SegmentParts,
    rg: int,
    rows: u32,
    pages: Seq<PageEntry>,
    j: int,
    col: Column,
)
    requires
        parts.in_range(),
        0 <= rg < parts.headers.len(),
        0 <= j < pages.len(),
        parts.headers[rg] == relative_header(rows, pages),
        parts.payloads[rg] == flat(entry_bytes(pages)),
        forall|k: int|
            0 <= k < j ==> (#[trigger] pages[k]).column_idx != pages[j].column_idx,
        is_page(pages[j].bytes, pages[j].encoding, col),
        page_fits(pages[j].bytes, pages[j].encoding, col),
        pages[j].bytes.len() <= u32::MAX,
    ensures
        written_view(parts).column(rg, pages[j].column_idx) == Ok::<Column, ErrorView>(
            stored(col),
        ),
{
    page_round_trip(pages[j].bytes, pages[j].encoding, col);
    lemma_entry_page(parts, rg, rows, pages, j);
}

} // verus!
