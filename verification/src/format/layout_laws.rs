//! Where each value of a segment file stands.
use crate::compress::layout_laws::lowest_bytes_come_first;
use crate::cursor::{blob_bytes, opt_num_bytes, text_list_bytes};
use crate::format::footer::Footer;
use crate::format::hotcache::{hotcache_bytes, place_bytes, ColumnEntryView};
use crate::format::meta::MetaView;
use crate::format::page::PageEncoding;
use crate::format::row_group::{descriptors_bytes, ColumnPageDescriptor, HeaderView};
use crate::format::writer::SegmentParts;
use crate::format::zone_map::{RangeView, ZoneView};
use crate::outside::hashes::crc32_of;
use crate::wire::{
    i64_pattern, le, le_bytes, lemma_le_bytes_len, lemma_le_of_le_bytes, lemma_pow256_values,
    pow256,
};
use vstd::prelude::*;

verus! {

/// The `n` bytes that stand at a place.
pub open spec fn bytes_at(s: Seq<u8>, place: nat, n: nat) -> Seq<u8> {
    s.subrange(place as int, place as int + n as int)
}

/// The number of `n` bytes that stands at a place, the lowest byte first.
pub open spec fn number_at(s: Seq<u8>, place: int, n: int) -> nat {
    le(s.subrange(place, place + n))
}

proof fn lemma_number_at(s: Seq<u8>, front: Seq<u8>, v: nat, n: nat, back: Seq<u8>)
    requires
        s == front + (le_bytes(v, n) + back),
        v < pow256(n),
    ensures
        s.len() == front.len() + n + back.len(),
        number_at(s, front.len() as int, n as int) == v,
        s == (front + le_bytes(v, n)) + back,
        (front + le_bytes(v, n)).len() == front.len() + n,
{
    lemma_le_of_le_bytes(v, n);
    assert(bytes_at(s, front.len(), n) =~= le_bytes(v, n));
    assert(s =~= (front + le_bytes(v, n)) + back);
}

proof fn lemma_piece_at(s: Seq<u8>, front: Seq<u8>, piece: Seq<u8>, back: Seq<u8>)
    requires
        s == front + (piece + back),
    ensures
        s.len() == front.len() + piece.len() + back.len(),
        s.subrange(front.len() as int, front.len() + piece.len() as int) == piece,
        s == (front + piece) + back,
        (front + piece).len() == front.len() + piece.len(),
{
    assert(s.subrange(front.len() as int, front.len() + piece.len() as int) =~= piece);
    assert(s =~= (front + piece) + back);
}

/// A footer has 68 bytes: the version, the places and lengths of metadata, row groups, inline
/// indexes and hotcache, and the checksum.
pub proof fn footers_have_their_layout(x: Footer)
    ensures
        x.bytes().len() == 68,
        number_at(x.bytes(), 0, 4) == x.format_version,
        number_at(x.bytes(), 4, 8) == x.metadata_offset,
        number_at(x.bytes(), 12, 4) == x.metadata_length,
        number_at(x.bytes(), 16, 8) == x.row_group_payload_offset,
        number_at(x.bytes(), 24, 8) == x.row_group_payload_length,
        number_at(x.bytes(), 32, 8) == x.inline_indexes_offset,
        number_at(x.bytes(), 40, 8) == x.inline_indexes_length,
        number_at(x.bytes(), 48, 8) == x.hotcache_offset,
        number_at(x.bytes(), 56, 8) == x.hotcache_length,
        number_at(x.bytes(), 64, 4) == x.content_crc32,
{
    reveal(Footer::bytes);
    lemma_pow256_values();
    let s = x.bytes();
    let j = le_bytes(x.content_crc32 as nat, 4);
    let i = le_bytes(x.hotcache_length as nat, 8) + j;
    let h = le_bytes(x.hotcache_offset as nat, 8) + i;
    let g = le_bytes(x.inline_indexes_length as nat, 8) + h;
    let f = le_bytes(x.inline_indexes_offset as nat, 8) + g;
    let e = le_bytes(x.row_group_payload_length as nat, 8) + f;
    let d = le_bytes(x.row_group_payload_offset as nat, 8) + e;
    let c = le_bytes(x.metadata_length as nat, 4) + d;
    let b = le_bytes(x.metadata_offset as nat, 8) + c;
    let f0 = Seq::<u8>::empty();
    assert(s =~= f0 + (le_bytes(x.format_version as nat, 4) + b));
    lemma_number_at(s, f0, x.format_version as nat, 4, b);
    let f1 = f0 + le_bytes(x.format_version as nat, 4);
    lemma_number_at(s, f1, x.metadata_offset as nat, 8, c);
    let f2 = f1 + le_bytes(x.metadata_offset as nat, 8);
    lemma_number_at(s, f2, x.metadata_length as nat, 4, d);
    let f3 = f2 + le_bytes(x.metadata_length as nat, 4);
    lemma_number_at(s, f3, x.row_group_payload_offset as nat, 8, e);
    let f4 = f3 + le_bytes(x.row_group_payload_offset as nat, 8);
    lemma_number_at(s, f4, x.row_group_payload_length as nat, 8, f);
    let f5 = f4 + le_bytes(x.row_group_payload_length as nat, 8);
    lemma_number_at(s, f5, x.inline_indexes_offset as nat, 8, g);
    let f6 = f5 + le_bytes(x.inline_indexes_offset as nat, 8);
    lemma_number_at(s, f6, x.inline_indexes_length as nat, 8, h);
    let f7 = f6 + le_bytes(x.inline_indexes_length as nat, 8);
    lemma_number_at(s, f7, x.hotcache_offset as nat, 8, i);
    let f8 = f7 + le_bytes(x.hotcache_offset as nat, 8);
    lemma_number_at(s, f8, x.hotcache_length as nat, 8, j);
    let f9 = f8 + le_bytes(x.hotcache_length as nat, 8);
    assert(j =~= le_bytes(x.content_crc32 as nat, 4) + Seq::<u8>::empty());
    lemma_number_at(s, f9, x.content_crc32 as nat, 4, Seq::empty());
}

/// A page descriptor has 25 bytes: the column, the encoding, the place and the length of the
/// page, and the size of its content.
pub proof fn descriptors_have_their_layout(d: ColumnPageDescriptor)
    ensures
        d.bytes().len() == 25,
        number_at(d.bytes(), 0, 4) == d.column_idx,
        number_at(d.bytes(), 4, 1) == d.encoding,
        number_at(d.bytes(), 5, 8) == d.page_offset,
        number_at(d.bytes(), 13, 4) == d.page_length,
        number_at(d.bytes(), 17, 8) == d.uncompressed_size,
{
    lemma_pow256_values();
    let s = d.bytes();
    let e = le_bytes(d.uncompressed_size as nat, 8);
    let c = le_bytes(d.page_length as nat, 4) + e;
    let b = le_bytes(d.page_offset as nat, 8) + c;
    let a = le_bytes(d.encoding as nat, 1) + b;
    let f0 = Seq::<u8>::empty();
    assert(s =~= f0 + (le_bytes(d.column_idx as nat, 4) + a));
    lemma_number_at(s, f0, d.column_idx as nat, 4, a);
    let f1 = f0 + le_bytes(d.column_idx as nat, 4);
    lemma_number_at(s, f1, d.encoding as nat, 1, b);
    let f2 = f1 + le_bytes(d.encoding as nat, 1);
    lemma_number_at(s, f2, d.page_offset as nat, 8, c);
    let f3 = f2 + le_bytes(d.page_offset as nat, 8);
    lemma_number_at(s, f3, d.page_length as nat, 4, e);
    let f4 = f3 + le_bytes(d.page_length as nat, 4);
    assert(e =~= le_bytes(d.uncompressed_size as nat, 8) + Seq::<u8>::empty());
    lemma_number_at(s, f4, d.uncompressed_size as nat, 8, Seq::empty());
}

proof fn lemma_descriptor_at(ds: Seq<ColumnPageDescriptor>, i: int)
    ensures
        descriptors_bytes(ds).len() == 25 * ds.len(),
        0 <= i < ds.len() ==> descriptors_bytes(ds).subrange(25 * i, 25 * i + 25) == ds[i].bytes(),
    decreases ds.len(),
{
    if ds.len() > 0 {
        descriptors_have_their_layout(ds[0]);
        let rest = ds.drop_first();
        lemma_descriptor_at(rest, i - 1);
        let s = descriptors_bytes(ds);
        if i == 0 {
            assert(s.subrange(0, 25) =~= ds[0].bytes());
        } else if 0 < i < ds.len() {
            assert(s.subrange(25 * i, 25 * i + 25) =~= descriptors_bytes(rest).subrange(
                25 * (i - 1),
                25 * (i - 1) + 25,
            ));
        }
    }
}

/// A row-group header begins with its rows, its bytes and its number of columns; descriptor
/// after descriptor follows.
pub proof fn headers_have_their_layout(h: HeaderView, i: int)
    requires
        h.columns.len() <= u64::MAX,
        0 <= i < h.columns.len(),
    ensures
        h.bytes().len() == 20 + 25 * h.columns.len(),
        number_at(h.bytes(), 0, 4) == h.row_count,
        number_at(h.bytes(), 4, 8) == h.total_bytes,
        number_at(h.bytes(), 12, 8) == h.columns.len(),
        h.bytes().subrange(20 + 25 * i, 45 + 25 * i) == h.columns[i].bytes(),
{
    reveal(HeaderView::bytes);
    lemma_pow256_values();
    lemma_descriptor_at(h.columns, i);
    let s = h.bytes();
    let c = descriptors_bytes(h.columns);
    let b = le_bytes(h.columns.len(), 8) + c;
    let a = le_bytes(h.total_bytes as nat, 8) + b;
    let f0 = Seq::<u8>::empty();
    assert(s =~= f0 + (le_bytes(h.row_count as nat, 4) + a));
    lemma_number_at(s, f0, h.row_count as nat, 4, a);
    let f1 = f0 + le_bytes(h.row_count as nat, 4);
    lemma_number_at(s, f1, h.total_bytes as nat, 8, b);
    let f2 = f1 + le_bytes(h.total_bytes as nat, 8);
    lemma_number_at(s, f2, h.columns.len(), 8, c);
    assert(s.subrange(20 + 25 * i, 45 + 25 * i) =~= c.subrange(25 * i, 25 * i + 25));
}

/// A value range begins with its kind: none, numbers, bytes or identifiers. The lower bound
/// comes before the upper one, and the number of missing values last.
pub proof fn ranges_have_their_layout(z: ZoneView)
    requires
        z.fits(),
    ensures
        number_at(z.bytes(), z.bytes().len() - 4, 4) == z.null_count,
        match z.value {
            RangeView::Unknown => z.bytes().len() == 8 && number_at(z.bytes(), 0, 4) == 0,
            RangeView::I64 { min, max } => z.bytes().len() == 24 && number_at(z.bytes(), 0, 4) == 1
                && number_at(z.bytes(), 4, 8) == i64_pattern(min) && number_at(z.bytes(), 12, 8)
                == i64_pattern(max),
            RangeView::Bytes { min, max } => number_at(z.bytes(), 0, 4) == 2 && number_at(
                z.bytes(),
                4,
                8,
            ) == min.len() && bytes_at(z.bytes(), 12, min.len()) == min && bytes_at(
                z.bytes(),
                20 + min.len(),
                max.len(),
            ) == max,
            RangeView::Fixed { min, max } => number_at(z.bytes(), 0, 4) == 3 && number_at(
                z.bytes(),
                4,
                8,
            ) == min.len() && bytes_at(z.bytes(), 12, min.len()) == min && bytes_at(
                z.bytes(),
                20 + min.len(),
                max.len(),
            ) == max,
        },
{
    lemma_pow256_values();
    let s = z.bytes();
    let f0 = Seq::<u8>::empty();
    let last = le_bytes(z.null_count as nat, 4);
    let front = s.take(s.len() - 4);
    lemma_le_bytes_len(z.null_count as nat, 4);
    assert(s =~= front + (last + Seq::<u8>::empty()));
    lemma_number_at(s, front, z.null_count as nat, 4, Seq::empty());
    match z.value {
        RangeView::Unknown => {
            assert(s =~= f0 + (le_bytes(0, 4) + last));
            lemma_number_at(s, f0, 0, 4, last);
        },
        RangeView::I64 { min, max } => {
            let b = le_bytes(i64_pattern(max), 8) + last;
            let a = le_bytes(i64_pattern(min), 8) + b;
            assert(s =~= f0 + (le_bytes(1, 4) + a));
            lemma_number_at(s, f0, 1, 4, a);
            let f1 = f0 + le_bytes(1, 4);
            lemma_number_at(s, f1, i64_pattern(min), 8, b);
            let f2 = f1 + le_bytes(i64_pattern(min), 8);
            lemma_number_at(s, f2, i64_pattern(max), 8, last);
        },
        RangeView::Bytes { min, max } => {
            lemma_bounds_at(s, 2, min, max, last);
        },
        RangeView::Fixed { min, max } => {
            lemma_bounds_at(s, 3, min, max, last);
        },
    }
}

proof fn lemma_bounds_at(s: Seq<u8>, kind: nat, min: Seq<u8>, max: Seq<u8>, last: Seq<u8>)
    requires
        s == (le_bytes(kind, 4) + (blob_bytes(min) + blob_bytes(max))) + last,
        kind < 4,
        min.len() <= u64::MAX,
        max.len() <= u64::MAX,
    ensures
        number_at(s, 0, 4) == kind,
        number_at(s, 4, 8) == min.len(),
        bytes_at(s, 12, min.len()) == min,
        bytes_at(s, 20 + min.len(), max.len()) == max,
{
    lemma_pow256_values();
    lemma_le_bytes_len(max.len(), 8);
    let f0 = Seq::<u8>::empty();
    let b = min + (blob_bytes(max) + last);
    let a = le_bytes(min.len(), 8) + b;
    assert(s =~= f0 + (le_bytes(kind, 4) + a));
    lemma_number_at(s, f0, kind, 4, a);
    lemma_number_at(s, f0 + le_bytes(kind, 4), min.len(), 8, b);
    assert(bytes_at(s, 12, min.len()) =~= min);
    assert(bytes_at(s, 20 + min.len(), max.len()) =~= max);
}

/// Metadata names the segment, its tenant and its schema. The bounds of times and commits, the
/// rows, and the bounds of traces and spans follow at fixed places, and the names behind them.
#[verifier::rlimit(40)]
pub proof fn metadata_has_its_layout(m: MetaView)
    requires
        m.fits(),
    ensures
        number_at(m.bytes(), 0, 16) == m.segment_id,
        number_at(m.bytes(), 16, 8) == m.tenant_id.0,
        number_at(m.bytes(), 24, 4) == m.partition_id.0,
        number_at(m.bytes(), 28, 16) == m.schema_fingerprint.0,
        number_at(m.bytes(), 44, 8) == i64_pattern(m.time_min_ms),
        number_at(m.bytes(), 52, 8) == i64_pattern(m.time_max_ms),
        number_at(m.bytes(), 60, 8) == m.commit_id_min.0,
        number_at(m.bytes(), 68, 8) == m.commit_id_max.0,
        number_at(m.bytes(), 76, 8) == m.row_count,
        m.bytes().subrange(84, 100) == m.trace_id_min,
        m.bytes().subrange(100, 116) == m.trace_id_max,
        m.bytes().subrange(116, 132) == m.span_id_min,
        m.bytes().subrange(132, 148) == m.span_id_max,
        m.bytes().skip(148) == text_list_bytes(m.sort_keys) + text_list_bytes(m.column_names),
{
    reveal(MetaView::bytes);
    lemma_pow256_values();
    let s = m.bytes();
    let names = text_list_bytes(m.sort_keys) + text_list_bytes(m.column_names);
    let j = m.trace_id_min + (m.trace_id_max + (m.span_id_min + (m.span_id_max + names)));
    let i = le_bytes(m.row_count as nat, 8) + j;
    let h = le_bytes(m.commit_id_max.0 as nat, 8) + i;
    let g = le_bytes(m.commit_id_min.0 as nat, 8) + h;
    let f = le_bytes(i64_pattern(m.time_max_ms), 8) + g;
    let e = le_bytes(i64_pattern(m.time_min_ms), 8) + f;
    let d = le_bytes(m.schema_fingerprint.0 as nat, 16) + e;
    let c = le_bytes(m.partition_id.0 as nat, 4) + d;
    let b = le_bytes(m.tenant_id.0 as nat, 8) + c;
    let f0 = Seq::<u8>::empty();
    assert(s =~= f0 + (le_bytes(m.segment_id as nat, 16) + b));
    lemma_number_at(s, f0, m.segment_id as nat, 16, b);
    let f1 = f0 + le_bytes(m.segment_id as nat, 16);
    lemma_number_at(s, f1, m.tenant_id.0 as nat, 8, c);
    let f2 = f1 + le_bytes(m.tenant_id.0 as nat, 8);
    lemma_number_at(s, f2, m.partition_id.0 as nat, 4, d);
    let f3 = f2 + le_bytes(m.partition_id.0 as nat, 4);
    lemma_number_at(s, f3, m.schema_fingerprint.0 as nat, 16, e);
    let f4 = f3 + le_bytes(m.schema_fingerprint.0 as nat, 16);
    lemma_number_at(s, f4, i64_pattern(m.time_min_ms), 8, f);
    let f5 = f4 + le_bytes(i64_pattern(m.time_min_ms), 8);
    lemma_number_at(s, f5, i64_pattern(m.time_max_ms), 8, g);
    let f6 = f5 + le_bytes(i64_pattern(m.time_max_ms), 8);
    lemma_number_at(s, f6, m.commit_id_min.0 as nat, 8, h);
    let f7 = f6 + le_bytes(m.commit_id_min.0 as nat, 8);
    lemma_number_at(s, f7, m.commit_id_max.0 as nat, 8, i);
    let f8 = f7 + le_bytes(m.commit_id_max.0 as nat, 8);
    lemma_number_at(s, f8, m.row_count as nat, 8, j);
    let f9 = f8 + le_bytes(m.row_count as nat, 8);
    let l = m.span_id_max + names;
    let k = m.span_id_min + l;
    lemma_piece_at(s, f9, m.trace_id_min, m.trace_id_max + k);
    let g1 = f9 + m.trace_id_min;
    lemma_piece_at(s, g1, m.trace_id_max, k);
    let g2 = g1 + m.trace_id_max;
    lemma_piece_at(s, g2, m.span_id_min, l);
    let g3 = g2 + m.span_id_min;
    lemma_piece_at(s, g3, m.span_id_max, names);
    assert(s.skip(148) =~= names);
}

/// A segment file begins with "ZENSEGV1" and ends with the same letters backward. Before the
/// end stand the footer and its length. The footer finds metadata, inline indexes and hotcache,
/// and its checksum is that of everything between the first twelve bytes and the footer.
pub proof fn segments_have_their_layout(parts: SegmentParts)
    requires
        parts.body().len() <= u64::MAX,
        parts.full_meta().bytes().len() < 0xffff_fffc,
    ensures
        ({
            let s = parts.bytes();
            let f = parts.footer();
            let n = s.len() - 80;
            &&& s.take(8) == seq![0x5au8, 0x45, 0x4e, 0x53, 0x45, 0x47, 0x56, 0x31]
            &&& s.skip(n + 72) == seq![0x31u8, 0x56, 0x47, 0x45, 0x53, 0x4e, 0x45, 0x5a]
            &&& number_at(s, 8, 4) == 1
            &&& number_at(s, n + 68, 4) == 68
            &&& s.subrange(n, n + 68) == f.bytes()
            &&& number_at(s, f.metadata_offset as int, 4) == parts.full_meta().bytes().len()
            &&& s.subrange(
                f.metadata_offset + 4,
                f.metadata_offset + f.metadata_length,
            ) == parts.full_meta().bytes()
            &&& f.row_group_payload_offset == f.metadata_offset + f.metadata_length
            &&& f.inline_indexes_offset == f.row_group_payload_offset + f.row_group_payload_length
            &&& s.subrange(
                f.inline_indexes_offset as int,
                f.inline_indexes_offset + f.inline_indexes_length,
            ) == parts.inline_indexes
            &&& f.hotcache_offset == f.inline_indexes_offset + f.inline_indexes_length
            &&& s.subrange(
                f.hotcache_offset as int,
                f.hotcache_offset + f.hotcache_length,
            ) == hotcache_bytes(parts.hotcache)
            &&& f.hotcache_offset + f.hotcache_length == n
            &&& f.content_crc32 == crc32_of(s.subrange(12, n))
            &&& f.format_version == 1
        }),
{
    lemma_pow256_values();
    let s = parts.bytes();
    let f = parts.footer();
    let body = parts.body();
    let n = s.len() - 80;
    let meta = parts.full_meta().bytes();
    footers_have_their_layout(f);
    lemma_le_of_le_bytes(68, 4);
    lemma_le_of_le_bytes(1, 4);
    lemma_le_of_le_bytes(meta.len(), 4);
    lemma_le_bytes_len(parts.headers.len(), 4);
    let head = parts.head();
    let groups = parts.groups_end();
    assert(head.len() == 16 + meta.len());
    assert(body.len() == n);
    assert(s.take(8) =~= seq![0x5au8, 0x45, 0x4e, 0x53, 0x45, 0x47, 0x56, 0x31]);
    assert(s.skip(n + 72) =~= seq![0x31u8, 0x56, 0x47, 0x45, 0x53, 0x4e, 0x45, 0x5a]);
    assert(s.subrange(8, 12) =~= le_bytes(1, 4));
    assert(s.subrange(12, 16) =~= le_bytes(meta.len(), 4));
    assert(bytes_at(s, 16, meta.len()) =~= meta);
    assert(s.subrange(n + 68, n + 72) =~= le_bytes(68, 4));
    assert(s.subrange(n, n + 68) =~= f.bytes());
    let hot = hotcache_bytes(parts.hotcache);
    assert(body.len() == groups.len() + parts.inline_indexes.len() + hot.len());
    assert(bytes_at(s, groups.len(), parts.inline_indexes.len()) =~= parts.inline_indexes);
    assert(bytes_at(s, groups.len() + parts.inline_indexes.len(), hot.len()) =~= hot);
    assert(s.subrange(12, n) =~= body.skip(12));
}

/// Pages name their encoding by a number from zero to seven.
pub proof fn encodings_have_their_numbers()
    ensures
        PageEncoding::Raw.tag() == 0,
        PageEncoding::FsstWithOffsets.tag() == 1,
        PageEncoding::Zstd.tag() == 2,
        PageEncoding::Gorilla.tag() == 3,
        PageEncoding::For.tag() == 4,
        PageEncoding::Rle.tag() == 5,
        PageEncoding::Dict.tag() == 6,
        PageEncoding::FixedRaw.tag() == 7,
{
}

/// An optional number is a zero where there is none, and else a one and the number.
pub proof fn optional_numbers_are_marked(v: nat, n: nat)
    requires
        v < pow256(n),
    ensures
        opt_num_bytes(None, n) == seq![0u8],
        opt_num_bytes(Some(v), n).len() == n + 1,
        opt_num_bytes(Some(v), n)[0] == 1,
        number_at(opt_num_bytes(Some(v), n), 1, n as int) == v,
{
    lowest_bytes_come_first(0, 1, 0);
    lowest_bytes_come_first(1, 1, 0);
    lemma_pow256_values();
    let one = le_bytes(1, 1);
    lemma_number_at(opt_num_bytes(Some(v), n), one, v, n, Seq::empty());
    assert(opt_num_bytes(None, n) =~= seq![0u8]);
}

/// A signed number is written as the unsigned one with the same lowest 64 bits.
pub proof fn signed_numbers_keep_their_bits(v: i64)
    ensures
        0 <= i64_pattern(v) < 0x1_0000_0000_0000_0000,
        (i64_pattern(v) - v) % 0x1_0000_0000_0000_0000 == 0,
{
}

/// An entry of the hotcache names its column and the column's range. Where all its indexes are
/// known, the place and length of the posting lists come first, then those of the full text,
/// the JSON paths and the vectors.
pub proof fn index_places_have_their_order(
    e: ColumnEntryView,
    p: (u64, u32),
    f: (u64, u32),
    j: (u64, u32),
    h: (u64, u32),
)
    requires
        e.posting == (Some(p.0), Some(p.1)),
        e.fts == (Some(f.0), Some(f.1)),
        e.jsonpath == (Some(j.0), Some(j.1)),
        e.hnsw == (Some(h.0), Some(h.1)),
    ensures
        ({
            let s = e.bytes();
            let n = 4 + e.zone_map.bytes().len() as int;
            &&& s.len() == n + 56
            &&& number_at(s, 0, 4) == e.column_idx
            &&& s.subrange(4, n) == e.zone_map.bytes()
            &&& number_at(s, n + 1, 8) == p.0 && number_at(s, n + 10, 4) == p.1
            &&& number_at(s, n + 15, 8) == f.0 && number_at(s, n + 24, 4) == f.1
            &&& number_at(s, n + 29, 8) == j.0 && number_at(s, n + 38, 4) == j.1
            &&& number_at(s, n + 43, 8) == h.0 && number_at(s, n + 52, 4) == h.1
        }),
{
    reveal(ColumnEntryView::bytes);
    lemma_places_in_order(e.bytes(), e.column_idx, e.zone_map.bytes(), p, f, j, h);
}

proof fn lemma_places_in_order(
    s: Seq<u8>,
    column_idx: u32,
    zone: Seq<u8>,
    p: (u64, u32),
    f: (u64, u32),
    j: (u64, u32),
    h: (u64, u32),
)
    requires
        s == le_bytes(column_idx as nat, 4) + (zone + (place_bytes((Some(p.0), Some(p.1))) + (
        place_bytes((Some(f.0), Some(f.1))) + (place_bytes((Some(j.0), Some(j.1))) + place_bytes(
            (Some(h.0), Some(h.1)),
        ))))),
    ensures
        ({
            let n = 4 + zone.len() as int;
            &&& s.len() == n + 56
            &&& number_at(s, 0, 4) == column_idx
            &&& s.subrange(4, n) == zone
            &&& number_at(s, n + 1, 8) == p.0 && number_at(s, n + 10, 4) == p.1
            &&& number_at(s, n + 15, 8) == f.0 && number_at(s, n + 24, 4) == f.1
            &&& number_at(s, n + 29, 8) == j.0 && number_at(s, n + 38, 4) == j.1
            &&& number_at(s, n + 43, 8) == h.0 && number_at(s, n + 52, 4) == h.1
        }),
{
    lemma_pow256_values();
    let q4 = place_bytes((Some(h.0), Some(h.1)));
    let q3 = place_bytes((Some(j.0), Some(j.1)));
    let q2 = place_bytes((Some(f.0), Some(f.1)));
    let q1 = place_bytes((Some(p.0), Some(p.1)));
    let d3 = q3 + q4;
    let d2 = q2 + d3;
    let d1 = q1 + d2;
    let f0 = Seq::<u8>::empty();
    assert(s =~= f0 + (le_bytes(column_idx as nat, 4) + (zone + d1)));
    lemma_number_at(s, f0, column_idx as nat, 4, zone + d1);
    let f1 = f0 + le_bytes(column_idx as nat, 4);
    lemma_piece_at(s, f1, zone, d1);
    let f2 = f1 + zone;
    lemma_place_at(s, f2, p, d2);
    let f3 = f2 + q1;
    lemma_place_at(s, f3, f, d3);
    let f4 = f3 + q2;
    lemma_place_at(s, f4, j, q4);
    let f5 = f4 + q3;
    assert(q4 =~= q4 + Seq::<u8>::empty());
    lemma_place_at(s, f5, h, Seq::empty());
}

proof fn lemma_place_at(s: Seq<u8>, front: Seq<u8>, p: (u64, u32), back: Seq<u8>)
    requires
        s == front + (place_bytes((Some(p.0), Some(p.1))) + back),
    ensures
        s.len() == front.len() + 14 + back.len(),
        number_at(s, front.len() as int + 1, 8) == p.0,
        number_at(s, front.len() as int + 10, 4) == p.1,
        s == (front + place_bytes((Some(p.0), Some(p.1)))) + back,
        (front + place_bytes((Some(p.0), Some(p.1)))).len() == front.len() + 14,
{
    lemma_pow256_values();
    let one = le_bytes(1, 1);
    lemma_le_bytes_len(1, 1);
    let c = one + (le_bytes(p.1 as nat, 4) + back);
    let a = front + one;
    assert(s =~= a + (le_bytes(p.0 as nat, 8) + c));
    lemma_number_at(s, a, p.0 as nat, 8, c);
    let b = a + le_bytes(p.0 as nat, 8) + one;
    assert(s =~= b + (le_bytes(p.1 as nat, 4) + back));
    lemma_number_at(s, b, p.1 as nat, 4, back);
    lemma_piece_at(s, front, place_bytes((Some(p.0), Some(p.1))), back);
}

} // verus!
