//! What holds of pages as a whole: they read back, and the ways to read them agree.
use crate::common::errors::ErrorView;
use crate::compress::dict::{
    dict_page_bytes, dict_parse, dict_round_trip, entry_parts, has_long_row, is_dict_page,
    is_dictionary, key_parts, key_width,
};
use crate::compress::for_bitpack::for_round_trip;
use crate::compress::fsst::{
    codes_of, fsst_page_bytes, fsst_parse, fsst_round_trip, is_fsst_page, offset_parts,
    symbol_parts, FsstPage,
};
use crate::compress::gorilla::{gorilla_round_trip, lemma_gorilla_page_len};
use crate::compress::rle::rle_round_trip;
use crate::format::page::{
    blob_list, blob_parse, blob_parts, blob_rows, fixed_at, fixed_list, fixed_parse, fixed_parts,
    is_page, lemma_array_of, page_parse, raw_texts, widened, zstd_texts, BlobTexts, Column,
    PageEncoding, MAX_PAGE_ROWS,
};
use crate::format::page_view::{blob_row, page_open, page_row};
use crate::outside::codecs::{fsst_table_valid, fsst_trains, lz4_holds, zstd_content};
use crate::rows::{
    flat, lemma_flat_first, lemma_flat_uniform_at, lemma_flat_uniform_len, offset_of, uniform,
};
use crate::wire::{le, le_bytes, lemma_le_bytes_len, lemma_u32_round_trip};
use vstd::prelude::*;

verus! {

/// What a column comes back as: unsigned integers as signed ones.
pub open spec fn stored(col: Column) -> Column {
    match col {
        Column::U32(v) => Column::I64(widened(v)),
        other => other,
    }
}

/// No row is longer than a 32-bit length can say.
pub open spec fn rows_fit(rows: Seq<Seq<u8>>) -> bool {
    forall|i: int| 0 <= i < rows.len() ==> (#[trigger] rows[i]).len() <= u32::MAX
}

/// The codes of an FSST page, which take what the table and the directory leave of it, have
/// at most as many bytes as a 32-bit offset can say.
pub open spec fn codes_fit(bytes: Seq<u8>, rows: nat) -> bool {
    bytes.len() <= u32::MAX + 9 + 9 * bytes[0] + 4 * rows
}

/// `bytes` is a dictionary page of the rows whose lengths fit their fields.
pub open spec fn dict_page_fits(bytes: Seq<u8>, rows: Seq<Seq<u8>>) -> bool {
    exists|dict: Seq<Seq<u8>>, block: Seq<u8>|
        #![trigger dict_page_bytes(dict, rows.len(), block)]
        {
            &&& is_dictionary(dict, rows)
            &&& lz4_holds(block, flat(key_parts(dict, rows)))
            &&& bytes == dict_page_bytes(dict, rows.len(), block)
            &&& flat(entry_parts(dict)).len() <= u32::MAX
            &&& flat(key_parts(dict, rows)).len() <= u32::MAX
            &&& block.len() <= u32::MAX
        }
}

/// The page stays within the limits of its fields and of the reader.
pub open spec fn page_fits(bytes: Seq<u8>, enc: PageEncoding, col: Column) -> bool {
    match (enc, col) {
        (PageEncoding::FsstWithOffsets, _) => col.row_count() <= u32::MAX && codes_fit(
            bytes,
            col.row_count(),
        ),
        (PageEncoding::Dict, Column::Strings(rows)) => rows.len() <= u32::MAX && !has_long_row(rows)
            && dict_page_fits(bytes, rows),
        (PageEncoding::Gorilla, _) => col.row_count() <= u32::MAX && bytes.len() <= u32::MAX + 8,
        (PageEncoding::Zstd, Column::Bytes(rows)) => rows.len() <= MAX_PAGE_ROWS && rows_fit(rows),
        (PageEncoding::Raw, Column::Bytes(rows)) => rows.len() <= MAX_PAGE_ROWS && rows_fit(rows),
        (PageEncoding::FixedRaw, _) => col.row_count() <= MAX_PAGE_ROWS,
        _ => col.row_count() <= u32::MAX,
    }
}

proof fn lemma_blobs_back(rows: Seq<Seq<u8>>, t: BlobTexts)
    requires
        forall|i: int| 0 <= i < rows.len() ==> (#[trigger] rows[i]).len() <= u32::MAX,
    ensures
        blob_rows(flat(blob_parts(rows)), rows.len(), t) == Ok::<Seq<Seq<u8>>, Seq<char>>(rows),
    decreases rows.len(),
{
    let parts = blob_parts(rows);
    let bytes = flat(parts);
    if rows.len() == 0 {
        assert(rows =~= Seq::empty());
    } else {
        let rest = rows.drop_first();
        assert forall|i: int| 0 <= i < rest.len() implies (#[trigger] rest[i]).len()
            <= u32::MAX by {
            assert(rest[i] == rows[i + 1]);
        }
        lemma_blobs_back(rest, t);
        lemma_flat_first(parts);
        assert(parts.drop_first() =~= blob_parts(rest));
        let e = rows[0];
        lemma_u32_round_trip(e.len());
        assert(bytes.subrange(0, 4) =~= le_bytes(e.len(), 4));
        assert(bytes.subrange(4, 4 + e.len() as int) =~= e);
        assert(bytes.skip(4 + e.len() as int) =~= flat(blob_parts(rest)));
        assert(seq![e] + rest =~= rows);
    }
}

proof fn lemma_blob_list_back(rows: Seq<Seq<u8>>, t: BlobTexts, limit: nat)
    requires
        rows.len() <= limit,
        rows.len() <= u32::MAX,
        forall|i: int| 0 <= i < rows.len() ==> (#[trigger] rows[i]).len() <= u32::MAX,
    ensures
        blob_parse(blob_list(rows), t, limit) == Ok::<Seq<Seq<u8>>, Seq<char>>(rows),
{
    let bytes = blob_list(rows);
    lemma_u32_round_trip(rows.len());
    lemma_blobs_back(rows, t);
    assert(bytes.subrange(0, 4) =~= le_bytes(rows.len(), 4));
    assert(bytes.skip(4) =~= flat(blob_parts(rows)));
}

proof fn lemma_fixed_back(values: Seq<[u8; 16]>)
    requires
        values.len() <= MAX_PAGE_ROWS,
    ensures
        fixed_parse(fixed_list(values)) == Ok::<Seq<[u8; 16]>, Seq<char>>(values),
{
    let parts = fixed_parts(values);
    let bytes = fixed_list(values);
    lemma_u32_round_trip(values.len());
    assert(bytes.subrange(0, 4) =~= le_bytes(values.len(), 4));
    assert(uniform(parts, 16));
    lemma_flat_uniform_len(parts, 16);
    let got = Seq::new(values.len(), |i: int| fixed_at(bytes, 4 + i * 16));
    assert forall|i: int| 0 <= i < values.len() implies got[i] == values[i] by {
        lemma_flat_uniform_at(parts, 16, i);
        assert(bytes.subrange(4 + i * 16, 4 + i * 16 + 16) =~= flat(parts).subrange(
            i * 16,
            i * 16 + 16,
        ));
        lemma_array_of(values[i]);
    }
    assert(got =~= values);
}

proof fn lemma_range_of_rows(p: FsstPage, rows: Seq<Seq<u8>>, start: int)
    requires
        0 <= start <= rows.len(),
        forall|i: int|
            0 <= i < rows.len() ==> #[trigger] p.row(i) == Ok::<Seq<u8>, Seq<char>>(rows[i]),
    ensures
        p.range(start, rows.len() as int) == Ok::<Seq<Seq<u8>>, Seq<char>>(rows.skip(start)),
    decreases rows.len() - start,
{
    if start < rows.len() {
        lemma_range_of_rows(p, rows, start + 1);
        assert(p.row(start) == Ok::<Seq<u8>, Seq<char>>(rows[start]));
        assert(seq![rows[start]] + rows.skip(start + 1) =~= rows.skip(start));
    } else {
        assert(rows.skip(start) =~= Seq::empty());
    }
}

proof fn lemma_rows_of_range(p: FsstPage, start: int, end: int, rows: Seq<Seq<u8>>)
    requires
        start <= end,
        p.range(start, end) == Ok::<Seq<Seq<u8>>, Seq<char>>(rows),
    ensures
        rows.len() == end - start,
        forall|i: int|
            start <= i < end ==> #[trigger] p.row(i) == Ok::<Seq<u8>, Seq<char>>(rows[i - start]),
    decreases end - start,
{
    if start < end {
        let rest = p.range(start + 1, end)->Ok_0;
        lemma_rows_of_range(p, start + 1, end, rest);
        assert forall|i: int| start <= i < end implies #[trigger] p.row(i) == Ok::<
            Seq<u8>,
            Seq<char>,
        >(rows[i - start]) by {
            if i > start {
                assert(rows[i - start] == rest[i - start - 1]);
            }
        }
    }
}

proof fn lemma_fsst_page_len(table: Seq<(u64, u8)>, codes: Seq<Seq<u8>>)
    requires
        fsst_table_valid(table),
    ensures
        fsst_page_bytes(table, codes)[0] == table.len(),
        fsst_page_bytes(table, codes).len() == 9 + 9 * table.len() + 4 * codes.len() + flat(
            codes,
        ).len(),
{
    let syms = symbol_parts(table);
    let dirs = offset_parts(codes);
    assert(uniform(syms, 8)) by {
        assert forall|i: int| 0 <= i < syms.len() implies (#[trigger] syms[i]).len() == 8 by {
            lemma_le_bytes_len(table[i].0 as nat, 8);
        }
    }
    assert(uniform(dirs, 4)) by {
        assert forall|i: int| 0 <= i < dirs.len() implies (#[trigger] dirs[i]).len() == 4 by {
            lemma_le_bytes_len(offset_of(codes, i), 4);
        }
    }
    lemma_flat_uniform_len(syms, 8);
    lemma_flat_uniform_len(dirs, 4);
    lemma_le_bytes_len(codes.len(), 4);
}

proof fn lemma_fsst_page_back(bytes: Seq<u8>, rows: Seq<Seq<u8>>)
    requires
        is_page(bytes, PageEncoding::FsstWithOffsets, Column::Strings(rows)),
        codes_fit(bytes, rows.len()),
        rows.len() <= u32::MAX,
    ensures
        page_parse(PageEncoding::FsstWithOffsets, bytes) == Ok::<Column, ErrorView>(
            Column::Strings(rows),
        ),
{
    let table = choose|table: Seq<(u64, u8)>|
        #[trigger] fsst_table_valid(table) && fsst_trains(rows, table) && is_fsst_page(
            bytes,
            table,
            rows,
        );
    let codes = choose|codes: Seq<Seq<u8>>|
        #![trigger fsst_page_bytes(table, codes)]
        codes_of(table, codes, rows) && bytes == fsst_page_bytes(table, codes);
    assert(codes_of(table, codes, rows) && bytes == fsst_page_bytes(table, codes));
    lemma_fsst_page_len(table, codes);
    fsst_round_trip(bytes, table, codes, rows);
    let p = fsst_parse(bytes)->Ok_0;
    lemma_range_of_rows(p, rows, 0);
    assert(rows.skip(0) =~= rows);
}

proof fn lemma_dict_page_back(bytes: Seq<u8>, rows: Seq<Seq<u8>>)
    requires
        dict_page_fits(bytes, rows),
        rows.len() <= u32::MAX,
        !has_long_row(rows),
    ensures
        page_parse(PageEncoding::Dict, bytes) == Ok::<Column, ErrorView>(Column::Strings(rows)),
{
    let (dict, block) = choose|dict: Seq<Seq<u8>>, block: Seq<u8>|
        #![trigger dict_page_bytes(dict, rows.len(), block)]
        {
            &&& is_dictionary(dict, rows)
            &&& lz4_holds(block, flat(key_parts(dict, rows)))
            &&& bytes == dict_page_bytes(dict, rows.len(), block)
            &&& flat(entry_parts(dict)).len() <= u32::MAX
            &&& flat(key_parts(dict, rows)).len() <= u32::MAX
            &&& block.len() <= u32::MAX
        };
    dict_round_trip(rows, dict, block, bytes);
    let c = dict_parse(bytes)->Ok_0;
    assert forall|i: int| 0 <= i < c.keys.len() implies c.keys[i] < c.dict.len()
        && #[trigger] c.dict[c.keys[i] as int] == rows[i] by {
        assert(c.row(i) == Ok::<Seq<u8>, Seq<char>>(rows[i]));
    }
    assert forall|i: int| 0 <= i < c.keys.len() implies #[trigger] c.keys[i] < c.dict.len() by {
        assert(c.row(i) == Ok::<Seq<u8>, Seq<char>>(rows[i]));
    }
    assert(Seq::new(c.keys.len(), |i: int| c.dict[c.keys[i] as int]) =~= rows);
}

/// Decoding a page of a column gives the column back, within the limits of the format.
pub proof fn page_round_trip(bytes: Seq<u8>, enc: PageEncoding, col: Column)
    requires
        is_page(bytes, enc, col),
        page_fits(bytes, enc, col),
    ensures
        page_parse(enc, bytes) == Ok::<Column, ErrorView>(stored(col)),
{
    match (enc, col) {
        (PageEncoding::FsstWithOffsets, Column::Strings(rows)) => {
            lemma_fsst_page_back(bytes, rows);
        },
        (PageEncoding::Dict, Column::Strings(rows)) => {
            lemma_dict_page_back(bytes, rows);
        },
        (PageEncoding::For, Column::I64(v)) => {
            for_round_trip(v);
        },
        (PageEncoding::For, Column::U32(v)) => {
            for_round_trip(widened(v));
        },
        (PageEncoding::Rle, Column::I64(v)) => {
            rle_round_trip(v);
        },
        (PageEncoding::Gorilla, Column::F64(v)) => {
            lemma_gorilla_page_len(v);
            gorilla_round_trip(v);
        },
        (PageEncoding::Zstd, Column::Bytes(rows)) => {
            lemma_blob_list_back(rows, zstd_texts(), MAX_PAGE_ROWS as nat);
        },
        (PageEncoding::FixedRaw, Column::Fixed16(v)) => {
            lemma_fixed_back(v);
        },
        (PageEncoding::Raw, Column::Bytes(rows)) => {
            lemma_blob_list_back(rows, raw_texts(), MAX_PAGE_ROWS as nat);
        },
        _ => {},
    }
}

/// The lengths that the number of rows does not bound fit their fields.
pub open spec fn lengths_fit(bytes: Seq<u8>, enc: PageEncoding, col: Column) -> bool {
    match (enc, col) {
        (PageEncoding::FsstWithOffsets, Column::Strings(rows)) => codes_fit(bytes, rows.len()),
        (PageEncoding::Dict, Column::Strings(rows)) => !has_long_row(rows) && forall|
            dict: Seq<Seq<u8>>,
        | #[trigger]
            is_dictionary(dict, rows) ==> flat(entry_parts(dict)).len() <= u32::MAX,
        (PageEncoding::Zstd, Column::Bytes(rows)) => rows_fit(rows),
        (PageEncoding::Raw, Column::Bytes(rows)) => rows_fit(rows),
        _ => true,
    }
}

proof fn lemma_small_dict_page(bytes: Seq<u8>, rows: Seq<Seq<u8>>)
    requires
        is_dict_page(bytes, rows),
        rows.len() <= MAX_PAGE_ROWS,
        lengths_fit(bytes, PageEncoding::Dict, Column::Strings(rows)),
    ensures
        dict_page_fits(bytes, rows),
{
    let (dict, block) = choose|dict: Seq<Seq<u8>>, block: Seq<u8>|
        #![trigger dict_page_bytes(dict, rows.len(), block)]
        is_dictionary(dict, rows) && lz4_holds(block, flat(key_parts(dict, rows))) && bytes
            == dict_page_bytes(dict, rows.len(), block);
    let keys = key_parts(dict, rows);
    let w = key_width(dict.len());
    assert(uniform(keys, w)) by {
        assert forall|k: int| 0 <= k < keys.len() implies (#[trigger] keys[k]).len() == w by {
            lemma_le_bytes_len(dict.index_of(rows[k]) as nat, w);
        }
    }
    lemma_flat_uniform_len(keys, w);
    assert(rows.len() * w <= 4_000_000) by (nonlinear_arith)
        requires
            rows.len() <= 1_000_000,
            w <= 4,
    ;
    assert(is_dictionary(dict, rows));
}

/// Decoding an encoded page gives the column back for every column of at most as many rows
/// as a page may have, as long as the lengths that grow with the rows' own lengths fit the
/// 32-bit fields of the format.
pub proof fn encoded_pages_decode(bytes: Seq<u8>, enc: PageEncoding, col: Column)
    requires
        is_page(bytes, enc, col),
        col.row_count() <= MAX_PAGE_ROWS,
        lengths_fit(bytes, enc, col),
    ensures
        page_parse(enc, bytes) == Ok::<Column, ErrorView>(stored(col)),
{
    match (enc, col) {
        (PageEncoding::Dict, Column::Strings(rows)) => {
            lemma_small_dict_page(bytes, rows);
        },
        (PageEncoding::Gorilla, Column::F64(v)) => {
            lemma_gorilla_page_len(v);
        },
        _ => {},
    }
    page_round_trip(bytes, enc, col);
}

proof fn lemma_blob_count(bytes: Seq<u8>, n: nat, t: BlobTexts)
    ensures
        blob_rows(bytes, n, t) matches Ok(rows) ==> rows.len() == n,
    decreases n,
{
    if n > 0 && bytes.len() >= 4 {
        let len = le(bytes.subrange(0, 4)) as int;
        if bytes.len() - 4 >= len {
            lemma_blob_count(bytes.skip(4 + len), (n - 1) as nat, t);
        }
    }
}

/// Pages of identifiers and of binary data hold up to a million rows and no more.
pub proof fn pages_hold_up_to_a_million_rows(bytes: Seq<u8>, enc: PageEncoding, col: Column)
    requires
        enc == PageEncoding::FixedRaw || enc == PageEncoding::Raw || enc == PageEncoding::Zstd,
    ensures
        page_parse(enc, bytes) matches Ok(c) ==> c.row_count() <= 1_000_000,
        is_page(bytes, enc, col) && lengths_fit(bytes, enc, col) && col.row_count() <= 1_000_000
            ==> page_parse(enc, bytes) == Ok::<Column, ErrorView>(stored(col)),
{
    if enc == PageEncoding::Raw {
        lemma_blob_count(bytes.skip(4), le(bytes.subrange(0, 4)), raw_texts());
    }
    if enc == PageEncoding::Zstd {
        if let Ok(raw) = zstd_content(bytes) {
            lemma_blob_count(raw.skip(4), le(raw.subrange(0, 4)), zstd_texts());
        }
    }
    if is_page(bytes, enc, col) && lengths_fit(bytes, enc, col) && col.row_count() <= 1_000_000 {
        encoded_pages_decode(bytes, enc, col);
    }
}

proof fn lemma_blob_row(
    bytes: Seq<u8>,
    n: nat,
    t: BlobTexts,
    rows: Seq<Seq<u8>>,
    idx: int,
    cut: Seq<char>,
    missing: Seq<char>,
)
    requires
        blob_rows(bytes, n, t) == Ok::<Seq<Seq<u8>>, Seq<char>>(rows),
        0 <= idx < n,
    ensures
        rows.len() == n,
        blob_row(bytes, n, idx, cut, missing) == Ok::<Seq<u8>, Seq<char>>(rows[idx]),
    decreases n,
{
    let len = le(bytes.subrange(0, 4)) as int;
    let rest = blob_rows(bytes.skip(4 + len), (n - 1) as nat, t)->Ok_0;
    lemma_blob_rows_len(bytes, n, t);
    if idx > 0 {
        lemma_blob_row(bytes.skip(4 + len), (n - 1) as nat, t, rest, idx - 1, cut, missing);
        assert(rows[idx] == rest[idx - 1]);
    }
}

proof fn lemma_blob_rows_len(bytes: Seq<u8>, n: nat, t: BlobTexts)
    ensures
        blob_rows(bytes, n, t) matches Ok(rows) ==> rows.len() == n,
    decreases n,
{
    if n > 0 && bytes.len() >= 4 {
        let len = le(bytes.subrange(0, 4)) as int;
        lemma_blob_rows_len(bytes.skip(4 + len), (n - 1) as nat, t);
    }
}

/// A row decoded alone is the row of the decoded page.
pub proof fn one_row_agrees(enc: PageEncoding, page: Seq<u8>, idx: int)
    requires
        page_parse(enc, page) is Ok,
        0 <= idx < page_parse(enc, page)->Ok_0.row_count(),
    ensures
        page_row(enc, page, idx) == Ok::<crate::format::page::Row, ErrorView>(
            page_parse(enc, page)->Ok_0.row(idx),
        ),
{
    let col = page_parse(enc, page)->Ok_0;
    match enc {
        PageEncoding::FsstWithOffsets => {
            let p = fsst_parse(page)->Ok_0;
            lemma_rows_of_range(p, 0, p.row_count(), col->Strings_0);
        },
        PageEncoding::Zstd => {
            let raw = crate::outside::codecs::zstd_content(page)->Ok_0;
            let n = le(raw.subrange(0, 4));
            lemma_blob_rows_len(raw.skip(4), n, zstd_texts());
            lemma_blob_row(
                raw.skip(4),
                n,
                zstd_texts(),
                col->Bytes_0,
                idx,
                "zstd one-row truncated"@,
                "zstd row idx "@ + crate::text::decimal(idx as nat) + " not found"@,
            );
        },
        PageEncoding::Raw => {
            let n = le(page.subrange(0, 4));
            lemma_blob_rows_len(page.skip(4), n, raw_texts());
            lemma_blob_row(
                page.skip(4),
                n,
                raw_texts(),
                col->Bytes_0,
                idx,
                "raw one-row truncated"@,
                "raw row idx "@ + crate::text::decimal(idx as nat) + " not found"@,
            );
        },
        _ => {},
    }
}

/// An opened page has the rows of the decoded page.
pub proof fn page_view_agrees(enc: PageEncoding, page: Seq<u8>, idx: int)
    requires
        page_parse(enc, page) is Ok,
        0 <= idx < page_parse(enc, page)->Ok_0.row_count(),
    ensures
        page_open(enc, page) matches Ok(content) && content.row_count() == page_parse(
            enc,
            page,
        )->Ok_0.row_count() && content.row(idx) == Ok::<crate::format::page::Row, ErrorView>(
            page_parse(enc, page)->Ok_0.row(idx),
        ),
{
    let col = page_parse(enc, page)->Ok_0;
    match enc {
        PageEncoding::FsstWithOffsets => {
            let p = fsst_parse(page)->Ok_0;
            lemma_rows_of_range(p, 0, p.row_count(), col->Strings_0);
        },
        PageEncoding::FixedRaw => {
            let body = page.skip(4);
            assert(page.subrange(4 + idx * 16, 4 + idx * 16 + 16) =~= body.subrange(
                idx * 16,
                idx * 16 + 16,
            ));
        },
        _ => {},
    }
}

} // verus!
