use rand::{Rng, SeedableRng};
use zenithdb::compress::zstd_page::zstd_compress;
use zenithdb::format::page::{
    decode_page, encode_page, ColumnValues, PageEncoding, MAX_PAGE_ROWS,
};
use zenithdb::format::page_view::{decode_one_row, PageView, RowValue};

#[test]
fn fsst_with_offsets_roundtrip() {
    let rows: Vec<Vec<u8>> = vec![
        b"hello world".to_vec(),
        b"out of memory error".to_vec(),
        b"the quick brown fox jumps".to_vec(),
    ];
    let cv = ColumnValues::StringsOwned(rows.clone());
    let (enc, bytes) = encode_page(cv, PageEncoding::FsstWithOffsets).unwrap();
    assert_eq!(enc, PageEncoding::FsstWithOffsets);
    let decoded = decode_page(enc, &bytes).unwrap();
    match decoded {
        ColumnValues::StringsOwned(v) => {
            assert_eq!(v, rows);
        }
        _ => panic!("wrong variant"),
    }
}

#[test]
fn dict_roundtrip() {
    let rows: Vec<Vec<u8>> = vec![b"gpt-4o".to_vec(), b"haiku".to_vec(), b"gpt-4o".to_vec()];
    let cv = ColumnValues::StringsOwned(rows.clone());
    let (enc, bytes) = encode_page(cv, PageEncoding::Dict).unwrap();
    let decoded = decode_page(enc, &bytes).unwrap();
    match decoded {
        ColumnValues::StringsOwned(v) => {
            assert_eq!(v, rows);
        }
        _ => panic!(),
    }
}

#[test]
fn for_i64_roundtrip() {
    let v = vec![100i64, 101, 102, 200, 50];
    let cv = ColumnValues::I64(v.clone());
    let (enc, bytes) = encode_page(cv, PageEncoding::For).unwrap();
    let decoded = decode_page(enc, &bytes).unwrap();
    match decoded {
        ColumnValues::I64(d) => assert_eq!(d, v),
        _ => panic!(),
    }
}

#[test]
fn fixed16_roundtrip() {
    let v: Vec<[u8; 16]> = (0..10).map(|i| [i as u8; 16]).collect();
    let cv = ColumnValues::Fixed16(v.clone());
    let (enc, bytes) = encode_page(cv, PageEncoding::FixedRaw).unwrap();
    let decoded = decode_page(enc, &bytes).unwrap();
    match decoded {
        ColumnValues::Fixed16(d) => assert_eq!(d, v),
        _ => panic!(),
    }
}

#[test]
fn decode_one_row_late_mat() {
    let rows: Vec<Vec<u8>> = (0..1000).map(|i| format!("row-{i}").into_bytes()).collect();
    let cv = ColumnValues::StringsOwned(rows.clone());
    let (enc, bytes) = encode_page(cv, PageEncoding::FsstWithOffsets).unwrap();
    // Pull row 427 alone.
    let v = decode_one_row(enc, &bytes, 427).unwrap();
    match v {
        RowValue::Bytes(b) => assert_eq!(b, rows[427]),
        _ => panic!(),
    }
}

#[test]
fn zstd_byte_pages_roundtrip() {
    let rows: Vec<Vec<u8>> = (0..50)
        .map(|i| format!("{{\"id\":{i}}}").into_bytes())
        .collect();
    let cv = ColumnValues::BytesOwned(rows.clone());
    let (enc, bytes) = encode_page(cv, PageEncoding::Zstd).unwrap();
    let decoded = decode_page(enc, &bytes).unwrap();
    match decoded {
        ColumnValues::BytesOwned(v) => assert_eq!(v, rows),
        _ => panic!(),
    }
}

/// Raw `BytesOwned` pages encode and decode byte-for-byte.
#[test]
fn raw_byte_pages_roundtrip() {
    let rows: Vec<Vec<u8>> = vec![
        b"alpha".to_vec(),
        Vec::new(),
        b"".to_vec(),
        b"the third row has spaces".to_vec(),
    ];
    let cv = ColumnValues::BytesOwned(rows.clone());
    let (enc, bytes) = encode_page(cv, PageEncoding::Raw).expect("Raw encode");
    assert_eq!(enc, PageEncoding::Raw);
    match decode_page(enc, &bytes).expect("Raw decode") {
        ColumnValues::BytesOwned(v) => assert_eq!(v, rows),
        _ => panic!("expected BytesOwned"),
    }
}

/// RLE i64 pages roundtrip correctly even with long runs.
#[test]
fn rle_i64_roundtrip() {
    let mut v: Vec<i64> = vec![5; 20];
    v.extend(vec![7; 3]);
    v.extend(vec![5; 100]);
    let (enc, bytes) =
        encode_page(ColumnValues::I64(v.clone()), PageEncoding::Rle).expect("Rle encode");
    assert_eq!(enc, PageEncoding::Rle);
    match decode_page(enc, &bytes).expect("Rle decode") {
        ColumnValues::I64(d) => assert_eq!(d, v),
        _ => panic!("expected I64"),
    }
}

/// Gorilla-encoded f64 pages roundtrip.
#[test]
fn gorilla_f64_roundtrip() {
    let v: Vec<f64> = vec![1.0, 1.5, 1.55, 1.555, 2.0, -2.5, 0.0];
    let bits: Vec<u64> = v.iter().map(|x| x.to_bits()).collect();
    let (enc, bytes) = encode_page(ColumnValues::F64(bits.clone()), PageEncoding::Gorilla)
        .expect("Gorilla encode");
    assert_eq!(enc, PageEncoding::Gorilla);
    match decode_page(enc, &bytes).expect("Gorilla decode") {
        ColumnValues::F64(d) => assert_eq!(d, bits),
        _ => panic!("expected F64"),
    }
}

/// U32 column values widen to i64 losslessly through the For encoder.
#[test]
fn u32_for_promotes_to_i64() {
    let v: Vec<u32> = vec![0, 100, 5000, u32::MAX, 42];
    let (enc, bytes) =
        encode_page(ColumnValues::U32(v.clone()), PageEncoding::For).expect("For/U32 encode");
    assert_eq!(enc, PageEncoding::For);
    match decode_page(enc, &bytes).expect("For decode") {
        ColumnValues::I64(d) => {
            let expected: Vec<i64> = v.into_iter().map(|x| x as i64).collect();
            assert_eq!(d, expected);
        }
        _ => panic!("expected I64"),
    }
}

/// FixedRaw with a header claiming N rows but a payload missing all rows
/// returns a structured error rather than panicking on the slice.
#[test]
fn fixed_raw_rejects_truncated_body() {
    // Header says 10 rows of 16 bytes (160 bytes needed) but payload is empty.
    let mut buf = Vec::new();
    buf.extend_from_slice(&10u32.to_le_bytes());
    let err = decode_page(PageEncoding::FixedRaw, &buf).expect_err("expected truncation error");
    let msg = err.to_string();
    assert!(
        msg.contains("FixedRaw page truncated"),
        "expected truncation message, got: {msg}"
    );
}

/// FixedRaw must reject row counts above MAX_PAGE_ROWS without allocating.
#[test]
fn fixed_raw_rejects_oversized_row_count() {
    let mut buf = Vec::new();
    buf.extend_from_slice(&((MAX_PAGE_ROWS + 1) as u32).to_le_bytes());
    let err =
        decode_page(PageEncoding::FixedRaw, &buf).expect_err("expected row-count cap error");
    let msg = err.to_string();
    assert!(
        msg.contains(&format!("> {MAX_PAGE_ROWS} max")),
        "expected MAX_PAGE_ROWS cap message, got: {msg}"
    );
}

/// Raw encoding rejects row counts above MAX_PAGE_ROWS before allocating.
#[test]
fn raw_rejects_oversized_row_count() {
    let mut buf = Vec::new();
    buf.extend_from_slice(&((MAX_PAGE_ROWS as u32) + 1).to_le_bytes());
    let err = decode_page(PageEncoding::Raw, &buf).expect_err("expected Raw cap error");
    let msg = err.to_string();
    assert!(
        msg.contains(&format!("> {MAX_PAGE_ROWS} max")),
        "expected MAX_PAGE_ROWS cap message, got: {msg}"
    );
}

/// Zstd encoding rejects row counts above MAX_PAGE_ROWS in the inner header.
#[test]
fn zstd_rejects_oversized_row_count() {
    // Build an inner Zstd payload whose header claims too many rows, then
    // ZSTD-compress it so decode_page reaches the row-count check.
    let mut inner = Vec::new();
    inner.extend_from_slice(&((MAX_PAGE_ROWS as u32) + 1).to_le_bytes());
    let compressed = zstd_compress(&inner, 3).expect("zstd compress");
    let err = decode_page(PageEncoding::Zstd, &compressed).expect_err("expected Zstd cap");
    let msg = err.to_string();
    assert!(
        msg.contains(&format!("> {MAX_PAGE_ROWS} max")),
        "expected MAX_PAGE_ROWS cap message, got: {msg}"
    );
}

/// FixedRaw with `n = u32::MAX` must reject via the row-count cap (the
/// `checked_mul(16)` guard would also catch wrap-around if the cap were lifted).
#[test]
fn fixed_raw_rejects_u32_max_without_overflow() {
    let mut buf = Vec::new();
    buf.extend_from_slice(&u32::MAX.to_le_bytes());
    let err = decode_page(PageEncoding::FixedRaw, &buf).expect_err("expected error");
    // Must not panic / wrap to a small number; we accept either the row
    // cap or the overflow guard since both protect against the same class
    // of crafted input.
    let msg = err.to_string();
    assert!(
        msg.contains("max") || msg.contains("overflow"),
        "expected cap/overflow message, got: {msg}"
    );
}

/// Empty FixedRaw header (n=0) decodes to an empty Fixed16 vec, not a panic.
#[test]
fn fixed_raw_empty_decodes_to_empty() {
    let mut buf = Vec::new();
    buf.extend_from_slice(&0u32.to_le_bytes());
    match decode_page(PageEncoding::FixedRaw, &buf).expect("empty FixedRaw") {
        ColumnValues::Fixed16(v) => assert!(v.is_empty(), "expected empty Fixed16"),
        _ => panic!("expected Fixed16"),
    }
}

/// A zero-length input page returns a structured "header truncated" error,
/// never a panic, for both Raw and FixedRaw.
#[test]
fn empty_input_returns_structured_error() {
    let err_raw = decode_page(PageEncoding::Raw, &[]).expect_err("Raw empty");
    assert!(
        err_raw.to_string().contains("truncated"),
        "expected truncation error for empty Raw"
    );
    let err_fx = decode_page(PageEncoding::FixedRaw, &[]).expect_err("FixedRaw empty");
    assert!(
        err_fx.to_string().contains("truncated"),
        "expected truncation error for empty FixedRaw"
    );
}

/// `decode_one_row` returns the same value as `decode_page`'s nth element
/// for Raw, FixedRaw, For, and Rle encodings.
#[test]
fn decode_one_row_matches_decode_page() {
    // Raw bytes
    let rows: Vec<Vec<u8>> = (0..8).map(|i| format!("r{i}").into_bytes()).collect();
    let (enc, bytes) =
        encode_page(ColumnValues::BytesOwned(rows.clone()), PageEncoding::Raw).unwrap();
    let full = decode_page(enc, &bytes).unwrap();
    let one = decode_one_row(enc, &bytes, 5).unwrap();
    match (full, one) {
        (ColumnValues::BytesOwned(all), RowValue::Bytes(r5)) => assert_eq!(r5, all[5]),
        _ => panic!("Raw mismatch"),
    }
    // FixedRaw
    let fx: Vec<[u8; 16]> = (0..6).map(|i| [i as u8; 16]).collect();
    let (enc, bytes) =
        encode_page(ColumnValues::Fixed16(fx.clone()), PageEncoding::FixedRaw).unwrap();
    let one = decode_one_row(enc, &bytes, 3).unwrap();
    match one {
        RowValue::Fixed16(r) => assert_eq!(r, fx[3]),
        _ => panic!("FixedRaw mismatch"),
    }
    // For
    let v = vec![10i64, 20, 30, 40];
    let (enc, bytes) = encode_page(ColumnValues::I64(v.clone()), PageEncoding::For).unwrap();
    let one = decode_one_row(enc, &bytes, 2).unwrap();
    match one {
        RowValue::I64(r) => assert_eq!(r, v[2]),
        _ => panic!("For mismatch"),
    }
    // Rle
    let v = vec![7i64; 16];
    let (enc, bytes) = encode_page(ColumnValues::I64(v.clone()), PageEncoding::Rle).unwrap();
    let one = decode_one_row(enc, &bytes, 9).unwrap();
    match one {
        RowValue::I64(r) => assert_eq!(r, v[9]),
        _ => panic!("Rle mismatch"),
    }
}

/// `PageEncoding::try_from_u8` rejects unknown tags with a structured error.
#[test]
fn page_encoding_try_from_unknown_byte() {
    let err = PageEncoding::try_from_u8(99).expect_err("expected unknown encoding error");
    assert!(err.to_string().contains("unknown page encoding"));
}

#[test]
fn arbitrary_bytes_owned_roundtrip() {
    let mut rng = rand::rngs::StdRng::seed_from_u64(4);
    for _ in 0..32 {
        let n = rng.gen_range(1..32);
        let rows: Vec<Vec<u8>> = (0..n)
            .map(|_| {
                let len = rng.gen_range(0..256);
                (0..len).map(|_| rng.gen()).collect()
            })
            .collect();
        for hint in [PageEncoding::Raw, PageEncoding::Zstd] {
            let (enc, bytes) = encode_page(ColumnValues::BytesOwned(rows.clone()), hint).unwrap();
            match decode_page(enc, &bytes).unwrap() {
                ColumnValues::BytesOwned(v) => assert_eq!(v, rows),
                _ => panic!("decoded wrong variant"),
            }
        }
    }
}

#[test]
fn opened_pages_give_the_same_rows() {
    let rows: Vec<Vec<u8>> = (0..20).map(|i| format!("row {}", i % 7).into_bytes()).collect();
    for hint in [
        PageEncoding::Dict,
        PageEncoding::FsstWithOffsets,
        PageEncoding::Raw,
        PageEncoding::Zstd,
    ] {
        let cv = match hint {
            PageEncoding::Dict | PageEncoding::FsstWithOffsets => {
                ColumnValues::StringsOwned(rows.clone())
            }
            _ => ColumnValues::BytesOwned(rows.clone()),
        };
        let (enc, bytes) = encode_page(cv, hint).unwrap();
        let view = PageView::open(enc, &bytes).unwrap();
        assert_eq!(view.row_count(), 20);
        for (i, want) in rows.iter().enumerate() {
            match view.row(i).unwrap() {
                RowValue::Bytes(b) => assert_eq!(&b, want),
                _ => panic!("expected bytes"),
            }
            match decode_one_row(enc, &bytes, i).unwrap() {
                RowValue::Bytes(b) => assert_eq!(&b, want),
                _ => panic!("expected bytes"),
            }
        }
        assert!(view.row(20).is_err());
        assert!(decode_one_row(enc, &bytes, 20).is_err());
    }
}

#[test]
fn encodings_that_do_not_fit_the_values_are_rejected() {
    assert!(encode_page(ColumnValues::I64(vec![1]), PageEncoding::Gorilla).is_err());
    assert!(encode_page(ColumnValues::F64(vec![1]), PageEncoding::Rle).is_err());
}

#[test]
fn decoded_rows_are_owned() {
    for rows in [vec![], vec![b"a".as_slice(), b"", b"bc"]] {
        let owned: Vec<Vec<u8>> = rows.iter().map(|r| r.to_vec()).collect();
        for hint in [PageEncoding::FsstWithOffsets, PageEncoding::Dict] {
            let (enc, page) = encode_page(ColumnValues::Strings(rows.clone()), hint).unwrap();
            match decode_page(enc, &page).unwrap() {
                ColumnValues::StringsOwned(v) => assert_eq!(v, owned),
                other => panic!("{other:?}"),
            }
        }
        for hint in [PageEncoding::Raw, PageEncoding::Zstd] {
            let (enc, page) = encode_page(ColumnValues::Bytes(rows.clone()), hint).unwrap();
            match decode_page(enc, &page).unwrap() {
                ColumnValues::BytesOwned(v) => assert_eq!(v, owned),
                other => panic!("{other:?}"),
            }
        }
    }
}
