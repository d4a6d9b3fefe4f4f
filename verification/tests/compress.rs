use rand::{Rng, SeedableRng};
use zenithdb::compress::bits::{BitReader, BitWriter};
use zenithdb::compress::dict::{DictBuilder, DictDecoder};
use zenithdb::compress::for_bitpack::{for_decompress, for_encode};
use zenithdb::compress::fsst::FsstCompressor;
use zenithdb::compress::gorilla::{gorilla_decompress, gorilla_encode};
use zenithdb::compress::rle::{rle_decompress, rle_encode};
use zenithdb::compress::zstd_page::{zstd_compress, zstd_decompress};
use zenithdb::compress::Encoding;

#[test]
fn small_roundtrip() {
    let mut b = DictBuilder::new();
    for v in &[
        "gpt-4o",
        "sonnet-4-7",
        "gpt-4o",
        "gpt-4o",
        "gpt-5-mini",
    ] {
        b.push(v.as_bytes());
    }
    let bytes = b.finish().unwrap();
    let dec = DictDecoder::open(&bytes).unwrap();
    assert_eq!(dec.row_count, 5);
    assert_eq!(dec.dict.len(), 3);
    assert_eq!(dec.row(0).unwrap(), b"gpt-4o");
    assert_eq!(dec.row(1).unwrap(), b"sonnet-4-7");
    assert_eq!(dec.row(2).unwrap(), b"gpt-4o");
}

#[test]
fn high_cardinality_uses_u32() {
    let mut b = DictBuilder::new();
    for i in 0..70_000 {
        b.push(format!("v{i}").as_bytes());
    }
    let bytes = b.finish().unwrap();
    let dec = DictDecoder::open(&bytes).unwrap();
    assert_eq!(dec.dict.len(), 70_000);
}

#[test]
fn dict_empty_roundtrip() {
    let b = DictBuilder::new();
    let bytes = b.finish().unwrap();
    let dec = DictDecoder::open(&bytes).unwrap();
    assert_eq!(dec.row_count, 0);
    assert!(dec.dict.is_empty());
}

#[test]
fn dictionary_is_sorted_and_rows_are_checked() {
    let mut b = DictBuilder::new();
    for v in ["b", "c", "a", "b", ""] {
        b.push(v.as_bytes());
    }
    assert_eq!(b.dict_size(), 4);
    let bytes = b.finish().unwrap();
    let dec = DictDecoder::open(&bytes).unwrap();
    assert_eq!(
        dec.dict,
        vec![b"".to_vec(), b"a".to_vec(), b"b".to_vec(), b"c".to_vec()]
    );
    assert_eq!(
        dec.iter_rows(),
        vec![&b"b"[..], &b"c"[..], &b"a"[..], &b"b"[..], &b""[..]]
    );
    assert!(dec.row(5).is_err());
    assert!(DictDecoder::open(&bytes[..3]).is_err());
    assert!(DictDecoder::open(&[]).is_err());
}

#[test]
fn for_bitpack_empty_roundtrip() {
    let b = for_encode(&[]);
    let v = for_decompress(&b).unwrap();
    assert!(v.is_empty());
}

#[test]
fn all_equal_uses_zero_width() {
    let v = vec![42i64; 100];
    let b = for_encode(&v);
    // 4 + 1 + 8 = 13 bytes header + zero packed bytes
    assert_eq!(b.len(), 13);
    let d = for_decompress(&b).unwrap();
    assert_eq!(d, v);
}

#[test]
fn monotonic_compresses_well() {
    let v: Vec<i64> = (0..10_000).collect();
    let b = for_encode(&v);
    // 14 bits per value max; 10K * 14 / 8 = ~17 KB, plus 13 bytes header.
    assert!(b.len() < v.len() * 2);
    let d = for_decompress(&b).unwrap();
    assert_eq!(d, v);
}

#[test]
fn negative_values_roundtrip() {
    let v: Vec<i64> = vec![-100, -50, 0, 50, 100, 200];
    let b = for_encode(&v);
    let d = for_decompress(&b).unwrap();
    assert_eq!(d, v);
}

#[test]
fn for_bytes_have_their_exact_value() {
    // Three values over the frame 10: deltas 0, 1 and 3 take two bits each.
    let b = for_encode(&[10, 11, 13]);
    assert_eq!(&b[..4], &[3, 0, 0, 0]);
    assert_eq!(b[4], 2);
    assert_eq!(&b[5..13], &[10, 0, 0, 0, 0, 0, 0, 0]);
    assert_eq!(b.len(), 14);
    assert_eq!(for_decompress(&b).unwrap(), vec![10, 11, 13]);
}

#[test]
fn for_takes_the_full_range() {
    let v = vec![i64::MIN, i64::MAX, 0, -1, 1];
    assert_eq!(for_decompress(&for_encode(&v)).unwrap(), v);
}

#[test]
fn for_rejects_truncated_input() {
    let b = for_encode(&[1, 2, 300]);
    assert!(for_decompress(&b[..b.len() - 1]).is_err());
    assert!(for_decompress(&b[..6]).is_err());
    assert!(for_decompress(&[1, 0]).is_err());
}

#[test]
fn for_random_roundtrip() {
    let mut rng = rand::rngs::StdRng::seed_from_u64(1);
    for _ in 0..64 {
        let n = rng.gen_range(0..500);
        let v: Vec<i64> = (0..n)
            .map(|_| rng.gen_range(-1_000_000_i64..1_000_000_i64))
            .collect();
        assert_eq!(for_decompress(&for_encode(&v)).unwrap(), v);
    }
}

fn sample_corpus() -> Vec<&'static [u8]> {
    vec![
        b"the quick brown fox jumps over the lazy dog".as_slice(),
        b"out of memory error in compaction worker".as_slice(),
        b"rate limit exceeded for tier free; please upgrade".as_slice(),
        b"finished tool call get_user_orders successfully".as_slice(),
        b"the model returned an unexpected response shape".as_slice(),
        b"pre-flight checks passed; entering main loop".as_slice(),
        b"the quick brown fox jumps over the lazy fox".as_slice(),
        b"out of memory while allocating a 16MB chunk".as_slice(),
        b"out of memory error in retrieval cache".as_slice(),
        b"finished tool call get_user_orders with 0 rows".as_slice(),
    ]
}

#[test]
fn roundtrip_small_corpus() {
    let rows = sample_corpus();
    let comp = FsstCompressor::train(&rows);
    let page = comp.encode_page(&rows);
    let view = FsstCompressor::open(&page).unwrap();
    assert_eq!(view.row_count(), rows.len());
    for (i, expected) in rows.iter().enumerate() {
        assert_eq!(view.decode_row(i).unwrap(), *expected);
    }
}

#[test]
fn empty_rows_roundtrip() {
    let rows: Vec<&[u8]> = vec![b"hello", b"", b"world", b"", b""];
    let comp = FsstCompressor::train(&rows);
    let page = comp.encode_page(&rows);
    let view = FsstCompressor::open(&page).unwrap();
    for (i, r) in rows.iter().enumerate() {
        assert_eq!(view.decode_row(i).unwrap(), *r);
    }
}

#[test]
fn compresses_repetitive_text() {
    // FSST should beat raw on repetitive English-like text.
    let mut rows: Vec<&[u8]> = Vec::new();
    for _ in 0..200 {
        rows.extend(sample_corpus());
    }
    let raw_bytes: usize = rows.iter().map(|r| r.len()).sum();
    let comp = FsstCompressor::train(&rows);
    let page = comp.encode_page(&rows);
    let ratio = raw_bytes as f64 / page.len() as f64;
    // 1.5x or better on this corpus is realistic for pure FSST.
    assert!(
        ratio > 1.5,
        "FSST compression ratio {:.2}x not > 1.5x",
        ratio
    );
}

#[test]
fn random_range_decode() {
    let rows = sample_corpus();
    let comp = FsstCompressor::train(&rows);
    let page = comp.encode_page(&rows);
    let view = FsstCompressor::open(&page).unwrap();
    let r = view.decode_range(2, 5).unwrap();
    assert_eq!(r.len(), 3);
    assert_eq!(r[0], rows[2]);
    assert_eq!(r[1], rows[3]);
    assert_eq!(r[2], rows[4]);
}

#[test]
fn fsst_rejects_what_is_out_of_range() {
    let rows = sample_corpus();
    let page = FsstCompressor::train(&rows).encode_page(&rows);
    let view = FsstCompressor::open(&page).unwrap();
    assert!(view.decode_row(rows.len()).is_err());
    // A range is cut to the rows that there are.
    assert_eq!(view.decode_range(8, 99).unwrap().len(), 2);
    assert!(view.decode_range(5, 5).unwrap().is_empty());
    assert!(FsstCompressor::open(&page[..2]).is_err());
    assert!(FsstCompressor::open(&[]).is_err());
}

#[test]
fn fsst_with_an_escaped_byte() {
    // Bytes that no symbol stands for are escaped.
    let rows: Vec<&[u8]> = vec![b"\xff\xfe\x00\x01", b"aaaaaaaa\xff"];
    let page = FsstCompressor::train(&[b"aaaaaaaa".as_slice()]).encode_page(&rows);
    let view = FsstCompressor::open(&page).unwrap();
    assert_eq!(view.decode_row(0).unwrap(), rows[0]);
    assert_eq!(view.decode_row(1).unwrap(), rows[1]);
}

fn bits(v: &[f64]) -> Vec<u64> {
    v.iter().map(|x| x.to_bits()).collect()
}

#[test]
fn gorilla_empty_roundtrip() {
    let bytes = gorilla_encode(&[]).unwrap();
    let v = gorilla_decompress(&bytes).unwrap();
    assert!(v.is_empty());
}

#[test]
fn one_value() {
    let bytes = gorilla_encode(&bits(&[3.7])).unwrap();
    let v = gorilla_decompress(&bytes).unwrap();
    assert_eq!(v, bits(&[3.7]));
}

#[test]
fn smooth_series_roundtrip() {
    let v: Vec<f64> = (0..1000).map(|i| 100.0 + (i as f64) * 0.001).collect();
    let bytes = gorilla_encode(&bits(&v)).unwrap();
    let d = gorilla_decompress(&bytes).unwrap();
    assert_eq!(d, bits(&v));
}

#[test]
fn repeated_values_roundtrip() {
    let v: Vec<f64> = vec![1.0; 1000];
    let bytes = gorilla_encode(&bits(&v)).unwrap();
    let d = gorilla_decompress(&bytes).unwrap();
    assert_eq!(d, bits(&v));
    assert!(bytes.len() < 200);
}

#[test]
fn nan_inf_roundtrip() {
    let v = vec![f64::NAN, f64::INFINITY, f64::NEG_INFINITY, 0.0, -0.0];
    let bytes = gorilla_encode(&bits(&v)).unwrap();
    let d = gorilla_decompress(&bytes).unwrap();
    for (a, b) in d.iter().zip(v.iter()) {
        assert_eq!(*a, b.to_bits());
    }
}

#[test]
fn known_failing_proptest_case() {
    let v = vec![0.0_f64, 3.300253571502073e-197];
    let bytes = gorilla_encode(&bits(&v)).unwrap();
    let d = gorilla_decompress(&bytes).unwrap();
    assert_eq!(d.len(), v.len());
    assert_eq!(d[0], v[0].to_bits());
    assert_eq!(d[1], v[1].to_bits());
}

#[test]
fn gorilla_random_roundtrip() {
    let mut rng = rand::rngs::StdRng::seed_from_u64(2);
    for _ in 0..64 {
        let n = rng.gen_range(0..256);
        let v: Vec<u64> = (0..n).map(|_| rng.gen()).collect();
        let bytes = gorilla_encode(&v).unwrap();
        assert_eq!(gorilla_decompress(&bytes).unwrap(), v);
    }
}

#[test]
fn gorilla_rejects_truncated_input() {
    let bytes = gorilla_encode(&[1, 2, u64::MAX, 5]).unwrap();
    assert!(gorilla_decompress(&bytes[..bytes.len() - 2]).is_err());
    assert!(gorilla_decompress(&[1]).is_err());
}

#[test]
fn rle_empty_roundtrip() {
    let b = rle_encode(&[]);
    let v = rle_decompress(&b).unwrap();
    assert!(v.is_empty());
}

#[test]
fn long_run_compresses() {
    let v = vec![7i64; 10_000];
    let b = rle_encode(&v);
    assert_eq!(b.len(), 4 + 12);
    let d = rle_decompress(&b).unwrap();
    assert_eq!(d, v);
}

#[test]
fn distinct_values_no_compression() {
    let v: Vec<i64> = (0..100).collect();
    let b = rle_encode(&v);
    // 4 (count) + 100 * 12 (pairs)
    assert_eq!(b.len(), 4 + 100 * 12);
    let d = rle_decompress(&b).unwrap();
    assert_eq!(d, v);
}

#[test]
fn rle_random_roundtrip() {
    let mut rng = rand::rngs::StdRng::seed_from_u64(3);
    for _ in 0..64 {
        let n = rng.gen_range(0..500);
        let v: Vec<i64> = (0..n).map(|_| rng.gen_range(-100_i64..100_i64)).collect();
        assert_eq!(rle_decompress(&rle_encode(&v)).unwrap(), v);
    }
}

#[test]
fn rle_rejects_truncated_input() {
    let b = rle_encode(&[1, 1, 2]);
    assert!(rle_decompress(&b[..b.len() - 1]).is_err());
    assert!(rle_decompress(&[0, 0, 0]).is_err());
}

#[test]
fn roundtrip_random_bytes() {
    let mut data = Vec::with_capacity(8192);
    for i in 0..8192 {
        data.push((i % 251) as u8);
    }
    let c = zstd_compress(&data, 3).unwrap();
    let d = zstd_decompress(&c).unwrap();
    assert_eq!(&d[..], &data[..]);
}

#[test]
fn zstd_page_empty_roundtrip() {
    let c = zstd_compress(&[], 3).unwrap();
    let d = zstd_decompress(&c).unwrap();
    assert!(d.is_empty());
}

#[test]
fn compresses_repetitive_bytes() {
    let data = vec![b'A'; 4096];
    let c = zstd_compress(&data, 3).unwrap();
    assert!(c.len() < data.len() / 10);
}

#[test]
fn invalid_input_errors() {
    let bad = vec![0xFF, 0xFE, 0xFD, 0xFC];
    assert!(zstd_decompress(&bad).is_err());
}

#[test]
fn bits_are_written_and_read_back() {
    let mut w = BitWriter::new();
    w.write_bits(0b101, 3);
    w.write_bits(u64::MAX, 64);
    w.write_bits(0, 1);
    w.write_bits(0x3ff, 10);
    let bytes = w.finish();
    let mut r = BitReader::new(&bytes);
    assert_eq!(r.read_bits(3).unwrap(), 0b101);
    assert_eq!(r.read_bits(64).unwrap(), u64::MAX);
    assert_eq!(r.read_bits(1).unwrap(), 0);
    assert_eq!(r.read_bits(10).unwrap(), 0x3ff);
    assert!(r.read_bits(40).is_err());
}

#[test]
fn encodings_have_distinct_tags() {
    let mut seen = 0;
    for b in 0..=255u8 {
        if let Some(e) = Encoding::try_from_u8(b) {
            assert_eq!(e.as_u8(), b);
            seen += 1;
        }
    }
    assert_eq!(seen, 7);
}

#[test]
fn overlong_symbols_are_refused_where_they_are_used() {
    let page = |length: u8| {
        // One symbol; the rows: none of its own, the symbol, an escaped byte.
        let mut p = vec![1u8];
        p.extend_from_slice(b"abcdefgh");
        p.push(length);
        p.extend_from_slice(&3u32.to_le_bytes());
        for offset in [0u32, 0, 1, 3] {
            p.extend_from_slice(&offset.to_le_bytes());
        }
        p.extend_from_slice(&[0, 255, b'x']);
        p
    };
    let good = page(3);
    let view = FsstCompressor::open(&good).unwrap();
    assert_eq!(view.decode_row(1).unwrap(), b"abc");
    let bad = page(9);
    let view = FsstCompressor::open(&bad).unwrap();
    assert_eq!(view.decode_row(0).unwrap(), b"");
    assert_eq!(view.decode_row(2).unwrap(), b"x");
    assert_eq!(
        view.decode_row(1).unwrap_err().to_string(),
        "format: FSST symbol longer than 8 bytes"
    );
}

#[test]
fn training_picks_symbols_for_large_samples() {
    let empty = FsstCompressor::train(&[]).encode_page(&[]);
    assert_eq!(empty[0], 0);
    let row = vec![b'q'; 20_000];
    let page = FsstCompressor::train(&[row.as_slice()]).encode_page(&[row.as_slice()]);
    assert!(page[0] > 0);
    assert!(page.len() < 5_000);
}

#[test]
fn blocks_whose_lengths_overflow_are_refused() {
    let dict_page = |block: &[u8]| {
        let mut p = Vec::new();
        p.extend_from_slice(&1u32.to_le_bytes());
        p.extend_from_slice(&0u32.to_le_bytes());
        p.push(1);
        p.extend_from_slice(&0u32.to_le_bytes());
        p.extend_from_slice(&(block.len() as u32).to_le_bytes());
        p.extend_from_slice(block);
        p
    };
    let block = |start: &[u8], run: usize, last: u8| {
        // A size, the start of a sequence, and the bytes of a length.
        let mut b = vec![1, 0, 0, 0];
        b.extend_from_slice(start);
        b.extend(vec![0xffu8; run]);
        b.push(last);
        b
    };
    let text = |block: &[u8]| match DictDecoder::open(&dict_page(block)) {
        Err(e) => e.to_string(),
        Ok(_) => panic!("expected an error"),
    };
    let overflows = "compress: lz4 decompress: a length overflows";
    // The length of the literals.
    assert_eq!(text(&block(&[0xf0], 16_843_010, 0)), overflows);
    assert_eq!(text(&block(&[0xf0], 16_843_009, 1)), overflows);
    assert_eq!(
        text(&block(&[0xf0], 16_843_009, 0)),
        "compress: lz4 decompress: literal is out of bounds of the input"
    );
    // The length of a match, after one literal and an offset.
    assert_eq!(text(&block(&[0x1f, 7, 1, 0], 16_843_009, 1)), overflows);
    let refused = text(&block(&[0x1f, 7, 1, 0], 16_843_009, 0));
    assert!(refused.starts_with("compress: lz4 decompress: "));
    assert_ne!(refused, overflows);
    // In a later sequence.
    assert_eq!(
        text(&block(&[0x10, 7, 1, 0, 0xf0], 16_843_010, 0)),
        overflows
    );
}

#[test]
fn long_runs_of_literals_are_read() {
    let n: usize = 16_900_000;
    let mut block = (n as u32).to_le_bytes().to_vec();
    block.push(0xf0);
    block.extend(vec![0xffu8; (n - 15) / 255]);
    block.push(((n - 15) % 255) as u8);
    block.extend(vec![0xffu8; n]);
    let mut page = Vec::new();
    page.extend_from_slice(&2u32.to_le_bytes());
    page.extend_from_slice(&0u32.to_le_bytes());
    page.push(1);
    page.extend_from_slice(&0u32.to_le_bytes());
    page.extend_from_slice(&(block.len() as u32).to_le_bytes());
    page.extend_from_slice(&block);
    let decoder = DictDecoder::open(&page).unwrap();
    assert_eq!(decoder.row_count, 2);
    assert_eq!(decoder.keys, vec![255, 255]);
}

#[test]
fn empty_rows_take_no_space_in_an_fsst_page() {
    let samples: Vec<&[u8]> = vec![b"the quick brown fox".as_slice(); 400];
    let comp = FsstCompressor::train(&samples);
    let text: &[u8] = b"the quick brown fox, the quick brown fox";
    let one = comp.encode_page(&[text]);
    let three = comp.encode_page(&[b"".as_slice(), text, b"".as_slice()]);
    // Two more offsets and no more codes.
    assert_eq!(three.len(), one.len() + 8);
    let coded = |rows: &[&[u8]]| comp.encode_page(rows).len() - comp.encode_page(&[]).len();
    assert!(coded(&[text]) < text.len());
}

#[test]
fn a_default_dictionary_builder_is_empty() {
    let b = DictBuilder::default();
    assert_eq!(b.dict_size(), 0);
    let page = b.finish().unwrap();
    assert_eq!(page, DictBuilder::new().finish().unwrap());
    assert_eq!(DictDecoder::open(&page).unwrap().row_count, 0);
}
