use zenithdb::bench::args::{cache_modes, parse_args, ArgsError, CacheMode, NumberFault};
use zenithdb::bench::corpus::{corpus_key, corpus_options, corpus_segment_row};
use zenithdb::bench::rows::{generate_rows, weighted_model, RateTables};
use zenithdb::bench::suite::{default_suite, percentile, trace_suite, Leaderboard, ResultLine};
use zenithdb::bench::workload::{
    append_trace, ingest_batches, workload_span, SpanDraw, TraceDraw, WorkloadConfig,
};
use zenithdb::common::types::{CommitId, PartitionId, SchemaFingerprint, TenantId};
use zenithdb::compactor::key::record_key_le;
use zenithdb::format::meta::SegmentMetadata;

const MODELS: [&str; 8] = [
    "gpt-4o",
    "sonnet-4-7",
    "gpt-5-mini",
    "haiku-4-5",
    "o4-mini",
    "gemini-pro",
    "llama-3-70b",
    "mistral-large",
];

fn rates() -> RateTables {
    RateTables {
        cost_usd: (0..500).map(|i| (i as f64 / 100_000.0).to_bits()).collect(),
        temperature: (0..100).map(|i| (i as f64 / 100.0).to_bits()).collect(),
        top_p: (0..30)
            .map(|i| (0.7 + i as f64 / 100.0).to_bits())
            .collect(),
    }
}

#[test]
fn generated_rows_have_their_exact_values() {
    let rows = generate_rows(30, &MODELS, &rates());
    assert_eq!(rows.len(), 30);
    // Traces of 8, 9 and 10 spans, and three of the next.
    let first: Vec<u128> = rows.iter().map(|r| r.trace_id.to_u128()).collect();
    assert_eq!(first[7], 1);
    assert_eq!(first[8], 2);
    assert_eq!(first[16], 2);
    assert_eq!(first[17], 3);
    assert_eq!(first[27], 4);
    let r = &rows[9];
    assert_eq!(r.span_id.to_u128(), (2 << 32) | 1);
    assert_eq!(r.parent_span_id.unwrap().to_u128(), 2 << 32);
    assert!(rows[8].parent_span_id.is_none());
    assert_eq!(r.start_time_ms, 1_700_000_001_100);
    assert_eq!(r.duration_ms, 34);
    assert_eq!(r.end_time_ms, r.start_time_ms + 34);
    assert_eq!(r.model.as_deref(), Some("gpt-4o"));
    assert_eq!(r.status.as_deref(), Some("ok"));
    assert_eq!(rows[25].status.as_deref(), Some("error"));
    assert_eq!(rows[11].provider.as_deref(), Some("anthropic"));
    assert_eq!(r.span_type.as_deref(), Some("retrieval"));
    assert_eq!(r.tool_name.as_deref(), Some("tool-09"));
    assert_eq!(
        r.prompt.as_deref(),
        Some("What is the time complexity of this algorithm?")
    );
    assert_eq!(
        r.completion.as_deref(),
        Some("A mutex grants exclusive access while a rwlock allows multiple readers.")
    );
    assert_eq!(r.prompt_tokens, Some(29));
    assert_eq!(r.completion_tokens, Some(24));
    assert_eq!(r.cost_usd, Some((9.0f64 / 100_000.0).to_bits()));
    assert_eq!(r.user_id.as_deref(), Some("u-9"));
    assert_eq!(r.session_id.as_deref(), Some("s-1"));
    assert_eq!(r.request_id.as_deref(), Some("r-9"));
    assert!(r.tool_io_text.is_none());
    assert_eq!(rows[7].tool_io_text.as_deref(), Some("tool output row 7"));
    assert_eq!(r.commit_id, CommitId(10));
    assert_eq!(
        String::from_utf8(r.metadata.clone().unwrap()).unwrap(),
        "{\"output\":{\"steps\":[{\"name\":\"summarize\"}]},\"request_id\":\"r-9\",\"tier\":\"primary\",\"user_id\":\"u-9\"}"
    );
    for w in rows.windows(2) {
        assert!(record_key_le(&w[0], &w[1]));
    }
    assert!(generate_rows(0, &MODELS, &rates()).is_empty());
}

#[test]
fn models_by_weight() {
    let models = ["a", "b", "c", "d", "e", "f", "g", "h"];
    let want = [
        (0, "a"),
        (49, "a"),
        (50, "b"),
        (69, "b"),
        (70, "c"),
        (80, "d"),
        (87, "d"),
        (88, "e"),
        (93, "f"),
        (97, "g"),
        (98, "g"),
        (99, "h"),
        (100, "a"),
    ];
    for (n, m) in want {
        assert_eq!(weighted_model(n, &models), m);
    }
}

#[test]
fn suites_have_their_queries() {
    let s = default_suite();
    let names: Vec<&str> = s.queries.iter().map(|q| q.name.as_str()).collect();
    assert_eq!(
        names,
        vec![
            "B2_time_range_attr_filter",
            "B3_fts_common_term",
            "B6_jsonpath_indexed",
            "B8_aggregation_by_model"
        ]
    );
    assert_eq!(
        s.queries[3].sql,
        "SELECT model, count(*) FROM spans GROUP BY model"
    );
    assert_eq!(s.queries[0].tenant_id, 0);
    let t = trace_suite("01ABC");
    assert_eq!(t.queries.len(), 5);
    assert_eq!(
        t.queries[0].sql,
        "SELECT span_id, model FROM spans WHERE trace_id = '01ABC'"
    );
}

#[test]
fn percentiles_of_sorted_samples() {
    let v: Vec<u64> = (0..200).collect();
    assert_eq!(percentile(&v, 50), 100);
    assert_eq!(percentile(&v, 99), 198);
    assert_eq!(percentile(&v, 100), 199);
    assert_eq!(percentile(&[7], 95), 7);
}

#[test]
fn leaderboard_lines() {
    let line = |name: &str| ResultLine {
        name: name.into(),
        p50_us: "10".into(),
        p95_us: "20".into(),
        p99_us: "30".into(),
        n: 4,
    };
    let md = Leaderboard::render(&[line("span_load"), line("x")]);
    assert!(md.starts_with("# ZenithDB Mac Leaderboard\n\n| Benchmark |"));
    assert!(md.contains("| span_load | 10 | 20 | 30 | 4 | 549000 |\n"));
    assert!(md.contains("| x | 10 | 20 | 30 | 4 | (no ref) |\n"));
    assert!(md.contains("\n## Notes\n\n- Brainstore figures"));
    assert!(md.ends_with("are all in effect here.\n"));
}

fn words(s: &str) -> Vec<String> {
    s.split_whitespace().map(|w| w.to_string()).collect()
}

#[test]
fn arguments_are_parsed() {
    let a = parse_args(&vec![]).unwrap();
    assert_eq!(
        (a.rows, a.segment_rows, a.row_group_rows, a.iters),
        (100_000, 50_000, 16_384, 30)
    );
    assert_eq!(a.mode, "hot");
    let a = parse_args(&words(
        "--rows 7 --segment-rows +3 --row-group-rows 2 --iters 0 --mode both --rows 8",
    ))
    .unwrap();
    assert_eq!(
        (a.rows, a.segment_rows, a.row_group_rows, a.iters),
        (8, 3, 2, 0)
    );
    assert_eq!(a.mode, "both");
}

#[test]
fn wrong_arguments_are_told_apart() {
    let text = |s: &str| parse_args(&words(s)).unwrap_err().to_string();
    assert_eq!(text("--rows"), "--rows needs a value");
    assert_eq!(text("--wat"), "--wat needs a value");
    assert_eq!(text("--wat 1"), "unknown argument --wat");
    assert_eq!(text("--rows 0"), "--rows must be > 0");
    assert_eq!(text("--segment-rows 0"), "--segment-rows must be > 0");
    assert_eq!(text("--row-group-rows 0"), "--row-group-rows must be > 0");
    assert!(matches!(
        parse_args(&words("--rows x1")),
        Err(ArgsError::BadNumber(NumberFault::InvalidDigit))
    ));
    assert!(matches!(
        parse_args(&words("--row-group-rows 4294967296")),
        Err(ArgsError::BadNumber(NumberFault::TooLarge))
    ));
    assert!(matches!(
        parse_args(&words("--iters 99999999999999999999")),
        Err(ArgsError::BadNumber(NumberFault::TooLarge))
    ));
}

#[test]
fn numbers_are_refused_in_the_words_of_the_integer_parser() {
    for value in [
        "",
        "+",
        "-",
        "-5",
        "+-5",
        "++5",
        "5 ",
        "0x5",
        "5\u{660}",
        "4294967296",
        "4294967296x",
        "429496729x",
        "42949672950",
        "99999999999999999999999999",
        "99999999999999999999999999x",
    ] {
        let refused = parse_args(&vec!["--row-group-rows".to_string(), value.to_string()]);
        assert_eq!(
            refused.unwrap_err().to_string(),
            value.parse::<u32>().unwrap_err().to_string(),
            "{value}"
        );
    }
    for value in ["+7", "007", "4294967295"] {
        let args = parse_args(&vec!["--row-group-rows".to_string(), value.to_string()]).unwrap();
        assert_eq!(args.row_group_rows, value.parse::<u32>().unwrap());
    }
    let too_large = vec!["--rows".to_string(), "18446744073709551616".to_string()];
    assert_eq!(
        parse_args(&too_large).unwrap_err().to_string(),
        "number too large to fit in target type"
    );
    let largest = vec!["--rows".to_string(), usize::MAX.to_string()];
    assert_eq!(parse_args(&largest).unwrap().rows, usize::MAX);
}

#[test]
fn modes_are_known() {
    assert_eq!(cache_modes("hot").unwrap(), vec![CacheMode::Hot]);
    assert_eq!(cache_modes("cold").unwrap(), vec![CacheMode::Cold]);
    assert_eq!(
        cache_modes("both").unwrap(),
        vec![CacheMode::Hot, CacheMode::Cold]
    );
    assert_eq!(
        cache_modes("warm").unwrap_err().to_string(),
        "unsupported --mode warm; expected hot, cold, or both"
    );
}

fn draw(n: usize) -> TraceDraw {
    let span = |i: u32| SpanDraw {
        model: "gpt-4o".into(),
        span_type: 4,
        status: 2,
        span_id: 100 + i as u128,
        parent_span_id: 200,
        duration_ms: -3,
        prompt: 15,
        completion: 8,
        cost_usd: 1,
        metadata_user: 5,
        metadata_request: 6,
        tool: 7,
        prompt_tokens: 20,
        completion_tokens: 30,
        temperature: 2,
        top_p: 3,
        user: 8,
        session: 9,
        request: 10,
    };
    TraceDraw {
        tenant_id: 3,
        trace_id: 1,
        start_ms: 1000,
        spans: (0..n as u32).map(span).collect(),
    }
}

#[test]
fn drawn_spans_have_their_fields() {
    let t = draw(2);
    let s = workload_span(&t, 1);
    assert_eq!(s.tenant_id, 3);
    assert_eq!(s.trace_id.as_deref(), Some("00000000000000000000000001"));
    assert_eq!(s.start_time_ms, 1100);
    assert_eq!(s.end_time_ms, 1101);
    assert_eq!(s.duration_ms, Some(1));
    assert_eq!(s.span_type.as_deref(), Some("eval_score"));
    assert_eq!(s.status.as_deref(), Some("timeout"));
    assert_eq!(s.model.as_deref(), Some("gpt-4o"));
    assert_eq!(s.tool_name.as_deref(), Some("tool-07"));
    assert_eq!(
        s.completion.as_deref(),
        Some("Here is the decoded JSON: {\"id\":1234,\"role\":\"admin\"}")
    );
    assert_eq!(s.user_id.as_deref(), Some("u-3-8"));
    assert_eq!(
        s.metadata.as_deref(),
        Some("{\"output\":{\"steps\":[{\"name\":\"summarize\"}]},\"request_id\":\"r-6\",\"tier\":\"secondary\",\"user_id\":\"u-3-5\"}")
    );
    assert!(s.parent_span_id.is_some());
    assert!(workload_span(&t, 0).parent_span_id.is_none());
    assert!(s.embedding.is_none());
}

#[test]
fn traces_are_appended_up_to_the_wanted_rows() {
    let mut out = Vec::new();
    append_trace(&mut out, 5, &draw(3));
    assert_eq!(out.len(), 3);
    append_trace(&mut out, 5, &draw(3));
    assert_eq!(out.len(), 5);
    append_trace(&mut out, 5, &draw(3));
    assert_eq!(out.len(), 5);
    assert!(out[3].parent_span_id.is_none());
    let c = WorkloadConfig::default();
    assert_eq!(c.rows, 4_000_000);
    assert_eq!(c.time_window_ms, 7 * 24 * 3600 * 1000);
    assert_eq!(f64::from_bits(c.primary_tenant_share), 0.5);
}

#[test]
fn batches_are_of_one_tenant_and_bounded() {
    let tenants = vec![0, 1, 0, 0, 1, 0, 2, 0];
    let batches = ingest_batches(&tenants, 2);
    let mut of_zero: Vec<usize> = Vec::new();
    let mut total = 0;
    for b in &batches {
        assert!(!b.places.is_empty() && b.places.len() <= 2);
        for p in &b.places {
            assert_eq!(tenants[*p], b.tenant_id);
        }
        if b.tenant_id == 0 {
            of_zero.extend(&b.places);
        }
        total += b.places.len();
    }
    assert_eq!(total, tenants.len());
    assert_eq!(of_zero, vec![0, 2, 3, 5, 7]);
    assert_eq!(batches.iter().filter(|b| b.tenant_id == 0).count(), 3);
    assert!(ingest_batches(&vec![], 4).is_empty());
}

#[test]
fn corpus_rows_and_keys() {
    assert_eq!(corpus_key(7), "bench/segment-000007.zseg");
    assert_eq!(corpus_key(1_234_567), "bench/segment-1234567.zseg");
    assert_eq!(corpus_options(9).row_group_max_rows, 9);
    assert_eq!(corpus_options(9).row_group_max_bytes, 64 * 1024 * 1024);
    let mut meta = SegmentMetadata::new(
        5,
        TenantId(0),
        PartitionId(0),
        SchemaFingerprint(1),
        vec![],
        vec![],
    );
    meta.row_count = 12;
    let row = corpus_segment_row(&meta, 1, 300, 77);
    assert_eq!(row.segment_id, 5);
    assert_eq!(row.object_key, "bench/segment-000001.zseg");
    assert_eq!((row.level, row.byte_count, row.row_count), (1, 300, 12));
    assert_eq!(row.created_at, 77);
    assert!(row.superseded_at.is_none());
}
