//! The queries of a benchmark run and the report on it.
use crate::text::{concat3, decimal, decimal_string, text_eq};
use vstd::prelude::*;
use vstd::string::*;

verus! {

#[derive(Clone, Debug)]
pub struct BenchSuite {
    pub queries: Vec<NamedQuery>,
}

#[derive(Clone, Debug)]
pub struct NamedQuery {
    pub name: String,
    pub sql: String,
    pub tenant_id: u64,
}

impl NamedQuery {
    /// The name, the query and the tenant.
    pub open spec fn view(&self) -> (Seq<char>, Seq<char>, u64) {
        (self.name@, self.sql@, self.tenant_id)
    }
}

/// The contents of a list of queries.
pub open spec fn query_views(q: Seq<NamedQuery>) -> Seq<(Seq<char>, Seq<char>, u64)> {
    Seq::new(q.len(), |i: int| q[i]@)
}

fn query(name: &str, sql: &str) -> (r: NamedQuery)
    ensures
        r@ == (name@, sql@, 0u64),
{
    NamedQuery { name: String::from_str(name), sql: String::from_str(sql), tenant_id: 0 }
}

/// The queries that are run against a server.
pub fn default_suite() -> (r: BenchSuite)
    ensures
        query_views(r.queries@) == seq![
            (
                "B2_time_range_attr_filter"@,
                "SELECT span_id, model, duration_ms, prompt FROM spans WHERE model = 'gpt-4o' AND status = 'error' LIMIT 100"@,
                0u64,
            ),
            (
                "B3_fts_common_term"@,
                "SELECT span_id, prompt FROM spans WHERE text_match(prompt, 'memory') LIMIT 100"@,
                0u64,
            ),
            (
                "B6_jsonpath_indexed"@,
                "SELECT span_id FROM spans WHERE metadata.tier = 'primary' LIMIT 100"@,
                0u64,
            ),
            (
                "B8_aggregation_by_model"@,
                "SELECT model, count(*) FROM spans GROUP BY model"@,
                0u64,
            ),
        ],
{
    let queries: Vec<NamedQuery> = vec![
        query(
            "B2_time_range_attr_filter",
            "SELECT span_id, model, duration_ms, prompt FROM spans WHERE model = 'gpt-4o' AND status = 'error' LIMIT 100",
        ),
        query(
            "B3_fts_common_term",
            "SELECT span_id, prompt FROM spans WHERE text_match(prompt, 'memory') LIMIT 100",
        ),
        query(
            "B6_jsonpath_indexed",
            "SELECT span_id FROM spans WHERE metadata.tier = 'primary' LIMIT 100",
        ),
        query("B8_aggregation_by_model", "SELECT model, count(*) FROM spans GROUP BY model"),
    ];
    assert(query_views(queries@) =~= seq![
        queries@[0]@,
        queries@[1]@,
        queries@[2]@,
        queries@[3]@,
    ]);
    BenchSuite { queries }
}

/// The queries that are run in process, one of them for a trace.
pub fn trace_suite(trace_id: &str) -> (r: BenchSuite)
    ensures
        query_views(r.queries@) == seq![
            (
                "B1_trace_load"@,
                "SELECT span_id, model FROM spans WHERE trace_id = '"@ + trace_id@ + "'"@,
                0u64,
            ),
            (
                "B2_attr_filter"@,
                "SELECT span_id, model, duration_ms FROM spans WHERE model = 'gpt-4o' AND status = 'error' LIMIT 100"@,
                0u64,
            ),
            (
                "B3_fts_memory"@,
                "SELECT span_id, prompt FROM spans WHERE text_match(prompt, 'memory') LIMIT 100"@,
                0u64,
            ),
            (
                "B6_jsonpath"@,
                "SELECT span_id FROM spans WHERE metadata.tier = 'primary' LIMIT 100"@,
                0u64,
            ),
            ("B8_group_by_model"@, "SELECT model, count(*) FROM spans GROUP BY model"@, 0u64),
        ],
{
    let load = concat3("SELECT span_id, model FROM spans WHERE trace_id = '", trace_id, "'");
    let queries: Vec<NamedQuery> = vec![
        query("B1_trace_load", load.as_str()),
        query(
            "B2_attr_filter",
            "SELECT span_id, model, duration_ms FROM spans WHERE model = 'gpt-4o' AND status = 'error' LIMIT 100",
        ),
        query(
            "B3_fts_memory",
            "SELECT span_id, prompt FROM spans WHERE text_match(prompt, 'memory') LIMIT 100",
        ),
        query("B6_jsonpath", "SELECT span_id FROM spans WHERE metadata.tier = 'primary' LIMIT 100"),
        query("B8_group_by_model", "SELECT model, count(*) FROM spans GROUP BY model"),
    ];
    assert(query_views(queries@) =~= seq![
        queries@[0]@,
        queries@[1]@,
        queries@[2]@,
        queries@[3]@,
        queries@[4]@,
    ]);
    BenchSuite { queries }
}

/// The place of a percentile among `len` sorted samples.
pub open spec fn percentile_place(len: nat, pct: nat) -> nat {
    let p = len * pct / 100;
    if p < len {
        p
    } else {
        (len - 1) as nat
    }
}

/// The sample at a percentile of sorted samples.
pub fn percentile(sorted: &[u64], pct: usize) -> (r: u64)
    requires
        sorted@.len() > 0,
        sorted@.len() * pct <= usize::MAX,
    ensures
        r == sorted@[percentile_place(sorted@.len(), pct as nat) as int],
{
    let n: usize = sorted.len();
    let place: usize = n * pct / 100;
    if place < n {
        sorted[place]
    } else {
        sorted[n - 1]
    }
}

/// A line of the report: the percentiles of a benchmark, as numerals in microseconds.
pub struct ResultLine {
    pub name: String,
    pub p50_us: String,
    pub p95_us: String,
    pub p99_us: String,
    pub n: usize,
}

/// The published number that a benchmark is held against.
pub open spec fn reference_text(name: Seq<char>) -> Seq<char> {
    if name == "span_load"@ {
        "549000"@
    } else if name == "B3_fts_common_term"@ {
        "401000"@
    } else if name == "write_flush"@ {
        "1780000"@
    } else {
        "(no ref)"@
    }
}

fn reference(name: &str) -> (r: &'static str)
    ensures
        r@ == reference_text(name@),
{
    if text_eq(name, "span_load") {
        "549000"
    } else if text_eq(name, "B3_fts_common_term") {
        "401000"
    } else if text_eq(name, "write_flush") {
        "1780000"
    } else {
        "(no ref)"
    }
}

/// The table's row for a benchmark.
pub open spec fn line_text(r: ResultLine) -> Seq<char> {
    "| "@ + r.name@ + " | "@ + r.p50_us@ + " | "@ + r.p95_us@ + " | "@ + r.p99_us@ + " | "@
        + decimal(r.n as nat) + " | "@ + reference_text(r.name@) + " |\n"@
}

/// The table's rows.
pub open spec fn lines_text(results: Seq<ResultLine>) -> Seq<char>
    decreases results.len(),
{
    if results.len() == 0 {
        Seq::empty()
    } else {
        lines_text(results.drop_last()) + line_text(results.last())
    }
}

/// Compares results with published numbers.
pub struct Leaderboard;

impl Leaderboard {
    /// The report in Markdown.
    pub fn render(results: &[ResultLine]) -> (r: String)
        ensures
            r@ == "# ZenithDB Mac Leaderboard\n\n"@
                + "| Benchmark | p50 (µs) | p95 (µs) | p99 (µs) | samples | Brainstore Linux p95 (µs, ref) |\n"@
                + "|---|---:|---:|---:|---:|---:|\n"@ + lines_text(results@) + "\n## Notes\n\n"@
                + "- Brainstore figures are from the March/December 2025 announcements on c7gd.* instances (Linux io_uring).\n"@
                + "- These results were measured on Apple M4 Pro / macOS 26 / tokio. We do not run on Brainstore's hardware,\n"@
                + "so absolute numbers are not directly comparable. Trends and ratios are.\n"@
                + "- The 5 'moat' design choices (PAX with per-row offset directories, trace-locality compaction,\n"@
                + "late materialization, Tantivy-as-a-library, and WAL on object storage) are all in effect here.\n"@,
    {
        let mut s = String::from_str("# ZenithDB Mac Leaderboard\n\n");
        s.append(
            "| Benchmark | p50 (µs) | p95 (µs) | p99 (µs) | samples | Brainstore Linux p95 (µs, ref) |\n",
        );
        s.append("|---|---:|---:|---:|---:|---:|\n");
        let ghost head = s@;
        let mut i: usize = 0;
        assert(results@.take(0) =~= Seq::<ResultLine>::empty());
        assert(s@ =~= head + lines_text(results@.take(0)));
        while i < results.len()
            invariant
                i <= results@.len(),
                s@ == head + lines_text(results@.take(i as int)),
            decreases results@.len() - i,
        {
            let r = &results[i];
            let ghost before = s@;
            s.append("| ");
            s.append(r.name.as_str());
            s.append(" | ");
            s.append(r.p50_us.as_str());
            s.append(" | ");
            s.append(r.p95_us.as_str());
            s.append(" | ");
            s.append(r.p99_us.as_str());
            s.append(" | ");
            s.append(decimal_string(r.n as u64).as_str());
            s.append(" | ");
            s.append(reference(r.name.as_str()));
            s.append(" |\n");
            proof {
                assert(s@ =~= before + line_text(*r));
                assert(results@.take(i + 1).drop_last() =~= results@.take(i as int));
                assert(s@ =~= head + lines_text(results@.take(i + 1)));
            }
            i = i + 1;
        }
        assert(results@.take(results@.len() as int) =~= results@);
        s.append("\n## Notes\n\n");
        s.append(
            "- Brainstore figures are from the March/December 2025 announcements on c7gd.* instances (Linux io_uring).\n",
        );
        s.append(
            "- These results were measured on Apple M4 Pro / macOS 26 / tokio. We do not run on Brainstore's hardware,\n",
        );
        s.append("so absolute numbers are not directly comparable. Trends and ratios are.\n");
        s.append(
            "- The 5 'moat' design choices (PAX with per-row offset directories, trace-locality compaction,\n",
        );
        s.append(
            "late materialization, Tantivy-as-a-library, and WAL on object storage) are all in effect here.\n",
        );
        s
    }
}

} // verus!
