//! Deterministic rows of synthetic agent traces.
use crate::common::record::{blank_span, record_spans, Span, SpanRecord};
use crate::common::types::{CommitId, PartitionId, SpanId, TenantId, TraceId};
use crate::compactor::key::{key_le, key_le_transitive, key_sorted};
use crate::order::lex_le;
use crate::rows::copy_bytes;
use crate::text::{concat2, decimal, decimal_string, digit_string, digits};
use crate::wire::{be_bytes, lemma_be_of_be_bytes, lemma_pow256_values, pow256};
use vstd::prelude::*;
use vstd::string::*;
use vstd::utf8::encode_utf8;

verus! {

/// The place of a row's model in a list of eight: half of the rows have the first.
pub open spec fn model_rank(row_no: nat) -> int {
    let m = row_no % 100;
    if m < 50 {
        0
    } else if m < 70 {
        1
    } else if m < 80 {
        2
    } else if m < 88 {
        3
    } else if m < 93 {
        4
    } else if m < 97 {
        5
    } else if m < 99 {
        6
    } else {
        7
    }
}

/// The model of a row.
pub fn weighted_model<'a>(row_no: usize, models: &'a [&str]) -> (r: &'a str)
    requires
        model_rank(row_no as nat) < models@.len(),
    ensures
        r == models@[model_rank(row_no as nat)],
{
    let m: usize = row_no % 100;
    if m < 50 {
        models[0]
    } else if m < 70 {
        models[1]
    } else if m < 80 {
        models[2]
    } else if m < 88 {
        models[3]
    } else if m < 93 {
        models[4]
    } else if m < 97 {
        models[5]
    } else if m < 99 {
        models[6]
    } else {
        models[7]
    }
}

/// How many spans the trace numbered `t` has.
pub open spec fn spans_in_trace(t: nat) -> nat {
    8 + t % 9
}

/// The trace of the row numbered `n`, and the place of the row in it.
pub open spec fn row_place(n: nat) -> (nat, nat)
    decreases n,
{
    if n == 0 {
        (0, 0)
    } else {
        let (t, s) = row_place((n - 1) as nat);
        if s + 1 < spans_in_trace(t) {
            (t, s + 1)
        } else {
            (t + 1, 0)
        }
    }
}

/// The bit patterns of the rates that rows take in turn.
pub struct RateTables {
    /// 500 costs.
    pub cost_usd: Vec<u64>,
    /// 100 temperatures.
    pub temperature: Vec<u64>,
    /// 30 nucleus sizes.
    pub top_p: Vec<u64>,
}

impl RateTables {
    pub open spec fn complete(self) -> bool {
        self.cost_usd@.len() == 500 && self.temperature@.len() == 100 && self.top_p@.len() == 30
    }
}

pub open spec fn prompt_text(k: nat) -> Seq<char> {
    if k == 0 {
        "Summarize the following conversation in 2-3 sentences"@
    } else if k == 1 {
        "What is the time complexity of this algorithm?"@
    } else if k == 2 {
        "Generate a SQL query that selects the top 10 customers by revenue"@
    } else if k == 3 {
        "Out of memory error in retrieval cache during compaction"@
    } else if k == 4 {
        "Rate limit exceeded for tier free; please upgrade your plan"@
    } else if k == 5 {
        "Explain the difference between mutexes and rwlocks in Rust"@
    } else if k == 6 {
        "Search for recent papers about retrieval-augmented generation"@
    } else {
        "Analyze the user behaviour log and identify churn signals"@
    }
}

fn prompt(k: usize) -> (r: &'static str)
    ensures
        r@ == prompt_text(k as nat),
{
    if k == 0 {
        "Summarize the following conversation in 2-3 sentences"
    } else if k == 1 {
        "What is the time complexity of this algorithm?"
    } else if k == 2 {
        "Generate a SQL query that selects the top 10 customers by revenue"
    } else if k == 3 {
        "Out of memory error in retrieval cache during compaction"
    } else if k == 4 {
        "Rate limit exceeded for tier free; please upgrade your plan"
    } else if k == 5 {
        "Explain the difference between mutexes and rwlocks in Rust"
    } else if k == 6 {
        "Search for recent papers about retrieval-augmented generation"
    } else {
        "Analyze the user behaviour log and identify churn signals"
    }
}

pub open spec fn completion_text(k: nat) -> Seq<char> {
    if k == 0 {
        "The request can be answered by checking the relevant trace fields."@
    } else if k == 1 {
        "The complexity is O(n log n) due to the sort operation."@
    } else if k == 2 {
        "SELECT customer_id, SUM(revenue) FROM orders GROUP BY customer_id"@
    } else if k == 3 {
        "The worker exhausted its memory limit while building the segment."@
    } else {
        "A mutex grants exclusive access while a rwlock allows multiple readers."@
    }
}

fn completion(k: usize) -> (r: &'static str)
    ensures
        r@ == completion_text(k as nat),
{
    if k == 0 {
        "The request can be answered by checking the relevant trace fields."
    } else if k == 1 {
        "The complexity is O(n log n) due to the sort operation."
    } else if k == 2 {
        "SELECT customer_id, SUM(revenue) FROM orders GROUP BY customer_id"
    } else if k == 3 {
        "The worker exhausted its memory limit while building the segment."
    } else {
        "A mutex grants exclusive access while a rwlock allows multiple readers."
    }
}

pub open spec fn span_type_text(k: nat) -> Seq<char> {
    if k == 0 {
        "agent_step"@
    } else if k <= 4 {
        "llm_call"@
    } else if k <= 8 {
        "tool_call"@
    } else {
        "retrieval"@
    }
}

fn span_type(k: usize) -> (r: &'static str)
    ensures
        r@ == span_type_text(k as nat),
{
    if k == 0 {
        "agent_step"
    } else if k <= 4 {
        "llm_call"
    } else if k <= 8 {
        "tool_call"
    } else {
        "retrieval"
    }
}

/// The metadata of the row numbered `n`, as compact JSON text.
pub open spec fn metadata_text(n: nat) -> Seq<char> {
    "{\"output\":{\"steps\":[{\"name\":\""@ + (if n % 2 == 0 {
        "router"@
    } else {
        "summarize"@
    }) + "\"}]},\"request_id\":\"r-"@ + decimal(n) + "\",\"tier\":\""@ + (if n % 10 == 0 {
        "secondary"@
    } else {
        "primary"@
    }) + "\",\"user_id\":\"u-"@ + decimal(n % 1000) + "\"}"@
}

fn metadata(n: usize) -> (r: String)
    ensures
        r@ == metadata_text(n as nat),
{
    let mut s = String::from_str("{\"output\":{\"steps\":[{\"name\":\"");
    s.append(
        if n % 2 == 0 {
            "router"
        } else {
            "summarize"
        },
    );
    s.append("\"}]},\"request_id\":\"r-");
    s.append(decimal_string(n as u64).as_str());
    s.append("\",\"tier\":\"");
    s.append(
        if n % 10 == 0 {
            "secondary"
        } else {
            "primary"
        },
    );
    s.append("\",\"user_id\":\"u-");
    s.append(decimal_string((n % 1000) as u64).as_str());
    s.append("\"}");
    s
}

/// The number of the span at place `s` of the trace numbered `t`.
pub open spec fn span_number(t: nat, s: nat) -> nat {
    (t + 1) * 0x1_0000_0000 + s
}

/// When the span at place `s` of the trace numbered `t` starts.
pub open spec fn span_start(t: nat, s: nat) -> nat {
    1_700_000_000_000 + t * 1_000 + s * 100
}

/// The row numbered `n`, with the model out of a list of eight.
pub open spec fn bench_span(n: nat, models: Seq<&str>, rates: RateTables) -> Span {
    let (t, s) = row_place(n);
    let duration = 25 + n % 2_000;
    Span {
        trace_id: be_bytes(t + 1, 16),
        span_id: be_bytes(span_number(t, s), 16),
        parent_span_id: if s == 0 {
            None
        } else {
            Some(be_bytes(span_number(t, (s - 1) as nat), 16))
        },
        start_time_ms: span_start(t, s) as i64,
        duration_ms: duration as i64,
        end_time_ms: (span_start(t, s) + duration) as i64,
        model: Some(models[model_rank(n)]@),
        status: Some(
            if n % 25 == 0 {
                "error"@
            } else {
                "ok"@
            },
        ),
        provider: Some(
            if n % 11 == 0 {
                "anthropic"@
            } else {
                "openai"@
            },
        ),
        span_type: Some(span_type_text(n % 10)),
        tool_name: Some("tool-"@ + digits(n % 50, 10, 2)),
        prompt: Some(prompt_text(n % 8)),
        completion: Some(completion_text(n % 5)),
        prompt_tokens: Some((20 + n % 2_000) as u32),
        completion_tokens: Some((15 + n % 1_500) as u32),
        cost_usd: Some(rates.cost_usd@[(n % 500) as int]),
        temperature: Some(rates.temperature@[(n % 100) as int]),
        top_p: Some(rates.top_p@[(n % 30) as int]),
        user_id: Some("u-"@ + decimal(n % 1_000)),
        session_id: Some("s-"@ + decimal(t % 10_000)),
        request_id: Some("r-"@ + decimal(n)),
        tool_io_text: if n % 7 == 0 {
            Some("tool output row "@ + decimal(n))
        } else {
            None
        },
        metadata: Some(encode_utf8(metadata_text(n))),
        commit_id: CommitId((n + 1) as u64),
        ..blank_span()
    }
}

/// There are at least eight rows to each trace before a row's own.
pub proof fn lemma_place_bounds(n: nat)
    ensures
        row_place(n).0 <= n,
        row_place(n).1 < spans_in_trace(row_place(n).0),
        8 * row_place(n).0 + row_place(n).1 <= n,
    decreases n,
{
    if n > 0 {
        lemma_place_bounds((n - 1) as nat);
    }
}

/// The row numbered `n`, at place `s` of the trace numbered `t`.
fn bench_row(n: usize, t: u64, s: u64, models: &[&str], rates: &RateTables) -> (r: SpanRecord)
    requires
        models@.len() == 8,
        rates.complete(),
        n < MAX_ROWS,
        row_place(n as nat) == (t as nat, s as nat),
    ensures
        r@ == bench_span(n as nat, models@, *rates),
{
    proof {
        lemma_place_bounds(n as nat);
    }
    let mut row = SpanRecord::new(TenantId(0), PartitionId(0));
    row.trace_id = TraceId::from_u128(t as u128 + 1);
    let first: u128 = (t as u128 + 1) * 0x1_0000_0000;
    row.span_id = SpanId::from_u128(first + s as u128);
    row.parent_span_id =
    if s == 0 {
        None
    } else {
        Some(SpanId::from_u128(first + (s - 1) as u128))
    };
    row.start_time_ms = 1_700_000_000_000 + t as i64 * 1_000 + s as i64 * 100;
    row.duration_ms = 25 + (n % 2_000) as i64;
    row.end_time_ms = row.start_time_ms + row.duration_ms;
    row.model = Some(String::from_str(weighted_model(n, models)));
    row.status =
    Some(
        String::from_str(
            if n % 25 == 0 {
                "error"
            } else {
                "ok"
            },
        ),
    );
    row.provider =
    Some(
        String::from_str(
            if n % 11 == 0 {
                "anthropic"
            } else {
                "openai"
            },
        ),
    );
    row.span_type = Some(String::from_str(span_type(n % 10)));
    row.tool_name = Some(concat2("tool-", digit_string((n % 50) as u128, 10, 2).as_str()));
    row.prompt = Some(String::from_str(prompt(n % 8)));
    row.completion = Some(String::from_str(completion(n % 5)));
    row.prompt_tokens = Some(20 + (n % 2_000) as u32);
    row.completion_tokens = Some(15 + (n % 1_500) as u32);
    row.cost_usd = Some(rates.cost_usd[n % 500]);
    row.temperature = Some(rates.temperature[n % 100]);
    row.top_p = Some(rates.top_p[n % 30]);
    row.user_id = Some(concat2("u-", decimal_string((n % 1_000) as u64).as_str()));
    row.session_id = Some(concat2("s-", decimal_string(t % 10_000).as_str()));
    row.request_id = Some(concat2("r-", decimal_string(n as u64).as_str()));
    row.tool_io_text =
    if n % 7 == 0 {
        Some(concat2("tool output row ", decimal_string(n as u64).as_str()))
    } else {
        None
    };
    row.metadata = Some(copy_bytes(metadata(n).as_str().as_bytes()));
    row.commit_id = CommitId(n as u64 + 1);
    assert(row@ =~= bench_span(n as nat, models@, *rates));
    row
}

/// More rows than any machine holds; with fewer, no time overflows.
pub const MAX_ROWS: u64 = 9_000_000_000_000_000;

/// Synthetic rows in segment order: traces of 8 to 16 spans, with models out of a list of
/// eight, the most frequent first.
pub fn generate_rows(target_rows: usize, models: &[&str], rates: &RateTables) -> (r: Vec<
    SpanRecord,
>)
    requires
        models@.len() == 8,
        rates.complete(),
        target_rows <= MAX_ROWS,
    ensures
        r@.len() == target_rows,
        forall|n: int|
            0 <= n < r@.len() ==> (#[trigger] r@[n])@ == bench_span(n as nat, models@, *rates),
        key_sorted(record_spans(r@)),
{
    let mut rows: Vec<SpanRecord> = Vec::new();
    let mut t: u64 = 0;
    let mut s: u64 = 0;
    while rows.len() < target_rows
        invariant
            rows@.len() <= target_rows <= MAX_ROWS,
            models@.len() == 8,
            rates.complete(),
            row_place(rows@.len()) == (t as nat, s as nat),
            forall|n: int|
                0 <= n < rows@.len() ==> (#[trigger] rows@[n])@ == bench_span(n as nat, models@, *rates),
        decreases target_rows - rows@.len(),
    {
        let n: usize = rows.len();
        proof {
            lemma_place_bounds(n as nat);
        }
        rows.push(bench_row(n, t, s, models, rates));
        if s + 1 < 8 + t % 9 {
            s = s + 1;
        } else {
            t = t + 1;
            s = 0;
        }
    }
    proof {
        assert forall|i: int, j: int| 0 <= i < j < rows@.len() implies key_le(
            #[trigger] record_spans(rows@)[i],
            #[trigger] record_spans(rows@)[j],
        ) by {
            generated_rows_are_sorted(i as nat, j as nat, models@, *rates);
        }
    }
    rows
}

proof fn lemma_lex_push(a: Seq<u8>, b: Seq<u8>, x: u8, y: u8)
    requires
        a.len() == b.len(),
    ensures
        lex_le(a.push(x), b.push(y)) == (if a == b {
            x <= y
        } else {
            lex_le(a, b)
        }),
    decreases a.len(),
{
    if a.len() == 0 {
        assert(a =~= b);
        assert(a.push(x).drop_first() =~= Seq::empty());
        assert(b.push(y).drop_first() =~= Seq::empty());
        reveal_with_fuel(lex_le, 2);
    } else {
        assert(a.push(x).drop_first() =~= a.drop_first().push(x));
        assert(b.push(y).drop_first() =~= b.drop_first().push(y));
        lemma_lex_push(a.drop_first(), b.drop_first(), x, y);
        reveal_with_fuel(lex_le, 2);
        if a[0] == b[0] && a.drop_first() == b.drop_first() {
            assert(a =~= seq![a[0]] + a.drop_first());
            assert(b =~= seq![b[0]] + b.drop_first());
        }
    }
}

/// Numbers of the same width are ordered as their bytes, the most significant first.
pub proof fn be_bytes_are_ordered(x: nat, y: nat, n: nat)
    requires
        x < pow256(n),
        y < pow256(n),
    ensures
        lex_le(be_bytes(x, n), be_bytes(y, n)) <==> x <= y,
    decreases n,
{
    if n == 0 {
    } else {
        let m = (n - 1) as nat;
        assert(x / 256 < pow256(m) && y / 256 < pow256(m));
        be_bytes_are_ordered(x / 256, y / 256, m);
        lemma_be_of_be_bytes(x / 256, m);
        lemma_be_of_be_bytes(y / 256, m);
        lemma_lex_push(
            be_bytes(x / 256, m),
            be_bytes(y / 256, m),
            (x % 256) as u8,
            (y % 256) as u8,
        );
    }
}

proof fn lemma_next_row(n: nat, models: Seq<&str>, rates: RateTables)
    requires
        n + 1 < MAX_ROWS,
    ensures
        key_le(bench_span(n, models, rates), bench_span(n + 1, models, rates)),
{
    let (t, s) = row_place(n);
    lemma_place_bounds(n);
    lemma_place_bounds(n + 1);
    lemma_pow256_values();
    lemma_be_of_be_bytes(t + 1, 16);
    lemma_be_of_be_bytes(t + 2, 16);
    if row_place(n + 1).0 == t {
    } else {
        be_bytes_are_ordered(t + 1, t + 2, 16);
    }
}

/// Rows are generated in segment order.
pub proof fn generated_rows_are_sorted(i: nat, j: nat, models: Seq<&str>, rates: RateTables)
    requires
        i < j < MAX_ROWS,
    ensures
        key_le(bench_span(i, models, rates), bench_span(j, models, rates)),
    decreases j - i,
{
    if j == i + 1 {
        lemma_next_row(i, models, rates);
    } else {
        generated_rows_are_sorted(i, (j - 1) as nat, models, rates);
        lemma_next_row((j - 1) as nat, models, rates);
        key_le_transitive(
            bench_span(i, models, rates),
            bench_span((j - 1) as nat, models, rates),
            bench_span(j, models, rates),
        );
    }
}

} // verus!
