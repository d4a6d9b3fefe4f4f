//! What holds of the generated rows, of their grouping into requests and of the report.
use crate::bench::corpus::corpus_key_text;
use crate::bench::rows::{
    bench_span, be_bytes_are_ordered, lemma_place_bounds, model_rank, row_place, RateTables,
    MAX_ROWS,
};
use crate::bench::suite::percentile_place;
use crate::bench::workload::{
    are_batches, is_span_of, joined_places, places_of, wanted, Batch, SpanIn, TraceDraw,
};
use crate::chars::{digits_value, lemma_decimal};
use crate::order::lemma_lex_total;
use crate::outside::ids::lemma_base32_back;
use crate::text::{decimal, digits, opt_text};
use crate::wire::{be_bytes, lemma_pow256_values};
use vstd::prelude::*;
use vstd::string::*;

verus! {

/// The sample at a percentile has that share of the samples before it, to the next whole
/// sample, and from the hundredth percentile on it is the last.
pub proof fn percentiles_split_the_samples(len: nat, pct: nat)
    requires
        len > 0,
    ensures
        percentile_place(len, pct) < len,
        pct < 100 ==> percentile_place(len, pct) * 100 <= len * pct < (percentile_place(len, pct)
            + 1) * 100,
        pct >= 100 ==> percentile_place(len, pct) == len - 1,
{
    if pct < 100 {
        assert(len * pct < len * 100) by (nonlinear_arith)
            requires
                len > 0,
                pct < 100,
        ;
    } else {
        assert(len * pct >= len * 100) by (nonlinear_arith)
            requires
                pct >= 100,
        ;
    }
}

/// Higher percentiles take later samples.
pub proof fn percentiles_are_ordered(len: nat, low: nat, high: nat)
    requires
        len > 0,
        low <= high,
    ensures
        percentile_place(len, low) <= percentile_place(len, high),
{
    assert(len * low <= len * high) by (nonlinear_arith)
        requires
            low <= high,
    ;
}

/// How many of the first `n` rows have the model at place `k`.
pub open spec fn rows_of_model(k: int, n: nat) -> nat
    decreases n,
{
    if n == 0 {
        0
    } else {
        rows_of_model(k, (n - 1) as nat) + (if model_rank((n - 1) as nat) == k {
            1nat
        } else {
            0nat
        })
    }
}

/// How many rows of each hundred have the model at place `k`.
pub open spec fn rows_in_a_hundred(k: int) -> nat {
    seq![50nat, 20, 10, 8, 5, 4, 2, 1][k]
}

/// Of each hundred rows the eight models have 50, 20, 10, 8, 5, 4, 2 and 1.
pub proof fn models_have_their_shares(k: int, hundreds: nat)
    requires
        0 <= k < 8,
    ensures
        rows_of_model(k, 100 * hundreds) == hundreds * rows_in_a_hundred(k),
    decreases hundreds,
{
    if hundreds > 0 {
        let before = (hundreds - 1) as nat;
        models_have_their_shares(k, before);
        lemma_within_a_hundred(k, before, 100);
        let share = rows_in_a_hundred(k);
        assert(hundreds * share == before * share + share) by (nonlinear_arith)
            requires
                hundreds == before + 1,
        ;
        assert(100 * before + 100 == 100 * hundreds);
    } else {
        assert(0 * rows_in_a_hundred(k) == 0) by (nonlinear_arith);
    }
}

proof fn lemma_within_a_hundred(k: int, before: nat, m: nat)
    requires
        0 <= k < 8,
        m <= 100,
    ensures
        ({
            let first = seq![0nat, 50, 70, 80, 88, 93, 97, 99][k];
            let share = rows_in_a_hundred(k);
            rows_of_model(k, 100 * before + m) == rows_of_model(k, 100 * before) + (if m <= first {
                0
            } else if m < first + share {
                m - first
            } else {
                share as int
            })
        }),
    decreases m,
{
    if m > 0 {
        lemma_within_a_hundred(k, before, (m - 1) as nat);
        let n = (100 * before + m - 1) as nat;
        assert(n % 100 == m - 1);
    }
}

/// A generated span ends its duration after it starts.
pub proof fn generated_spans_take_their_time(n: nat, models: Seq<&str>, rates: RateTables)
    requires
        n < MAX_ROWS,
    ensures
        ({
            let span = bench_span(n, models, rates);
            span.duration_ms > 0 && span.end_time_ms == span.start_time_ms + span.duration_ms
        }),
{
    lemma_place_bounds(n);
}

/// A generated span with a parent has the span before it, which belongs to the same trace and
/// starts earlier. A span without one begins a trace.
pub proof fn generated_parents_come_before(n: nat, models: Seq<&str>, rates: RateTables)
    requires
        n + 1 < MAX_ROWS,
    ensures
        bench_span(0, models, rates).parent_span_id is None,
        ({
            let span = bench_span(n, models, rates);
            let next = bench_span(n + 1, models, rates);
            match next.parent_span_id {
                Some(parent) => parent == span.span_id && next.trace_id == span.trace_id
                    && span.start_time_ms < next.start_time_ms,
                None => next.trace_id != span.trace_id,
            }
        }),
{
    lemma_place_bounds(n);
    lemma_place_bounds(n + 1);
    lemma_pow256_values();
    let (t, s) = row_place(n);
    be_bytes_are_ordered(t + 1, t + 2, 16);
    be_bytes_are_ordered(t + 2, t + 1, 16);
}

proof fn lemma_trace_runs(n: nat, k: nat)
    requires
        row_place(n).1 == 0,
        k <= 16,
    ensures
        k < 8 ==> row_place(n + k).0 == row_place(n).0 && row_place(n + k).1 == k,
        row_place(n + k).0 == row_place(n).0 ==> row_place(n + k).1 == k && k < 8 + row_place(n).0
            % 9,
        row_place(n + k).0 >= row_place(n).0,
    decreases k,
{
    if k > 0 {
        lemma_trace_runs(n, (k - 1) as nat);
        assert((n + k - 1) as nat == n + (k - 1) as nat);
    }
}

/// A trace has between eight and sixteen spans, one after the other.
pub proof fn generated_traces_have_eight_to_sixteen_spans(
    n: nat,
    models: Seq<&str>,
    rates: RateTables,
)
    requires
        n + 16 < MAX_ROWS,
        bench_span(n, models, rates).parent_span_id is None,
    ensures
        forall|k: nat|
            k < 8 ==> (#[trigger] bench_span(n + k, models, rates)).trace_id == bench_span(
                n,
                models,
                rates,
            ).trace_id,
        bench_span(n + 16, models, rates).trace_id != bench_span(n, models, rates).trace_id,
{
    assert forall|k: nat| k < 8 implies (#[trigger] bench_span(n + k, models, rates)).trace_id
        == bench_span(n, models, rates).trace_id by {
        lemma_trace_runs(n, k);
    }
    lemma_trace_runs(n, 16);
    lemma_place_bounds(n);
    lemma_place_bounds(n + 16);
    lemma_pow256_values();
    let a = row_place(n).0;
    let b = row_place(n + 16).0;
    be_bytes_are_ordered(a + 1, b + 1, 16);
    be_bytes_are_ordered(b + 1, a + 1, 16);
}

/// Spans of a drawn trace share its tenant and trace, start a tenth of a second after one
/// another, and end their duration after they start. Only the first has no parent.
pub proof fn drawn_spans_follow_one_another(t: TraceDraw, s: int, x: SpanIn, y: SpanIn)
    requires
        t.valid(),
        0 <= s,
        s + 1 < t.spans@.len(),
        is_span_of(x, t, s),
        is_span_of(y, t, s + 1),
    ensures
        x.tenant_id == y.tenant_id,
        opt_text(x.trace_id) == opt_text(y.trace_id),
        y.start_time_ms == x.start_time_ms + 100,
        x.duration_ms matches Some(d) && d >= 1 && x.end_time_ms == x.start_time_ms + d,
        x.parent_span_id is None <==> s == 0,
        y.parent_span_id is Some,
{
    assert(t.spans@[s].in_pools());
}

proof fn lemma_places_of(tenants: Seq<u64>, tenant: u64, n: nat)
    requires
        n <= tenants.len(),
    ensures
        forall|p: int| #[trigger]
            places_of(tenants, tenant, n).contains(p) <==> 0 <= p < n && tenants[p] == tenant,
    decreases n,
{
    if n > 0 {
        let m = (n - 1) as nat;
        lemma_places_of(tenants, tenant, m);
        let head = places_of(tenants, tenant, m);
        let whole = places_of(tenants, tenant, n);
        if tenants[n - 1] == tenant {
            assert forall|p: int| #[trigger] whole.contains(p) <==> 0 <= p < n && tenants[p]
                == tenant by {
                if whole.contains(p) {
                    let k = choose|k: int| 0 <= k < whole.len() && whole[k] == p;
                    if k < head.len() {
                        assert(head[k] == p);
                        assert(head.contains(p));
                    }
                }
                if 0 <= p < m && tenants[p] == tenant {
                    assert(head.contains(p));
                    let k = choose|k: int| 0 <= k < head.len() && head[k] == p;
                    assert(whole[k] == p);
                }
                if p == n - 1 {
                    assert(whole[head.len() as int] == p);
                }
            }
        }
    }
}

proof fn lemma_joined_places(batches: Seq<Batch>, tenant: u64)
    ensures
        forall|p: int| #[trigger]
            joined_places(batches, tenant).contains(p) ==> exists|b: int, k: int|
                0 <= b < batches.len() && batches[b].tenant_id == tenant && 0 <= k
                    < batches[b].places@.len() && #[trigger] batches[b].places@[k] == p,
        forall|b: int, k: int|
            0 <= b < batches.len() && batches[b].tenant_id == tenant && 0 <= k
                < batches[b].places@.len() ==> joined_places(batches, tenant).contains(
                #[trigger] batches[b].places@[k] as int,
            ),
    decreases batches.len(),
{
    if batches.len() > 0 {
        let rest = batches.drop_last();
        lemma_joined_places(rest, tenant);
        let head = joined_places(rest, tenant);
        let whole = joined_places(batches, tenant);
        let n = batches.len() - 1;
        let last = batches.last().places@.map_values(|p: usize| p as int);
        assert forall|p: int| #[trigger] whole.contains(p) implies exists|b: int, k: int|
            0 <= b < batches.len() && batches[b].tenant_id == tenant && 0 <= k
                < batches[b].places@.len() && #[trigger] batches[b].places@[k] == p by {
            let i = choose|i: int| 0 <= i < whole.len() && whole[i] == p;
            if i < head.len() {
                assert(head[i] == p);
                assert(head.contains(p));
                let (b, k) = choose|b: int, k: int|
                    0 <= b < rest.len() && rest[b].tenant_id == tenant && 0 <= k
                        < rest[b].places@.len() && #[trigger] rest[b].places@[k] == p;
                assert(batches[b].places@[k] == p);
            } else {
                assert(last[i - head.len()] == p);
                assert(batches[n].places@[i - head.len()] == p);
            }
        }
        assert forall|b: int, k: int|
            0 <= b < batches.len() && batches[b].tenant_id == tenant && 0 <= k
                < batches[b].places@.len() implies whole.contains(
            #[trigger] batches[b].places@[k] as int,
        ) by {
            let p = batches[b].places@[k] as int;
            if b < n {
                assert(rest[b].places@[k] == p);
                assert(head.contains(p));
                let i = choose|i: int| 0 <= i < head.len() && head[i] == p;
                assert(whole[i] == p);
            } else {
                assert(last[k] == p);
                assert(whole[head.len() + k] == p);
            }
        }
    }
}

/// A request of the tenant holds the span at place `p`.
pub open spec fn is_requested(batches: Seq<Batch>, tenant: u64, p: int) -> bool {
    exists|b: int, k: int|
        0 <= b < batches.len() && batches[b].tenant_id == tenant && 0 <= k
            < batches[b].places@.len() && #[trigger] batches[b].places@[k] == p
}

/// Requests hold spans of their own tenant only, and each span is in one of its tenant's.
pub proof fn requests_hold_their_tenants_spans(tenants: Seq<u64>, size: nat, batches: Seq<Batch>)
    requires
        are_batches(batches, size),
        forall|t: u64| #[trigger]
            joined_places(batches, t) == places_of(tenants, t, tenants.len()),
    ensures
        forall|b: int, k: int|
            0 <= b < batches.len() && 0 <= k < batches[b].places@.len() ==> (
            #[trigger] batches[b].places@[k]) < tenants.len()
                && tenants[batches[b].places@[k] as int] == batches[b].tenant_id,
        forall|p: int|
            0 <= p < tenants.len() ==> #[trigger] is_requested(batches, tenants[p], p),
{
    assert forall|b: int, k: int|
        0 <= b < batches.len() && 0 <= k < batches[b].places@.len() implies (
    #[trigger] batches[b].places@[k]) < tenants.len() && tenants[batches[b].places@[k] as int]
        == batches[b].tenant_id by {
        let t = batches[b].tenant_id;
        lemma_joined_places(batches, t);
        lemma_places_of(tenants, t, tenants.len());
        assert(joined_places(batches, t) == places_of(tenants, t, tenants.len()));
        assert(joined_places(batches, t).contains(batches[b].places@[k] as int));
    }
    assert forall|p: int| 0 <= p < tenants.len() implies #[trigger] is_requested(
        batches,
        tenants[p],
        p,
    ) by {
        let t = tenants[p];
        lemma_joined_places(batches, t);
        lemma_places_of(tenants, t, tenants.len());
        assert(places_of(tenants, t, tenants.len()).contains(p));
        assert(joined_places(batches, t).contains(p));
    }
}

/// A drawn trace is added in full, or up to the rows that are asked for.
pub proof fn traces_fill_up_the_rows(have: nat, rows: nat, spans: nat)
    ensures
        wanted(have, rows, spans) <= spans,
        have <= rows ==> have + wanted(have, rows, spans) <= rows,
        wanted(have, rows, spans) < spans ==> have + wanted(have, rows, spans) >= rows,
        have >= rows ==> wanted(have, rows, spans) == 0,
{
}

proof fn lemma_digits_spell(n: nat, width: nat)
    requires
        n < pow10(width),
    ensures
        digits(n, 10, width).len() == width,
        digits_value(digits(n, 10, width)) == Some(n),
    decreases width,
{
    if width > 0 {
        let w = (width - 1) as nat;
        lemma_digits_spell(n / 10, w);
        assert(digits(n, 10, width).drop_last() =~= digits(n / 10, 10, w));
    }
}

spec fn pow10(n: nat) -> nat
    decreases n,
{
    if n == 0 {
        1
    } else {
        10 * pow10((n - 1) as nat)
    }
}

/// Each segment of a run has a key of its own.
pub proof fn corpus_keys_are_distinct(a: nat, b: nat)
    ensures
        corpus_key_text(a) == corpus_key_text(b) ==> a == b,
        "bench/segment-"@.is_prefix_of(corpus_key_text(a)),
        corpus_key_text(a).skip(corpus_key_text(a).len() - 5) == ".zseg"@,
{
    reveal_strlit("bench/segment-");
    reveal_strlit(".zseg");
    reveal_with_fuel(pow10, 7);
    lemma_decimal(a);
    lemma_decimal(b);
    if a < 1_000_000 {
        lemma_digits_spell(a, 6);
    }
    if b < 1_000_000 {
        lemma_digits_spell(b, 6);
    }
    let x = corpus_key_text(a);
    let y = corpus_key_text(b);
    let p = if a < 1_000_000 { digits(a, 10, 6) } else { decimal(a) };
    let q = if b < 1_000_000 { digits(b, 10, 6) } else { decimal(b) };
    assert(x.subrange(14, x.len() - 5) =~= p);
    assert(y.subrange(14, y.len() - 5) =~= q);
    assert(x.subrange(0, 14) =~= "bench/segment-"@);
    assert(x.skip(x.len() - 5) =~= ".zseg"@);
    assert(digits_value(p) == Some(a) && digits_value(q) == Some(b));
}

/// What two drawn spans have in common shows in the field it was drawn for, and so does what
/// they have not.
pub proof fn draws_show_in_their_fields(
    t: TraceDraw,
    u: TraceDraw,
    s: int,
    k: int,
    x: SpanIn,
    y: SpanIn,
)
    requires
        t.valid(),
        u.valid(),
        0 <= s < t.spans@.len(),
        0 <= k < u.spans@.len(),
        is_span_of(x, t, s),
        is_span_of(y, u, k),
    ensures
        ({
            let d = t.spans@[s];
            let e = u.spans@[k];
            &&& x.tenant_id == y.tenant_id <==> t.tenant_id == u.tenant_id
            &&& opt_text(x.trace_id) == opt_text(y.trace_id) <==> t.trace_id == u.trace_id
            &&& opt_text(x.span_id) == opt_text(y.span_id) <==> d.span_id == e.span_id
            &&& s > 0 && k > 0 ==> (opt_text(x.parent_span_id) == opt_text(y.parent_span_id)
                <==> d.parent_span_id == e.parent_span_id)
            &&& x.prompt_tokens == y.prompt_tokens <==> d.prompt_tokens == e.prompt_tokens
            &&& x.completion_tokens == y.completion_tokens <==> d.completion_tokens
                == e.completion_tokens
            &&& x.cost_usd == y.cost_usd <==> d.cost_usd == e.cost_usd
            &&& x.temperature == y.temperature <==> d.temperature == e.temperature
            &&& x.top_p == y.top_p <==> d.top_p == e.top_p
            &&& opt_text(x.model) == opt_text(y.model) <==> d.model@ == e.model@
            &&& opt_text(x.session_id) == opt_text(y.session_id) <==> d.session == e.session
            &&& opt_text(x.request_id) == opt_text(y.request_id) <==> d.request == e.request
            &&& d.span_type == e.span_type ==> opt_text(x.span_type) == opt_text(y.span_type)
            &&& d.status == e.status ==> opt_text(x.status) == opt_text(y.status)
            &&& d.tool == e.tool ==> opt_text(x.tool_name) == opt_text(y.tool_name)
            &&& d.prompt == e.prompt ==> opt_text(x.prompt) == opt_text(y.prompt)
            &&& d.completion == e.completion ==> opt_text(x.completion) == opt_text(y.completion)
            &&& d.user == e.user && t.tenant_id == u.tenant_id ==> opt_text(x.user_id)
                == opt_text(y.user_id)
        }),
{
    let d = t.spans@[s];
    let e = u.spans@[k];
    lemma_base32_back(t.trace_id as nat);
    lemma_base32_back(u.trace_id as nat);
    lemma_base32_back(d.span_id as nat);
    lemma_base32_back(e.span_id as nat);
    lemma_base32_back(d.parent_span_id as nat);
    lemma_base32_back(e.parent_span_id as nat);
    reveal_strlit("s-");
    reveal_strlit("r-");
    lemma_labelled("s-"@, d.session as nat, e.session as nat);
    lemma_labelled("r-"@, d.request as nat, e.request as nat);
}

proof fn lemma_labelled(label: Seq<char>, a: nat, b: nat)
    ensures
        label + decimal(a) == label + decimal(b) <==> a == b,
{
    lemma_decimal(a);
    lemma_decimal(b);
    let x = label + decimal(a);
    let y = label + decimal(b);
    assert(x.skip(label.len() as int) =~= decimal(a));
    assert(y.skip(label.len() as int) =~= decimal(b));
}

/// Generated values repeat, each after a number of rows of its own: prompt tokens after 2,000,
/// completion tokens after 1,500 and users after 1,000. Requests never repeat, and every
/// twenty-fifth row failed.
pub proof fn generated_values_repeat(n: nat, m: nat, models: Seq<&str>, rates: RateTables)
    requires
        rates.complete(),
    ensures
        ({
            let a = bench_span(n, models, rates);
            let b = bench_span(m, models, rates);
            &&& a.prompt_tokens == b.prompt_tokens <==> n % 2_000 == m % 2_000
            &&& a.completion_tokens == b.completion_tokens <==> n % 1_500 == m % 1_500
            &&& a.user_id == b.user_id <==> n % 1_000 == m % 1_000
            &&& a.request_id == b.request_id <==> n == m
            &&& a.status == Some("error"@) <==> n % 25 == 0
            &&& n % 500 == m % 500 ==> a.cost_usd == b.cost_usd
            &&& n % 100 == m % 100 ==> a.temperature == b.temperature && a.model == b.model
            &&& n % 30 == m % 30 ==> a.top_p == b.top_p
            &&& n % 8 == m % 8 ==> a.prompt == b.prompt
            &&& n % 5 == m % 5 ==> a.completion == b.completion
            &&& n % 10 == m % 10 ==> a.span_type == b.span_type
            &&& n % 50 == m % 50 ==> a.tool_name == b.tool_name
            &&& a.trace_id == b.trace_id ==> a.session_id == b.session_id || n >= MAX_ROWS || m
                >= MAX_ROWS
        }),
{
    reveal_strlit("error");
    reveal_strlit("ok");
    assert("error"@.len() == 5 && "ok"@.len() == 2);
    lemma_labelled("u-"@, n % 1_000, m % 1_000);
    lemma_labelled("r-"@, n, m);
    if n < MAX_ROWS && m < MAX_ROWS {
        lemma_pow256_values();
        lemma_place_bounds(n);
        lemma_place_bounds(m);
        be_bytes_are_ordered(row_place(n).0 + 1, row_place(m).0 + 1, 16);
        be_bytes_are_ordered(row_place(m).0 + 1, row_place(n).0 + 1, 16);
        lemma_lex_total(be_bytes(row_place(n).0 + 1, 16), be_bytes(row_place(n).0 + 1, 16));
    }
}

} // verus!
