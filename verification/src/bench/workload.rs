//! A synthetic workload of agent traces: chance decides what is drawn, and here the draws
//! become spans.
use crate::outside::ids::{base32, ulid_to_string};
use crate::text::{concat2, decimal, decimal_string, digit_string, digits, opt_text};
use vstd::prelude::*;
use vstd::string::*;

verus! {

/// What to generate. The share is held by its bit pattern.
#[derive(Clone, Debug)]
pub struct WorkloadConfig {
    pub rows: usize,
    pub tenants: u32,
    pub primary_tenant_share: u64,
    pub seed: u64,
    pub time_window_ms: i64,
}

impl Default for WorkloadConfig {
    /// Half of the spans belong to the first tenant; the window is a week.
    fn default() -> (r: Self)
        ensures
            r.rows == 4_000_000,
            r.tenants == 10,
            r.primary_tenant_share == 0x3fe0_0000_0000_0000,
            r.seed == 0xc0ff_eec0,
            r.time_window_ms == 604_800_000,
    {
        WorkloadConfig {
            rows: 4_000_000,
            tenants: 10,
            primary_tenant_share: 0x3fe0_0000_0000_0000,
            seed: 0xc0ff_eec0,
            time_window_ms: 604_800_000,
        }
    }
}

pub open spec fn span_types() -> Seq<Seq<char>> {
    seq!["agent_step"@, "llm_call"@, "tool_call"@, "retrieval"@, "eval_score"@]
}

fn span_type(k: usize) -> (r: &'static str)
    requires
        k < 5,
    ensures
        r@ == span_types()[k as int],
{
    let pool: [&'static str; 5] = [
        "agent_step",
        "llm_call",
        "tool_call",
        "retrieval",
        "eval_score",
    ];
    pool[k]
}

pub open spec fn statuses() -> Seq<Seq<char>> {
    seq!["ok"@, "error"@, "timeout"@]
}

fn status(k: usize) -> (r: &'static str)
    requires
        k < 3,
    ensures
        r@ == statuses()[k as int],
{
    let pool: [&'static str; 3] = ["ok", "error", "timeout"];
    pool[k]
}

pub open spec fn prompts() -> Seq<Seq<char>> {
    seq![
        "Summarize the following conversation in 2-3 sentences"@,
        "What is the time complexity of this algorithm?"@,
        "Generate a SQL query that selects the top 10 customers by revenue"@,
        "Compose a polite reply to this customer email"@,
        "Translate this English paragraph to French"@,
        "Out of memory error in retrieval cache during compaction"@,
        "Rate limit exceeded for tier free; please upgrade your plan"@,
        "Explain the difference between mutexes and rwlocks in Rust"@,
        "Decode the base64 string and return the JSON payload"@,
        "Find the bug in this Python function and propose a fix"@,
        "Analyze the user behaviour log and identify churn signals"@,
        "Search for recent papers about retrieval-augmented generation"@,
        "Generate a list of 10 unique product names that follow the brand voice"@,
        "Walk me through how transformers handle long context windows"@,
        "Write a one-paragraph executive summary of the attached PDF"@,
        "Refactor this React component to use the new compiler hooks"@,
    ]
}

fn prompt(k: usize) -> (r: &'static str)
    requires
        k < 16,
    ensures
        r@ == prompts()[k as int],
{
    let pool: [&'static str; 16] = [
        "Summarize the following conversation in 2-3 sentences",
        "What is the time complexity of this algorithm?",
        "Generate a SQL query that selects the top 10 customers by revenue",
        "Compose a polite reply to this customer email",
        "Translate this English paragraph to French",
        "Out of memory error in retrieval cache during compaction",
        "Rate limit exceeded for tier free; please upgrade your plan",
        "Explain the difference between mutexes and rwlocks in Rust",
        "Decode the base64 string and return the JSON payload",
        "Find the bug in this Python function and propose a fix",
        "Analyze the user behaviour log and identify churn signals",
        "Search for recent papers about retrieval-augmented generation",
        "Generate a list of 10 unique product names that follow the brand voice",
        "Walk me through how transformers handle long context windows",
        "Write a one-paragraph executive summary of the attached PDF",
        "Refactor this React component to use the new compiler hooks",
    ];
    pool[k]
}

pub open spec fn completions() -> Seq<Seq<char>> {
    seq![
        "Sure — based on what you described, the user is asking how to ..."@,
        "The complexity is O(n log n) due to the sort operation in the inner loop ..."@,
        "SELECT customer_id, SUM(revenue) AS total FROM orders GROUP BY customer_id ..."@,
        "Hi — thanks for reaching out. I understand the frustration ..."@,
        "Voici la traduction en français de ce paragraphe ..."@,
        "Sorry, the worker exhausted its memory limit while building the segment ..."@,
        "You've reached the request quota for the free tier; upgrading to ..."@,
        "A mutex grants exclusive access; a rwlock allows multiple readers ..."@,
        "Here is the decoded JSON: {\"id\":1234,\"role\":\"admin\"}"@,
        "The bug is on line 14: the index variable is reused across loops ..."@,
    ]
}

fn completion(k: usize) -> (r: &'static str)
    requires
        k < 10,
    ensures
        r@ == completions()[k as int],
{
    let pool: [&'static str; 10] = [
        "Sure — based on what you described, the user is asking how to ...",
        "The complexity is O(n log n) due to the sort operation in the inner loop ...",
        "SELECT customer_id, SUM(revenue) AS total FROM orders GROUP BY customer_id ...",
        "Hi — thanks for reaching out. I understand the frustration ...",
        "Voici la traduction en français de ce paragraphe ...",
        "Sorry, the worker exhausted its memory limit while building the segment ...",
        "You've reached the request quota for the free tier; upgrading to ...",
        "A mutex grants exclusive access; a rwlock allows multiple readers ...",
        "Here is the decoded JSON: {\"id\":1234,\"role\":\"admin\"}",
        "The bug is on line 14: the index variable is reused across loops ...",
    ];
    pool[k]
}

/// What is drawn for a span: the model, places in the pools, identifiers and numbers, with
/// rates by their bit patterns.
pub struct SpanDraw {
    pub model: String,
    pub span_type: usize,
    pub status: usize,
    pub span_id: u128,
    pub parent_span_id: u128,
    pub duration_ms: i64,
    pub prompt: usize,
    pub completion: usize,
    pub cost_usd: u64,
    pub metadata_user: u32,
    pub metadata_request: u32,
    pub tool: u32,
    pub prompt_tokens: u32,
    pub completion_tokens: u32,
    pub temperature: u64,
    pub top_p: u64,
    pub user: u32,
    pub session: u32,
    pub request: u32,
}

impl SpanDraw {
    /// The drawn places lie in the pools.
    pub open spec fn in_pools(self) -> bool {
        self.span_type < 5 && self.status < 3 && self.prompt < 16
            && self.completion < 10
    }

    /// How long the span takes: at least a millisecond.
    pub open spec fn duration(self) -> int {
        if self.duration_ms > 1 {
            self.duration_ms as int
        } else {
            1
        }
    }
}

/// What is drawn for a trace.
pub struct TraceDraw {
    pub tenant_id: u64,
    pub trace_id: u128,
    pub start_ms: i64,
    pub spans: Vec<SpanDraw>,
}

impl TraceDraw {
    /// When the span at place `s` starts.
    pub open spec fn span_start(self, s: int) -> int {
        self.start_ms + s * 100
    }

    /// The drawn places lie in the pools, and no time overflows.
    pub open spec fn valid(self) -> bool {
        forall|s: int|
            0 <= s < self.spans@.len() ==> {
                &&& (#[trigger] self.spans@[s]).in_pools()
                &&& self.span_start(s) + self.spans@[s].duration() <= i64::MAX
            }
    }
}

/// A span as it is sent to a server. Rates are held by their bit patterns and the metadata
/// by its JSON text.
#[derive(Clone, Debug)]
pub struct SpanIn {
    pub tenant_id: u64,
    pub partition_id: u32,
    pub trace_id: Option<String>,
    pub span_id: Option<String>,
    pub parent_span_id: Option<String>,
    pub start_time_ms: i64,
    pub end_time_ms: i64,
    pub duration_ms: Option<i64>,
    pub span_type: Option<String>,
    pub status: Option<String>,
    pub provider: Option<String>,
    pub model: Option<String>,
    pub tool_name: Option<String>,
    pub prompt: Option<String>,
    pub completion: Option<String>,
    pub prompt_tokens: Option<u32>,
    pub completion_tokens: Option<u32>,
    pub cost_usd: Option<u64>,
    pub temperature: Option<u64>,
    pub top_p: Option<u64>,
    pub tool_io_text: Option<String>,
    pub user_id: Option<String>,
    pub session_id: Option<String>,
    pub request_id: Option<String>,
    pub metadata: Option<String>,
    pub embedding: Option<Vec<u32>>,
}

/// The metadata of the span at place `s`, as compact JSON text.
pub open spec fn metadata_text(tenant: u64, s: int, d: SpanDraw) -> Seq<char> {
    "{\"output\":{\"steps\":[{\"name\":\""@ + (if s % 2 == 0 {
        "router"@
    } else {
        "summarize"@
    }) + "\"}]},\"request_id\":\"r-"@ + decimal(d.metadata_request as nat) + "\",\"tier\":\""@ + (
    if tenant == 0 {
        "primary"@
    } else {
        "secondary"@
    }) + "\",\"user_id\":\"u-"@ + decimal(tenant as nat) + "-"@ + decimal(d.metadata_user as nat)
        + "\"}"@
}

/// The decimal numeral of `n` with at least two digits.
pub open spec fn two_digits(n: nat) -> Seq<char> {
    if n < 100 {
        digits(n, 10, 2)
    } else {
        decimal(n)
    }
}

/// `x` is the span at place `s` of a drawn trace.
pub open spec fn is_span_of(x: SpanIn, t: TraceDraw, s: int) -> bool {
    let d = t.spans@[s];
    &&& x.tenant_id == t.tenant_id
    &&& x.partition_id == 0
    &&& opt_text(x.trace_id) == Some(base32(t.trace_id as nat, 26))
    &&& opt_text(x.span_id) == Some(base32(d.span_id as nat, 26))
    &&& opt_text(x.parent_span_id) == (if s > 0 {
        Some(base32(d.parent_span_id as nat, 26))
    } else {
        None
    })
    &&& x.start_time_ms == t.span_start(s)
    &&& x.end_time_ms == t.span_start(s) + d.duration()
    &&& x.duration_ms == Some(d.duration() as i64)
    &&& opt_text(x.span_type) == Some(span_types()[d.span_type as int])
    &&& opt_text(x.status) == Some(statuses()[d.status as int])
    &&& opt_text(x.provider) == Some("openai"@)
    &&& opt_text(x.model) == Some(d.model@)
    &&& opt_text(x.tool_name) == Some("tool-"@ + two_digits(d.tool as nat))
    &&& opt_text(x.prompt) == Some(prompts()[d.prompt as int])
    &&& opt_text(x.completion) == Some(completions()[d.completion as int])
    &&& x.prompt_tokens == Some(d.prompt_tokens)
    &&& x.completion_tokens == Some(d.completion_tokens)
    &&& x.cost_usd == Some(d.cost_usd)
    &&& x.temperature == Some(d.temperature)
    &&& x.top_p == Some(d.top_p)
    &&& x.tool_io_text is None
    &&& opt_text(x.user_id) == Some("u-"@ + decimal(t.tenant_id as nat) + "-"@ + decimal(
        d.user as nat,
    ))
    &&& opt_text(x.session_id) == Some("s-"@ + decimal(d.session as nat))
    &&& opt_text(x.request_id) == Some("r-"@ + decimal(d.request as nat))
    &&& opt_text(x.metadata) == Some(metadata_text(t.tenant_id, s, d))
    &&& x.embedding is None
}

fn metadata(tenant: u64, s: usize, d: &SpanDraw) -> (r: String)
    ensures
        r@ == metadata_text(tenant, s as int, *d),
{
    let mut m = String::from_str("{\"output\":{\"steps\":[{\"name\":\"");
    m.append(
        if s % 2 == 0 {
            "router"
        } else {
            "summarize"
        },
    );
    m.append("\"}]},\"request_id\":\"r-");
    m.append(decimal_string(d.metadata_request as u64).as_str());
    m.append("\",\"tier\":\"");
    m.append(
        if tenant == 0 {
            "primary"
        } else {
            "secondary"
        },
    );
    m.append("\",\"user_id\":\"u-");
    m.append(decimal_string(tenant).as_str());
    m.append("-");
    m.append(decimal_string(d.metadata_user as u64).as_str());
    m.append("\"}");
    m
}

fn user_text(tenant: u64, user: u32) -> (r: String)
    ensures
        r@ == "u-"@ + decimal(tenant as nat) + "-"@ + decimal(user as nat),
{
    let mut u = String::from_str("u-");
    u.append(decimal_string(tenant).as_str());
    u.append("-");
    u.append(decimal_string(user as u64).as_str());
    u
}

fn tool_text(n: u32) -> (r: String)
    ensures
        r@ == "tool-"@ + two_digits(n as nat),
{
    if n < 100 {
        concat2("tool-", digit_string(n as u128, 10, 2).as_str())
    } else {
        concat2("tool-", decimal_string(n as u64).as_str())
    }
}

/// The span at place `s` of a drawn trace.
pub fn workload_span(t: &TraceDraw, s: usize) -> (r: SpanIn)
    requires
        t.valid(),
        s < t.spans@.len(),
    ensures
        is_span_of(r, *t, s as int),
{
    let d = &t.spans[s];
    assert(t.span_start(s as int) + d.duration() <= i64::MAX);
    let duration: i64 = if d.duration_ms > 1 {
        d.duration_ms
    } else {
        1
    };
    let start: i64 = (t.start_ms as i128 + s as i128 * 100) as i64;
    SpanIn {
        tenant_id: t.tenant_id,
        partition_id: 0,
        trace_id: Some(ulid_to_string(t.trace_id)),
        span_id: Some(ulid_to_string(d.span_id)),
        parent_span_id: if s > 0 {
            Some(ulid_to_string(d.parent_span_id))
        } else {
            None
        },
        start_time_ms: start,
        end_time_ms: start + duration,
        duration_ms: Some(duration),
        span_type: Some(String::from_str(span_type(d.span_type))),
        status: Some(String::from_str(status(d.status))),
        provider: Some(String::from_str("openai")),
        model: Some(d.model.clone()),
        tool_name: Some(tool_text(d.tool)),
        prompt: Some(String::from_str(prompt(d.prompt))),
        completion: Some(String::from_str(completion(d.completion))),
        prompt_tokens: Some(d.prompt_tokens),
        completion_tokens: Some(d.completion_tokens),
        cost_usd: Some(d.cost_usd),
        temperature: Some(d.temperature),
        top_p: Some(d.top_p),
        tool_io_text: None,
        user_id: Some(user_text(t.tenant_id, d.user)),
        session_id: Some(concat2("s-", decimal_string(d.session as u64).as_str())),
        request_id: Some(concat2("r-", decimal_string(d.request as u64).as_str())),
        metadata: Some(metadata(t.tenant_id, s, d)),
        embedding: None,
    }
}

/// How many spans of a trace are still wanted.
pub open spec fn wanted(have: nat, rows: nat, spans: nat) -> nat {
    if have >= rows {
        0
    } else if rows - have < spans {
        (rows - have) as nat
    } else {
        spans
    }
}

/// Appends the spans of a drawn trace, up to `rows` in all.
pub fn append_trace(out: &mut Vec<SpanIn>, rows: usize, t: &TraceDraw)
    requires
        t.valid(),
    ensures
        final(out)@.len() == old(out)@.len() + wanted(
            old(out)@.len(),
            rows as nat,
            t.spans@.len(),
        ),
        final(out)@.take(old(out)@.len() as int) == old(out)@,
        forall|s: int|
            0 <= s < final(out)@.len() - old(out)@.len() ==> is_span_of(
                #[trigger] final(out)@[old(out)@.len() + s],
                *t,
                s,
            ),
{
    let ghost before = out@;
    let mut s: usize = 0;
    assert(out@.take(before.len() as int) =~= before);
    while s < t.spans.len() && out.len() < rows
        invariant
            t.valid(),
            before == old(out)@,
            s <= t.spans@.len(),
            out@.len() == before.len() + s,
            before.len() + s <= rows || s == 0,
            out@.take(before.len() as int) == before,
            forall|k: int|
                0 <= k < s ==> is_span_of(#[trigger] out@[before.len() + k], *t, k),
        decreases t.spans@.len() - s,
    {
        out.push(workload_span(t, s));
        s = s + 1;
        assert(out@.take(before.len() as int) =~= before);
    }
}

/// The places of a tenant's spans among the first `n`, in order.
pub open spec fn places_of(tenants: Seq<u64>, tenant: u64, n: nat) -> Seq<int>
    decreases n,
{
    if n == 0 {
        Seq::empty()
    } else {
        let head = places_of(tenants, tenant, (n - 1) as nat);
        if tenants[n - 1] == tenant {
            head.push(n - 1)
        } else {
            head
        }
    }
}

/// A request's spans: a tenant and the places of the spans.
pub struct Batch {
    pub tenant_id: u64,
    pub places: Vec<usize>,
}

/// The places of a tenant's batches, joined.
pub open spec fn joined_places(batches: Seq<Batch>, tenant: u64) -> Seq<int>
    decreases batches.len(),
{
    if batches.len() == 0 {
        Seq::empty()
    } else {
        let head = joined_places(batches.drop_last(), tenant);
        let b = batches.last();
        if b.tenant_id == tenant {
            head + b.places@.map_values(|p: usize| p as int)
        } else {
            head
        }
    }
}

proof fn lemma_joined_grow(batches: Seq<Batch>, b: int, grown: Batch, place: usize, tenant: u64)
    requires
        0 <= b < batches.len(),
        grown.tenant_id == batches[b].tenant_id,
        grown.places@ == batches[b].places@.push(place),
        forall|j: int|
            b < j < batches.len() ==> (#[trigger] batches[j]).tenant_id != grown.tenant_id,
    ensures
        joined_places(batches.update(b, grown), tenant) == (if tenant == grown.tenant_id {
            joined_places(batches, tenant).push(place as int)
        } else {
            joined_places(batches, tenant)
        }),
    decreases batches.len(),
{
    let after = batches.update(b, grown);
    let n = batches.len() - 1;
    if b == n {
        assert(after.drop_last() =~= batches.drop_last());
        assert(grown.places@.map_values(|p: usize| p as int)
            =~= batches[b].places@.map_values(|p: usize| p as int).push(place as int));
        if tenant == grown.tenant_id {
            assert(joined_places(after, tenant) =~= joined_places(batches, tenant).push(
                place as int,
            ));
        }
    } else {
        assert(after.drop_last() =~= batches.drop_last().update(b, grown));
        assert(after.last() == batches.last());
        lemma_joined_grow(batches.drop_last(), b, grown, place, tenant);
    }
}

/// The batches are requests for a tenant's spans: none is empty or over `size`, and of a
/// tenant's batches only the last is under `size`.
pub open spec fn are_batches(batches: Seq<Batch>, size: nat) -> bool {
    &&& forall|j: int| 0 <= j < batches.len() ==> 0 < (#[trigger] batches[j]).places@.len() <= size
    &&& forall|j: int, k: int|
        0 <= j < k < batches.len() && (#[trigger] batches[j]).tenant_id == (
        #[trigger] batches[k]).tenant_id ==> batches[j].places@.len() == size
}

/// Groups spans into requests: each holds at most `size` spans of one tenant, in order.
pub fn ingest_batches(tenants: &Vec<u64>, size: usize) -> (r: Vec<Batch>)
    requires
        size > 0,
    ensures
        are_batches(r@, size as nat),
        forall|t: u64| #[trigger]
            joined_places(r@, t) == places_of(tenants@, t, tenants@.len()),
{
    broadcast use vstd::std_specs::hash::group_hash_axioms;

    let mut open: std::collections::HashMap<u64, usize> = std::collections::HashMap::new();
    let mut batches: Vec<Batch> = Vec::new();
    let mut i: usize = 0;
    while i < tenants.len()
        invariant
            i <= tenants@.len(),
            size > 0,
            are_batches(batches@, size as nat),
            forall|t: u64| #[trigger]
                joined_places(batches@, t) == places_of(tenants@, t, i as nat),
            forall|j: int|
                0 <= j < batches@.len() ==> open@.contains_key((#[trigger] batches@[j]).tenant_id)
                    && j <= open@[batches@[j].tenant_id],
            forall|t: u64| #[trigger]
                open@.contains_key(t) ==> open@[t] < batches@.len()
                    && batches@[open@[t] as int].tenant_id == t,
        decreases tenants@.len() - i,
    {
        broadcast use vstd::std_specs::hash::group_hash_axioms;

        let tenant: u64 = tenants[i];
        let ghost before = batches@;
        let last: Option<usize> = match open.get(&tenant) {
            Some(b) => Some(*b),
            None => None,
        };
        let room: Option<usize> = match last {
            Some(b) => if batches[b].places.len() < size {
                Some(b)
            } else {
                None
            },
            None => None,
        };
        match room {
            Some(b) => {
                batches[b].places.push(i);
                proof {
                    let grown = batches@[b as int];
                    assert(batches@ =~= before.update(b as int, grown));
                    assert forall|t: u64| #[trigger] joined_places(batches@, t) == places_of(
                        tenants@,
                        t,
                        (i + 1) as nat,
                    ) by {
                        lemma_joined_grow(before, b as int, grown, i, t);
                        assert(joined_places(before, t) == places_of(tenants@, t, i as nat));
                    }
                    assert forall|j: int, k: int|
                        0 <= j < k < batches@.len() && (#[trigger] batches@[j]).tenant_id == (
                        #[trigger] batches@[k]).tenant_id implies batches@[j].places@.len()
                        == size by {
                        assert(before[j].tenant_id == before[k].tenant_id);
                    }
                }
            },
            None => {
                let mut places: Vec<usize> = Vec::new();
                places.push(i);
                let n: usize = batches.len();
                batches.push(Batch { tenant_id: tenant, places });
                open.insert(tenant, n);
                proof {
                    let b = batches@.last();
                    assert(batches@.drop_last() =~= before);
                    assert(b.places@.map_values(|p: usize| p as int) =~= seq![i as int]);
                    assert forall|t: u64| #[trigger] joined_places(batches@, t) == places_of(
                        tenants@,
                        t,
                        (i + 1) as nat,
                    ) by {
                        assert(joined_places(before, t) == places_of(tenants@, t, i as nat));
                        if t == tenant {
                            assert(joined_places(batches@, t) =~= joined_places(before, t).push(
                                i as int,
                            ));
                        }
                    }
                    assert forall|j: int, k: int|
                        0 <= j < k < batches@.len() && (#[trigger] batches@[j]).tenant_id == (
                        #[trigger] batches@[k]).tenant_id implies batches@[j].places@.len()
                        == size by {
                        assert(batches@[j] == before[j]);
                        if k < before.len() {
                            assert(batches@[k] == before[k]);
                        } else {
                            assert(last is Some);
                            let l = last->0 as int;
                            assert(j <= l);
                            if j < l {
                                assert(before[j].tenant_id == before[l].tenant_id);
                            }
                        }
                    }
                }
            },
        }
        i = i + 1;
    }
    batches
}

} // verus!
