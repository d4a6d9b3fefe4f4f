//! Foundational identifier and record types.
//!
//! These types are small and `Copy`-friendly. Their layout is stable across schema
//! versions.
use crate::outside::ids::{
    base32, ulid_from_string, ulid_new, ulid_of_text, ulid_to_string, UlidFault,
};
use crate::text::{concat2, digit_string, digits};
use crate::wire::{be, be_bytes, lemma_be_bytes_of_be, lemma_be_of_be_bytes, lemma_pow256_values};
use vstd::prelude::*;

verus! {

/// Tenant identifier (an opaque 64-bit handle assigned by the catalog).
#[derive(Copy, Clone, Eq, PartialEq, Ord, PartialOrd, Hash, Debug, Default, Structural)]
pub struct TenantId(pub u64);

impl TenantId {
    /// `t` and sixteen hexadecimal digits.
    pub open spec fn text(self) -> Seq<char> {
        "t"@ + digits(self.0 as nat, 16, 16)
    }

    pub fn to_string(&self) -> (r: String)
        ensures
            r@ == self.text(),
    {
        concat2("t", digit_string(self.0 as u128, 16, 16).as_str())
    }
}

/// Partition identifier within a tenant.
#[derive(Copy, Clone, Eq, PartialEq, Ord, PartialOrd, Hash, Debug, Default, Structural)]
pub struct PartitionId(pub u32);

impl PartitionId {
    /// `p` and eight hexadecimal digits.
    pub open spec fn text(self) -> Seq<char> {
        "p"@ + digits(self.0 as nat, 16, 8)
    }

    pub fn to_string(&self) -> (r: String)
        ensures
            r@ == self.text(),
    {
        concat2("p", digit_string(self.0 as u128, 16, 8).as_str())
    }
}

/// Monotonic commit identifier per `(tenant, partition)`.
#[derive(Copy, Clone, Eq, PartialEq, Ord, PartialOrd, Hash, Debug, Default, Structural)]
pub struct CommitId(pub u64);

impl CommitId {
    /// `c` and twenty decimal digits.
    pub open spec fn text(self) -> Seq<char> {
        "c"@ + digits(self.0 as nat, 10, 20)
    }

    pub fn to_string(&self) -> (r: String)
        ensures
            r@ == self.text(),
    {
        concat2("c", digit_string(self.0 as u128, 10, 20).as_str())
    }

    pub fn new(v: u64) -> (r: Self)
        ensures
            r == CommitId(v),
    {
        CommitId(v)
    }

    /// The following commit.
    pub fn next(self) -> (r: Self)
        requires
            self.0 < u64::MAX,
        ensures
            r.0 == self.0 + 1,
    {
        CommitId(self.0 + 1)
    }
}

/// The big-endian number in 16 bytes.
pub(crate) fn u128_of_bytes(b: &[u8; 16]) -> (r: u128)
    ensures
        r == be(b@),
{
    let mut acc: u128 = 0;
    let mut i: usize = 0;
    let ghost s = b@;
    assert(s.take(0) =~= Seq::empty());
    while i < 16
        invariant
            i <= 16,
            s == b@,
            acc == be(s.take(i as int)),
        decreases 16 - i,
    {
        proof {
            let longer = s.take(i + 1);
            assert(longer.drop_last() =~= s.take(i as int));
            lemma_be_bytes_of_be(longer);
            lemma_pow256_values();
            crate::wire::lemma_pow256_mono(longer.len(), 16);
        }
        acc = acc * 256 + b[i] as u128;
        i = i + 1;
    }
    assert(s.take(16) =~= s);
    acc
}

/// Sixteen times the byte `b`.
pub(crate) fn filled16(b: u8) -> (r: [u8; 16])
    ensures
        r@ == Seq::new(16, |i: int| b),
{
    let r: [u8; 16] = [b, b, b, b, b, b, b, b, b, b, b, b, b, b, b, b];
    assert(r@ =~= Seq::new(16, |i: int| b));
    r
}

/// The 16 bytes of a big-endian number.
pub(crate) fn bytes_of_u128(x: u128) -> (r: [u8; 16])
    ensures
        r@ == be_bytes(x as nat, 16),
{
    let mut a: [u8; 16] = [0u8; 16];
    let mut rest: u128 = x;
    let mut i: usize = 16;
    let ghost whole = be_bytes(x as nat, 16);
    proof {
        lemma_pow256_values();
        lemma_be_of_be_bytes(x as nat, 16);
        assert(whole.take(16) =~= whole);
    }
    while i > 0
        invariant
            i <= 16,
            whole.len() == 16,
            whole.take(i as int) == be_bytes(rest as nat, i as nat),
            forall|k: int| i <= k < 16 ==> #[trigger] a@[k] == whole[k],
        decreases i,
    {
        proof {
            let here = be_bytes(rest as nat, i as nat);
            assert(here.last() == whole[i - 1]);
            assert(here.drop_last() =~= be_bytes((rest / 256) as nat, (i - 1) as nat));
            assert(whole.take(i - 1) =~= here.drop_last());
        }
        a[i - 1] = (rest % 256) as u8;
        rest = rest / 256;
        i = i - 1;
    }
    assert(a@ =~= whole);
    a
}

/// 128-bit trace identifier, written as a ULID.
#[derive(Copy, Clone, Eq, PartialEq, Ord, PartialOrd, Hash, Debug, Default)]
pub struct TraceId(pub [u8; 16]);

impl TraceId {
    pub fn from_bytes(b: [u8; 16]) -> (r: Self)
        ensures
            r.0 == b,
    {
        TraceId(b)
    }

    pub fn as_bytes(&self) -> (r: &[u8; 16])
        ensures
            *r == self.0,
    {
        &self.0
    }

    /// The big-endian number in the bytes.
    pub fn to_u128(&self) -> (r: u128)
        ensures
            r == be(self.0@),
    {
        u128_of_bytes(&self.0)
    }

    pub fn from_u128(x: u128) -> (r: Self)
        ensures
            r.0@ == be_bytes(x as nat, 16),
    {
        TraceId(bytes_of_u128(x))
    }

    /// A fresh identifier from the clock and a random number.
    pub fn new_random() -> Self {
        Self::from_u128(ulid_new())
    }

    /// The ULID text of the identifier.
    pub fn to_string(&self) -> (r: String)
        ensures
            r@ == base32(be(self.0@), 26),
    {
        ulid_to_string(self.to_u128())
    }

    /// Reads the ULID text of an identifier.
    pub fn parse(s: &str) -> (r: Result<Self, UlidFault>)
        ensures
            match ulid_of_text(s@) {
                Ok(n) => r matches Ok(id) && id.0@ == be_bytes(n, 16),
                Err(f) => r == Err::<TraceId, UlidFault>(f),
            },
    {
        match ulid_from_string(s) {
            Ok(x) => Ok(Self::from_u128(x)),
            Err(f) => Err(f),
        }
    }
}

impl std::str::FromStr for TraceId {
    type Err = UlidFault;

    fn from_str(s: &str) -> (r: Result<Self, UlidFault>)
        ensures
            match ulid_of_text(s@) {
                Ok(n) => r matches Ok(id) && id.0@ == be_bytes(n, 16),
                Err(f) => r == Err::<TraceId, UlidFault>(f),
            },
    {
        Self::parse(s)
    }
}

/// 128-bit span identifier within a trace.
#[derive(Copy, Clone, Eq, PartialEq, Ord, PartialOrd, Hash, Debug, Default)]
pub struct SpanId(pub [u8; 16]);

impl SpanId {
    pub fn from_bytes(b: [u8; 16]) -> (r: Self)
        ensures
            r.0 == b,
    {
        SpanId(b)
    }

    pub fn as_bytes(&self) -> (r: &[u8; 16])
        ensures
            *r == self.0,
    {
        &self.0
    }

    /// The big-endian number in the bytes.
    pub fn to_u128(&self) -> (r: u128)
        ensures
            r == be(self.0@),
    {
        u128_of_bytes(&self.0)
    }

    pub fn from_u128(x: u128) -> (r: Self)
        ensures
            r.0@ == be_bytes(x as nat, 16),
    {
        SpanId(bytes_of_u128(x))
    }

    /// A fresh identifier from the clock and a random number.
    pub fn new_random() -> Self {
        Self::from_u128(ulid_new())
    }

    /// The ULID text of the identifier.
    pub fn to_string(&self) -> (r: String)
        ensures
            r@ == base32(be(self.0@), 26),
    {
        ulid_to_string(self.to_u128())
    }

    /// Reads the ULID text of an identifier.
    pub fn parse(s: &str) -> (r: Result<Self, UlidFault>)
        ensures
            match ulid_of_text(s@) {
                Ok(n) => r matches Ok(id) && id.0@ == be_bytes(n, 16),
                Err(f) => r == Err::<SpanId, UlidFault>(f),
            },
    {
        match ulid_from_string(s) {
            Ok(x) => Ok(Self::from_u128(x)),
            Err(f) => Err(f),
        }
    }
}

impl std::str::FromStr for SpanId {
    type Err = UlidFault;

    fn from_str(s: &str) -> (r: Result<Self, UlidFault>)
        ensures
            match ulid_of_text(s@) {
                Ok(n) => r matches Ok(id) && id.0@ == be_bytes(n, 16),
                Err(f) => r == Err::<SpanId, UlidFault>(f),
            },
    {
        Self::parse(s)
    }
}

/// 128-bit schema fingerprint. Two schemas with the same fingerprint are bit-compatible
/// at the segment-format level.
#[derive(Copy, Clone, Eq, PartialEq, Ord, PartialOrd, Hash, Debug, Default, Structural)]
pub struct SchemaFingerprint(pub u128);

impl SchemaFingerprint {
    /// `sf:` and thirty-two hexadecimal digits.
    pub open spec fn text(self) -> Seq<char> {
        "sf:"@ + digits(self.0 as nat, 16, 32)
    }

    pub fn to_string(&self) -> (r: String)
        ensures
            r@ == self.text(),
    {
        concat2("sf:", digit_string(self.0, 16, 32).as_str())
    }
}

/// Coarse classification of spans used by indexing and aggregation.
#[derive(Copy, Clone, Eq, PartialEq, Ord, PartialOrd, Hash, Debug, Structural)]
pub enum SpanType {
    AgentStep,
    LlmCall,
    ToolCall,
    Retrieval,
    EvalScore,
    Other,
}

impl SpanType {
    pub open spec fn text(self) -> Seq<char> {
        match self {
            SpanType::AgentStep => "agent_step"@,
            SpanType::LlmCall => "llm_call"@,
            SpanType::ToolCall => "tool_call"@,
            SpanType::Retrieval => "retrieval"@,
            SpanType::EvalScore => "eval_score"@,
            SpanType::Other => "other"@,
        }
    }

    pub fn as_str(&self) -> (r: &'static str)
        ensures
            r@ == self.text(),
    {
        match self {
            SpanType::AgentStep => "agent_step",
            SpanType::LlmCall => "llm_call",
            SpanType::ToolCall => "tool_call",
            SpanType::Retrieval => "retrieval",
            SpanType::EvalScore => "eval_score",
            SpanType::Other => "other",
        }
    }
}

#[derive(Copy, Clone, Eq, PartialEq, Ord, PartialOrd, Hash, Debug, Structural)]
pub enum SpanStatus {
    Okay,
    Error,
    Timeout,
    Cancelled,
}

impl SpanStatus {
    pub open spec fn text(self) -> Seq<char> {
        match self {
            SpanStatus::Okay => "ok"@,
            SpanStatus::Error => "error"@,
            SpanStatus::Timeout => "timeout"@,
            SpanStatus::Cancelled => "cancelled"@,
        }
    }

    pub fn as_str(&self) -> (r: &'static str)
        ensures
            r@ == self.text(),
    {
        match self {
            SpanStatus::Okay => "ok",
            SpanStatus::Error => "error",
            SpanStatus::Timeout => "timeout",
            SpanStatus::Cancelled => "cancelled",
        }
    }
}

/// Numbers and 16-byte identifiers stand for each other both ways.
pub proof fn id_bytes_round_trip(x: u128, b: [u8; 16])
    ensures
        be(be_bytes(x as nat, 16)) == x,
        be_bytes(be(b@), 16) == b@,
{
    lemma_pow256_values();
    lemma_be_of_be_bytes(x as nat, 16);
    lemma_be_bytes_of_be(b@);
}

/// The text of an identifier reads back as the identifier.
pub proof fn id_text_round_trip(b: [u8; 16])
    ensures
        ulid_of_text(base32(be(b@), 26)) == Ok::<nat, UlidFault>(be(b@)),
{
    lemma_pow256_values();
    lemma_be_bytes_of_be(b@);
    crate::outside::ids::lemma_base32_back(be(b@));
}

} // verus!
