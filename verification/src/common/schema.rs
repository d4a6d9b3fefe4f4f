//! Logical schema for spans.
//!
//! The schema is the contract between the writer and the reader. It is identified by a
//! 128-bit fingerprint over a canonical text of the column list, so two writers using
//! the same schema produce bit-compatible segments.
use crate::common::types::SchemaFingerprint;
use crate::order::{is_stable_order, lists, sort_order, stable_before, Ranked};
use crate::outside::hashes::{xxh3_128, xxh3_128_of};
use crate::text::{concat3, decimal, decimal_string, text_eq};
use vstd::prelude::*;
use vstd::string::*;
use vstd::utf8::encode_utf8;

verus! {

/// Logical column type.
#[derive(Copy, Clone, Eq, PartialEq, Hash, Debug, Structural)]
pub enum ColumnType {
    Bool,
    Int32,
    Int64,
    UInt32,
    UInt64,
    Float32,
    Float64,
    Utf8,
    Binary,
    /// Stored as 16-byte fixed.
    TraceId,
    /// Stored as 16-byte fixed.
    SpanId,
    /// Generic JSON; encoded as length-prefixed binary at the storage layer.
    Json,
    /// Fixed-width float vector. The dimension travels with the column spec.
    FloatVector(u32),
    /// Wall-clock millis since epoch.
    TimestampMillis,
}

impl ColumnType {
    /// The name of the type in the canonical text.
    pub open spec fn text(self) -> Seq<char> {
        match self {
            ColumnType::Bool => "Bool"@,
            ColumnType::Int32 => "Int32"@,
            ColumnType::Int64 => "Int64"@,
            ColumnType::UInt32 => "UInt32"@,
            ColumnType::UInt64 => "UInt64"@,
            ColumnType::Float32 => "Float32"@,
            ColumnType::Float64 => "Float64"@,
            ColumnType::Utf8 => "Utf8"@,
            ColumnType::Binary => "Binary"@,
            ColumnType::TraceId => "TraceId"@,
            ColumnType::SpanId => "SpanId"@,
            ColumnType::Json => "Json"@,
            ColumnType::FloatVector(n) => "FloatVector("@ + decimal(n as nat) + ")"@,
            ColumnType::TimestampMillis => "TimestampMillis"@,
        }
    }

    fn name(self) -> (r: String)
        ensures
            r@ == self.text(),
    {
        match self {
            ColumnType::Bool => String::from_str("Bool"),
            ColumnType::Int32 => String::from_str("Int32"),
            ColumnType::Int64 => String::from_str("Int64"),
            ColumnType::UInt32 => String::from_str("UInt32"),
            ColumnType::UInt64 => String::from_str("UInt64"),
            ColumnType::Float32 => String::from_str("Float32"),
            ColumnType::Float64 => String::from_str("Float64"),
            ColumnType::Utf8 => String::from_str("Utf8"),
            ColumnType::Binary => String::from_str("Binary"),
            ColumnType::TraceId => String::from_str("TraceId"),
            ColumnType::SpanId => String::from_str("SpanId"),
            ColumnType::Json => String::from_str("Json"),
            ColumnType::FloatVector(n) => {
                let dim: String = decimal_string(n as u64);
                concat3("FloatVector(", dim.as_str(), ")")
            },
            ColumnType::TimestampMillis => String::from_str("TimestampMillis"),
        }
    }
}

/// Hint to the indexing layer; influences how segments are built.
#[derive(Copy, Clone, Eq, PartialEq, Hash, Debug, Structural)]
pub enum IndexHint {
    /// No additional index. (Zone maps are always built.)
    Plain,
    /// Roaring bitmap posting list. Best for low-medium cardinality.
    Bitmap,
    /// Full-text index over this text column.
    Fts,
    /// JSON-path discovery + indexing.
    JsonPath,
    /// HNSW vector index.
    Hnsw,
}

impl IndexHint {
    /// The name of the hint in the canonical text.
    pub open spec fn text(self) -> Seq<char> {
        match self {
            IndexHint::Plain => "None"@,
            IndexHint::Bitmap => "Bitmap"@,
            IndexHint::Fts => "Fts"@,
            IndexHint::JsonPath => "JsonPath"@,
            IndexHint::Hnsw => "Hnsw"@,
        }
    }

    fn name(self) -> (r: &'static str)
        ensures
            r@ == self.text(),
    {
        match self {
            IndexHint::Plain => "None",
            IndexHint::Bitmap => "Bitmap",
            IndexHint::Fts => "Fts",
            IndexHint::JsonPath => "JsonPath",
            IndexHint::Hnsw => "Hnsw",
        }
    }
}

#[derive(Clone, Debug)]
pub struct ColumnSpec {
    pub name: String,
    pub ty: ColumnType,
    pub nullable: bool,
    pub index: IndexHint,
    /// Sort-key priority. 0 = not part of the sort key; positive = priority order.
    /// The standard span schema uses (1: trace_id, 2: start_time_ms, 3: span_id).
    pub sort_priority: u8,
}

/// The content of a column specification.
pub ghost struct ColumnView {
    pub name: Seq<char>,
    pub ty: ColumnType,
    pub nullable: bool,
    pub index: IndexHint,
    pub sort_priority: u8,
}

impl ColumnView {
    /// The line of the canonical text for this column.
    pub open spec fn line(self) -> Seq<char> {
        self.name + "|"@ + self.ty.text() + "|"@ + (if self.nullable { "n"@ } else { "r"@ }) + "|"@
            + self.index.text() + "|"@ + decimal(self.sort_priority as nat) + "\n"@
    }
}

impl ColumnSpec {
    pub open spec fn view(&self) -> ColumnView {
        ColumnView {
            name: self.name@,
            ty: self.ty,
            nullable: self.nullable,
            index: self.index,
            sort_priority: self.sort_priority,
        }
    }

    /// A nullable column without index that is not part of the sort key.
    pub fn new(name: &str, ty: ColumnType) -> (r: Self)
        ensures
            r@ == plain_column(name@, ty),
    {
        ColumnSpec {
            name: String::from_str(name),
            ty,
            nullable: true,
            index: IndexHint::Plain,
            sort_priority: 0,
        }
    }

    pub fn required(self) -> (r: Self)
        ensures
            r@ == (ColumnView { nullable: false, ..self@ }),
    {
        ColumnSpec {
            name: self.name,
            ty: self.ty,
            nullable: false,
            index: self.index,
            sort_priority: self.sort_priority,
        }
    }

    pub fn with_index(self, h: IndexHint) -> (r: Self)
        ensures
            r@ == (ColumnView { index: h, ..self@ }),
    {
        ColumnSpec {
            name: self.name,
            ty: self.ty,
            nullable: self.nullable,
            index: h,
            sort_priority: self.sort_priority,
        }
    }

    pub fn with_sort_priority(self, p: u8) -> (r: Self)
        ensures
            r@ == (ColumnView { sort_priority: p, ..self@ }),
    {
        ColumnSpec {
            name: self.name,
            ty: self.ty,
            nullable: self.nullable,
            index: self.index,
            sort_priority: p,
        }
    }
}

#[derive(Clone, Debug)]
pub struct Schema {
    pub columns: Vec<ColumnSpec>,
}

pub open spec fn plain_column(name: Seq<char>, ty: ColumnType) -> ColumnView {
    ColumnView { name, ty, nullable: true, index: IndexHint::Plain, sort_priority: 0 }
}

pub open spec fn required_column(name: Seq<char>, ty: ColumnType, priority: u8) -> ColumnView {
    ColumnView { name, ty, nullable: false, index: IndexHint::Plain, sort_priority: priority }
}

pub open spec fn indexed_column(name: Seq<char>, ty: ColumnType, index: IndexHint) -> ColumnView {
    ColumnView { name, ty, nullable: true, index, sort_priority: 0 }
}

/// The columns of the standard span schema.
pub open spec fn spans_v1_columns() -> Seq<ColumnView> {
    seq![
        required_column("tenant_id"@, ColumnType::UInt64, 0),
        required_column("partition_id"@, ColumnType::UInt32, 0),
        required_column("trace_id"@, ColumnType::TraceId, 1),
        required_column("span_id"@, ColumnType::SpanId, 3),
        plain_column("parent_span_id"@, ColumnType::SpanId),
        required_column("start_time_ms"@, ColumnType::TimestampMillis, 2),
        required_column("end_time_ms"@, ColumnType::TimestampMillis, 0),
        required_column("duration_ms"@, ColumnType::Int64, 0),
        indexed_column("span_type"@, ColumnType::Utf8, IndexHint::Bitmap),
        indexed_column("status"@, ColumnType::Utf8, IndexHint::Bitmap),
        indexed_column("provider"@, ColumnType::Utf8, IndexHint::Bitmap),
        indexed_column("model"@, ColumnType::Utf8, IndexHint::Bitmap),
        indexed_column("tool_name"@, ColumnType::Utf8, IndexHint::Bitmap),
        indexed_column("prompt"@, ColumnType::Utf8, IndexHint::Fts),
        indexed_column("completion"@, ColumnType::Utf8, IndexHint::Fts),
        plain_column("prompt_tokens"@, ColumnType::UInt32),
        plain_column("completion_tokens"@, ColumnType::UInt32),
        plain_column("cost_usd"@, ColumnType::Float64),
        plain_column("temperature"@, ColumnType::Float64),
        plain_column("top_p"@, ColumnType::Float64),
        indexed_column("tool_io_text"@, ColumnType::Utf8, IndexHint::Fts),
        plain_column("user_id"@, ColumnType::Utf8),
        plain_column("session_id"@, ColumnType::Utf8),
        plain_column("request_id"@, ColumnType::Utf8),
        indexed_column("metadata"@, ColumnType::Json, IndexHint::JsonPath),
        indexed_column("embedding"@, ColumnType::FloatVector(1536), IndexHint::Hnsw),
        required_column("commit_id"@, ColumnType::UInt64, 0),
    ]
}

/// The canonical text of a column list: one line per column.
pub open spec fn canonical(columns: Seq<ColumnView>) -> Seq<char>
    decreases columns.len(),
{
    if columns.len() == 0 {
        Seq::empty()
    } else {
        canonical(columns.drop_last()) + columns.last().line()
    }
}

/// The place of a sort-key column: its priority.
pub struct SortPlace {
    pub priority: u8,
}

impl Ranked for SortPlace {
    open spec fn precedes(&self, other: &Self) -> bool {
        self.priority <= other.priority
    }

    proof fn precedes_total(a: &Self, b: &Self) {
    }

    proof fn precedes_transitive(a: &Self, b: &Self, c: &Self) {
    }

    fn is_before(&self, other: &Self) -> (r: bool) {
        self.priority <= other.priority
    }
}

impl Schema {
    pub open spec fn view(&self) -> Seq<ColumnView> {
        Seq::new(self.columns@.len(), |i: int| self.columns@[i]@)
    }

    pub fn new(columns: Vec<ColumnSpec>) -> (r: Self)
        ensures
            r.columns == columns,
    {
        Schema { columns }
    }

    /// Stable 128-bit fingerprint: the XXH3 hash of the canonical text.
    pub fn fingerprint(&self) -> (r: SchemaFingerprint)
        ensures
            r.0 == xxh3_128_of(encode_utf8(canonical(self@))),
    {
        let mut buf: String = String::new();
        let mut i: usize = 0;
        assert(self@.take(0) =~= Seq::empty());
        while i < self.columns.len()
            invariant
                i <= self.columns@.len(),
                buf@ == canonical(self@.take(i as int)),
            decreases self.columns.len() - i,
        {
            let c: &ColumnSpec = &self.columns[i];
            let ghost before = buf@;
            buf.append(c.name.as_str());
            buf.append("|");
            buf.append(c.ty.name().as_str());
            buf.append("|");
            buf.append(
                if c.nullable {
                    "n"
                } else {
                    "r"
                },
            );
            buf.append("|");
            buf.append(c.index.name());
            buf.append("|");
            buf.append(decimal_string(c.sort_priority as u64).as_str());
            buf.append("\n");
            proof {
                let longer = self@.take(i + 1);
                assert(longer.drop_last() =~= self@.take(i as int));
                assert(longer.last() == c@);
                assert(buf@ =~= before + c@.line());
            }
            i = i + 1;
        }
        assert(self@.take(i as int) =~= self@);
        SchemaFingerprint(xxh3_128(buf.as_str().as_bytes()))
    }

    /// The index of the first column with the name.
    pub fn index_of(&self, name: &str) -> (r: Option<usize>)
        ensures
            match r {
                Some(i) => {
                    &&& i < self@.len()
                    &&& self@[i as int].name == name@
                    &&& forall|j: int| 0 <= j < i ==> (#[trigger] self@[j]).name != name@
                },
                None => forall|j: int| 0 <= j < self@.len() ==> (#[trigger] self@[j]).name != name@,
            },
    {
        let mut i: usize = 0;
        while i < self.columns.len()
            invariant
                i <= self.columns@.len(),
                forall|j: int| 0 <= j < i ==> (#[trigger] self@[j]).name != name@,
            decreases self.columns.len() - i,
        {
            if text_eq(self.columns[i].name.as_str(), name) {
                return Some(i);
            }
            i = i + 1;
        }
        None
    }

    /// The canonical "spans" schema that corresponds to `SpanRecord`.
    pub fn spans_v1() -> (r: Self)
        ensures
            r@ == spans_v1_columns(),
    {
        let mut c: Vec<ColumnSpec> = Vec::new();
        c.push(ColumnSpec::new("tenant_id", ColumnType::UInt64).required());
        c.push(ColumnSpec::new("partition_id", ColumnType::UInt32).required());
        c.push(ColumnSpec::new("trace_id", ColumnType::TraceId).required().with_sort_priority(1));
        c.push(ColumnSpec::new("span_id", ColumnType::SpanId).required().with_sort_priority(3));
        c.push(ColumnSpec::new("parent_span_id", ColumnType::SpanId));
        c.push(
            ColumnSpec::new("start_time_ms", ColumnType::TimestampMillis)
                .required()
                .with_sort_priority(2),
        );
        c.push(ColumnSpec::new("end_time_ms", ColumnType::TimestampMillis).required());
        c.push(ColumnSpec::new("duration_ms", ColumnType::Int64).required());
        c.push(ColumnSpec::new("span_type", ColumnType::Utf8).with_index(IndexHint::Bitmap));
        c.push(ColumnSpec::new("status", ColumnType::Utf8).with_index(IndexHint::Bitmap));
        c.push(ColumnSpec::new("provider", ColumnType::Utf8).with_index(IndexHint::Bitmap));
        c.push(ColumnSpec::new("model", ColumnType::Utf8).with_index(IndexHint::Bitmap));
        c.push(ColumnSpec::new("tool_name", ColumnType::Utf8).with_index(IndexHint::Bitmap));
        c.push(ColumnSpec::new("prompt", ColumnType::Utf8).with_index(IndexHint::Fts));
        c.push(ColumnSpec::new("completion", ColumnType::Utf8).with_index(IndexHint::Fts));
        c.push(ColumnSpec::new("prompt_tokens", ColumnType::UInt32));
        c.push(ColumnSpec::new("completion_tokens", ColumnType::UInt32));
        c.push(ColumnSpec::new("cost_usd", ColumnType::Float64));
        c.push(ColumnSpec::new("temperature", ColumnType::Float64));
        c.push(ColumnSpec::new("top_p", ColumnType::Float64));
        c.push(ColumnSpec::new("tool_io_text", ColumnType::Utf8).with_index(IndexHint::Fts));
        c.push(ColumnSpec::new("user_id", ColumnType::Utf8));
        c.push(ColumnSpec::new("session_id", ColumnType::Utf8));
        c.push(ColumnSpec::new("request_id", ColumnType::Utf8));
        c.push(ColumnSpec::new("metadata", ColumnType::Json).with_index(IndexHint::JsonPath));
        c.push(
            ColumnSpec::new("embedding", ColumnType::FloatVector(1536)).with_index(IndexHint::Hnsw),
        );
        c.push(ColumnSpec::new("commit_id", ColumnType::UInt64).required());
        let r = Schema { columns: c };
        assert(r@ =~= spans_v1_columns());
        r
    }

    /// The indices of the sort-key columns, by priority and then by place.
    pub fn sort_key_columns(&self) -> (r: Vec<usize>)
        ensures
            is_sort_key_order(self@, r@),
    {
        let mut at: Vec<usize> = Vec::new();
        let mut places: Vec<SortPlace> = Vec::new();
        let mut i: usize = 0;
        while i < self.columns.len()
            invariant
                i <= self.columns@.len(),
                at@.len() == places@.len(),
                forall|k: int|
                    0 <= k < at@.len() ==> #[trigger] at@[k] < i && self@[at@[k] as int].sort_priority
                        > 0 && places@[k].priority == self@[at@[k] as int].sort_priority,
                forall|a: int, b: int| 0 <= a < b < at@.len() ==> at@[a] < at@[b],
                forall|k: int| 0 <= k < i && self@[k].sort_priority > 0 ==> #[trigger] lists(at@, k),
            decreases self.columns.len() - i,
        {
            let p: u8 = self.columns[i].sort_priority;
            let ghost before = at@;
            if p > 0 {
                at.push(i);
                places.push(SortPlace { priority: p });
            }
            proof {
                assert forall|k: int| 0 <= k < i + 1 && self@[k].sort_priority
                    > 0 implies #[trigger] lists(at@, k) by {
                    if k < i {
                        assert(lists(before, k));
                        let x = choose|x: int| 0 <= x < before.len() && #[trigger] before[x] == k;
                        assert(at@[x] == k);
                    } else {
                        assert(at@[before.len() as int] == k);
                    }
                }
            }
            i = i + 1;
        }
        let order: Vec<usize> = sort_order(places.as_slice());
        let mut out: Vec<usize> = Vec::new();
        let mut j: usize = 0;
        while j < order.len()
            invariant
                j <= order@.len(),
                at@.len() == places@.len(),
                is_stable_order(places@, order@),
                out@.len() == j,
                forall|k: int| 0 <= k < j ==> #[trigger] out@[k] == at@[order@[k] as int],
            decreases order.len() - j,
        {
            out.push(at[order[j]]);
            j = j + 1;
        }
        proof {
            assert forall|k: int| 0 <= k < self@.len() && self@[k].sort_priority
                > 0 implies #[trigger] lists(out@, k) by {
                assert(lists(at@, k));
                let x = choose|x: int| 0 <= x < at@.len() && #[trigger] at@[x] == k;
                assert(lists(order@, x));
                let y = choose|y: int| 0 <= y < order@.len() && #[trigger] order@[y] == x;
                assert(out@[y] == k);
            }
            assert forall|a: int, b: int| 0 <= a < b < out@.len() implies sort_key_before(
                self@,
                #[trigger] out@[a] as int,
                #[trigger] out@[b] as int,
            ) by {
                assert(stable_before(places@, order@[a] as int, order@[b] as int));
                assert(at@[order@[a] as int] == out@[a]);
                assert(at@[order@[b] as int] == out@[b]);
            }
        }
        out
    }
}

/// `r` lists the sort-key columns, by priority and then by place.
pub open spec fn is_sort_key_order(columns: Seq<ColumnView>, r: Seq<usize>) -> bool {
    &&& forall|i: int|
        0 <= i < r.len() ==> #[trigger] r[i] < columns.len() && columns[r[i] as int].sort_priority
            > 0
    &&& forall|k: int|
        0 <= k < columns.len() && columns[k].sort_priority > 0 ==> #[trigger] lists(r, k)
    &&& forall|i: int, j: int|
        0 <= i < j < r.len() ==> sort_key_before(
            columns,
            #[trigger] r[i] as int,
            #[trigger] r[j] as int,
        )
}

/// The column at `a` comes before the column at `b` in the sort key.
pub open spec fn sort_key_before(columns: Seq<ColumnView>, a: int, b: int) -> bool {
    columns[a].sort_priority < columns[b].sort_priority || (columns[a].sort_priority
        == columns[b].sort_priority && a < b)
}

} // verus!
