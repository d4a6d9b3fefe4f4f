//! The columns of a span table: how a row group stores each field of its spans.
use crate::common::errors::{ErrorView, ZenError};
use crate::common::record::{record_spans, Span, SpanRecord};
use crate::common::schema::{ColumnView, Schema};
use crate::common::types::filled16;
use crate::compress::dict::has_long_row;
use crate::format::page::{
    array_of, encode_failure, encode_page, is_page, lemma_array_of, Column, ColumnValues,
    PageEncoding,
};
use crate::format::row_group::{
    entry_bytes, relative_header, PageEntry, RowGroupBuilder, RowGroupHeader,
};
use crate::rows::{byte_rows, copy_bytes, flat};
use crate::text::{bytes_of_opt, opt_bytes, text_eq};
use crate::wire::{i64_of_pattern, low_u32, u64_to_i64};
use vstd::prelude::*;
use vstd::string::*;

verus! {

/// A stored field of a span.
#[derive(Copy, Clone, PartialEq, Eq, Debug, Structural)]
pub enum Field {
    Tenant,
    Partition,
    Trace,
    SpanKey,
    Parent,
    StartTime,
    EndTime,
    Duration,
    SpanKind,
    Status,
    Provider,
    Model,
    ToolName,
    Prompt,
    Completion,
    ToolIoText,
    PromptTokens,
    CompletionTokens,
    CostUsd,
    Temperature,
    TopP,
    User,
    Session,
    Request,
    Metadata,
    Commit,
}

/// How the values of a field are represented.
#[derive(Copy, Clone, PartialEq, Eq, Debug, Structural)]
pub enum FieldKind {
    /// Integers.
    Number,
    /// Floats, by bit patterns.
    Float,
    /// 16-byte identifiers.
    Id,
    /// Text, empty where it is missing.
    Text,
    /// Binary data, empty where it is missing.
    Blob,
}

/// The number of stored fields.
pub const FIELD_COUNT: usize = 26;

impl Field {
    /// The field that is stored at place `i` of a row group.
    pub open spec fn nth(i: int) -> Field {
        if i == 0 {
            Field::Tenant
        } else if i == 1 {
            Field::Partition
        } else if i == 2 {
            Field::Trace
        } else if i == 3 {
            Field::SpanKey
        } else if i == 4 {
            Field::Parent
        } else if i == 5 {
            Field::StartTime
        } else if i == 6 {
            Field::EndTime
        } else if i == 7 {
            Field::Duration
        } else if i == 8 {
            Field::SpanKind
        } else if i == 9 {
            Field::Status
        } else if i == 10 {
            Field::Provider
        } else if i == 11 {
            Field::Model
        } else if i == 12 {
            Field::ToolName
        } else if i == 13 {
            Field::Prompt
        } else if i == 14 {
            Field::Completion
        } else if i == 15 {
            Field::ToolIoText
        } else if i == 16 {
            Field::PromptTokens
        } else if i == 17 {
            Field::CompletionTokens
        } else if i == 18 {
            Field::CostUsd
        } else if i == 19 {
            Field::Temperature
        } else if i == 20 {
            Field::TopP
        } else if i == 21 {
            Field::User
        } else if i == 22 {
            Field::Session
        } else if i == 23 {
            Field::Request
        } else if i == 24 {
            Field::Metadata
        } else {
            Field::Commit
        }
    }

    fn at(i: usize) -> (r: Field)
        ensures
            r == Field::nth(i as int),
    {
        match i {
            0 => Field::Tenant,
            1 => Field::Partition,
            2 => Field::Trace,
            3 => Field::SpanKey,
            4 => Field::Parent,
            5 => Field::StartTime,
            6 => Field::EndTime,
            7 => Field::Duration,
            8 => Field::SpanKind,
            9 => Field::Status,
            10 => Field::Provider,
            11 => Field::Model,
            12 => Field::ToolName,
            13 => Field::Prompt,
            14 => Field::Completion,
            15 => Field::ToolIoText,
            16 => Field::PromptTokens,
            17 => Field::CompletionTokens,
            18 => Field::CostUsd,
            19 => Field::Temperature,
            20 => Field::TopP,
            21 => Field::User,
            22 => Field::Session,
            23 => Field::Request,
            24 => Field::Metadata,
            _ => Field::Commit,
        }
    }

    /// The name of the column.
    pub open spec fn name_text(self) -> Seq<char> {
        match self {
            Field::Tenant => "tenant_id"@,
            Field::Partition => "partition_id"@,
            Field::Trace => "trace_id"@,
            Field::SpanKey => "span_id"@,
            Field::Parent => "parent_span_id"@,
            Field::StartTime => "start_time_ms"@,
            Field::EndTime => "end_time_ms"@,
            Field::Duration => "duration_ms"@,
            Field::SpanKind => "span_type"@,
            Field::Status => "status"@,
            Field::Provider => "provider"@,
            Field::Model => "model"@,
            Field::ToolName => "tool_name"@,
            Field::Prompt => "prompt"@,
            Field::Completion => "completion"@,
            Field::ToolIoText => "tool_io_text"@,
            Field::PromptTokens => "prompt_tokens"@,
            Field::CompletionTokens => "completion_tokens"@,
            Field::CostUsd => "cost_usd"@,
            Field::Temperature => "temperature"@,
            Field::TopP => "top_p"@,
            Field::User => "user_id"@,
            Field::Session => "session_id"@,
            Field::Request => "request_id"@,
            Field::Metadata => "metadata"@,
            Field::Commit => "commit_id"@,
        }
    }

    pub fn name(self) -> (r: &'static str)
        ensures
            r@ == self.name_text(),
    {
        match self {
            Field::Tenant => "tenant_id",
            Field::Partition => "partition_id",
            Field::Trace => "trace_id",
            Field::SpanKey => "span_id",
            Field::Parent => "parent_span_id",
            Field::StartTime => "start_time_ms",
            Field::EndTime => "end_time_ms",
            Field::Duration => "duration_ms",
            Field::SpanKind => "span_type",
            Field::Status => "status",
            Field::Provider => "provider",
            Field::Model => "model",
            Field::ToolName => "tool_name",
            Field::Prompt => "prompt",
            Field::Completion => "completion",
            Field::ToolIoText => "tool_io_text",
            Field::PromptTokens => "prompt_tokens",
            Field::CompletionTokens => "completion_tokens",
            Field::CostUsd => "cost_usd",
            Field::Temperature => "temperature",
            Field::TopP => "top_p",
            Field::User => "user_id",
            Field::Session => "session_id",
            Field::Request => "request_id",
            Field::Metadata => "metadata",
            Field::Commit => "commit_id",
        }
    }

    pub open spec fn kind_of(self) -> FieldKind {
        match self {
            Field::Tenant | Field::Partition | Field::StartTime | Field::EndTime | Field::Duration
            | Field::PromptTokens | Field::CompletionTokens | Field::Commit => FieldKind::Number,
            Field::Trace | Field::SpanKey | Field::Parent => FieldKind::Id,
            Field::CostUsd | Field::Temperature | Field::TopP => FieldKind::Float,
            Field::Metadata => FieldKind::Blob,
            _ => FieldKind::Text,
        }
    }

    fn kind(self) -> (r: FieldKind)
        ensures
            r == self.kind_of(),
    {
        match self {
            Field::Tenant | Field::Partition | Field::StartTime | Field::EndTime | Field::Duration
            | Field::PromptTokens | Field::CompletionTokens | Field::Commit => FieldKind::Number,
            Field::Trace | Field::SpanKey | Field::Parent => FieldKind::Id,
            Field::CostUsd | Field::Temperature | Field::TopP => FieldKind::Float,
            Field::Metadata => FieldKind::Blob,
            _ => FieldKind::Text,
        }
    }

    /// Repetitive numbers are run-length encoded, others bit-packed; wide texts get a
    /// symbol table, others a dictionary.
    pub open spec fn encoding_of(self) -> PageEncoding {
        match self.kind_of() {
            FieldKind::Number => if self is Tenant || self is Partition {
                PageEncoding::Rle
            } else {
                PageEncoding::For
            },
            FieldKind::Id => PageEncoding::FixedRaw,
            FieldKind::Float => PageEncoding::Gorilla,
            FieldKind::Blob => PageEncoding::Zstd,
            FieldKind::Text => if self is Prompt || self is Completion || self is ToolIoText {
                PageEncoding::FsstWithOffsets
            } else {
                PageEncoding::Dict
            },
        }
    }

    fn encoding(self) -> (r: PageEncoding)
        ensures
            r == self.encoding_of(),
    {
        match self {
            Field::Tenant | Field::Partition => PageEncoding::Rle,
            Field::Prompt | Field::Completion | Field::ToolIoText => PageEncoding::FsstWithOffsets,
            _ => match self.kind() {
                FieldKind::Number => PageEncoding::For,
                FieldKind::Id => PageEncoding::FixedRaw,
                FieldKind::Float => PageEncoding::Gorilla,
                FieldKind::Blob => PageEncoding::Zstd,
                FieldKind::Text => PageEncoding::Dict,
            },
        }
    }

    /// The value of a numeric field; a missing one counts as zero.
    pub open spec fn number_of(self, s: Span) -> i64 {
        match self {
            Field::Tenant => i64_of_pattern(s.tenant_id.0 as nat),
            Field::Partition => s.partition_id.0 as i64,
            Field::StartTime => s.start_time_ms,
            Field::EndTime => s.end_time_ms,
            Field::Duration => s.duration_ms,
            Field::PromptTokens => match s.prompt_tokens {
                Some(n) => n as i64,
                None => 0,
            },
            Field::CompletionTokens => match s.completion_tokens {
                Some(n) => n as i64,
                None => 0,
            },
            _ => i64_of_pattern(s.commit_id.0 as nat),
        }
    }

    fn number(self, r: &SpanRecord) -> (v: i64)
        ensures
            self.kind_of() == FieldKind::Number ==> v == self.number_of(r@),
    {
        match self {
            Field::Tenant => u64_to_i64(r.tenant_id.0),
            Field::Partition => r.partition_id.0 as i64,
            Field::StartTime => r.start_time_ms,
            Field::EndTime => r.end_time_ms,
            Field::Duration => r.duration_ms,
            Field::PromptTokens => match r.prompt_tokens {
                Some(n) => n as i64,
                None => 0,
            },
            Field::CompletionTokens => match r.completion_tokens {
                Some(n) => n as i64,
                None => 0,
            },
            _ => u64_to_i64(r.commit_id.0),
        }
    }

    /// The bit pattern of a float field; a missing one counts as zero.
    pub open spec fn bits_of(self, s: Span) -> u64 {
        let v = match self {
            Field::CostUsd => s.cost_usd,
            Field::Temperature => s.temperature,
            _ => s.top_p,
        };
        match v {
            Some(x) => x,
            None => 0,
        }
    }

    fn bits(self, r: &SpanRecord) -> (v: u64)
        ensures
            v == self.bits_of(r@),
    {
        let v = match self {
            Field::CostUsd => r.cost_usd,
            Field::Temperature => r.temperature,
            _ => r.top_p,
        };
        match v {
            Some(x) => x,
            None => 0,
        }
    }

    /// The bytes of an identifier; a missing parent is all zeros.
    pub open spec fn id_of(self, s: Span) -> Seq<u8> {
        match self {
            Field::Trace => s.trace_id,
            Field::SpanKey => s.span_id,
            _ => match s.parent_span_id {
                Some(p) => p,
                None => Seq::new(16, |i: int| 0u8),
            },
        }
    }

    fn id(self, r: &SpanRecord) -> (v: [u8; 16])
        ensures
            v@ == self.id_of(r@),
    {
        match self {
            Field::Trace => r.trace_id.0,
            Field::SpanKey => r.span_id.0,
            _ => match r.parent_span_id {
                Some(p) => p.0,
                None => filled16(0),
            },
        }
    }

    /// The text of a text field, if it is set.
    pub open spec fn text_of(self, s: Span) -> Option<Seq<char>> {
        match self {
            Field::SpanKind => s.span_type,
            Field::Status => s.status,
            Field::Provider => s.provider,
            Field::Model => s.model,
            Field::ToolName => s.tool_name,
            Field::Prompt => s.prompt,
            Field::Completion => s.completion,
            Field::ToolIoText => s.tool_io_text,
            Field::User => s.user_id,
            Field::Session => s.session_id,
            _ => s.request_id,
        }
    }

    /// The bytes of a text or of binary data.
    pub open spec fn bytes_of(self, s: Span) -> Seq<u8> {
        match self {
            Field::Metadata => match s.metadata {
                Some(m) => m,
                None => Seq::empty(),
            },
            _ => opt_bytes(self.text_of(s)),
        }
    }

    fn bytes(self, r: &SpanRecord) -> (v: Vec<u8>)
        ensures
            v@ == self.bytes_of(r@),
    {
        match self {
            Field::Metadata => match &r.metadata {
                Some(m) => copy_bytes(m.as_slice()),
                None => {
                    let v: Vec<u8> = Vec::new();
                    assert(v@ =~= Seq::empty());
                    v
                },
            },
            Field::SpanKind => bytes_of_opt(&r.span_type),
            Field::Status => bytes_of_opt(&r.status),
            Field::Provider => bytes_of_opt(&r.provider),
            Field::Model => bytes_of_opt(&r.model),
            Field::ToolName => bytes_of_opt(&r.tool_name),
            Field::Prompt => bytes_of_opt(&r.prompt),
            Field::Completion => bytes_of_opt(&r.completion),
            Field::ToolIoText => bytes_of_opt(&r.tool_io_text),
            Field::User => bytes_of_opt(&r.user_id),
            Field::Session => bytes_of_opt(&r.session_id),
            _ => bytes_of_opt(&r.request_id),
        }
    }

    /// The numbers of a list of spans.
    pub open spec fn numbers_of(self, rows: Seq<Span>) -> Seq<i64> {
        Seq::new(rows.len(), |i: int| self.number_of(rows[i]))
    }

    /// The byte strings of a list of spans.
    pub open spec fn strings_of(self, rows: Seq<Span>) -> Seq<Seq<u8>> {
        Seq::new(rows.len(), |i: int| self.bytes_of(rows[i]))
    }

    /// The identifiers of a list of spans.
    pub open spec fn ids_of(self, rows: Seq<Span>) -> Seq<Seq<u8>> {
        Seq::new(rows.len(), |i: int| self.id_of(rows[i]))
    }

    /// The column that holds the field.
    pub open spec fn column_of(self, rows: Seq<Span>) -> Column {
        match self.kind_of() {
            FieldKind::Number => Column::I64(self.numbers_of(rows)),
            FieldKind::Float => Column::F64(Seq::new(rows.len(), |i: int| self.bits_of(rows[i]))),
            FieldKind::Id => Column::Fixed16(
                Seq::new(rows.len(), |i: int| array_of(self.id_of(rows[i]))),
            ),
            FieldKind::Text => Column::Strings(self.strings_of(rows)),
            FieldKind::Blob => Column::Bytes(self.strings_of(rows)),
        }
    }

    /// Bytes per row before encoding, for fields of fixed width.
    pub open spec fn width_of(self) -> nat {
        match self {
            Field::Partition | Field::PromptTokens | Field::CompletionTokens => 4,
            Field::Trace | Field::SpanKey | Field::Parent => 16,
            _ => 8,
        }
    }

    fn width(self) -> (r: usize)
        ensures
            r == self.width_of(),
            r <= 16,
    {
        match self {
            Field::Partition | Field::PromptTokens | Field::CompletionTokens => 4,
            Field::Trace | Field::SpanKey | Field::Parent => 16,
            _ => 8,
        }
    }

    /// The size of the column before encoding, in 64 bits.
    pub open spec fn size_of(self, rows: Seq<Span>) -> u64 {
        match self.kind_of() {
            FieldKind::Text | FieldKind::Blob => (flat(self.strings_of(rows)).len()
                % 0x1_0000_0000_0000_0000) as u64,
            _ => (self.width_of() * rows.len()) as u64,
        }
    }

    pub(crate) fn numbers(self, rows: &[SpanRecord]) -> (r: Vec<i64>)
        requires
            self.kind_of() == FieldKind::Number,
        ensures
            r@ == self.numbers_of(record_spans(rows@)),
    {
        let mut out: Vec<i64> = Vec::new();
        let mut i: usize = 0;
        while i < rows.len()
            invariant
                i <= rows.len(),
                self.kind_of() == FieldKind::Number,
                out@ == self.numbers_of(record_spans(rows@)).take(i as int),
            decreases rows.len() - i,
        {
            out.push(self.number(&rows[i]));
            i = i + 1;
            assert(out@ =~= self.numbers_of(record_spans(rows@)).take(i as int));
        }
        assert(out@ =~= self.numbers_of(record_spans(rows@)));
        out
    }

    pub(crate) fn strings(self, rows: &[SpanRecord]) -> (r: Vec<Vec<u8>>)
        ensures
            byte_rows(r@) == self.strings_of(record_spans(rows@)),
    {
        let mut out: Vec<Vec<u8>> = Vec::new();
        let mut i: usize = 0;
        while i < rows.len()
            invariant
                i <= rows.len(),
                out@.len() == i,
                forall|k: int| 0 <= k < i ==> (#[trigger] out@[k])@ == self.bytes_of(rows@[k]@),
            decreases rows.len() - i,
        {
            out.push(self.bytes(&rows[i]));
            i = i + 1;
        }
        assert(byte_rows(out@) =~= self.strings_of(record_spans(rows@)));
        out
    }

    pub(crate) fn ids(self, rows: &[SpanRecord]) -> (r: Vec<[u8; 16]>)
        ensures
            r@.len() == rows@.len(),
            forall|i: int| 0 <= i < r@.len() ==> (#[trigger] r@[i])@ == self.id_of(rows@[i]@),
    {
        let mut out: Vec<[u8; 16]> = Vec::new();
        let mut i: usize = 0;
        while i < rows.len()
            invariant
                i <= rows.len(),
                out@.len() == i,
                forall|k: int| 0 <= k < i ==> (#[trigger] out@[k])@ == self.id_of(rows@[k]@),
            decreases rows.len() - i,
        {
            out.push(self.id(&rows[i]));
            i = i + 1;
        }
        out
    }

    fn floats(self, rows: &[SpanRecord]) -> (r: Vec<u64>)
        ensures
            r@ == Seq::new(rows@.len(), |i: int| self.bits_of(rows@[i]@)),
    {
        let mut out: Vec<u64> = Vec::new();
        let mut i: usize = 0;
        while i < rows.len()
            invariant
                i <= rows.len(),
                out@.len() == i,
                forall|k: int| 0 <= k < i ==> #[trigger] out@[k] == self.bits_of(rows@[k]@),
            decreases rows.len() - i,
        {
            out.push(self.bits(&rows[i]));
            i = i + 1;
        }
        out
    }

    /// The column that holds the field, and its size before encoding.
    fn column(self, rows: &[SpanRecord]) -> (r: (ColumnValues<'static>, u64))
        requires
            rows@.len() <= u32::MAX,
        ensures
            r.0@ == self.column_of(record_spans(rows@)),
            r.1 == self.size_of(record_spans(rows@)),
    {
        let ghost spans = record_spans(rows@);
        let w: usize = self.width();
        let n: usize = rows.len();
        assert(w * n <= 16 * u32::MAX) by (nonlinear_arith)
            requires
                w <= 16,
                n <= u32::MAX,
        ;
        let size: u64 = w as u64 * n as u64;
        match self.kind() {
            FieldKind::Number => (ColumnValues::I64(self.numbers(rows)), size),
            FieldKind::Float => {
                let v = self.floats(rows);
                assert(v@ =~= Seq::new(spans.len(), |i: int| self.bits_of(spans[i])));
                (ColumnValues::F64(v), size)
            },
            FieldKind::Id => {
                let v = self.ids(rows);
                proof {
                    assert forall|i: int| 0 <= i < v@.len() implies #[trigger] v@[i] == array_of(
                        self.id_of(spans[i]),
                    ) by {
                        lemma_array_of(v@[i]);
                    }
                    assert(v@ =~= Seq::new(spans.len(), |i: int| array_of(self.id_of(spans[i]))));
                }
                (ColumnValues::Fixed16(v), size)
            },
            FieldKind::Text => {
                let v = self.strings(rows);
                let n = total_len(&v);
                (ColumnValues::StringsOwned(v), n)
            },
            FieldKind::Blob => {
                let v = self.strings(rows);
                let n = total_len(&v);
                (ColumnValues::BytesOwned(v), n)
            },
        }
    }
}

/// The summed length of byte strings, in 64 bits.
fn total_len(v: &Vec<Vec<u8>>) -> (r: u64)
    ensures
        r == flat(byte_rows(v@)).len() % 0x1_0000_0000_0000_0000,
{
    let mut n: u64 = 0;
    let mut i: usize = 0;
    let ghost all = byte_rows(v@);
    assert(all.take(0) =~= Seq::empty());
    while i < v.len()
        invariant
            i <= v@.len(),
            all == byte_rows(v@),
            n == flat(all.take(i as int)).len() % 0x1_0000_0000_0000_0000,
        decreases v.len() - i,
    {
        proof {
            crate::rows::lemma_flat_push(all.take(i as int), all[i as int]);
            assert(all.take(i + 1) =~= all.take(i as int).push(all[i as int]));
        }
        n = n.wrapping_add(v[i].len() as u64);
        i = i + 1;
    }
    assert(all.take(i as int) =~= all);
    n
}

/// The length and the first two letters of a field's name, which tell the names apart.
spec fn name_shape(f: Field) -> (nat, char, char) {
    match f {
        Field::Tenant => (9, 't', 'e'),
        Field::Partition => (12, 'p', 'a'),
        Field::Trace => (8, 't', 'r'),
        Field::SpanKey => (7, 's', 'p'),
        Field::Parent => (14, 'p', 'a'),
        Field::StartTime => (13, 's', 't'),
        Field::EndTime => (11, 'e', 'n'),
        Field::Duration => (11, 'd', 'u'),
        Field::SpanKind => (9, 's', 'p'),
        Field::Status => (6, 's', 't'),
        Field::Provider => (8, 'p', 'r'),
        Field::Model => (5, 'm', 'o'),
        Field::ToolName => (9, 't', 'o'),
        Field::Prompt => (6, 'p', 'r'),
        Field::Completion => (10, 'c', 'o'),
        Field::ToolIoText => (12, 't', 'o'),
        Field::PromptTokens => (13, 'p', 'r'),
        Field::CompletionTokens => (17, 'c', 'o'),
        Field::CostUsd => (8, 'c', 'o'),
        Field::Temperature => (11, 't', 'e'),
        Field::TopP => (5, 't', 'o'),
        Field::User => (7, 'u', 's'),
        Field::Session => (10, 's', 'e'),
        Field::Request => (10, 'r', 'e'),
        Field::Metadata => (8, 'm', 'e'),
        Field::Commit => (9, 'c', 'o'),
    }
}

proof fn lemma_name_shape(f: Field)
    ensures
        f.name_text().len() == name_shape(f).0,
        f.name_text()[0] == name_shape(f).1,
        f.name_text()[1] == name_shape(f).2,
{
    reveal_strlit("tenant_id");
    reveal_strlit("partition_id");
    reveal_strlit("trace_id");
    reveal_strlit("span_id");
    reveal_strlit("parent_span_id");
    reveal_strlit("start_time_ms");
    reveal_strlit("end_time_ms");
    reveal_strlit("duration_ms");
    reveal_strlit("span_type");
    reveal_strlit("status");
    reveal_strlit("provider");
    reveal_strlit("model");
    reveal_strlit("tool_name");
    reveal_strlit("prompt");
    reveal_strlit("completion");
    reveal_strlit("tool_io_text");
    reveal_strlit("prompt_tokens");
    reveal_strlit("completion_tokens");
    reveal_strlit("cost_usd");
    reveal_strlit("temperature");
    reveal_strlit("top_p");
    reveal_strlit("user_id");
    reveal_strlit("session_id");
    reveal_strlit("request_id");
    reveal_strlit("metadata");
    reveal_strlit("commit_id");
}

/// No two fields have columns of the same name.
pub proof fn field_names_are_distinct(a: Field, b: Field)
    ensures
        a.name_text() == b.name_text() ==> a == b,
{
    lemma_name_shape(a);
    lemma_name_shape(b);
}

/// The first field from place `i` on whose column has that name.
pub open spec fn named_from(i: nat, name: Seq<char>) -> Option<Field>
    decreases FIELD_COUNT - i,
{
    if i >= FIELD_COUNT {
        None
    } else if Field::nth(i as int).name_text() == name {
        Some(Field::nth(i as int))
    } else {
        named_from(i + 1, name)
    }
}

/// The field whose column has that name.
pub fn field_named(name: &str) -> (r: Option<Field>)
    ensures
        r == named_from(0, name@),
{
    let mut i: usize = 0;
    while i < FIELD_COUNT
        invariant
            i <= FIELD_COUNT,
            named_from(0, name@) == named_from(i as nat, name@),
        decreases FIELD_COUNT - i,
    {
        let f = Field::at(i);
        if text_eq(f.name(), name) {
            return Some(f);
        }
        i = i + 1;
    }
    None
}

/// The last column of that name.
pub open spec fn last_named(columns: Seq<ColumnView>, name: Seq<char>) -> Option<int>
    decreases columns.len(),
{
    if columns.len() == 0 {
        None
    } else if columns.last().name == name {
        Some(columns.len() - 1)
    } else {
        last_named(columns.drop_last(), name)
    }
}

/// The fields among the first `n` that the schema has a column for.
pub open spec fn fields_in(columns: Seq<ColumnView>, n: nat) -> Seq<Field>
    decreases n,
{
    if n == 0 {
        Seq::empty()
    } else {
        let rest = fields_in(columns, (n - 1) as nat);
        let f = Field::nth(n - 1);
        if last_named(columns, f.name_text()) is Some {
            rest.push(f)
        } else {
            rest
        }
    }
}

/// The fields that a row group of this schema stores, in the order of their pages.
pub open spec fn stored_fields(columns: Seq<ColumnView>) -> Seq<Field> {
    fields_in(columns, FIELD_COUNT as nat)
}

/// `page` is the page of the field for these rows.
pub open spec fn is_field_page(
    columns: Seq<ColumnView>,
    rows: Seq<Span>,
    f: Field,
    page: PageEntry,
) -> bool {
    &&& page.column_idx == (last_named(columns, f.name_text())->0 % 0x1_0000_0000)
    &&& page.encoding == f.encoding_of()
    &&& is_page(page.bytes, f.encoding_of(), f.column_of(rows))
    &&& page.uncompressed_size == f.size_of(rows)
    &&& (f.encoding_of() == PageEncoding::Dict ==> !has_long_row(f.strings_of(rows)))
}

/// `pages` are the pages of a row group with these rows: one per stored field.
pub open spec fn is_row_group(
    columns: Seq<ColumnView>,
    rows: Seq<Span>,
    pages: Seq<PageEntry>,
) -> bool {
    let fields = stored_fields(columns);
    &&& pages.len() == fields.len()
    &&& forall|k: int|
        0 <= k < fields.len() ==> is_field_page(columns, rows, fields[k], #[trigger] pages[k])
}

/// Storing the rows can fail like this: some field cannot be encoded.
pub open spec fn row_group_failure(columns: Seq<ColumnView>, rows: Seq<Span>, e: ErrorView) -> bool {
    exists|k: int|
        0 <= k < stored_fields(columns).len() && encode_failure(
            (#[trigger] stored_fields(columns)[k]).encoding_of(),
            stored_fields(columns)[k].column_of(rows),
            e,
        )
}

/// Where the schema has its last column of that name.
fn find_last(schema: &Schema, name: &str) -> (r: Option<usize>)
    ensures
        match last_named(schema@, name@) {
            Some(i) => r matches Some(k) && k == i && k < schema@.len(),
            None => r is None,
        },
{
    let mut n: usize = schema.columns.len();
    assert(schema@.take(n as int) =~= schema@);
    while n > 0
        invariant
            n <= schema.columns@.len(),
            schema@.len() == schema.columns@.len(),
            last_named(schema@, name@) == last_named(schema@.take(n as int), name@),
        decreases n,
    {
        proof {
            assert(schema@.take(n as int).drop_last() =~= schema@.take(n - 1));
        }
        if text_eq(schema.columns[n - 1].name.as_str(), name) {
            return Some(n - 1);
        }
        n = n - 1;
    }
    None
}

proof fn lemma_fields_prefix(columns: Seq<ColumnView>, n: nat, m: nat)
    requires
        n <= m,
    ensures
        fields_in(columns, n).len() <= fields_in(columns, m).len(),
        forall|k: int|
            0 <= k < fields_in(columns, n).len() ==> fields_in(columns, n)[k] == #[trigger] fields_in(
                columns,
                m,
            )[k],
    decreases m,
{
    if n < m {
        lemma_fields_prefix(columns, n, (m - 1) as nat);
    }
}

/// Encodes a row group: one page per field that the schema has a column for.
pub(crate) fn build_row_group(rows: &[SpanRecord], schema: &Schema) -> (r: Result<
    (Vec<u8>, RowGroupHeader, Ghost<Seq<PageEntry>>),
    ZenError,
>)
    requires
        rows@.len() <= u32::MAX,
    ensures
        match r {
            Ok((payload, header, pages)) => {
                &&& is_row_group(schema@, record_spans(rows@), pages@)
                &&& payload@ == flat(entry_bytes(pages@))
                &&& header@ == relative_header(rows@.len() as u32, pages@)
            },
            Err(e) => row_group_failure(schema@, record_spans(rows@), e@),
        },
{
    let ghost spans = record_spans(rows@);
    let mut rgb = RowGroupBuilder::new(rows.len() as u32);
    let mut i: usize = 0;
    while i < FIELD_COUNT
        invariant
            i <= FIELD_COUNT,
            rows@.len() <= u32::MAX,
            spans == record_spans(rows@),
            rgb.row_count == rows@.len(),
            rgb@.len() == fields_in(schema@, i as nat).len(),
            forall|k: int|
                0 <= k < rgb@.len() ==> is_field_page(
                    schema@,
                    spans,
                    fields_in(schema@, i as nat)[k],
                    #[trigger] rgb@[k],
                ),
        decreases FIELD_COUNT - i,
    {
        let f = Field::at(i);
        match find_last(schema, f.name()) {
            Some(c) => {
                let (values, size) = f.column(rows);
                let ghost before = rgb@;
                match encode_page(values, f.encoding()) {
                    Ok((e, bytes)) => {
                        rgb.add_page(low_u32(c), e, bytes, size);
                        assert(is_field_page(schema@, spans, f, rgb@[before.len() as int]));
                        assert forall|k: int| 0 <= k < rgb@.len() implies is_field_page(
                            schema@,
                            spans,
                            fields_in(schema@, (i + 1) as nat)[k],
                            #[trigger] rgb@[k],
                        ) by {
                            if k < before.len() {
                                assert(rgb@[k] == before[k]);
                            }
                        }
                    },
                    Err(e) => {
                        proof {
                            let k = fields_in(schema@, i as nat).len() as int;
                            lemma_fields_prefix(schema@, (i + 1) as nat, FIELD_COUNT as nat);
                            assert(fields_in(schema@, (i + 1) as nat)[k] == f);
                            assert(stored_fields(schema@)[k] == f);
                        }
                        return Err(e);
                    },
                }
            },
            None => {},
        }
        i = i + 1;
    }
    let ghost pages = rgb@;
    let (payload, header) = rgb.finish();
    Ok((payload, header, Ghost(pages)))
}

} // verus!
