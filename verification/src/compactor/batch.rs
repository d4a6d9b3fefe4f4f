//! Columnar batches of spans, as the write-ahead log holds them.
use crate::common::record::{blank_span, record_spans, Span, SpanRecord};
use crate::common::types::{filled16, CommitId, PartitionId, SpanId, TenantId, TraceId};
use crate::format::page::array16;
use crate::outside::json::{json_compact, json_compact_of};
use crate::text::{opt_text, text_eq};
use vstd::prelude::*;
use vstd::string::*;
use vstd::utf8::encode_utf8;

verus! {

/// The cells of one column: for each row whether it is null, and the value in its slot.
/// Floats are held by their bit patterns; `Other` is a column of a type that spans have
/// no use for.
pub enum Cells {
    U64(Vec<(bool, u64)>),
    U32(Vec<(bool, u32)>),
    I64(Vec<(bool, i64)>),
    F64(Vec<(bool, u64)>),
    Fixed(Vec<(bool, Vec<u8>)>),
    Text(Vec<(bool, String)>),
    Other,
}

/// The content of a column.
pub ghost enum CellsView {
    U64(Seq<(bool, u64)>),
    U32(Seq<(bool, u32)>),
    I64(Seq<(bool, i64)>),
    F64(Seq<(bool, u64)>),
    Fixed(Seq<(bool, Seq<u8>)>),
    Text(Seq<(bool, Seq<char>)>),
    Other,
}

/// The slots of a column of byte strings.
pub open spec fn fixed_slots(v: Seq<(bool, Vec<u8>)>) -> Seq<(bool, Seq<u8>)> {
    Seq::new(v.len(), |i: int| (v[i].0, v[i].1@))
}

/// The slots of a column of texts.
pub open spec fn text_slots(v: Seq<(bool, String)>) -> Seq<(bool, Seq<char>)> {
    Seq::new(v.len(), |i: int| (v[i].0, v[i].1@))
}

impl Cells {
    pub open spec fn view(&self) -> CellsView {
        match self {
            Cells::U64(v) => CellsView::U64(v@),
            Cells::U32(v) => CellsView::U32(v@),
            Cells::I64(v) => CellsView::I64(v@),
            Cells::F64(v) => CellsView::F64(v@),
            Cells::Fixed(v) => CellsView::Fixed(fixed_slots(v@)),
            Cells::Text(v) => CellsView::Text(text_slots(v@)),
            Cells::Other => CellsView::Other,
        }
    }

    fn has_len(&self, rows: usize) -> (r: bool)
        ensures
            r == self@.has_len(rows as nat),
    {
        match self {
            Cells::U64(v) => v.len() == rows,
            Cells::U32(v) => v.len() == rows,
            Cells::I64(v) => v.len() == rows,
            Cells::F64(v) => v.len() == rows,
            Cells::Fixed(v) => v.len() == rows,
            Cells::Text(v) => v.len() == rows,
            Cells::Other => true,
        }
    }
}

impl CellsView {
    /// The column has a cell for each of `rows` rows.
    pub open spec fn has_len(self, rows: nat) -> bool {
        match self {
            CellsView::U64(v) => v.len() == rows,
            CellsView::U32(v) => v.len() == rows,
            CellsView::I64(v) => v.len() == rows,
            CellsView::F64(v) => v.len() == rows,
            CellsView::Fixed(v) => v.len() == rows,
            CellsView::Text(v) => v.len() == rows,
            CellsView::Other => true,
        }
    }
}

/// A named column.
pub struct BatchColumn {
    pub name: String,
    pub cells: Cells,
}

/// A batch of rows in named columns of one length.
pub struct SpanBatch {
    rows: usize,
    columns: Vec<BatchColumn>,
}

/// The content of a batch: how many rows it has, and its columns by name.
pub ghost struct BatchView {
    pub rows: nat,
    pub columns: Seq<(Seq<char>, CellsView)>,
}

/// The columns of a batch with their names.
pub open spec fn column_views(v: Seq<BatchColumn>) -> Seq<(Seq<char>, CellsView)> {
    Seq::new(v.len(), |i: int| (v[i].name@, v[i].cells@))
}

impl BatchView {
    /// Every column has a cell for every row.
    pub open spec fn wf(self) -> bool {
        forall|i: int| 0 <= i < self.columns.len() ==> (#[trigger] self.columns[i]).1.has_len(self.rows)
    }

    /// The first column of that name.
    pub open spec fn column(self, name: Seq<char>) -> Option<CellsView> {
        first_named(self.columns, name)
    }

    /// The cells of the unsigned column `name`.
    pub open spec fn u64s(self, name: Seq<char>) -> Option<Seq<(bool, u64)>> {
        match self.column(name) {
            Some(CellsView::U64(v)) => Some(v),
            _ => None,
        }
    }

    pub open spec fn u32s(self, name: Seq<char>) -> Option<Seq<(bool, u32)>> {
        match self.column(name) {
            Some(CellsView::U32(v)) => Some(v),
            _ => None,
        }
    }

    pub open spec fn i64s(self, name: Seq<char>) -> Option<Seq<(bool, i64)>> {
        match self.column(name) {
            Some(CellsView::I64(v)) => Some(v),
            _ => None,
        }
    }

    pub open spec fn f64s(self, name: Seq<char>) -> Option<Seq<(bool, u64)>> {
        match self.column(name) {
            Some(CellsView::F64(v)) => Some(v),
            _ => None,
        }
    }

    pub open spec fn fixeds(self, name: Seq<char>) -> Option<Seq<(bool, Seq<u8>)>> {
        match self.column(name) {
            Some(CellsView::Fixed(v)) => Some(v),
            _ => None,
        }
    }

    pub open spec fn texts(self, name: Seq<char>) -> Option<Seq<(bool, Seq<char>)>> {
        match self.column(name) {
            Some(CellsView::Text(v)) => Some(v),
            _ => None,
        }
    }

    /// The identifiers of row `i` are 16 bytes wide; a null parent may have any width.
    pub open spec fn ids_fit(self, i: int) -> bool {
        &&& self.fixeds("trace_id"@) matches Some(v) ==> v[i].1.len() == 16
        &&& self.fixeds("span_id"@) matches Some(v) ==> v[i].1.len() == 16
        &&& present(self.fixeds("parent_span_id"@), i) matches Some(p) ==> p.len() == 16
    }

    /// The identifiers of all rows are 16 bytes wide.
    pub open spec fn all_ids_fit(self) -> bool {
        forall|i: int| 0 <= i < self.rows ==> #[trigger] self.ids_fit(i)
    }

    /// The span in row `i`. A column that is missing or of another type leaves the
    /// default; required columns are read whether or not the cell is null.
    pub open spec fn span(self, i: int) -> Span {
        Span {
            tenant_id: TenantId(slot(self.u64s("tenant_id"@), i, 0)),
            partition_id: PartitionId(slot(self.u32s("partition_id"@), i, 0)),
            trace_id: slot(self.fixeds("trace_id"@), i, blank_span().trace_id),
            span_id: slot(self.fixeds("span_id"@), i, blank_span().span_id),
            parent_span_id: present(self.fixeds("parent_span_id"@), i),
            start_time_ms: slot(self.i64s("start_time_ms"@), i, 0),
            end_time_ms: slot(self.i64s("end_time_ms"@), i, 0),
            duration_ms: slot(self.i64s("duration_ms"@), i, 0),
            span_type: present(self.texts("span_type"@), i),
            status: present(self.texts("status"@), i),
            provider: present(self.texts("provider"@), i),
            model: present(self.texts("model"@), i),
            tool_name: present(self.texts("tool_name"@), i),
            prompt: present(self.texts("prompt"@), i),
            completion: present(self.texts("completion"@), i),
            prompt_tokens: present(self.u32s("prompt_tokens"@), i),
            completion_tokens: present(self.u32s("completion_tokens"@), i),
            cost_usd: present(self.f64s("cost_usd"@), i),
            temperature: present(self.f64s("temperature"@), i),
            top_p: present(self.f64s("top_p"@), i),
            tool_io_text: present(self.texts("tool_io_text"@), i),
            user_id: present(self.texts("user_id"@), i),
            session_id: present(self.texts("session_id"@), i),
            request_id: present(self.texts("request_id"@), i),
            metadata: match present(self.texts("metadata_json"@), i) {
                Some(s) => json_compact_of(encode_utf8(s)),
                None => None,
            },
            embedding: None,
            commit_id: CommitId(slot(self.u64s("commit_id"@), i, 0)),
        }
    }

    /// The spans of all rows.
    pub open spec fn spans(self) -> Seq<Span> {
        Seq::new(self.rows, |i: int| self.span(i))
    }
}

/// The first column of that name.
pub open spec fn first_named(columns: Seq<(Seq<char>, CellsView)>, name: Seq<char>) -> Option<CellsView>
    decreases columns.len(),
{
    if columns.len() == 0 {
        None
    } else if columns[0].0 == name {
        Some(columns[0].1)
    } else {
        first_named(columns.drop_first(), name)
    }
}

/// The value in the slot of row `i`, null or not; without a column, the default.
pub open spec fn slot<T>(col: Option<Seq<(bool, T)>>, i: int, default: T) -> T {
    match col {
        Some(v) => v[i].1,
        None => default,
    }
}

/// The value of row `i`, if there is a column and the cell is not null.
pub open spec fn present<T>(col: Option<Seq<(bool, T)>>, i: int) -> Option<T> {
    match col {
        Some(v) => if v[i].0 { None } else { Some(v[i].1) },
        None => None,
    }
}

/// The cells of a column that may be missing.
pub open spec fn cells_of<T>(col: Option<&Vec<(bool, T)>>) -> Option<Seq<(bool, T)>> {
    match col {
        Some(v) => Some(v@),
        None => None,
    }
}

pub open spec fn fixed_cells_of(col: Option<&Vec<(bool, Vec<u8>)>>) -> Option<Seq<(bool, Seq<u8>)>> {
    match col {
        Some(v) => Some(fixed_slots(v@)),
        None => None,
    }
}

pub open spec fn text_cells_of(col: Option<&Vec<(bool, String)>>) -> Option<Seq<(bool, Seq<char>)>> {
    match col {
        Some(v) => Some(text_slots(v@)),
        None => None,
    }
}

/// The slot of row `i`, or the default where there is no column.
fn slot_of<T: Copy>(col: Option<&Vec<(bool, T)>>, i: usize, default: T) -> (r: T)
    requires
        col matches Some(v) ==> i < v@.len(),
    ensures
        r == slot(cells_of(col), i as int, default),
{
    match col {
        Some(v) => v[i].1,
        None => default,
    }
}

/// The value of row `i`, if there is a column and the cell is not null.
fn present_of<T: Copy>(col: Option<&Vec<(bool, T)>>, i: usize) -> (r: Option<T>)
    requires
        col matches Some(v) ==> i < v@.len(),
    ensures
        r == present(cells_of(col), i as int),
{
    match col {
        Some(v) => if v[i].0 {
            None
        } else {
            Some(v[i].1)
        },
        None => None,
    }
}

/// The text of row `i`, if there is a column and the cell is not null.
fn text_of(col: Option<&Vec<(bool, String)>>, i: usize) -> (r: Option<String>)
    requires
        col matches Some(v) ==> i < v@.len(),
    ensures
        opt_text(r) == present(text_cells_of(col), i as int),
{
    match col {
        Some(v) => if v[i].0 {
            None
        } else {
            Some(v[i].1.clone())
        },
        None => None,
    }
}

impl SpanBatch {
    pub closed spec fn view(&self) -> BatchView {
        BatchView { rows: self.rows as nat, columns: column_views(self.columns@) }
    }

    #[verifier::type_invariant]
    spec fn inv(&self) -> bool {
        self@.wf()
    }

    /// A batch of those columns, if each has a cell for every row.
    pub fn new(rows: usize, columns: Vec<BatchColumn>) -> (r: Option<Self>)
        ensures
            r is Some <==> (BatchView { rows: rows as nat, columns: column_views(columns@) }).wf(),
            r matches Some(b) ==> b@ == (BatchView {
                rows: rows as nat,
                columns: column_views(columns@),
            }),
    {
        let ghost view = BatchView { rows: rows as nat, columns: column_views(columns@) };
        let mut i: usize = 0;
        while i < columns.len()
            invariant
                i <= columns@.len(),
                view == (BatchView { rows: rows as nat, columns: column_views(columns@) }),
                forall|k: int| 0 <= k < i ==> (#[trigger] view.columns[k]).1.has_len(rows as nat),
            decreases columns.len() - i,
        {
            assert(view.columns[i as int].1 == columns@[i as int].cells@);
            if !columns[i].cells.has_len(rows) {
                return None;
            }
            i = i + 1;
        }
        assert(view.wf());
        Some(SpanBatch { rows, columns })
    }

    pub fn num_rows(&self) -> (r: usize)
        ensures
            r == self@.rows,
    {
        self.rows
    }

    /// The first column of that name.
    fn column(&self, name: &str) -> (r: Option<&Cells>)
        ensures
            match r {
                Some(c) => self@.column(name@) == Some(c@) && c@.has_len(self@.rows),
                None => self@.column(name@) is None,
            },
    {
        proof {
            use_type_invariant(self);
        }
        let ghost all = self@.columns;
        let mut i: usize = 0;
        assert(all.skip(0) =~= all);
        while i < self.columns.len()
            invariant
                i <= self.columns@.len(),
                all == column_views(self.columns@),
                all == self@.columns,
                self@.wf(),
                first_named(all, name@) == first_named(all.skip(i as int), name@),
            decreases self.columns.len() - i,
        {
            assert(all.skip(i as int).drop_first() =~= all.skip(i + 1));
            assert(all.skip(i as int)[0] == all[i as int]);
            if text_eq(self.columns[i].name.as_str(), name) {
                return Some(&self.columns[i].cells);
            }
            i = i + 1;
        }
        None
    }

    pub(crate) fn u64_column(&self, name: &str) -> (r: Option<&Vec<(bool, u64)>>)
        ensures
            r matches Some(v) ==> v@.len() == self@.rows,
            cells_of(r) == self@.u64s(name@),
    {
        match self.column(name) {
            Some(Cells::U64(v)) => Some(v),
            _ => None,
        }
    }

    fn u32_column(&self, name: &str) -> (r: Option<&Vec<(bool, u32)>>)
        ensures
            r matches Some(v) ==> v@.len() == self@.rows,
            cells_of(r) == self@.u32s(name@),
    {
        match self.column(name) {
            Some(Cells::U32(v)) => Some(v),
            _ => None,
        }
    }

    pub(crate) fn i64_column(&self, name: &str) -> (r: Option<&Vec<(bool, i64)>>)
        ensures
            r matches Some(v) ==> v@.len() == self@.rows,
            cells_of(r) == self@.i64s(name@),
    {
        match self.column(name) {
            Some(Cells::I64(v)) => Some(v),
            _ => None,
        }
    }

    fn f64_column(&self, name: &str) -> (r: Option<&Vec<(bool, u64)>>)
        ensures
            r matches Some(v) ==> v@.len() == self@.rows,
            cells_of(r) == self@.f64s(name@),
    {
        match self.column(name) {
            Some(Cells::F64(v)) => Some(v),
            _ => None,
        }
    }

    pub(crate) fn fixed_column(&self, name: &str) -> (r: Option<&Vec<(bool, Vec<u8>)>>)
        ensures
            r matches Some(v) ==> v@.len() == self@.rows,
            fixed_cells_of(r) == self@.fixeds(name@),
    {
        match self.column(name) {
            Some(Cells::Fixed(v)) => Some(v),
            _ => None,
        }
    }

    fn text_column(&self, name: &str) -> (r: Option<&Vec<(bool, String)>>)
        ensures
            r matches Some(v) ==> v@.len() == self@.rows,
            text_cells_of(r) == self@.texts(name@),
    {
        match self.column(name) {
            Some(Cells::Text(v)) => Some(v),
            _ => None,
        }
    }

    /// Whether the identifiers of all rows are 16 bytes wide.
    pub fn ids_fit(&self) -> (r: bool)
        ensures
            r == self@.all_ids_fit(),
    {
        let trace_id = self.fixed_column("trace_id");
        let span_id = self.fixed_column("span_id");
        let parent_span_id = self.fixed_column("parent_span_id");
        let mut i: usize = 0;
        while i < self.rows
            invariant
                i <= self@.rows,
                self@.rows == self.rows,
                trace_id matches Some(v) ==> v@.len() == self@.rows,
                span_id matches Some(v) ==> v@.len() == self@.rows,
                parent_span_id matches Some(v) ==> v@.len() == self@.rows,
                fixed_cells_of(trace_id) == self@.fixeds("trace_id"@),
                fixed_cells_of(span_id) == self@.fixeds("span_id"@),
                fixed_cells_of(parent_span_id) == self@.fixeds("parent_span_id"@),
                forall|k: int| 0 <= k < i ==> #[trigger] self@.ids_fit(k),
            decreases self.rows - i,
        {
            let trace_ok = match trace_id {
                Some(v) => v[i].1.len() == 16,
                None => true,
            };
            let span_ok = match span_id {
                Some(v) => v[i].1.len() == 16,
                None => true,
            };
            let parent_ok = match parent_span_id {
                Some(v) => v[i].0 || v[i].1.len() == 16,
                None => true,
            };
            assert(self@.ids_fit(i as int) == (trace_ok && span_ok && parent_ok));
            if !(trace_ok && span_ok && parent_ok) {
                return false;
            }
            i = i + 1;
        }
        true
    }
}

/// The identifier of row `i`; without a column, all zeros.
fn id_of(col: Option<&Vec<(bool, Vec<u8>)>>, i: usize) -> (r: [u8; 16])
    requires
        col matches Some(v) ==> i < v@.len() && v@[i as int].1@.len() == 16,
    ensures
        r@ == (match col {
            Some(v) => v@[i as int].1@,
            None => blank_span().trace_id,
        }),
{
    match col {
        Some(v) => {
            let r = array16(v[i].1.as_slice(), 0);
            assert(r@ =~= v@[i as int].1@);
            r
        },
        None => filled16(0),
    }
}

/// Appends the spans of a batch, row by row.
pub fn arrow_to_records(batch: &SpanBatch, out: &mut Vec<SpanRecord>)
    requires
        batch@.all_ids_fit(),
    ensures
        record_spans(final(out)@) == record_spans(old(out)@) + batch@.spans(),
{
    let tenant = batch.u64_column("tenant_id");
    let partition = batch.u32_column("partition_id");
    let trace_id = batch.fixed_column("trace_id");
    let span_id = batch.fixed_column("span_id");
    let parent_span_id = batch.fixed_column("parent_span_id");
    let start_time = batch.i64_column("start_time_ms");
    let end_time = batch.i64_column("end_time_ms");
    let duration = batch.i64_column("duration_ms");
    let span_type = batch.text_column("span_type");
    let status = batch.text_column("status");
    let provider = batch.text_column("provider");
    let model = batch.text_column("model");
    let tool_name = batch.text_column("tool_name");
    let prompt = batch.text_column("prompt");
    let completion = batch.text_column("completion");
    let prompt_tokens = batch.u32_column("prompt_tokens");
    let completion_tokens = batch.u32_column("completion_tokens");
    let cost_usd = batch.f64_column("cost_usd");
    let temperature = batch.f64_column("temperature");
    let top_p = batch.f64_column("top_p");
    let tool_io_text = batch.text_column("tool_io_text");
    let user_id = batch.text_column("user_id");
    let session_id = batch.text_column("session_id");
    let request_id = batch.text_column("request_id");
    let metadata_json = batch.text_column("metadata_json");
    let commit_id = batch.u64_column("commit_id");
    let n = batch.num_rows();
    let ghost before = record_spans(out@);
    let mut i: usize = 0;
    assert(record_spans(out@) =~= before + batch@.spans().take(0));
    #[verifier::loop_isolation(false)]
    while i < n
        invariant
            i <= n,
            record_spans(out@) == before + batch@.spans().take(i as int),
        decreases n - i,
    {
        assert(batch@.ids_fit(i as int));
        let ghost b = batch@;
        let parent = match parent_span_id {
            Some(v) => if v[i].0 {
                None
            } else {
                let id = array16(v[i].1.as_slice(), 0);
                assert(id@ =~= v@[i as int].1@);
                Some(SpanId(id))
            },
            None => None,
        };
        let metadata = match text_of(metadata_json, i) {
            Some(s) => json_compact(s.as_str().as_bytes()),
            None => None,
        };
        let r = SpanRecord {
            tenant_id: TenantId(slot_of(tenant, i, 0)),
            partition_id: PartitionId(slot_of(partition, i, 0)),
            trace_id: TraceId(id_of(trace_id, i)),
            span_id: SpanId(id_of(span_id, i)),
            parent_span_id: parent,
            start_time_ms: slot_of(start_time, i, 0),
            end_time_ms: slot_of(end_time, i, 0),
            duration_ms: slot_of(duration, i, 0),
            span_type: text_of(span_type, i),
            status: text_of(status, i),
            provider: text_of(provider, i),
            model: text_of(model, i),
            tool_name: text_of(tool_name, i),
            prompt: text_of(prompt, i),
            completion: text_of(completion, i),
            prompt_tokens: present_of(prompt_tokens, i),
            completion_tokens: present_of(completion_tokens, i),
            cost_usd: present_of(cost_usd, i),
            temperature: present_of(temperature, i),
            top_p: present_of(top_p, i),
            tool_io_text: text_of(tool_io_text, i),
            user_id: text_of(user_id, i),
            session_id: text_of(session_id, i),
            request_id: text_of(request_id, i),
            metadata,
            embedding: None,
            commit_id: CommitId(slot_of(commit_id, i, 0)),
        };
        proof {
            assert(r@.trace_id == b.span(i as int).trace_id);
            assert(r@.span_id == b.span(i as int).span_id);
            assert(r@.parent_span_id == b.span(i as int).parent_span_id);
            assert(r@.metadata == b.span(i as int).metadata);
            assert(r@ == b.span(i as int));
        }
        let ghost prev = out@;
        out.push(r);
        proof {
            assert(record_spans(out@) =~= record_spans(prev).push(r@));
            assert(b.spans().take(i + 1) =~= b.spans().take(i as int).push(b.span(i as int)));
            assert(record_spans(out@) =~= before + b.spans().take(i + 1));
        }
        i = i + 1;
    }
    assert(batch@.spans().take(n as int) =~= batch@.spans());
}

} // verus!
