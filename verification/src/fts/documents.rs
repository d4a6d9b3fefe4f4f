//! What is indexed: one document per row, with the texts of the configured fields.
use crate::common::errors::{ErrorView, ZenError};
use crate::common::record::SpanRecord;
use crate::cursor::string_views;
use crate::text::{opt_text, text_eq};
use vstd::prelude::*;
use vstd::string::*;

verus! {

#[derive(Clone, Debug)]
pub struct BuildOptions {
    /// Field names being indexed, in priority order.
    pub field_names: Vec<String>,
    /// Memory budget for the writer (bytes).
    pub writer_memory_bytes: usize,
}

impl Default for BuildOptions {
    fn default() -> (r: Self)
        ensures
            string_views(r.field_names@) == seq!["prompt"@, "completion"@, "tool_io_text"@],
            r.writer_memory_bytes == 50_000_000,
    {
        let field_names: Vec<String> = vec![
            String::from_str("prompt"),
            String::from_str("completion"),
            String::from_str("tool_io_text"),
        ];
        assert(string_views(field_names@) =~= seq!["prompt"@, "completion"@, "tool_io_text"@]);
        BuildOptions { field_names, writer_memory_bytes: 50_000_000 }
    }
}

pub struct BuildResult {
    /// Serialized blob suitable for embedding in a segment.
    pub blob: Vec<u8>,
    pub doc_count: usize,
}

#[derive(Clone, Debug)]
pub struct FtsQuery<'a> {
    /// Specific field name to query. If `None`, queries all fields.
    pub field: Option<&'a str>,
    /// User-supplied query string (may include phrase, AND/OR, etc.).
    pub query: &'a str,
    /// Max docs to return.
    pub limit: usize,
}

/// The text of an optional slice.
pub open spec fn opt_str(o: Option<&str>) -> Option<Seq<char>> {
    match o {
        Some(s) => Some(s@),
        None => None,
    }
}

/// Field accessor: per row, the text of each of the configured fields, in the same order as
/// `BuildOptions::field_names`.
pub trait FieldAccessor {
    spec fn rows(&self) -> nat;

    spec fn text(&self, row: int, field_idx: int) -> Option<Seq<char>>;

    fn field(&self, row: usize, field_idx: usize) -> (r: Option<&str>)
        requires
            row < self.rows(),
        ensures
            opt_str(r) == self.text(row as int, field_idx as int),
    ;

    fn row_count(&self) -> (r: usize)
        ensures
            r == self.rows(),
    ;
}

/// The text columns of records: `prompt`, `completion` and `tool_io_text`, in that order.
pub struct SpanFieldAccessor<'a> {
    pub rows: &'a [SpanRecord],
}

fn opt_slice(o: &Option<String>) -> (r: Option<&str>)
    ensures
        opt_str(r) == opt_text(*o),
{
    match o {
        Some(s) => Some(s.as_str()),
        None => None,
    }
}

impl<'a> FieldAccessor for SpanFieldAccessor<'a> {
    open spec fn rows(&self) -> nat {
        self.rows@.len()
    }

    open spec fn text(&self, row: int, field_idx: int) -> Option<Seq<char>> {
        let r = self.rows@[row];
        if field_idx == 0 {
            opt_text(r.prompt)
        } else if field_idx == 1 {
            opt_text(r.completion)
        } else if field_idx == 2 {
            opt_text(r.tool_io_text)
        } else {
            None
        }
    }

    fn field(&self, row: usize, field_idx: usize) -> (r: Option<&str>) {
        match field_idx {
            0 => opt_slice(&self.rows[row].prompt),
            1 => opt_slice(&self.rows[row].completion),
            2 => opt_slice(&self.rows[row].tool_io_text),
            _ => None,
        }
    }

    fn row_count(&self) -> (r: usize) {
        self.rows.len()
    }
}

/// What is indexed of a row: its number, and the texts that it has with the places of their
/// fields.
pub struct Document {
    pub row_idx: u64,
    pub texts: Vec<(usize, String)>,
}

/// The texts of a document, by field.
pub open spec fn text_views(texts: Seq<(usize, String)>) -> Seq<(int, Seq<char>)> {
    Seq::new(texts.len(), |k: int| (texts[k].0 as int, texts[k].1@))
}

/// The texts that a row has in the first `n` fields.
pub open spec fn row_texts<A: FieldAccessor>(a: A, row: int, n: nat) -> Seq<(int, Seq<char>)>
    decreases n,
{
    if n == 0 {
        Seq::empty()
    } else {
        let head = row_texts(a, row, (n - 1) as nat);
        match a.text(row, n - 1) {
            Some(t) => head.push((n - 1, t)),
            None => head,
        }
    }
}

fn row_document<A: FieldAccessor>(a: &A, row: usize, fields: usize) -> (r: Document)
    requires
        row < a.rows(),
    ensures
        r.row_idx == row,
        text_views(r.texts@) == row_texts(*a, row as int, fields as nat),
{
    let mut texts: Vec<(usize, String)> = Vec::new();
    let mut i: usize = 0;
    assert(text_views(texts@) =~= Seq::<(int, Seq<char>)>::empty());
    while i < fields
        invariant
            i <= fields,
            row < a.rows(),
            text_views(texts@) == row_texts(*a, row as int, i as nat),
        decreases fields - i,
    {
        let ghost before = text_views(texts@);
        match a.field(row, i) {
            Some(t) => {
                texts.push((i, String::from_str(t)));
                assert(text_views(texts@) =~= before.push((i as int, t@)));
            },
            None => {},
        }
        i = i + 1;
    }
    Document { row_idx: row as u64, texts }
}

/// The documents of all rows, in order. At least one field is needed.
pub fn documents<A: FieldAccessor>(accessor: &A, opts: &BuildOptions) -> (r: Result<
    Vec<Document>,
    ZenError,
>)
    ensures
        if opts.field_names@.len() == 0 {
            r matches Err(e) && e@ == ErrorView::Invalid("FTS requires at least one field"@)
        } else {
            r matches Ok(docs) && docs@.len() == accessor.rows() && forall|i: int|
                0 <= i < docs@.len() ==> (#[trigger] docs@[i]).row_idx == i && text_views(
                    docs@[i].texts@,
                ) == row_texts(*accessor, i, opts.field_names@.len())
        },
{
    let fields: usize = opts.field_names.len();
    if fields == 0 {
        return Err(ZenError::invalid("FTS requires at least one field"));
    }
    let n: usize = accessor.row_count();
    let mut docs: Vec<Document> = Vec::new();
    let mut i: usize = 0;
    while i < n
        invariant
            i <= n,
            n == accessor.rows(),
            docs@.len() == i,
            fields == opts.field_names@.len(),
            forall|k: int|
                0 <= k < docs@.len() ==> (#[trigger] docs@[k]).row_idx == k && text_views(
                    docs@[k].texts@,
                ) == row_texts(*accessor, k, opts.field_names@.len()),
        decreases n - i,
    {
        docs.push(row_document(accessor, i, fields));
        i = i + 1;
    }
    Ok(docs)
}

/// The name of the field that holds a row's number.
pub open spec fn is_row_field(name: Seq<char>) -> bool {
    name == "__row_idx"@
}

/// The places of the fields that hold text, among the first `n` names.
pub open spec fn text_places(names: Seq<Seq<char>>, n: nat) -> Seq<int>
    decreases n,
{
    if n == 0 {
        Seq::empty()
    } else {
        let head = text_places(names, (n - 1) as nat);
        if is_row_field(names[n - 1]) {
            head
        } else {
            head.push(n - 1)
        }
    }
}

/// The fields of an index: that of the row's number, and those that hold text.
pub struct IndexFields {
    pub row_idx: usize,
    pub texts: Vec<usize>,
}

/// Tells the field of the row's number apart from the fields that hold text. An index
/// without the former is not one of a segment.
pub fn index_fields(names: &Vec<String>) -> (r: Result<IndexFields, ZenError>)
    ensures
        if exists|k: int| 0 <= k < names@.len() && is_row_field(#[trigger] names@[k]@) {
            r matches Ok(f) && f.row_idx < names@.len() && is_row_field(names@[f.row_idx as int]@)
                && (forall|k: int|
                f.row_idx < k < names@.len() ==> !is_row_field(#[trigger] names@[k]@))
                && f.texts@.map_values(|p: usize| p as int) == text_places(
                string_views(names@),
                names@.len(),
            )
        } else {
            r matches Err(e) && e@ == ErrorView::Format("FTS index missing __row_idx field"@)
        },
{
    let mut row_idx: Option<usize> = None;
    let mut texts: Vec<usize> = Vec::new();
    let mut i: usize = 0;
    assert(texts@.map_values(|p: usize| p as int) =~= Seq::<int>::empty());
    while i < names.len()
        invariant
            i <= names@.len(),
            row_idx is None ==> forall|k: int| 0 <= k < i ==> !is_row_field(#[trigger] names@[k]@),
            row_idx matches Some(p) ==> p < i && is_row_field(names@[p as int]@) && forall|k: int|
                p < k < i ==> !is_row_field(#[trigger] names@[k]@),
            texts@.map_values(|p: usize| p as int) == text_places(string_views(names@), i as nat),
        decreases names@.len() - i,
    {
        let ghost before = texts@.map_values(|p: usize| p as int);
        assert(string_views(names@)[i as int] == names@[i as int]@);
        if text_eq(names[i].as_str(), "__row_idx") {
            row_idx = Some(i);
        } else {
            texts.push(i);
            assert(texts@.map_values(|p: usize| p as int) =~= before.push(i as int));
        }
        i = i + 1;
    }
    match row_idx {
        Some(row_idx) => Ok(IndexFields { row_idx, texts }),
        None => Err(ZenError::format("FTS index missing __row_idx field")),
    }
}

} // verus!
