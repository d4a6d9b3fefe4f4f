//! The crate-wide error type. Keeping it in one place lets higher layers match on a
//! single enum.
use crate::text::concat2;
use vstd::prelude::*;
use vstd::string::*;

verus! {

pub type ZenResult<T> = Result<T, ZenError>;

/// Errors of the storage engine. The variants that stem from I/O and from parsers of
/// outside formats carry the text of the underlying error.
#[derive(Debug)]
pub enum ZenError {
    Io(String),
    TomlDecode(String),
    TomlEncode(String),
    Json(String),
    Ulid(String),
    Invalid(String),
    NotFound(String),
    Conflict(String),
    Format(String),
    Compress(String),
    Storage(String),
    Catalog(String),
    Query(String),
    Compactor(String),
    Internal(String),
}

/// The content of an error, with its detail as text.
pub ghost enum ErrorView {
    Io(Seq<char>),
    TomlDecode(Seq<char>),
    TomlEncode(Seq<char>),
    Json(Seq<char>),
    Ulid(Seq<char>),
    Invalid(Seq<char>),
    NotFound(Seq<char>),
    Conflict(Seq<char>),
    Format(Seq<char>),
    Compress(Seq<char>),
    Storage(Seq<char>),
    Catalog(Seq<char>),
    Query(Seq<char>),
    Compactor(Seq<char>),
    Internal(Seq<char>),
}

impl ZenError {
    pub open spec fn view(&self) -> ErrorView {
        match self {
            ZenError::Io(m) => ErrorView::Io(m@),
            ZenError::TomlDecode(m) => ErrorView::TomlDecode(m@),
            ZenError::TomlEncode(m) => ErrorView::TomlEncode(m@),
            ZenError::Json(m) => ErrorView::Json(m@),
            ZenError::Ulid(m) => ErrorView::Ulid(m@),
            ZenError::Invalid(m) => ErrorView::Invalid(m@),
            ZenError::NotFound(m) => ErrorView::NotFound(m@),
            ZenError::Conflict(m) => ErrorView::Conflict(m@),
            ZenError::Format(m) => ErrorView::Format(m@),
            ZenError::Compress(m) => ErrorView::Compress(m@),
            ZenError::Storage(m) => ErrorView::Storage(m@),
            ZenError::Catalog(m) => ErrorView::Catalog(m@),
            ZenError::Query(m) => ErrorView::Query(m@),
            ZenError::Compactor(m) => ErrorView::Compactor(m@),
            ZenError::Internal(m) => ErrorView::Internal(m@),
        }
    }

    /// The message shown to users: the kind of error, a colon and the detail.
    pub open spec fn text(self) -> Seq<char> {
        match self {
            ZenError::Io(m) => "io: "@ + m@,
            ZenError::TomlDecode(m) => "toml decode: "@ + m@,
            ZenError::TomlEncode(m) => "toml encode: "@ + m@,
            ZenError::Json(m) => "json: "@ + m@,
            ZenError::Ulid(m) => "ulid: "@ + m@,
            ZenError::Invalid(m) => "invalid argument: "@ + m@,
            ZenError::NotFound(m) => "not found: "@ + m@,
            ZenError::Conflict(m) => "conflict: "@ + m@,
            ZenError::Format(m) => "format: "@ + m@,
            ZenError::Compress(m) => "compress: "@ + m@,
            ZenError::Storage(m) => "storage: "@ + m@,
            ZenError::Catalog(m) => "catalog: "@ + m@,
            ZenError::Query(m) => "query: "@ + m@,
            ZenError::Compactor(m) => "compactor: "@ + m@,
            ZenError::Internal(m) => "internal: "@ + m@,
        }
    }

    /// The message shown to users.
    pub fn to_string(&self) -> (r: String)
        ensures
            r@ == self.text(),
    {
        match self {
            ZenError::Io(m) => concat2("io: ", m.as_str()),
            ZenError::TomlDecode(m) => concat2("toml decode: ", m.as_str()),
            ZenError::TomlEncode(m) => concat2("toml encode: ", m.as_str()),
            ZenError::Json(m) => concat2("json: ", m.as_str()),
            ZenError::Ulid(m) => concat2("ulid: ", m.as_str()),
            ZenError::Invalid(m) => concat2("invalid argument: ", m.as_str()),
            ZenError::NotFound(m) => concat2("not found: ", m.as_str()),
            ZenError::Conflict(m) => concat2("conflict: ", m.as_str()),
            ZenError::Format(m) => concat2("format: ", m.as_str()),
            ZenError::Compress(m) => concat2("compress: ", m.as_str()),
            ZenError::Storage(m) => concat2("storage: ", m.as_str()),
            ZenError::Catalog(m) => concat2("catalog: ", m.as_str()),
            ZenError::Query(m) => concat2("query: ", m.as_str()),
            ZenError::Compactor(m) => concat2("compactor: ", m.as_str()),
            ZenError::Internal(m) => concat2("internal: ", m.as_str()),
        }
    }

    pub fn invalid(s: &str) -> (e: Self)
        ensures
            e matches ZenError::Invalid(m) && m@ == s@,
    {
        ZenError::Invalid(String::from_str(s))
    }

    pub fn not_found(s: &str) -> (e: Self)
        ensures
            e matches ZenError::NotFound(m) && m@ == s@,
    {
        ZenError::NotFound(String::from_str(s))
    }

    pub fn format(s: &str) -> (e: Self)
        ensures
            e matches ZenError::Format(m) && m@ == s@,
    {
        ZenError::Format(String::from_str(s))
    }

    pub fn compress(s: &str) -> (e: Self)
        ensures
            e matches ZenError::Compress(m) && m@ == s@,
    {
        ZenError::Compress(String::from_str(s))
    }

    pub fn storage(s: &str) -> (e: Self)
        ensures
            e matches ZenError::Storage(m) && m@ == s@,
    {
        ZenError::Storage(String::from_str(s))
    }

    pub fn catalog(s: &str) -> (e: Self)
        ensures
            e matches ZenError::Catalog(m) && m@ == s@,
    {
        ZenError::Catalog(String::from_str(s))
    }

    pub fn query(s: &str) -> (e: Self)
        ensures
            e matches ZenError::Query(m) && m@ == s@,
    {
        ZenError::Query(String::from_str(s))
    }

    pub fn compactor(s: &str) -> (e: Self)
        ensures
            e matches ZenError::Compactor(m) && m@ == s@,
    {
        ZenError::Compactor(String::from_str(s))
    }

    pub fn internal(s: &str) -> (e: Self)
        ensures
            e matches ZenError::Internal(m) && m@ == s@,
    {
        ZenError::Internal(String::from_str(s))
    }

    pub fn conflict(s: &str) -> (e: Self)
        ensures
            e matches ZenError::Conflict(m) && m@ == s@,
    {
        ZenError::Conflict(String::from_str(s))
    }
}

} // verus!
