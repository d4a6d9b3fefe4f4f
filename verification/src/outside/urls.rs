//! Taking URLs apart.
use crate::text::opt_text;
use vstd::prelude::*;

verus! {

/// The scheme and the host, if there is one, that `url` finds in a text; nothing if the
/// text is no URL.
pub uninterp spec fn url_parts_of(text: Seq<char>) -> Option<(Seq<char>, Option<Seq<char>>)>;

/// Calls `url::Url::parse`, and `scheme` and `host_str` on what it gives: the two parts of
/// a URL that say where it leads.
#[verifier::external_body]
pub(crate) fn url_parts(text: &str) -> (r: Option<(String, Option<String>)>)
    ensures
        r is None <==> url_parts_of(text@) is None,
        r matches Some(p) ==> (url_parts_of(text@) matches Some(q) && p.0@ == q.0 && opt_text(p.1) == q.1),
{
    let u = url::Url::parse(text).ok()?;
    Some((u.scheme().to_string(), u.host_str().map(|h| h.to_string())))
}

} // verus!
