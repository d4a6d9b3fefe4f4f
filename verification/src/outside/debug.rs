//! Text for diagnostics.
use crate::text::opt_text;
use vstd::prelude::*;

verus! {

/// What `Debug` writes of an optional text.
pub uninterp spec fn debug_text(s: Option<Seq<char>>) -> Seq<char>;

/// Calls the standard library's `Debug` for `Option<String>`: the variant, and the text in
/// quotes with its special characters escaped.
#[verifier::external_body]
pub(crate) fn debug_opt(s: &Option<String>) -> (r: String)
    ensures
        r@ == debug_text(opt_text(*s)),
{
    format!("{:?}", s)
}

} // verus!
