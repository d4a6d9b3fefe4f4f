//! Headers of client tokens.
use crate::text::opt_text;
use vstd::prelude::*;

verus! {

/// Which key the header of a token names, if any; nothing at all if the header cannot be
/// read.
pub uninterp spec fn jwt_kid_of(token: Seq<char>) -> Option<Option<Seq<char>>>;

/// Calls `jsonwebtoken::decode_header` and takes the key identifier from the header.
#[verifier::external_body]
pub(crate) fn jwt_kid(token: &str) -> (r: Option<Option<String>>)
    ensures
        r is None <==> jwt_kid_of(token@) is None,
        r matches Some(k) ==> jwt_kid_of(token@) == Some(opt_text(k)),
{
    let header = jsonwebtoken::decode_header(token).ok()?;
    Some(header.kid)
}

} // verus!
