//! JSON documents.
use vstd::prelude::*;

verus! {

/// What `serde_json` writes in compact form after reading `text`, if `text` is JSON.
pub uninterp spec fn json_compact_of(text: Seq<u8>) -> Option<Seq<u8>>;

/// Calls `serde_json::from_slice` and writes the value that it read with
/// `serde_json::to_vec`: the compact form of a JSON text, or nothing if it is no JSON.
#[verifier::external_body]
pub(crate) fn json_compact(text: &[u8]) -> (r: Option<Vec<u8>>)
    ensures
        r matches Some(v) ==> json_compact_of(text@) == Some(v@),
        r is None ==> json_compact_of(text@) is None,
{
    let v: serde_json::Value = serde_json::from_slice(text).ok()?;
    Some(serde_json::to_vec(&v).unwrap_or_default())
}

} // verus!
