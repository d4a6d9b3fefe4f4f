//! How identifiers are stored in catalog columns.
use crate::common::errors::{ErrorView, ZenError};
use crate::common::types::{SchemaFingerprint, TraceId};
use crate::cursor::{put_u128, Cursor};
use crate::format::page::array16;
use crate::wire::{le, le_bytes, lemma_le_of_le_bytes, lemma_pow256_values};
use vstd::prelude::*;
use vstd::slice::slice_subrange;

verus! {

/// A fingerprint as a column stores it: sixteen bytes, the lowest first.
pub fn fp_to_bytes(fp: SchemaFingerprint) -> (r: Vec<u8>)
    ensures
        r@ == le_bytes(fp.0 as nat, 16),
{
    let mut out: Vec<u8> = Vec::new();
    put_u128(&mut out, fp.0);
    assert(out@ =~= le_bytes(fp.0 as nat, 16));
    out
}

/// The fingerprint that the first sixteen bytes of a column hold.
pub fn fp_from_bytes(b: &[u8]) -> (r: SchemaFingerprint)
    requires
        b@.len() >= 16,
    ensures
        r.0 == le(b@.take(16)),
{
    let head = slice_subrange(b, 0, 16);
    let mut c = Cursor::new(head);
    assert(head@ =~= b@.take(16));
    match c.take_u128() {
        Some(v) => {
            assert(head@.subrange(0, 16) =~= head@);
            SchemaFingerprint(v)
        },
        None => SchemaFingerprint(0),
    }
}

/// A fingerprint reads back from its column.
pub proof fn fingerprint_round_trip(fp: SchemaFingerprint)
    ensures
        le_bytes(fp.0 as nat, 16).len() == 16,
        le(le_bytes(fp.0 as nat, 16).take(16)) == fp.0,
{
    lemma_pow256_values();
    lemma_le_of_le_bytes(fp.0 as nat, 16);
    assert(le_bytes(fp.0 as nat, 16).take(16) =~= le_bytes(fp.0 as nat, 16));
}

/// The trace identifier that a column holds.
pub fn trace_from_bytes(b: &[u8]) -> (r: Result<TraceId, ZenError>)
    ensures
        if b@.len() == 16 {
            r matches Ok(t) && t.0@ == b@
        } else {
            r matches Err(e) && e@ == ErrorView::Catalog("trace_id length != 16"@)
        },
{
    if b.len() != 16 {
        return Err(ZenError::catalog("trace_id length != 16"));
    }
    let a = array16(b, 0);
    assert(a@ =~= b@);
    Ok(TraceId(a))
}

} // verus!
