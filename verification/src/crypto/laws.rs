//! How an envelope is laid out, and what is refused.
use crate::crypto::envelope::{
    envelope, envelope_parts, envelope_parts_round_trip, sealed_envelope, EnvelopeFault, MAGIC,
};
use crate::outside::aead::aes_gcm_seal;
use vstd::prelude::*;

verus! {

/// An envelope begins with "ZENV" and a one. The nonce and the wrapped data key follow, and
/// behind them the nonce and the ciphertext of the payload.
pub proof fn envelopes_have_their_layout(
    key_nonce: Seq<u8>,
    wrapped: Seq<u8>,
    payload_nonce: Seq<u8>,
    sealed: Seq<u8>,
)
    requires
        key_nonce.len() == 12,
        wrapped.len() == 48,
        payload_nonce.len() == 12,
    ensures
        ({
            let e = envelope(key_nonce, wrapped, payload_nonce, sealed);
            &&& e.len() == 77 + sealed.len()
            &&& e[0] == 0x5a && e[1] == 0x45 && e[2] == 0x4e && e[3] == 0x56 && e[4] == 1
            &&& e.subrange(5, 17) == key_nonce
            &&& e.subrange(17, 65) == wrapped
            &&& e.subrange(65, 77) == payload_nonce
            &&& e.skip(77) == sealed
        }),
{
    let e = envelope(key_nonce, wrapped, payload_nonce, sealed);
    assert(e.subrange(5, 17) =~= key_nonce);
    assert(e.subrange(17, 65) =~= wrapped);
    assert(e.subrange(65, 77) =~= payload_nonce);
    assert(e.skip(77) =~= sealed);
}

/// Bytes are taken apart only where they are the envelope of their parts, and all such bytes
/// are.
pub proof fn only_envelopes_are_opened(blob: Seq<u8>)
    ensures
        match envelope_parts(blob) {
            Ok(p) => p.key_nonce.len() == 12 && p.wrapped.len() == 48 && p.payload_nonce.len() == 12
                && blob == envelope(p.key_nonce, p.wrapped, p.payload_nonce, p.sealed),
            Err(EnvelopeFault::TooShort) => blob.len() < 77,
            Err(EnvelopeFault::BadMagic) => blob.len() >= 77 && !(blob[0] == 0x5a && blob[1] == 0x45
                && blob[2] == 0x4e && blob[3] == 0x56),
            Err(EnvelopeFault::UnsupportedVersion(v)) => blob.len() >= 77 && v == blob[4] && v != 1,
            Err(_) => false,
        },
{
    if blob.len() >= 77 {
        if blob[0] == 0x5a && blob[1] == 0x45 && blob[2] == 0x4e && blob[3] == 0x56 {
            assert(blob.take(4) =~= MAGIC@);
        }
        if let Ok(p) = envelope_parts(blob) {
            let e = envelope(p.key_nonce, p.wrapped, p.payload_nonce, p.sealed);
            assert(blob.take(4)[0] == blob[0]);
            assert(blob =~= e) by {
                assert forall|i: int| 0 <= i < blob.len() implies blob[i] == e[i] by {
                    if i < 4 {
                        assert(blob.take(4)[i] == blob[i]);
                    }
                }
            }
        }
    }
}

/// What was encrypted comes apart into the key as the root key wrapped it and the payload as
/// the data key seals it.
pub proof fn encrypted_payloads_come_apart(
    plain: Seq<u8>,
    data_key: Seq<u8>,
    payload_nonce: Seq<u8>,
    key_nonce: Seq<u8>,
    wrapped: Seq<u8>,
    blob: Seq<u8>,
)
    requires
        payload_nonce.len() == 12,
        sealed_envelope(
            plain,
            data_key,
            payload_nonce,
            Ok::<(Seq<u8>, Seq<u8>), Seq<char>>((key_nonce, wrapped)),
        ) == Ok::<Seq<u8>, EnvelopeFault>(blob),
    ensures
        envelope_parts(blob) matches Ok(p) && p.key_nonce == key_nonce && p.wrapped == wrapped
            && p.payload_nonce == payload_nonce && p.sealed == aes_gcm_seal(
            data_key,
            payload_nonce,
            plain,
        ),
{
    envelope_parts_round_trip(
        key_nonce,
        wrapped,
        payload_nonce,
        aes_gcm_seal(data_key, payload_nonce, plain),
    );
}

} // verus!
