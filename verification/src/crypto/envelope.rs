//! Per-segment envelope encryption.
//!
//! ```text
//! [magic 4: ZENV] [ver 1] [data_key_nonce 12] [wrapped_data_key 32+16]
//! [payload_nonce 12] [ciphertext...] [tag 16]
//! ```
use crate::crypto::root::{array12, DataKey, RootKey, RootKeyError, StaticRootKey};
use crate::order::bytes_eq;
use crate::outside::aead::{
    aead_decrypt, aead_encrypt, aes_gcm_open, aes_gcm_seal, random_key, random_nonce,
    MAX_PLAINTEXT,
};
use crate::text::{concat2, decimal, decimal_string};
use crate::wire::put_slice;
use vstd::prelude::*;
use vstd::slice::slice_subrange;
use vstd::string::*;

verus! {

/// The bytes `ZENV`, with which every envelope begins.
pub const MAGIC: [u8; 4] = [0x5a, 0x45, 0x4e, 0x56];

/// The version of the envelope format.
pub const VERSION: u8 = 1;

/// Bytes before the ciphertext.
pub const HEADER_LEN: usize = 77;

/// Why bytes could not be encrypted or decrypted.
#[derive(Debug)]
pub enum EnvelopeError {
    TooShort,
    BadMagic,
    UnsupportedVersion(u8),
    Aead(String),
    Root(String),
}

/// The content of an error.
pub ghost enum EnvelopeFault {
    TooShort,
    BadMagic,
    UnsupportedVersion(u8),
    Aead(Seq<char>),
    Root(Seq<char>),
}

impl EnvelopeError {
    pub open spec fn view(&self) -> EnvelopeFault {
        match self {
            EnvelopeError::TooShort => EnvelopeFault::TooShort,
            EnvelopeError::BadMagic => EnvelopeFault::BadMagic,
            EnvelopeError::UnsupportedVersion(v) => EnvelopeFault::UnsupportedVersion(*v),
            EnvelopeError::Aead(s) => EnvelopeFault::Aead(s@),
            EnvelopeError::Root(s) => EnvelopeFault::Root(s@),
        }
    }

    pub fn to_string(&self) -> (r: String)
        ensures
            r@ == self@.text(),
    {
        match self {
            EnvelopeError::TooShort => String::from_str("ciphertext too short"),
            EnvelopeError::BadMagic => String::from_str("bad magic"),
            EnvelopeError::UnsupportedVersion(v) => concat2(
                "unsupported version: ",
                decimal_string(*v as u64).as_str(),
            ),
            EnvelopeError::Aead(s) => concat2("aead: ", s.as_str()),
            EnvelopeError::Root(s) => concat2("root key: ", s.as_str()),
        }
    }
}

impl EnvelopeFault {
    /// The error as text.
    pub open spec fn text(self) -> Seq<char> {
        match self {
            EnvelopeFault::TooShort => "ciphertext too short"@,
            EnvelopeFault::BadMagic => "bad magic"@,
            EnvelopeFault::UnsupportedVersion(v) => "unsupported version: "@ + decimal(v as nat),
            EnvelopeFault::Aead(s) => "aead: "@ + s,
            EnvelopeFault::Root(s) => "root key: "@ + s,
        }
    }
}

/// An envelope: header and ciphertext.
pub open spec fn envelope(
    key_nonce: Seq<u8>,
    wrapped: Seq<u8>,
    payload_nonce: Seq<u8>,
    sealed: Seq<u8>,
) -> Seq<u8> {
    MAGIC@ + seq![VERSION] + key_nonce + wrapped + payload_nonce + sealed
}

/// What an envelope becomes, given how the root key answered.
pub open spec fn sealed_envelope(
    plain: Seq<u8>,
    data_key: Seq<u8>,
    payload_nonce: Seq<u8>,
    answer: Result<(Seq<u8>, Seq<u8>), Seq<char>>,
) -> Result<Seq<u8>, EnvelopeFault> {
    match answer {
        Err(t) => Err(EnvelopeFault::Root(t)),
        Ok((key_nonce, wrapped)) => if wrapped.len() != 48 {
            Err(EnvelopeFault::Root("wrapped key len "@ + decimal(wrapped.len()) + " != 48"@))
        } else if key_nonce.len() != 12 {
            Err(EnvelopeFault::Root("key nonce len "@ + decimal(key_nonce.len()) + " != 12"@))
        } else if plain.len() > MAX_PLAINTEXT {
            Err(EnvelopeFault::Aead("encrypt: aead::Error"@))
        } else {
            Ok(
                envelope(
                    key_nonce,
                    wrapped,
                    payload_nonce,
                    aes_gcm_seal(data_key, payload_nonce, plain),
                ),
            )
        },
    }
}

/// How the root key answered, as contents.
pub open spec fn wrap_answer(r: Result<(Vec<u8>, Vec<u8>), RootKeyError>) -> Result<
    (Seq<u8>, Seq<u8>),
    Seq<char>,
> {
    match r {
        Ok((n, w)) => Ok((n@, w@)),
        Err(e) => Err(e.text()),
    }
}

fn length_error(what: &str, n: usize, wanted: &str) -> (r: EnvelopeError)
    ensures
        r@ == EnvelopeFault::Root(what@ + decimal(n as nat) + wanted@),
{
    let mut s = String::from_str(what);
    s.append(decimal_string(n as u64).as_str());
    s.append(wanted);
    EnvelopeError::Root(s)
}

/// Encrypts under the given data key and nonce, given how the root key wrapped the data
/// key.
pub fn encrypt_with(
    plaintext: &[u8],
    data_key: &DataKey,
    payload_nonce: [u8; 12],
    answer: Result<(Vec<u8>, Vec<u8>), RootKeyError>,
) -> (r: Result<Vec<u8>, EnvelopeError>)
    ensures
        match sealed_envelope(plaintext@, data_key.0@, payload_nonce@, wrap_answer(answer)) {
            Ok(bytes) => r matches Ok(v) && v@ == bytes,
            Err(f) => r matches Err(e) && e@ == f,
        },
        r matches Ok(v) ==> v@.len() == plaintext@.len() + 93,
        r is Ok ==> aes_gcm_open(
            data_key.0@,
            payload_nonce@,
            aes_gcm_seal(data_key.0@, payload_nonce@, plaintext@),
        ) == Some(plaintext@),
{
    let (key_nonce, wrapped) = match answer {
        Ok(p) => p,
        Err(e) => {
            return Err(EnvelopeError::Root(e.to_string()));
        },
    };
    if wrapped.len() != 48 {
        return Err(length_error("wrapped key len ", wrapped.len(), " != 48"));
    }
    if key_nonce.len() != 12 {
        return Err(length_error("key nonce len ", key_nonce.len(), " != 12"));
    }
    let sealed = match aead_encrypt(&data_key.0, &payload_nonce, plaintext) {
        Some(c) => c,
        None => {
            return Err(EnvelopeError::Aead(String::from_str("encrypt: aead::Error")));
        },
    };
    let mut out: Vec<u8> = Vec::new();
    put_slice(&mut out, MAGIC.as_slice());
    out.push(VERSION);
    put_slice(&mut out, key_nonce.as_slice());
    put_slice(&mut out, wrapped.as_slice());
    put_slice(&mut out, payload_nonce.as_slice());
    put_slice(&mut out, sealed.as_slice());
    assert(out@ =~= envelope(key_nonce@, wrapped@, payload_nonce@, sealed@));
    Ok(out)
}

/// An envelope of the plaintext that the root key may have part in.
pub open spec fn may_encrypt<R: RootKey>(root: R, plain: Seq<u8>, out: Seq<u8>) -> bool {
    exists|data_key: Seq<u8>, key_nonce: Seq<u8>, wrapped: Seq<u8>, payload_nonce: Seq<u8>|
        #![trigger envelope(key_nonce, wrapped, payload_nonce, aes_gcm_seal(data_key, payload_nonce, plain))]
        {
            &&& root.may_wrap(data_key, key_nonce, wrapped)
            &&& key_nonce.len() == 12
            &&& wrapped.len() == 48
            &&& payload_nonce.len() == 12
            &&& plain.len() <= MAX_PLAINTEXT
            &&& aes_gcm_open(
                data_key,
                payload_nonce,
                aes_gcm_seal(data_key, payload_nonce, plain),
            ) == Some(plain)
            &&& out == envelope(
                key_nonce,
                wrapped,
                payload_nonce,
                aes_gcm_seal(data_key, payload_nonce, plain),
            )
        }
}

/// Encrypts `plaintext` for at-rest storage under a fresh data key, which the root key
/// wraps. What random numbers come and what the root key answers decide the bytes. Only the
/// root key and an overlong plaintext make it fail.
pub fn encrypt<R: RootKey>(plaintext: &[u8], root: &R) -> (r: Result<Vec<u8>, EnvelopeError>)
    ensures
        match r {
            Ok(out) => may_encrypt(*root, plaintext@, out@) && out@.len() == plaintext@.len() + 93,
            Err(e) => e@ is Root || (plaintext@.len() > MAX_PLAINTEXT && e@ == EnvelopeFault::Aead(
                "encrypt: aead::Error"@,
            )),
        },
        root.wraps_always() && plaintext@.len() <= MAX_PLAINTEXT ==> r is Ok,
{
    let data_key = DataKey(random_key());
    let answer = root.wrap(&data_key);
    let payload_nonce = random_nonce();
    let ghost told = wrap_answer(answer);
    let r = encrypt_with(plaintext, &data_key, payload_nonce, answer);
    proof {
        if r is Ok {
            let kn = told->Ok_0.0;
            let w = told->Ok_0.1;
            let sealed = aes_gcm_seal(data_key.0@, payload_nonce@, plaintext@);
            assert(r->Ok_0@ == envelope(kn, w, payload_nonce@, sealed));
            assert(root.may_wrap(data_key.0@, kn, w));
        }
    }
    r
}

/// The parts of an envelope: nonce and bytes of the wrapped key, nonce and bytes of the
/// payload.
pub ghost struct EnvelopeParts {
    pub key_nonce: Seq<u8>,
    pub wrapped: Seq<u8>,
    pub payload_nonce: Seq<u8>,
    pub sealed: Seq<u8>,
}

/// The parts of an envelope, or why the bytes are none.
pub open spec fn envelope_parts(blob: Seq<u8>) -> Result<EnvelopeParts, EnvelopeFault> {
    if blob.len() < HEADER_LEN {
        Err(EnvelopeFault::TooShort)
    } else if blob.take(4) != MAGIC@ {
        Err(EnvelopeFault::BadMagic)
    } else if blob[4] != VERSION {
        Err(EnvelopeFault::UnsupportedVersion(blob[4]))
    } else {
        Ok(
            EnvelopeParts {
                key_nonce: blob.subrange(5, 17),
                wrapped: blob.subrange(17, 65),
                payload_nonce: blob.subrange(65, 77),
                sealed: blob.skip(77),
            },
        )
    }
}

/// What the payload decrypts to, given how the root key answered.
pub open spec fn opened(parts: EnvelopeParts, answer: Result<Seq<u8>, Seq<char>>) -> Result<
    Seq<u8>,
    EnvelopeFault,
> {
    match answer {
        Err(t) => Err(EnvelopeFault::Root(t)),
        Ok(data_key) => match aes_gcm_open(data_key, parts.payload_nonce, parts.sealed) {
            Some(p) => Ok(p),
            None => Err(EnvelopeFault::Aead("decrypt: aead::Error"@)),
        },
    }
}

/// How the root key answered, as content.
pub open spec fn unwrap_answer(r: Result<DataKey, RootKeyError>) -> Result<Seq<u8>, Seq<char>> {
    match r {
        Ok(k) => Ok(k.0@),
        Err(e) => Err(e.text()),
    }
}

/// Decrypts an envelope, given how the root key unwrapped the data key.
pub fn decrypt_with(blob: &[u8], answer: Result<DataKey, RootKeyError>) -> (r: Result<
    Vec<u8>,
    EnvelopeError,
>)
    ensures
        match envelope_parts(blob@) {
            Err(f) => r matches Err(e) && e@ == f,
            Ok(parts) => match opened(parts, unwrap_answer(answer)) {
                Ok(p) => r matches Ok(v) && v@ == p,
                Err(f) => r matches Err(e) && e@ == f,
            },
        },
{
    match check_header(blob) {
        Ok(()) => {},
        Err(e) => {
            return Err(e);
        },
    }
    let data_key = match answer {
        Ok(k) => k,
        Err(e) => {
            return Err(EnvelopeError::Root(e.to_string()));
        },
    };
    let n: usize = blob.len();
    let payload_nonce = array12(slice_subrange(blob, 65, 77));
    let sealed = slice_subrange(blob, 77, n);
    assert(sealed@ =~= blob@.skip(77));
    match aead_decrypt(&data_key.0, &payload_nonce, sealed) {
        Some(p) => Ok(p),
        None => Err(EnvelopeError::Aead(String::from_str("decrypt: aead::Error"))),
    }
}

/// Whether the bytes have the header of an envelope.
fn check_header(blob: &[u8]) -> (r: Result<(), EnvelopeError>)
    ensures
        match envelope_parts(blob@) {
            Ok(_) => r is Ok,
            Err(f) => r matches Err(e) && e@ == f,
        },
{
    if blob.len() < HEADER_LEN {
        return Err(EnvelopeError::TooShort);
    }
    assert(blob@.take(4) =~= blob@.subrange(0, 4));
    if !bytes_eq(slice_subrange(blob, 0, 4), MAGIC.as_slice()) {
        return Err(EnvelopeError::BadMagic);
    }
    let version: u8 = blob[4];
    if version != VERSION {
        return Err(EnvelopeError::UnsupportedVersion(version));
    }
    Ok(())
}

/// Inverse of `encrypt`: checks the header, has the root key unwrap the data key, and
/// decrypts the payload.
pub fn decrypt<R: RootKey>(blob: &[u8], root: &R) -> (r: Result<Vec<u8>, EnvelopeError>)
    ensures
        match envelope_parts(blob@) {
            Err(f) => r matches Err(e) && e@ == f,
            Ok(parts) => exists|answer: Result<Seq<u8>, Seq<char>>|
                #[trigger] root.may_unwrap(parts.key_nonce, parts.wrapped, answer) && (match opened(
                    parts,
                    answer,
                ) {
                    Ok(p) => r matches Ok(v) && v@ == p,
                    Err(f) => r matches Err(e) && e@ == f,
                }),
        },
{
    match check_header(blob) {
        Ok(()) => {},
        Err(e) => {
            return Err(e);
        },
    }
    let answer = root.unwrap(slice_subrange(blob, 5, 17), slice_subrange(blob, 17, 65));
    let ghost parts = envelope_parts(blob@)->Ok_0;
    let ghost told = unwrap_answer(answer);
    assert(root.may_unwrap(parts.key_nonce, parts.wrapped, told));
    decrypt_with(blob, answer)
}

/// True when the bytes start with the envelope magic. Useful for readers that handle both
/// unencrypted segments and envelopes.
pub fn is_encrypted(bytes: &[u8]) -> (r: bool)
    ensures
        r == (bytes@.len() >= 4 && bytes@.take(4) == MAGIC@),
{
    if bytes.len() < 4 {
        return false;
    }
    assert(bytes@.take(4) =~= bytes@.subrange(0, 4));
    bytes_eq(slice_subrange(bytes, 0, 4), MAGIC.as_slice())
}

/// The parts of an envelope are those that it was made of.
pub proof fn envelope_parts_round_trip(
    key_nonce: Seq<u8>,
    wrapped: Seq<u8>,
    payload_nonce: Seq<u8>,
    sealed: Seq<u8>,
)
    requires
        key_nonce.len() == 12,
        wrapped.len() == 48,
        payload_nonce.len() == 12,
    ensures
        envelope_parts(envelope(key_nonce, wrapped, payload_nonce, sealed)) == Ok::<
            EnvelopeParts,
            EnvelopeFault,
        >(EnvelopeParts { key_nonce, wrapped, payload_nonce, sealed }),
        envelope(key_nonce, wrapped, payload_nonce, sealed).take(4) == MAGIC@,
{
    let e = envelope(key_nonce, wrapped, payload_nonce, sealed);
    assert(e.take(4) =~= MAGIC@);
    assert(e.subrange(5, 17) =~= key_nonce);
    assert(e.subrange(17, 65) =~= wrapped);
    assert(e.subrange(65, 77) =~= payload_nonce);
    assert(e.skip(77) =~= sealed);
}

/// The root key unwraps what it wrapped.
pub open spec fn unwraps_its_own<R: RootKey>(root: R) -> bool {
    forall|
        data_key: Seq<u8>,
        nonce: Seq<u8>,
        wrapped: Seq<u8>,
        answer: Result<Seq<u8>, Seq<char>>,
    |
        #[trigger] root.may_wrap(data_key, nonce, wrapped) && #[trigger] root.may_unwrap(
            nonce,
            wrapped,
            answer,
        ) ==> answer == Ok::<Seq<u8>, Seq<char>>(data_key)
}

/// A static root key unwraps what it wrapped.
pub proof fn static_keys_unwrap_their_own(root: StaticRootKey)
    ensures
        unwraps_its_own(root),
{
}

/// What was encrypted under a root key that unwraps what it wrapped decrypts to the
/// plaintext under that key.
pub proof fn envelopes_round_trip<R: RootKey>(root: R, plain: Seq<u8>, out: Seq<u8>)
    requires
        may_encrypt(root, plain, out),
        unwraps_its_own(root),
    ensures
        envelope_parts(out) is Ok,
        forall|answer: Result<Seq<u8>, Seq<char>>|
            #[trigger] root.may_unwrap(
                envelope_parts(out)->Ok_0.key_nonce,
                envelope_parts(out)->Ok_0.wrapped,
                answer,
            ) ==> opened(envelope_parts(out)->Ok_0, answer) == Ok::<Seq<u8>, EnvelopeFault>(plain),
        out.take(4) == MAGIC@,
{
    let (data_key, key_nonce, wrapped, payload_nonce) = choose|
        data_key: Seq<u8>,
        key_nonce: Seq<u8>,
        wrapped: Seq<u8>,
        payload_nonce: Seq<u8>,
    |
        #![trigger envelope(key_nonce, wrapped, payload_nonce, aes_gcm_seal(data_key, payload_nonce, plain))]
        {
            &&& root.may_wrap(data_key, key_nonce, wrapped)
            &&& key_nonce.len() == 12
            &&& wrapped.len() == 48
            &&& payload_nonce.len() == 12
            &&& plain.len() <= MAX_PLAINTEXT
            &&& aes_gcm_open(
                data_key,
                payload_nonce,
                aes_gcm_seal(data_key, payload_nonce, plain),
            ) == Some(plain)
            &&& out == envelope(
                key_nonce,
                wrapped,
                payload_nonce,
                aes_gcm_seal(data_key, payload_nonce, plain),
            )
        };
    envelope_parts_round_trip(
        key_nonce,
        wrapped,
        payload_nonce,
        aes_gcm_seal(data_key, payload_nonce, plain),
    );
}

} // verus!
