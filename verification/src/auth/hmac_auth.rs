//! Signed requests between nodes.
//!
//! The sender signs method, path, a digest of the body and a timestamp with a shared
//! secret. The receiver rejects timestamps that are too far off, computes the signature
//! again and compares in constant time.
use crate::outside::mac::{
    b64url, base64_url, hmac_sha256, hmac_sha256_of, same_bytes, sha256, sha256_of, unix_now,
};
use crate::text::{decimal, decimal_string, digit_string, digits};
use vstd::prelude::*;
use vstd::string::*;
use vstd::utf8::{encode_utf8, encode_utf8_decode_utf8};

verus! {

#[derive(Copy, Clone, Debug, PartialEq, Eq, Structural)]
pub enum HmacError {
    MissingHeader,
    Malformed,
    Skew,
    BadSignature,
}

impl HmacError {
    /// The error as text.
    pub open spec fn text(self) -> Seq<char> {
        match self {
            HmacError::MissingHeader => "missing X-Zen-Hmac or X-Zen-Timestamp header"@,
            HmacError::Malformed => "malformed header"@,
            HmacError::Skew => "timestamp skew too large"@,
            HmacError::BadSignature => "signature mismatch"@,
        }
    }

    pub fn to_string(&self) -> (r: String)
        ensures
            r@ == self.text(),
    {
        match self {
            HmacError::MissingHeader => String::from_str(
                "missing X-Zen-Hmac or X-Zen-Timestamp header",
            ),
            HmacError::Malformed => String::from_str("malformed header"),
            HmacError::Skew => String::from_str("timestamp skew too large"),
            HmacError::BadSignature => String::from_str("signature mismatch"),
        }
    }
}

/// Maximum clock skew allowed between sender and receiver.
pub const MAX_SKEW_SECONDS: i64 = 300;

/// Bytes as hexadecimal digits in lower case, two per byte.
pub open spec fn hex(bytes: Seq<u8>) -> Seq<char>
    decreases bytes.len(),
{
    if bytes.len() == 0 {
        Seq::empty()
    } else {
        hex(bytes.drop_last()) + digits(bytes.last() as nat, 16, 2)
    }
}

/// Bytes as hexadecimal digits.
pub fn hex_encode(bytes: &[u8]) -> (r: String)
    ensures
        r@ == hex(bytes@),
{
    let mut s = String::new();
    let mut i: usize = 0;
    assert(bytes@.take(0) =~= Seq::empty());
    assert(s@ =~= hex(bytes@.take(0)));
    while i < bytes.len()
        invariant
            i <= bytes.len(),
            s@ == hex(bytes@.take(i as int)),
        decreases bytes.len() - i,
    {
        assert(bytes@.take(i + 1).drop_last() =~= bytes@.take(i as int));
        s.append(digit_string(bytes[i] as u128, 16, 2).as_str());
        i = i + 1;
    }
    assert(bytes@.take(i as int) =~= bytes@);
    s
}

/// The decimal numeral of a signed number.
pub open spec fn signed_decimal(v: i64) -> Seq<char> {
    if v >= 0 {
        decimal(v as nat)
    } else {
        "-"@ + decimal((-v) as nat)
    }
}

fn signed_string(v: i64) -> (r: String)
    ensures
        r@ == signed_decimal(v),
{
    if v >= 0 {
        decimal_string(v as u64)
    } else {
        let mut s = String::from_str("-");
        s.append(decimal_string((-(v as i128)) as u64).as_str());
        s
    }
}

/// What is signed: method, path, digest of the body and timestamp, on lines of their own.
pub open spec fn canonical_request(
    method: Seq<char>,
    path: Seq<char>,
    body: Seq<u8>,
    timestamp: i64,
) -> Seq<char> {
    method + "\n"@ + path + "\n"@ + hex(sha256_of(body)) + "\n"@ + signed_decimal(timestamp)
}

/// The signature of a request.
pub open spec fn signature_of(
    secret: Seq<u8>,
    method: Seq<char>,
    path: Seq<char>,
    body: Seq<u8>,
    timestamp: i64,
) -> Seq<char> {
    b64url(
        hmac_sha256_of(secret, encode_utf8(canonical_request(method, path, body, timestamp))),
    )
}

/// Whether a signature is accepted at that time.
pub open spec fn verdict(
    secret: Seq<u8>,
    method: Seq<char>,
    path: Seq<char>,
    body: Seq<u8>,
    timestamp: i64,
    signature: Seq<char>,
    now: i64,
) -> Result<(), HmacError> {
    if now - timestamp > MAX_SKEW_SECONDS || timestamp - now > MAX_SKEW_SECONDS {
        Err(HmacError::Skew)
    } else if signature == signature_of(secret, method, path, body, timestamp) {
        Ok(())
    } else {
        Err(HmacError::BadSignature)
    }
}

#[derive(Clone)]
pub struct HmacVerifier {
    secret: Vec<u8>,
}

impl HmacVerifier {
    /// The shared secret.
    pub closed spec fn view(&self) -> Seq<u8> {
        self.secret@
    }

    pub fn new(secret: Vec<u8>) -> (r: Self)
        ensures
            r@ == secret@,
    {
        HmacVerifier { secret }
    }

    /// The signature of a request. Used by both signer and verifier.
    pub fn sign(&self, method: &str, path: &str, body: &[u8], timestamp: i64) -> (r: String)
        ensures
            r@ == signature_of(self@, method@, path@, body@, timestamp),
    {
        let digest = sha256(body);
        let mut text = String::from_str(method);
        text.append("\n");
        text.append(path);
        text.append("\n");
        text.append(hex_encode(digest.as_slice()).as_str());
        text.append("\n");
        text.append(signed_string(timestamp).as_str());
        assert(text@ =~= canonical_request(method@, path@, body@, timestamp));
        let tag = hmac_sha256(self.secret.as_slice(), text.as_str().as_bytes());
        base64_url(tag.as_slice())
    }

    /// Checks a signature at the given time.
    pub fn verify_at(
        &self,
        method: &str,
        path: &str,
        body: &[u8],
        timestamp: i64,
        signature: &str,
        now: i64,
    ) -> (r: Result<(), HmacError>)
        ensures
            r == verdict(self@, method@, path@, body@, timestamp, signature@, now),
    {
        let skew: i128 = now as i128 - timestamp as i128;
        if skew > MAX_SKEW_SECONDS as i128 || -skew > MAX_SKEW_SECONDS as i128 {
            return Err(HmacError::Skew);
        }
        let expected = self.sign(method, path, body, timestamp);
        proof {
            encode_utf8_decode_utf8(expected@);
            encode_utf8_decode_utf8(signature@);
        }
        if same_bytes(expected.as_str().as_bytes(), signature.as_bytes()) {
            Ok(())
        } else {
            Err(HmacError::BadSignature)
        }
    }

    /// Checks a signature now.
    pub fn verify(
        &self,
        method: &str,
        path: &str,
        body: &[u8],
        timestamp: i64,
        signature: &str,
    ) -> (r: Result<(), HmacError>)
        ensures
            exists|now: i64|
                r == #[trigger] verdict(
                    self@,
                    method@,
                    path@,
                    body@,
                    timestamp,
                    signature@,
                    now,
                ),
    {
        let now = unix_now();
        self.verify_at(method, path, body, timestamp, signature, now)
    }
}

/// A signed request is accepted by every node that has the secret, within the skew.
pub proof fn signed_requests_verify(
    secret: Seq<u8>,
    method: Seq<char>,
    path: Seq<char>,
    body: Seq<u8>,
    timestamp: i64,
    now: i64,
)
    requires
        -MAX_SKEW_SECONDS <= now - timestamp <= MAX_SKEW_SECONDS,
    ensures
        verdict(
            secret,
            method,
            path,
            body,
            timestamp,
            signature_of(secret, method, path, body, timestamp),
            now,
        ) == Ok::<(), HmacError>(()),
{
}

/// A request whose timestamp is too far off is rejected, whatever its signature: an old
/// request cannot be sent again.
pub proof fn stale_requests_are_rejected(
    secret: Seq<u8>,
    method: Seq<char>,
    path: Seq<char>,
    body: Seq<u8>,
    timestamp: i64,
    signature: Seq<char>,
    now: i64,
)
    requires
        now - timestamp > MAX_SKEW_SECONDS || timestamp - now > MAX_SKEW_SECONDS,
    ensures
        verdict(secret, method, path, body, timestamp, signature, now) == Err::<(), HmacError>(
            HmacError::Skew,
        ),
{
}

} // verus!
