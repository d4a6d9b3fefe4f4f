//! Client tokens: what is decided around their verification.
//!
//! The identity provider publishes a key set at a known address. A token names the key
//! that signed it; the set is fetched again when the key is not known or the set is old.
use crate::auth::claims::Claims;
use crate::chars::{begins_with, starts_with};
use crate::outside::debug::{debug_opt, debug_text};
use crate::outside::tokens::{jwt_kid, jwt_kid_of};
use crate::text::{chars_of, concat2, concat3, decimal, decimal_string, opt_text};
use vstd::prelude::*;
use vstd::string::*;

verus! {

#[derive(Debug)]
pub enum JwtError {
    Malformed,
    UnknownKid(Option<String>),
    BadSignature,
    Expired,
    MissingClaim(&'static str),
    JwksFetch(String),
    JwksParse(String),
}

/// The content of an error.
pub ghost enum JwtFault {
    Malformed,
    UnknownKid(Option<Seq<char>>),
    BadSignature,
    Expired,
    MissingClaim(Seq<char>),
    JwksFetch(Seq<char>),
    JwksParse(Seq<char>),
}

impl JwtError {
    pub open spec fn view(&self) -> JwtFault {
        match self {
            JwtError::Malformed => JwtFault::Malformed,
            JwtError::UnknownKid(k) => JwtFault::UnknownKid(opt_text(*k)),
            JwtError::BadSignature => JwtFault::BadSignature,
            JwtError::Expired => JwtFault::Expired,
            JwtError::MissingClaim(c) => JwtFault::MissingClaim(c@),
            JwtError::JwksFetch(s) => JwtFault::JwksFetch(s@),
            JwtError::JwksParse(s) => JwtFault::JwksParse(s@),
        }
    }

    pub fn to_string(&self) -> (r: String)
        ensures
            r@ == self@.text(),
    {
        match self {
            JwtError::Malformed => String::from_str("malformed token"),
            JwtError::UnknownKid(k) => concat3(
                "unknown signing key (kid=",
                debug_opt(k).as_str(),
                ")",
            ),
            JwtError::BadSignature => String::from_str("signature verification failed"),
            JwtError::Expired => String::from_str("token expired"),
            JwtError::MissingClaim(c) => concat2("missing claim: ", c),
            JwtError::JwksFetch(s) => concat2("jwks fetch: ", s.as_str()),
            JwtError::JwksParse(s) => concat2("jwks parse: ", s.as_str()),
        }
    }
}

impl JwtFault {
    /// The error as text.
    pub open spec fn text(self) -> Seq<char> {
        match self {
            JwtFault::Malformed => "malformed token"@,
            JwtFault::UnknownKid(k) => "unknown signing key (kid="@ + debug_text(k) + ")"@,
            JwtFault::BadSignature => "signature verification failed"@,
            JwtFault::Expired => "token expired"@,
            JwtFault::MissingClaim(c) => "missing claim: "@ + c,
            JwtFault::JwksFetch(s) => "jwks fetch: "@ + s,
            JwtFault::JwksParse(s) => "jwks parse: "@ + s,
        }
    }
}

/// How old a key set may be, in seconds.
pub const JWKS_TTL_SECONDS: u64 = 300;

/// The largest key set that is read, in bytes.
pub const MAX_JWKS_BYTES: u64 = 1_048_576;

/// How far a token's expiry may lie in the past, in seconds.
pub const LEEWAY_SECONDS: u64 = 5;

/// The claims as a token carries them.
pub struct RawClaims {
    pub sub: Option<String>,
    pub tenant_id: Option<u64>,
    pub exp: i64,
    pub scope: Option<String>,
}

/// A text, empty where it is missing.
pub open spec fn text_or_empty(o: Option<String>) -> Seq<char> {
    match o {
        Some(s) => s@,
        None => Seq::empty(),
    }
}

fn string_or_empty(o: Option<String>) -> (r: String)
    ensures
        r@ == text_or_empty(o),
{
    match o {
        Some(s) => s,
        None => {
            let s = String::new();
            assert(s@ =~= Seq::empty());
            s
        },
    }
}

/// The claims of a token. The tenant is required; subject and scope are empty where they
/// are missing.
pub fn claims_from_raw(raw: RawClaims) -> (r: Result<Claims, JwtError>)
    ensures
        match raw.tenant_id {
            Some(t) => r matches Ok(c) && c.tenant_id == t && c.sub@ == text_or_empty(raw.sub)
                && c.exp == raw.exp && c.scope@ == text_or_empty(raw.scope),
            None => r matches Err(e) && e@ == JwtFault::MissingClaim("tenant_id"@),
        },
{
    match raw.tenant_id {
        Some(t) => Ok(
            Claims {
                sub: string_or_empty(raw.sub),
                tenant_id: t,
                exp: raw.exp,
                scope: string_or_empty(raw.scope),
            },
        ),
        None => Err(JwtError::MissingClaim("tenant_id")),
    }
}

/// Why a token did not decode.
#[derive(Copy, Clone, Debug, PartialEq, Eq, Structural)]
pub enum DecodeFault {
    ExpiredSignature,
    InvalidSignature,
    Other,
}

/// The error for a token that did not decode.
pub fn decode_error(f: DecodeFault) -> (r: JwtError)
    ensures
        r@ == (match f {
            DecodeFault::ExpiredSignature => JwtFault::Expired,
            DecodeFault::InvalidSignature => JwtFault::BadSignature,
            DecodeFault::Other => JwtFault::Malformed,
        }),
{
    match f {
        DecodeFault::ExpiredSignature => JwtError::Expired,
        DecodeFault::InvalidSignature => JwtError::BadSignature,
        DecodeFault::Other => JwtError::Malformed,
    }
}

/// The claims of a token, given how decoding it went.
pub fn claims_from_decoded(decoded: Result<RawClaims, DecodeFault>) -> (r: Result<
    Claims,
    JwtError,
>)
    ensures
        match decoded {
            Err(DecodeFault::ExpiredSignature) => r matches Err(e) && e@ == JwtFault::Expired,
            Err(DecodeFault::InvalidSignature) => r matches Err(e) && e@ == JwtFault::BadSignature,
            Err(DecodeFault::Other) => r matches Err(e) && e@ == JwtFault::Malformed,
            Ok(raw) => match raw.tenant_id {
                Some(t) => r matches Ok(c) && c.tenant_id == t && c.sub@ == text_or_empty(raw.sub)
                    && c.exp == raw.exp && c.scope@ == text_or_empty(raw.scope),
                None => r matches Err(e) && e@ == JwtFault::MissingClaim("tenant_id"@),
            },
        },
{
    match decoded {
        Err(f) => Err(decode_error(f)),
        Ok(raw) => claims_from_raw(raw),
    }
}

/// The key that a token must name, given what its header says.
pub open spec fn kid_or_fault(header: Option<Option<Seq<char>>>) -> Result<Seq<char>, JwtFault> {
    match header {
        None => Err(JwtFault::Malformed),
        Some(None) => Err(JwtFault::UnknownKid(None)),
        Some(Some(k)) => Ok(k),
    }
}

/// The key that a token must name: its header has to be readable and name one.
pub fn required_kid(header: Option<Option<String>>) -> (r: Result<String, JwtError>)
    ensures
        match header {
            None => r matches Err(e) && e@ == JwtFault::Malformed,
            Some(k) => match kid_or_fault(Some(opt_text(k))) {
                Ok(t) => r matches Ok(x) && x@ == t,
                Err(f) => r matches Err(e) && e@ == f,
            },
        },
{
    match header {
        None => Err(JwtError::Malformed),
        Some(None) => Err(JwtError::UnknownKid(None)),
        Some(Some(k)) => Ok(k),
    }
}

/// The key that signed the token, as its header names it.
pub fn token_kid(token: &str) -> (r: Result<String, JwtError>)
    ensures
        match kid_or_fault(jwt_kid_of(token@)) {
            Ok(t) => r matches Ok(x) && x@ == t,
            Err(f) => r matches Err(e) && e@ == f,
        },
{
    required_kid(jwt_kid(token))
}

/// The error for a key that is not in the key set.
pub fn unknown_kid(kid: &str) -> (r: JwtError)
    ensures
        r@ == JwtFault::UnknownKid(Some(kid@)),
{
    JwtError::UnknownKid(Some(String::from_str(kid)))
}

/// Whether the key set has to be fetched before a key is used: the key is not in it, it
/// was never fetched, or it is too old.
pub fn must_refresh(key_known: bool, age_ms: Option<u64>) -> (r: bool)
    ensures
        r == !(key_known && (age_ms matches Some(a) && a < JWKS_TTL_SECONDS * 1000)),
{
    match age_ms {
        Some(a) => !(key_known && a < JWKS_TTL_SECONDS * 1000),
        None => true,
    }
}

/// The address is one that keys may be fetched from: over TLS, or from this machine.
pub open spec fn is_jwks_url(url: Seq<char>) -> bool {
    begins_with(url, "https://"@) || begins_with(url, "http://localhost"@) || begins_with(
        url,
        "http://127.0.0.1"@,
    )
}

fn begins(s: &[char], prefix: &str) -> (r: bool)
    ensures
        r == begins_with(s@, prefix@),
{
    starts_with(s, chars_of(prefix).as_slice())
}

/// Checks the address of a key set.
pub fn check_jwks_url(url: &str) -> (r: Result<(), JwtError>)
    ensures
        if is_jwks_url(url@) {
            r is Ok
        } else {
            r matches Err(e) && e@ == JwtFault::JwksFetch(
                "JWKS URL must use https:// (got: "@ + url@ + ")"@,
            )
        },
{
    let chars = chars_of(url);
    if begins(chars.as_slice(), "https://") || begins(chars.as_slice(), "http://localhost")
        || begins(chars.as_slice(), "http://127.0.0.1") {
        Ok(())
    } else {
        Err(JwtError::JwksFetch(concat3("JWKS URL must use https:// (got: ", url, ")")))
    }
}

/// Checks the announced length of a key set.
pub fn check_jwks_length(length: Option<u64>) -> (r: Result<(), JwtError>)
    ensures
        match length {
            Some(n) => if n > MAX_JWKS_BYTES {
                r matches Err(e) && e@ == JwtFault::JwksFetch(
                    "JWKS response too large: "@ + decimal(n as nat) + " bytes > 1048576 max"@,
                )
            } else {
                r is Ok
            },
            None => r is Ok,
        },
{
    match length {
        Some(n) => {
            if n > MAX_JWKS_BYTES {
                return Err(
                    JwtError::JwksFetch(
                        concat3(
                            "JWKS response too large: ",
                            decimal_string(n).as_str(),
                            " bytes > 1048576 max",
                        ),
                    ),
                );
            }
            Ok(())
        },
        None => Ok(()),
    }
}

/// Appends a chunk of a key set, unless it becomes too large.
pub fn append_jwks_chunk(buf: &mut Vec<u8>, chunk: &[u8]) -> (r: Result<(), JwtError>)
    ensures
        if old(buf)@.len() + chunk@.len() > MAX_JWKS_BYTES {
            &&& final(buf)@ == old(buf)@
            &&& r matches Err(e) && e@ == JwtFault::JwksFetch(
                "JWKS exceeded 1048576 byte cap mid-stream"@,
            )
        } else {
            r is Ok && final(buf)@ == old(buf)@ + chunk@
        },
{
    if buf.len() as u128 + chunk.len() as u128 > MAX_JWKS_BYTES as u128 {
        return Err(
            JwtError::JwksFetch(String::from_str("JWKS exceeded 1048576 byte cap mid-stream")),
        );
    }
    crate::wire::put_slice(buf, chunk);
    Ok(())
}

} // verus!
