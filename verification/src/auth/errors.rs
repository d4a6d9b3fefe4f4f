//! Why a request is not authentic.
use crate::auth::hmac_auth::HmacError;
use crate::auth::jwt::JwtError;
use crate::text::concat2;
use vstd::prelude::*;
use vstd::string::*;

verus! {

#[derive(Debug)]
pub enum AuthError {
    MissingAuth,
    Malformed,
    Expired,
    BadSignature,
    MissingClaim(&'static str),
    Internal(String),
}

/// The content of an error.
pub ghost enum AuthFault {
    MissingAuth,
    Malformed,
    Expired,
    BadSignature,
    MissingClaim(Seq<char>),
    Internal(Seq<char>),
}

impl AuthError {
    pub open spec fn view(&self) -> AuthFault {
        match self {
            AuthError::MissingAuth => AuthFault::MissingAuth,
            AuthError::Malformed => AuthFault::Malformed,
            AuthError::Expired => AuthFault::Expired,
            AuthError::BadSignature => AuthFault::BadSignature,
            AuthError::MissingClaim(c) => AuthFault::MissingClaim(c@),
            AuthError::Internal(s) => AuthFault::Internal(s@),
        }
    }

    pub fn to_string(&self) -> (r: String)
        ensures
            r@ == self@.text(),
    {
        match self {
            AuthError::MissingAuth => String::from_str("missing Authorization header"),
            AuthError::Malformed => String::from_str("malformed Authorization header"),
            AuthError::Expired => String::from_str("token expired"),
            AuthError::BadSignature => String::from_str("invalid signature"),
            AuthError::MissingClaim(c) => concat2("missing claim: ", c),
            AuthError::Internal(s) => concat2("internal: ", s.as_str()),
        }
    }

    /// What an error of a signed request is to the caller.
    pub fn from_hmac(e: HmacError) -> (r: AuthError)
        ensures
            r@ == (match e {
                HmacError::MissingHeader => AuthFault::MissingAuth,
                HmacError::Malformed => AuthFault::Malformed,
                HmacError::Skew | HmacError::BadSignature => AuthFault::BadSignature,
            }),
    {
        match e {
            HmacError::MissingHeader => AuthError::MissingAuth,
            HmacError::Malformed => AuthError::Malformed,
            HmacError::Skew | HmacError::BadSignature => AuthError::BadSignature,
        }
    }

    /// What an error of a token is to the caller.
    pub fn from_jwt(e: JwtError) -> (r: AuthError)
        ensures
            r@ == (match e {
                JwtError::Malformed => AuthFault::Malformed,
                JwtError::Expired => AuthFault::Expired,
                JwtError::BadSignature | JwtError::UnknownKid(_) => AuthFault::BadSignature,
                JwtError::MissingClaim(c) => AuthFault::MissingClaim(c@),
                JwtError::JwksFetch(s) | JwtError::JwksParse(s) => AuthFault::Internal(s@),
            }),
    {
        match e {
            JwtError::Malformed => AuthError::Malformed,
            JwtError::Expired => AuthError::Expired,
            JwtError::BadSignature | JwtError::UnknownKid(_) => AuthError::BadSignature,
            JwtError::MissingClaim(c) => AuthError::MissingClaim(c),
            JwtError::JwksFetch(s) | JwtError::JwksParse(s) => AuthError::Internal(s),
        }
    }
}

impl AuthFault {
    /// The error as text.
    pub open spec fn text(self) -> Seq<char> {
        match self {
            AuthFault::MissingAuth => "missing Authorization header"@,
            AuthFault::Malformed => "malformed Authorization header"@,
            AuthFault::Expired => "token expired"@,
            AuthFault::BadSignature => "invalid signature"@,
            AuthFault::MissingClaim(c) => "missing claim: "@ + c,
            AuthFault::Internal(s) => "internal: "@ + s,
        }
    }
}

} // verus!
