use zenithdb::auth::claims::{token_hash, usable_claims, Claims, ClaimsCache};
use zenithdb::auth::errors::AuthError;
use zenithdb::auth::hmac_auth::{hex_encode, HmacError, HmacVerifier, MAX_SKEW_SECONDS};
use zenithdb::auth::jwt::{
    append_jwks_chunk, check_jwks_length, check_jwks_url, claims_from_decoded,
    claims_from_raw, decode_error,
    must_refresh, required_kid, token_kid, unknown_kid, DecodeFault, JwtError, RawClaims,
};
use zenithdb::auth::verify::{CheckAction, CheckEvent, TokenCheck};

fn mk_claims(sub: &str, tenant: u64, exp: i64, scope: &str) -> Claims {
    Claims {
        sub: sub.into(),
        tenant_id: tenant,
        exp,
        scope: scope.into(),
    }
}

#[test]
fn cache_roundtrip() {
    let cache = ClaimsCache::new(16, 60);
    let h = token_hash(b"abc");
    assert!(cache.get(h).is_none());
    cache.insert(
        h,
        Claims {
            sub: "u1".into(),
            tenant_id: 7,
            exp: 9_999_999_999,
            scope: "ingest read".into(),
        },
    );
    let c = cache.get(h).unwrap();
    assert_eq!(c.tenant_id, 7);
}

#[test]
fn scope_matching() {
    let c = Claims {
        sub: "u".into(),
        tenant_id: 1,
        exp: 0,
        scope: "ingest read".into(),
    };
    assert!(c.has_scope("ingest"));
    assert!(c.has_scope("read"));
    assert!(!c.has_scope("admin"));

    let read_only = Claims {
        sub: "u".into(),
        tenant_id: 1,
        exp: 0,
        scope: "".into(),
    };
    assert!(read_only.has_scope("read"));
    assert!(!read_only.has_scope("ingest"));
}

#[test]
fn cache_evicts_when_capacity_exceeded() {
    let cap: u64 = 8;
    let cache = ClaimsCache::new(cap, 60);
    // Insert 4x capacity.
    for i in 0..(cap * 4) {
        cache.insert(i, mk_claims("u", i, 0, "read"));
    }
    // Drain pending admit/evict work.
    let size = cache.settled_len();
    assert!(
        size <= cap,
        "size {size} must be <= capacity {cap} after pending tasks drain"
    );
    assert!(size > 0, "cache should still hold some entries");
}

#[test]
fn get_returns_expired_claims_unchanged() {
    let cache = ClaimsCache::new(16, 60);
    let h = token_hash(b"already-expired");
    let expired = mk_claims("u1", 7, 1, "ingest"); // exp = 1 (epoch second 1)
    cache.insert(h, expired.clone());
    let got = cache.get(h).expect("present");
    // Cache returns the row; it doesn't filter on exp.
    assert_eq!(got.exp, 1);
    assert_eq!(got.tenant_id, 7);
    assert_eq!(got.scope, "ingest");
    // Sanity: epoch second 1 is, in fact, in the past.
    assert!(got.exp < chrono::Utc::now().timestamp());
}

#[test]
fn has_scope_handles_empty_single_and_multi() {
    // Empty scope: only `read` passes (the doc'd policy).
    let empty = mk_claims("u", 1, 0, "");
    assert!(empty.has_scope("read"));
    assert!(!empty.has_scope("ingest"));
    assert!(!empty.has_scope("admin"));
    assert!(!empty.has_scope(""));

    // Single scope.
    let single = mk_claims("u", 1, 0, "admin");
    assert!(single.has_scope("admin"));
    assert!(!single.has_scope("read"));
    assert!(!single.has_scope("ingest"));

    // Multi scope, irregular whitespace (tabs + double space).
    let multi = mk_claims("u", 1, 0, "ingest \t read  admin");
    assert!(multi.has_scope("ingest"));
    assert!(multi.has_scope("read"));
    assert!(multi.has_scope("admin"));
    assert!(!multi.has_scope("compactor"));
    // Scope match must be exact: "ad" must not match "admin".
    assert!(!multi.has_scope("ad"));
    // And it must not be a substring match: "in" must not match "ingest".
    assert!(!multi.has_scope("in"));
}

#[test]
fn sign_verify_roundtrip() {
    let v = HmacVerifier::new(b"hunter2".to_vec());
    let now = chrono::Utc::now().timestamp();
    let sig = v.sign("POST", "/v1/internal/query", b"{}", now);
    v.verify("POST", "/v1/internal/query", b"{}", now, &sig).unwrap();
}

#[test]
fn body_tamper_rejected() {
    let v = HmacVerifier::new(b"hunter2".to_vec());
    let now = chrono::Utc::now().timestamp();
    let sig = v.sign("POST", "/v1/internal/query", b"{}", now);
    let r = v.verify("POST", "/v1/internal/query", b"{tampered}", now, &sig);
    assert!(matches!(r, Err(HmacError::BadSignature)));
}

#[test]
fn stale_timestamp_rejected() {
    let v = HmacVerifier::new(b"hunter2".to_vec());
    let stale = chrono::Utc::now().timestamp() - (MAX_SKEW_SECONDS + 60);
    let sig = v.sign("POST", "/p", b"{}", stale);
    let r = v.verify("POST", "/p", b"{}", stale, &sig);
    assert!(matches!(r, Err(HmacError::Skew)));
}

#[test]
fn signature_has_its_exact_value() {
    let v = HmacVerifier::new(b"hunter2".to_vec());
    let sig = v.sign("POST", "/v1/internal/query", b"{}", 1_700_000_000);
    assert_eq!(sig, "JXaJd6VjM7mKz2fKzSDfCKn-KqkHu9MYfK3oB61J1Z0");
}

#[test]
fn skew_is_allowed_up_to_its_bound() {
    let v = HmacVerifier::new(b"k".to_vec());
    let sig = v.sign("GET", "/p", b"", 1000);
    assert_eq!(v.verify_at("GET", "/p", b"", 1000, &sig, 1300), Ok(()));
    assert_eq!(v.verify_at("GET", "/p", b"", 1000, &sig, 700), Ok(()));
    assert_eq!(
        v.verify_at("GET", "/p", b"", 1000, &sig, 1301),
        Err(HmacError::Skew)
    );
    assert_eq!(
        v.verify_at("GET", "/p", b"", 1000, &sig, 699),
        Err(HmacError::Skew)
    );
    // Method, path and secret are signed too.
    assert_eq!(
        v.verify_at("PUT", "/p", b"", 1000, &sig, 1000),
        Err(HmacError::BadSignature)
    );
    assert_eq!(
        v.verify_at("GET", "/q", b"", 1000, &sig, 1000),
        Err(HmacError::BadSignature)
    );
    let other = HmacVerifier::new(b"l".to_vec());
    assert_eq!(
        other.verify_at("GET", "/p", b"", 1000, &sig, 1000),
        Err(HmacError::BadSignature)
    );
    // No overflow at the ends of the range.
    assert_eq!(
        v.verify_at("GET", "/p", b"", i64::MIN, &sig, i64::MAX),
        Err(HmacError::Skew)
    );
}

#[test]
fn hex_digits_are_lower_case() {
    assert_eq!(hex_encode(&[0x00, 0xab, 0xff, 0x10]), "00abff10");
    assert_eq!(hex_encode(&[]), "");
}

#[test]
fn token_hash_is_the_xxh3_hash() {
    assert_eq!(token_hash(b"abc"), xxhash_rust::xxh3::xxh3_64(b"abc"));
    assert_ne!(token_hash(b"abc"), token_hash(b"abd"));
}

#[test]
fn cached_claims_are_used_until_they_expire() {
    assert!(usable_claims(None, 10).is_none());
    assert!(usable_claims(Some(mk_claims("u", 1, 10, "")), 10).is_none());
    assert_eq!(usable_claims(Some(mk_claims("u", 1, 11, "")), 10).unwrap().exp, 11);

    let cache = ClaimsCache::default();
    cache.insert(token_hash(b"tok"), mk_claims("u", 3, 100, ""));
    assert_eq!(cache.get_fresh(b"tok", 99).unwrap().tenant_id, 3);
    assert!(cache.get_fresh(b"tok", 100).is_none());
    assert!(cache.get_fresh(b"other", 0).is_none());
}

#[test]
fn claims_need_a_tenant() {
    let c = claims_from_raw(RawClaims {
        sub: None,
        tenant_id: Some(42),
        exp: 9,
        scope: Some("read".into()),
    })
    .unwrap();
    assert_eq!(c.sub, "");
    assert_eq!(c.tenant_id, 42);
    assert_eq!(c.exp, 9);
    assert_eq!(c.scope, "read");
    let r = claims_from_raw(RawClaims {
        sub: Some("a".into()),
        tenant_id: None,
        exp: 9,
        scope: None,
    });
    assert!(matches!(r, Err(JwtError::MissingClaim("tenant_id"))));
}

#[test]
fn decode_faults_map_to_errors() {
    assert!(matches!(
        decode_error(DecodeFault::ExpiredSignature),
        JwtError::Expired
    ));
    assert!(matches!(
        decode_error(DecodeFault::InvalidSignature),
        JwtError::BadSignature
    ));
    assert!(matches!(
        decode_error(DecodeFault::Other),
        JwtError::Malformed
    ));
}

fn token(kid: Option<&str>) -> String {
    let mut header = jsonwebtoken::Header::new(jsonwebtoken::Algorithm::HS256);
    header.kid = kid.map(|k| k.to_string());
    let mut claims = serde_json::Map::new();
    claims.insert("exp".to_string(), serde_json::Value::from(1));
    let key = jsonwebtoken::EncodingKey::from_secret(b"s");
    jsonwebtoken::encode(&header, &serde_json::Value::Object(claims), &key).unwrap()
}

#[test]
fn token_names_its_key() {
    assert_eq!(token_kid(&token(Some("test-1"))).unwrap(), "test-1");
    assert!(matches!(
        token_kid(&token(None)),
        Err(JwtError::UnknownKid(None))
    ));
    assert!(matches!(token_kid("no token"), Err(JwtError::Malformed)));
    assert!(matches!(required_kid(None), Err(JwtError::Malformed)));
    assert!(matches!(
        required_kid(Some(None)),
        Err(JwtError::UnknownKid(None))
    ));
    assert_eq!(required_kid(Some(Some("k".into()))).unwrap(), "k");
}

#[test]
fn jwt_errors_have_their_text() {
    assert_eq!(
        unknown_kid("k\"1").to_string(),
        "unknown signing key (kid=Some(\"k\\\"1\"))"
    );
    assert_eq!(
        JwtError::UnknownKid(None).to_string(),
        "unknown signing key (kid=None)"
    );
    assert_eq!(JwtError::Malformed.to_string(), "malformed token");
    assert_eq!(
        JwtError::BadSignature.to_string(),
        "signature verification failed"
    );
    assert_eq!(JwtError::Expired.to_string(), "token expired");
    assert_eq!(
        JwtError::MissingClaim("tenant_id").to_string(),
        "missing claim: tenant_id"
    );
    assert_eq!(JwtError::JwksFetch("x".into()).to_string(), "jwks fetch: x");
    assert_eq!(JwtError::JwksParse("x".into()).to_string(), "jwks parse: x");
}

#[test]
fn keys_are_refreshed_when_unknown_or_old() {
    assert!(must_refresh(false, Some(0)));
    assert!(must_refresh(true, None));
    assert!(!must_refresh(true, Some(0)));
    assert!(must_refresh(true, Some(u64::MAX)));
}

#[test]
fn key_sets_come_over_tls_or_from_this_machine() {
    assert!(check_jwks_url("https://idp.example/keys").is_ok());
    assert!(check_jwks_url("http://localhost:8080/keys").is_ok());
    assert!(check_jwks_url("http://127.0.0.1/keys").is_ok());
    match check_jwks_url("http://idp.example") {
        Err(JwtError::JwksFetch(t)) => {
            assert_eq!(t, "JWKS URL must use https:// (got: http://idp.example)")
        }
        _ => panic!("expected a fetch error"),
    }
}

#[test]
fn key_sets_are_bounded() {
    assert!(check_jwks_length(None).is_ok());
    assert!(check_jwks_length(Some(1_048_576)).is_ok());
    match check_jwks_length(Some(1_048_577)) {
        Err(JwtError::JwksFetch(t)) => {
            assert_eq!(t, "JWKS response too large: 1048577 bytes > 1048576 max")
        }
        _ => panic!("expected a fetch error"),
    }
    let mut buf = vec![0u8; 1_048_575];
    assert!(append_jwks_chunk(&mut buf, &[1]).is_ok());
    assert_eq!(buf.len(), 1_048_576);
    assert_eq!(buf[1_048_575], 1);
    match append_jwks_chunk(&mut buf, &[2]) {
        Err(JwtError::JwksFetch(t)) => {
            assert_eq!(t, "JWKS exceeded 1048576 byte cap mid-stream")
        }
        _ => panic!("expected a fetch error"),
    }
    assert_eq!(buf.len(), 1_048_576);
}

#[test]
fn auth_errors_from_their_causes() {
    assert_eq!(
        AuthError::from_hmac(HmacError::MissingHeader).to_string(),
        "missing Authorization header"
    );
    assert_eq!(
        AuthError::from_hmac(HmacError::Malformed).to_string(),
        "malformed Authorization header"
    );
    assert_eq!(
        AuthError::from_hmac(HmacError::Skew).to_string(),
        "invalid signature"
    );
    assert_eq!(
        AuthError::from_jwt(JwtError::Expired).to_string(),
        "token expired"
    );
    assert_eq!(
        AuthError::from_jwt(JwtError::UnknownKid(None)).to_string(),
        "invalid signature"
    );
    assert_eq!(
        AuthError::from_jwt(JwtError::MissingClaim("tenant_id")).to_string(),
        "missing claim: tenant_id"
    );
    assert_eq!(
        AuthError::from_jwt(JwtError::JwksFetch("down".into())).to_string(),
        "internal: down"
    );
}

#[test]
fn decoded_tokens_give_claims() {
    let raw = || RawClaims {
        sub: Some("a".into()),
        tenant_id: Some(3),
        exp: 4,
        scope: None,
    };
    let c = claims_from_decoded(Ok(raw())).unwrap();
    assert_eq!((c.sub.as_str(), c.tenant_id, c.exp), ("a", 3, 4));
    assert!(matches!(
        claims_from_decoded(Err(DecodeFault::ExpiredSignature)),
        Err(JwtError::Expired)
    ));
    assert!(matches!(
        claims_from_decoded(Err(DecodeFault::Other)),
        Err(JwtError::Malformed)
    ));
}

#[test]
fn tokens_are_checked_step_by_step() {
    let token_event = |exp: i64| CheckEvent::Token {
        cached: Some(mk_claims("u", 1, exp, "")),
        now: 100,
    };
    // Claims in the cache that have not expired are enough.
    let mut c = TokenCheck::new(true);
    match c.step(token_event(101)) {
        CheckAction::Accept(claims) => assert_eq!(claims.exp, 101),
        _ => panic!("expected to accept"),
    }
    // Expired ones are not: the key is looked up, fetched, and used.
    let mut c = TokenCheck::new(true);
    assert!(matches!(c.step(token_event(100)), CheckAction::ReadHeader));
    match c.step(CheckEvent::Header(Ok("k1".into()))) {
        CheckAction::LookUp(k) => assert_eq!(k, "k1"),
        _ => panic!("expected to look up"),
    }
    assert!(matches!(
        c.step(CheckEvent::Key {
            known: false,
            age_ms: Some(5)
        }),
        CheckAction::Fetch
    ));
    assert!(matches!(
        c.step(CheckEvent::Fetched { known: true }),
        CheckAction::Decode
    ));
    match c.step(CheckEvent::Decoded(Ok(RawClaims {
        sub: None,
        tenant_id: Some(9),
        exp: 200,
        scope: None,
    }))) {
        CheckAction::Keep(claims) => assert_eq!(claims.tenant_id, 9),
        _ => panic!("expected to keep"),
    }
}

#[test]
fn tokens_are_refused_with_their_reason() {
    let at_key = |can_fetch: bool| {
        let mut c = TokenCheck::new(can_fetch);
        c.step(CheckEvent::Token {
            cached: None,
            now: 0,
        });
        c.step(CheckEvent::Header(Ok("k1".into())));
        c
    };
    let mut c = TokenCheck::new(true);
    c.step(CheckEvent::Token {
        cached: None,
        now: 0,
    });
    assert!(matches!(
        c.step(CheckEvent::Header(token_kid("no token"))),
        CheckAction::Refuse(JwtError::Malformed)
    ));
    // Without an address nothing is fetched: an old key is used, an unknown one refused.
    assert!(matches!(
        at_key(false).step(CheckEvent::Key {
            known: true,
            age_ms: Some(u64::MAX)
        }),
        CheckAction::Decode
    ));
    match at_key(false).step(CheckEvent::Key {
        known: false,
        age_ms: None,
    }) {
        CheckAction::Refuse(JwtError::UnknownKid(k)) => assert_eq!(k.as_deref(), Some("k1")),
        _ => panic!("expected to refuse"),
    }
    let mut c = at_key(true);
    c.step(CheckEvent::Key {
        known: false,
        age_ms: None,
    });
    assert!(matches!(
        c.step(CheckEvent::FetchFailed(JwtError::JwksFetch("down".into()))),
        CheckAction::Refuse(JwtError::JwksFetch(_))
    ));
    let mut c = at_key(true);
    assert!(matches!(
        c.step(CheckEvent::Key {
            known: true,
            age_ms: Some(0)
        }),
        CheckAction::Decode
    ));
    assert!(matches!(
        c.step(CheckEvent::Decoded(Err(DecodeFault::ExpiredSignature))),
        CheckAction::Refuse(JwtError::Expired)
    ));
}

#[test]
fn a_clone_of_a_cache_is_the_same_cache() {
    let cache = ClaimsCache::new(16, 60);
    let other = cache.clone();
    other.insert(token_hash(b"abc"), mk_claims("u", 7, 100, "read"));
    assert_eq!(cache.get_fresh(b"abc", 99).unwrap().tenant_id, 7);
    // Claims are found under the hash that they were put under, and nowhere else.
    assert!(cache.get(0).is_none());
    cache.insert(0, mk_claims("v", 8, 100, "read"));
    assert_eq!(other.get(0).unwrap().tenant_id, 8);
    assert_eq!(other.get(token_hash(b"abc")).unwrap().tenant_id, 7);
}

#[test]
fn a_clone_of_a_verifier_has_its_secret() {
    let v = HmacVerifier::new(b"hunter2".to_vec());
    let w = v.clone();
    assert_eq!(
        v.sign("POST", "/a", b"b", 5),
        w.sign("POST", "/a", b"b", 5)
    );
}
