//! What signatures, scopes and token checks promise.
use crate::auth::claims::{words, Claims};
use crate::auth::hmac_auth::{
    canonical_request, hex, signature_of, signed_decimal, verdict, HmacError,
};
use crate::auth::jwt::{
    is_jwks_url, DecodeFault, JwtError, JwtFault, RawClaims, MAX_JWKS_BYTES,
};
use crate::auth::verify::{CheckEvent, CheckStage, CheckView, TokenCheckView};
use crate::chars::{
    begins_with, digit_of, digits_value, is_space, lemma_decimal, lemma_piece_alone,
    lemma_pieces_next, pieces,
};
use crate::outside::mac::{b64url, hmac_sha256_of, sha256_of};
use crate::text::{decimal, digit_char, digits};
use vstd::prelude::*;
use vstd::string::*;
use vstd::utf8::encode_utf8;

verus! {

/// The text is on one line.
pub open spec fn on_one_line(s: Seq<char>) -> bool {
    forall|i: int| 0 <= i < s.len() ==> #[trigger] s[i] != '\n'
}

proof fn lemma_hex(b: Seq<u8>)
    ensures
        hex(b).len() == 2 * b.len(),
        forall|i: int|
            0 <= i < b.len() ==> hex(b)[2 * i] == digit_char((#[trigger] b[i] / 16) as nat) && hex(
                b,
            )[2 * i + 1] == digit_char((b[i] % 16) as nat),
        on_one_line(hex(b)),
    decreases b.len(),
{
    reveal_with_fuel(digits, 3);
    if b.len() > 0 {
        let d = b.drop_last();
        lemma_hex(d);
        let n = b.last() as nat;
        let tail = digits(n, 16, 2);
        assert(tail =~= seq![digit_char((n / 16) % 16), digit_char(n % 16)]);
        assert(hex(b) == hex(d) + tail);
        assert forall|i: int| 0 <= i < b.len() implies hex(b)[2 * i] == digit_char(
            (#[trigger] b[i] / 16) as nat,
        ) && hex(b)[2 * i + 1] == digit_char((b[i] % 16) as nat) by {
            if i < d.len() {
                assert(d[i] == b[i]);
            }
        }
        assert forall|i: int| 0 <= i < hex(b).len() implies #[trigger] hex(b)[i] != '\n' by {
            if i < hex(d).len() {
                assert(hex(b)[i] == hex(d)[i]);
            }
        }
    }
}

/// Hexadecimal digits give every byte away: two per byte, the high one first, and different
/// bytes have different digits.
pub proof fn hex_digits_name_the_bytes(a: Seq<u8>, b: Seq<u8>)
    ensures
        hex(a).len() == 2 * a.len(),
        forall|i: int|
            0 <= i < a.len() ==> hex(a)[2 * i] == digit_char((#[trigger] a[i] / 16) as nat) && hex(
                a,
            )[2 * i + 1] == digit_char((a[i] % 16) as nat),
        hex(a) == hex(b) ==> a == b,
{
    lemma_hex(a);
    lemma_hex(b);
    if hex(a) == hex(b) {
        assert forall|i: int| 0 <= i < a.len() implies a[i] == b[i] by {
            assert(hex(a)[2 * i] == hex(b)[2 * i]);
            assert(hex(a)[2 * i + 1] == hex(b)[2 * i + 1]);
            assert(a[i] / 16 == b[i] / 16);
            assert(a[i] % 16 == b[i] % 16);
        }
        assert(a =~= b);
    }
}

proof fn lemma_signed_decimal(v: i64)
    ensures
        signed_decimal(v).len() > 0,
        on_one_line(signed_decimal(v)),
        v >= 0 ==> signed_decimal(v)[0] != '-' && digits_value(signed_decimal(v)) == Some(v as nat),
        v < 0 ==> signed_decimal(v)[0] == '-' && digits_value(signed_decimal(v).drop_first())
            == Some((-v) as nat),
{
    reveal_strlit("-");
    if v >= 0 {
        lemma_decimal(v as nat);
        assert(digit_of(decimal(v as nat)[0]) is Some);
    } else {
        let d = decimal((-v) as nat);
        lemma_decimal((-v) as nat);
        assert(signed_decimal(v).drop_first() =~= d);
        assert forall|i: int| 0 <= i < signed_decimal(v).len() implies #[trigger] signed_decimal(
            v,
        )[i] != '\n' by {
            if i > 0 {
                assert(signed_decimal(v)[i] == d[i - 1]);
            }
        }
    }
}

/// Different times have different numerals.
pub proof fn signed_numerals_are_distinct(a: i64, b: i64)
    ensures
        signed_decimal(a) == signed_decimal(b) ==> a == b,
{
    lemma_signed_decimal(a);
    lemma_signed_decimal(b);
}

/// What is signed has four lines: the method, the path, the digest of the body and the time.
pub proof fn signed_lines_name_the_request(
    method: Seq<char>,
    path: Seq<char>,
    body: Seq<u8>,
    timestamp: i64,
)
    requires
        on_one_line(method),
        on_one_line(path),
    ensures
        pieces(canonical_request(method, path, body, timestamp), '\n') == seq![
            method,
            path,
            hex(sha256_of(body)),
            signed_decimal(timestamp),
        ],
{
    reveal_strlit("\n");
    let digest = hex(sha256_of(body));
    lemma_hex(sha256_of(body));
    lemma_signed_decimal(timestamp);
    let a = method;
    let b = a + seq!['\n'] + path;
    let c = b + seq!['\n'] + digest;
    let d = c + seq!['\n'] + signed_decimal(timestamp);
    lemma_piece_alone(a, '\n');
    lemma_pieces_next(a, path, '\n');
    lemma_pieces_next(b, digest, '\n');
    lemma_pieces_next(c, signed_decimal(timestamp), '\n');
    assert(canonical_request(method, path, body, timestamp) =~= d);
    assert(pieces(d, '\n') =~= seq![method, path, digest, signed_decimal(timestamp)]);
}

/// Requests that differ in method, path, digest of the body or time are signed as different
/// texts.
pub proof fn signed_texts_are_distinct(
    m1: Seq<char>,
    p1: Seq<char>,
    b1: Seq<u8>,
    t1: i64,
    m2: Seq<char>,
    p2: Seq<char>,
    b2: Seq<u8>,
    t2: i64,
)
    requires
        on_one_line(m1),
        on_one_line(p1),
        on_one_line(m2),
        on_one_line(p2),
        canonical_request(m1, p1, b1, t1) == canonical_request(m2, p2, b2, t2),
    ensures
        m1 == m2,
        p1 == p2,
        sha256_of(b1) == sha256_of(b2),
        t1 == t2,
{
    signed_lines_name_the_request(m1, p1, b1, t1);
    signed_lines_name_the_request(m2, p2, b2, t2);
    let x = seq![m1, p1, hex(sha256_of(b1)), signed_decimal(t1)];
    let y = seq![m2, p2, hex(sha256_of(b2)), signed_decimal(t2)];
    assert(x[0] == y[0] && x[1] == y[1] && x[2] == y[2] && x[3] == y[3]);
    hex_digits_name_the_bytes(sha256_of(b1), sha256_of(b2));
    signed_numerals_are_distinct(t1, t2);
}

/// A signature is accepted only within five minutes, either way, and only if it is the keyed
/// digest, under the shared secret, of the four lines that name this request. Within that time
/// the signer's own signature is accepted, and any other is not.
pub proof fn signatures_are_checked_in_full(
    secret: Seq<u8>,
    method: Seq<char>,
    path: Seq<char>,
    body: Seq<u8>,
    timestamp: i64,
    signature: Seq<char>,
    now: i64,
)
    requires
        on_one_line(method),
        on_one_line(path),
    ensures
        now - timestamp > 300 || timestamp - now > 300 ==> verdict(
            secret,
            method,
            path,
            body,
            timestamp,
            signature,
            now,
        ) == Err::<(), HmacError>(HmacError::Skew),
        -300 <= now - timestamp <= 300 ==> exists|text: Seq<char>|
            #![trigger encode_utf8(text)]
            pieces(text, '\n') == seq![
                method,
                path,
                hex(sha256_of(body)),
                signed_decimal(timestamp),
            ] && verdict(secret, method, path, body, timestamp, signature, now) == (if signature
                == b64url(hmac_sha256_of(secret, encode_utf8(text))) {
                Ok::<(), HmacError>(())
            } else {
                Err(HmacError::BadSignature)
            }),
{
    signed_lines_name_the_request(method, path, body, timestamp);
    let text = canonical_request(method, path, body, timestamp);
    assert(signature_of(secret, method, path, body, timestamp) == b64url(
        hmac_sha256_of(secret, encode_utf8(text)),
    ));
}

/// A word of a scope: not empty, and without white space.
pub open spec fn is_word(w: Seq<char>) -> bool {
    &&& w.len() > 0
    &&& forall|i: int| 0 <= i < w.len() ==> !is_space(#[trigger] w[i])
}

/// Words with a blank between them.
pub open spec fn spaced(ws: Seq<Seq<char>>) -> Seq<char>
    decreases ws.len(),
{
    if ws.len() == 0 {
        Seq::empty()
    } else if ws.len() == 1 {
        ws[0]
    } else {
        spaced(ws.drop_last()) + seq![' '] + ws.last()
    }
}

proof fn lemma_words_next(a: Seq<char>, w: Seq<char>)
    requires
        a.len() == 0 || is_space(a.last()),
        is_word(w),
    ensures
        words(a + w) == words(a).push(w),
    decreases w.len(),
{
    let s = a + w;
    let d = w.drop_last();
    assert(s.drop_last() =~= a + d);
    assert(s.last() == w[w.len() - 1]);
    if w.len() == 1 {
        assert(a + d =~= a);
        assert(w =~= seq![w[0]]);
        if a.len() > 0 {
            assert(s[s.len() - 2] == a.last());
        }
    } else {
        assert forall|i: int| 0 <= i < d.len() implies !is_space(#[trigger] d[i]) by {
            assert(d[i] == w[i]);
        }
        lemma_words_next(a, d);
        assert(s[s.len() - 2] == w[w.len() - 2]);
        let p = words(a).push(d);
        assert(d.push(w.last()) =~= w);
        assert(p.update(p.len() - 1, p.last().push(w.last())) =~= words(a).push(w));
    }
}

proof fn lemma_words_spaced(ws: Seq<Seq<char>>)
    requires
        forall|i: int| 0 <= i < ws.len() ==> is_word(#[trigger] ws[i]),
    ensures
        words(spaced(ws)) == ws,
    decreases ws.len(),
{
    let e = Seq::<char>::empty();
    if ws.len() == 0 {
        assert(ws =~= Seq::empty());
    } else if ws.len() == 1 {
        assert(is_word(ws[0]));
        lemma_words_next(e, ws[0]);
        assert(e + ws[0] =~= ws[0]);
        assert(words(e).push(ws[0]) =~= ws);
    } else {
        let d = ws.drop_last();
        assert forall|i: int| 0 <= i < d.len() implies is_word(#[trigger] d[i]) by {
            assert(d[i] == ws[i]);
        }
        lemma_words_spaced(d);
        let a = spaced(d) + seq![' '];
        assert(a.drop_last() =~= spaced(d));
        assert(a.last() == ' ');
        assert(words(a) == d);
        assert(is_word(ws[ws.len() - 1]));
        lemma_words_next(a, ws.last());
        assert(spaced(ws) =~= a + ws.last());
        assert(d.push(ws.last()) =~= ws);
    }
}

/// A scope of words grants each of them and nothing else, wherever in the scope it stands.
pub proof fn scopes_grant_their_words(c: Claims, ws: Seq<Seq<char>>, needed: Seq<char>)
    requires
        ws.len() > 0,
        forall|i: int| 0 <= i < ws.len() ==> is_word(#[trigger] ws[i]),
        c.scope@ == spaced(ws),
    ensures
        c.grants(needed) <==> ws.contains(needed),
{
    lemma_words_spaced(ws);
    if c.scope@.len() == 0 {
        assert(c.scope@ =~= Seq::empty());
        assert(words(c.scope@) == Seq::<Seq<char>>::empty());
    }
}

/// A token without a scope may read and do nothing else.
pub proof fn empty_scopes_grant_reading_only(c: Claims, needed: Seq<char>)
    requires
        c.scope@.len() == 0,
    ensures
        c.grants(needed) <==> needed == "read"@,
{
}

/// Keys are fetched over TLS, or from this machine.
pub proof fn keys_come_over_tls_or_from_here(rest: Seq<char>)
    ensures
        is_jwks_url("https://"@ + rest),
        is_jwks_url("http://localhost"@ + rest),
        is_jwks_url("http://127.0.0.1"@ + rest),
{
    assert(("https://"@ + rest).take("https://"@.len() as int) =~= "https://"@);
    assert(("http://localhost"@ + rest).take("http://localhost"@.len() as int)
        =~= "http://localhost"@);
    assert(("http://127.0.0.1"@ + rest).take("http://127.0.0.1"@.len() as int)
        =~= "http://127.0.0.1"@);
}

/// Keys are fetched from nowhere else.
pub proof fn keys_come_from_nowhere_else(url: Seq<char>)
    requires
        !"https://"@.is_prefix_of(url),
        !"http://localhost"@.is_prefix_of(url),
        !"http://127.0.0.1"@.is_prefix_of(url),
    ensures
        !is_jwks_url(url),
{
    lemma_begins(url, "https://"@);
    lemma_begins(url, "http://localhost"@);
    lemma_begins(url, "http://127.0.0.1"@);
}

proof fn lemma_begins(s: Seq<char>, p: Seq<char>)
    ensures
        begins_with(s, p) ==> p.is_prefix_of(s),
{
    if begins_with(s, p) {
        assert(s.take(p.len() as int) =~= s.subrange(0, p.len() as int));
    }
}

/// Claims in the cache are enough until they expire; from then on the token itself is read.
pub proof fn cached_claims_count_until_they_expire(
    m: TokenCheckView,
    cached: Option<Claims>,
    now: i64,
    next: TokenCheckView,
    act: CheckView,
)
    requires
        m.stage == CheckStage::Idle,
        m.follows(CheckEvent::Token { cached, now }, next, act),
    ensures
        cached matches Some(c) ==> c.exp > now ==> act == CheckView::Accept(c) && next.stage
            == CheckStage::Finished,
        cached matches Some(c) ==> c.exp <= now ==> act == CheckView::ReadHeader && next.stage
            == CheckStage::Reading,
        cached is None ==> act == CheckView::ReadHeader && next.stage == CheckStage::Reading,
{
}

/// The key that the header names is looked up, and no other. A key set that has it and is
/// younger than five minutes is used; any other is fetched first, where it can be. A key that
/// is in neither refuses the token, by its name.
pub proof fn named_keys_are_looked_up(
    m: TokenCheckView,
    kid: String,
    n1: TokenCheckView,
    a1: CheckView,
    known: bool,
    age_ms: Option<u64>,
    n2: TokenCheckView,
    a2: CheckView,
    found: bool,
    n3: TokenCheckView,
    a3: CheckView,
)
    requires
        m.stage == CheckStage::Reading,
        m.follows(CheckEvent::Header(Ok(kid)), n1, a1),
        n1.follows(CheckEvent::Key { known, age_ms }, n2, a2),
        a2 is Fetch ==> n2.follows(CheckEvent::Fetched { known: found }, n3, a3),
    ensures
        a1 == CheckView::LookUp(kid@),
        known && (age_ms matches Some(a) && a < 300_000) ==> a2 == CheckView::Decode,
        m.can_fetch && !(known && (age_ms matches Some(a) && a < 300_000)) ==> a2
            == CheckView::Fetch && n2.stage == CheckStage::Fetching,
        !m.can_fetch && known ==> a2 == CheckView::Decode,
        !m.can_fetch && !known ==> a2 == CheckView::Refuse(JwtFault::UnknownKid(Some(kid@))),
        a2 == CheckView::Decode ==> n2.stage == CheckStage::Decoding,
        a2 is Fetch && found ==> a3 == CheckView::Decode && n3.stage == CheckStage::Decoding,
        a2 is Fetch && !found ==> a3 == CheckView::Refuse(JwtFault::UnknownKid(Some(kid@)))
            && n3.stage == CheckStage::Finished,
{
}

/// A decoded token is accepted with the claims that it carries, if it names its tenant; missing
/// texts are empty. One that did not decode is refused for the reason that it did not.
pub proof fn decoded_tokens_carry_their_claims(
    m: TokenCheckView,
    decoded: Result<RawClaims, DecodeFault>,
    next: TokenCheckView,
    act: CheckView,
)
    requires
        m.follows(CheckEvent::Decoded(decoded), next, act),
    ensures
        next.stage == CheckStage::Finished,
        match decoded {
            Ok(raw) => match raw.tenant_id {
                Some(t) => {
                    &&& act matches CheckView::Keep(c)
                    &&& c.tenant_id == t
                    &&& c.exp == raw.exp
                    &&& raw.sub matches Some(s) ==> c.sub@ == s@
                    &&& raw.sub is None ==> c.sub@.len() == 0
                    &&& raw.scope matches Some(s) ==> c.scope@ == s@
                    &&& raw.scope is None ==> c.scope@.len() == 0
                },
                None => act == CheckView::Refuse(JwtFault::MissingClaim("tenant_id"@)),
            },
            Err(DecodeFault::ExpiredSignature) => act == CheckView::Refuse(JwtFault::Expired),
            Err(DecodeFault::InvalidSignature) => act == CheckView::Refuse(JwtFault::BadSignature),
            Err(DecodeFault::Other) => act == CheckView::Refuse(JwtFault::Malformed),
        },
{
}

/// A header that cannot be read or names no key, and a key set that cannot be fetched, refuse
/// the token with that error.
pub proof fn token_errors_are_passed_on(
    m: TokenCheckView,
    e: JwtError,
    n1: TokenCheckView,
    a1: CheckView,
    n2: TokenCheckView,
    a2: CheckView,
)
    requires
        m.follows(CheckEvent::Header(Err(e)), n1, a1),
        m.follows(CheckEvent::FetchFailed(e), n2, a2),
    ensures
        a1 == CheckView::Refuse(e@) && n1.stage == CheckStage::Finished,
        a2 == CheckView::Refuse(e@) && n2.stage == CheckStage::Finished,
{
}

/// A key set has at most one mebibyte.
pub proof fn key_sets_have_at_most_a_mebibyte()
    ensures
        MAX_JWKS_BYTES == 1024 * 1024,
{
}

} // verus!
