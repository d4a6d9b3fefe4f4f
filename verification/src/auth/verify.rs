//! Verifying a token: which step follows which, and what is accepted in the end.
use crate::auth::claims::{usable_claims, Claims};
use crate::auth::jwt::{
    claims_from_decoded, must_refresh, text_or_empty, unknown_kid, DecodeFault, JwtError, JwtFault,
    RawClaims, JWKS_TTL_SECONDS,
};
use vstd::prelude::*;

verus! {

/// What to do next with a token.
pub enum CheckAction {
    /// Read the header of the token for the key that it names.
    ReadHeader,
    /// Look the key up in the key set.
    LookUp(String),
    /// Fetch the key set, then look the key up again.
    Fetch,
    /// Decode the token with the key.
    Decode,
    /// Keep the claims in the cache, and accept the token.
    Keep(Claims),
    /// Accept the token with the claims out of the cache.
    Accept(Claims),
    /// Refuse the token.
    Refuse(JwtError),
}

/// The content of an action.
pub ghost enum CheckView {
    ReadHeader,
    LookUp(Seq<char>),
    Fetch,
    Decode,
    Keep(Claims),
    Accept(Claims),
    Refuse(JwtFault),
}

impl View for CheckAction {
    type V = CheckView;

    open spec fn view(&self) -> CheckView {
        match self {
            CheckAction::ReadHeader => CheckView::ReadHeader,
            CheckAction::LookUp(k) => CheckView::LookUp(k@),
            CheckAction::Fetch => CheckView::Fetch,
            CheckAction::Decode => CheckView::Decode,
            CheckAction::Keep(c) => CheckView::Keep(*c),
            CheckAction::Accept(c) => CheckView::Accept(*c),
            CheckAction::Refuse(e) => CheckView::Refuse(e@),
        }
    }
}

/// How the last action went.
pub enum CheckEvent {
    /// A token came in: what the cache holds for it, and the time.
    Token { cached: Option<Claims>, now: i64 },
    /// The key that the header names, or why there is none.
    Header(Result<String, JwtError>),
    /// Whether the key is in the key set, and how old that is, if it was ever fetched.
    Key { known: bool, age_ms: Option<u64> },
    /// The key set was fetched; whether the key is in it.
    Fetched { known: bool },
    /// The key set could not be fetched.
    FetchFailed(JwtError),
    /// How decoding went.
    Decoded(Result<RawClaims, DecodeFault>),
}

/// How far the check of a token is.
#[derive(Copy, Clone, Debug, PartialEq, Eq, Structural)]
pub enum CheckStage {
    Idle,
    Reading,
    LookingUp,
    Fetching,
    Decoding,
    Finished,
}

impl CheckStage {
    /// The place of a stage in the order of a check.
    pub open spec fn rank(self) -> int {
        match self {
            CheckStage::Idle => 0,
            CheckStage::Reading => 1,
            CheckStage::LookingUp => 2,
            CheckStage::Fetching => 3,
            CheckStage::Decoding => 4,
            CheckStage::Finished => 5,
        }
    }
}

/// The event can follow in this stage.
pub open spec fn expects(stage: CheckStage, ev: CheckEvent) -> bool {
    match stage {
        CheckStage::Idle => ev is Token,
        CheckStage::Reading => ev is Header,
        CheckStage::LookingUp => ev is Key,
        CheckStage::Fetching => ev is Fetched || ev is FetchFailed,
        CheckStage::Decoding => ev is Decoded,
        CheckStage::Finished => false,
    }
}

/// The check of one token. A key set is fetched only where there is an address for it.
pub struct TokenCheck {
    stage: CheckStage,
    can_fetch: bool,
    kid: String,
}

/// The state of a check.
#[verifier::ext_equal]
pub ghost struct TokenCheckView {
    pub stage: CheckStage,
    pub can_fetch: bool,
    pub kid: Seq<char>,
}

/// The claims that a token has in the end.
pub open spec fn are_claims_of(raw: RawClaims, c: Claims) -> bool {
    raw.tenant_id == Some(c.tenant_id) && c.sub@ == text_or_empty(raw.sub) && c.exp == raw.exp
        && c.scope@ == text_or_empty(raw.scope)
}

impl TokenCheckView {
    /// After the key set was asked for the key.
    pub open spec fn after_lookup(self, known: bool) -> (TokenCheckView, CheckView) {
        if known {
            (TokenCheckView { stage: CheckStage::Decoding, ..self }, CheckView::Decode)
        } else {
            (
                TokenCheckView { stage: CheckStage::Finished, ..self },
                CheckView::Refuse(JwtFault::UnknownKid(Some(self.kid))),
            )
        }
    }

    /// `next` and `act` follow on `ev`.
    pub open spec fn follows(self, ev: CheckEvent, next: TokenCheckView, act: CheckView) -> bool {
        let end = TokenCheckView { stage: CheckStage::Finished, ..self };
        match ev {
            CheckEvent::Token { cached, now } => if cached matches Some(c) && c.exp > now {
                next == end && act == CheckView::Accept(cached->0)
            } else {
                next == (TokenCheckView { stage: CheckStage::Reading, ..self }) && act
                    == CheckView::ReadHeader
            },
            CheckEvent::Header(Ok(kid)) => next == (TokenCheckView {
                stage: CheckStage::LookingUp,
                kid: kid@,
                ..self
            }) && act == CheckView::LookUp(kid@),
            CheckEvent::Header(Err(e)) => next == end && act == CheckView::Refuse(e@),
            CheckEvent::Key { known, age_ms } => {
                let fresh = age_ms matches Some(a) && a < JWKS_TTL_SECONDS * 1000;
                if !(known && fresh) && self.can_fetch {
                    next == (TokenCheckView { stage: CheckStage::Fetching, ..self }) && act
                        == CheckView::Fetch
                } else {
                    (next, act) == self.after_lookup(known)
                }
            },
            CheckEvent::Fetched { known } => (next, act) == self.after_lookup(known),
            CheckEvent::FetchFailed(e) => next == end && act == CheckView::Refuse(e@),
            CheckEvent::Decoded(Ok(raw)) => next == end && match raw.tenant_id {
                Some(_) => act matches CheckView::Keep(c) && are_claims_of(raw, c),
                None => act == CheckView::Refuse(JwtFault::MissingClaim("tenant_id"@)),
            },
            CheckEvent::Decoded(Err(f)) => next == end && act == CheckView::Refuse(
                match f {
                    DecodeFault::ExpiredSignature => JwtFault::Expired,
                    DecodeFault::InvalidSignature => JwtFault::BadSignature,
                    DecodeFault::Other => JwtFault::Malformed,
                },
            ),
        }
    }
}

impl TokenCheck {
    pub closed spec fn view(&self) -> TokenCheckView {
        TokenCheckView { stage: self.stage, can_fetch: self.can_fetch, kid: self.kid@ }
    }

    pub fn new(can_fetch: bool) -> (r: Self)
        ensures
            r@ == (TokenCheckView { stage: CheckStage::Idle, can_fetch, kid: Seq::empty() }),
    {
        let r = TokenCheck { stage: CheckStage::Idle, can_fetch, kid: String::new() };
        assert(r@.kid =~= Seq::empty());
        r
    }

    fn use_key(&mut self, known: bool) -> (r: CheckAction)
        ensures
            (final(self)@, r@) == old(self)@.after_lookup(known),
    {
        if known {
            self.stage = CheckStage::Decoding;
            CheckAction::Decode
        } else {
            self.stage = CheckStage::Finished;
            CheckAction::Refuse(unknown_kid(self.kid.as_str()))
        }
    }

    /// The next action, given how the last one went.
    pub fn step(&mut self, ev: CheckEvent) -> (r: CheckAction)
        requires
            expects(old(self)@.stage, ev),
        ensures
            old(self)@.follows(ev, final(self)@, r@),
    {
        match ev {
            CheckEvent::Token { cached, now } => match usable_claims(cached, now) {
                Some(c) => {
                    self.stage = CheckStage::Finished;
                    CheckAction::Accept(c)
                },
                None => {
                    self.stage = CheckStage::Reading;
                    CheckAction::ReadHeader
                },
            },
            CheckEvent::Header(Ok(kid)) => {
                self.stage = CheckStage::LookingUp;
                self.kid = kid.clone();
                CheckAction::LookUp(kid)
            },
            CheckEvent::Header(Err(e)) => {
                self.stage = CheckStage::Finished;
                CheckAction::Refuse(e)
            },
            CheckEvent::Key { known, age_ms } => {
                if must_refresh(known, age_ms) && self.can_fetch {
                    self.stage = CheckStage::Fetching;
                    CheckAction::Fetch
                } else {
                    self.use_key(known)
                }
            },
            CheckEvent::Fetched { known } => self.use_key(known),
            CheckEvent::FetchFailed(e) => {
                self.stage = CheckStage::Finished;
                CheckAction::Refuse(e)
            },
            CheckEvent::Decoded(decoded) => {
                self.stage = CheckStage::Finished;
                match claims_from_decoded(decoded) {
                    Ok(c) => CheckAction::Keep(c),
                    Err(e) => CheckAction::Refuse(e),
                }
            },
        }
    }
}

/// A token is accepted only with claims out of the cache that have not expired, or with
/// those that were decoded from it.
pub proof fn tokens_are_accepted_only_when_verified(
    before: TokenCheckView,
    ev: CheckEvent,
    next: TokenCheckView,
    act: CheckView,
)
    requires
        expects(before.stage, ev),
        before.follows(ev, next, act),
    ensures
        act matches CheckView::Accept(c) ==> ev matches CheckEvent::Token { cached, now }
            && cached == Some(c) && c.exp > now,
        act matches CheckView::Keep(c) ==> ev matches CheckEvent::Decoded(d) && d matches Ok(raw)
            && are_claims_of(raw, c),
{
}

/// A check moves forward with every step, so that it ends, and the key set is fetched at
/// most once, and only where there is an address for it.
pub proof fn token_checks_move_forward(
    before: TokenCheckView,
    ev: CheckEvent,
    next: TokenCheckView,
    act: CheckView,
)
    requires
        expects(before.stage, ev),
        before.follows(ev, next, act),
    ensures
        next.stage.rank() > before.stage.rank(),
        act is Fetch ==> before.can_fetch && next.stage == CheckStage::Fetching,
{
}

} // verus!
