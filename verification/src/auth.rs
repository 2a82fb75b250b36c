//! Short-lived session tokens for client authentication.
//!
//! A token is a JWT under HS256. It is signed with the current secret and
//! checked against the current and the previous one, so that a secret can be
//! replaced while sessions run.

use crate::config::{verification_keys, Config};
use crate::outside::{now_secs, CLOCK_END};
use vstd::prelude::*;
use vstd::string::*;
use vstd::utf8::encode_utf8;

verus! {

/// How long a session lives, in seconds.
pub const DEFAULT_TTL_SECS: i64 = 2700;

pub struct SessionClaims {
    pub sub: String,
    pub iat: i64,
    pub exp: i64,
}

impl View for SessionClaims {
    type V = (Seq<char>, i64, i64);

    open spec fn view(&self) -> (Seq<char>, i64, i64) {
        (self.sub@, self.iat, self.exp)
    }
}

pub enum AuthError {
    SigningNotConfigured,
    /// The signing failed, with what it says.
    Encode(String),
    InvalidToken,
}

impl AuthError {
    /// What the error says.
    pub fn message(&self) -> (r: String)
        ensures
            r@ == (match *self {
                AuthError::SigningNotConfigured =>
                    "JWT signing is not configured (set JWT_SECRET_CURRENT)"@,
                AuthError::Encode(why) => "JWT encode failed: "@ + why@,
                AuthError::InvalidToken => "invalid or expired token"@,
            }),
    {
        match self {
            AuthError::SigningNotConfigured =>
                "JWT signing is not configured (set JWT_SECRET_CURRENT)".to_owned(),
            AuthError::Encode(why) => crate::text::cat("JWT encode failed: ", why.as_str()),
            AuthError::InvalidToken => "invalid or expired token".to_owned(),
        }
    }
}

/// The subject, the time of issue and the expiry that a token carries, where
/// it carries them and is signed with the key.
pub uninterp spec fn signed_claims(key: Seq<u8>, token: Seq<char>) -> Option<(Seq<char>, i64, i64)>;

/// Calls `jsonwebtoken::encode` with the default header. It gives a token that
/// is signed with the key and carries the claims: an HMAC takes a key of any
/// length, and a text and two numbers can always be written as JSON.
#[verifier::external_body]
fn jwt_encode(key: &[u8], claims: &SessionClaims) -> (r: Result<String, String>)
    ensures
        match r {
            Ok(t) => signed_claims(key@, t@) == Some(claims@),
            Err(_) => false,
        },
{
    let mut map = serde_json::Map::new();
    map.insert("sub".to_string(), serde_json::Value::from(claims.sub.as_str()));
    map.insert("iat".to_string(), serde_json::Value::from(claims.iat));
    map.insert("exp".to_string(), serde_json::Value::from(claims.exp));
    jsonwebtoken::encode(
        &jsonwebtoken::Header::default(),
        &map,
        &jsonwebtoken::EncodingKey::from_secret(key),
    ).map_err(|e| e.to_string())
}

/// Calls `jsonwebtoken::decode` with the default validation. What it gives is
/// what the token carries under its signature. It gives nothing for a token
/// that is past its expiry, by the clock and with a minute's grace, and for
/// one that is meant for another audience: of those nothing is stated.
#[verifier::external_body]
fn jwt_decode(key: &[u8], token: &str) -> (r: Option<SessionClaims>)
    ensures
        r matches Some(c) ==> signed_claims(key@, token@) == Some(c@),
{
    let got = jsonwebtoken::decode::<serde_json::Map<String, serde_json::Value>>(
        token,
        &jsonwebtoken::DecodingKey::from_secret(key),
        &jsonwebtoken::Validation::default(),
    ).ok()?;
    let sub = got.claims.get("sub")?.as_str()?.to_string();
    let iat = got.claims.get("iat")?.as_i64()?;
    let exp = got.claims.get("exp")?.as_i64()?;
    Some(SessionClaims { sub, iat, exp })
}

/// The claims of a session that begins at `now`.
pub open spec fn session_claims(player_id: Seq<char>, now: int) -> (Seq<char>, i64, i64) {
    (player_id, now as i64, (now + DEFAULT_TTL_SECS) as i64)
}

/// A token for a session that begins at `now`.
pub fn session_token_at(config: &Config, player_id: &str, now: i64) -> (r: Result<
    String,
    AuthError,
>)
    requires
        now <= i64::MAX - DEFAULT_TTL_SECS,
    ensures
        match config@.jwt_secret_current {
            Some(key) => r matches Ok(t) && signed_claims(encode_utf8(key), t@) == Some(
                session_claims(player_id@, now as int),
            ),
            None => r matches Err(AuthError::SigningNotConfigured),
        },
{
    match &config.jwt_secret_current {
        Some(secret) => {
            let claims = SessionClaims {
                sub: player_id.to_owned(),
                iat: now,
                exp: now + DEFAULT_TTL_SECS,
            };
            match jwt_encode(secret.as_str().as_bytes(), &claims) {
                Ok(t) => Ok(t),
                Err(e) => Err(AuthError::Encode(e)),
            }
        },
        None => Err(AuthError::SigningNotConfigured),
    }
}

/// A token for a session that begins now, by the clock.
pub fn issue_session_token(config: &Config, player_id: &str) -> (r: Result<String, AuthError>)
    ensures
        match config@.jwt_secret_current {
            Some(key) => r matches Ok(t) && exists|now: int|
                0 <= now < CLOCK_END && signed_claims(encode_utf8(key), t@) == Some(
                    #[trigger] session_claims(player_id@, now),
                ),
            None => r matches Err(AuthError::SigningNotConfigured),
        },
{
    let now: i64 = now_secs();
    session_token_at(config, player_id, now)
}

pub open spec fn claims_view(o: Option<SessionClaims>) -> Option<(Seq<char>, i64, i64)> {
    match o {
        Some(c) => Some(c@),
        None => None,
    }
}

/// What checking a token comes to, given what each key made of it.
pub open spec fn settled(attempts: Seq<Option<SessionClaims>>) -> Option<(Seq<char>, i64, i64)>
    decreases attempts.len(),
{
    if attempts.len() == 0 {
        None
    } else if attempts[0] is Some {
        claims_view(attempts[0])
    } else {
        settled(attempts.skip(1))
    }
}

/// Settles a check: the first key that takes the token decides.
#[verifier::loop_isolation(false)]
pub fn settle(attempts: Vec<Option<SessionClaims>>) -> (r: Result<SessionClaims, AuthError>)
    ensures
        match r {
            Ok(c) => settled(attempts@) == Some(c@),
            Err(AuthError::SigningNotConfigured) => attempts@.len() == 0,
            Err(AuthError::InvalidToken) => attempts@.len() > 0 && settled(attempts@) is None,
            Err(AuthError::Encode(_)) => false,
        },
{
    if attempts.len() == 0 {
        return Err(AuthError::SigningNotConfigured);
    }
    let ghost list = attempts@;
    let mut rest = attempts;
    let ghost mut done: int = 0;
    proof {
        assert(list.skip(0) =~= list);
    }
    while rest.len() > 0
        invariant
            0 <= done <= list.len(),
            rest@ == list.skip(done),
            settled(list) == settled(rest@),
        decreases rest@.len(),
    {
        let ghost now = rest@;
        let a = rest.remove(0);
        proof {
            assert(now.remove(0) =~= now.skip(1));
            assert(list.skip(done).remove(0) =~= list.skip(done + 1));
            done = done + 1;
            assert(a == now[0]);
            assert(settled(list) == if a is Some {
                claims_view(a)
            } else {
                settled(now.skip(1))
            });
        }
        if let Some(c) = a {
            return Ok(c);
        }
    }
    Err(AuthError::InvalidToken)
}

/// The claims of a token that one of the configured secrets signed and that
/// has not expired, by the clock.
pub fn verify_session_token(config: &Config, token: &str) -> (r: Result<SessionClaims, AuthError>)
    ensures
        match r {
            Ok(c) => exists|i: int|
                0 <= i < verification_keys(config@).len() && signed_claims(
                    encode_utf8(#[trigger] verification_keys(config@)[i]),
                    token@,
                ) == Some(c@),
            Err(AuthError::SigningNotConfigured) => verification_keys(config@).len() == 0,
            Err(AuthError::InvalidToken) => verification_keys(config@).len() > 0,
            Err(AuthError::Encode(_)) => false,
        },
{
    let keys = config.jwt_verification_keys();
    let ghost all = verification_keys(config@);
    let mut attempts: Vec<Option<SessionClaims>> = Vec::new();
    let mut i: usize = 0;
    while i < keys.len()
        invariant
            i <= keys@.len(),
            crate::text::views(keys@) == all,
            attempts@.len() == i,
            forall|k: int|
                0 <= k < i ==> ((#[trigger] attempts@[k]) matches Some(c) ==> signed_claims(
                    encode_utf8(all[k]),
                    token@,
                ) == Some(c@)),
        decreases keys@.len() - i,
    {
        proof {
            assert(all[i as int] == keys@[i as int]@);
        }
        attempts.push(jwt_decode(keys[i].as_str().as_bytes(), token));
        i = i + 1;
    }
    proof {
        assert(all.len() == keys@.len());
        lemma_settled(attempts@);
    }
    settle(attempts)
}

proof fn lemma_settled(attempts: Seq<Option<SessionClaims>>)
    ensures
        settled(attempts) is Some ==> exists|i: int|
            0 <= i < attempts.len() && claims_view(#[trigger] attempts[i]) == settled(attempts),
    decreases attempts.len(),
{
    if attempts.len() > 0 && attempts[0] is None {
        let t = attempts.skip(1);
        lemma_settled(t);
        if settled(t) is Some {
            let i = choose|i: int| 0 <= i < t.len() && claims_view(#[trigger] t[i]) == settled(t);
            assert(attempts[i + 1] == t[i]);
        }
    }
}

// -------------------------------------------------------------------- laws

/// A session lives for its time and no longer, from when it was issued.
pub proof fn law_session_lifetime(player_id: Seq<char>, now: int)
    requires
        i64::MIN <= now <= i64::MAX - DEFAULT_TTL_SECS,
    ensures
        session_claims(player_id, now).2 - session_claims(player_id, now).1 == DEFAULT_TTL_SECS,
{
}

/// A token that was signed with the current secret is checked against the
/// same secret, first, and after a rotation still as the previous one.
pub proof fn law_rotation_keeps_sessions(before: crate::config::ConfigView, after: crate::config::ConfigView)
    requires
        before.jwt_secret_current is Some,
        after.jwt_secret_previous == before.jwt_secret_current,
    ensures
        verification_keys(before)[0] == before.jwt_secret_current->0,
        verification_keys(after).contains(before.jwt_secret_current->0),
{
    let k = verification_keys(after);
    assert(k[k.len() - 1] == before.jwt_secret_current->0);
}

} // verus!
