//! Coturn time-limited credentials (HMAC-SHA1, `use-auth-secret`).

use crate::outside::{base64_encode, base64_of, hmac_sha1, hmac_sha1_of, now_secs, CLOCK_END};
use crate::text::{cat3, dec, decimal, parse, parsed};
use vstd::prelude::*;
use vstd::string::*;
use vstd::utf8::encode_utf8;

verus! {

pub const DEFAULT_STUN_PORT: u16 = 3478;

pub const DEFAULT_TURN_PORT: u16 = 3478;

pub const DEFAULT_TURNS_PORT: u16 = 5349;

pub const DEFAULT_TTL_SECS: u64 = 86400;

pub struct TurnCredentialConfig {
    pub secret: String,
    pub realm: String,
    pub ttl_secs: u64,
    pub stun_host: String,
    pub stun_port: u16,
    pub turn_host: String,
    pub turn_port: u16,
    pub turns_port: u16,
}

/// The settings as the environment holds them, each there or not.
pub struct TurnEnv {
    pub secret: Option<String>,
    pub realm: Option<String>,
    pub ttl_secs: Option<String>,
    pub host: Option<String>,
    pub stun_host: Option<String>,
    pub turn_host: Option<String>,
    pub stun_port: Option<String>,
    pub turn_port: Option<String>,
    pub turns_port: Option<String>,
}

/// A port setting: the number, or the default where it is none.
pub open spec fn port_or(s: Option<String>, default: u16) -> int {
    match s {
        Some(s) => match parsed(s@, 10, 65535) {
            Some(n) => n,
            None => default as int,
        },
        None => default as int,
    }
}

fn env_u16(s: &Option<String>, default: u16) -> (r: u16)
    ensures
        r == port_or(*s, default),
{
    match s {
        Some(s) => match parse(s.as_str(), 10, 65535) {
            Some(n) => n as u16,
            None => default,
        },
        None => default,
    }
}

pub open spec fn set(s: Option<String>) -> bool {
    s is Some && s->0@.len() > 0
}

fn is_set(s: &Option<String>) -> (r: bool)
    ensures
        r == set(*s),
{
    match s {
        Some(s) => !s.as_str().is_empty(),
        None => false,
    }
}

/// A host setting, or the one that stands in for it.
pub open spec fn host_or(s: Option<String>, other: Seq<char>) -> Seq<char> {
    if set(s) {
        s->0@
    } else {
        other
    }
}

fn host_or_else(s: &Option<String>, other: &str) -> (r: String)
    ensures
        r@ == host_or(*s, other@),
{
    match s {
        Some(h) => if h.as_str().is_empty() {
            other.to_owned()
        } else {
            h.clone()
        },
        None => other.to_owned(),
    }
}

impl TurnCredentialConfig {
    /// The settings, where the secret and the host are there. The STUN host
    /// stands in for the TURN host, and the host for the STUN host.
    pub fn from_env(env: &TurnEnv) -> (r: Option<TurnCredentialConfig>)
        ensures
            r is Some <==> set(env.secret) && set(env.host),
            r matches Some(c) ==> {
                &&& c.secret@ == env.secret->0@
                &&& c.realm@ == (match env.realm {
                    Some(s) => s@,
                    None => "recomp-net"@,
                })
                &&& c.ttl_secs == (match env.ttl_secs {
                    Some(s) => match parsed(s@, 10, u64::MAX as int) {
                        Some(n) => n,
                        None => DEFAULT_TTL_SECS as int,
                    },
                    None => DEFAULT_TTL_SECS as int,
                })
                &&& c.stun_host@ == host_or(env.stun_host, env.host->0@)
                &&& c.turn_host@ == host_or(env.turn_host, c.stun_host@)
                &&& c.stun_port == port_or(env.stun_port, DEFAULT_STUN_PORT)
                &&& c.turn_port == port_or(env.turn_port, DEFAULT_TURN_PORT)
                &&& c.turns_port == port_or(env.turns_port, DEFAULT_TURNS_PORT)
            },
    {
        if !is_set(&env.secret) || !is_set(&env.host) {
            return None;
        }
        let secret = host_or_else(&env.secret, "");
        let host = host_or_else(&env.host, "");
        let realm = match &env.realm {
            Some(s) => s.clone(),
            None => "recomp-net".to_owned(),
        };
        let ttl_secs: u64 = match &env.ttl_secs {
            Some(s) => match parse(s.as_str(), 10, u64::MAX) {
                Some(n) => n,
                None => DEFAULT_TTL_SECS,
            },
            None => DEFAULT_TTL_SECS,
        };
        let stun_host = host_or_else(&env.stun_host, host.as_str());
        let turn_host = host_or_else(&env.turn_host, stun_host.as_str());
        Some(
            TurnCredentialConfig {
                secret,
                realm,
                ttl_secs,
                stun_port: env_u16(&env.stun_port, DEFAULT_STUN_PORT),
                turn_port: env_u16(&env.turn_port, DEFAULT_TURN_PORT),
                turns_port: env_u16(&env.turns_port, DEFAULT_TURNS_PORT),
                stun_host,
                turn_host,
            },
        )
    }
}

/// The user name that expires at `expiry`.
pub open spec fn turn_username(expiry: int, player_id: Seq<char>) -> Seq<char> {
    decimal(expiry as nat) + ":"@ + player_id
}

/// The password that goes with a user name.
pub open spec fn turn_password(secret: Seq<char>, username: Seq<char>) -> Seq<char> {
    base64_of(hmac_sha1_of(encode_utf8(secret), encode_utf8(username)))
}

/// The credentials that expire at `expiry`.
pub fn credentials_until(secret: &str, player_id: &str, expiry: u64) -> (r: (String, String))
    ensures
        r.0@ == turn_username(expiry as int, player_id@),
        r.1@ == turn_password(secret@, r.0@),
{
    let d = dec(expiry);
    let username = cat3(d.as_str(), ":", player_id);
    let digest = hmac_sha1(secret.as_bytes(), username.as_str().as_bytes());
    (username, base64_encode(&digest))
}

/// When credentials minted at `now` expire, where 64 bits hold it.
pub open spec fn expiry(now: int, ttl_secs: int) -> Option<int> {
    if now >= 0 && now + ttl_secs <= u64::MAX {
        Some(now + ttl_secs)
    } else {
        None
    }
}

/// The credentials minted at `now`.
pub fn credentials_at(cfg: &TurnCredentialConfig, player_id: &str, now: i64) -> (r: Option<
    (String, String),
>)
    ensures
        match (r, expiry(now as int, cfg.ttl_secs as int)) {
            (Some(c), Some(e)) => c.0@ == turn_username(e, player_id@) && c.1@ == turn_password(
                cfg.secret@,
                c.0@,
            ),
            (None, None) => true,
            _ => false,
        },
{
    if now < 0 {
        return None;
    }
    match (now as u64).checked_add(cfg.ttl_secs) {
        Some(e) => Some(credentials_until(cfg.secret.as_str(), player_id, e)),
        None => None,
    }
}

/// Whether credentials of a lifetime have an expiry that fits 64 bits, whatever
/// the clock says.
pub open spec fn always_fits(ttl_secs: u64) -> bool {
    ttl_secs <= u64::MAX - CLOCK_END
}

/// Mints credentials for a player by the clock; none where the expiry does not
/// fit 64 bits.
pub fn issue_credentials(cfg: &TurnCredentialConfig, player_id: &str) -> (r: Option<
    (String, String),
>)
    ensures
        always_fits(cfg.ttl_secs) ==> r is Some,
        r matches Some(c) ==> c.1@ == turn_password(cfg.secret@, c.0@) && exists|e: int|
            cfg.ttl_secs <= e < cfg.ttl_secs + CLOCK_END && #[trigger] turn_username(e, player_id@)
                == c.0@,
{
    let now: i64 = now_secs();
    credentials_at(cfg, player_id, now)
}

/// The settings, or the message that says what is missing.
pub fn require_config(cfg: Option<TurnCredentialConfig>) -> (r: Result<
    TurnCredentialConfig,
    &'static str,
>)
    ensures
        match (r, cfg) {
            (Ok(a), Some(b)) => a == b,
            (Err(e), None) => e@
                == "COTURN_STATIC_AUTH_SECRET and COTURN_HOST are not configured (see docs/LOBBY.md)"@,
            _ => false,
        },
{
    match cfg {
        Some(c) => Ok(c),
        None => Err(
            "COTURN_STATIC_AUTH_SECRET and COTURN_HOST are not configured (see docs/LOBBY.md)",
        ),
    }
}

/// Credentials end their lifetime from now, and their name says when: whoever
/// reads the number before its colon reads that second.
pub proof fn law_a_name_says_its_end(now: int, ttl: int, player_id: Seq<char>)
    requires
        0 <= now,
        0 <= ttl,
        now + ttl <= u64::MAX,
    ensures
        expiry(now, ttl) == Some(now + ttl),
        crate::text::pieces(turn_username(now + ttl, player_id), ':').len() > 0,
        parsed(
            crate::text::pieces(turn_username(now + ttl, player_id), ':')[0],
            10,
            u64::MAX as int,
        ) == Some(now + ttl),
{
    reveal_strlit(":");
    let d = decimal((now + ttl) as nat);
    assert(d + ":"@ =~= d.push(':'));
    crate::ws_lobby::hosts::lemma_decimal_lacks((now + ttl) as nat);
    crate::spelling::law_separators_part_pieces(d, ':', player_id);
    crate::spelling::law_a_written_number_is_read((now + ttl) as nat, u64::MAX as int);
}

/// A port that is written down counts, and the usual one does where none is.
pub proof fn law_a_written_port_counts(s: Option<String>, default: u16, n: nat)
    ensures
        s is None ==> port_or(s, default) == default,
        s is Some && s->0@ == decimal(n) ==> port_or(s, default) == if n < 65536 {
            n as int
        } else {
            default as int
        },
{
    crate::spelling::law_a_written_number_is_read(n, 65535);
}

} // verus!
