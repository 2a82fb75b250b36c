//! Discord login, and the pairing that gets its result back to a game.
//!
//! The launcher holds a pairing code and polls with it. The browser's callback
//! parks the result under the same code. A code is good for one result, and
//! only for so long.

use crate::auth::{issue_session_token, session_claims, signed_claims};
use crate::config::{Config, ConfigView};
use crate::find::{first_where, lemma_first_is, lemma_first_none, lemma_first_where};
use crate::identity::{Player, PlayerView};
use crate::input_relay::since;
use crate::outside::{hex_encode, hex_of, random_bytes, CLOCK_END};
use crate::text::{cat, digit_char, same, string_of, upper_char};
use vstd::prelude::*;
use vstd::string::*;
use vstd::utf8::encode_utf8;

verus! {

/// How long a started login may sit unfinished, in milliseconds.
pub const PENDING_TTL_MS: u64 = 600_000;

pub struct Completed {
    pub session: String,
    pub player_id: String,
    pub handle: String,
    /// Shown where two players share a handle.
    pub discord_username: String,
}

#[verifier::ext_equal]
pub ghost struct CompletedView {
    pub session: Seq<char>,
    pub player_id: Seq<char>,
    pub handle: Seq<char>,
    pub discord_username: Seq<char>,
}

impl View for Completed {
    type V = CompletedView;

    open spec fn view(&self) -> CompletedView {
        CompletedView {
            session: self.session@,
            player_id: self.player_id@,
            handle: self.handle@,
            discord_username: self.discord_username@,
        }
    }
}

impl Completed {
    pub fn copy(&self) -> (r: Completed)
        ensures
            r@ == self@,
    {
        Completed {
            session: self.session.clone(),
            player_id: self.player_id.clone(),
            handle: self.handle.clone(),
            discord_username: self.discord_username.clone(),
        }
    }
}

pub open spec fn outcome_view(o: Result<Completed, String>) -> Result<CompletedView, Seq<char>> {
    match o {
        Ok(c) => Ok(c@),
        Err(e) => Err(e@),
    }
}

pub open spec fn opt_outcome(o: Option<Result<Completed, String>>) -> Option<
    Result<CompletedView, Seq<char>>,
> {
    match o {
        Some(r) => Some(outcome_view(r)),
        None => None,
    }
}

/// A login in flight.
pub struct Pending {
    pub code: String,
    /// In milliseconds of a steady clock.
    pub started: u64,
    /// None until the callback lands.
    pub outcome: Option<Result<Completed, String>>,
}

#[verifier::ext_equal]
pub ghost struct PendingLogin {
    pub code: Seq<char>,
    pub started: u64,
    pub outcome: Option<Result<CompletedView, Seq<char>>>,
}

impl View for Pending {
    type V = PendingLogin;

    open spec fn view(&self) -> PendingLogin {
        PendingLogin {
            code: self.code@,
            started: self.started,
            outcome: opt_outcome(self.outcome),
        }
    }
}

pub struct LoginStore {
    pub logins: Vec<Pending>,
}

pub open spec fn logins_view(v: Seq<Pending>) -> Seq<PendingLogin> {
    v.map_values(|p: Pending| p@)
}

impl View for LoginStore {
    type V = Seq<PendingLogin>;

    open spec fn view(&self) -> Seq<PendingLogin> {
        logins_view(self.logins@)
    }
}

impl Default for LoginStore {
    fn default() -> (r: LoginStore)
        ensures
            r@ == Seq::<PendingLogin>::empty(),
    {
        let r = LoginStore { logins: Vec::new() };
        proof {
            assert(r@ =~= Seq::<PendingLogin>::empty());
        }
        r
    }
}

// --------------------------------------------------------------- the model

pub open spec fn login_at(s: Seq<PendingLogin>, code: Seq<char>) -> Option<int> {
    first_where(s, |p: PendingLogin| p.code == code)
}

/// Whether a login has been in flight for too long.
pub open spec fn aged(p: PendingLogin, now: u64) -> bool {
    since(p.started, now) >= PENDING_TTL_MS
}

/// The logins that have not aged, but for the one of `code`.
pub open spec fn fresh_logins(s: Seq<PendingLogin>, code: Seq<char>, now: u64) -> Seq<PendingLogin>
    decreases s.len(),
{
    if s.len() == 0 {
        Seq::empty()
    } else if !aged(s.last(), now) && s.last().code != code {
        fresh_logins(s.drop_last(), code, now).push(s.last())
    } else {
        fresh_logins(s.drop_last(), code, now)
    }
}

pub open spec fn begun(s: Seq<PendingLogin>, code: Seq<char>, now: u64) -> Seq<PendingLogin> {
    fresh_logins(s, code, now).push(PendingLogin { code, started: now, outcome: None })
}

pub open spec fn finished(
    s: Seq<PendingLogin>,
    code: Seq<char>,
    outcome: Result<CompletedView, Seq<char>>,
) -> Seq<PendingLogin> {
    match login_at(s, code) {
        Some(i) => s.update(i, PendingLogin { outcome: Some(outcome), ..s[i] }),
        None => s,
    }
}

/// Polling with a code: what is left, and the result if there is one.
pub open spec fn take_step(s: Seq<PendingLogin>, code: Seq<char>, now: u64) -> (
    Seq<PendingLogin>,
    Option<Result<CompletedView, Seq<char>>>,
) {
    match login_at(s, code) {
        None => (s, None),
        Some(i) => if s[i].outcome is Some {
            (s.remove(i), s[i].outcome)
        } else if aged(s[i], now) {
            (s.remove(i), Some(Err("expired"@)))
        } else {
            (s, None)
        },
    }
}

// --------------------------------------------------------------- the store

/// A pairing code by chance: 24 bytes in hexadecimal.
pub fn random_code() -> (r: String)
    ensures
        exists|bytes: Seq<u8>| bytes.len() == 24 && r@ == #[trigger] hex_of(bytes),
{
    let bytes = random_bytes(24);
    hex_encode(&bytes)
}

impl LoginStore {
    fn find(&self, code: &str) -> (r: Option<usize>)
        ensures
            match (r, login_at(self@, code@)) {
                (Some(a), Some(b)) => a == b && a < self.logins@.len() && self@[b]
                    == self.logins@[b]@,
                (None, None) => true,
                _ => false,
            },
    {
        let ghost all = self@;
        let ghost p = |p: PendingLogin| p.code == code@;
        let mut i: usize = 0;
        while i < self.logins.len()
            invariant
                i <= self.logins@.len(),
                all == self@,
                p == (|p: PendingLogin| p.code == code@),
                forall|k: int| 0 <= k < i ==> !p(#[trigger] all[k]),
            decreases self.logins@.len() - i,
        {
            proof {
                assert(all[i as int] == self.logins@[i as int]@);
            }
            if same(self.logins[i].code.as_str(), code) {
                proof {
                    lemma_first_is(all, p, i as int);
                }
                return Some(i);
            }
            i = i + 1;
        }
        proof {
            lemma_first_none(all, p);
        }
        None
    }

    /// Starts a login under a given code. Logins that have aged are dropped.
    pub fn begin_as(&mut self, code: &str, now: u64)
        ensures
            final(self)@ == begun(old(self)@, code@, now),
    {
        let ghost all = self@;
        let mut taken: Vec<Pending> = Vec::new();
        std::mem::swap(&mut self.logins, &mut taken);
        let ghost list = taken@;
        let mut rest = taken;
        let mut kept: Vec<Pending> = Vec::new();
        let ghost mut done: int = 0;
        proof {
            assert(all.take(0) =~= Seq::<PendingLogin>::empty());
            assert(logins_view(kept@) =~= Seq::<PendingLogin>::empty());
            assert(list.skip(0) =~= list);
        }
        while rest.len() > 0
            invariant
                0 <= done <= list.len(),
                all == logins_view(list),
                rest@ == list.skip(done),
                logins_view(kept@) == fresh_logins(all.take(done), code@, now),
            decreases rest@.len(),
        {
            let p = rest.remove(0);
            proof {
                let t = all.take(done + 1);
                assert(t.drop_last() =~= all.take(done));
                assert(t.last() == p@);
                assert(list.skip(done).remove(0) =~= list.skip(done + 1));
                done = done + 1;
            }
            let age: u64 = if now < p.started {
                0
            } else {
                now - p.started
            };
            if age < PENDING_TTL_MS && !same(p.code.as_str(), code) {
                let ghost before = kept@;
                let ghost v = p@;
                kept.push(p);
                proof {
                    assert(logins_view(kept@) =~= logins_view(before).push(v));
                }
            }
        }
        proof {
            assert(all.take(all.len() as int) =~= all);
        }
        let p = Pending { code: code.to_owned(), started: now, outcome: None };
        let ghost v = p@;
        let ghost before = kept@;
        kept.push(p);
        proof {
            assert(logins_view(kept@) =~= logins_view(before).push(v));
        }
        self.logins = kept;
    }

    /// Starts a login, under a code by chance.
    pub fn begin(&mut self, now: u64) -> (r: String)
        ensures
            exists|bytes: Seq<u8>| bytes.len() == 24 && r@ == #[trigger] hex_of(bytes),
            final(self)@ == begun(old(self)@, r@, now),
    {
        let code = random_code();
        self.begin_as(code.as_str(), now);
        code
    }

    /// Ends a login with the reason why it failed.
    pub fn fail(&mut self, code: &str, why: &str)
        ensures
            final(self)@ == finished(old(self)@, code@, Err(why@)),
    {
        self.finish(code, Err(why.to_owned()));
    }

    /// Parks the result of a login for whoever polls with its code.
    pub fn finish(&mut self, code: &str, outcome: Result<Completed, String>)
        ensures
            final(self)@ == finished(old(self)@, code@, outcome_view(outcome)),
    {
        let ghost all = self@;
        if let Some(i) = self.find(code) {
            self.logins[i].outcome = Some(outcome);
            proof {
                assert(self@ =~= finished(all, code@, outcome_view(outcome)));
            }
        }
    }

    /// Takes the result of a login if there is one. A code is good for one.
    pub fn take(&mut self, code: &str, now: u64) -> (r: Option<Result<Completed, String>>)
        ensures
            (final(self)@, opt_outcome(r)) == take_step(old(self)@, code@, now),
    {
        let ghost all = self@;
        let i: usize = match self.find(code) {
            Some(i) => i,
            None => {
                return None;
            },
        };
        if self.logins[i].outcome.is_some() {
            let p = self.logins.remove(i);
            proof {
                assert(self@ =~= all.remove(i as int));
            }
            return p.outcome;
        }
        let started: u64 = self.logins[i].started;
        let age: u64 = if now < started {
            0
        } else {
            now - started
        };
        if age >= PENDING_TTL_MS {
            let _ = self.logins.remove(i);
            proof {
                assert(self@ =~= all.remove(i as int));
            }
            return Some(Err("expired".to_owned()));
        }
        None
    }
}

// ---------------------------------------------------------------- the URLs

pub open spec fn discord_api() -> Seq<char> {
    "https://discord.com/api/v10"@
}

/// Whether a byte stands in a query as it is.
pub open spec fn unreserved(b: u8) -> bool {
    (0x41 <= b <= 0x5A) || (0x61 <= b <= 0x7A) || (0x30 <= b <= 0x39) || b == 0x2D || b == 0x5F
        || b == 0x2E || b == 0x7E
}

/// A byte in a query: itself, or a percent sign and two hexadecimal digits.
pub open spec fn escaped(b: u8) -> Seq<char> {
    if unreserved(b) {
        seq![b as char]
    } else {
        seq![
            '%',
            upper_char(digit_char(b as int / 16)),
            upper_char(digit_char(b as int % 16)),
        ]
    }
}

pub open spec fn percent(bytes: Seq<u8>) -> Seq<char>
    decreases bytes.len(),
{
    if bytes.len() == 0 {
        Seq::empty()
    } else {
        percent(bytes.drop_last()) + escaped(bytes.last())
    }
}

fn hex_digit(d: u8) -> (r: char)
    requires
        d < 16,
    ensures
        r == upper_char(digit_char(d as int)),
{
    if d < 10 {
        (48 + d) as char
    } else {
        (55 + d) as char
    }
}

/// Percent-encodes a text.
pub fn urlencode(s: &str) -> (r: String)
    ensures
        r@ == percent(encode_utf8(s@)),
{
    let bytes = s.as_bytes();
    let mut out: Vec<char> = Vec::new();
    let mut i: usize = 0;
    proof {
        assert(bytes@.take(0) =~= Seq::<u8>::empty());
    }
    while i < bytes.len()
        invariant
            i <= bytes@.len(),
            out@ == percent(bytes@.take(i as int)),
        decreases bytes@.len() - i,
    {
        let b = bytes[i];
        let ghost before = out@;
        proof {
            let t = bytes@.take(i + 1);
            assert(t.drop_last() =~= bytes@.take(i as int));
            assert(t.last() == b);
        }
        if (b >= 0x41 && b <= 0x5A) || (b >= 0x61 && b <= 0x7A) || (b >= 0x30 && b <= 0x39) || b
            == 0x2D || b == 0x5F || b == 0x2E || b == 0x7E {
            out.push(b as char);
        } else {
            out.push('%');
            out.push(hex_digit(b / 16));
            out.push(hex_digit(b % 16));
        }
        proof {
            assert(out@ =~= before + escaped(b));
        }
        i = i + 1;
    }
    proof {
        assert(bytes@.take(bytes@.len() as int) =~= bytes@);
        assert(out@.subrange(0, out@.len() as int) =~= out@);
    }
    string_of(&out, 0, out.len())
}

/// The page that a launcher opens for a login under `state`.
pub open spec fn authorize_page(
    client_id: Seq<char>,
    redirect: Seq<char>,
    gated: bool,
    state: Seq<char>,
) -> Seq<char> {
    discord_api() + "/oauth2/authorize?client_id="@ + client_id
        + "&response_type=code&redirect_uri="@ + percent(encode_utf8(redirect)) + "&scope="@ + (
    if gated {
        "identify%20guilds.members.read"@
    } else {
        "identify"@
    }) + "&state="@ + state
}

/// The URL that the launcher opens. `state` is the pairing code. The guild
/// scope is asked for only where a guild is configured.
pub fn authorize_url(cfg: &Config, state: &str) -> (r: Result<String, &'static str>)
    ensures
        match r {
            Ok(u) => cfg@.discord_client_id is Some && cfg@.discord_redirect_url is Some && u@
                == authorize_page(
                cfg@.discord_client_id->0,
                cfg@.discord_redirect_url->0,
                cfg@.discord_guild_id is Some,
                state@,
            ),
            Err(e) => if cfg@.discord_client_id is None {
                e@ == "DISCORD_CLIENT_ID not set"@
            } else {
                cfg@.discord_redirect_url is None && e@ == "DISCORD_REDIRECT_URL not set"@
            },
        },
{
    let id = match &cfg.discord_client_id {
        Some(id) => id,
        None => {
            return Err("DISCORD_CLIENT_ID not set");
        },
    };
    let redirect = match &cfg.discord_redirect_url {
        Some(u) => u,
        None => {
            return Err("DISCORD_REDIRECT_URL not set");
        },
    };
    let scope = if cfg.discord_guild_id.is_some() {
        "identify%20guilds.members.read"
    } else {
        "identify"
    };
    let mut u = cat("https://discord.com/api/v10", "/oauth2/authorize?client_id=");
    u = cat(u.as_str(), id.as_str());
    u = cat(u.as_str(), "&response_type=code&redirect_uri=");
    let enc = urlencode(redirect.as_str());
    u = cat(u.as_str(), enc.as_str());
    u = cat(u.as_str(), "&scope=");
    u = cat(u.as_str(), scope);
    u = cat(u.as_str(), "&state=");
    u = cat(u.as_str(), state);
    Ok(u)
}

/// The URL of the member of a guild.
pub open spec fn member_page(guild: Seq<char>) -> Seq<char> {
    discord_api() + "/users/@me/guilds/"@ + guild + "/member"@
}

/// Where to ask whether a login is a member of the configured guild.
pub fn membership_url(cfg: &Config) -> (r: Option<String>)
    ensures
        match (r, cfg@.discord_guild_id) {
            (Some(u), Some(g)) => u@ == member_page(g),
            (None, None) => true,
            _ => false,
        },
{
    match &cfg.discord_guild_id {
        Some(g) => {
            let a = cat("https://discord.com/api/v10", "/users/@me/guilds/");
            let b = cat(a.as_str(), g.as_str());
            Some(cat(b.as_str(), "/member"))
        },
        None => None,
    }
}

// ------------------------------------------------------------ the exchange

pub open spec fn fields_view(v: Seq<(String, String)>) -> Seq<(Seq<char>, Seq<char>)> {
    v.map_values(|p: (String, String)| (p.0@, p.1@))
}

/// The form that trades an authorization code for a token.
pub open spec fn token_fields(
    client_id: Seq<char>,
    secret: Seq<char>,
    code: Seq<char>,
    redirect: Seq<char>,
) -> Seq<(Seq<char>, Seq<char>)> {
    seq![
        ("client_id"@, client_id),
        ("client_secret"@, secret),
        ("grant_type"@, "authorization_code"@),
        ("code"@, code),
        ("redirect_uri"@, redirect),
    ]
}

/// The form that trades an authorization code for a token, or what is not
/// configured.
pub fn token_request(cfg: &Config, code: &str) -> (r: Result<Vec<(String, String)>, &'static str>)
    ensures
        match r {
            Ok(f) => cfg@.discord_client_id is Some && cfg@.discord_client_secret is Some
                && cfg@.discord_redirect_url is Some && fields_view(f@) == token_fields(
                cfg@.discord_client_id->0,
                cfg@.discord_client_secret->0,
                code@,
                cfg@.discord_redirect_url->0,
            ),
            Err(e) => if cfg@.discord_client_id is None {
                e@ == "DISCORD_CLIENT_ID not set"@
            } else if cfg@.discord_client_secret is None {
                e@ == "DISCORD_CLIENT_SECRET not set"@
            } else {
                cfg@.discord_redirect_url is None && e@ == "DISCORD_REDIRECT_URL not set"@
            },
        },
{
    let id = match &cfg.discord_client_id {
        Some(id) => id,
        None => {
            return Err("DISCORD_CLIENT_ID not set");
        },
    };
    let secret = match &cfg.discord_client_secret {
        Some(s) => s,
        None => {
            return Err("DISCORD_CLIENT_SECRET not set");
        },
    };
    let redirect = match &cfg.discord_redirect_url {
        Some(u) => u,
        None => {
            return Err("DISCORD_REDIRECT_URL not set");
        },
    };
    let mut f: Vec<(String, String)> = Vec::new();
    f.push(("client_id".to_owned(), id.clone()));
    f.push(("client_secret".to_owned(), secret.clone()));
    f.push(("grant_type".to_owned(), "authorization_code".to_owned()));
    f.push(("code".to_owned(), code.to_owned()));
    f.push(("redirect_uri".to_owned(), redirect.clone()));
    proof {
        assert(fields_view(f@) =~= token_fields(id@, secret@, code@, redirect@));
    }
    Ok(f)
}

/// Guild gating: a login that is no member of the configured guild ends here.
pub fn guild_gate(cfg: &Config, member: bool) -> (r: Result<(), &'static str>)
    ensures
        match r {
            Ok(_) => cfg@.discord_guild_id is None || member,
            Err(e) => cfg@.discord_guild_id is Some && !member && e@ == "not_in_guild"@,
        },
{
    if cfg.discord_guild_id.is_some() && !member {
        Err("not_in_guild")
    } else {
        Ok(())
    }
}

/// Whether `c` hands the player a session of their own that is signed with the
/// current secret.
pub open spec fn hands_session(cfg: ConfigView, player: PlayerView, c: CompletedView) -> bool {
    &&& c.player_id == player.id
    &&& c.handle == player.handle
    &&& c.discord_username == player.discord_username
    &&& cfg.jwt_secret_current is Some
    &&& exists|now: int|
        0 <= now < CLOCK_END && signed_claims(encode_utf8(cfg.jwt_secret_current->0), c.session) == Some(
            #[trigger] session_claims(player.id, now),
        )
}

/// What is said where no session can be signed.
pub open spec fn unsigned() -> Seq<char> {
    "JWT signing is not configured (set JWT_SECRET_CURRENT)"@
}

/// A session that begins now, by the clock, for a player, or why there is none.
pub fn session_for(cfg: &Config, player: &Player) -> (r: Result<Completed, String>)
    ensures
        match r {
            Ok(c) => hands_session(cfg@, player@, c@),
            Err(e) => cfg@.jwt_secret_current is None && e@ == unsigned(),
        },
{
    match issue_session_token(cfg, player.id.as_str()) {
        Ok(session) => Ok(
            Completed {
                session,
                player_id: player.id.clone(),
                handle: player.handle.clone(),
                discord_username: player.discord_username.clone(),
            },
        ),
        Err(e) => Err(e.message()),
    }
}

/// What the launcher is handed for a linked player: a session that begins now,
/// by the clock, or why there is none.
pub fn complete(cfg: &Config, player: &Player) -> (r: Result<Completed, String>)
    ensures
        match r {
            Ok(c) => hands_session(cfg@, player@, c@),
            Err(e) => cfg@.jwt_secret_current is None && e@ == "session token: "@ + unsigned(),
        },
{
    match session_for(cfg, player) {
        Ok(c) => Ok(c),
        Err(why) => Err(cat("session token: ", why.as_str())),
    }
}

/// Parks the result of a callback under its pairing code, and gives it back
/// for the page that the browser is shown.
pub fn on_callback(store: &mut LoginStore, state: &str, result: Result<Completed, String>) -> (r:
    Result<Completed, String>)
    ensures
        final(store)@ == finished(old(store)@, state@, outcome_view(result)),
        outcome_view(r) == outcome_view(result),
{
    let shown = match &result {
        Ok(c) => Ok(c.copy()),
        Err(e) => Err(e.clone()),
    };
    store.finish(state, result);
    shown
}

// -------------------------------------------------------------------- laws

proof fn lemma_fresh(s: Seq<PendingLogin>, code: Seq<char>, now: u64)
    ensures
        forall|i: int|
            0 <= i < fresh_logins(s, code, now).len() ==> (#[trigger] fresh_logins(s, code, now)[i]).code
                != code && !aged(fresh_logins(s, code, now)[i], now),
    decreases s.len(),
{
    if s.len() > 0 {
        lemma_fresh(s.drop_last(), code, now);
    }
}

/// A code is pending from the start of its login until the result lands, and
/// then gives the result.
pub proof fn law_pending_until_finished(
    s: Seq<PendingLogin>,
    code: Seq<char>,
    now: u64,
    later: u64,
    outcome: Result<CompletedView, Seq<char>>,
)
    requires
        since(now, later) < PENDING_TTL_MS,
    ensures
        take_step(begun(s, code, now), code, later) == (
            begun(s, code, now),
            None::<Result<CompletedView, Seq<char>>>,
        ),
        take_step(finished(begun(s, code, now), code, outcome), code, later).1 == Some(outcome),
{
    let p = |p: PendingLogin| p.code == code;
    let t = begun(s, code, now);
    let n = t.len() - 1;
    lemma_fresh(s, code, now);
    assert forall|k: int| 0 <= k < n implies !p(#[trigger] t[k]) by {
        assert(t[k] == fresh_logins(s, code, now)[k]);
    }
    lemma_first_is(t, p, n);
    let u = finished(t, code, outcome);
    assert forall|k: int| 0 <= k < n implies !p(#[trigger] u[k]) by {
        assert(u[k] == t[k]);
    }
    lemma_first_is(u, p, n);
}

/// A code gives one result: where no two logins share a code, polling again
/// gives nothing.
pub proof fn law_a_code_is_spent(s: Seq<PendingLogin>, code: Seq<char>, now: u64, later: u64)
    requires
        forall|i: int, j: int| 0 <= i < j < s.len() ==> (#[trigger] s[i]).code != (#[trigger] s[j]).code,
        take_step(s, code, now).1 is Some,
    ensures
        take_step(take_step(s, code, now).0, code, later).1 is None,
{
    let p = |p: PendingLogin| p.code == code;
    lemma_first_where(s, p);
    let i = login_at(s, code)->0;
    let t = s.remove(i);
    assert forall|k: int| 0 <= k < t.len() implies !p(#[trigger] t[k]) by {
        if k < i {
            assert(t[k] == s[k]);
        } else {
            assert(t[k] == s[k + 1]);
            assert(s[i].code != s[k + 1].code);
        }
    }
    lemma_first_none(t, p);
}

/// Starting a login leaves no two logins with one code.
pub proof fn law_codes_stay_distinct(s: Seq<PendingLogin>, code: Seq<char>, now: u64)
    requires
        forall|i: int, j: int| 0 <= i < j < s.len() ==> (#[trigger] s[i]).code != (#[trigger] s[j]).code,
    ensures
        forall|i: int, j: int|
            0 <= i < j < begun(s, code, now).len() ==> (#[trigger] begun(s, code, now)[i]).code != (
            #[trigger] begun(s, code, now)[j]).code,
{
    lemma_fresh(s, code, now);
    lemma_fresh_distinct(s, code, now);
    let f = fresh_logins(s, code, now);
    let t = begun(s, code, now);
    assert forall|i: int, j: int| 0 <= i < j < t.len() implies (#[trigger] t[i]).code != (
    #[trigger] t[j]).code by {
        assert(t[i] == f[i]);
        if j < f.len() {
            assert(t[j] == f[j]);
        }
    }
}

proof fn lemma_fresh_distinct(s: Seq<PendingLogin>, code: Seq<char>, now: u64)
    requires
        forall|i: int, j: int| 0 <= i < j < s.len() ==> (#[trigger] s[i]).code != (#[trigger] s[j]).code,
    ensures
        forall|i: int, j: int|
            0 <= i < j < fresh_logins(s, code, now).len() ==> (#[trigger] fresh_logins(s, code, now)[i]).code
                != (#[trigger] fresh_logins(s, code, now)[j]).code,
        forall|i: int|
            0 <= i < fresh_logins(s, code, now).len() ==> s.contains(
                #[trigger] fresh_logins(s, code, now)[i],
            ),
    decreases s.len(),
{
    if s.len() > 0 {
        let d = s.drop_last();
        assert forall|i: int, j: int| 0 <= i < j < d.len() implies (#[trigger] d[i]).code != (
        #[trigger] d[j]).code by {
            assert(d[i] == s[i] && d[j] == s[j]);
        }
        lemma_fresh_distinct(d, code, now);
        let f = fresh_logins(d, code, now);
        let g = fresh_logins(s, code, now);
        assert forall|i: int| 0 <= i < g.len() implies s.contains(#[trigger] g[i]) by {
            if i < f.len() {
                assert(g[i] == f[i]);
                let k = choose|k: int| 0 <= k < d.len() && d[k] == f[i];
                assert(s[k] == d[k]);
            } else {
                assert(s[s.len() - 1] == s.last());
            }
        }
        assert forall|i: int, j: int| 0 <= i < j < g.len() implies (#[trigger] g[i]).code != (
        #[trigger] g[j]).code by {
            assert(g[i] == f[i]);
            if j < f.len() {
                assert(g[j] == f[j]);
            } else {
                let k = choose|k: int| 0 <= k < d.len() && d[k] == f[i];
                assert(s[k] == d[k]);
                assert(s[k].code != s[s.len() - 1].code);
            }
        }
    }
}

/// Escaping goes byte by byte: letters, digits and `-_.~` stand as they are, and
/// every other byte is a percent sign and the two digits that write it.
pub proof fn law_escaping_goes_byte_by_byte(a: Seq<u8>, b: u8)
    ensures
        percent(Seq::empty()).len() == 0,
        percent(a.push(b)) == percent(a) + escaped(b),
        (b == 0x2D || b == 0x2E || b == 0x5F || b == 0x7E || 0x30 <= b <= 0x39 || 0x41 <= b <= 0x5A
            || 0x61 <= b <= 0x7A) ==> escaped(b) == seq![b as char],
        !(b == 0x2D || b == 0x2E || b == 0x5F || b == 0x7E || 0x30 <= b <= 0x39 || 0x41 <= b <= 0x5A
            || 0x61 <= b <= 0x7A) ==> escaped(b).len() == 3 && escaped(b)[0] == '%'
            && crate::text::number(escaped(b).skip(1), 16) == b,
{
    assert(a.push(b).drop_last() =~= a);
    if !unreserved(b) {
        let t = escaped(b).skip(1);
        let hi = b as int / 16;
        let lo = b as int % 16;
        assert(t.drop_last().drop_last() =~= Seq::<char>::empty());
        reveal_with_fuel(crate::text::number, 3);
        assert(crate::text::digit_value(upper_char(digit_char(hi))) == Some(hi));
        assert(crate::text::digit_value(upper_char(digit_char(lo))) == Some(lo));
        assert(t.last() == upper_char(digit_char(lo)));
        assert(t.drop_last().last() == upper_char(digit_char(hi)));
    }
}

/// Starting a login leaves every other that has not aged as it is.
pub proof fn law_other_logins_go_on(s: Seq<PendingLogin>, code: Seq<char>, now: u64, i: int)
    requires
        0 <= i < s.len(),
        s[i].code != code,
        since(s[i].started, now) < PENDING_TTL_MS,
    ensures
        begun(s, code, now).contains(s[i]),
    decreases s.len(),
{
    let rest = s.drop_last();
    let f = fresh_logins(s, code, now);
    let b = fresh_logins(rest, code, now);
    let t = begun(s, code, now);
    if i == s.len() - 1 {
        assert(f[b.len() as int] == s[i]);
        assert(t[b.len() as int] == s[i]);
    } else {
        assert(rest[i] == s[i]);
        law_other_logins_go_on(rest, code, now, i);
        let u = begun(rest, code, now);
        let k = choose|k: int| 0 <= k < u.len() && u[k] == s[i];
        assert(k < b.len());
        assert(f[k] == b[k]);
        assert(t[k] == s[i]);
    }
}

} // verus!
