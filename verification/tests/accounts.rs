use recomp_net_server::auth::{
    issue_session_token, session_token_at, settle, verify_session_token, AuthError, SessionClaims,
};
use recomp_net_server::challenges::{proves, proving_key, ChallengeStore};
use recomp_net_server::chat_filter::ChatFilter;
use recomp_net_server::config::{guess_lan_gateway_from_host, parse_bool_env, Config, Env, Var};
use recomp_net_server::discord_auth::{
    authorize_url, complete, guild_gate, membership_url, on_callback, token_request, urlencode,
    Completed, LoginStore, PENDING_TTL_MS,
};
use recomp_net_server::identity::Player;
use recomp_net_server::players::{
    create_player, generate_api_token, hash_api_token, require_player, verify_player_token,
};
use recomp_net_server::routes::{
    revoke_secret, session_from_secret, set_handle, spend_nonce, ApiError,
};
use recomp_net_server::secrets::{generate, hash, issue, redeem, redeemed_id, revoke, RedeemError};
use recomp_net_server::turn_credentials::{
    credentials_at, credentials_until, issue_credentials, require_config, TurnCredentialConfig,
    TurnEnv,
};

fn env(vars: &[(&str, &str)]) -> Env {
    Env {
        vars: vars
            .iter()
            .map(|(n, v)| Var { name: n.to_string(), value: v.to_string() })
            .collect(),
    }
}

fn config(vars: &[(&str, &str)]) -> Config {
    match Config::from_env(&env(vars)) {
        Ok(c) => c,
        Err(e) => panic!("{e}"),
    }
}

const SIGNED: &[(&str, &str)] = &[("JWT_SECRET_CURRENT", "one"), ("JWT_SECRET_PREVIOUS", "two")];

#[test]
fn guess_gateway_from_lan_host() {
    assert_eq!(guess_lan_gateway_from_host("192.168.66.3").as_deref(), Some("192.168.66.1"));
    assert_eq!(guess_lan_gateway_from_host("10.0.0.50").as_deref(), Some("10.0.0.1"));
    assert!(guess_lan_gateway_from_host("netplay.example.com").is_none());
    assert!(guess_lan_gateway_from_host("").is_none());
}

#[test]
fn nothing_configured_is_a_working_server() {
    let c = config(&[]);
    assert!(!c.require_auth);
    assert!(c.jwt_verification_keys().is_empty());
    assert!(c.game_allowed("anything"));
    assert!(!c.game_allowed(""));
    assert!(c.discord_missing().is_empty());
    assert_eq!(c.effective_database_url(), "sqlite:recomp-net-server.db?mode=rwc");
}

#[test]
fn required_auth_without_a_key_is_refused() {
    assert!(Config::from_env(&env(&[("REQUIRE_AUTH", "1")])).is_err());
    assert!(Config::from_env(&env(&[("REQUIRE_AUTH", "1"), ("JWT_SECRET_CURRENT", "k")])).is_ok());
    assert!(parse_bool_env("true") && parse_bool_env("1") && !parse_bool_env("0"));
}

#[test]
fn an_allowlist_admits_what_it_lists() {
    let c = config(&[("LOBBY_GAME_ALLOWLIST", "alpha, beta")]);
    assert!(c.game_allowed("alpha") && c.game_allowed("beta"));
    assert!(!c.game_allowed("gamma"));
}

#[test]
fn half_a_discord_login_names_what_is_missing() {
    let c = config(&[("DISCORD_CLIENT_ID", "1")]);
    let missing = c.discord_missing();
    assert!(missing.contains(&"DISCORD_CLIENT_SECRET".to_string()), "{missing:?}");
    assert!(!missing.contains(&"DISCORD_CLIENT_ID".to_string()));
}

const PLAYER: &str = "67e55044-10b1-426f-9247-bb680e5fe0c8";

#[test]
fn a_session_verifies_until_it_expires() {
    let c = config(SIGNED);
    let t = match issue_session_token(&c, PLAYER) {
        Ok(t) => t,
        Err(e) => panic!("{}", e.message()),
    };
    match verify_session_token(&c, &t) {
        Ok(claims) => {
            assert_eq!(claims.sub, PLAYER);
            assert_eq!(claims.exp - claims.iat, 45 * 60);
        }
        Err(e) => panic!("{}", e.message()),
    }
    let stale = match session_token_at(&c, PLAYER, 1_000_000) {
        Ok(t) => t,
        Err(e) => panic!("{}", e.message()),
    };
    assert!(matches!(verify_session_token(&c, &stale), Err(AuthError::InvalidToken)));
}

#[test]
fn a_rotated_key_still_verifies_and_a_foreign_one_does_not() {
    let old = config(&[("JWT_SECRET_CURRENT", "two")]);
    let t = issue_session_token(&old, PLAYER).ok().unwrap();
    assert!(verify_session_token(&config(SIGNED), &t).is_ok(), "the previous secret");
    let other = config(&[("JWT_SECRET_CURRENT", "three")]);
    assert!(matches!(verify_session_token(&other, &t), Err(AuthError::InvalidToken)));
    assert!(matches!(verify_session_token(&other, "junk"), Err(AuthError::InvalidToken)));
}

#[test]
fn no_signing_key_says_so() {
    let c = config(&[]);
    match issue_session_token(&c, PLAYER) {
        Err(e) => assert_eq!(
            e.message(),
            "JWT signing is not configured (set JWT_SECRET_CURRENT)"
        ),
        Ok(_) => panic!("nothing to sign with"),
    }
    assert!(matches!(verify_session_token(&c, "x"), Err(AuthError::SigningNotConfigured)));
    assert_eq!(AuthError::Encode("why".into()).message(), "JWT encode failed: why");
    assert_eq!(AuthError::InvalidToken.message(), "invalid or expired token");
}

#[test]
fn the_first_key_that_takes_a_token_decides() {
    let claims = |s: &str| Some(SessionClaims { sub: s.into(), iat: 1, exp: 2 });
    assert_eq!(settle(vec![None, claims("b"), claims("c")]).ok().unwrap().sub, "b");
    assert!(matches!(settle(vec![None]), Err(AuthError::InvalidToken)));
    assert!(matches!(settle(vec![]), Err(AuthError::SigningNotConfigured)));
}

fn done() -> Completed {
    Completed {
        session: "jwt".into(),
        player_id: "p".into(),
        handle: "Reimu".into(),
        discord_username: "reimu_h".into(),
    }
}

#[test]
fn a_pairing_code_is_pending_until_it_is_finished() {
    let mut s = LoginStore::default();
    let code = s.begin(0);
    assert!(s.take(&code, 0).is_none(), "still waiting");
    s.finish(&code, Err("nope".into()));
    assert!(matches!(s.take(&code, 0), Some(Err(_))));
}

#[test]
fn a_code_is_good_for_exactly_one_login() {
    let mut s = LoginStore::default();
    let code = s.begin(0);
    assert_eq!(code.len(), 48);
    s.finish(&code, Ok(done()));
    assert!(s.take(&code, 0).is_some());
    assert!(s.take(&code, 0).is_none(), "the code is spent");
}

#[test]
fn an_unknown_code_is_not_pending() {
    let mut s = LoginStore::default();
    assert!(s.take("nope", 0).is_none());
}

#[test]
fn an_abandoned_login_expires_once() {
    let mut s = LoginStore::default();
    let code = s.begin(0);
    assert!(s.take(&code, PENDING_TTL_MS - 1).is_none());
    match s.take(&code, PENDING_TTL_MS) {
        Some(Err(e)) => assert_eq!(e, "expired"),
        _ => panic!("an aged login has expired"),
    }
    assert!(s.take(&code, PENDING_TTL_MS).is_none());
    let a = s.begin(0);
    let b = s.begin(PENDING_TTL_MS);
    assert_ne!(a, b);
    assert_eq!(s.logins.len(), 1, "a new login drops the aged ones");
}

#[test]
fn a_callback_parks_its_result() {
    let mut s = LoginStore::default();
    let code = s.begin(0);
    assert_eq!(on_callback(&mut s, &code, Ok(done())).ok().unwrap().handle, "Reimu");
    match s.take(&code, 0) {
        Some(Ok(c)) => assert_eq!(c.session, "jwt"),
        _ => panic!("the result waits under its code"),
    }
}

#[test]
fn the_authorize_url_asks_for_guild_scope_only_when_gating() {
    let mut cfg = config(&[]);
    cfg.discord_client_id = Some("123".into());
    cfg.discord_redirect_url = Some("https://x.example/auth/discord/callback".into());
    let url = authorize_url(&cfg, "st").unwrap();
    assert!(url.contains("scope=identify&"), "{url}");
    assert!(!url.contains("guilds.members.read"));
    assert!(url.contains("https%3A%2F%2Fx.example%2Fauth%2Fdiscord%2Fcallback"));
    assert_eq!(
        url,
        "https://discord.com/api/v10/oauth2/authorize?client_id=123&response_type=code\
         &redirect_uri=https%3A%2F%2Fx.example%2Fauth%2Fdiscord%2Fcallback&scope=identify&state=st"
    );
    cfg.discord_guild_id = Some("999".into());
    assert!(authorize_url(&cfg, "st").unwrap().contains("guilds.members.read"));
    assert_eq!(
        membership_url(&cfg).as_deref(),
        Some("https://discord.com/api/v10/users/@me/guilds/999/member")
    );
}

#[test]
fn there_is_no_url_without_configuration() {
    let cfg = config(&[]);
    assert!(authorize_url(&cfg, "st").is_err());
    assert!(membership_url(&cfg).is_none());
}

#[test]
fn the_exchange_names_what_is_not_configured() {
    let mut cfg = config(&[]);
    assert_eq!(token_request(&cfg, "c").unwrap_err(), "DISCORD_CLIENT_ID not set");
    cfg.discord_client_id = Some("1".into());
    assert_eq!(token_request(&cfg, "c").unwrap_err(), "DISCORD_CLIENT_SECRET not set");
    cfg.discord_client_secret = Some("2".into());
    assert_eq!(token_request(&cfg, "c").unwrap_err(), "DISCORD_REDIRECT_URL not set");
    cfg.discord_redirect_url = Some("3".into());
    let form = token_request(&cfg, "c").unwrap();
    assert_eq!(form[2], ("grant_type".to_string(), "authorization_code".to_string()));
    assert_eq!(form[3], ("code".to_string(), "c".to_string()));
}

#[test]
fn a_guild_admits_its_members_only() {
    let mut cfg = config(&[]);
    assert!(guild_gate(&cfg, false).is_ok());
    cfg.discord_guild_id = Some("9".into());
    assert!(guild_gate(&cfg, true).is_ok());
    assert_eq!(guild_gate(&cfg, false).unwrap_err(), "not_in_guild");
}

#[test]
fn a_completed_login_carries_a_session() {
    let player = Player {
        id: PLAYER.into(),
        discord_id: "1".into(),
        discord_username: "reimu_h".into(),
        avatar: "pic".into(),
        handle: "Reimu".into(),
    };
    let cfg = config(SIGNED);
    let c = complete(&cfg, &player).ok().unwrap();
    assert_eq!((c.player_id.as_str(), c.handle.as_str()), (PLAYER, "Reimu"));
    assert_eq!(verify_session_token(&cfg, &c.session).ok().unwrap().sub, PLAYER);
    assert_eq!(
        complete(&config(&[]), &player).err().unwrap(),
        "session token: JWT signing is not configured (set JWT_SECRET_CURRENT)"
    );
}

#[test]
fn a_query_is_percent_encoded() {
    assert_eq!(urlencode("a-b_c.d~9"), "a-b_c.d~9");
    assert_eq!(urlencode("é /"), "%C3%A9%20%2F");
}

const ABC: &str = "ba7816bf8f01cfea414140de5dae2223b00361a396177a9cb410ff61f20015ad";

#[test]
fn a_token_is_stored_as_its_digest() {
    assert_eq!(hash_api_token("abc"), ABC);
    assert!(verify_player_token(Some(ABC), "abc"));
    assert!(!verify_player_token(Some(ABC), "abd"));
    assert!(!verify_player_token(None, "abc"));
    assert!(require_player(Some(ABC), "abc").is_ok());
    assert_eq!(require_player(None, "abc").unwrap_err(), "invalid player credentials");
    let p = create_player();
    assert_eq!(p.id.len(), 36);
    assert_eq!(p.token.len(), 64);
    assert_eq!(p.token_hash, hash_api_token(&p.token));
    assert_ne!(generate_api_token(), generate_api_token());
}

#[test]
fn a_key_redeems_to_its_player() {
    let s = issue("Steam\u{7} Deck ");
    assert!(s.secret.starts_with("rnp_"), "greppable prefix: {}", s.secret);
    assert_eq!(s.label, "Steam Deck");
    let id = redeemed_id(Some(PLAYER.to_uppercase())).unwrap();
    assert_eq!(id, PLAYER);
    let player = Player {
        id,
        discord_id: "1".into(),
        discord_username: "reimu_h".into(),
        avatar: "pic".into(),
        handle: "Reimu".into(),
    };
    let back = redeem(Some(player)).ok().unwrap();
    assert_eq!(back.id, PLAYER);
    assert_eq!(back.handle, "Reimu");
}

#[test]
fn the_plaintext_is_not_stored() {
    let s = issue("PC");
    assert_ne!(s.secret_hash, s.secret, "a database leak must not yield a key");
    assert_eq!(s.secret_hash, hash(&s.secret));
    assert_eq!(hash("abc"), ABC);
    assert_ne!(generate(), generate());
}

#[test]
fn an_unknown_key_is_refused_like_a_revoked_one() {
    assert_eq!(redeemed_id(None).unwrap_err(), RedeemError::InvalidSecret);
    assert!(matches!(redeem(None), Err(RedeemError::InvalidSecret)));
    assert_eq!(redeemed_id(Some("?".into())).unwrap_err(), RedeemError::BadId);
    assert!(revoke(1) && !revoke(0));
}

fn turn() -> TurnEnv {
    TurnEnv {
        secret: Some("s".into()),
        realm: None,
        ttl_secs: Some("60".into()),
        host: Some("turn.example".into()),
        stun_host: None,
        turn_host: None,
        stun_port: Some("1234".into()),
        turn_port: Some("not a port".into()),
        turns_port: None,
    }
}

#[test]
fn turn_credentials_are_signed_until_they_expire() {
    let (u, p) = credentials_until("s", "alice", 100);
    assert_eq!(u, "100:alice");
    assert_eq!(p, "9QbHalRNQOgIMU4TkY7AmbcdUaw=");
    let cfg = TurnCredentialConfig::from_env(&turn()).unwrap();
    assert_eq!((cfg.stun_port, cfg.turn_port, cfg.turns_port), (1234, 3478, 5349));
    assert_eq!(cfg.turn_host, "turn.example");
    assert_eq!(credentials_at(&cfg, "alice", 40).unwrap(), (u, p));
    assert!(credentials_at(&cfg, "alice", -1).is_none());
    let (name, _) = issue_credentials(&cfg, "alice").unwrap();
    assert!(name.ends_with(":alice"), "{name}");
}

#[test]
fn turn_needs_a_secret_and_a_host() {
    let mut e = turn();
    e.secret = None;
    assert!(TurnCredentialConfig::from_env(&e).is_none());
    let mut e = turn();
    e.host = Some(String::new());
    assert!(TurnCredentialConfig::from_env(&e).is_none());
    assert!(require_config(None).is_err());
    assert!(require_config(TurnCredentialConfig::from_env(&turn())).is_ok());
}

const DEVICE: &str = "3f333df6-90a4-4fda-8dd3-9485d27cee36";

fn holder() -> Player {
    Player {
        id: DEVICE.to_string(),
        discord_id: "9".to_string(),
        discord_username: "reimu_h".to_string(),
        avatar: "pic".into(),
        handle: "Reimu".to_string(),
    }
}

fn refused<T>(r: Result<T, ApiError>) -> (u16, String) {
    match r {
        Ok(_) => panic!("not refused"),
        Err(e) => (e.status, e.message),
    }
}

#[test]
fn a_device_trades_a_proof_for_a_session() {
    let signed = config(SIGNED);
    let done = match session_from_secret(&signed, DEVICE, true, Some(holder())) {
        Ok(c) => c,
        Err(e) => panic!("{}", e.message),
    };
    assert_eq!((done.player_id.as_str(), done.handle.as_str()), (DEVICE, "Reimu"));
    assert_eq!(verify_session_token(&signed, &done.session).ok().map(|c| c.sub).as_deref(), Some(DEVICE));

    let bad = (403, "invalid_secret".to_string());
    assert_eq!(refused(session_from_secret(&signed, "nobody", true, Some(holder()))), bad);
    assert_eq!(refused(session_from_secret(&signed, DEVICE, true, None)), bad);
    let stale = (403, "bad_nonce".to_string());
    assert_eq!(refused(session_from_secret(&signed, DEVICE, false, None)), stale);
    assert_eq!(refused(spend_nonce(false)), stale);
    assert!(spend_nonce(true).is_ok());
    let unsigned = refused(session_from_secret(&config(&[]), DEVICE, true, Some(holder())));
    assert_eq!(unsigned.0, 500);
    assert_eq!(unsigned.1, "JWT signing is not configured (set JWT_SECRET_CURRENT)");
}

#[test]
fn a_handle_changes_under_a_proof() {
    let words = ChatFilter::parse("rudeword\n", true);
    let ask = |live: bool, proved: bool, name: &str| {
        set_handle(&words, DEVICE, live, proved, name.to_string())
    };
    assert_eq!(ask(true, true, " Marisa ").ok().as_deref(), Some("Marisa"));
    assert_eq!(refused(ask(true, true, "rudeword")), (409, "handle_rejected".to_string()));
    assert_eq!(refused(ask(true, true, "   ")), (409, "handle_rejected".to_string()));
    assert_eq!(refused(ask(false, true, "Marisa")), (403, "bad_nonce".to_string()));
    assert_eq!(refused(ask(true, false, "Marisa")), (403, "invalid_secret".to_string()));
}

#[test]
fn all_keys_go_only_under_a_proof() {
    assert_eq!(revoke_secret(DEVICE, true, true, true, 2).ok(), Some(2));
    assert_eq!(revoke_secret(DEVICE, true, true, false, 1).ok(), Some(1));
    assert_eq!(revoke_secret(DEVICE, true, false, false, 0).ok(), Some(0));
    assert_eq!(
        refused(revoke_secret(DEVICE, true, false, true, 2)),
        (403, "invalid_secret".to_string())
    );
    assert_eq!(
        refused(revoke_secret(DEVICE, false, true, true, 2)),
        (403, "bad_nonce".to_string())
    );
}

#[test]
fn a_nonce_is_answered_once_and_in_time() {
    let mut s = ChallengeStore::default();
    let n = s.issue(1000);
    assert_eq!(n.len(), 64);
    let m = s.issue(2000);
    assert_ne!(n, m);
    assert!(!s.take("unknown", 2000));
    assert!(s.take(&n, 60_999));
    assert!(!s.take(&n, 60_999), "spent");
    assert!(!s.take(&m, 62_000), "too late");
    s.issue_as("x", 0);
    assert!(s.take("x", 59_999));
}

#[test]
fn a_proof_is_a_code_over_the_nonce_under_the_keys_digest() {
    let stored = hash("rnp_key");
    assert_eq!(stored, "9e60a9d1e111614688d0cd4e588d8feaf9e53cfdf4d4bca851990b19765e6be4");
    let shown = "860ba7dcc6ca2c0030fe7edcb4c9a6ad0564b5e7bfe888b32cf225c37df7f006";
    assert!(proves(&stored, "abc", shown));
    assert!(!proves(&stored, "abd", shown));
    assert!(!proves(&stored, "abc", "abc"));
    assert!(!proves("no digest", "abc", shown));
    assert!(!proves(&stored[1..], "abc", shown));
    let keys = vec![hash("rnp_other"), stored];
    assert_eq!(proving_key(&keys, "abc", shown), Some(1));
    assert_eq!(proving_key(&keys, "abc", "00"), None);
}
