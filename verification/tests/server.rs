use recomp_net_server::auth::{issue_session_token, AuthError, SessionClaims};
use recomp_net_server::automatch::queue::Queue;
use recomp_net_server::automatch::rulesets::{RulesetEntry, Rulesets};
use recomp_net_server::challenges::ChallengeStore;
use recomp_net_server::chat_filter::ChatFilter;
use recomp_net_server::config::{Config, Env, Var};
use recomp_net_server::discord_auth::LoginStore;
use recomp_net_server::identity::Player;
use recomp_net_server::input_relay::InputRelay;
use recomp_net_server::json::Json;
use recomp_net_server::metrics::Metrics;
use recomp_net_server::moderation::Submitted;
use recomp_net_server::rooms::RoomRegistry;
use recomp_net_server::signal::SignalStore;
use recomp_net_server::state::{note_relay, refresh_gauges, relay_sessions, stats_snapshot};
use recomp_net_server::ws_lobby::chat::{report_reply, Login};
use recomp_net_server::ws_lobby::dispatch::{
    automatch_tick, check_session, draw, goodbye, handle_text, login_of, run_pairing, session_of, settle,
    Given, Handled, SessionCheck,
};
use recomp_net_server::ws_lobby::hub::WsLobbyHub;
use recomp_net_server::ws_lobby::input::{bare, InMsg, InTitle};
use recomp_net_server::ws_lobby::wire::{Effect, Event};
use recomp_net_server::AppState;

const NOW: u64 = 1_000_000;

fn config(vars: &[(&str, &str)]) -> Config {
    let env = Env {
        vars: vars
            .iter()
            .map(|(n, v)| Var { name: n.to_string(), value: v.to_string() })
            .collect(),
    };
    match Config::from_env(&env) {
        Ok(c) => c,
        Err(e) => panic!("{e}"),
    }
}

fn server() -> AppState {
    let rules = Rulesets::load(vec![RulesetEntry {
        id: "standard".into(),
        label: "Standard".into(),
        game_name: "G".into(),
        game_version: String::new(),
        max_slots: 2,
        match_caps: Json::object().with("input_delay", Json::Int(2)),
        frames: vec![4; 4001],
    }]);
    AppState {
        config: config(&[("JWT_SECRET_CURRENT", "key")]),
        rooms: RoomRegistry::default(),
        signals: SignalStore::default(),
        ws_lobby: WsLobbyHub::new(),
        input_relay: InputRelay::start(true, "203.0.113.1", "", 7777),
        discord_logins: LoginStore::default(),
        discord_challenges: ChallengeStore::default(),
        automatch: Queue::default(),
        rulesets: rules,
        chat_filter: ChatFilter::parse("fuck", true),
        turn: None,
        metrics: Metrics::default(),
        debug: false,
    }
}

fn given() -> Given {
    draw(0, NOW, 50)
}

fn join_lobby(s: &mut AppState, id: &str) {
    let out = s.ws_lobby.inner.connect_as(id, "198.51.100.7", "JP");
    assert_eq!(out.len(), 1);
}

fn send(s: &mut AppState, id: &str, m: InMsg) -> Handled {
    handle_text(s, id, "198.51.100.7", m, Login::Guest, &given())
}

fn texts(h: &Handled, who: &str) -> Vec<String> {
    h.out
        .iter()
        .filter_map(|e| match e {
            Effect::Send { to, msg } if to == who => Some(msg.write()),
            _ => None,
        })
        .collect()
}

fn heard(h: &Handled, who: &str, what: &str) -> bool {
    texts(h, who).iter().any(|t| t.contains(what))
}

fn create(s: &mut AppState, host: &str) -> String {
    let mut m = bare("create");
    m.game_name = Some("G".into());
    m.name = Some("Room".into());
    m.max_slots = Some(2);
    m.display_name = Some("Alice".into());
    m.allow_spectators = Some(true);
    let h = send(s, host, m);
    assert!(heard(&h, host, "created"), "{:?}", texts(&h, host));
    s.ws_lobby.inner.client(host).unwrap().lobby_id.clone().unwrap()
}

fn join(s: &mut AppState, id: &str, lid: &str, name: &str) -> Handled {
    let mut m = bare("join");
    m.lobby_id = Some(lid.into());
    m.game_name = Some("G".into());
    m.display_name = Some(name.into());
    send(s, id, m)
}

fn ready(s: &mut AppState, id: &str) {
    let mut m = bare("set_ready");
    m.ready = Some(true);
    send(s, id, m);
}

#[test]
fn a_connection_begins_as_a_guest() {
    let mut s = server();
    let (id, out) = s.ws_lobby.inner.connect("198.51.100.7", "JP");
    assert_eq!(id.len(), 36);
    assert_eq!(out.len(), 1);
    let c = s.ws_lobby.inner.client(&id).unwrap();
    assert_eq!(c.display_name, format!("Player-{}", &id[..8]));
    assert!(c.account.is_none());
    assert_eq!(s.ws_lobby.client_count(), 1);
    goodbye(&mut s, &id);
    assert_eq!(s.ws_lobby.client_count(), 0);
}

#[test]
fn pings_and_nonsense_are_answered() {
    let mut s = server();
    join_lobby(&mut s, "a");
    let h = send(&mut s, "a", bare("ping"));
    assert_eq!(texts(&h, "a"), vec![r#"{"op":"pong"}"#.to_string()]);
    let h = send(&mut s, "a", bare("what"));
    assert!(heard(&h, "a", "unknown_op") && heard(&h, "a", "what"));
    let h = send(&mut s, "a", bare("kick"));
    assert_eq!(h.error, Some("missing slot"));
    let h = send(&mut s, "a", bare("join"));
    assert_eq!(h.error, Some("missing lobby_id"));
    let h = send(&mut s, "a", bare("signal"));
    assert_eq!(h.error, Some("no lobby"));
}

#[test]
fn a_refused_name_reaches_no_handler() {
    let mut s = server();
    join_lobby(&mut s, "a");
    let mut m = bare("create");
    m.display_name = Some("fuck".into());
    let h = send(&mut s, "a", m);
    assert!(heard(&h, "a", "name_rejected"));
    assert_eq!(s.ws_lobby.lobby_count(), 0);
}

#[test]
fn a_hosted_match_runs_from_create_to_launch() {
    let mut s = server();
    join_lobby(&mut s, "a");
    join_lobby(&mut s, "b");
    let lid = create(&mut s, "a");
    let h = join(&mut s, "b", &lid, "Alice");
    assert!(heard(&h, "b", "joined"), "{:?}", texts(&h, "b"));
    assert!(heard(&h, "a", "Alice (2)"), "a name in the room is numbered");
    let h = send(&mut s, "b", bare("start"));
    assert!(heard(&h, "b", "not_host"));
    ready(&mut s, "a");
    ready(&mut s, "b");
    let h = send(&mut s, "a", bare("start"));
    for who in ["a", "b"] {
        assert!(heard(&h, who, "\"launch\""), "{:?}", texts(&h, who));
        assert!(heard(&h, who, "203.0.113.1:7777"));
    }
    assert_eq!(s.ws_lobby.match_count(), 1);
    assert_eq!(s.input_relay.session_counts(NOW).0, 1);
    let h = send(&mut s, "a", bare("leave"));
    assert!(heard(&h, "a", "\"left\""));
    assert!(heard(&h, "b", "closed"), "{:?}", texts(&h, "b"));
    assert_eq!(s.ws_lobby.lobby_count(), 0);
    assert_eq!(s.input_relay.session_counts(NOW).0, 0, "the relay closes with the room");
}

#[test]
fn only_a_full_table_overflows_into_the_gallery() {
    let mut s = server();
    for id in ["a", "b", "c"] {
        join_lobby(&mut s, id);
    }
    let lid = create(&mut s, "a");
    join(&mut s, "b", &lid, "Bob");
    let h = join(&mut s, "c", &lid, "Carol");
    assert!(heard(&h, "a", "has joined as a spectator"), "{:?}", texts(&h, "a"));
    assert_eq!(s.ws_lobby.inner.lobby(&lid).unwrap().seat_of("c"), Some(64));
    let mut m = bare("kick");
    m.slot = Some(64);
    let h = send(&mut s, "a", m);
    assert!(heard(&h, "c", "kicked"));
    assert!(s.ws_lobby.inner.client("c").unwrap().lobby_id.is_none());
}

#[test]
fn players_trade_seats_by_consent() {
    let mut s = server();
    join_lobby(&mut s, "a");
    join_lobby(&mut s, "b");
    let lid = create(&mut s, "a");
    join(&mut s, "b", &lid, "Bob");
    let mut ask = bare("seat_swap_request");
    ask.target_slot = Some(0);
    let h = send(&mut s, "b", ask);
    assert!(!texts(&h, "a").is_empty(), "the occupant is asked");
    let mut yes = bare("seat_swap_answer");
    yes.asker_player_id = Some("b".into());
    yes.accept = Some(true);
    send(&mut s, "a", yes);
    let l = s.ws_lobby.inner.lobby(&lid).unwrap();
    assert_eq!((l.seat_of("b"), l.seat_of("a")), (Some(0), Some(1)));
}

#[test]
fn a_chat_line_reaches_the_room_and_can_be_reported() {
    let mut s = server();
    join_lobby(&mut s, "a");
    join_lobby(&mut s, "b");
    let account = |id: &str| Player {
        id: id.into(),
        discord_id: "1".into(),
        discord_username: "u".into(),
        avatar: "pic".into(),
        handle: "Handle".into(),
    };
    handle_text(&mut s, "a", "", bare("hello"), Login::Account(account("acc-a")), &given());
    handle_text(&mut s, "b", "", bare("hello"), Login::Account(account("acc-b")), &given());
    let lid = create(&mut s, "a");
    join(&mut s, "b", &lid, "Bob");
    let mut m = bare("chat");
    m.text = Some("what the fuck".into());
    let h = send(&mut s, "a", m);
    assert!(heard(&h, "b", "what the ****"), "{:?}", texts(&h, "b"));
    let mid = s.ws_lobby.inner.chat_ring.last().unwrap().id.clone();
    let mut r = bare("chat_report");
    r.mid = Some(mid);
    r.reason = Some("harassment".into());
    let h = send(&mut s, "b", r);
    match &h.out[0] {
        Effect::Report { from, report } => {
            assert_eq!(from, "b");
            assert_eq!(report.accused_id, "acc-a");
            assert_eq!(report.message_text, "what the ****");
        }
        _ => panic!("a report is filed"),
    }
    assert_eq!(report_reply("b", "m", Submitted::Stored).len(), 1);
    let mut own = bare("chat_report");
    own.mid = Some(s.ws_lobby.inner.chat_ring.last().unwrap().id.clone());
    let h = send(&mut s, "a", own);
    assert!(heard(&h, "a", "cannot_report"));
}

#[test]
fn a_session_upgrades_a_guest() {
    let s = server();
    let id = "67e55044-10b1-426f-9247-bb680e5fe0c8";
    let mut m = bare("hello");
    assert!(matches!(check_session(&s.config, &m), SessionCheck::Guest));
    m.session = Some("junk".into());
    assert!(matches!(check_session(&s.config, &m), SessionCheck::Invalid));
    m.session = issue_session_token(&s.config, id).ok();
    match check_session(&s.config, &m) {
        SessionCheck::Account(a) => assert_eq!(a, id),
        _ => panic!("a good session names its account"),
    }
    let mut s = s;
    join_lobby(&mut s, "a");
    let h = handle_text(&mut s, "a", "", m, Login::Invalid, &given());
    assert!(heard(&h, "a", "session_invalid") && heard(&h, "a", "hello_ok"));
}

fn queue_up(s: &mut AppState, id: &str, account: &str) -> Handled {
    join_lobby(s, id);
    let p = Player {
        id: account.into(),
        discord_id: "1".into(),
        discord_username: "u".into(),
        avatar: "pic".into(),
        handle: id.into(),
    };
    handle_text(s, id, "", bare("hello"), Login::Account(p), &given());
    let mut rtt = bare("automatch_rtt");
    rtt.rtt_ms = Some(20);
    send(s, id, rtt);
    let mut m = bare("automatch_queue");
    m.titles = Some(vec![InTitle {
        game_name: "G".into(),
        game_version: "1".into(),
        disc_fp: "a".repeat(64),
        ruleset_id: String::new(),
        max_slots: None,
    }]);
    send(s, id, m)
}

#[test]
fn a_queued_pair_is_offered_accepted_and_started() {
    let mut s = server();
    let h = queue_up(&mut s, "a", "acc-a");
    assert!(heard(&h, "a", "automatch_queued"), "{:?}", texts(&h, "a"));
    let h = queue_up(&mut s, "b", "acc-b");
    assert_eq!(h.match_ids.len(), 1, "{:?}", texts(&h, "b"));
    assert!(!texts(&h, "a").is_empty(), "both hear of the offer");
    let accept = |s: &mut AppState, id: &str| {
        let mut m = bare("automatch_accept");
        m.accept = Some(true);
        send(s, id, m)
    };
    accept(&mut s, "a");
    let h = accept(&mut s, "b");
    let lid = h
        .out
        .iter()
        .find_map(|e| match e {
            Effect::StartLater { lobby_id, .. } => Some(lobby_id.clone()),
            _ => None,
        })
        .expect("two accepts build a room");
    assert_eq!(s.ws_lobby.inner.lobby(&lid).unwrap().seat_of("a"), Some(0));
    let (h, launched) = settle(&mut s, &lid, NOW + 3000);
    assert!(launched);
    assert!(heard(&h, "b", "\"launch\""));
}

#[test]
fn a_decline_charges_the_decliner_and_requeues_the_other() {
    let mut s = server();
    queue_up(&mut s, "a", "acc-a");
    queue_up(&mut s, "b", "acc-b");
    let mut yes = bare("automatch_accept");
    yes.accept = Some(true);
    send(&mut s, "a", yes);
    let mut no = bare("automatch_accept");
    no.accept = Some(false);
    let h = send(&mut s, "b", no);
    assert!(h.out.iter().any(|e| matches!(
        e,
        Effect::Strike { account, .. } if account == "acc-b"
    )));
    assert!(heard(&h, "a", "peer_declined"), "{:?}", texts(&h, "a"));
    assert_eq!(s.automatch.waiting(), 1);
}

#[test]
fn a_closed_window_is_a_dodge() {
    let mut s = server();
    queue_up(&mut s, "a", "acc-a");
    queue_up(&mut s, "b", "acc-b");
    let h = goodbye(&mut s, "b");
    assert!(h.out.iter().any(|e| matches!(e, Effect::Count(Event::Dodge))));
    assert!(!s.automatch.is_queued_account("acc-b"));
    assert!(s.automatch.is_queued_account("acc-a"), "the other one waits again");
}

#[test]
fn a_beat_lapses_offers_and_tells_the_waiting() {
    let mut s = server();
    queue_up(&mut s, "a", "acc-a");
    let h = automatch_tick(&mut s, NOW + 1000);
    assert!(heard(&h, "a", "automatch_status"), "{:?}", texts(&h, "a"));
    queue_up(&mut s, "b", "acc-b");
    assert!(run_pairing(&mut s, NOW).match_ids.is_empty(), "already on offer");
    let h = automatch_tick(&mut s, NOW + 600_000);
    assert!(heard(&h, "a", "timeout") && heard(&h, "b", "timeout"));
}

#[test]
fn a_guest_cannot_queue() {
    let mut s = server();
    join_lobby(&mut s, "a");
    let h = send(&mut s, "a", bare("automatch_queue"));
    assert!(heard(&h, "a", "need_account"));
    let h = send(&mut s, "a", bare("automatch_cancel"));
    assert!(heard(&h, "a", "cancelled"));
    let h = send(&mut s, "a", bare("get_turn_credentials"));
    assert!(heard(&h, "a", "bad_player_id"));
}

#[test]
fn the_stats_count_what_goes_on() {
    let mut s = server();
    join_lobby(&mut s, "a");
    create(&mut s, "a");
    let (points, live) = refresh_gauges(&mut s, NOW);
    assert!(points.len() >= 7);
    assert_eq!(live.ws_lobbies_by_game[0].game, "G");
    let snap = stats_snapshot(&s.metrics, live);
    assert_eq!((snap.ws_clients, snap.ws_lobbies, snap.ws_lobbies_waiting), (1, 1, 1));
    s.discord_logins_finish_err("code", "why");
}

#[test]
fn relay_sessions_are_counted_as_they_come_and_go() {
    let mut s = server();
    let before = relay_sessions(&s);
    assert!(before.is_empty());
    assert!(s.input_relay.open_session(7, 2, 0, NOW).is_ok());
    assert!(s.input_relay.open_session(9, 2, 0, NOW).is_ok());
    let points = note_relay(&mut s, &before);
    assert_eq!(points.len(), 2);
    assert_eq!(points[0].name, "recomp_input_relay_sessions_opened_total");
    let before = relay_sessions(&s);
    assert_eq!(before, vec![7, 9]);
    assert!(s.input_relay.close_session(7));
    let points = note_relay(&mut s, &before);
    assert_eq!(points.len(), 1);
    assert_eq!(points[0].name, "recomp_input_relay_sessions_closed_total");
    assert_eq!(s.metrics.totals.input_relay_sessions_opened, 2);
    assert_eq!(s.metrics.totals.input_relay_sessions_closed, 1);
    let unchanged = relay_sessions(&s);
    assert!(note_relay(&mut s, &unchanged).is_empty());
}

#[test]
fn a_session_is_of_an_account_or_is_nothing() {
    let of = |sub: &str| SessionClaims { sub: sub.to_string(), iat: 1, exp: 2 };
    let id = "3f333df6-90a4-4fda-8dd3-9485d27cee36";
    assert!(matches!(session_of(Ok(of(id))), SessionCheck::Account(a) if a == id));
    assert!(matches!(session_of(Ok(of("someone"))), SessionCheck::Invalid));
    assert!(matches!(session_of(Err(AuthError::InvalidToken)), SessionCheck::Invalid));
}

/// Every seat names a connection that names the room, every connection in a
/// room sits there, and nobody sits twice.
fn check_seats(s: &AppState) {
    let hub = &s.ws_lobby.inner;
    let mut seen: Vec<String> = Vec::new();
    for l in &hub.lobbies {
        for id in l.member_ids() {
            let c = hub.client(&id).expect("a seat is a connection's");
            assert_eq!(c.lobby_id.as_deref(), Some(l.lobby_id.as_str()));
            assert!(!seen.contains(&id), "{id} sits twice");
            seen.push(id);
        }
    }
    for c in &hub.clients {
        assert_eq!(c.lobby_id.is_some(), seen.contains(&c.player_id), "{}", c.player_id);
    }
}

#[test]
fn nobody_sits_twice_whatever_is_sent() {
    let mut s = server();
    for id in ["a", "b", "c", "d"] {
        join_lobby(&mut s, id);
        check_seats(&s);
    }
    let lid = create(&mut s, "a");
    check_seats(&s);
    for id in ["b", "c", "b", "d"] {
        join(&mut s, id, &lid, "Guest");
        check_seats(&s);
    }
    let other = send(&mut s, "b", bare("create"));
    assert!(heard(&other, "b", "already_in_lobby"));
    let mut m = bare("seat_move");
    m.to_slot = Some(66);
    send(&mut s, "b", m);
    check_seats(&s);
    assert_eq!(s.ws_lobby.inner.lobby(&lid).unwrap().seat_of("b"), Some(66));
    let mut m = bare("move");
    m.from_slot = Some(64);
    m.to_slot = Some(1);
    send(&mut s, "a", m);
    check_seats(&s);
    let mut m = bare("kick");
    m.slot = Some(66);
    send(&mut s, "a", m);
    check_seats(&s);
    assert!(s.ws_lobby.inner.client("b").unwrap().lobby_id.is_none());
    send(&mut s, "d", bare("leave"));
    check_seats(&s);
    goodbye(&mut s, "a");
    check_seats(&s);
    assert_eq!(s.ws_lobby.lobby_count(), 0, "a room closes with its host");
}

#[test]
fn an_account_has_one_place_in_the_queue() {
    let mut s = server();
    queue_up(&mut s, "a", "acc-a");
    let h = queue_up(&mut s, "b", "acc-a");
    assert!(heard(&h, "b", "already_queued"), "{:?}", texts(&h, "b"));
    assert_eq!(s.automatch.waiting(), 1);
    let h = queue_up(&mut s, "c", "acc-c");
    assert_eq!(h.match_ids.len(), 1);
    let h = queue_up(&mut s, "d", "acc-c");
    assert!(heard(&h, "d", "already_queued"), "an open offer counts");
    automatch_tick(&mut s, NOW + 60_000);
    assert_eq!(s.automatch.waiting(), 0, "both sat the offer out");
    send(&mut s, "d", bare("automatch_cancel"));
    goodbye(&mut s, "a");
    assert!(!s.automatch.is_queued_account("acc-a"));
}

#[test]
fn a_padded_title_is_held_to_its_ruleset() {
    let mut s = server();
    queue_up(&mut s, "a", "acc-a");
    send(&mut s, "a", bare("automatch_cancel"));
    for name in ["G", " G "] {
        let mut m = bare("automatch_queue");
        m.titles = Some(vec![InTitle {
            game_name: name.into(),
            game_version: "1".into(),
            disc_fp: "a".repeat(64),
            ruleset_id: String::new(),
            max_slots: None,
        }]);
        m.mod_exempt = Some(vec!["skin@1#00".into()]);
        let h = send(&mut s, "a", m);
        assert!(heard(&h, "a", "mod_not_approved"), "{:?}", texts(&h, "a"));
    }
}

#[test]
fn a_rematch_runs_under_a_new_session() {
    let mut s = server();
    join_lobby(&mut s, "a");
    join_lobby(&mut s, "b");
    let lid = create(&mut s, "a");
    join(&mut s, "b", &lid, "Bob");
    send(&mut s, "a", bare("start"));
    let first = s.ws_lobby.inner.lobby(&lid).unwrap().relay_session_id;
    send(&mut s, "a", bare("start"));
    let second = s.ws_lobby.inner.lobby(&lid).unwrap().relay_session_id;
    assert!(first.is_some() && second > first);
    assert_eq!(relay_sessions(&s), vec![second.unwrap()], "the last session was closed");
}

#[test]
fn a_locked_room_opens_to_its_password() {
    let mut s = server();
    join_lobby(&mut s, "a");
    join_lobby(&mut s, "b");
    let mut m = bare("create");
    m.password = Some("sesame".into());
    send(&mut s, "a", m);
    let lid = s.ws_lobby.inner.client("a").unwrap().lobby_id.clone().unwrap();
    let mut ask = |pw: Option<&str>| {
        let mut m = bare("join");
        m.lobby_id = Some(lid.clone());
        m.password = pw.map(|p| p.to_string());
        let h = send(&mut s, "b", m);
        texts(&h, "b").join(" ")
    };
    assert!(ask(None).contains("need_password"));
    assert!(ask(Some("")).contains("need_password"));
    assert!(ask(Some("Sesame")).contains("bad_password"));
    assert!(ask(Some("sesame")).contains("\"joined\""));
}

#[test]
fn slot_zero_stays_pinned() {
    let mut s = server();
    for id in ["a", "b", "c"] {
        join_lobby(&mut s, id);
    }
    let lid = create(&mut s, "a");
    join(&mut s, "b", &lid, "Bob");
    join(&mut s, "c", &lid, "Carol");
    ready(&mut s, "b");
    for (from, to) in [(0usize, 1usize), (1, 0), (64, 0)] {
        let mut m = bare("move");
        m.from_slot = Some(from);
        m.to_slot = Some(to);
        let h = send(&mut s, "a", m);
        assert!(heard(&h, "a", "host_slot_fixed"), "{from} to {to}");
    }
    let mut m = bare("move");
    m.from_slot = Some(65);
    m.to_slot = Some(0);
    assert!(heard(&send(&mut s, "a", m), "a", "empty_slot"));
    let room = s.ws_lobby.inner.lobby(&lid).unwrap();
    assert_eq!((room.seat_of("a"), room.seat_of("b"), room.seat_of("c")), (Some(0), Some(1), Some(64)));
    assert!(room.slots[1].as_ref().unwrap().ready);
    let mut m = bare("move");
    m.slot = Some(1);
    m.to_slot = Some(64);
    send(&mut s, "a", m);
    let room = s.ws_lobby.inner.lobby(&lid).unwrap();
    assert_eq!((room.seat_of("b"), room.seat_of("c")), (Some(64), Some(1)));
    let mut m = bare("seat_move");
    m.to_slot = Some(66);
    send(&mut s, "a", m);
    let room = s.ws_lobby.inner.lobby(&lid).unwrap();
    assert_eq!(room.seat_of("a"), Some(66), "the host may sit down in the gallery");
}

#[test]
fn whoever_stays_confirms_again() {
    let mut s = server();
    for id in ["a", "b", "c"] {
        join_lobby(&mut s, id);
    }
    let lid = create(&mut s, "a");
    let host_ready = |s: &AppState| {
        s.ws_lobby.inner.lobby(&lid).unwrap().slots[0].as_ref().unwrap().ready
    };
    ready(&mut s, "a");
    assert!(host_ready(&s));
    join(&mut s, "b", &lid, "Bob");
    assert!(!host_ready(&s), "a join clears it");
    ready(&mut s, "a");
    send(&mut s, "b", bare("leave"));
    assert!(!host_ready(&s), "a departure clears it");
    join(&mut s, "c", &lid, "Carol");
    ready(&mut s, "a");
    assert!(host_ready(&s));
    let mut m = bare("kick");
    m.slot = Some(1);
    send(&mut s, "a", m);
    assert!(!host_ready(&s), "a kick clears it");
}

#[test]
fn a_side_that_sat_down_elsewhere_is_not_matched() {
    let mut s = server();
    queue_up(&mut s, "a", "acc-a");
    let h = queue_up(&mut s, "b", "acc-b");
    assert_eq!(h.match_ids.len(), 1);
    create(&mut s, "a");
    let mut yes = bare("automatch_accept");
    yes.accept = Some(true);
    send(&mut s, "a", yes);
    let mut yes = bare("automatch_accept");
    yes.accept = Some(true);
    let h = send(&mut s, "b", yes);
    assert!(heard(&h, "b", "automatch_requeue") && heard(&h, "b", "peer_left"), "{:?}", texts(&h, "b"));
    assert!(!heard(&h, "a", "automatch_requeue"));
    assert_eq!(s.ws_lobby.lobby_count(), 1);
    assert!(s.automatch.is_queued_account("acc-b"));
    assert!(!s.automatch.is_queued_account("acc-a"));
    check_seats(&s);
}

#[test]
fn a_ticket_has_an_id_that_its_owner_is_told() {
    let mut s = server();
    let h = queue_up(&mut s, "a", "acc-a");
    let id = s.automatch.ticket_id(0);
    assert_eq!(id.len(), 36);
    let named = format!("\"ticket_id\":\"{id}\"");
    assert!(heard(&h, "a", &named), "{:?}", texts(&h, "a"));
    let h = automatch_tick(&mut s, NOW + 1000);
    assert!(heard(&h, "a", "automatch_status") && heard(&h, "a", &named));
    let h = queue_up(&mut s, "b", "acc-b");
    for who in ["a", "b"] {
        assert!(heard(&h, who, "\"avatar\":\"pic\""), "{:?}", texts(&h, who));
    }
    let mut no = bare("automatch_accept");
    no.accept = Some(false);
    send(&mut s, "b", no);
    let mut yes = bare("automatch_accept");
    yes.accept = Some(true);
    send(&mut s, "a", yes);
    assert_eq!(s.automatch.ticket_id(0), id, "it is put back as it was");
}

#[test]
fn guests_do_what_the_switches_let_them() {
    let tried = |vars: &[(&str, &str)], account: bool| {
        let mut all = vec![("JWT_SECRET_CURRENT", "key")];
        all.extend_from_slice(vars);
        let mut s = server();
        s.config = config(&all);
        join_lobby(&mut s, "a");
        if account {
            let p = Player {
                id: "acc".into(),
                discord_id: "1".into(),
                discord_username: "u".into(),
                avatar: String::new(),
                handle: "Al".into(),
            };
            handle_text(&mut s, "a", "", bare("hello"), Login::Account(p), &given());
        }
        let mut chat = bare("chat");
        chat.text = Some("hi".into());
        let mut join = bare("join");
        join.lobby_id = Some("no".into());
        let mut out = Vec::new();
        for m in [chat, bare("create"), join, bare("list")] {
            let h = send(&mut s, "a", m);
            out.push(heard(&h, "a", "need_account"));
        }
        out
    };
    assert_eq!(tried(&[], false), vec![false; 4]);
    assert_eq!(tried(&[("GUEST_CAN_CHAT", "0")], false), vec![true, false, false, false]);
    assert_eq!(tried(&[("GUEST_CAN_HOST", "0")], false), vec![false, true, false, false]);
    assert_eq!(tried(&[("DISCORD_REQUIRED", "1")], false), vec![true, true, true, false]);
    assert_eq!(tried(&[("DISCORD_REQUIRED", "1")], true), vec![false; 4]);
}

#[test]
fn a_login_is_what_the_session_and_the_row_say() {
    let player = || Player {
        id: "p".into(),
        discord_id: "1".into(),
        discord_username: "u".into(),
        avatar: String::new(),
        handle: "h".into(),
    };
    assert!(matches!(login_of(SessionCheck::Guest, Some(player())), Login::Guest));
    assert!(matches!(login_of(SessionCheck::Invalid, Some(player())), Login::Invalid));
    assert!(matches!(login_of(SessionCheck::Account("p".into()), None), Login::Gone));
    match login_of(SessionCheck::Account("p".into()), Some(player())) {
        Login::Account(p) => assert_eq!(p.handle, "h"),
        _ => panic!("the row is the player"),
    }
}
