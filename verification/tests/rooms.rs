use recomp_net_server::chat_filter::ChatFilter;
use recomp_net_server::config::{Config, Env, Var};
use recomp_net_server::discord_auth::{Completed, LoginStore};
use recomp_net_server::metrics::{
    describe, game_label, init_game_labels, match_starts_by_game, normalize_game, room_error_code,
    set_matches_by_game, ws_connected, ws_lobby_started, GameCount, Metrics, Point,
    GAME_LABEL_MAX_LEN, GAME_LABEL_OTHER, GAME_LABEL_UNKNOWN, SURFACE_HTTP, SURFACE_WS,
};
use recomp_net_server::moderation::{
    dump_path, normalize_reason, record, record_as, submitted, ChatReport, Inserted, Submitted,
    NOTE_MAX_CHARS, REASONS, REPORTS_PER_HOUR,
};
use recomp_net_server::rooms::{join_code, Room, RoomError, RoomRegistry, RoomStatus};
use recomp_net_server::routes::{
    api_error, callback_page, create_room, credentials, discord_callback, discord_poll,
    discord_start, get_room, get_signals, heartbeat, html_escape, join_room, leave_room, list_games,
    mark_running, page, parse_player, post_signal, require_auth, set_ready, turn_creds, Callback,
    CreateRoomBody, RoomView,
};
use recomp_net_server::signal::{SignalEnvelope, SignalStore, MAX_QUEUED_PER_PLAYER};
use recomp_net_server::tally::tally_names;

fn config(vars: &[(&str, &str)]) -> Config {
    let env = Env {
        vars: vars
            .iter()
            .map(|(n, v)| Var { name: n.to_string(), value: v.to_string() })
            .collect(),
    };
    match Config::from_env(&env) {
        Ok(c) => c,
        Err(e) => panic!("{e}"),
    }
}

fn open(rooms: &mut RoomRegistry, host: &str, private: bool) -> Room {
    rooms.create(host, "g", "1", "n", 2, 3, 7, private, 0).ok().unwrap()
}

fn err<T>(r: Result<T, RoomError>) -> RoomError {
    match r {
        Err(e) => e,
        Ok(_) => panic!("refused"),
    }
}

#[test]
fn a_room_opens_with_its_host_in_the_first_slot() {
    let mut rs = RoomRegistry::default();
    let r = open(&mut rs, "h", true);
    assert_eq!(r.room_id.len(), 36);
    assert_eq!(r.members.len(), 1);
    assert_eq!(r.members[0].local_slot, 0);
    let code = r.join_code.clone().unwrap();
    assert_eq!(code.len(), 6);
    assert!(code.chars().all(|c| "ABCDEFGHJKLMNPQRSTUVWXYZ23456789".contains(c)), "{code}");
    assert_eq!(join_code(&vec![0, 31, 32, 33, 24, 7]), "A9AB2H");
    assert_eq!(err(rs.create("h", "g", "1", "n", 1, 3, 7, false, 0)), RoomError::BadSlotCount);
    assert_eq!(err(rs.create("h", "g", "1", "n", 6, 3, 7, false, 0)), RoomError::BadSlotCount);
    assert_eq!(rs.len(), 1);
}

#[test]
fn every_way_that_a_join_is_refused() {
    let mut rs = RoomRegistry::default();
    let r = open(&mut rs, "h", true);
    let (id, code) = (r.room_id.as_str(), r.join_code.as_deref());
    assert_eq!(err(rs.join("no", "p", "g", "1", code, 1)), RoomError::NotFound);
    assert_eq!(err(rs.join(id, "p", "x", "1", code, 1)), RoomError::GameMismatch);
    assert_eq!(err(rs.join(id, "p", "g", "2", code, 1)), RoomError::VersionMismatch);
    assert_eq!(err(rs.join(id, "p", "g", "1", None, 1)), RoomError::BadJoinCode);
    assert_eq!(err(rs.join(id, "p", "g", "1", Some("nope"), 1)), RoomError::BadJoinCode);
    assert_eq!(err(rs.join(id, "h", "g", "1", code, 1)), RoomError::AlreadyJoined);
    let joined = rs.join(id, "p", "g", "1", code, 1).ok().unwrap();
    assert_eq!(joined.members[1].local_slot, 1);
    assert_eq!(err(rs.join(id, "q", "g", "1", code, 1)), RoomError::Full);
    rs.set_ready(id, "h", true, 2).ok().unwrap();
    rs.set_ready(id, "p", true, 2).ok().unwrap();
    assert_eq!(err(rs.join(id, "q", "g", "1", code, 3)), RoomError::NotJoinable);
}

#[test]
fn everybody_ready_makes_a_session_due() {
    let mut rs = RoomRegistry::default();
    let id = open(&mut rs, "h", false).room_id;
    rs.join(&id, "p", "g", "1", None, 1).ok().unwrap();
    let one = rs.set_ready_as(&id, "h", true, 99, 2).ok().unwrap();
    assert_eq!(one.status, RoomStatus::Open);
    assert!(RoomRegistry::bootstrap_for(&one, "h").is_none());
    let both = rs.set_ready_as(&id, "p", true, 77, 3).ok().unwrap();
    assert_eq!(both.status, RoomStatus::Starting);
    let b = RoomRegistry::bootstrap_for(&both, "p").unwrap();
    assert_eq!((b.session_id, b.local_slot, b.you_are_sim_authority), (77, 1, false));
    assert!(RoomRegistry::bootstrap_for(&both, "h").unwrap().you_are_sim_authority);
    assert!(RoomRegistry::bootstrap_for(&both, "nobody").is_none());
    assert_eq!(err(rs.mark_running(&id, "p", 4)), RoomError::NotHost);
    let run = rs.mark_running(&id, "h", 4).ok().unwrap();
    assert_eq!(run.status, RoomStatus::Running);
    assert_eq!(rs.running_count(), 1);
    assert_eq!(rs.running_counts_by_game()[0].n, 1);
    assert_eq!(err(rs.set_ready(&id, "p", true, 5)), RoomError::NotJoinable);
    assert_eq!(err(rs.mark_running(&id, "h", 5)), RoomError::NotJoinable);
}

#[test]
fn taking_ready_back_reopens_the_room() {
    let mut rs = RoomRegistry::default();
    let id = open(&mut rs, "h", false).room_id;
    rs.join(&id, "p", "g", "1", None, 1).ok().unwrap();
    rs.set_ready_as(&id, "h", true, 1, 2).ok().unwrap();
    rs.set_ready_as(&id, "p", true, 1, 2).ok().unwrap();
    let back = rs.set_ready_as(&id, "p", false, 1, 3).ok().unwrap();
    assert_eq!(back.status, RoomStatus::Open);
    assert_eq!(back.session_id, None);
    assert_eq!(err(rs.set_ready(&id, "nobody", true, 3)), RoomError::NotMember);
}

#[test]
fn leaving_unreadies_the_rest_and_a_host_dissolves_the_room() {
    let mut rs = RoomRegistry::default();
    let id = open(&mut rs, "h", false).room_id;
    rs.join(&id, "p", "g", "1", None, 1).ok().unwrap();
    rs.set_ready(&id, "h", true, 2).ok().unwrap();
    let left = rs.leave(&id, "p", 3).ok().unwrap();
    assert_eq!(left.members.len(), 1);
    assert!(!left.members[0].ready);
    assert_eq!(err(rs.leave(&id, "p", 3)), RoomError::NotMember);
    let gone = rs.leave(&id, "h", 4).ok().unwrap();
    assert_eq!(gone.status, RoomStatus::Closed);
    assert!(rs.is_empty());
    assert_eq!(err(rs.leave(&id, "h", 4)), RoomError::NotFound);
    assert!(rs.member_ids(&id).is_empty());
}

#[test]
fn silent_members_and_idle_rooms_go() {
    let mut rs = RoomRegistry::default();
    let id = open(&mut rs, "h", false).room_id;
    rs.join(&id, "p", "g", "1", None, 0).ok().unwrap();
    rs.heartbeat(&id, "h", 9_000).ok().unwrap();
    rs.purge_stale(5, 100, 10_000);
    assert_eq!(rs.member_ids(&id), vec!["h".to_string()]);
    rs.purge_stale(5, 100, 60_000);
    assert!(rs.is_empty(), "a room without its host goes");
    assert_eq!(err(rs.heartbeat(&id, "h", 0)), RoomError::NotFound);
}

#[test]
fn the_public_list_hides_what_cannot_be_joined() {
    let mut rs = RoomRegistry::default();
    open(&mut rs, "a", true);
    let id = open(&mut rs, "b", false).room_id;
    assert_eq!(rs.list_public("g", None).len(), 1);
    assert_eq!(rs.list_public("g", Some("1"))[0].room_id, id);
    assert!(rs.list_public("g", Some("2")).is_empty());
    assert!(rs.list_public("x", None).is_empty());
    rs.join(&id, "p", "g", "1", None, 1).ok().unwrap();
    assert!(rs.list_public("g", None).is_empty(), "a full room is not listed");
    assert_eq!(rs.counts_by_game()[0].n, 2);
}

#[test]
fn names_are_tallied_in_their_order() {
    let names: Vec<String> = ["b", "a", "b", "c"].iter().map(|s| s.to_string()).collect();
    let refs: Vec<&String> = names.iter().collect();
    let t: Vec<(String, u64)> =
        tally_names(&refs).into_iter().map(|c| (c.game, c.n)).collect();
    assert_eq!(t, vec![("a".to_string(), 1), ("b".to_string(), 2), ("c".to_string(), 1)]);
}

fn envelope(room: &str, text: &str) -> SignalEnvelope {
    SignalEnvelope {
        from_player_id: "x".into(),
        room_id: room.into(),
        signal_type: 1,
        flag: 0,
        text: text.into(),
        created_at: 0,
    }
}

#[test]
fn a_full_mailbox_loses_its_oldest() {
    let mut s = SignalStore::default();
    for i in 0..MAX_QUEUED_PER_PLAYER + 1 {
        s.push_to("p", envelope("r", &format!("{i}")));
    }
    let got = s.drain("p");
    assert_eq!(got.len(), MAX_QUEUED_PER_PLAYER);
    assert_eq!(got[0].text, "1");
    assert!(s.drain("p").is_empty());
    s.push_to("p", envelope("r", "x"));
    s.clear_player("p");
    assert!(s.drain("p").is_empty());
}

#[test]
fn signals_go_to_the_room_and_wait_there() {
    let mut rs = RoomRegistry::default();
    let mut s = SignalStore::default();
    let id = open(&mut rs, "h", false).room_id;
    rs.join(&id, "p", "g", "1", None, 0).ok().unwrap();
    assert!(post_signal(&rs, &mut s, &id, "h", None, 1, 0, "offer", 5).is_ok());
    assert!(post_signal(&rs, &mut s, &id, "h", Some("p"), 1, 0, "again", 6).is_ok());
    s.push_to("p", envelope("other", "elsewhere"));
    let got = get_signals(&rs, &mut s, &id, "p").ok().unwrap();
    assert_eq!(got.iter().map(|e| e.text.as_str()).collect::<Vec<_>>(), vec!["offer", "again"]);
    assert!(get_signals(&rs, &mut s, &id, "h").ok().unwrap().is_empty(), "not to the sender");
    assert_eq!(s.drain("p")[0].text, "elsewhere", "another room's signal waits on");
    let refused = post_signal(&rs, &mut s, &id, "h", Some("q"), 1, 0, "x", 0).err().unwrap();
    assert_eq!((refused.status, refused.message.as_str()), (400, "target not in room"));
    let long = "x".repeat(2048);
    let refused = post_signal(&rs, &mut s, &id, "h", None, 1, 0, &long, 0).err().unwrap();
    assert_eq!(refused.message, "signal text exceeds 2047 characters");
    let refused = post_signal(&rs, &mut s, &id, "z", None, 1, 0, "x", 0).err().unwrap();
    assert_eq!((refused.status, refused.message.as_str()), (403, "player not in room"));
    assert!(leave_room(&mut rs, &mut s, &id, "p", 9).is_ok());
}

fn body(game: &str, name: &str, slots: Option<u8>) -> CreateRoomBody {
    CreateRoomBody {
        game_id: game.into(),
        client_version: "1".into(),
        display_name: name.into(),
        slot_count: slots,
        input_delay: None,
        is_private: true,
    }
}

#[test]
fn a_room_request_is_checked_and_filled_in() {
    let c = config(&[("LOBBY_GAME_ALLOWLIST", "g")]);
    let mut rs = RoomRegistry::default();
    let v = create_room(&c, &mut rs, "h", &body("g", "  ", Some(2)), 0).ok().unwrap();
    assert_eq!(v.display_name, "lobby");
    assert!(v.join_code.is_some(), "the host sees the code");
    let e = create_room(&c, &mut rs, "h", &body("x", "n", None), 0).err().unwrap();
    assert_eq!((e.status, e.message.as_str()), (400, "game_id not allowed"));
    let e = create_room(&c, &mut rs, "h", &body("g", "n", Some(9)), 0).err().unwrap();
    assert_eq!((e.status, e.message.as_str()), (400, "invalid slot_count"));
    let mut empty = body("g", "n", None);
    empty.client_version = String::new();
    let e = create_room(&c, &mut rs, "h", &empty, 0).err().unwrap();
    assert_eq!(e.message, "game_id and client_version are required");
    let code = v.join_code.as_deref();
    let j = join_room(&mut rs, &v.room_id, "p", "g", "1", code, 1).ok().unwrap();
    assert!(j.join_code.is_none(), "a guest does not");
    assert!(get_room(&rs, &v.room_id, "p").is_ok());
    assert_eq!(get_room(&rs, &v.room_id, "q").err().unwrap().status, 403);
    assert_eq!(get_room(&rs, "none", "p").err().unwrap().status, 404);
    assert!(heartbeat(&mut rs, &v.room_id, "p", 2).is_ok());
    set_ready(&mut rs, &v.room_id, "h", true, 2).ok().unwrap();
    let s: RoomView = set_ready(&mut rs, &v.room_id, "p", true, 2).ok().unwrap();
    assert_eq!(s.rnet.unwrap().local_slot, 1);
    assert!(mark_running(&mut rs, &v.room_id, "h", 3).is_ok());
}

#[test]
fn each_refusal_has_its_status() {
    for (e, status) in [
        (RoomError::NotFound, 404),
        (RoomError::Full, 409),
        (RoomError::NotJoinable, 409),
        (RoomError::BadJoinCode, 403),
        (RoomError::GameMismatch, 409),
        (RoomError::VersionMismatch, 409),
        (RoomError::AlreadyJoined, 409),
        (RoomError::NotMember, 403),
        (RoomError::NotHost, 403),
        (RoomError::BadSlotCount, 400),
        (RoomError::GameNotAllowed, 400),
    ] {
        let a = api_error(e);
        assert_eq!(a.status, status, "{e:?}");
        assert_eq!(a.message, e.message());
        assert!(!room_error_code(&e).is_empty());
    }
}

const PLAYER: &str = "67e55044-10b1-426f-9247-bb680e5fe0c8";

#[test]
fn a_request_names_its_player_and_its_token() {
    let (id, token) = credentials(Some(PLAYER), Some("Bearer tok")).ok().unwrap();
    assert_eq!((id.as_str(), token.as_str()), (PLAYER, "tok"));
    let said = |p, a| credentials(p, a).err().unwrap().message;
    assert_eq!(said(None, Some("Bearer t")), "missing X-Player-Id");
    assert_eq!(said(Some("x"), Some("Bearer t")), "missing X-Player-Id");
    assert_eq!(said(Some(PLAYER), None), "missing Authorization");
    assert_eq!(said(Some(PLAYER), Some("Basic t")), "expected Bearer token");
    assert_eq!(require_auth(None, "t").err().unwrap().message, "invalid credentials");
    assert_eq!(parse_player("?").err().unwrap().status, 403);
    assert_eq!(parse_player(&PLAYER.to_uppercase()).ok().unwrap(), PLAYER);
}

#[test]
fn pages_hold_no_markup_of_a_player() {
    assert_eq!(html_escape("<a href=\"x\">'&"), "&lt;a href=&quot;x&quot;&gt;&#39;&amp;");
    let p = page("T<", "b");
    assert!(p.contains("<title>T&lt;</title>") && p.ends_with("<p>b</p></body>"), "{p}");
    let done = Completed {
        session: "s".into(),
        player_id: "p".into(),
        handle: "Reimu".into(),
        discord_username: "r".into(),
    };
    assert!(callback_page(&Ok(done)).contains("Welcome, Reimu."));
    assert!(callback_page(&Err("not_in_guild".into())).contains("Not a member"));
    let failed = callback_page(&Err("discord users/@me: timeout".into()));
    assert!(failed.contains("(discord users/@me)") && !failed.contains("timeout"), "{failed}");
}

#[test]
fn a_callback_is_cancelled_empty_or_traded() {
    match discord_callback(Some("c".into()), Some("denied".into())) {
        Callback::Failed(why, _) => assert_eq!(why, "denied"),
        _ => panic!("cancelled"),
    }
    match discord_callback(None, None) {
        Callback::Failed(why, _) => assert_eq!(why, "no_code"),
        _ => panic!("no code"),
    }
    assert!(matches!(discord_callback(Some("c".into()), None), Callback::Exchange(_)));
}

#[test]
fn a_login_is_started_and_polled() {
    let mut store = LoginStore::default();
    assert_eq!(discord_start(&config(&[]), &mut store, 0).err().unwrap().status, 503);
    let mut c = config(&[]);
    c.discord_client_id = Some("1".into());
    c.discord_redirect_url = Some("https://x".into());
    let (code, url) = discord_start(&c, &mut store, 0).ok().unwrap();
    assert!(url.ends_with(&format!("&state={code}")), "{url}");
    assert_eq!(discord_poll(&mut store, &code, 1).err().unwrap().status, 202);
    store.fail(&code, "why");
    let e = discord_poll(&mut store, &code, 1).err().unwrap();
    assert_eq!((e.status, e.message.as_str()), (403, "why"));
}

#[test]
fn open_and_listed_servers_say_which_they_are() {
    assert_eq!(list_games(&config(&[])).mode, "open");
    let g = list_games(&config(&[("LOBBY_GAME_ALLOWLIST", "a,b")]));
    assert_eq!(g.mode, "allowlist");
    assert_eq!(g.games, vec!["a".to_string(), "b".to_string()]);
    assert_eq!(turn_creds(None, "p").err().unwrap().status, 503);
}

#[test]
fn normalizes_client_game_names() {
    assert_eq!(normalize_game("  Masters of Teras Kasi "), "masters_of_teras_kasi");
    assert_eq!(normalize_game("SF-Alpha_3.2"), "sf-alpha_3.2");
    assert_eq!(normalize_game("!!!"), "");
    assert_eq!(normalize_game(""), "");
    assert_eq!(normalize_game(&"x".repeat(200)).len(), GAME_LABEL_MAX_LEN);
}

#[test]
fn game_labels_stay_bounded() {
    let mut m = Metrics::default();
    init_game_labels(&mut m, &vec![], 2);
    assert_eq!(game_label(&mut m, "Klonoa"), "klonoa");
    assert_eq!(game_label(&mut m, "klonoa "), "klonoa");
    assert_eq!(game_label(&mut m, "Twisted Metal 4"), "twisted_metal_4");
    assert_eq!(game_label(&mut m, "Ape Escape"), GAME_LABEL_OTHER);
    assert_eq!(game_label(&mut m, "   "), GAME_LABEL_UNKNOWN);
    init_game_labels(&mut m, &vec!["Ape Escape".to_string()], 64);
    assert_eq!(game_label(&mut m, "ape escape"), "ape_escape");
    assert_eq!(game_label(&mut m, "Some Unlisted Game"), GAME_LABEL_OTHER);
    assert_eq!(game_label(&mut m, "Klonoa"), GAME_LABEL_OTHER);
}

#[test]
fn starts_are_counted_by_title() {
    let mut m = Metrics::default();
    assert_eq!(ws_connected(&mut m).len(), 1);
    ws_lobby_started(&mut m, "Klonoa", 2);
    ws_lobby_started(&mut m, "klonoa", 3);
    let rows = match_starts_by_game(&m, SURFACE_WS);
    assert_eq!(rows.len(), 1);
    assert_eq!(rows[0].0, "klonoa");
    assert_eq!((rows[0].1.starts, rows[0].1.players), (2, 5));
    assert_eq!(m.totals.ws_connects, 1);
    assert!(!describe().is_empty());
}

fn rep() -> ChatReport {
    ChatReport {
        reporter_id: "r1".into(),
        accused_id: "acc".into(),
        message_id: "m1".into(),
        message_text: "the reported line".into(),
        accused_name: "Someone".into(),
        context: "a: hello\nb: hi".into(),
        transcript: "Someone: the reported line".into(),
        message_count: 1,
        scope: "lobby".into(),
        lobby_id: "L1".into(),
        game_name: "G".into(),
        game_version: "1.0".into(),
        platform: "snes".into(),
        server: "wss://example".into(),
        reason: "harassment".into(),
        note: "please look".into(),
    }
}

const STAMP: &str = "2026-03-09T10:11:12+00:00";

#[test]
fn a_report_stores_the_servers_copy_and_opens() {
    let f = record(0, "", &rep(), STAMP).unwrap();
    assert_eq!(f.id.len(), 36);
    assert_eq!(f.row.message_text, "the reported line");
    assert_eq!(f.row.reason, "harassment");
    assert_eq!(submitted(true, Inserted::Done), Submitted::Stored);
}

#[test]
fn reporting_the_same_message_twice_adds_one_row() {
    assert_eq!(submitted(true, Inserted::UniqueViolation), Submitted::Duplicate);
    assert_eq!(submitted(true, Inserted::Error), Submitted::Failed);
}

#[test]
fn report_spam_is_capped() {
    for i in 0..REPORTS_PER_HOUR {
        assert!(record(i, "", &rep(), STAMP).is_some(), "report {i} should have been accepted");
    }
    assert!(record(REPORTS_PER_HOUR, "", &rep(), STAMP).is_none());
    assert_eq!(submitted(false, Inserted::Done), Submitted::RateLimited);
}

#[test]
fn a_hostile_note_is_truncated_not_rejected() {
    let mut r = rep();
    r.note = "x".repeat(50_000);
    r.reason = "not-a-real-reason".into();
    r.message_count = 900;
    let f = record(0, "", &r, STAMP).unwrap();
    assert_eq!(f.row.note.chars().count(), NOTE_MAX_CHARS);
    assert_eq!(f.row.reason, "other");
    assert_eq!(f.row.message_count, 64);
}

#[test]
fn a_dump_is_named_by_date_and_id_only() {
    let f = record_as(0, "/var/reports", &rep(), "the-id", STAMP).unwrap();
    let d = f.dump.unwrap();
    assert_eq!(d.path, "2026/03/the-id.txt");
    assert_eq!(dump_path(STAMP, "x"), "2026/03/x.txt");
    for banned in ["snes", "psx", "G", "Someone", "acc", "r1"] {
        assert!(!d.path.contains(banned), "dump path must not be named after {banned}");
    }
    assert_eq!(d.path.split('/').count(), 3, "{}", d.path);
    assert!(d.body.contains("platform: snes"), "{}", d.body);
    assert!(d.body.contains("game:     G"), "{}", d.body);
    assert!(d.body.contains("the reported line"), "{}", d.body);
    assert!(d.body.starts_with("report:   the-id\nfiled:    2026-03-09T10:11:12+00:00\n"));
}

#[test]
fn dumps_disabled_still_files_the_report() {
    let f = record(0, "", &rep(), STAMP).unwrap();
    assert!(f.dump.is_none());
    assert_eq!(f.row.message_count, 1);
}

#[test]
fn every_offered_reason_survives_normalization() {
    for r in REASONS {
        assert_eq!(normalize_reason(r), r);
    }
    assert_eq!(normalize_reason("  HARASSMENT "), "harassment");
}

#[test]
fn the_word_list_of_a_server_is_its_own() {
    let f = ChatFilter::parse("", true);
    assert_eq!(f.mask("anything at all"), "anything at all");
}

#[test]
fn a_room_starts_once_all_its_members_are_ready() {
    let mut rs = RoomRegistry::default();
    let id = rs.create("h", "g", "v", "n", 3, 2, 1, false, 0).ok().unwrap().room_id;
    rs.join(&id, "p", "g", "v", None, 1).ok().unwrap();
    let one = rs.set_ready(&id, "h", true, 2).ok().unwrap();
    assert_eq!((one.status, one.session_id), (RoomStatus::Open, None));
    let both = rs.set_ready(&id, "p", true, 3).ok().unwrap();
    assert_eq!(both.status, RoomStatus::Starting);
    assert!(both.session_id.is_some());
}

#[test]
fn a_label_is_its_own_label_and_capitals_do_not_count() {
    for raw in ["  Masters of Teras Kasi ", "__a  b__.", "SF-Alpha_3.2", "!!!", &"Ab ".repeat(40)] {
        let n = normalize_game(raw);
        assert_eq!(normalize_game(&n), n, "{raw}");
        assert_eq!(normalize_game(&raw.to_ascii_uppercase()), n, "{raw}");
        assert!(!n.contains("__") && !n.starts_with('_') && !n.ends_with(['_', '-', '.']), "{n}");
    }
}

#[test]
fn active_gauges_add_up_by_label_and_go_to_zero() {
    let count = |g: &str, n: u64| GameCount { game: g.into(), n };
    let mut m = Metrics::default();
    let ps = set_matches_by_game(
        &mut m,
        SURFACE_WS,
        &vec![count("Klonoa", 2), count("Ape", 1), count("klonoa ", 3)],
    );
    let set = |ps: &Vec<Point>| -> Vec<(String, String, u64)> {
        ps.iter()
            .map(|p| (p.labels[0].value.clone(), p.labels[1].value.clone(), p.value))
            .collect()
    };
    assert_eq!(set(&ps), vec![("ws".into(), "klonoa".into(), 5), ("ws".into(), "ape".into(), 1)]);
    set_matches_by_game(&mut m, SURFACE_HTTP, &vec![count("Ape", 7)]);
    let ps = set_matches_by_game(&mut m, SURFACE_WS, &vec![count("ape", 4)]);
    assert_eq!(set(&ps), vec![("ws".into(), "klonoa".into(), 0), ("ws".into(), "ape".into(), 4)]);
    assert!(set_matches_by_game(&mut m, SURFACE_WS, &vec![]).len() == 1);
    assert!(match_starts_by_game(&m, "elsewhere").is_empty());
}
