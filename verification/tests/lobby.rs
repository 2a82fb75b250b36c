use recomp_net_server::chat_filter::ChatFilter;
use recomp_net_server::names::{NAME_MAX_BYTES, NAME_MAX_CHARS};
use recomp_net_server::ws_lobby::chat::{apply_identity, CHAT_RING_MAX};
use recomp_net_server::ws_lobby::input::{bare, client_ip_for, InMsg, PASSWORD_MAX_BYTES};
use recomp_net_server::ws_lobby::model::{
    game_scope_for, is_spectator_seat, player_count, spectator_seat, ClientMeta, HubInner, Lobby,
    Slot, MAX_SLOTS,
};
use recomp_net_server::ws_lobby::wire::lobby_list_json_for;

const TAG: &str = "deadbeef";

#[test]
fn the_header_is_ignored_unless_trusted() {
    assert_eq!(client_ip_for(Some("8.8.8.8"), "127.0.0.1", false), "127.0.0.1");
}

#[test]
fn a_trusted_proxy_reveals_the_client() {
    assert_eq!(client_ip_for(Some("8.8.8.8"), "127.0.0.1", true), "8.8.8.8");
}

#[test]
fn the_leftmost_entry_is_the_client() {
    assert_eq!(
        client_ip_for(Some("8.8.8.8, 10.0.0.1, 10.0.0.2"), "127.0.0.1", true),
        "8.8.8.8"
    );
}

#[test]
fn a_missing_or_empty_header_falls_back_to_the_peer() {
    assert_eq!(client_ip_for(None, "127.0.0.1", true), "127.0.0.1");
    assert_eq!(client_ip_for(Some("   "), "127.0.0.1", true), "127.0.0.1");
    assert_eq!(client_ip_for(Some(" , 10.0.0.1"), "127.0.0.1", true), "127.0.0.1");
}

fn hub_inner() -> HubInner {
    HubInner::default()
}

fn client_named(g: &mut HubInner, id: &str, name: &str, game: &str, lobby: Option<&str>) {
    g.clients.push(ClientMeta {
        player_id: id.to_string(),
        display_name: name.to_string(),
        account: None,
        peer_ip: "127.0.0.1".into(),
        country: String::new(),
        game_name: game.to_string(),
        lobby_id: lobby.map(str::to_string),
        pending_mod_lobby: None,
        probe_rtt_ms: -1,
    });
}

fn client(g: &mut HubInner, id: &str, game: &str, lobby: Option<&str>) {
    client_named(g, id, id, game, lobby);
}

fn slot_of(player_id: &str, name: &str) -> Slot {
    Slot {
        player_id: player_id.into(),
        display_name: name.into(),
        ready: false,
        bios_offer: None,
        mod_offer: None,
        memcard_offer: None,
        country: String::new(),
        ice_path: None,
        ice_path_at: None,
    }
}

fn find<'a>(g: &'a mut HubInner, id: &str) -> &'a mut Lobby {
    g.lobbies.iter_mut().find(|l| l.lobby_id == id).unwrap()
}

fn seat(g: &mut HubInner, lobby_id: &str, index: usize, player_id: &str, name: &str) {
    find(g, lobby_id).slots[index] = Some(slot_of(player_id, name));
}

fn seat_name(g: &mut HubInner, lobby_id: &str, index: usize) -> String {
    find(g, lobby_id).slots[index]
        .as_ref()
        .map(|s| s.display_name.clone())
        .unwrap_or_default()
}

fn hub_name(g: &HubInner, id: &str) -> String {
    g.client(id).unwrap().display_name.clone()
}

fn room(id: &str, game: &str, host: &str, players: usize, spectators: usize) -> Lobby {
    Lobby {
        lobby_id: id.into(),
        name: id.into(),
        game_name: game.into(),
        game_version: "9.9.9".into(),
        disc_fp: String::new(),
        host_player_id: host.into(),
        host_bind: String::new(),
        host_endpoint: String::new(),
        lan_endpoints: Vec::new(),
        guest_endpoint: String::new(),
        password_hash: None,
        password_salt: None,
        max_slots: players,
        session_id: 1,
        slots: (0..players).map(|_| None).collect(),
        allow_spectators: spectators > 0,
        spectators: (0..spectators).map(|_| None).collect(),
        match_caps: None,
        relay_session_id: None,
        started: false,
        automatch: false,
    }
}

fn lobby(g: &mut HubInner, id: &str, game: &str) {
    g.lobbies.push(room(id, game, "", 2, 0));
}

#[test]
fn the_recorded_title_is_the_scope() {
    let mut g = hub_inner();
    client(&mut g, "a", "Crash Bash", None);
    assert_eq!(game_scope_for(&g, "a"), "Crash Bash");
}

#[test]
fn a_client_that_never_said_its_title_falls_back_to_its_room() {
    let mut g = hub_inner();
    lobby(&mut g, "L", "Gundam Wing");
    client(&mut g, "a", "", Some("L"));
    assert_eq!(game_scope_for(&g, "a"), "Gundam Wing");
}

#[test]
fn nothing_anywhere_is_still_no_scope() {
    let mut g = hub_inner();
    client(&mut g, "a", "", None);
    assert_eq!(game_scope_for(&g, "a"), "");
    assert_eq!(game_scope_for(&g, "nobody"), "");
}

#[test]
fn the_scope_is_the_title_and_never_the_version() {
    let mut g = hub_inner();
    lobby(&mut g, "old", "Crash Bash");
    lobby(&mut g, "new", "Crash Bash");
    find(&mut g, "old").game_version = "0.1.0".into();
    find(&mut g, "new").game_version = "0.2.0".into();
    client(&mut g, "a", "", Some("old"));
    client(&mut g, "b", "", Some("new"));
    client(&mut g, "c", "Crash Bash", None);
    assert_eq!(game_scope_for(&g, "a"), game_scope_for(&g, "b"));
    assert_eq!(game_scope_for(&g, "a"), game_scope_for(&g, "c"));
}

#[test]
fn a_rename_reaches_the_seat_and_the_hub_row() {
    let mut g = hub_inner();
    lobby(&mut g, "L", "Crash Bash");
    client(&mut g, "a", "Crash Bash", Some("L"));
    seat(&mut g, "L", 0, "a", "Alex");
    let (accepted, renamed) = apply_identity(&mut g, "a", Some("Zephyr".into()), None, TAG);
    assert_eq!(accepted, "Zephyr");
    assert_eq!(renamed.as_deref(), Some("L"));
    assert_eq!(seat_name(&mut g, "L", 0), "Zephyr");
    assert_eq!(hub_name(&g, "a"), "Zephyr");
}

#[test]
fn renaming_onto_a_name_the_room_has_deduplicates() {
    let mut g = hub_inner();
    lobby(&mut g, "L", "Crash Bash");
    client(&mut g, "a", "Crash Bash", Some("L"));
    client(&mut g, "b", "Crash Bash", Some("L"));
    seat(&mut g, "L", 0, "a", "Alex");
    seat(&mut g, "L", 1, "b", "Marisa");
    let (accepted, renamed) = apply_identity(&mut g, "a", Some("Marisa".into()), None, TAG);
    assert_eq!(accepted, "Marisa (2)");
    assert_eq!(renamed.as_deref(), Some("L"));
    assert_eq!(seat_name(&mut g, "L", 0), "Marisa (2)");
    assert_eq!(hub_name(&g, "a"), "Marisa (2)");
    assert_eq!(seat_name(&mut g, "L", 1), "Marisa");
}

#[test]
fn renaming_while_unseated_still_updates_the_hub_row() {
    let mut g = hub_inner();
    client(&mut g, "a", "Crash Bash", None);
    let (accepted, renamed) = apply_identity(&mut g, "a", Some("Zephyr".into()), None, TAG);
    assert_eq!(accepted, "Zephyr");
    assert!(renamed.is_none());
    assert_eq!(hub_name(&g, "a"), "Zephyr");
}

#[test]
fn a_hello_that_renames_nothing_moves_nothing() {
    let mut g = hub_inner();
    lobby(&mut g, "L", "Crash Bash");
    client(&mut g, "a", "Crash Bash", Some("L"));
    seat(&mut g, "L", 0, "a", "Alex");
    let (accepted, renamed) = apply_identity(&mut g, "a", Some("Alex".into()), None, TAG);
    assert_eq!(accepted, "Alex");
    assert!(renamed.is_none());
}

#[test]
fn a_hello_carrying_only_a_title_leaves_the_name_alone() {
    let mut g = hub_inner();
    client_named(&mut g, "a", "Alex", "", None);
    let (accepted, _) = apply_identity(&mut g, "a", None, Some("Crash Bash".into()), TAG);
    assert_eq!(accepted, "Alex");
    assert_eq!(g.client("a").unwrap().game_name, "Crash Bash");
}

#[test]
fn different_titles_do_not_share_a_room() {
    let mut g = hub_inner();
    client(&mut g, "a", "Crash Bash", None);
    client(&mut g, "b", "Gundam Wing", None);
    assert_ne!(game_scope_for(&g, "a"), game_scope_for(&g, "b"));
}

#[test]
fn seat_indices_do_not_collide() {
    assert!(!is_spectator_seat(0));
    assert!(!is_spectator_seat(MAX_SLOTS - 1));
    assert!(is_spectator_seat(spectator_seat(0)));
    assert!(spectator_seat(0) > MAX_SLOTS);
}

fn slot(name: &str) -> Slot {
    slot_of(name, name)
}

fn table(players: usize, spectators: usize) -> Lobby {
    room("L", "G", "host", players, spectators)
}

#[test]
fn seat_addresses_both_tables() {
    let mut l = table(2, 4);
    *l.seat_mut(1).unwrap() = Some(slot("p1"));
    *l.seat_mut(spectator_seat(2)).unwrap() = Some(slot("s2"));
    assert_eq!(l.seat(1).unwrap().as_ref().map(|s| s.player_id.as_str()), Some("p1"));
    assert_eq!(
        l.seat(spectator_seat(2)).unwrap().as_ref().map(|s| s.player_id.as_str()),
        Some("s2")
    );
    assert!(l.seat(2).is_none());
    assert!(l.seat(spectator_seat(4)).is_none());
}

#[test]
fn counts_keep_the_tables_apart() {
    let mut l = table(2, 4);
    *l.seat_mut(0).unwrap() = Some(slot("host"));
    *l.seat_mut(spectator_seat(0)).unwrap() = Some(slot("watcher"));
    assert_eq!(player_count(&l), 1);
    assert_eq!(l.spectator_count(), 1);
    assert_eq!(l.everyone().len(), 2);
    assert_eq!(l.member_ids(), vec!["host".to_string(), "watcher".to_string()]);
}

#[test]
fn seat_of_finds_either_table() {
    let mut l = table(2, 4);
    *l.seat_mut(1).unwrap() = Some(slot("p"));
    *l.seat_mut(spectator_seat(3)).unwrap() = Some(slot("s"));
    assert_eq!(l.seat_of("p"), Some(1));
    assert_eq!(l.seat_of("s"), Some(spectator_seat(3)));
    assert_eq!(l.seat_of("nobody"), None);
}

#[test]
fn a_lobby_without_spectators_has_no_gallery_seats() {
    let l = table(2, 0);
    assert!(!l.allow_spectators);
    assert!(l.seat(spectator_seat(0)).is_none());
    assert_eq!(l.spectator_count(), 0);
}

#[test]
fn ready_is_a_player_property() {
    let mut l = table(2, 4);
    *l.seat_mut(0).unwrap() = Some(slot("host"));
    *l.seat_mut(1).unwrap() = Some(slot("p2"));
    *l.seat_mut(spectator_seat(0)).unwrap() = Some(slot("watcher"));
    for s in l.slots.iter_mut().flatten() {
        s.ready = true;
    }
    let all_ready = l.slots.iter().flatten().all(|s| s.ready) && player_count(&l) >= 2;
    assert!(all_ready);
}

fn filter() -> ChatFilter {
    ChatFilter::parse("fuck\nshit\ncunt\n", true)
}

fn text(v: &serde_json::Value, k: &str) -> Option<String> {
    v.get(k).and_then(|x| x.as_str()).map(str::to_string)
}

fn msg(json: &str) -> InMsg {
    let v: serde_json::Value = serde_json::from_str(json).expect("parse");
    let mut m = bare(&text(&v, "op").unwrap());
    m.display_name = text(&v, "display_name");
    m.name = text(&v, "name");
    m.game_name = text(&v, "game_name");
    m.password = text(&v, "password");
    m
}

#[test]
fn control_characters_never_reach_a_peer() {
    let mut m = msg(r#"{"op":"hello","display_name":"Ma\nri\tsa "}"#);
    assert_eq!(m.sanitize_in_place(&filter()), None);
    assert_eq!(m.display_name.as_deref(), Some("Marisa"));
}

#[test]
fn ws_lobby_a_name_is_capped_in_characters_and_in_bytes() {
    let long = "a".repeat(200);
    let mut m = msg(&format!(r#"{{"op":"hello","display_name":"{long}"}}"#));
    assert_eq!(m.sanitize_in_place(&filter()), None);
    assert_eq!(m.display_name.as_deref().unwrap().chars().count(), NAME_MAX_CHARS);
    let wide = "\u{1F600}".repeat(64);
    let mut m = msg(&format!(r#"{{"op":"hello","display_name":"{wide}"}}"#));
    assert_eq!(m.sanitize_in_place(&filter()), None);
    let got = m.display_name.as_deref().unwrap();
    assert!(got.len() <= NAME_MAX_BYTES, "{} bytes", got.len());
    assert!(got.chars().all(|c| c == '\u{1F600}'));
}

#[test]
fn a_name_that_trims_to_nothing_is_none() {
    let mut m = msg(r#"{"op":"hello","display_name":"  \t "}"#);
    assert_eq!(m.sanitize_in_place(&filter()), None);
    assert_eq!(m.display_name, None);
}

#[test]
fn a_profane_name_is_refused_not_masked() {
    let mut m = msg(r#"{"op":"hello","display_name":"fuck"}"#);
    assert_eq!(m.sanitize_in_place(&filter()), Some("name_rejected"));
    let mut m = msg(r#"{"op":"create","display_name":"sh1t","name":"Room"}"#);
    assert_eq!(m.sanitize_in_place(&filter()), Some("name_rejected"));
    let mut m = msg(r#"{"op":"join","display_name":"f.u.c.k"}"#);
    assert_eq!(m.sanitize_in_place(&filter()), Some("name_rejected"));
}

#[test]
fn an_ordinary_name_passes_untouched() {
    let mut m = msg(r#"{"op":"hello","display_name":"Scunthorpe","game_name":"Crash Bash"}"#);
    assert_eq!(m.sanitize_in_place(&filter()), None);
    assert_eq!(m.display_name.as_deref(), Some("Scunthorpe"));
    assert_eq!(m.game_name.as_deref(), Some("Crash Bash"));
}

#[test]
fn a_room_title_is_refused_but_a_game_title_is_a_key() {
    let mut m = msg(r#"{"op":"create","name":"fuck lobby","game_name":"Crash Bash"}"#);
    assert_eq!(m.sanitize_in_place(&filter()), Some("lobby_name_rejected"));
    let mut m = msg(r#"{"op":"create","name":"Reimu's Room","game_name":"Crash Bash"}"#);
    assert_eq!(m.sanitize_in_place(&filter()), None);
    assert_eq!(m.name.as_deref(), Some("Reimu's Room"));
    assert_eq!(m.game_name.as_deref(), Some("Crash Bash"));
}

#[test]
fn a_password_is_validated_never_rewritten() {
    let mut m = msg(r#"{"op":"create","password":"hunter2 !@#$%^&*()"}"#);
    assert_eq!(m.sanitize_in_place(&filter()), None);
    assert_eq!(m.password.as_deref(), Some("hunter2 !@#$%^&*()"));
    let mut m = msg(r#"{"op":"create","password":"fuck"}"#);
    assert_eq!(m.sanitize_in_place(&filter()), None);
    assert_eq!(m.password.as_deref(), Some("fuck"));
    let mut m = msg(r#"{"op":"join","password":"a\u0009b"}"#);
    assert_eq!(m.sanitize_in_place(&filter()), Some("password_invalid"));
    let long = "a".repeat(PASSWORD_MAX_BYTES + 1);
    let mut m = msg(&format!(r#"{{"op":"join","password":"{long}"}}"#));
    assert_eq!(m.sanitize_in_place(&filter()), Some("password_invalid"));
}

#[test]
fn a_pushed_list_carries_only_the_recipients_own_title() {
    let mut g = HubInner::default();
    client_named(&mut g, "p1", "GundamPlayer", "Gundam Wing Endless Duel", None);
    client_named(&mut g, "p2", "YugiohPlayer", "Yu-Gi-Oh! Forbidden Memories", None);
    let seen = lobby_list_json_for(&g, "p1").write();
    assert!(seen.contains("GundamPlayer"));
    assert!(
        !seen.contains("YugiohPlayer"),
        "another title's player leaked into a pushed list: {seen}"
    );
    let seen = lobby_list_json_for(&g, "p2").write();
    assert!(seen.contains("YugiohPlayer"));
    assert!(!seen.contains("GundamPlayer"));
}

#[test]
fn a_client_with_no_title_yet_still_sees_everyone() {
    let mut g = HubInner::default();
    client_named(&mut g, "p1", "GundamPlayer", "Gundam Wing Endless Duel", None);
    client_named(&mut g, "p2", "Browsing", "", None);
    let seen = lobby_list_json_for(&g, "p2").write();
    assert!(seen.contains("GundamPlayer"));
    assert!(seen.contains("Browsing"));
}

fn ring() -> HubInner {
    HubInner::default()
}

#[test]
fn a_reported_id_resolves_to_the_servers_own_text() {
    let mut g = ring();
    let mid = g.remember_chat("acc1", "Alice", "the line", "lobby", "L1", "G");
    let (line, _ctx) = g.chat_with_context(&mid).expect("should resolve");
    assert_eq!(line.text, "the line");
    assert_eq!(line.from_account, "acc1");
    assert_eq!(line.from_name, "Alice");
}

#[test]
fn ids_are_not_reused_within_a_run() {
    let mut g = ring();
    let a = g.remember_chat("acc1", "A", "one", "lobby", "L1", "G");
    let b = g.remember_chat("acc1", "A", "two", "lobby", "L1", "G");
    assert_ne!(a, b);
    assert_eq!(g.chat_with_context(&a).unwrap().0.text, "one");
    assert_eq!(g.chat_with_context(&b).unwrap().0.text, "two");
}

#[test]
fn an_unknown_id_resolves_to_nothing() {
    let g = ring();
    assert!(g.chat_with_context("nope").is_none());
}

#[test]
fn context_is_the_preceding_lines_of_the_same_room() {
    let mut g = ring();
    g.remember_chat("a", "Alice", "first", "lobby", "L1", "G");
    g.remember_chat("c", "Carol", "elsewhere", "lobby", "L2", "G");
    g.remember_chat("b", "Bob", "second", "lobby", "L1", "G");
    let mid = g.remember_chat("a", "Alice", "reported", "lobby", "L1", "G");
    let (_line, ctx) = g.chat_with_context(&mid).unwrap();
    assert!(ctx.contains("Alice: first"));
    assert!(ctx.contains("Bob: second"));
    assert!(
        !ctx.contains("elsewhere"),
        "another room's chat must not reach a moderation record: {ctx}"
    );
    assert!(!ctx.contains("reported"), "context is what came BEFORE, not the line itself");
}

#[test]
fn server_chat_and_lobby_chat_do_not_share_context() {
    let mut g = ring();
    g.remember_chat("a", "Alice", "in a room", "lobby", "L1", "G");
    let mid = g.remember_chat("b", "Bob", "in the server channel", "server", "", "G");
    let (_l, ctx) = g.chat_with_context(&mid).unwrap();
    assert!(!ctx.contains("in a room"), "{ctx}");
}

#[test]
fn the_ring_is_bounded_and_old_lines_stop_being_reportable() {
    let mut g = ring();
    let first = g.remember_chat("a", "A", "oldest", "lobby", "L1", "G");
    for i in 0..CHAT_RING_MAX {
        g.remember_chat("a", "A", &format!("line {i}"), "lobby", "L1", "G");
    }
    assert_eq!(g.chat_ring.len(), CHAT_RING_MAX);
    assert!(
        g.chat_with_context(&first).is_none(),
        "the oldest line should have aged out of the ring"
    );
}

#[test]
fn a_line_is_reportable_while_fewer_than_a_ring_came_after_it() {
    let mut g = ring();
    for i in 0..10 {
        let room = if i % 2 == 0 { "L1" } else { "L2" };
        g.remember_chat("b", "B", &format!("before {i}"), "lobby", room, "G");
    }
    let mid = g.remember_chat("a", "A", "this one", "lobby", "L1", "G");
    for i in 0..CHAT_RING_MAX - 1 {
        g.remember_chat("c", "C", &format!("after {i}"), "lobby", "L1", "G");
        if i == 100 {
            let (line, context) = g.chat_with_context(&mid).unwrap();
            assert_eq!(line.text, "this one");
            assert_eq!(context, "B: before 4\nB: before 6\nB: before 8");
        }
    }
    let (line, _) = g.chat_with_context(&mid).expect("a full ring still holds it");
    assert_eq!((line.from_account.as_str(), line.text.as_str()), ("a", "this one"));
    g.remember_chat("c", "C", "one more", "lobby", "L1", "G");
    assert!(g.chat_with_context(&mid).is_none());
}
