use recomp_net_server::automatch::floors::{
    caps_with_floor, delay_floor, frames_for, hosted_delay_only, hosted_rollback_delay,
    hosted_rollback_prediction, sanitize_rtt, DelayFloor, MAX_DELAY, MAX_PREDICTION,
    MAX_REPORTED_RTT_MS, MIN_PREDICTION, PROBE_GRACE_SECS,
};
use recomp_net_server::automatch::queue::{
    MatchKey, Queue, Ticket, RTT_UNLIMITED_AFTER_STEPS, RTT_WIDEN_SECS,
};
use recomp_net_server::automatch::rulesets::{
    rulesets_json, unapproved_exemption, RulesetEntry, Rulesets,
};
use recomp_net_server::automatch::strikes::{
    cooldown_secs, cutoff_secs, sweep_cutoffs, Pruned, STRIKE_WINDOW_SECS,
};
use recomp_net_server::json::Json;

const DEFAULT_FRAME_MS: f64 = 1000.0 / 60.0;

/// Frames that the one-way trip through the relay takes, with a margin.
fn frames_needed(a: i32, b: i32, frame_ms: f64) -> u32 {
    if a < 0 || b < 0 {
        return 0;
    }
    let one_way = (a + b) as f64 / 2.0;
    (one_way / frame_ms).ceil() as u32 + 1
}

fn frames(frame_ms: f64) -> Vec<u32> {
    (0..=4000).map(|sum| frames_needed(sum, 0, frame_ms)).collect()
}

fn floor(caps: &Json, a: i32, b: i32) -> DelayFloor {
    delay_floor(caps, a, b, frames_needed(a, b, DEFAULT_FRAME_MS))
}

fn json(v: &serde_json::Value) -> Json {
    match v {
        serde_json::Value::Null => Json::Null,
        serde_json::Value::Bool(b) => Json::Bool(*b),
        serde_json::Value::Number(n) => match n.as_i64() {
            Some(i) => Json::Int(i as i128),
            None => Json::Float(n.to_string()),
        },
        serde_json::Value::String(s) => Json::text(s),
        serde_json::Value::Array(a) => Json::Arr(a.iter().map(json).collect()),
        serde_json::Value::Object(o) => {
            let mut out = Json::object();
            for (k, v) in o {
                out = out.with(k, json(v));
            }
            out
        }
    }
}

fn caps(text: &str) -> Json {
    json(&serde_json::from_str::<serde_json::Value>(text).unwrap())
}

fn from_toml(v: &toml::Value) -> Json {
    match v {
        toml::Value::String(s) => Json::text(s),
        toml::Value::Integer(i) => Json::Int(*i as i128),
        toml::Value::Boolean(b) => Json::Bool(*b),
        toml::Value::Array(a) => Json::Arr(a.iter().map(from_toml).collect()),
        toml::Value::Table(t) => {
            let mut out = Json::object();
            for (k, v) in t {
                out = out.with(k, from_toml(v));
            }
            out
        }
        other => Json::text(&other.to_string()),
    }
}

fn load_str(body: &str) -> Rulesets {
    let doc: toml::Value = body.parse::<toml::Table>().map(toml::Value::Table).unwrap();
    let text = |t: &toml::Value, k: &str| {
        t.get(k).and_then(|v| v.as_str()).unwrap_or("").to_string()
    };
    let mut entries = Vec::new();
    for t in doc.get("ruleset").and_then(|v| v.as_array()).unwrap() {
        entries.push(RulesetEntry {
            id: text(t, "id"),
            label: text(t, "label"),
            game_name: text(t, "game_name"),
            game_version: text(t, "game_version"),
            max_slots: t.get("max_slots").and_then(|v| v.as_integer()).unwrap_or(2) as usize,
            match_caps: t.get("match_caps").map(from_toml).unwrap_or(Json::object()),
            frames: frames(DEFAULT_FRAME_MS),
        });
    }
    Rulesets::load(entries)
}

#[test]
fn a_missing_file_is_automatch_off_not_a_failure() {
    assert!(Rulesets::load(Vec::new()).is_empty());
}

#[test]
fn a_ruleset_carrying_mods_is_refused() {
    let rs = load_str(
        r#"
            [[ruleset]]
            id = "standard"
            game_name = "G"
            [ruleset.match_caps]
            mods = [{ id = "psx.foo", ver = "1.0.0" }]
            "#,
    );
    assert!(rs.is_empty(), "a mod plan must not load");
}

#[test]
fn a_party_sized_ruleset_is_refused() {
    let rs = load_str("[[ruleset]]\nid='r'\ngame_name='G'\nmax_slots=4\n");
    assert!(rs.is_empty());
}

#[test]
fn a_duplicate_id_for_one_game_keeps_only_the_first() {
    let rs = load_str(
        "[[ruleset]]\nid='r'\ngame_name='G'\nlabel='first'\n\
             [[ruleset]]\nid='r'\ngame_name='G'\nlabel='second'\n",
    );
    assert_eq!(rs.for_game("G").len(), 1);
    assert_eq!(rs.for_game("G")[0].label, "first");
}

#[test]
fn the_same_id_under_two_games_is_not_a_duplicate() {
    let rs = load_str(
        "[[ruleset]]\nid='standard'\ngame_name='A'\n\
             [[ruleset]]\nid='standard'\ngame_name='B'\n",
    );
    assert_eq!(rs.for_game("A").len(), 1);
    assert_eq!(rs.for_game("B").len(), 1);
}

#[test]
fn an_empty_id_resolves_to_the_only_queue() {
    let rs = load_str("[[ruleset]]\nid='standard'\ngame_name='G'\n");
    assert_eq!(rs.resolve("G", "").map(|r| r.id.as_str()), Some("standard"));
    assert!(rs.resolve("G", "nope").is_none());
    assert!(rs.resolve("Other", "").is_none());
}

#[test]
fn a_label_defaults_to_the_id_rather_than_being_blank() {
    let rs = load_str("[[ruleset]]\nid='standard'\ngame_name='G'\n");
    assert_eq!(rs.for_game("G")[0].label, "standard");
}

#[test]
fn the_caps_summary_is_derived_from_the_caps() {
    let rs = load_str(
        "[[ruleset]]\nid='r'\ngame_name='G'\n[ruleset.match_caps]\n\
             input_delay=2\nrollback=true\nturbo_loads=true\n",
    );
    assert_eq!(rs.for_game("G")[0].caps_summary, "Delay 2+ - Rollback on - Turbo loads");
}

#[test]
fn the_offered_rulesets_name_the_title() {
    let rs = load_str("[[ruleset]]\nid='standard'\ngame_name='G'\n");
    let text = rulesets_json(&rs, "G").write();
    assert!(text.contains("\"standard\""), "{text}");
    assert!(!rulesets_json(&rs, "H").write().contains("standard"));
}

#[test]
fn an_exemption_must_be_one_that_the_ruleset_approves() {
    let c = caps(r#"{"mod_cosmetic_allow":["hud"]}"#);
    assert_eq!(unapproved_exemption(&c, &vec!["hud".to_string()]), None);
    assert_eq!(
        unapproved_exemption(&c, &vec!["cheat".to_string()]).as_deref(),
        Some("cheat")
    );
}

fn key(game: &str) -> MatchKey {
    MatchKey {
        game_name: game.into(),
        game_version: "1.0.0".into(),
        disc_fp: "a".repeat(64),
        ruleset_id: "standard".into(),
        max_slots: 2,
    }
}

const NOW: u64 = 10_000_000;

fn ticket(player: &str, account: &str, keys: Vec<MatchKey>) -> Ticket {
    Ticket {
        ticket_id: format!("t-{player}"),
        player_id: player.into(),
        account_id: account.into(),
        handle: player.into(),
        username: String::new(),
        avatar: String::new(),
        country: String::new(),
        keys,
        host_bind: "0.0.0.0:7777".into(),
        guest_bind: "0.0.0.0:7778".into(),
        queued_at: NOW,
        rtt_ms: 20,
    }
}

fn pair(q: &mut Queue) -> Vec<recomp_net_server::automatch::queue::Pending> {
    q.pair(300, NOW, &vec![])
}

#[test]
fn two_compatible_tickets_pair() {
    let mut q = Queue::default();
    q.push(ticket("p1", "a1", vec![key("G")]));
    q.push(ticket("p2", "a2", vec![key("G")]));
    assert_eq!(q.ticket_of("p1").map(|t| t.account_id).as_deref(), Some("a1"));
    let offers = pair(&mut q);
    assert_eq!(offers.len(), 1);
    assert_eq!(q.waiting(), 0, "paired tickets leave the queue");
    assert_eq!(offers[0].match_id.len(), 36);
    assert!(q.ticket_of("p1").is_none());
    assert_eq!(q.offer_of("p1").as_deref(), Some(offers[0].match_id.as_str()));
}

#[test]
fn a_different_disc_never_pairs() {
    let mut k2 = key("G");
    k2.disc_fp = "b".repeat(64);
    let mut q = Queue::default();
    q.push(ticket("p1", "a1", vec![key("G")]));
    q.push(ticket("p2", "a2", vec![k2]));
    assert!(pair(&mut q).is_empty());
    assert_eq!(q.waiting(), 2);
}

#[test]
fn a_different_release_never_pairs() {
    let mut k2 = key("G");
    k2.game_version = "1.1.0".into();
    let mut q = Queue::default();
    q.push(ticket("p1", "a1", vec![key("G")]));
    q.push(ticket("p2", "a2", vec![k2]));
    assert!(pair(&mut q).is_empty());
}

#[test]
fn one_account_on_two_connections_never_pairs_with_itself() {
    let mut q = Queue::default();
    q.push(ticket("p1", "same", vec![key("G")]));
    q.push(ticket("p2", "same", vec![key("G")]));
    assert!(pair(&mut q).is_empty());
}

#[test]
fn a_multi_title_ticket_pairs_on_the_title_they_share() {
    let mut q = Queue::default();
    q.push(ticket("p1", "a1", vec![key("A"), key("B")]));
    q.push(ticket("p2", "a2", vec![key("B")]));
    let offers = pair(&mut q);
    assert_eq!(offers.len(), 1);
    assert_eq!(offers[0].key.game_name, "B");
}

#[test]
fn preference_order_decides_when_both_titles_are_shared() {
    let mut q = Queue::default();
    q.push(ticket("p1", "a1", vec![key("A"), key("B")]));
    q.push(ticket("p2", "a2", vec![key("B"), key("A")]));
    let offers = pair(&mut q);
    assert_eq!(offers[0].key.game_name, "A");
}

#[test]
fn slot_zero_goes_to_the_older_ticket() {
    let mut q = Queue::default();
    let mut older = ticket("p1", "a1", vec![key("G")]);
    older.queued_at = NOW - 30_000;
    q.push(ticket("p2", "a2", vec![key("G")]));
    q.push(older);
    let offers = pair(&mut q);
    assert_eq!(offers[0].a.player_id, "p1", "the older ticket is slot 0");
}

#[test]
fn a_just_played_pair_is_skipped_while_the_window_holds() {
    let mut q = Queue::default();
    q.note_pairing("a1", "a2", NOW);
    q.push(ticket("p1", "a1", vec![key("G")]));
    q.push(ticket("p2", "a2", vec![key("G")]));
    assert!(pair(&mut q).is_empty(), "avoid the last opponent");
}

#[test]
fn the_rematch_filter_gives_way_rather_than_emptying_a_two_person_pool() {
    let mut q = Queue::default();
    q.note_pairing("a1", "a2", NOW);
    let old = (RTT_WIDEN_SECS * RTT_UNLIMITED_AFTER_STEPS + 1) * 1000;
    let mut t1 = ticket("p1", "a1", vec![key("G")]);
    let mut t2 = ticket("p2", "a2", vec![key("G")]);
    t1.queued_at = NOW - old;
    t2.queued_at = NOW - old;
    q.push(t1);
    q.push(t2);
    assert_eq!(pair(&mut q).len(), 1, "a long wait beats the preference");
}

#[test]
fn an_accepter_who_loses_their_pair_goes_to_the_front() {
    let mut q = Queue::default();
    q.push(ticket("p_waiting", "a3", vec![key("G")]));
    q.requeue_front(ticket("p_jilted", "a1", vec![key("G")]));
    let rows = q.status_rows(NOW);
    assert_eq!(rows[0].0, "p_jilted");
}

#[test]
fn an_offer_needs_both_answers_before_it_resolves() {
    let mut q = Queue::default();
    q.push(ticket("p1", "a1", vec![key("G")]));
    q.push(ticket("p2", "a2", vec![key("G")]));
    pair(&mut q);
    assert!(q.answer("p1", true).is_none(), "one answer is not enough");
    let done = q.answer("p2", true).expect("both answered");
    assert!(done.both_yes());
}

#[test]
fn a_decline_resolves_the_offer_as_not_both_yes() {
    let mut q = Queue::default();
    q.push(ticket("p1", "a1", vec![key("G")]));
    q.push(ticket("p2", "a2", vec![key("G")]));
    pair(&mut q);
    q.answer("p1", true);
    let done = q.answer("p2", false).expect("resolved");
    assert!(!done.both_yes());
}

#[test]
fn a_queued_account_is_recognised_while_its_offer_is_open() {
    let mut q = Queue::default();
    q.push(ticket("p1", "a1", vec![key("G")]));
    q.push(ticket("p2", "a2", vec![key("G")]));
    pair(&mut q);
    assert!(q.is_queued_account("a1"));
}

#[test]
fn a_dropped_connection_leaves_nothing_behind() {
    let mut q = Queue::default();
    q.push(ticket("p1", "a1", vec![key("G")]));
    q.push(ticket("p2", "a2", vec![key("G")]));
    pair(&mut q);
    let orphan = q.remove_player("p1").expect("was half of an offer");
    assert_eq!(orphan.b.player_id, "p2");
    assert!(!q.is_queued_account("a1"));
}

#[test]
fn an_unanswered_offer_lapses() {
    let mut q = Queue::default();
    q.push(ticket("p1", "a1", vec![key("G")]));
    q.push(ticket("p2", "a2", vec![key("G")]));
    pair(&mut q);
    assert!(q.take_expired(3600, NOW).is_empty(), "not yet");
    assert_eq!(q.take_expired(0, NOW).len(), 1, "deadline passed");
}

#[test]
fn a_busy_player_is_passed_over() {
    let mut q = Queue::default();
    q.push(ticket("p1", "a1", vec![key("G")]));
    q.push(ticket("p2", "a2", vec![key("G")]));
    assert!(q.pair(300, NOW, &vec!["p2".to_string()]).is_empty());
    assert_eq!(q.pool_for(&key("G"), "a1"), 1);
}

#[test]
fn frames_needed_follows_the_one_way_trip_through_the_relay() {
    let table = frames(DEFAULT_FRAME_MS);
    assert_eq!(frames_for(&table, 40, 40), 4);
    assert_eq!(frames_for(&table, 0, 0), 1);
}

#[test]
fn an_unmeasured_side_needs_nothing() {
    let table = frames(DEFAULT_FRAME_MS);
    assert_eq!(frames_for(&table, -1, 40), 0);
    assert_eq!(frames_for(&table, 40, -1), 0);
}

#[test]
fn an_unmeasured_pair_runs_the_ruleset_exactly_as_written() {
    let c = caps(r#"{"input_delay": 2, "rollback": true, "input_prediction": 6}"#);
    let f = floor(&c, -1, -1);
    assert_eq!((f.input_delay, f.input_prediction, f.needed), (2, 6, 0));
}

#[test]
fn a_short_link_does_not_lower_what_the_ruleset_asked_for() {
    let c = caps(r#"{"input_delay": 4, "rollback": false}"#);
    let f = floor(&c, 5, 5);
    assert_eq!(f.input_delay, 4);
}

#[test]
fn without_rollback_the_delay_carries_all_of_it() {
    let c = caps(r#"{"input_delay": 2, "rollback": false}"#);
    let f = floor(&c, 120, 120);
    assert_eq!(f.input_delay, 11);
    assert_eq!(f.needed, 9, "the raw requirement is still reported as-is");
    assert_eq!(f.input_delay, hosted_delay_only(240));
}

#[test]
fn with_rollback_the_tiers_set_the_delay_and_the_runway_follows() {
    let c = caps(r#"{"input_delay": 2, "rollback": true, "input_prediction": 2}"#);
    let f = floor(&c, 120, 120);
    assert_eq!(f.input_delay, 9);
    assert_eq!(f.input_prediction, 13);
    assert_eq!(f.input_delay, hosted_rollback_delay(240));
    assert_eq!(f.input_prediction, hosted_rollback_prediction(9));
}

#[test]
fn the_tiers_match_the_launcher_table_exactly() {
    for (rtt, want) in [
        (0, 3),
        (19, 3),
        (49, 3),
        (50, 4),
        (79, 4),
        (80, 6),
        (119, 6),
        (120, 7),
        (159, 7),
        (160, 8),
        (199, 8),
        (200, 9),
        (259, 9),
        (260, 10),
        (5000, 10),
    ] {
        assert_eq!(hosted_rollback_delay(rtt), want, "rtt {rtt}");
    }
    assert_eq!(hosted_rollback_prediction(2), 6);
    assert_eq!(hosted_rollback_prediction(3), 7);
    assert_eq!(hosted_rollback_prediction(10), 14);
    assert_eq!(hosted_rollback_prediction(20), MAX_PREDICTION);
}

#[test]
fn a_local_pair_still_gets_the_hosted_floor_of_three() {
    let c = caps(r#"{"input_delay": 2, "rollback": true, "input_prediction": 2}"#);
    let f = floor(&c, 1, 1);
    assert_eq!(f.input_delay, 3);
}

#[test]
fn a_link_longer_than_the_runway_pushes_the_delay_back_up() {
    let c = caps(r#"{"input_delay": 2, "rollback": true, "input_prediction": 2}"#);
    let f = floor(&c, 400, 400);
    assert!(
        f.input_delay > hosted_rollback_delay(800),
        "delay took the shortfall: {}",
        f.input_delay
    );
    assert_eq!(
        f.input_prediction,
        hosted_rollback_prediction(f.input_delay),
        "the runway is sized for the delay actually being run"
    );
    assert!(f.input_delay + f.input_prediction >= f.needed.min(MAX_DELAY + MAX_PREDICTION));
}

#[test]
fn the_floor_never_escapes_the_launcher_clamps() {
    let c = caps(r#"{"input_delay": 2, "rollback": false}"#);
    let f = floor(&c, 2000, 2000);
    assert!(f.input_delay <= MAX_DELAY);
    assert!(f.input_prediction >= MIN_PREDICTION && f.input_prediction <= MAX_PREDICTION);
}

#[test]
fn a_fifty_hertz_title_needs_fewer_frames_for_the_same_link() {
    let ntsc = frames_for(&frames(DEFAULT_FRAME_MS), 100, 100);
    let pal = frames_for(&frames(20.0), 100, 100);
    assert!(pal < ntsc, "{pal} should be under {ntsc}");
}

#[test]
fn caps_with_floor_leaves_prediction_alone_without_rollback() {
    let c = caps(r#"{"input_delay": 2, "rollback": false}"#);
    let out = caps_with_floor(&c, floor(&c, 120, 120));
    assert_eq!(out.get("input_delay").and_then(|v| v.as_i64()), Some(11));
    assert!(out.get("input_prediction").is_none());
}

#[test]
fn caps_with_floor_keeps_every_other_setting() {
    let c = caps(r#"{"input_delay": 2, "rollback": false, "language": "en", "v": 1}"#);
    let out = caps_with_floor(&c, floor(&c, 40, 40));
    assert_eq!(out.get("language").and_then(|v| v.as_text()).map(|s| s.as_str()), Some("en"));
    assert_eq!(out.get("v").and_then(|v| v.as_i64()), Some(1));
}

#[test]
fn a_reported_rtt_is_clamped_rather_than_trusted() {
    assert_eq!(sanitize_rtt(37), 37);
    assert_eq!(sanitize_rtt(-5), -1);
    assert_eq!(sanitize_rtt(9_999_999), MAX_REPORTED_RTT_MS as i32);
}

#[test]
fn a_measured_pair_that_is_too_far_apart_does_not_pair_yet() {
    let mut q = Queue::default();
    let mut a = ticket("p1", "a1", vec![key("G")]);
    let mut b = ticket("p2", "a2", vec![key("G")]);
    a.rtt_ms = 300;
    b.rtt_ms = 300;
    q.push(a);
    q.push(b);
    assert!(pair(&mut q).is_empty(), "600ms combined is over the opening ceiling");
}

#[test]
fn a_measured_pair_that_is_close_pairs_immediately() {
    let mut q = Queue::default();
    let mut a = ticket("p1", "a1", vec![key("G")]);
    let mut b = ticket("p2", "a2", vec![key("G")]);
    a.rtt_ms = 30;
    b.rtt_ms = 40;
    q.push(a);
    q.push(b);
    assert_eq!(pair(&mut q).len(), 1);
}

#[test]
fn a_distant_pair_matches_once_the_window_has_widened() {
    let mut q = Queue::default();
    let old = (RTT_WIDEN_SECS * RTT_UNLIMITED_AFTER_STEPS + 1) * 1000;
    let mut a = ticket("p1", "a1", vec![key("G")]);
    let mut b = ticket("p2", "a2", vec![key("G")]);
    a.rtt_ms = 300;
    b.rtt_ms = 300;
    a.queued_at = NOW - old;
    b.queued_at = NOW - old;
    q.push(a);
    q.push(b);
    assert_eq!(pair(&mut q).len(), 1);
}

#[test]
fn an_unmeasured_ticket_waits_out_the_grace_before_it_can_pair() {
    let mut q = Queue::default();
    let mut a = ticket("p1", "a1", vec![key("G")]);
    let mut b = ticket("p2", "a2", vec![key("G")]);
    a.rtt_ms = -1;
    b.rtt_ms = -1;
    q.push(a);
    q.push(b);
    assert!(pair(&mut q).is_empty(), "still measuring");
    q.set_rtt("p1", 25);
    q.set_rtt("p2", 25);
    assert_eq!(pair(&mut q).len(), 1);
}

#[test]
fn a_client_that_never_probes_still_gets_a_match() {
    let mut q = Queue::default();
    let past = (PROBE_GRACE_SECS + 1) * 1000;
    for (p_, a_) in [("p1", "a1"), ("p2", "a2")] {
        let mut t = ticket(p_, a_, vec![key("G")]);
        t.rtt_ms = -1;
        t.queued_at = NOW - past;
        q.push(t);
    }
    assert_eq!(pair(&mut q).len(), 1);
}

#[test]
fn a_probe_that_arrives_after_the_ticket_still_counts() {
    let mut q = Queue::default();
    q.push(ticket("p1", "a1", vec![key("G")]));
    assert!(q.set_rtt("p1", 42));
    assert_eq!(q.status_rows(NOW)[0].2, 42);
}

#[test]
fn a_clean_account_has_no_cooldown() {
    assert_eq!(cooldown_secs(&vec![60, 300, 900], 0, None), 0);
}

#[test]
fn the_ladder_escalates_with_each_strike() {
    let one = cooldown_secs(&vec![60, 300, 900], 1, Some(0));
    let two = cooldown_secs(&vec![60, 300, 900], 2, Some(0));
    assert!(one > 0 && two > one, "{one} then {two}");
    assert_eq!((one, two), (60, 300));
    assert_eq!(cooldown_secs(&vec![60, 300, 900], 9, Some(0)), 900);
    assert_eq!(cooldown_secs(&vec![60, 300, 900], 2, Some(100)), 200);
}

#[test]
fn an_empty_ladder_records_the_dodge_and_charges_nothing() {
    assert_eq!(cooldown_secs(&vec![], 1, Some(0)), 0);
}

#[test]
fn a_strike_outside_the_window_no_longer_costs_anything() {
    assert_eq!(cooldown_secs(&vec![60, 300, 900], 1, Some(40 * 3600)), 0);
}

#[test]
fn zero_retention_still_keeps_what_is_being_enforced() {
    assert_eq!(cutoff_secs(0, STRIKE_WINDOW_SECS), STRIKE_WINDOW_SECS);
    assert_eq!(cutoff_secs(0, 300), 300);
}

#[test]
fn a_longer_retention_wins_over_the_functional_window() {
    assert_eq!(cutoff_secs(30, STRIKE_WINDOW_SECS), 30 * 86_400);
    assert_eq!(cutoff_secs(1, 300), 86_400);
}

#[test]
fn a_day_of_retention_is_exactly_the_strike_window() {
    assert_eq!(cutoff_secs(1, STRIKE_WINDOW_SECS), STRIKE_WINDOW_SECS);
}

#[test]
fn an_absurd_retention_does_not_overflow_into_a_short_cutoff() {
    let c = cutoff_secs(u64::MAX, STRIKE_WINDOW_SECS);
    assert!(c >= STRIKE_WINDOW_SECS);
    assert_eq!(c, u64::MAX);
}

#[test]
fn zero_retention_does_not_drop_a_cooldown_that_is_still_running() {
    let (strikes, pairings) = sweep_cutoffs(0, 300);
    assert!(strikes > 2 * 3600, "a 2h-old strike is inside the 24h window");
    assert_eq!(pairings, 300);
}

#[test]
fn a_sweep_that_found_nothing_counts_nothing() {
    assert_eq!(Pruned::default().total(), 0);
    assert_eq!(Pruned { strikes: 1, pairings: 2 }.total(), 3);
}

#[test]
fn a_ticket_that_is_put_back_is_the_ticket_it_was() {
    let mut q = Queue::default();
    q.push(ticket("p_waiting", "a3", vec![key("G")]));
    let mut t = ticket("p_jilted", "a1", vec![key("G"), key("H")]);
    t.queued_at = NOW - 90_000;
    q.requeue_front(t);
    let rows = q.status_rows(NOW);
    assert_eq!((rows[0].0.as_str(), rows[0].1), ("p_jilted", 90), "the wait goes on");
    assert_eq!(rows[0].3.len(), 2);
    assert_eq!((rows[1].0.as_str(), rows[1].1), ("p_waiting", 0));
    assert_eq!(q.ticket_id(0), "t-p_jilted");
}

#[test]
fn pairing_loses_no_ticket_and_keeps_the_order_of_the_rest() {
    let mut q = Queue::default();
    for (p, k) in [("p1", "X"), ("p2", "G"), ("p3", "Y"), ("p4", "G"), ("p5", "Z")] {
        q.push(ticket(p, &format!("a-{p}"), vec![key(k)]));
    }
    let offers = pair(&mut q);
    assert_eq!(offers.len(), 1);
    assert_eq!((offers[0].a.player_id.as_str(), offers[0].b.player_id.as_str()), ("p2", "p4"));
    let left: Vec<String> = q.status_rows(NOW).into_iter().map(|r| r.0).collect();
    assert_eq!(left, vec!["p1".to_string(), "p3".to_string(), "p5".to_string()]);
    assert!(pair(&mut q).is_empty(), "pairing again offers nothing");
}
