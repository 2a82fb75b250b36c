//! The words that messages ask with, and what can be read off what goes out.

use super::model::{seated, LobbyView, SlotView};
use super::wire::EffectView;
use crate::json::JsonView;
use vstd::prelude::*;
use vstd::string::*;

verus! {

/// What tells one word from another: its length and three of its letters.
pub open spec fn stamp(op: Seq<char>) -> (int, char, char, char) {
    (op.len() as int, op[0], op[op.len() as int / 2], op[op.len() - 1])
}

/// No two words are one.
pub proof fn lemma_stamps()
    ensures
        stamp("automatch_accept"@) == (16int, 'a', 'h', 't'),
        stamp("automatch_cancel"@) == (16int, 'a', 'h', 'l'),
        stamp("automatch_queue"@) == (15int, 'a', 'c', 'e'),
        stamp("automatch_rtt"@) == (13int, 'a', 't', 't'),
        stamp("automatch_rulesets"@) == (18int, 'a', '_', 's'),
        stamp("chat"@) == (4int, 'c', 'a', 't'),
        stamp("chat_report"@) == (11int, 'c', 'r', 't'),
        stamp("close"@) == (5int, 'c', 'o', 'e'),
        stamp("create"@) == (6int, 'c', 'a', 'e'),
        stamp("desync_report"@) == (13int, 'd', '_', 't'),
        stamp("get_turn_credentials"@) == (20int, 'g', 'r', 's'),
        stamp("hello"@) == (5int, 'h', 'l', 'o'),
        stamp("join"@) == (4int, 'j', 'i', 'n'),
        stamp("kick"@) == (4int, 'k', 'c', 'k'),
        stamp("leave"@) == (5int, 'l', 'a', 'e'),
        stamp("list"@) == (4int, 'l', 's', 't'),
        stamp("mod_signal"@) == (10int, 'm', 'i', 'l'),
        stamp("mod_xfer_cancel"@) == (15int, 'm', 'r', 'l'),
        stamp("mod_xfer_fail"@) == (13int, 'm', 'e', 'l'),
        stamp("mod_xfer_start"@) == (14int, 'm', 'r', 't'),
        stamp("move"@) == (4int, 'm', 'v', 'e'),
        stamp("path_report"@) == (11int, 'p', 'r', 't'),
        stamp("ping"@) == (4int, 'p', 'n', 'g'),
        stamp("seat_move"@) == (9int, 's', '_', 'e'),
        stamp("seat_swap_answer"@) == (16int, 's', 'p', 'r'),
        stamp("seat_swap_request"@) == (17int, 's', 'p', 't'),
        stamp("server_chat"@) == (11int, 's', 'r', 't'),
        stamp("set_host_endpoint"@) == (17int, 's', '_', 't'),
        stamp("set_match_caps"@) == (14int, 's', 'c', 's'),
        stamp("set_ready"@) == (9int, 's', 'r', 'y'),
        stamp("signal"@) == (6int, 's', 'n', 'l'),
        stamp("start"@) == (5int, 's', 'a', 't'),
{
    reveal_strlit("automatch_accept");
    reveal_strlit("automatch_cancel");
    reveal_strlit("automatch_queue");
    reveal_strlit("automatch_rtt");
    reveal_strlit("automatch_rulesets");
    reveal_strlit("chat");
    reveal_strlit("chat_report");
    reveal_strlit("close");
    reveal_strlit("create");
    reveal_strlit("desync_report");
    reveal_strlit("get_turn_credentials");
    reveal_strlit("hello");
    reveal_strlit("join");
    reveal_strlit("kick");
    reveal_strlit("leave");
    reveal_strlit("list");
    reveal_strlit("mod_signal");
    reveal_strlit("mod_xfer_cancel");
    reveal_strlit("mod_xfer_fail");
    reveal_strlit("mod_xfer_start");
    reveal_strlit("move");
    reveal_strlit("path_report");
    reveal_strlit("ping");
    reveal_strlit("seat_move");
    reveal_strlit("seat_swap_answer");
    reveal_strlit("seat_swap_request");
    reveal_strlit("server_chat");
    reveal_strlit("set_host_endpoint");
    reveal_strlit("set_match_caps");
    reveal_strlit("set_ready");
    reveal_strlit("signal");
    reveal_strlit("start");
}

/// No two keys of what goes out are one.
pub proof fn lemma_keys()
    ensures
        stamp("memcard_offer"@) == (13int, 'm', 'd', 'r'),
        stamp("mod_offer"@) == (9int, 'm', 'o', 'r'),
        stamp("accept"@) == (6int, 'a', 'e', 't'),
        stamp("accept_secs"@) == (11int, 'a', 't', 's'),
        stamp("account"@) == (7int, 'a', 'o', 't'),
        stamp("all_ready"@) == (9int, 'a', 'r', 'y'),
        stamp("allow_spectators"@) == (16int, 'a', 'e', 's'),
        stamp("asker_name"@) == (10int, 'a', '_', 'e'),
        stamp("asker_player_id"@) == (15int, 'a', 'l', 'd'),
        stamp("automatch"@) == (9int, 'a', 'm', 'h'),
        stamp("avatar"@) == (6int, 'a', 't', 'r'),
        stamp("bios_offer"@) == (10int, 'b', 'o', 'r'),
        stamp("can_transfer"@) == (12int, 'c', 'a', 'r'),
        stamp("caps_summary"@) == (12int, 'c', 'u', 'y'),
        stamp("code"@) == (4int, 'c', 'd', 'e'),
        stamp("cooldown_secs"@) == (13int, 'c', 'w', 's'),
        stamp("country"@) == (7int, 'c', 'n', 'y'),
        stamp("detail"@) == (6int, 'd', 'a', 'l'),
        stamp("discord_username"@) == (16int, 'd', 'u', 'e'),
        stamp("display_name"@) == (12int, 'd', 'y', 'e'),
        stamp("endpoint"@) == (8int, 'e', 'o', 't'),
        stamp("error"@) == (5int, 'e', 'r', 'r'),
        stamp("est_rtt_ms"@) == (10int, 'e', 't', 's'),
        stamp("flag"@) == (4int, 'f', 'a', 'g'),
        stamp("frames_needed"@) == (13int, 'f', '_', 'd'),
        stamp("from"@) == (4int, 'f', 'o', 'm'),
        stamp("from_account"@) == (12int, 'f', 'c', 't'),
        stamp("from_player_id"@) == (14int, 'f', 'a', 'd'),
        stamp("from_slot"@) == (9int, 'f', '_', 't'),
        stamp("game_name"@) == (9int, 'g', '_', 'e'),
        stamp("game_version"@) == (12int, 'g', 'e', 'n'),
        stamp("guest_endpoint"@) == (14int, 'g', 'n', 't'),
        stamp("handle"@) == (6int, 'h', 'd', 'e'),
        stamp("has_password"@) == (12int, 'h', 's', 'd'),
        stamp("host_country"@) == (12int, 'h', 'o', 'y'),
        stamp("host_endpoint"@) == (13int, 'h', 'n', 't'),
        stamp("host_player_id"@) == (14int, 'h', 'a', 'd'),
        stamp("host_spectates"@) == (14int, 'h', 'e', 's'),
        stamp("hosting"@) == (7int, 'h', 't', 'g'),
        stamp("id"@) == (2int, 'i', 'd', 'd'),
        stamp("input_delay"@) == (11int, 'i', '_', 'y'),
        stamp("input_prediction"@) == (16int, 'i', 'e', 'n'),
        stamp("label"@) == (5int, 'l', 'b', 'l'),
        stamp("lan_endpoints"@) == (13int, 'l', 'd', 's'),
        stamp("lobbies"@) == (7int, 'l', 'b', 's'),
        stamp("lobby_id"@) == (8int, 'l', 'y', 'd'),
        stamp("lobby_kind"@) == (10int, 'l', '_', 'd'),
        stamp("lobby_name"@) == (10int, 'l', '_', 'e'),
        stamp("local_slot"@) == (10int, 'l', '_', 't'),
        stamp("magic"@) == (5int, 'm', 'g', 'c'),
        stamp("match_caps"@) == (10int, 'm', '_', 's'),
        stamp("match_id"@) == (8int, 'm', 'h', 'd'),
        stamp("max_slots"@) == (9int, 'm', 's', 's'),
        stamp("max_spectators"@) == (14int, 'm', 'c', 's'),
        stamp("mid"@) == (3int, 'm', 'i', 'd'),
        stamp("mod"@) == (3int, 'm', 'o', 'd'),
        stamp("mods"@) == (4int, 'm', 'd', 's'),
        stamp("name"@) == (4int, 'n', 'm', 'e'),
        stamp("ok"@) == (2int, 'o', 'k', 'k'),
        stamp("op"@) == (2int, 'o', 'p', 'p'),
        stamp("opponent"@) == (8int, 'o', 'n', 't'),
        stamp("password"@) == (8int, 'p', 'w', 'd'),
        stamp("path"@) == (4int, 'p', 't', 'h'),
        stamp("player_count"@) == (12int, 'p', '_', 't'),
        stamp("player_id"@) == (9int, 'p', 'e', 'd'),
        stamp("players"@) == (7int, 'p', 'y', 's'),
        stamp("pool"@) == (4int, 'p', 'o', 'l'),
        stamp("probe"@) == (5int, 'p', 'o', 'e'),
        stamp("queued"@) == (6int, 'q', 'u', 'd'),
        stamp("queued_secs"@) == (11int, 'q', 'd', 's'),
        stamp("ready"@) == (5int, 'r', 'a', 'y'),
        stamp("realm"@) == (5int, 'r', 'a', 'm'),
        stamp("reason"@) == (6int, 'r', 's', 'n'),
        stamp("relay_endpoint"@) == (14int, 'r', 'n', 't'),
        stamp("retry_secs"@) == (10int, 'r', '_', 's'),
        stamp("rtt_ms"@) == (6int, 'r', '_', 's'),
        stamp("ruleset_id"@) == (10int, 'r', 'e', 'd'),
        stamp("ruleset_label"@) == (13int, 'r', 't', 'l'),
        stamp("rulesets"@) == (8int, 'r', 's', 's'),
        stamp("session_id"@) == (10int, 's', 'o', 'd'),
        stamp("slot"@) == (4int, 's', 'o', 't'),
        stamp("slots"@) == (5int, 's', 'o', 's'),
        stamp("spectator"@) == (9int, 's', 't', 'r'),
        stamp("spectator_count"@) == (15int, 's', 'o', 't'),
        stamp("spectator_relay_base"@) == (20int, 's', 'r', 'e'),
        stamp("spectator_slot_base"@) == (19int, 's', '_', 'e'),
        stamp("spectators"@) == (10int, 's', 'a', 's'),
        stamp("stun_host"@) == (9int, 's', '_', 't'),
        stamp("stun_port"@) == (9int, 's', '_', 't'),
        stamp("system"@) == (6int, 's', 't', 'm'),
        stamp("tag"@) == (3int, 't', 'a', 'g'),
        stamp("target_slot"@) == (11int, 't', 't', 't'),
        stamp("text"@) == (4int, 't', 'x', 't'),
        stamp("ticket_id"@) == (9int, 't', 'e', 'd'),
        stamp("titles"@) == (6int, 't', 'l', 's'),
        stamp("transport"@) == (9int, 't', 's', 't'),
        stamp("ttl_secs"@) == (8int, 't', 's', 's'),
        stamp("turn_host"@) == (9int, 't', '_', 't'),
        stamp("turn_port"@) == (9int, 't', '_', 't'),
        stamp("turns_port"@) == (10int, 't', '_', 't'),
        stamp("type"@) == (4int, 't', 'p', 'e'),
        stamp("username"@) == (8int, 'u', 'n', 'e'),
{
    reveal_strlit("memcard_offer");
    reveal_strlit("mod_offer");
    reveal_strlit("accept");
    reveal_strlit("accept_secs");
    reveal_strlit("account");
    reveal_strlit("all_ready");
    reveal_strlit("allow_spectators");
    reveal_strlit("asker_name");
    reveal_strlit("asker_player_id");
    reveal_strlit("automatch");
    reveal_strlit("avatar");
    reveal_strlit("bios_offer");
    reveal_strlit("can_transfer");
    reveal_strlit("caps_summary");
    reveal_strlit("code");
    reveal_strlit("cooldown_secs");
    reveal_strlit("country");
    reveal_strlit("detail");
    reveal_strlit("discord_username");
    reveal_strlit("display_name");
    reveal_strlit("endpoint");
    reveal_strlit("error");
    reveal_strlit("est_rtt_ms");
    reveal_strlit("flag");
    reveal_strlit("frames_needed");
    reveal_strlit("from");
    reveal_strlit("from_account");
    reveal_strlit("from_player_id");
    reveal_strlit("from_slot");
    reveal_strlit("game_name");
    reveal_strlit("game_version");
    reveal_strlit("guest_endpoint");
    reveal_strlit("handle");
    reveal_strlit("has_password");
    reveal_strlit("host_country");
    reveal_strlit("host_endpoint");
    reveal_strlit("host_player_id");
    reveal_strlit("host_spectates");
    reveal_strlit("hosting");
    reveal_strlit("id");
    reveal_strlit("input_delay");
    reveal_strlit("input_prediction");
    reveal_strlit("label");
    reveal_strlit("lan_endpoints");
    reveal_strlit("lobbies");
    reveal_strlit("lobby_id");
    reveal_strlit("lobby_kind");
    reveal_strlit("lobby_name");
    reveal_strlit("local_slot");
    reveal_strlit("magic");
    reveal_strlit("match_caps");
    reveal_strlit("match_id");
    reveal_strlit("max_slots");
    reveal_strlit("max_spectators");
    reveal_strlit("mid");
    reveal_strlit("mod");
    reveal_strlit("mods");
    reveal_strlit("name");
    reveal_strlit("ok");
    reveal_strlit("op");
    reveal_strlit("opponent");
    reveal_strlit("password");
    reveal_strlit("path");
    reveal_strlit("player_count");
    reveal_strlit("player_id");
    reveal_strlit("players");
    reveal_strlit("pool");
    reveal_strlit("probe");
    reveal_strlit("queued");
    reveal_strlit("queued_secs");
    reveal_strlit("ready");
    reveal_strlit("realm");
    reveal_strlit("reason");
    reveal_strlit("relay_endpoint");
    reveal_strlit("retry_secs");
    reveal_strlit("rtt_ms");
    reveal_strlit("ruleset_id");
    reveal_strlit("ruleset_label");
    reveal_strlit("rulesets");
    reveal_strlit("session_id");
    reveal_strlit("slot");
    reveal_strlit("slots");
    reveal_strlit("spectator");
    reveal_strlit("spectator_count");
    reveal_strlit("spectator_relay_base");
    reveal_strlit("spectator_slot_base");
    reveal_strlit("spectators");
    reveal_strlit("stun_host");
    reveal_strlit("stun_port");
    reveal_strlit("system");
    reveal_strlit("tag");
    reveal_strlit("target_slot");
    reveal_strlit("text");
    reveal_strlit("ticket_id");
    reveal_strlit("titles");
    reveal_strlit("transport");
    reveal_strlit("ttl_secs");
    reveal_strlit("turn_host");
    reveal_strlit("turn_port");
    reveal_strlit("turns_port");
    reveal_strlit("type");
    reveal_strlit("username");
}

// ------------------------------------------------------------ what goes out

/// Whether a connection is sent something.
pub open spec fn hears(out: Seq<EffectView>, p: Seq<char>) -> bool {
    exists|i: int| 0 <= i < out.len() && (#[trigger] out[i]) is Send && out[i]->Send_to == p
}

/// Whether a connection is sent a message with this under `op`.
pub open spec fn hears_op(out: Seq<EffectView>, p: Seq<char>, op: Seq<char>) -> bool {
    exists|i: int|
        0 <= i < out.len() && (#[trigger] out[i]) is Send && out[i]->Send_to == p && out[i]->Send_msg.get(
            "op"@,
        ) == Some(JsonView::Str(op))
}

/// Whether someone sits in a player seat of a room.
pub open spec fn plays(l: LobbyView, p: Seq<char>) -> bool {
    exists|k: int|
        0 <= k < l.slots.len() && (#[trigger] l.slots[k]) is Some && l.slots[k]->0.player_id == p
}

/// Whether someone sits in the gallery of a room.
pub open spec fn watches(l: LobbyView, p: Seq<char>) -> bool {
    exists|k: int|
        0 <= k < l.spectators.len() && (#[trigger] l.spectators[k]) is Some
            && l.spectators[k]->0.player_id == p
}

/// Whether someone sits in a room.
pub open spec fn in_room(l: LobbyView, p: Seq<char>) -> bool {
    plays(l, p) || watches(l, p)
}

/// A key that was set reads as what was set; every other key reads as before.
pub broadcast proof fn lemma_with_read(o: JsonView, key: Seq<char>, value: JsonView, other: Seq<char>)
    requires
        o is Obj,
    ensures
        (#[trigger] o.with(key, value).get(other)) == (if other == key {
            Some(value)
        } else {
            o.get(other)
        }),
{
    crate::json::lemma_with_get(o, key, value);
    if other != key {
        crate::json::lemma_with_other(o, key, value, other);
    }
}

/// The seated are those whose seat is taken, each once for a seat.
pub proof fn lemma_seated_is(s: Seq<Option<SlotView>>, p: Seq<char>)
    ensures
        (exists|i: int| 0 <= i < seated(s).len() && (#[trigger] seated(s)[i]).player_id == p) == (
        exists|k: int| 0 <= k < s.len() && (#[trigger] s[k]) is Some && s[k]->0.player_id == p),
    decreases s.len(),
{
    if s.len() > 0 {
        let t = s.drop_last();
        lemma_seated_is(t, p);
        if exists|k: int| 0 <= k < s.len() && (#[trigger] s[k]) is Some && s[k]->0.player_id == p {
            let k = choose|k: int|
                0 <= k < s.len() && (#[trigger] s[k]) is Some && s[k]->0.player_id == p;
            if k < t.len() {
                assert(t[k] is Some);
                let i = choose|i: int| 0 <= i < seated(t).len() && (#[trigger] seated(t)[i]).player_id == p;
                assert(seated(s)[i] == seated(t)[i]);
            } else {
                assert(seated(s)[seated(t).len() as int].player_id == p);
            }
        }
        if exists|i: int| 0 <= i < seated(s).len() && (#[trigger] seated(s)[i]).player_id == p {
            let i = choose|i: int| 0 <= i < seated(s).len() && (#[trigger] seated(s)[i]).player_id == p;
            if i < seated(t).len() {
                assert(seated(t)[i].player_id == p);
                let k = choose|k: int|
                    0 <= k < t.len() && (#[trigger] t[k]) is Some && t[k]->0.player_id == p;
                assert(s[k] is Some);
            } else {
                assert(s[s.len() - 1] is Some);
            }
        }
    }
}

/// Everyone is whoever sits in a room.
pub proof fn lemma_everyone_is(l: LobbyView, p: Seq<char>)
    ensures
        (exists|i: int| 0 <= i < l.everyone().len() && (#[trigger] l.everyone()[i]).player_id == p)
            == in_room(l, p),
{
    lemma_seated_is(l.slots, p);
    lemma_seated_is(l.spectators, p);
    let a = seated(l.slots);
    let b = seated(l.spectators);
    if plays(l, p) {
        let i = choose|i: int| 0 <= i < a.len() && (#[trigger] a[i]).player_id == p;
        assert(l.everyone()[i].player_id == p);
    }
    if watches(l, p) {
        let i = choose|i: int| 0 <= i < b.len() && (#[trigger] b[i]).player_id == p;
        assert(l.everyone()[a.len() + i].player_id == p);
    }
    if exists|i: int| 0 <= i < l.everyone().len() && (#[trigger] l.everyone()[i]).player_id == p {
        let i = choose|i: int| 0 <= i < l.everyone().len() && (#[trigger] l.everyone()[i]).player_id == p;
        if i < a.len() {
            assert(a[i].player_id == p);
        } else {
            assert(b[i - a.len()].player_id == p);
        }
    }
}

} // verus!
