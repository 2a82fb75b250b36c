//! Which message does what, and who may send it.

use super::chat::{
    chat_step, desync_step, hello_step, list_step, report_step, server_chat_step, Login,
};
use super::dispatch::{
    dispatch, gated, match_op, mod_signal_step, room_op, seat_op, talk_op, Given, LobbyState,
    World,
};
use super::entries::lemma_renamed_keeps;
use super::input::{disc_fingerprint, text_or_empty, version_of, InMsg, PASSWORD_MAX_BYTES};
use super::join::{create_step, join_step};
use super::matching::{cancel_step, queue_step, rtt_step};
use super::model::{HubView, LobbyView, SlotView};
use super::moves::{hears_no, lemma_refused};
use super::ops::{hears_op, lemma_keys, lemma_stamps, lemma_with_read};
use super::outcomes::{lemma_taken, taken};
use super::seats::{
    destroy_step, hosted, kick_step, leave_step, path_report_step, set_match_caps_step,
    set_ready_step,
};
use super::signals::{turn_step, xfer_fail_step, xfer_start_step};
use super::wire::{counted, refusal, EventView};
use crate::automatch::queue::{account_queued, QueueView};
use crate::automatch::rulesets::RulesetView;
use crate::chat_filter::masked;
use crate::config::ConfigView;
use crate::input_relay::RelayView;
use crate::json::{opt_json, JsonView};
use crate::names::sanitized;
use crate::outside::sha256_of;
use crate::text::{byte_len, is_control, opt_view};
use vstd::prelude::*;
use vstd::string::*;
use vstd::utf8::encode_utf8;

verus! {

/// Whether a message asks to talk.
pub open spec fn talks(msg: InMsg) -> bool {
    msg.op@ == "chat"@ || msg.op@ == "server_chat"@
}

/// Whether the sender of a message is a guest.
pub open spec fn is_guest(s: LobbyState, id: Seq<char>) -> bool {
    s.hub.client(id) is Some && s.hub.client(id)->0.account is None
}

/// A guest that may not talk, host or sit down is told that it takes an account,
/// and nothing happens: talking and hosting by their switches, and all three
/// where an account is required.
pub proof fn law_guests_are_held_to_the_switches(
    s: LobbyState,
    w: World,
    id: Seq<char>,
    peer_ip: Seq<char>,
    msg: InMsg,
    login: Login,
    g: Given,
    ids: Seq<Seq<char>>,
)
    requires
        is_guest(s, id),
        (talks(msg) && (w.config.discord_required || !w.config.guest_can_chat)) || (msg.op@
            == "create"@ && (w.config.discord_required || !w.config.guest_can_host)) || (msg.op@
            == "join"@ && w.config.discord_required),
    ensures
        ({
            let o = dispatch(s, w, id, peer_ip, msg, login, g, ids);
            o.state == s && hears_no(o.out, id, "need_account"@)
        }),
{
    lemma_stamps();
    lemma_refused(id, "need_account"@);
}

/// Whether a message is open to its sender: nobody with an account is held up,
/// and a guest is not where the switches allow it.
pub open spec fn open_to(s: LobbyState, w: World, id: Seq<char>, msg: InMsg) -> bool {
    ||| !is_guest(s, id)
    ||| !w.config.discord_required && w.config.guest_can_chat && w.config.guest_can_host
    ||| !talks(msg) && msg.op@ != "create"@ && msg.op@ != "join"@
}

proof fn lemma_open(
    s: LobbyState,
    w: World,
    id: Seq<char>,
    peer_ip: Seq<char>,
    msg: InMsg,
    login: Login,
    g: Given,
    ids: Seq<Seq<char>>,
)
    requires
        open_to(s, w, id, msg),
        msg.op@ != "hello"@,
    ensures
        ({
            let o = dispatch(s, w, id, peer_ip, msg, login, g, ids);
            let room = room_op(s, w, id, peer_ip, msg, g);
            let seat = seat_op(s, id, msg);
            let talk = talk_op(s, w, id, msg, g);
            let play = match_op(s, w, id, msg, g, ids);
            &&& room is Some ==> o == room->0
            &&& room is None && seat is Some ==> o == seat->0
            &&& room is None && seat is None && talk is Some ==> o == talk->0
            &&& room is None && seat is None && talk is None && play is Some ==> o == play->0
        }),
{
}

/// Each message about a room does what its word says, in the sender's name.
pub proof fn law_room_messages_do_their_own(
    s: LobbyState,
    w: World,
    id: Seq<char>,
    peer_ip: Seq<char>,
    msg: InMsg,
    login: Login,
    g: Given,
    ids: Seq<Seq<char>>,
)
    requires
        open_to(s, w, id, msg),
    ensures
        ({
            let o = dispatch(s, w, id, peer_ip, msg, login, g, ids);
            let done = (o.state.hub, o.out);
            let op = msg.op@;
            &&& op == "list"@ ==> done == list_step(
                s.hub,
                id,
                opt_view(msg.game_name),
                opt_view(msg.game_version),
            )
            &&& op == "ping"@ ==> o.state == s && hears_op(o.out, id, "pong"@)
            &&& op == "create"@ ==> done == create_step(
                s.hub,
                id,
                peer_ip,
                msg,
                g.lobby_id@,
                g.salt@,
            )
            &&& op == "set_match_caps"@ ==> done == set_match_caps_step(
                s.hub,
                id,
                opt_json(msg.match_caps),
            )
            &&& op == "path_report"@ ==> done == path_report_step(
                s.hub,
                id,
                opt_view(msg.path),
                g.now,
            )
            &&& op == "leave"@ ==> o.state.hub == leave_step(s.hub, id).0 && hears_op(
                o.out,
                id,
                "left"@,
            )
            &&& op == "close"@ && hosted(s.hub, id) is Ok ==> done == destroy_step(
                s.hub,
                hosted(s.hub, id)->Ok_0,
            )
            &&& op == "close"@ && hosted(s.hub, id) is Err ==> o.state == s
        }),
{
    broadcast use lemma_with_read;

    lemma_stamps();
    lemma_keys();
    let o = dispatch(s, w, id, peer_ip, msg, login, g, ids);
    let op = msg.op@;
    if op == "list"@ || op == "ping"@ || op == "create"@ || op == "set_match_caps"@ || op
        == "path_report"@ || op == "leave"@ || op == "close"@ {
        assert(op != "hello"@);
        lemma_open(s, w, id, peer_ip, msg, login, g, ids);
        assert(room_op(s, w, id, peer_ip, msg, g) is Some);
        if op == "ping"@ {
            assert(o.out[0] is Send);
        }
        if op == "leave"@ {
            assert(o.out[o.out.len() - 1] is Send);
            assert(o.out[o.out.len() - 1]->Send_to == id);
            assert(o.out[o.out.len() - 1]->Send_msg.get("op"@) == Some(JsonView::Str("left"@)));
        }
    }
}

/// Who says to be ready, or says nothing of it, is ready; who says not to be is
/// not.
pub proof fn law_ready_is_meant_unless_denied(
    s: LobbyState,
    w: World,
    id: Seq<char>,
    peer_ip: Seq<char>,
    msg: InMsg,
    login: Login,
    g: Given,
    ids: Seq<Seq<char>>,
)
    requires
        msg.op@ == "set_ready"@,
        msg.bios_offer is None,
        msg.mod_offer is None,
        msg.memcard_offer is None,
    ensures
        ({
            let o = dispatch(s, w, id, peer_ip, msg, login, g, ids);
            let said = msg.ready is None || msg.ready == Some(true);
            (o.state.hub, o.out) == set_ready_step(s.hub, id, said, None, None, None)
        }),
{
    lemma_ready_op(s, w, id, peer_ip, msg, g);
    lemma_ready_word(msg);
    assert(open_to(s, w, id, msg));
    lemma_open(s, w, id, peer_ip, msg, login, g, ids);
}

proof fn lemma_ready_word(msg: InMsg)
    requires
        msg.op@ == "set_ready"@,
    ensures
        msg.op@ != "hello"@,
        !talks(msg) && msg.op@ != "create"@ && msg.op@ != "join"@,
{
    lemma_stamps();
}

proof fn lemma_ready_op(
    s: LobbyState,
    w: World,
    id: Seq<char>,
    peer_ip: Seq<char>,
    msg: InMsg,
    g: Given,
)
    requires
        msg.op@ == "set_ready"@,
        msg.bios_offer is None,
        msg.mod_offer is None,
        msg.memcard_offer is None,
    ensures
        room_op(s, w, id, peer_ip, msg, g) == Some(
            super::dispatch::in_hub(
                s,
                set_ready_step(
                    s.hub,
                    id,
                    msg.ready is None || msg.ready == Some(true),
                    None,
                    None,
                    None,
                ),
            ),
        ),
{
    lemma_stamps();
    let said = msg.ready is None || msg.ready == Some(true);
    match msg.ready {
        Some(b) => {
            if b {
                assert(msg.ready == Some(true));
            } else {
                assert(msg.ready == Some(false));
            }
        },
        None => {},
    }
    assert((msg.ready != Some(false)) == said);
    assert(opt_json(msg.bios_offer) is None);
    assert(opt_json(msg.mod_offer) is None);
    assert(opt_json(msg.memcard_offer) is None);
}

/// A kick without a seat makes no sense; one with a seat is the sender's kick.
pub proof fn law_a_kick_names_a_seat(
    s: LobbyState,
    w: World,
    id: Seq<char>,
    peer_ip: Seq<char>,
    msg: InMsg,
    login: Login,
    g: Given,
    ids: Seq<Seq<char>>,
)
    requires
        msg.op@ == "kick"@,
    ensures
        ({
            let o = dispatch(s, w, id, peer_ip, msg, login, g, ids);
            &&& msg.slot is None ==> o.state == s && o.out.len() == 0 && o.error is Some
            &&& msg.slot is Some ==> (o.state.hub, o.out) == kick_step(s.hub, id, msg.slot->0 as int)
        }),
{
    lemma_stamps();
    assert(open_to(s, w, id, msg));
    lemma_open(s, w, id, peer_ip, msg, login, g, ids);
    assert(room_op(s, w, id, peer_ip, msg, g) is None);
}

/// Each message that passes something on, or writes it down, does what its word
/// says, in the sender's name.
pub proof fn law_talk_messages_do_their_own(
    s: LobbyState,
    w: World,
    id: Seq<char>,
    peer_ip: Seq<char>,
    msg: InMsg,
    login: Login,
    g: Given,
    ids: Seq<Seq<char>>,
)
    requires
        open_to(s, w, id, msg),
    ensures
        ({
            let o = dispatch(s, w, id, peer_ip, msg, login, g, ids);
            let done = (o.state.hub, o.out);
            let op = msg.op@;
            &&& op == "chat"@ ==> done == chat_step(s.hub, w.filter, id, text_or_empty(msg.text))
            &&& op == "server_chat"@ ==> done == server_chat_step(
                s.hub,
                w.filter,
                id,
                text_or_empty(msg.text),
                opt_view(msg.game_name),
            )
            &&& op == "mod_signal"@ ==> o == mod_signal_step(s, id, msg)
            &&& op == "mod_xfer_start"@ ==> o.state == s && o.out == xfer_start_step(
                s.hub,
                id,
                text_or_empty(msg.lobby_id),
            )
            &&& op == "mod_xfer_fail"@ ==> o.state == s && o.out == xfer_fail_step(
                s.hub,
                id,
                text_or_empty(msg.to_player_id),
                opt_view(msg.error),
            )
            &&& op == "get_turn_credentials"@ ==> o.state == s && o.out == turn_step(
                id,
                w.turn,
                g.clock as int,
            )
            &&& op == "desync_report"@ ==> o.state == s && o.out == desync_step(s.hub, id, msg)
            &&& op == "chat_report"@ ==> o.state == s && o.out == report_step(s.hub, id, msg)
        }),
{
    lemma_stamps();
    let op = msg.op@;
    if op == "chat"@ || op == "server_chat"@ || op == "mod_signal"@ || op == "mod_xfer_start"@ || op
        == "mod_xfer_fail"@ || op == "get_turn_credentials"@ || op == "desync_report"@ || op
        == "chat_report"@ {
        assert(op != "hello"@);
        lemma_open(s, w, id, peer_ip, msg, login, g, ids);
        assert(room_op(s, w, id, peer_ip, msg, g) is None);
        assert(seat_op(s, id, msg) is None);
        assert(talk_op(s, w, id, msg, g) is Some);
    }
}

/// Giving up a transfer is the end of the sender's own wait, and of nobody
/// else's.
pub proof fn law_giving_up_ends_ones_own_wait(
    s: LobbyState,
    w: World,
    id: Seq<char>,
    peer_ip: Seq<char>,
    msg: InMsg,
    login: Login,
    g: Given,
    ids: Seq<Seq<char>>,
)
    requires
        msg.op@ == "mod_xfer_cancel"@,
        s.hub.client(id) is Some,
    ensures
        ({
            let o = dispatch(s, w, id, peer_ip, msg, login, g, ids);
            &&& o.state.hub.client(id) is Some
            &&& o.state.hub.client(id)->0.pending_mod_lobby is None
            &&& o.state.hub.client(id)->0.lobby_id == s.hub.client(id)->0.lobby_id
            &&& o.state.hub.lobbies == s.hub.lobbies
            &&& forall|p: Seq<char>|
                p != id ==> #[trigger] o.state.hub.client(p) == s.hub.client(p)
        }),
{
    lemma_stamps();
    assert(open_to(s, w, id, msg));
    lemma_open(s, w, id, peer_ip, msg, login, g, ids);
    assert(room_op(s, w, id, peer_ip, msg, g) is None);
    assert(seat_op(s, id, msg) is None);
    let c = s.hub.client(id)->0;
    crate::find::lemma_first_where(
        s.hub.clients,
        |c: super::model::ClientView| c.player_id == id,
    );
    super::roster::lemma_with_client(
        s.hub,
        id,
        super::model::ClientView { pending_mod_lobby: None, ..c },
    );
}

/// A hello is heard from everyone; a ticket is given up and a round trip reported
/// in the sender's name.
pub proof fn law_hellos_and_tickets_do_their_own(
    s: LobbyState,
    w: World,
    id: Seq<char>,
    peer_ip: Seq<char>,
    msg: InMsg,
    login: Login,
    g: Given,
    ids: Seq<Seq<char>>,
)
    ensures
        ({
            let o = dispatch(s, w, id, peer_ip, msg, login, g, ids);
            let op = msg.op@;
            &&& op == "hello"@ ==> (o.state.hub, o.out) == hello_step(
                s.hub,
                id,
                msg,
                login,
                g.tag@,
            )
            &&& op == "automatch_cancel"@ ==> o.state.hub == s.hub && (o.state.queue, o.out)
                == cancel_step(s.hub, s.queue, id)
            &&& op == "automatch_rtt"@ ==> (o.state.hub, o.state.queue, o.out) == rtt_step(
                s.hub,
                s.queue,
                id,
                msg.rtt_ms,
            )
        }),
{
    lemma_stamps();
    let op = msg.op@;
    if op == "automatch_cancel"@ || op == "automatch_rtt"@ {
        assert(op != "hello"@);
        assert(open_to(s, w, id, msg));
        lemma_open(s, w, id, peer_ip, msg, login, g, ids);
        assert(room_op(s, w, id, peer_ip, msg, g) is None);
        assert(seat_op(s, id, msg) is None);
        assert(talk_op(s, w, id, msg, g) is None);
        assert(match_op(s, w, id, msg, g, ids) is Some);
    }
}

/// A message is held up for a name that the word list stars, the sender's before
/// the room's, and for a password with a control character or too many bytes, and
/// for nothing else.
pub proof fn law_messages_are_held_up_for_cause(w: World, msg: InMsg)
    ensures
        ({
            let name = sanitized(opt_view(msg.display_name));
            let room = sanitized(opt_view(msg.name));
            let pw = opt_view(msg.password);
            let bad_name = name is Some && masked(w.filter, name->0) != name->0;
            let bad_room = room is Some && masked(w.filter, room->0) != room->0;
            let bad_pw = pw is Some && (byte_len(pw->0) > PASSWORD_MAX_BYTES || exists|i: int|
                0 <= i < pw->0.len() && is_control(#[trigger] pw->0[i]));
            &&& bad_name ==> gated(w, msg) == Some("name_rejected"@)
            &&& !bad_name && bad_room ==> gated(w, msg) == Some("lobby_name_rejected"@)
            &&& !bad_name && !bad_room && bad_pw ==> gated(w, msg) == Some("password_invalid"@)
            &&& !bad_name && !bad_room && !bad_pw ==> gated(w, msg) is None
        }),
{
}

/// Why a room that is there does not take a join: another disc, another game,
/// another version, in this order.
pub open spec fn misfit(l: LobbyView, msg: InMsg) -> Option<Seq<char>> {
    let disc = disc_fingerprint(opt_view(msg.disc_fp));
    let game = opt_view(msg.game_name);
    if l.disc_fp != disc {
        Some("disc_mismatch"@)
    } else if game is Some && game->0.len() > 0 && game->0 != l.game_name {
        Some("game_mismatch"@)
    } else if version_of(opt_view(msg.game_version)) != l.game_version {
        Some("version_mismatch"@)
    } else {
        None
    }
}

/// Whether a room has a password.
pub open spec fn locked(l: LobbyView) -> bool {
    l.password_hash is Some && l.password_salt is Some
}

/// Who cannot sit down is told why, and no room changes: one that sits already,
/// one whose room is not there, one with another build, one without the password
/// or with another, and one for whom a room without required mods has no seat.
pub proof fn law_a_refused_join_says_why(
    h: HubView,
    id: Seq<char>,
    peer_ip: Seq<char>,
    msg: InMsg,
    lid: Seq<char>,
    tag: Seq<char>,
)
    requires
        h.client(id) is Some,
    ensures
        ({
            let (h2, out) = join_step(h, id, peer_ip, msg, lid, tag);
            let sits = h.client(id)->0.lobby_id is Some;
            let l = h.lobby(lid);
            &&& sits ==> h2 == h && hears_no(out, id, "already_in_lobby"@)
            &&& !sits && l is None ==> h2.lobbies == h.lobbies && hears_no(out, id, "gone"@)
            &&& !sits && l is Some && misfit(l->0, msg) is Some ==> h2.lobbies == h.lobbies
                && hears_no(out, id, misfit(l->0, msg)->0)
            &&& !sits && l is Some && misfit(l->0, msg) is None && locked(l->0) && (msg.password
                is None || msg.password->0@.len() == 0) ==> h2.lobbies == h.lobbies && hears_no(
                out,
                id,
                "need_password"@,
            )
            &&& !sits && l is Some && misfit(l->0, msg) is None && locked(l->0) && msg.password
                is Some && msg.password->0@.len() > 0 && sha256_of(
                l->0.password_salt->0 + encode_utf8(msg.password->0@),
            ) != l->0.password_hash->0 ==> h2.lobbies == h.lobbies && hears_no(
                out,
                id,
                "bad_password"@,
            )
            &&& !sits && l is Some && misfit(l->0, msg) is None && !locked(l->0)
                && l->0.match_caps is None && taken(l->0.slots) >= l->0.max_slots && (forall|i: int|
                0 <= i < l->0.spectators.len() ==> (#[trigger] l->0.spectators[i]) is Some)
                ==> h2.lobbies == h.lobbies && hears_no(out, id, "full"@)
        }),
{
    lemma_refused(id, "already_in_lobby"@);
    let name = super::input::nonempty(opt_view(msg.display_name));
    lemma_renamed_keeps(h, id, name);
    let h1 = h.renamed(id, name);
    let l = h.lobby(lid);
    let (h2, out) = join_step(h, id, peer_ip, msg, lid, tag);
    if h.client(id)->0.lobby_id is None {
        assert(h1.lobby(lid) == l);
        if l is None {
            lemma_told_no(id, "gone"@);
        } else if misfit(l->0, msg) is Some {
            lemma_told_no(id, misfit(l->0, msg)->0);
            let disc = disc_fingerprint(opt_view(msg.disc_fp));
            if l->0.disc_fp.len() == 0 && disc.len() == 0 {
                assert(l->0.disc_fp =~= disc);
            }
            assert(super::join::build_mismatch(
                l->0,
                super::input::nonempty(opt_view(msg.game_name)),
                version_of(opt_view(msg.game_version)),
                disc_fingerprint(opt_view(msg.disc_fp)),
            ) == misfit(l->0, msg));
        } else {
            lemma_told_no(id, "full"@);
            lemma_told_no(id, "need_password"@);
            lemma_told_no(id, "bad_password"@);
            lemma_taken(l->0.slots);
            crate::find::lemma_first_where(l->0.spectators, |o: Option<SlotView>| o is None);
            if l->0.match_caps is None {
                assert(super::join::required_mods(l->0.match_caps) =~= Seq::<JsonView>::empty());
            }
        }
    }
}

proof fn lemma_told_no(id: Seq<char>, code: Seq<char>)
    ensures
        hears_no(counted(EventView::JoinFail(code)) + refusal(id, code), id, code),
{
    lemma_refused(id, code);
    let out = counted(EventView::JoinFail(code)) + refusal(id, code);
    assert(out[1] == refusal(id, code)[0]);
    assert(out[1] is Send);
}

/// Who may not queue is told why, and the queue stays: without rulesets nobody
/// queues, and it takes an account, no room, no ticket or offer yet, and no mods.
pub proof fn law_a_refused_ticket_says_why(
    h: HubView,
    q: QueueView,
    rules: Seq<RulesetView>,
    r: RelayView,
    c: ConfigView,
    id: Seq<char>,
    msg: InMsg,
    tid: Seq<char>,
    cool: u64,
    now: u64,
)
    requires
        h.client(id) is Some,
    ensures
        ({
            let client = h.client(id)->0;
            let (q2, out, stands) = queue_step(h, q, rules, r, c, id, msg, tid, cool, now);
            let free = rules.len() > 0 && client.account is Some && client.lobby_id is None;
            &&& rules.len() == 0 ==> q2 == q && !stands && hears_no(out, id, "automatch_off"@)
            &&& rules.len() > 0 && client.account is None ==> q2 == q && !stands && hears_no(
                out,
                id,
                "need_account"@,
            )
            &&& rules.len() > 0 && client.account is Some && client.lobby_id is Some ==> q2 == q
                && !stands && hears_no(out, id, "already_in_lobby"@)
            &&& free && account_queued(q, client.account->0.id) ==> q2 == q && !stands && hears_no(
                out,
                id,
                "already_queued"@,
            )
            &&& free && !account_queued(q, client.account->0.id) && msg.mods_enabled == Some(true)
                ==> q2 == q && !stands && hears_no(out, id, "mods_not_pooled"@)
            &&& cool > 0 ==> !stands && q2 == q
            &&& q.tickets.len() >= c.automatch_queue_max ==> !stands && q2 == q
        }),
{
    lemma_refused(id, "automatch_off"@);
    lemma_refused(id, "need_account"@);
    lemma_refused(id, "already_in_lobby"@);
    lemma_refused(id, "already_queued"@);
    lemma_refused(id, "mods_not_pooled"@);
}

} // verus!
