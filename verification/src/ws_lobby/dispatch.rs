//! Which message does what: every message of a client passes the name rules and then
//! goes to the one handler that its `op` names.

use super::chat::{
    chat_step, desync_step, hello_step, list_step, report_step, server_chat_step, Login,
};
use super::input::{nonempty, text_or_empty, if_nonempty, gate, InMsg, lan_kept};
use super::join::{create_step, join_step};
use super::matching::{
    accept_step, cancel_step, dropped_step, for_two, pairing_step, put_back, queue_step, rtt_step,
    rulesets_step, tick_step,
};
use super::model::{ClientView, HubInner, HubView};
use super::seats::{
    destroy_step, either, host_endpoint_step, hosted, kick_step, leave_relay, leave_step, move_step,
    opt_int, path_report_step, relay_of, seat_move_step, set_match_caps_step, set_ready_step,
    swap_answer_step, swap_request_step,
};
use super::signals::{
    handle_get_turn_credentials, mod_dest, mod_lobby, others, relayed, signal_lobby, signal_msg,
    turn_step, xfer_fail_step, xfer_start_step,
};
use super::start::{close_relay, relay_closed, settled_start_step, start_request_step};
use super::wire::{
    append_effects, effects, nothing, only, opt_str, refusal, refuse, send_to, sent, Effect,
    EffectView,
};
use crate::auth::{signed_claims, verify_session_token, AuthError, SessionClaims};
use crate::automatch::queue::{
    law_removed_leaves_nothing, offer_at, removed_step, side_of, ticket_at, PendingView, Queue,
    QueueView, TicketView,
};
use crate::automatch::rulesets::{RulesetView, Rulesets};
use crate::chat_filter::{ChatFilter, FilterView};
use crate::config::{verification_keys, Config, ConfigView};
use crate::find::{lemma_first_none, lemma_first_where};
use crate::input_relay::{InputRelay, RelayView};
use crate::json::{bounded_object, empty_object, opt_json, Json, JsonView};
use crate::names::sanitized;
use crate::identity::Player;
use crate::outside::{new_uuid, parse_uuid, random_bytes, uuid_shape, uuid_shapes, uuid_text};
use crate::state::AppState;
use crate::text::{first_chars, opt_view, same, take_chars, views};
use crate::turn_credentials::TurnCredentialConfig;
use vstd::prelude::*;
use vstd::string::*;
use vstd::utf8::encode_utf8;

verus! {

// ------------------------------------------------------------------ the model

/// What messages change.
#[verifier::ext_equal]
pub ghost struct LobbyState {
    pub hub: HubView,
    pub relay: RelayView,
    pub queue: QueueView,
}

/// What messages only read.
#[verifier::ext_equal]
pub ghost struct World {
    pub rules: Seq<RulesetView>,
    pub config: ConfigView,
    pub filter: FilterView,
    pub turn: Option<TurnCredentialConfig>,
}

/// What a message is handled with: ids and a salt by chance, the cooldown that
/// its sender's account has left, and the time.
pub struct Given {
    /// The id of a room that the message opens.
    pub lobby_id: String,
    /// The salt of its password.
    pub salt: Vec<u8>,
    /// Marks a name that could not be numbered.
    pub tag: String,
    /// The id of a ticket that the message takes.
    pub ticket_id: String,
    /// In seconds.
    pub cool: u64,
    /// In milliseconds of a steady clock.
    pub now: u64,
    /// In seconds of the wall clock.
    pub clock: i64,
}

/// The values by chance that a message is handled with.
pub fn draw(cool: u64, now: u64, clock: i64) -> (r: Given)
    ensures
        uuid_shape(r.lobby_id@),
        r.salt@.len() == 16,
        uuid_shape(r.ticket_id@),
        exists|u: Seq<char>| uuid_shape(u) && r.tag@ == #[trigger] first_chars(u, 8),
        r.cool == cool,
        r.now == now,
        r.clock == clock,
{
    let u = new_uuid();
    let tag = take_chars(u.as_str(), 8);
    proof {
        assert(tag@ == first_chars(u@, 8));
    }
    Given { lobby_id: new_uuid(), salt: random_bytes(16), tag, ticket_id: new_uuid(), cool, now, clock }
}

/// What a message came to.
#[verifier::ext_equal]
pub ghost struct Outcome {
    pub state: LobbyState,
    pub out: Seq<EffectView>,
    /// What the log says of a message that asks for nothing sensible.
    pub error: Option<Seq<char>>,
}

pub open spec fn told(s: LobbyState, out: Seq<EffectView>) -> Outcome {
    Outcome { state: s, out, error: None }
}

pub open spec fn in_hub(s: LobbyState, r: (HubView, Seq<EffectView>)) -> Outcome {
    told(LobbyState { hub: r.0, ..s }, r.1)
}

pub open spec fn senseless(s: LobbyState, why: Seq<char>) -> Outcome {
    Outcome { state: s, out: Seq::empty(), error: Some(why) }
}

pub open spec fn pong_msg() -> JsonView {
    empty_object().with("op"@, JsonView::Str("pong"@))
}

pub open spec fn left_msg() -> JsonView {
    empty_object().with("op"@, JsonView::Str("left"@)).with("ok"@, JsonView::Bool(true))
}

pub open spec fn unknown_msg(op: Seq<char>) -> JsonView {
    empty_object().with("op"@, JsonView::Str("error"@)).with(
        "code"@,
        JsonView::Str("unknown_op"@),
    ).with("detail"@, JsonView::Str(op)).with("ok"@, JsonView::Bool(false))
}

/// The messages about rooms.
pub open spec fn room_op(s: LobbyState, w: World, id: Seq<char>, peer_ip: Seq<char>, msg: InMsg, g: Given) -> Option<
    Outcome,
> {
    let op = msg.op@;
    if op == "list"@ {
        Some(in_hub(s, list_step(s.hub, id, opt_view(msg.game_name), opt_view(msg.game_version))))
    } else if op == "ping"@ {
        Some(told(s, sent(id, pong_msg())))
    } else if op == "create"@ {
        Some(in_hub(s, create_step(s.hub, id, peer_ip, msg, g.lobby_id@, g.salt@)))
    } else if op == "join"@ {
        Some(
            match nonempty(opt_view(msg.lobby_id)) {
                Some(lid) => in_hub(s, join_step(s.hub, id, peer_ip, msg, lid, g.tag@)),
                None => senseless(s, "missing lobby_id"@),
            },
        )
    } else if op == "set_ready"@ {
        Some(
            in_hub(
                s,
                set_ready_step(
                    s.hub,
                    id,
                    msg.ready != Some(false),
                    bounded_object(opt_json(msg.bios_offer), 512),
                    bounded_object(opt_json(msg.mod_offer), 2048),
                    bounded_object(opt_json(msg.memcard_offer), 256),
                ),
            ),
        )
    } else if op == "set_match_caps"@ {
        Some(in_hub(s, set_match_caps_step(s.hub, id, opt_json(msg.match_caps))))
    } else if op == "set_host_endpoint"@ {
        Some(
            in_hub(
                s,
                host_endpoint_step(
                    s.hub,
                    id,
                    opt_view(msg.host_endpoint),
                    match msg.lan_endpoints {
                        Some(list) => lan_kept(views(list@)),
                        None => Seq::empty(),
                    },
                ),
            ),
        )
    } else if op == "path_report"@ {
        Some(in_hub(s, path_report_step(s.hub, id, opt_view(msg.path), g.now)))
    } else if op == "start"@ {
        let (h, r, e) = start_request_step(
            s.hub,
            s.relay,
            w.config,
            id,
            bounded_object(opt_json(msg.match_caps), 4096),
            g.now,
        );
        Some(told(LobbyState { hub: h, relay: r, ..s }, e))
    } else if op == "leave"@ {
        let (h, e) = leave_step(s.hub, id);
        Some(
            told(
                LobbyState { hub: h, relay: relay_closed(s.relay, leave_relay(s.hub, id)), ..s },
                e + sent(id, left_msg()),
            ),
        )
    } else if op == "close"@ {
        Some(
            match hosted(s.hub, id) {
                Ok(lid) => {
                    let (h, e) = destroy_step(s.hub, lid);
                    told(
                        LobbyState {
                            hub: h,
                            relay: relay_closed(s.relay, relay_of(s.hub, lid)),
                            ..s
                        },
                        e,
                    )
                },
                Err(_) => told(s, Seq::empty()),
            },
        )
    } else {
        None
    }
}

/// The messages about seats.
pub open spec fn seat_op(s: LobbyState, id: Seq<char>, msg: InMsg) -> Option<Outcome> {
    let op = msg.op@;
    if op == "kick"@ {
        Some(
            match msg.slot {
                Some(slot) => in_hub(s, kick_step(s.hub, id, slot as int)),
                None => senseless(s, "missing slot"@),
            },
        )
    } else if op == "move"@ {
        Some(
            in_hub(
                s,
                move_step(s.hub, id, either(msg.from_slot, msg.slot), opt_int(msg.to_slot)),
            ),
        )
    } else if op == "seat_move"@ {
        Some(in_hub(s, seat_move_step(s.hub, id, either(msg.to_slot, msg.target_slot))))
    } else if op == "seat_swap_request"@ {
        Some(told(s, swap_request_step(s.hub, id, either(msg.target_slot, msg.to_slot))))
    } else if op == "seat_swap_answer"@ {
        Some(
            in_hub(
                s,
                swap_answer_step(
                    s.hub,
                    id,
                    text_or_empty(msg.asker_player_id),
                    msg.accept == Some(true),
                ),
            ),
        )
    } else {
        None
    }
}

/// The signal between two peers of a mod transfer.
pub open spec fn mod_signal_step(s: LobbyState, id: Seq<char>, msg: InMsg) -> Outcome {
    if s.hub.client(id) is None {
        senseless(s, "gone"@)
    } else {
        match mod_lobby(s.hub, id, opt_view(msg.lobby_id)) {
            None => senseless(s, "no lobby"@),
            Some(lid) => told(
                s,
                match s.hub.lobby(lid) {
                    Some(l) => match mod_dest(s.hub, id, lid, l, text_or_empty(msg.to_player_id)) {
                        Some(d) => sent(d, signal_msg("mod_signal"@, lid, id, msg)),
                        None => Seq::empty(),
                    },
                    None => Seq::empty(),
                },
            ),
        }
    }
}

/// The messages that pass something on, or write it down.
pub open spec fn talk_op(s: LobbyState, w: World, id: Seq<char>, msg: InMsg, g: Given) -> Option<
    Outcome,
> {
    let op = msg.op@;
    if op == "chat"@ {
        Some(in_hub(s, chat_step(s.hub, w.filter, id, text_or_empty(msg.text))))
    } else if op == "server_chat"@ {
        Some(
            in_hub(
                s,
                server_chat_step(
                    s.hub,
                    w.filter,
                    id,
                    text_or_empty(msg.text),
                    opt_view(msg.game_name),
                ),
            ),
        )
    } else if op == "signal"@ {
        Some(
            match signal_lobby(s.hub, id, opt_view(msg.lobby_id)) {
                Some(lid) => told(
                    s,
                    match s.hub.lobby(lid) {
                        Some(l) => relayed(
                            others(l.everyone(), id, text_or_empty(msg.to_player_id)),
                            signal_msg("signal"@, lid, id, msg),
                        ),
                        None => Seq::empty(),
                    },
                ),
                None => senseless(s, "no lobby"@),
            },
        )
    } else if op == "mod_signal"@ {
        Some(mod_signal_step(s, id, msg))
    } else if op == "mod_xfer_start"@ {
        Some(told(s, xfer_start_step(s.hub, id, text_or_empty(msg.lobby_id))))
    } else if op == "mod_xfer_cancel"@ {
        Some(told(LobbyState { hub: s.hub.pending(id, None), ..s }, Seq::empty()))
    } else if op == "mod_xfer_fail"@ {
        Some(
            told(
                s,
                xfer_fail_step(s.hub, id, text_or_empty(msg.to_player_id), opt_view(msg.error)),
            ),
        )
    } else if op == "get_turn_credentials"@ {
        Some(told(s, turn_step(id, w.turn, g.clock as int)))
    } else if op == "desync_report"@ {
        Some(told(s, desync_step(s.hub, id, msg)))
    } else if op == "chat_report"@ {
        Some(told(s, report_step(s.hub, id, msg)))
    } else {
        None
    }
}

/// The messages about matches. Pairs that a new ticket completes are offered
/// under `ids`.
pub open spec fn match_op(
    s: LobbyState,
    w: World,
    id: Seq<char>,
    msg: InMsg,
    g: Given,
    ids: Seq<Seq<char>>,
) -> Option<Outcome> {
    let op = msg.op@;
    if op == "automatch_rulesets"@ {
        Some(
            told(
                s,
                rulesets_step(s.hub, w.rules, s.relay, w.config, id, opt_view(msg.game_name)),
            ),
        )
    } else if op == "automatch_queue"@ {
        let (q, e, stands) = queue_step(
            s.hub,
            s.queue,
            w.rules,
            s.relay,
            w.config,
            id,
            msg,
            g.ticket_id@,
            g.cool,
            g.now,
        );
        Some(
            if stands {
                let (q2, e2) = pairing_step(s.hub, q, w.rules, w.config, ids, g.now);
                told(LobbyState { queue: q2, ..s }, e + e2)
            } else {
                told(LobbyState { queue: q, ..s }, e)
            },
        )
    } else if op == "automatch_cancel"@ {
        let (q, e) = cancel_step(s.hub, s.queue, id);
        Some(told(LobbyState { queue: q, ..s }, e))
    } else if op == "automatch_rtt"@ {
        let (h, q, e) = rtt_step(s.hub, s.queue, id, msg.rtt_ms);
        Some(told(LobbyState { hub: h, queue: q, ..s }, e))
    } else if op == "automatch_accept"@ {
        let (h, q, e) = accept_step(s.hub, s.queue, w.rules, id, msg, g.lobby_id@, g.now);
        Some(told(LobbyState { hub: h, queue: q, ..s }, e))
    } else {
        None
    }
}

/// Whether a message is not for a guest: the switches say whether a guest may
/// chat and host, and where an account is required it takes one to sit down at
/// all. Looking around stays open to everyone.
pub open spec fn barred(c: ConfigView, client: Option<ClientView>, op: Seq<char>) -> bool {
    let talks = op == "chat"@ || op == "server_chat"@;
    let hosts = op == "create"@;
    let joins = op == "join"@;
    &&& client is Some
    &&& client->0.account is None
    &&& (c.discord_required && (talks || hosts || joins)) || (!c.guest_can_chat && talks) || (
    !c.guest_can_host && hosts)
}

/// What a message does once it has passed the name rules.
pub open spec fn dispatch(
    s: LobbyState,
    w: World,
    id: Seq<char>,
    peer_ip: Seq<char>,
    msg: InMsg,
    login: Login,
    g: Given,
    ids: Seq<Seq<char>>,
) -> Outcome {
    if msg.op@ == "hello"@ {
        in_hub(s, hello_step(s.hub, id, msg, login, g.tag@))
    } else if barred(w.config, s.hub.client(id), msg.op@) {
        told(s, refusal(id, "need_account"@))
    } else {
        match room_op(s, w, id, peer_ip, msg, g) {
            Some(o) => o,
            None => match seat_op(s, id, msg) {
                Some(o) => o,
                None => match talk_op(s, w, id, msg, g) {
                    Some(o) => o,
                    None => match match_op(s, w, id, msg, g, ids) {
                        Some(o) => o,
                        None => told(s, sent(id, unknown_msg(msg.op@))),
                    },
                },
            },
        }
    }
}

/// Whether `m` is `msg` with its names cleaned.
pub open spec fn cleans(msg: InMsg, m: InMsg) -> bool {
    &&& opt_view(m.display_name) == sanitized(opt_view(msg.display_name))
    &&& opt_view(m.name) == sanitized(opt_view(msg.name))
    &&& opt_view(m.game_name) == sanitized(opt_view(msg.game_name))
    &&& m == (InMsg {
        display_name: m.display_name,
        name: m.name,
        game_name: m.game_name,
        ..msg
    })
}

/// Why the name rules refuse a message, if so.
pub open spec fn gated(w: World, msg: InMsg) -> Option<Seq<char>> {
    gate(
        w.filter,
        sanitized(opt_view(msg.display_name)),
        sanitized(opt_view(msg.name)),
        opt_view(msg.password),
    )
}

// --------------------------------------------------------------- the handlers

/// What a message came to.
pub struct Handled {
    pub out: Vec<Effect>,
    /// What the log says of a message that asks for nothing sensible.
    pub error: Option<&'static str>,
    /// The ids that new offers got, by chance.
    pub match_ids: Vec<String>,
}

impl Handled {
    /// Whether it is this outcome, with UUIDs for the ids.
    pub open spec fn is(self, hub: HubInner, relay: InputRelay, queue: Queue, o: Outcome) -> bool {
        &&& o == (Outcome {
            state: LobbyState { hub: hub@, relay: relay@, queue: queue@ },
            out: effects(self.out@),
            error: opt_str(self.error),
        })
        &&& uuid_shapes(views(self.match_ids@))
    }
}

fn done(out: Vec<Effect>) -> (r: Handled)
    ensures
        r.out == out,
        r.error is None,
        views(r.match_ids@).len() == 0,
{
    let match_ids: Vec<String> = Vec::new();
    Handled { out, error: None, match_ids }
}

fn failed(why: &'static str) -> (r: Handled)
    ensures
        effects(r.out@) == Seq::<EffectView>::empty(),
        opt_str(r.error) == Some(why@),
        views(r.match_ids@).len() == 0,
{
    let match_ids: Vec<String> = Vec::new();
    Handled { out: nothing(), error: Some(why), match_ids }
}

fn handle_room(
    hub: &mut HubInner,
    relay: &mut InputRelay,
    queue: &Queue,
    rules: &Rulesets,
    config: &Config,
    filter: &ChatFilter,
    turn: &Option<TurnCredentialConfig>,
    player_id: &str,
    peer_ip: &str,
    msg: &InMsg,
    g: &Given,
) -> (r: Option<Handled>)
    requires
        old(hub)@.wf(),
        old(relay)@.wf(),
    ensures
        final(hub)@.wf(),
        final(relay)@.wf(),
        match (
            r,
            room_op(
                LobbyState { hub: old(hub)@, relay: old(relay)@, queue: queue@ },
                World { rules: rules@, config: config@, filter: filter@, turn: *turn },
                player_id@,
                peer_ip@,
                *msg,
                *g,
            ),
        ) {
            (Some(h), Some(o)) => h.is(*final(hub), *final(relay), *queue, o),
            (None, None) => final(hub)@ == old(hub)@ && final(relay)@ == old(relay)@,
            _ => false,
        },
{
    let op = msg.op.as_str();
    if same(op, "list") {
        Some(done(hub.handle_list(player_id, msg)))
    } else if same(op, "ping") {
        Some(done(only(player_id, Json::object().with("op", Json::text("pong")))))
    } else if same(op, "create") {
        Some(done(hub.handle_create(player_id, peer_ip, msg, g.lobby_id.as_str(), &g.salt)))
    } else if same(op, "join") {
        match hub.handle_join(player_id, peer_ip, msg, g.tag.as_str()) {
            Ok(out) => Some(done(out)),
            Err(e) => Some(failed(e)),
        }
    } else if same(op, "set_ready") {
        Some(done(hub.handle_set_ready(player_id, msg)))
    } else if same(op, "set_match_caps") {
        Some(done(hub.handle_set_match_caps(player_id, msg)))
    } else if same(op, "set_host_endpoint") {
        Some(done(hub.handle_set_host_endpoint(player_id, msg)))
    } else if same(op, "path_report") {
        Some(done(hub.handle_path_report(player_id, msg, g.now)))
    } else if same(op, "start") {
        Some(done(hub.handle_start(relay, config, player_id, msg, g.now)))
    } else if same(op, "leave") {
        let (mut out, session) = hub.client_leave(player_id);
        close_relay(relay, session);
        send_to(
            &mut out,
            player_id,
            Json::object().with("op", Json::text("left")).with("ok", Json::flag(true)),
        );
        Some(done(out))
    } else if same(op, "close") {
        let (out, session) = hub.handle_close(player_id);
        close_relay(relay, session);
        Some(done(out))
    } else {
        None
    }
}

fn handle_seat(hub: &mut HubInner, relay: &InputRelay, queue: &Queue, player_id: &str, msg: &InMsg) -> (r:
    Option<Handled>)
    requires
        old(hub)@.wf(),
    ensures
        final(hub)@.wf(),
        match (
            r,
            seat_op(
                LobbyState { hub: old(hub)@, relay: relay@, queue: queue@ },
                player_id@,
                *msg,
            ),
        ) {
            (Some(h), Some(o)) => h.is(*final(hub), *relay, *queue, o),
            (None, None) => final(hub)@ == old(hub)@,
            _ => false,
        },
{
    let op = msg.op.as_str();
    if same(op, "kick") {
        match hub.handle_kick(player_id, msg) {
            Ok(out) => Some(done(out)),
            Err(e) => Some(failed(e)),
        }
    } else if same(op, "move") {
        Some(done(hub.handle_move(player_id, msg)))
    } else if same(op, "seat_move") {
        Some(done(hub.handle_seat_move(player_id, msg)))
    } else if same(op, "seat_swap_request") {
        Some(done(hub.handle_seat_swap_request(player_id, msg)))
    } else if same(op, "seat_swap_answer") {
        Some(done(hub.handle_seat_swap_answer(player_id, msg)))
    } else {
        None
    }
}

fn handle_talk(
    hub: &mut HubInner,
    relay: &InputRelay,
    queue: &Queue,
    rules: &Rulesets,
    config: &Config,
    filter: &ChatFilter,
    turn: &Option<TurnCredentialConfig>,
    player_id: &str,
    msg: &InMsg,
    g: &Given,
) -> (r: Option<Handled>)
    requires
        old(hub)@.wf(),
        filter@.wf(),
    ensures
        final(hub)@.wf(),
        match (
            r,
            talk_op(
                LobbyState { hub: old(hub)@, relay: relay@, queue: queue@ },
                World { rules: rules@, config: config@, filter: filter@, turn: *turn },
                player_id@,
                *msg,
                *g,
            ),
        ) {
            (Some(h), Some(o)) => h.is(*final(hub), *relay, *queue, o),
            (None, None) => final(hub)@ == old(hub)@,
            _ => false,
        },
{
    let op = msg.op.as_str();
    if same(op, "chat") {
        Some(done(hub.handle_chat(filter, player_id, msg)))
    } else if same(op, "server_chat") {
        Some(done(hub.handle_server_chat(filter, player_id, msg)))
    } else if same(op, "signal") {
        match hub.handle_signal(player_id, msg) {
            Ok(out) => Some(done(out)),
            Err(e) => Some(failed(e)),
        }
    } else if same(op, "mod_signal") {
        match hub.handle_mod_signal(player_id, msg) {
            Ok(out) => Some(done(out)),
            Err(e) => Some(failed(e)),
        }
    } else if same(op, "mod_xfer_start") {
        Some(done(hub.handle_mod_xfer_start(player_id, msg)))
    } else if same(op, "mod_xfer_cancel") {
        Some(done(hub.handle_mod_xfer_cancel(player_id)))
    } else if same(op, "mod_xfer_fail") {
        Some(done(hub.handle_mod_xfer_fail(player_id, msg)))
    } else if same(op, "get_turn_credentials") {
        Some(done(handle_get_turn_credentials(player_id, turn, g.clock)))
    } else if same(op, "desync_report") {
        Some(done(hub.handle_desync_report(player_id, msg)))
    } else if same(op, "chat_report") {
        Some(done(hub.handle_chat_report(player_id, msg)))
    } else {
        None
    }
}

fn handle_match(
    hub: &mut HubInner,
    relay: &InputRelay,
    queue: &mut Queue,
    rules: &Rulesets,
    config: &Config,
    filter: &ChatFilter,
    turn: &Option<TurnCredentialConfig>,
    player_id: &str,
    msg: &InMsg,
    g: &Given,
) -> (r: Option<Handled>)
    requires
        old(hub)@.wf(),
        for_two(rules@),
    ensures
        final(hub)@.wf(),
        ({
            let s = LobbyState { hub: old(hub)@, relay: relay@, queue: old(queue)@ };
            let w = World { rules: rules@, config: config@, filter: filter@, turn: *turn };
            match r {
                Some(h) => match_op(s, w, player_id@, *msg, *g, views(h.match_ids@)) is Some && h.is(
                    *final(hub),
                    *relay,
                    *final(queue),
                    match_op(s, w, player_id@, *msg, *g, views(h.match_ids@))->0,
                ),
                None => match_op(s, w, player_id@, *msg, *g, Seq::empty()) is None && final(hub)@
                    == old(hub)@ && final(queue)@ == old(queue)@,
            }
        }),
{
    let op = msg.op.as_str();
    if same(op, "automatch_rulesets") {
        Some(done(hub.handle_automatch_rulesets(rules, relay, config, player_id, msg)))
    } else if same(op, "automatch_queue") {
        let (out, stands) = hub.handle_automatch_queue(
            queue,
            rules,
            relay,
            config,
            player_id,
            msg,
            g.ticket_id.as_str(),
            g.cool,
            g.now,
        );
        if !stands {
            return Some(done(out));
        }
        let mut out = out;
        let (more, match_ids) = hub.pair_waiting(queue, rules, config, g.now);
        append_effects(&mut out, more);
        Some(Handled { out, error: None, match_ids })
    } else if same(op, "automatch_cancel") {
        Some(done(hub.handle_automatch_cancel(queue, player_id)))
    } else if same(op, "automatch_rtt") {
        Some(done(hub.handle_automatch_rtt(queue, player_id, msg)))
    } else if same(op, "automatch_accept") {
        Some(
            done(
                hub.handle_automatch_accept(
                    queue,
                    rules,
                    player_id,
                    msg,
                    g.lobby_id.as_str(),
                    g.now,
                ),
            ),
        )
    } else {
        None
    }
}

fn is_barred(config: &Config, hub: &HubInner, player_id: &str, op: &str) -> (r: bool)
    ensures
        r == barred(config@, hub@.client(player_id@), op@),
{
    let guest = match hub.client(player_id) {
        Some(c) => c.account.is_none(),
        None => false,
    };
    let talks = same(op, "chat") || same(op, "server_chat");
    let hosts = same(op, "create");
    let joins = same(op, "join");
    guest && ((config.discord_required && (talks || hosts || joins)) || (!config.guest_can_chat
        && talks) || (!config.guest_can_host && hosts))
}

/// Does what a message asks, once it has passed the name rules.
pub fn handle_op(
    state: &mut AppState,
    player_id: &str,
    peer_ip: &str,
    msg: &InMsg,
    login: Login,
    g: &Given,
) -> (r: Handled)
    requires
        old(state).wf(),
    ensures
        final(state).wf(),
        final(state).same_rest(*old(state)),
        r.is(
            final(state).ws_lobby.inner,
            final(state).input_relay,
            final(state).automatch,
            dispatch(
                old(state).lobbies(),
                old(state).world(),
                player_id@,
                peer_ip@,
                *msg,
                login,
                *g,
                views(r.match_ids@),
            ),
        ),
{
    if same(msg.op.as_str(), "hello") {
        return done(
            state.ws_lobby.inner.handle_hello(player_id, msg, login, g.tag.as_str()),
        );
    }
    if is_barred(&state.config, &state.ws_lobby.inner, player_id, msg.op.as_str()) {
        return done(refuse(player_id, "need_account"));
    }
    if let Some(h) = handle_room(
        &mut state.ws_lobby.inner,
        &mut state.input_relay,
        &state.automatch,
        &state.rulesets,
        &state.config,
        &state.chat_filter,
        &state.turn,
        player_id,
        peer_ip,
        msg,
        g,
    ) {
        return h;
    }
    if let Some(h) = handle_seat(
        &mut state.ws_lobby.inner,
        &state.input_relay,
        &state.automatch,
        player_id,
        msg,
    ) {
        return h;
    }
    if let Some(h) = handle_talk(
        &mut state.ws_lobby.inner,
        &state.input_relay,
        &state.automatch,
        &state.rulesets,
        &state.config,
        &state.chat_filter,
        &state.turn,
        player_id,
        msg,
        g,
    ) {
        return h;
    }
    if let Some(h) = handle_match(
        &mut state.ws_lobby.inner,
        &state.input_relay,
        &mut state.automatch,
        &state.rulesets,
        &state.config,
        &state.chat_filter,
        &state.turn,
        player_id,
        msg,
        g,
    ) {
        return h;
    }
    let r = done(
        only(
            player_id,
            Json::object().with("op", Json::text("error")).with(
                "code",
                Json::text("unknown_op"),
            ).with("detail", Json::text(msg.op.as_str())).with("ok", Json::flag(false)),
        ),
    );
    proof {
        assert(views(r.match_ids@) =~= Seq::<Seq<char>>::empty());
    }
    r
}

/// One message of a client: the name rules, then what it asks.
pub fn handle_text(
    state: &mut AppState,
    player_id: &str,
    peer_ip: &str,
    msg: InMsg,
    login: Login,
    g: &Given,
) -> (r: Handled)
    requires
        old(state).wf(),
    ensures
        final(state).wf(),
        final(state).same_rest(*old(state)),
        match gated(old(state).world(), msg) {
            Some(code) => r.is(
                final(state).ws_lobby.inner,
                final(state).input_relay,
                final(state).automatch,
                told(old(state).lobbies(), refusal(player_id@, code)),
            ),
            None => exists|m: InMsg| #[trigger]
                cleans(msg, m) && r.is(
                    final(state).ws_lobby.inner,
                    final(state).input_relay,
                    final(state).automatch,
                    dispatch(
                        old(state).lobbies(),
                        old(state).world(),
                        player_id@,
                        peer_ip@,
                        m,
                        login,
                        *g,
                        views(r.match_ids@),
                    ),
                ),
        },
{
    let mut m = msg;
    match m.sanitize_in_place(&state.chat_filter) {
        Some(code) => {
            let out = refuse(player_id, code);
            done(out)
        },
        None => {
            proof {
                assert(cleans(msg, m));
            }
            handle_op(state, player_id, peer_ip, &m, login, g)
        },
    }
}

/// What a `hello` carries, by its session.
pub enum SessionCheck {
    /// No session.
    Guest,
    /// A session that no key of ours signed, or that expired.
    Invalid,
    /// A session of this account.
    Account(String),
}

/// The account that a checked session is of.
pub open spec fn session_account(claims: Option<(Seq<char>, i64, i64)>) -> Option<Seq<char>> {
    match claims {
        Some(c) => uuid_text(c.0),
        None => None,
    }
}

/// What a session comes to, given what checking it came to. A session that
/// checks out for something that is no account is no better than a bad one.
pub fn session_of(checked: Result<SessionClaims, AuthError>) -> (r: SessionCheck)
    ensures
        match (r, session_account(match checked {
            Ok(c) => Some(c@),
            Err(_) => None,
        })) {
            (SessionCheck::Account(id), Some(a)) => id@ == a,
            (SessionCheck::Invalid, None) => true,
            _ => false,
        },
{
    match checked {
        Ok(c) => match parse_uuid(c.sub.as_str()) {
            Some(id) => SessionCheck::Account(id),
            None => SessionCheck::Invalid,
        },
        Err(_) => SessionCheck::Invalid,
    }
}

/// Who the sender of a `hello` is, given what its session came to and the row
/// that its account has.
pub fn login_of(check: SessionCheck, row: Option<Player>) -> (r: Login)
    ensures
        match (check, row) {
            (SessionCheck::Guest, _) => r is Guest,
            (SessionCheck::Invalid, _) => r is Invalid,
            (SessionCheck::Account(_), Some(p)) => r == Login::Account(p),
            (SessionCheck::Account(_), None) => r is Gone,
        },
{
    match check {
        SessionCheck::Guest => Login::Guest,
        SessionCheck::Invalid => Login::Invalid,
        SessionCheck::Account(_) => match row {
            Some(p) => Login::Account(p),
            None => Login::Gone,
        },
    }
}

/// Checks the session that a `hello` carries. An account is one that a key of
/// ours signed for. A session that is past its time is no longer one: what the
/// clock says is left open here.
pub fn check_session(config: &Config, msg: &InMsg) -> (r: SessionCheck)
    ensures
        match r {
            SessionCheck::Guest => nonempty(opt_view(msg.session)) is None,
            SessionCheck::Invalid => nonempty(opt_view(msg.session)) is Some,
            SessionCheck::Account(id) => {
                &&& nonempty(opt_view(msg.session)) is Some
                &&& exists|i: int|
                    0 <= i < verification_keys(config@).len() && session_account(
                        signed_claims(
                            encode_utf8(#[trigger] verification_keys(config@)[i]),
                            nonempty(opt_view(msg.session))->0,
                        ),
                    ) == Some(id@)
            },
        },
{
    match if_nonempty(&msg.session) {
        Some(token) => session_of(verify_session_token(config, token.as_str())),
        None => SessionCheck::Guest,
    }
}

// ------------------------------------------------------- beats and departures

/// Forms what pairs can be formed and offers them, under ids by chance.
pub fn run_pairing(state: &mut AppState, now: u64) -> (r: Handled)
    requires
        old(state).wf(),
    ensures
        final(state).wf(),
        final(state).same_rest(*old(state)),
        r.is(
            final(state).ws_lobby.inner,
            final(state).input_relay,
            final(state).automatch,
            ({
                let s = old(state).lobbies();
                let w = old(state).world();
                let (q, e) = pairing_step(
                    s.hub,
                    s.queue,
                    w.rules,
                    w.config,
                    views(r.match_ids@),
                    now,
                );
                told(LobbyState { queue: q, ..s }, e)
            }),
        ),
{
    let (out, match_ids) = state.ws_lobby.inner.pair_waiting(
        &mut state.automatch,
        &state.rulesets,
        &state.config,
        now,
    );
    Handled { out, error: None, match_ids }
}

/// One beat of the queue: dead offers lapse, pairs are formed, and everyone
/// waiting hears where they stand.
pub fn automatch_tick(state: &mut AppState, now: u64) -> (r: Handled)
    requires
        old(state).wf(),
    ensures
        final(state).wf(),
        final(state).same_rest(*old(state)),
        r.is(
            final(state).ws_lobby.inner,
            final(state).input_relay,
            final(state).automatch,
            ({
                let s = old(state).lobbies();
                let w = old(state).world();
                let (q, e) = tick_step(
                    s.hub,
                    s.queue,
                    w.rules,
                    w.config,
                    views(r.match_ids@),
                    now,
                );
                told(LobbyState { queue: q, ..s }, e)
            }),
        ),
{
    let (out, match_ids) = state.ws_lobby.inner.tick_queue(
        &mut state.automatch,
        &state.rulesets,
        &state.config,
        now,
    );
    Handled { out, error: None, match_ids }
}

/// What the end of a connection does: its ticket goes, it leaves its room, and
/// it is forgotten.
pub open spec fn goodbye_step(s: LobbyState, id: Seq<char>) -> (
    LobbyState,
    Seq<EffectView>,
) {
    let (q, e) = dropped_step(s.hub, s.queue, id);
    let (h, e2) = leave_step(s.hub, id);
    (
        LobbyState {
            hub: h.disconnected(id),
            relay: relay_closed(s.relay, leave_relay(s.hub, id)),
            queue: q,
        },
        e + e2,
    )
}

/// Ends a connection.
pub fn goodbye(state: &mut AppState, player_id: &str) -> (r: Handled)
    requires
        old(state).wf(),
    ensures
        final(state).wf(),
        final(state).same_rest(*old(state)),
        r.is(
            final(state).ws_lobby.inner,
            final(state).input_relay,
            final(state).automatch,
            ({
                let (s, e) = goodbye_step(old(state).lobbies(), player_id@);
                told(s, e)
            }),
        ),
{
    let mut out = state.ws_lobby.inner.drop_from_queue(&mut state.automatch, player_id);
    let (more, session) = state.ws_lobby.inner.client_leave(player_id);
    append_effects(&mut out, more);
    close_relay(&mut state.input_relay, session);
    state.ws_lobby.inner.forget(player_id);
    done(out)
}

/// Starts a matched room whose settle time has passed. The second part tells
/// whether it launched.
pub fn settle(state: &mut AppState, lobby_id: &str, now: u64) -> (r: (Handled, bool))
    requires
        old(state).wf(),
    ensures
        final(state).wf(),
        final(state).same_rest(*old(state)),
        ({
            let s = old(state).lobbies();
            let (h, relay, e, launched) = settled_start_step(
                s.hub,
                s.relay,
                old(state).world().config,
                lobby_id@,
                now,
            );
            &&& r.0.is(
                final(state).ws_lobby.inner,
                final(state).input_relay,
                final(state).automatch,
                told(LobbyState { hub: h, relay, ..s }, e),
            )
            &&& r.1 == launched
        }),
{
    let (out, launched) = state.ws_lobby.inner.start_settled(
        &mut state.input_relay,
        &state.config,
        lobby_id,
        now,
    );
    (done(out), launched)
}

// -------------------------------------------------------------------- laws

/// A message with a password that no honest client can send is refused.
pub proof fn law_a_bad_password_is_refused(w: World, msg: InMsg)
    requires
        msg.password is Some,
        super::input::bad_password(msg.password->0@),
    ensures
        gated(w, msg) is Some,
{
}

/// A message that nothing handles changes nothing.
pub proof fn law_unknown_messages_change_nothing(
    s: LobbyState,
    w: World,
    id: Seq<char>,
    peer_ip: Seq<char>,
    msg: InMsg,
    login: Login,
    g: Given,
    ids: Seq<Seq<char>>,
)
    requires
        msg.op@ != "hello"@,
        room_op(s, w, id, peer_ip, msg, g) is None,
        seat_op(s, id, msg) is None,
        talk_op(s, w, id, msg, g) is None,
        match_op(s, w, id, msg, g, ids) is None,
    ensures
        dispatch(s, w, id, peer_ip, msg, login, g, ids) == told(s, sent(id, unknown_msg(msg.op@))),
{
}

/// A ticket does not outlive its connection: the one that ends has no ticket
/// and no offer, where nobody stands in two offers or twice in one.
pub proof fn law_tickets_end_with_the_connection(s: LobbyState, id: Seq<char>)
    requires
        forall|i: int, j: int|
            0 <= i < j < s.queue.pending.len() && side_of(#[trigger] s.queue.pending[i], id) is Some
                ==> side_of(#[trigger] s.queue.pending[j], id) is None,
        forall|i: int|
            0 <= i < s.queue.pending.len() ==> (#[trigger] s.queue.pending[i]).a.player_id
                != s.queue.pending[i].b.player_id,
    ensures
        ticket_at(goodbye_step(s, id).0.queue.tickets, id) is None,
        offer_at(goodbye_step(s, id).0.queue.pending, id) is None,
{
    let mine = |t: TicketView| t.player_id == id;
    law_removed_leaves_nothing(s.queue, id);
    lemma_first_where(s.queue.pending, |p: PendingView| side_of(p, id) is Some);
    let (q, p) = removed_step(s.queue, id);
    lemma_first_where(q.tickets, mine);
    match p {
        Some(p) => {
            let other = if p.a.player_id == id {
                p.b
            } else {
                p.a
            };
            let t = put_back(q, other);
            assert forall|k: int| 0 <= k < t.tickets.len() implies !mine(#[trigger] t.tickets[k]) by {
                if k > 0 {
                    assert(t.tickets[k] == q.tickets[k - 1]);
                }
            }
            lemma_first_none(t.tickets, mine);
        },
        None => {},
    }
}

} // verus!
