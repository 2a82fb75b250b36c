//! Seats and settings of a room: what each request does to them.

use super::input::{
    advertised, lan_kept, normalize_ice_path, parse_advertise_endpoint, path_kind,
    sanitize_lan_endpoints, text_or_empty, InMsg,
};
use super::model::{
    is_spectator_seat, lemma_lobby_at, pathless, player_at, player_count, sits, spectator_index,
    unready, vacated, ClientView, HubInner, HubView, LobbyView, SlotView,
};
use super::wire::{
    broadcast_list, count, counted, effects, emit_lobby_update, list_push, lobby_update, nothing,
    only, refusal, refuse, send_all, send_to, sent, sent_all, Effect, EffectView, Event, EventView,
};
use crate::find::lemma_first_where;
use crate::json::{bounded_object, empty_object, keep_object, opt_json, Json, JsonView};
use crate::text::{cat, opt_view, same, views};
use vstd::prelude::*;
use vstd::string::*;

verus! {

impl HubView {
    /// The hub with the client `id` in the lobby `lobby`, or in none.
    pub open spec fn with_client_lobby(self, id: Seq<char>, lobby: Option<Seq<char>>) -> HubView {
        match self.client(id) {
            Some(c) => self.with_client(id, ClientView { lobby_id: lobby, ..c }),
            None => self,
        }
    }

    /// The hub with none of `ids` in a lobby.
    pub open spec fn detached(self, ids: Seq<Seq<char>>) -> HubView
        decreases ids.len(),
    {
        if ids.len() == 0 {
            self
        } else {
            self.detached(ids.drop_last()).with_client_lobby(ids.last(), None)
        }
    }
}

impl HubInner {
    pub fn set_client_lobby(&mut self, id: &str, lobby: Option<String>)
        ensures
            final(self)@ == old(self)@.with_client_lobby(id@, opt_view(lobby)),
            final(self)@.lobbies == old(self)@.lobbies,
    {
        match self.client_index(id) {
            Some(i) => {
                self.client_mut(i).lobby_id = lobby;
            },
            None => {},
        }
    }
}

/// A line of the room itself, told to everybody seated.
pub open spec fn system_line(h: HubView, lid: Seq<char>, text: Seq<char>) -> Seq<EffectView> {
    match h.lobby(lid) {
        Some(l) => sent_all(
            l.member_ids(),
            empty_object().with("op"@, JsonView::Str("chat"@)).with(
                "lobby_id"@,
                JsonView::Str(lid),
            ).with("from_player_id"@, JsonView::Str(""@)).with("from"@, JsonView::Str(""@)).with(
                "system"@,
                JsonView::Bool(true),
            ).with("text"@, JsonView::Str(text)),
        ),
        None => Seq::empty(),
    }
}

pub fn chat_system(out: &mut Vec<Effect>, h: &HubInner, lid: &str, text: &str)
    ensures
        effects(final(out)@) == effects(old(out)@) + system_line(h@, lid@, text@),
{
    match h.lobby(lid) {
        Some(l) => {
            let msg = Json::object().with("op", Json::text("chat")).with(
                "lobby_id",
                Json::text(lid),
            ).with("from_player_id", Json::text("")).with("from", Json::text("")).with(
                "system",
                Json::flag(true),
            ).with("text", Json::text(text));
            let ids = l.member_ids();
            send_all(out, &ids, &msg);
        },
        None => {
            proof {
                assert(effects(out@) =~= effects(old(out)@) + system_line(h@, lid@, text@));
            }
        },
    }
}

/// A change that keeps the tables' sizes keeps the hub well formed.
pub proof fn lemma_with_lobby_wf(h: HubView, lid: Seq<char>, l: LobbyView)
    requires
        h.wf(),
        l.wf(),
    ensures
        h.with_lobby(lid, l).wf(),
{
    lemma_lobby_at(h, lid);
}

// ------------------------------------------------------------------- kick

/// The room once `slot` was emptied by its host.
pub open spec fn kicked_lobby(l: LobbyView, slot: int) -> LobbyView {
    (LobbyView { guest_endpoint: Seq::empty(), ..l.with_seat(slot, None) }).reshuffled()
}

pub open spec fn kick_step(h: HubView, id: Seq<char>, slot: int) -> (HubView, Seq<EffectView>) {
    match h.lobby_id_of(id) {
        None => (h, Seq::empty()),
        Some(lid) => match h.lobby(lid) {
            None => (h, Seq::empty()),
            Some(l) => if l.host_player_id != id {
                (h, refusal(id, "not_host"@))
            } else {
                match l.seat(slot) {
                    None => (h, refusal(id, "bad_slot"@)),
                    Some(None) => (h, refusal(id, "empty_slot"@)),
                    Some(Some(v)) => if v.player_id == id {
                        (h, refusal(id, "cannot_kick"@))
                    } else {
                        let h2 = h.with_lobby(lid, kicked_lobby(l, slot)).with_client_lobby(
                            v.player_id,
                            None,
                        );
                        (
                            h2,
                            sent(
                                v.player_id,
                                empty_object().with("op"@, JsonView::Str("kicked"@)).with(
                                    "ok"@,
                                    JsonView::Bool(true),
                                ).with("lobby_id"@, JsonView::Str(lid)),
                            ) + lobby_update(h2, lid) + list_push(h2) + (if v.display_name.len()
                                == 0 {
                                Seq::empty()
                            } else {
                                system_line(h2, lid, v.display_name + " was kicked."@)
                            }),
                        )
                    },
                }
            },
        },
    }
}

impl HubInner {
    /// Host only: empties somebody else's seat.
    pub fn handle_kick(&mut self, player_id: &str, msg: &InMsg) -> (r: Result<
        Vec<Effect>,
        &'static str,
    >)
        requires
            old(self)@.wf(),
        ensures
            final(self)@.wf(),
            match (r, msg.slot) {
                (Ok(out), Some(slot)) => (final(self)@, effects(out@)) == kick_step(
                    old(self)@,
                    player_id@,
                    slot as int,
                ),
                (Err(e), None) => e@ == "missing slot"@ && final(self)@ == old(self)@,
                _ => false,
            },
    {
        let slot: usize = match msg.slot {
            Some(s) => s,
            None => {
                return Err("missing slot");
            },
        };
        let lid = match self.lobby_id_of(player_id) {
            Some(l) => l,
            None => {
                return Ok(nothing());
            },
        };
        let li: usize = match self.lobby_index(lid.as_str()) {
            Some(i) => i,
            None => {
                return Ok(nothing());
            },
        };
        proof {
            assert(self@.lobbies[li as int] == self.lobbies@[li as int]@);
        }
        if !same(self.lobbies[li].host_player_id.as_str(), player_id) {
            return Ok(refuse(player_id, "not_host"));
        }
        let (victim, victim_name) = match self.lobbies[li].seat(slot) {
            None => {
                return Ok(refuse(player_id, "bad_slot"));
            },
            Some(cell) => match cell {
                None => {
                    return Ok(refuse(player_id, "empty_slot"));
                },
                Some(s) => (s.player_id.clone(), s.display_name.clone()),
            },
        };
        if same(victim.as_str(), player_id) {
            return Ok(refuse(player_id, "cannot_kick"));
        }
        let ghost l = self@.lobbies[li as int];
        let lobby = self.lobby_mut(li);
        let _ = lobby.put_seat(slot, None);
        lobby.guest_endpoint = String::new();
        lobby.reshuffle();
        proof {
            assert(self@ =~= old(self)@.with_lobby(lid@, kicked_lobby(l, slot as int)));
            lemma_with_lobby_wf(old(self)@, lid@, kicked_lobby(l, slot as int));
        }
        self.set_client_lobby(victim.as_str(), None);
        let note = Json::object().with("op", Json::text("kicked")).with("ok", Json::flag(true)).with(
            "lobby_id",
            Json::text(lid.as_str()),
        );
        let mut out = only(victim.as_str(), note);
        emit_lobby_update(&mut out, self, lid.as_str());
        broadcast_list(&mut out, self);
        if !victim_name.as_str().is_empty() {
            let line = cat(victim_name.as_str(), " was kicked.");
            chat_system(&mut out, self, lid.as_str(), line.as_str());
        } else {
            proof {
                assert(effects(out@) + Seq::<EffectView>::empty() =~= effects(out@));
            }
        }
        Ok(out)
    }
}

// ------------------------------------------------------------------- move

pub open spec fn opt_int(o: Option<usize>) -> Option<int> {
    match o {
        Some(n) => Some(n as int),
        None => None,
    }
}

pub open spec fn either(a: Option<usize>, b: Option<usize>) -> Option<int> {
    match a {
        Some(n) => Some(n as int),
        None => opt_int(b),
    }
}

/// The room with two seats traded, its roster fresh.
pub open spec fn moved(h: HubView, lid: Seq<char>, a: int, b: int) -> HubView {
    h.with_lobby(lid, h.lobby(lid)->0.traded(a, b).reshuffled())
}

/// What the host's `move` does. Slot 0 runs the match and stays pinned.
pub open spec fn move_step(
    h: HubView,
    id: Seq<char>,
    from: Option<int>,
    to: Option<int>,
) -> (HubView, Seq<EffectView>) {
    if from is None || to is None {
        (h, refusal(id, "bad_slot"@))
    } else if from == to {
        (h, Seq::empty())
    } else {
        match h.lobby_id_of(id) {
            None => (h, refusal(id, "not_in_lobby"@)),
            Some(lid) => match h.lobby(lid) {
                None => (h, refusal(id, "gone"@)),
                Some(l) => if l.host_player_id != id {
                    (h, refusal(id, "not_host"@))
                } else if l.seat(from->0) is None || l.seat(to->0) is None {
                    (h, refusal(id, "bad_slot"@))
                } else if l.seat(from->0)->0 is None {
                    (h, refusal(id, "empty_slot"@))
                } else if from->0 == 0 || to->0 == 0 {
                    (h, refusal(id, "host_slot_fixed"@))
                } else {
                    let h2 = moved(h, lid, from->0, to->0);
                    (h2, lobby_update(h2, lid))
                },
            },
        }
    }
}

impl HubInner {
    /// Trades two seats of the lobby at `li` and un-readies its players.
    fn reseat(&mut self, li: usize, lid: &str, a: usize, b: usize)
        requires
            old(self)@.wf(),
            old(self)@.lobby_at(lid@) == Some(li as int),
            old(self)@.lobby(lid@)->0.seat(a as int) is Some,
            old(self)@.lobby(lid@)->0.seat(b as int) is Some,
            a != b,
        ensures
            final(self)@ == moved(old(self)@, lid@, a as int, b as int),
            final(self)@.wf(),
    {
        proof {
            lemma_lobby_at(self@, lid@);
        }
        let ghost l = self@.lobbies[li as int];
        let lobby = self.lobby_mut(li);
        lobby.trade(a, b);
        lobby.reshuffle();
        proof {
            assert(self@ =~= moved(old(self)@, lid@, a as int, b as int));
            lemma_with_lobby_wf(old(self)@, lid@, l.traded(a as int, b as int).reshuffled());
        }
    }

    /// Host only: swaps two seats, or moves one into an empty seat. Slot 0 is
    /// not among them.
    pub fn handle_move(&mut self, player_id: &str, msg: &InMsg) -> (r: Vec<Effect>)
        requires
            old(self)@.wf(),
        ensures
            final(self)@.wf(),
            (final(self)@, effects(r@)) == move_step(
                old(self)@,
                player_id@,
                either(msg.from_slot, msg.slot),
                opt_int(msg.to_slot),
            ),
    {
        let from: Option<usize> = match msg.from_slot {
            Some(f) => Some(f),
            None => msg.slot,
        };
        let (from, to) = match (from, msg.to_slot) {
            (Some(f), Some(t)) => (f, t),
            _ => {
                return refuse(player_id, "bad_slot");
            },
        };
        if from == to {
            return nothing();
        }
        let lid = match self.lobby_id_of(player_id) {
            Some(l) => l,
            None => {
                return refuse(player_id, "not_in_lobby");
            },
        };
        let li: usize = match self.lobby_index(lid.as_str()) {
            Some(i) => i,
            None => {
                return refuse(player_id, "gone");
            },
        };
        proof {
            assert(self@.lobbies[li as int] == self.lobbies@[li as int]@);
        }
        let lobby = &self.lobbies[li];
        if !same(lobby.host_player_id.as_str(), player_id) {
            return refuse(player_id, "not_host");
        }
        if lobby.seat(from).is_none() || lobby.seat(to).is_none() {
            return refuse(player_id, "bad_slot");
        }
        let empty: bool = match lobby.seat(from) {
            Some(cell) => cell.is_none(),
            None => false,
        };
        if empty {
            return refuse(player_id, "empty_slot");
        }
        if from == 0 || to == 0 {
            return refuse(player_id, "host_slot_fixed");
        }
        self.reseat(li, lid.as_str(), from, to);
        let mut out = nothing();
        emit_lobby_update(&mut out, self, lid.as_str());
        proof {
            assert(effects(out@) =~= lobby_update(self@, lid@));
        }
        out
    }
}

// ------------------------------------------------------ seat self-service

pub open spec fn seat_move_step(h: HubView, id: Seq<char>, to: Option<int>) -> (
    HubView,
    Seq<EffectView>,
) {
    if to is None {
        (h, refusal(id, "bad_slot"@))
    } else {
        match h.lobby_id_of(id) {
            None => (h, refusal(id, "not_in_lobby"@)),
            Some(lid) => match h.lobby(lid) {
                None => (h, refusal(id, "gone"@)),
                Some(l) => match l.seat_of(id) {
                    None => (h, refusal(id, "not_seated"@)),
                    Some(from) => if l.seat(to->0) is None || from == to->0 {
                        (h, refusal(id, "bad_slot"@))
                    } else if l.seat(to->0)->0 is Some {
                        (h, refusal(id, "slot_taken"@))
                    } else {
                        let h2 = moved(h, lid, from, to->0);
                        (h2, lobby_update(h2, lid))
                    },
                },
            },
        }
    }
}

impl HubInner {
    /// A player moves itself into a free seat, in either table.
    pub fn handle_seat_move(&mut self, player_id: &str, msg: &InMsg) -> (r: Vec<Effect>)
        requires
            old(self)@.wf(),
        ensures
            final(self)@.wf(),
            (final(self)@, effects(r@)) == seat_move_step(
                old(self)@,
                player_id@,
                either(msg.to_slot, msg.target_slot),
            ),
    {
        let to: Option<usize> = match msg.to_slot {
            Some(t) => Some(t),
            None => msg.target_slot,
        };
        let to: usize = match to {
            Some(t) => t,
            None => {
                return refuse(player_id, "bad_slot");
            },
        };
        let lid = match self.lobby_id_of(player_id) {
            Some(l) => l,
            None => {
                return refuse(player_id, "not_in_lobby");
            },
        };
        let li: usize = match self.lobby_index(lid.as_str()) {
            Some(i) => i,
            None => {
                return refuse(player_id, "gone");
            },
        };
        proof {
            assert(self@.lobbies[li as int] == self.lobbies@[li as int]@);
        }
        let lobby = &self.lobbies[li];
        let from: usize = match lobby.seat_of(player_id) {
            Some(s) => s,
            None => {
                return refuse(player_id, "not_seated");
            },
        };
        let taken: bool = match lobby.seat(to) {
            Some(cell) => {
                if from == to {
                    return refuse(player_id, "bad_slot");
                }
                cell.is_some()
            },
            None => {
                return refuse(player_id, "bad_slot");
            },
        };
        if taken {
            return refuse(player_id, "slot_taken");
        }
        self.reseat(li, lid.as_str(), from, to);
        let mut out = nothing();
        emit_lobby_update(&mut out, self, lid.as_str());
        proof {
            assert(effects(out@) =~= lobby_update(self@, lid@));
        }
        out
    }
}

pub open spec fn swap_ask(id: Seq<char>, name: Seq<char>, from: int, target: int) -> JsonView {
    empty_object().with("op"@, JsonView::Str("seat_swap_ask"@)).with(
        "asker_player_id"@,
        JsonView::Str(id),
    ).with("asker_name"@, JsonView::Str(name)).with("from_slot"@, JsonView::Int(from)).with(
        "target_slot"@,
        JsonView::Int(target),
    )
}

pub open spec fn swap_request_step(h: HubView, id: Seq<char>, target: Option<int>) -> Seq<
    EffectView,
> {
    if target is None {
        Seq::empty()
    } else {
        match h.lobby_id_of(id) {
            None => Seq::empty(),
            Some(lid) => match h.lobby(lid) {
                None => Seq::empty(),
                Some(l) => match l.seat_of(id) {
                    None => Seq::empty(),
                    Some(from) => if l.seat(target->0) is None || target->0 == from {
                        refusal(id, "bad_slot"@)
                    } else {
                        match l.seat(target->0)->0 {
                            None => refusal(id, "empty_slot"@),
                            Some(o) => sent(
                                o.player_id,
                                swap_ask(id, l.seat(from)->0->0.display_name, from, target->0),
                            ),
                        }
                    },
                },
            },
        }
    }
}

impl HubInner {
    /// Asks the player in `target_slot` to trade seats. Nothing moves yet.
    pub fn handle_seat_swap_request(&self, player_id: &str, msg: &InMsg) -> (r: Vec<Effect>)
        requires
            self@.wf(),
        ensures
            effects(r@) == swap_request_step(
                self@,
                player_id@,
                either(msg.target_slot, msg.to_slot),
            ),
    {
        let target: Option<usize> = match msg.target_slot {
            Some(t) => Some(t),
            None => msg.to_slot,
        };
        let target: usize = match target {
            Some(t) => t,
            None => {
                return nothing();
            },
        };
        let lid = match self.lobby_id_of(player_id) {
            Some(l) => l,
            None => {
                return nothing();
            },
        };
        let lobby = match self.lobby(lid.as_str()) {
            Some(l) => l,
            None => {
                return nothing();
            },
        };
        let from: usize = match lobby.seat_of(player_id) {
            Some(s) => s,
            None => {
                return nothing();
            },
        };
        let cell = match lobby.seat(target) {
            Some(c) => c,
            None => {
                return refuse(player_id, "bad_slot");
            },
        };
        if target == from {
            return refuse(player_id, "bad_slot");
        }
        let asker: String = match lobby.seat(from) {
            Some(c) => match c {
                Some(s) => s.display_name.clone(),
                None => String::new(),
            },
            None => String::new(),
        };
        match cell {
            Some(o) => {
                let ask = Json::object().with("op", Json::text("seat_swap_ask")).with(
                    "asker_player_id",
                    Json::text(player_id),
                ).with("asker_name", Json::text(asker.as_str())).with(
                    "from_slot",
                    Json::count(from as u64),
                ).with("target_slot", Json::count(target as u64));
                only(o.player_id.as_str(), ask)
            },
            None => refuse(player_id, "empty_slot"),
        }
    }
}

pub open spec fn swap_result(accept: bool) -> JsonView {
    empty_object().with("op"@, JsonView::Str("seat_swap_result"@)).with(
        "accept"@,
        JsonView::Bool(accept),
    ).with("ok"@, JsonView::Bool(true))
}

fn swap_result_json(accept: bool) -> (r: Json)
    ensures
        r@ == swap_result(accept),
{
    Json::object().with("op", Json::text("seat_swap_result")).with("accept", Json::flag(accept)).with(
        "ok",
        Json::flag(true),
    )
}

/// The room once two seated players traded places. The paths are forgotten
/// only where the trade crossed the tables.
pub open spec fn swapped_lobby(l: LobbyView, mine: int, theirs: int) -> LobbyView {
    let t = l.traded(mine, theirs);
    if spectator_index(mine) != spectator_index(theirs) {
        t.reshuffled()
    } else {
        LobbyView { slots: unready(t.slots), ..t }
    }
}

pub open spec fn swap_answer_step(h: HubView, id: Seq<char>, asker: Seq<char>, accept: bool) -> (
    HubView,
    Seq<EffectView>,
) {
    if asker.len() == 0 {
        (h, Seq::empty())
    } else {
        match h.lobby_id_of(id) {
            None => (h, Seq::empty()),
            Some(lid) => match h.lobby(lid) {
                None => (h, Seq::empty()),
                Some(l) => match (l.seat_of(id), l.seat_of(asker)) {
                    (Some(mine), Some(theirs)) => if !accept || mine == theirs {
                        (h, sent(asker, swap_result(false)))
                    } else {
                        let h2 = h.with_lobby(lid, swapped_lobby(l, mine, theirs));
                        (h2, sent(asker, swap_result(true)) + lobby_update(h2, lid))
                    },
                    _ => (h, sent(asker, swap_result(false))),
                },
            },
        }
    }
}

impl HubInner {
    /// The occupant answers. On accept the swap is performed.
    pub fn handle_seat_swap_answer(&mut self, player_id: &str, msg: &InMsg) -> (r: Vec<Effect>)
        requires
            old(self)@.wf(),
        ensures
            final(self)@.wf(),
            (final(self)@, effects(r@)) == swap_answer_step(
                old(self)@,
                player_id@,
                text_or_empty(msg.asker_player_id),
                msg.accept == Some(true),
            ),
    {
        let accept: bool = match msg.accept {
            Some(b) => b,
            None => false,
        };
        let asker = super::input::or_empty(&msg.asker_player_id);
        if asker.as_str().is_empty() {
            return nothing();
        }
        let lid = match self.lobby_id_of(player_id) {
            Some(l) => l,
            None => {
                return nothing();
            },
        };
        let li: usize = match self.lobby_index(lid.as_str()) {
            Some(i) => i,
            None => {
                return nothing();
            },
        };
        proof {
            assert(self@.lobbies[li as int] == self.lobbies@[li as int]@);
        }
        let ghost l = self@.lobbies[li as int];
        let (mine, theirs) = match (
            self.lobbies[li].seat_of(player_id),
            self.lobbies[li].seat_of(asker.as_str()),
        ) {
            (Some(a), Some(b)) => (a, b),
            _ => {
                return only(asker.as_str(), swap_result_json(false));
            },
        };
        if !accept || mine == theirs {
            return only(asker.as_str(), swap_result_json(false));
        }
        let lobby = self.lobby_mut(li);
        lobby.trade(mine, theirs);
        if is_spectator_seat(mine) != is_spectator_seat(theirs) {
            lobby.reshuffle();
        } else {
            lobby.unready_players();
        }
        proof {
            let l2 = swapped_lobby(l, mine as int, theirs as int);
            assert(self@ =~= old(self)@.with_lobby(lid@, l2));
            lemma_with_lobby_wf(old(self)@, lid@, l2);
        }
        let mut out = only(asker.as_str(), swap_result_json(true));
        emit_lobby_update(&mut out, self, lid.as_str());
        out
    }
}

// --------------------------------------------------------------- settings

/// The lobby that `id` hosts, or the code that says why there is none.
pub open spec fn hosted(h: HubView, id: Seq<char>) -> Result<Seq<char>, Seq<char>> {
    match h.lobby_id_of(id) {
        None => Err("not_in_lobby"@),
        Some(lid) => match h.lobby(lid) {
            None => Err("gone"@),
            Some(l) => if l.host_player_id != id {
                Err("not_host"@)
            } else {
                Ok(lid)
            },
        },
    }
}

impl HubInner {
    /// The lobby that `player_id` hosts, with its place.
    pub fn hosted(&self, player_id: &str) -> (r: Result<(String, usize), &'static str>)
        ensures
            match (r, hosted(self@, player_id@)) {
                (Ok(a), Ok(b)) => a.0@ == b && self@.lobby_at(b) == Some(a.1 as int) && a.1
                    < self.lobbies@.len(),
                (Err(a), Err(b)) => a@ == b,
                _ => false,
            },
    {
        let lid = match self.lobby_id_of(player_id) {
            Some(l) => l,
            None => {
                return Err("not_in_lobby");
            },
        };
        match self.lobby_index(lid.as_str()) {
            Some(i) => {
                proof {
                    assert(self@.lobbies[i as int] == self.lobbies@[i as int]@);
                }
                if !same(self.lobbies[i].host_player_id.as_str(), player_id) {
                    Err("not_host")
                } else {
                    Ok((lid, i))
                }
            },
            None => Err("gone"),
        }
    }
}

pub open spec fn set_match_caps_step(h: HubView, id: Seq<char>, caps: Option<JsonView>) -> (
    HubView,
    Seq<EffectView>,
) {
    match bounded_object(caps, 4096) {
        None => (h, refusal(id, "bad_match_caps"@)),
        Some(c) => match hosted(h, id) {
            Err(code) => (h, refusal(id, code)),
            Ok(lid) => {
                let h2 = h.with_lobby(
                    lid,
                    LobbyView { match_caps: Some(c), ..h.lobby(lid)->0 },
                );
                (h2, lobby_update(h2, lid))
            },
        },
    }
}

pub fn sanitize_match_caps(caps: &Option<Json>) -> (r: Option<Json>)
    ensures
        opt_json(r) == bounded_object(opt_json(*caps), 4096),
{
    keep_object(caps, 4096)
}

pub fn sanitize_bios_offer(offer: &Option<Json>) -> (r: Option<Json>)
    ensures
        opt_json(r) == bounded_object(opt_json(*offer), 512),
{
    keep_object(offer, 512)
}

pub fn sanitize_memcard_offer(offer: &Option<Json>) -> (r: Option<Json>)
    ensures
        opt_json(r) == bounded_object(opt_json(*offer), 256),
{
    keep_object(offer, 256)
}

pub fn sanitize_mod_offer(offer: &Option<Json>) -> (r: Option<Json>)
    ensures
        opt_json(r) == bounded_object(opt_json(*offer), 2048),
{
    keep_object(offer, 2048)
}

impl HubInner {
    pub fn handle_set_match_caps(&mut self, player_id: &str, msg: &InMsg) -> (r: Vec<Effect>)
        requires
            old(self)@.wf(),
        ensures
            final(self)@.wf(),
            (final(self)@, effects(r@)) == set_match_caps_step(
                old(self)@,
                player_id@,
                opt_json(msg.match_caps),
            ),
    {
        let caps = sanitize_match_caps(&msg.match_caps);
        if caps.is_none() {
            return refuse(player_id, "bad_match_caps");
        }
        let (lid, li) = match self.hosted(player_id) {
            Ok(x) => x,
            Err(code) => {
                return refuse(player_id, code);
            },
        };
        let ghost l = self@.lobbies[li as int];
        let ghost c = opt_json(caps);
        let lobby = self.lobby_mut(li);
        lobby.match_caps = caps;
        proof {
            let l2 = LobbyView { match_caps: c, ..l };
            assert(self@ =~= old(self)@.with_lobby(lid@, l2));
            lemma_with_lobby_wf(old(self)@, lid@, l2);
        }
        let mut out = nothing();
        emit_lobby_update(&mut out, self, lid.as_str());
        proof {
            assert(effects(out@) =~= lobby_update(self@, lid@));
        }
        out
    }
}

pub open spec fn host_endpoint_step(
    h: HubView,
    id: Seq<char>,
    raw: Option<Seq<char>>,
    lan: Seq<Seq<char>>,
) -> (HubView, Seq<EffectView>) {
    if raw is None || advertised(raw->0) is None {
        (h, refusal(id, "bad_host_endpoint"@))
    } else {
        match hosted(h, id) {
            Err(code) => (h, refusal(id, code)),
            Ok(lid) => {
                let l = h.lobby(lid)->0;
                if l.relay_session_id is Some {
                    (h, refusal(id, "relay_locked"@))
                } else {
                    let h2 = h.with_lobby(
                        lid,
                        LobbyView {
                            host_endpoint: advertised(raw->0)->0,
                            lan_endpoints: lan,
                            ..l
                        },
                    );
                    (
                        h2,
                        lobby_update(h2, lid) + list_push(h2) + sent(
                            id,
                            empty_object().with("op"@, JsonView::Str("host_endpoint_ok"@)).with(
                                "ok"@,
                                JsonView::Bool(true),
                            ),
                        ),
                    )
                }
            },
        }
    }
}

impl HubInner {
    /// Host publishes a UDP endpoint for list and pre-join RTT. Once the relay
    /// holds the match the endpoints are left alone.
    pub fn handle_set_host_endpoint(&mut self, player_id: &str, msg: &InMsg) -> (r: Vec<Effect>)
        requires
            old(self)@.wf(),
        ensures
            final(self)@.wf(),
            (final(self)@, effects(r@)) == host_endpoint_step(
                old(self)@,
                player_id@,
                opt_view(msg.host_endpoint),
                match msg.lan_endpoints {
                    Some(list) => lan_kept(views(list@)),
                    None => Seq::empty(),
                },
            ),
    {
        let raw = match &msg.host_endpoint {
            Some(s) => s,
            None => {
                return refuse(player_id, "bad_host_endpoint");
            },
        };
        let endpoint = match parse_advertise_endpoint(raw.as_str()) {
            Some(e) => e,
            None => {
                return refuse(player_id, "bad_host_endpoint");
            },
        };
        let (lid, li) = match self.hosted(player_id) {
            Ok(x) => x,
            Err(code) => {
                return refuse(player_id, code);
            },
        };
        proof {
            assert(self@.lobbies[li as int] == self.lobbies@[li as int]@);
        }
        if self.lobbies[li].relay_session_id.is_some() {
            return refuse(player_id, "relay_locked");
        }
        let lan = sanitize_lan_endpoints(&msg.lan_endpoints);
        let ghost l = self@.lobbies[li as int];
        let ghost lan_view = views(lan@);
        let ghost ep = endpoint@;
        let lobby = self.lobby_mut(li);
        lobby.host_endpoint = endpoint;
        lobby.lan_endpoints = lan;
        proof {
            let l2 = LobbyView { host_endpoint: ep, lan_endpoints: lan_view, ..l };
            assert(self@ =~= old(self)@.with_lobby(lid@, l2));
            lemma_with_lobby_wf(old(self)@, lid@, l2);
        }
        let mut out = nothing();
        emit_lobby_update(&mut out, self, lid.as_str());
        broadcast_list(&mut out, self);
        send_to(
            &mut out,
            player_id,
            Json::object().with("op", Json::text("host_endpoint_ok")).with("ok", Json::flag(true)),
        );
        proof {
            assert(effects(out@) =~= host_endpoint_step(
                old(self)@,
                player_id@,
                opt_view(msg.host_endpoint),
                lan_view,
            ).1);
        }
        out
    }
}

pub open spec fn path_report_step(h: HubView, id: Seq<char>, path: Option<Seq<char>>, now: u64) -> (
    HubView,
    Seq<EffectView>,
) {
    if path is None || path_kind(path->0) is None {
        (h, refusal(id, "bad_path_report"@))
    } else {
        let kind = path_kind(path->0)->0;
        match h.lobby_id_of(id) {
            None => (h, refusal(id, "not_in_lobby"@)),
            Some(lid) => match h.lobby(lid) {
                None => (h, refusal(id, "gone"@)),
                Some(l) => match player_at(l.slots, id) {
                    None => (h, refusal(id, "not_in_lobby"@)),
                    Some(i) => {
                        let s = SlotView {
                            ice_path: Some(kind),
                            ice_path_at: Some(now),
                            ..l.slots[i]->0
                        };
                        (
                            h.with_lobby(lid, LobbyView { slots: l.slots.update(i, Some(s)), ..l }),
                            sent(
                                id,
                                empty_object().with("op"@, JsonView::Str("path_report_ok"@)).with(
                                    "ok"@,
                                    JsonView::Bool(true),
                                ).with("path"@, JsonView::Str(kind)),
                            ),
                        )
                    },
                },
            },
        }
    }
}

impl HubInner {
    /// A player reports the path its peers reach it by.
    pub fn handle_path_report(&mut self, player_id: &str, msg: &InMsg, now: u64) -> (r: Vec<Effect>)
        requires
            old(self)@.wf(),
        ensures
            final(self)@.wf(),
            (final(self)@, effects(r@)) == path_report_step(
                old(self)@,
                player_id@,
                opt_view(msg.path),
                now,
            ),
    {
        let raw = match &msg.path {
            Some(s) => s,
            None => {
                return refuse(player_id, "bad_path_report");
            },
        };
        let kind: &str = match normalize_ice_path(raw.as_str()) {
            Some(k) => k,
            None => {
                return refuse(player_id, "bad_path_report");
            },
        };
        let lid = match self.lobby_id_of(player_id) {
            Some(l) => l,
            None => {
                return refuse(player_id, "not_in_lobby");
            },
        };
        let li: usize = match self.lobby_index(lid.as_str()) {
            Some(i) => i,
            None => {
                return refuse(player_id, "gone");
            },
        };
        proof {
            assert(self@.lobbies[li as int] == self.lobbies@[li as int]@);
            lemma_first_where(
                self@.lobbies[li as int].slots,
                |o: Option<SlotView>| sits(o, player_id@),
            );
        }
        let ghost l = self@.lobbies[li as int];
        let at: usize = match self.lobbies[li].seat_of(player_id) {
            Some(s) => if is_spectator_seat(s) {
                return refuse(player_id, "not_in_lobby");
            } else {
                s
            },
            None => {
                return refuse(player_id, "not_in_lobby");
            },
        };
        let lobby = self.lobby_mut(li);
        if let Some(mut s) = lobby.put_seat(at, None) {
            s.ice_path = Some(kind.to_owned());
            s.ice_path_at = Some(now);
            let _ = lobby.put_seat(at, Some(s));
        }
        proof {
            let s2 = SlotView {
                ice_path: Some(kind@),
                ice_path_at: Some(now),
                ..l.slots[at as int]->0
            };
            let l2 = LobbyView { slots: l.slots.update(at as int, Some(s2)), ..l };
            assert(self@.lobbies[li as int] =~= l2);
            assert(self@ =~= old(self)@.with_lobby(lid@, l2));
            lemma_with_lobby_wf(old(self)@, lid@, l2);
        }
        only(
            player_id,
            Json::object().with("op", Json::text("path_report_ok")).with("ok", Json::flag(true)).with(
                "path",
                Json::text(kind),
            ),
        )
    }
}

/// A newer offer, or else the one that stood.
pub open spec fn newer(new: Option<JsonView>, old: Option<JsonView>) -> Option<JsonView> {
    if new is Some {
        new
    } else {
        old
    }
}

/// The seat `s` once its player spoke up. Offers come from everyone, Ready
/// from players only.
pub open spec fn readied(
    s: SlotView,
    spectator: bool,
    ready: bool,
    bios: Option<JsonView>,
    mods: Option<JsonView>,
    memcard: Option<JsonView>,
) -> SlotView {
    SlotView {
        ready: if spectator {
            s.ready
        } else {
            ready
        },
        bios_offer: newer(bios, s.bios_offer),
        mod_offer: newer(mods, s.mod_offer),
        memcard_offer: newer(memcard, s.memcard_offer),
        ..s
    }
}

pub open spec fn set_ready_step(
    h: HubView,
    id: Seq<char>,
    ready: bool,
    bios: Option<JsonView>,
    mods: Option<JsonView>,
    memcard: Option<JsonView>,
) -> (HubView, Seq<EffectView>) {
    match h.lobby_id_of(id) {
        None => (h, refusal(id, "not_in_lobby"@)),
        Some(lid) => match h.lobby(lid) {
            None => (h, refusal(id, "gone"@)),
            Some(l) => {
                let h2 = match l.seat_of(id) {
                    Some(seat) => h.with_lobby(
                        lid,
                        l.with_seat(
                            seat,
                            Some(
                                readied(
                                    l.seat(seat)->0->0,
                                    spectator_index(seat),
                                    ready,
                                    bios,
                                    mods,
                                    memcard,
                                ),
                            ),
                        ),
                    ),
                    None => h,
                };
                (h2, lobby_update(h2, lid))
            },
        },
    }
}

impl HubInner {
    pub fn handle_set_ready(&mut self, player_id: &str, msg: &InMsg) -> (r: Vec<Effect>)
        requires
            old(self)@.wf(),
        ensures
            final(self)@.wf(),
            (final(self)@, effects(r@)) == set_ready_step(
                old(self)@,
                player_id@,
                msg.ready != Some(false),
                bounded_object(opt_json(msg.bios_offer), 512),
                bounded_object(opt_json(msg.mod_offer), 2048),
                bounded_object(opt_json(msg.memcard_offer), 256),
            ),
    {
        let ready: bool = match msg.ready {
            Some(b) => b,
            None => true,
        };
        let bios = sanitize_bios_offer(&msg.bios_offer);
        let mods = sanitize_mod_offer(&msg.mod_offer);
        let memcard = sanitize_memcard_offer(&msg.memcard_offer);
        let lid = match self.lobby_id_of(player_id) {
            Some(l) => l,
            None => {
                return refuse(player_id, "not_in_lobby");
            },
        };
        let li: usize = match self.lobby_index(lid.as_str()) {
            Some(i) => i,
            None => {
                return refuse(player_id, "gone");
            },
        };
        proof {
            assert(self@.lobbies[li as int] == self.lobbies@[li as int]@);
        }
        let ghost l = self@.lobbies[li as int];
        if let Some(seat) = self.lobbies[li].seat_of(player_id) {
            let ghost b = opt_json(bios);
            let ghost m = opt_json(mods);
            let ghost c = opt_json(memcard);
            let lobby = self.lobby_mut(li);
            if let Some(mut s) = lobby.put_seat(seat, None) {
                if !is_spectator_seat(seat) {
                    s.ready = ready;
                }
                if bios.is_some() {
                    s.bios_offer = bios;
                }
                if mods.is_some() {
                    s.mod_offer = mods;
                }
                if memcard.is_some() {
                    s.memcard_offer = memcard;
                }
                let _ = lobby.put_seat(seat, Some(s));
            }
            proof {
                let s2 = readied(
                    l.seat(seat as int)->0->0,
                    spectator_index(seat as int),
                    ready,
                    b,
                    m,
                    c,
                );
                let l2 = l.with_seat(seat as int, Some(s2));
                assert(self@.lobbies[li as int] =~= l2);
                assert(self@ =~= old(self)@.with_lobby(lid@, l2));
                lemma_with_lobby_wf(old(self)@, lid@, l2);
            }
        }
        let mut out = nothing();
        emit_lobby_update(&mut out, self, lid.as_str());
        proof {
            assert(effects(out@) =~= lobby_update(self@, lid@));
        }
        out
    }
}

// ------------------------------------------------------ leaving and closing

/// The hub once the lobby `lid` is gone and its members are in none.
pub open spec fn destroyed(h: HubView, lid: Seq<char>) -> HubView {
    match h.lobby_at(lid) {
        Some(i) => (HubView { lobbies: h.lobbies.remove(i), ..h }).detached(
            h.lobbies[i].member_ids(),
        ),
        None => h,
    }
}

pub open spec fn closed_msg(lid: Seq<char>) -> JsonView {
    empty_object().with("op"@, JsonView::Str("lobby_closed"@)).with(
        "lobby_id"@,
        JsonView::Str(lid),
    ).with("ok"@, JsonView::Bool(true))
}

pub open spec fn destroy_step(h: HubView, lid: Seq<char>) -> (HubView, Seq<EffectView>) {
    match h.lobby(lid) {
        None => (h, Seq::empty()),
        Some(l) => {
            let h2 = destroyed(h, lid);
            (
                h2,
                counted(EventView::LobbyDestroyed) + sent_all(l.member_ids(), closed_msg(lid))
                    + list_push(h2),
            )
        },
    }
}

/// The relay session that closes with the lobby `lid`.
pub open spec fn relay_of(h: HubView, lid: Seq<char>) -> Option<u32> {
    match h.lobby(lid) {
        Some(l) => l.relay_session_id,
        None => None,
    }
}

pub proof fn lemma_detached_lobbies(h: HubView, ids: Seq<Seq<char>>)
    ensures
        h.detached(ids).lobbies == h.lobbies,
    decreases ids.len(),
{
    if ids.len() > 0 {
        lemma_detached_lobbies(h, ids.drop_last());
    }
}

impl HubInner {
    /// Closes a lobby, tells its members and refreshes the lists. The second
    /// part is the relay session to close.
    pub fn destroy_lobby(&mut self, lid: &str) -> (r: (Vec<Effect>, Option<u32>))
        requires
            old(self)@.wf(),
        ensures
            final(self)@.wf(),
            (final(self)@, effects(r.0@)) == destroy_step(old(self)@, lid@),
            r.1 == relay_of(old(self)@, lid@),
    {
        let li: usize = match self.lobby_index(lid) {
            Some(i) => i,
            None => {
                return (nothing(), None);
            },
        };
        let ghost h = self@;
        proof {
            assert(self@.lobbies[li as int] == self.lobbies@[li as int]@);
        }
        let ids = self.lobbies[li].member_ids();
        let relay: Option<u32> = self.lobbies[li].relay_session_id;
        let _ = self.lobbies.remove(li);
        let ghost h1 = HubView { lobbies: h.lobbies.remove(li as int), ..h };
        proof {
            assert(self@ =~= h1);
            assert forall|i: int| 0 <= i < h1.lobbies.len() implies (
            #[trigger] h1.lobbies[i]).wf() by {
                if i < li {
                    assert(h1.lobbies[i] == h.lobbies[i]);
                } else {
                    assert(h1.lobbies[i] == h.lobbies[i + 1]);
                }
            }
            assert(views(ids@).take(0) =~= Seq::<Seq<char>>::empty());
        }
        let mut i: usize = 0;
        while i < ids.len()
            invariant
                i <= ids@.len(),
                self@ == h1.detached(views(ids@).take(i as int)),
            decreases ids@.len() - i,
        {
            proof {
                let t = views(ids@).take(i + 1);
                assert(t.drop_last() =~= views(ids@).take(i as int));
                assert(t.last() == ids@[i as int]@);
            }
            self.set_client_lobby(ids[i].as_str(), None);
            i = i + 1;
        }
        proof {
            assert(views(ids@).take(ids@.len() as int) =~= views(ids@));
            lemma_detached_lobbies(h1, views(ids@));
        }
        let mut out = nothing();
        count(&mut out, Event::LobbyDestroyed);
        let note = Json::object().with("op", Json::text("lobby_closed")).with(
            "lobby_id",
            Json::text(lid),
        ).with("ok", Json::flag(true));
        send_all(&mut out, &ids, &note);
        broadcast_list(&mut out, self);
        proof {
            assert(effects(out@) =~= destroy_step(h, lid@).1);
        }
        (out, relay)
    }
}

/// The room once `id` left it: whoever stays has to confirm again.
pub open spec fn left_lobby(l: LobbyView, id: Seq<char>) -> LobbyView {
    LobbyView {
        slots: pathless(unready(vacated(l.slots, id))),
        spectators: pathless(vacated(l.spectators, id)),
        guest_endpoint: Seq::empty(),
        ..l
    }
}

/// Whether the room closes when `id` leaves: its host goes, or a matched pair
/// can no longer be one.
pub open spec fn closes_with(l: LobbyView, id: Seq<char>) -> bool {
    l.host_player_id == id || (l.automatch && l.player_count() <= 2)
}

/// The name that `id` is seated by.
pub open spec fn seated_name(l: LobbyView, id: Seq<char>) -> Seq<char> {
    match l.seat_of(id) {
        Some(s) => l.seat(s)->0->0.display_name,
        None => Seq::empty(),
    }
}

pub open spec fn leave_step(h: HubView, id: Seq<char>) -> (HubView, Seq<EffectView>) {
    match h.lobby_id_of(id) {
        None => (h, Seq::empty()),
        Some(lid) => {
            let h1 = h.with_client_lobby(id, None);
            match h1.lobby(lid) {
                None => (h1, Seq::empty()),
                Some(l) => if closes_with(l, id) {
                    destroy_step(h1, lid)
                } else {
                    let h2 = h1.with_lobby(lid, left_lobby(l, id));
                    (
                        h2,
                        lobby_update(h2, lid) + list_push(h2) + (if seated_name(l, id).len() == 0 {
                            Seq::empty()
                        } else {
                            system_line(h2, lid, seated_name(l, id) + " has left."@)
                        }),
                    )
                },
            }
        },
    }
}

/// The relay session that closes when `id` leaves.
pub open spec fn leave_relay(h: HubView, id: Seq<char>) -> Option<u32> {
    match h.lobby_id_of(id) {
        None => None,
        Some(lid) => match h.lobby(lid) {
            None => None,
            Some(l) => if closes_with(l, id) {
                l.relay_session_id
            } else {
                None
            },
        },
    }
}

impl HubInner {
    /// Takes a client out of its room. A leaving host closes the room; a
    /// matched room dies when it can no longer be a match.
    pub fn client_leave(&mut self, player_id: &str) -> (r: (Vec<Effect>, Option<u32>))
        requires
            old(self)@.wf(),
        ensures
            final(self)@.wf(),
            (final(self)@, effects(r.0@)) == leave_step(old(self)@, player_id@),
            r.1 == leave_relay(old(self)@, player_id@),
    {
        let lid = match self.lobby_id_of(player_id) {
            Some(l) => l,
            None => {
                return (nothing(), None);
            },
        };
        self.set_client_lobby(player_id, None);
        let ghost h1 = self@;
        let li: usize = match self.lobby_index(lid.as_str()) {
            Some(i) => i,
            None => {
                return (nothing(), None);
            },
        };
        proof {
            assert(self@.lobbies[li as int] == self.lobbies@[li as int]@);
        }
        let ghost l = self@.lobbies[li as int];
        let host: bool = same(self.lobbies[li].host_player_id.as_str(), player_id);
        let emptied: bool = self.lobbies[li].automatch && player_count(&self.lobbies[li]) <= 2;
        if host || emptied {
            return self.destroy_lobby(lid.as_str());
        }
        let name: String = match self.lobbies[li].seat_of(player_id) {
            Some(s) => match self.lobbies[li].seat(s) {
                Some(c) => match c {
                    Some(x) => x.display_name.clone(),
                    None => String::new(),
                },
                None => String::new(),
            },
            None => String::new(),
        };
        let lobby = self.lobby_mut(li);
        lobby.vacate(player_id);
        lobby.guest_endpoint = String::new();
        lobby.reshuffle();
        proof {
            let l2 = left_lobby(l, player_id@);
            assert(self@.lobbies[li as int] =~= l2);
            assert(self@ =~= h1.with_lobby(lid@, l2));
            lemma_with_lobby_wf(h1, lid@, l2);
        }
        let mut out = nothing();
        emit_lobby_update(&mut out, self, lid.as_str());
        broadcast_list(&mut out, self);
        if !name.as_str().is_empty() {
            let line = cat(name.as_str(), " has left.");
            chat_system(&mut out, self, lid.as_str(), line.as_str());
        }
        proof {
            assert(effects(out@) =~= leave_step(old(self)@, player_id@).1);
        }
        (out, None)
    }

    /// The host closes its room; nobody else does anything by asking.
    pub fn handle_close(&mut self, player_id: &str) -> (r: (Vec<Effect>, Option<u32>))
        requires
            old(self)@.wf(),
        ensures
            final(self)@.wf(),
            (final(self)@, effects(r.0@)) == (match hosted(old(self)@, player_id@) {
                Ok(lid) => destroy_step(old(self)@, lid),
                Err(_) => (old(self)@, Seq::<EffectView>::empty()),
            }),
            r.1 == (match hosted(old(self)@, player_id@) {
                Ok(lid) => relay_of(old(self)@, lid),
                Err(_) => None,
            }),
    {
        match self.hosted(player_id) {
            Ok((lid, _)) => self.destroy_lobby(lid.as_str()),
            Err(_) => (nothing(), None),
        }
    }
}

} // verus!
