//! What becomes of seats: who is moved, who goes, and who may do it.

use super::model::{HubView, LobbyView, SlotView};
use super::ops::{hears_op, in_room, lemma_everyone_is, lemma_keys, lemma_with_read};
use super::roster::{
    distinct_lobbies, lemma_client_lobby, lemma_detached, lemma_left, lemma_removed_lobby,
    lemma_reshuffled, lemma_seat_of, lemma_traded, lemma_unreadied, lemma_with_lobby,
    lemma_with_seat, who, who_in,
};
use super::seating::lemma_room_named;
use super::seats::{
    closed_msg, destroy_step, kick_step, kicked_lobby, leave_step, left_lobby, move_step, moved,
    seat_move_step, set_ready_step, swap_answer_step, swap_request_step, swap_result, swapped_lobby,
};
use super::wire::{refusal, sent_all, EffectView};
use crate::find::lemma_first_where;
use crate::json::JsonView;
use vstd::prelude::*;
use vstd::string::*;

verus! {

/// Whether a connection is told that it may not, and why.
pub open spec fn hears_no(out: Seq<EffectView>, to: Seq<char>, code: Seq<char>) -> bool {
    exists|i: int|
        0 <= i < out.len() && (#[trigger] out[i]) is Send && out[i]->Send_to == to
            && out[i]->Send_msg.get("op"@) == Some(JsonView::Str("error"@)) && out[i]->Send_msg.get(
            "code"@,
        ) == Some(JsonView::Str(code)) && out[i]->Send_msg.get("ok"@) == Some(
            JsonView::Bool(false),
        )
}

pub proof fn lemma_refused(to: Seq<char>, code: Seq<char>)
    ensures
        hears_no(refusal(to, code), to, code),
{
    broadcast use lemma_with_read;

    lemma_keys();
    assert(refusal(to, code)[0] is Send);
}

/// Whether a connection is the host of a room that it sits in.
pub open spec fn hosts(h: HubView, id: Seq<char>, lid: Seq<char>, l: LobbyView) -> bool {
    &&& h.client(id) is Some
    &&& h.client(id)->0.lobby_id == Some(lid)
    &&& h.lobby(lid) == Some(l)
    &&& l.host_player_id == id
}

/// Whether a connection sits in a room.
pub open spec fn member(h: HubView, id: Seq<char>, lid: Seq<char>, l: LobbyView) -> bool {
    &&& h.client(id) is Some
    &&& h.client(id)->0.lobby_id == Some(lid)
    &&& h.lobby(lid) == Some(l)
}

// -------------------------------------------------------------------- kicks

/// The host empties somebody else's seat: whoever sat there sits nowhere in the
/// room, is in no room, and is told; everyone else keeps their seat.
pub proof fn law_a_kick_takes_one_seat(
    h: HubView,
    id: Seq<char>,
    lid: Seq<char>,
    l: LobbyView,
    slot: int,
    v: Seq<char>,
)
    requires
        hosts(h, id, lid, l),
        who_in(l, slot) == Some(v),
        v != id,
    ensures
        ({
            let (h2, out) = kick_step(h, id, slot);
            &&& h2.lobby(lid) is Some
            &&& forall|n: int|
                #[trigger] who(h2, lid, n) == (if n == slot {
                    None
                } else {
                    who_in(l, n)
                })
            &&& h2.lobby_id_of(v) is None
            &&& forall|p: Seq<char>| p != v ==> #[trigger] h2.lobby_id_of(p) == h.lobby_id_of(p)
            &&& hears_op(out, v, "kicked"@)
        }),
{
    broadcast use lemma_with_read;

    lemma_keys();
    lemma_room_named(h, lid);
    let (h2, out) = kick_step(h, id, slot);
    let l2 = kicked_lobby(l, slot);
    lemma_with_seat(l, slot, None);
    let emptied = LobbyView { guest_endpoint: Seq::empty(), ..l.with_seat(slot, None) };
    lemma_reshuffled(emptied);
    assert forall|n: int| #[trigger] who_in(emptied, n) == who_in(l.with_seat(slot, None), n) by {}
    let h1 = h.with_lobby(lid, l2);
    lemma_with_lobby(h, lid, l2);
    lemma_client_lobby(h1, v, None);
    assert forall|q: Seq<char>| #[trigger] h1.lobby_id_of(q) == h.lobby_id_of(q) by {
        assert(h1.clients == h.clients);
    }
    assert(h2 == h1.with_client_lobby(v, None));
    assert(h2.lobby(lid) == h1.lobby(lid));
    assert forall|n: int|
        #[trigger] who(h2, lid, n) == (if n == slot {
            None
        } else {
            who_in(l, n)
        }) by {
        assert(who_in(l2, n) == who_in(emptied, n));
    }
    assert(out[0] is Send);
}

/// Nobody but the host kicks, and the host does not kick the host: the hub stays,
/// and whoever asked is told why.
pub proof fn law_a_kick_is_the_hosts(
    h: HubView,
    id: Seq<char>,
    lid: Seq<char>,
    l: LobbyView,
    slot: int,
)
    requires
        member(h, id, lid, l),
    ensures
        l.host_player_id != id ==> kick_step(h, id, slot).0 == h && hears_no(
            kick_step(h, id, slot).1,
            id,
            "not_host"@,
        ),
        l.host_player_id == id && who_in(l, slot) == Some(id) ==> kick_step(h, id, slot).0 == h
            && hears_no(kick_step(h, id, slot).1, id, "cannot_kick"@),
        l.host_player_id == id && who_in(l, slot) is None ==> kick_step(h, id, slot).0 == h,
{
    lemma_refused(id, "not_host"@);
    lemma_refused(id, "cannot_kick"@);
}

// ------------------------------------------------------------------ departures

/// Whoever leaves a room that goes on sits nowhere in it and names none, and
/// everyone else keeps their seat.
pub proof fn law_leaving_frees_one_seat(h: HubView, id: Seq<char>, lid: Seq<char>, l: LobbyView)
    requires
        member(h, id, lid, l),
        l.host_player_id != id,
        !l.automatch,
    ensures
        ({
            let (h2, out) = leave_step(h, id);
            &&& h2.lobby(lid) is Some
            &&& h2.lobby_id_of(id) is None
            &&& forall|n: int|
                #[trigger] who(h2, lid, n) == (if who_in(l, n) == Some(id) {
                    None
                } else {
                    who_in(l, n)
                })
            &&& forall|p: Seq<char>| p != id ==> #[trigger] h2.lobby_id_of(p) == h.lobby_id_of(p)
        }),
{
    lemma_room_named(h, lid);
    let h1 = h.with_client_lobby(id, None);
    lemma_client_lobby(h, id, None);
    assert(h1.lobby(lid) == h.lobby(lid));
    let l2 = left_lobby(l, id);
    let h2 = h1.with_lobby(lid, l2);
    lemma_left(l, id);
    lemma_with_lobby(h1, lid, l2);
    assert forall|q: Seq<char>| #[trigger] h2.lobby_id_of(q) == h1.lobby_id_of(q) by {
        assert(h2.clients == h1.clients);
    }
}

/// A room goes with its host, and a matched one with either of its two: it is
/// found no more, whoever sat in it names no room, and all of them are told.
pub proof fn law_a_room_goes_with_its_host(
    h: HubView,
    id: Seq<char>,
    lid: Seq<char>,
    l: LobbyView,
    p: Seq<char>,
)
    requires
        member(h, id, lid, l),
        distinct_lobbies(h),
        l.host_player_id == id || (l.automatch && l.slots.len() <= 2),
        in_room(l, p),
    ensures
        ({
            let (h2, out) = leave_step(h, id);
            &&& h2.lobby(lid) is None
            &&& h2.lobby_id_of(p) is None
            &&& hears_op(out, p, "lobby_closed"@)
            &&& forall|x: Seq<char>| x != lid ==> #[trigger] h2.lobby(x) == h.lobby(x)
        }),
{
    lemma_room_named(h, lid);
    super::outcomes::lemma_taken(l.slots);
    lemma_count(l.slots);
    let h1 = h.with_client_lobby(id, None);
    lemma_client_lobby(h, id, None);
    assert(h1.lobbies == h.lobbies);
    assert(h1.lobby(lid) == h.lobby(lid));
    assert forall|x: Seq<char>| #[trigger] h1.lobby(x) == h.lobby(x) by {}
    lemma_closing(h1, lid, l, p);
}

proof fn lemma_count(s: Seq<Option<SlotView>>)
    ensures
        super::model::seated(s).len() <= s.len(),
    decreases s.len(),
{
    if s.len() > 0 {
        lemma_count(s.drop_last());
    }
}

/// Closing a room takes it out, frees everyone who sat in it and tells them.
pub proof fn lemma_closing(h: HubView, lid: Seq<char>, l: LobbyView, p: Seq<char>)
    requires
        h.lobby(lid) == Some(l),
        distinct_lobbies(h),
        in_room(l, p),
    ensures
        ({
            let (h2, out) = destroy_step(h, lid);
            &&& h2.lobby(lid) is None
            &&& h2.lobby_id_of(p) is None
            &&& hears_op(out, p, "lobby_closed"@)
            &&& forall|x: Seq<char>| x != lid ==> #[trigger] h2.lobby(x) == h.lobby(x)
        }),
{
    broadcast use lemma_with_read;

    lemma_keys();
    let (h2, out) = destroy_step(h, lid);
    lemma_first_where(h.lobbies, |x: LobbyView| x.lobby_id == lid);
    let i = h.lobby_at(lid)->0;
    let cut = HubView { lobbies: h.lobbies.remove(i), ..h };
    assert(h2 == cut.detached(l.member_ids()));
    lemma_detached(cut, l.member_ids());
    lemma_removed_lobby(h, h2, lid);
    lemma_everyone_is(l, p);
    let k = choose|k: int| 0 <= k < l.everyone().len() && (#[trigger] l.everyone()[k]).player_id == p;
    let ids = l.member_ids();
    assert(ids[k] == p);
    assert(ids.contains(p));
    let sends = sent_all(ids, closed_msg(lid));
    assert(out[1 + k] == sends[k]);
    assert(out[1 + k] is Send && out[1 + k]->Send_to == p);
}

// ------------------------------------------------------------------ new seats

/// A player that moves itself takes a seat that was free, leaves its own free, and
/// moves nobody else.
pub proof fn law_moving_oneself_takes_a_free_seat(
    h: HubView,
    id: Seq<char>,
    lid: Seq<char>,
    l: LobbyView,
    from: int,
    to: int,
)
    requires
        member(h, id, lid, l),
        l.wf(),
        l.seat_of(id) == Some(from),
        from != to,
    ensures
        ({
            let (h2, out) = seat_move_step(h, id, Some(to));
            if l.seat(to) == Some(None::<SlotView>) {
                &&& who(h2, lid, to) == Some(id)
                &&& who(h2, lid, from) is None
                &&& forall|n: int|
                    n != from && n != to ==> #[trigger] who(h2, lid, n) == who_in(l, n)
            } else {
                &&& h2 == h
                &&& l.seat(to) is Some ==> hears_no(out, id, "slot_taken"@)
                &&& l.seat(to) is None ==> hears_no(out, id, "bad_slot"@)
            }
        }),
{
    lemma_seat_of(l, id);
    lemma_refused(id, "slot_taken"@);
    lemma_refused(id, "bad_slot"@);
    if l.seat(to) == Some(None::<SlotView>) {
        lemma_trades(h, lid, l, from, to);
    }
}

/// What trading two seats does to a room.
proof fn lemma_trades(h: HubView, lid: Seq<char>, l: LobbyView, a: int, b: int)
    requires
        h.lobby(lid) == Some(l),
        l.seat(a) is Some,
        l.seat(b) is Some,
        a != b,
    ensures
        who(moved(h, lid, a, b), lid, a) == who_in(l, b),
        who(moved(h, lid, a, b), lid, b) == who_in(l, a),
        forall|n: int|
            n != a && n != b ==> #[trigger] who(moved(h, lid, a, b), lid, n) == who_in(l, n),
{
    lemma_room_named(h, lid);
    let t = l.traded(a, b);
    lemma_traded(l, a, b);
    lemma_reshuffled(t);
    lemma_with_lobby(h, lid, t.reshuffled());
    let h2 = moved(h, lid, a, b);
    assert(h2.lobby(lid) == Some(t.reshuffled()));
    assert forall|n: int|
        #[trigger] who(h2, lid, n) == who_in(l, super::roster::traded_seat(a, b, n)) by {
        assert(who_in(t.reshuffled(), n) == who_in(t, n));
    }
    assert(who(h2, lid, a) == who_in(l, b));
    assert(who(h2, lid, b) == who_in(l, a));
}

/// The host trades two seats, of which the first is taken and neither is the
/// first of the room: whoever sits in them trades places, nobody else moves.
pub proof fn law_the_host_trades_two_seats(
    h: HubView,
    id: Seq<char>,
    lid: Seq<char>,
    l: LobbyView,
    a: int,
    b: int,
)
    requires
        hosts(h, id, lid, l),
        who_in(l, a) is Some,
        l.seat(b) is Some,
        a != b,
        a != 0,
        b != 0,
    ensures
        ({
            let (h2, out) = move_step(h, id, Some(a), Some(b));
            &&& who(h2, lid, a) == who_in(l, b)
            &&& who(h2, lid, b) == who_in(l, a)
            &&& forall|n: int| n != a && n != b ==> #[trigger] who(h2, lid, n) == who_in(l, n)
        }),
{
    lemma_trades(h, lid, l, a, b);
}

/// Nobody but the host moves others.
pub proof fn law_moving_others_is_the_hosts(
    h: HubView,
    id: Seq<char>,
    lid: Seq<char>,
    l: LobbyView,
    a: int,
    b: int,
)
    requires
        member(h, id, lid, l),
        l.host_player_id != id,
        a != b,
    ensures
        move_step(h, id, Some(a), Some(b)).0 == h,
        hears_no(move_step(h, id, Some(a), Some(b)).1, id, "not_host"@),
{
    lemma_refused(id, "not_host"@);
}

/// A request to trade seats reaches whoever sits in the seat that is asked for,
/// and names the asker.
pub proof fn law_a_swap_is_asked_of_its_owner(
    h: HubView,
    id: Seq<char>,
    lid: Seq<char>,
    l: LobbyView,
    from: int,
    target: int,
    v: Seq<char>,
)
    requires
        member(h, id, lid, l),
        l.seat_of(id) == Some(from),
        who_in(l, target) == Some(v),
        target != from,
    ensures
        ({
            let out = swap_request_step(h, id, Some(target));
            &&& out.len() == 1
            &&& out[0] is Send
            &&& out[0]->Send_to == v
            &&& out[0]->Send_msg.get("op"@) == Some(JsonView::Str("seat_swap_ask"@))
            &&& out[0]->Send_msg.get("asker_player_id"@) == Some(JsonView::Str(id))
            &&& out[0]->Send_msg.get("from_slot"@) == Some(JsonView::Int(from))
            &&& out[0]->Send_msg.get("target_slot"@) == Some(JsonView::Int(target))
        }),
{
    broadcast use lemma_with_read;

    lemma_keys();
}

/// A trade that its owner accepts puts each in the other's seat, and nobody else
/// moves; one that is refused moves nobody. The asker hears which.
pub proof fn law_a_swap_takes_a_yes(
    h: HubView,
    id: Seq<char>,
    lid: Seq<char>,
    l: LobbyView,
    asker: Seq<char>,
    accept: bool,
    mine: int,
    theirs: int,
)
    requires
        member(h, id, lid, l),
        l.wf(),
        asker.len() > 0,
        l.seat_of(id) == Some(mine),
        l.seat_of(asker) == Some(theirs),
        mine != theirs,
    ensures
        ({
            let (h2, out) = swap_answer_step(h, id, asker, accept);
            &&& out.len() > 0
            &&& out[0] is Send && out[0]->Send_to == asker
            &&& out[0]->Send_msg.get("op"@) == Some(JsonView::Str("seat_swap_result"@))
            &&& out[0]->Send_msg.get("accept"@) == Some(JsonView::Bool(accept))
            &&& if accept {
                &&& who(h2, lid, mine) == Some(asker)
                &&& who(h2, lid, theirs) == Some(id)
                &&& forall|n: int|
                    n != mine && n != theirs ==> #[trigger] who(h2, lid, n) == who_in(l, n)
            } else {
                h2 == h
            }
        }),
{
    broadcast use lemma_with_read;

    lemma_keys();
    lemma_seat_of(l, id);
    lemma_seat_of(l, asker);
    let (h2, out) = swap_answer_step(h, id, asker, accept);
    assert(out[0] == EffectView::Send { to: asker, msg: swap_result(accept) });
    if accept {
        lemma_swapped(h, lid, l, mine, theirs);
    }
}

proof fn lemma_swapped(h: HubView, lid: Seq<char>, l: LobbyView, a: int, b: int)
    requires
        h.lobby(lid) == Some(l),
        l.seat(a) is Some,
        l.seat(b) is Some,
        a != b,
    ensures
        ({
            let h2 = h.with_lobby(lid, swapped_lobby(l, a, b));
            &&& who(h2, lid, a) == who_in(l, b)
            &&& who(h2, lid, b) == who_in(l, a)
            &&& forall|n: int| n != a && n != b ==> #[trigger] who(h2, lid, n) == who_in(l, n)
        }),
{
    lemma_room_named(h, lid);
    let t = l.traded(a, b);
    lemma_traded(l, a, b);
    lemma_reshuffled(t);
    lemma_unreadied(t);
    let l2 = swapped_lobby(l, a, b);
    lemma_with_lobby(h, lid, l2);
    let h2 = h.with_lobby(lid, l2);
    assert(h2.lobby(lid) == Some(l2));
    assert forall|n: int|
        #[trigger] who(h2, lid, n) == who_in(l, super::roster::traded_seat(a, b, n)) by {
        assert(who_in(t.reshuffled(), n) == who_in(t, n));
        assert(who_in(l2, n) == who_in(t, n));
    }
    assert(who(h2, lid, a) == who_in(l, b));
    assert(who(h2, lid, b) == who_in(l, a));
}

/// A player that says so is ready, or is not, and nobody else's seat changes; a
/// spectator's word changes nothing about it.
pub proof fn law_ready_is_ones_own(
    h: HubView,
    id: Seq<char>,
    lid: Seq<char>,
    l: LobbyView,
    k: int,
    ready: bool,
    bios: Option<JsonView>,
    mods: Option<JsonView>,
    memcard: Option<JsonView>,
)
    requires
        member(h, id, lid, l),
        l.wf(),
        0 <= k < l.slots.len(),
        l.seat_of(id) == Some(k),
    ensures
        ({
            let h2 = set_ready_step(h, id, ready, bios, mods, memcard).0;
            &&& h2.lobby(lid) is Some
            &&& h2.lobby(lid)->0.slots[k] is Some
            &&& h2.lobby(lid)->0.slots[k]->0.player_id == id
            &&& h2.lobby(lid)->0.slots[k]->0.ready == ready
            &&& bios is Some ==> h2.lobby(lid)->0.slots[k]->0.bios_offer == bios
            &&& mods is Some ==> h2.lobby(lid)->0.slots[k]->0.mod_offer == mods
            &&& memcard is Some ==> h2.lobby(lid)->0.slots[k]->0.memcard_offer == memcard
            &&& forall|n: int|
                0 <= n < l.slots.len() && n != k ==> #[trigger] h2.lobby(lid)->0.slots[n]
                    == l.slots[n]
            &&& h2.lobby(lid)->0.spectators == l.spectators
        }),
{
    lemma_room_named(h, lid);
    lemma_seat_of(l, id);
    let s = super::seats::readied(l.seat(k)->0->0, false, ready, bios, mods, memcard);
    lemma_with_lobby(h, lid, l.with_seat(k, Some(s)));
}

} // verus!
