//! Who has to confirm again when a room changes, and the seat that stays put.

use super::input::rewritten;
use super::join::{country_of, joined_lobby, seat_step, wanted_name};
use super::model::{
    fresh_slot, pathless_slot, unready_slot, vacated, HubView, LobbyView,
};
use super::roster::{lemma_reshuffled, lemma_traded, lemma_with_lobby, who, who_in};
use super::seating::lemma_room_named;
use super::seats::{closes_with, kick_step, kicked_lobby, leave_step, left_lobby, move_step};
use crate::json::JsonView;
use vstd::prelude::*;

verus! {

/// Whether no player of the room is ready.
pub open spec fn nobody_ready(l: LobbyView) -> bool {
    forall|i: int|
        0 <= i < l.slots.len() ==> ((#[trigger] l.slots[i]) matches Some(s) ==> !s.ready)
}

proof fn lemma_nobody_ready(l: LobbyView)
    ensures
        nobody_ready(l.reshuffled()),
{
    let l2 = l.reshuffled();
    assert forall|i: int| 0 <= i < l2.slots.len() implies ((#[trigger] l2.slots[i]) matches Some(s)
        ==> !s.ready) by {
        assert(l2.slots[i] == pathless_slot(unready_slot(l.slots[i])));
    }
}

/// Whoever joins a room finds nobody ready in it.
pub proof fn law_joining_clears_ready(
    h: HubView,
    lid: Seq<char>,
    id: Seq<char>,
    peer_ip: Seq<char>,
    guest_bind: Seq<char>,
    password: Option<Seq<char>>,
    mod_offer: Option<JsonView>,
    tag: Seq<char>,
)
    requires
        seat_step(h, lid, id, peer_ip, guest_bind, password, mod_offer, tag).1 is Seated,
    ensures
        seat_step(h, lid, id, peer_ip, guest_bind, password, mod_offer, tag).0.lobby(
            lid,
        ) matches Some(l) && nobody_ready(l),
{
    let (h3, s) = seat_step(h, lid, id, peer_ip, guest_bind, password, mod_offer, tag);
    lemma_room_named(h, lid);
    let l = h.lobby(lid)->0;
    let name = l.unique_name(wanted_name(h, id), Some(id), tag);
    let sat = fresh_slot(id, name, country_of(h, id));
    let guest = rewritten(guest_bind, peer_ip);
    let l2 = joined_lobby(l, s->slot, sat, guest);
    lemma_nobody_ready(l.with_seat(s->slot, Some(sat)));
    lemma_with_lobby(h, lid, l2);
    assert(h3.lobbies == h.with_lobby(lid, l2).lobbies);
    assert(h3.lobby(lid) == h.with_lobby(lid, l2).lobby(lid));
}

/// A room that outlives a departure has nobody ready in it.
pub proof fn law_leaving_clears_ready(h: HubView, id: Seq<char>, lid: Seq<char>)
    requires
        h.lobby_id_of(id) == Some(lid),
        h.lobby(lid) matches Some(l) && !closes_with(l, id),
    ensures
        leave_step(h, id).0.lobby(lid) matches Some(l) && nobody_ready(l),
{
    lemma_room_named(h, lid);
    let l = h.lobby(lid)->0;
    let h1 = h.with_client_lobby(id, None);
    assert(h1.lobbies == h.lobbies);
    assert(h1.lobby(lid) == h.lobby(lid));
    let l2 = left_lobby(l, id);
    let gone = LobbyView {
        slots: vacated(l.slots, id),
        spectators: vacated(l.spectators, id),
        guest_endpoint: Seq::empty(),
        ..l
    };
    assert(l2 == gone.reshuffled());
    lemma_nobody_ready(gone);
    lemma_with_lobby(h1, lid, l2);
}

/// A kick leaves nobody ready in the room.
pub proof fn law_a_kick_clears_ready(h: HubView, id: Seq<char>, lid: Seq<char>, slot: int)
    requires
        h.lobby_id_of(id) == Some(lid),
        kick_step(h, id, slot).0 != h,
    ensures
        kick_step(h, id, slot).0.lobby(lid) matches Some(l) && nobody_ready(l),
{
    lemma_room_named(h, lid);
    let l = h.lobby(lid)->0;
    let l2 = kicked_lobby(l, slot);
    let h1 = h.with_lobby(lid, l2);
    lemma_nobody_ready(LobbyView { guest_endpoint: Seq::empty(), ..l.with_seat(slot, None) });
    lemma_with_lobby(h, lid, l2);
    let h2 = kick_step(h, id, slot).0;
    assert(h2.lobbies == h1.lobbies);
    assert(h2.lobby(lid) == h1.lobby(lid));
}

/// The host's `move` never touches slot 0, and leaves nobody ready where it
/// moved somebody.
pub proof fn law_moves_keep_the_host_slot(
    h: HubView,
    id: Seq<char>,
    lid: Seq<char>,
    from: Option<int>,
    to: Option<int>,
)
    requires
        h.lobby_id_of(id) == Some(lid),
    ensures
        who(move_step(h, id, from, to).0, lid, 0) == who(h, lid, 0),
        move_step(h, id, from, to).0 != h ==> (move_step(h, id, from, to).0.lobby(
            lid,
        ) matches Some(l) && nobody_ready(l)),
{
    if move_step(h, id, from, to).0 != h {
        let (a, b) = (from->0, to->0);
        lemma_room_named(h, lid);
        let l = h.lobby(lid)->0;
        let l2 = l.traded(a, b);
        lemma_traded(l, a, b);
        lemma_reshuffled(l2);
        lemma_nobody_ready(l2);
        lemma_with_lobby(h, lid, l2.reshuffled());
        assert(who_in(l2.reshuffled(), 0) == who_in(l2, 0));
    }
}

} // verus!
