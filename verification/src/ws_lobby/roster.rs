//! Who sits where. A connection and the room that seats it name each other,
//! and nobody sits twice.

use super::hub::distinct_clients;
use super::model::{
    pathless_slot, seated, sits, spectator_index, unready, unready_slot, vacated, ClientView,
    HubView, LobbyView, SlotView, SPECTATOR_SLOT_BASE,
};
use crate::find::{lemma_first_is, lemma_first_none, lemma_first_where};
use vstd::prelude::*;

verus! {

// ---------------------------------------------------------------- the seating

/// Who sits in the seat `n` of a room.
pub open spec fn who_in(l: LobbyView, n: int) -> Option<Seq<char>> {
    match l.seat(n) {
        Some(Some(s)) => Some(s.player_id),
        _ => None,
    }
}

/// Who sits in the seat `n` of the room `lid`.
pub open spec fn who(h: HubView, lid: Seq<char>, n: int) -> Option<Seq<char>> {
    match h.lobby(lid) {
        Some(l) => who_in(l, n),
        None => None,
    }
}

/// No two rooms have one id.
pub open spec fn distinct_lobbies(h: HubView) -> bool {
    forall|i: int, j: int|
        0 <= i < j < h.lobbies.len() ==> (#[trigger] h.lobbies[i]).lobby_id != (
        #[trigger] h.lobbies[j]).lobby_id
}

/// Whoever sits in a room is a connection that names the room.
pub open spec fn seats_name_rooms(h: HubView) -> bool {
    forall|lid: Seq<char>, n: int|
        #![trigger who(h, lid, n)]
        who(h, lid, n) is Some ==> h.lobby_id_of(who(h, lid, n)->0) == Some(lid)
}

/// Nobody has two seats of a room.
pub open spec fn one_seat_each(h: HubView) -> bool {
    forall|lid: Seq<char>, n: int, m: int|
        #![trigger who(h, lid, n), who(h, lid, m)]
        who(h, lid, n) is Some && who(h, lid, n) == who(h, lid, m) ==> n == m
}

/// Whether `p` sits in the room `lid`.
pub open spec fn seated_in(h: HubView, lid: Seq<char>, p: Seq<char>) -> bool {
    exists|n: int| #[trigger] who(h, lid, n) == Some(p)
}

/// A connection that names a room sits in it.
pub open spec fn rooms_seat_members(h: HubView) -> bool {
    forall|p: Seq<char>|
        #[trigger] h.lobby_id_of(p) is Some ==> seated_in(h, h.lobby_id_of(p)->0, p)
}

/// Connections and rooms agree on who sits where.
pub open spec fn settled(h: HubView) -> bool {
    &&& distinct_clients(h)
    &&& distinct_lobbies(h)
    &&& seats_name_rooms(h)
    &&& one_seat_each(h)
    &&& rooms_seat_members(h)
}

/// `b` has the connections and the rooms of `a`, and seats them alike.
pub open spec fn same_seating(a: HubView, b: HubView) -> bool {
    &&& distinct_clients(a) ==> distinct_clients(b)
    &&& distinct_lobbies(a) ==> distinct_lobbies(b)
    &&& forall|p: Seq<char>| #[trigger] b.lobby_id_of(p) == a.lobby_id_of(p)
    &&& forall|p: Seq<char>| (#[trigger] b.client(p) is Some) == (a.client(p) is Some)
    &&& forall|lid: Seq<char>| (#[trigger] b.lobby(lid) is Some) == (a.lobby(lid) is Some)
    &&& forall|lid: Seq<char>, n: int| #[trigger] who(b, lid, n) == who(a, lid, n)
}

pub proof fn lemma_same_seating(a: HubView, b: HubView)
    requires
        settled(a),
        same_seating(a, b),
    ensures
        settled(b),
{
    assert forall|lid: Seq<char>, n: int| #![trigger who(b, lid, n)] who(b, lid, n) is Some implies b.lobby_id_of(
        who(b, lid, n)->0,
    ) == Some(lid) by {
        assert(who(a, lid, n) == who(b, lid, n));
    }
    assert forall|lid: Seq<char>, n: int, m: int|
        #![trigger who(b, lid, n), who(b, lid, m)]
        who(b, lid, n) is Some && who(b, lid, n) == who(b, lid, m) implies n == m by {
        assert(who(a, lid, n) == who(b, lid, n));
        assert(who(a, lid, m) == who(b, lid, m));
    }
    assert forall|p: Seq<char>| #[trigger] b.lobby_id_of(p) is Some implies seated_in(
        b,
        b.lobby_id_of(p)->0,
        p,
    ) by {
        let lid = a.lobby_id_of(p)->0;
        assert(b.lobby_id_of(p) == a.lobby_id_of(p));
        assert(seated_in(a, lid, p));
        let n = choose|n: int| who(a, lid, n) == Some(p);
        assert(who(b, lid, n) == Some(p));
    }
}

pub proof fn lemma_same_seating_chain(a: HubView, b: HubView, c: HubView)
    requires
        same_seating(a, b),
        same_seating(b, c),
    ensures
        same_seating(a, c),
{
    assert forall|p: Seq<char>| #[trigger] c.lobby_id_of(p) == a.lobby_id_of(p) by {
        assert(b.lobby_id_of(p) == a.lobby_id_of(p));
    }
    assert forall|p: Seq<char>| (#[trigger] c.client(p) is Some) == (a.client(p) is Some) by {
        assert((b.client(p) is Some) == (a.client(p) is Some));
    }
    assert forall|lid: Seq<char>| (#[trigger] c.lobby(lid) is Some) == (a.lobby(lid) is Some) by {
        assert((b.lobby(lid) is Some) == (a.lobby(lid) is Some));
    }
    assert forall|lid: Seq<char>, n: int| #[trigger] who(c, lid, n) == who(a, lid, n) by {
        assert(who(b, lid, n) == who(a, lid, n));
    }
}

/// In a settled hub nobody sits twice, in one room or in two.
pub proof fn law_nobody_sits_twice(
    h: HubView,
    p: Seq<char>,
    x: Seq<char>,
    n: int,
    y: Seq<char>,
    m: int,
)
    requires
        settled(h),
        who(h, x, n) == Some(p),
        who(h, y, m) == Some(p),
    ensures
        x == y,
        n == m,
{
}

// ---------------------------------------------------- clients and rooms by id

/// Putting a client in its own place changes that client only.
pub proof fn lemma_with_client(h: HubView, id: Seq<char>, c: ClientView)
    requires
        h.client(id) is Some,
        c.player_id == id,
    ensures
        forall|p: Seq<char>|
            #[trigger] h.with_client(id, c).client(p) == (if p == id {
                Some(c)
            } else {
                h.client(p)
            }),
        distinct_clients(h) ==> distinct_clients(h.with_client(id, c)),
{
    let named = |x: ClientView| x.player_id == id;
    lemma_first_where(h.clients, named);
    let i = h.client_at(id)->0;
    let h2 = h.with_client(id, c);
    assert forall|p: Seq<char>|
        #[trigger] h2.client(p) == (if p == id {
            Some(c)
        } else {
            h.client(p)
        }) by {
        let isp = |x: ClientView| x.player_id == p;
        lemma_first_where(h.clients, isp);
        assert forall|k: int| 0 <= k < h.clients.len() implies isp(#[trigger] h2.clients[k]) == isp(
            h.clients[k],
        ) by {}
        match h.client_at(p) {
            Some(k) => {
                assert forall|j: int| 0 <= j < k implies !isp(#[trigger] h2.clients[j]) by {
                    assert(!isp(h.clients[j]));
                }
                lemma_first_is(h2.clients, isp, k);
            },
            None => {
                assert forall|j: int| 0 <= j < h2.clients.len() implies !isp(
                    #[trigger] h2.clients[j],
                ) by {
                    assert(!isp(h.clients[j]));
                }
                lemma_first_none(h2.clients, isp);
            },
        }
    }
    if distinct_clients(h) {
        assert forall|a: int, b: int| 0 <= a < b < h2.clients.len() implies (
        #[trigger] h2.clients[a]).player_id != (#[trigger] h2.clients[b]).player_id by {
            assert(h.clients[a].player_id != h.clients[b].player_id);
        }
    }
}

/// A client that still names the room it named seats everybody as before.
pub proof fn lemma_touched_client(h: HubView, id: Seq<char>, c: ClientView)
    requires
        h.client(id) is Some,
        c.player_id == id,
        c.lobby_id == h.client(id)->0.lobby_id,
    ensures
        same_seating(h, h.with_client(id, c)),
{
    lemma_with_client(h, id, c);
    let h2 = h.with_client(id, c);
    assert(h2.lobbies == h.lobbies);
}

/// Putting a room in its own place changes that room only.
pub proof fn lemma_with_lobby(h: HubView, lid: Seq<char>, l: LobbyView)
    requires
        h.lobby(lid) is Some,
        l.lobby_id == lid,
    ensures
        forall|x: Seq<char>|
            #[trigger] h.with_lobby(lid, l).lobby(x) == (if x == lid {
                Some(l)
            } else {
                h.lobby(x)
            }),
        distinct_lobbies(h) ==> distinct_lobbies(h.with_lobby(lid, l)),
        h.with_lobby(lid, l).clients == h.clients,
{
    let named = |x: LobbyView| x.lobby_id == lid;
    lemma_first_where(h.lobbies, named);
    let h2 = h.with_lobby(lid, l);
    assert forall|x: Seq<char>|
        #[trigger] h2.lobby(x) == (if x == lid {
            Some(l)
        } else {
            h.lobby(x)
        }) by {
        let isx = |y: LobbyView| y.lobby_id == x;
        lemma_first_where(h.lobbies, isx);
        assert forall|k: int| 0 <= k < h.lobbies.len() implies isx(#[trigger] h2.lobbies[k]) == isx(
            h.lobbies[k],
        ) by {}
        match h.lobby_at(x) {
            Some(k) => {
                assert forall|j: int| 0 <= j < k implies !isx(#[trigger] h2.lobbies[j]) by {
                    assert(!isx(h.lobbies[j]));
                }
                lemma_first_is(h2.lobbies, isx, k);
            },
            None => {
                assert forall|j: int| 0 <= j < h2.lobbies.len() implies !isx(
                    #[trigger] h2.lobbies[j],
                ) by {
                    assert(!isx(h.lobbies[j]));
                }
                lemma_first_none(h2.lobbies, isx);
            },
        }
    }
    if distinct_lobbies(h) {
        assert forall|a: int, b: int| 0 <= a < b < h2.lobbies.len() implies (
        #[trigger] h2.lobbies[a]).lobby_id != (#[trigger] h2.lobbies[b]).lobby_id by {
            assert(h.lobbies[a].lobby_id != h.lobbies[b].lobby_id);
        }
    }
}

/// A room with everybody in the seat they had seats everybody as before.
pub proof fn lemma_touched_lobby(h: HubView, lid: Seq<char>, l: LobbyView)
    requires
        h.lobby(lid) is Some,
        l.lobby_id == lid,
        forall|n: int| #[trigger] who_in(l, n) == who_in(h.lobby(lid)->0, n),
    ensures
        same_seating(h, h.with_lobby(lid, l)),
{
    lemma_with_lobby(h, lid, l);
    let h2 = h.with_lobby(lid, l);
    assert forall|x: Seq<char>, n: int| #[trigger] who(h2, x, n) == who(h, x, n) by {
        assert(h2.lobby(x) == (if x == lid {
            Some(l)
        } else {
            h.lobby(x)
        }));
        assert(who_in(l, n) == who_in(h.lobby(lid)->0, n));
    }
}

// ------------------------------------------------------------- seats of a room

/// Emptying or filling a seat changes who sits there, and nowhere else.
pub proof fn lemma_with_seat(l: LobbyView, seat: int, to: Option<SlotView>)
    requires
        l.seat(seat) is Some,
    ensures
        forall|n: int|
            #[trigger] who_in(l.with_seat(seat, to), n) == (if n == seat {
                match to {
                    Some(s) => Some(s.player_id),
                    None => None,
                }
            } else {
                who_in(l, n)
            }),
        forall|n: int| (#[trigger] l.with_seat(seat, to).seat(n) is Some) == (l.seat(n) is Some),
        l.with_seat(seat, to).seat(seat) == Some(to),
        forall|n: int| n != seat ==> #[trigger] l.with_seat(seat, to).seat(n) == l.seat(n),
        l.with_seat(seat, to).lobby_id == l.lobby_id,
{
}

/// A fresh roster leaves everybody in their seat.
pub proof fn lemma_reshuffled(l: LobbyView)
    ensures
        forall|n: int| #[trigger] who_in(l.reshuffled(), n) == who_in(l, n),
        l.reshuffled().lobby_id == l.lobby_id,
{
    assert forall|n: int| #[trigger] who_in(l.reshuffled(), n) == who_in(l, n) by {
        if 0 <= n < l.slots.len() {
            assert(l.reshuffled().slots[n] == pathless_slot(unready_slot(l.slots[n])));
        }
        let i = n - SPECTATOR_SLOT_BASE;
        if 0 <= i < l.spectators.len() {
            assert(l.reshuffled().spectators[i] == pathless_slot(l.spectators[i]));
        }
    }
}

/// Un-readying leaves everybody in their seat.
pub proof fn lemma_unreadied(l: LobbyView)
    ensures
        forall|n: int|
            #[trigger] who_in(LobbyView { slots: unready(l.slots), ..l }, n) == who_in(l, n),
{
    let l2 = LobbyView { slots: unready(l.slots), ..l };
    assert forall|n: int| #[trigger] who_in(l2, n) == who_in(l, n) by {
        if 0 <= n < l.slots.len() {
            assert(l2.slots[n] == unready_slot(l.slots[n]));
        }
    }
}

/// The seat that whoever sits in `n` came from, once `a` and `b` were traded.
pub open spec fn traded_seat(a: int, b: int, n: int) -> int {
    if n == a {
        b
    } else if n == b {
        a
    } else {
        n
    }
}

/// Trading two seats trades who sits in them.
pub proof fn lemma_traded(l: LobbyView, a: int, b: int)
    requires
        l.seat(a) is Some,
        l.seat(b) is Some,
        a != b,
    ensures
        forall|n: int|
            #[trigger] who_in(l.traded(a, b), n) == who_in(l, traded_seat(a, b, n)),
        l.traded(a, b).lobby_id == l.lobby_id,
{
    let first = l.with_seat(a, l.seat(b)->0);
    lemma_with_seat(l, a, l.seat(b)->0);
    assert(first.seat(b) is Some);
    lemma_with_seat(first, b, l.seat(a)->0);
}

/// Somebody who left sits nowhere in the room; everybody else stays.
pub proof fn lemma_left(l: LobbyView, id: Seq<char>)
    ensures
        forall|n: int|
            #[trigger] who_in(super::seats::left_lobby(l, id), n) == (if who_in(l, n) == Some(id) {
                None
            } else {
                who_in(l, n)
            }),
{
    let l2 = super::seats::left_lobby(l, id);
    assert forall|n: int|
        #[trigger] who_in(l2, n) == (if who_in(l, n) == Some(id) {
            None
        } else {
            who_in(l, n)
        }) by {
        if 0 <= n < l.slots.len() {
            assert(l2.slots[n] == pathless_slot(unready_slot(vacated(l.slots, id)[n])));
        }
        let i = n - SPECTATOR_SLOT_BASE;
        if 0 <= i < l.spectators.len() {
            assert(l2.spectators[i] == pathless_slot(vacated(l.spectators, id)[i]));
        }
    }
}

proof fn lemma_seated_contains(v: Seq<Option<SlotView>>, p: Seq<char>)
    ensures
        (exists|k: int| 0 <= k < seated(v).len() && (#[trigger] seated(v)[k]).player_id == p) <==> (
        exists|i: int| 0 <= i < v.len() && sits(#[trigger] v[i], p)),
    decreases v.len(),
{
    if v.len() > 0 {
        let w = v.drop_last();
        lemma_seated_contains(w, p);
        if exists|k: int| 0 <= k < seated(v).len() && (#[trigger] seated(v)[k]).player_id == p {
            let k = choose|k: int|
                0 <= k < seated(v).len() && (#[trigger] seated(v)[k]).player_id == p;
            if k < seated(w).len() {
                assert(seated(w)[k].player_id == p);
                let i = choose|i: int| 0 <= i < w.len() && sits(#[trigger] w[i], p);
                assert(sits(v[i], p));
            } else {
                assert(sits(v[v.len() - 1], p));
            }
        }
        if exists|i: int| 0 <= i < v.len() && sits(#[trigger] v[i], p) {
            let i = choose|i: int| 0 <= i < v.len() && sits(#[trigger] v[i], p);
            if i < w.len() {
                assert(sits(w[i], p));
                let k = choose|k: int|
                    0 <= k < seated(w).len() && (#[trigger] seated(w)[k]).player_id == p;
                assert(seated(v)[k].player_id == p);
            } else {
                assert(seated(v)[seated(v).len() - 1].player_id == p);
            }
        }
    }
}

/// The members of a room are those who sit in it.
pub proof fn lemma_members(l: LobbyView, p: Seq<char>)
    requires
        l.wf(),
    ensures
        l.member_ids().contains(p) <==> exists|n: int| #[trigger] who_in(l, n) == Some(p),
{
    lemma_seated_contains(l.slots, p);
    lemma_seated_contains(l.spectators, p);
    let players = seated(l.slots);
    let watchers = seated(l.spectators);
    if l.member_ids().contains(p) {
        let k = choose|k: int| 0 <= k < l.member_ids().len() && l.member_ids()[k] == p;
        if k < players.len() {
            assert(players[k].player_id == p);
            let i = choose|i: int| 0 <= i < l.slots.len() && sits(#[trigger] l.slots[i], p);
            assert(who_in(l, i) == Some(p));
        } else {
            assert(watchers[k - players.len()].player_id == p);
            let i = choose|i: int|
                0 <= i < l.spectators.len() && sits(#[trigger] l.spectators[i], p);
            assert(who_in(l, SPECTATOR_SLOT_BASE + i) == Some(p));
        }
    }
    if exists|n: int| #[trigger] who_in(l, n) == Some(p) {
        let n = choose|n: int| #[trigger] who_in(l, n) == Some(p);
        if spectator_index(n) {
            let i = n - SPECTATOR_SLOT_BASE;
            assert(sits(l.spectators[i], p));
            let k = choose|k: int|
                0 <= k < watchers.len() && (#[trigger] watchers[k]).player_id == p;
            assert(l.member_ids()[players.len() + k] == p);
        } else {
            assert(sits(l.slots[n], p));
            let k = choose|k: int|
                0 <= k < players.len() && (#[trigger] players[k]).player_id == p;
            assert(l.member_ids()[k] == p);
        }
    }
}

/// The seat of somebody is one that they sit in.
pub proof fn lemma_seat_of(l: LobbyView, id: Seq<char>)
    requires
        l.wf(),
    ensures
        l.seat_of(id) matches Some(n) ==> l.seat(n) is Some && l.seat(n)->0 is Some && who_in(l, n)
            == Some(id),
{
    lemma_first_where(l.slots, |o: Option<SlotView>| sits(o, id));
    lemma_first_where(l.spectators, |o: Option<SlotView>| sits(o, id));
}

// ------------------------------------------------------ rooms that come and go

/// Where a client's room is set, nothing else changes.
pub proof fn lemma_client_lobby(h: HubView, id: Seq<char>, lobby: Option<Seq<char>>)
    ensures
        ({
            let h2 = h.with_client_lobby(id, lobby);
            &&& forall|p: Seq<char>|
                #[trigger] h2.lobby_id_of(p) == (if p == id && h.client(id) is Some {
                    lobby
                } else {
                    h.lobby_id_of(p)
                })
            &&& forall|p: Seq<char>| (#[trigger] h2.client(p) is Some) == (h.client(p) is Some)
            &&& distinct_clients(h) ==> distinct_clients(h2)
            &&& h2.lobbies == h.lobbies
        }),
{
    lemma_first_where(h.clients, |c: ClientView| c.player_id == id);
    if let Some(c) = h.client(id) {
        let c2 = ClientView { lobby_id: lobby, ..c };
        lemma_with_client(h, id, c2);
        let h2 = h.with_client_lobby(id, lobby);
        assert forall|p: Seq<char>|
            #[trigger] h2.lobby_id_of(p) == (if p == id {
                lobby
            } else {
                h.lobby_id_of(p)
            }) by {
            assert(h2.client(p) == (if p == id {
                Some(c2)
            } else {
                h.client(p)
            }));
        }
    }
}

/// Detaching some clients leaves them in no room, and nobody else.
pub proof fn lemma_detached(h: HubView, ids: Seq<Seq<char>>)
    ensures
        ({
            let h2 = h.detached(ids);
            &&& forall|p: Seq<char>|
                #[trigger] h2.lobby_id_of(p) == (if ids.contains(p) {
                    None
                } else {
                    h.lobby_id_of(p)
                })
            &&& forall|p: Seq<char>| (#[trigger] h2.client(p) is Some) == (h.client(p) is Some)
            &&& distinct_clients(h) ==> distinct_clients(h2)
            &&& h2.lobbies == h.lobbies
        }),
    decreases ids.len(),
{
    if ids.len() > 0 {
        let rest = ids.drop_last();
        lemma_detached(h, rest);
        let h1 = h.detached(rest);
        let h2 = h.detached(ids);
        lemma_client_lobby(h1, ids.last(), None);
        assert forall|p: Seq<char>|
            #[trigger] h2.lobby_id_of(p) == (if ids.contains(p) {
                None
            } else {
                h.lobby_id_of(p)
            }) by {
            assert(h1.lobby_id_of(p) == (if rest.contains(p) {
                None
            } else {
                h.lobby_id_of(p)
            }));
            if rest.contains(p) {
                let k = choose|k: int| 0 <= k < rest.len() && rest[k] == p;
                assert(ids[k] == p);
            }
            if ids.contains(p) && p != ids.last() {
                let k = choose|k: int| 0 <= k < ids.len() && ids[k] == p;
                assert(rest[k] == p);
            }
            if p == ids.last() {
                assert(ids[ids.len() - 1] == p);
                assert(h1.client(p) is None ==> h1.lobby_id_of(p) is None);
            }
        }
        assert forall|p: Seq<char>| (#[trigger] h2.client(p) is Some) == (h.client(p) is Some) by {
            assert((h1.client(p) is Some) == (h.client(p) is Some));
        }
    }
}

/// A new room is found, and every other as before.
pub proof fn lemma_pushed_lobby(h: HubView, h2: HubView, l: LobbyView)
    requires
        h.lobby(l.lobby_id) is None,
        h2.lobbies == h.lobbies.push(l),
    ensures
        forall|x: Seq<char>|
            #[trigger] h2.lobby(x) == (if x == l.lobby_id {
                Some(l)
            } else {
                h.lobby(x)
            }),
        distinct_lobbies(h) ==> distinct_lobbies(h2),
{
    assert forall|x: Seq<char>|
        #[trigger] h2.lobby(x) == (if x == l.lobby_id {
            Some(l)
        } else {
            h.lobby(x)
        }) by {
        let isx = |y: LobbyView| y.lobby_id == x;
        lemma_first_where(h.lobbies, isx);
        match h.lobby_at(x) {
            Some(k) => {
                assert forall|j: int| 0 <= j < k implies !isx(#[trigger] h2.lobbies[j]) by {
                    assert(!isx(h.lobbies[j]));
                }
                lemma_first_is(h2.lobbies, isx, k);
            },
            None => {
                assert forall|j: int| 0 <= j < h.lobbies.len() implies !isx(
                    #[trigger] h2.lobbies[j],
                ) by {
                    assert(!isx(h.lobbies[j]));
                }
                if x == l.lobby_id {
                    lemma_first_is(h2.lobbies, isx, h.lobbies.len() as int);
                } else {
                    lemma_first_none(h2.lobbies, isx);
                }
            },
        }
    }
    let named = |y: LobbyView| y.lobby_id == l.lobby_id;
    lemma_first_where(h.lobbies, named);
    if distinct_lobbies(h) {
        assert forall|a: int, b: int| 0 <= a < b < h2.lobbies.len() implies (
        #[trigger] h2.lobbies[a]).lobby_id != (#[trigger] h2.lobbies[b]).lobby_id by {
            if b < h.lobbies.len() {
                assert(h.lobbies[a].lobby_id != h.lobbies[b].lobby_id);
            } else {
                assert(!named(h.lobbies[a]));
            }
        }
    }
}

/// A room that was taken out is not found, and every other as before.
pub proof fn lemma_removed_lobby(h: HubView, h2: HubView, lid: Seq<char>)
    requires
        distinct_lobbies(h),
        h.lobby(lid) is Some,
        h2.lobbies == h.lobbies.remove(h.lobby_at(lid)->0),
    ensures
        forall|x: Seq<char>|
            #[trigger] h2.lobby(x) == (if x == lid {
                None
            } else {
                h.lobby(x)
            }),
        distinct_lobbies(h2),
{
    lemma_first_where(h.lobbies, |y: LobbyView| y.lobby_id == lid);
    let i = h.lobby_at(lid)->0;
    assert forall|x: Seq<char>|
        #[trigger] h2.lobby(x) == (if x == lid {
            None
        } else {
            h.lobby(x)
        }) by {
        let isx = |y: LobbyView| y.lobby_id == x;
        lemma_first_where(h.lobbies, isx);
        if x == lid {
            assert forall|j: int| 0 <= j < h2.lobbies.len() implies !isx(#[trigger] h2.lobbies[j]) by {
                if j < i {
                    assert(h.lobbies[j].lobby_id != h.lobbies[i].lobby_id);
                } else {
                    assert(h2.lobbies[j] == h.lobbies[j + 1]);
                    assert(h.lobbies[i].lobby_id != h.lobbies[j + 1].lobby_id);
                }
            }
            lemma_first_none(h2.lobbies, isx);
        } else {
            match h.lobby_at(x) {
                Some(k) => {
                    let at = if k < i {
                        k
                    } else {
                        k - 1
                    };
                    assert(h2.lobbies[at] == h.lobbies[k]);
                    assert forall|j: int| 0 <= j < at implies !isx(#[trigger] h2.lobbies[j]) by {
                        if j < i {
                            assert(!isx(h.lobbies[j]));
                        } else {
                            assert(h2.lobbies[j] == h.lobbies[j + 1]);
                            assert(!isx(h.lobbies[j + 1]));
                        }
                    }
                    lemma_first_is(h2.lobbies, isx, at);
                },
                None => {
                    assert forall|j: int| 0 <= j < h2.lobbies.len() implies !isx(
                        #[trigger] h2.lobbies[j],
                    ) by {
                        if j < i {
                            assert(!isx(h.lobbies[j]));
                        } else {
                            assert(h2.lobbies[j] == h.lobbies[j + 1]);
                            assert(!isx(h.lobbies[j + 1]));
                        }
                    }
                    lemma_first_none(h2.lobbies, isx);
                },
            }
        }
    }
    assert forall|a: int, b: int| 0 <= a < b < h2.lobbies.len() implies (
    #[trigger] h2.lobbies[a]).lobby_id != (#[trigger] h2.lobbies[b]).lobby_id by {
        let a1 = if a < i {
            a
        } else {
            a + 1
        };
        let b1 = if b < i {
            b
        } else {
            b + 1
        };
        assert(h.lobbies[a1].lobby_id != h.lobbies[b1].lobby_id);
        assert(h2.lobbies[a] == h.lobbies[a1] && h2.lobbies[b] == h.lobbies[b1]);
    }
}

// ------------------------------------------------- what keeps a hub in agreement

/// A room in which two seats were traded keeps the agreement.
pub proof fn lemma_reseated(h: HubView, lid: Seq<char>, l: LobbyView, a: int, b: int)
    requires
        settled(h),
        h.lobby(lid) is Some,
        l.lobby_id == lid,
        forall|n: int|
            #[trigger] who_in(l, n) == who_in(h.lobby(lid)->0, traded_seat(a, b, n)),
    ensures
        settled(h.with_lobby(lid, l)),
{
    lemma_with_lobby(h, lid, l);
    let h2 = h.with_lobby(lid, l);
    assert forall|p: Seq<char>| #[trigger] h2.lobby_id_of(p) == h.lobby_id_of(p) by {
        assert(h2.clients == h.clients);
    }
    assert forall|x: Seq<char>, n: int|
        #[trigger] who(h2, x, n) == (if x == lid {
            who(h, lid, traded_seat(a, b, n))
        } else {
            who(h, x, n)
        }) by {
        assert(h2.lobby(x) == (if x == lid {
            Some(l)
        } else {
            h.lobby(x)
        }));
        assert(who_in(l, n) == who_in(h.lobby(lid)->0, traded_seat(a, b, n)));
    }
    assert forall|p: Seq<char>| #[trigger] h2.lobby_id_of(p) is Some implies seated_in(
        h2,
        h2.lobby_id_of(p)->0,
        p,
    ) by {
        let x = h.lobby_id_of(p)->0;
        assert(h2.lobby_id_of(p) == h.lobby_id_of(p));
        assert(seated_in(h, x, p));
        let m = choose|m: int| who(h, x, m) == Some(p);
        if x == lid {
            assert(traded_seat(a, b, traded_seat(a, b, m)) == m);
            assert(who(h2, x, traded_seat(a, b, m)) == Some(p));
        } else {
            assert(who(h2, x, m) == Some(p));
        }
    }
}

/// Taking one player out of their seat and out of the room that they name
/// keeps the agreement.
pub proof fn lemma_unseated(h: HubView, h2: HubView, p: Seq<char>)
    requires
        settled(h),
        distinct_clients(h2),
        distinct_lobbies(h2),
        forall|q: Seq<char>|
            #[trigger] h2.lobby_id_of(q) == (if q == p {
                None
            } else {
                h.lobby_id_of(q)
            }),
        forall|x: Seq<char>, n: int|
            #[trigger] who(h2, x, n) == (if who(h, x, n) == Some(p) {
                None
            } else {
                who(h, x, n)
            }),
    ensures
        settled(h2),
{
    assert forall|x: Seq<char>, n: int| #![trigger who(h2, x, n)] who(h2, x, n) is Some implies h2.lobby_id_of(
        who(h2, x, n)->0,
    ) == Some(x) by {
        assert(who(h, x, n) == who(h2, x, n));
    }
    assert forall|x: Seq<char>, n: int, m: int|
        #![trigger who(h2, x, n), who(h2, x, m)]
        who(h2, x, n) is Some && who(h2, x, n) == who(h2, x, m) implies n == m by {
        assert(who(h, x, n) == who(h, x, m));
    }
    assert forall|q: Seq<char>| #[trigger] h2.lobby_id_of(q) is Some implies seated_in(
        h2,
        h2.lobby_id_of(q)->0,
        q,
    ) by {
        let x = h.lobby_id_of(q)->0;
        assert(seated_in(h, x, q));
        let n = choose|n: int| who(h, x, n) == Some(q);
        assert(who(h2, x, n) == Some(q));
    }
}

/// Seating a player who sat nowhere, in a seat that was free, keeps the
/// agreement.
pub proof fn lemma_seated(h: HubView, h2: HubView, p: Seq<char>, lid: Seq<char>, seat: int)
    requires
        settled(h),
        h.lobby_id_of(p) is None,
        who(h, lid, seat) is None,
        distinct_clients(h2),
        distinct_lobbies(h2),
        forall|q: Seq<char>|
            #[trigger] h2.lobby_id_of(q) == (if q == p {
                Some(lid)
            } else {
                h.lobby_id_of(q)
            }),
        forall|x: Seq<char>, n: int|
            #[trigger] who(h2, x, n) == (if x == lid && n == seat {
                Some(p)
            } else {
                who(h, x, n)
            }),
    ensures
        settled(h2),
{
    assert forall|x: Seq<char>, n: int| who(h, x, n) != Some(p) by {
        if who(h, x, n) == Some(p) {
            assert(h.lobby_id_of(p) == Some(x));
        }
    }
    assert forall|x: Seq<char>, n: int| #![trigger who(h2, x, n)] who(h2, x, n) is Some implies h2.lobby_id_of(
        who(h2, x, n)->0,
    ) == Some(x) by {
        if !(x == lid && n == seat) {
            assert(who(h, x, n) == who(h2, x, n));
        }
    }
    assert forall|x: Seq<char>, n: int, m: int|
        #![trigger who(h2, x, n), who(h2, x, m)]
        who(h2, x, n) is Some && who(h2, x, n) == who(h2, x, m) implies n == m by {
        assert(who(h, x, n) != Some(p));
        assert(who(h, x, m) != Some(p));
    }
    assert forall|q: Seq<char>| #[trigger] h2.lobby_id_of(q) is Some implies seated_in(
        h2,
        h2.lobby_id_of(q)->0,
        q,
    ) by {
        if q == p {
            assert(who(h2, lid, seat) == Some(p));
        } else {
            let x = h.lobby_id_of(q)->0;
            assert(seated_in(h, x, q));
            let n = choose|n: int| who(h, x, n) == Some(q);
            assert(who(h2, x, n) == Some(q));
        }
    }
}

/// Closing a room and taking everybody in it out of it keeps the agreement.
pub proof fn lemma_closed(h: HubView, h2: HubView, lid: Seq<char>)
    requires
        settled(h),
        distinct_clients(h2),
        distinct_lobbies(h2),
        forall|q: Seq<char>|
            #[trigger] h2.lobby_id_of(q) == (if h.lobby_id_of(q) == Some(lid) {
                None
            } else {
                h.lobby_id_of(q)
            }),
        forall|x: Seq<char>, n: int|
            #[trigger] who(h2, x, n) == (if x == lid {
                None
            } else {
                who(h, x, n)
            }),
    ensures
        settled(h2),
{
    assert forall|x: Seq<char>, n: int| #![trigger who(h2, x, n)] who(h2, x, n) is Some implies h2.lobby_id_of(
        who(h2, x, n)->0,
    ) == Some(x) by {
        assert(who(h, x, n) == who(h2, x, n));
    }
    assert forall|x: Seq<char>, n: int, m: int|
        #![trigger who(h2, x, n), who(h2, x, m)]
        who(h2, x, n) is Some && who(h2, x, n) == who(h2, x, m) implies n == m by {
        assert(who(h, x, n) == who(h, x, m));
    }
    assert forall|q: Seq<char>| #[trigger] h2.lobby_id_of(q) is Some implies seated_in(
        h2,
        h2.lobby_id_of(q)->0,
        q,
    ) by {
        let x = h.lobby_id_of(q)->0;
        assert(seated_in(h, x, q));
        let n = choose|n: int| who(h, x, n) == Some(q);
        assert(who(h2, x, n) == Some(q));
    }
}

} // verus!
