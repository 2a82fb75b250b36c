//! Every message, every departure and every start keeps connections and rooms
//! in agreement on who sits where.

use super::chat::{chat_step, hello_step, identity_step, renamed_seat, server_chat_step, Login};
use super::dispatch::{
    dispatch, goodbye_step, match_op, room_op, seat_op, talk_op, Given, LobbyState, World,
};
use super::hub::{distinct_clients, new_client};
use super::input::{nonempty, InMsg};
use super::join::{
    country_of, create_step, join_step, joined_lobby, new_lobby, next_session, seat_for, seat_step,
    seated_client, wanted_name,
};
use super::matching::{accept_step, form_step, in_pair_room, pair_lobby, rtt_step};
use super::model::{
    fresh_slot, player_at, sits, spectator_index, ClientView, HubView, LobbyView, SlotView,
    MAX_LOBBIES,
};
use super::roster::{
    distinct_lobbies, lemma_client_lobby, lemma_closed, lemma_detached, lemma_left, lemma_members,
    lemma_pushed_lobby, lemma_removed_lobby, lemma_reseated, lemma_reshuffled, lemma_same_seating,
    lemma_same_seating_chain, lemma_seat_of, lemma_seated, lemma_touched_client,
    lemma_touched_lobby, lemma_traded, lemma_unreadied, lemma_unseated, lemma_with_client,
    lemma_with_lobby, lemma_with_seat, same_seating, seated_in, settled, who, who_in,
};
use super::seats::{
    closes_with, destroy_step, destroyed, host_endpoint_step, hosted, kick_step, kicked_lobby,
    leave_step, left_lobby, move_step, path_report_step, readied, seat_move_step,
    set_match_caps_step, set_ready_step, swap_answer_step, swapped_lobby,
};
use super::start::{settled_start_step, start_step};
use crate::automatch::queue::{answered_step, offer_at, PendingView, QueueView};
use crate::automatch::rulesets::{resolved, RulesetView};
use crate::config::ConfigView;
use crate::find::{lemma_first_is, lemma_first_none, lemma_first_where};
use crate::input_relay::RelayView;
use crate::json::JsonView;
use crate::text::opt_view;
use vstd::prelude::*;

verus! {

proof fn lemma_named(h: HubView, id: Seq<char>)
    ensures
        h.client(id) matches Some(c) ==> c.player_id == id,
{
    lemma_first_where(h.clients, |c: ClientView| c.player_id == id);
}

/// A room goes by the id that it is looked up by.
pub proof fn lemma_room_named(h: HubView, lid: Seq<char>)
    ensures
        h.lobby(lid) matches Some(l) ==> l.lobby_id == lid && (h.wf() ==> l.wf()),
{
    lemma_first_where(h.lobbies, |l: LobbyView| l.lobby_id == lid);
}

/// Nothing but connections and rooms counts.
proof fn lemma_same(a: HubView, b: HubView)
    requires
        b.clients == a.clients,
        b.lobbies == a.lobbies,
    ensures
        same_seating(a, b),
{
    assert forall|p: Seq<char>| #[trigger] b.client(p) == a.client(p) by {}
    assert forall|x: Seq<char>| #[trigger] b.lobby(x) == a.lobby(x) by {}
}

// ------------------------------------------------------ what moves nobody at all

proof fn lemma_playing(h: HubView, id: Seq<char>, game: Option<Seq<char>>)
    ensures
        same_seating(h, h.playing(id, game)),
        h.playing(id, game).lobbies == h.lobbies,
{
    lemma_named(h, id);
    if let (Some(g), Some(c)) = (game, h.client(id)) {
        lemma_touched_client(h, id, ClientView { game_name: g, ..c });
    }
}

proof fn lemma_renamed(h: HubView, id: Seq<char>, name: Option<Seq<char>>)
    ensures
        same_seating(h, h.renamed(id, name)),
        h.renamed(id, name).lobbies == h.lobbies,
{
    lemma_named(h, id);
    if let (Some(n), Some(c)) = (name, h.client(id)) {
        lemma_touched_client(h, id, ClientView { display_name: n, ..c });
    }
}

proof fn lemma_pending(h: HubView, id: Seq<char>, lobby: Option<Seq<char>>)
    ensures
        same_seating(h, h.pending(id, lobby)),
{
    lemma_named(h, id);
    if let Some(c) = h.client(id) {
        lemma_touched_client(h, id, ClientView { pending_mod_lobby: lobby, ..c });
    }
}

proof fn lemma_probed_seats(h: HubView, q: QueueView, id: Seq<char>, raw: Option<i64>)
    ensures
        same_seating(h, rtt_step(h, q, id, raw).0),
{
    lemma_named(h, id);
    if let Some(c) = h.client(id) {
        let h2 = rtt_step(h, q, id, raw).0;
        let i = h.client_at(id)->0;
        lemma_first_where(h.clients, |c: ClientView| c.player_id == id);
        let c2 = h2.clients[i];
        lemma_touched_client(h, id, c2);
    }
}

proof fn lemma_chat_seats(
    h: HubView,
    filter: crate::chat_filter::FilterView,
    id: Seq<char>,
    raw: Seq<char>,
    game: Option<Seq<char>>,
)
    ensures
        same_seating(h, chat_step(h, filter, id, raw).0),
        same_seating(h, server_chat_step(h, filter, id, raw, game).0),
{
    lemma_same(h, chat_step(h, filter, id, raw).0);
    lemma_same(h, h);
    let h1 = h.playing(id, nonempty(game));
    lemma_playing(h, id, nonempty(game));
    let scope = h1.game_scope(id);
    lemma_playing(h1, id, Some(scope));
    let h2 = if h1.client(id)->0.game_name.len() == 0 {
        h1.playing(id, Some(scope))
    } else {
        h1
    };
    lemma_same_seating_chain(h, h1, h1.playing(id, Some(scope)));
    let h3 = server_chat_step(h, filter, id, raw, game).0;
    if h3 != h && h3 != h1 {
        lemma_same(h2, h3);
        lemma_same_seating_chain(h, h2, h3);
    }
}

proof fn lemma_caps_seats(h: HubView, id: Seq<char>, caps: Option<JsonView>)
    ensures
        same_seating(h, set_match_caps_step(h, id, caps).0),
{
    if let Ok(lid) = hosted(h, id) {
        lemma_room_named(h, lid);
        let l = h.lobby(lid)->0;
        let l2 = LobbyView { match_caps: crate::json::bounded_object(caps, 4096), ..l };
        assert forall|n: int| #[trigger] who_in(l2, n) == who_in(l, n) by {}
        lemma_touched_lobby(h, lid, l2);
    }
}

proof fn lemma_endpoint_seats(
    h: HubView,
    id: Seq<char>,
    raw: Option<Seq<char>>,
    lan: Seq<Seq<char>>,
)
    ensures
        same_seating(h, host_endpoint_step(h, id, raw, lan).0),
{
    if let Ok(lid) = hosted(h, id) {
        lemma_room_named(h, lid);
        let l = h.lobby(lid)->0;
        if raw is Some {
            let l2 = LobbyView {
                host_endpoint: super::input::advertised(raw->0)->0,
                lan_endpoints: lan,
                ..l
            };
            assert forall|n: int| #[trigger] who_in(l2, n) == who_in(l, n) by {}
            lemma_touched_lobby(h, lid, l2);
        }
    }
}

proof fn lemma_path_seats(h: HubView, id: Seq<char>, path: Option<Seq<char>>, now: u64)
    ensures
        same_seating(h, path_report_step(h, id, path, now).0),
{
    if let Some(lid) = h.lobby_id_of(id) {
        lemma_room_named(h, lid);
        if let Some(l) = h.lobby(lid) {
            lemma_first_where(l.slots, |o: Option<SlotView>| sits(o, id));
            if let Some(i) = player_at(l.slots, id) {
                let h2 = path_report_step(h, id, path, now).0;
                if h2 != h {
                    let s = SlotView {
                        ice_path: Some(super::input::path_kind(path->0)->0),
                        ice_path_at: Some(now),
                        ..l.slots[i]->0
                    };
                    let l2 = LobbyView { slots: l.slots.update(i, Some(s)), ..l };
                    assert forall|n: int| #[trigger] who_in(l2, n) == who_in(l, n) by {}
                    lemma_touched_lobby(h, lid, l2);
                }
            }
        }
    }
}

proof fn lemma_ready_seats(
    h: HubView,
    id: Seq<char>,
    ready: bool,
    bios: Option<JsonView>,
    mods: Option<JsonView>,
    memcard: Option<JsonView>,
)
    requires
        h.wf(),
    ensures
        same_seating(h, set_ready_step(h, id, ready, bios, mods, memcard).0),
{
    if let Some(lid) = h.lobby_id_of(id) {
        lemma_room_named(h, lid);
        if let Some(l) = h.lobby(lid) {
            lemma_seat_of(l, id);
            if let Some(seat) = l.seat_of(id) {
                let s = readied(
                    l.seat(seat)->0->0,
                    spectator_index(seat),
                    ready,
                    bios,
                    mods,
                    memcard,
                );
                lemma_with_seat(l, seat, Some(s));
                lemma_touched_lobby(h, lid, l.with_seat(seat, Some(s)));
            }
        }
    }
}

proof fn lemma_start_seats(
    h: HubView,
    r: RelayView,
    c: ConfigView,
    lid: Seq<char>,
    caps: Option<JsonView>,
    initiator: Option<Seq<char>>,
    now: u64,
)
    ensures
        same_seating(h, start_step(h, r, c, lid, caps, initiator, now).0),
{
    lemma_room_named(h, lid);
    let h2 = start_step(h, r, c, lid, caps, initiator, now).0;
    if let Some(l) = h.lobby(lid) {
        let h1 = HubView { next_session: next_session(h.next_session), ..h };
        assert(same_seating(h, h1));
        if h2 != h && h2 != h1 {
            let l2 = h2.lobbies[h.lobby_at(lid)->0];
            lemma_first_where(h.lobbies, |l: LobbyView| l.lobby_id == lid);
            lemma_unreadied(l);
            assert forall|n: int| #[trigger] who_in(l2, n) == who_in(l, n) by {
                let u = LobbyView { slots: super::model::unready(l.slots), ..l };
                assert(who_in(u, n) == who_in(l, n));
            }
            lemma_touched_lobby(h1, lid, l2);
            lemma_same_seating_chain(h, h1, h2);
        }
    }
}

proof fn lemma_identity_seats(
    h: HubView,
    id: Seq<char>,
    name: Option<Seq<char>>,
    game: Option<Seq<char>>,
    tag: Seq<char>,
)
    requires
        h.wf(),
    ensures
        same_seating(h, identity_step(h, id, name, game, tag).0),
{
    let ha = h.renamed(id, name);
    let h1 = ha.playing(id, game);
    lemma_renamed(h, id, name);
    lemma_playing(ha, id, game);
    lemma_same_seating_chain(h, ha, h1);
    assert(h1.lobbies == h.lobbies);
    if let (Some(n), Some(lid)) = (name, h1.lobby_id_of(id)) {
        lemma_room_named(h1, lid);
        if let Some(l) = h1.lobby(lid) {
            let unique = l.unique_name(n, Some(id), tag);
            lemma_seat_of(l, id);
            lemma_renamed(h1, id, Some(unique));
            lemma_same_seating_chain(h, h1, h1.renamed(id, Some(unique)));
            if let Some(seat) = l.seat_of(id) {
                let l2 = renamed_seat(l, seat, unique);
                lemma_with_seat(
                    l,
                    seat,
                    Some(SlotView { display_name: unique, ..l.seat(seat)->0->0 }),
                );
                lemma_touched_lobby(h1, lid, l2);
                let h3 = h1.with_lobby(lid, l2);
                lemma_same_seating_chain(h, h1, h3);
                lemma_renamed(h3, id, Some(unique));
                lemma_same_seating_chain(h, h3, h3.renamed(id, Some(unique)));
            }
        }
    }
}

proof fn lemma_hello_seats(h: HubView, id: Seq<char>, msg: InMsg, login: Login, tag: Seq<char>)
    requires
        h.wf(),
    ensures
        same_seating(h, hello_step(h, id, msg, login, tag).0),
{
    lemma_named(h, id);
    lemma_same(h, h);
    let h1 = match (login, h.client(id)) {
        (Login::Account(p), Some(c)) => h.with_client(id, ClientView { account: Some(p@), ..c }),
        _ => h,
    };
    if let (Login::Account(p), Some(c)) = (login, h.client(id)) {
        lemma_touched_client(h, id, ClientView { account: Some(p@), ..c });
    }
    assert(h1.lobbies == h.lobbies);
    let name = match login {
        Login::Account(p) => Some(p.handle@),
        _ => nonempty(opt_view(msg.display_name)),
    };
    lemma_identity_seats(h1, id, name, nonempty(opt_view(msg.game_name)), tag);
    lemma_same_seating_chain(
        h,
        h1,
        identity_step(h1, id, name, nonempty(opt_view(msg.game_name)), tag).0,
    );
}

// -------------------------------------------------------------- within a room

proof fn lemma_traded_seats(h: HubView, lid: Seq<char>, l: LobbyView, a: int, b: int)
    requires
        settled(h),
        h.lobby(lid) is Some,
        h.lobby(lid)->0.seat(a) is Some,
        h.lobby(lid)->0.seat(b) is Some,
        a != b,
        l.lobby_id == lid,
        forall|n: int| #[trigger] who_in(l, n) == who_in(h.lobby(lid)->0.traded(a, b), n),
    ensures
        settled(h.with_lobby(lid, l)),
{
    let l0 = h.lobby(lid)->0;
    lemma_traded(l0, a, b);
    assert forall|n: int| #[trigger] who_in(l, n) == who_in(
        l0,
        super::roster::traded_seat(a, b, n),
    ) by {
        assert(who_in(l, n) == who_in(l0.traded(a, b), n));
    }
    lemma_reseated(h, lid, l, a, b);
}

proof fn lemma_move_seats(h: HubView, id: Seq<char>, from: Option<int>, to: Option<int>)
    requires
        settled(h),
    ensures
        settled(move_step(h, id, from, to).0),
{
    if let (Some(a), Some(b), Some(lid)) = (from, to, h.lobby_id_of(id)) {
        lemma_room_named(h, lid);
        if let Some(l) = h.lobby(lid) {
            if move_step(h, id, from, to).0 != h {
                lemma_traded(l, a, b);
                lemma_reshuffled(l.traded(a, b));
                lemma_traded_seats(h, lid, l.traded(a, b).reshuffled(), a, b);
            }
        }
    }
}

proof fn lemma_seat_move_seats(h: HubView, id: Seq<char>, to: Option<int>)
    requires
        settled(h),
        h.wf(),
    ensures
        settled(seat_move_step(h, id, to).0),
{
    if let (Some(b), Some(lid)) = (to, h.lobby_id_of(id)) {
        lemma_room_named(h, lid);
        if let Some(l) = h.lobby(lid) {
            lemma_seat_of(l, id);
            if seat_move_step(h, id, to).0 != h {
                let a = l.seat_of(id)->0;
                lemma_traded(l, a, b);
                lemma_reshuffled(l.traded(a, b));
                lemma_traded_seats(h, lid, l.traded(a, b).reshuffled(), a, b);
            }
        }
    }
}

proof fn lemma_swap_seats(h: HubView, id: Seq<char>, asker: Seq<char>, accept: bool)
    requires
        settled(h),
        h.wf(),
    ensures
        settled(swap_answer_step(h, id, asker, accept).0),
{
    if let Some(lid) = h.lobby_id_of(id) {
        lemma_room_named(h, lid);
        if let Some(l) = h.lobby(lid) {
            lemma_seat_of(l, id);
            lemma_seat_of(l, asker);
            if swap_answer_step(h, id, asker, accept).0 != h {
                let a = l.seat_of(id)->0;
                let b = l.seat_of(asker)->0;
                lemma_traded(l, a, b);
                lemma_reshuffled(l.traded(a, b));
                lemma_unreadied(l.traded(a, b));
                lemma_traded_seats(h, lid, swapped_lobby(l, a, b), a, b);
            }
        }
    }
}

proof fn lemma_kick_seats(h: HubView, id: Seq<char>, slot: int)
    requires
        settled(h),
    ensures
        settled(kick_step(h, id, slot).0),
{
    if let Some(lid) = h.lobby_id_of(id) {
        lemma_room_named(h, lid);
        if let Some(l) = h.lobby(lid) {
            let h2 = kick_step(h, id, slot).0;
            if h2 != h {
                let p = l.seat(slot)->0->0.player_id;
                assert(who(h, lid, slot) == Some(p));
                let l2 = kicked_lobby(l, slot);
                lemma_with_seat(l, slot, None);
                let emptied = LobbyView { guest_endpoint: Seq::empty(), ..l.with_seat(slot, None) };
                lemma_reshuffled(emptied);
                assert forall|n: int| #[trigger] who_in(emptied, n) == who_in(
                    l.with_seat(slot, None),
                    n,
                ) by {}
                let h1 = h.with_lobby(lid, l2);
                lemma_with_lobby(h, lid, l2);
                lemma_client_lobby(h1, p, None);
                assert forall|q: Seq<char>| #[trigger] h1.lobby_id_of(q) == h.lobby_id_of(q) by {
                    assert(h1.clients == h.clients);
                }
                assert(h1.client(p) is None ==> h1.lobby_id_of(p) is None);
                assert forall|x: Seq<char>, n: int|
                    #[trigger] who(h2, x, n) == (if who(h, x, n) == Some(p) {
                        None
                    } else {
                        who(h, x, n)
                    }) by {
                    assert(h2.lobby(x) == h1.lobby(x));
                    assert(h1.lobby(x) == (if x == lid {
                        Some(l2)
                    } else {
                        h.lobby(x)
                    }));
                    if x == lid {
                        assert(who_in(l2, n) == who_in(emptied, n));
                    }
                    if who(h, x, n) == Some(p) {
                        assert(h.lobby_id_of(p) == Some(x));
                    }
                }
                lemma_unseated(h, h2, p);
            }
        }
    }
}

// ------------------------------------------------------- rooms that come and go

/// In a settled hub the members of a room are those who name it.
proof fn lemma_members_name(h: HubView, lid: Seq<char>, p: Seq<char>)
    requires
        settled(h),
        h.wf(),
        h.lobby(lid) is Some,
    ensures
        h.lobby(lid)->0.member_ids().contains(p) <==> h.lobby_id_of(p) == Some(lid),
{
    let l = h.lobby(lid)->0;
    lemma_room_named(h, lid);
    lemma_members(l, p);
    if l.member_ids().contains(p) {
        let n = choose|n: int| #[trigger] who_in(l, n) == Some(p);
        assert(who(h, lid, n) == Some(p));
    }
    if h.lobby_id_of(p) == Some(lid) {
        assert(seated_in(h, lid, p));
        let n = choose|n: int| who(h, lid, n) == Some(p);
        assert(who_in(l, n) == Some(p));
    }
}

/// Closing the room `lid` of `h1`, which is `h` but for who names `lid`, keeps
/// the agreement of `h`.
proof fn lemma_destroyed(h: HubView, h1: HubView, lid: Seq<char>)
    requires
        settled(h),
        h.wf(),
        h.lobby(lid) is Some,
        h1.lobbies == h.lobbies,
        distinct_clients(h1),
        forall|p: Seq<char>|
            #[trigger] h1.lobby_id_of(p) == h.lobby_id_of(p) || (h.lobby_id_of(p) == Some(lid)
                && h1.lobby_id_of(p) is None),
    ensures
        settled(destroyed(h1, lid)),
{
    let l = h.lobby(lid)->0;
    assert forall|x: Seq<char>| #[trigger] h1.lobby(x) == h.lobby(x) by {}
    assert(h1.lobby_at(lid) == h.lobby_at(lid));
    let i = h.lobby_at(lid)->0;
    lemma_first_where(h.lobbies, |l: LobbyView| l.lobby_id == lid);
    let cut = HubView { lobbies: h1.lobbies.remove(i), ..h1 };
    let h2 = destroyed(h1, lid);
    assert(h2 == cut.detached(l.member_ids()));
    lemma_detached(cut, l.member_ids());
    assert(distinct_lobbies(h1));
    lemma_removed_lobby(h1, h2, lid);
    assert forall|p: Seq<char>| #[trigger] cut.lobby_id_of(p) == h1.lobby_id_of(p) by {
        assert(cut.clients == h1.clients);
        assert(cut.client(p) == h1.client(p));
    }
    assert forall|q: Seq<char>|
        #[trigger] h2.lobby_id_of(q) == (if h.lobby_id_of(q) == Some(lid) {
            None
        } else {
            h.lobby_id_of(q)
        }) by {
        lemma_members_name(h, lid, q);
        assert(cut.lobby_id_of(q) == h1.lobby_id_of(q));
    }
    assert forall|x: Seq<char>, n: int|
        #[trigger] who(h2, x, n) == (if x == lid {
            None
        } else {
            who(h, x, n)
        }) by {
        assert(h2.lobby(x) == (if x == lid {
            None
        } else {
            h1.lobby(x)
        }));
    }
    lemma_closed(h, h2, lid);
}

proof fn lemma_destroy_seats(h: HubView, lid: Seq<char>)
    requires
        settled(h),
        h.wf(),
    ensures
        settled(destroy_step(h, lid).0),
{
    if h.lobby(lid) is Some {
        lemma_destroyed(h, h, lid);
    }
}

proof fn lemma_leave_seats(h: HubView, id: Seq<char>)
    requires
        settled(h),
        h.wf(),
    ensures
        settled(leave_step(h, id).0),
        leave_step(h, id).0.lobby_id_of(id) is None,
{
    if let Some(lid) = h.lobby_id_of(id) {
        assert(seated_in(h, lid, id));
        let seat = choose|n: int| who(h, lid, n) == Some(id);
        lemma_room_named(h, lid);
        let l = h.lobby(lid)->0;
        let h1 = h.with_client_lobby(id, None);
        lemma_client_lobby(h, id, None);
        assert(h1.lobby(lid) == h.lobby(lid));
        if closes_with(l, id) {
            lemma_destroyed(h, h1, lid);
            let i = h.lobby_at(lid)->0;
            let cut = HubView { lobbies: h1.lobbies.remove(i), ..h1 };
            lemma_detached(cut, l.member_ids());
            lemma_members_name(h, lid, id);
            assert(h1.lobby_at(lid) == h.lobby_at(lid));
            assert(destroyed(h1, lid) == cut.detached(l.member_ids()));
        } else {
            let l2 = left_lobby(l, id);
            let h2 = h1.with_lobby(lid, l2);
            lemma_left(l, id);
            lemma_with_lobby(h1, lid, l2);
            assert forall|x: Seq<char>| #[trigger] h1.lobby(x) == h.lobby(x) by {}
            assert forall|q: Seq<char>| #[trigger] h2.lobby_id_of(q) == h1.lobby_id_of(q) by {
                assert(h2.clients == h1.clients);
            }
            assert forall|x: Seq<char>, n: int|
                #[trigger] who(h2, x, n) == (if who(h, x, n) == Some(id) {
                    None
                } else {
                    who(h, x, n)
                }) by {
                assert(h2.lobby(x) == (if x == lid {
                    Some(l2)
                } else {
                    h1.lobby(x)
                }));
                if who(h, x, n) == Some(id) {
                    assert(h.lobby_id_of(id) == Some(x));
                }
            }
            lemma_unseated(h, h2, id);
        }
    }
}

/// A room that seats one player who sat nowhere, under an id of its own, keeps
/// the agreement.
proof fn lemma_opened(h: HubView, h2: HubView, l: LobbyView, id: Seq<char>)
    requires
        settled(h),
        h.lobby(l.lobby_id) is None,
        h.lobby_id_of(id) is None,
        h2.lobbies == h.lobbies.push(l),
        distinct_clients(h2),
        forall|q: Seq<char>|
            #[trigger] h2.lobby_id_of(q) == (if q == id {
                Some(l.lobby_id)
            } else {
                h.lobby_id_of(q)
            }),
        forall|n: int|
            #[trigger] who_in(l, n) == (if n == 0 {
                Some(id)
            } else {
                None
            }),
    ensures
        settled(h2),
{
    lemma_pushed_lobby(h, h2, l);
    assert forall|x: Seq<char>, n: int|
        #[trigger] who(h2, x, n) == (if x == l.lobby_id && n == 0 {
            Some(id)
        } else {
            who(h, x, n)
        }) by {
        assert(h2.lobby(x) == (if x == l.lobby_id {
            Some(l)
        } else {
            h.lobby(x)
        }));
    }
    lemma_seated(h, h2, id, l.lobby_id, 0);
}

proof fn lemma_create_seats(
    h: HubView,
    id: Seq<char>,
    peer_ip: Seq<char>,
    msg: InMsg,
    lid: Seq<char>,
    salt: Seq<u8>,
)
    requires
        settled(h),
        h.client(id) is Some,
        h.lobby(lid) is None,
    ensures
        settled(create_step(h, id, peer_ip, msg, lid, salt).0),
{
    if h.lobby_id_of(id) is None && h.lobbies.len() < MAX_LOBBIES {
        let h1 = h.renamed(id, nonempty(opt_view(msg.display_name)));
        lemma_renamed(h, id, nonempty(opt_view(msg.display_name)));
        lemma_same_seating(h, h1);
        lemma_named(h1, id);
        assert(h1.client(id) is Some);
        assert(h1.lobby(lid) is None);
        assert(h1.lobby_id_of(id) == h.lobby_id_of(id));
        let c = h1.client(id)->0;
        let l = new_lobby(
            id,
            c.display_name,
            country_of(h1, id),
            peer_ip,
            msg,
            lid,
            salt,
            h1.next_session,
        );
        let h2 = HubView {
            lobbies: h1.lobbies.push(l),
            next_session: next_session(h1.next_session),
            ..h1
        };
        assert(h2.clients == h1.clients);
        assert forall|p: Seq<char>| #[trigger] h2.client(p) == h1.client(p) by {}
        let c2 = ClientView { lobby_id: Some(lid), game_name: l.game_name, ..c };
        lemma_with_client(h2, id, c2);
        let h3 = h2.with_client(id, c2);
        assert forall|q: Seq<char>|
            #[trigger] h3.lobby_id_of(q) == (if q == id {
                Some(lid)
            } else {
                h1.lobby_id_of(q)
            }) by {
            assert(h3.client(q) == (if q == id {
                Some(c2)
            } else {
                h2.client(q)
            }));
        }
        assert forall|n: int|
            #[trigger] who_in(l, n) == (if n == 0 {
                Some(id)
            } else {
                None
            }) by {
            if 0 <= n < l.slots.len() {
                assert(l.slots[n] == (if n == 0 {
                    Some(fresh_slot(id, c.display_name, country_of(h1, id)))
                } else {
                    None
                }));
            }
        }
        assert(distinct_clients(h2));
        lemma_opened(h1, h3, l, id);
    }
}

proof fn lemma_free_seat(l: LobbyView)
    requires
        l.wf(),
    ensures
        seat_for(l) matches Some(n) ==> l.seat(n) == Some(None::<SlotView>),
{
    lemma_first_where(l.slots, |o: Option<SlotView>| o is None);
    lemma_first_where(l.spectators, |o: Option<SlotView>| o is None);
}

proof fn lemma_seat_step(
    h: HubView,
    lid: Seq<char>,
    id: Seq<char>,
    peer_ip: Seq<char>,
    guest_bind: Seq<char>,
    password: Option<Seq<char>>,
    mod_offer: Option<JsonView>,
    tag: Seq<char>,
)
    requires
        settled(h),
        h.wf(),
        h.client(id) is Some,
        h.lobby_id_of(id) is None,
    ensures
        settled(seat_step(h, lid, id, peer_ip, guest_bind, password, mod_offer, tag).0),
{
    let h3 = seat_step(h, lid, id, peer_ip, guest_bind, password, mod_offer, tag).0;
    if h3 != h {
        let l = h.lobby(lid)->0;
        lemma_room_named(h, lid);
        lemma_named(h, id);
        lemma_free_seat(l);
        let seat = seat_for(l)->0;
        let name = l.unique_name(wanted_name(h, id), Some(id), tag);
        let s = fresh_slot(id, name, country_of(h, id));
        let guest = super::input::rewritten(guest_bind, peer_ip);
        let l2 = joined_lobby(l, seat, s, guest);
        lemma_with_seat(l, seat, Some(s));
        lemma_reshuffled(l.with_seat(seat, Some(s)));
        assert forall|n: int|
            #[trigger] who_in(l2, n) == (if n == seat {
                Some(id)
            } else {
                who_in(l, n)
            }) by {
            assert(who_in(l2, n) == who_in(l.with_seat(seat, Some(s)).reshuffled(), n));
            assert(who_in(l.with_seat(seat, Some(s)).reshuffled(), n) == who_in(
                l.with_seat(seat, Some(s)),
                n,
            ));
        }
        let h2 = h.with_lobby(lid, l2);
        lemma_with_lobby(h, lid, l2);
        assert forall|p: Seq<char>| #[trigger] h2.client(p) == h.client(p) by {
            assert(h2.clients == h.clients);
        }
        let c = h.client(id)->0;
        let c2 = seated_client(c, lid, name, l.game_name);
        lemma_with_client(h2, id, c2);
        assert(h3 == h2.with_client(id, c2));
        assert forall|q: Seq<char>|
            #[trigger] h3.lobby_id_of(q) == (if q == id {
                Some(lid)
            } else {
                h.lobby_id_of(q)
            }) by {
            assert(h3.client(q) == (if q == id {
                Some(c2)
            } else {
                h2.client(q)
            }));
        }
        assert forall|x: Seq<char>, n: int|
            #[trigger] who(h3, x, n) == (if x == lid && n == seat {
                Some(id)
            } else {
                who(h, x, n)
            }) by {
            assert(h3.lobbies == h2.lobbies);
            assert(h3.lobby(x) == h2.lobby(x));
        }
        assert(distinct_clients(h2));
        assert(distinct_lobbies(h3)) by {
            assert(h3.lobbies == h2.lobbies);
        }
        lemma_seated(h, h3, id, lid, seat);
    }
}

proof fn lemma_join_seats(
    h: HubView,
    id: Seq<char>,
    peer_ip: Seq<char>,
    msg: InMsg,
    lid: Seq<char>,
    tag: Seq<char>,
)
    requires
        settled(h),
        h.wf(),
        h.client(id) is Some,
    ensures
        settled(join_step(h, id, peer_ip, msg, lid, tag).0),
{
    if h.lobby_id_of(id) is None {
        let h1 = h.renamed(id, nonempty(opt_view(msg.display_name)));
        lemma_renamed(h, id, nonempty(opt_view(msg.display_name)));
        lemma_same_seating(h, h1);
        assert(h1.client(id) is Some);
        assert(h1.lobby_id_of(id) == h.lobby_id_of(id));
        assert(h1.wf());
        let guest_bind = super::input::text_or(opt_view(msg.guest_bind), "0.0.0.0:7778"@);
        lemma_seat_step(
            h1,
            lid,
            id,
            peer_ip,
            guest_bind,
            opt_view(msg.password),
            crate::json::opt_json(msg.mod_offer),
            tag,
        );
        let h2 = seat_step(
            h1,
            lid,
            id,
            peer_ip,
            guest_bind,
            opt_view(msg.password),
            crate::json::opt_json(msg.mod_offer),
            tag,
        ).0;
        lemma_pending(h1, id, None);
        lemma_pending(h1, id, Some(lid));
        lemma_pending(h2, id, None);
        lemma_pending(h2, id, Some(lid));
        lemma_same_seating(h1, h1.pending(id, None));
        lemma_same_seating(h1, h1.pending(id, Some(lid)));
        lemma_same_seating(h2, h2.pending(id, None));
        lemma_same_seating(h2, h2.pending(id, Some(lid)));
    }
}

/// Whether an offer stands between two connections.
pub open spec fn between_two(p: PendingView) -> bool {
    p.a.player_id != p.b.player_id
}

proof fn lemma_form_seats(
    h: HubView,
    q: QueueView,
    rules: Seq<RulesetView>,
    p: PendingView,
    lid: Seq<char>,
    now: u64,
)
    requires
        settled(h),
        h.lobby(lid) is None,
        between_two(p),
    ensures
        settled(form_step(h, q, rules, p, lid, now).0),
{
    let a = p.a.player_id;
    let b = p.b.player_id;
    let h3 = form_step(h, q, rules, p, lid, now).0;
    if h3 != h {
        let r = resolved(rules, p.key.game_name, p.key.ruleset_id)->0;
        let l = pair_lobby(h, r, p, lid);
        let h1 = HubView {
            lobbies: h.lobbies.push(l),
            next_session: next_session(h.next_session),
            ..h
        };
        let h2 = in_pair_room(h1, a, lid);
        assert(h3 == in_pair_room(h2, b, lid));
        assert(h1.clients == h.clients);
        assert forall|x: Seq<char>| #[trigger] h1.client(x) == h.client(x) by {}
        lemma_named(h1, a);
        let ca = ClientView { lobby_id: Some(lid), pending_mod_lobby: None, ..h1.client(a)->0 };
        lemma_with_client(h1, a, ca);
        assert(distinct_clients(h1));
        lemma_named(h2, b);
        let cb = ClientView { lobby_id: Some(lid), pending_mod_lobby: None, ..h2.client(b)->0 };
        lemma_with_client(h2, b, cb);
        // The room with the first of the two seated.
        let half = LobbyView { slots: l.slots.update(1, None), ..l };
        let hx = HubView { lobbies: h.lobbies.push(half), ..h2 };
        assert(hx.clients == h2.clients);
        assert forall|x: Seq<char>| #[trigger] hx.client(x) == h2.client(x) by {}
        assert forall|x: Seq<char>|
            #[trigger] hx.lobby_id_of(x) == (if x == a {
                Some(lid)
            } else {
                h.lobby_id_of(x)
            }) by {
            assert(hx.client(x) == h2.client(x));
            assert(h2.client(x) == (if x == a {
                Some(ca)
            } else {
                h1.client(x)
            }));
        }
        assert forall|n: int|
            #[trigger] who_in(half, n) == (if n == 0 {
                Some(a)
            } else {
                None
            }) by {}
        lemma_opened(h, hx, half, a);
        lemma_pushed_lobby(h, hx, half);
        lemma_pushed_lobby(h, h3, l);
        assert forall|x: Seq<char>|
            #[trigger] h3.lobby_id_of(x) == (if x == b {
                Some(lid)
            } else {
                hx.lobby_id_of(x)
            }) by {
            assert(h3.client(x) == (if x == b {
                Some(cb)
            } else {
                h2.client(x)
            }));
            assert(hx.client(x) == h2.client(x));
        }
        assert forall|x: Seq<char>, n: int|
            #[trigger] who(h3, x, n) == (if x == lid && n == 1 {
                Some(b)
            } else {
                who(hx, x, n)
            }) by {
            assert(h3.lobby(x) == (if x == lid {
                Some(l)
            } else {
                h.lobby(x)
            }));
            assert(hx.lobby(x) == (if x == lid {
                Some(half)
            } else {
                h.lobby(x)
            }));
        }
        assert(who(hx, lid, 1) is None) by {
            assert(hx.lobby(lid) == Some(half));
            assert(who_in(half, 1) is None);
        }
        assert(hx.lobby_id_of(b) is None);
        lemma_seated(hx, h3, b, lid, 1);
    }
}

proof fn lemma_accept_seats(
    h: HubView,
    q: QueueView,
    rules: Seq<RulesetView>,
    id: Seq<char>,
    msg: InMsg,
    lid: Seq<char>,
    now: u64,
)
    requires
        settled(h),
        h.lobby(lid) is None,
        offer_at(q.pending, id) matches Some(i) ==> between_two(q.pending[i]),
    ensures
        settled(accept_step(h, q, rules, id, msg, lid, now).0),
{
    let accept = msg.accept == Some(true);
    let (q2, done) = answered_step(q, id, accept);
    if let Some(p) = done {
        lemma_form_seats(h, q2, rules, p, lid, now);
    }
}

// ------------------------------------------------------------------- the laws

/// What a message takes for granted: its sender is connected, the id for a new
/// room is new, and an offer's two sides are two connections.
pub open spec fn ready_for(s: LobbyState, id: Seq<char>, lid: Seq<char>) -> bool {
    &&& s.hub.wf()
    &&& s.hub.client(id) is Some
    &&& s.hub.lobby(lid) is None
    &&& offer_at(s.queue.pending, id) matches Some(i) ==> between_two(s.queue.pending[i])
}

proof fn lemma_room_op_seats(
    s: LobbyState,
    w: World,
    id: Seq<char>,
    peer_ip: Seq<char>,
    msg: InMsg,
    g: Given,
)
    requires
        settled(s.hub),
        ready_for(s, id, g.lobby_id@),
    ensures
        room_op(s, w, id, peer_ip, msg, g) matches Some(o) ==> settled(o.state.hub),
{
    let h = s.hub;
    let op = msg.op@;
    if op == "list"@ {
        lemma_playing(h, id, nonempty(opt_view(msg.game_name)));
        lemma_same_seating(h, h.playing(id, nonempty(opt_view(msg.game_name))));
    } else if op == "ping"@ {
    } else if op == "create"@ {
        lemma_create_seats(h, id, peer_ip, msg, g.lobby_id@, g.salt@);
    } else if op == "join"@ {
        if let Some(lid) = nonempty(opt_view(msg.lobby_id)) {
            lemma_join_seats(h, id, peer_ip, msg, lid, g.tag@);
        }
    } else if quiet(op) {
        lemma_quiet_room_op(s, w, id, peer_ip, msg, g);
    } else if op == "leave"@ {
        lemma_leave_seats(h, id);
    } else if op == "close"@ {
        if let Ok(lid) = hosted(h, id) {
            lemma_destroy_seats(h, lid);
        }
    }
}

/// The messages to a room that move nobody.
spec fn quiet(op: Seq<char>) -> bool {
    op == "set_ready"@ || op == "set_match_caps"@ || op == "set_host_endpoint"@ || op
        == "path_report"@ || op == "start"@
}

proof fn lemma_quiet_room_op(
    s: LobbyState,
    w: World,
    id: Seq<char>,
    peer_ip: Seq<char>,
    msg: InMsg,
    g: Given,
)
    requires
        settled(s.hub),
        s.hub.wf(),
        msg.op@ != "list"@,
        msg.op@ != "ping"@,
        msg.op@ != "create"@,
        msg.op@ != "join"@,
        quiet(msg.op@),
    ensures
        room_op(s, w, id, peer_ip, msg, g) matches Some(o) ==> settled(o.state.hub),
{
    let h = s.hub;
    let op = msg.op@;
    if let Some(o) = room_op(s, w, id, peer_ip, msg, g) {
        if op == "set_ready"@ {
            lemma_ready_seats(
                h,
                id,
                msg.ready != Some(false),
                crate::json::bounded_object(crate::json::opt_json(msg.bios_offer), 512),
                crate::json::bounded_object(crate::json::opt_json(msg.mod_offer), 2048),
                crate::json::bounded_object(crate::json::opt_json(msg.memcard_offer), 256),
            );
        } else if op == "set_match_caps"@ {
            lemma_caps_seats(h, id, crate::json::opt_json(msg.match_caps));
        } else if op == "set_host_endpoint"@ {
            lemma_endpoint_seats(
                h,
                id,
                opt_view(msg.host_endpoint),
                match msg.lan_endpoints {
                    Some(list) => super::input::lan_kept(crate::text::views(list@)),
                    None => Seq::empty(),
                },
            );
        } else if op == "path_report"@ {
            lemma_path_seats(h, id, opt_view(msg.path), g.now);
        } else {
            lemma_same(h, h);
            if let Ok(lid) = hosted(h, id) {
                lemma_start_seats(
                    h,
                    s.relay,
                    w.config,
                    lid,
                    crate::json::bounded_object(crate::json::opt_json(msg.match_caps), 4096),
                    Some(id),
                    g.now,
                );
            }
        }
        assert(same_seating(h, o.state.hub));
        lemma_same_seating(h, o.state.hub);
    }
}

proof fn lemma_seat_op_seats(s: LobbyState, id: Seq<char>, msg: InMsg)
    requires
        settled(s.hub),
        s.hub.wf(),
    ensures
        seat_op(s, id, msg) matches Some(o) ==> settled(o.state.hub),
{
    let h = s.hub;
    let op = msg.op@;
    if op == "kick"@ {
        if let Some(slot) = msg.slot {
            lemma_kick_seats(h, id, slot as int);
        }
    } else if op == "move"@ {
        lemma_move_seats(
            h,
            id,
            super::seats::either(msg.from_slot, msg.slot),
            super::seats::opt_int(msg.to_slot),
        );
    } else if op == "seat_move"@ {
        lemma_seat_move_seats(h, id, super::seats::either(msg.to_slot, msg.target_slot));
    } else if op == "seat_swap_answer"@ {
        lemma_swap_seats(
            h,
            id,
            super::input::text_or_empty(msg.asker_player_id),
            msg.accept == Some(true),
        );
    }
}

proof fn lemma_talk_op_seats(s: LobbyState, w: World, id: Seq<char>, msg: InMsg, g: Given)
    requires
        settled(s.hub),
    ensures
        talk_op(s, w, id, msg, g) matches Some(o) ==> settled(o.state.hub),
{
    let h = s.hub;
    let text = super::input::text_or_empty(msg.text);
    lemma_chat_seats(h, w.filter, id, text, opt_view(msg.game_name));
    lemma_pending(h, id, None);
    if let Some(o) = talk_op(s, w, id, msg, g) {
        lemma_same(h, h);
        if o.state.hub != h {
            lemma_same_seating(h, o.state.hub);
        }
    }
}

proof fn lemma_match_op_seats(
    s: LobbyState,
    w: World,
    id: Seq<char>,
    msg: InMsg,
    g: Given,
    ids: Seq<Seq<char>>,
)
    requires
        settled(s.hub),
        ready_for(s, id, g.lobby_id@),
    ensures
        match_op(s, w, id, msg, g, ids) matches Some(o) ==> settled(o.state.hub),
{
    lemma_probed_seats(s.hub, s.queue, id, msg.rtt_ms);
    lemma_same_seating(s.hub, rtt_step(s.hub, s.queue, id, msg.rtt_ms).0);
    lemma_accept_seats(s.hub, s.queue, w.rules, id, msg, g.lobby_id@, g.now);
}

/// Whatever a connection sends, connections and rooms agree on who sits where
/// after it if they did before.
#[verifier::rlimit(50)]
pub proof fn law_messages_keep_seats(
    s: LobbyState,
    w: World,
    id: Seq<char>,
    peer_ip: Seq<char>,
    msg: InMsg,
    login: Login,
    g: Given,
    ids: Seq<Seq<char>>,
)
    requires
        settled(s.hub),
        ready_for(s, id, g.lobby_id@),
    ensures
        settled(dispatch(s, w, id, peer_ip, msg, login, g, ids).state.hub),
{
    if msg.op@ == "hello"@ {
        lemma_hello_seats(s.hub, id, msg, login, g.tag@);
        lemma_same_seating(s.hub, hello_step(s.hub, id, msg, login, g.tag@).0);
    } else {
        lemma_room_op_seats(s, w, id, peer_ip, msg, g);
        lemma_seat_op_seats(s, id, msg);
        lemma_talk_op_seats(s, w, id, msg, g);
        lemma_match_op_seats(s, w, id, msg, g, ids);
    }
}

/// A connection that comes in sits nowhere, and unsettles nobody.
pub proof fn law_connecting_keeps_seats(
    h: HubView,
    id: Seq<char>,
    peer_ip: Seq<char>,
    country: Seq<char>,
)
    requires
        settled(h),
        h.client(id) is None,
    ensures
        settled(h.connected(new_client(id, peer_ip, country))),
{
    let c = new_client(id, peer_ip, country);
    let h2 = h.connected(c);
    super::hub::law_connected_is_found(h, id, peer_ip, country);
    assert(h2.lobbies == h.lobbies);
    assert forall|x: Seq<char>| #[trigger] h2.lobby(x) == h.lobby(x) by {}
    assert forall|p: Seq<char>| #[trigger] h2.lobby_id_of(p) == h.lobby_id_of(p) by {
        let named = |y: ClientView| y.player_id == p;
        lemma_first_where(h.clients, named);
        match h.client_at(p) {
            Some(k) => {
                assert forall|j: int| 0 <= j < k implies !named(#[trigger] h2.clients[j]) by {
                    assert(!named(h.clients[j]));
                }
                lemma_first_is(h2.clients, named, k);
            },
            None => {
                assert forall|j: int| 0 <= j < h.clients.len() implies !named(
                    #[trigger] h2.clients[j],
                ) by {
                    assert(!named(h.clients[j]));
                }
                if p == id {
                    lemma_first_is(h2.clients, named, h.clients.len() as int);
                } else {
                    lemma_first_none(h2.clients, named);
                }
            },
        }
    }
    assert forall|x: Seq<char>, n: int| #[trigger] who(h2, x, n) == who(h, x, n) by {}
    assert forall|p: Seq<char>| #[trigger] h2.lobby_id_of(p) is Some implies seated_in(
        h2,
        h2.lobby_id_of(p)->0,
        p,
    ) by {
        let x = h.lobby_id_of(p)->0;
        assert(h2.lobby_id_of(p) == h.lobby_id_of(p));
        assert(seated_in(h, x, p));
        let n = choose|n: int| who(h, x, n) == Some(p);
        assert(who(h2, x, n) == Some(p));
    }
}

/// A connection that ends leaves no seat behind.
pub proof fn law_goodbyes_keep_seats(s: LobbyState, id: Seq<char>)
    requires
        settled(s.hub),
        s.hub.wf(),
    ensures
        settled(goodbye_step(s, id).0.hub),
        forall|x: Seq<char>, n: int|
            #[trigger] who(goodbye_step(s, id).0.hub, x, n) != Some(id),
{
    let h = leave_step(s.hub, id).0;
    lemma_leave_seats(s.hub, id);
    let h2 = h.disconnected(id);
    super::hub::law_forgotten_is_gone(h, id);
    assert(h2.lobbies == h.lobbies);
    assert forall|x: Seq<char>| #[trigger] h2.lobby(x) == h.lobby(x) by {}
    assert forall|p: Seq<char>| #[trigger] h2.lobby_id_of(p) == h.lobby_id_of(p) by {
        lemma_forgotten(h, id, p);
    }
    assert forall|x: Seq<char>, n: int| #[trigger] who(h2, x, n) == who(h, x, n) by {}
    assert forall|x: Seq<char>, n: int| #[trigger] who(h2, x, n) != Some(id) by {
        assert(who(h, x, n) == who(h2, x, n));
    }
    assert forall|p: Seq<char>| #[trigger] h2.lobby_id_of(p) is Some implies seated_in(
        h2,
        h2.lobby_id_of(p)->0,
        p,
    ) by {
        let x = h.lobby_id_of(p)->0;
        assert(h2.lobby_id_of(p) == h.lobby_id_of(p));
        assert(seated_in(h, x, p));
        let n = choose|n: int| who(h, x, n) == Some(p);
        assert(who(h2, x, n) == Some(p));
    }
}

/// Forgetting a connection that sits nowhere changes nobody's room.
proof fn lemma_forgotten(h: HubView, id: Seq<char>, p: Seq<char>)
    requires
        distinct_clients(h),
        h.lobby_id_of(id) is None,
    ensures
        h.disconnected(id).lobby_id_of(p) == h.lobby_id_of(p),
{
    let h2 = h.disconnected(id);
    lemma_first_where(h.clients, |y: ClientView| y.player_id == id);
    if let Some(i) = h.client_at(id) {
        if p == id {
            super::hub::law_forgotten_is_gone(h, id);
        } else {
            let named = |y: ClientView| y.player_id == p;
            lemma_first_where(h.clients, named);
            match h.client_at(p) {
                Some(k) => {
                    let at = if k < i {
                        k
                    } else {
                        k - 1
                    };
                    assert(h2.clients[at] == h.clients[k]);
                    assert forall|j: int| 0 <= j < at implies !named(#[trigger] h2.clients[j]) by {
                        if j < i {
                            assert(!named(h.clients[j]));
                        } else {
                            assert(h2.clients[j] == h.clients[j + 1]);
                            assert(!named(h.clients[j + 1]));
                        }
                    }
                    lemma_first_is(h2.clients, named, at);
                },
                None => {
                    assert forall|j: int| 0 <= j < h2.clients.len() implies !named(
                        #[trigger] h2.clients[j],
                    ) by {
                        if j < i {
                            assert(!named(h.clients[j]));
                        } else {
                            assert(h2.clients[j] == h.clients[j + 1]);
                            assert(!named(h.clients[j + 1]));
                        }
                    }
                    lemma_first_none(h2.clients, named);
                },
            }
        }
    }
}

/// The start of a matched room, or its closing, keeps the agreement.
pub proof fn law_settled_starts_keep_seats(
    h: HubView,
    r: RelayView,
    c: ConfigView,
    lid: Seq<char>,
    now: u64,
)
    requires
        settled(h),
        h.wf(),
    ensures
        settled(settled_start_step(h, r, c, lid, now).0),
{
    lemma_start_seats(h, r, c, lid, None, None, now);
    let h2 = start_step(h, r, c, lid, None, None, now).0;
    lemma_same_seating(h, h2);
    if start_step(h, r, c, lid, None, None, now).2 is Err {
        assert(h2.lobbies == h.lobbies);
        assert(h2.wf());
        lemma_destroy_seats(h2, lid);
    }
}

/// A new hub is settled.
pub proof fn law_a_new_hub_is_settled(h: HubView)
    requires
        h.clients.len() == 0,
        h.lobbies.len() == 0,
    ensures
        settled(h),
{
    assert forall|p: Seq<char>| #[trigger] h.client(p) is None by {
        lemma_first_where(h.clients, |y: ClientView| y.player_id == p);
    }
    assert forall|x: Seq<char>| #[trigger] h.lobby(x) is None by {
        lemma_first_where(h.lobbies, |y: LobbyView| y.lobby_id == x);
    }
}

} // verus!
