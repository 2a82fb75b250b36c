//! What is said and shown: chat lines, lists, the state of a room, new rooms.

use super::chat::{chat_msg, chat_step, list_step, server_chat_msg, server_chat_step};
use super::entries::is_fingerprint;
use super::input::InMsg;
use super::join::{create_step, created_msg, new_lobby};
use super::model::{ClientView, HubView, LobbyView, SlotView, MAX_LOBBIES};
use super::moves::{hears_no, lemma_refused, member};
use super::ops::{hears, in_room, lemma_everyone_is, lemma_keys, lemma_with_read, plays};
use super::outcomes::{lemma_taken, taken};
use super::roster::lemma_with_client;
use super::wire::{
    lobby_row, lobby_rows, lobby_update, seat_rows, sent_all, slot_row, update_msg, EffectView,
};
use crate::chat_filter::{masked, FilterView};
use crate::find::{lemma_first_is, lemma_first_where};
use crate::json::JsonView;
use crate::text::{clean_line, lowered, opt_view, trimmed};
use vstd::prelude::*;
use vstd::string::*;
use vstd::utf8::encode_utf8;

verus! {

/// One message to each of some: who hears it, and that it is the same for all.
pub proof fn lemma_sent_all(ids: Seq<Seq<char>>, m: JsonView, p: Seq<char>)
    ensures
        hears(sent_all(ids, m), p) == ids.contains(p),
        forall|i: int|
            0 <= i < sent_all(ids, m).len() ==> (#[trigger] sent_all(ids, m)[i]) is Send && sent_all(
                ids,
                m,
            )[i]->Send_msg == m,
{
    let out = sent_all(ids, m);
    if ids.contains(p) {
        let i = choose|i: int| 0 <= i < ids.len() && ids[i] == p;
        assert(out[i] is Send);
    }
    if hears(out, p) {
        let i = choose|i: int| 0 <= i < out.len() && (#[trigger] out[i]) is Send && out[i]->Send_to == p;
        assert(ids[i] == p);
    }
}

/// The members of a room are whoever sits in it.
pub proof fn lemma_member_ids(l: LobbyView, p: Seq<char>)
    ensures
        l.member_ids().contains(p) == in_room(l, p),
{
    lemma_everyone_is(l, p);
    let ids = l.member_ids();
    if ids.contains(p) {
        let i = choose|i: int| 0 <= i < ids.len() && ids[i] == p;
        assert(l.everyone()[i].player_id == p);
    }
    if in_room(l, p) {
        let i = choose|i: int| 0 <= i < l.everyone().len() && (#[trigger] l.everyone()[i]).player_id == p;
        assert(ids[i] == p);
    }
}

// ----------------------------------------------------------------- lobby chat

/// What is said in a room is heard by everyone who sits in it, the speaker too,
/// and by nobody else: the cleaned line as the filter lets it through, with who
/// said it. The line is remembered as it was heard.
pub proof fn law_a_line_is_heard_in_the_room(
    h: HubView,
    filter: FilterView,
    id: Seq<char>,
    raw: Seq<char>,
    lid: Seq<char>,
    l: LobbyView,
    p: Seq<char>,
)
    requires
        member(h, id, lid, l),
        in_room(l, id),
        clean_line(raw, 240).len() > 0,
    ensures
        ({
            let (h2, out) = chat_step(h, filter, id, raw);
            let text = masked(filter, clean_line(raw, 240));
            &&& hears(out, p) == in_room(l, p)
            &&& forall|i: int|
                0 <= i < out.len() ==> (#[trigger] out[i]) is Send && {
                    let m = out[i]->Send_msg;
                    &&& m.get("op"@) == Some(JsonView::Str("chat"@))
                    &&& m.get("lobby_id"@) == Some(JsonView::Str(lid))
                    &&& m.get("from_player_id"@) == Some(JsonView::Str(id))
                    &&& m.get("text"@) == Some(JsonView::Str(text))
                    &&& m.get("mid"@) == Some(JsonView::Str(h2.chat_ring.last().id))
                }
            &&& h2.chat_ring.len() > 0
            &&& h2.chat_ring.last().text == text
            &&& h2.chat_ring.last().lobby_id == lid
            &&& h2.lobbies == h.lobbies
            &&& h2.clients == h.clients
        }),
{
    broadcast use lemma_with_read;

    lemma_keys();
    let (h2, out) = chat_step(h, filter, id, raw);
    lemma_first_where(l.slots, |o: Option<SlotView>| super::model::sits(o, id));
    lemma_first_where(l.spectators, |o: Option<SlotView>| super::model::sits(o, id));
    if plays(l, id) {
        let k = choose|k: int|
            0 <= k < l.slots.len() && (#[trigger] l.slots[k]) is Some && l.slots[k]->0.player_id == id;
        assert(super::model::sits(l.slots[k], id));
    } else {
        let k = choose|k: int|
            0 <= k < l.spectators.len() && (#[trigger] l.spectators[k]) is Some
                && l.spectators[k]->0.player_id == id;
        assert(super::model::sits(l.spectators[k], id));
    }
    assert(l.seat_of(id) is Some);
    let m = out_msg(h, filter, id, raw, lid, l);
    assert(out == sent_all(l.member_ids(), m));
    lemma_sent_all(l.member_ids(), m, p);
    lemma_member_ids(l, p);
}

/// The line as everyone in a room hears it.
spec fn out_msg(
    h: HubView,
    filter: FilterView,
    id: Seq<char>,
    raw: Seq<char>,
    lid: Seq<char>,
    l: LobbyView,
) -> JsonView {
    chat_msg(
        lid,
        h.next_line_id(),
        id,
        h.account_of(id),
        super::seats::seated_name(l, id),
        super::chat::relayed_text(filter, raw),
    )
}

proof fn lemma_audience(h: HubView, scope: Seq<char>, n: int, p: Seq<char>)
    requires
        0 <= n <= h.clients.len(),
    ensures
        h.audience(scope, n).contains(p) == (h.game_scope(p) == scope && exists|k: int|
            0 <= k < n && (#[trigger] h.clients[k]).player_id == p),
    decreases n,
{
    if n > 0 {
        lemma_audience(h, scope, n - 1, p);
        let rest = h.audience(scope, n - 1);
        let all = h.audience(scope, n);
        if rest.contains(p) {
            let i = choose|i: int| 0 <= i < rest.len() && rest[i] == p;
            assert(all[i] == p);
        }
        if all.contains(p) {
            let i = choose|i: int| 0 <= i < all.len() && all[i] == p;
            if i < rest.len() {
                assert(rest[i] == p);
            } else {
                assert(h.clients[n - 1].player_id == p);
            }
        }
        if h.game_scope(p) == scope && exists|k: int|
            0 <= k < n && (#[trigger] h.clients[k]).player_id == p {
            let k = choose|k: int| 0 <= k < n && (#[trigger] h.clients[k]).player_id == p;
            if k == n - 1 {
                assert(all[rest.len() as int] == p);
            }
        }
    }
}

/// What is said to a title at large is heard by the speaker and by every client
/// that plays the title, and by no client of another: the cleaned line as the
/// filter lets it through, with who said it.
pub proof fn law_a_line_at_large_is_for_its_title(
    h: HubView,
    filter: FilterView,
    id: Seq<char>,
    raw: Seq<char>,
    game: Seq<char>,
    p: Seq<char>,
)
    requires
        h.client(id) is Some,
        clean_line(raw, 240).len() > 0,
        game.len() > 0,
        h.client(p) is Some,
        p == id || h.client(p)->0.game_name.len() > 0,
    ensures
        ({
            let (h2, out) = server_chat_step(h, filter, id, raw, Some(game));
            let text = masked(filter, clean_line(raw, 240));
            &&& hears(out, p) == (p == id || h.client(p)->0.game_name == game)
            &&& forall|i: int|
                0 <= i < out.len() ==> (#[trigger] out[i]) is Send && {
                    let m = out[i]->Send_msg;
                    &&& m.get("op"@) == Some(JsonView::Str("server_chat"@))
                    &&& m.get("game_name"@) == Some(JsonView::Str(game))
                    &&& m.get("from_player_id"@) == Some(JsonView::Str(id))
                    &&& m.get("text"@) == Some(JsonView::Str(text))
                }
            &&& h2.chat_ring.len() > 0
            &&& h2.chat_ring.last().text == text
            &&& h2.lobbies == h.lobbies
        }),
{
    let (h2, out) = server_chat_step(h, filter, id, raw, Some(game));
    lemma_first_where(h.clients, |c: ClientView| c.player_id == id);
    let c1 = ClientView { game_name: game, ..h.client(id)->0 };
    lemma_with_client(h, id, c1);
    let h1 = h.playing(id, Some(game));
    assert(h1 == h.with_client(id, c1));
    assert(h1.client(id) == Some(c1));
    assert(h1.client(p) == (if p == id {
        Some(c1)
    } else {
        h.client(p)
    }));
    let m = server_chat_msg(
        game,
        h1.next_line_id(),
        id,
        c1.account_id(),
        c1.display_name,
        c1.country,
        super::chat::relayed_text(filter, raw),
    );
    let ids = h1.audience(game, h1.clients.len() as int);
    assert(out == sent_all(ids, m));
    lemma_sent_all(ids, m, p);
    lemma_audience(h1, game, h1.clients.len() as int, p);
    lemma_first_where(h1.clients, |c: ClientView| c.player_id == p);
    assert(h1.clients[h1.client_at(p)->0].player_id == p);
    lemma_server_line_says(
        game,
        h1.next_line_id(),
        id,
        c1.account_id(),
        c1.display_name,
        c1.country,
        super::chat::relayed_text(filter, raw),
    );
}

proof fn lemma_server_line_says(
    scope: Seq<char>,
    mid: Seq<char>,
    id: Seq<char>,
    account: Seq<char>,
    from: Seq<char>,
    country: Seq<char>,
    text: Seq<char>,
)
    ensures
        ({
            let m = server_chat_msg(scope, mid, id, account, from, country, text);
            &&& m.get("op"@) == Some(JsonView::Str("server_chat"@))
            &&& m.get("game_name"@) == Some(JsonView::Str(scope))
            &&& m.get("from_player_id"@) == Some(JsonView::Str(id))
            &&& m.get("text"@) == Some(JsonView::Str(text))
        }),
{
    broadcast use lemma_with_read;

    lemma_keys();
}

// -------------------------------------------------------------- rooms as shown

/// Whether a row tells of someone in a seat.
pub open spec fn tells_seat(row: JsonView, seat: int, s: SlotView) -> bool {
    &&& row.get("slot"@) == Some(JsonView::Int(seat))
    &&& row.get("player_id"@) == Some(JsonView::Str(s.player_id))
    &&& row.get("display_name"@) == Some(JsonView::Str(s.display_name))
    &&& row.get("ready"@) == Some(JsonView::Bool(s.ready))
    &&& s.bios_offer is Some ==> row.get("bios_offer"@) == s.bios_offer
    &&& s.mod_offer is Some ==> row.get("mod_offer"@) == s.mod_offer
    &&& s.memcard_offer is Some ==> row.get("memcard_offer"@) == s.memcard_offer
    &&& s.country.len() > 0 ==> row.get("country"@) == Some(JsonView::Str(s.country))
}

proof fn lemma_slot_row(i: int, s: SlotView, account: Seq<char>)
    ensures
        tells_seat(slot_row(i, s, account), i, s),
{
    broadcast use lemma_with_read;

    lemma_keys();
}

/// Every taken seat of a table has a row, which tells who sits there, and there
/// are no more rows than taken seats.
pub proof fn law_rows_tell_of_every_seat(
    h: HubView,
    s: Seq<Option<SlotView>>,
    base: int,
    k: int,
)
    requires
        0 <= k < s.len(),
        s[k] is Some,
    ensures
        exists|i: int|
            0 <= i < seat_rows(h, s, base).len() && tells_seat(
                #[trigger] seat_rows(h, s, base)[i],
                base + k,
                s[k]->0,
            ),
        seat_rows(h, s, base).len() == taken(s),
    decreases s.len(),
{
    reveal(Seq::filter);
    let d = s.drop_last();
    let rest = seat_rows(h, d, base);
    let all = seat_rows(h, s, base);
    lemma_rows_count(h, s, base);
    if k < d.len() {
        assert(d[k] == s[k]);
        law_rows_tell_of_every_seat(h, d, base, k);
        let i = choose|i: int| 0 <= i < rest.len() && tells_seat(#[trigger] rest[i], base + k, d[k]->0);
        assert(all[i] == rest[i]);
    } else {
        lemma_slot_row(base + k, s[k]->0, h.account_of(s[k]->0.player_id));
        assert(tells_seat(all[rest.len() as int], base + k, s[k]->0));
    }
}

proof fn lemma_rows_count(h: HubView, s: Seq<Option<SlotView>>, base: int)
    ensures
        seat_rows(h, s, base).len() == taken(s),
    decreases s.len(),
{
    reveal(Seq::filter);
    if s.len() > 0 {
        lemma_rows_count(h, s.drop_last(), base);
    }
}

/// What is told of a room goes to whoever sits in it, and to nobody else, and says
/// who hosts it, how many play, and whether all who play are ready.
pub proof fn law_a_room_is_told_of_itself(h: HubView, lid: Seq<char>, l: LobbyView, p: Seq<char>)
    requires
        h.lobby(lid) == Some(l),
    ensures
        ({
            let out = lobby_update(h, lid);
            &&& hears(out, p) == in_room(l, p)
            &&& forall|i: int|
                0 <= i < out.len() ==> (#[trigger] out[i]) is Send && {
                    let m = out[i]->Send_msg;
                    &&& m.get("op"@) == Some(JsonView::Str("lobby_update"@))
                    &&& m.get("lobby_id"@) == Some(JsonView::Str(l.lobby_id))
                    &&& m.get("session_id"@) == Some(JsonView::Int(l.session_id as int))
                    &&& m.get("host_player_id"@) == Some(JsonView::Str(l.host_player_id))
                    &&& m.get("host_endpoint"@) == Some(JsonView::Str(l.host_endpoint))
                    &&& m.get("guest_endpoint"@) == Some(JsonView::Str(l.guest_endpoint))
                    &&& m.get("player_count"@) == Some(JsonView::Int(taken(l.slots)))
                    &&& m.get("spectator_count"@) == Some(JsonView::Int(taken(l.spectators)))
                    &&& m.get("max_slots"@) == Some(JsonView::Int(l.max_slots as int))
                    &&& m.get("all_ready"@) == Some(JsonView::Bool(all_set(l)))
                    &&& m.get("slots"@) == Some(JsonView::Arr(seat_rows(h, l.slots, 0)))
                    &&& m.get("spectators"@) == Some(JsonView::Arr(seat_rows(h, l.spectators, 64)))
                    &&& l.match_caps is Some ==> m.get("match_caps"@) == l.match_caps
                }
        }),
{
    lemma_sent_all(l.member_ids(), update_msg(h, l), p);
    lemma_member_ids(l, p);
    lemma_update_says(h, l);
}

/// Whether two at least play in a room, and each of them is ready.
pub open spec fn all_set(l: LobbyView) -> bool {
    taken(l.slots) >= 2 && forall|k: int|
        0 <= k < l.slots.len() && (#[trigger] l.slots[k]) is Some ==> l.slots[k]->0.ready
}

proof fn lemma_all_ready(s: Seq<Option<SlotView>>)
    ensures
        (forall|i: int| 0 <= i < super::model::seated(s).len() ==> (#[trigger] super::model::seated(s)[i]).ready)
            == (forall|k: int| 0 <= k < s.len() && (#[trigger] s[k]) is Some ==> s[k]->0.ready),
    decreases s.len(),
{
    if s.len() > 0 {
        let d = s.drop_last();
        lemma_all_ready(d);
        let a = super::model::seated(d);
        let b = super::model::seated(s);
        assert(forall|k: int| 0 <= k < d.len() ==> d[k] == #[trigger] s[k]);
        assert(s[s.len() - 1] == s.last());
        if s.last() is Some {
            assert(b[a.len() as int] == s.last()->0);
        }
        assert(forall|i: int| 0 <= i < a.len() ==> #[trigger] b[i] == a[i]);
        if forall|i: int| 0 <= i < b.len() ==> (#[trigger] b[i]).ready {
            assert forall|i: int| 0 <= i < a.len() implies (#[trigger] a[i]).ready by {
                assert(b[i] == a[i]);
            }
            assert forall|k: int| 0 <= k < s.len() && (#[trigger] s[k]) is Some implies s[k]->0.ready by {
                if k < d.len() {
                    assert(d[k] == s[k]);
                }
            }
        }
        if forall|k: int| 0 <= k < s.len() && (#[trigger] s[k]) is Some ==> s[k]->0.ready {
            assert forall|k: int| 0 <= k < d.len() && (#[trigger] d[k]) is Some implies d[k]->0.ready by {
                assert(s[k] == d[k]);
            }
            assert forall|i: int| 0 <= i < b.len() implies (#[trigger] b[i]).ready by {
                if i < a.len() {
                    assert(a[i].ready);
                }
            }
        }
    }
}

proof fn lemma_update_says(h: HubView, l: LobbyView)
    ensures
        ({
            let m = update_msg(h, l);
            &&& m.get("op"@) == Some(JsonView::Str("lobby_update"@))
            &&& m.get("lobby_id"@) == Some(JsonView::Str(l.lobby_id))
            &&& m.get("session_id"@) == Some(JsonView::Int(l.session_id as int))
            &&& m.get("host_player_id"@) == Some(JsonView::Str(l.host_player_id))
            &&& m.get("host_endpoint"@) == Some(JsonView::Str(l.host_endpoint))
            &&& m.get("guest_endpoint"@) == Some(JsonView::Str(l.guest_endpoint))
            &&& m.get("player_count"@) == Some(JsonView::Int(taken(l.slots)))
            &&& m.get("spectator_count"@) == Some(JsonView::Int(taken(l.spectators)))
            &&& m.get("max_slots"@) == Some(JsonView::Int(l.max_slots as int))
            &&& m.get("all_ready"@) == Some(JsonView::Bool(all_set(l)))
            &&& m.get("slots"@) == Some(JsonView::Arr(seat_rows(h, l.slots, 0)))
            &&& m.get("spectators"@) == Some(JsonView::Arr(seat_rows(h, l.spectators, 64)))
            &&& l.match_caps is Some ==> m.get("match_caps"@) == l.match_caps
        }),
{
    broadcast use lemma_with_read;

    lemma_keys();
    lemma_taken(l.slots);
    lemma_taken(l.spectators);
    lemma_all_ready(l.slots);
}

/// Whether a row of the browser tells of a room.
pub open spec fn tells_room(row: JsonView, l: LobbyView) -> bool {
    &&& row.get("lobby_id"@) == Some(JsonView::Str(l.lobby_id))
    &&& row.get("name"@) == Some(JsonView::Str(l.name))
    &&& row.get("game_name"@) == Some(JsonView::Str(l.game_name))
    &&& row.get("game_version"@) == Some(JsonView::Str(l.game_version))
    &&& row.get("player_count"@) == Some(JsonView::Int(taken(l.slots)))
    &&& row.get("max_slots"@) == Some(JsonView::Int(l.max_slots as int))
    &&& row.get("has_password"@) == Some(JsonView::Bool(l.password_hash is Some))
    &&& row.get("host_endpoint"@) == Some(JsonView::Str(l.host_endpoint))
    &&& row.get("allow_spectators"@) == Some(JsonView::Bool(l.allow_spectators))
    &&& row.get("spectator_count"@) == Some(JsonView::Int(taken(l.spectators)))
}

/// Whether somebody who asks for a title and a version is to see a room: one that
/// the server matched is never shown, and what is asked for has to agree.
pub open spec fn sought(l: LobbyView, game: Option<Seq<char>>, version: Option<Seq<char>>) -> bool {
    &&& !l.automatch
    &&& game is Some && game->0.len() > 0 ==> l.game_name == game->0
    &&& version is Some && trimmed(version->0).len() > 0 ==> l.game_version == trimmed(version->0)
}

proof fn lemma_row_says(l: LobbyView)
    ensures
        tells_room(lobby_row(l), l),
{
    broadcast use lemma_with_read;

    lemma_keys();
    lemma_taken(l.slots);
    lemma_taken(l.spectators);
}

/// Whether one of some rows tells of a room.
pub open spec fn has_row(rows: Seq<JsonView>, l: LobbyView) -> bool {
    exists|i: int| 0 <= i < rows.len() && tells_room(#[trigger] rows[i], l)
}

/// Whether a row tells of a room that is sought.
pub open spec fn has_room(
    ls: Seq<LobbyView>,
    row: JsonView,
    game: Option<Seq<char>>,
    version: Option<Seq<char>>,
) -> bool {
    exists|k: int|
        0 <= k < ls.len() && sought(#[trigger] ls[k], game, version) && tells_room(row, ls[k])
}

/// Whether some rows tell of the rooms that are sought, and of no other.
pub open spec fn shows(
    rows: Seq<JsonView>,
    ls: Seq<LobbyView>,
    game: Option<Seq<char>>,
    version: Option<Seq<char>>,
) -> bool {
    &&& forall|k: int|
        0 <= k < ls.len() && sought(#[trigger] ls[k], game, version) ==> has_row(rows, ls[k])
    &&& forall|i: int| 0 <= i < rows.len() ==> has_room(ls, #[trigger] rows[i], game, version)
}

proof fn lemma_rows(
    ls: Seq<LobbyView>,
    game: Option<Seq<char>>,
    version: Option<Seq<char>>,
)
    ensures
        shows(
            lobby_rows(ls, super::input::nonempty(game), super::chat::version_filter(version)),
            ls,
            game,
            version,
        ),
    decreases ls.len(),
{
    let g = super::input::nonempty(game);
    let v = super::chat::version_filter(version);
    if ls.len() > 0 {
        let d = ls.drop_last();
        lemma_rows(d, game, version);
        lemma_row_says(ls.last());
        let rest = lobby_rows(d, g, v);
        let all = lobby_rows(ls, g, v);
        assert(super::wire::shown(ls.last(), g, v) == sought(ls.last(), game, version));
        assert forall|k: int| 0 <= k < ls.len() && sought(#[trigger] ls[k], game, version) implies has_row(
            all,
            ls[k],
        ) by {
            if k < d.len() {
                assert(d[k] == ls[k]);
                assert(has_row(rest, d[k]));
                let i = choose|i: int| 0 <= i < rest.len() && tells_room(#[trigger] rest[i], d[k]);
                assert(tells_room(all[i], ls[k]));
            } else {
                assert(tells_room(all[rest.len() as int], ls[k]));
            }
        }
        assert forall|i: int| 0 <= i < all.len() implies has_room(ls, #[trigger] all[i], game, version) by {
            if i < rest.len() {
                assert(all[i] == rest[i]);
                assert(has_room(d, rest[i], game, version));
                let k = choose|k: int|
                    0 <= k < d.len() && sought(#[trigger] d[k], game, version) && tells_room(
                        rest[i],
                        d[k],
                    );
                assert(sought(ls[k], game, version));
            } else {
                assert(sought(ls[ls.len() - 1], game, version));
            }
        }
    }
}

/// Whoever asks for the list gets it, with a row for every room that they are to
/// see, and no row that tells of another.
pub proof fn law_the_list_shows_what_is_sought(
    h: HubView,
    id: Seq<char>,
    game: Option<Seq<char>>,
    version: Option<Seq<char>>,
)
    ensures
        ({
            let (h2, out) = list_step(h, id, game, version);
            &&& out.len() == 1
            &&& out[0] is Send && out[0]->Send_to == id
            &&& out[0]->Send_msg.get("op"@) == Some(JsonView::Str("lobby_list"@))
            &&& out[0]->Send_msg.get("lobbies"@) is Some
            &&& out[0]->Send_msg.get("lobbies"@)->0 is Arr
            &&& h2.lobbies == h.lobbies
            &&& shows(out[0]->Send_msg.get("lobbies"@)->0->Arr_0, h.lobbies, game, version)
        }),
{
    broadcast use lemma_with_read;

    lemma_keys();
    let h1 = h.playing(id, super::input::nonempty(game));
    assert(h1.lobbies == h.lobbies);
    lemma_rows(h.lobbies, game, version);
}

// ------------------------------------------------------------------- new rooms

/// Whoever is in no room opens one, where there is place: it is theirs, they sit
/// in its first seat and nobody else in any, it has the build, the size and the
/// password that were asked for, and they are told its id and session. Every other
/// room stays as it is.
pub proof fn law_a_room_opens_for_its_host(
    h: HubView,
    id: Seq<char>,
    peer_ip: Seq<char>,
    msg: InMsg,
    lid: Seq<char>,
    salt: Seq<u8>,
)
    requires
        h.client(id) is Some,
        h.client(id)->0.lobby_id is None,
        h.lobbies.len() < MAX_LOBBIES,
        forall|k: int| 0 <= k < h.lobbies.len() ==> (#[trigger] h.lobbies[k]).lobby_id != lid,
    ensures
        ({
            let (h2, out) = create_step(h, id, peer_ip, msg, lid, salt);
            let l = h2.lobbies.last();
            &&& h2.lobbies.len() == h.lobbies.len() + 1
            &&& h2.lobbies.drop_last() == h.lobbies
            &&& h2.lobby(lid) == Some(l)
            &&& l.lobby_id == lid
            &&& l.host_player_id == id
            &&& h2.client(id) is Some && h2.client(id)->0.lobby_id == Some(lid)
            &&& is_new_room(l, id, msg, salt)
            &&& l.session_id == h.next_session
            &&& out.len() > 0
            &&& out[0] is Send && out[0]->Send_to == id
            &&& out[0]->Send_msg.get("op"@) == Some(JsonView::Str("created"@))
            &&& out[0]->Send_msg.get("lobby_id"@) == Some(JsonView::Str(lid))
            &&& out[0]->Send_msg.get("session_id"@) == Some(JsonView::Int(h.next_session as int))
            &&& out[0]->Send_msg.get("max_slots"@) == Some(JsonView::Int(l.max_slots as int))
        }),
{
    let (h2, out) = create_step(h, id, peer_ip, msg, lid, salt);
    let named = super::input::nonempty(opt_view(msg.display_name));
    super::entries::lemma_renamed_keeps(h, id, named);
    let h1 = h.renamed(id, named);
    let name = h1.client(id)->0.display_name;
    let l = new_lobby(
        id,
        name,
        super::join::country_of(h1, id),
        peer_ip,
        msg,
        lid,
        salt,
        h1.next_session,
    );
    let m = HubView {
        lobbies: h1.lobbies.push(l),
        next_session: super::join::next_session(h1.next_session),
        ..h1
    };
    assert(m.client(id) == h1.client(id));
    lemma_first_where(h1.clients, |c: ClientView| c.player_id == id);
    let c2 = ClientView { lobby_id: Some(lid), game_name: l.game_name, ..h1.client(id)->0 };
    lemma_with_client(m, id, c2);
    assert(h2 == m.with_client(id, c2));
    assert(h2.client(id) == Some(c2));
    assert(h2.lobbies == m.lobbies);
    assert(h2.lobbies.drop_last() =~= h.lobbies);
    let at = h.lobbies.len() as int;
    assert forall|k: int| 0 <= k < at implies (#[trigger] h2.lobbies[k]).lobby_id != lid by {
        assert(h2.lobbies[k] == h.lobbies[k]);
    }
    lemma_first_is(h2.lobbies, |x: LobbyView| x.lobby_id == lid, at);
    lemma_new_room(id, name, super::join::country_of(h1, id), peer_ip, msg, lid, salt, h1.next_session);
    lemma_created_says(l);
    assert(out[0] == EffectView::Send { to: id, msg: created_msg(l) });
}

/// Whether a room is as its opener asked: the opener alone in the first seat, as
/// many seats as asked for, from two to eight, a gallery where one was asked for,
/// the title, the version and the disc of the message, and locked under its
/// password where it gave one.
pub open spec fn is_new_room(l: LobbyView, id: Seq<char>, msg: InMsg, salt: Seq<u8>) -> bool {
    &&& l.slots.len() == l.max_slots
    &&& 2 <= l.max_slots <= 8
    &&& match msg.max_slots {
        Some(n) => 2 <= n <= 8 ==> l.max_slots == n,
        None => l.max_slots == 2,
    }
    &&& l.slots[0] is Some && l.slots[0]->0.player_id == id
    &&& forall|k: int| 0 < k < l.slots.len() ==> (#[trigger] l.slots[k]) is None
    &&& forall|k: int| 0 <= k < l.spectators.len() ==> (#[trigger] l.spectators[k]) is None
    &&& l.spectators.len() == (if msg.allow_spectators == Some(true) {
        4nat
    } else {
        0nat
    })
    &&& msg.game_name matches Some(g) ==> g@.len() > 0 ==> l.game_name == g@
    &&& msg.game_version matches Some(v) ==> trimmed(v@).len() > 0 ==> l.game_version == trimmed(v@)
    &&& msg.game_version is None ==> l.game_version == "dev"@
    &&& msg.disc_fp matches Some(d) ==> if is_fingerprint(lowered(trimmed(d@))) {
        l.disc_fp == lowered(trimmed(d@))
    } else {
        l.disc_fp.len() == 0
    }
    &&& msg.name matches Some(n) ==> n@.len() > 0 ==> l.name == n@
    &&& match msg.password {
        Some(pw) => if pw@.len() > 0 {
            l.password_salt == Some(salt) && l.password_hash == Some(
                crate::outside::sha256_of(salt + encode_utf8(pw@)),
            )
        } else {
            l.password_hash is None
        },
        None => l.password_hash is None,
    }
    &&& !l.started
    &&& !l.automatch
    &&& l.relay_session_id is None
}

proof fn lemma_new_room(
    id: Seq<char>,
    name: Seq<char>,
    country: Seq<char>,
    peer_ip: Seq<char>,
    msg: InMsg,
    lid: Seq<char>,
    salt: Seq<u8>,
    sid: u32,
)
    ensures
        is_new_room(new_lobby(id, name, country, peer_ip, msg, lid, salt, sid), id, msg, salt),
{
    if let Some(raw) = msg.disc_fp {
        let t = lowered(trimmed(raw@));
        if is_fingerprint(t) {
            assert forall|i: int| 0 <= i < t.len() implies super::input::hex_digit(#[trigger] t[i]) by {}
        } else if t.len() == 64 {
            let i = choose|i: int|
                0 <= i < 64 && !('0' <= #[trigger] t[i] <= '9' || 'a' <= t[i] <= 'f' || 'A' <= t[i]
                    <= 'F');
            assert(!super::input::hex_digit(t[i]));
        }
    }
}

proof fn lemma_created_says(l: LobbyView)
    ensures
        created_msg(l).get("op"@) == Some(JsonView::Str("created"@)),
        created_msg(l).get("lobby_id"@) == Some(JsonView::Str(l.lobby_id)),
        created_msg(l).get("session_id"@) == Some(JsonView::Int(l.session_id as int)),
        created_msg(l).get("max_slots"@) == Some(JsonView::Int(l.max_slots as int)),
{
    broadcast use lemma_with_read;

    lemma_keys();
}

/// Whoever sits in a room opens no other, and nobody does where there are 64.
pub proof fn law_a_room_too_many_is_refused(
    h: HubView,
    id: Seq<char>,
    peer_ip: Seq<char>,
    msg: InMsg,
    lid: Seq<char>,
    salt: Seq<u8>,
)
    requires
        h.client(id) is Some,
    ensures
        h.client(id)->0.lobby_id is Some ==> create_step(h, id, peer_ip, msg, lid, salt).0 == h
            && hears_no(create_step(h, id, peer_ip, msg, lid, salt).1, id, "already_in_lobby"@),
        h.client(id)->0.lobby_id is None && h.lobbies.len() >= 64 ==> create_step(
            h,
            id,
            peer_ip,
            msg,
            lid,
            salt,
        ).0 == h && hears_no(create_step(h, id, peer_ip, msg, lid, salt).1, id, "lobby_limit"@),
{
    lemma_refused(id, "already_in_lobby"@);
    lemma_refused(id, "lobby_limit"@);
}

} // verus!
