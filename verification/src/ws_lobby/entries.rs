//! Who gets into a room, and on what terms.

use super::chat::Login;
use super::dispatch::{dispatch, in_hub, Given, LobbyState, World};
use super::input::InMsg;
use super::join::{
    build_mismatch, join_step, joined_lobby, joined_msg, missing_rows, naming_rows, seat_for,
    seat_step, seated_client, SeatOutcome,
};
use super::model::{
    fresh_slot, free_at, lemma_lobby_at, ClientView, HubView, LobbyView, SlotView,
    SPECTATOR_SLOT_BASE,
};
use super::ops::{
    hears_op, in_room, lemma_keys, lemma_stamps, lemma_with_read, plays, stamp, watches,
};
use super::outcomes::{lemma_taken, taken};
use super::roster::{lemma_with_client, lemma_with_lobby};
use super::wire::EffectView;
use crate::find::lemma_first_where;
use crate::json::{opt_json, JsonView};
use crate::text::{lowered, opt_view, trimmed};
use vstd::prelude::*;
use vstd::string::*;
use vstd::utf8::encode_utf8;

verus! {

/// Whether a text is 64 hexadecimal digits.
pub open spec fn is_fingerprint(t: Seq<char>) -> bool {
    t.len() == 64 && forall|i: int|
        0 <= i < 64 ==> '0' <= #[trigger] t[i] <= '9' || 'a' <= t[i] <= 'f' || 'A' <= t[i] <= 'F'
}

/// Whether a message speaks of the build that a room runs: the same version,
/// `dev` where none is said, the same title where one is said, and the same disc,
/// where either gives one.
pub open spec fn same_build(l: LobbyView, msg: InMsg) -> bool {
    &&& match msg.game_version {
        Some(v) => if trimmed(v@).len() > 0 {
            l.game_version == trimmed(v@)
        } else {
            l.game_version == "dev"@
        },
        None => l.game_version == "dev"@,
    }
    &&& msg.game_name matches Some(n) ==> n@.len() > 0 ==> l.game_name == n@
    &&& match msg.disc_fp {
        Some(raw) => if is_fingerprint(lowered(trimmed(raw@))) {
            l.disc_fp == lowered(trimmed(raw@))
        } else {
            l.disc_fp.len() == 0
        },
        None => l.disc_fp.len() == 0,
    }
}

/// Whether a message gives a room's password, where the room has one.
pub open spec fn opens(l: LobbyView, msg: InMsg) -> bool {
    l.password_hash is Some && l.password_salt is Some ==> {
        &&& msg.password is Some
        &&& msg.password->0@.len() > 0
        &&& crate::outside::sha256_of(l.password_salt->0 + encode_utf8(msg.password->0@))
            == l.password_hash->0
    }
}

/// The text that a row has under one key or, where that key is not there, under
/// another.
pub open spec fn row_text(row: JsonView, a: Seq<char>, b: Seq<char>) -> Option<Seq<char>> {
    let v = if row.get(a) is Some {
        row.get(a)
    } else {
        row.get(b)
    };
    if v is Some && v->0 is Str {
        Some(v->0->Str_0)
    } else {
        None
    }
}

/// The rows of a list that an object has under a key.
pub open spec fn rows_under(o: Option<JsonView>, key: Seq<char>) -> Option<Seq<JsonView>> {
    if o is Some && o->0.get(key) is Some && o->0.get(key)->0 is Arr {
        Some(o->0.get(key)->0->Arr_0)
    } else {
        None
    }
}

/// Whether a row of some is of a mod of this id and version.
pub open spec fn in_rows(rows: Seq<JsonView>, id: Seq<char>, ver: Seq<char>) -> bool {
    exists|j: int|
        0 <= j < rows.len() && row_text(#[trigger] rows[j], "id"@, "i"@) == Some(id) && row_text(
            rows[j],
            "ver"@,
            "v"@,
        ) == Some(ver)
}

/// The key under which an offer lists its mods.
pub open spec fn offer_key(offer: Option<JsonView>) -> Seq<char> {
    if offer is Some && offer->0.get("pkgs"@) is Some {
        "pkgs"@
    } else {
        "mods"@
    }
}

/// Whether an offer lists a mod of this id and version.
pub open spec fn lists_mod(offer: Option<JsonView>, id: Seq<char>, ver: Seq<char>) -> bool {
    rows_under(offer, offer_key(offer)) is Some && in_rows(
        rows_under(offer, offer_key(offer))->0,
        id,
        ver,
    )
}

/// Whether a message offers every mod that a room names, at its version.
pub open spec fn brings_mods(l: LobbyView, msg: InMsg) -> bool {
    rows_under(l.match_caps, "mods"@) matches Some(rows) ==> forall|i: int|
        0 <= i < rows.len() ==> {
            let id = row_text(#[trigger] rows[i], "id"@, "i"@);
            let ver = row_text(rows[i], "ver"@, "v"@);
            id is Some && id->0.len() > 0 ==> lists_mod(
                opt_json(msg.mod_offer),
                id->0,
                if ver is Some {
                    ver->0
                } else {
                    Seq::empty()
                },
            )
        }
}

/// A row that lacks its mod is among those asked for, and the other way round.
proof fn lemma_missing(rows: Seq<JsonView>, offer: Option<JsonView>)
    ensures
        (missing_rows(naming_rows(rows), offer).len() == 0) == (forall|i: int|
            0 <= i < rows.len() ==> {
                let id = row_text(#[trigger] rows[i], "id"@, "i"@);
                let ver = row_text(rows[i], "ver"@, "v"@);
                id is Some && id->0.len() > 0 ==> lists_mod(
                    offer,
                    id->0,
                    if ver is Some {
                        ver->0
                    } else {
                        Seq::empty()
                    },
                )
            }),
    decreases rows.len(),
{
    if rows.len() > 0 {
        let d = rows.drop_last();
        lemma_missing(d, offer);
        let x = rows.last();
        let id = row_text(x, "id"@, "i"@);
        let ver = row_text(x, "ver"@, "v"@);
        let v = if ver is Some {
            ver->0
        } else {
            Seq::empty()
        };
        assert(super::join::mod_id(x) == id);
        assert(super::join::mod_version(x) == ver);
        if id is Some && id->0.len() > 0 {
            let n = naming_rows(d);
            assert(naming_rows(rows) == n.push(x));
            assert(n.push(x).drop_last() =~= n);
            lemma_lists(offer, id->0, v);
        }
        assert(forall|i: int| 0 <= i < d.len() ==> d[i] == #[trigger] rows[i]);
        assert(rows[rows.len() - 1] == x);
        if missing_rows(naming_rows(d), offer).len() == 0 {
            assert forall|i: int| 0 <= i < d.len() implies ({
                let id = row_text(#[trigger] rows[i], "id"@, "i"@);
                let ver = row_text(rows[i], "ver"@, "v"@);
                id is Some && id->0.len() > 0 ==> lists_mod(
                    offer,
                    id->0,
                    if ver is Some {
                        ver->0
                    } else {
                        Seq::empty()
                    },
                )
            }) by {
                assert(d[i] == rows[i]);
            }
        }
    }
}

proof fn lemma_lists(offer: Option<JsonView>, id: Seq<char>, ver: Seq<char>)
    ensures
        super::join::offers(offer, id, ver) == lists_mod(offer, id, ver),
{
    if let Some(rows) = rows_under(offer, offer_key(offer)) {
        if super::join::offers(offer, id, ver) {
            let j = choose|j: int|
                0 <= j < rows.len() && super::join::mod_id(#[trigger] rows[j]) == Some(id)
                    && super::join::mod_version(rows[j]) == Some(ver);
            assert(row_text(rows[j], "id"@, "i"@) == Some(id));
        }
        if in_rows(rows, id, ver) {
            let j = choose|j: int|
                0 <= j < rows.len() && row_text(#[trigger] rows[j], "id"@, "i"@) == Some(id)
                    && row_text(rows[j], "ver"@, "v"@) == Some(ver);
            assert(super::join::mod_id(rows[j]) == Some(id));
        }
    }
}

/// Whether whoever had a seat in `l` has it in `l2`.
pub open spec fn keeps_seats(l: LobbyView, l2: LobbyView) -> bool {
    &&& l2.slots.len() == l.slots.len()
    &&& l2.spectators.len() == l.spectators.len()
    &&& forall|k: int|
        0 <= k < l.slots.len() && (#[trigger] l.slots[k]) is Some ==> l2.slots[k] is Some
            && l2.slots[k]->0.player_id == l.slots[k]->0.player_id && l2.slots[k]->0.display_name
            == l.slots[k]->0.display_name
    &&& forall|k: int|
        0 <= k < l.spectators.len() && (#[trigger] l.spectators[k]) is Some ==> l2.spectators[k] is Some
            && l2.spectators[k]->0.player_id == l.spectators[k]->0.player_id
}

proof fn lemma_build(l: LobbyView, msg: InMsg)
    ensures
        same_build(l, msg) == (build_mismatch(
            l,
            super::input::nonempty(opt_view(msg.game_name)),
            super::input::version_of(opt_view(msg.game_version)),
            super::input::disc_fingerprint(opt_view(msg.disc_fp)),
        ) is None),
{
    if let Some(raw) = msg.disc_fp {
        let t = lowered(trimmed(raw@));
        assert forall|i: int| 0 <= i < t.len() implies super::input::hex_digit(#[trigger] t[i]) == (
        '0' <= t[i] <= '9' || 'a' <= t[i] <= 'f' || 'A' <= t[i] <= 'F') by {}
        if is_fingerprint(t) {
            assert forall|i: int| 0 <= i < t.len() implies super::input::hex_digit(#[trigger] t[i]) by {}
        } else if t.len() == 64 {
            let i = choose|i: int|
                0 <= i < 64 && !('0' <= #[trigger] t[i] <= '9' || 'a' <= t[i] <= 'f' || 'A' <= t[i]
                    <= 'F');
            assert(!super::input::hex_digit(t[i]));
        }
    }
}

/// Whether a room has no player seat to give.
pub open spec fn no_player_seat(l: LobbyView) -> bool {
    taken(l.slots) >= l.max_slots || forall|k: int|
        0 <= k < l.slots.len() ==> (#[trigger] l.slots[k]) is Some
}

proof fn lemma_mods(l: LobbyView, msg: InMsg)
    ensures
        brings_mods(l, msg) == (missing_rows(
            super::join::required_mods(l.match_caps),
            opt_json(msg.mod_offer),
        ).len() == 0),
{
    if let Some(rows) = rows_under(l.match_caps, "mods"@) {
        lemma_missing(rows, opt_json(msg.mod_offer));
    }
}

/// What sitting down does to a room.
proof fn lemma_sat_down(l: LobbyView, seat: int, sat: SlotView, guest: Seq<char>)
    requires
        l.wf(),
        seat_for(l) == Some(seat),
    ensures
        ({
            let l2 = joined_lobby(l, seat, sat, guest);
            &&& keeps_seats(l, l2)
            &&& watches(l2, sat.player_id) && !watches(l, sat.player_id) ==> no_player_seat(l)
            &&& seat < SPECTATOR_SLOT_BASE ==> 0 <= seat < l.slots.len() && l.slots[seat] is None
                && l2.slots[seat] is Some && l2.slots[seat]->0.player_id == sat.player_id && taken(
                l.slots,
            ) < l.max_slots
            &&& seat >= SPECTATOR_SLOT_BASE ==> {
                let k = seat - SPECTATOR_SLOT_BASE;
                &&& 0 <= k < l.spectators.len()
                &&& l.spectators[k] is None
                &&& l2.spectators[k] is Some
                &&& l2.spectators[k]->0.player_id == sat.player_id
                &&& no_player_seat(l)
            }
        }),
{
    let l2 = joined_lobby(l, seat, sat, guest);
    lemma_taken(l.slots);
    lemma_first_where(l.slots, |o: Option<SlotView>| o is None);
    lemma_first_where(l.spectators, |o: Option<SlotView>| o is None);
    let mid = l.with_seat(seat, Some(sat));
    assert forall|k: int| 0 <= k < l.slots.len() && (#[trigger] l.slots[k]) is Some implies l2.slots[k] is Some
        && l2.slots[k]->0.player_id == l.slots[k]->0.player_id && l2.slots[k]->0.display_name
        == l.slots[k]->0.display_name by {
        assert(mid.slots[k] == l.slots[k]);
        assert(super::model::unready(mid.slots)[k] == super::model::unready_slot(mid.slots[k]));
    }
    assert forall|k: int|
        0 <= k < l.spectators.len() && (#[trigger] l.spectators[k]) is Some implies l2.spectators[k] is Some
        && l2.spectators[k]->0.player_id == l.spectators[k]->0.player_id by {
        assert(mid.spectators[k] == l.spectators[k]);
    }
    if seat < SPECTATOR_SLOT_BASE {
        assert(mid.slots[seat] == Some(sat));
        assert(super::model::unready(mid.slots)[seat] == super::model::unready_slot(
            mid.slots[seat],
        ));
        if watches(l2, sat.player_id) {
            let k = choose|k: int|
                0 <= k < l2.spectators.len() && (#[trigger] l2.spectators[k]) is Some
                    && l2.spectators[k]->0.player_id == sat.player_id;
            assert(l2.spectators[k] == super::model::pathless_slot(mid.spectators[k]));
            assert(l.spectators[k] is Some);
        }
    } else {
        assert(mid.spectators[seat - SPECTATOR_SLOT_BASE] == Some(sat));
    }
}

pub proof fn lemma_renamed_keeps(h: HubView, id: Seq<char>, name: Option<Seq<char>>)
    requires
        h.client(id) is Some,
    ensures
        h.renamed(id, name).lobbies == h.lobbies,
        h.renamed(id, name).client(id) is Some,
        h.renamed(id, name).client(id)->0.lobby_id == h.client(id)->0.lobby_id,
        h.renamed(id, name).next_session == h.next_session,
        forall|x: Seq<char>| #[trigger] h.renamed(id, name).lobby(x) == h.lobby(x),
{
    lemma_first_where(h.clients, |c: ClientView| c.player_id == id);
    if let Some(n) = name {
        lemma_with_client(h, id, ClientView { display_name: n, ..h.client(id)->0 });
    }
}

proof fn lemma_pending_keeps(h: HubView, id: Seq<char>, lobby: Option<Seq<char>>)
    requires
        h.client(id) is Some,
    ensures
        h.pending(id, lobby).lobbies == h.lobbies,
        h.pending(id, lobby).client(id) == Some(
            ClientView { pending_mod_lobby: lobby, ..h.client(id)->0 },
        ),
        forall|x: Seq<char>| #[trigger] h.pending(id, lobby).lobby(x) == h.lobby(x),
{
    lemma_first_where(h.clients, |c: ClientView| c.player_id == id);
    lemma_with_client(h, id, ClientView { pending_mod_lobby: lobby, ..h.client(id)->0 });
}

/// Whether `id` got into the room `l` by the rules: it was in no room, asked for
/// the room's own build, gave its password and brought its mods; everyone keeps their seat, a
/// gallery seat goes only to one for whom no player seat was left, and `id` is
/// told its seat and the room's session.
pub open spec fn got_in(
    h: HubView,
    h2: HubView,
    out: Seq<EffectView>,
    id: Seq<char>,
    lid: Seq<char>,
    l: LobbyView,
    msg: InMsg,
) -> bool {
    &&& h.client(id)->0.lobby_id is None
    &&& h2.lobby(lid) is Some
    &&& in_room(h2.lobby(lid)->0, id)
    &&& h2.client(id) is Some
    &&& h2.client(id)->0.lobby_id == Some(lid)
    &&& same_build(l, msg)
    &&& opens(l, msg)
    &&& brings_mods(l, msg)
    &&& keeps_seats(l, h2.lobby(lid)->0)
    &&& watches(h2.lobby(lid)->0, id) && !watches(l, id) ==> no_player_seat(l)
    &&& exists|seat: int|
        #[trigger] hears_joined(out, id, lid, seat, l.session_id) && if seat < SPECTATOR_SLOT_BASE {
            0 <= seat < l.slots.len() && l.slots[seat] is None && h2.lobby(lid)->0.slots[seat] is Some
                && h2.lobby(lid)->0.slots[seat]->0.player_id == id
        } else {
            let k = seat - SPECTATOR_SLOT_BASE;
            0 <= k < l.spectators.len() && l.spectators[k] is None && h2.lobby(lid)->0.spectators[k] is Some
                && h2.lobby(lid)->0.spectators[k]->0.player_id == id
        }
}

/// A join leaves the rooms as they are, or gets the joiner in.
proof fn lemma_join_ends(
    h: HubView,
    id: Seq<char>,
    peer_ip: Seq<char>,
    msg: InMsg,
    lid: Seq<char>,
    tag: Seq<char>,
    l: LobbyView,
)
    requires
        h.wf(),
        h.lobby(lid) == Some(l),
        h.client(id) is Some,
    ensures
        ({
            let (h2, e) = join_step(h, id, peer_ip, msg, lid, tag);
            if h.client(id)->0.lobby_id is None && same_build(l, msg) && opens(l, msg) && brings_mods(
                l,
                msg,
            ) && seat_for(l) is Some {
                got_in(h, h2, e, id, lid, l, msg)
            } else {
                h2.lobbies == h.lobbies && h2.lobby(lid) == Some(l)
            }
        }),
{
    lemma_build(l, msg);
    lemma_mods(l, msg);
    assert(opens(l, msg) == (super::join::password_error(l, opt_view(msg.password)) is None));
    let h1 = h.renamed(id, super::input::nonempty(opt_view(msg.display_name)));
    lemma_renamed_keeps(h, id, super::input::nonempty(opt_view(msg.display_name)));
    let (h2, e) = join_step(h, id, peer_ip, msg, lid, tag);
    if h.lobby_id_of(id) is None {
        if same_build(l, msg) {
            let bind = super::input::text_or(opt_view(msg.guest_bind), "0.0.0.0:7778"@);
            let (h3, s) = seat_step(
                h1,
                lid,
                id,
                peer_ip,
                bind,
                opt_view(msg.password),
                opt_json(msg.mod_offer),
                tag,
            );
            if s is Seated {
                let seat = s->slot;
                lemma_lobby_at(h, lid);
                let name = l.unique_name(super::join::wanted_name(h1, id), Some(id), tag);
                let sat = fresh_slot(id, name, super::join::country_of(h1, id));
                let guest = super::input::rewritten(bind, peer_ip);
                let l2 = joined_lobby(l, seat, sat, guest);
                lemma_sat_down(l, seat, sat, guest);
                lemma_lobby_at(h1, lid);
                lemma_with_lobby(h1, lid, l2);
                let m = h1.with_lobby(lid, l2);
                assert(m.client(id) == h1.client(id));
                lemma_first_where(h1.clients, |c: ClientView| c.player_id == id);
                let c2 = seated_client(h1.client(id)->0, lid, name, l.game_name);
                lemma_with_client(m, id, c2);
                assert(h3 == m.with_client(id, c2));
                assert(h3.lobbies == m.lobbies);
                assert(m.lobby(lid) == Some(l2));
                assert(h3.lobby_at(lid) == m.lobby_at(lid));
                assert(h3.lobby(lid) == Some(l2));
                lemma_pending_keeps(h3, id, None);
                assert(h2 == h3.pending(id, None));
                assert(h2.lobby(lid) == Some(l2));
                if seat < SPECTATOR_SLOT_BASE {
                    assert(l2.slots[seat] is Some);
                    assert(plays(l2, id));
                } else {
                    assert(l2.spectators[seat - SPECTATOR_SLOT_BASE] is Some);
                    assert(watches(l2, id));
                }
                assert(e[0] == EffectView::Send { to: id, msg: joined_msg(lid, s) });
                lemma_joined_says(lid, s);
                assert(hears_joined(e, id, lid, seat, l.session_id));
            } else if s is NeedMods {
                assert(h3 == h1);
                lemma_pending_keeps(h1, id, Some(lid));
            }
        }
    }
}

/// Whether the joiner is told its seat, its room and the room's session.
pub open spec fn hears_joined(
    out: Seq<EffectView>,
    id: Seq<char>,
    lid: Seq<char>,
    seat: int,
    sid: u32,
) -> bool {
    exists|i: int|
        0 <= i < out.len() && (#[trigger] out[i]) is Send && out[i]->Send_to == id && {
            let m = out[i]->Send_msg;
            &&& m.get("op"@) == Some(JsonView::Str("joined"@))
            &&& m.get("ok"@) == Some(JsonView::Bool(true))
            &&& m.get("lobby_id"@) == Some(JsonView::Str(lid))
            &&& m.get("local_slot"@) == Some(JsonView::Int(seat))
            &&& m.get("session_id"@) == Some(JsonView::Int(sid as int))
            &&& m.get("spectator"@) == Some(JsonView::Bool(seat >= SPECTATOR_SLOT_BASE))
        }
}

proof fn lemma_joined_says(lid: Seq<char>, s: SeatOutcome)
    requires
        s is Seated,
    ensures
        ({
            let m = joined_msg(lid, s);
            &&& m.get("op"@) == Some(JsonView::Str("joined"@))
            &&& m.get("ok"@) == Some(JsonView::Bool(true))
            &&& m.get("lobby_id"@) == Some(JsonView::Str(lid))
            &&& m.get("local_slot"@) == Some(JsonView::Int(s->slot))
            &&& m.get("session_id"@) == Some(JsonView::Int(s->session_id as int))
            &&& m.get("spectator"@) == Some(JsonView::Bool(s->slot >= SPECTATOR_SLOT_BASE))
        }),
{
    broadcast use lemma_with_read;

    lemma_keys();
}

proof fn lemma_join_routed(
    s: LobbyState,
    w: World,
    id: Seq<char>,
    peer_ip: Seq<char>,
    msg: InMsg,
    login: Login,
    g: Given,
    ids: Seq<Seq<char>>,
    lid: Seq<char>,
)
    requires
        msg.op@ == "join"@,
        msg.lobby_id is Some,
        msg.lobby_id->0@ == lid,
        lid.len() > 0,
    ensures
        ({
            let o = dispatch(s, w, id, peer_ip, msg, login, g, ids);
            if super::dispatch::barred(w.config, s.hub.client(id), msg.op@) {
                o.state == s && hears_op(o.out, id, "error"@)
            } else {
                o == in_hub(s, join_step(s.hub, id, peer_ip, msg, lid, g.tag@))
            }
        }),
{
    broadcast use lemma_with_read;

    lemma_stamps();
    assert(stamp(msg.op@) == (4int, 'j', 'i', 'n'));
    let o = dispatch(s, w, id, peer_ip, msg, login, g, ids);
    if super::dispatch::barred(w.config, s.hub.client(id), msg.op@) {
        lemma_keys();
        assert(o.out[0] is Send);
    }
}

/// Whoever gets a seat by a join got in by the rules.
pub proof fn law_a_seat_is_had_by_the_rules(
    s: LobbyState,
    w: World,
    id: Seq<char>,
    peer_ip: Seq<char>,
    msg: InMsg,
    login: Login,
    g: Given,
    ids: Seq<Seq<char>>,
    lid: Seq<char>,
    l: LobbyView,
)
    requires
        msg.op@ == "join"@,
        msg.lobby_id is Some,
        msg.lobby_id->0@ == lid,
        lid.len() > 0,
        s.hub.wf(),
        s.hub.lobby(lid) == Some(l),
        s.hub.client(id) is Some,
        !in_room(l, id),
        ({
            let o = dispatch(s, w, id, peer_ip, msg, login, g, ids);
            o.state.hub.lobby(lid) is Some && in_room(o.state.hub.lobby(lid)->0, id)
        }),
    ensures
        ({
            let o = dispatch(s, w, id, peer_ip, msg, login, g, ids);
            got_in(s.hub, o.state.hub, o.out, id, lid, l, msg)
        }),
{
    lemma_join_routed(s, w, id, peer_ip, msg, login, g, ids, lid);
    lemma_join_ends(s.hub, id, peer_ip, msg, lid, g.tag@, l);
}

/// Whether a room has a seat to give, on the field or in the gallery.
pub open spec fn has_a_seat(l: LobbyView) -> bool {
    !no_player_seat(l) || exists|k: int|
        0 <= k < l.spectators.len() && (#[trigger] l.spectators[k]) is None
}

/// Whoever is in no room and asks for one that runs their build, with its
/// password and its mods, gets in, where it has a seat to give.
pub proof fn law_a_fitting_join_gets_in(
    s: LobbyState,
    w: World,
    id: Seq<char>,
    peer_ip: Seq<char>,
    msg: InMsg,
    login: Login,
    g: Given,
    ids: Seq<Seq<char>>,
    lid: Seq<char>,
    l: LobbyView,
)
    requires
        msg.op@ == "join"@,
        msg.lobby_id is Some,
        msg.lobby_id->0@ == lid,
        lid.len() > 0,
        s.hub.wf(),
        s.hub.lobby(lid) == Some(l),
        s.hub.client(id) is Some,
        s.hub.client(id)->0.lobby_id is None,
        s.hub.client(id)->0.account is Some || !w.config.discord_required,
        same_build(l, msg),
        opens(l, msg),
        brings_mods(l, msg),
        has_a_seat(l),
    ensures
        ({
            let o = dispatch(s, w, id, peer_ip, msg, login, g, ids);
            got_in(s.hub, o.state.hub, o.out, id, lid, l, msg)
        }),
{
    lemma_stamps();
    lemma_join_routed(s, w, id, peer_ip, msg, login, g, ids, lid);
    lemma_fits(s.hub, id, peer_ip, msg, lid, g.tag@, l);
}

proof fn lemma_fits(
    h: HubView,
    id: Seq<char>,
    peer_ip: Seq<char>,
    msg: InMsg,
    lid: Seq<char>,
    tag: Seq<char>,
    l: LobbyView,
)
    requires
        h.wf(),
        h.lobby(lid) == Some(l),
        h.client(id) is Some,
        h.client(id)->0.lobby_id is None,
        same_build(l, msg),
        opens(l, msg),
        brings_mods(l, msg),
        has_a_seat(l),
    ensures
        got_in(
            h,
            join_step(h, id, peer_ip, msg, lid, tag).0,
            join_step(h, id, peer_ip, msg, lid, tag).1,
            id,
            lid,
            l,
            msg,
        ),
{
    lemma_taken(l.slots);
    lemma_first_where(l.slots, |o: Option<SlotView>| o is None);
    lemma_first_where(l.spectators, |o: Option<SlotView>| o is None);
    if free_at(l.slots) is None {
        assert(no_player_seat(l));
    }
    assert(seat_for(l) is Some);
    lemma_join_ends(h, id, peer_ip, msg, lid, tag, l);
}

} // verus!
