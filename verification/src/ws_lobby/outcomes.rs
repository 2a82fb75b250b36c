//! What comes of a message, from what it says to who hears what.

use super::dispatch::{dispatch, Given, LobbyState, World, told};
use super::input::InMsg;
use super::model::{seated, sits, HubView, LobbyView, SlotView};
use super::ops::{
    hears, in_room, lemma_everyone_is, lemma_keys, lemma_stamps, lemma_with_read, plays, stamp, watches,
};
use super::signals::{others, relayed, signal_msg};
use super::start::{launch_msg, prefers_lan, start_step};
use super::wire::EffectView;
use crate::config::ConfigView;
use crate::find::lemma_first_where;
use crate::input_relay::{RelayView, SessionView, MAX_PLAYER_SLOTS, MAX_SPECTATOR_SLOTS};
use crate::json::JsonView;
use crate::text::{decimal, trimmed};
use super::chat::Login;
use vstd::prelude::*;
use vstd::string::*;

verus! {

// ------------------------------------------------------------------- signals

/// Whether a text field is not there, or empty.
pub open spec fn unsaid(o: Option<String>) -> bool {
    match o {
        Some(t) => t@.len() == 0,
        None => true,
    }
}

proof fn lemma_others(all: Seq<SlotView>, id: Seq<char>, to: Seq<char>, p: Seq<char>)
    ensures
        others(all, id, to).contains(p) == (p != id && (to.len() == 0 || to == p) && exists|k: int|
            0 <= k < all.len() && (#[trigger] all[k]).player_id == p),
    decreases all.len(),
{
    if all.len() > 0 {
        let t = all.drop_last();
        let rest = others(t, id, to);
        let now = others(all, id, to);
        lemma_others(t, id, to, p);
        if rest.contains(p) {
            let i = choose|i: int| 0 <= i < rest.len() && rest[i] == p;
            assert(now[i] == p);
            let k = choose|k: int| 0 <= k < t.len() && (#[trigger] t[k]).player_id == p;
            assert(all[k].player_id == p);
        }
        if now.contains(p) {
            let i = choose|i: int| 0 <= i < now.len() && now[i] == p;
            if i < rest.len() {
                assert(rest[i] == p);
            } else {
                assert(all[all.len() - 1].player_id == p);
            }
        }
        if exists|k: int| 0 <= k < all.len() && (#[trigger] all[k]).player_id == p {
            let k = choose|k: int| 0 <= k < all.len() && (#[trigger] all[k]).player_id == p;
            if k < t.len() {
                assert(t[k].player_id == p);
            } else if p != id && (to.len() == 0 || to == p) {
                assert(now[rest.len() as int] == p);
            }
        }
    }
}

proof fn lemma_signal_routed(
    s: LobbyState,
    w: World,
    id: Seq<char>,
    peer_ip: Seq<char>,
    msg: InMsg,
    login: Login,
    g: Given,
    ids: Seq<Seq<char>>,
    lid: Seq<char>,
    l: LobbyView,
)
    requires
        msg.op@ == "signal"@,
        match msg.lobby_id {
            Some(x) => x@ == lid,
            None => s.hub.client(id) is Some && s.hub.client(id)->0.lobby_id == Some(lid),
        },
        s.hub.lobby(lid) == Some(l),
    ensures
        dispatch(s, w, id, peer_ip, msg, login, g, ids) == told(
            s,
            relayed(
                others(l.everyone(), id, super::input::text_or_empty(msg.to_player_id)),
                signal_msg("signal"@, lid, id, msg),
            ),
        ),
{
    lemma_stamps();
    assert(stamp(msg.op@) == (6int, 's', 'n', 'l'));
}

proof fn lemma_relayed(ts: Seq<Seq<char>>, m: JsonView, p: Seq<char>)
    ensures
        hears(relayed(ts, m), p) == ts.contains(p),
        forall|i: int|
            0 <= i < relayed(ts, m).len() && (#[trigger] relayed(ts, m)[i]) is Send ==> relayed(
                ts,
                m,
            )[i]->Send_msg == m,
{
    let out = relayed(ts, m);
    let sends = super::wire::sent_all(ts, m);
    let n: int = if ts.len() == 0 {
        0
    } else {
        1
    };
    if ts.contains(p) {
        let i = choose|i: int| 0 <= i < ts.len() && ts[i] == p;
        assert(out[n + i] == sends[i]);
    }
    if hears(out, p) {
        let i = choose|i: int|
            0 <= i < out.len() && (#[trigger] out[i]) is Send && out[i]->Send_to == p;
        assert(out[i] == sends[i - n]);
        assert(ts[i - n] == p);
    }
    assert forall|i: int| 0 <= i < out.len() && (#[trigger] out[i]) is Send implies out[i]->Send_msg
        == m by {
        assert(out[i] == sends[i - n]);
    }
}

proof fn lemma_signal_says(lid: Seq<char>, id: Seq<char>, msg: InMsg)
    ensures
        ({
            let m = signal_msg("signal"@, lid, id, msg);
            &&& m.get("op"@) == Some(JsonView::Str("signal"@))
            &&& m.get("lobby_id"@) == Some(JsonView::Str(lid))
            &&& m.get("from_player_id"@) == Some(JsonView::Str(id))
            &&& msg.text matches Some(t) ==> m.get("text"@) == Some(JsonView::Str(t@))
            &&& msg.kind matches Some(n) ==> m.get("type"@) == Some(JsonView::Int(n as int))
            &&& msg.flag matches Some(n) ==> m.get("flag"@) == Some(JsonView::Int(n as int))
        }),
{
    broadcast use lemma_with_read;

    lemma_keys();
}

/// A signal reaches the peer that it names, where that one sits in the room and
/// is not its sender; one that names nobody reaches everyone else who sits
/// there. Nobody else hears anything. Whoever hears it is told who sent it, in
/// which room, and what it says.
pub proof fn law_signals_reach_their_peers(
    s: LobbyState,
    w: World,
    id: Seq<char>,
    peer_ip: Seq<char>,
    msg: InMsg,
    login: Login,
    g: Given,
    ids: Seq<Seq<char>>,
    lid: Seq<char>,
    l: LobbyView,
    p: Seq<char>,
)
    requires
        msg.op@ == "signal"@,
        match msg.lobby_id {
            Some(x) => x@ == lid,
            None => s.hub.client(id) is Some && s.hub.client(id)->0.lobby_id == Some(lid),
        },
        s.hub.lobby(lid) == Some(l),
    ensures
        ({
            let o = dispatch(s, w, id, peer_ip, msg, login, g, ids);
            &&& o.state == s
            &&& o.error is None
            &&& hears(o.out, p) == (in_room(l, p) && p != id && (unsaid(msg.to_player_id)
                || msg.to_player_id->0@ == p))
            &&& forall|i: int|
                0 <= i < o.out.len() && (#[trigger] o.out[i]) is Send ==> {
                    let m = o.out[i]->Send_msg;
                    &&& m.get("op"@) == Some(JsonView::Str("signal"@))
                    &&& m.get("lobby_id"@) == Some(JsonView::Str(lid))
                    &&& m.get("from_player_id"@) == Some(JsonView::Str(id))
                    &&& msg.text matches Some(t) ==> m.get("text"@) == Some(JsonView::Str(t@))
                    &&& msg.kind matches Some(n) ==> m.get("type"@) == Some(JsonView::Int(n as int))
                    &&& msg.flag matches Some(n) ==> m.get("flag"@) == Some(JsonView::Int(n as int))
                }
        }),
{
    let to = super::input::text_or_empty(msg.to_player_id);
    let ts = others(l.everyone(), id, to);
    let m = signal_msg("signal"@, lid, id, msg);
    lemma_signal_routed(s, w, id, peer_ip, msg, login, g, ids, lid, l);
    lemma_others(l.everyone(), id, to, p);
    lemma_everyone_is(l, p);
    lemma_relayed(ts, m, p);
    lemma_signal_says(lid, id, msg);
}

// -------------------------------------------------------------------- starts

/// How many seats of a table are taken.
pub open spec fn taken(s: Seq<Option<SlotView>>) -> int {
    s.filter(|o: Option<SlotView>| o is Some).len() as int
}

pub proof fn lemma_taken(s: Seq<Option<SlotView>>)
    ensures
        taken(s) == seated(s).len(),
    decreases s.len(),
{
    reveal(Seq::filter);
    if s.len() > 0 {
        lemma_taken(s.drop_last());
    }
}

/// What everyone hears of a launch: the room, the session that the relay now
/// has for it, the relay's endpoint, and how many play.
pub open spec fn announces(m: JsonView, l: LobbyView, sid: u32, ep: Seq<char>) -> bool {
    &&& m.get("op"@) == Some(JsonView::Str("launch"@))
    &&& m.get("ok"@) == Some(JsonView::Bool(true))
    &&& m.get("lobby_id"@) == Some(JsonView::Str(l.lobby_id))
    &&& m.get("session_id"@) == Some(JsonView::Int(sid as int))
    &&& m.get("relay_endpoint"@) == Some(JsonView::Str(ep))
    &&& m.get("host_endpoint"@) == Some(JsonView::Str(ep))
    &&& m.get("guest_endpoint"@) == Some(JsonView::Str(ep))
    &&& m.get("player_count"@) == Some(JsonView::Int(taken(l.slots)))
    &&& m.get("spectator_count"@) == Some(JsonView::Int(taken(l.spectators)))
    &&& m.get("max_slots"@) == Some(JsonView::Int(l.max_slots as int))
}

proof fn lemma_launch_says(h: HubView, l: LobbyView, from_gallery: bool, ep: Seq<char>)
    requires
        l.host_endpoint == ep,
        l.guest_endpoint == ep,
    ensures
        announces(launch_msg(h, l, from_gallery, ep), l, l.session_id, ep),
        l.match_caps matches Some(c) ==> launch_msg(h, l, from_gallery, ep).get("match_caps"@)
            == Some(c),
        launch_msg(h, l, from_gallery, ep).get("host_spectates"@) == Some(
            JsonView::Bool(from_gallery),
        ),
        launch_msg(h, l, from_gallery, ep).get("spectator_relay_base"@) == Some(
            JsonView::Int(
                l.max_slots + (if from_gallery {
                    1int
                } else {
                    0
                }),
            ),
        ),
{
    broadcast use lemma_with_read;

    lemma_keys();
    lemma_taken(l.slots);
    lemma_taken(l.spectators);
}

/// Whether somebody seated in a room is not a connection of the LAN itself.
pub open spec fn one_is_outside(h: HubView, l: LobbyView, gateway: Option<Seq<char>>) -> bool {
    exists|p: Seq<char>|
        #![trigger in_room(l, p)]
        in_room(l, p) && (h.client(p) is None || !super::input::direct_peer(
            h.client(p)->0.peer_ip,
            gateway,
        ))
}

proof fn lemma_not_lan(h: HubView, l: LobbyView, c: ConfigView)
    ensures
        one_is_outside(h, l, c.gateway()) ==> !prefers_lan(h, l, c),
        !one_is_outside(h, l, c.gateway()) && l.everyone().len() > 0 && trimmed(
            c.input_relay_lan_host,
        ).len() > 0 ==> prefers_lan(h, l, c),
{
    if one_is_outside(h, l, c.gateway()) {
        let p = choose|p: Seq<char>|
            #![trigger in_room(l, p)]
            in_room(l, p) && (h.client(p) is None || !super::input::direct_peer(
                h.client(p)->0.peer_ip,
                c.gateway(),
            ));
        lemma_everyone_is(l, p);
        let i = choose|i: int| 0 <= i < l.everyone().len() && (#[trigger] l.everyone()[i]).player_id == p;
        assert(h.client(l.everyone()[i].player_id) == h.client(p));
    } else {
        assert forall|i: int| 0 <= i < l.everyone().len() implies match h.client(
            (#[trigger] l.everyone()[i]).player_id,
        ) {
            Some(k) => super::input::direct_peer(k.peer_ip, c.gateway()),
            None => false,
        } by {
            lemma_everyone_is(l, l.everyone()[i].player_id);
            assert(in_room(l, l.everyone()[i].player_id));
        }
    }
}

proof fn lemma_closed_relay(r: RelayView, sid: Option<u32>)
    ensures
        super::start::relay_closed(r, sid).advertise_host == r.advertise_host,
        super::start::relay_closed(r, sid).lan_host == r.lan_host,
        super::start::relay_closed(r, sid).advertise_port == r.advertise_port,
        super::start::relay_closed(r, sid).enabled == r.enabled,
{
}

/// Whether a session of the relay has a player seat for each of a room's, one
/// more where the room is started from its gallery, and a seat for each who
/// watches.
pub open spec fn seats_everyone(s: SessionView, l: LobbyView, initiator: Option<Seq<char>>) -> bool {
    let n = l.max_slots + (if initiator is Some && watches(l, initiator->0) && !plays(
        l,
        initiator->0,
    ) {
        1int
    } else {
        0
    });
    l.wf() && 2 <= n <= MAX_PLAYER_SLOTS && taken(l.spectators) <= MAX_SPECTATOR_SLOTS ==> {
        &&& s.player_slots == n
        &&& s.slot_count == n + taken(l.spectators)
    }
}

proof fn lemma_gallery(l: LobbyView, initiator: Option<Seq<char>>)
    requires
        l.wf(),
    ensures
        super::start::starts_from_gallery(l, initiator) == (initiator is Some && watches(
            l,
            initiator->0,
        ) && !plays(l, initiator->0)),
{
    if initiator is Some {
        let id = initiator->0;
        lemma_first_where(l.slots, |o: Option<SlotView>| sits(o, id));
        lemma_first_where(l.spectators, |o: Option<SlotView>| sits(o, id));
        if plays(l, id) {
            let k = choose|k: int|
                0 <= k < l.slots.len() && (#[trigger] l.slots[k]) is Some && l.slots[k]->0.player_id
                    == id;
            assert(sits(l.slots[k], id));
        }
        if watches(l, id) {
            let k = choose|k: int|
                0 <= k < l.spectators.len() && (#[trigger] l.spectators[k]) is Some
                    && l.spectators[k]->0.player_id == id;
            assert(sits(l.spectators[k], id));
        }
        match super::model::player_at(l.slots, id) {
            Some(k) => {
                assert(l.slots[k] is Some);
            },
            None => match super::model::player_at(l.spectators, id) {
                Some(k) => {
                    assert(l.spectators[k] is Some);
                },
                None => {},
            },
        }
    }
}

/// A room with two players or more starts where the relay is on: the relay opens
/// a session under a new id, with a seat for every player seat and every
/// spectator; the room runs under that id; everyone who sits there hears of it,
/// and nobody else; and what they hear names that id, the relay's endpoint and
/// the head counts. The endpoint is the public one unless everyone sits in the
/// LAN.
pub proof fn law_a_start_announces_its_session(
    h: HubView,
    r: RelayView,
    c: ConfigView,
    lid: Seq<char>,
    l: LobbyView,
    caps: Option<JsonView>,
    initiator: Option<Seq<char>>,
    now: u64,
    p: Seq<char>,
)
    requires
        h.lobby(lid) == Some(l),
        taken(l.slots) >= 2,
        r.enabled,
        h.next_session != 0,
    ensures
        ({
            let (h2, r2, res) = start_step(h, r, c, lid, caps, initiator, now);
            let sid = h.next_session;
            let lan = !one_is_outside(h, l, c.gateway()) && trimmed(c.input_relay_lan_host).len() > 0
                && trimmed(r.lan_host).len() > 0;
            let ep = if lan {
                trimmed(r.lan_host) + ":"@ + decimal(r.advertise_port as nat)
            } else {
                r.advertise_host + ":"@ + decimal(r.advertise_port as nat)
            };
            &&& res is Ok
            &&& h2.lobby(lid) is Some
            &&& h2.lobby(lid)->0.session_id == sid
            &&& h2.lobby(lid)->0.relay_session_id == Some(sid)
            &&& h2.lobby(lid)->0.started
            &&& r2.sessions.len() > 0
            &&& r2.sessions.last().session_id == sid
            &&& seats_everyone(r2.sessions.last(), l, initiator)
            &&& hears(res->Ok_0, p) == in_room(l, p)
            &&& forall|i: int|
                0 <= i < res->Ok_0.len() && (#[trigger] res->Ok_0[i]) is Send ==> announces(
                    res->Ok_0[i]->Send_msg,
                    l,
                    sid,
                    ep,
                ) && (caps is Some ==> res->Ok_0[i]->Send_msg.get("match_caps"@) == caps)
        }),
{
    let (h2, r2, res) = start_step(h, r, c, lid, caps, initiator, now);
    let sid = h.next_session;
    lemma_taken(l.slots);
    let r1 = super::start::relay_closed(r, l.relay_session_id);
    let gallery = super::start::starts_from_gallery(l, initiator);
    let ep = r1.endpoint(prefers_lan(h, l, c));
    let l2 = super::start::started_lobby(l, caps, sid, ep);
    let h1 = HubView { next_session: super::join::next_session(sid), ..h };
    lemma_closed_relay(r, l.relay_session_id);
    lemma_taken(l.spectators);
    if l.wf() {
        lemma_gallery(l, initiator);
    }
    lemma_not_lan(h, l, c);
    super::model::lemma_lobby_at(h, lid);
    assert(h1.lobby_at(lid) == h.lobby_at(lid));
    super::roster::lemma_with_lobby(h1, lid, l2);
    super::model::lemma_unready_seated(l.slots);
    lemma_taken(l2.slots);
    let m = launch_msg(h2, l2, gallery, ep);
    lemma_launch_says(h2, l2, gallery, ep);
    let ids = l2.member_ids();
    let out = res->Ok_0;
    let sends = super::wire::sent_all(ids, m);
    assert(out == sends + super::wire::counted(
        super::wire::EventView::Started(l.game_name, l.player_count()),
    ));
    lemma_everyone_is(l, p);
    assert(ids.len() == l.everyone().len());
    assert forall|i: int| 0 <= i < ids.len() implies out[i] == (EffectView::Send {
        to: #[trigger] l.everyone()[i].player_id,
        msg: m,
    }) by {
        assert(ids[i] == l.everyone()[i].player_id);
        assert(out[i] == sends[i]);
    }
    if in_room(l, p) {
        let i = choose|i: int| 0 <= i < l.everyone().len() && (#[trigger] l.everyone()[i]).player_id == p;
        assert(out[i] is Send);
    }
    if hears(out, p) {
        let i = choose|i: int| 0 <= i < out.len() && (#[trigger] out[i]) is Send && out[i]->Send_to == p;
        assert(i < ids.len());
        assert(l.everyone()[i].player_id == p);
    }
    assert forall|i: int| 0 <= i < out.len() && (#[trigger] out[i]) is Send implies out[i]->Send_msg == m by {
        assert(i < ids.len());
        assert(l.everyone()[i].player_id == l.everyone()[i].player_id);
    }
}

/// A host that asks for a start gets one, on the same terms: whoever sits in the
/// room hears a launch whose session the relay has and the room runs under.
pub proof fn law_the_host_starts_the_room(
    s: LobbyState,
    w: World,
    id: Seq<char>,
    peer_ip: Seq<char>,
    msg: InMsg,
    login: Login,
    g: Given,
    ids: Seq<Seq<char>>,
    lid: Seq<char>,
    l: LobbyView,
    p: Seq<char>,
)
    requires
        msg.op@ == "start"@,
        s.hub.client(id) is Some,
        s.hub.client(id)->0.lobby_id == Some(lid),
        s.hub.lobby(lid) == Some(l),
        l.host_player_id == id,
        taken(l.slots) >= 2,
        s.relay.enabled,
        s.hub.next_session != 0,
    ensures
        ({
            let o = dispatch(s, w, id, peer_ip, msg, login, g, ids);
            let sid = s.hub.next_session;
            &&& o.state.hub.lobby(lid) is Some
            &&& o.state.hub.lobby(lid)->0.session_id == sid
            &&& o.state.hub.lobby(lid)->0.started
            &&& o.state.relay.sessions.last().session_id == sid
            &&& o.state.queue == s.queue
            &&& hears(o.out, p) == in_room(l, p)
            &&& forall|i: int|
                0 <= i < o.out.len() && (#[trigger] o.out[i]) is Send ==> {
                    let m = o.out[i]->Send_msg;
                    &&& m.get("op"@) == Some(JsonView::Str("launch"@))
                    &&& m.get("session_id"@) == Some(JsonView::Int(sid as int))
                    &&& m.get("player_count"@) == Some(JsonView::Int(taken(l.slots)))
                }
        }),
{
    let caps = crate::json::bounded_object(crate::json::opt_json(msg.match_caps), 4096);
    lemma_start_routed(s, w, id, peer_ip, msg, login, g, ids);
    law_a_start_announces_its_session(s.hub, s.relay, w.config, lid, l, caps, Some(id), g.now, p);
}

proof fn lemma_start_routed(
    s: LobbyState,
    w: World,
    id: Seq<char>,
    peer_ip: Seq<char>,
    msg: InMsg,
    login: Login,
    g: Given,
    ids: Seq<Seq<char>>,
)
    requires
        msg.op@ == "start"@,
    ensures
        ({
            let (h, r, e) = super::start::start_request_step(
                s.hub,
                s.relay,
                w.config,
                id,
                crate::json::bounded_object(crate::json::opt_json(msg.match_caps), 4096),
                g.now,
            );
            dispatch(s, w, id, peer_ip, msg, login, g, ids) == told(
                LobbyState { hub: h, relay: r, ..s },
                e,
            )
        }),
{
    lemma_stamps();
    assert(stamp(msg.op@) == (5int, 's', 'a', 't'));
}

} // verus!
