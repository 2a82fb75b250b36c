//! Starting a match: the relay session, the room's commitment to it, and the
//! launch that everybody gets.

use super::input::{direct_peer, is_direct_lan_ws_peer, InMsg};
use super::join::next_session;
use super::model::{
    is_spectator_seat, lemma_lobby_at, player_count, slots_of, spectator_index, unready, HubInner, HubView, Lobby,
    LobbyView, SPECTATOR_SLOT_BASE,
};
use super::seats::{destroy_step, hosted, lemma_with_lobby_wf, relay_of, sanitize_match_caps};
use super::wire::{
    am_err, append_effects, count, counted, effects, error_msg, nothing, refusal, refuse, seat_json,
    seat_rows, send_all, sent_all, with_opt, Effect, EffectView, Event, EventView,
};
use crate::config::{Config, ConfigView};
use crate::input_relay::{opened, InputRelay, RelayView};
use crate::json::{bounded_object, empty_object, opt_json, Json, JsonView};
use crate::text::{blank, opt_view, trimmed};
use vstd::prelude::*;
use vstd::string::*;

verus! {

/// Whether everybody seated dials from the LAN itself, not through its gateway.
pub open spec fn all_on_lan(h: HubView, l: LobbyView, gateway: Option<Seq<char>>) -> bool {
    forall|i: int|
        0 <= i < l.everyone().len() ==> match h.client((#[trigger] l.everyone()[i]).player_id) {
            Some(c) => direct_peer(c.peer_ip, gateway),
            None => false,
        }
}

/// Whether the LAN address of the relay is the one to hand out.
pub open spec fn prefers_lan(h: HubView, l: LobbyView, c: ConfigView) -> bool {
    trimmed(c.input_relay_lan_host).len() > 0 && l.everyone().len() > 0 && all_on_lan(
        h,
        l,
        c.gateway(),
    )
}

/// Whether the one who starts the match watches it from the gallery.
pub open spec fn starts_from_gallery(l: LobbyView, initiator: Option<Seq<char>>) -> bool {
    match initiator {
        Some(p) => match l.seat_of(p) {
            Some(s) => spectator_index(s),
            None => false,
        },
        None => false,
    }
}

/// The player slots of the relay session. A host in the gallery keeps the
/// first one, and the players sit behind it.
pub open spec fn relay_width(l: LobbyView, from_gallery: bool) -> int {
    l.max_slots + (if from_gallery {
        1int
    } else {
        0
    })
}

/// The room once its match started.
pub open spec fn started_lobby(l: LobbyView, caps: Option<JsonView>, sid: u32, ep: Seq<char>) -> LobbyView {
    LobbyView {
        match_caps: if caps is Some {
            caps
        } else {
            l.match_caps
        },
        session_id: sid,
        started: true,
        host_endpoint: ep,
        guest_endpoint: ep,
        relay_session_id: Some(sid),
        slots: unready(l.slots),
        ..l
    }
}

/// The launch of the room `l`.
pub open spec fn launch_msg(h: HubView, l: LobbyView, from_gallery: bool, ep: Seq<char>) -> JsonView {
    with_opt(
        empty_object().with("op"@, JsonView::Str("launch"@)).with("ok"@, JsonView::Bool(true)).with(
            "lobby_id"@,
            JsonView::Str(l.lobby_id),
        ).with("session_id"@, JsonView::Int(l.session_id as int)).with(
            "host_endpoint"@,
            JsonView::Str(l.host_endpoint),
        ).with("guest_endpoint"@, JsonView::Str(l.guest_endpoint)).with(
            "player_count"@,
            JsonView::Int(l.player_count()),
        ).with("max_slots"@, JsonView::Int(l.max_slots as int)).with(
            "slots"@,
            JsonView::Arr(seat_rows(h, l.slots, 0)),
        ).with(
            "spectators"@,
            JsonView::Arr(seat_rows(h, l.spectators, SPECTATOR_SLOT_BASE as int)),
        ).with("spectator_count"@, JsonView::Int(l.spectator_count())).with(
            "spectator_slot_base"@,
            JsonView::Int(SPECTATOR_SLOT_BASE as int),
        ).with("spectator_relay_base"@, JsonView::Int(relay_width(l, from_gallery))).with(
            "host_spectates"@,
            JsonView::Bool(from_gallery),
        ).with("transport"@, JsonView::Str("sfu"@)),
        "match_caps"@,
        l.match_caps,
    ).with("relay_endpoint"@, JsonView::Str(ep))
}

/// The relay once the session of the last match is closed.
pub open spec fn relay_closed(r: RelayView, session: Option<u32>) -> RelayView {
    match session {
        Some(s) => if s == 0 {
            r
        } else {
            r.without(s)
        },
        None => r,
    }
}

/// The relay once a session is opened, where the id is one.
pub open spec fn relay_opened(r: RelayView, sid: u32, players: int, spectators: int, now: u64) -> RelayView {
    RelayView {
        sessions: r.without(sid).sessions.push(opened(sid, players as u8, spectators as u8, now)),
        ..r
    }
}

/// What starting the lobby `lid` does to the hub and to the relay, and what
/// comes of it. `caps` are the settings that come with the start.
pub open spec fn start_step(
    h: HubView,
    r: RelayView,
    c: ConfigView,
    lid: Seq<char>,
    caps: Option<JsonView>,
    initiator: Option<Seq<char>>,
    now: u64,
) -> (HubView, RelayView, Result<Seq<EffectView>, Seq<char>>) {
    match h.lobby(lid) {
        None => (h, r, Err("gone"@)),
        Some(l) => if l.player_count() < 2 {
            (h, r, Err("need_players"@))
        } else if !r.enabled {
            (h, r, Err("relay_unavailable"@))
        } else {
            let sid = h.next_session;
            let h1 = HubView { next_session: next_session(sid), ..h };
            let r1 = relay_closed(r, l.relay_session_id);
            let gallery = starts_from_gallery(l, initiator);
            if sid == 0 {
                (h1, r1, Err("relay_unavailable"@))
            } else {
                let ep = r1.endpoint(prefers_lan(h, l, c));
                let l2 = started_lobby(l, caps, sid, ep);
                let h2 = h1.with_lobby(lid, l2);
                (
                    h2,
                    relay_opened(r1, sid, relay_width(l, gallery), l.spectator_count(), now),
                    Ok(
                        sent_all(l2.member_ids(), launch_msg(h2, l2, gallery, ep)) + counted(
                            EventView::Started(l.game_name, l.player_count()),
                        ),
                    ),
                )
            }
        },
    }
}

/// What `start` from a player does: the host starts the room, nobody else.
pub open spec fn start_request_step(
    h: HubView,
    r: RelayView,
    c: ConfigView,
    id: Seq<char>,
    caps: Option<JsonView>,
    now: u64,
) -> (HubView, RelayView, Seq<EffectView>) {
    match hosted(h, id) {
        Err(code) => (h, r, refusal(id, code)),
        Ok(lid) => {
            let (h2, r2, out) = start_step(h, r, c, lid, caps, Some(id), now);
            (
                h2,
                r2,
                match out {
                    Ok(e) => e,
                    Err(code) => refusal(id, code),
                },
            )
        },
    }
}

/// What the settled start of a matched room does: it launches, or its members
/// are told why not and the room closes.
pub open spec fn settled_start_step(
    h: HubView,
    r: RelayView,
    c: ConfigView,
    lid: Seq<char>,
    now: u64,
) -> (HubView, RelayView, Seq<EffectView>, bool) {
    let (h2, r2, out) = start_step(h, r, c, lid, None, None, now);
    match out {
        Ok(e) => (h2, r2, e, true),
        Err(code) => {
            let (h3, closing) = destroy_step(h2, lid);
            (
                h3,
                relay_closed(r2, relay_of(h2, lid)),
                (match h2.lobby(lid) {
                    Some(l) => sent_all(l.member_ids(), error_msg(code)),
                    None => Seq::empty(),
                }) + closing,
                false,
            )
        },
    }
}

fn on_lan(h: &HubInner, l: &Lobby, gateway: &Option<String>) -> (r: bool)
    ensures
        r == (l@.everyone().len() > 0 && all_on_lan(h@, l@, opt_view(*gateway))),
{
    let all = l.everyone();
    let ghost es = l@.everyone();
    if all.len() == 0 {
        return false;
    }
    let mut i: usize = 0;
    while i < all.len()
        invariant
            i <= all@.len(),
            es == l@.everyone(),
            slots_of(all@) == es,
            forall|k: int|
                0 <= k < i ==> match h@.client((#[trigger] es[k]).player_id) {
                    Some(c) => direct_peer(c.peer_ip, opt_view(*gateway)),
                    None => false,
                },
        decreases all@.len() - i,
    {
        proof {
            assert(slots_of(all@)[i as int] == all@[i as int]@);
        }
        let good = match h.client(all[i].player_id.as_str()) {
            Some(c) => is_direct_lan_ws_peer(c.peer_ip.as_str(), gateway),
            None => false,
        };
        if !good {
            proof {
                let e = es[i as int];
                assert(!all_on_lan(h@, l@, opt_view(*gateway)));
            }
            return false;
        }
        i = i + 1;
    }
    true
}

fn launch_json(h: &HubInner, l: &Lobby, from_gallery: bool, ep: &str) -> (r: Json)
    requires
        l@.wf(),
    ensures
        r@ == launch_msg(h@, l@, from_gallery, ep@),
{
    let slots = seat_json(h, &l.slots, 0);
    let spectators = seat_json(h, &l.spectators, SPECTATOR_SLOT_BASE);
    let base: u64 = if from_gallery {
        l.max_slots as u64 + 1
    } else {
        l.max_slots as u64
    };
    let msg = Json::object().with("op", Json::text("launch")).with("ok", Json::flag(true)).with(
        "lobby_id",
        Json::text(l.lobby_id.as_str()),
    ).with("session_id", Json::count(l.session_id as u64)).with(
        "host_endpoint",
        Json::text(l.host_endpoint.as_str()),
    ).with("guest_endpoint", Json::text(l.guest_endpoint.as_str())).with(
        "player_count",
        Json::count(player_count(l) as u64),
    ).with("max_slots", Json::count(l.max_slots as u64)).with("slots", Json::Arr(slots)).with(
        "spectators",
        Json::Arr(spectators),
    ).with("spectator_count", Json::count(l.spectator_count() as u64)).with(
        "spectator_slot_base",
        Json::count(SPECTATOR_SLOT_BASE as u64),
    ).with("spectator_relay_base", Json::count(base)).with(
        "host_spectates",
        Json::flag(from_gallery),
    ).with("transport", Json::text("sfu"));
    let msg = match &l.match_caps {
        Some(c) => msg.with("match_caps", c.copy()),
        None => msg,
    };
    msg.with("relay_endpoint", Json::text(ep))
}

/// Closes the relay session of a match, where there is one.
pub fn close_relay(relay: &mut InputRelay, session: Option<u32>)
    requires
        old(relay)@.wf(),
    ensures
        final(relay)@.wf(),
        final(relay)@ == relay_closed(old(relay)@, session),
{
    if let Some(s) = session {
        let _ = relay.close_session(s);
    }
}

impl HubInner {
    /// Opens the relay and launches a lobby. `initiator` is the host that
    /// pressed Play, or nobody where the server is the host.
    pub fn start_lobby(
        &mut self,
        relay: &mut InputRelay,
        config: &Config,
        lid: &str,
        raw_caps: &Option<Json>,
        initiator: Option<&str>,
        now: u64,
    ) -> (r: Result<Vec<Effect>, &'static str>)
        requires
            old(self)@.wf(),
            old(relay)@.wf(),
        ensures
            final(self)@.wf(),
            final(relay)@.wf(),
            ({
                let (h, rv, out) = start_step(
                    old(self)@,
                    old(relay)@,
                    config@,
                    lid@,
                    bounded_object(opt_json(*raw_caps), 4096),
                    super::wire::opt_str(initiator),
                    now,
                );
                &&& final(self)@ == h
                &&& final(relay)@ == rv
                &&& match (r, out) {
                    (Ok(a), Ok(b)) => effects(a@) == b,
                    (Err(a), Err(b)) => a@ == b,
                    _ => false,
                }
            }),
    {
        let fresh = sanitize_match_caps(raw_caps);
        let li: usize = match self.lobby_index(lid) {
            Some(i) => i,
            None => {
                return Err("gone");
            },
        };
        let ghost h = self@;
        let ghost l = self@.lobbies[li as int];
        proof {
            assert(self@.lobbies[li as int] == self.lobbies@[li as int]@);
            super::model::lemma_seated_len(l.spectators);
        }
        let n: usize = player_count(&self.lobbies[li]);
        if n < 2 {
            return Err("need_players");
        }
        if !relay.enabled() {
            return Err("relay_unavailable");
        }
        let gateway = config.effective_input_relay_lan_gateway();
        let prefer_lan = !blank(config.input_relay_lan_host.as_str()) && on_lan(
            self,
            &self.lobbies[li],
            &gateway,
        );
        let gallery = match initiator {
            Some(p) => match self.lobbies[li].seat_of(p) {
                Some(s) => is_spectator_seat(s),
                None => false,
            },
            None => false,
        };
        let old_relay: Option<u32> = self.lobbies[li].relay_session_id;
        let watching: u8 = self.lobbies[li].spectator_count() as u8;
        let width: u8 = if gallery {
            self.lobbies[li].max_slots as u8 + 1
        } else {
            self.lobbies[li].max_slots as u8
        };
        let game = self.lobbies[li].game_name.clone();
        let sid: u32 = self.next_session;
        self.next_session = if sid == 0xffff_ffff {
            sid
        } else {
            sid + 1
        };
        let ghost h1 = HubView { next_session: next_session(sid), ..h };
        proof {
            assert(self@ =~= h1);
        }
        close_relay(relay, old_relay);
        match relay.open_session(sid, width, watching, now) {
            Ok(()) => {},
            Err(_) => {
                return Err("relay_unavailable");
            },
        }
        let ep = relay.pick_advertise_endpoint(prefer_lan);
        let ghost l2 = started_lobby(l, opt_json(fresh), sid, ep@);
        let lobby = self.lobby_mut(li);
        if fresh.is_some() {
            lobby.match_caps = fresh;
        }
        lobby.session_id = sid;
        lobby.started = true;
        lobby.host_endpoint = ep.clone();
        lobby.guest_endpoint = ep.clone();
        lobby.relay_session_id = Some(sid);
        lobby.unready_players();
        let ghost h2 = h1.with_lobby(lid@, l2);
        proof {
            assert(h1.lobby_at(lid@) == h.lobby_at(lid@));
            assert(self@.lobbies[li as int] =~= l2);
            assert(self@ =~= h2);
            lemma_with_lobby_wf(h1, lid@, l2);
            assert(self@.lobbies.len() == h.lobbies.len());
            assert(self.lobbies@.len() == self@.lobbies.len());
            assert(self@.lobbies[li as int] == self.lobbies@[li as int]@);
        }
        let msg = launch_json(self, &self.lobbies[li], gallery, ep.as_str());
        let ids = self.lobbies[li].member_ids();
        let mut out = nothing();
        send_all(&mut out, &ids, &msg);
        count(&mut out, Event::Started(game, n));
        proof {
            assert(effects(out@) =~= sent_all(l2.member_ids(), launch_msg(h2, l2, gallery, ep@))
                + counted(EventView::Started(l.game_name, l.player_count())));
        }
        Ok(out)
    }

    /// `start` from a player: only the host of a room starts it.
    pub fn handle_start(
        &mut self,
        relay: &mut InputRelay,
        config: &Config,
        player_id: &str,
        msg: &InMsg,
        now: u64,
    ) -> (r: Vec<Effect>)
        requires
            old(self)@.wf(),
            old(relay)@.wf(),
        ensures
            final(self)@.wf(),
            final(relay)@.wf(),
            (final(self)@, final(relay)@, effects(r@)) == start_request_step(
                old(self)@,
                old(relay)@,
                config@,
                player_id@,
                bounded_object(opt_json(msg.match_caps), 4096),
                now,
            ),
    {
        let lid = match self.hosted(player_id) {
            Ok((lid, _)) => lid,
            Err(code) => {
                return refuse(player_id, code);
            },
        };
        match self.start_lobby(relay, config, lid.as_str(), &msg.match_caps, Some(player_id), now) {
            Ok(out) => out,
            Err(code) => refuse(player_id, code),
        }
    }

    /// Starts a matched room once its settle time has passed. Tells whether it
    /// launched; where it did not, the room is closed.
    pub fn start_settled(&mut self, relay: &mut InputRelay, config: &Config, lid: &str, now: u64)
        -> (r: (Vec<Effect>, bool))
        requires
            old(self)@.wf(),
            old(relay)@.wf(),
        ensures
            final(self)@.wf(),
            final(relay)@.wf(),
            (final(self)@, final(relay)@, effects(r.0@), r.1) == settled_start_step(
                old(self)@,
                old(relay)@,
                config@,
                lid@,
                now,
            ),
    {
        match self.start_lobby(relay, config, lid, &None, None, now) {
            Ok(out) => (out, true),
            Err(code) => {
                let mut out = nothing();
                match self.lobby(lid) {
                    Some(l) => {
                        let ids = l.member_ids();
                        let note = am_err(code);
                        send_all(&mut out, &ids, &note);
                    },
                    None => {},
                }
                let ghost told = effects(out@);
                let (closing, session) = self.destroy_lobby(lid);
                let ghost end = effects(closing@);
                append_effects(&mut out, closing);
                close_relay(relay, session);
                proof {
                    assert(told + end =~= settled_start_step(
                        old(self)@,
                        old(relay)@,
                        config@,
                        lid@,
                        now,
                    ).2);
                }
                (out, false)
            },
        }
    }
}

// -------------------------------------------------------------------- laws

/// Everybody seated gets the launch, gallery included, and each the same one.
pub proof fn law_launch_reaches_the_room(
    h: HubView,
    r: RelayView,
    c: ConfigView,
    lid: Seq<char>,
    caps: Option<JsonView>,
    initiator: Option<Seq<char>>,
    now: u64,
    i: int,
)
    requires
        start_step(h, r, c, lid, caps, initiator, now).2 is Ok,
        h.lobby(lid) is Some,
        0 <= i < h.lobby(lid)->0.everyone().len(),
    ensures
        ({
            let out = start_step(h, r, c, lid, caps, initiator, now).2->Ok_0;
            let first = out[0]->msg;
            out[i] == EffectView::Send { to: h.lobby(lid)->0.everyone()[i].player_id, msg: first }
        }),
{
    let l = h.lobby(lid)->0;
    let l2 = started_lobby(
        l,
        caps,
        h.next_session,
        relay_closed(r, l.relay_session_id).endpoint(prefers_lan(h, l, c)),
    );
    super::model::lemma_unready_seated(l.slots);
    assert(l2.member_ids()[i] == l.everyone()[i].player_id);
    let out = start_step(h, r, c, lid, caps, initiator, now).2->Ok_0;
    let msg = launch_msg(
        HubView { next_session: next_session(h.next_session), ..h }.with_lobby(lid, l2),
        l2,
        starts_from_gallery(l, initiator),
        l2.host_endpoint,
    );
    assert(out[i] == sent_all(l2.member_ids(), msg)[i]);
    assert(out[0] == sent_all(l2.member_ids(), msg)[0]);
}

/// A start that is refused changes nothing.
pub proof fn law_refused_start_changes_nothing(
    h: HubView,
    r: RelayView,
    c: ConfigView,
    lid: Seq<char>,
    caps: Option<JsonView>,
    initiator: Option<Seq<char>>,
    now: u64,
)
    requires
        h.next_session != 0,
    ensures
        ({
            let (h2, r2, out) = start_step(h, r, c, lid, caps, initiator, now);
            out is Err ==> h2 == h && r2 == r
        }),
{
}

/// Each match gets a session of its own: the room runs under an id that no
/// later start gets, and the relay has that session.
pub proof fn law_each_match_has_its_own_session(
    h: HubView,
    r: RelayView,
    c: ConfigView,
    lid: Seq<char>,
    caps: Option<JsonView>,
    initiator: Option<Seq<char>>,
    now: u64,
)
    requires
        start_step(h, r, c, lid, caps, initiator, now).2 is Ok,
        h.next_session < u32::MAX,
    ensures
        ({
            let (h2, r2, out) = start_step(h, r, c, lid, caps, initiator, now);
            &&& h2.lobby(lid) is Some
            &&& h2.lobby(lid)->0.session_id == h.next_session < h2.next_session
            &&& h2.lobby(lid)->0.relay_session_id == Some(h.next_session)
            &&& r2.sessions.last().session_id == h.next_session
        }),
{
    lemma_lobby_at(h, lid);
    let (h2, r2, out) = start_step(h, r, c, lid, caps, initiator, now);
    let h1 = HubView { next_session: next_session(h.next_session), ..h };
    assert(h1.lobbies == h.lobbies);
    assert(h1.lobby_at(lid) == h.lobby_at(lid));
    let l2 = h2.lobbies[h.lobby_at(lid)->0];
    super::roster::lemma_with_lobby(h1, lid, l2);
    assert(h2 == h1.with_lobby(lid, l2));
}

/// Nobody but the host of a room starts it; a room that the server hosts is
/// started by no player.
pub proof fn law_only_the_host_starts(
    h: HubView,
    r: RelayView,
    c: ConfigView,
    id: Seq<char>,
    caps: Option<JsonView>,
    now: u64,
)
    requires
        h.lobby_id_of(id) is Some,
        h.lobby(h.lobby_id_of(id)->0) is Some,
        h.lobby(h.lobby_id_of(id)->0)->0.host_player_id != id,
    ensures
        start_request_step(h, r, c, id, caps, now) == (h, r, refusal(id, "not_host"@)),
{
}

} // verus!
