//! Messages passed on between peers, and mod transfers.

use super::input::{or_empty, text_or_empty, InMsg};
use super::join::{required_mod_rows, required_mods};
use super::model::{HubInner, HubView, LobbyView, SlotView};
use super::wire::{
    count, counted, effects, nothing, only, refusal, refuse, send_all, sent, sent_all, Effect,
    EffectView, Event, EventView,
};
use crate::json::{empty_object, Json, JsonView};
use crate::outside::{parse_uuid, uuid_text};
use crate::text::{opt_view, same, views};
use crate::turn_credentials::{
    credentials_at, expiry, turn_password, turn_username, TurnCredentialConfig,
};
use vstd::prelude::*;
use vstd::string::*;

verus! {

pub open spec fn number_or_zero(o: Option<i32>) -> int {
    match o {
        Some(n) => n as int,
        None => 0,
    }
}

fn or_zero(o: Option<i32>) -> (r: i64)
    ensures
        r == number_or_zero(o),
{
    match o {
        Some(n) => n as i64,
        None => 0,
    }
}

/// A signal as its receiver gets it.
pub open spec fn signal_msg(op: Seq<char>, lid: Seq<char>, id: Seq<char>, msg: InMsg) -> JsonView {
    empty_object().with("op"@, JsonView::Str(op)).with("lobby_id"@, JsonView::Str(lid)).with(
        "from_player_id"@,
        JsonView::Str(id),
    ).with("type"@, JsonView::Int(number_or_zero(msg.kind))).with(
        "flag"@,
        JsonView::Int(number_or_zero(msg.flag)),
    ).with("text"@, JsonView::Str(text_or_empty(msg.text)))
}

fn signal_json(op: &str, lid: &str, id: &str, msg: &InMsg) -> (r: Json)
    ensures
        r@ == signal_msg(op@, lid@, id@, *msg),
{
    let text = or_empty(&msg.text);
    Json::object().with("op", Json::text(op)).with("lobby_id", Json::text(lid)).with(
        "from_player_id",
        Json::text(id),
    ).with("type", Json::signed(or_zero(msg.kind))).with("flag", Json::signed(or_zero(msg.flag))).with(
        "text",
        Json::text(text.as_str()),
    )
}

/// Everybody seated other than `id`, or only `to` among them.
pub open spec fn others(all: Seq<SlotView>, id: Seq<char>, to: Seq<char>) -> Seq<Seq<char>>
    decreases all.len(),
{
    if all.len() == 0 {
        Seq::empty()
    } else {
        let p = all.last().player_id;
        let rest = others(all.drop_last(), id, to);
        if p != id && (to.len() == 0 || p == to) {
            rest.push(p)
        } else {
            rest
        }
    }
}

/// The signal, once to each of `targets`.
pub open spec fn relayed(targets: Seq<Seq<char>>, msg: JsonView) -> Seq<EffectView> {
    (if targets.len() == 0 {
        Seq::empty()
    } else {
        counted(EventView::SignalRelayed)
    }) + sent_all(targets, msg)
}

/// The lobby that a signal is about: the one it names, or the sender's own.
pub open spec fn signal_lobby(h: HubView, id: Seq<char>, named: Option<Seq<char>>) -> Option<
    Seq<char>,
> {
    match named {
        Some(l) => Some(l),
        None => h.lobby_id_of(id),
    }
}

impl HubInner {
    /// Passes a signal on to the other peers of a room, or to one of them.
    pub fn handle_signal(&self, player_id: &str, msg: &InMsg) -> (r: Result<
        Vec<Effect>,
        &'static str,
    >)
        ensures
            match (r, signal_lobby(self@, player_id@, opt_view(msg.lobby_id))) {
                (Ok(out), Some(lid)) => effects(out@) == (match self@.lobby(lid) {
                    Some(l) => relayed(
                        others(l.everyone(), player_id@, text_or_empty(msg.to_player_id)),
                        signal_msg("signal"@, lid, player_id@, *msg),
                    ),
                    None => Seq::<EffectView>::empty(),
                }),
                (Err(e), None) => e@ == "no lobby"@,
                _ => false,
            },
    {
        let lid: String = match &msg.lobby_id {
            Some(l) => l.clone(),
            None => match self.lobby_id_of(player_id) {
                Some(l) => l,
                None => {
                    return Err("no lobby");
                },
            },
        };
        let lobby = match self.lobby(lid.as_str()) {
            Some(l) => l,
            None => {
                return Ok(nothing());
            },
        };
        let to = or_empty(&msg.to_player_id);
        let all = lobby.everyone();
        let ghost everyone = lobby@.everyone();
        let mut ids: Vec<String> = Vec::new();
        let mut i: usize = 0;
        proof {
            assert(everyone.take(0) =~= Seq::<SlotView>::empty());
            assert(views(ids@) =~= Seq::<Seq<char>>::empty());
        }
        while i < all.len()
            invariant
                i <= all@.len(),
                super::model::slots_of(all@) == everyone,
                views(ids@) == others(everyone.take(i as int), player_id@, to@),
            decreases all@.len() - i,
        {
            proof {
                let t = everyone.take(i + 1);
                assert(t.drop_last() =~= everyone.take(i as int));
                assert(super::model::slots_of(all@)[i as int] == all@[i as int]@);
                assert(t.last() == all@[i as int]@);
            }
            let p = all[i].player_id.as_str();
            if !same(p, player_id) && (to.as_str().is_empty() || same(p, to.as_str())) {
                let ghost before = ids@;
                let id = all[i].player_id.clone();
                ids.push(id);
                proof {
                    assert(views(ids@) =~= views(before).push(id@));
                }
            }
            i = i + 1;
        }
        proof {
            assert(everyone.take(all@.len() as int) =~= everyone);
        }
        let fwd = signal_json("signal", lid.as_str(), player_id, msg);
        let mut out = nothing();
        if ids.len() > 0 {
            count(&mut out, Event::SignalRelayed);
        }
        send_all(&mut out, &ids, &fwd);
        proof {
            assert(views(ids@).len() == ids@.len());
            assert(effects(out@) =~= relayed(views(ids@), fwd@));
        }
        Ok(out)
    }
}

/// A signal reaches nobody but seated peers, and never its sender.
pub proof fn law_signals_stay_in_the_room(all: Seq<SlotView>, id: Seq<char>, to: Seq<char>)
    ensures
        forall|i: int|
            #![trigger others(all, id, to)[i]]
            0 <= i < others(all, id, to).len() ==> others(all, id, to)[i] != id && exists|k: int|
                0 <= k < all.len() && (#[trigger] all[k]).player_id == others(all, id, to)[i],
    decreases all.len(),
{
    if all.len() > 0 {
        law_signals_stay_in_the_room(all.drop_last(), id, to);
        let rest = others(all.drop_last(), id, to);
        assert forall|i: int|
            #![trigger others(all, id, to)[i]]
            0 <= i < others(all, id, to).len() implies others(all, id, to)[i] != id && exists|k: int|
            0 <= k < all.len() && (#[trigger] all[k]).player_id == others(all, id, to)[i] by {
            if i < rest.len() {
                assert(others(all, id, to)[i] == rest[i]);
                let k = choose|k: int|
                    0 <= k < all.drop_last().len() && (#[trigger] all.drop_last()[k]).player_id
                        == rest[i];
                assert(all[k] == all.drop_last()[k]);
            } else {
                assert(all[all.len() - 1].player_id == others(all, id, to)[i]);
            }
        }
    }
}

// ---------------------------------------------------------------- transfers

pub open spec fn xfer_start_step(h: HubView, id: Seq<char>, lid: Seq<char>) -> Seq<EffectView> {
    if lid.len() == 0 {
        refusal(id, "gone"@)
    } else if h.client(id) is None || h.client(id)->0.pending_mod_lobby != Some(lid) {
        refusal(id, "need_mods"@)
    } else {
        match h.lobby(lid) {
            None => refusal(id, "gone"@),
            Some(l) => sent(
                l.host_player_id,
                empty_object().with("op"@, JsonView::Str("mod_xfer_pull"@)).with(
                    "from_player_id"@,
                    JsonView::Str(id),
                ).with("lobby_id"@, JsonView::Str(lid)).with(
                    "mods"@,
                    JsonView::Arr(required_mods(l.match_caps)),
                ),
            ),
        }
    }
}

fn is_pending(h: &HubInner, id: &str, lid: &str) -> (r: bool)
    ensures
        r == (h@.client(id@) is Some && h@.client(id@)->0.pending_mod_lobby == Some(lid@)),
{
    match h.client(id) {
        Some(c) => match &c.pending_mod_lobby {
            Some(p) => same(p.as_str(), lid),
            None => false,
        },
        None => false,
    }
}

impl HubInner {
    /// A client that waits on mods asks the host to send them.
    pub fn handle_mod_xfer_start(&self, player_id: &str, msg: &InMsg) -> (r: Vec<Effect>)
        ensures
            effects(r@) == xfer_start_step(self@, player_id@, text_or_empty(msg.lobby_id)),
    {
        let lid = or_empty(&msg.lobby_id);
        if lid.as_str().is_empty() {
            return refuse(player_id, "gone");
        }
        if !is_pending(self, player_id, lid.as_str()) {
            return refuse(player_id, "need_mods");
        }
        match self.lobby(lid.as_str()) {
            None => refuse(player_id, "gone"),
            Some(l) => {
                let mods = required_mod_rows(&l.match_caps);
                only(
                    l.host_player_id.as_str(),
                    Json::object().with("op", Json::text("mod_xfer_pull")).with(
                        "from_player_id",
                        Json::text(player_id),
                    ).with("lobby_id", Json::text(lid.as_str())).with("mods", Json::Arr(mods)),
                )
            },
        }
    }

    /// A client stops waiting on mods.
    pub fn handle_mod_xfer_cancel(&mut self, player_id: &str) -> (r: Vec<Effect>)
        requires
            old(self)@.wf(),
        ensures
            final(self)@.wf(),
            final(self)@ == old(self)@.pending(player_id@, None),
            effects(r@) == Seq::<EffectView>::empty(),
    {
        self.set_pending(player_id, None);
        nothing()
    }
}

/// Whether `from` may tell `to` about its transfer: `to` waits on the mods of
/// a room that `from` hosts.
pub open spec fn transfer_peer(h: HubView, from: Seq<char>, to: Seq<char>) -> Result<Seq<char>, Seq<char>> {
    match h.client(to) {
        None => Err("gone"@),
        Some(c) => match c.pending_mod_lobby {
            None => Err("need_mods"@),
            Some(lid) => match h.lobby(lid) {
                None => Err("gone"@),
                Some(l) => if l.host_player_id != from {
                    Err("not_host"@)
                } else {
                    Ok(to)
                },
            },
        },
    }
}

pub fn xfer_relay_ok(g: &HubInner, from_id: &str, to_id: &str) -> (r: Result<String, &'static str>)
    ensures
        match (r, transfer_peer(g@, from_id@, to_id@)) {
            (Ok(a), Ok(b)) => a@ == b,
            (Err(a), Err(b)) => a@ == b,
            _ => false,
        },
{
    match g.client(to_id) {
        None => Err("gone"),
        Some(c) => match &c.pending_mod_lobby {
            None => Err("need_mods"),
            Some(lid) => match g.lobby(lid.as_str()) {
                None => Err("gone"),
                Some(l) => if !same(l.host_player_id.as_str(), from_id) {
                    Err("not_host")
                } else {
                    Ok(to_id.to_owned())
                },
            },
        },
    }
}

/// Who hears that a transfer failed: the waiting peer of a host, or the host
/// of a waiting peer.
pub open spec fn failure_dest(h: HubView, id: Seq<char>, to: Seq<char>) -> Option<Seq<char>> {
    match transfer_peer(h, id, to) {
        Ok(d) => Some(d),
        Err(_) => match h.client(id) {
            Some(c) => match c.pending_mod_lobby {
                Some(lid) => match h.lobby(lid) {
                    Some(l) => Some(l.host_player_id),
                    None => None,
                },
                None => None,
            },
            None => None,
        },
    }
}

pub open spec fn xfer_fail_step(h: HubView, id: Seq<char>, to: Seq<char>, error: Option<Seq<char>>) -> Seq<
    EffectView,
> {
    match failure_dest(h, id, to) {
        Some(d) => sent(
            d,
            empty_object().with("op"@, JsonView::Str("mod_xfer_fail"@)).with(
                "error"@,
                JsonView::Str(
                    match error {
                        Some(e) => e,
                        None => "export failed"@,
                    },
                ),
            ),
        ),
        None => Seq::empty(),
    }
}

/// The lobby that a mod signal is about: the one it names, the one the sender
/// waits on, or the one it sits in.
pub open spec fn mod_lobby(h: HubView, id: Seq<char>, named: Option<Seq<char>>) -> Option<Seq<char>> {
    match named {
        Some(l) => Some(l),
        None => match h.client(id)->0.pending_mod_lobby {
            Some(l) => Some(l),
            None => h.client(id)->0.lobby_id,
        },
    }
}

/// Who gets a mod signal about `l`: the host, from a waiting peer; the waiting
/// peer it names, from the host.
pub open spec fn mod_dest(h: HubView, id: Seq<char>, lid: Seq<char>, l: LobbyView, to: Seq<char>) -> Option<
    Seq<char>,
> {
    if h.client(id)->0.pending_mod_lobby == Some(lid) {
        Some(l.host_player_id)
    } else if l.host_player_id == id && to.len() > 0 && h.client(to) is Some && h.client(
        to,
    )->0.pending_mod_lobby == Some(lid) {
        Some(to)
    } else {
        None
    }
}

impl HubInner {
    /// Passes a mod-transfer signal on between a host and a waiting peer.
    pub fn handle_mod_signal(&self, player_id: &str, msg: &InMsg) -> (r: Result<
        Vec<Effect>,
        &'static str,
    >)
        ensures
            match r {
                Ok(out) => {
                    &&& self@.client(player_id@) is Some
                    &&& mod_lobby(self@, player_id@, opt_view(msg.lobby_id)) is Some
                    &&& effects(out@) == ({
                        let lid = mod_lobby(self@, player_id@, opt_view(msg.lobby_id))->0;
                        match self@.lobby(lid) {
                            Some(l) => match mod_dest(
                                self@,
                                player_id@,
                                lid,
                                l,
                                text_or_empty(msg.to_player_id),
                            ) {
                                Some(d) => sent(
                                    d,
                                    signal_msg("mod_signal"@, lid, player_id@, *msg),
                                ),
                                None => Seq::<EffectView>::empty(),
                            },
                            None => Seq::<EffectView>::empty(),
                        }
                    })
                },
                Err(e) => if self@.client(player_id@) is None {
                    e@ == "gone"@
                } else {
                    e@ == "no lobby"@ && mod_lobby(self@, player_id@, opt_view(msg.lobby_id))
                        is None
                },
            },
    {
        let to = or_empty(&msg.to_player_id);
        let sender = match self.client(player_id) {
            Some(c) => c,
            None => {
                return Err("gone");
            },
        };
        let lid: String = match &msg.lobby_id {
            Some(l) => l.clone(),
            None => match &sender.pending_mod_lobby {
                Some(l) => l.clone(),
                None => match &sender.lobby_id {
                    Some(l) => l.clone(),
                    None => {
                        return Err("no lobby");
                    },
                },
            },
        };
        let lobby = match self.lobby(lid.as_str()) {
            Some(l) => l,
            None => {
                return Ok(nothing());
            },
        };
        let dest: String = if is_pending(self, player_id, lid.as_str()) {
            lobby.host_player_id.clone()
        } else {
            if !same(lobby.host_player_id.as_str(), player_id) || to.as_str().is_empty()
                || !is_pending(self, to.as_str(), lid.as_str()) {
                return Ok(nothing());
            }
            to
        };
        Ok(only(dest.as_str(), signal_json("mod_signal", lid.as_str(), player_id, msg)))
    }

    /// Tells the other side of a transfer that it failed.
    pub fn handle_mod_xfer_fail(&self, player_id: &str, msg: &InMsg) -> (r: Vec<Effect>)
        ensures
            effects(r@) == xfer_fail_step(
                self@,
                player_id@,
                text_or_empty(msg.to_player_id),
                opt_view(msg.error),
            ),
    {
        let to = or_empty(&msg.to_player_id);
        let error: String = match &msg.error {
            Some(e) => e.clone(),
            None => "export failed".to_owned(),
        };
        let dest: Option<String> = match xfer_relay_ok(self, player_id, to.as_str()) {
            Ok(d) => Some(d),
            Err(_) => match self.client(player_id) {
                Some(c) => match &c.pending_mod_lobby {
                    Some(lid) => match self.lobby(lid.as_str()) {
                        Some(l) => Some(l.host_player_id.clone()),
                        None => None,
                    },
                    None => None,
                },
                None => None,
            },
        };
        match dest {
            Some(d) => only(
                d.as_str(),
                Json::object().with("op", Json::text("mod_xfer_fail")).with(
                    "error",
                    Json::text(error.as_str()),
                ),
            ),
            None => nothing(),
        }
    }
}

// -------------------------------------------------------------- credentials

pub open spec fn turn_refused(error: Seq<char>) -> JsonView {
    empty_object().with("op"@, JsonView::Str("turn_credentials"@)).with(
        "ok"@,
        JsonView::Bool(false),
    ).with("error"@, JsonView::Str(error))
}

fn turn_refused_json(error: &str) -> (r: Json)
    ensures
        r@ == turn_refused(error@),
{
    Json::object().with("op", Json::text("turn_credentials")).with("ok", Json::flag(false)).with(
        "error",
        Json::text(error),
    )
}

pub open spec fn turn_granted(cfg: TurnCredentialConfig, username: Seq<char>, password: Seq<char>) -> JsonView {
    empty_object().with("op"@, JsonView::Str("turn_credentials"@)).with(
        "ok"@,
        JsonView::Bool(true),
    ).with("stun_host"@, JsonView::Str(cfg.stun_host@)).with(
        "stun_port"@,
        JsonView::Int(cfg.stun_port as int),
    ).with("turn_host"@, JsonView::Str(cfg.turn_host@)).with(
        "turn_port"@,
        JsonView::Int(cfg.turn_port as int),
    ).with("turns_port"@, JsonView::Int(cfg.turns_port as int)).with(
        "realm"@,
        JsonView::Str(cfg.realm@),
    ).with("username"@, JsonView::Str(username)).with("password"@, JsonView::Str(password)).with(
        "ttl_secs"@,
        JsonView::Int(cfg.ttl_secs as int),
    )
}

pub open spec fn turn_step(id: Seq<char>, cfg: Option<TurnCredentialConfig>, now: int) -> Seq<
    EffectView,
> {
    match uuid_text(id) {
        None => sent(id, turn_refused("bad_player_id"@)),
        Some(uuid) => match cfg {
            None => sent(id, turn_refused("coturn_unconfigured"@)),
            Some(c) => match expiry(now, c.ttl_secs as int) {
                None => sent(id, turn_refused("mint_failed"@)),
                Some(e) => {
                    let u = turn_username(e, uuid);
                    counted(EventView::TurnIssued) + sent(
                        id,
                        turn_granted(c, u, turn_password(c.secret@, u)),
                    )
                },
            },
        },
    }
}

/// Time-limited TURN credentials for a connection.
pub fn handle_get_turn_credentials(
    player_id: &str,
    cfg: &Option<TurnCredentialConfig>,
    now: i64,
) -> (r: Vec<Effect>)
    ensures
        effects(r@) == turn_step(player_id@, *cfg, now as int),
{
    let uuid = match parse_uuid(player_id) {
        Some(u) => u,
        None => {
            return only(player_id, turn_refused_json("bad_player_id"));
        },
    };
    let cfg = match cfg {
        Some(c) => c,
        None => {
            return only(player_id, turn_refused_json("coturn_unconfigured"));
        },
    };
    match credentials_at(cfg, uuid.as_str(), now) {
        Some((username, password)) => {
            let mut out = nothing();
            count(&mut out, Event::TurnIssued);
            super::wire::send_to(
                &mut out,
                player_id,
                Json::object().with("op", Json::text("turn_credentials")).with(
                    "ok",
                    Json::flag(true),
                ).with("stun_host", Json::text(cfg.stun_host.as_str())).with(
                    "stun_port",
                    Json::count(cfg.stun_port as u64),
                ).with("turn_host", Json::text(cfg.turn_host.as_str())).with(
                    "turn_port",
                    Json::count(cfg.turn_port as u64),
                ).with("turns_port", Json::count(cfg.turns_port as u64)).with(
                    "realm",
                    Json::text(cfg.realm.as_str()),
                ).with("username", Json::text(username.as_str())).with(
                    "password",
                    Json::text(password.as_str()),
                ).with("ttl_secs", Json::count(cfg.ttl_secs)),
            );
            proof {
                assert(effects(out@) =~= turn_step(player_id@, Some(*cfg), now as int));
            }
            out
        },
        None => only(player_id, turn_refused_json("mint_failed")),
    }
}

} // verus!
