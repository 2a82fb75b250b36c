//! What a connection says of itself or of its room, and whom it reaches: the
//! host's settings, reported paths and round trips, transfers, credentials,
//! names and reports.

use super::chat::{
    desync_step, hello_step, named_ids, opt_views, report_step, reported_ids, Login,
};
use super::dispatch::{mod_signal_step, LobbyState};
use super::input::{advertised, text_or_empty, InMsg};
use super::matching::rtt_step;
use super::model::{player_at, ChatLineView, ClientView, HubView, LobbyView, SlotView};
use super::moves::{hears_no, lemma_refused, member};
use super::ops::{hears_op, lemma_keys, lemma_with_read};
use super::roster::{lemma_with_client, lemma_with_lobby};
use super::seating::lemma_room_named;
use super::seats::{
    host_endpoint_step, path_report_step, set_match_caps_step,
};
use super::signals::{transfer_peer, turn_step, xfer_fail_step, xfer_start_step};
use super::wire::EffectView;
use crate::automatch::queue::{ticket_at, QueueView};
use crate::find::lemma_first_where;
use crate::json::{written, JsonView};
use crate::outside::uuid_text;
use crate::text::{byte_len, decimal, opt_view};
use crate::turn_credentials::{turn_password, TurnCredentialConfig};
use vstd::prelude::*;
use vstd::string::*;

verus! {

// ----------------------------------------------------------------- settings

/// Whether two rooms differ in their settings alone: nobody in either has
/// another seat, and neither has another host or name.
pub open spec fn same_people(l: LobbyView, l2: LobbyView) -> bool {
    &&& l2.lobby_id == l.lobby_id
    &&& l2.host_player_id == l.host_player_id
    &&& l2.slots == l.slots
    &&& l2.spectators == l.spectators
    &&& l2.password_hash == l.password_hash
    &&& l2.name == l.name
    &&& l2.session_id == l.session_id
}

/// The host's match settings are the room's from then on, where they are an
/// object of at most 4096 bytes; anyone else's, or others, change nothing and are
/// refused.
pub proof fn law_the_caps_are_the_hosts(
    h: HubView,
    id: Seq<char>,
    lid: Seq<char>,
    l: LobbyView,
    caps: JsonView,
)
    requires
        member(h, id, lid, l),
    ensures
        ({
            let (h2, out) = set_match_caps_step(h, id, Some(caps));
            let sound = caps is Obj && byte_len(written(caps)) <= 4096;
            &&& sound && l.host_player_id == id ==> h2.lobby(lid) is Some && h2.lobby(
                lid,
            )->0.match_caps == Some(caps) && same_people(l, h2.lobby(lid)->0)
            &&& sound && l.host_player_id != id ==> h2 == h && hears_no(out, id, "not_host"@)
            &&& !sound ==> h2 == h && hears_no(out, id, "bad_match_caps"@)
        }),
{
    lemma_room_named(h, lid);
    lemma_refused(id, "not_host"@);
    lemma_refused(id, "bad_match_caps"@);
    lemma_with_lobby(h, lid, LobbyView { match_caps: Some(caps), ..l });
}

/// The endpoint that a host publishes is the room's, with the local ones beside
/// it, until the relay has the match; nobody else publishes one.
pub proof fn law_the_endpoint_is_the_hosts(
    h: HubView,
    id: Seq<char>,
    lid: Seq<char>,
    l: LobbyView,
    raw: Seq<char>,
    lan: Seq<Seq<char>>,
)
    requires
        member(h, id, lid, l),
    ensures
        ({
            let (h2, out) = host_endpoint_step(h, id, Some(raw), lan);
            let ep = advertised(raw);
            &&& ep is Some && l.host_player_id == id && l.relay_session_id is None ==> {
                &&& h2.lobby(lid) is Some
                &&& h2.lobby(lid)->0.host_endpoint == ep->0
                &&& h2.lobby(lid)->0.lan_endpoints == lan
                &&& same_people(l, h2.lobby(lid)->0)
                &&& hears_op(out, id, "host_endpoint_ok"@)
            }
            &&& ep is Some && l.host_player_id == id && l.relay_session_id is Some ==> h2 == h
                && hears_no(out, id, "relay_locked"@)
            &&& ep is Some && l.host_player_id != id ==> h2 == h && hears_no(out, id, "not_host"@)
            &&& ep is None ==> h2 == h && hears_no(out, id, "bad_host_endpoint"@)
        }),
{
    broadcast use lemma_with_read;

    lemma_keys();
    lemma_room_named(h, lid);
    lemma_refused(id, "not_host"@);
    lemma_refused(id, "relay_locked"@);
    lemma_refused(id, "bad_host_endpoint"@);
    if advertised(raw) is Some {
        lemma_with_lobby(
            h,
            lid,
            LobbyView { host_endpoint: advertised(raw)->0, lan_endpoints: lan, ..l },
        );
        let out = host_endpoint_step(h, id, Some(raw), lan).1;
        if l.host_player_id == id && l.relay_session_id is None {
            assert(out[out.len() - 1] is Send);
            assert(out[out.len() - 1]->Send_to == id);
            assert(out[out.len() - 1]->Send_msg.get("op"@) == Some(
                JsonView::Str("host_endpoint_ok"@),
            ));
        }
    }
}

/// A player's report of its path lands on its own seat with the time of the
/// report, and on no other.
pub proof fn law_a_path_is_ones_own(
    h: HubView,
    id: Seq<char>,
    lid: Seq<char>,
    l: LobbyView,
    k: int,
    now: u64,
)
    requires
        member(h, id, lid, l),
        player_at(l.slots, id) == Some(k),
    ensures
        ({
            let direct = path_report_step(h, id, Some("direct"@), now).0;
            let relay = path_report_step(h, id, Some("relay"@), now).0;
            &&& reports_path(l, direct.lobby(lid), k, "direct"@, now)
            &&& reports_path(l, relay.lobby(lid), k, "relay"@, now)
        }),
{
    lemma_room_named(h, lid);
    lemma_plain_paths();
    lemma_first_where(
        l.slots,
        |o: Option<SlotView>| super::model::sits(o, id),
    );
    let d = SlotView { ice_path: Some("direct"@), ice_path_at: Some(now), ..l.slots[k]->0 };
    lemma_with_lobby(h, lid, LobbyView { slots: l.slots.update(k, Some(d)), ..l });
    let r = SlotView { ice_path: Some("relay"@), ice_path_at: Some(now), ..l.slots[k]->0 };
    lemma_with_lobby(h, lid, LobbyView { slots: l.slots.update(k, Some(r)), ..l });
}

/// Whether the seat `k` of a room, and no other, has a new path.
pub open spec fn reports_path(
    l: LobbyView,
    after: Option<LobbyView>,
    k: int,
    kind: Seq<char>,
    now: u64,
) -> bool {
    &&& after is Some
    &&& after->0.slots.len() == l.slots.len()
    &&& after->0.slots[k] is Some
    &&& after->0.slots[k]->0.player_id == l.slots[k]->0.player_id
    &&& after->0.slots[k]->0.ice_path == Some(kind)
    &&& after->0.slots[k]->0.ice_path_at == Some(now)
    &&& forall|n: int| 0 <= n < l.slots.len() && n != k ==> #[trigger] after->0.slots[n] == l.slots[n]
}

proof fn lemma_plain_paths()
    ensures
        super::input::path_kind("direct"@) == Some("direct"@),
        super::input::path_kind("relay"@) == Some("relay"@),
{
    reveal_strlit("direct");
    reveal_strlit("relay");
    reveal_strlit("host");
    reveal_strlit("srflx");
    reveal_strlit("prflx");
    let e = Seq::<char>::empty();
    let d = "direct"@;
    let r = "relay"@;
    assert(e + d + e =~= d);
    assert(e + r + e =~= r);
    crate::spelling::law_trimming_takes_off_the_ends(e, d, e);
    crate::spelling::law_trimming_takes_off_the_ends(e, r, e);
    assert(crate::text::lowered(d) =~= d);
    assert(crate::text::lowered(r) =~= r);
    assert("srflx"@[0] != r[0] && "prflx"@[0] != r[0]);
    assert(r.len() != "direct"@.len() && r.len() != "host"@.len());
}

/// A round trip that a connection reports is kept for it and for its ticket,
/// none below -1 and none above 2000; no other ticket changes.
pub proof fn law_a_round_trip_is_ones_own(h: HubView, q: QueueView, id: Seq<char>, raw: i64)
    requires
        h.client(id) is Some,
    ensures
        ({
            let (h2, q2, _) = rtt_step(h, q, id, Some(raw));
            let kept = if raw < 0 {
                -1int
            } else if raw > crate::automatch::floors::MAX_REPORTED_RTT_MS {
                crate::automatch::floors::MAX_REPORTED_RTT_MS as int
            } else {
                raw as int
            };
            &&& h2.client(id) is Some && h2.client(id)->0.probe_rtt_ms == kept
            &&& forall|p: Seq<char>| p != id ==> #[trigger] h2.client(p) == h.client(p)
            &&& q2.tickets.len() == q.tickets.len()
            &&& q2.pending == q.pending
            &&& forall|i: int|
                0 <= i < q.tickets.len() ==> if Some(i) == ticket_at(q.tickets, id) {
                    #[trigger] q2.tickets[i].rtt_ms == kept
                } else {
                    q2.tickets[i] == q.tickets[i]
                }
        }),
{
    let kept = crate::automatch::floors::kept_rtt(raw as int);
    lemma_first_where(h.clients, |c: ClientView| c.player_id == id);
    lemma_with_client(h, id, ClientView { probe_rtt_ms: kept as i32, ..h.client(id)->0 });
    crate::find::lemma_first_where(
        q.tickets,
        |t: crate::automatch::queue::TicketView| t.player_id == id,
    );
}

// ---------------------------------------------------------------- transfers

/// Whether a connection waits on the mods of a room.
pub open spec fn waits_on(h: HubView, id: Seq<char>, lid: Seq<char>) -> bool {
    h.client(id) is Some && h.client(id)->0.pending_mod_lobby == Some(lid)
}

/// Whether all that goes out goes to one connection, under one name.
pub open spec fn only_hears(out: Seq<EffectView>, to: Seq<char>, op: Seq<char>) -> bool {
    out.len() == 1 && out[0] is Send && out[0]->Send_to == to && out[0]->Send_msg.get("op"@) == Some(
        JsonView::Str(op),
    )
}

/// Who waits on the mods of a room asks its host for them, in its own name; who
/// waits on none is told so.
pub proof fn law_mods_are_asked_of_the_host(
    h: HubView,
    id: Seq<char>,
    lid: Seq<char>,
    l: LobbyView,
)
    requires
        h.lobby(lid) == Some(l),
        lid.len() > 0,
    ensures
        ({
            let out = xfer_start_step(h, id, lid);
            &&& waits_on(h, id, lid) ==> only_hears(out, l.host_player_id, "mod_xfer_pull"@)
                && out[0]->Send_msg.get("from_player_id"@) == Some(JsonView::Str(id))
                && out[0]->Send_msg.get("lobby_id"@) == Some(JsonView::Str(lid))
            &&& !waits_on(h, id, lid) ==> hears_no(out, id, "need_mods"@)
        }),
{
    broadcast use lemma_with_read;

    lemma_keys();
    lemma_refused(id, "need_mods"@);
}

/// A host speaks to those that wait on its own room's mods, and to nobody else
/// about a transfer.
pub proof fn law_a_host_speaks_to_its_waiters(
    h: HubView,
    from: Seq<char>,
    to: Seq<char>,
    lid: Seq<char>,
    l: LobbyView,
)
    requires
        waits_on(h, to, lid),
        h.lobby(lid) == Some(l),
    ensures
        transfer_peer(h, from, to) == if l.host_player_id == from {
            Ok::<Seq<char>, Seq<char>>(to)
        } else {
            Err("not_host"@)
        },
        l.host_player_id == from ==> only_hears(
            xfer_fail_step(h, from, to, None),
            to,
            "mod_xfer_fail"@,
        ),
{
    broadcast use lemma_with_read;

    lemma_keys();
}

/// A failure that a waiting peer reports goes to the host of the room that it
/// waits on.
pub proof fn law_a_waiter_reports_to_the_host(
    h: HubView,
    id: Seq<char>,
    lid: Seq<char>,
    l: LobbyView,
    error: Seq<char>,
)
    requires
        waits_on(h, id, lid),
        h.lobby(lid) == Some(l),
        h.client(Seq::empty()) is None,
    ensures
        only_hears(
            xfer_fail_step(h, id, Seq::empty(), Some(error)),
            l.host_player_id,
            "mod_xfer_fail"@,
        ),
        xfer_fail_step(h, id, Seq::empty(), Some(error))[0]->Send_msg.get("error"@) == Some(
            JsonView::Str(error),
        ),
{
    broadcast use lemma_with_read;

    lemma_keys();
}

/// A mod signal about a room goes from a waiting peer to the host, from the host
/// to the waiting peer that it names, and from nobody else to anybody.
pub proof fn law_mod_signals_pass_between_two(
    s: LobbyState,
    id: Seq<char>,
    lid: Seq<char>,
    l: LobbyView,
    msg: InMsg,
)
    requires
        s.hub.client(id) is Some,
        opt_view(msg.lobby_id) == Some(lid),
        s.hub.lobby(lid) == Some(l),
    ensures
        ({
            let o = mod_signal_step(s, id, msg);
            let to = text_or_empty(msg.to_player_id);
            &&& o.state.hub == s.hub
            &&& waits_on(s.hub, id, lid) ==> only_hears(
                o.out,
                l.host_player_id,
                "mod_signal"@,
            ) && o.out[0]->Send_msg.get("from_player_id"@) == Some(JsonView::Str(id))
                && o.out[0]->Send_msg.get("text"@) == Some(
                JsonView::Str(text_or_empty(msg.text)),
            )
            &&& !waits_on(s.hub, id, lid) && l.host_player_id == id && to.len() > 0 && waits_on(
                s.hub,
                to,
                lid,
            ) ==> only_hears(o.out, to, "mod_signal"@) && o.out[0]->Send_msg.get(
                "from_player_id"@,
            ) == Some(JsonView::Str(id))
            &&& !waits_on(s.hub, id, lid) && (l.host_player_id != id || !waits_on(s.hub, to, lid))
                ==> o.out.len() == 0
        }),
{
    broadcast use lemma_with_read;

    lemma_keys();
}

// -------------------------------------------------------------- credentials

/// Credentials for the relay name the second at which they end, which is their
/// lifetime from now, and the player that they are for; their password is drawn
/// from that name and the secret. They go to whoever asked.
pub proof fn law_credentials_name_their_end(
    id: Seq<char>,
    uuid: Seq<char>,
    cfg: TurnCredentialConfig,
    now: int,
)
    requires
        uuid_text(id) == Some(uuid),
        now >= 0,
        now + cfg.ttl_secs <= u64::MAX,
    ensures
        ({
            let out = turn_step(id, Some(cfg), now);
            let name = decimal((now + cfg.ttl_secs) as nat).push(':') + uuid;
            &&& out.len() == 2
            &&& out[0] == EffectView::Count(super::wire::EventView::TurnIssued)
            &&& out[1] is Send
            &&& out[1]->Send_to == id
            &&& out[1]->Send_msg.get("ok"@) == Some(JsonView::Bool(true))
            &&& out[1]->Send_msg.get("username"@) == Some(JsonView::Str(name))
            &&& out[1]->Send_msg.get("password"@) == Some(
                JsonView::Str(turn_password(cfg.secret@, name)),
            )
            &&& out[1]->Send_msg.get("ttl_secs"@) == Some(JsonView::Int(cfg.ttl_secs as int))
            &&& out[1]->Send_msg.get("realm"@) == Some(JsonView::Str(cfg.realm@))
        }),
{
    broadcast use lemma_with_read;

    lemma_keys();
    reveal_strlit(":");
    let d = decimal((now + cfg.ttl_secs) as nat);
    assert(d + ":"@ =~= d.push(':'));
}

// -------------------------------------------------------------------- names

/// Who says hello with an account goes by its handle, whatever name came with
/// it; a guest goes by the name that came, and by the one it had where none did.
pub proof fn law_an_account_goes_by_its_handle(
    h: HubView,
    id: Seq<char>,
    msg: InMsg,
    login: Login,
    tag: Seq<char>,
)
    requires
        h.client(id) is Some,
        h.client(id)->0.lobby_id is None,
    ensures
        ({
            let (h2, out) = hello_step(h, id, msg, login, tag);
            let c = h2.client(id)->0;
            let said = opt_view(msg.display_name);
            let game = opt_view(msg.game_name);
            &&& h2.client(id) is Some
            &&& h2.lobbies == h.lobbies
            &&& login matches Login::Account(p) ==> c.display_name == p.handle@ && c.account == Some(
                p@,
            )
            &&& !(login is Account) ==> c.account == h.client(id)->0.account && c.display_name == if said
                is Some && said->0.len() > 0 {
                said->0
            } else {
                h.client(id)->0.display_name
            }
            &&& c.game_name == if game is Some && game->0.len() > 0 {
                game->0
            } else {
                h.client(id)->0.game_name
            }
            &&& forall|p: Seq<char>| p != id ==> #[trigger] h2.client(p) == h.client(p)
            &&& login is Invalid ==> hears_no(out, id, "session_invalid"@)
            &&& hears_name(out, id, c.display_name)
        }),
{
    broadcast use lemma_with_read;

    lemma_keys();
    lemma_refused(id, "session_invalid"@);
    lemma_first_where(h.clients, |c: ClientView| c.player_id == id);
    let c = h.client(id)->0;
    let h1 = match login {
        Login::Account(p) => h.with_client(id, ClientView { account: Some(p@), ..c }),
        _ => h,
    };
    if let Login::Account(p) = login {
        lemma_with_client(h, id, ClientView { account: Some(p@), ..c });
    }
    let c1 = h1.client(id)->0;
    let name = match login {
        Login::Account(p) => Some(p.handle@),
        _ => super::input::nonempty(opt_view(msg.display_name)),
    };
    if let Some(n) = name {
        lemma_with_client(h1, id, ClientView { display_name: n, ..c1 });
    }
    let h2 = h1.renamed(id, name);
    let c2 = h2.client(id)->0;
    if let Some(g) = super::input::nonempty(opt_view(msg.game_name)) {
        lemma_with_client(h2, id, ClientView { game_name: g, ..c2 });
    }
    let out = hello_step(h, id, msg, login, tag).1;
    if login is Invalid {
        assert(out[0] == super::wire::refusal(id, "session_invalid"@)[0]);
        assert(out[1] is Send);
    } else {
        assert(out[0] is Send);
    }
}

/// Whether a connection is told the name that it goes by.
pub open spec fn hears_name(out: Seq<EffectView>, to: Seq<char>, name: Seq<char>) -> bool {
    exists|i: int|
        0 <= i < out.len() && (#[trigger] out[i]) is Send && out[i]->Send_to == to
            && out[i]->Send_msg.get("op"@) == Some(JsonView::Str("hello_ok"@))
            && out[i]->Send_msg.get("display_name"@) == Some(JsonView::Str(name))
}

// ------------------------------------------------------------------ reports

/// A report of one line by somebody with an account is filed against the account
/// that said it, in the reporter's name and with the server's words, unless it is
/// their own line or nobody's; a line that is gone cannot be reported.
pub proof fn law_a_line_can_be_reported(
    h: HubView,
    id: Seq<char>,
    msg: InMsg,
    mid: Seq<char>,
    at: int,
)
    requires
        h.client(id) is Some,
        opt_views(msg.mids) is None,
        opt_view(msg.mid) == Some(mid),
        mid.len() > 0,
        0 <= at < h.chat_ring.len(),
        h.chat_ring[at].id == mid,
        forall|i: int| 0 <= i < at ==> (#[trigger] h.chat_ring[i]).id != mid,
    ensures
        ({
            let out = report_step(h, id, msg);
            let line = h.chat_ring[at];
            let account = h.client(id)->0.account;
            &&& account is None ==> hears_no(out, id, "need_account"@)
            &&& account is Some && (line.from_account.len() == 0 || line.from_account
                == account->0.id) ==> hears_no(out, id, "cannot_report"@)
            &&& account is Some && line.from_account.len() > 0 && line.from_account
                != account->0.id ==> {
                &&& out.len() == 1
                &&& out[0] is Report
                &&& out[0]->report.reporter_id == account->0.id
                &&& out[0]->report.accused_id == line.from_account
                &&& out[0]->report.message_id == mid
                &&& out[0]->report.message_text == line.text
                &&& out[0]->report.accused_name == line.from_name
                &&& out[0]->report.reason == text_or_empty(msg.reason)
                &&& out[0]->report.note == text_or_empty(msg.note)
            }
        }),
{
    lemma_refused(id, "need_account"@);
    lemma_refused(id, "cannot_report"@);
    reveal_with_fuel(named_ids, 2);
    assert(seq![mid].drop_last() =~= Seq::<Seq<char>>::empty());
    assert(reported_ids(None, Some(mid)) =~= seq![mid]);
    lemma_first_where(h.chat_ring, |l: ChatLineView| l.id == mid);
    crate::find::lemma_first_is(h.chat_ring, |l: ChatLineView| l.id == mid, at);
}

/// A report of a divergence by somebody with an account is written down as it was
/// said, for the title that they play; one by a guest is dropped.
pub proof fn law_divergence_is_written_down(h: HubView, id: Seq<char>, msg: InMsg)
    requires
        h.client(id) is Some,
    ensures
        ({
            let out = desync_step(h, id, msg);
            let c = h.client(id)->0;
            &&& c.account is None ==> out.len() == 0
            &&& c.account is Some ==> {
                &&& out.len() == 1
                &&& out[0] is Desync
                &&& out[0]->Desync_account == c.account->0.id
                &&& out[0]->desync.game_name == c.game_name
                &&& out[0]->desync.digest_mine == text_or_empty(msg.mine)
                &&& out[0]->desync.digest_theirs == text_or_empty(msg.theirs)
                &&& msg.tick is Some ==> out[0]->desync.tick == msg.tick->0
                &&& msg.tick is None ==> out[0]->desync.tick == 0
                &&& out[0]->desync.partition == text_or_empty(msg.partition)
                &&& out[0]->desync.role == text_or_empty(msg.role)
                &&& out[0]->desync.lobby_id == text_or_empty(msg.lobby_id)
            }
        }),
{
}

/// Whether somebody in a room other than `skip` goes by a name.
pub open spec fn goes_by(l: LobbyView, name: Seq<char>, skip: Option<Seq<char>>) -> bool {
    exists|i: int|
        0 <= i < l.everyone().len() && (#[trigger] l.everyone()[i]).display_name == name && skip
            != Some(l.everyone()[i].player_id)
}

/// A name that nobody else in the room goes by is kept; one that somebody does
/// gets the lowest number behind it, from two on, that makes it free.
pub proof fn law_a_free_name_is_kept(
    l: LobbyView,
    name: Seq<char>,
    skip: Option<Seq<char>>,
    tag: Seq<char>,
    n: int,
)
    requires
        name.len() > 0,
        !crate::text::is_white(name[0]),
        !crate::text::is_white(name.last()),
        2 <= n <= 64,
        forall|k: int|
            2 <= k < n ==> goes_by(l, #[trigger] super::model::numbered(name, k), skip),
        !goes_by(l, super::model::numbered(name, n), skip),
    ensures
        !goes_by(l, name, skip) ==> l.unique_name(name, skip, tag) == name,
        goes_by(l, name, skip) ==> l.unique_name(name, skip, tag) == name + " ("@ + decimal(
            n as nat,
        ) + ")"@,
        !goes_by(l, "Guest"@, skip) ==> l.unique_name(Seq::empty(), skip, tag) == "Guest"@,
{
    let e = Seq::<char>::empty();
    assert(e + name + e =~= name);
    crate::spelling::law_trimming_takes_off_the_ends(e, name, e);
    assert(e + e + e =~= e);
    crate::spelling::law_trimming_takes_off_the_ends(e, e, e);
    lemma_first_number(l, name, skip, 2, n);
}

proof fn lemma_first_number(
    l: LobbyView,
    name: Seq<char>,
    skip: Option<Seq<char>>,
    from: int,
    n: int,
)
    requires
        2 <= from <= n <= 64,
        forall|k: int|
            from <= k < n ==> goes_by(l, #[trigger] super::model::numbered(name, k), skip),
        !goes_by(l, super::model::numbered(name, n), skip),
    ensures
        l.free_number(name, from, skip) == Some(n),
    decreases n - from,
{
    if from < n {
        assert(goes_by(l, super::model::numbered(name, from), skip));
        let i = choose|i: int|
            0 <= i < l.everyone().len() && (#[trigger] l.everyone()[i]).display_name
                == super::model::numbered(name, from) && skip != Some(l.everyone()[i].player_id);
        assert(l.name_taken(super::model::numbered(name, from), skip));
        lemma_first_number(l, name, skip, from + 1, n);
    }
}

/// Everyone who still waits after a beat is told so: under their ticket, for how
/// long, and at which round trip.
pub proof fn law_the_waiting_are_told(
    h: HubView,
    q: QueueView,
    rules: Seq<crate::automatch::rulesets::RulesetView>,
    c: crate::config::ConfigView,
    ids: Seq<Seq<char>>,
    now: u64,
    i: int,
)
    requires
        0 <= i < super::matching::tick_step(h, q, rules, c, ids, now).0.tickets.len(),
    ensures
        ({
            let (q2, out) = super::matching::tick_step(h, q, rules, c, ids, now);
            hears_status(out, q2.tickets[i], now)
        }),
{
    broadcast use lemma_with_read;

    lemma_keys();
    let (q2, out) = super::matching::tick_step(h, q, rules, c, ids, now);
    let told = super::matching::status_effects(q2, now);
    let k = out.len() - told.len() + i;
    assert(out[k] == told[i]);
    assert(out[k] is Send);
}

/// Whether the owner of a ticket is told how it stands.
pub open spec fn hears_status(
    out: Seq<EffectView>,
    t: crate::automatch::queue::TicketView,
    now: u64,
) -> bool {
    exists|k: int|
        0 <= k < out.len() && (#[trigger] out[k]) is Send && out[k]->Send_to == t.player_id
            && out[k]->Send_msg.get("op"@) == Some(JsonView::Str("automatch_status"@))
            && out[k]->Send_msg.get("ticket_id"@) == Some(JsonView::Str(t.ticket_id))
            && out[k]->Send_msg.get("queued_secs"@) == Some(
            JsonView::Int(crate::automatch::queue::secs(t.queued_at, now)),
        ) && out[k]->Send_msg.get("est_rtt_ms"@) == Some(JsonView::Int(t.rtt_ms as int))
}

/// A reported line comes with what was said before it in its own room, of the
/// six lines before it in all: a row for each such line, with its speaker, and
/// none for another room's.
pub proof fn law_context_is_of_the_same_room(h: HubView, mid: Seq<char>, at: int, k: int)
    requires
        0 <= at < h.chat_ring.len(),
        h.chat_ring[at].id == mid,
        forall|i: int| 0 <= i < at ==> (#[trigger] h.chat_ring[i]).id != mid,
    ensures
        ({
            let line = h.chat_ring[at];
            let start = if at < 6 {
                0
            } else {
                at - 6
            };
            let said = h.chat_ring[k];
            let here = said.scope == line.scope && said.lobby_id == line.lobby_id;
            &&& h.line_with_context(mid) == Some(
                (line, crate::text::joined(h.context_rows(start, at, line), "\n"@)),
            )
            &&& h.context_rows(start, start, line).len() == 0
            &&& start <= k < at && here ==> h.context_rows(start, k + 1, line) == h.context_rows(
                start,
                k,
                line,
            ).push(said.from_name + ": "@ + said.text)
            &&& start <= k < at && !here ==> h.context_rows(start, k + 1, line) == h.context_rows(
                start,
                k,
                line,
            )
        }),
{
    crate::find::lemma_first_is(h.chat_ring, |l: ChatLineView| l.id == mid, at);
}

/// A transcript has a row for each named line that is still there, in the order
/// in which they were named, and none for one that is gone.
pub proof fn law_a_transcript_has_the_named_lines(
    h: HubView,
    ids: Seq<Seq<char>>,
    mid: Seq<char>,
    at: int,
)
    requires
        0 <= at <= h.chat_ring.len(),
        at < h.chat_ring.len() ==> h.chat_ring[at].id == mid,
        forall|i: int| 0 <= i < at ==> (#[trigger] h.chat_ring[i]).id != mid,
    ensures
        super::chat::transcript_rows(h, Seq::empty()).len() == 0,
        super::chat::transcript_rows(h, ids.push(mid)) == if at < h.chat_ring.len() {
            super::chat::transcript_rows(h, ids).push(
                h.chat_ring[at].from_name + ": "@ + h.chat_ring[at].text,
            )
        } else {
            super::chat::transcript_rows(h, ids)
        },
{
    assert(ids.push(mid).drop_last() =~= ids);
    if at < h.chat_ring.len() {
        crate::find::lemma_first_is(h.chat_ring, |l: ChatLineView| l.id == mid, at);
    } else {
        crate::find::lemma_first_none(h.chat_ring, |l: ChatLineView| l.id == mid);
    }
}

/// A report names the ids that are not empty, in their order, up to sixteen.
pub proof fn law_a_report_names_sixteen_lines(ids: Seq<Seq<char>>, mid: Seq<char>)
    ensures
        named_ids(Seq::empty()).len() == 0,
        named_ids(ids).len() <= 16,
        mid.len() > 0 && named_ids(ids).len() < 16 ==> named_ids(ids.push(mid)) == named_ids(
            ids,
        ).push(mid),
        mid.len() == 0 || named_ids(ids).len() == 16 ==> named_ids(ids.push(mid)) == named_ids(ids),
    decreases ids.len(),
{
    assert(ids.push(mid).drop_last() =~= ids);
    if ids.len() > 0 {
        law_a_report_names_sixteen_lines(ids.drop_last(), ids.last());
        assert(ids.drop_last().push(ids.last()) =~= ids);
    }
}

} // verus!
