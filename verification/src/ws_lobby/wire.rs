//! What leaves the hub: messages, lists and the work left to the caller.

use super::model::{
    game_scope_for, player_count, seats_view, ClientMeta, ClientView, HubInner, HubView, Lobby,
    LobbyView, Slot, SlotView, SPECTATOR_SLOT_BASE,
};
use crate::find::{first_where, lemma_first_is, lemma_first_none};
use crate::json::{empty_object, items_view, Json, JsonView};
use crate::moderation::{ChatReport, ChatReportView};
use crate::outside::{lowercase_of, to_lowercase};
use crate::text::{chars_of, first_chars, same, take_chars, views};
use vstd::prelude::*;
use vstd::string::*;

verus! {

/// Something worth counting.
pub enum Event {
    LobbyCreated,
    LobbyDestroyed,
    JoinOk,
    JoinFail(String),
    /// The title and how many players are seated.
    Started(String, usize),
    SignalRelayed,
    TurnIssued,
    Queued,
    Paired,
    Dodge,
}

pub ghost enum EventView {
    LobbyCreated,
    LobbyDestroyed,
    JoinOk,
    JoinFail(Seq<char>),
    Started(Seq<char>, int),
    SignalRelayed,
    TurnIssued,
    Queued,
    Paired,
    Dodge,
}

impl View for Event {
    type V = EventView;

    open spec fn view(&self) -> EventView {
        match self {
            Event::LobbyCreated => EventView::LobbyCreated,
            Event::LobbyDestroyed => EventView::LobbyDestroyed,
            Event::JoinOk => EventView::JoinOk,
            Event::JoinFail(s) => EventView::JoinFail(s@),
            Event::Started(g, n) => EventView::Started(g@, *n as int),
            Event::SignalRelayed => EventView::SignalRelayed,
            Event::TurnIssued => EventView::TurnIssued,
            Event::Queued => EventView::Queued,
            Event::Paired => EventView::Paired,
            Event::Dodge => EventView::Dodge,
        }
    }
}

/// One peer's word that two simulations differed.
pub struct DesyncReport {
    pub lobby_id: String,
    pub game_name: String,
    pub game_version: String,
    pub disc_fp: String,
    pub tick: i64,
    pub partition: String,
    pub digest_mine: String,
    pub digest_theirs: String,
    pub role: String,
    pub mod_exempt: String,
}

#[verifier::ext_equal]
pub ghost struct DesyncView {
    pub lobby_id: Seq<char>,
    pub game_name: Seq<char>,
    pub game_version: Seq<char>,
    pub disc_fp: Seq<char>,
    pub tick: i64,
    pub partition: Seq<char>,
    pub digest_mine: Seq<char>,
    pub digest_theirs: Seq<char>,
    pub role: Seq<char>,
    pub mod_exempt: Seq<char>,
}

impl View for DesyncReport {
    type V = DesyncView;

    open spec fn view(&self) -> DesyncView {
        DesyncView {
            lobby_id: self.lobby_id@,
            game_name: self.game_name@,
            game_version: self.game_version@,
            disc_fp: self.disc_fp@,
            tick: self.tick,
            partition: self.partition@,
            digest_mine: self.digest_mine@,
            digest_theirs: self.digest_theirs@,
            role: self.role@,
            mod_exempt: self.mod_exempt@,
        }
    }
}

/// One thing for the caller to do, in the order of the list.
pub enum Effect {
    /// Send to the connection `to`, where it is still there.
    Send { to: String, msg: Json },
    Count(Event),
    /// Write down that an account walked away from an offer.
    Strike { account: String, kind: String, game: String },
    /// Write down an offered pair.
    Pairing {
        match_id: String,
        game: String,
        ruleset_id: String,
        a: String,
        b: String,
        est_rtt_ms: i64,
    },
    /// Start the lobby once the settle time has passed.
    StartLater { lobby_id: String, match_id: String },
    /// File a chat report of the connection `from`.
    Report { from: String, report: ChatReport },
    /// Store a desync report of an account.
    Desync { account: String, desync: DesyncReport },
    /// Tell the connection `to` that its offer is off, with the cooldown that
    /// its account now has.
    TellDeclined { to: String, account: String },
}

pub ghost enum EffectView {
    Send { to: Seq<char>, msg: JsonView },
    Count(EventView),
    Strike { account: Seq<char>, kind: Seq<char>, game: Seq<char> },
    Pairing {
        match_id: Seq<char>,
        game: Seq<char>,
        ruleset_id: Seq<char>,
        a: Seq<char>,
        b: Seq<char>,
        est_rtt_ms: int,
    },
    StartLater { lobby_id: Seq<char>, match_id: Seq<char> },
    Report { from: Seq<char>, report: ChatReportView },
    Desync { account: Seq<char>, desync: DesyncView },
    TellDeclined { to: Seq<char>, account: Seq<char> },
}

impl View for Effect {
    type V = EffectView;

    open spec fn view(&self) -> EffectView {
        match self {
            Effect::Send { to, msg } => EffectView::Send { to: to@, msg: msg@ },
            Effect::Count(e) => EffectView::Count(e@),
            Effect::Strike { account, kind, game } => EffectView::Strike {
                account: account@,
                kind: kind@,
                game: game@,
            },
            Effect::Pairing { match_id, game, ruleset_id, a, b, est_rtt_ms } => EffectView::Pairing {
                match_id: match_id@,
                game: game@,
                ruleset_id: ruleset_id@,
                a: a@,
                b: b@,
                est_rtt_ms: *est_rtt_ms as int,
            },
            Effect::StartLater { lobby_id, match_id } => EffectView::StartLater {
                lobby_id: lobby_id@,
                match_id: match_id@,
            },
            Effect::Report { from, report } => EffectView::Report { from: from@, report: report@ },
            Effect::Desync { account, desync } => EffectView::Desync {
                account: account@,
                desync: desync@,
            },
            Effect::TellDeclined { to, account } => EffectView::TellDeclined {
                to: to@,
                account: account@,
            },
        }
    }
}

pub open spec fn effects(v: Seq<Effect>) -> Seq<EffectView> {
    v.map_values(|e: Effect| e@)
}

/// One message to one connection.
pub open spec fn sent(to: Seq<char>, msg: JsonView) -> Seq<EffectView> {
    seq![EffectView::Send { to, msg }]
}

/// One message to each of `ids`.
pub open spec fn sent_all(ids: Seq<Seq<char>>, msg: JsonView) -> Seq<EffectView> {
    ids.map_values(|id: Seq<char>| EffectView::Send { to: id, msg })
}

pub open spec fn counted(e: EventView) -> Seq<EffectView> {
    seq![EffectView::Count(e)]
}

pub fn nothing() -> (r: Vec<Effect>)
    ensures
        effects(r@) == Seq::<EffectView>::empty(),
{
    let r: Vec<Effect> = Vec::new();
    proof {
        assert(effects(r@) =~= Seq::<EffectView>::empty());
    }
    r
}

pub fn push_effect(out: &mut Vec<Effect>, e: Effect)
    ensures
        effects(final(out)@) == effects(old(out)@) + seq![e@],
{
    out.push(e);
    proof {
        assert(effects(out@) =~= effects(old(out)@) + seq![e@]);
    }
}

pub fn send_to(out: &mut Vec<Effect>, to: &str, msg: Json)
    ensures
        effects(final(out)@) == effects(old(out)@) + sent(to@, msg@),
{
    push_effect(out, Effect::Send { to: to.to_owned(), msg });
}

pub fn count(out: &mut Vec<Effect>, e: Event)
    ensures
        effects(final(out)@) == effects(old(out)@) + counted(e@),
{
    push_effect(out, Effect::Count(e));
}

pub fn append_effects(out: &mut Vec<Effect>, more: Vec<Effect>)
    ensures
        effects(final(out)@) == effects(old(out)@) + effects(more@),
{
    let ghost added = more@;
    let mut more = more;
    out.append(&mut more);
    proof {
        assert(effects(out@) =~= effects(old(out)@) + effects(added));
    }
}

/// One message, as a list of its own.
pub fn only(to: &str, msg: Json) -> (r: Vec<Effect>)
    ensures
        effects(r@) == sent(to@, msg@),
{
    let mut out = nothing();
    send_to(&mut out, to, msg);
    proof {
        assert(effects(out@) =~= sent(to@, msg@));
    }
    out
}

pub fn send_all(out: &mut Vec<Effect>, ids: &Vec<String>, msg: &Json)
    ensures
        effects(final(out)@) == effects(old(out)@) + sent_all(views(ids@), msg@),
{
    let mut i: usize = 0;
    proof {
        assert(effects(out@) =~= effects(old(out)@) + sent_all(views(ids@), msg@).take(0));
    }
    while i < ids.len()
        invariant
            i <= ids@.len(),
            effects(out@) == effects(old(out)@) + sent_all(views(ids@), msg@).take(i as int),
        decreases ids@.len() - i,
    {
        let ghost before = effects(out@);
        send_to(out, ids[i].as_str(), msg.copy());
        proof {
            let all = sent_all(views(ids@), msg@);
            assert(all[i as int] == EffectView::Send { to: ids@[i as int]@, msg: msg@ });
            assert(all.take(i + 1) =~= all.take(i as int).push(all[i as int]));
            assert(effects(out@) =~= effects(old(out)@) + all.take(i + 1));
        }
        i = i + 1;
    }
    proof {
        assert(sent_all(views(ids@), msg@).take(ids@.len() as int) =~= sent_all(views(ids@), msg@));
    }
}

// --------------------------------------------------------------- the errors

/// `{"op":"error","code":code,"ok":false}`.
pub open spec fn error_msg(code: Seq<char>) -> JsonView {
    empty_object().with("op"@, JsonView::Str("error"@)).with("code"@, JsonView::Str(code)).with(
        "ok"@,
        JsonView::Bool(false),
    )
}

/// The error reply to one connection.
pub open spec fn refusal(to: Seq<char>, code: Seq<char>) -> Seq<EffectView> {
    sent(to, error_msg(code))
}

pub fn am_err(code: &str) -> (r: Json)
    ensures
        r@ == error_msg(code@),
{
    Json::object().with("op", Json::text("error")).with("code", Json::text(code)).with(
        "ok",
        Json::flag(false),
    )
}

pub fn refuse(to: &str, code: &str) -> (r: Vec<Effect>)
    ensures
        effects(r@) == refusal(to@, code@),
{
    only(to, am_err(code))
}

// ------------------------------------------------------------ the seat rows

pub open spec fn with_opt(o: JsonView, key: Seq<char>, value: Option<JsonView>) -> JsonView {
    match value {
        Some(v) => o.with(key, v),
        None => o,
    }
}

fn add_opt(o: Json, key: &str, value: &Option<Json>) -> (r: Json)
    ensures
        r@ == with_opt(o@, key@, crate::json::opt_json(*value)),
{
    match value {
        Some(v) => o.with(key, v.copy()),
        None => o,
    }
}

/// One seat as the room is told of it.
pub open spec fn slot_row(i: int, s: SlotView, account: Seq<char>) -> JsonView {
    let base = empty_object().with("slot"@, JsonView::Int(i)).with(
        "player_id"@,
        JsonView::Str(s.player_id),
    ).with("account"@, JsonView::Str(account)).with("display_name"@, JsonView::Str(s.display_name)).with(
        "ready"@,
        JsonView::Bool(s.ready),
    );
    let offered = with_opt(
        with_opt(with_opt(base, "bios_offer"@, s.bios_offer), "mod_offer"@, s.mod_offer),
        "memcard_offer"@,
        s.memcard_offer,
    );
    if s.country.len() == 0 {
        offered
    } else {
        offered.with("country"@, JsonView::Str(s.country))
    }
}

pub fn slot_json(i: usize, slot: &Slot, account: &str) -> (r: Json)
    ensures
        r@ == slot_row(i as int, slot@, account@),
{
    let base = Json::object().with("slot", Json::count(i as u64)).with(
        "player_id",
        Json::text(slot.player_id.as_str()),
    ).with("account", Json::text(account)).with(
        "display_name",
        Json::text(slot.display_name.as_str()),
    ).with("ready", Json::flag(slot.ready));
    let a = add_opt(base, "bios_offer", &slot.bios_offer);
    let b = add_opt(a, "mod_offer", &slot.mod_offer);
    let c = add_opt(b, "memcard_offer", &slot.memcard_offer);
    if slot.country.as_str().is_empty() {
        c
    } else {
        c.with("country", Json::text(slot.country.as_str()))
    }
}

/// The rows of the occupied seats of one table, numbered from `base`.
pub open spec fn seat_rows(h: HubView, s: Seq<Option<SlotView>>, base: int) -> Seq<JsonView>
    decreases s.len(),
{
    if s.len() == 0 {
        Seq::empty()
    } else {
        match s.last() {
            Some(x) => seat_rows(h, s.drop_last(), base).push(
                slot_row(base + s.len() - 1, x, h.account_of(x.player_id)),
            ),
            None => seat_rows(h, s.drop_last(), base),
        }
    }
}

pub proof fn lemma_items_push(v: Seq<Json>, j: Json)
    ensures
        items_view(v.push(j)) == items_view(v).push(j@),
{
    assert(v.push(j).drop_last() =~= v);
}

pub fn seat_json(h: &HubInner, seats: &Vec<Option<Slot>>, base: usize) -> (r: Vec<Json>)
    requires
        base + seats@.len() <= usize::MAX,
    ensures
        items_view(r@) == seat_rows(h@, seats_view(seats@), base as int),
{
    let ghost all = seats_view(seats@);
    let mut out: Vec<Json> = Vec::new();
    let mut i: usize = 0;
    proof {
        assert(all.take(0) =~= Seq::<Option<SlotView>>::empty());
    }
    while i < seats.len()
        invariant
            i <= seats@.len(),
            base + seats@.len() <= usize::MAX,
            all == seats_view(seats@),
            items_view(out@) == seat_rows(h@, all.take(i as int), base as int),
        decreases seats@.len() - i,
    {
        proof {
            let t = all.take(i + 1);
            assert(t.drop_last() =~= all.take(i as int));
            assert(t.last() == super::model::opt_slot(seats@[i as int]));
        }
        if let Some(s) = &seats[i] {
            let account = h.account_of(s.player_id.as_str());
            let row = slot_json(base + i, s, account.as_str());
            proof {
                lemma_items_push(out@, row);
            }
            out.push(row);
        }
        i = i + 1;
    }
    proof {
        assert(all.take(seats@.len() as int) =~= all);
    }
    out
}

// --------------------------------------------------------- the lobby update

/// The room as everybody in it is told of it.
pub open spec fn update_msg(h: HubView, l: LobbyView) -> JsonView {
    with_opt(
        empty_object().with("op"@, JsonView::Str("lobby_update"@)).with(
            "lobby_id"@,
            JsonView::Str(l.lobby_id),
        ).with("session_id"@, JsonView::Int(l.session_id as int)).with(
            "host_endpoint"@,
            JsonView::Str(l.host_endpoint),
        ).with("lan_endpoints"@, JsonView::Arr(crate::json::text_items(l.lan_endpoints))).with(
            "guest_endpoint"@,
            JsonView::Str(l.guest_endpoint),
        ).with("player_count"@, JsonView::Int(l.player_count())).with(
            "max_slots"@,
            JsonView::Int(l.max_slots as int),
        ).with("host_player_id"@, JsonView::Str(l.host_player_id)).with(
            "all_ready"@,
            JsonView::Bool(l.all_ready()),
        ).with("slots"@, JsonView::Arr(seat_rows(h, l.slots, 0))).with(
            "allow_spectators"@,
            JsonView::Bool(l.allow_spectators),
        ).with("max_spectators"@, JsonView::Int(l.spectators.len() as int)).with(
            "spectator_count"@,
            JsonView::Int(l.spectator_count()),
        ).with("spectator_slot_base"@, JsonView::Int(SPECTATOR_SLOT_BASE as int)).with(
            "spectators"@,
            JsonView::Arr(seat_rows(h, l.spectators, SPECTATOR_SLOT_BASE as int)),
        ),
        "match_caps"@,
        l.match_caps,
    )
}

pub fn update_json(h: &HubInner, l: &Lobby) -> (r: Json)
    requires
        l@.wf(),
    ensures
        r@ == update_msg(h@, l@),
{
    let slots = seat_json(h, &l.slots, 0);
    let spectators = seat_json(h, &l.spectators, SPECTATOR_SLOT_BASE);
    let msg = Json::object().with("op", Json::text("lobby_update")).with(
        "lobby_id",
        Json::text(l.lobby_id.as_str()),
    ).with("session_id", Json::count(l.session_id as u64)).with(
        "host_endpoint",
        Json::text(l.host_endpoint.as_str()),
    ).with("lan_endpoints", Json::texts(&l.lan_endpoints)).with(
        "guest_endpoint",
        Json::text(l.guest_endpoint.as_str()),
    ).with("player_count", Json::count(player_count(l) as u64)).with(
        "max_slots",
        Json::count(l.max_slots as u64),
    ).with("host_player_id", Json::text(l.host_player_id.as_str())).with(
        "all_ready",
        Json::flag(l.all_ready()),
    ).with("slots", Json::Arr(slots)).with("allow_spectators", Json::flag(l.allow_spectators)).with(
        "max_spectators",
        Json::count(l.spectators.len() as u64),
    ).with("spectator_count", Json::count(l.spectator_count() as u64)).with(
        "spectator_slot_base",
        Json::count(SPECTATOR_SLOT_BASE as u64),
    ).with("spectators", Json::Arr(spectators));
    add_opt(msg, "match_caps", &l.match_caps)
}

/// The update that everybody in the room `lid` gets, where there is one.
pub open spec fn lobby_update(h: HubView, lid: Seq<char>) -> Seq<EffectView> {
    match h.lobby(lid) {
        Some(l) => sent_all(l.member_ids(), update_msg(h, l)),
        None => Seq::empty(),
    }
}

pub fn emit_lobby_update(out: &mut Vec<Effect>, h: &HubInner, lid: &str)
    requires
        h@.wf(),
    ensures
        effects(final(out)@) == effects(old(out)@) + lobby_update(h@, lid@),
{
    match h.lobby(lid) {
        Some(l) => {
            let msg = update_json(h, l);
            let ids = l.member_ids();
            send_all(out, &ids, &msg);
        },
        None => {
            proof {
                assert(effects(out@) =~= effects(old(out)@) + lobby_update(h@, lid@));
            }
        },
    }
}

// ------------------------------------------------------------------ the list

/// The order of texts, character by character.
pub open spec fn text_less(a: Seq<char>, b: Seq<char>) -> bool
    decreases b.len(),
{
    if b.len() == 0 {
        false
    } else if a.len() == 0 {
        true
    } else if a[0] != b[0] {
        a[0] < b[0]
    } else {
        text_less(a.skip(1), b.skip(1))
    }
}

pub fn before(a: &str, b: &str) -> (r: bool)
    ensures
        r == text_less(a@, b@),
{
    let x = chars_of(a);
    let y = chars_of(b);
    let mut i: usize = 0;
    proof {
        assert(x@.skip(0) =~= x@);
        assert(y@.skip(0) =~= y@);
    }
    while i < x.len() && i < y.len() && x[i] == y[i]
        invariant
            i <= x@.len(),
            i <= y@.len(),
            x@ == a@,
            y@ == b@,
            text_less(a@, b@) == text_less(x@.skip(i as int), y@.skip(i as int)),
        decreases x@.len() - i,
    {
        proof {
            assert(x@.skip(i as int).skip(1) =~= x@.skip(i + 1));
            assert(y@.skip(i as int).skip(1) =~= y@.skip(i + 1));
        }
        i = i + 1;
    }
    if i == y.len() {
        false
    } else if i == x.len() {
        true
    } else {
        x[i] < y[i]
    }
}

/// Whether the browser shows `l` to somebody who looks for a title and a
/// version; an empty or absent one matches every lobby.
pub open spec fn shown(l: LobbyView, game: Option<Seq<char>>, version: Option<Seq<char>>) -> bool {
    &&& !l.automatch
    &&& game is Some && game->0.len() > 0 ==> l.game_name == game->0
    &&& version is Some && version->0.len() > 0 ==> l.game_version == version->0
}

/// The integer under `key`, where there is one that 64 signed bits hold.
pub open spec fn int_under(caps: Option<JsonView>, key: Seq<char>) -> Option<int> {
    match caps {
        Some(c) => match c.get(key) {
            Some(v) => match v.as_int() {
                Some(n) => if i64::MIN <= n <= i64::MAX {
                    Some(n)
                } else {
                    None
                },
                None => None,
            },
            None => None,
        },
        None => None,
    }
}

pub fn get_int(caps: &Option<Json>, key: &str) -> (r: Option<i64>)
    ensures
        match (r, int_under(crate::json::opt_json(*caps), key@)) {
            (Some(a), Some(b)) => a == b,
            (None, None) => true,
            _ => false,
        },
{
    match caps {
        Some(c) => match c.get(key) {
            Some(v) => v.as_i64(),
            None => None,
        },
        None => None,
    }
}

/// The country of whoever sits as the host.
pub open spec fn host_country(l: LobbyView) -> Seq<char> {
    match first_where(l.everyone(), |s: SlotView| s.player_id == l.host_player_id) {
        Some(i) => l.everyone()[i].country,
        None => Seq::empty(),
    }
}

fn country_of_host(l: &Lobby) -> (r: String)
    ensures
        r@ == host_country(l@),
{
    let all = l.everyone();
    let ghost p = |s: SlotView| s.player_id == l@.host_player_id;
    let mut i: usize = 0;
    while i < all.len()
        invariant
            i <= all@.len(),
            super::model::slots_of(all@) == l@.everyone(),
            forall|k: int| 0 <= k < i ==> (#[trigger] l@.everyone()[k]).player_id != l@.host_player_id,
        decreases all@.len() - i,
    {
        proof {
            assert(super::model::slots_of(all@)[i as int] == all@[i as int]@);
        }
        if same(all[i].player_id.as_str(), l.host_player_id.as_str()) {
            proof {
                lemma_first_is(
                    l@.everyone(),
                    |s: SlotView| s.player_id == l@.host_player_id,
                    i as int,
                );
            }
            return all[i].country.clone();
        }
        i = i + 1;
    }
    proof {
        lemma_first_none(l@.everyone(), |s: SlotView| s.player_id == l@.host_player_id);
    }
    String::new()
}

/// One lobby as the browser shows it.
pub open spec fn lobby_row(l: LobbyView) -> JsonView {
    empty_object().with("lobby_id"@, JsonView::Str(l.lobby_id)).with(
        "name"@,
        JsonView::Str(l.name),
    ).with("game_name"@, JsonView::Str(l.game_name)).with(
        "game_version"@,
        JsonView::Str(l.game_version),
    ).with("player_count"@, JsonView::Int(l.player_count())).with(
        "max_slots"@,
        JsonView::Int(l.max_slots as int),
    ).with("has_password"@, JsonView::Bool(l.password_hash is Some)).with(
        "lobby_kind"@,
        JsonView::Int(
            match int_under(l.match_caps, "lobby_kind"@) {
                Some(n) => n,
                None => 0,
            },
        ),
    ).with("host_endpoint"@, JsonView::Str(l.host_endpoint)).with(
        "lan_endpoints"@,
        JsonView::Arr(crate::json::text_items(l.lan_endpoints)),
    ).with("host_country"@, JsonView::Str(host_country(l))).with(
        "allow_spectators"@,
        JsonView::Bool(l.allow_spectators),
    ).with("max_spectators"@, JsonView::Int(l.spectators.len() as int)).with(
        "spectator_count"@,
        JsonView::Int(l.spectator_count()),
    )
}

fn lobby_row_json(l: &Lobby) -> (r: Json)
    ensures
        r@ == lobby_row(l@),
{
    let kind: i64 = match get_int(&l.match_caps, "lobby_kind") {
        Some(n) => n,
        None => 0,
    };
    let country = country_of_host(l);
    Json::object().with("lobby_id", Json::text(l.lobby_id.as_str())).with(
        "name",
        Json::text(l.name.as_str()),
    ).with("game_name", Json::text(l.game_name.as_str())).with(
        "game_version",
        Json::text(l.game_version.as_str()),
    ).with("player_count", Json::count(player_count(l) as u64)).with(
        "max_slots",
        Json::count(l.max_slots as u64),
    ).with("has_password", Json::flag(l.password_hash.is_some())).with(
        "lobby_kind",
        Json::signed(kind),
    ).with("host_endpoint", Json::text(l.host_endpoint.as_str())).with(
        "lan_endpoints",
        Json::texts(&l.lan_endpoints),
    ).with("host_country", Json::text(country.as_str())).with(
        "allow_spectators",
        Json::flag(l.allow_spectators),
    ).with("max_spectators", Json::count(l.spectators.len() as u64)).with(
        "spectator_count",
        Json::count(l.spectator_count() as u64),
    )
}

/// The rows of the lobbies that are shown, in their order.
pub open spec fn lobby_rows(
    ls: Seq<LobbyView>,
    game: Option<Seq<char>>,
    version: Option<Seq<char>>,
) -> Seq<JsonView>
    decreases ls.len(),
{
    if ls.len() == 0 {
        Seq::empty()
    } else if shown(ls.last(), game, version) {
        lobby_rows(ls.drop_last(), game, version).push(lobby_row(ls.last()))
    } else {
        lobby_rows(ls.drop_last(), game, version)
    }
}

/// One connected client, for the browser's list of who is around.
pub open spec fn player_row(h: HubView, c: ClientView) -> JsonView {
    let lobby = match c.lobby_id {
        Some(id) => h.lobby(id),
        None => None,
    };
    let none: Seq<char> = Seq::empty();
    empty_object().with("display_name"@, JsonView::Str(c.display_name)).with(
        "country"@,
        JsonView::Str(c.country),
    ).with(
        "lobby_id"@,
        JsonView::Str(
            match lobby {
                Some(l) => l.lobby_id,
                None => none,
            },
        ),
    ).with(
        "lobby_name"@,
        JsonView::Str(
            match lobby {
                Some(l) => l.name,
                None => none,
            },
        ),
    ).with("hosting"@, JsonView::Bool(lobby is Some && lobby->0.host_player_id == c.player_id)).with(
        "tag"@,
        JsonView::Str(first_chars(c.player_id, 8)),
    ).with("account"@, JsonView::Str(c.account_id())).with(
        "game_name"@,
        JsonView::Str(c.game_name),
    )
}

fn player_row_json(h: &HubInner, c: &ClientMeta) -> (r: Json)
    ensures
        r@ == player_row(h@, c@),
{
    let lobby: Option<&Lobby> = match &c.lobby_id {
        Some(id) => h.lobby(id.as_str()),
        None => None,
    };
    let (lid, lname, hosting) = match lobby {
        Some(l) => (
            l.lobby_id.clone(),
            l.name.clone(),
            same(l.host_player_id.as_str(), c.player_id.as_str()),
        ),
        None => (String::new(), String::new(), false),
    };
    let account = match &c.account {
        Some(a) => a.id.clone(),
        None => String::new(),
    };
    let tag = take_chars(c.player_id.as_str(), 8);
    Json::object().with("display_name", Json::text(c.display_name.as_str())).with(
        "country",
        Json::text(c.country.as_str()),
    ).with("lobby_id", Json::text(lid.as_str())).with("lobby_name", Json::text(lname.as_str())).with(
        "hosting",
        Json::flag(hosting),
    ).with("tag", Json::text(tag.as_str())).with("account", Json::text(account.as_str())).with(
        "game_name",
        Json::text(c.game_name.as_str()),
    )
}

/// Whether a client of `c`'s title is here for somebody who looks for `game`.
pub open spec fn around(c: ClientView, game: Option<Seq<char>>) -> bool {
    game is Some && game->0.len() > 0 ==> c.game_name == game->0
}

/// `row` put in behind every row whose key does not come after `key`.
pub open spec fn ranked_in(
    rows: Seq<(Seq<char>, JsonView)>,
    key: Seq<char>,
    row: JsonView,
) -> Seq<(Seq<char>, JsonView)> {
    match first_where(rows, |r: (Seq<char>, JsonView)| text_less(key, r.0)) {
        Some(i) => rows.insert(i, (key, row)),
        None => rows.push((key, row)),
    }
}

/// The rows of the clients that are around, by lower-case name.
pub open spec fn ranked(h: HubView, cs: Seq<ClientView>, game: Option<Seq<char>>) -> Seq<
    (Seq<char>, JsonView),
>
    decreases cs.len(),
{
    if cs.len() == 0 {
        Seq::empty()
    } else if around(cs.last(), game) {
        ranked_in(
            ranked(h, cs.drop_last(), game),
            lowercase_of(cs.last().display_name),
            player_row(h, cs.last()),
        )
    } else {
        ranked(h, cs.drop_last(), game)
    }
}

pub open spec fn player_rows(h: HubView, game: Option<Seq<char>>) -> Seq<JsonView> {
    ranked(h, h.clients, game).map_values(|r: (Seq<char>, JsonView)| r.1)
}

/// The lobby list for a title and a version.
pub open spec fn list_msg(h: HubView, game: Option<Seq<char>>, version: Option<Seq<char>>) -> JsonView {
    empty_object().with("op"@, JsonView::Str("lobby_list"@)).with(
        "lobbies"@,
        JsonView::Arr(lobby_rows(h.lobbies, game, version)),
    ).with("players"@, JsonView::Arr(player_rows(h, game)))
}

pub open spec fn opt_str(o: Option<&str>) -> Option<Seq<char>> {
    match o {
        Some(s) => Some(s@),
        None => None,
    }
}

fn matches_filter(value: &str, filter: Option<&str>) -> (r: bool)
    ensures
        r == (opt_str(filter) is Some && opt_str(filter)->0.len() > 0 ==> value@ == opt_str(
            filter,
        )->0),
{
    match filter {
        Some(g) => g.is_empty() || same(value, g),
        None => true,
    }
}

fn rank_player(keys: &mut Vec<String>, rows: &mut Vec<Json>, key: String, row: Json)
    requires
        old(keys)@.len() == old(rows)@.len(),
    ensures
        final(keys)@.len() == final(rows)@.len(),
        pairs(final(keys)@, final(rows)@) == ranked_in(
            pairs(old(keys)@, old(rows)@),
            key@,
            row@,
        ),
{
    let ghost all = pairs(keys@, rows@);
    let mut i: usize = 0;
    while i < keys.len() && !before(key.as_str(), keys[i].as_str())
        invariant
            i <= keys@.len(),
            keys@.len() == rows@.len(),
            all == pairs(keys@, rows@),
            forall|k: int| 0 <= k < i ==> !text_less(key@, (#[trigger] all[k]).0),
        decreases keys@.len() - i,
    {
        proof {
            assert(all[i as int].0 == keys@[i as int]@);
        }
        i = i + 1;
    }
    let ghost p = |r: (Seq<char>, JsonView)| text_less(key@, r.0);
    proof {
        if i < keys@.len() {
            assert(all[i as int].0 == keys@[i as int]@);
            lemma_first_is(all, |r: (Seq<char>, JsonView)| text_less(key@, r.0), i as int);
        } else {
            lemma_first_none(all, |r: (Seq<char>, JsonView)| text_less(key@, r.0));
        }
    }
    if i < keys.len() {
        keys.insert(i, key);
        rows.insert(i, row);
        proof {
            assert(pairs(keys@, rows@) =~= all.insert(i as int, (key@, row@)));
        }
    } else {
        keys.push(key);
        rows.push(row);
        proof {
            assert(pairs(keys@, rows@) =~= all.push((key@, row@)));
        }
    }
}

pub open spec fn pairs(keys: Seq<String>, rows: Seq<Json>) -> Seq<(Seq<char>, JsonView)> {
    Seq::new(keys.len(), |i: int| (keys[i]@, rows[i]@))
}

pub fn lobby_list_json_filtered(
    hub: &HubInner,
    filter_game: Option<&str>,
    filter_version: Option<&str>,
) -> (r: Json)
    ensures
        r@ == list_msg(hub@, opt_str(filter_game), opt_str(filter_version)),
{
    let ghost game = opt_str(filter_game);
    let ghost version = opt_str(filter_version);
    let ghost ls = hub@.lobbies;
    let ghost cs = hub@.clients;
    let mut rows: Vec<Json> = Vec::new();
    let mut i: usize = 0;
    proof {
        assert(ls.take(0) =~= Seq::<LobbyView>::empty());
    }
    while i < hub.lobbies.len()
        invariant
            i <= hub.lobbies@.len(),
            ls == hub@.lobbies,
            game == opt_str(filter_game),
            version == opt_str(filter_version),
            items_view(rows@) == lobby_rows(ls.take(i as int), game, version),
        decreases hub.lobbies@.len() - i,
    {
        let l = &hub.lobbies[i];
        proof {
            let t = ls.take(i + 1);
            assert(t.drop_last() =~= ls.take(i as int));
            assert(t.last() == l@);
        }
        if !l.automatch && matches_filter(l.game_name.as_str(), filter_game) && matches_filter(
            l.game_version.as_str(),
            filter_version,
        ) {
            let row = lobby_row_json(l);
            proof {
                lemma_items_push(rows@, row);
            }
            rows.push(row);
        }
        i = i + 1;
    }
    proof {
        assert(ls.take(hub.lobbies@.len() as int) =~= ls);
        assert(cs.take(0) =~= Seq::<ClientView>::empty());
    }
    let mut keys: Vec<String> = Vec::new();
    let mut players: Vec<Json> = Vec::new();
    let mut k: usize = 0;
    proof {
        assert(pairs(keys@, players@) =~= ranked(hub@, cs.take(0), game));
    }
    while k < hub.clients.len()
        invariant
            k <= hub.clients@.len(),
            cs == hub@.clients,
            game == opt_str(filter_game),
            keys@.len() == players@.len(),
            pairs(keys@, players@) == ranked(hub@, cs.take(k as int), game),
        decreases hub.clients@.len() - k,
    {
        let c = &hub.clients[k];
        proof {
            let t = cs.take(k + 1);
            assert(t.drop_last() =~= cs.take(k as int));
            assert(t.last() == c@);
        }
        if matches_filter(c.game_name.as_str(), filter_game) {
            let row = player_row_json(hub, c);
            let key = to_lowercase(c.display_name.as_str());
            rank_player(&mut keys, &mut players, key, row);
        }
        k = k + 1;
    }
    proof {
        assert(cs.take(hub.clients@.len() as int) =~= cs);
        crate::json::lemma_items(players@);
        assert(items_view(players@) =~= player_rows(hub@, game));
    }
    Json::object().with("op", Json::text("lobby_list")).with("lobbies", Json::Arr(rows)).with(
        "players",
        Json::Arr(players),
    )
}

/// The list as one particular client should see it: its own title, or
/// everything where it has not said one.
pub open spec fn list_for(h: HubView, id: Seq<char>) -> JsonView {
    if h.game_scope(id).len() == 0 {
        list_msg(h, None, None)
    } else {
        list_msg(h, Some(h.game_scope(id)), None)
    }
}

pub fn lobby_list_json_for(g: &HubInner, player_id: &str) -> (r: Json)
    ensures
        r@ == list_for(g@, player_id@),
{
    let scope = game_scope_for(g, player_id);
    if scope.as_str().is_empty() {
        return lobby_list_json_filtered(g, None, None);
    }
    lobby_list_json_filtered(g, Some(scope.as_str()), None)
}

/// Everybody's list to everybody.
pub open spec fn list_push(h: HubView) -> Seq<EffectView> {
    h.clients.map_values(
        |c: ClientView| EffectView::Send { to: c.player_id, msg: list_for(h, c.player_id) },
    )
}

pub fn broadcast_list(out: &mut Vec<Effect>, h: &HubInner)
    ensures
        effects(final(out)@) == effects(old(out)@) + list_push(h@),
{
    let ghost all = list_push(h@);
    let mut i: usize = 0;
    proof {
        assert(effects(out@) =~= effects(old(out)@) + all.take(0));
    }
    while i < h.clients.len()
        invariant
            i <= h.clients@.len(),
            all == list_push(h@),
            effects(out@) == effects(old(out)@) + all.take(i as int),
        decreases h.clients@.len() - i,
    {
        let id = h.clients[i].player_id.as_str();
        let msg = lobby_list_json_for(h, id);
        proof {
            assert(h@.clients[i as int] == h.clients@[i as int]@);
            assert(all[i as int] == EffectView::Send { to: id@, msg: msg@ });
            assert(all.take(i + 1) =~= all.take(i as int) + sent(id@, msg@));
        }
        send_to(out, id, msg);
        proof {
            assert(effects(out@) =~= effects(old(out)@) + all.take(i + 1));
        }
        i = i + 1;
    }
    proof {
        assert(all.take(h.clients@.len() as int) =~= all);
    }
}

} // verus!
