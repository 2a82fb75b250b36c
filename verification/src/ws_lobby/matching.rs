//! Automatch on the wire: queueing, offers, and the room of an accepted pair.

use super::input::{
    disc_fingerprint, nonempty, normalize_disc_fp, normalize_game_version, or_empty,
    rewrite_endpoint, rewritten, text_or_empty, version_of, InMsg, InTitle,
};
use super::join::next_session;
use super::model::{
    ClientView, HubInner, HubView, Lobby, LobbyView, Slot, SlotView, MAX_LOBBIES,
    SPECTATOR_SLOT_BASE,
};
use super::wire::{
    am_err, append_effects, count, counted, effects, emit_lobby_update, error_msg,
    lemma_items_push, lobby_update, nothing, only, push_effect, refusal, refuse, send_to, sent,
    with_opt, Effect, EffectView, Event, EventView,
};
use crate::automatch::floors::{
    caps_with_floor, delay_floor, floor_of, floored, frames_at, frames_for, kept_rtt, sanitize_rtt,
    DelayFloor, PROBE_PKT_TYPE,
};
use crate::automatch::queue::{
    account_queued, answered_step, copy_keys, holds_key, keys_view, match_ids, offer_at,
    offers_by_age, pair_from, pairing, pendings_view, pool, refreshed, removed_step, status,
    ticket_at, tickets_view, KeyView, MatchKey, Pending, PendingView, PlayedView, Queue, QueueView,
    status_row, Ticket, TicketView,
};
use crate::automatch::rulesets::{
    first_unapproved, resolved, rulesets_json, rulesets_msg, unapproved_exemption, Ruleset,
    RulesetView, Rulesets,
};
use crate::config::{Config, ConfigView};
use crate::find::{first_where, lemma_first_is, lemma_first_none, lemma_first_where};
use crate::input_relay::{InputRelay, RelayView};
use crate::json::{empty_object, items_view, Json, JsonView};
use crate::outside::{uuid_shape, uuid_shapes};
use crate::text::{clone_list, opt_view, same, trim, trimmed, views};
use vstd::prelude::*;
use vstd::string::*;

verus! {

/// Every ruleset seats two.
pub open spec fn for_two(rules: Seq<RulesetView>) -> bool {
    forall|i: int| 0 <= i < rules.len() ==> (#[trigger] rules[i]).max_slots == 2
}

proof fn lemma_resolved_for_two(rules: Seq<RulesetView>, game: Seq<char>, id: Seq<char>)
    requires
        for_two(rules),
    ensures
        resolved(rules, game, id) is Some ==> resolved(rules, game, id)->0.max_slots == 2,
{
    crate::automatch::rulesets::law_resolved_answers(rules, game, id);
}

// ------------------------------------------------------------- the request

#[verifier::ext_equal]
pub ghost struct TitleView {
    pub game_name: Seq<char>,
    pub game_version: Seq<char>,
    pub disc_fp: Seq<char>,
    pub ruleset_id: Seq<char>,
    pub max_slots: Option<usize>,
}

impl View for InTitle {
    type V = TitleView;

    open spec fn view(&self) -> TitleView {
        TitleView {
            game_name: self.game_name@,
            game_version: self.game_version@,
            disc_fp: self.disc_fp@,
            ruleset_id: self.ruleset_id@,
            max_slots: self.max_slots,
        }
    }
}

pub open spec fn titles_view(v: Seq<InTitle>) -> Seq<TitleView> {
    v.map_values(|t: InTitle| t@)
}

/// The key of a title, or the code that refuses it.
pub open spec fn title_key(rules: Seq<RulesetView>, t: TitleView) -> Result<KeyView, Seq<char>> {
    let game = trimmed(t.game_name);
    let disc = disc_fingerprint(Some(t.disc_fp));
    let version = version_of(Some(t.game_version));
    if game.len() == 0 {
        Err("unknown_ruleset"@)
    } else {
        match resolved(rules, game, trimmed(t.ruleset_id)) {
            None => Err("unknown_ruleset"@),
            Some(r) => if disc.len() == 0 {
                Err("need_disc_fp"@)
            } else if r.game_version.len() > 0 && r.game_version != version {
                Err("version_not_pooled"@)
            } else if t.max_slots is Some && t.max_slots->0 != 2 {
                Err("slots_not_pooled"@)
            } else {
                Ok(
                    KeyView {
                        game_name: game,
                        game_version: version,
                        disc_fp: disc,
                        ruleset_id: r.id,
                        max_slots: r.max_slots,
                    },
                )
            },
        }
    }
}

/// The keys of the titles that pass, each once, and the first refusal.
pub open spec fn title_keys(rules: Seq<RulesetView>, ts: Seq<TitleView>) -> (
    Seq<KeyView>,
    Option<Seq<char>>,
)
    decreases ts.len(),
{
    if ts.len() == 0 {
        (Seq::empty(), None)
    } else {
        let (keys, err) = title_keys(rules, ts.drop_last());
        match title_key(rules, ts.last()) {
            Ok(k) => (
                if keys.contains(k) {
                    keys
                } else {
                    keys.push(k)
                },
                err,
            ),
            Err(e) => (
                keys,
                if err is Some {
                    err
                } else {
                    Some(e)
                },
            ),
        }
    }
}

/// The keys of a ticket, or the first refusal where no title passes.
pub open spec fn built_keys(rules: Seq<RulesetView>, ts: Seq<TitleView>) -> Result<
    Seq<KeyView>,
    Seq<char>,
> {
    let (keys, err) = title_keys(rules, ts);
    if keys.len() > 0 {
        Ok(keys)
    } else {
        match err {
            Some(e) => Err(e),
            None => Err("unknown_ruleset"@),
        }
    }
}

fn key_for(rules: &Rulesets, t: &InTitle) -> (r: Result<MatchKey, &'static str>)
    ensures
        match (r, title_key(rules@, t@)) {
            (Ok(a), Ok(b)) => a@ == b,
            (Err(a), Err(b)) => a@ == b,
            _ => false,
        },
{
    let game = trim(t.game_name.as_str());
    if game.as_str().is_empty() {
        return Err("unknown_ruleset");
    }
    let id = trim(t.ruleset_id.as_str());
    let rs = match rules.resolve(game.as_str(), id.as_str()) {
        Some(r) => r,
        None => {
            return Err("unknown_ruleset");
        },
    };
    let disc_fp = normalize_disc_fp(&Some(t.disc_fp.clone()));
    if disc_fp.as_str().is_empty() {
        return Err("need_disc_fp");
    }
    let game_version = normalize_game_version(&Some(t.game_version.clone()));
    if !rs.game_version.as_str().is_empty() && !same(
        rs.game_version.as_str(),
        game_version.as_str(),
    ) {
        return Err("version_not_pooled");
    }
    match t.max_slots {
        Some(n) => {
            if n != 2 {
                return Err("slots_not_pooled");
            }
        },
        None => {},
    }
    Ok(
        MatchKey {
            game_name: game,
            game_version,
            disc_fp,
            ruleset_id: rs.id.clone(),
            max_slots: rs.max_slots,
        },
    )
}

/// Turns a client's ticket request into match keys, or says why not.
pub fn build_keys(rules: &Rulesets, titles: &Vec<InTitle>) -> (r: Result<
    Vec<MatchKey>,
    &'static str,
>)
    ensures
        match (r, built_keys(rules@, titles_view(titles@))) {
            (Ok(a), Ok(b)) => keys_view(a@) == b,
            (Err(a), Err(b)) => a@ == b,
            _ => false,
        },
{
    let ghost all = titles_view(titles@);
    let mut keys: Vec<MatchKey> = Vec::new();
    let mut first_err: Option<&'static str> = None;
    let mut i: usize = 0;
    proof {
        assert(all.take(0) =~= Seq::<TitleView>::empty());
        assert(keys_view(keys@) =~= Seq::<KeyView>::empty());
    }
    while i < titles.len()
        invariant
            i <= titles@.len(),
            all == titles_view(titles@),
            (keys_view(keys@), super::wire::opt_str(first_err)) == title_keys(
                rules@,
                all.take(i as int),
            ),
        decreases titles@.len() - i,
    {
        proof {
            let t = all.take(i + 1);
            assert(t.drop_last() =~= all.take(i as int));
            assert(t.last() == titles@[i as int]@);
        }
        match key_for(rules, &titles[i]) {
            Ok(k) => {
                if !holds_key(&keys, &k) {
                    let ghost before = keys@;
                    keys.push(k);
                    proof {
                        assert(keys_view(keys@) =~= keys_view(before).push(k@));
                    }
                }
            },
            Err(e) => {
                if first_err.is_none() {
                    first_err = Some(e);
                }
            },
        }
        i = i + 1;
    }
    proof {
        assert(all.take(titles@.len() as int) =~= all);
        assert(keys_view(keys@).len() == keys@.len());
    }
    if keys.len() == 0 {
        match first_err {
            Some(e) => Err(e),
            None => Err("unknown_ruleset"),
        }
    } else {
        Ok(keys)
    }
}

/// What a ticket asks for: the titles it names, or else the one title of the
/// client with what the message says of it.
pub open spec fn wanted_titles(h: HubView, id: Seq<char>, msg: InMsg) -> Seq<TitleView> {
    if msg.titles is Some && msg.titles->0@.len() > 0 {
        titles_view(msg.titles->0@)
    } else {
        seq![
            TitleView {
                game_name: match h.client(id) {
                    Some(c) => c.game_name,
                    None => Seq::empty(),
                },
                game_version: text_or_empty(msg.game_version),
                disc_fp: text_or_empty(msg.disc_fp),
                ruleset_id: text_or_empty(msg.ruleset_id),
                max_slots: None,
            },
        ]
    }
}

fn copy_titles(v: &Vec<InTitle>) -> (r: Vec<InTitle>)
    ensures
        titles_view(r@) == titles_view(v@),
{
    let mut out: Vec<InTitle> = Vec::new();
    let mut i: usize = 0;
    while i < v.len()
        invariant
            i <= v@.len(),
            titles_view(out@) == titles_view(v@).take(i as int),
        decreases v@.len() - i,
    {
        let t = InTitle {
            game_name: v[i].game_name.clone(),
            game_version: v[i].game_version.clone(),
            disc_fp: v[i].disc_fp.clone(),
            ruleset_id: v[i].ruleset_id.clone(),
            max_slots: v[i].max_slots,
        };
        let ghost before = out@;
        out.push(t);
        proof {
            assert(t@ =~= v@[i as int]@);
            assert(titles_view(out@) =~= titles_view(before).push(t@));
            assert(titles_view(v@).take(i + 1) =~= titles_view(v@).take(i as int).push(t@));
        }
        i = i + 1;
    }
    proof {
        assert(titles_view(v@).take(v@.len() as int) =~= titles_view(v@));
    }
    out
}

// ---------------------------------------------------- declared exemptions

/// What the ruleset that a title resolves to says against the claims.
pub open spec fn title_refusal(rules: Seq<RulesetView>, t: TitleView, claims: Seq<Seq<char>>) -> Option<
    (Seq<char>, Seq<char>),
> {
    match resolved(rules, trimmed(t.game_name), trimmed(t.ruleset_id)) {
        Some(r) => match first_unapproved(r.match_caps, claims) {
            Some(bad) => Some((r.id, bad)),
            None => None,
        },
        None => None,
    }
}

/// The first title whose ruleset does not approve every claim: the ruleset and
/// the claim.
pub open spec fn exemption_refusal(
    rules: Seq<RulesetView>,
    ts: Seq<TitleView>,
    claims: Seq<Seq<char>>,
) -> Option<(Seq<char>, Seq<char>)> {
    match first_where(ts, |t: TitleView| title_refusal(rules, t, claims) is Some) {
        Some(i) => title_refusal(rules, ts[i], claims),
        None => None,
    }
}

pub open spec fn opt_pair(o: Option<(String, String)>) -> Option<(Seq<char>, Seq<char>)> {
    match o {
        Some(p) => Some((p.0@, p.1@)),
        None => None,
    }
}

fn refused_exemption(rules: &Rulesets, titles: &Vec<InTitle>, claims: &Vec<String>) -> (r: Option<
    (String, String),
>)
    ensures
        opt_pair(r) == exemption_refusal(rules@, titles_view(titles@), views(claims@)),
{
    let ghost ts = titles_view(titles@);
    let ghost cs = views(claims@);
    let ghost p = |t: TitleView| title_refusal(rules@, t, cs) is Some;
    let mut i: usize = 0;
    while i < titles.len()
        invariant
            i <= titles@.len(),
            ts == titles_view(titles@),
            cs == views(claims@),
            p == (|t: TitleView| title_refusal(rules@, t, cs) is Some),
            forall|k: int| 0 <= k < i ==> !p(#[trigger] ts[k]),
        decreases titles@.len() - i,
    {
        proof {
            assert(ts[i as int] == titles@[i as int]@);
        }
        let game = trim(titles[i].game_name.as_str());
        let id = trim(titles[i].ruleset_id.as_str());
        if let Some(rs) = rules.resolve(game.as_str(), id.as_str()) {
            if let Some(bad) = unapproved_exemption(&rs.match_caps, claims) {
                proof {
                    lemma_first_is(ts, p, i as int);
                }
                return Some((rs.id.clone(), bad));
            }
        }
        i = i + 1;
    }
    proof {
        lemma_first_none(ts, p);
    }
    None
}

pub open spec fn not_approved_msg(ruleset: Seq<char>, claim: Seq<char>) -> JsonView {
    empty_object().with("op"@, JsonView::Str("error"@)).with(
        "code"@,
        JsonView::Str("mod_not_approved"@),
    ).with("ok"@, JsonView::Bool(false)).with("ruleset_id"@, JsonView::Str(ruleset)).with(
        "mod"@,
        JsonView::Str(claim),
    )
}

// ---------------------------------------------------------------- queueing

/// Where to probe, and with what.
pub open spec fn probe_msg(r: RelayView, c: ConfigView) -> JsonView {
    empty_object().with("endpoint"@, JsonView::Str(r.public_endpoint())).with(
        "magic"@,
        JsonView::Int(c.protocol_magic as int),
    ).with("type"@, JsonView::Int(PROBE_PKT_TYPE as int))
}

fn probe_json(relay: &InputRelay, config: &Config) -> (r: Json)
    ensures
        r@ == probe_msg(relay@, config@),
{
    let ep = relay.advertise_endpoint();
    Json::object().with("endpoint", Json::text(ep.as_str())).with(
        "magic",
        Json::count(config.protocol_magic as u64),
    ).with("type", Json::count(PROBE_PKT_TYPE as u64))
}

/// The reply to `automatch_rulesets`: the title asked about, or else the one
/// the client plays.
pub open spec fn rulesets_step(
    h: HubView,
    rules: Seq<RulesetView>,
    r: RelayView,
    c: ConfigView,
    id: Seq<char>,
    game: Option<Seq<char>>,
) -> Seq<EffectView> {
    let g = match nonempty(game) {
        Some(g) => g,
        None => match h.client(id) {
            Some(c) => c.game_name,
            None => Seq::empty(),
        },
    };
    sent(id, rulesets_msg(rules, g).with("probe"@, probe_msg(r, c)))
}

/// A field as it was sent, or the default where it was not.
pub open spec fn sent_or(o: Option<String>, default: Seq<char>) -> Seq<char> {
    match o {
        Some(s) => s@,
        None => default,
    }
}

fn field_or(o: &Option<String>, default: &str) -> (r: String)
    ensures
        r@ == sent_or(*o, default@),
{
    match o {
        Some(s) => s.clone(),
        None => default.to_owned(),
    }
}

/// The ticket of a signed-in client.
pub open spec fn new_ticket(
    tid: Seq<char>,
    id: Seq<char>,
    c: ClientView,
    keys: Seq<KeyView>,
    msg: InMsg,
    now: u64,
) -> TicketView {
    let a = c.account->0;
    TicketView {
        ticket_id: tid,
        player_id: id,
        account_id: a.id,
        handle: a.handle,
        username: a.discord_username,
        avatar: a.avatar,
        country: c.country,
        keys,
        host_bind: sent_or(msg.host_bind, "0.0.0.0:7777"@),
        guest_bind: sent_or(msg.guest_bind, "0.0.0.0:7778"@),
        queued_at: now,
        rtt_ms: match msg.rtt_ms {
            Some(v) => kept_rtt(v as int) as i32,
            None => c.probe_rtt_ms,
        },
    }
}

/// One title of a queue message, with how many others wait for it.
pub open spec fn pool_row(k: KeyView, n: int) -> JsonView {
    empty_object().with("game_name"@, JsonView::Str(k.game_name)).with(
        "ruleset_id"@,
        JsonView::Str(k.ruleset_id),
    ).with("pool"@, JsonView::Int(n))
}

pub open spec fn pool_rows(q: QueueView, keys: Seq<KeyView>, account: Seq<char>) -> Seq<JsonView> {
    keys.map_values(|k: KeyView| pool_row(k, pool(q.tickets, k, account)))
}

/// What a ticket that stands is answered.
pub open spec fn queued_msg(
    tid: Seq<char>,
    q: QueueView,
    keys: Seq<KeyView>,
    account: Seq<char>,
    r: RelayView,
    c: ConfigView,
) -> JsonView {
    empty_object().with("op"@, JsonView::Str("automatch_queued"@)).with(
        "ok"@,
        JsonView::Bool(true),
    ).with("ticket_id"@, JsonView::Str(tid)).with(
        "titles"@,
        JsonView::Arr(pool_rows(q, keys, account)),
    ).with("probe"@, probe_msg(r, c))
}

pub open spec fn cooldown_msg(secs: int) -> JsonView {
    error_msg("cooldown"@).with("retry_secs"@, JsonView::Int(secs))
}

pub open spec fn claims_of(msg: InMsg) -> Seq<Seq<char>> {
    match msg.mod_exempt {
        Some(v) => views(v@),
        None => Seq::empty(),
    }
}

/// What a request for a ticket does: the queue after it, the reply, and
/// whether the ticket stands. `tid` names it, and `cool` is the cooldown that
/// the account has left.
pub open spec fn queue_step(
    h: HubView,
    q: QueueView,
    rules: Seq<RulesetView>,
    r: RelayView,
    c: ConfigView,
    id: Seq<char>,
    msg: InMsg,
    tid: Seq<char>,
    cool: u64,
    now: u64,
) -> (QueueView, Seq<EffectView>, bool) {
    if rules.len() == 0 {
        (q, refusal(id, "automatch_off"@), false)
    } else {
        match h.client(id) {
            None => (q, Seq::empty(), false),
            Some(client) => if client.account is None {
                (q, refusal(id, "need_account"@), false)
            } else if client.lobby_id is Some {
                (q, refusal(id, "already_in_lobby"@), false)
            } else if account_queued(q, client.account->0.id) {
                (q, refusal(id, "already_queued"@), false)
            } else if msg.mods_enabled == Some(true) {
                (q, refusal(id, "mods_not_pooled"@), false)
            } else {
                let titles = wanted_titles(h, id, msg);
                match built_keys(rules, titles) {
                    Err(code) => (q, refusal(id, code), false),
                    Ok(keys) => match exemption_refusal(rules, titles, claims_of(msg)) {
                        Some((rid, claim)) => (q, sent(id, not_approved_msg(rid, claim)), false),
                        None => if cool > 0 {
                            (q, sent(id, cooldown_msg(cool as int)), false)
                        } else if q.tickets.len() >= c.automatch_queue_max {
                            (q, refusal(id, "queue_full"@), false)
                        } else {
                            let q2 = QueueView {
                                tickets: q.tickets.push(new_ticket(tid, id, client, keys, msg, now)),
                                ..q
                            };
                            (
                                q2,
                                sent(id, queued_msg(tid, q2, keys, client.account->0.id, r, c))
                                    + counted(EventView::Queued),
                                true,
                            )
                        },
                    },
                }
            },
        }
    }
}

fn pool_json(k: &MatchKey, n: usize) -> (r: Json)
    ensures
        r@ == pool_row(k@, n as int),
{
    Json::object().with("game_name", Json::text(k.game_name.as_str())).with(
        "ruleset_id",
        Json::text(k.ruleset_id.as_str()),
    ).with("pool", Json::count(n as u64))
}

fn pools_json(q: &Queue, keys: &Vec<MatchKey>, account: &str) -> (r: Vec<Json>)
    ensures
        items_view(r@) == pool_rows(q@, keys_view(keys@), account@),
{
    let ghost all = keys_view(keys@);
    let mut out: Vec<Json> = Vec::new();
    let mut i: usize = 0;
    while i < keys.len()
        invariant
            i <= keys@.len(),
            all == keys_view(keys@),
            items_view(out@) == pool_rows(q@, all.take(i as int), account@),
        decreases keys@.len() - i,
    {
        let n: usize = q.pool_for(&keys[i], account);
        let row = pool_json(&keys[i], n);
        proof {
            lemma_items_push(out@, row);
            assert(all[i as int] == keys@[i as int]@);
            assert(pool_rows(q@, all.take(i + 1), account@) =~= pool_rows(
                q@,
                all.take(i as int),
                account@,
            ).push(row@));
        }
        out.push(row);
        i = i + 1;
    }
    proof {
        assert(all.take(keys@.len() as int) =~= all);
    }
    out
}

impl HubInner {
    pub fn handle_automatch_rulesets(
        &self,
        rules: &Rulesets,
        relay: &InputRelay,
        config: &Config,
        player_id: &str,
        msg: &InMsg,
    ) -> (r: Vec<Effect>)
        ensures
            effects(r@) == rulesets_step(
                self@,
                rules@,
                relay@,
                config@,
                player_id@,
                opt_view(msg.game_name),
            ),
    {
        let game = match super::input::if_nonempty(&msg.game_name) {
            Some(g) => g,
            None => match self.client(player_id) {
                Some(c) => c.game_name.clone(),
                None => String::new(),
            },
        };
        let payload = rulesets_json(rules, game.as_str()).with("probe", probe_json(relay, config));
        only(player_id, payload)
    }

    fn titles_of(&self, player_id: &str, msg: &InMsg) -> (r: Vec<InTitle>)
        ensures
            titles_view(r@) == wanted_titles(self@, player_id@, *msg),
    {
        if let Some(v) = &msg.titles {
            if v.len() > 0 {
                return copy_titles(v);
            }
        }
        let game = match self.client(player_id) {
            Some(c) => c.game_name.clone(),
            None => String::new(),
        };
        let mut out: Vec<InTitle> = Vec::new();
        out.push(
            InTitle {
                game_name: game,
                game_version: or_empty(&msg.game_version),
                disc_fp: or_empty(&msg.disc_fp),
                ruleset_id: or_empty(&msg.ruleset_id),
                max_slots: None,
            },
        );
        proof {
            assert(titles_view(out@) =~= wanted_titles(self@, player_id@, *msg));
        }
        out
    }

    /// Takes a ticket in, or says why not. Where the ticket stands, pairs are
    /// due to be formed.
    pub fn handle_automatch_queue(
        &self,
        queue: &mut Queue,
        rules: &Rulesets,
        relay: &InputRelay,
        config: &Config,
        player_id: &str,
        msg: &InMsg,
        ticket_id: &str,
        cool: u64,
        now: u64,
    ) -> (r: (Vec<Effect>, bool))
        ensures
            (final(queue)@, effects(r.0@), r.1) == queue_step(
                self@,
                old(queue)@,
                rules@,
                relay@,
                config@,
                player_id@,
                *msg,
                ticket_id@,
                cool,
                now,
            ),
    {
        if rules.is_empty() {
            return (refuse(player_id, "automatch_off"), false);
        }
        let c = match self.client(player_id) {
            Some(c) => c,
            None => {
                return (nothing(), false);
            },
        };
        let account = match &c.account {
            Some(a) => a,
            None => {
                return (refuse(player_id, "need_account"), false);
            },
        };
        if c.lobby_id.is_some() {
            return (refuse(player_id, "already_in_lobby"), false);
        }
        if queue.is_queued_account(account.id.as_str()) {
            return (refuse(player_id, "already_queued"), false);
        }
        match msg.mods_enabled {
            Some(true) => {
                return (refuse(player_id, "mods_not_pooled"), false);
            },
            _ => {},
        }
        let titles = self.titles_of(player_id, msg);
        let keys = match build_keys(rules, &titles) {
            Ok(k) => k,
            Err(code) => {
                return (refuse(player_id, code), false);
            },
        };
        let claims: Vec<String> = match &msg.mod_exempt {
            Some(v) => clone_list(v),
            None => Vec::new(),
        };
        proof {
            assert(views(claims@) =~= claims_of(*msg));
        }
        if let Some((rid, claim)) = refused_exemption(rules, &titles, &claims) {
            let note = Json::object().with("op", Json::text("error")).with(
                "code",
                Json::text("mod_not_approved"),
            ).with("ok", Json::flag(false)).with("ruleset_id", Json::text(rid.as_str())).with(
                "mod",
                Json::text(claim.as_str()),
            );
            return (only(player_id, note), false);
        }
        if cool > 0 {
            let note = am_err("cooldown").with("retry_secs", Json::count(cool));
            return (only(player_id, note), false);
        }
        if queue.waiting() as u64 >= config.automatch_queue_max {
            return (refuse(player_id, "queue_full"), false);
        }
        let rtt: i32 = match msg.rtt_ms {
            Some(v) => sanitize_rtt(v),
            None => c.probe_rtt_ms,
        };
        let t = Ticket {
            ticket_id: ticket_id.to_owned(),
            player_id: player_id.to_owned(),
            account_id: account.id.clone(),
            handle: account.handle.clone(),
            username: account.discord_username.clone(),
            avatar: account.avatar.clone(),
            country: c.country.clone(),
            keys: copy_keys(&keys),
            host_bind: field_or(&msg.host_bind, "0.0.0.0:7777"),
            guest_bind: field_or(&msg.guest_bind, "0.0.0.0:7778"),
            queued_at: now,
            rtt_ms: rtt,
        };
        proof {
            assert(t@ =~= new_ticket(ticket_id@, player_id@, c@, keys_view(keys@), *msg, now));
        }
        queue.push(t);
        let rows = pools_json(queue, &keys, account.id.as_str());
        let reply = Json::object().with("op", Json::text("automatch_queued")).with(
            "ok",
            Json::flag(true),
        ).with("ticket_id", Json::text(ticket_id)).with("titles", Json::Arr(rows)).with(
            "probe",
            probe_json(relay, config),
        );
        let mut out = only(player_id, reply);
        count(&mut out, Event::Queued);
        (out, true)
    }
}

// -------------------------------------------------------------- measuring

pub open spec fn rtt_ok_msg(rtt: int) -> JsonView {
    empty_object().with("op"@, JsonView::Str("automatch_rtt_ok"@)).with("ok"@, JsonView::Bool(true)).with(
        "rtt_ms"@,
        JsonView::Int(rtt),
    )
}

/// What a reported round trip does: it lands on the connection, and on its
/// ticket where it waits.
pub open spec fn rtt_step(h: HubView, q: QueueView, id: Seq<char>, raw: Option<i64>) -> (
    HubView,
    QueueView,
    Seq<EffectView>,
) {
    let rtt = kept_rtt(match raw {
        Some(v) => v as int,
        None => -1,
    });
    (
        match h.client(id) {
            Some(c) => h.with_client(id, ClientView { probe_rtt_ms: rtt as i32, ..c }),
            None => h,
        },
        match ticket_at(q.tickets, id) {
            Some(i) => QueueView {
                tickets: q.tickets.update(
                    i,
                    TicketView { rtt_ms: rtt as i32, ..q.tickets[i] },
                ),
                ..q
            },
            None => q,
        },
        sent(id, rtt_ok_msg(rtt)),
    )
}

impl HubInner {
    pub fn handle_automatch_rtt(&mut self, queue: &mut Queue, player_id: &str, msg: &InMsg) -> (r:
        Vec<Effect>)
        requires
            old(self)@.wf(),
        ensures
            final(self)@.wf(),
            (final(self)@, final(queue)@, effects(r@)) == rtt_step(
                old(self)@,
                old(queue)@,
                player_id@,
                msg.rtt_ms,
            ),
    {
        let rtt: i32 = match msg.rtt_ms {
            Some(v) => sanitize_rtt(v),
            None => -1,
        };
        match self.client_index(player_id) {
            Some(i) => {
                self.client_mut(i).probe_rtt_ms = rtt;
            },
            None => {},
        }
        let _ = queue.set_rtt(player_id, rtt);
        only(
            player_id,
            Json::object().with("op", Json::text("automatch_rtt_ok")).with("ok", Json::flag(true)).with(
                "rtt_ms",
                Json::signed(rtt as i64),
            ),
        )
    }
}

// --------------------------------------------------------------- declining

pub open spec fn requeue_msg(reason: Seq<char>, queued: bool) -> JsonView {
    empty_object().with("op"@, JsonView::Str("automatch_requeue"@)).with(
        "ok"@,
        JsonView::Bool(true),
    ).with("reason"@, JsonView::Str(reason)).with("queued"@, JsonView::Bool(queued))
}

fn requeue_json(reason: &str, queued: bool) -> (r: Json)
    ensures
        r@ == requeue_msg(reason@, queued),
{
    Json::object().with("op", Json::text("automatch_requeue")).with("ok", Json::flag(true)).with(
        "reason",
        Json::text(reason),
    ).with("queued", Json::flag(queued))
}

pub open spec fn cancelled_msg(reason: Seq<char>) -> JsonView {
    empty_object().with("op"@, JsonView::Str("automatch_cancelled"@)).with(
        "ok"@,
        JsonView::Bool(true),
    ).with("reason"@, JsonView::Str(reason))
}

fn cancelled_json(reason: &str) -> (r: Json)
    ensures
        r@ == cancelled_msg(reason@),
{
    Json::object().with("op", Json::text("automatch_cancelled")).with("ok", Json::flag(true)).with(
        "reason",
        Json::text(reason),
    )
}

/// What a decliner is told, with the cooldown that the account now has.
pub fn declined_json(cooldown_secs: u64) -> (r: Json)
    ensures
        r@ == cancelled_msg("declined"@).with(
            "cooldown_secs"@,
            JsonView::Int(cooldown_secs as int),
        ),
{
    cancelled_json("declined").with("cooldown_secs", Json::count(cooldown_secs))
}

/// The ticket back at the front of the queue, as it was.
pub open spec fn put_back(q: QueueView, t: TicketView) -> QueueView {
    QueueView { tickets: q.tickets.insert(0, t), ..q }
}

/// What a declined offer does: the one who said no is charged, and the other
/// goes back to the front where the connection is still there.
pub open spec fn declined_step(
    h: HubView,
    q: QueueView,
    p: PendingView,
    loser: Seq<char>,
    kind: Seq<char>,
) -> (QueueView, Seq<EffectView>) {
    let (bad, other) = if p.a.player_id == loser {
        (p.a, p.b)
    } else {
        (p.b, p.a)
    };
    let charged = seq![
        EffectView::Strike { account: bad.account_id, kind, game: p.key.game_name },
        EffectView::Count(EventView::Dodge),
        EffectView::TellDeclined { to: bad.player_id, account: bad.account_id },
    ];
    if h.client(other.player_id) is Some {
        (
            put_back(q, other),
            charged + sent(
                other.player_id,
                requeue_msg(
                    if kind == "decline"@ {
                        "peer_declined"@
                    } else {
                        "peer_timeout"@
                    },
                    true,
                ),
            ),
        )
    } else {
        (q, charged)
    }
}

impl HubInner {
    /// One side said no, or vanished.
    pub fn settle_declined(
        &self,
        queue: &mut Queue,
        p: &Pending,
        loser_player_id: &str,
        kind: &str,
    ) -> (r: Vec<Effect>)
        ensures
            (final(queue)@, effects(r@)) == declined_step(
                self@,
                old(queue)@,
                p@,
                loser_player_id@,
                kind@,
            ),
    {
        let (bad, other) = if same(p.a.player_id.as_str(), loser_player_id) {
            (&p.a, &p.b)
        } else {
            (&p.b, &p.a)
        };
        let mut out = nothing();
        push_effect(
            &mut out,
            Effect::Strike {
                account: bad.account_id.clone(),
                kind: kind.to_owned(),
                game: p.key.game_name.clone(),
            },
        );
        count(&mut out, Event::Dodge);
        push_effect(
            &mut out,
            Effect::TellDeclined { to: bad.player_id.clone(), account: bad.account_id.clone() },
        );
        let ghost charged = effects(out@);
        proof {
            assert(charged =~= seq![
                EffectView::Strike {
                    account: bad@.account_id,
                    kind: kind@,
                    game: p@.key.game_name,
                },
                EffectView::Count(EventView::Dodge),
                EffectView::TellDeclined { to: bad@.player_id, account: bad@.account_id },
            ]);
        }
        if self.client_index(other.player_id.as_str()).is_some() {
            queue.requeue_front(other.copy());
            let reason = if same(kind, "decline") {
                "peer_declined"
            } else {
                "peer_timeout"
            };
            send_to(&mut out, other.player_id.as_str(), requeue_json(reason, true));
        }
        out
    }
}

/// What leaving the queue does. Leaving while a pair is on offer is a decline.
pub open spec fn dropped_step(h: HubView, q: QueueView, id: Seq<char>) -> (
    QueueView,
    Seq<EffectView>,
) {
    let (q2, p) = removed_step(q, id);
    match p {
        Some(p) => declined_step(h, q2, p, id, "timeout"@),
        None => (q2, Seq::empty()),
    }
}

pub open spec fn cancel_step(h: HubView, q: QueueView, id: Seq<char>) -> (
    QueueView,
    Seq<EffectView>,
) {
    let (q2, e) = dropped_step(h, q, id);
    (q2, e + sent(id, cancelled_msg("cancelled"@)))
}

impl HubInner {
    /// Takes a connection out of the queue and out of its offer.
    pub fn drop_from_queue(&self, queue: &mut Queue, player_id: &str) -> (r: Vec<Effect>)
        ensures
            (final(queue)@, effects(r@)) == dropped_step(self@, old(queue)@, player_id@),
    {
        match queue.remove_player(player_id) {
            Some(p) => self.settle_declined(queue, &p, player_id, "timeout"),
            None => nothing(),
        }
    }

    pub fn handle_automatch_cancel(&self, queue: &mut Queue, player_id: &str) -> (r: Vec<
        Effect,
    >)
        ensures
            (final(queue)@, effects(r@)) == cancel_step(self@, old(queue)@, player_id@),
    {
        let mut out = self.drop_from_queue(queue, player_id);
        send_to(&mut out, player_id, cancelled_json("cancelled"));
        out
    }
}

// ---------------------------------------------------------------- offering

/// The estimate that an offer shows: the two round trips together, or -1.
pub open spec fn estimate(p: PendingView) -> int {
    if p.a.rtt_ms >= 0 && p.b.rtt_ms >= 0 {
        p.a.rtt_ms + p.b.rtt_ms
    } else {
        -1
    }
}

/// What a pair's match runs under a ruleset.
pub open spec fn pair_floor(r: RulesetView, p: PendingView) -> DelayFloor {
    floor_of(
        r.match_caps,
        p.a.rtt_ms,
        p.b.rtt_ms,
        frames_at(r.frames, p.a.rtt_ms, p.b.rtt_ms),
    )
}

/// The offer of `p` as the one who plays `them` gets it.
pub open spec fn found_msg(
    rs: Option<RulesetView>,
    p: PendingView,
    them: TicketView,
    accept_secs: u64,
) -> JsonView {
    let base = empty_object().with("op"@, JsonView::Str("automatch_found"@)).with(
        "ok"@,
        JsonView::Bool(true),
    ).with("match_id"@, JsonView::Str(p.match_id)).with(
        "game_name"@,
        JsonView::Str(p.key.game_name),
    ).with("game_version"@, JsonView::Str(p.key.game_version)).with(
        "ruleset_id"@,
        JsonView::Str(p.key.ruleset_id),
    ).with(
        "ruleset_label"@,
        JsonView::Str(
            match rs {
                Some(r) => r.label,
                None => Seq::empty(),
            },
        ),
    ).with(
        "opponent"@,
        empty_object().with("handle"@, JsonView::Str(them.handle)).with(
            "discord_username"@,
            JsonView::Str(them.username),
        ).with("avatar"@, JsonView::Str(them.avatar)).with("country"@, JsonView::Str(them.country)),
    ).with("est_rtt_ms"@, JsonView::Int(estimate(p))).with(
        "accept_secs"@,
        JsonView::Int(accept_secs as int),
    );
    match rs {
        Some(r) => {
            let f = pair_floor(r, p);
            base.with("input_delay"@, JsonView::Int(f.input_delay as int)).with(
                "input_prediction"@,
                JsonView::Int(f.input_prediction as int),
            ).with("frames_needed"@, JsonView::Int(f.needed as int)).with(
                "match_caps"@,
                floored(r.match_caps, f),
            )
        },
        None => base,
    }
}

/// What offering a pair does: it is written down and both sides are told.
pub open spec fn offer_effects(rules: Seq<RulesetView>, c: ConfigView, p: PendingView) -> Seq<
    EffectView,
> {
    let rs = resolved(rules, p.key.game_name, p.key.ruleset_id);
    seq![
        EffectView::Pairing {
            match_id: p.match_id,
            game: p.key.game_name,
            ruleset_id: p.key.ruleset_id,
            a: p.a.account_id,
            b: p.b.account_id,
            est_rtt_ms: estimate(p),
        },
        EffectView::Send {
            to: p.a.player_id,
            msg: found_msg(rs, p, p.b, c.automatch_accept_secs),
        },
        EffectView::Send {
            to: p.b.player_id,
            msg: found_msg(rs, p, p.a, c.automatch_accept_secs),
        },
        EffectView::Count(EventView::Paired),
    ]
}

pub open spec fn offers_effects(rules: Seq<RulesetView>, c: ConfigView, ps: Seq<PendingView>) -> Seq<
    EffectView,
>
    decreases ps.len(),
{
    if ps.len() == 0 {
        Seq::empty()
    } else {
        offers_effects(rules, c, ps.drop_last()) + offer_effects(rules, c, ps.last())
    }
}

/// The waiting connections that are gone or sit in a room.
pub open spec fn busy_players(h: HubView, ts: Seq<TicketView>) -> Seq<Seq<char>>
    decreases ts.len(),
{
    if ts.len() == 0 {
        Seq::empty()
    } else {
        let id = ts.last().player_id;
        if h.client(id) is None || h.client(id)->0.lobby_id is Some {
            busy_players(h, ts.drop_last()).push(id)
        } else {
            busy_players(h, ts.drop_last())
        }
    }
}

/// The queue and the offers once every pair that can be formed is, under `ids`.
pub open spec fn pairing_step(
    h: HubView,
    q: QueueView,
    rules: Seq<RulesetView>,
    c: ConfigView,
    ids: Seq<Seq<char>>,
    now: u64,
) -> (QueueView, Seq<EffectView>) {
    let cooldown = c.automatch_rematch_cooldown_secs;
    let (q2, ps) = pairing(
        refreshed(q, cooldown, now),
        ids,
        cooldown,
        now,
        busy_players(h, q.tickets),
    );
    (q2, offers_effects(rules, c, ps))
}

fn found_json(
    rs: Option<&Ruleset>,
    floor: DelayFloor,
    p: &Pending,
    them: &Ticket,
    est: i64,
    accept_secs: u64,
) -> (r: Json)
    requires
        est == estimate(p@),
        rs matches Some(x) ==> floor == pair_floor(x@, p@),
    ensures
        r@ == found_msg(
            match rs {
                Some(x) => Some(x@),
                None => None,
            },
            p@,
            them@,
            accept_secs,
        ),
{
    let label: String = match rs {
        Some(x) => x.label.clone(),
        None => String::new(),
    };
    let opponent = Json::object().with("handle", Json::text(them.handle.as_str())).with(
        "discord_username",
        Json::text(them.username.as_str()),
    ).with("avatar", Json::text(them.avatar.as_str())).with(
        "country",
        Json::text(them.country.as_str()),
    );
    let base = Json::object().with("op", Json::text("automatch_found")).with(
        "ok",
        Json::flag(true),
    ).with("match_id", Json::text(p.match_id.as_str())).with(
        "game_name",
        Json::text(p.key.game_name.as_str()),
    ).with("game_version", Json::text(p.key.game_version.as_str())).with(
        "ruleset_id",
        Json::text(p.key.ruleset_id.as_str()),
    ).with("ruleset_label", Json::text(label.as_str())).with("opponent", opponent).with(
        "est_rtt_ms",
        Json::signed(est),
    ).with("accept_secs", Json::count(accept_secs));
    match rs {
        Some(x) => base.with("input_delay", Json::count(floor.input_delay as u64)).with(
            "input_prediction",
            Json::count(floor.input_prediction as u64),
        ).with("frames_needed", Json::count(floor.needed as u64)).with(
            "match_caps",
            caps_with_floor(&x.match_caps, floor),
        ),
        None => base,
    }
}

fn floor_for(rs: &Ruleset, p: &Pending) -> (r: DelayFloor)
    ensures
        r == pair_floor(rs@, p@),
{
    let needed: u32 = frames_for(&rs.frames, p.a.rtt_ms, p.b.rtt_ms);
    delay_floor(&rs.match_caps, p.a.rtt_ms, p.b.rtt_ms, needed)
}

/// Offers a formed pair to both sides.
pub fn offer_pair(rules: &Rulesets, config: &Config, p: &Pending) -> (r: Vec<Effect>)
    ensures
        effects(r@) == offer_effects(rules@, config@, p@),
{
    let rs = rules.resolve(p.key.game_name.as_str(), p.key.ruleset_id.as_str());
    let est: i64 = if p.a.rtt_ms >= 0 && p.b.rtt_ms >= 0 {
        p.a.rtt_ms as i64 + p.b.rtt_ms as i64
    } else {
        -1
    };
    let floor = match rs {
        Some(x) => floor_for(x, p),
        None => DelayFloor { input_delay: 0, input_prediction: 0, needed: 0 },
    };
    let mut out = nothing();
    push_effect(
        &mut out,
        Effect::Pairing {
            match_id: p.match_id.clone(),
            game: p.key.game_name.clone(),
            ruleset_id: p.key.ruleset_id.clone(),
            a: p.a.account_id.clone(),
            b: p.b.account_id.clone(),
            est_rtt_ms: est,
        },
    );
    let to_a = found_json(rs, floor, p, &p.b, est, config.automatch_accept_secs);
    let to_b = found_json(rs, floor, p, &p.a, est, config.automatch_accept_secs);
    send_to(&mut out, p.a.player_id.as_str(), to_a);
    send_to(&mut out, p.b.player_id.as_str(), to_b);
    count(&mut out, Event::Paired);
    proof {
        assert(effects(out@) =~= offer_effects(rules@, config@, p@));
    }
    out
}

impl HubInner {
    fn busy(&self, tickets: &Vec<Ticket>) -> (r: Vec<String>)
        ensures
            views(r@) == busy_players(self@, tickets_view(tickets@)),
    {
        let ghost all = tickets_view(tickets@);
        let mut out: Vec<String> = Vec::new();
        let mut i: usize = 0;
        proof {
            assert(all.take(0) =~= Seq::<TicketView>::empty());
            assert(views(out@) =~= Seq::<Seq<char>>::empty());
        }
        while i < tickets.len()
            invariant
                i <= tickets@.len(),
                all == tickets_view(tickets@),
                views(out@) == busy_players(self@, all.take(i as int)),
            decreases tickets@.len() - i,
        {
            proof {
                let t = all.take(i + 1);
                assert(t.drop_last() =~= all.take(i as int));
                assert(t.last() == tickets@[i as int]@);
            }
            let away = match self.client(tickets[i].player_id.as_str()) {
                Some(c) => c.lobby_id.is_some(),
                None => true,
            };
            if away {
                let ghost before = out@;
                let id = tickets[i].player_id.clone();
                out.push(id);
                proof {
                    assert(views(out@) =~= views(before).push(id@));
                }
            }
            i = i + 1;
        }
        proof {
            assert(all.take(tickets@.len() as int) =~= all);
        }
        out
    }

    /// Forms what pairs can be formed and offers them. The second part is the
    /// ids that the offers got, by chance.
    pub fn pair_waiting(&self, queue: &mut Queue, rules: &Rulesets, config: &Config, now: u64) -> (r:
        (Vec<Effect>, Vec<String>))
        ensures
            (final(queue)@, effects(r.0@)) == pairing_step(
                self@,
                old(queue)@,
                rules@,
                config@,
                views(r.1@),
                now,
            ),
            pair_from(
                final(queue)@,
                0,
                config@.automatch_rematch_cooldown_secs,
                now,
                busy_players(self@, old(queue)@.tickets),
            ) is None,
            uuid_shapes(views(r.1@)),
    {
        let busy = self.busy(&queue.inner.tickets);
        let offers = queue.pair(config.automatch_rematch_cooldown_secs, now, &busy);
        let ghost ps = pendings_view(offers@);
        let mut out = nothing();
        let mut ids: Vec<String> = Vec::new();
        let mut i: usize = 0;
        proof {
            assert(ps.take(0) =~= Seq::<PendingView>::empty());
        }
        while i < offers.len()
            invariant
                i <= offers@.len(),
                ps == pendings_view(offers@),
                effects(out@) == offers_effects(rules@, config@, ps.take(i as int)),
                views(ids@) == match_ids(ps).take(i as int),
                uuid_shapes(views(ids@)),
                forall|k: int| 0 <= k < offers@.len() ==> uuid_shape((#[trigger] offers@[k])@.match_id),
            decreases offers@.len() - i,
        {
            proof {
                let t = ps.take(i + 1);
                assert(t.drop_last() =~= ps.take(i as int));
                assert(t.last() == offers@[i as int]@);
            }
            let e = offer_pair(rules, config, &offers[i]);
            append_effects(&mut out, e);
            let ghost before = ids@;
            let id = offers[i].match_id.clone();
            ids.push(id);
            proof {
                assert(views(ids@) =~= views(before).push(id@));
                assert(match_ids(ps)[i as int] == id@);
                assert(match_ids(ps).take(i + 1) =~= match_ids(ps).take(i as int).push(id@));
            }
            i = i + 1;
        }
        proof {
            assert(ps.take(offers@.len() as int) =~= ps);
            assert(match_ids(ps).take(offers@.len() as int) =~= match_ids(ps));
        }
        (out, ids)
    }
}

// ------------------------------------------------------- the matched room

/// The seat of one half of a pair.
pub open spec fn pair_seat(h: HubView, t: TicketView) -> SlotView {
    SlotView {
        player_id: t.player_id,
        display_name: t.handle,
        ready: true,
        bios_offer: None,
        mod_offer: None,
        memcard_offer: None,
        country: match h.client(t.player_id) {
            Some(c) => c.country,
            None => Seq::empty(),
        },
        ice_path: None,
        ice_path_at: None,
    }
}

pub open spec fn address_of(h: HubView, id: Seq<char>) -> Seq<char> {
    match h.client(id) {
        Some(c) => c.peer_ip,
        None => Seq::empty(),
    }
}

/// The room that the server builds for a pair. No connection is its host.
pub open spec fn pair_lobby(h: HubView, r: RulesetView, p: PendingView, lid: Seq<char>) -> LobbyView {
    LobbyView {
        lobby_id: lid,
        name: r.label,
        game_name: p.key.game_name,
        game_version: p.key.game_version,
        disc_fp: p.key.disc_fp,
        host_player_id: Seq::empty(),
        host_bind: p.a.host_bind,
        host_endpoint: rewritten(p.a.host_bind, address_of(h, p.a.player_id)),
        lan_endpoints: Seq::empty(),
        guest_endpoint: rewritten(p.b.guest_bind, address_of(h, p.b.player_id)),
        password_hash: None,
        password_salt: None,
        max_slots: r.max_slots,
        session_id: h.next_session,
        slots: seq![Some(pair_seat(h, p.a)), Some(pair_seat(h, p.b))],
        allow_spectators: false,
        spectators: Seq::empty(),
        match_caps: Some(floored(r.match_caps, pair_floor(r, p))),
        relay_session_id: None,
        started: false,
        automatch: true,
    }
}

/// The hub with a client in the room of its pair.
pub open spec fn in_pair_room(h: HubView, id: Seq<char>, lid: Seq<char>) -> HubView {
    match h.client(id) {
        Some(c) => h.with_client(
            id,
            ClientView { lobby_id: Some(lid), pending_mod_lobby: None, ..c },
        ),
        None => h,
    }
}

pub open spec fn pair_joined_msg(l: LobbyView, slot: int) -> JsonView {
    with_opt(
        empty_object().with("op"@, JsonView::Str("joined"@)).with("ok"@, JsonView::Bool(true)).with(
            "lobby_id"@,
            JsonView::Str(l.lobby_id),
        ).with("session_id"@, JsonView::Int(l.session_id as int)).with(
            "local_slot"@,
            JsonView::Int(slot),
        ).with("spectator"@, JsonView::Bool(false)).with(
            "spectator_slot_base"@,
            JsonView::Int(SPECTATOR_SLOT_BASE as int),
        ).with("host_endpoint"@, JsonView::Str(l.host_endpoint)).with(
            "guest_endpoint"@,
            JsonView::Str(l.guest_endpoint),
        ).with("automatch"@, JsonView::Bool(true)),
        "match_caps"@,
        l.match_caps,
    )
}

/// Whether a connection stands and sits in no room.
pub open spec fn at_large(h: HubView, id: Seq<char>) -> bool {
    h.client(id) is Some && h.lobby_id_of(id) is None
}

/// What two accepts do: the room is built, both sit in it, and its start is
/// due. Where one side is gone, or sits in another room by now, the other goes
/// back to the front of the queue.
pub open spec fn form_step(
    h: HubView,
    q: QueueView,
    rules: Seq<RulesetView>,
    p: PendingView,
    lid: Seq<char>,
    now: u64,
) -> (HubView, QueueView, Seq<EffectView>) {
    let q1 = QueueView {
        recent: q.recent.push(
            PlayedView { a: p.a.account_id, b: p.b.account_id, at: now },
        ),
        ..q
    };
    match resolved(rules, p.key.game_name, p.key.ruleset_id) {
        None => (h, q1, Seq::empty()),
        Some(r) => if h.lobbies.len() >= MAX_LOBBIES {
            (
                h,
                q1,
                sent(p.a.player_id, requeue_msg("lobby_limit"@, false)) + sent(
                    p.b.player_id,
                    requeue_msg("lobby_limit"@, false),
                ),
            )
        } else if !at_large(h, p.a.player_id) || !at_large(h, p.b.player_id) {
            if at_large(h, p.a.player_id) {
                (
                    h,
                    put_back(q1, p.a),
                    sent(p.a.player_id, requeue_msg("peer_left"@, true)),
                )
            } else if at_large(h, p.b.player_id) {
                (
                    h,
                    put_back(q1, p.b),
                    sent(p.b.player_id, requeue_msg("peer_left"@, true)),
                )
            } else {
                (h, q1, Seq::empty())
            }
        } else {
            let l = pair_lobby(h, r, p, lid);
            let h1 = HubView {
                lobbies: h.lobbies.push(l),
                next_session: next_session(h.next_session),
                ..h
            };
            let h2 = in_pair_room(in_pair_room(h1, p.a.player_id, lid), p.b.player_id, lid);
            (
                h2,
                q1,
                sent(p.a.player_id, pair_joined_msg(l, 0)) + sent(
                    p.b.player_id,
                    pair_joined_msg(l, 1),
                ) + lobby_update(h2, lid) + seq![
                    EffectView::StartLater { lobby_id: lid, match_id: p.match_id },
                ],
            )
        },
    }
}

fn pair_joined_json(
    lid: &str,
    session_id: u32,
    slot: u64,
    host_endpoint: &str,
    guest_endpoint: &str,
    caps: &Json,
    Ghost(l): Ghost<LobbyView>,
) -> (r: Json)
    requires
        l.lobby_id == lid@,
        l.session_id == session_id,
        l.host_endpoint == host_endpoint@,
        l.guest_endpoint == guest_endpoint@,
        l.match_caps == Some(caps@),
    ensures
        r@ == pair_joined_msg(l, slot as int),
{
    Json::object().with("op", Json::text("joined")).with("ok", Json::flag(true)).with(
        "lobby_id",
        Json::text(lid),
    ).with("session_id", Json::count(session_id as u64)).with("local_slot", Json::count(slot)).with(
        "spectator",
        Json::flag(false),
    ).with("spectator_slot_base", Json::count(SPECTATOR_SLOT_BASE as u64)).with(
        "host_endpoint",
        Json::text(host_endpoint),
    ).with("guest_endpoint", Json::text(guest_endpoint)).with("automatch", Json::flag(true)).with(
        "match_caps",
        caps.copy(),
    )
}

impl HubInner {
    fn at_large(&self, id: &str) -> (r: bool)
        ensures
            r == at_large(self@, id@),
    {
        match self.client(id) {
            Some(c) => c.lobby_id.is_none(),
            None => false,
        }
    }

    fn seat_for_pair(&self, t: &Ticket) -> (r: Slot)
        ensures
            r@ == pair_seat(self@, t@),
    {
        let country = match self.client(t.player_id.as_str()) {
            Some(c) => c.country.clone(),
            None => String::new(),
        };
        Slot {
            player_id: t.player_id.clone(),
            display_name: t.handle.clone(),
            ready: true,
            bios_offer: None,
            mod_offer: None,
            memcard_offer: None,
            country,
            ice_path: None,
            ice_path_at: None,
        }
    }

    fn address(&self, id: &str) -> (r: String)
        ensures
            r@ == address_of(self@, id@),
    {
        match self.client(id) {
            Some(c) => c.peer_ip.clone(),
            None => String::new(),
        }
    }

    fn enter_pair_room(&mut self, id: &str, lid: &str)
        ensures
            final(self)@ == in_pair_room(old(self)@, id@, lid@),
            final(self)@.lobbies == old(self)@.lobbies,
    {
        match self.client_index(id) {
            Some(i) => {
                let c = self.client_mut(i);
                c.lobby_id = Some(lid.to_owned());
                c.pending_mod_lobby = None;
            },
            None => {},
        }
    }

    /// Both accepted: builds the room `lid`, seats them, and leaves its start
    /// to the caller.
    pub fn form_match(
        &mut self,
        queue: &mut Queue,
        rules: &Rulesets,
        p: &Pending,
        lid: &str,
        now: u64,
    ) -> (r: Vec<Effect>)
        requires
            old(self)@.wf(),
            for_two(rules@),
        ensures
            final(self)@.wf(),
            (final(self)@, final(queue)@, effects(r@)) == form_step(
                old(self)@,
                old(queue)@,
                rules@,
                p@,
                lid@,
                now,
            ),
    {
        queue.note_pairing(p.a.account_id.as_str(), p.b.account_id.as_str(), now);
        proof {
            lemma_resolved_for_two(rules@, p@.key.game_name, p@.key.ruleset_id);
        }
        let rs = match rules.resolve(p.key.game_name.as_str(), p.key.ruleset_id.as_str()) {
            Some(r) => r,
            None => {
                return nothing();
            },
        };
        let floor = floor_for(rs, p);
        let caps = caps_with_floor(&rs.match_caps, floor);
        if self.lobbies.len() >= MAX_LOBBIES {
            let mut out = only(p.a.player_id.as_str(), requeue_json("lobby_limit", false));
            send_to(&mut out, p.b.player_id.as_str(), requeue_json("lobby_limit", false));
            return out;
        }
        let a_here = self.at_large(p.a.player_id.as_str());
        let b_here = self.at_large(p.b.player_id.as_str());
        if !a_here || !b_here {
            if a_here {
                queue.requeue_front(p.a.copy());
                return only(p.a.player_id.as_str(), requeue_json("peer_left", true));
            }
            if b_here {
                queue.requeue_front(p.b.copy());
                return only(p.b.player_id.as_str(), requeue_json("peer_left", true));
            }
            return nothing();
        }
        let ghost h = self@;
        let sid: u32 = self.next_session;
        let seat_a = self.seat_for_pair(&p.a);
        let seat_b = self.seat_for_pair(&p.b);
        let ghost va = seat_a@;
        let ghost vb = seat_b@;
        let mut slots: Vec<Option<Slot>> = Vec::new();
        slots.push(Some(seat_a));
        slots.push(Some(seat_b));
        let a_addr = self.address(p.a.player_id.as_str());
        let b_addr = self.address(p.b.player_id.as_str());
        let host_endpoint = rewrite_endpoint(p.a.host_bind.as_str(), a_addr.as_str());
        let guest_endpoint = rewrite_endpoint(p.b.guest_bind.as_str(), b_addr.as_str());
        let lobby = Lobby {
            lobby_id: lid.to_owned(),
            name: rs.label.clone(),
            game_name: p.key.game_name.clone(),
            game_version: p.key.game_version.clone(),
            disc_fp: p.key.disc_fp.clone(),
            host_player_id: String::new(),
            host_bind: p.a.host_bind.clone(),
            host_endpoint: host_endpoint.clone(),
            lan_endpoints: Vec::new(),
            guest_endpoint: guest_endpoint.clone(),
            password_hash: None,
            password_salt: None,
            max_slots: rs.max_slots,
            session_id: sid,
            slots,
            allow_spectators: false,
            spectators: Vec::new(),
            match_caps: Some(caps.copy()),
            relay_session_id: None,
            started: false,
            automatch: true,
        };
        let ghost l = pair_lobby(h, rs@, p@, lid@);
        proof {
            assert(lobby@.slots =~= seq![Some(va), Some(vb)]);
            assert(lobby@.spectators =~= Seq::<Option<SlotView>>::empty());
            assert(lobby@.lan_endpoints =~= Seq::<Seq<char>>::empty());
            assert(lobby@ =~= l);
        }
        self.next_session = if sid == 0xffff_ffff {
            sid
        } else {
            sid + 1
        };
        self.lobbies.push(lobby);
        let ghost h1 = HubView {
            lobbies: h.lobbies.push(l),
            next_session: next_session(h.next_session),
            ..h
        };
        proof {
            assert(self@.lobbies =~= h1.lobbies);
            assert(self@ =~= h1);
            assert(h1.wf()) by {
                assert forall|i: int| 0 <= i < h1.lobbies.len() implies (
                #[trigger] h1.lobbies[i]).wf() by {
                    if i < h.lobbies.len() {
                        assert(h1.lobbies[i] == h.lobbies[i]);
                    }
                }
            }
        }
        self.enter_pair_room(p.a.player_id.as_str(), lid);
        self.enter_pair_room(p.b.player_id.as_str(), lid);
        let to_a = pair_joined_json(
            lid,
            sid,
            0,
            host_endpoint.as_str(),
            guest_endpoint.as_str(),
            &caps,
            Ghost(l),
        );
        let to_b = pair_joined_json(
            lid,
            sid,
            1,
            host_endpoint.as_str(),
            guest_endpoint.as_str(),
            &caps,
            Ghost(l),
        );
        let mut out = only(p.a.player_id.as_str(), to_a);
        send_to(&mut out, p.b.player_id.as_str(), to_b);
        emit_lobby_update(&mut out, self, lid);
        push_effect(
            &mut out,
            Effect::StartLater { lobby_id: lid.to_owned(), match_id: p.match_id.clone() },
        );
        out
    }
}

// ------------------------------------------------------------- the answers

pub open spec fn accept_ok_msg(accept: bool) -> JsonView {
    empty_object().with("op"@, JsonView::Str("automatch_accept_ok"@)).with(
        "ok"@,
        JsonView::Bool(true),
    ).with("accept"@, JsonView::Bool(accept))
}

/// Whether an answer names another offer than the one that stands.
pub open spec fn late(q: QueueView, id: Seq<char>, named: Option<Seq<char>>) -> bool {
    match nonempty(named) {
        Some(m) => match offer_at(q.pending, id) {
            Some(i) => q.pending[i].match_id != m,
            None => true,
        },
        None => false,
    }
}

/// What an answer does. `lid` is the id of the room that two accepts build.
pub open spec fn accept_step(
    h: HubView,
    q: QueueView,
    rules: Seq<RulesetView>,
    id: Seq<char>,
    msg: InMsg,
    lid: Seq<char>,
    now: u64,
) -> (HubView, QueueView, Seq<EffectView>) {
    let accept = msg.accept == Some(true);
    let heard = sent(id, accept_ok_msg(accept));
    if late(q, id, opt_view(msg.match_id)) {
        (h, q, heard)
    } else {
        let (q2, done) = answered_step(q, id, accept);
        match done {
            None => (h, q2, heard),
            Some(p) => if p.a_accept == Some(true) && p.b_accept == Some(true) {
                let (h3, q3, e) = form_step(h, q2, rules, p, lid, now);
                (h3, q3, heard + e)
            } else {
                let decliner = if p.a_accept == Some(false) {
                    p.a.player_id
                } else {
                    p.b.player_id
                };
                let (q3, e) = declined_step(h, q2, p, decliner, "decline"@);
                (h, q3, heard + e)
            },
        }
    }
}

impl HubInner {
    fn is_late(&self, queue: &Queue, player_id: &str, named: &Option<String>) -> (r: bool)
        ensures
            r == late(queue@, player_id@, opt_view(*named)),
    {
        match super::input::if_nonempty(named) {
            Some(m) => match queue.offer_of(player_id) {
                Some(o) => !same(o.as_str(), m.as_str()),
                None => true,
            },
            None => false,
        }
    }

    /// An answer to an offer. A late one is heard and changes nothing.
    pub fn handle_automatch_accept(
        &mut self,
        queue: &mut Queue,
        rules: &Rulesets,
        player_id: &str,
        msg: &InMsg,
        lid: &str,
        now: u64,
    ) -> (r: Vec<Effect>)
        requires
            old(self)@.wf(),
            for_two(rules@),
        ensures
            final(self)@.wf(),
            (final(self)@, final(queue)@, effects(r@)) == accept_step(
                old(self)@,
                old(queue)@,
                rules@,
                player_id@,
                *msg,
                lid@,
                now,
            ),
    {
        let accept = match msg.accept {
            Some(b) => b,
            None => false,
        };
        let mut out = only(
            player_id,
            Json::object().with("op", Json::text("automatch_accept_ok")).with(
                "ok",
                Json::flag(true),
            ).with("accept", Json::flag(accept)),
        );
        if self.is_late(queue, player_id, &msg.match_id) {
            return out;
        }
        let p = match queue.answer(player_id, accept) {
            Some(p) => p,
            None => {
                return out;
            },
        };
        if p.both_yes() {
            let e = self.form_match(queue, rules, &p, lid, now);
            append_effects(&mut out, e);
        } else {
            let decliner = match p.a_accept {
                Some(false) => &p.a,
                _ => &p.b,
            };
            let e = self.settle_declined(queue, &p, decliner.player_id.as_str(), "decline");
            append_effects(&mut out, e);
        }
        out
    }
}

// ---------------------------------------------------------------- the tick

/// What an offer that lapsed does: whoever did not accept pays; if neither
/// did, both do.
pub open spec fn lapsed_step(h: HubView, q: QueueView, p: PendingView) -> (
    QueueView,
    Seq<EffectView>,
) {
    let a_bad = p.a_accept != Some(true);
    let b_bad = p.b_accept != Some(true);
    if a_bad && b_bad {
        (
            q,
            seq![
                EffectView::Strike {
                    account: p.a.account_id,
                    kind: "timeout"@,
                    game: p.key.game_name,
                },
                EffectView::Send { to: p.a.player_id, msg: cancelled_msg("timeout"@) },
                EffectView::Strike {
                    account: p.b.account_id,
                    kind: "timeout"@,
                    game: p.key.game_name,
                },
                EffectView::Send { to: p.b.player_id, msg: cancelled_msg("timeout"@) },
                EffectView::Count(EventView::Dodge),
            ],
        )
    } else {
        declined_step(
            h,
            q,
            p,
            if a_bad {
                p.a.player_id
            } else {
                p.b.player_id
            },
            "timeout"@,
        )
    }
}

/// Every offer of `ps` lapses, in their order.
pub open spec fn lapses_step(h: HubView, q: QueueView, ps: Seq<PendingView>) -> (
    QueueView,
    Seq<EffectView>,
)
    decreases ps.len(),
{
    if ps.len() == 0 {
        (q, Seq::empty())
    } else {
        let (q1, e1) = lapses_step(h, q, ps.drop_last());
        let (q2, e2) = lapsed_step(h, q1, ps.last());
        (q2, e1 + e2)
    }
}

pub open spec fn status_pools(v: Seq<(KeyView, int)>) -> Seq<JsonView> {
    v.map_values(|x: (KeyView, int)| pool_row(x.0, x.1))
}

pub open spec fn status_msg(
    tid: Seq<char>,
    row: (Seq<char>, int, int, Seq<(KeyView, int)>),
) -> JsonView {
    empty_object().with("op"@, JsonView::Str("automatch_status"@)).with(
        "ok"@,
        JsonView::Bool(true),
    ).with("ticket_id"@, JsonView::Str(tid)).with("queued_secs"@, JsonView::Int(row.1)).with(
        "est_rtt_ms"@,
        JsonView::Int(row.2),
    ).with(
        "titles"@,
        JsonView::Arr(status_pools(row.3)),
    )
}

/// Everyone waiting is told where they stand.
pub open spec fn status_effects(q: QueueView, now: u64) -> Seq<EffectView> {
    q.tickets.map_values(
        |t: TicketView|
            EffectView::Send {
                to: t.player_id,
                msg: status_msg(t.ticket_id, status_row(q, t, now)),
            },
    )
}

/// One beat: dead offers lapse, pairs are formed under `ids`, and everyone
/// waiting hears of it.
pub open spec fn tick_step(
    h: HubView,
    q: QueueView,
    rules: Seq<RulesetView>,
    c: ConfigView,
    ids: Seq<Seq<char>>,
    now: u64,
) -> (QueueView, Seq<EffectView>) {
    let gone = offers_by_age(q.pending, c.automatch_accept_secs, now, true);
    let q0 = QueueView {
        pending: offers_by_age(q.pending, c.automatch_accept_secs, now, false),
        ..q
    };
    let (q1, e1) = lapses_step(h, q0, gone);
    let (q2, e2) = pairing_step(h, q1, rules, c, ids, now);
    (q2, e1 + e2 + status_effects(q2, now))
}

fn status_json(tid: &str, row: &(String, u64, i32, Vec<(MatchKey, usize)>)) -> (r: Json)
    ensures
        r@ == status_msg(tid@, crate::automatch::queue::row_view(*row)),
{
    let ghost all = crate::automatch::queue::row_view(*row).3;
    let mut rows: Vec<Json> = Vec::new();
    let mut i: usize = 0;
    while i < row.3.len()
        invariant
            i <= row.3@.len(),
            all == crate::automatch::queue::row_view(*row).3,
            items_view(rows@) == status_pools(all.take(i as int)),
        decreases row.3@.len() - i,
    {
        let j = pool_json(&row.3[i].0, row.3[i].1);
        proof {
            lemma_items_push(rows@, j);
            assert(all[i as int] == (row.3@[i as int].0@, row.3@[i as int].1 as int));
            assert(status_pools(all.take(i + 1)) =~= status_pools(all.take(i as int)).push(j@));
        }
        rows.push(j);
        i = i + 1;
    }
    proof {
        assert(all.take(row.3@.len() as int) =~= all);
    }
    Json::object().with("op", Json::text("automatch_status")).with("ok", Json::flag(true)).with(
        "ticket_id",
        Json::text(tid),
    ).with(
        "queued_secs",
        Json::count(row.1),
    ).with("est_rtt_ms", Json::signed(row.2 as i64)).with("titles", Json::Arr(rows))
}

fn tell_status(out: &mut Vec<Effect>, queue: &Queue, now: u64)
    ensures
        effects(final(out)@) == effects(old(out)@) + status_effects(queue@, now),
{
    let rows = queue.status_rows(now);
    let ghost all = status_effects(queue@, now);
    let ghost start = effects(out@);
    let mut i: usize = 0;
    proof {
        assert(start + all.take(0) =~= start);
        assert(rows@.map_values(
            |x: (String, u64, i32, Vec<(MatchKey, usize)>)| crate::automatch::queue::row_view(x),
        ).len() == rows@.len());
    }
    while i < rows.len()
        invariant
            i <= rows@.len(),
            all == status_effects(queue@, now),
            all.len() == rows@.len(),
            rows@.map_values(
                |x: (String, u64, i32, Vec<(MatchKey, usize)>)|
                    crate::automatch::queue::row_view(x),
            ) == status(queue@, now),
            effects(out@) == start + all.take(i as int),
        decreases rows@.len() - i,
    {
        proof {
            assert(status(queue@, now).len() == queue@.tickets.len());
        }
        let tid = queue.ticket_id(i);
        let j = status_json(tid.as_str(), &rows[i]);
        send_to(out, rows[i].0.as_str(), j);
        proof {
            assert(status(queue@, now)[i as int] == crate::automatch::queue::row_view(
                rows@[i as int],
            ));
            assert(all[i as int] == EffectView::Send { to: rows@[i as int].0@, msg: j@ });
            assert(all.take(i + 1) =~= all.take(i as int).push(all[i as int]));
            assert(effects(out@) =~= start + all.take(i + 1));
        }
        i = i + 1;
    }
    proof {
        assert(all.take(rows@.len() as int) =~= all);
    }
}

impl HubInner {
    fn lapse(&self, queue: &mut Queue, p: &Pending) -> (r: Vec<Effect>)
        ensures
            (final(queue)@, effects(r@)) == lapsed_step(self@, old(queue)@, p@),
    {
        let a_bad = match p.a_accept {
            Some(true) => false,
            _ => true,
        };
        let b_bad = match p.b_accept {
            Some(true) => false,
            _ => true,
        };
        if a_bad && b_bad {
            let mut out = nothing();
            push_effect(
                &mut out,
                Effect::Strike {
                    account: p.a.account_id.clone(),
                    kind: "timeout".to_owned(),
                    game: p.key.game_name.clone(),
                },
            );
            send_to(&mut out, p.a.player_id.as_str(), cancelled_json("timeout"));
            push_effect(
                &mut out,
                Effect::Strike {
                    account: p.b.account_id.clone(),
                    kind: "timeout".to_owned(),
                    game: p.key.game_name.clone(),
                },
            );
            send_to(&mut out, p.b.player_id.as_str(), cancelled_json("timeout"));
            count(&mut out, Event::Dodge);
            proof {
                assert(effects(out@) =~= lapsed_step(self@, old(queue)@, p@).1);
            }
            return out;
        }
        let loser = if a_bad {
            p.a.player_id.as_str()
        } else {
            p.b.player_id.as_str()
        };
        self.settle_declined(queue, p, loser, "timeout")
    }

    /// One beat of the queue. The second part is the ids that offers got.
    pub fn tick_queue(&self, queue: &mut Queue, rules: &Rulesets, config: &Config, now: u64) -> (r: (
        Vec<Effect>,
        Vec<String>,
    ))
        ensures
            (final(queue)@, effects(r.0@)) == tick_step(
                self@,
                old(queue)@,
                rules@,
                config@,
                views(r.1@),
                now,
            ),
            uuid_shapes(views(r.1@)),
    {
        let gone = queue.take_expired(config.automatch_accept_secs, now);
        let ghost q0 = queue@;
        let ghost ps = pendings_view(gone@);
        let mut out = nothing();
        let mut i: usize = 0;
        proof {
            assert(ps.take(0) =~= Seq::<PendingView>::empty());
        }
        while i < gone.len()
            invariant
                i <= gone@.len(),
                ps == pendings_view(gone@),
                (queue@, effects(out@)) == lapses_step(self@, q0, ps.take(i as int)),
            decreases gone@.len() - i,
        {
            proof {
                let t = ps.take(i + 1);
                assert(t.drop_last() =~= ps.take(i as int));
                assert(t.last() == gone@[i as int]@);
            }
            let e = self.lapse(queue, &gone[i]);
            append_effects(&mut out, e);
            i = i + 1;
        }
        proof {
            assert(ps.take(gone@.len() as int) =~= ps);
        }
        let (e, ids) = self.pair_waiting(queue, rules, config, now);
        append_effects(&mut out, e);
        tell_status(&mut out, queue, now);
        (out, ids)
    }
}

// -------------------------------------------------------------------- laws

/// Each refusal of a ticket leaves the queue as it was, and a ticket that
/// stands is the only thing that a request adds.
pub proof fn law_refused_ticket_changes_nothing(
    h: HubView,
    q: QueueView,
    rules: Seq<RulesetView>,
    r: RelayView,
    c: ConfigView,
    id: Seq<char>,
    msg: InMsg,
    tid: Seq<char>,
    cool: u64,
    now: u64,
)
    ensures
        ({
            let (q2, e, stands) = queue_step(h, q, rules, r, c, id, msg, tid, cool, now);
            &&& !stands ==> q2 == q
            &&& stands ==> q2.tickets.len() == q.tickets.len() + 1 && q2.tickets.drop_last()
                == q.tickets
        }),
{
    let (q2, e, stands) = queue_step(h, q, rules, r, c, id, msg, tid, cool, now);
    if stands {
        assert(q2.tickets.drop_last() =~= q.tickets);
    }
}

/// A ticket that stands claims nothing that a ruleset of its titles has not
/// approved.
pub proof fn law_claims_are_approved(
    h: HubView,
    q: QueueView,
    rules: Seq<RulesetView>,
    r: RelayView,
    c: ConfigView,
    id: Seq<char>,
    msg: InMsg,
    tid: Seq<char>,
    cool: u64,
    now: u64,
    i: int,
)
    requires
        queue_step(h, q, rules, r, c, id, msg, tid, cool, now).2,
        0 <= i < wanted_titles(h, id, msg).len(),
        title_key(rules, wanted_titles(h, id, msg)[i]) is Ok,
    ensures
        ({
            let t = wanted_titles(h, id, msg)[i];
            let rs = resolved(rules, trimmed(t.game_name), trimmed(t.ruleset_id));
            rs is Some && first_unapproved(rs->0.match_caps, claims_of(msg)) is None
        }),
{
    let ts = wanted_titles(h, id, msg);
    let claims = claims_of(msg);
    lemma_first_where(ts, |t: TitleView| title_refusal(rules, t, claims) is Some);
    assert(title_refusal(rules, ts[i], claims) is None);
}

/// One ticket per account: what is queued, or stands before an offer, is not
/// queued again.
pub proof fn law_one_ticket_per_account(
    h: HubView,
    q: QueueView,
    rules: Seq<RulesetView>,
    r: RelayView,
    c: ConfigView,
    id: Seq<char>,
    msg: InMsg,
    tid: Seq<char>,
    cool: u64,
    now: u64,
)
    requires
        h.client(id) is Some,
        h.client(id)->0.account is Some,
        account_queued(q, h.client(id)->0.account->0.id),
    ensures
        !queue_step(h, q, rules, r, c, id, msg, tid, cool, now).2,
{
}

/// Declining costs the decliner a strike and nobody else; the other side is
/// first in the queue again where it is still connected.
pub proof fn law_decline_charges_the_decliner(
    h: HubView,
    q: QueueView,
    p: PendingView,
)
    requires
        p.a.player_id != p.b.player_id,
        h.client(p.b.player_id) is Some,
    ensures
        ({
            let (q2, e) = declined_step(h, q, p, p.a.player_id, "decline"@);
            &&& e[0] == (EffectView::Strike {
                account: p.a.account_id,
                kind: "decline"@,
                game: p.key.game_name,
            })
            &&& forall|i: int| 1 <= i < e.len() ==> !((#[trigger] e[i]) is Strike)
            &&& q2.tickets == q.tickets.insert(0, p.b)
            &&& q2.recent == q.recent
        }),
{
}

/// The room of a pair has no host among the players and is in no list, seats
/// the older ticket first, and stores what it will run.
pub proof fn law_pair_room(h: HubView, r: RulesetView, p: PendingView, lid: Seq<char>)
    ensures
        ({
            let l = pair_lobby(h, r, p, lid);
            &&& l.host_player_id.len() == 0
            &&& !super::wire::shown(l, None, None)
            &&& l.player_count() == 2
            &&& l.slots[0]->0.player_id == p.a.player_id
            &&& l.match_caps == Some(floored(r.match_caps, pair_floor(r, p)))
        }),
{
    let l = pair_lobby(h, r, p, lid);
    let s = l.slots;
    assert(s.drop_last() =~= seq![Some(pair_seat(h, p.a))]);
    assert(s.drop_last().drop_last() =~= Seq::<Option<SlotView>>::empty());
    reveal_with_fuel(super::model::seated, 3);
}

/// A late answer changes nothing.
pub proof fn law_late_answer_changes_nothing(
    h: HubView,
    q: QueueView,
    rules: Seq<RulesetView>,
    id: Seq<char>,
    msg: InMsg,
    lid: Seq<char>,
    now: u64,
)
    requires
        late(q, id, opt_view(msg.match_id)),
    ensures
        accept_step(h, q, rules, id, msg, lid, now).0 == h,
        accept_step(h, q, rules, id, msg, lid, now).1 == q,
{
}

} // verus!
