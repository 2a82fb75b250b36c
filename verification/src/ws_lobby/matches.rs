//! Who is matched with whom, and what both hear of it.

use super::dodges::{answers, lemma_answers, other_said};
use super::entries::is_fingerprint;
use super::input::InMsg;
use super::matching::{
    accept_step, busy_players, form_step, found_msg, in_pair_room, offer_effects, pair_joined_msg,
    pair_lobby, pairing_step, queue_step, title_key, title_keys, wanted_titles, TitleView,
};
use super::model::{ClientView, HubView, LobbyView, MAX_LOBBIES};
use super::ops::{lemma_keys, lemma_with_read};
use super::roster::lemma_with_client;
use super::wire::EffectView;
use crate::automatch::queue::{
    lemma_pair, offered, pair_from, pairable, pairing, refreshed, KeyView, PendingView, PlayedView,
    QueueView, TicketView,
};
use crate::automatch::rulesets::RulesetView;
use crate::config::ConfigView;
use crate::find::{lemma_first_is, lemma_first_where};
use crate::input_relay::{since, RelayView};
use crate::json::JsonView;
use crate::text::{lowered, trimmed};
use vstd::prelude::*;
use vstd::string::*;

verus! {

// ---------------------------------------------------------------- the tickets

/// Whether a key is what a title asks for: its own title, version and disc, under
/// a ruleset of that title that pools this version, for two.
pub open spec fn key_of_title(rules: Seq<RulesetView>, t: TitleView, k: KeyView) -> bool {
    &&& k.game_name == trimmed(t.game_name)
    &&& k.game_name.len() > 0
    &&& k.game_version == (if trimmed(t.game_version).len() > 0 {
        trimmed(t.game_version)
    } else {
        "dev"@
    })
    &&& k.disc_fp == lowered(trimmed(t.disc_fp))
    &&& is_fingerprint(k.disc_fp)
    &&& t.max_slots is None || t.max_slots == Some(2usize)
    &&& exists|i: int|
        0 <= i < rules.len() && (#[trigger] rules[i]).game_name == k.game_name && rules[i].id
            == k.ruleset_id && (rules[i].game_version.len() == 0 || rules[i].game_version
            == k.game_version) && (trimmed(t.ruleset_id).len() == 0 || rules[i].id == trimmed(
            t.ruleset_id,
        )) && rules[i].max_slots == k.max_slots
}

proof fn lemma_key_of_title(rules: Seq<RulesetView>, t: TitleView)
    ensures
        title_key(rules, t) matches Ok(k) ==> key_of_title(rules, t, k),
{
    let game = trimmed(t.game_name);
    let rid = trimmed(t.ruleset_id);
    lemma_first_where(rules, |r: RulesetView| crate::automatch::rulesets::answers(r, game, rid));
    let d = lowered(trimmed(t.disc_fp));
    if title_key(rules, t) is Ok {
        assert forall|i: int| 0 <= i < 64 implies '0' <= #[trigger] d[i] <= '9' || 'a' <= d[i] <= 'f'
            || 'A' <= d[i] <= 'F' by {
            assert(super::input::hex_digit(d[i]));
        }
    }
}

proof fn lemma_keys_of_titles(rules: Seq<RulesetView>, ts: Seq<TitleView>, j: int)
    requires
        0 <= j < title_keys(rules, ts).0.len(),
    ensures
        exists|i: int|
            0 <= i < ts.len() && key_of_title(rules, #[trigger] ts[i], title_keys(rules, ts).0[j]),
    decreases ts.len(),
{
    if ts.len() > 0 {
        let d = ts.drop_last();
        let (ks, e) = title_keys(rules, d);
        let k = title_keys(rules, ts).0[j];
        if j < ks.len() {
            lemma_keys_of_titles(rules, d, j);
            let i = choose|i: int| 0 <= i < d.len() && key_of_title(rules, #[trigger] d[i], ks[j]);
            assert(ts[i] == d[i]);
            assert(key_of_title(rules, ts[i], k));
        } else {
            lemma_key_of_title(rules, ts.last());
            assert(ts[ts.len() - 1] == ts.last());
            assert(key_of_title(rules, ts[ts.len() - 1], k));
        }
    }
}

/// A ticket that stands is of an account that is signed in, sits in no room,
/// waits in no other place, runs no mods, and has no cooldown left; it asks for
/// what the message asks for, and nothing else; it comes last, and the other
/// tickets and offers stay as they are.
pub proof fn law_a_ticket_stands_by_the_rules(
    h: HubView,
    q: QueueView,
    rules: Seq<RulesetView>,
    r: RelayView,
    c: ConfigView,
    id: Seq<char>,
    msg: InMsg,
    tid: Seq<char>,
    cool: u64,
    now: u64,
    j: int,
)
    requires
        queue_step(h, q, rules, r, c, id, msg, tid, cool, now).2,
        0 <= j < queue_step(h, q, rules, r, c, id, msg, tid, cool, now).0.tickets.last().keys.len(),
    ensures
        ({
            let (q2, out, stands) = queue_step(h, q, rules, r, c, id, msg, tid, cool, now);
            let t = q2.tickets.last();
            &&& h.client(id) is Some
            &&& h.client(id)->0.account is Some
            &&& h.client(id)->0.lobby_id is None
            &&& forall|i: int|
                0 <= i < q.tickets.len() ==> (#[trigger] q.tickets[i]).account_id != t.account_id
            &&& forall|i: int|
                0 <= i < q.pending.len() ==> (#[trigger] q.pending[i]).a.account_id != t.account_id
                    && q.pending[i].b.account_id != t.account_id
            &&& msg.mods_enabled != Some(true)
            &&& cool == 0
            &&& q.tickets.len() < c.automatch_queue_max
            &&& q2.tickets.len() == q.tickets.len() + 1
            &&& q2.tickets.drop_last() == q.tickets
            &&& q2.pending == q.pending
            &&& q2.recent == q.recent
            &&& t.ticket_id == tid
            &&& t.player_id == id
            &&& t.account_id == h.client(id)->0.account->0.id
            &&& t.queued_at == now
            &&& exists|i: int|
                0 <= i < wanted_titles(h, id, msg).len() && key_of_title(
                    rules,
                    #[trigger] wanted_titles(h, id, msg)[i],
                    t.keys[j],
                )
        }),
{
    let (q2, out, stands) = queue_step(h, q, rules, r, c, id, msg, tid, cool, now);
    let ts = wanted_titles(h, id, msg);
    assert(q2.tickets.drop_last() =~= q.tickets);
    assert(q2.tickets.last().keys == title_keys(rules, ts).0);
    lemma_keys_of_titles(rules, ts, j);
}

// ------------------------------------------------------------------ the pairs

/// How long a ticket has waited, in whole seconds.
pub open spec fn waited(t: TicketView, now: u64) -> int {
    since(t.queued_at, now) / 1000
}

/// Whether two tickets fit: two accounts that both ask for `key`; both links
/// measured, or given the three seconds for it; the two links together no slower
/// than 120 ms and 60 ms more for every 20 seconds that the older waits, for a
/// hundred seconds at most; and no match of the two within the cooldown, unless
/// one waited for a hundred seconds.
pub open spec fn fit(
    rs: Seq<PlayedView>,
    a: TicketView,
    b: TicketView,
    key: KeyView,
    cooldown: u64,
    now: u64,
) -> bool {
    let w = if waited(a, now) > waited(b, now) {
        waited(a, now)
    } else {
        waited(b, now)
    };
    &&& a.account_id != b.account_id
    &&& a.keys.contains(key)
    &&& b.keys.contains(key)
    &&& a.rtt_ms >= 0 || waited(a, now) >= 3
    &&& b.rtt_ms >= 0 || waited(b, now) >= 3
    &&& a.rtt_ms >= 0 && b.rtt_ms >= 0 && w < 100 ==> a.rtt_ms + b.rtt_ms <= 120 + 60 * (w / 20)
    &&& w < 100 ==> forall|i: int|
        0 <= i < rs.len() && since((#[trigger] rs[i]).at, now) / 1000 < cooldown ==> !(rs[i].a
            == a.account_id && rs[i].b == b.account_id) && !(rs[i].a == b.account_id && rs[i].b
            == a.account_id)
}

proof fn lemma_fit(
    q: QueueView,
    i: int,
    j: int,
    key: KeyView,
    cooldown: u64,
    now: u64,
    busy: Seq<Seq<char>>,
)
    requires
        0 <= i < q.tickets.len(),
        0 <= j < q.tickets.len(),
        q.tickets[i].keys.contains(key),
    ensures
        pairable(q, i, j, key, cooldown, now, busy) == (i != j && fit(
            q.recent,
            q.tickets[i],
            q.tickets[j],
            key,
            cooldown,
            now,
        ) && !busy.contains(q.tickets[i].player_id) && !busy.contains(q.tickets[j].player_id)),
{
    let a = q.tickets[i];
    let b = q.tickets[j];
    let w = if waited(a, now) > waited(b, now) {
        waited(a, now)
    } else {
        waited(b, now)
    };
    assert(crate::automatch::queue::longest(waited(a, now), waited(b, now)) == w);
    assert((w / 20 >= 5) == (w >= 100));
    assert((w / 20) * 60 == 60 * (w / 20)) by (nonlinear_arith);
    assert(crate::automatch::queue::near_enough(a, b, now) == (a.rtt_ms >= 0 && b.rtt_ms >= 0 && w < 100
        ==> a.rtt_ms + b.rtt_ms <= 120 + 60 * (w / 20)));
    let rs = q.recent;
    if crate::automatch::queue::met(rs, a.account_id, b.account_id, cooldown, now) {
        let k = choose|k: int|
            0 <= k < rs.len() && crate::automatch::queue::secs((#[trigger] rs[k]).at, now) < cooldown
                && ((rs[k].a == a.account_id && rs[k].b == b.account_id) || (rs[k].a
                == b.account_id && rs[k].b == a.account_id));
        assert(since(rs[k].at, now) / 1000 < cooldown);
    } else {
        assert forall|k: int|
            0 <= k < rs.len() && since((#[trigger] rs[k]).at, now) / 1000 < cooldown implies !(rs[k].a
            == a.account_id && rs[k].b == b.account_id) && !(rs[k].a == b.account_id && rs[k].b
            == a.account_id) by {
            assert(crate::automatch::queue::secs(rs[k].at, now) < cooldown);
        }
    }
}

/// Whether a connection stands and sits in no room.
pub open spec fn free_to_play(h: HubView, id: Seq<char>) -> bool {
    h.client(id) is Some && h.client(id)->0.lobby_id is None
}

proof fn lemma_busy(h: HubView, ts: Seq<TicketView>, i: int)
    requires
        0 <= i < ts.len(),
    ensures
        busy_players(h, ts).contains(ts[i].player_id) == !free_to_play(h, ts[i].player_id),
{
    lemma_busy_is(h, ts, ts[i].player_id);
    assert(ts[i].player_id == ts[i].player_id);
}

proof fn lemma_busy_is(h: HubView, ts: Seq<TicketView>, id: Seq<char>)
    ensures
        busy_players(h, ts).contains(id) == (!free_to_play(h, id) && exists|k: int|
            0 <= k < ts.len() && (#[trigger] ts[k]).player_id == id),
    decreases ts.len(),
{
    if ts.len() > 0 {
        let d = ts.drop_last();
        let rest = busy_players(h, d);
        let all = busy_players(h, ts);
        lemma_busy_is(h, d, id);
        if rest.contains(id) {
            let k = choose|k: int| 0 <= k < rest.len() && rest[k] == id;
            assert(all[k] == id);
            let n = choose|n: int| 0 <= n < d.len() && (#[trigger] d[n]).player_id == id;
            assert(ts[n].player_id == id);
        }
        if all.contains(id) {
            let k = choose|k: int| 0 <= k < all.len() && all[k] == id;
            if k < rest.len() {
                assert(rest[k] == id);
            } else {
                assert(ts[ts.len() - 1].player_id == id);
            }
        }
        if exists|k: int| 0 <= k < ts.len() && (#[trigger] ts[k]).player_id == id {
            let k = choose|k: int| 0 <= k < ts.len() && (#[trigger] ts[k]).player_id == id;
            if k < d.len() {
                assert(d[k].player_id == id);
            } else if !free_to_play(h, id) {
                assert(all[rest.len() as int] == id);
            }
        }
    }
}

/// Whether every ticket of a queue waited in it before.
pub open spec fn all_from(ts: Seq<TicketView>, before: Seq<TicketView>) -> bool {
    forall|i: int| 0 <= i < ts.len() ==> before.contains(#[trigger] ts[i])
}

proof fn lemma_pairing_fits(
    q: QueueView,
    ids: Seq<Seq<char>>,
    cooldown: u64,
    now: u64,
    busy: Seq<Seq<char>>,
)
    ensures
        ({
            let (r, ps) = pairing(q, ids, cooldown, now, busy);
            &&& r.recent == q.recent
            &&& all_from(r.tickets, q.tickets)
            &&& r.pending == q.pending + ps
            &&& forall|i: int|
                0 <= i < ps.len() ==> fit(
                    q.recent,
                    (#[trigger] ps[i]).a,
                    ps[i].b,
                    ps[i].key,
                    cooldown,
                    now,
                ) && !busy.contains(ps[i].a.player_id) && !busy.contains(ps[i].b.player_id)
                    && q.tickets.contains(ps[i].a) && q.tickets.contains(ps[i].b)
                    && ps[i].a.queued_at <= ps[i].b.queued_at && ps[i].offered_at == now
                    && ps[i].a_accept is None && ps[i].b_accept is None
        }),
    decreases ids.len(),
{
    if ids.len() == 0 {
        assert(q.pending + Seq::<PendingView>::empty() =~= q.pending);
    } else {
        let (r, ps) = pairing(q, ids.drop_last(), cooldown, now, busy);
        lemma_pairing_fits(q, ids.drop_last(), cooldown, now, busy);
        lemma_pair(r, 0, cooldown, now, busy);
        match pair_from(r, 0, cooldown, now, busy) {
            Some((i, j, key)) => {
                lemma_fit(r, i, j, key, cooldown, now, busy);
                let (t, p) = offered(r, i, j, key, ids.last(), now);
                let a = r.tickets[i];
                let b = r.tickets[j];
                assert(q.tickets.contains(a));
                assert(q.tickets.contains(b));
                assert((p.a == a && p.b == b) || (p.a == b && p.b == a));
                assert(fit(q.recent, b, a, key, cooldown, now));
                let hi = if i > j {
                    i
                } else {
                    j
                };
                let lo = if i > j {
                    j
                } else {
                    i
                };
                assert forall|k: int| 0 <= k < t.tickets.len() implies q.tickets.contains(
                    #[trigger] t.tickets[k],
                ) by {
                    let m = r.tickets.remove(hi);
                    let k1 = if k < lo {
                        k
                    } else {
                        k + 1
                    };
                    assert(t.tickets[k] == m[k1]);
                    let k2 = if k1 < hi {
                        k1
                    } else {
                        k1 + 1
                    };
                    assert(m[k1] == r.tickets[k2]);
                }
                assert(t.pending =~= q.pending + ps.push(p));
            },
            None => {},
        }
    }
}

proof fn lemma_recent(rs: Seq<PlayedView>, cooldown: u64, now: u64, i: int)
    requires
        0 <= i < rs.len(),
        since(rs[i].at, now) / 1000 < cooldown,
    ensures
        crate::automatch::queue::still_recent(rs, cooldown, now).contains(rs[i]),
    decreases rs.len(),
{
    let d = rs.drop_last();
    let all = crate::automatch::queue::still_recent(rs, cooldown, now);
    let rest = crate::automatch::queue::still_recent(d, cooldown, now);
    if i < d.len() {
        assert(d[i] == rs[i]);
        lemma_recent(d, cooldown, now, i);
        let k = choose|k: int| 0 <= k < rest.len() && rest[k] == rs[i];
        assert(all[k] == rs[i]);
    } else {
        assert(all[rest.len() as int] == rs[i]);
    }
}

/// Whoever is offered to each other fits, by what the queue remembers, and is free
/// to play; both tickets waited in the queue; the older comes first.
pub proof fn law_offers_are_between_two_who_fit(
    h: HubView,
    q: QueueView,
    rules: Seq<RulesetView>,
    c: ConfigView,
    ids: Seq<Seq<char>>,
    now: u64,
    i: int,
)
    requires
        q.pending.len() <= i < pairing_step(h, q, rules, c, ids, now).0.pending.len(),
    ensures
        ({
            let q2 = pairing_step(h, q, rules, c, ids, now).0;
            let p = q2.pending[i];
            &&& fit(q.recent, p.a, p.b, p.key, c.automatch_rematch_cooldown_secs, now)
            &&& free_to_play(h, p.a.player_id)
            &&& free_to_play(h, p.b.player_id)
            &&& q.tickets.contains(p.a)
            &&& q.tickets.contains(p.b)
            &&& p.a.queued_at <= p.b.queued_at
            &&& p.offered_at == now
            &&& p.a_accept is None
            &&& p.b_accept is None
            &&& q2.pending.take(q.pending.len() as int) == q.pending
        }),
{
    let cooldown = c.automatch_rematch_cooldown_secs;
    let q0 = refreshed(q, cooldown, now);
    let busy = busy_players(h, q.tickets);
    lemma_pairing_fits(q0, ids, cooldown, now, busy);
    let (q2, ps) = pairing(q0, ids, cooldown, now, busy);
    let p = q2.pending[i];
    assert(p == ps[i - q.pending.len()]);
    let x = choose|x: int| 0 <= x < q.tickets.len() && q.tickets[x] == p.a;
    let y = choose|y: int| 0 <= y < q.tickets.len() && q.tickets[y] == p.b;
    lemma_busy(h, q.tickets, x);
    lemma_busy(h, q.tickets, y);
    assert forall|k: int|
        0 <= k < q.recent.len() && since((#[trigger] q.recent[k]).at, now) / 1000 < cooldown implies q0.recent.contains(
        q.recent[k],
    ) by {
        lemma_recent(q.recent, cooldown, now, k);
    }
    assert(fit(q.recent, p.a, p.b, p.key, cooldown, now)) by {
        let rs = q.recent;
        assert(fit(q0.recent, p.a, p.b, p.key, cooldown, now));
        let w = if waited(p.a, now) > waited(p.b, now) {
            waited(p.a, now)
        } else {
            waited(p.b, now)
        };
        if w < 100 {
            assert forall|k: int|
                0 <= k < rs.len() && since((#[trigger] rs[k]).at, now) / 1000 < cooldown implies !(rs[k].a
                == p.a.account_id && rs[k].b == p.b.account_id) && !(rs[k].a == p.b.account_id
                && rs[k].b == p.a.account_id) by {
                assert(q0.recent.contains(rs[k]));
                let n = choose|n: int| 0 <= n < q0.recent.len() && q0.recent[n] == rs[k];
                assert(since(q0.recent[n].at, now) / 1000 < cooldown);
            }
        }
    }
    assert(q2.pending.take(q.pending.len() as int) =~= q.pending);
}

/// Nobody waits on beside one who fits: where the search for pairs is at its end,
/// no two tickets that are left fit each other, both free to play.
pub proof fn law_who_fits_does_not_wait(
    h: HubView,
    ts: Seq<TicketView>,
    q: QueueView,
    cooldown: u64,
    now: u64,
    x: int,
    y: int,
    key: KeyView,
)
    requires
        pair_from(q, 0, cooldown, now, busy_players(h, ts)) is None,
        all_from(q.tickets, ts),
        0 <= x < q.tickets.len(),
        0 <= y < q.tickets.len(),
        x != y,
        free_to_play(h, q.tickets[x].player_id),
        free_to_play(h, q.tickets[y].player_id),
    ensures
        !fit(q.recent, q.tickets[x], q.tickets[y], key, cooldown, now),
{
    let busy = busy_players(h, ts);
    lemma_pair(q, 0, cooldown, now, busy);
    lemma_busy_is(h, ts, q.tickets[x].player_id);
    lemma_busy_is(h, ts, q.tickets[y].player_id);
    if fit(q.recent, q.tickets[x], q.tickets[y], key, cooldown, now) {
        lemma_fit(q, x, y, key, cooldown, now, busy);
    }
}

// ----------------------------------------------------------------- the offers

/// Whether a connection is offered a match: its id and build, who the opponent
/// is, and how long there is to answer.
pub open spec fn hears_offer(
    out: Seq<EffectView>,
    to: Seq<char>,
    p: PendingView,
    them: TicketView,
    accept_secs: u64,
) -> bool {
    exists|i: int|
        0 <= i < out.len() && (#[trigger] out[i]) is Send && out[i]->Send_to == to && {
            let m = out[i]->Send_msg;
            &&& m.get("op"@) == Some(JsonView::Str("automatch_found"@))
            &&& m.get("match_id"@) == Some(JsonView::Str(p.match_id))
            &&& m.get("game_name"@) == Some(JsonView::Str(p.key.game_name))
            &&& m.get("game_version"@) == Some(JsonView::Str(p.key.game_version))
            &&& m.get("ruleset_id"@) == Some(JsonView::Str(p.key.ruleset_id))
            &&& m.get("accept_secs"@) == Some(JsonView::Int(accept_secs as int))
            &&& m.get("opponent"@) is Some
            &&& m.get("opponent"@)->0.get("handle"@) == Some(JsonView::Str(them.handle))
            &&& m.get("opponent"@)->0.get("country"@) == Some(JsonView::Str(them.country))
        }
}

proof fn lemma_found_says(
    rs: Option<RulesetView>,
    p: PendingView,
    them: TicketView,
    accept_secs: u64,
)
    ensures
        ({
            let m = found_msg(rs, p, them, accept_secs);
            &&& m.get("op"@) == Some(JsonView::Str("automatch_found"@))
            &&& m.get("match_id"@) == Some(JsonView::Str(p.match_id))
            &&& m.get("game_name"@) == Some(JsonView::Str(p.key.game_name))
            &&& m.get("game_version"@) == Some(JsonView::Str(p.key.game_version))
            &&& m.get("ruleset_id"@) == Some(JsonView::Str(p.key.ruleset_id))
            &&& m.get("accept_secs"@) == Some(JsonView::Int(accept_secs as int))
            &&& m.get("opponent"@) is Some
            &&& m.get("opponent"@)->0.get("handle"@) == Some(JsonView::Str(them.handle))
            &&& m.get("opponent"@)->0.get("country"@) == Some(JsonView::Str(them.country))
        }),
{
    broadcast use lemma_with_read;

    lemma_keys();
}

/// Both sides of an offer hear of it, each with the other as the opponent, and it
/// is written down with both accounts; nobody else hears.
pub proof fn law_an_offer_reaches_both(
    rules: Seq<RulesetView>,
    c: ConfigView,
    p: PendingView,
    x: Seq<char>,
)
    ensures
        ({
            let out = offer_effects(rules, c, p);
            &&& hears_offer(out, p.a.player_id, p, p.b, c.automatch_accept_secs)
            &&& hears_offer(out, p.b.player_id, p, p.a, c.automatch_accept_secs)
            &&& super::ops::hears(out, x) == (x == p.a.player_id || x == p.b.player_id)
            &&& exists|i: int|
                0 <= i < out.len() && (#[trigger] out[i]) is Pairing && out[i]->Pairing_match_id
                    == p.match_id && out[i]->Pairing_a == p.a.account_id && out[i]->Pairing_b
                    == p.b.account_id
        }),
{
    let out = offer_effects(rules, c, p);
    let rs = crate::automatch::rulesets::resolved(rules, p.key.game_name, p.key.ruleset_id);
    lemma_found_says(rs, p, p.b, c.automatch_accept_secs);
    lemma_found_says(rs, p, p.a, c.automatch_accept_secs);
    assert(out[0] is Pairing);
    assert(out[1] is Send);
    assert(out[2] is Send);
}

// ------------------------------------------------------------- the pair's room

/// Whether a connection is told its seat in the room of its pair.
pub open spec fn hears_seat(out: Seq<EffectView>, to: Seq<char>, lid: Seq<char>, sid: u32, slot: int) -> bool {
    exists|i: int|
        0 <= i < out.len() && (#[trigger] out[i]) is Send && out[i]->Send_to == to && {
            let m = out[i]->Send_msg;
            &&& m.get("op"@) == Some(JsonView::Str("joined"@))
            &&& m.get("lobby_id"@) == Some(JsonView::Str(lid))
            &&& m.get("session_id"@) == Some(JsonView::Int(sid as int))
            &&& m.get("local_slot"@) == Some(JsonView::Int(slot))
        }
}

proof fn lemma_seat_says(l: LobbyView, slot: int)
    ensures
        ({
            let m = pair_joined_msg(l, slot);
            &&& m.get("op"@) == Some(JsonView::Str("joined"@))
            &&& m.get("lobby_id"@) == Some(JsonView::Str(l.lobby_id))
            &&& m.get("session_id"@) == Some(JsonView::Int(l.session_id as int))
            &&& m.get("local_slot"@) == Some(JsonView::Int(slot))
        }),
{
    broadcast use lemma_with_read;

    lemma_keys();
}

/// Two who accepted sit in one room of their own, the older ticket in the first
/// seat, under the build and the ruleset of the offer; both connections name it,
/// both are told their seat, its start is due, and that they met is remembered.
pub proof fn law_two_accepts_seat_the_pair(
    h: HubView,
    q: QueueView,
    rules: Seq<RulesetView>,
    p: PendingView,
    lid: Seq<char>,
    now: u64,
    n: int,
)
    requires
        p.a.player_id != p.b.player_id,
        free_to_play(h, p.a.player_id),
        free_to_play(h, p.b.player_id),
        h.lobbies.len() < MAX_LOBBIES,
        forall|k: int| 0 <= k < h.lobbies.len() ==> (#[trigger] h.lobbies[k]).lobby_id != lid,
        0 <= n < rules.len(),
        rules[n].game_name == p.key.game_name,
        rules[n].id == p.key.ruleset_id,
    ensures
        ({
            let (h2, q2, out) = form_step(h, q, rules, p, lid, now);
            &&& h2.lobby(lid) is Some
            &&& h2.client(p.a.player_id) is Some && h2.client(p.a.player_id)->0.lobby_id == Some(lid)
            &&& h2.client(p.b.player_id) is Some && h2.client(p.b.player_id)->0.lobby_id == Some(lid)
            &&& ({
                let l = h2.lobby(lid)->0;
                &&& l.slots.len() == 2
                &&& l.slots[0] is Some && l.slots[0]->0.player_id == p.a.player_id
                &&& l.slots[1] is Some && l.slots[1]->0.player_id == p.b.player_id
                &&& l.game_name == p.key.game_name
                &&& l.game_version == p.key.game_version
                &&& l.disc_fp == p.key.disc_fp
                &&& l.automatch
                &&& hears_seat(out, p.a.player_id, lid, l.session_id, 0)
                &&& hears_seat(out, p.b.player_id, lid, l.session_id, 1)
            })
            &&& h2.lobbies.len() == h.lobbies.len() + 1
            &&& exists|i: int|
                0 <= i < out.len() && (#[trigger] out[i]) == (EffectView::StartLater {
                    lobby_id: lid,
                    match_id: p.match_id,
                })
            &&& q2.tickets == q.tickets
            &&& q2.pending == q.pending
            &&& q2.recent.len() == q.recent.len() + 1
            &&& q2.recent.last() == (PlayedView {
                a: p.a.account_id,
                b: p.b.account_id,
                at: now,
            })
        }),
{
    let game = p.key.game_name;
    let rid = p.key.ruleset_id;
    lemma_first_where(rules, |r: RulesetView| crate::automatch::rulesets::answers(r, game, rid));
    assert(crate::automatch::rulesets::answers(rules[n], game, rid));
    let r = crate::automatch::rulesets::resolved(rules, game, rid)->0;
    let (h2, q2, out) = form_step(h, q, rules, p, lid, now);
    let l = pair_lobby(h, r, p, lid);
    let h1 = HubView {
        lobbies: h.lobbies.push(l),
        next_session: super::join::next_session(h.next_session),
        ..h
    };
    let a = p.a.player_id;
    let b = p.b.player_id;
    lemma_first_where(h.clients, |c: ClientView| c.player_id == a);
    lemma_first_where(h.clients, |c: ClientView| c.player_id == b);
    assert(h1.client(a) == h.client(a));
    assert(h1.client(b) == h.client(b));
    let ca = ClientView { lobby_id: Some(lid), pending_mod_lobby: None, ..h.client(a)->0 };
    lemma_with_client(h1, a, ca);
    let ha = in_pair_room(h1, a, lid);
    assert(ha == h1.with_client(a, ca));
    assert(ha.client(b) == h.client(b));
    let cb = ClientView { lobby_id: Some(lid), pending_mod_lobby: None, ..h.client(b)->0 };
    lemma_with_client(ha, b, cb);
    assert(h2 == ha.with_client(b, cb));
    assert(h2.client(a) == Some(ca));
    assert(h2.client(b) == Some(cb));
    assert(h2.lobbies == h1.lobbies);
    let at = h.lobbies.len() as int;
    assert forall|k: int| 0 <= k < at implies (#[trigger] h1.lobbies[k]).lobby_id != lid by {
        assert(h1.lobbies[k] == h.lobbies[k]);
    }
    lemma_first_is(h1.lobbies, |x: LobbyView| x.lobby_id == lid, at);
    assert(h2.lobby_at(lid) == Some(at));
    lemma_seat_says(l, 0);
    lemma_seat_says(l, 1);
    assert(out[0] is Send && out[0]->Send_to == a);
    assert(out[1] is Send && out[1]->Send_to == b);
    assert(out[out.len() - 1] is StartLater);
    assert(q2.recent.last() == PlayedView { a: p.a.account_id, b: p.b.account_id, at: now });
}

/// The second yes to an offer forms the match: the pair sits in the room, and the
/// offer is gone.
pub proof fn law_the_second_yes_forms_the_match(
    h: HubView,
    q: QueueView,
    rules: Seq<RulesetView>,
    id: Seq<char>,
    msg: InMsg,
    lid: Seq<char>,
    now: u64,
    k: int,
    n: int,
)
    requires
        answers(q, id, msg, k),
        other_said(q.pending[k], id) == Some(true),
        msg.accept == Some(true),
        free_to_play(h, q.pending[k].a.player_id),
        free_to_play(h, q.pending[k].b.player_id),
        h.lobbies.len() < MAX_LOBBIES,
        forall|j: int| 0 <= j < h.lobbies.len() ==> (#[trigger] h.lobbies[j]).lobby_id != lid,
        0 <= n < rules.len(),
        rules[n].game_name == q.pending[k].key.game_name,
        rules[n].id == q.pending[k].key.ruleset_id,
    ensures
        ({
            let (h2, q2, out) = accept_step(h, q, rules, id, msg, lid, now);
            let p = q.pending[k];
            &&& h2.lobby(lid) is Some
            &&& h2.lobby(lid)->0.slots.len() == 2
            &&& h2.lobby(lid)->0.slots[0] is Some && h2.lobby(lid)->0.slots[0]->0.player_id
                == p.a.player_id
            &&& h2.lobby(lid)->0.slots[1] is Some && h2.lobby(lid)->0.slots[1]->0.player_id
                == p.b.player_id
            &&& h2.client(p.a.player_id)->0.lobby_id == Some(lid)
            &&& h2.client(p.b.player_id)->0.lobby_id == Some(lid)
            &&& q2.pending == q.pending.remove(k)
            &&& q2.tickets == q.tickets
        }),
{
    lemma_answers(q, id, msg, k);
    let p = crate::automatch::queue::answered_step(q, id, true).1->0;
    let q1 = crate::automatch::queue::answered_step(q, id, true).0;
    law_two_accepts_seat_the_pair(h, q1, rules, p, lid, now, n);
}

} // verus!
