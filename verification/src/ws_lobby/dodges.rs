//! Who pays for an offer that came to nothing, and who is put back.

use super::input::InMsg;
use super::matching::{
    accept_step, declined_step, dropped_step, lapsed_step, lapses_step, late, offer_effects,
    offers_effects, pairing_step, status_effects, tick_step,
};
use super::model::HubView;
use super::ops::{hears, hears_op, lemma_keys, lemma_with_read};
use super::wire::EffectView;
use crate::automatch::queue::{
    answered_step, offer_at, offers_by_age, removed_step, side_of, PendingView, QueueView, TicketView,
};
use crate::automatch::rulesets::RulesetView;
use crate::config::ConfigView;
use crate::input_relay::since;
use crate::json::JsonView;
use crate::text::opt_view;
use vstd::prelude::*;
use vstd::string::*;

verus! {

/// Whether an account is charged.
pub open spec fn charged(out: Seq<EffectView>, account: Seq<char>) -> bool {
    exists|i: int|
        0 <= i < out.len() && (#[trigger] out[i]) is Strike && out[i]->Strike_account == account
}

/// Whether a connection is told that it waits again, and why.
pub open spec fn hears_requeue(out: Seq<EffectView>, p: Seq<char>, reason: Seq<char>) -> bool {
    exists|i: int|
        0 <= i < out.len() && (#[trigger] out[i]) is Send && out[i]->Send_to == p && {
            let m = out[i]->Send_msg;
            &&& m.get("op"@) == Some(JsonView::Str("automatch_requeue"@))
            &&& m.get("reason"@) == Some(JsonView::Str(reason))
            &&& m.get("queued"@) == Some(JsonView::Bool(true))
        }
}

/// Whether an offer of `key`'s title is settled at the cost of `bad`: nobody else
/// is charged, `bad` is, under `kind`, and `other` is first in the queue again and
/// told so, where its connection still stands. Nothing else changes.
pub open spec fn settled_against(
    h: HubView,
    q: QueueView,
    q2: QueueView,
    out: Seq<EffectView>,
    bad: TicketView,
    other: TicketView,
    game: Seq<char>,
    kind: Seq<char>,
    reason: Seq<char>,
) -> bool {
    &&& charged(out, bad.account_id)
    &&& forall|i: int|
        0 <= i < out.len() && (#[trigger] out[i]) is Strike ==> out[i]->Strike_account
            == bad.account_id && out[i]->Strike_kind == kind && out[i]->Strike_game == game
    &&& exists|i: int|
        0 <= i < out.len() && (#[trigger] out[i]) == (EffectView::TellDeclined {
            to: bad.player_id,
            account: bad.account_id,
        })
    &&& h.client(other.player_id) is Some ==> {
        &&& q2.tickets.len() == q.tickets.len() + 1
        &&& q2.tickets[0] == other
        &&& q2.tickets.skip(1) == q.tickets
        &&& hears_requeue(out, other.player_id, reason)
    }
    &&& h.client(other.player_id) is None ==> q2.tickets == q.tickets
    &&& forall|i: int|
        0 <= i < out.len() && (#[trigger] out[i]) is Send ==> out[i]->Send_to == other.player_id
    &&& q2.pending == q.pending
    &&& q2.recent == q.recent
}

proof fn lemma_declined_is(
    h: HubView,
    q: QueueView,
    p: PendingView,
    loser: Seq<char>,
    kind: Seq<char>,
)
    requires
        p.a.player_id != p.b.player_id,
        loser == p.a.player_id || loser == p.b.player_id,
    ensures
        ({
            let (q2, out) = declined_step(h, q, p, loser, kind);
            let (bad, other) = if loser == p.a.player_id {
                (p.a, p.b)
            } else {
                (p.b, p.a)
            };
            settled_against(
                h,
                q,
                q2,
                out,
                bad,
                other,
                p.key.game_name,
                kind,
                if kind == "decline"@ {
                    "peer_declined"@
                } else {
                    "peer_timeout"@
                },
            )
        }),
{
    broadcast use lemma_with_read;

    lemma_keys();
    let (q2, out) = declined_step(h, q, p, loser, kind);
    assert(out[0] is Strike);
    assert(out[2] is TellDeclined);
    let other = if loser == p.a.player_id {
        p.b
    } else {
        p.a
    };
    if h.client(other.player_id) is Some {
        assert(q2.tickets.skip(1) =~= q.tickets);
        assert(out[3] is Send);
    }
}

/// When an offer lapses and one side had accepted while the other had not, the
/// other side pays, and nobody else; the side that accepted is first in the
/// queue again where it is still connected.
pub proof fn law_a_lapse_costs_the_silent_side(h: HubView, q: QueueView, p: PendingView)
    requires
        p.a.player_id != p.b.player_id,
        (p.a_accept == Some(true)) != (p.b_accept == Some(true)),
    ensures
        ({
            let (q2, out) = lapsed_step(h, q, p);
            let (yes, no) = if p.a_accept == Some(true) {
                (p.a, p.b)
            } else {
                (p.b, p.a)
            };
            settled_against(
                h,
                q,
                q2,
                out,
                no,
                yes,
                p.key.game_name,
                "timeout"@,
                "peer_timeout"@,
            )
        }),
{
    reveal_strlit("timeout");
    reveal_strlit("decline");
    assert("timeout"@[0] != "decline"@[0]);
    lemma_declined_is(h, q, p, p.a.player_id, "timeout"@);
    lemma_declined_is(h, q, p, p.b.player_id, "timeout"@);
}

/// When an offer lapses that neither side accepted, both pay, and neither waits
/// any longer.
pub proof fn law_a_lapse_costs_two_silent_sides(h: HubView, q: QueueView, p: PendingView)
    requires
        p.a_accept != Some(true),
        p.b_accept != Some(true),
    ensures
        ({
            let (q2, out) = lapsed_step(h, q, p);
            &&& charged(out, p.a.account_id)
            &&& charged(out, p.b.account_id)
            &&& forall|i: int|
                0 <= i < out.len() && (#[trigger] out[i]) is Strike ==> out[i]->Strike_account
                    == p.a.account_id || out[i]->Strike_account == p.b.account_id
            &&& hears_op(out, p.a.player_id, "automatch_cancelled"@)
            &&& hears_op(out, p.b.player_id, "automatch_cancelled"@)
            &&& q2 == q
        }),
{
    broadcast use lemma_with_read;

    lemma_keys();
    let (q2, out) = lapsed_step(h, q, p);
    assert(out[0] is Strike);
    assert(out[1] is Send);
    assert(out[2] is Strike);
    assert(out[3] is Send);
}

// ---------------------------------------------------------------- a beat

/// Whether an offer has stood for the time that there is to accept it.
pub open spec fn ran_out(p: PendingView, accept_secs: u64, now: u64) -> bool {
    since(p.offered_at, now) / 1000 >= accept_secs
}

/// Whether an account is a side of an offer, and did not accept it.
pub open spec fn stayed_silent(p: PendingView, account: Seq<char>) -> bool {
    (p.a.account_id == account && p.a_accept != Some(true)) || (p.b.account_id == account
        && p.b_accept != Some(true))
}

proof fn lemma_lapse_charges(h: HubView, q: QueueView, p: PendingView, x: Seq<char>)
    requires
        p.a.player_id != p.b.player_id,
        !(p.a_accept == Some(true) && p.b_accept == Some(true)),
    ensures
        charged(lapsed_step(h, q, p).1, x) == stayed_silent(p, x),
{
    let out = lapsed_step(h, q, p).1;
    if (p.a_accept == Some(true)) != (p.b_accept == Some(true)) {
        law_a_lapse_costs_the_silent_side(h, q, p);
    } else {
        law_a_lapse_costs_two_silent_sides(h, q, p);
    }
}

proof fn lemma_charged_sum(a: Seq<EffectView>, b: Seq<EffectView>, x: Seq<char>)
    ensures
        charged(a + b, x) == (charged(a, x) || charged(b, x)),
{
    let s = a + b;
    if charged(a, x) {
        let i = choose|i: int| 0 <= i < a.len() && (#[trigger] a[i]) is Strike && a[i]->Strike_account == x;
        assert(s[i] == a[i]);
    }
    if charged(b, x) {
        let i = choose|i: int| 0 <= i < b.len() && (#[trigger] b[i]) is Strike && b[i]->Strike_account == x;
        assert(s[a.len() + i] == b[i]);
    }
    if charged(s, x) {
        let i = choose|i: int| 0 <= i < s.len() && (#[trigger] s[i]) is Strike && s[i]->Strike_account == x;
        if i < a.len() {
            assert(a[i] is Strike);
        } else {
            assert(b[i - a.len()] is Strike);
        }
    }
}

proof fn lemma_lapses_charge(h: HubView, q: QueueView, ps: Seq<PendingView>, x: Seq<char>)
    requires
        forall|k: int|
            0 <= k < ps.len() ==> (#[trigger] ps[k]).a.player_id != ps[k].b.player_id && !(
            ps[k].a_accept == Some(true) && ps[k].b_accept == Some(true)),
    ensures
        charged(lapses_step(h, q, ps).1, x) == exists|k: int|
            0 <= k < ps.len() && stayed_silent(#[trigger] ps[k], x),
    decreases ps.len(),
{
    if ps.len() > 0 {
        let d = ps.drop_last();
        assert forall|k: int| 0 <= k < d.len() implies (#[trigger] d[k]).a.player_id
            != d[k].b.player_id && !(d[k].a_accept == Some(true) && d[k].b_accept == Some(true)) by {
            assert(d[k] == ps[k]);
        }
        lemma_lapses_charge(h, q, d, x);
        let (q1, e1) = lapses_step(h, q, d);
        let (q2, e2) = lapsed_step(h, q1, ps.last());
        assert(ps[ps.len() - 1] == ps.last());
        lemma_lapse_charges(h, q1, ps.last(), x);
        lemma_charged_sum(e1, e2, x);
        if exists|k: int| 0 <= k < ps.len() && stayed_silent(#[trigger] ps[k], x) {
            let k = choose|k: int| 0 <= k < ps.len() && stayed_silent(#[trigger] ps[k], x);
            if k < d.len() {
                assert(stayed_silent(d[k], x));
            }
        }
        if exists|k: int| 0 <= k < d.len() && stayed_silent(#[trigger] d[k], x) {
            let k = choose|k: int| 0 <= k < d.len() && stayed_silent(#[trigger] d[k], x);
            assert(stayed_silent(ps[k], x));
        }
    }
}

proof fn lemma_by_age(ps: Seq<PendingView>, accept_secs: u64, now: u64, gone: bool, p: PendingView)
    ensures
        offers_by_age(ps, accept_secs, now, gone).contains(p) == (ps.contains(p) && ran_out(
            p,
            accept_secs,
            now,
        ) == gone),
    decreases ps.len(),
{
    if ps.len() > 0 {
        let d = ps.drop_last();
        let rest = offers_by_age(d, accept_secs, now, gone);
        let all = offers_by_age(ps, accept_secs, now, gone);
        lemma_by_age(d, accept_secs, now, gone, p);
        if ps.contains(p) {
            let k = choose|k: int| 0 <= k < ps.len() && ps[k] == p;
            if k < d.len() {
                assert(d[k] == p);
            }
        }
        if d.contains(p) {
            let k = choose|k: int| 0 <= k < d.len() && d[k] == p;
            assert(ps[k] == p);
        }
        if rest.contains(p) {
            let k = choose|k: int| 0 <= k < rest.len() && rest[k] == p;
            assert(all[k] == p);
        }
        if all.contains(p) {
            let k = choose|k: int| 0 <= k < all.len() && all[k] == p;
            if k < rest.len() {
                assert(rest[k] == p);
            } else {
                assert(ps[ps.len() - 1] == p);
            }
        }
        if ps.last() == p && ran_out(p, accept_secs, now) == gone {
            assert(ps[ps.len() - 1] == p);
            assert(all[rest.len() as int] == p);
        }
    }
}

proof fn lemma_offers_charge_nobody(
    rules: Seq<RulesetView>,
    c: ConfigView,
    ps: Seq<PendingView>,
    x: Seq<char>,
)
    ensures
        !charged(offers_effects(rules, c, ps), x),
    decreases ps.len(),
{
    if ps.len() > 0 {
        lemma_offers_charge_nobody(rules, c, ps.drop_last(), x);
        lemma_charged_sum(
            offers_effects(rules, c, ps.drop_last()),
            offer_effects(rules, c, ps.last()),
            x,
        );
    }
}

/// A beat charges exactly those who let an offer run out without accepting it.
pub proof fn law_a_beat_charges_the_silent(
    h: HubView,
    q: QueueView,
    rules: Seq<RulesetView>,
    c: ConfigView,
    ids: Seq<Seq<char>>,
    now: u64,
    x: Seq<char>,
)
    requires
        forall|k: int|
            0 <= k < q.pending.len() ==> (#[trigger] q.pending[k]).a.player_id
                != q.pending[k].b.player_id && !(q.pending[k].a_accept == Some(true)
                && q.pending[k].b_accept == Some(true)),
    ensures
        charged(tick_step(h, q, rules, c, ids, now).1, x) == exists|k: int|
            0 <= k < q.pending.len() && ran_out(
                #[trigger] q.pending[k],
                c.automatch_accept_secs,
                now,
            ) && stayed_silent(q.pending[k], x),
{
    let n = c.automatch_accept_secs;
    let gone = offers_by_age(q.pending, n, now, true);
    let q0 = QueueView { pending: offers_by_age(q.pending, n, now, false), ..q };
    let (q1, e1) = lapses_step(h, q0, gone);
    let (q2, e2) = pairing_step(h, q1, rules, c, ids, now);
    let e3 = status_effects(q2, now);
    assert forall|k: int| 0 <= k < gone.len() implies (#[trigger] gone[k]).a.player_id
        != gone[k].b.player_id && !(gone[k].a_accept == Some(true) && gone[k].b_accept == Some(
        true,
    )) by {
        lemma_by_age(q.pending, n, now, true, gone[k]);
        assert(gone.contains(gone[k]));
        let j = choose|j: int| 0 <= j < q.pending.len() && q.pending[j] == gone[k];
        assert(q.pending[j] == gone[k]);
    }
    lemma_lapses_charge(h, q0, gone, x);
    lemma_pairing_charges_nobody(h, q1, rules, c, ids, now, x);
    assert(!charged(e3, x)) by {
        if charged(e3, x) {
            let i = choose|i: int|
                0 <= i < e3.len() && (#[trigger] e3[i]) is Strike && e3[i]->Strike_account == x;
            assert(e3[i] is Send);
        }
    }
    lemma_charged_sum(e1, e2, x);
    lemma_charged_sum(e1 + e2, e3, x);
    if exists|k: int| 0 <= k < gone.len() && stayed_silent(#[trigger] gone[k], x) {
        let k = choose|k: int| 0 <= k < gone.len() && stayed_silent(#[trigger] gone[k], x);
        lemma_by_age(q.pending, n, now, true, gone[k]);
        assert(gone.contains(gone[k]));
        let j = choose|j: int| 0 <= j < q.pending.len() && q.pending[j] == gone[k];
        assert(ran_out(q.pending[j], n, now));
    }
    if exists|k: int|
        0 <= k < q.pending.len() && ran_out(#[trigger] q.pending[k], n, now) && stayed_silent(
            q.pending[k],
            x,
        ) {
        let k = choose|k: int|
            0 <= k < q.pending.len() && ran_out(#[trigger] q.pending[k], n, now) && stayed_silent(
                q.pending[k],
                x,
            );
        lemma_by_age(q.pending, n, now, true, q.pending[k]);
        assert(q.pending.contains(q.pending[k]));
        let j = choose|j: int| 0 <= j < gone.len() && gone[j] == q.pending[k];
        assert(stayed_silent(gone[j], x));
    }
}

proof fn lemma_pairing_charges_nobody(
    h: HubView,
    q: QueueView,
    rules: Seq<RulesetView>,
    c: ConfigView,
    ids: Seq<Seq<char>>,
    now: u64,
    x: Seq<char>,
)
    ensures
        !charged(pairing_step(h, q, rules, c, ids, now).1, x),
{
    let cooldown = c.automatch_rematch_cooldown_secs;
    let ps = crate::automatch::queue::pairing(
        crate::automatch::queue::refreshed(q, cooldown, now),
        ids,
        cooldown,
        now,
        super::matching::busy_players(h, q.tickets),
    ).1;
    lemma_offers_charge_nobody(rules, c, ps, x);
}

// ------------------------------------------------------------- the answers

/// Whether the offer at `k` is the first that a connection is half of, and a
/// message of it is an answer to that offer.
pub open spec fn answers(q: QueueView, id: Seq<char>, msg: InMsg, k: int) -> bool {
    &&& 0 <= k < q.pending.len()
    &&& q.pending[k].a.player_id == id || q.pending[k].b.player_id == id
    &&& q.pending[k].a.player_id != q.pending[k].b.player_id
    &&& forall|j: int|
        0 <= j < k ==> (#[trigger] q.pending[j]).a.player_id != id && q.pending[j].b.player_id != id
    &&& msg.match_id matches Some(m) ==> m@.len() == 0 || m@ == q.pending[k].match_id
}

/// What the other side of an offer has said.
pub open spec fn other_said(p: PendingView, id: Seq<char>) -> Option<bool> {
    if p.a.player_id == id {
        p.b_accept
    } else {
        p.a_accept
    }
}

pub proof fn lemma_answers(q: QueueView, id: Seq<char>, msg: InMsg, k: int)
    requires
        answers(q, id, msg, k),
    ensures
        offer_at(q.pending, id) == Some(k),
        !late(q, id, opt_view(msg.match_id)),
{
    crate::find::lemma_first_is(
        q.pending,
        |p: PendingView| side_of(p, id) is Some,
        k,
    );
}

/// A first answer is kept, and changes nothing else: the offer stands with it,
/// nobody is charged, nobody is put back.
pub proof fn law_a_first_answer_waits(
    h: HubView,
    q: QueueView,
    rules: Seq<RulesetView>,
    id: Seq<char>,
    msg: InMsg,
    lid: Seq<char>,
    now: u64,
    k: int,
    x: Seq<char>,
)
    requires
        answers(q, id, msg, k),
        other_said(q.pending[k], id) is None,
    ensures
        ({
            let (h2, q2, out) = accept_step(h, q, rules, id, msg, lid, now);
            let p = q.pending[k];
            let p2 = q2.pending[k];
            let said = Some(msg.accept == Some(true));
            &&& h2 == h
            &&& q2.tickets == q.tickets
            &&& q2.pending.len() == q.pending.len()
            &&& p2.match_id == p.match_id && p2.a == p.a && p2.b == p.b && p2.offered_at == p.offered_at
            &&& if p.a.player_id == id {
                p2.a_accept == said && p2.b_accept == p.b_accept
            } else {
                p2.b_accept == said && p2.a_accept == p.a_accept
            }
            &&& forall|j: int|
                0 <= j < q.pending.len() && j != k ==> #[trigger] q2.pending[j] == q.pending[j]
            &&& !charged(out, x)
            &&& hears(out, x) == (x == id)
        }),
{
    lemma_answers(q, id, msg, k);
    let (h2, q2, out) = accept_step(h, q, rules, id, msg, lid, now);
    assert(out.len() == 1);
    assert(out[0] is Send);
}

/// Whoever says no to an offer that the other side accepted pays, and nobody
/// else; the other side is first in the queue again, where it is still connected.
/// The same goes for one whose yes comes after the other's no.
pub proof fn law_a_refusal_costs_the_refuser(
    h: HubView,
    q: QueueView,
    rules: Seq<RulesetView>,
    id: Seq<char>,
    msg: InMsg,
    lid: Seq<char>,
    now: u64,
    k: int,
)
    requires
        answers(q, id, msg, k),
        other_said(q.pending[k], id) == Some(!(msg.accept == Some(true))),
    ensures
        ({
            let (h2, q2, out) = accept_step(h, q, rules, id, msg, lid, now);
            let p = q.pending[k];
            let (me, peer) = if p.a.player_id == id {
                (p.a, p.b)
            } else {
                (p.b, p.a)
            };
            let (no, yes) = if msg.accept == Some(true) {
                (peer, me)
            } else {
                (me, peer)
            };
            &&& h2 == h
            &&& out.len() > 0
            &&& out[0] is Send && out[0]->Send_to == id
            &&& settled_against(
                h,
                QueueView { pending: q.pending.remove(k), ..q },
                q2,
                out.skip(1),
                no,
                yes,
                p.key.game_name,
                "decline"@,
                "peer_declined"@,
            )
        }),
{
    lemma_answers(q, id, msg, k);
    let (h2, q2, out) = accept_step(h, q, rules, id, msg, lid, now);
    let accept = msg.accept == Some(true);
    let p = q.pending[k];
    let (q1, done) = answered_step(q, id, accept);
    let p1 = done->0;
    lemma_declined_is(h, q1, p1, p.a.player_id, "decline"@);
    lemma_declined_is(h, q1, p1, p.b.player_id, "decline"@);
    let loser = if p1.a_accept == Some(false) {
        p1.a.player_id
    } else {
        p1.b.player_id
    };
    assert(out.skip(1) =~= declined_step(h, q1, p1, loser, "decline"@).1);
}

/// Whoever leaves the queue while an offer stands pays for it, and the other side
/// is put back first; without an offer nobody pays. No ticket of theirs is left.
pub proof fn law_leaving_an_offer_costs_the_leaver(h: HubView, q: QueueView, id: Seq<char>, k: int)
    requires
        0 <= k < q.pending.len(),
        q.pending[k].a.player_id == id || q.pending[k].b.player_id == id,
        q.pending[k].a.player_id != q.pending[k].b.player_id,
        forall|j: int|
            0 <= j < k ==> (#[trigger] q.pending[j]).a.player_id != id && q.pending[j].b.player_id
                != id,
    ensures
        ({
            let (q2, out) = dropped_step(h, q, id);
            let p = q.pending[k];
            let (me, peer) = if p.a.player_id == id {
                (p.a, p.b)
            } else {
                (p.b, p.a)
            };
            settled_against(
                h,
                QueueView {
                    tickets: q.tickets.filter(|t: TicketView| t.player_id != id),
                    pending: q.pending.remove(k),
                    ..q
                },
                q2,
                out,
                me,
                peer,
                p.key.game_name,
                "timeout"@,
                "peer_timeout"@,
            )
        }),
{
    crate::find::lemma_first_is(q.pending, |p: PendingView| side_of(p, id) is Some, k);
    reveal_strlit("timeout");
    reveal_strlit("decline");
    assert("timeout"@[0] != "decline"@[0]);
    lemma_without_is(q.tickets, id);
    lemma_declined_is(h, removed_step(q, id).0, q.pending[k], id, "timeout"@);
}

proof fn lemma_without_is(ts: Seq<TicketView>, id: Seq<char>)
    ensures
        crate::automatch::queue::without_player(ts, id) == ts.filter(
            |t: TicketView| t.player_id != id,
        ),
    decreases ts.len(),
{
    reveal(Seq::filter);
    if ts.len() > 0 {
        lemma_without_is(ts.drop_last(), id);
    }
}

} // verus!
