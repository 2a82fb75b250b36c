//! No message, no beat and no departure gives an account a second place in the
//! queue.

use super::dispatch::{
    dispatch, goodbye_step, match_op, room_op, seat_op, talk_op, Given, LobbyState, World,
};
use super::input::InMsg;
use super::matching::{
    accept_step, declined_step, dropped_step, form_step, lapses_step, pairing_step, put_back,
    queue_step, rtt_step, tick_step,
};
use super::model::HubView;
use crate::automatch::places::{
    law_pairing_keeps_places, lemma_sides_by_age, lemma_sides_remove, lemma_sides_update,
    lemma_tickets_front, lemma_tickets_push, lemma_tickets_update, lemma_tickets_without,
    lemma_unknown_has_no_place, one_if, places, sides, sides_of, single,
};
use crate::automatch::queue::{
    answered_step, offer_at, offers_by_age, refreshed, removed_step, side_of, ticket_at,
    PendingView, QueueView, TicketView,
};
use crate::automatch::rulesets::RulesetView;
use crate::config::ConfigView;
use crate::find::lemma_first_where;
use crate::input_relay::RelayView;
use super::chat::Login;
use vstd::prelude::*;

verus! {

// --------------------------------------------------------- places in the queue

proof fn lemma_put_back(q: QueueView, t: TicketView, account: Seq<char>)
    ensures
        places(put_back(q, t), account) == places(q, account) + one_if(
            t.account_id == account,
        ),
{
    lemma_tickets_front(q.tickets, t, account);
}

/// Settling an offer gives nobody more places than the offer took up.
proof fn lemma_declined(
    h: HubView,
    q: QueueView,
    p: PendingView,
    loser: Seq<char>,
    kind: Seq<char>,
    account: Seq<char>,
)
    ensures
        places(declined_step(h, q, p, loser, kind).0, account) <= places(q, account) + sides(
            p,
            account,
        ),
{
    lemma_put_back(q, p.a, account);
    lemma_put_back(q, p.b, account);
}

proof fn lemma_formed(
    h: HubView,
    q: QueueView,
    rules: Seq<RulesetView>,
    p: PendingView,
    lid: Seq<char>,
    now: u64,
    account: Seq<char>,
)
    ensures
        places(form_step(h, q, rules, p, lid, now).1, account) <= places(q, account) + sides(
            p,
            account,
        ),
{
    let q1 = QueueView {
        recent: q.recent.push(
            crate::automatch::queue::PlayedView { a: p.a.account_id, b: p.b.account_id, at: now },
        ),
        ..q
    };
    lemma_put_back(q1, p.a, account);
    lemma_put_back(q1, p.b, account);
}

proof fn lemma_lapses(
    h: HubView,
    q: QueueView,
    ps: Seq<PendingView>,
    account: Seq<char>,
)
    ensures
        places(lapses_step(h, q, ps).0, account) <= places(q, account) + sides_of(ps, account),
    decreases ps.len(),
{
    if ps.len() > 0 {
        lemma_lapses(h, q, ps.drop_last(), account);
        let q1 = lapses_step(h, q, ps.drop_last()).0;
        let p = ps.last();
        lemma_declined(h, q1, p, p.a.player_id, "timeout"@, account);
        lemma_declined(h, q1, p, p.b.player_id, "timeout"@, account);
    }
}

proof fn lemma_paired(
    h: HubView,
    q: QueueView,
    rules: Seq<RulesetView>,
    c: ConfigView,
    ids: Seq<Seq<char>>,
    now: u64,
    account: Seq<char>,
)
    ensures
        places(pairing_step(h, q, rules, c, ids, now).0, account) == places(q, account),
{
    let cooldown = c.automatch_rematch_cooldown_secs;
    law_pairing_keeps_places(
        refreshed(q, cooldown, now),
        ids,
        cooldown,
        now,
        super::matching::busy_players(h, q.tickets),
        account,
    );
}

proof fn lemma_answered(q: QueueView, player: Seq<char>, accept: bool, account: Seq<char>)
    ensures
        ({
            let (q2, p) = answered_step(q, player, accept);
            places(q2, account) + (match p {
                Some(p) => sides(p, account),
                None => 0,
            }) == places(q, account)
        }),
{
    lemma_first_where(q.pending, |p: PendingView| side_of(p, player) is Some);
    if let Some(i) = offer_at(q.pending, player) {
        let p = q.pending[i];
        lemma_sides_remove(q.pending, i, account);
        lemma_sides_update(q.pending, i, PendingView { a_accept: Some(accept), ..p }, account);
        lemma_sides_update(q.pending, i, PendingView { b_accept: Some(accept), ..p }, account);
    }
}

proof fn lemma_removed(q: QueueView, player: Seq<char>, account: Seq<char>)
    ensures
        ({
            let (q2, p) = removed_step(q, player);
            places(q2, account) + (match p {
                Some(p) => sides(p, account),
                None => 0,
            }) <= places(q, account)
        }),
{
    lemma_tickets_without(q.tickets, player, account);
    lemma_first_where(q.pending, |p: PendingView| side_of(p, player) is Some);
    if let Some(i) = offer_at(q.pending, player) {
        lemma_sides_remove(q.pending, i, account);
    }
}

proof fn lemma_dropped(h: HubView, q: QueueView, id: Seq<char>, account: Seq<char>)
    ensures
        places(dropped_step(h, q, id).0, account) <= places(q, account),
{
    lemma_removed(q, id, account);
    let (q2, p) = removed_step(q, id);
    if let Some(p) = p {
        lemma_declined(h, q2, p, id, "timeout"@, account);
    }
}

proof fn lemma_accepted(
    h: HubView,
    q: QueueView,
    rules: Seq<RulesetView>,
    id: Seq<char>,
    msg: InMsg,
    lid: Seq<char>,
    now: u64,
    account: Seq<char>,
)
    ensures
        places(accept_step(h, q, rules, id, msg, lid, now).1, account) <= places(q, account),
{
    let accept = msg.accept == Some(true);
    lemma_answered(q, id, accept, account);
    let (q2, done) = answered_step(q, id, accept);
    if let Some(p) = done {
        lemma_formed(h, q2, rules, p, lid, now, account);
        lemma_declined(h, q2, p, p.a.player_id, "decline"@, account);
        lemma_declined(h, q2, p, p.b.player_id, "decline"@, account);
    }
}

proof fn lemma_probed(h: HubView, q: QueueView, id: Seq<char>, raw: Option<i64>, account: Seq<char>)
    ensures
        places(rtt_step(h, q, id, raw).1, account) == places(q, account),
{
    lemma_first_where(q.tickets, |t: TicketView| t.player_id == id);
    if let Some(i) = ticket_at(q.tickets, id) {
        lemma_tickets_update(q.tickets, i, rtt_step(h, q, id, raw).1.tickets[i], account);
    }
}

proof fn lemma_queued(
    h: HubView,
    q: QueueView,
    rules: Seq<RulesetView>,
    r: RelayView,
    c: ConfigView,
    id: Seq<char>,
    msg: InMsg,
    tid: Seq<char>,
    cool: u64,
    now: u64,
)
    requires
        single(q),
    ensures
        single(queue_step(h, q, rules, r, c, id, msg, tid, cool, now).0),
{
    let (q2, e, stands) = queue_step(h, q, rules, r, c, id, msg, tid, cool, now);
    if stands {
        let mine = h.client(id)->0.account->0.id;
        lemma_unknown_has_no_place(q, mine);
        assert forall|account: Seq<char>| #[trigger] places(q2, account) <= 1 by {
            lemma_tickets_push(q.tickets, q2.tickets.last(), account);
            assert(q2.tickets =~= q.tickets.push(q2.tickets.last()));
            assert(places(q, account) <= 1);
        }
    }
}

/// Only the messages about matches touch the queue.
proof fn lemma_queue_untouched(
    s: LobbyState,
    w: World,
    id: Seq<char>,
    peer_ip: Seq<char>,
    msg: InMsg,
    g: Given,
)
    ensures
        room_op(s, w, id, peer_ip, msg, g) matches Some(o) ==> o.state.queue == s.queue,
        seat_op(s, id, msg) matches Some(o) ==> o.state.queue == s.queue,
{
}

proof fn lemma_queue_unspoken(s: LobbyState, w: World, id: Seq<char>, msg: InMsg, g: Given)
    ensures
        talk_op(s, w, id, msg, g) matches Some(o) ==> o.state.queue == s.queue,
{
}

proof fn lemma_match_op(
    s: LobbyState,
    w: World,
    id: Seq<char>,
    msg: InMsg,
    g: Given,
    ids: Seq<Seq<char>>,
)
    requires
        single(s.queue),
    ensures
        match_op(s, w, id, msg, g, ids) matches Some(o) ==> single(o.state.queue),
{
    let q = s.queue;
    if let Some(o) = match_op(s, w, id, msg, g, ids) {
        lemma_queued(s.hub, q, w.rules, s.relay, w.config, id, msg, g.ticket_id@, g.cool, g.now);
        let q1 = queue_step(s.hub, q, w.rules, s.relay, w.config, id, msg, g.ticket_id@, g.cool, g.now).0;
        assert forall|account: Seq<char>| #[trigger] places(o.state.queue, account) <= 1 by {
            assert(places(q, account) <= 1);
            assert(places(q1, account) <= 1);
            lemma_paired(s.hub, q1, w.rules, w.config, ids, g.now, account);
            lemma_dropped(s.hub, q, id, account);
            lemma_accepted(s.hub, q, w.rules, id, msg, g.lobby_id@, g.now, account);
            lemma_probed(s.hub, q, id, msg.rtt_ms, account);
        }
    }
}

/// No message gives an account a second place in the queue.
#[verifier::rlimit(50)]
pub proof fn law_messages_keep_one_place(
    s: LobbyState,
    w: World,
    id: Seq<char>,
    peer_ip: Seq<char>,
    msg: InMsg,
    login: Login,
    g: Given,
    ids: Seq<Seq<char>>,
)
    requires
        single(s.queue),
    ensures
        single(dispatch(s, w, id, peer_ip, msg, login, g, ids).state.queue),
{
    lemma_queue_untouched(s, w, id, peer_ip, msg, g);
    lemma_queue_unspoken(s, w, id, msg, g);
    lemma_match_op(s, w, id, msg, g, ids);
}

/// No beat gives an account a second place in the queue.
pub proof fn law_beats_keep_one_place(
    h: HubView,
    q: QueueView,
    rules: Seq<RulesetView>,
    c: ConfigView,
    ids: Seq<Seq<char>>,
    now: u64,
)
    requires
        single(q),
    ensures
        single(tick_step(h, q, rules, c, ids, now).0),
{
    let gone = offers_by_age(q.pending, c.automatch_accept_secs, now, true);
    let q0 = QueueView {
        pending: offers_by_age(q.pending, c.automatch_accept_secs, now, false),
        ..q
    };
    let q1 = lapses_step(h, q0, gone).0;
    assert forall|account: Seq<char>|
        #[trigger] places(tick_step(h, q, rules, c, ids, now).0, account) <= 1 by {
        assert(places(q, account) <= 1);
        lemma_sides_by_age(q.pending, c.automatch_accept_secs, now, account);
        lemma_lapses(h, q0, gone, account);
        lemma_paired(h, q1, rules, c, ids, now, account);
    }
}

/// No departure gives an account a second place in the queue.
pub proof fn law_goodbyes_keep_one_place(s: LobbyState, id: Seq<char>)
    requires
        single(s.queue),
    ensures
        single(goodbye_step(s, id).0.queue),
{
    assert forall|account: Seq<char>|
        #[trigger] places(goodbye_step(s, id).0.queue, account) <= 1 by {
        assert(places(s.queue, account) <= 1);
        lemma_dropped(s.hub, s.queue, id, account);
    }
}

/// The queue begins with nobody in it.
pub proof fn law_a_new_queue_is_single(q: QueueView)
    requires
        q.tickets.len() == 0,
        q.pending.len() == 0,
    ensures
        single(q),
{
}

} // verus!
