//! Where an account stands: in a ticket, in an open offer, or nowhere.

use super::queue::{
    offered, offers_by_age, pair_from, pairing, without_player, KeyView, PendingView, QueueView,
    TicketView,
};
use vstd::prelude::*;

verus! {

/// How many tickets an account has.
pub open spec fn tickets_of(ts: Seq<TicketView>, account: Seq<char>) -> nat
    decreases ts.len(),
{
    if ts.len() == 0 {
        0
    } else {
        tickets_of(ts.drop_last(), account) + one_if(ts.last().account_id == account)
    }
}

pub open spec fn one_if(b: bool) -> nat {
    if b {
        1
    } else {
        0
    }
}

/// How many sides of an offer an account is.
pub open spec fn sides(p: PendingView, account: Seq<char>) -> nat {
    one_if(p.a.account_id == account) + one_if(p.b.account_id == account)
}

/// How many sides of some offers an account is.
pub open spec fn sides_of(ps: Seq<PendingView>, account: Seq<char>) -> nat
    decreases ps.len(),
{
    if ps.len() == 0 {
        0
    } else {
        sides_of(ps.drop_last(), account) + sides(ps.last(), account)
    }
}

/// How many places in the queue an account has.
pub open spec fn places(q: QueueView, account: Seq<char>) -> nat {
    tickets_of(q.tickets, account) + sides_of(q.pending, account)
}

/// No account stands in the queue twice.
pub open spec fn single(q: QueueView) -> bool {
    forall|account: Seq<char>| #[trigger] places(q, account) <= 1
}

pub proof fn lemma_tickets_push(ts: Seq<TicketView>, t: TicketView, account: Seq<char>)
    ensures
        tickets_of(ts.push(t), account) == tickets_of(ts, account) + one_if(
            t.account_id == account,
        ),
{
    assert(ts.push(t).drop_last() =~= ts);
}

pub proof fn lemma_tickets_remove(ts: Seq<TicketView>, i: int, account: Seq<char>)
    requires
        0 <= i < ts.len(),
    ensures
        tickets_of(ts.remove(i), account) + one_if(ts[i].account_id == account) == tickets_of(
            ts,
            account,
        ),
    decreases ts.len(),
{
    if i == ts.len() - 1 {
        assert(ts.remove(i) =~= ts.drop_last());
    } else {
        lemma_tickets_remove(ts.drop_last(), i, account);
        assert(ts.remove(i).drop_last() =~= ts.drop_last().remove(i));
        assert(ts.remove(i).last() == ts.last());
    }
}

pub proof fn lemma_tickets_front(ts: Seq<TicketView>, t: TicketView, account: Seq<char>)
    ensures
        tickets_of(ts.insert(0, t), account) == tickets_of(ts, account) + one_if(
            t.account_id == account,
        ),
{
    lemma_tickets_remove(ts.insert(0, t), 0, account);
    assert(ts.insert(0, t).remove(0) =~= ts);
}

pub proof fn lemma_tickets_update(ts: Seq<TicketView>, i: int, t: TicketView, account: Seq<char>)
    requires
        0 <= i < ts.len(),
        t.account_id == ts[i].account_id,
    ensures
        tickets_of(ts.update(i, t), account) == tickets_of(ts, account),
{
    lemma_tickets_remove(ts, i, account);
    lemma_tickets_remove(ts.update(i, t), i, account);
    assert(ts.update(i, t).remove(i) =~= ts.remove(i));
}

pub proof fn lemma_tickets_without(ts: Seq<TicketView>, player: Seq<char>, account: Seq<char>)
    ensures
        tickets_of(without_player(ts, player), account) <= tickets_of(ts, account),
    decreases ts.len(),
{
    if ts.len() > 0 {
        lemma_tickets_without(ts.drop_last(), player, account);
        lemma_tickets_push(without_player(ts.drop_last(), player), ts.last(), account);
    }
}

pub proof fn lemma_sides_push(ps: Seq<PendingView>, p: PendingView, account: Seq<char>)
    ensures
        sides_of(ps.push(p), account) == sides_of(ps, account) + sides(p, account),
{
    assert(ps.push(p).drop_last() =~= ps);
}

pub proof fn lemma_sides_remove(ps: Seq<PendingView>, i: int, account: Seq<char>)
    requires
        0 <= i < ps.len(),
    ensures
        sides_of(ps.remove(i), account) + sides(ps[i], account) == sides_of(ps, account),
    decreases ps.len(),
{
    if i == ps.len() - 1 {
        assert(ps.remove(i) =~= ps.drop_last());
    } else {
        lemma_sides_remove(ps.drop_last(), i, account);
        assert(ps.remove(i).drop_last() =~= ps.drop_last().remove(i));
        assert(ps.remove(i).last() == ps.last());
    }
}

pub proof fn lemma_sides_update(ps: Seq<PendingView>, i: int, p: PendingView, account: Seq<char>)
    requires
        0 <= i < ps.len(),
        p.a == ps[i].a,
        p.b == ps[i].b,
    ensures
        sides_of(ps.update(i, p), account) == sides_of(ps, account),
{
    lemma_sides_remove(ps, i, account);
    lemma_sides_remove(ps.update(i, p), i, account);
    assert(ps.update(i, p).remove(i) =~= ps.remove(i));
}

/// The offers that lapsed and those that did not are all the offers.
pub proof fn lemma_sides_by_age(
    ps: Seq<PendingView>,
    accept_secs: u64,
    now: u64,
    account: Seq<char>,
)
    ensures
        sides_of(offers_by_age(ps, accept_secs, now, true), account) + sides_of(
            offers_by_age(ps, accept_secs, now, false),
            account,
        ) == sides_of(ps, account),
    decreases ps.len(),
{
    if ps.len() > 0 {
        lemma_sides_by_age(ps.drop_last(), accept_secs, now, account);
        lemma_sides_push(
            offers_by_age(ps.drop_last(), accept_secs, now, true),
            ps.last(),
            account,
        );
        lemma_sides_push(
            offers_by_age(ps.drop_last(), accept_secs, now, false),
            ps.last(),
            account,
        );
    }
}

/// Putting two tickets on offer moves their accounts, and no other.
pub proof fn lemma_offered_places(
    q: QueueView,
    i: int,
    j: int,
    key: KeyView,
    id: Seq<char>,
    now: u64,
    account: Seq<char>,
)
    requires
        0 <= i < q.tickets.len(),
        0 <= j < q.tickets.len(),
        i != j,
    ensures
        places(offered(q, i, j, key, id, now).0, account) == places(q, account),
{
    let hi = if i > j {
        i
    } else {
        j
    };
    let lo = if i > j {
        j
    } else {
        i
    };
    lemma_tickets_remove(q.tickets, hi, account);
    lemma_tickets_remove(q.tickets.remove(hi), lo, account);
    assert(q.tickets.remove(hi)[lo] == q.tickets[lo]);
    lemma_sides_push(q.pending, offered(q, i, j, key, id, now).1, account);
}

/// Pairing keeps every account at as many places as it had.
pub proof fn law_pairing_keeps_places(
    q: QueueView,
    ids: Seq<Seq<char>>,
    cooldown: u64,
    now: u64,
    busy: Seq<Seq<char>>,
    account: Seq<char>,
)
    ensures
        places(pairing(q, ids, cooldown, now, busy).0, account) == places(q, account),
    decreases ids.len(),
{
    if ids.len() > 0 {
        law_pairing_keeps_places(q, ids.drop_last(), cooldown, now, busy, account);
        let r = pairing(q, ids.drop_last(), cooldown, now, busy).0;
        super::queue::lemma_pair(r, 0, cooldown, now, busy);
        if let Some((i, j, key)) = pair_from(r, 0, cooldown, now, busy) {
            lemma_offered_places(r, i, j, key, ids.last(), now, account);
        }
    }
}

/// An account that the queue does not know has no place in it.
pub proof fn lemma_unknown_has_no_place(q: QueueView, account: Seq<char>)
    requires
        !super::queue::account_queued(q, account),
    ensures
        places(q, account) == 0,
{
    lemma_no_ticket(q.tickets, account);
    lemma_no_side(q.pending, account);
}

proof fn lemma_no_ticket(ts: Seq<TicketView>, account: Seq<char>)
    requires
        forall|i: int| 0 <= i < ts.len() ==> (#[trigger] ts[i]).account_id != account,
    ensures
        tickets_of(ts, account) == 0,
    decreases ts.len(),
{
    if ts.len() > 0 {
        assert forall|i: int| 0 <= i < ts.drop_last().len() implies (#[trigger] ts.drop_last()[i]).account_id
            != account by {
            assert(ts.drop_last()[i] == ts[i]);
        }
        lemma_no_ticket(ts.drop_last(), account);
        assert(ts.last() == ts[ts.len() - 1]);
    }
}

proof fn lemma_no_side(ps: Seq<PendingView>, account: Seq<char>)
    requires
        forall|i: int|
            0 <= i < ps.len() ==> (#[trigger] ps[i]).a.account_id != account && ps[i].b.account_id
                != account,
    ensures
        sides_of(ps, account) == 0,
    decreases ps.len(),
{
    if ps.len() > 0 {
        assert forall|i: int| 0 <= i < ps.drop_last().len() implies (#[trigger] ps.drop_last()[i]).a.account_id
            != account && ps.drop_last()[i].b.account_id != account by {
            assert(ps.drop_last()[i] == ps[i]);
        }
        lemma_no_side(ps.drop_last(), account);
        assert(ps.last() == ps[ps.len() - 1]);
    }
}

} // verus!
