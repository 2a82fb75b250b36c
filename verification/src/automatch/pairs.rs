//! What pairing does with the tickets: none is lost, none is made up, and those
//! left over keep their order.

use super::queue::{
    law_pairing_is_fair, lemma_pair, offered, pair_from, pairing, refreshed, still_recent,
    KeyView, PendingView, PlayedView, QueueView, TicketView,
};
use vstd::prelude::*;

verus! {

/// The tickets that some offers are made of.
pub open spec fn offered_tickets(ps: Seq<PendingView>) -> Seq<TicketView>
    decreases ps.len(),
{
    if ps.len() == 0 {
        Seq::empty()
    } else {
        offered_tickets(ps.drop_last()).push(ps.last().a).push(ps.last().b)
    }
}

/// Whether `part` is what stands in `whole` at the places `at`, in their order.
pub open spec fn picked(part: Seq<TicketView>, whole: Seq<TicketView>, at: Seq<int>) -> bool {
    &&& at.len() == part.len()
    &&& forall|i: int|
        0 <= i < at.len() ==> 0 <= #[trigger] at[i] < whole.len() && part[i] == whole[at[i]]
    &&& forall|i: int, j: int| 0 <= i < j < at.len() ==> at[i] < at[j]
}

/// Whether `part` is `whole` without some of its tickets.
pub open spec fn in_order(part: Seq<TicketView>, whole: Seq<TicketView>) -> bool {
    exists|at: Seq<int>| picked(part, whole, at)
}

proof fn lemma_removed_in_order(part: Seq<TicketView>, whole: Seq<TicketView>, k: int)
    requires
        in_order(part, whole),
        0 <= k < part.len(),
    ensures
        in_order(part.remove(k), whole),
{
    let at = choose|at: Seq<int>| picked(part, whole, at);
    let rest = at.remove(k);
    assert forall|i: int| 0 <= i < rest.len() implies 0 <= #[trigger] rest[i] < whole.len()
        && part.remove(k)[i] == whole[rest[i]] by {
        let j = if i < k {
            i
        } else {
            i + 1
        };
        assert(rest[i] == at[j]);
    }
    assert forall|i: int, j: int| 0 <= i < j < rest.len() implies rest[i] < rest[j] by {
        let x = if i < k {
            i
        } else {
            i + 1
        };
        let y = if j < k {
            j
        } else {
            j + 1
        };
        assert(at[x] < at[y]);
    }
    assert(picked(part.remove(k), whole, rest));
}

/// Offering two tickets takes those two out of the queue and nothing else.
proof fn lemma_offered_tickets(
    q: QueueView,
    i: int,
    j: int,
    key: KeyView,
    id: Seq<char>,
    now: u64,
)
    requires
        0 <= i < q.tickets.len(),
        0 <= j < q.tickets.len(),
        i != j,
    ensures
        ({
            let (r, p) = offered(q, i, j, key, id, now);
            r.tickets.to_multiset().insert(p.a).insert(p.b) == q.tickets.to_multiset()
        }),
{
    broadcast use vstd::seq_lib::group_to_multiset_ensures;

    let hi = if i > j {
        i
    } else {
        j
    };
    let lo = if i > j {
        j
    } else {
        i
    };
    let ts = q.tickets;
    let once = ts.remove(hi);
    vstd::seq_lib::to_multiset_remove(ts, hi);
    vstd::seq_lib::to_multiset_remove(once, lo);
    assert(once[lo] == ts[lo]);
    assert(ts.contains(ts[hi]));
    assert(once.contains(once[lo]));
    let (r, p) = offered(q, i, j, key, id, now);
    assert(r.tickets == once.remove(lo));
    assert(r.tickets.to_multiset().insert(p.a).insert(p.b) =~= ts.to_multiset());
}

/// The tickets left and the tickets offered are those that were there before,
/// and those left stand in their old order.
pub proof fn law_pairing_loses_no_ticket(
    q: QueueView,
    ids: Seq<Seq<char>>,
    cooldown: u64,
    now: u64,
    busy: Seq<Seq<char>>,
)
    ensures
        ({
            let (r, ps) = pairing(q, ids, cooldown, now, busy);
            &&& r.tickets.to_multiset().add(offered_tickets(ps).to_multiset())
                == q.tickets.to_multiset()
            &&& in_order(r.tickets, q.tickets)
        }),
    decreases ids.len(),
{
    broadcast use vstd::seq_lib::group_to_multiset_ensures;

    if ids.len() == 0 {
        let ts = q.tickets;
        assert(offered_tickets(Seq::empty()).to_multiset().len() == 0);
        assert(offered_tickets(Seq::empty()).to_multiset() =~= vstd::multiset::Multiset::empty());
        assert(ts.to_multiset().add(offered_tickets(Seq::empty()).to_multiset())
            =~= ts.to_multiset());
        assert(picked(ts, ts, Seq::new(ts.len(), |i: int| i)));
    } else {
        let (r, ps) = pairing(q, ids.drop_last(), cooldown, now, busy);
        law_pairing_loses_no_ticket(q, ids.drop_last(), cooldown, now, busy);
        lemma_pair(r, 0, cooldown, now, busy);
        match pair_from(r, 0, cooldown, now, busy) {
            Some((i, j, key)) => {
                let (t, p) = offered(r, i, j, key, ids.last(), now);
                let hi = if i > j {
                    i
                } else {
                    j
                };
                let lo = if i > j {
                    j
                } else {
                    i
                };
                lemma_offered_tickets(r, i, j, key, ids.last(), now);
                lemma_removed_in_order(r.tickets, q.tickets, hi);
                lemma_removed_in_order(r.tickets.remove(hi), q.tickets, lo);
                let before = offered_tickets(ps);
                assert(ps.push(p).drop_last() =~= ps);
                assert(offered_tickets(ps.push(p)) == before.push(p.a).push(p.b));
                vstd::seq_lib::to_multiset_build(before, p.a);
                vstd::seq_lib::to_multiset_build(before.push(p.a), p.b);
                assert(t.tickets.to_multiset().add(offered_tickets(ps.push(p)).to_multiset())
                    =~= r.tickets.to_multiset().add(before.to_multiset()));
            },
            None => {},
        }
    }
}

proof fn lemma_still_recent(s: Seq<PlayedView>, cooldown: u64, now: u64)
    ensures
        still_recent(still_recent(s, cooldown, now), cooldown, now) == still_recent(
            s,
            cooldown,
            now,
        ),
    decreases s.len(),
{
    if s.len() > 0 {
        let d = still_recent(s.drop_last(), cooldown, now);
        lemma_still_recent(s.drop_last(), cooldown, now);
        assert(d.push(s.last()).drop_last() =~= d);
    }
}

/// Once pairing found no more pairs, pairing again at the same moment offers
/// nothing and changes nothing.
pub proof fn law_pairing_again_offers_nothing(
    q: QueueView,
    ids: Seq<Seq<char>>,
    more: Seq<Seq<char>>,
    cooldown: u64,
    now: u64,
    busy: Seq<Seq<char>>,
)
    requires
        pair_from(
            pairing(refreshed(q, cooldown, now), ids, cooldown, now, busy).0,
            0,
            cooldown,
            now,
            busy,
        ) is None,
    ensures
        ({
            let r = pairing(refreshed(q, cooldown, now), ids, cooldown, now, busy).0;
            pairing(refreshed(r, cooldown, now), more, cooldown, now, busy) == (
                r,
                Seq::<PendingView>::empty(),
            )
        }),
{
    let r = pairing(refreshed(q, cooldown, now), ids, cooldown, now, busy).0;
    law_pairing_is_fair(refreshed(q, cooldown, now), ids, cooldown, now, busy);
    lemma_still_recent(q.recent, cooldown, now);
    assert(refreshed(r, cooldown, now) == r);
    lemma_no_more(r, more, cooldown, now, busy);
}

proof fn lemma_no_more(
    r: QueueView,
    more: Seq<Seq<char>>,
    cooldown: u64,
    now: u64,
    busy: Seq<Seq<char>>,
)
    requires
        pair_from(r, 0, cooldown, now, busy) is None,
    ensures
        pairing(r, more, cooldown, now, busy) == (r, Seq::<PendingView>::empty()),
    decreases more.len(),
{
    if more.len() > 0 {
        lemma_no_more(r, more.drop_last(), cooldown, now, busy);
    }
}

} // verus!
