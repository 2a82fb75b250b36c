//! How often each name occurs, in the order of the names.

use crate::metrics::{counts_view, sum_of, GameCount};
use crate::text::same;
use crate::ws_lobby::wire::{before, text_less};
use vstd::prelude::*;
use vstd::string::*;

verus! {

/// The tally with one more of `name`, the names in their order.
pub open spec fn tally_with(t: Seq<(Seq<char>, int)>, name: Seq<char>) -> Seq<(Seq<char>, int)>
    decreases t.len(),
{
    if t.len() == 0 {
        seq![(name, 1int)]
    } else if t[0].0 == name {
        t.update(0, (name, t[0].1 + 1))
    } else if text_less(name, t[0].0) {
        seq![(name, 1int)] + t
    } else {
        seq![t[0]] + tally_with(t.skip(1), name)
    }
}

/// The tally of `names`.
pub open spec fn tally(names: Seq<Seq<char>>) -> Seq<(Seq<char>, int)>
    decreases names.len(),
{
    if names.len() == 0 {
        Seq::empty()
    } else {
        tally_with(tally(names.drop_last()), names.last())
    }
}

/// How often `name` occurs in `names`.
pub open spec fn occurrences(names: Seq<Seq<char>>, name: Seq<char>) -> int
    decreases names.len(),
{
    if names.len() == 0 {
        0
    } else {
        occurrences(names.drop_last(), name) + (if names.last() == name {
            1int
        } else {
            0
        })
    }
}

/// The sum of the counts under `name`.
pub open spec fn counted_under(t: Seq<(Seq<char>, int)>, name: Seq<char>) -> int
    decreases t.len(),
{
    if t.len() == 0 {
        0
    } else {
        counted_under(t.skip(1), name) + (if t[0].0 == name {
            t[0].1
        } else {
            0
        })
    }
}

/// Where one more of `name` goes: behind every smaller name.
fn place(t: &Vec<GameCount>, name: &str) -> (r: (usize, bool))
    ensures
        r.0 <= t@.len(),
        r.1 ==> r.0 < t@.len(),
        ({
            let v = counts_view(t@);
            let i = r.0 as int;
            tally_with(v, name@) == if r.1 {
                v.update(i, (name@, v[i].1 + 1))
            } else {
                v.insert(i, (name@, 1int))
            }
        }),
{
    let ghost v = counts_view(t@);
    let mut i: usize = 0;
    proof {
        assert(v.skip(0) =~= v);
        assert(v.take(0) + tally_with(v, name@) =~= tally_with(v, name@));
    }
    while i < t.len() && !same(t[i].game.as_str(), name) && !before(name, t[i].game.as_str())
        invariant
            i <= t@.len(),
            v == counts_view(t@),
            tally_with(v, name@) == v.take(i as int) + tally_with(v.skip(i as int), name@),
        decreases t@.len() - i,
    {
        proof {
            let s = v.skip(i as int);
            assert(s[0] == (t@[i as int].game@, t@[i as int].n as int));
            assert(s.skip(1) =~= v.skip(i + 1));
            assert(v.take(i + 1) =~= v.take(i as int) + seq![s[0]]);
            assert(tally_with(v, name@) =~= v.take(i + 1) + tally_with(v.skip(i + 1), name@));
        }
        i = i + 1;
    }
    let ghost s = v.skip(i as int);
    if i < t.len() {
        proof {
            assert(s[0] == (t@[i as int].game@, t@[i as int].n as int));
        }
        if same(t[i].game.as_str(), name) {
            proof {
                assert(v.take(i as int) + s.update(0, (name@, s[0].1 + 1)) =~= v.update(
                    i as int,
                    (name@, v[i as int].1 + 1),
                ));
            }
            return (i, true);
        }
        proof {
            assert(v.take(i as int) + (seq![(name@, 1int)] + s) =~= v.insert(
                i as int,
                (name@, 1int),
            ));
        }
        return (i, false);
    }
    proof {
        assert(s.len() == 0);
        assert(v.take(i as int) + seq![(name@, 1int)] =~= v.insert(i as int, (name@, 1int)));
    }
    (i, false)
}

proof fn lemma_tally_bound(names: Seq<Seq<char>>)
    ensures
        forall|i: int| 0 <= i < tally(names).len() ==> (#[trigger] tally(names)[i]).1 <= names.len(),
    decreases names.len(),
{
    if names.len() > 0 {
        let t = tally(names.drop_last());
        lemma_tally_bound(names.drop_last());
        lemma_with_bound(t, names.last(), names.len() - 1);
    }
}

proof fn lemma_with_bound(t: Seq<(Seq<char>, int)>, name: Seq<char>, b: int)
    requires
        b >= 0,
        forall|i: int| 0 <= i < t.len() ==> (#[trigger] t[i]).1 <= b,
    ensures
        forall|i: int| 0 <= i < tally_with(t, name).len() ==> (#[trigger] tally_with(t, name)[i]).1 <= b + 1,
    decreases t.len(),
{
    if t.len() > 0 && t[0].0 != name && !text_less(name, t[0].0) {
        let s = t.skip(1);
        assert forall|i: int| 0 <= i < s.len() implies (#[trigger] s[i]).1 <= b by {
            assert(s[i] == t[i + 1]);
        }
        lemma_with_bound(s, name, b);
        let r = tally_with(t, name);
        assert forall|i: int| 0 <= i < r.len() implies (#[trigger] r[i]).1 <= b + 1 by {
            if i > 0 {
                assert(r[i] == tally_with(s, name)[i - 1]);
            }
        }
    }
}

/// Counts the names.
pub fn tally_names(names: &Vec<&String>) -> (r: Vec<GameCount>)
    ensures
        counts_view(r@) == tally(names@.map_values(|s: &String| s@)),
{
    let ghost all = names@.map_values(|s: &String| s@);
    let mut t: Vec<GameCount> = Vec::new();
    let mut i: usize = 0;
    proof {
        assert(all.take(0) =~= Seq::<Seq<char>>::empty());
        assert(counts_view(t@) =~= Seq::<(Seq<char>, int)>::empty());
    }
    while i < names.len()
        invariant
            i <= names@.len(),
            all == names@.map_values(|s: &String| s@),
            counts_view(t@) == tally(all.take(i as int)),
        decreases names@.len() - i,
    {
        proof {
            let x = all.take(i + 1);
            assert(x.drop_last() =~= all.take(i as int));
            assert(x.last() == names@[i as int]@);
            lemma_tally_bound(all.take(i as int));
        }
        let ghost v = counts_view(t@);
        let (k, there) = place(&t, names[i].as_str());
        if there {
            proof {
                assert(v[k as int] == (t@[k as int].game@, t@[k as int].n as int));
            }
            let n: u64 = t[k].n + 1;
            t.set(k, GameCount { game: names[i].clone(), n });
            proof {
                assert(counts_view(t@) =~= v.update(
                    k as int,
                    (names@[i as int]@, v[k as int].1 + 1),
                ));
            }
        } else {
            t.insert(k, GameCount { game: names[i].clone(), n: 1 });
            proof {
                assert(counts_view(t@) =~= v.insert(k as int, (names@[i as int]@, 1int)));
            }
        }
        i = i + 1;
    }
    proof {
        assert(all.take(names@.len() as int) =~= all);
    }
    t
}

// -------------------------------------------------------------------- laws

proof fn lemma_counted_with(t: Seq<(Seq<char>, int)>, name: Seq<char>, other: Seq<char>)
    ensures
        counted_under(tally_with(t, name), other) == counted_under(t, other) + (if name == other {
            1int
        } else {
            0
        }),
    decreases t.len(),
{
    let r = tally_with(t, name);
    if t.len() == 0 {
        assert(r.skip(1) =~= Seq::<(Seq<char>, int)>::empty());
        assert(counted_under(r.skip(1), other) == 0);
    } else if t[0].0 == name {
        assert(r.skip(1) =~= t.skip(1));
    } else if text_less(name, t[0].0) {
        assert(r.skip(1) =~= t);
    } else {
        lemma_counted_with(t.skip(1), name, other);
        assert(r.skip(1) =~= tally_with(t.skip(1), name));
    }
}

proof fn lemma_sum_front(t: Seq<(Seq<char>, int)>)
    requires
        t.len() > 0,
    ensures
        sum_of(t) == t[0].1 + sum_of(t.skip(1)),
    decreases t.len(),
{
    let s = t.skip(1);
    if s.len() == 0 {
        assert(t.drop_last() =~= Seq::<(Seq<char>, int)>::empty());
        assert(sum_of(t.drop_last()) == 0);
        assert(t.last() == t[0]);
    } else {
        lemma_sum_front(t.drop_last());
        assert(t.drop_last().skip(1) =~= s.drop_last());
        assert(t.last() == s.last());
    }
}

proof fn lemma_sum_with(t: Seq<(Seq<char>, int)>, name: Seq<char>)
    ensures
        sum_of(tally_with(t, name)) == sum_of(t) + 1,
    decreases t.len(),
{
    let r = tally_with(t, name);
    lemma_sum_front(r);
    if t.len() == 0 {
        assert(r.skip(1) =~= t);
    } else {
        lemma_sum_front(t);
        if t[0].0 == name {
            assert(r.skip(1) =~= t.skip(1));
        } else if text_less(name, t[0].0) {
            assert(r.skip(1) =~= t);
        } else {
            lemma_sum_with(t.skip(1), name);
            assert(r.skip(1) =~= tally_with(t.skip(1), name));
        }
    }
}

/// The counts of a tally add up to the number of the names.
pub proof fn law_tally_adds_up(names: Seq<Seq<char>>)
    ensures
        sum_of(tally(names)) == names.len(),
    decreases names.len(),
{
    if names.len() > 0 {
        law_tally_adds_up(names.drop_last());
        lemma_sum_with(tally(names.drop_last()), names.last());
    }
}

/// The tally counts each name as often as it occurs.
pub proof fn law_tally_counts(names: Seq<Seq<char>>, name: Seq<char>)
    ensures
        counted_under(tally(names), name) == occurrences(names, name),
    decreases names.len(),
{
    if names.len() > 0 {
        law_tally_counts(names.drop_last(), name);
        lemma_counted_with(tally(names.drop_last()), names.last(), name);
    }
}

} // verus!
