//! What the match series add up to.

use crate::find::{lemma_first_none, lemma_first_where};
use crate::labels::labelled;
use crate::metrics::{
    active_points, active_step, count_at, elsewhere, folded, folded_with, label_step, lemma_count_at, per_game,
    row_at, start_points, starts_on, with_start, zeroed, LabelsView, MatchTotals, MetricsView,
    PointView, StartView,
};
use vstd::prelude::*;
use vstd::string::*;

verus! {

// ------------------------------------------------------------ match starts

/// One match start: its surface, its game and its players.
pub ghost struct StartCall {
    pub surface: Seq<char>,
    pub game: Seq<char>,
    pub players: u64,
}

/// The metrics once some matches started, one after the other.
pub open spec fn started(m: MetricsView, calls: Seq<StartCall>) -> MetricsView
    decreases calls.len(),
{
    if calls.len() == 0 {
        m
    } else {
        let c = calls.last();
        start_points(started(m, calls.drop_last()), c.surface, c.game, c.players).0
    }
}

/// The label that the start at `i` was counted under.
pub open spec fn counted_as(m: MetricsView, calls: Seq<StartCall>, i: int) -> Seq<char> {
    label_step(started(m, calls.take(i)).labels, calls[i].game).1
}

pub open spec fn starts_counted(calls: Seq<StartCall>, surface: Seq<char>) -> int
    decreases calls.len(),
{
    if calls.len() == 0 {
        0
    } else {
        starts_counted(calls.drop_last(), surface) + if calls.last().surface == surface {
            1int
        } else {
            0
        }
    }
}

pub open spec fn players_counted(calls: Seq<StartCall>, surface: Seq<char>) -> int
    decreases calls.len(),
{
    if calls.len() == 0 {
        0
    } else {
        players_counted(calls.drop_last(), surface) + if calls.last().surface == surface {
            calls.last().players as int
        } else {
            0
        }
    }
}

pub open spec fn starts_sum(rows: Seq<(Seq<char>, MatchTotals)>) -> int
    decreases rows.len(),
{
    if rows.len() == 0 {
        0
    } else {
        starts_sum(rows.drop_last()) + rows.last().1.starts
    }
}

pub open spec fn players_sum(rows: Seq<(Seq<char>, MatchTotals)>) -> int
    decreases rows.len(),
{
    if rows.len() == 0 {
        0
    } else {
        players_sum(rows.drop_last()) + rows.last().1.players
    }
}

proof fn lemma_on_push(rows: Seq<StartView>, r: StartView, surface: Seq<char>)
    ensures
        starts_sum(starts_on(rows.push(r), surface)) == starts_sum(starts_on(rows, surface)) + (
        if r.surface == surface {
            r.totals.starts as int
        } else {
            0
        }),
        players_sum(starts_on(rows.push(r), surface)) == players_sum(starts_on(rows, surface)) + (
        if r.surface == surface {
            r.totals.players as int
        } else {
            0
        }),
{
    let t = rows.push(r);
    assert(t.drop_last() =~= rows);
    if r.surface == surface {
        let before = starts_on(rows, surface);
        assert(before.push((r.game, r.totals)).drop_last() =~= before);
    }
}

proof fn lemma_on_update(rows: Seq<StartView>, i: int, r: StartView, surface: Seq<char>)
    requires
        0 <= i < rows.len(),
        r.surface == rows[i].surface,
    ensures
        starts_sum(starts_on(rows.update(i, r), surface)) == starts_sum(starts_on(rows, surface)) + (
        if r.surface == surface {
            r.totals.starts - rows[i].totals.starts
        } else {
            0
        }),
        players_sum(starts_on(rows.update(i, r), surface)) == players_sum(starts_on(rows, surface))
            + (if r.surface == surface {
            r.totals.players - rows[i].totals.players
        } else {
            0
        }),
    decreases rows.len(),
{
    let u = rows.update(i, r);
    let d = rows.drop_last();
    if i == rows.len() - 1 {
        assert(u =~= d.push(r));
        assert(rows =~= d.push(rows[i]));
        lemma_on_push(d, r, surface);
        lemma_on_push(d, rows[i], surface);
    } else {
        assert(u =~= d.update(i, r).push(rows.last()));
        assert(rows =~= d.push(rows.last()));
        lemma_on_update(d, i, r, surface);
        lemma_on_push(d.update(i, r), rows.last(), surface);
        lemma_on_push(d, rows.last(), surface);
    }
}

/// A row's totals are no more than what its surface adds up to.
proof fn lemma_row_bound(rows: Seq<StartView>, i: int)
    requires
        0 <= i < rows.len(),
    ensures
        rows[i].totals.starts <= starts_sum(starts_on(rows, rows[i].surface)),
        rows[i].totals.players <= players_sum(starts_on(rows, rows[i].surface)),
    decreases rows.len(),
{
    let d = rows.drop_last();
    assert(rows =~= d.push(rows.last()));
    lemma_on_push(d, rows.last(), rows[i].surface);
    lemma_sums_nonneg(d, rows[i].surface);
    if i < rows.len() - 1 {
        lemma_row_bound(d, i);
    }
}

proof fn lemma_sums_nonneg(rows: Seq<StartView>, surface: Seq<char>)
    ensures
        0 <= starts_sum(starts_on(rows, surface)),
        0 <= players_sum(starts_on(rows, surface)),
    decreases rows.len(),
{
    if rows.len() > 0 {
        let d = rows.drop_last();
        assert(rows =~= d.push(rows.last()));
        lemma_sums_nonneg(d, surface);
        lemma_on_push(d, rows.last(), surface);
    }
}

proof fn lemma_counted_bound(calls: Seq<StartCall>, surface: Seq<char>)
    ensures
        0 <= starts_counted(calls, surface) <= calls.len(),
        0 <= players_counted(calls, surface),
    decreases calls.len(),
{
    if calls.len() > 0 {
        lemma_counted_bound(calls.drop_last(), surface);
    }
}

proof fn lemma_started(m: MetricsView, calls: Seq<StartCall>, surface: Seq<char>)
    requires
        m.starts.len() == 0,
        calls.len() <= u64::MAX,
        forall|s: Seq<char>| #[trigger] players_counted(calls, s) <= u64::MAX,
    ensures
        ({
            let rows = started(m, calls).starts;
            &&& starts_sum(starts_on(rows, surface)) == starts_counted(calls, surface)
            &&& players_sum(starts_on(rows, surface)) == players_counted(calls, surface)
        }),
    decreases calls.len(),
{
    if calls.len() > 0 {
        let d = calls.drop_last();
        let c = calls.last();
        assert forall|s: Seq<char>| #[trigger] players_counted(d, s) <= u64::MAX by {
            assert(players_counted(calls, s) <= u64::MAX);
        }
        lemma_started(m, d, surface);
        lemma_started(m, d, c.surface);
        lemma_counted_bound(d, c.surface);
        assert(players_counted(calls, c.surface) <= u64::MAX);
        let m1 = started(m, d);
        let label = label_step(m1.labels, c.game).1;
        let rows = m1.starts;
        let same = |s: StartView| s.surface == c.surface && s.game == label;
        lemma_first_where(rows, same);
        match row_at(rows, c.surface, label) {
            Some(i) => {
                lemma_row_bound(rows, i);
                let r = with_start(rows, c.surface, label, c.players)[i];
                assert(with_start(rows, c.surface, label, c.players) == rows.update(i, r));
                lemma_on_update(rows, i, r, surface);
            },
            None => {
                let r = StartView {
                    surface: c.surface,
                    game: label,
                    totals: MatchTotals { starts: 1, players: c.players },
                };
                lemma_on_push(rows, r, surface);
            },
        }
    }
}

/// Whether no two rows are of the same surface and game.
pub open spec fn rows_apart(rows: Seq<StartView>) -> bool {
    forall|i: int, j: int|
        0 <= i < j < rows.len() ==> !((#[trigger] rows[i]).surface == (#[trigger] rows[j]).surface
            && rows[i].game == rows[j].game)
}

/// Whether a match started on `surface` that was counted as `game`.
pub open spec fn called(m: MetricsView, calls: Seq<StartCall>, surface: Seq<char>, game: Seq<char>) -> bool {
    exists|k: int|
        0 <= k < calls.len() && (#[trigger] calls[k]).surface == surface && counted_as(m, calls, k)
            == game
}

/// Noting a start keeps the rows apart, and gives its surface and label a row
/// where they had none; everybody else's rows stay.
proof fn lemma_noted(rows: Seq<StartView>, surface: Seq<char>, label: Seq<char>, players: u64)
    ensures
        rows_apart(rows) ==> rows_apart(with_start(rows, surface, label, players)),
        forall|s: Seq<char>, g: Seq<char>|
            (#[trigger] row_at(with_start(rows, surface, label, players), s, g) is Some) <==> (
            row_at(rows, s, g) is Some || (s == surface && g == label)),
{
    let now = with_start(rows, surface, label, players);
    let mine = |x: StartView| x.surface == surface && x.game == label;
    lemma_first_where(rows, mine);
    assert forall|i: int| 0 <= i < rows.len() implies (#[trigger] now[i]).surface == rows[i].surface
        && now[i].game == rows[i].game by {}
    if rows_apart(rows) {
        assert forall|i: int, j: int| 0 <= i < j < now.len() implies !((
        #[trigger] now[i]).surface == (#[trigger] now[j]).surface && now[i].game == now[j].game) by {
            if j < rows.len() {
                assert(!(rows[i].surface == rows[j].surface && rows[i].game == rows[j].game));
            } else {
                assert(!mine(rows[i]));
            }
        }
    }
    assert forall|s: Seq<char>, g: Seq<char>|
        (#[trigger] row_at(now, s, g) is Some) <==> (row_at(rows, s, g) is Some || (s == surface
            && g == label)) by {
        let p = |x: StartView| x.surface == s && x.game == g;
        lemma_first_where(rows, p);
        lemma_first_where(now, p);
        if row_at(rows, s, g) is Some {
            assert(p(now[row_at(rows, s, g)->0]));
        } else if s == surface && g == label {
            assert(p(now[now.len() - 1]));
        } else if row_at(now, s, g) is Some {
            let i = row_at(now, s, g)->0;
            if i < rows.len() {
                assert(p(rows[i]));
            }
        }
    }
}

proof fn lemma_called_more(m: MetricsView, calls: Seq<StartCall>, surface: Seq<char>, game: Seq<char>)
    requires
        calls.len() > 0,
    ensures
        called(m, calls, surface, game) <==> (called(m, calls.drop_last(), surface, game) || (
        calls.last().surface == surface && label_step(
            started(m, calls.drop_last()).labels,
            calls.last().game,
        ).1 == game)),
{
    let n = calls.len() - 1;
    let d = calls.drop_last();
    assert(calls.take(n) =~= d);
    assert forall|k: int| 0 <= k < n implies #[trigger] counted_as(m, calls, k) == counted_as(
        m,
        d,
        k,
    ) by {
        assert(calls.take(k) =~= d.take(k));
    }
    if called(m, d, surface, game) {
        let k = choose|k: int|
            0 <= k < d.len() && (#[trigger] d[k]).surface == surface && counted_as(m, d, k) == game;
        assert(calls[k] == d[k]);
        assert(counted_as(m, calls, k) == game);
    }
    if calls.last().surface == surface && counted_as(m, calls, n) == game {
        assert(calls[n].surface == surface);
    }
    if called(m, calls, surface, game) {
        let k = choose|k: int|
            0 <= k < calls.len() && (#[trigger] calls[k]).surface == surface && counted_as(
                m,
                calls,
                k,
            ) == game;
        if k < n {
            assert(d[k] == calls[k]);
            assert(counted_as(m, d, k) == game);
        }
    }
}

proof fn lemma_rows(m: MetricsView, calls: Seq<StartCall>, surface: Seq<char>, game: Seq<char>)
    requires
        m.starts.len() == 0,
    ensures
        rows_apart(started(m, calls).starts),
        row_at(started(m, calls).starts, surface, game) is Some <==> called(
            m,
            calls,
            surface,
            game,
        ),
    decreases calls.len(),
{
    if calls.len() > 0 {
        let c = calls.last();
        let m1 = started(m, calls.drop_last());
        lemma_rows(m, calls.drop_last(), surface, game);
        lemma_called_more(m, calls, surface, game);
        lemma_noted(m1.starts, c.surface, label_step(m1.labels, c.game).1, c.players);
    } else {
        lemma_first_none(
            m.starts,
            |x: StartView| x.surface == surface && x.game == game,
        );
    }
}

/// The rows of a surface are those among all that are of it.
proof fn lemma_on(rows: Seq<StartView>, surface: Seq<char>, game: Seq<char>)
    ensures
        (exists|i: int| 0 <= i < starts_on(rows, surface).len() && (#[trigger] starts_on(
            rows,
            surface,
        )[i]).0 == game) <==> row_at(rows, surface, game) is Some,
    decreases rows.len(),
{
    let p = |s: StartView| s.surface == surface && s.game == game;
    lemma_first_where(rows, p);
    if rows.len() > 0 {
        let d = rows.drop_last();
        let r = rows.last();
        lemma_on(d, surface, game);
        lemma_first_where(d, p);
        let on = starts_on(rows, surface);
        let before = starts_on(d, surface);
        if row_at(d, surface, game) is Some {
            let i = choose|i: int| 0 <= i < before.len() && (#[trigger] before[i]).0 == game;
            assert(on[i] == before[i]);
            let k = row_at(d, surface, game)->0;
            assert(p(rows[k]));
        } else if p(r) {
            assert(on[on.len() - 1].0 == game);
            assert(p(rows[rows.len() - 1]));
        } else {
            assert forall|k: int| 0 <= k < rows.len() implies !p(#[trigger] rows[k]) by {
                if k < d.len() {
                    assert(rows[k] == d[k]);
                }
            }
            lemma_first_none(rows, p);
            assert forall|i: int| 0 <= i < on.len() implies (#[trigger] on[i]).0 != game by {
                if i < before.len() {
                    assert(on[i] == before[i]);
                }
            }
        }
    }
}

/// The match starts of a surface are exactly those that were counted on it:
/// their games are the labels of its starts, each once, and starts and players
/// add up to what those calls said, as long as 64 bits hold the players.
pub proof fn law_starts_add_up(m: MetricsView, calls: Seq<StartCall>, surface: Seq<char>)
    requires
        m.starts.len() == 0,
        calls.len() <= u64::MAX,
        forall|s: Seq<char>| #[trigger] players_counted(calls, s) <= u64::MAX,
    ensures
        ({
            let rows = starts_on(started(m, calls).starts, surface);
            &&& starts_sum(rows) == starts_counted(calls, surface)
            &&& players_sum(rows) == players_counted(calls, surface)
            &&& forall|game: Seq<char>|
                (exists|i: int| 0 <= i < rows.len() && (#[trigger] rows[i]).0 == game)
                    <==> #[trigger] called(m, calls, surface, game)
            &&& forall|i: int, j: int|
                0 <= i < j < rows.len() ==> (#[trigger] rows[i]).0 != (#[trigger] rows[j]).0
        }),
{
    let all = started(m, calls).starts;
    let rows = starts_on(all, surface);
    lemma_started(m, calls, surface);
    lemma_rows(m, calls, surface, Seq::empty());
    lemma_on_apart(all, surface);
    assert forall|game: Seq<char>|
        (exists|i: int| 0 <= i < rows.len() && (#[trigger] rows[i]).0 == game)
            <==> #[trigger] called(m, calls, surface, game) by {
        lemma_on(all, surface, game);
        lemma_rows(m, calls, surface, game);
    }
}

/// Rows that are apart stay apart among those of a surface.
proof fn lemma_on_apart(rows: Seq<StartView>, surface: Seq<char>)
    requires
        rows_apart(rows),
    ensures
        forall|i: int, j: int|
            0 <= i < j < starts_on(rows, surface).len() ==> (#[trigger] starts_on(rows, surface)[i]).0
                != (#[trigger] starts_on(rows, surface)[j]).0,
    decreases rows.len(),
{
    if rows.len() > 0 {
        let d = rows.drop_last();
        let on = starts_on(rows, surface);
        let before = starts_on(d, surface);
        lemma_on_apart(d, surface);
        assert forall|i: int, j: int| 0 <= i < j < on.len() implies (#[trigger] on[i]).0 != (
        #[trigger] on[j]).0 by {
            assert(on[i] == before[i]);
            if j < before.len() {
                assert(on[j] == before[j]);
            } else if on[i].0 == on[j].0 {
                let game = on[i].0;
                let p = |s: StartView| s.surface == surface && s.game == game;
                assert(before[i].0 == game);
                lemma_on(d, surface, game);
                lemma_first_where(d, p);
                let k = row_at(d, surface, game)->0;
                assert(rows[k].surface == rows[rows.len() - 1].surface);
            }
        }
    }
}

// ---------------------------------------------------------- active matches

pub open spec fn names_of(counts: Seq<(Seq<char>, int)>) -> Seq<Seq<char>> {
    counts.map_values(|x: (Seq<char>, int)| x.0)
}

/// What the counts whose label is `l` add up to.
pub open spec fn sum_for(labels: Seq<Seq<char>>, counts: Seq<(Seq<char>, int)>, l: Seq<char>) -> int
    decreases counts.len(),
{
    if counts.len() == 0 {
        0
    } else {
        sum_for(labels.drop_last(), counts.drop_last(), l) + if labels.last() == l {
            counts.last().1
        } else {
            0
        }
    }
}

proof fn lemma_no_sum(labels: Seq<Seq<char>>, counts: Seq<(Seq<char>, int)>, l: Seq<char>)
    requires
        labels.len() == counts.len(),
        !labels.contains(l),
    ensures
        sum_for(labels, counts, l) == 0,
    decreases counts.len(),
{
    if counts.len() > 0 {
        let d = labels.drop_last();
        assert(labels[labels.len() - 1] != l);
        assert forall|k: int| 0 <= k < d.len() implies d[k] != l by {
            assert(d[k] == labels[k]);
        }
        lemma_no_sum(d, counts.drop_last(), l);
    }
}

/// Adding to one label leaves the sums of the others.
proof fn lemma_folded_with(f: Seq<(Seq<char>, int)>, label: Seq<char>, n: int, l: Seq<char>)
    ensures
        ({
            let t = folded_with(f, label, n);
            match count_at(f, l) {
                Some(i) => count_at(t, l) matches Some(j) && t[j].1 == f[i].1 + (if l == label {
                    n
                } else {
                    0
                }),
                None => if l == label {
                    count_at(t, l) matches Some(j) && t[j].1 == n
                } else {
                    count_at(t, l) is None
                },
            }
        }),
{
    let t = folded_with(f, label, n);
    lemma_count_at(f, l);
    lemma_count_at(f, label);
    lemma_count_at(t, l);
    assert forall|k: int| 0 <= k < f.len() implies (#[trigger] t[k]).0 == f[k].0 by {}
    match count_at(f, l) {
        Some(i) => {
            assert(t[i].0 == l);
            let j = count_at(t, l)->0;
            assert(f[j].0 == l);
        },
        None => {
            if l == label {
                assert(t[f.len() as int].0 == l);
            }
        },
    }
}

proof fn lemma_folded(g: LabelsView, counts: Seq<(Seq<char>, int)>, l: Seq<char>)
    ensures
        ({
            let (g2, f) = folded(g, counts);
            let (g3, ls) = labelled(g, names_of(counts));
            &&& g2 == g3
            &&& ls.len() == counts.len()
            &&& match count_at(f, l) {
                Some(i) => ls.contains(l) && f[i].1 == sum_for(ls, counts, l),
                None => !ls.contains(l),
            }
        }),
    decreases counts.len(),
{
    let ns = names_of(counts);
    if counts.len() == 0 {
        lemma_count_at(Seq::empty(), l);
    } else {
        let d = counts.drop_last();
        lemma_folded(g, d, l);
        assert(ns.drop_last() =~= names_of(d));
        let (g1, f) = folded(g, d);
        let ls = labelled(g, names_of(d)).1;
        let label = label_step(g1, counts.last().0).1;
        lemma_folded_with(f, label, counts.last().1, l);
        let now = ls.push(label);
        assert(now.drop_last() =~= ls);
        if ls.contains(l) {
            let k = choose|k: int| 0 <= k < ls.len() && ls[k] == l;
            assert(now[k] == l);
        } else {
            lemma_no_sum(ls, d, l);
            if label == l {
                assert(now[now.len() - 1] == l);
            }
        }
    }
}

/// The gauge of one label of a surface.
pub open spec fn gauge(surface: Seq<char>, l: Seq<char>, n: int) -> PointView {
    per_game(true, "recomp_matches_active"@, surface, l, n)
}

proof fn lemma_zeroed(
    active: Seq<(Seq<char>, Seq<char>)>,
    surface: Seq<char>,
    f: Seq<(Seq<char>, int)>,
    x: PointView,
)
    ensures
        zeroed(active, surface, f).contains(x) <==> exists|k: int|
            0 <= k < active.len() && (#[trigger] active[k]).0 == surface && count_at(
                f,
                active[k].1,
            ) is None && x == gauge(surface, active[k].1, 0),
    decreases active.len(),
{
    if active.len() > 0 {
        let d = active.drop_last();
        let rest = zeroed(d, surface, f);
        let z = zeroed(active, surface, f);
        lemma_zeroed(d, surface, f, x);
        if rest.contains(x) {
            let k = choose|k: int|
                0 <= k < d.len() && (#[trigger] d[k]).0 == surface && count_at(f, d[k].1) is None
                    && x == gauge(surface, d[k].1, 0);
            assert(active[k] == d[k]);
            let i = choose|i: int| 0 <= i < rest.len() && rest[i] == x;
            assert(z[i] == x);
        }
        if z.contains(x) && !rest.contains(x) {
            let i = choose|i: int| 0 <= i < z.len() && z[i] == x;
            if i < rest.len() {
                assert(rest[i] == x);
            }
            assert(active[active.len() - 1] == active.last());
        }
        if exists|k: int|
            0 <= k < active.len() && (#[trigger] active[k]).0 == surface && count_at(
                f,
                active[k].1,
            ) is None && x == gauge(surface, active[k].1, 0) {
            let k = choose|k: int|
                0 <= k < active.len() && (#[trigger] active[k]).0 == surface && count_at(
                    f,
                    active[k].1,
                ) is None && x == gauge(surface, active[k].1, 0);
            if k < d.len() {
                assert(d[k] == active[k]);
            } else {
                assert(z[z.len() - 1] == x);
            }
        }
    }
}

proof fn lemma_elsewhere(active: Seq<(Seq<char>, Seq<char>)>, surface: Seq<char>, x: (Seq<char>, Seq<char>))
    ensures
        elsewhere(active, surface).contains(x) <==> active.contains(x) && x.0 != surface,
    decreases active.len(),
{
    if active.len() > 0 {
        let d = active.drop_last();
        lemma_elsewhere(d, surface, x);
        let rest = elsewhere(d, surface);
        let e = elsewhere(active, surface);
        if d.contains(x) {
            let k = choose|k: int| 0 <= k < d.len() && d[k] == x;
            assert(active[k] == x);
        }
        if active.contains(x) && !d.contains(x) {
            let k = choose|k: int| 0 <= k < active.len() && active[k] == x;
            if k < d.len() {
                assert(d[k] == x);
            }
        }
        if rest.contains(x) {
            let k = choose|k: int| 0 <= k < rest.len() && rest[k] == x;
            assert(e[k] == x);
        }
        if active.last() == x {
            assert(active[active.len() - 1] == x);
            if x.0 != surface {
                assert(e[e.len() - 1] == x);
            }
        }
        if e.contains(x) && !rest.contains(x) {
            let k = choose|k: int| 0 <= k < e.len() && e[k] == x;
            if k < rest.len() {
                assert(rest[k] == x);
            }
        }
    }
}

/// Live counts set, for each label among them, its gauge to what the counts of
/// that label add up to; they set each gauge of the surface that was published
/// last time and has no count any more to zero, and they set nothing else. What
/// is published is then what was counted, and other surfaces stay as they were.
pub proof fn law_active_gauges_add_up(
    m: MetricsView,
    surface: Seq<char>,
    counts: Seq<(Seq<char>, int)>,
    l: Seq<char>,
    x: PointView,
)
    ensures
        ({
            let (m2, ps) = active_step(m, surface, counts);
            let ls = labelled(m.labels, names_of(counts)).1;
            &&& ls.len() == counts.len()
            &&& ls.contains(l) ==> ps.contains(gauge(surface, l, sum_for(ls, counts, l)))
            &&& !ls.contains(l) && m.active.contains((surface, l)) ==> ps.contains(
                gauge(surface, l, 0),
            )
            &&& ps.contains(x) ==> exists|g: Seq<char>|
                x == #[trigger] gauge(surface, g, sum_for(ls, counts, g)) && (ls.contains(g)
                    || m.active.contains((surface, g)))
            &&& m2.active.contains((surface, l)) == ls.contains(l)
            &&& forall|s: Seq<char>|
                s != surface ==> #[trigger] m2.active.contains((s, l)) == m.active.contains((s, l))
        }),
{
    let (m2, ps) = active_step(m, surface, counts);
    let f = folded(m.labels, counts).1;
    let ls = labelled(m.labels, names_of(counts)).1;
    let zs = zeroed(m.active, surface, f);
    let on = active_points(surface, f);
    let mine = f.map_values(|y: (Seq<char>, int)| (surface, y.0));
    let other = elsewhere(m.active, surface);
    lemma_folded(m.labels, counts, l);
    lemma_count_at(f, l);
    if ls.contains(l) {
        let i = count_at(f, l)->0;
        assert(on[i] == gauge(surface, l, sum_for(ls, counts, l)));
        assert(ps[zs.len() + i] == on[i]);
        assert(m2.active[other.len() + i] == (surface, l));
    } else if m.active.contains((surface, l)) {
        let k = choose|k: int| 0 <= k < m.active.len() && m.active[k] == (surface, l);
        assert(m.active[k].0 == surface);
        lemma_zeroed(m.active, surface, f, gauge(surface, l, 0));
        let i = choose|i: int| 0 <= i < zs.len() && zs[i] == gauge(surface, l, 0);
        assert(ps[i] == zs[i]);
    }
    if ps.contains(x) {
        let i = choose|i: int| 0 <= i < ps.len() && ps[i] == x;
        if i < zs.len() {
            assert(zs[i] == x);
            lemma_zeroed(m.active, surface, f, x);
            let k = choose|k: int|
                0 <= k < m.active.len() && (#[trigger] m.active[k]).0 == surface && count_at(
                    f,
                    m.active[k].1,
                ) is None && x == gauge(surface, m.active[k].1, 0);
            let g = m.active[k].1;
            lemma_folded(m.labels, counts, g);
            lemma_no_sum(ls, counts, g);
            assert(m.active[k] == (surface, g));
            assert(x == gauge(surface, g, sum_for(ls, counts, g)));
        } else {
            let y = f[i - zs.len()];
            assert(on[i - zs.len()] == x);
            lemma_apart(m.labels, counts, i - zs.len());
            assert(x == gauge(surface, y.0, sum_for(ls, counts, y.0)));
        }
    }
    lemma_elsewhere(m.active, surface, (surface, l));
    if m2.active.contains((surface, l)) {
        let k = choose|k: int| 0 <= k < m2.active.len() && m2.active[k] == (surface, l);
        if k < other.len() {
            assert(other[k] == (surface, l));
        } else {
            assert(mine[k - other.len()] == (surface, f[k - other.len()].0));
        }
    }
    assert forall|s: Seq<char>| s != surface implies #[trigger] m2.active.contains((s, l))
        == m.active.contains((s, l)) by {
        lemma_elsewhere(m.active, surface, (s, l));
        if m.active.contains((s, l)) {
            let k = choose|k: int| 0 <= k < other.len() && other[k] == (s, l);
            assert(m2.active[k] == (s, l));
        }
        if m2.active.contains((s, l)) {
            let k = choose|k: int| 0 <= k < m2.active.len() && m2.active[k] == (s, l);
            if k < other.len() {
                assert(other[k] == (s, l));
            } else {
                assert(mine[k - other.len()] == (surface, f[k - other.len()].0));
            }
        }
    }
}

/// Each row of the folded counts is the first under its label.
proof fn lemma_apart(g: LabelsView, counts: Seq<(Seq<char>, int)>, i: int)
    requires
        0 <= i < folded(g, counts).1.len(),
    ensures
        ({
            let f = folded(g, counts).1;
            let ls = labelled(g, names_of(counts)).1;
            ls.contains(f[i].0) && f[i].1 == sum_for(ls, counts, f[i].0)
        }),
{
    let f = folded(g, counts).1;
    let l = f[i].0;
    lemma_count_at(f, l);
    lemma_folded(g, counts, l);
    lemma_labels_apart(g, counts);
}

proof fn lemma_labels_apart(g: LabelsView, counts: Seq<(Seq<char>, int)>)
    ensures
        forall|i: int, j: int|
            0 <= i < j < folded(g, counts).1.len() ==> (#[trigger] folded(g, counts).1[i]).0 != (
            #[trigger] folded(g, counts).1[j]).0,
    decreases counts.len(),
{
    if counts.len() > 0 {
        lemma_labels_apart(g, counts.drop_last());
        let (g1, f) = folded(g, counts.drop_last());
        let label = label_step(g1, counts.last().0).1;
        lemma_count_at(f, label);
    }
}

} // verus!
