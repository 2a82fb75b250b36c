//! What the chat filter catches, and that it catches nothing else.

use crate::chat_filter::{
    best_end, entries, entry, folded, folded_letters, folded_text, letter, letters_end, masked,
    masked_from, parsed_filter, past_run, past_separators, separator, starred, without_cr, word_end,
    FilterView, WordView,
};
use crate::text::pieces;
use vstd::prelude::*;

verus! {

/// Whether the folded text writes a word from `a` to `e`: its letters in their
/// order, the one at `j` from `from[j]` up to `to[j]`, each at least once and as
/// often as one likes, with nothing between two letters of a short word and
/// nothing but separators between two of a word of four or more.
pub open spec fn spells(
    t: Seq<char>,
    cp: Seq<char>,
    from: Seq<int>,
    to: Seq<int>,
    a: int,
    e: int,
) -> bool {
    &&& cp.len() > 0
    &&& from.len() == cp.len()
    &&& to.len() == cp.len()
    &&& from[0] == a
    &&& to[cp.len() - 1] == e
    &&& 0 <= a
    &&& e <= t.len()
    &&& forall|j: int| 0 <= j < cp.len() ==> #[trigger] from[j] < to[j] <= e
    &&& forall|j: int, k: int|
        #![trigger from[j], t[k]]
        0 <= j < cp.len() && from[j] <= k < to[j] ==> t[k] == cp[j]
    &&& forall|j: int|
        0 < j < cp.len() ==> to[j - 1] <= #[trigger] from[j] && (cp.len() < 4 ==> to[j - 1]
            == from[j])
    &&& forall|j: int, k: int|
        #![trigger from[j], t[k]]
        0 < j < cp.len() && to[j - 1] <= k < from[j] ==> separator(t[k])
}

/// Whether a letter that the word itself doubles is written once.
pub open spec fn doubles_once(cp: Seq<char>, from: Seq<int>, to: Seq<int>) -> bool {
    forall|j: int|
        0 <= j < cp.len() - 1 && #[trigger] cp[j] == cp[j + 1] ==> to[j] == from[j] + 1
}

/// Whether a word stands by itself from `a` to `e`.
pub open spec fn stands_alone(s: Seq<char>, a: int, e: int) -> bool {
    (a == 0 || !letter(s[a - 1])) && (e == s.len() || !letter(s[e]))
}

// ----------------------------------------------------- a spelling is a match

proof fn lemma_separators_to(t: Seq<char>, p: int, q: int)
    requires
        0 <= p <= q < t.len(),
        forall|k: int| p <= k < q ==> separator(#[trigger] t[k]),
        !separator(t[q]),
    ensures
        past_separators(t, p) == q,
    decreases q - p,
{
    if p < q {
        assert(separator(t[p]));
        lemma_separators_to(t, p + 1, q);
    }
}

proof fn lemma_run_to(t: Seq<char>, p: int, q: int, c: char)
    requires
        0 <= p <= q <= t.len(),
        forall|k: int| p <= k < q ==> #[trigger] t[k] == c,
        q == t.len() || t[q] != c,
    ensures
        past_run(t, p, c) == q,
    decreases q - p,
{
    if p < q {
        assert(t[p] == c);
        lemma_run_to(t, p + 1, q, c);
    }
}

proof fn lemma_spelled(
    t: Seq<char>,
    cp: Seq<char>,
    from: Seq<int>,
    to: Seq<int>,
    a: int,
    e: int,
    j: int,
)
    requires
        spells(t, cp, from, to, a, e),
        doubles_once(cp, from, to),
        forall|k: int| 0 <= k < cp.len() ==> letter(#[trigger] cp[k]),
        e == t.len() || t[e] != cp.last(),
        0 <= j <= cp.len(),
    ensures
        letters_end(
            t,
            cp,
            j,
            if j == 0 {
                a
            } else {
                to[j - 1]
            },
        ) == Some(e),
    decreases cp.len() - j,
{
    if j < cp.len() {
        let p = if j == 0 {
            a
        } else {
            to[j - 1]
        };
        let q = from[j];
        lemma_front(t, cp, from, to, a, e, j);
        assert(q < to[j] <= e);
        assert(t[q] == cp[j]);
        assert(letter(cp[j]));
        assert(!separator(cp[j]));
        if j > 0 && cp.len() >= 4 {
            assert forall|k: int| p <= k < q implies separator(#[trigger] t[k]) by {
                assert(from[j] == q);
            }
            lemma_separators_to(t, p, q);
        }
        if j + 1 >= cp.len() || cp[j + 1] != cp[j] {
            assert forall|k: int| q + 1 <= k < to[j] implies #[trigger] t[k] == cp[j] by {
                assert(from[j] == q);
            }
            if j + 1 < cp.len() {
                let n = from[j + 1];
                assert(n < to[j + 1] <= e);
                assert(to[j] <= n);
                assert(letter(cp[j + 1]));
                if to[j] < n {
                    assert(separator(t[to[j]]));
                } else {
                    assert(t[n] == cp[j + 1]);
                }
            }
            lemma_run_to(t, q + 1, to[j], cp[j]);
        } else {
            assert(cp[j] == cp[j + 1]);
            assert(to[j] == q + 1);
        }
        lemma_spelled(t, cp, from, to, a, e, j + 1);
    }
}

/// The letters stand behind the start.
proof fn lemma_front(
    t: Seq<char>,
    cp: Seq<char>,
    from: Seq<int>,
    to: Seq<int>,
    a: int,
    e: int,
    j: int,
)
    requires
        spells(t, cp, from, to, a, e),
        0 <= j < cp.len(),
    ensures
        a <= from[j],
        j > 0 ==> a < to[j - 1] <= from[j],
    decreases j,
{
    if j > 0 {
        lemma_front(t, cp, from, to, a, e, j - 1);
        assert(from[j - 1] < to[j - 1]);
        assert(to[j - 1] <= from[j]);
    }
}

proof fn lemma_best_reaches(
    t: Seq<char>,
    orig: Seq<char>,
    at: int,
    words: Seq<WordView>,
    n: int,
    e: int,
)
    requires
        0 <= n < words.len(),
        word_end(t, orig, at, words[n]) == Some(e),
    ensures
        best_end(t, orig, at, words) >= e,
    decreases words.len(),
{
    let d = words.drop_last();
    if n < d.len() {
        assert(d[n] == words[n]);
        lemma_best_reaches(t, orig, at, d, n, e);
    }
}

/// What is a star stays one.
proof fn lemma_stars_stay(t: Seq<char>, orig: Seq<char>, words: Seq<WordView>, i: int, k: int)
    requires
        0 <= k < orig.len(),
        orig.len() == t.len(),
        orig[k] == '*',
    ensures
        masked_from(t, orig, words, i)[k] == '*',
    decreases t.len() - i,
{
    crate::chat_filter::lemma_masked_from(t, orig, words, i);
}

proof fn lemma_scan_silent(t: Seq<char>, orig: Seq<char>, words: Seq<WordView>, i: int, a: int)
    requires
        0 <= i <= a <= t.len(),
        forall|k: int| i <= k < a ==> !letter(#[trigger] t[k]),
    ensures
        masked_from(t, orig, words, i) == masked_from(t, orig, words, a),
    decreases a - i,
{
    if i < a {
        assert(!letter(t[i]));
        lemma_scan_silent(t, orig, words, i + 1, a);
    }
}

proof fn lemma_hit_here(
    t: Seq<char>,
    orig: Seq<char>,
    words: Seq<WordView>,
    n: int,
    a: int,
    e: int,
    k: int,
)
    requires
        orig.len() == t.len(),
        0 <= n < words.len(),
        forall|i: int| 0 <= i < words.len() ==> (#[trigger] words[i]).cp.len() > 0,
        0 <= a <= k < e <= t.len(),
        letter(t[a]),
        word_end(t, orig, a, words[n]) == Some(e),
    ensures
        masked_from(t, orig, words, a)[k] == '*',
{
    lemma_best_reaches(t, orig, a, words, n, e);
    lemma_best_bounded(t, orig, a, words);
    let b = best_end(t, orig, a, words);
    lemma_stars_stay(t, starred(orig, a, b), words, b, k);
}

proof fn lemma_best_bounded(t: Seq<char>, orig: Seq<char>, at: int, words: Seq<WordView>)
    requires
        0 <= at <= t.len(),
    ensures
        best_end(t, orig, at, words) <= t.len(),
    decreases words.len(),
{
    if words.len() > 0 {
        lemma_best_bounded(t, orig, at, words.drop_last());
        crate::chat_filter::lemma_letters_end(t, words.last().cp, 0, at);
    }
}

/// A word of the list that a text writes by itself is starred out whole, however
/// often its letters are repeated, where the text has no letters before it. A
/// letter that the word doubles is written once in the first of the two places.
pub proof fn law_a_listed_word_is_starred(
    f: FilterView,
    s: Seq<char>,
    n: int,
    from: Seq<int>,
    to: Seq<int>,
    a: int,
    e: int,
    k: int,
)
    requires
        f.enabled,
        f.wf(),
        0 <= n < f.words.len(),
        forall|j: int| 0 <= j < f.words[n].cp.len() ==> letter(#[trigger] f.words[n].cp[j]),
        spells(s.map_values(|c: char| folded(c)), f.words[n].cp, from, to, a, e),
        doubles_once(f.words[n].cp, from, to),
        f.words[n].anywhere || stands_alone(s, a, e),
        e == s.len() || folded(s[e]) != f.words[n].cp.last(),
        forall|i: int| 0 <= i < a ==> !letter(folded(#[trigger] s[i])),
        a <= k < e,
    ensures
        masked(f, s)[k] == '*',
{
    let t = folded_text(s);
    assert(t =~= s.map_values(|c: char| folded(c)));
    let w = f.words[n];
    lemma_spelled(t, w.cp, from, to, a, e, 0);
    assert(word_end(t, s, a, w) == Some(e));
    assert(from[0] < to[0] <= e);
    assert(t[a] == w.cp[0]);
    lemma_scan_silent(t, s, f.words, 0, a);
    lemma_hit_here(t, s, f.words, n, a, e, k);
}

proof fn lemma_whole_words(
    t: Seq<char>,
    orig: Seq<char>,
    words: Seq<WordView>,
    n: int,
    i: int,
    a: int,
    e: int,
    k: int,
)
    requires
        orig.len() == t.len(),
        forall|x: int| 0 <= x < words.len() ==> (#[trigger] words[x]).cp.len() > 0 && !words[x].anywhere,
        0 <= n < words.len(),
        0 <= i <= a <= k < e <= t.len(),
        letters_end(t, words[n].cp, 0, a) == Some(e),
        a == 0 || !letter(orig[a - 1]),
        e == t.len() || !letter(orig[e]),
        forall|x: int| a <= x < e ==> letter(#[trigger] orig[x]),
        letter(t[a]),
    ensures
        masked_from(t, orig, words, i)[k] == '*',
    decreases t.len() - i,
{
    if i == a {
        assert(word_end(t, orig, a, words[n]) == Some(e));
        lemma_hit_here(t, orig, words, n, a, e, k);
    } else if !letter(t[i]) {
        lemma_whole_words(t, orig, words, n, i + 1, a, e, k);
    } else {
        let b = best_end(t, orig, i, words);
        lemma_best_bounded(t, orig, i, words);
        if i < b <= t.len() {
            let o = starred(orig, i, b);
            lemma_best_is_bounded_word(t, orig, i, words);
            if b <= a {
                assert forall|x: int| a <= x < e implies letter(#[trigger] o[x]) by {
                    assert(o[x] == orig[x]);
                }
                lemma_whole_words(t, o, words, n, b, a, e, k);
            } else {
                if b < e {
                    assert(letter(orig[b]));
                }
                assert(o[k] == '*');
                lemma_stars_stay(t, o, words, b, k);
            }
        } else {
            lemma_whole_words(t, orig, words, n, i + 1, a, e, k);
        }
    }
}

/// Where no entry matches inside words, a match ends at no letter.
proof fn lemma_best_is_bounded_word(t: Seq<char>, orig: Seq<char>, at: int, words: Seq<WordView>)
    requires
        0 <= at <= t.len(),
        orig.len() == t.len(),
        forall|x: int| 0 <= x < words.len() ==> !(#[trigger] words[x]).anywhere,
    ensures
        ({
            let b = best_end(t, orig, at, words);
            b > at ==> b == t.len() || !letter(orig[b])
        }),
    decreases words.len(),
{
    if words.len() > 0 {
        let d = words.drop_last();
        assert forall|x: int| 0 <= x < d.len() implies !(#[trigger] d[x]).anywhere by {
            assert(d[x] == words[x]);
        }
        lemma_best_is_bounded_word(t, orig, at, d);
        assert(words[words.len() - 1] == words.last());
        crate::chat_filter::lemma_letters_end(t, words.last().cp, 0, at);
    }
}

/// A whole word of the list that stands by itself anywhere in a text, written in
/// letters, is starred out, whatever else the text says, where the list has no
/// entry that matches inside other words.
pub proof fn law_a_whole_word_is_starred_anywhere(
    f: FilterView,
    s: Seq<char>,
    n: int,
    from: Seq<int>,
    to: Seq<int>,
    a: int,
    e: int,
    k: int,
)
    requires
        f.enabled,
        f.wf(),
        forall|i: int| 0 <= i < f.words.len() ==> !(#[trigger] f.words[i]).anywhere,
        0 <= n < f.words.len(),
        forall|j: int| 0 <= j < f.words[n].cp.len() ==> letter(#[trigger] f.words[n].cp[j]),
        spells(s.map_values(|c: char| folded(c)), f.words[n].cp, from, to, a, e),
        doubles_once(f.words[n].cp, from, to),
        stands_alone(s, a, e),
        e == s.len() || folded(s[e]) != f.words[n].cp.last(),
        forall|i: int| a <= i < e ==> letter(#[trigger] s[i]),
        a <= k < e,
    ensures
        masked(f, s)[k] == '*',
{
    let t = folded_text(s);
    assert(t =~= s.map_values(|c: char| folded(c)));
    let w = f.words[n];
    lemma_spelled(t, w.cp, from, to, a, e, 0);
    assert(from[0] < to[0] <= e);
    assert(t[a] == w.cp[0]);
    lemma_whole_words(t, s, f.words, n, 0, a, e, k);
}

// ----------------------------------------------------- a match is a spelling

proof fn lemma_separators_are(t: Seq<char>, p: int, k: int)
    requires
        0 <= p <= k < past_separators(t, p),
    ensures
        k < t.len(),
        separator(t[k]),
    decreases t.len() - p,
{
    if p < t.len() && separator(t[p]) && p < k {
        lemma_separators_are(t, p + 1, k);
    }
}

proof fn lemma_separators_grow(t: Seq<char>, p: int)
    requires
        0 <= p,
    ensures
        p <= past_separators(t, p),
    decreases t.len() - p,
{
    if p < t.len() && separator(t[p]) {
        lemma_separators_grow(t, p + 1);
    }
}

proof fn lemma_run_is(t: Seq<char>, p: int, c: char)
    requires
        0 <= p <= t.len(),
    ensures
        p <= past_run(t, p, c) <= t.len(),
        forall|k: int| p <= k < past_run(t, p, c) ==> #[trigger] t[k] == c,
    decreases t.len() - p,
{
    if p < t.len() && t[p] == c {
        lemma_run_is(t, p + 1, c);
    }
}

/// Whether a text writes the letters of a word from the one at `j` on, from `p`
/// to `e`.
spec fn spells_rest(
    t: Seq<char>,
    cp: Seq<char>,
    from: Seq<int>,
    to: Seq<int>,
    j: int,
    p: int,
    e: int,
) -> bool {
    &&& from.len() == cp.len()
    &&& to.len() == cp.len()
    &&& p <= e <= t.len()
    &&& j == cp.len() ==> p == e
    &&& j < cp.len() ==> to[cp.len() - 1] == e && p <= from[j] && (j == 0 || cp.len() < 4 ==> from[j]
        == p) && forall|k: int| p <= k < from[j] ==> separator(#[trigger] t[k])
    &&& forall|i: int| j <= i < cp.len() ==> #[trigger] from[i] < to[i] <= e
    &&& forall|i: int, k: int|
        #![trigger from[i], t[k]]
        j <= i < cp.len() && from[i] <= k < to[i] ==> t[k] == cp[i]
    &&& forall|i: int|
        j < i < cp.len() ==> to[i - 1] <= #[trigger] from[i] && (cp.len() < 4 ==> to[i - 1] == from[i])
    &&& forall|i: int, k: int|
        #![trigger from[i], t[k]]
        j < i < cp.len() && to[i - 1] <= k < from[i] ==> separator(t[k])
}

proof fn lemma_unspelled(t: Seq<char>, cp: Seq<char>, j: int, p: int) -> (r: (Seq<int>, Seq<int>))
    requires
        0 <= p <= t.len(),
        0 <= j <= cp.len(),
        letters_end(t, cp, j, p) is Some,
    ensures
        spells_rest(t, cp, r.0, r.1, j, p, letters_end(t, cp, j, p)->0),
    decreases cp.len() - j,
{
    let e = letters_end(t, cp, j, p)->0;
    if j == cp.len() {
        (Seq::new(cp.len(), |i: int| 0int), Seq::new(cp.len(), |i: int| 0int))
    } else {
        lemma_separators_grow(t, p);
        let q = if j > 0 && cp.len() >= 4 {
            past_separators(t, p)
        } else {
            p
        };
        lemma_run_is(t, q + 1, cp[j]);
        let r = if j + 1 >= cp.len() || cp[j + 1] != cp[j] {
            past_run(t, q + 1, cp[j])
        } else {
            q + 1
        };
        assert(letters_end(t, cp, j + 1, r) == Some(e));
        assert(q < t.len() && t[q] == cp[j]);
        let (f0, t0) = lemma_unspelled(t, cp, j + 1, r);
        assert forall|k: int| p <= k < q implies separator(#[trigger] t[k]) by {
            lemma_separators_are(t, p, k);
        }
        assert forall|k: int| q <= k < r implies #[trigger] t[k] == cp[j] by {}
        lemma_one_more_letter(t, cp, f0, t0, j, p, q, r, e);
        (f0.update(j, q), t0.update(j, r))
    }
}

/// A letter in front of the rest of a word.
proof fn lemma_one_more_letter(
    t: Seq<char>,
    cp: Seq<char>,
    f0: Seq<int>,
    t0: Seq<int>,
    j: int,
    p: int,
    q: int,
    r: int,
    e: int,
)
    requires
        0 <= j < cp.len(),
        0 <= p <= q < r <= t.len(),
        j == 0 || cp.len() < 4 ==> q == p,
        forall|k: int| p <= k < q ==> separator(#[trigger] t[k]),
        forall|k: int| q <= k < r ==> #[trigger] t[k] == cp[j],
        spells_rest(t, cp, f0, t0, j + 1, r, e),
    ensures
        spells_rest(t, cp, f0.update(j, q), t0.update(j, r), j, p, e),
{
    let from = f0.update(j, q);
    let to = t0.update(j, r);
    assert forall|i: int| j <= i < cp.len() implies #[trigger] from[i] < to[i] <= e by {
        if i > j {
            assert(f0[i] < t0[i] <= e);
        }
    }
    assert forall|i: int, k: int|
        #![trigger from[i], t[k]]
        j <= i < cp.len() && from[i] <= k < to[i] implies t[k] == cp[i] by {
        if i > j {
            assert(f0[i] == from[i]);
        }
    }
    assert forall|i: int| j < i < cp.len() implies to[i - 1] <= #[trigger] from[i] && (cp.len() < 4
        ==> to[i - 1] == from[i]) by {
        assert(f0[i] == from[i]);
    }
    assert forall|i: int, k: int|
        #![trigger from[i], t[k]]
        j < i < cp.len() && to[i - 1] <= k < from[i] implies separator(t[k]) by {
        assert(f0[i] == from[i]);
    }
}

/// Whether the text from `a` to `e` is a hit: it writes the word at `n` and, unless
/// the word matches inside others, neither a letter stands right before it in what
/// is let through nor one right behind it.
pub open spec fn is_hit(
    words: Seq<WordView>,
    s: Seq<char>,
    through: Seq<char>,
    n: int,
    from: Seq<int>,
    to: Seq<int>,
    a: int,
    e: int,
) -> bool {
    &&& 0 <= n < words.len()
    &&& spells(s.map_values(|c: char| folded(c)), words[n].cp, from, to, a, e)
    &&& words[n].anywhere || ((a == 0 || !letter(through[a - 1])) && (e == s.len() || !letter(s[e])))
}

/// Which word a longest match is of.
proof fn lemma_best_is(t: Seq<char>, orig: Seq<char>, at: int, words: Seq<WordView>) -> (n: int)
    requires
        0 <= at <= t.len(),
        best_end(t, orig, at, words) > 0,
    ensures
        0 <= n < words.len(),
        word_end(t, orig, at, words[n]) == Some(best_end(t, orig, at, words)),
    decreases words.len(),
{
    let d = words.drop_last();
    let b = best_end(t, orig, at, words);
    if word_end(t, orig, at, words.last()) == Some(b) {
        words.len() - 1
    } else {
        let n = lemma_best_is(t, orig, at, d);
        assert(d[n] == words[n]);
        n
    }
}

/// What the scan has passed stays as it is.
proof fn lemma_passed(t: Seq<char>, orig: Seq<char>, words: Seq<WordView>, i: int, x: int)
    requires
        orig.len() == t.len(),
        0 <= x < i,
        x < t.len(),
    ensures
        masked_from(t, orig, words, i)[x] == orig[x],
    decreases t.len() - i,
{
    if i < t.len() {
        if !letter(t[i]) {
            lemma_passed(t, orig, words, i + 1, x);
        } else {
            let e = best_end(t, orig, i, words);
            if i < e <= t.len() {
                lemma_passed(t, starred(orig, i, e), words, e, x);
            } else {
                lemma_passed(t, orig, words, i + 1, x);
            }
        }
    }
}

proof fn lemma_hit_found(
    t: Seq<char>,
    orig: Seq<char>,
    words: Seq<WordView>,
    i: int,
    s: Seq<char>,
    k: int,
)
    requires
        t == s.map_values(|c: char| folded(c)),
        orig.len() == s.len(),
        0 <= i,
        forall|x: int| 0 <= x < words.len() ==> (#[trigger] words[x]).cp.len() > 0,
        forall|x: int| i <= x < s.len() ==> #[trigger] orig[x] == s[x],
        0 <= k < s.len(),
        masked_from(t, orig, words, i)[k] != orig[k],
    ensures
        exists|n: int, from: Seq<int>, to: Seq<int>, a: int, e: int| #[trigger]
            is_hit(words, s, masked_from(t, orig, words, i), n, from, to, a, e) && a <= k < e,
    decreases t.len() - i,
{
    if i < t.len() {
        let m = masked_from(t, orig, words, i);
        if !letter(t[i]) {
            lemma_hit_found(t, orig, words, i + 1, s, k);
        } else {
            let e = best_end(t, orig, i, words);
            if i < e <= t.len() {
                let o = starred(orig, i, e);
                if i <= k < e {
                    let n = lemma_best_is(t, orig, i, words);
                    let w = words[n];
                    let (from, to) = lemma_unspelled(t, w.cp, 0, i);
                    assert(spells(t, w.cp, from, to, i, e));
                    if i > 0 {
                        lemma_passed(t, o, words, e, i - 1);
                        assert(o[i - 1] == orig[i - 1]);
                    }
                    if e < s.len() {
                        assert(orig[e] == s[e]);
                    }
                    assert(is_hit(words, s, m, n, from, to, i, e));
                } else {
                    assert(o[k] == orig[k]);
                    assert forall|x: int| e <= x < s.len() implies #[trigger] o[x] == s[x] by {
                        assert(orig[x] == s[x]);
                    }
                    lemma_hit_found(t, o, words, e, s, k);
                }
            } else {
                lemma_hit_found(t, orig, words, i + 1, s, k);
            }
        }
    }
}

/// Nothing is starred but what an entry of the list catches.
pub proof fn law_only_listed_words_are_starred(f: FilterView, s: Seq<char>, k: int)
    requires
        f.wf(),
        0 <= k < s.len(),
        masked(f, s)[k] != s[k],
    ensures
        exists|n: int, from: Seq<int>, to: Seq<int>, a: int, e: int| #[trigger]
            is_hit(f.words, s, masked(f, s), n, from, to, a, e) && a <= k < e,
{
    let t = folded_text(s);
    assert(t =~= s.map_values(|c: char| folded(c)));
    lemma_hit_found(t, s, f.words, 0, s, k);
}

// ------------------------------------------------------------ lists and folding

proof fn lemma_entry_kept(lines: Seq<Seq<char>>, i: int) -> (n: int)
    requires
        0 <= i < lines.len(),
        entry(lines[i]) is Some,
    ensures
        0 <= n < entries(lines).len(),
        entries(lines)[n] == entry(lines[i])->0,
    decreases lines.len(),
{
    let d = lines.drop_last();
    if i == lines.len() - 1 {
        entries(d).len() as int
    } else {
        assert(d[i] == lines[i]);
        lemma_entry_kept(d, i)
    }
}

proof fn lemma_plain_letters(s: Seq<char>)
    requires
        forall|k: int| 0 <= k < s.len() ==> #[trigger] s[k] != ' ',
    ensures
        folded_letters(s) == s.map_values(|c: char| folded(c)),
    decreases s.len(),
{
    let m = s.map_values(|c: char| folded(c));
    if s.len() > 0 {
        let d = s.drop_last();
        assert forall|k: int| 0 <= k < d.len() implies #[trigger] d[k] != ' ' by {
            assert(d[k] == s[k]);
        }
        lemma_plain_letters(d);
        assert(s[s.len() - 1] != ' ');
        assert(m =~= d.map_values(|c: char| folded(c)).push(folded(s.last())));
    } else {
        assert(m =~= Seq::<char>::empty());
    }
}

/// A word that a line of a list writes, in letters that fold to letters, is
/// starred out whole wherever a text says just that word, in any spelling that
/// folds alike: capitals, accents, digits for letters.
pub proof fn law_a_line_of_the_list_is_caught(list: Seq<char>, i: int, said: Seq<char>, k: int)
    requires
        0 <= i < pieces(list, '\n').len(),
        ({
            let word = pieces(list, '\n')[i];
            &&& word.len() > 0
            &&& word.len() == said.len()
            &&& forall|j: int|
                0 <= j < word.len() ==> letter(#[trigger] word[j]) && letter(folded(word[j]))
                    && folded(said[j]) == folded(word[j])
        }),
        0 <= k < said.len(),
    ensures
        masked(parsed_filter(list, true), said)[k] == '*',
{
    let lines = pieces(list, '\n');
    let word = lines[i];
    let f = parsed_filter(list, true);
    assert(letter(word[0]));
    assert(letter(word[word.len() - 1]));
    assert(without_cr(word) == word);
    assert forall|j: int| 0 <= j < word.len() implies #[trigger] word[j] != ' ' by {
        assert(letter(word[j]));
    }
    lemma_plain_letters(word);
    let n = lemma_entry_kept(lines, i);
    let cp = f.words[n].cp;
    crate::chat_filter::lemma_parsed_wf(list, true);
    let t = said.map_values(|c: char| folded(c));
    assert(cp =~= t) by {
        assert forall|j: int| 0 <= j < cp.len() implies cp[j] == t[j] by {
            assert(letter(word[j]));
        }
    }
    let from = Seq::new(cp.len(), |j: int| j);
    let to = Seq::new(cp.len(), |j: int| j + 1);
    assert forall|j: int| 0 <= j < cp.len() implies letter(#[trigger] cp[j]) by {
        assert(letter(word[j]));
    }
    assert(spells(t, cp, from, to, 0, said.len() as int));
    law_a_listed_word_is_starred(f, said, n, from, to, 0, said.len() as int, k);
}

/// Capitals count as small letters, a wide character as the narrow one, a small
/// Latin letter as itself, and a digit or sign as the letter that it stands for.
pub proof fn law_spelling_does_not_matter(c: char)
    ensures
        'a' <= c <= 'z' ==> folded(c) == c,
        'A' <= c <= 'Z' ==> folded(c) == folded((c as u32 + 32) as char),
        0xFF01 <= c as u32 <= 0xFF5E ==> folded(c) == folded((c as u32 - 0xFEE0) as char),
        c == '0' ==> folded(c) == 'o',
        c == '1' || c == '!' ==> folded(c) == 'i',
        c == '3' ==> folded(c) == 'e',
        c == '4' || c == '@' ==> folded(c) == 'a',
        c == '5' || c == '$' ==> folded(c) == 's',
        c == '7' || c == '+' ==> folded(c) == 't',
        c == '|' ==> folded(c) == 'l',
{
}

} // verus!
