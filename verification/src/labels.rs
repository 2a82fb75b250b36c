//! What holds of game labels: of one, of all that a server gives out, and of a
//! name however it is written.

use crate::metrics::{
    fresh_labels, label_char, label_from, label_letter, label_step,
    normalized, seeded, unpadded, LabelsView, GAME_LABEL_MAX_LEN, GAME_LABEL_OTHER,
    GAME_LABEL_UNKNOWN,
};
use crate::text::{is_white, trimmed, trimmed_end, trimmed_start, upper_char, uppered};
use vstd::prelude::*;
use vstd::string::*;

verus! {

// ------------------------------------------------------------ one label

/// Separators that no label ends with.
pub open spec fn separator(c: char) -> bool {
    c == '_' || c == '-' || c == '.'
}

/// A label while it is put together: bounded, of label characters, with no
/// underscore in front and no two in a row.
pub open spec fn tidy(s: Seq<char>) -> bool {
    &&& s.len() <= GAME_LABEL_MAX_LEN
    &&& forall|k: int| 0 <= k < s.len() ==> label_letter(#[trigger] s[k])
    &&& s.len() > 0 ==> s[0] != '_'
    &&& forall|k: int| 0 < k < s.len() && #[trigger] s[k] == '_' ==> s[k - 1] != '_'
}

proof fn lemma_tidy(s: Seq<char>, i: int, out: Seq<char>, after_sep: bool)
    requires
        tidy(out),
        after_sep == (out.len() > 0 && out.last() == '_'),
    ensures
        tidy(label_from(s, i, out, after_sep)),
    decreases s.len() - i,
{
    if i < s.len() && out.len() < GAME_LABEL_MAX_LEN {
        let c = label_char(s[i]);
        if c == '_' && (after_sep || out.len() == 0) {
            lemma_tidy(s, i + 1, out, after_sep);
        } else {
            let next = out.push(c);
            assert forall|k: int| 0 <= k < next.len() implies label_letter(#[trigger] next[k]) by {
                if k < out.len() {
                    assert(next[k] == out[k]);
                }
            }
            assert forall|k: int| 0 < k < next.len() && #[trigger] next[k] == '_' implies next[k
                - 1] != '_' by {
                if k < out.len() {
                    assert(next[k] == out[k] && next[k - 1] == out[k - 1]);
                }
            }
            if out.len() > 0 {
                assert(next[0] == out[0]);
            }
            lemma_tidy(s, i + 1, next, c == '_');
        }
    }
}

proof fn lemma_unpadded_tidy(s: Seq<char>)
    requires
        tidy(s),
    ensures
        tidy(unpadded(s)),
        unpadded(s).len() > 0 ==> !separator(unpadded(s).last()),
    decreases s.len(),
{
    if s.len() > 0 && separator(s.last()) {
        let d = s.drop_last();
        assert forall|k: int| 0 <= k < d.len() implies label_letter(#[trigger] d[k]) by {
            assert(d[k] == s[k]);
        }
        assert forall|k: int| 0 < k < d.len() && #[trigger] d[k] == '_' implies d[k - 1] != '_' by {
            assert(d[k] == s[k] && d[k - 1] == s[k - 1]);
        }
        lemma_unpadded_tidy(d);
    }
}

/// Putting a tidy text together again gives the text.
proof fn lemma_retraced(s: Seq<char>, i: int)
    requires
        tidy(s),
        0 <= i <= s.len(),
    ensures
        label_from(s, i, s.take(i), i > 0 && s[i - 1] == '_') == s,
    decreases s.len() - i,
{
    if i == s.len() {
        assert(s.take(i) =~= s);
    } else {
        assert(label_letter(s[i]));
        assert(label_char(s[i]) == s[i]);
        assert(s.take(i).push(s[i]) =~= s.take(i + 1));
        lemma_retraced(s, i + 1);
    }
}

proof fn lemma_label_not_white(s: Seq<char>)
    requires
        tidy(s),
    ensures
        trimmed(s) == s,
{
    if s.len() > 0 {
        assert(label_letter(s[0]) && label_letter(s[s.len() - 1]));
        assert(trimmed_start(s) == s);
        assert(s.last() == s[s.len() - 1]);
    }
}

/// A label is bounded, holds nothing but `[a-z0-9._-]`, has no underscore in
/// front and no two in a row, does not end with a separator, and is its own
/// label.
pub proof fn law_labels_are_their_own(raw: Seq<char>)
    ensures
        tidy(normalized(raw)),
        normalized(raw).len() > 0 ==> !separator(normalized(raw).last()),
        normalized(normalized(raw)) == normalized(raw),
{
    let t = label_from(trimmed(raw), 0, Seq::empty(), false);
    lemma_tidy(trimmed(raw), 0, Seq::empty(), false);
    lemma_unpadded_tidy(t);
    let n = normalized(raw);
    lemma_label_not_white(n);
    lemma_retraced(n, 0);
    assert(n.take(0) =~= Seq::<char>::empty());
}

proof fn lemma_upper_start(s: Seq<char>)
    ensures
        trimmed_start(uppered(s)) == uppered(trimmed_start(s)),
    decreases s.len(),
{
    if s.len() > 0 {
        assert(uppered(s)[0] == upper_char(s[0]));
        assert(is_white(upper_char(s[0])) == is_white(s[0]));
        if is_white(s[0]) {
            assert(uppered(s).skip(1) =~= uppered(s.skip(1)));
            lemma_upper_start(s.skip(1));
        }
    }
}

proof fn lemma_upper_end(s: Seq<char>)
    ensures
        trimmed_end(uppered(s)) == uppered(trimmed_end(s)),
    decreases s.len(),
{
    if s.len() > 0 {
        assert(uppered(s).last() == upper_char(s.last()));
        assert(is_white(upper_char(s.last())) == is_white(s.last()));
        if is_white(s.last()) {
            assert(uppered(s).drop_last() =~= uppered(s.drop_last()));
            lemma_upper_end(s.drop_last());
        }
    }
}

proof fn lemma_upper_label(s: Seq<char>, i: int, out: Seq<char>, after_sep: bool)
    requires
        0 <= i,
    ensures
        label_from(uppered(s), i, out, after_sep) == label_from(s, i, out, after_sep),
    decreases s.len() - i,
{
    if i < s.len() && out.len() < GAME_LABEL_MAX_LEN {
        assert(uppered(s)[i] == upper_char(s[i]));
        let c = label_char(s[i]);
        assert(label_char(upper_char(s[i])) == c);
        if c == '_' {
            lemma_upper_label(s, i + 1, out, after_sep);
            lemma_upper_label(s, i + 1, out.push(c), true);
        } else {
            lemma_upper_label(s, i + 1, out.push(c), false);
        }
    }
}

/// A name has the same label in capitals.
pub proof fn law_capitals_do_not_count(raw: Seq<char>)
    ensures
        normalized(uppered(raw)) == normalized(raw),
{
    lemma_upper_start(raw);
    lemma_upper_end(trimmed_start(raw));
    lemma_upper_label(trimmed(raw), 0, Seq::empty(), false);
}

// ---------------------------------------------------------- all the labels

/// The labels once some names were asked for one after the other, and what each
/// was given.
pub open spec fn labelled(g: LabelsView, names: Seq<Seq<char>>) -> (LabelsView, Seq<Seq<char>>)
    decreases names.len(),
{
    if names.len() == 0 {
        (g, Seq::empty())
    } else {
        let (g1, ls) = labelled(g, names.drop_last());
        let (g2, l) = label_step(g1, names.last());
        (g2, ls.push(l))
    }
}

/// Whether no name will be learned any more.
pub open spec fn full(g: LabelsView) -> bool {
    g.strict || g.known.len() >= g.limit
}

/// What a name is given by labels that know it, or that are full.
pub open spec fn given_by(g: LabelsView, name: Seq<char>) -> Seq<char> {
    if normalized(name).len() == 0 {
        GAME_LABEL_UNKNOWN@
    } else if g.known.contains(normalized(name)) {
        normalized(name)
    } else {
        GAME_LABEL_OTHER@
    }
}

proof fn lemma_given(g: LabelsView, names: Seq<Seq<char>>, i: int)
    requires
        0 <= i < names.len(),
    ensures
        ({
            let (g2, ls) = labelled(g, names);
            &&& ls.len() == names.len()
            &&& ls[i] == given_by(g2, names[i])
            &&& normalized(names[i]).len() == 0 || g2.known.contains(normalized(names[i])) || full(g2)
        }),
    decreases names.len(),
{
    let (g1, ls) = labelled(g, names.drop_last());
    let (g2, l) = label_step(g1, names.last());
    lemma_count(g, names.drop_last());
    let n = normalized(names.last());
    if g2 != g1 {
        assert(g2.known[g2.known.len() - 1] == n);
    }
    if i < names.len() - 1 {
        lemma_given(g, names.drop_last(), i);
        assert(names.drop_last()[i] == names[i]);
        assert(ls.push(l)[i] == ls[i]);
        let m = normalized(names[i]);
        if g1.known.contains(m) {
            let k = choose|k: int| 0 <= k < g1.known.len() && g1.known[k] == m;
            assert(g2.known[k] == m);
        }
    }
}

proof fn lemma_count(g: LabelsView, names: Seq<Seq<char>>)
    ensures
        labelled(g, names).1.len() == names.len(),
        labelled(g, names).0.strict == g.strict,
        labelled(g, names).0.limit == g.limit,
        g.known.len() <= g.limit ==> labelled(g, names).0.known.len() <= g.limit,
    decreases names.len(),
{
    if names.len() > 0 {
        lemma_count(g, names.drop_last());
    }
}

/// The labels of some calls but for the two that stand for many names.
pub open spec fn learned(ls: Seq<Seq<char>>) -> Set<Seq<char>> {
    ls.to_set().remove(GAME_LABEL_OTHER@).remove(GAME_LABEL_UNKNOWN@)
}

/// However many names a server without an allowlist is asked for, it gives out
/// no more labels than its limit, next to `other` and `unknown`. Each name is
/// given its own label or one of those two, `unknown` where nothing is left of
/// it, and names with the same label are given the same.
pub proof fn law_label_count_is_bounded(limit: int, names: Seq<Seq<char>>)
    ensures
        ({
            let ls = labelled(fresh_labels(Seq::empty(), limit), names).1;
            &&& ls.len() == names.len()
            &&& learned(ls).len() <= (if limit < 1 {
                1
            } else {
                limit
            })
            &&& forall|i: int|
                0 <= i < ls.len() ==> {
                    ||| #[trigger] ls[i] == normalized(names[i])
                    ||| ls[i] == GAME_LABEL_OTHER@
                    ||| ls[i] == GAME_LABEL_UNKNOWN@
                }
            &&& forall|i: int|
                0 <= i < ls.len() && normalized(names[i]).len() == 0 ==> #[trigger] ls[i]
                    == GAME_LABEL_UNKNOWN@
            &&& forall|i: int, j: int|
                0 <= i < ls.len() && 0 <= j < ls.len() && normalized(names[i]) == normalized(
                    names[j],
                ) ==> #[trigger] ls[i] == #[trigger] ls[j]
        }),
{
    let g = fresh_labels(Seq::empty(), limit);
    let (g2, ls) = labelled(g, names);
    lemma_count(g, names);
    assert(seeded(Seq::empty()).len() == 0);
    assert forall|i: int| 0 <= i < ls.len() implies #[trigger] ls[i] == given_by(g2, names[i]) by {
        lemma_given(g, names, i);
    }
    let given = learned(ls);
    assert forall|l: Seq<char>| given.contains(l) implies g2.known.to_set().contains(l) by {
        let i = choose|i: int| 0 <= i < ls.len() && ls[i] == l;
        assert(ls[i] == given_by(g2, names[i]));
    }
    vstd::seq_lib::seq_to_set_is_finite(g2.known);
    vstd::set_lib::lemma_len_subset(given, g2.known.to_set());
    g2.known.lemma_cardinality_of_set();
}

} // verus!
