//! The one gate every client-supplied name passes through.
//!
//! Two rules, and they are different on purpose:
//!
//! * **Hygiene** ([`sanitize`]) drops control characters, caps and trims.
//!   Applied to anything a client sends that will be shown to another player.
//! * **Refusal** ([`is_refused`]): a name that trips the word list is refused
//!   rather than masked. A chat line is a moment and a mask reads as one; a
//!   name sits in the seat table and in front of every line that player sends.

use crate::chat_filter::{apply, masked, ChatFilter, FilterView};
use crate::text::{
    byte_len, first_chars, is_control, is_white, lemma_byte_len_nonneg, lemma_byte_len_prefix,
    lemma_trimmed_ends, opt_view, printable, printable_chars, same, string_of, trim_range, trimmed,
    trimmed_end, trimmed_start, width,
};
use vstd::prelude::*;

verus! {

/// Characters a name may occupy.
pub const NAME_MAX_CHARS: usize = 32;

/// Bytes a name may occupy: the 64-byte client field, less its NUL.
pub const NAME_MAX_BYTES: usize = 63;

/// The longest prefix of `s` that takes at most `max` bytes.
pub open spec fn fitting(s: Seq<char>, max: int) -> Seq<char>
    decreases s.len(),
{
    if s.len() == 0 || byte_len(s) <= max {
        s
    } else {
        fitting(s.drop_last(), max)
    }
}

/// What hygiene leaves of a name.
pub open spec fn clean_name(s: Seq<char>) -> Seq<char> {
    trimmed(fitting(first_chars(printable(s), NAME_MAX_CHARS as int), NAME_MAX_BYTES as int))
}

/// The name that hygiene lets through; none where nothing is left.
pub open spec fn sanitized(s: Option<Seq<char>>) -> Option<Seq<char>> {
    match s {
        Some(s) => if clean_name(s).len() == 0 {
            None
        } else {
            Some(clean_name(s))
        },
        None => None,
    }
}

/// Whether the name trips the word list.
pub open spec fn refused(filter: FilterView, name: Seq<char>) -> bool {
    masked(filter, name) != name
}

/// The name that may be used as it is, once hygiene and refusal have had it.
pub open spec fn usable(filter: FilterView, s: Option<Seq<char>>) -> Option<Seq<char>> {
    match sanitized(s) {
        Some(n) => if refused(filter, n) {
            None
        } else {
            Some(n)
        },
        None => None,
    }
}

/// A prefix that fits, with a longer one that does not, is the longest.
proof fn lemma_fitting_is(s: Seq<char>, k: int, max: int)
    requires
        0 <= k <= s.len(),
        byte_len(s.take(k)) <= max,
        k < s.len() ==> byte_len(s.take(k + 1)) > max,
    ensures
        fitting(s, max) == s.take(k),
    decreases s.len(),
{
    if k == s.len() {
        assert(s.take(k) =~= s);
    } else {
        lemma_byte_len_prefix(s, k + 1);
        let d = s.drop_last();
        assert(d.take(k) =~= s.take(k));
        if k < d.len() {
            assert(d.take(k + 1) =~= s.take(k + 1));
        } else {
            assert(d =~= s.take(k));
        }
        lemma_fitting_is(d, k, max);
    }
}

proof fn lemma_fitting(s: Seq<char>, max: int)
    requires
        max >= 0,
    ensures
        byte_len(fitting(s, max)) <= max,
        fitting(s, max).len() <= s.len(),
        fitting(s, max) == s.take(fitting(s, max).len() as int),
    decreases s.len(),
{
    if s.len() == 0 || byte_len(s) <= max {
        assert(s.take(s.len() as int) =~= s);
    } else {
        lemma_fitting(s.drop_last(), max);
        let p = fitting(s.drop_last(), max);
        assert(s.drop_last().take(p.len() as int) =~= s.take(p.len() as int));
    }
}

pub fn sanitize(s: Option<String>) -> (r: Option<String>)
    ensures
        opt_view(r) == sanitized(opt_view(s)),
{
    let s = match s {
        Some(s) => s,
        None => {
            return None;
        },
    };
    let v = printable_chars(s.as_str(), NAME_MAX_CHARS);
    let mut out: Vec<char> = Vec::new();
    let mut used: usize = 0;
    let mut i: usize = 0;
    while i < v.len() && used + width(v[i]) <= NAME_MAX_BYTES
        invariant
            i <= v@.len(),
            used == byte_len(v@.take(i as int)),
            used <= NAME_MAX_BYTES,
            out@ =~= v@.take(i as int),
        decreases v@.len() - i,
    {
        proof {
            assert(v@.take(i + 1).drop_last() =~= v@.take(i as int));
        }
        used = used + width(v[i]);
        out.push(v[i]);
        i = i + 1;
    }
    proof {
        if i < v@.len() {
            assert(v@.take(i + 1).drop_last() =~= v@.take(i as int));
        }
        lemma_fitting_is(v@, i as int, NAME_MAX_BYTES as int);
    }
    let (a, b) = trim_range(&out);
    if a == b {
        None
    } else {
        Some(string_of(&out, a, b))
    }
}

/// True when the name trips the shared word list, and so may not be used.
pub fn is_refused(filter: &ChatFilter, name: &str) -> (r: bool)
    requires
        filter@.wf(),
    ensures
        r == refused(filter@, name@),
{
    let m = apply(filter, name);
    !same(m.as_str(), name)
}

/// Hygiene and refusal together: `Some(name)` when it may be used as it is.
pub fn acceptable(filter: &ChatFilter, s: Option<String>) -> (r: Option<String>)
    requires
        filter@.wf(),
    ensures
        opt_view(r) == usable(filter@, opt_view(s)),
{
    match sanitize(s) {
        Some(n) => {
            if is_refused(filter, n.as_str()) {
                None
            } else {
                Some(n)
            }
        },
        None => None,
    }
}

// ------------------------------------------------------------------- laws

proof fn lemma_printable_all(s: Seq<char>)
    ensures
        forall|k: int| 0 <= k < printable(s).len() ==> !is_control(#[trigger] printable(s)[k]),
    decreases s.len(),
{
    reveal(Seq::filter);
    if s.len() > 0 {
        lemma_printable_all(s.drop_last());
        let p = printable(s.drop_last());
        assert forall|k: int| 0 <= k < printable(s).len() implies !is_control(
            #[trigger] printable(s)[k],
        ) by {
            if k < p.len() {
                assert(printable(s)[k] == p[k]);
            }
        }
    }
}

pub proof fn lemma_printable_same(s: Seq<char>)
    requires
        forall|k: int| 0 <= k < s.len() ==> !is_control(#[trigger] s[k]),
    ensures
        printable(s) == s,
    decreases s.len(),
{
    reveal(Seq::filter);
    if s.len() > 0 {
        let d = s.drop_last();
        assert forall|k: int| 0 <= k < d.len() implies !is_control(#[trigger] d[k]) by {
            assert(d[k] == s[k]);
        }
        lemma_printable_same(d);
        assert(!is_control(s[s.len() - 1]));
        assert(d.push(s.last()) =~= s);
    } else {
        assert(printable(s) =~= s);
    }
}

/// The trimmed text is a stretch of the text.
proof fn lemma_trimmed_stretch(s: Seq<char>)
    ensures
        exists|a: int, b: int|
            0 <= a <= b <= s.len() && #[trigger] s.subrange(a, b) == trimmed(s),
{
    lemma_start_stretch(s);
    lemma_end_stretch(trimmed_start(s));
    let a = choose|a: int| 0 <= a <= s.len() && #[trigger] s.skip(a) == trimmed_start(s);
    let m = s.skip(a);
    let b = choose|b: int| 0 <= b <= m.len() && #[trigger] m.take(b) == trimmed_end(m);
    assert(s.subrange(a, a + b) =~= m.take(b));
}

proof fn lemma_start_stretch(s: Seq<char>)
    ensures
        exists|a: int| 0 <= a <= s.len() && #[trigger] s.skip(a) == trimmed_start(s),
    decreases s.len(),
{
    if s.len() > 0 && is_white(s[0]) {
        lemma_start_stretch(s.skip(1));
        let t = s.skip(1);
        let a = choose|a: int| 0 <= a <= t.len() && #[trigger] t.skip(a) == trimmed_start(t);
        assert(s.skip(a + 1) =~= t.skip(a));
    } else {
        assert(s.skip(0) =~= s);
    }
}

proof fn lemma_end_stretch(s: Seq<char>)
    ensures
        exists|b: int| 0 <= b <= s.len() && #[trigger] s.take(b) == trimmed_end(s),
    decreases s.len(),
{
    if s.len() > 0 && is_white(s.last()) {
        let t = s.drop_last();
        lemma_end_stretch(t);
        let b = choose|b: int| 0 <= b <= t.len() && #[trigger] t.take(b) == trimmed_end(t);
        assert(s.take(b) =~= t.take(b));
    } else {
        assert(s.take(s.len() as int) =~= s);
    }
}

proof fn lemma_byte_len_skip(s: Seq<char>, a: int)
    requires
        0 <= a <= s.len(),
    ensures
        byte_len(s.skip(a)) <= byte_len(s),
    decreases s.len(),
{
    if a == s.len() {
        assert(s.skip(a) =~= Seq::<char>::empty());
        lemma_byte_len_nonneg(s);
    } else {
        let d = s.drop_last();
        lemma_byte_len_skip(d, a);
        assert(s.skip(a).drop_last() =~= d.skip(a));
        assert(s.skip(a).last() == s.last());
    }
}

/// Every name that hygiene lets through is within both caps, holds no control
/// character, and neither begins nor ends with white space.
pub proof fn law_clean_name_bounds(s: Seq<char>)
    ensures
        clean_name(s).len() <= NAME_MAX_CHARS,
        byte_len(clean_name(s)) <= NAME_MAX_BYTES,
        forall|k: int| 0 <= k < clean_name(s).len() ==> !is_control(#[trigger] clean_name(s)[k]),
        clean_name(s).len() > 0 ==> !is_white(clean_name(s)[0]) && !is_white(clean_name(s).last()),
{
    let p = printable(s);
    let f = first_chars(p, NAME_MAX_CHARS as int);
    let g = fitting(f, NAME_MAX_BYTES as int);
    lemma_printable_all(s);
    lemma_fitting(f, NAME_MAX_BYTES as int);
    lemma_trimmed_ends(g);
    lemma_trimmed_stretch(g);
    let (a, b) = choose|a: int, b: int|
        0 <= a <= b <= g.len() && #[trigger] g.subrange(a, b) == trimmed(g);
    assert forall|k: int| 0 <= k < clean_name(s).len() implies !is_control(
        #[trigger] clean_name(s)[k],
    ) by {
        assert(clean_name(s)[k] == g[a + k]);
        assert(g[a + k] == f[a + k]);
        assert(f[a + k] == p[a + k]);
    }
    lemma_byte_len_prefix(g, b);
    lemma_byte_len_skip(g.take(b), a);
    assert(g.take(b).skip(a) =~= g.subrange(a, b));
}

/// Cleaning a clean name changes nothing.
pub proof fn law_sanitize_idempotent(s: Option<Seq<char>>)
    ensures
        sanitized(sanitized(s)) == sanitized(s),
{
    if sanitized(s) is Some {
        let n = sanitized(s)->0;
        law_clean_name_bounds(s->0);
        lemma_printable_same(n);
        assert(trimmed_start(n) == n);
        assert(trimmed_end(n) == n);
    }
}

/// A name without control characters, within both limits and with no white space
/// at its ends is kept as it is; one of nothing but control characters and white
/// space is no name.
pub proof fn law_plain_names_are_kept(s: Seq<char>)
    requires
        forall|k: int| 0 <= k < s.len() ==> !is_control(#[trigger] s[k]),
        s.len() <= NAME_MAX_CHARS,
        byte_len(s) <= NAME_MAX_BYTES,
        s.len() > 0 ==> !is_white(s[0]) && !is_white(s.last()),
    ensures
        sanitized(Some(s)) == if s.len() > 0 {
            Some(s)
        } else {
            None
        },
        sanitized(None) is None,
{
    lemma_printable_same(s);
    let e = Seq::<char>::empty();
    assert(e + s + e =~= s);
    crate::spelling::law_trimming_takes_off_the_ends(e, s, e);
}

/// A name may be used where the word list stars none of it.
pub proof fn law_starred_names_are_refused(filter: FilterView, s: Seq<char>)
    requires
        sanitized(Some(s)) == Some(s),
    ensures
        masked(filter, s) == s ==> usable(filter, Some(s)) == Some(s),
        masked(filter, s) != s ==> usable(filter, Some(s)) is None,
{
}

} // verus!
