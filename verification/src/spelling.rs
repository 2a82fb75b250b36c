//! What reading gives back of writing: trimmed texts, texts that a separator
//! parts, numbers in decimal, and the addresses that are made of them.

use vstd::prelude::*;

use crate::text::{
    all_digits, byte_len, char_width, cut_last, decimal, digit_in, first_at, is_white, joined,
    lemma_first_at, lemma_last_at, lemma_numeral_number, lowered, parsed, pieces, pieces_from,
    trimmed, trimmed_end, trimmed_start, unsigned_part, uppered,
};
use vstd::utf8::{encode_scalar, encode_utf8};

verus! {

/// Whether `s` holds white space and nothing else.
pub open spec fn all_white(s: Seq<char>) -> bool {
    forall|i: int| 0 <= i < s.len() ==> is_white(#[trigger] s[i])
}

/// Whether `sep` stands nowhere in `s`.
pub open spec fn lacks(s: Seq<char>, sep: char) -> bool {
    forall|i: int| 0 <= i < s.len() ==> #[trigger] s[i] != sep
}

proof fn lemma_white_front(a: Seq<char>, s: Seq<char>)
    requires
        all_white(a),
    ensures
        trimmed_start(a + s) == trimmed_start(s),
    decreases a.len(),
{
    if a.len() == 0 {
        assert(a + s =~= s);
    } else {
        assert((a + s)[0] == a[0]);
        assert((a + s).skip(1) =~= a.skip(1) + s);
        assert forall|i: int| 0 <= i < a.skip(1).len() implies is_white(
            #[trigger] a.skip(1)[i],
        ) by {
            assert(a.skip(1)[i] == a[i + 1]);
        }
        lemma_white_front(a.skip(1), s);
    }
}

proof fn lemma_white_back(s: Seq<char>, b: Seq<char>)
    requires
        all_white(b),
    ensures
        trimmed_end(s + b) == trimmed_end(s),
    decreases b.len(),
{
    if b.len() == 0 {
        assert(s + b =~= s);
    } else {
        assert((s + b).last() == b.last());
        assert((s + b).drop_last() =~= s + b.drop_last());
        assert forall|i: int| 0 <= i < b.drop_last().len() implies is_white(
            #[trigger] b.drop_last()[i],
        ) by {
            assert(b.drop_last()[i] == b[i]);
        }
        lemma_white_back(s, b.drop_last());
    }
}

/// Trimming takes the white space off both ends and nothing else: a text whose
/// two ends are no white space comes back whole, whatever white space stood
/// around it, and white space alone comes back empty.
pub proof fn law_trimming_takes_off_the_ends(a: Seq<char>, s: Seq<char>, b: Seq<char>)
    requires
        all_white(a),
        all_white(b),
        s.len() > 0 ==> !is_white(s[0]) && !is_white(s.last()),
    ensures
        trimmed(a + s + b) == s,
{
    assert(a + s + b =~= a + (s + b));
    lemma_white_front(a, s + b);
    if s.len() > 0 {
        assert((s + b)[0] == s[0]);
        assert(trimmed_start(s + b) == s + b);
        lemma_white_back(s, b);
    } else {
        let e = Seq::<char>::empty();
        assert(s + b =~= b + e);
        lemma_white_front(b, e);
        assert(s =~= e);
    }
}

/// A text cut at its last separator gives back what was put on either side.
pub proof fn law_the_last_separator_parts(head: Seq<char>, sep: char, tail: Seq<char>)
    requires
        lacks(tail, sep),
    ensures
        cut_last(head.push(sep) + tail, sep) == Some((head, tail)),
{
    let s = head.push(sep) + tail;
    lemma_last_at(s, sep);
    assert(s[head.len() as int] == sep);
    let i = crate::text::last_at(s, sep)->0;
    if i > head.len() {
        assert(s[i] == tail[i - head.len() - 1]);
    }
    assert(i == head.len());
    assert(s.take(i) =~= head);
    assert(s.skip(i + 1) =~= tail);
}

proof fn lemma_first_shift(a: Seq<char>, r: Seq<char>, sep: char, k: int)
    requires
        0 <= k <= r.len(),
    ensures
        first_at(a + r, sep, a.len() + k) == a.len() + first_at(r, sep, k),
    decreases r.len() - k,
{
    if k < r.len() {
        assert((a + r)[a.len() + k] == r[k]);
        if r[k] != sep {
            lemma_first_shift(a, r, sep, k + 1);
        }
    }
}

proof fn lemma_pieces_shift(a: Seq<char>, r: Seq<char>, sep: char, k: int)
    requires
        0 <= k <= r.len(),
    ensures
        pieces_from(a + r, sep, a.len() + k) == pieces_from(r, sep, k),
    decreases r.len() - k,
{
    let s = a + r;
    lemma_first_shift(a, r, sep, k);
    lemma_first_at(r, sep, k);
    let at = first_at(r, sep, k);
    if at >= r.len() {
        assert(s.subrange(a.len() + k, s.len() as int) =~= r.subrange(k, r.len() as int));
    } else {
        assert(s.subrange(a.len() + k, a.len() + at) =~= r.subrange(k, at));
        lemma_pieces_shift(a, r, sep, at + 1);
    }
}

/// A text that no separator parts is one piece; what stands before the first
/// separator is the first piece, and the pieces of the rest are the others.
pub proof fn law_separators_part_pieces(head: Seq<char>, sep: char, rest: Seq<char>)
    requires
        lacks(head, sep),
    ensures
        pieces(head, sep) == seq![head],
        pieces(head.push(sep) + rest, sep) == seq![head] + pieces(rest, sep),
{
    lemma_first_at(head, sep, 0);
    assert(first_at(head, sep, 0) == head.len());
    assert(head.subrange(0, head.len() as int) =~= head);
    let a = head.push(sep);
    let s = a + rest;
    lemma_first_at(s, sep, 0);
    let at = first_at(s, sep, 0);
    assert(s[head.len() as int] == sep);
    if at < head.len() {
        assert(s[at] == head[at]);
    }
    assert(at == head.len());
    assert(s.subrange(0, at) =~= head);
    lemma_pieces_shift(a, rest, sep, 0);
}

/// A numeral in decimal holds digits and nothing else.
pub proof fn lemma_decimal_digits(n: nat)
    ensures
        all_digits(decimal(n), 10),
        decimal(n).len() > 0,
    decreases n,
{
    lemma_numeral_number(n, 10);
    if n >= 10 {
        lemma_decimal_digits(n / 10);
        let s = decimal(n);
        assert forall|k: int| 0 <= k < s.len() implies digit_in(#[trigger] s[k], 10) by {
            if k < s.len() - 1 {
                assert(s[k] == decimal(n / 10)[k]);
            }
        }
    }
}

/// A number that was written in decimal is read as itself, up to the bound.
pub proof fn law_a_written_number_is_read(n: nat, max: int)
    ensures
        parsed(decimal(n), 10, max) == if n <= max {
            Some(n as int)
        } else {
            None
        },
{
    lemma_numeral_number(n, 10);
    lemma_decimal_digits(n);
    let s = decimal(n);
    assert(digit_in(s[0], 10));
    assert(s[0] != '+');
    assert(unsigned_part(s) == s);
}

/// A text of at most `max` characters
/// with no control character among them, and no white space at its ends, is a
/// clean line already.
pub proof fn law_clean_lines_are_kept(s: Seq<char>, max: int)
    requires
        s.len() <= max,
        forall|k: int| 0 <= k < s.len() ==> !crate::text::is_control(#[trigger] s[k]),
        s.len() > 0 ==> !is_white(s[0]) && !is_white(s.last()),
    ensures
        crate::text::clean_line(s, max) == s,
{
    crate::names::lemma_printable_same(s);
    let e = Seq::<char>::empty();
    assert(e + s + e =~= s);
    law_trimming_takes_off_the_ends(e, s, e);
}

proof fn lemma_width_is(c: char)
    ensures
        char_width(c) == encode_scalar(c as u32).len(),
{
    broadcast use vstd::utf8::char_is_scalar;

}

proof fn lemma_bytes_front(c: char, s: Seq<char>)
    ensures
        byte_len(seq![c] + s) == char_width(c) + byte_len(s),
    decreases s.len(),
{
    let t = seq![c] + s;
    if s.len() == 0 {
        assert(t.drop_last() =~= Seq::<char>::empty());
        assert(byte_len(t.drop_last()) == 0);
    } else {
        lemma_bytes_front(c, s.drop_last());
        assert(t.drop_last() =~= seq![c] + s.drop_last());
        assert(t.last() == s.last());
    }
}

/// A text takes as many bytes as its UTF-8 has.
pub proof fn law_bytes_are_those_of_utf8(s: Seq<char>)
    ensures
        byte_len(s) == encode_utf8(s).len(),
    decreases s.len(),
{
    if s.len() > 0 {
        law_bytes_are_those_of_utf8(s.drop_first());
        lemma_width_is(s[0]);
        lemma_bytes_front(s[0], s.drop_first());
        assert(seq![s[0]] + s.drop_first() =~= s);
    }
}

/// Lower case has no capitals and upper case no small letters; each undoes the
/// other, and nothing but the 26 letters changes.
pub proof fn law_case_is_of_letters(s: Seq<char>)
    ensures
        lowered(s).len() == s.len(),
        uppered(s).len() == s.len(),
        forall|i: int|
            0 <= i < s.len() ==> !('A' <= #[trigger] lowered(s)[i] <= 'Z') && (!('A' <= s[i] <= 'Z')
                ==> lowered(s)[i] == s[i]),
        forall|i: int|
            0 <= i < s.len() ==> !('a' <= #[trigger] uppered(s)[i] <= 'z') && (!('a' <= s[i] <= 'z')
                ==> uppered(s)[i] == s[i]),
        lowered(uppered(s)) == lowered(s),
        uppered(lowered(s)) == uppered(s),
{
    assert(lowered(uppered(s)) =~= lowered(s));
    assert(uppered(lowered(s)) =~= uppered(s));
}

proof fn lemma_joined_front(head: Seq<char>, rest: Seq<Seq<char>>, sep: Seq<char>)
    requires
        rest.len() > 0,
    ensures
        joined(seq![head] + rest, sep) == head + sep + joined(rest, sep),
    decreases rest.len(),
{
    let all = seq![head] + rest;
    assert(all.last() == rest.last());
    if rest.len() == 1 {
        assert(all.drop_last() =~= seq![head]);
        assert(joined(seq![head], sep) == head);
        assert(rest.last() == rest[0]);
        assert(joined(rest, sep) == rest[0]);
        assert(joined(all, sep) == joined(all.drop_last(), sep) + sep + all.last());
    } else {
        assert(all.drop_last() =~= seq![head] + rest.drop_last());
        lemma_joined_front(head, rest.drop_last(), sep);
        let d = joined(rest.drop_last(), sep);
        assert(joined(rest, sep) == d + sep + rest.last());
        assert(joined(all, sep) == joined(all.drop_last(), sep) + sep + all.last());
        assert((head + sep + d) + sep + rest.last() =~= head + sep + (d + sep + rest.last()));
    }
}

/// Texts joined by a separator that none of them holds are the pieces of what
/// comes out.
pub proof fn law_joined_texts_are_its_pieces(parts: Seq<Seq<char>>, sep: char)
    requires
        parts.len() > 0,
        forall|i: int| 0 <= i < parts.len() ==> lacks(#[trigger] parts[i], sep),
    ensures
        pieces(joined(parts, seq![sep]), sep) == parts,
    decreases parts.len(),
{
    let head = parts[0];
    law_separators_part_pieces(head, sep, Seq::empty());
    if parts.len() == 1 {
        assert(parts =~= seq![head]);
    } else {
        let rest = parts.skip(1);
        assert forall|i: int| 0 <= i < rest.len() implies lacks(#[trigger] rest[i], sep) by {
            assert(rest[i] == parts[i + 1]);
        }
        law_joined_texts_are_its_pieces(rest, sep);
        assert(parts =~= seq![head] + rest);
        lemma_joined_front(head, rest, seq![sep]);
        assert(head + seq![sep] =~= head.push(sep));
        law_separators_part_pieces(head, sep, joined(rest, seq![sep]));
    }
}

} // verus!
