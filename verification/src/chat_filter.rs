//! Chat profanity and slur filter.
//!
//! Folding: lower case, Latin-1 and Latin Extended-A diacritics stripped,
//! Cyrillic and Greek lower-cased, full-width ASCII narrowed, leetspeak undone.
//! Matching tolerates repeated letters ("fuuuck") and, for words of four or
//! more letters, separators between letters ("f.u.c.k"). Whole-word entries
//! need a non-letter, judged on the original character, on both sides; entries
//! prefixed `~` match anywhere. A hit becomes one `*` per character.

use crate::text::{cat3, chars_of, split, string_of};
use vstd::prelude::*;
use vstd::string::*;

verus! {

broadcast use vstd::seq::group_seq_axioms;

// ---------------------------------------------------------------- folding

/// ASCII: lower case, and the letters that digits and signs stand for.
pub open spec fn ascii_folded(c: char) -> char {
    if 'A' <= c <= 'Z' {
        (c as u32 + 32) as char
    } else if c == '0' {
        'o'
    } else if c == '1' || c == '!' {
        'i'
    } else if c == '3' {
        'e'
    } else if c == '4' || c == '@' {
        'a'
    } else if c == '5' || c == '$' {
        's'
    } else if c == '7' || c == '+' {
        't'
    } else if c == '|' {
        'l'
    } else {
        c
    }
}

/// The base letter of a Latin-1 letter; the two signs among them stay.
pub open spec fn latin1_folded(c: char) -> char {
    let u = c as u32;
    if 0xC0 <= u <= 0xC6 {
        'a'
    } else if u == 0xC7 {
        'c'
    } else if 0xC8 <= u <= 0xCB {
        'e'
    } else if 0xCC <= u <= 0xCF {
        'i'
    } else if u == 0xD0 {
        'd'
    } else if u == 0xD1 {
        'n'
    } else if 0xD2 <= u <= 0xD6 {
        'o'
    } else if u == 0xD8 {
        'o'
    } else if 0xD9 <= u <= 0xDC {
        'u'
    } else if u == 0xDD {
        'y'
    } else if u == 0xDE {
        't'
    } else if u == 0xDF {
        's'
    } else if 0xE0 <= u <= 0xE6 {
        'a'
    } else if u == 0xE7 {
        'c'
    } else if 0xE8 <= u <= 0xEB {
        'e'
    } else if 0xEC <= u <= 0xEF {
        'i'
    } else if u == 0xF0 {
        'd'
    } else if u == 0xF1 {
        'n'
    } else if 0xF2 <= u <= 0xF6 {
        'o'
    } else if u == 0xF8 {
        'o'
    } else if 0xF9 <= u <= 0xFC {
        'u'
    } else if u == 0xFD {
        'y'
    } else if u == 0xFE {
        't'
    } else if u == 0xFF {
        'y'
    } else {
        c
    }
}

/// The base letter of a Latin Extended-A letter.
pub open spec fn extended_folded(c: char) -> char {
    let u = c as u32;
    if 0x100 <= u <= 0x105 {
        'a'
    } else if 0x106 <= u <= 0x10D {
        'c'
    } else if 0x10E <= u <= 0x111 {
        'd'
    } else if 0x112 <= u <= 0x11B {
        'e'
    } else if 0x11C <= u <= 0x123 {
        'g'
    } else if 0x124 <= u <= 0x127 {
        'h'
    } else if 0x128 <= u <= 0x131 {
        'i'
    } else if 0x132 <= u <= 0x135 {
        'j'
    } else if 0x136 <= u <= 0x138 {
        'k'
    } else if 0x139 <= u <= 0x142 {
        'l'
    } else if 0x143 <= u <= 0x14B {
        'n'
    } else if 0x14C <= u <= 0x153 {
        'o'
    } else if 0x154 <= u <= 0x159 {
        'r'
    } else if 0x15A <= u <= 0x161 {
        's'
    } else if 0x162 <= u <= 0x167 {
        't'
    } else if 0x168 <= u <= 0x173 {
        'u'
    } else if 0x174 <= u <= 0x175 {
        'w'
    } else if 0x176 <= u <= 0x178 {
        'y'
    } else if 0x179 <= u <= 0x17E {
        'z'
    } else if u == 0x17F {
        's'
    } else {
        c
    }
}

/// Cyrillic and Greek in lower case, without accents.
pub open spec fn script_folded(c: char) -> char {
    let u = c as u32;
    if 0x410 <= u <= 0x42F || 0x391 <= u <= 0x3A9 {
        (u + 0x20) as char
    } else if u == 0x401 || u == 0x451 {
        '\u{435}'
    } else if u == 0x404 {
        '\u{454}'
    } else if u == 0x406 {
        '\u{456}'
    } else if u == 0x407 {
        '\u{457}'
    } else if u == 0x490 {
        '\u{491}'
    } else if u == 0x3C2 {
        '\u{3C3}'
    } else if u == 0x3AC || u == 0x386 {
        '\u{3B1}'
    } else if u == 0x3AD || u == 0x388 {
        '\u{3B5}'
    } else if u == 0x3AE || u == 0x389 {
        '\u{3B7}'
    } else if u == 0x3AF || u == 0x38A {
        '\u{3B9}'
    } else if u == 0x3CC || u == 0x38C {
        '\u{3BF}'
    } else if u == 0x3CD || u == 0x38E {
        '\u{3C5}'
    } else if u == 0x3CE || u == 0x38F {
        '\u{3C9}'
    } else {
        c
    }
}

/// The character by which `c` is matched.
pub open spec fn folded(c: char) -> char {
    let u = c as u32;
    if u < 0x80 {
        ascii_folded(c)
    } else if 0xC0 <= u <= 0xFF {
        latin1_folded(c)
    } else if 0x100 <= u <= 0x17F {
        extended_folded(c)
    } else if 0xFF01 <= u <= 0xFF5E {
        ascii_folded((u - 0xFEE0) as char)
    } else if u == 0x20AC {
        'e'
    } else {
        script_folded(c)
    }
}

fn fold_ascii(c: char) -> (r: char)
    requires
        (c as u32) < 0x80,
    ensures
        r == ascii_folded(c),
{
    match c {
        'A'..='Z' => ((c as u8) + 32) as char,
        '0' => 'o',
        '1' | '!' => 'i',
        '3' => 'e',
        '4' | '@' => 'a',
        '5' | '$' => 's',
        '7' | '+' => 't',
        '|' => 'l',
        _ => c,
    }
}

fn fold_latin1(c: char) -> (r: char)
    ensures
        r == latin1_folded(c),
{
    let u: u32 = c as u32;
    if 0xC0 <= u && u <= 0xC6 {
        'a'
    } else if u == 0xC7 {
        'c'
    } else if 0xC8 <= u && u <= 0xCB {
        'e'
    } else if 0xCC <= u && u <= 0xCF {
        'i'
    } else if u == 0xD0 {
        'd'
    } else if u == 0xD1 {
        'n'
    } else if 0xD2 <= u && u <= 0xD6 {
        'o'
    } else if u == 0xD8 {
        'o'
    } else if 0xD9 <= u && u <= 0xDC {
        'u'
    } else if u == 0xDD {
        'y'
    } else if u == 0xDE {
        't'
    } else if u == 0xDF {
        's'
    } else if 0xE0 <= u && u <= 0xE6 {
        'a'
    } else if u == 0xE7 {
        'c'
    } else if 0xE8 <= u && u <= 0xEB {
        'e'
    } else if 0xEC <= u && u <= 0xEF {
        'i'
    } else if u == 0xF0 {
        'd'
    } else if u == 0xF1 {
        'n'
    } else if 0xF2 <= u && u <= 0xF6 {
        'o'
    } else if u == 0xF8 {
        'o'
    } else if 0xF9 <= u && u <= 0xFC {
        'u'
    } else if u == 0xFD {
        'y'
    } else if u == 0xFE {
        't'
    } else if u == 0xFF {
        'y'
    } else {
        c
    }
}

fn fold_extended(c: char) -> (r: char)
    ensures
        r == extended_folded(c),
{
    let u: u32 = c as u32;
    if 0x100 <= u && u <= 0x105 {
        'a'
    } else if 0x106 <= u && u <= 0x10D {
        'c'
    } else if 0x10E <= u && u <= 0x111 {
        'd'
    } else if 0x112 <= u && u <= 0x11B {
        'e'
    } else if 0x11C <= u && u <= 0x123 {
        'g'
    } else if 0x124 <= u && u <= 0x127 {
        'h'
    } else if 0x128 <= u && u <= 0x131 {
        'i'
    } else if 0x132 <= u && u <= 0x135 {
        'j'
    } else if 0x136 <= u && u <= 0x138 {
        'k'
    } else if 0x139 <= u && u <= 0x142 {
        'l'
    } else if 0x143 <= u && u <= 0x14B {
        'n'
    } else if 0x14C <= u && u <= 0x153 {
        'o'
    } else if 0x154 <= u && u <= 0x159 {
        'r'
    } else if 0x15A <= u && u <= 0x161 {
        's'
    } else if 0x162 <= u && u <= 0x167 {
        't'
    } else if 0x168 <= u && u <= 0x173 {
        'u'
    } else if 0x174 <= u && u <= 0x175 {
        'w'
    } else if 0x176 <= u && u <= 0x178 {
        'y'
    } else if 0x179 <= u && u <= 0x17E {
        'z'
    } else if u == 0x17F {
        's'
    } else {
        c
    }
}

/// `char::from_u32` gives the character with that number, where there is one.
pub assume_specification[ char::from_u32 ](u: u32) -> (r: Option<char>)
    ensures
        match r {
            Some(c) => c == u as char && (u <= 0xD7FF || 0xE000 <= u <= 0x10FFFF),
            None => u > 0x10FFFF || 0xD800 <= u <= 0xDFFF,
        },
;

fn fold_script(c: char) -> (r: char)
    ensures
        r == script_folded(c),
{
    let u: u32 = c as u32;
    if (0x410 <= u && u <= 0x42F) || (0x391 <= u && u <= 0x3A9) {
        return match char::from_u32(u + 0x20) {
            Some(d) => d,
            None => c,
        };
    }
    match u {
        0x401 | 0x451 => '\u{435}',
        0x404 => '\u{454}',
        0x406 => '\u{456}',
        0x407 => '\u{457}',
        0x490 => '\u{491}',
        0x3C2 => '\u{3C3}',
        0x3AC | 0x386 => '\u{3B1}',
        0x3AD | 0x388 => '\u{3B5}',
        0x3AE | 0x389 => '\u{3B7}',
        0x3AF | 0x38A => '\u{3B9}',
        0x3CC | 0x38C => '\u{3BF}',
        0x3CD | 0x38E => '\u{3C5}',
        0x3CE | 0x38F => '\u{3C9}',
        _ => c,
    }
}

pub fn fold(c: char) -> (r: char)
    ensures
        r == folded(c),
{
    let u: u32 = c as u32;
    if u < 0x80 {
        fold_ascii(c)
    } else if 0xC0 <= u && u <= 0xFF {
        fold_latin1(c)
    } else if 0x100 <= u && u <= 0x17F {
        fold_extended(c)
    } else if 0xFF01 <= u && u <= 0xFF5E {
        fold_ascii(((u - 0xFEE0) as u8) as char)
    } else if u == 0x20AC {
        'e'
    } else {
        fold_script(c)
    }
}

/// A character that belongs to a word.
pub open spec fn letter(c: char) -> bool {
    let u = c as u32;
    if u < 0x80 {
        'a' <= c <= 'z' || 'A' <= c <= 'Z'
    } else {
        !(0x2000 <= u <= 0x206F) && !(0x3000 <= u <= 0x303F) && !(0xFF00 <= u <= 0xFF0F) && u
            != 0xA0 && u != 0xB7 && u != 0xBF && u != 0xA1
    }
}

pub fn is_letter(c: char) -> (r: bool)
    ensures
        r == letter(c),
{
    let u: u32 = c as u32;
    if u < 0x80 {
        return ('a' <= c && c <= 'z') || ('A' <= c && c <= 'Z');
    }
    if (0x2000 <= u && u <= 0x206F) || (0x3000 <= u && u <= 0x303F) || (0xFF00 <= u && u
        <= 0xFF0F) {
        return false;
    }
    !matches!(u, 0xA0 | 0xB7 | 0xBF | 0xA1)
}

/// A character that may stand between the letters of a spaced-out word.
pub open spec fn separator(c: char) -> bool {
    c == ' ' || c == '.' || c == '-' || c == '_' || c == '*' || c == '\'' || c == ',' || c
        == '\u{2019}' || c == '\u{A0}'
}

pub fn is_separator(c: char) -> (r: bool)
    ensures
        r == separator(c),
{
    matches!(c, ' ' | '.' | '-' | '_' | '*' | '\'' | ',' | '\u{2019}' | '\u{A0}')
}

// ------------------------------------------------------------- the words

/// One entry of the list: the folded letters, and whether it matches inside
/// other words.
pub struct Word {
    pub cp: Vec<char>,
    pub anywhere: bool,
}

pub ghost struct WordView {
    pub cp: Seq<char>,
    pub anywhere: bool,
}

impl View for Word {
    type V = WordView;

    open spec fn view(&self) -> WordView {
        WordView { cp: self.cp@, anywhere: self.anywhere }
    }
}

pub open spec fn words_view(v: Seq<Word>) -> Seq<WordView> {
    v.map_values(|w: Word| w@)
}

pub struct ChatFilter {
    pub words: Vec<Word>,
    pub enabled: bool,
}

pub ghost struct FilterView {
    pub words: Seq<WordView>,
    pub enabled: bool,
}

impl View for ChatFilter {
    type V = FilterView;

    open spec fn view(&self) -> FilterView {
        FilterView { words: words_view(self.words@), enabled: self.enabled }
    }
}

impl FilterView {
    /// No entry is empty.
    pub open spec fn wf(self) -> bool {
        forall|i: int| 0 <= i < self.words.len() ==> (#[trigger] self.words[i]).cp.len() > 0
    }
}

/// A line without the carriage returns at its end.
pub open spec fn without_cr(s: Seq<char>) -> Seq<char>
    decreases s.len(),
{
    if s.len() > 0 && s.last() == '\r' {
        without_cr(s.drop_last())
    } else {
        s
    }
}

/// The folded characters of `s`, spaces left out.
pub open spec fn folded_letters(s: Seq<char>) -> Seq<char>
    decreases s.len(),
{
    if s.len() == 0 {
        Seq::empty()
    } else if s.last() == ' ' {
        folded_letters(s.drop_last())
    } else {
        folded_letters(s.drop_last()).push(folded(s.last()))
    }
}

/// The entry that one line of a list writes: none for a comment or a line
/// without letters.
pub open spec fn entry(line: Seq<char>) -> Option<WordView> {
    let l = without_cr(line);
    if l.len() == 0 || l[0] == '#' {
        None
    } else {
        let anywhere = l[0] == '~';
        let cp = folded_letters(if anywhere {
            l.skip(1)
        } else {
            l
        });
        if cp.len() == 0 {
            None
        } else {
            Some(WordView { cp, anywhere })
        }
    }
}

/// The entries of the lines, in their order.
pub open spec fn entries(lines: Seq<Seq<char>>) -> Seq<WordView>
    decreases lines.len(),
{
    if lines.len() == 0 {
        Seq::empty()
    } else {
        match entry(lines.last()) {
            Some(w) => entries(lines.drop_last()).push(w),
            None => entries(lines.drop_last()),
        }
    }
}

/// The filter that a list writes, one entry a line.
pub open spec fn parsed_filter(list: Seq<char>, enabled: bool) -> FilterView {
    FilterView { words: entries(crate::text::pieces(list, '\n')), enabled }
}

proof fn lemma_entries_nonempty(lines: Seq<Seq<char>>)
    ensures
        forall|i: int| 0 <= i < entries(lines).len() ==> (#[trigger] entries(lines)[i]).cp.len() > 0,
    decreases lines.len(),
{
    if lines.len() > 0 {
        let rest = entries(lines.drop_last());
        lemma_entries_nonempty(lines.drop_last());
        assert forall|i: int| 0 <= i < entries(lines).len() implies (
        #[trigger] entries(lines)[i]).cp.len() > 0 by {
            if i < rest.len() {
                assert(entries(lines)[i] == rest[i]);
            }
        }
    }
}

/// No entry of a list is empty.
pub proof fn lemma_parsed_wf(list: Seq<char>, enabled: bool)
    ensures
        parsed_filter(list, enabled).wf(),
{
    lemma_entries_nonempty(crate::text::pieces(list, '\n'));
}

/// The entry that `line` writes.
fn parse_line(line: &str) -> (r: Option<Word>)
    ensures
        match (r, entry(line@)) {
            (Some(a), Some(b)) => a@ == b,
            (None, None) => true,
            _ => false,
        },
{
    let v = chars_of(line);
    let mut end: usize = v.len();
    proof {
        assert(v@.take(end as int) =~= v@);
    }
    while end > 0 && v[end - 1] == '\r'
        invariant
            end <= v@.len(),
            without_cr(v@) == without_cr(v@.take(end as int)),
        decreases end,
    {
        proof {
            let t = v@.take(end as int);
            assert(t.last() == v@[end - 1]);
            assert(t.drop_last() =~= v@.take(end - 1));
        }
        end = end - 1;
    }
    let ghost l = v@.take(end as int);
    proof {
        if end > 0 {
            assert(l.last() == v@[end - 1]);
        }
        assert(without_cr(v@) == l);
    }
    if end == 0 || v[0] == '#' {
        return None;
    }
    let anywhere: bool = v[0] == '~';
    let from: usize = if anywhere {
        1
    } else {
        0
    };
    let ghost body = if anywhere {
        l.skip(1)
    } else {
        l
    };
    let mut cp: Vec<char> = Vec::new();
    let mut i: usize = from;
    proof {
        assert(body.take(0) =~= Seq::<char>::empty());
    }
    while i < end
        invariant
            from <= i <= end <= v@.len(),
            from <= 1,
            body =~= v@.subrange(from as int, end as int),
            cp@ == folded_letters(body.take(i - from)),
        decreases end - i,
    {
        proof {
            let t = body.take(i - from + 1);
            assert(t.drop_last() =~= body.take(i - from));
            assert(t.last() == v@[i as int]);
        }
        if v[i] != ' ' {
            cp.push(fold(v[i]));
        }
        i = i + 1;
    }
    proof {
        assert(body.take(end - from) =~= body);
    }
    if cp.len() == 0 {
        None
    } else {
        Some(Word { cp, anywhere })
    }
}

// ------------------------------------------------------------ the matching

/// Past the separators of `t` from `p` on.
pub open spec fn past_separators(t: Seq<char>, p: int) -> int
    decreases t.len() - p,
{
    if 0 <= p < t.len() && separator(t[p]) {
        past_separators(t, p + 1)
    } else {
        p
    }
}

/// Past the run of `c` in `t` from `p` on.
pub open spec fn past_run(t: Seq<char>, p: int, c: char) -> int
    decreases t.len() - p,
{
    if 0 <= p < t.len() && t[p] == c {
        past_run(t, p + 1, c)
    } else {
        p
    }
}

/// Where the letters of `cp` from `j` on end in the folded text `t`, read from
/// `p`: repeats of a letter are passed over unless the word itself doubles it,
/// and so are separators in front of all but the first letter of a word of
/// four or more.
pub open spec fn letters_end(t: Seq<char>, cp: Seq<char>, j: int, p: int) -> Option<int>
    decreases cp.len() - j,
{
    if j < 0 || j >= cp.len() {
        Some(p)
    } else {
        let q = if j > 0 && cp.len() >= 4 {
            past_separators(t, p)
        } else {
            p
        };
        if q >= t.len() || t[q] != cp[j] {
            None
        } else {
            let r = if j + 1 >= cp.len() || cp[j + 1] != cp[j] {
                past_run(t, q + 1, cp[j])
            } else {
                q + 1
            };
            letters_end(t, cp, j + 1, r)
        }
    }
}

/// Where a match of `w` that begins at `at` ends. Boundaries are judged on
/// `orig`.
pub open spec fn word_end(t: Seq<char>, orig: Seq<char>, at: int, w: WordView) -> Option<int> {
    if !w.anywhere && at > 0 && letter(orig[at - 1]) {
        None
    } else {
        match letters_end(t, w.cp, 0, at) {
            None => None,
            Some(p) => if !w.anywhere && p < t.len() && letter(orig[p]) {
                None
            } else {
                Some(p)
            },
        }
    }
}

/// The furthest end of a match at `at` of one of `words`, 0 if none matches.
pub open spec fn best_end(t: Seq<char>, orig: Seq<char>, at: int, words: Seq<WordView>) -> int
    decreases words.len(),
{
    if words.len() == 0 {
        0
    } else {
        let rest = best_end(t, orig, at, words.drop_last());
        match word_end(t, orig, at, words.last()) {
            Some(e) => if e > rest {
                e
            } else {
                rest
            },
            None => rest,
        }
    }
}

/// `s` with stars in `from..to`.
pub open spec fn starred(s: Seq<char>, from: int, to: int) -> Seq<char> {
    Seq::new(
        s.len(),
        |k: int|
            if from <= k < to {
                '*'
            } else {
                s[k]
            },
    )
}

/// `orig` with the matches from `i` on starred out, left to right, the longest
/// at each place. `t` is the folded text.
pub open spec fn masked_from(
    t: Seq<char>,
    orig: Seq<char>,
    words: Seq<WordView>,
    i: int,
) -> Seq<char>
    decreases t.len() - i,
{
    if i < 0 || i >= t.len() {
        orig
    } else if !letter(t[i]) {
        masked_from(t, orig, words, i + 1)
    } else {
        let e = best_end(t, orig, i, words);
        if i < e <= t.len() {
            masked_from(t, starred(orig, i, e), words, e)
        } else {
            masked_from(t, orig, words, i + 1)
        }
    }
}

pub open spec fn folded_text(s: Seq<char>) -> Seq<char> {
    s.map_values(|c: char| folded(c))
}

/// `s` as the filter lets it through.
pub open spec fn masked(f: FilterView, s: Seq<char>) -> Seq<char> {
    if !f.enabled {
        s
    } else {
        masked_from(folded_text(s), s, f.words, 0)
    }
}

proof fn lemma_past_separators(t: Seq<char>, p: int)
    requires
        0 <= p <= t.len(),
    ensures
        p <= past_separators(t, p) <= t.len(),
    decreases t.len() - p,
{
    if p < t.len() && separator(t[p]) {
        lemma_past_separators(t, p + 1);
    }
}

proof fn lemma_past_run(t: Seq<char>, p: int, c: char)
    requires
        0 <= p <= t.len(),
    ensures
        p <= past_run(t, p, c) <= t.len(),
    decreases t.len() - p,
{
    if p < t.len() && t[p] == c {
        lemma_past_run(t, p + 1, c);
    }
}

/// A match takes at least one character and ends inside the text.
pub proof fn lemma_letters_end(t: Seq<char>, cp: Seq<char>, j: int, p: int)
    requires
        0 <= p <= t.len(),
        0 <= j <= cp.len(),
    ensures
        match letters_end(t, cp, j, p) {
            Some(e) => p <= e <= t.len() && (j < cp.len() ==> p < e),
            None => true,
        },
    decreases cp.len() - j,
{
    if j < cp.len() {
        lemma_past_separators(t, p);
        let q = if j > 0 && cp.len() >= 4 {
            past_separators(t, p)
        } else {
            p
        };
        if q < t.len() && t[q] == cp[j] {
            lemma_past_run(t, q + 1, cp[j]);
            let r = if j + 1 >= cp.len() || cp[j + 1] != cp[j] {
                past_run(t, q + 1, cp[j])
            } else {
                q + 1
            };
            lemma_letters_end(t, cp, j + 1, r);
        }
    }
}

proof fn lemma_best_end(t: Seq<char>, orig: Seq<char>, at: int, words: Seq<WordView>)
    requires
        0 <= at <= t.len(),
        forall|i: int| 0 <= i < words.len() ==> (#[trigger] words[i]).cp.len() > 0,
    ensures
        best_end(t, orig, at, words) == 0 || at < best_end(t, orig, at, words) <= t.len(),
    decreases words.len(),
{
    if words.len() > 0 {
        lemma_best_end(t, orig, at, words.drop_last());
        lemma_letters_end(t, words.last().cp, 0, at);
    }
}

/// Masking keeps the length, and each character or puts a `*` in its place.
pub proof fn lemma_masked_from(t: Seq<char>, orig: Seq<char>, words: Seq<WordView>, i: int)
    requires
        orig.len() == t.len(),
    ensures
        masked_from(t, orig, words, i).len() == orig.len(),
        forall|k: int|
            0 <= k < orig.len() ==> (#[trigger] masked_from(t, orig, words, i)[k]) == orig[k]
                || masked_from(t, orig, words, i)[k] == '*',
    decreases t.len() - i,
{
    if 0 <= i < t.len() {
        if !letter(t[i]) {
            lemma_masked_from(t, orig, words, i + 1);
        } else {
            let e = best_end(t, orig, i, words);
            if i < e <= t.len() {
                lemma_masked_from(t, starred(orig, i, e), words, e);
            } else {
                lemma_masked_from(t, orig, words, i + 1);
            }
        }
    }
}

/// What passes the filter is as long as what went in, and differs from it only
/// by stars.
pub proof fn law_mask_only_stars(f: FilterView, s: Seq<char>)
    ensures
        masked(f, s).len() == s.len(),
        forall|k: int|
            0 <= k < s.len() ==> (#[trigger] masked(f, s)[k]) == s[k] || masked(f, s)[k] == '*',
{
    if f.enabled {
        lemma_masked_from(folded_text(s), s, f.words, 0);
    }
}

/// A filter that is switched off, or has no entries, lets everything through.
pub proof fn law_mask_off(f: FilterView, s: Seq<char>)
    requires
        !f.enabled || f.words.len() == 0,
    ensures
        masked(f, s) == s,
{
    if f.enabled {
        lemma_no_words(folded_text(s), s, f.words, 0);
    }
}

proof fn lemma_no_words(t: Seq<char>, orig: Seq<char>, words: Seq<WordView>, i: int)
    requires
        words.len() == 0,
    ensures
        masked_from(t, orig, words, i) == orig,
    decreases t.len() - i,
{
    if 0 <= i < t.len() {
        lemma_no_words(t, orig, words, i + 1);
    }
}

/// A text without letters, once folded, passes unchanged.
pub proof fn law_mask_no_letters(f: FilterView, s: Seq<char>)
    requires
        forall|k: int| 0 <= k < s.len() ==> !letter(folded(#[trigger] s[k])),
    ensures
        masked(f, s) == s,
{
    if f.enabled {
        lemma_no_letters(s, f.words, 0);
    }
}

proof fn lemma_no_letters(s: Seq<char>, words: Seq<WordView>, i: int)
    requires
        forall|k: int| 0 <= k < s.len() ==> !letter(folded(#[trigger] s[k])),
        0 <= i,
    ensures
        masked_from(folded_text(s), s, words, i) == s,
    decreases s.len() - i,
{
    if i < s.len() {
        assert(folded_text(s)[i] == folded(s[i]));
        lemma_no_letters(s, words, i + 1);
    }
}

/// End (exclusive) of a match of `w` at `at`, or 0.
fn match_at(t: &Vec<char>, orig: &Vec<char>, at: usize, w: &Word) -> (r: usize)
    requires
        at < t@.len(),
        orig@.len() == t@.len(),
        w.cp@.len() > 0,
    ensures
        match word_end(t@, orig@, at as int, w@) {
            Some(e) => r == e && r > at,
            None => r == 0,
        },
{
    let n: usize = t.len();
    let m: usize = w.cp.len();
    if !w.anywhere && at > 0 && is_letter(orig[at - 1]) {
        return 0;
    }
    proof {
        lemma_letters_end(t@, w.cp@, 0, at as int);
    }
    let mut p: usize = at;
    let mut j: usize = 0;
    while j < m
        invariant
            at < n,
            n == t@.len(),
            orig@.len() == n,
            m == w.cp@.len(),
            m > 0,
            j <= m,
            at <= p <= n,
            j > 0 ==> p > at,
            letters_end(t@, w.cp@, 0, at as int) == letters_end(t@, w.cp@, j as int, p as int),
            word_end(t@, orig@, at as int, w@) == (match letters_end(t@, w.cp@, 0, at as int) {
                None => None,
                Some(e) => if !w.anywhere && e < t@.len() && letter(orig@[e]) {
                    None
                } else {
                    Some(e)
                },
            }),
        decreases m - j,
    {
        let want: char = w.cp[j];
        let ghost p0 = p as int;
        if j > 0 && m >= 4 {
            while p < n && is_separator(t[p])
                invariant
                    p0 <= p <= n,
                    n == t@.len(),
                    past_separators(t@, p0) == past_separators(t@, p as int),
                decreases n - p,
            {
                p = p + 1;
            }
        }
        if p >= n || t[p] != want {
            return 0;
        }
        let ghost q = p as int;
        p = p + 1;
        if j + 1 >= m || w.cp[j + 1] != want {
            while p < n && t[p] == want
                invariant
                    q < p <= n,
                    n == t@.len(),
                    past_run(t@, q + 1, want) == past_run(t@, p as int, want),
                decreases n - p,
            {
                p = p + 1;
            }
        }
        j = j + 1;
    }
    if !w.anywhere && p < n && is_letter(orig[p]) {
        return 0;
    }
    p
}

impl ChatFilter {
    pub fn parse(list: &str, enabled: bool) -> (r: ChatFilter)
        ensures
            r@ == parsed_filter(list@, enabled),
            r@.wf(),
    {
        let lines = split(list, '\n');
        let ghost all = crate::text::views(lines@);
        let mut words: Vec<Word> = Vec::new();
        let mut i: usize = 0;
        proof {
            assert(all.take(0) =~= Seq::<Seq<char>>::empty());
            assert(words_view(words@) =~= Seq::<WordView>::empty());
        }
        while i < lines.len()
            invariant
                i <= lines@.len(),
                all == crate::text::views(lines@),
                words_view(words@) == entries(all.take(i as int)),
            decreases lines@.len() - i,
        {
            proof {
                let t = all.take(i + 1);
                assert(t.drop_last() =~= all.take(i as int));
                assert(t.last() == lines@[i as int]@);
            }
            match parse_line(lines[i].as_str()) {
                Some(w) => {
                    let ghost before = words@;
                    words.push(w);
                    proof {
                        assert(words_view(words@) =~= words_view(before).push(w@));
                    }
                },
                None => {},
            }
            i = i + 1;
        }
        proof {
            assert(all.take(lines@.len() as int) =~= all);
            lemma_entries_nonempty(all);
        }
        ChatFilter { words, enabled }
    }

    pub fn mask(&self, text: &str) -> (r: String)
        requires
            self@.wf(),
        ensures
            r@ == masked(self@, text@),
    {
        if !self.enabled || self.words.len() == 0 {
            proof {
                law_mask_off(self@, text@);
            }
            return text.to_owned();
        }
        let mut orig: Vec<char> = chars_of(text);
        let n: usize = orig.len();
        let mut t: Vec<char> = Vec::new();
        let mut k: usize = 0;
        while k < n
            invariant
                k <= n,
                n == orig@.len(),
                orig@ == text@,
                t@ =~= folded_text(text@).take(k as int),
            decreases n - k,
        {
            t.push(fold(orig[k]));
            k = k + 1;
        }
        let ghost words = self@.words;
        proof {
            assert(t@ =~= folded_text(text@));
        }
        let mut i: usize = 0;
        while i < n
            invariant
                i <= n,
                n == t@.len(),
                n == orig@.len(),
                self@.wf(),
                words == self@.words,
                masked_from(t@, orig@, words, i as int) == masked(self@, text@),
            decreases n - i,
        {
            if !is_letter(t[i]) {
                i = i + 1;
                continue;
            }
            let mut best: usize = 0;
            let mut k: usize = 0;
            proof {
                assert(words.take(0) =~= Seq::<WordView>::empty());
            }
            while k < self.words.len()
                invariant
                    k <= self.words@.len(),
                    i < n,
                    n == t@.len(),
                    n == orig@.len(),
                    self@.wf(),
                    words == self@.words,
                    best == best_end(t@, orig@, i as int, words.take(k as int)),
                    best == 0 || i < best <= n,
                decreases self.words@.len() - k,
            {
                proof {
                    let s = words.take(k + 1);
                    assert(s.drop_last() =~= words.take(k as int));
                    assert(s.last() == self.words@[k as int]@);
                    assert(words[k as int].cp.len() > 0);
                    lemma_letters_end(t@, s.last().cp, 0, i as int);
                }
                let end: usize = match_at(&t, &orig, i, &self.words[k]);
                if end > best {
                    best = end;
                }
                k = k + 1;
            }
            proof {
                assert(words.take(self.words@.len() as int) =~= words);
            }
            if best > 0 {
                let ghost from = i as int;
                let ghost before = orig@;
                while i < best
                    invariant
                        from <= i <= best <= n,
                        n == orig@.len(),
                        n == before.len(),
                        forall|m: int|
                            0 <= m < n ==> (#[trigger] orig@[m]) == (if from <= m < i {
                                '*'
                            } else {
                                before[m]
                            }),
                    decreases best - i,
                {
                    orig.set(i, '*');
                    i = i + 1;
                }
                proof {
                    assert(orig@ =~= starred(before, from, best as int));
                }
            } else {
                i = i + 1;
            }
        }
        string_of(&orig, 0, n)
    }
}

/// The filter for the list `builtin`, followed on a line of its own by `extra`
/// where there is one.
pub fn init(builtin: &str, enabled: bool, extra: Option<&str>) -> (r: ChatFilter)
    ensures
        r@ == parsed_filter(
            match extra {
                Some(e) => builtin@ + "\n"@ + e@,
                None => builtin@,
            },
            enabled,
        ),
        r@.wf(),
{
    match extra {
        Some(e) => {
            let all = cat3(builtin, "\n", e);
            ChatFilter::parse(all.as_str(), enabled)
        },
        None => ChatFilter::parse(builtin, enabled),
    }
}

/// `text` with profanity masked; unchanged when nothing matched or the filter
/// is off.
pub fn apply(filter: &ChatFilter, text: &str) -> (r: String)
    requires
        filter@.wf(),
    ensures
        r@ == masked(filter@, text@),
{
    filter.mask(text)
}

pub fn enabled(filter: &ChatFilter) -> (r: bool)
    ensures
        r == filter@.enabled,
{
    filter.enabled
}

} // verus!
