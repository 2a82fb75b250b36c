//! Text as sequences of characters: classes, trimming, case, splitting and
//! the decimal and hexadecimal forms of numbers.

use vstd::prelude::*;
use vstd::string::*;
use vstd::utf8::*;

verus! {

/// `String::push` appends one character to the string.
pub assume_specification[ String::push ](s: &mut String, c: char)
    ensures
        final(s)@ == old(s)@.push(c),
;

/// `==` on `str` holds exactly when both sides hold the same characters.
pub assume_specification[ <str as PartialEq>::eq ](a: &str, b: &str) -> (r: bool)
    ensures
        r == (a@ == b@),
;

// ---------------------------------------------------------------- classes

/// The characters of the Unicode property `White_Space`.
pub open spec fn is_white(c: char) -> bool {
    ||| 0x09 <= c as u32 <= 0x0D
    ||| c as u32 == 0x20
    ||| c as u32 == 0x85
    ||| c as u32 == 0xA0
    ||| c as u32 == 0x1680
    ||| 0x2000 <= c as u32 <= 0x200A
    ||| c as u32 == 0x2028
    ||| c as u32 == 0x2029
    ||| c as u32 == 0x202F
    ||| c as u32 == 0x205F
    ||| c as u32 == 0x3000
}

pub fn white(c: char) -> (r: bool)
    ensures
        r == is_white(c),
{
    let u: u32 = c as u32;
    (0x09 <= u && u <= 0x0D) || u == 0x20 || u == 0x85 || u == 0xA0 || u == 0x1680 || (0x2000 <= u
        && u <= 0x200A) || u == 0x2028 || u == 0x2029 || u == 0x202F || u == 0x205F || u == 0x3000
}

/// The characters of the Unicode category `Cc`.
pub open spec fn is_control(c: char) -> bool {
    c as u32 <= 0x1F || 0x7F <= c as u32 <= 0x9F
}

pub fn control(c: char) -> (r: bool)
    ensures
        r == is_control(c),
{
    let u: u32 = c as u32;
    u <= 0x1F || (0x7F <= u && u <= 0x9F)
}

pub open spec fn is_digit(c: char) -> bool {
    '0' <= c <= '9'
}

pub open spec fn is_lower(c: char) -> bool {
    'a' <= c <= 'z'
}

pub open spec fn is_upper(c: char) -> bool {
    'A' <= c <= 'Z'
}

/// `A`..`Z` become `a`..`z`, every other character stays.
pub open spec fn lower_char(c: char) -> char {
    if is_upper(c) {
        (c as u32 + 32) as char
    } else {
        c
    }
}

pub fn to_lower(c: char) -> (r: char)
    ensures
        r == lower_char(c),
{
    if 'A' <= c && c <= 'Z' {
        ((c as u8) + 32) as char
    } else {
        c
    }
}

/// `a`..`z` become `A`..`Z`, every other character stays.
pub open spec fn upper_char(c: char) -> char {
    if is_lower(c) {
        (c as u32 - 32) as char
    } else {
        c
    }
}

pub fn to_upper(c: char) -> (r: char)
    ensures
        r == upper_char(c),
{
    if 'a' <= c && c <= 'z' {
        ((c as u8) - 32) as char
    } else {
        c
    }
}

// ------------------------------------------------------- plain conversions

pub fn same(a: &str, b: &str) -> (r: bool)
    ensures
        r == (a@ == b@),
{
    *a == *b
}

pub fn chars_of(s: &str) -> (r: Vec<char>)
    ensures
        r@ == s@,
{
    let mut out: Vec<char> = Vec::new();
    for c in it: s.chars()
        invariant
            it.seq() == s@,
            out@ == s@.take(it.index() as int),
    {
        out.push(c);
    }
    proof {
        assert(s@.take(s@.len() as int) == s@);
    }
    out
}

/// The characters `from..to` of `v` as a string.
pub fn string_of(v: &Vec<char>, from: usize, to: usize) -> (r: String)
    requires
        from <= to <= v@.len(),
    ensures
        r@ == v@.subrange(from as int, to as int),
{
    let mut out = String::new();
    let mut i: usize = from;
    while i < to
        invariant
            from <= i <= to <= v@.len(),
            out@ == v@.subrange(from as int, i as int),
        decreases to - i,
    {
        out.push(v[i]);
        i = i + 1;
    }
    out
}

/// `a` followed by `b`.
pub fn cat(a: &str, b: &str) -> (r: String)
    ensures
        r@ == a@ + b@,
{
    let mut out = a.to_owned();
    out.append(b);
    out
}

/// `a`, `b` and `c`, one after the other.
pub fn cat3(a: &str, b: &str, c: &str) -> (r: String)
    ensures
        r@ == a@ + b@ + c@,
{
    let mut out = a.to_owned();
    out.append(b);
    out.append(c);
    out
}

/// The view of an optional string.
pub open spec fn opt_view(o: Option<String>) -> Option<Seq<char>> {
    match o {
        Some(s) => Some(s@),
        None => None,
    }
}

/// The views of a list of strings.
pub open spec fn views(v: Seq<String>) -> Seq<Seq<char>> {
    v.map_values(|s: String| s@)
}

pub fn clone_opt(o: &Option<String>) -> (r: Option<String>)
    ensures
        opt_view(r) == opt_view(*o),
{
    match o {
        Some(s) => Some(s.clone()),
        None => None,
    }
}

pub fn clone_list(v: &Vec<String>) -> (r: Vec<String>)
    ensures
        views(r@) == views(v@),
{
    let mut out: Vec<String> = Vec::new();
    let mut i: usize = 0;
    while i < v.len()
        invariant
            i <= v@.len(),
            out@.len() == i,
            forall|k: int| 0 <= k < i ==> out@[k]@ == v@[k]@,
        decreases v@.len() - i,
    {
        out.push(v[i].clone());
        i = i + 1;
    }
    proof {
        assert(views(out@) =~= views(v@));
    }
    out
}

/// Whether `s` stands in `v`.
pub fn listed(v: &Vec<String>, s: &str) -> (r: bool)
    ensures
        r == views(v@).contains(s@),
{
    let mut i: usize = 0;
    while i < v.len()
        invariant
            i <= v@.len(),
            forall|k: int| 0 <= k < i ==> v@[k]@ != s@,
        decreases v@.len() - i,
    {
        if same(v[i].as_str(), s) {
            proof {
                assert(views(v@)[i as int] == s@);
            }
            return true;
        }
        i = i + 1;
    }
    proof {
        assert forall|k: int| 0 <= k < views(v@).len() implies views(v@)[k] != s@ by {
            assert(views(v@)[k] == v@[k]@);
        }
    }
    false
}

// --------------------------------------------------------------- trimming

pub open spec fn trimmed_start(s: Seq<char>) -> Seq<char>
    decreases s.len(),
{
    if s.len() > 0 && is_white(s[0]) {
        trimmed_start(s.skip(1))
    } else {
        s
    }
}

pub open spec fn trimmed_end(s: Seq<char>) -> Seq<char>
    decreases s.len(),
{
    if s.len() > 0 && is_white(s.last()) {
        trimmed_end(s.drop_last())
    } else {
        s
    }
}

/// `s` without the white space at its two ends.
pub open spec fn trimmed(s: Seq<char>) -> Seq<char> {
    trimmed_end(trimmed_start(s))
}

/// The range of `v` that is left once white space is dropped at both ends.
pub fn trim_range(v: &Vec<char>) -> (r: (usize, usize))
    ensures
        r.0 <= r.1 <= v@.len(),
        v@.subrange(r.0 as int, r.1 as int) == trimmed(v@),
{
    let n: usize = v.len();
    let mut i: usize = 0;
    proof {
        assert(v@.skip(0) == v@);
    }
    while i < n && white(v[i])
        invariant
            i <= n,
            n == v@.len(),
            trimmed_start(v@) == trimmed_start(v@.skip(i as int)),
        decreases n - i,
    {
        proof {
            assert(v@.skip(i as int).skip(1) == v@.skip(i + 1));
        }
        i = i + 1;
    }
    let ghost rest = v@.skip(i as int);
    proof {
        assert(trimmed_start(v@) == rest);
        assert(v@.subrange(i as int, n as int) == rest);
    }
    let mut j: usize = n;
    while j > i && white(v[j - 1])
        invariant
            i <= j <= n,
            n == v@.len(),
            trimmed_end(rest) == trimmed_end(v@.subrange(i as int, j as int)),
        decreases j,
    {
        proof {
            let s = v@.subrange(i as int, j as int);
            assert(s.drop_last() == v@.subrange(i as int, j - 1));
            assert(s.last() == v@[j - 1]);
        }
        j = j - 1;
    }
    proof {
        let s = v@.subrange(i as int, j as int);
        if j > i {
            assert(s.last() == v@[j - 1]);
        }
        assert(trimmed_end(s) == s);
    }
    (i, j)
}

pub fn trim(s: &str) -> (r: String)
    ensures
        r@ == trimmed(s@),
{
    let v = chars_of(s);
    let (i, j) = trim_range(&v);
    string_of(&v, i, j)
}

/// Whether `s` holds nothing but white space.
pub fn blank(s: &str) -> (r: bool)
    ensures
        r == (trimmed(s@).len() == 0),
{
    let v = chars_of(s);
    let (i, j) = trim_range(&v);
    i == j
}

/// Trimming leaves no white space at either end.
pub proof fn lemma_trimmed_ends(s: Seq<char>)
    ensures
        trimmed(s).len() > 0 ==> !is_white(trimmed(s)[0]) && !is_white(trimmed(s).last()),
        trimmed(s).len() <= s.len(),
{
    lemma_trimmed_start(s);
    lemma_trimmed_end(trimmed_start(s));
}

proof fn lemma_trimmed_start(s: Seq<char>)
    ensures
        trimmed_start(s).len() > 0 ==> !is_white(trimmed_start(s)[0]),
        trimmed_start(s).len() <= s.len(),
    decreases s.len(),
{
    if s.len() > 0 && is_white(s[0]) {
        lemma_trimmed_start(s.skip(1));
    }
}

proof fn lemma_trimmed_end(s: Seq<char>)
    ensures
        trimmed_end(s).len() > 0 ==> !is_white(trimmed_end(s).last()) && trimmed_end(s)[0] == s[0],
        trimmed_end(s).len() <= s.len(),
    decreases s.len(),
{
    if s.len() > 0 && is_white(s.last()) {
        lemma_trimmed_end(s.drop_last());
    }
}

// ------------------------------------------------------------------- case

pub open spec fn lowered(s: Seq<char>) -> Seq<char> {
    s.map_values(|c: char| lower_char(c))
}

pub fn lower(s: &str) -> (r: String)
    ensures
        r@ == lowered(s@),
{
    let mut out = String::new();
    for c in it: s.chars()
        invariant
            it.seq() == s@,
            out@ == lowered(s@.take(it.index() as int)),
    {
        proof {
            let k = it.index() as int;
            assert(lowered(s@.take(k + 1)) =~= lowered(s@.take(k)).push(lower_char(s@[k])));
        }
        out.push(to_lower(c));
    }
    proof {
        assert(s@.take(s@.len() as int) == s@);
    }
    out
}

pub open spec fn uppered(s: Seq<char>) -> Seq<char> {
    s.map_values(|c: char| upper_char(c))
}

pub fn upper(s: &str) -> (r: String)
    ensures
        r@ == uppered(s@),
{
    let mut out = String::new();
    for c in it: s.chars()
        invariant
            it.seq() == s@,
            out@ == uppered(s@.take(it.index() as int)),
    {
        proof {
            let k = it.index() as int;
            assert(uppered(s@.take(k + 1)) =~= uppered(s@.take(k)).push(upper_char(s@[k])));
        }
        out.push(to_upper(c));
    }
    proof {
        assert(s@.take(s@.len() as int) == s@);
    }
    out
}

/// `s` trimmed, then lower-cased.
pub fn trim_lower(s: &str) -> (r: String)
    ensures
        r@ == lowered(trimmed(s@)),
{
    let t = trim(s);
    lower(t.as_str())
}

// --------------------------------------------------- prefixes, suffixes, cuts

pub open spec fn starts(s: Seq<char>, p: Seq<char>) -> bool {
    p.len() <= s.len() && s.take(p.len() as int) == p
}

pub fn starts_with(s: &str, p: &str) -> (r: bool)
    ensures
        r == starts(s@, p@),
{
    let a = chars_of(s);
    let b = chars_of(p);
    if b.len() > a.len() {
        return false;
    }
    let mut i: usize = 0;
    while i < b.len()
        invariant
            i <= b@.len() <= a@.len(),
            a@ == s@,
            b@ == p@,
            forall|k: int| 0 <= k < i ==> a@[k] == b@[k],
        decreases b@.len() - i,
    {
        if a[i] != b[i] {
            proof {
                assert(a@.take(b@.len() as int)[i as int] == a@[i as int]);
            }
            return false;
        }
        i = i + 1;
    }
    proof {
        assert(a@.take(b@.len() as int) =~= b@);
    }
    true
}

/// What follows `p` in `s`, where `s` begins with `p`.
pub open spec fn stripped(s: Seq<char>, p: Seq<char>) -> Option<Seq<char>> {
    if starts(s, p) {
        Some(s.skip(p.len() as int))
    } else {
        None
    }
}

pub fn strip_prefix(s: &str, p: &str) -> (r: Option<String>)
    ensures
        opt_view(r) == stripped(s@, p@),
{
    if starts_with(s, p) {
        let a = chars_of(s);
        let k: usize = p.unicode_len();
        let out = string_of(&a, k, a.len());
        proof {
            assert(out@ =~= s@.skip(p@.len() as int));
        }
        Some(out)
    } else {
        None
    }
}

/// Where `sep` stands last in `s`.
pub open spec fn last_at(s: Seq<char>, sep: char) -> Option<int>
    decreases s.len(),
{
    if s.len() == 0 {
        None
    } else if s.last() == sep {
        Some(s.len() - 1)
    } else {
        last_at(s.drop_last(), sep)
    }
}

pub proof fn lemma_last_at(s: Seq<char>, sep: char)
    ensures
        match last_at(s, sep) {
            Some(i) => 0 <= i < s.len() && s[i] == sep && forall|k: int|
                i < k < s.len() ==> s[k] != sep,
            None => forall|k: int| 0 <= k < s.len() ==> s[k] != sep,
        },
    decreases s.len(),
{
    if s.len() > 0 && s.last() != sep {
        lemma_last_at(s.drop_last(), sep);
        match last_at(s, sep) {
            Some(i) => {
                assert(s.drop_last()[i] == s[i]);
                assert forall|k: int| i < k < s.len() implies s[k] != sep by {
                    if k < s.len() - 1 {
                        assert(s.drop_last()[k] == s[k]);
                    }
                }
            },
            None => {
                assert forall|k: int| 0 <= k < s.len() implies s[k] != sep by {
                    if k < s.len() - 1 {
                        assert(s.drop_last()[k] == s[k]);
                    }
                }
            },
        }
    }
}

/// Both sides of the last `sep` in `s`.
pub open spec fn cut_last(s: Seq<char>, sep: char) -> Option<(Seq<char>, Seq<char>)> {
    match last_at(s, sep) {
        Some(i) => Some((s.take(i), s.skip(i + 1))),
        None => None,
    }
}

pub fn rsplit_once(s: &str, sep: char) -> (r: Option<(String, String)>)
    ensures
        match (r, cut_last(s@, sep)) {
            (Some(p), Some(q)) => p.0@ == q.0 && p.1@ == q.1,
            (None, None) => true,
            _ => false,
        },
{
    let v = chars_of(s);
    let n: usize = v.len();
    let mut i: usize = n;
    proof {
        assert(v@.take(n as int) == v@);
    }
    while i > 0
        invariant
            i <= n,
            n == v@.len(),
            v@ == s@,
            last_at(v@, sep) == last_at(v@.take(i as int), sep),
        decreases i,
    {
        proof {
            let t = v@.take(i as int);
            assert(t.last() == v@[i - 1]);
            assert(t.drop_last() == v@.take(i - 1));
        }
        if v[i - 1] == sep {
            let a = string_of(&v, 0, i - 1);
            let b = string_of(&v, i, n);
            proof {
                assert(a@ =~= s@.take(i - 1));
                assert(b@ =~= s@.skip(i as int));
            }
            return Some((a, b));
        }
        i = i - 1;
    }
    None
}

/// Where `sep` stands first in `s`, from `from` on; `s.len()` if nowhere.
pub open spec fn first_at(s: Seq<char>, sep: char, from: int) -> int
    decreases s.len() - from,
{
    if from < 0 || from >= s.len() {
        s.len() as int
    } else if s[from] == sep {
        from
    } else {
        first_at(s, sep, from + 1)
    }
}

pub proof fn lemma_first_at(s: Seq<char>, sep: char, from: int)
    requires
        0 <= from <= s.len(),
    ensures
        from <= first_at(s, sep, from) <= s.len(),
        first_at(s, sep, from) < s.len() ==> s[first_at(s, sep, from)] == sep,
        forall|k: int| from <= k < first_at(s, sep, from) ==> s[k] != sep,
    decreases s.len() - from,
{
    if from < s.len() && s[from] != sep {
        lemma_first_at(s, sep, from + 1);
    }
}

/// The pieces of `s`, from `from` on, between the separators.
pub open spec fn pieces_from(s: Seq<char>, sep: char, from: int) -> Seq<Seq<char>>
    decreases s.len() - from,
    when 0 <= from <= s.len()
    via pieces_decreases
{
    let at = first_at(s, sep, from);
    if at >= s.len() {
        seq![s.subrange(from, s.len() as int)]
    } else {
        seq![s.subrange(from, at)] + pieces_from(s, sep, at + 1)
    }
}

#[via_fn]
proof fn pieces_decreases(s: Seq<char>, sep: char, from: int) {
    lemma_first_at(s, sep, from);
}

/// The pieces of `s` between the separators `sep`.
pub open spec fn pieces(s: Seq<char>, sep: char) -> Seq<Seq<char>> {
    pieces_from(s, sep, 0)
}

pub fn split(s: &str, sep: char) -> (r: Vec<String>)
    ensures
        views(r@) == pieces(s@, sep),
        r@.len() >= 1,
{
    let v = chars_of(s);
    let n: usize = v.len();
    let mut out: Vec<String> = Vec::new();
    let mut from: usize = 0;
    let mut i: usize = 0;
    proof {
        assert(views(out@) + pieces_from(v@, sep, 0) =~= pieces(v@, sep));
    }
    while i < n
        invariant
            from <= i <= n,
            n == v@.len(),
            views(out@) + pieces_from(v@, sep, from as int) == pieces(v@, sep),
            first_at(v@, sep, from as int) == first_at(v@, sep, i as int),
        decreases n - i,
    {
        if v[i] == sep {
            let piece = string_of(&v, from, i);
            let ghost before = out@;
            out.push(piece);
            proof {
                assert(pieces_from(v@, sep, from as int) == seq![piece@] + pieces_from(
                    v@,
                    sep,
                    i + 1,
                ));
                assert(views(out@) =~= views(before).push(piece@));
                assert(views(out@) + pieces_from(v@, sep, i + 1) =~= views(before) + pieces_from(
                    v@,
                    sep,
                    from as int,
                ));
            }
            from = i + 1;
        }
        i = i + 1;
    }
    let piece = string_of(&v, from, n);
    let ghost before = out@;
    out.push(piece);
    proof {
        assert(pieces_from(v@, sep, from as int) == seq![piece@]);
        assert(views(out@) =~= views(before) + seq![piece@]);
    }
    out
}

/// `parts` with `sep` between each two of them.
pub open spec fn joined(parts: Seq<Seq<char>>, sep: Seq<char>) -> Seq<char>
    decreases parts.len(),
{
    if parts.len() == 0 {
        Seq::empty()
    } else if parts.len() == 1 {
        parts[0]
    } else {
        joined(parts.drop_last(), sep) + sep + parts.last()
    }
}

pub fn join(parts: &Vec<String>, sep: &str) -> (r: String)
    ensures
        r@ == joined(views(parts@), sep@),
{
    let mut out = String::new();
    let mut i: usize = 0;
    while i < parts.len()
        invariant
            i <= parts@.len(),
            out@ == joined(views(parts@).take(i as int), sep@),
        decreases parts@.len() - i,
    {
        proof {
            let t = views(parts@).take(i + 1);
            assert(t.drop_last() =~= views(parts@).take(i as int));
            assert(t.last() == parts@[i as int]@);
        }
        if i > 0 {
            out.append(sep);
        }
        out.append(parts[i].as_str());
        proof {
            assert(out@ =~= joined(views(parts@).take(i + 1), sep@));
        }
        i = i + 1;
    }
    proof {
        assert(views(parts@).take(parts@.len() as int) =~= views(parts@));
    }
    out
}

// ---------------------------------------------------------------- cleaning

/// `s` without its control characters.
pub open spec fn printable(s: Seq<char>) -> Seq<char> {
    s.filter(|c: char| !is_control(c))
}

/// The first `n` characters of `s`, or all of them where there are fewer.
pub open spec fn first_chars(s: Seq<char>, n: int) -> Seq<char> {
    if s.len() <= n {
        s
    } else {
        s.take(n)
    }
}

/// One clean line: no control characters, at most `max` characters, trimmed.
pub open spec fn clean_line(s: Seq<char>, max: int) -> Seq<char> {
    trimmed(first_chars(printable(s), max))
}

pub proof fn lemma_filter_push(s: Seq<char>, k: int)
    requires
        0 <= k < s.len(),
    ensures
        printable(s.take(k + 1)) == (if is_control(s[k]) {
            printable(s.take(k))
        } else {
            printable(s.take(k)).push(s[k])
        }),
{
    let t = s.take(k + 1);
    assert(t.drop_last() =~= s.take(k));
    assert(t.last() == s[k]);
    reveal(Seq::filter);
}

/// A prefix of `s` keeps a prefix of what `s` keeps.
pub proof fn lemma_printable_prefix(s: Seq<char>, k: int)
    requires
        0 <= k <= s.len(),
    ensures
        printable(s.take(k)).len() <= printable(s).len(),
        printable(s).take(printable(s.take(k)).len() as int) == printable(s.take(k)),
    decreases s.len() - k,
{
    if k == s.len() {
        assert(s.take(k) == s);
        assert(printable(s).take(printable(s).len() as int) == printable(s));
    } else {
        lemma_printable_prefix(s, k + 1);
        lemma_filter_push(s, k);
        let a = printable(s.take(k));
        let b = printable(s.take(k + 1));
        assert(printable(s).take(a.len() as int) =~= printable(s).take(b.len() as int).take(
            a.len() as int,
        ));
        assert(b.take(a.len() as int) =~= a);
    }
}

/// The printable characters of `s`, at most `max` of them.
pub fn printable_chars(s: &str, max: usize) -> (r: Vec<char>)
    ensures
        r@ == first_chars(printable(s@), max as int),
{
    let v = chars_of(s);
    let mut out: Vec<char> = Vec::new();
    let mut i: usize = 0;
    proof {
        reveal(Seq::filter);
        assert(printable(v@.take(0)) =~= Seq::<char>::empty());
    }
    while i < v.len()
        invariant
            i <= v@.len(),
            v@ == s@,
            out@ == printable(v@.take(i as int)),
            out@.len() <= max,
        decreases v@.len() - i,
    {
        proof {
            lemma_filter_push(v@, i as int);
            lemma_printable_prefix(v@, i as int);
            lemma_printable_prefix(v@, i + 1);
        }
        if !control(v[i]) {
            if out.len() == max {
                return out;
            }
            out.push(v[i]);
        }
        i = i + 1;
    }
    proof {
        assert(v@.take(v@.len() as int) == v@);
    }
    out
}

pub fn clean(s: &str, max: usize) -> (r: String)
    ensures
        r@ == clean_line(s@, max as int),
{
    let v = printable_chars(s, max);
    let (i, j) = trim_range(&v);
    string_of(&v, i, j)
}

/// `s` trimmed and then cut to `max` characters.
pub fn trim_take(s: &str, max: usize) -> (r: String)
    ensures
        r@ == first_chars(trimmed(s@), max as int),
{
    let v = chars_of(s);
    let (i, j) = trim_range(&v);
    let end: usize = if j - i <= max {
        j
    } else {
        i + max
    };
    let out = string_of(&v, i, end);
    proof {
        assert(out@ =~= first_chars(trimmed(s@), max as int));
    }
    out
}

/// The first `n` characters of `s`, or all of them.
pub fn take_chars(s: &str, n: usize) -> (r: String)
    ensures
        r@ == first_chars(s@, n as int),
{
    let v = chars_of(s);
    let end: usize = if v.len() <= n {
        v.len()
    } else {
        n
    };
    let out = string_of(&v, 0, end);
    proof {
        assert(out@ =~= first_chars(s@, n as int));
    }
    out
}

/// The bytes that `c` takes in UTF-8.
pub open spec fn char_width(c: char) -> int {
    let u = c as u32;
    if u < 0x80 {
        1
    } else if u < 0x800 {
        2
    } else if u < 0x10000 {
        3
    } else {
        4
    }
}

pub fn width(c: char) -> (r: usize)
    ensures
        r == char_width(c),
{
    let u: u32 = c as u32;
    if u < 0x80 {
        1
    } else if u < 0x800 {
        2
    } else if u < 0x10000 {
        3
    } else {
        4
    }
}

/// The bytes that `s` takes in UTF-8.
pub open spec fn byte_len(s: Seq<char>) -> int
    decreases s.len(),
{
    if s.len() == 0 {
        0
    } else {
        byte_len(s.drop_last()) + char_width(s.last())
    }
}

/// Whether `s` takes more than `max` bytes in UTF-8.
pub fn longer_than(s: &str, max: usize) -> (r: bool)
    ensures
        r == (byte_len(s@) > max),
{
    let v = chars_of(s);
    let mut n: usize = 0;
    let mut i: usize = 0;
    while i < v.len()
        invariant
            i <= v@.len(),
            n == byte_len(v@.take(i as int)),
            n <= max,
            v@ == s@,
        decreases v@.len() - i,
    {
        proof {
            lemma_byte_len_prefix(v@, i + 1);
            let t = v@.take(i + 1);
            assert(t.drop_last() =~= v@.take(i as int));
        }
        let w: usize = width(v[i]);
        if w > max - n {
            return true;
        }
        n = n + w;
        i = i + 1;
    }
    proof {
        assert(v@.take(v@.len() as int) =~= v@);
    }
    false
}

/// A prefix takes no more bytes than the whole.
pub proof fn lemma_byte_len_prefix(s: Seq<char>, k: int)
    requires
        0 <= k <= s.len(),
    ensures
        0 <= byte_len(s.take(k)) <= byte_len(s),
    decreases s.len() - k, k,
{
    lemma_byte_len_nonneg(s.take(k));
    if k == s.len() {
        assert(s.take(k) =~= s);
    } else {
        lemma_byte_len_prefix(s, k + 1);
        assert(s.take(k + 1).drop_last() =~= s.take(k));
    }
}

pub proof fn lemma_byte_len_nonneg(s: Seq<char>)
    ensures
        byte_len(s) >= s.len(),
    decreases s.len(),
{
    if s.len() > 0 {
        lemma_byte_len_nonneg(s.drop_last());
    }
}

// ----------------------------------------------------------------- numbers

pub open spec fn digit_char(d: int) -> char {
    if d < 10 {
        (48 + d) as char
    } else {
        (87 + d) as char
    }
}

/// `n` written in base `base` (at most 16), without leading zeros.
pub open spec fn numeral(n: nat, base: nat) -> Seq<char>
    decreases n,
{
    if base < 2 || n < base {
        seq![digit_char(n as int)]
    } else {
        proof {
            assert(n / base < n) by (nonlinear_arith)
                requires
                    n > 0,
                    base >= 2,
            ;
        }
        numeral(n / base, base).push(digit_char((n % base) as int))
    }
}

/// `n` in decimal.
pub open spec fn decimal(n: nat) -> Seq<char> {
    numeral(n, 10)
}

fn digit(d: u128) -> (r: char)
    requires
        d < 16,
    ensures
        r == digit_char(d as int),
{
    if d < 10 {
        (48u8 + d as u8) as char
    } else {
        (87u8 + d as u8) as char
    }
}

fn push_numeral(out: &mut String, n: u128, base: u128)
    requires
        2 <= base <= 16,
    ensures
        final(out)@ == old(out)@ + numeral(n as nat, base as nat),
    decreases n,
{
    if n < base {
        out.push(digit(n));
        proof {
            assert(out@ =~= old(out)@ + numeral(n as nat, base as nat));
        }
    } else {
        proof {
            assert(n / base < n) by (nonlinear_arith)
                requires
                    n > 0,
                    base >= 2,
            ;
            assert(n % base < base) by (nonlinear_arith)
                requires
                    base >= 2,
            ;
        }
        push_numeral(out, n / base, base);
        out.push(digit(n % base));
        proof {
            assert(out@ =~= old(out)@ + numeral(n as nat, base as nat));
        }
    }
}

pub fn dec(n: u64) -> (r: String)
    ensures
        r@ == decimal(n as nat),
{
    let mut out = String::new();
    push_numeral(&mut out, n as u128, 10);
    proof {
        assert(out@ =~= decimal(n as nat));
    }
    out
}

/// `n` in decimal, with a `-` in front of a negative number.
pub open spec fn signed_decimal(n: int) -> Seq<char> {
    if n < 0 {
        "-"@ + decimal((-n) as nat)
    } else {
        decimal(n as nat)
    }
}

pub fn dec_signed(n: i128) -> (r: String)
    ensures
        r@ == signed_decimal(n as int),
{
    if n < 0 {
        let mut out = "-".to_owned();
        let m: u128 = ((-(n + 1)) as u128) + 1;
        push_numeral(&mut out, m, 10);
        out
    } else {
        let mut out = String::new();
        push_numeral(&mut out, n as u128, 10);
        proof {
            assert(out@ =~= decimal(n as nat));
        }
        out
    }
}

pub fn hex_lower(n: u64) -> (r: String)
    ensures
        r@ == numeral(n as nat, 16),
{
    let mut out = String::new();
    push_numeral(&mut out, n as u128, 16);
    proof {
        assert(out@ =~= numeral(n as nat, 16));
    }
    out
}

/// The value of a digit in base 16, either case.
pub open spec fn digit_value(c: char) -> Option<int> {
    if '0' <= c <= '9' {
        Some(c as u32 - 48)
    } else if 'a' <= c <= 'f' {
        Some(c as u32 - 87)
    } else if 'A' <= c <= 'F' {
        Some(c as u32 - 55)
    } else {
        None
    }
}

pub fn value_of(c: char) -> (r: Option<u64>)
    ensures
        match (r, digit_value(c)) {
            (Some(a), Some(b)) => a == b && a < 16,
            (None, None) => true,
            _ => false,
        },
{
    if '0' <= c && c <= '9' {
        Some((c as u32 - 48) as u64)
    } else if 'a' <= c && c <= 'f' {
        Some((c as u32 - 87) as u64)
    } else if 'A' <= c && c <= 'F' {
        Some((c as u32 - 55) as u64)
    } else {
        None
    }
}

/// Whether `c` is a digit in base `base`.
pub open spec fn digit_in(c: char, base: int) -> bool {
    digit_value(c) is Some && digit_value(c)->0 < base
}

/// The number that the digits of `s` write in base `base`.
pub open spec fn number(s: Seq<char>, base: int) -> int
    decreases s.len(),
{
    if s.len() == 0 {
        0
    } else {
        number(s.drop_last(), base) * base + (match digit_value(s.last()) {
            Some(d) => d,
            None => 0,
        })
    }
}

/// Whether `s` holds digits in base `base` and nothing else.
pub open spec fn all_digits(s: Seq<char>, base: int) -> bool {
    forall|k: int| 0 <= k < s.len() ==> digit_in(#[trigger] s[k], base)
}

/// `s` without a `+` in front of something.
pub open spec fn unsigned_part(s: Seq<char>) -> Seq<char> {
    if s.len() > 1 && s[0] == '+' {
        s.skip(1)
    } else {
        s
    }
}

/// `s` as an unsigned number in base `base`, at most `max`: one or more digits,
/// with a `+` in front of them or not.
pub open spec fn parsed(s: Seq<char>, base: int, max: int) -> Option<int> {
    let d = unsigned_part(s);
    if d.len() > 0 && all_digits(d, base) && number(d, base) <= max {
        Some(number(d, base))
    } else {
        None
    }
}

pub proof fn lemma_number_prefix(s: Seq<char>, base: int, k: int)
    requires
        0 <= k <= s.len(),
        2 <= base <= 16,
    ensures
        0 <= number(s.take(k), base) <= number(s, base),
    decreases s.len() - k,
{
    lemma_number_nonneg(s.take(k), base);
    if k == s.len() {
        assert(s.take(k) =~= s);
    } else {
        lemma_number_prefix(s, base, k + 1);
        let t = s.take(k + 1);
        assert(t.drop_last() =~= s.take(k));
        let a = number(s.take(k), base);
        assert(a <= a * base) by (nonlinear_arith)
            requires
                a >= 0,
                base >= 2,
        ;
    }
}

proof fn lemma_number_nonneg(s: Seq<char>, base: int)
    requires
        2 <= base,
    ensures
        number(s, base) >= 0,
    decreases s.len(),
{
    if s.len() > 0 {
        lemma_number_nonneg(s.drop_last(), base);
        let a = number(s.drop_last(), base);
        assert(a * base >= 0) by (nonlinear_arith)
            requires
                a >= 0,
                base >= 2,
        ;
    }
}

pub fn parse(s: &str, base: u64, max: u64) -> (r: Option<u64>)
    requires
        2 <= base <= 16,
    ensures
        match (r, parsed(s@, base as int, max as int)) {
            (Some(a), Some(b)) => a == b && a <= max,
            (None, None) => true,
            _ => false,
        },
{
    let v = chars_of(s);
    let from: usize = if v.len() > 1 && v[0] == '+' {
        1
    } else {
        0
    };
    let ghost d = unsigned_part(s@);
    proof {
        assert(d =~= v@.skip(from as int));
    }
    if from == v.len() {
        return None;
    }
    let mut i: usize = from;
    let mut n: u64 = 0;
    while i < v.len()
        invariant
            from <= i <= v@.len(),
            from <= 1,
            d == v@.skip(from as int),
            2 <= base <= 16,
            n == number(d.take(i - from), base as int),
            n <= max,
            forall|k: int| 0 <= k < i - from ==> digit_in(#[trigger] d[k], base as int),
            d == unsigned_part(s@),
            d.len() > 0,
        decreases v@.len() - i,
    {
        let ghost k = i - from;
        proof {
            assert(d[k] == v@[i as int]);
            let t = d.take(k + 1);
            assert(t.drop_last() =~= d.take(k));
            assert(t.last() == d[k]);
            lemma_number_prefix(d, base as int, k + 1);
        }
        match value_of(v[i]) {
            Some(x) => {
                if x >= base {
                    proof {
                        assert(!digit_in(d[k], base as int));
                    }
                    return None;
                }
                proof {
                    assert(n * base >= 0) by (nonlinear_arith);
                    assert(n * base <= u64::MAX * 16) by (nonlinear_arith)
                        requires
                            n <= u64::MAX,
                            base <= 16,
                    ;
                }
                let next: u128 = (n as u128) * (base as u128) + (x as u128);
                if next > max as u128 {
                    return None;
                }
                n = next as u64;
            },
            None => {
                proof {
                    assert(!digit_in(d[k], base as int));
                }
                return None;
            },
        }
        i = i + 1;
    }
    proof {
        assert(d.take(d.len() as int) =~= d);
    }
    Some(n)
}

/// Reading a numeral gives back the number that it writes.
pub proof fn lemma_numeral_number(n: nat, base: nat)
    requires
        2 <= base <= 16,
    ensures
        number(numeral(n, base), base as int) == n,
        numeral(n, base).len() > 0,
    decreases n,
{
    if n < base {
        let s = numeral(n, base);
        assert(s =~= seq![digit_char(n as int)]);
        assert(s.drop_last() =~= Seq::<char>::empty());
        assert(number(s.drop_last(), base as int) == 0);
        lemma_digit_value(n as int);
    } else {
        assert(n / base < n) by (nonlinear_arith)
            requires
                n > 0,
                base >= 2,
        ;
        lemma_numeral_number(n / base, base);
        let s = numeral(n, base);
        let d = (n % base) as int;
        assert(0 <= d < base) by (nonlinear_arith)
            requires
                d == (n % base) as int,
                base >= 2,
        ;
        assert(s.drop_last() =~= numeral(n / base, base));
        assert(s.last() == digit_char(d));
        lemma_digit_value(d);
        assert((n / base) * base + d == n) by (nonlinear_arith)
            requires
                d == (n % base) as int,
                base >= 2,
        ;
    }
}

proof fn lemma_digit_value(d: int)
    requires
        0 <= d < 16,
    ensures
        digit_value(digit_char(d)) == Some(d),
{
}

} // verus!
