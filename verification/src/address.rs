//! The addresses that texts write.

use crate::ip_country::Ip;
use crate::text::{
    all_digits, chars_of, digit_in, number, parse, pieces, split, string_of, trim, trimmed,
    unsigned_part, views,
};
use crate::udp_pktinfo::{parse_quad, quad};
use vstd::prelude::*;
use vstd::string::*;

verus! {

// --------------------------------------------------------------- the model

/// One group of an IPv6 address: one to four hexadecimal digits.
pub open spec fn group(s: Seq<char>) -> Option<int> {
    if 1 <= s.len() <= 4 && all_digits(s, 16) {
        Some(number(s, 16))
    } else {
        None
    }
}

/// The words that some groups write. Where `quads` says so, the last of them
/// may be a dotted quad, which writes two.
pub open spec fn words_of(ps: Seq<Seq<char>>, quads: bool) -> Option<Seq<int>>
    decreases ps.len(),
{
    if ps.len() == 0 {
        Some(Seq::empty())
    } else {
        match words_of(ps.drop_last(), false) {
            None => None,
            Some(ws) => match (group(ps.last()), quad(ps.last())) {
                (Some(g), _) => Some(ws.push(g)),
                (None, Some(q)) => if quads {
                    Some(ws.push(q / 65536).push(q % 65536))
                } else {
                    None
                },
                (None, None) => None,
            },
        }
    }
}

/// The words on one side of a gap: none where nothing stands there.
pub open spec fn side_words(s: Seq<char>, quads: bool) -> Option<Seq<int>> {
    if s.len() == 0 {
        Some(Seq::empty())
    } else {
        words_of(pieces(s, ':'), quads)
    }
}

/// Where the first `::` stands.
pub open spec fn gap_at(s: Seq<char>, from: int) -> Option<int>
    decreases s.len() - from,
{
    if from + 1 >= s.len() {
        None
    } else if s[from] == ':' && s[from + 1] == ':' {
        Some(from)
    } else {
        gap_at(s, from + 1)
    }
}

/// Eight words as one number.
pub open spec fn from_words(w: Seq<int>) -> int {
    w[0] * 0x1_0000_0000_0000_0000_0000_0000_0000 + w[1] * 0x1_0000_0000_0000_0000_0000_0000 + w[2]
        * 0x1_0000_0000_0000_0000_0000 + w[3] * 0x1_0000_0000_0000_0000 + w[4] * 0x1_0000_0000_0000
        + w[5] * 0x1_0000_0000 + w[6] * 0x1_0000 + w[7]
}

/// The words with a gap filled, to eight.
pub open spec fn bridged(a: Seq<int>, b: Seq<int>) -> Seq<int> {
    a + Seq::new((8 - a.len() - b.len()) as nat, |i: int| 0int) + b
}

/// The number that an IPv6 address writes: eight words, or fewer round one gap
/// that stands for the rest.
pub open spec fn long_address(s: Seq<char>) -> Option<int> {
    match gap_at(s, 0) {
        None => match side_words(s, true) {
            Some(w) => if w.len() == 8 {
                Some(from_words(w))
            } else {
                None
            },
            None => None,
        },
        Some(k) => match (side_words(s.take(k), false), side_words(s.skip(k + 2), true)) {
            (Some(a), Some(b)) => if a.len() + b.len() <= 7 {
                Some(from_words(bridged(a, b)))
            } else {
                None
            },
            _ => None,
        },
    }
}

/// The address that a text writes: a dotted quad, or an IPv6 address.
pub open spec fn address(s: Seq<char>) -> Option<Ip> {
    match quad(s) {
        Some(a) => Some(Ip::V4(a as u32)),
        None => match long_address(s) {
            Some(a) => Some(Ip::V6(a as u128)),
            None => None,
        },
    }
}

pub open spec fn ints(v: Seq<u16>) -> Seq<int> {
    v.map_values(|w: u16| w as int)
}

pub open spec fn opt_ints(o: Option<Vec<u16>>) -> Option<Seq<int>> {
    match o {
        Some(v) => Some(ints(v@)),
        None => None,
    }
}

// ------------------------------------------------------------- the reading

/// A group that cannot be read spoils whatever follows it.
proof fn lemma_spoiled(ps: Seq<Seq<char>>, k: int, quads: bool)
    requires
        0 <= k < ps.len(),
        words_of(ps.take(k), false) is None,
    ensures
        words_of(ps, quads) is None,
    decreases ps.len(),
{
    let d = ps.drop_last();
    if k == d.len() {
        assert(ps.take(k) =~= d);
    } else {
        assert(d.take(k) =~= ps.take(k));
        lemma_spoiled(d, k, false);
    }
}

fn parse_group(s: &str) -> (r: Option<u16>)
    ensures
        match (r, group(s@)) {
            (Some(a), Some(b)) => a == b,
            (None, None) => true,
            _ => false,
        },
{
    let v = chars_of(s);
    if v.len() < 1 || v.len() > 4 {
        return None;
    }
    if v[0] == '+' {
        proof {
            assert(!digit_in(s@[0], 16));
        }
        return None;
    }
    proof {
        assert(unsigned_part(s@) =~= s@);
        lemma_short_number(s@);
    }
    match parse(s, 16, 65535) {
        Some(n) => Some(n as u16),
        None => None,
    }
}

/// Four hexadecimal digits fit into a word.
proof fn lemma_short_number(s: Seq<char>)
    requires
        s.len() <= 4,
    ensures
        all_digits(s, 16) ==> 0 <= number(s, 16) <= 65535,
{
    reveal_with_fuel(number, 5);
    if all_digits(s, 16) {
        assert forall|i: int| 0 <= i < s.len() implies digit_in(#[trigger] s[i], 16) by {}
    }
}

fn read_words(ps: &Vec<String>, quads: bool) -> (r: Option<Vec<u16>>)
    ensures
        opt_ints(r) == words_of(views(ps@), quads),
{
    let ghost all = views(ps@);
    let mut out: Vec<u16> = Vec::new();
    let mut i: usize = 0;
    proof {
        assert(all.take(0) =~= Seq::<Seq<char>>::empty());
        assert(ints(out@) =~= Seq::<int>::empty());
    }
    while i < ps.len()
        invariant
            i <= ps@.len(),
            all == views(ps@),
            all.len() == ps@.len(),
            words_of(all.take(i as int), false) == Some(ints(out@)),
        decreases ps@.len() - i,
    {
        let ghost t = all.take(i + 1);
        let ghost before = ints(out@);
        proof {
            assert(t.drop_last() =~= all.take(i as int));
            assert(t.last() == ps@[i as int]@);
        }
        match parse_group(ps[i].as_str()) {
            Some(g) => {
                out.push(g);
                proof {
                    assert(ints(out@) =~= before.push(g as int));
                }
            },
            None => {
                let last = i + 1 == ps.len();
                match parse_quad(ps[i].as_str()) {
                    Some(q) => {
                        if quads && last {
                            let hi: u16 = (q / 65536) as u16;
                            let lo: u16 = (q % 65536) as u16;
                            out.push(hi);
                            out.push(lo);
                            proof {
                                assert(t =~= all);
                                assert(ints(out@) =~= before.push(hi as int).push(lo as int));
                            }
                            return Some(out);
                        }
                    },
                    None => {},
                }
                proof {
                    assert(words_of(t, false) is None);
                    if last {
                        assert(t =~= all);
                    } else {
                        lemma_spoiled(all, i + 1, quads);
                    }
                }
                return None;
            },
        }
        i = i + 1;
    }
    proof {
        assert(all.take(ps@.len() as int) =~= all);
        if all.len() > 0 {
            lemma_quads_or_not(all, quads);
        }
    }
    Some(out)
}

/// Groups that need no dotted quad read the same where one may stand.
proof fn lemma_quads_or_not(ps: Seq<Seq<char>>, quads: bool)
    requires
        words_of(ps, false) is Some,
    ensures
        words_of(ps, quads) == words_of(ps, false),
{
}

fn read_side(v: &Vec<char>, from: usize, to: usize, quads: bool) -> (r: Option<Vec<u16>>)
    requires
        from <= to <= v@.len(),
    ensures
        opt_ints(r) == side_words(v@.subrange(from as int, to as int), quads),
{
    let s = string_of(v, from, to);
    if from == to {
        let none: Vec<u16> = Vec::new();
        proof {
            assert(ints(none@) =~= Seq::<int>::empty());
        }
        return Some(none);
    }
    read_words(&split(s.as_str(), ':'), quads)
}

fn find_gap(v: &Vec<char>) -> (r: Option<usize>)
    ensures
        match (r, gap_at(v@, 0)) {
            (Some(a), Some(b)) => a == b && a + 2 <= v@.len(),
            (None, None) => true,
            _ => false,
        },
{
    let mut i: usize = 0;
    while i < v.len() && v.len() - i > 1
        invariant
            i <= v@.len(),
            gap_at(v@, 0) == gap_at(v@, i as int),
        decreases v@.len() - i,
    {
        if v[i] == ':' && v[i + 1] == ':' {
            return Some(i);
        }
        i = i + 1;
    }
    None
}

fn number_of(w: &Vec<u16>) -> (r: u128)
    requires
        w@.len() == 8,
    ensures
        r == from_words(ints(w@)),
{
    (w[0] as u128) * 0x1_0000_0000_0000_0000_0000_0000_0000 + (w[1] as u128)
        * 0x1_0000_0000_0000_0000_0000_0000 + (w[2] as u128) * 0x1_0000_0000_0000_0000_0000 + (
    w[3] as u128) * 0x1_0000_0000_0000_0000 + (w[4] as u128) * 0x1_0000_0000_0000 + (w[5] as u128)
        * 0x1_0000_0000 + (w[6] as u128) * 0x1_0000 + (w[7] as u128)
}

fn parse_long(s: &str) -> (r: Option<u128>)
    ensures
        match (r, long_address(s@)) {
            (Some(a), Some(b)) => a == b,
            (None, None) => true,
            _ => false,
        },
{
    let v = chars_of(s);
    match find_gap(&v) {
        None => {
            proof {
                assert(v@.subrange(0, v@.len() as int) =~= s@);
            }
            match read_side(&v, 0, v.len(), true) {
                Some(w) => {
                    proof {
                        assert(ints(w@).len() == w@.len());
                    }
                    if w.len() == 8 {
                        Some(number_of(&w))
                    } else {
                        None
                    }
                },
                None => None,
            }
        },
        Some(k) => {
            proof {
                assert(v@.subrange(0, k as int) =~= s@.take(k as int));
                assert(v@.subrange(k + 2, v@.len() as int) =~= s@.skip(k + 2));
            }
            match (read_side(&v, 0, k, false), read_side(&v, k + 2, v.len(), true)) {
                (Some(a), Some(b)) => {
                    proof {
                        assert(ints(a@).len() == a@.len());
                        assert(ints(b@).len() == b@.len());
                    }
                    if a.len() > 7 || b.len() > 7 - a.len() {
                        return None;
                    }
                    let ghost whole = bridged(ints(a@), ints(b@));
                    let n: usize = a.len();
                    let m: usize = b.len();
                    let ghost head = a@;
                    let mut w = a;
                    proof {
                        assert(ints(w@) =~= whole.take(n as int));
                    }
                    while w.len() < 8 - m
                        invariant
                            n + m <= 7,
                            n <= w@.len() <= 8 - m,
                            whole == bridged(ints(head), ints(b@)),
                            n == head.len(),
                            m == b@.len(),
                            ints(w@) == whole.take(w@.len() as int),
                        decreases 8 - m - w@.len(),
                    {
                        let ghost before = w@;
                        w.push(0);
                        proof {
                            assert(ints(w@) =~= ints(before).push(0));
                            assert(whole.take(w@.len() as int) =~= whole.take(
                                before.len() as int,
                            ).push(0));
                        }
                    }
                    let mut j: usize = 0;
                    while j < b.len()
                        invariant
                            j <= m,
                            n + m <= 7,
                            w@.len() == 8 - m + j,
                            whole == bridged(ints(head), ints(b@)),
                            n == head.len(),
                            m == b@.len(),
                            ints(w@) == whole.take(w@.len() as int),
                        decreases m - j,
                    {
                        let ghost before = w@;
                        w.push(b[j]);
                        proof {
                            assert(ints(w@) =~= ints(before).push(b@[j as int] as int));
                            assert(whole.take(w@.len() as int) =~= whole.take(
                                before.len() as int,
                            ).push(b@[j as int] as int));
                        }
                        j = j + 1;
                    }
                    proof {
                        assert(whole.take(8) =~= whole);
                    }
                    Some(number_of(&w))
                },
                _ => None,
            }
        },
    }
}

/// Reads an address, with spaces round it or without.
pub fn parse_address(s: &str) -> (r: Option<Ip>)
    ensures
        r == address(trimmed(s@)),
{
    let t = trim(s);
    match parse_quad(t.as_str()) {
        Some(a) => Some(Ip::V4(a)),
        None => match parse_long(t.as_str()) {
            Some(a) => Some(Ip::V6(a)),
            None => None,
        },
    }
}

} // verus!
