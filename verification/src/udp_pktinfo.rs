//! The IPv4 address that a host setting names.

use crate::text::{
    all_digits, digit_in, number, pieces, parse, split, trim, trimmed, unsigned_part, views,
};
use vstd::prelude::*;
use vstd::string::*;

verus! {

/// One number of a dotted quad: up to three digits, no needless zero in front,
/// and at most 255.
pub open spec fn octet(s: Seq<char>) -> Option<int> {
    if 1 <= s.len() <= 3 && all_digits(s, 10) && (s.len() > 1 ==> s[0] != '0') && number(s, 10)
        <= 255 {
        Some(number(s, 10))
    } else {
        None
    }
}

/// The address that a dotted quad writes.
pub open spec fn quad(s: Seq<char>) -> Option<int> {
    let p = pieces(s, '.');
    if p.len() == 4 && octet(p[0]) is Some && octet(p[1]) is Some && octet(p[2]) is Some && octet(
        p[3],
    ) is Some {
        Some(
            octet(p[0])->0 * 16777216 + octet(p[1])->0 * 65536 + octet(p[2])->0 * 256 + octet(
                p[3],
            )->0,
        )
    } else {
        None
    }
}

fn parse_octet(s: &str) -> (r: Option<u32>)
    ensures
        match (r, octet(s@)) {
            (Some(a), Some(b)) => a == b && a <= 255,
            (None, None) => true,
            _ => false,
        },
{
    let v = crate::text::chars_of(s);
    if v.len() < 1 || v.len() > 3 {
        return None;
    }
    if v.len() > 1 && v[0] == '0' {
        return None;
    }
    if v[0] == '+' {
        proof {
            assert(!digit_in(s@[0], 10));
        }
        return None;
    }
    proof {
        assert(unsigned_part(s@) =~= s@);
    }
    match parse(s, 10, 255) {
        Some(n) => Some(n as u32),
        None => None,
    }
}

/// Parses a host string as an IPv4 address where it is one.
pub fn parse_ipv4_host(host: &str) -> (r: Option<u32>)
    ensures
        match (r, quad(trimmed(host@))) {
            (Some(a), Some(b)) => a == b,
            (None, None) => true,
            _ => false,
        },
{
    let h = trim(host);
    parse_quad(h.as_str())
}

/// Reads a dotted quad.
pub fn parse_quad(s: &str) -> (r: Option<u32>)
    ensures
        match (r, quad(s@)) {
            (Some(a), Some(b)) => a == b,
            (None, None) => true,
            _ => false,
        },
{
    let p = split(s, '.');
    proof {
        assert(views(p@).len() == p@.len());
    }
    if p.len() != 4 {
        return None;
    }
    proof {
        assert(views(p@)[0] == p@[0]@);
        assert(views(p@)[1] == p@[1]@);
        assert(views(p@)[2] == p@[2]@);
        assert(views(p@)[3] == p@[3]@);
    }
    match (
        parse_octet(p[0].as_str()),
        parse_octet(p[1].as_str()),
        parse_octet(p[2].as_str()),
        parse_octet(p[3].as_str()),
    ) {
        (Some(a), Some(b), Some(c), Some(d)) => Some(a * 16777216 + b * 65536 + c * 256 + d),
        _ => None,
    }
}

} // verus!
