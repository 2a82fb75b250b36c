//! What addresses and endpoints come to, stated of the parts that they are
//! written from.

use vstd::prelude::*;

use super::input::{
    advertised, client_address, direct_peer, lan_kept, lan_step, local_peer, private_host, rewritten,
    unmapped,
};
use crate::spelling::{
    all_white, lacks, law_a_written_number_is_read, law_separators_part_pieces,
    law_the_last_separator_parts, law_trimming_takes_off_the_ends, lemma_decimal_digits,
};
use crate::text::{
    byte_len, decimal, digit_in, is_white, numeral, pieces, starts,
};

verus! {

/// The endpoint of a host and a port.
pub open spec fn endpoint(host: Seq<char>, port: nat) -> Seq<char> {
    host.push(':') + decimal(port)
}

/// Four numbers with dots between them.
pub open spec fn quad(a: nat, b: nat, c: nat, d: nat) -> Seq<char> {
    decimal(a).push('.') + (decimal(b).push('.') + (decimal(c).push('.') + decimal(d)))
}

/// Whether the numbers are those of a private network: 10/8, 172.16/12 or
/// 192.168/16.
pub open spec fn private_numbers(a: nat, b: nat) -> bool {
    a == 10 || (a == 172 && 16 <= b < 32) || (a == 192 && b == 168)
}

pub proof fn lemma_decimal_lacks(n: nat)
    ensures
        lacks(decimal(n), '.'),
        lacks(decimal(n), ':'),
        !is_white(decimal(n)[0]),
        !is_white(decimal(n).last()),
        decimal(n).len() > 0,
{
    lemma_decimal_digits(n);
    let s = decimal(n);
    assert(digit_in(s[0], 10));
    assert(digit_in(s[s.len() - 1], 10));
    assert forall|i: int| 0 <= i < s.len() implies #[trigger] s[i] != '.' && s[i] != ':' by {
        assert(digit_in(s[i], 10));
    }
}

proof fn lemma_colon(host: Seq<char>, tail: Seq<char>)
    ensures
        host + ":"@ + tail == host.push(':') + tail,
{
    reveal_strlit(":");
    assert(host + ":"@ =~= host.push(':'));
}

/// A host that names an address is left as it is; one that names none gets the
/// address of the peer, and the port stays.
pub proof fn law_only_unbound_hosts_are_rewritten(host: Seq<char>, port: nat, peer: Seq<char>)
    requires
        peer.len() > 0,
    ensures
        rewritten(endpoint(host, port), peer) == endpoint(
            if host.len() == 0 || host == "0.0.0.0"@ || host == "*"@ || host == "::"@ {
                peer
            } else {
                host
            },
            port,
        ),
{
    lemma_decimal_lacks(port);
    law_the_last_separator_parts(host, ':', decimal(port));
    lemma_colon(host, decimal(port));
    lemma_colon(peer, decimal(port));
}

proof fn lemma_quad_pieces(a: nat, b: nat, c: nat, d: nat)
    ensures
        pieces(quad(a, b, c, d), '.') == seq![decimal(a), decimal(b), decimal(c), decimal(d)],
{
    lemma_decimal_lacks(a);
    lemma_decimal_lacks(b);
    lemma_decimal_lacks(c);
    lemma_decimal_lacks(d);
    let cd = decimal(c).push('.') + decimal(d);
    let bcd = decimal(b).push('.') + cd;
    law_separators_part_pieces(decimal(a), '.', bcd);
    law_separators_part_pieces(decimal(b), '.', cd);
    law_separators_part_pieces(decimal(c), '.', decimal(d));
    law_separators_part_pieces(decimal(d), '.', Seq::empty());
    assert(pieces(quad(a, b, c, d), '.') =~= seq![
        decimal(a),
        decimal(b),
        decimal(c),
        decimal(d),
    ]);
}

/// A dotted quad is private by its numbers alone, each of them a byte.
pub proof fn law_private_addresses_are_three_ranges(a: nat, b: nat, c: nat, d: nat)
    ensures
        private_host(quad(a, b, c, d)) <==> (a < 256 && b < 256 && c < 256 && d < 256
            && private_numbers(a, b)),
{
    lemma_quad_pieces(a, b, c, d);
    law_a_written_number_is_read(a, 255);
    law_a_written_number_is_read(b, 255);
    law_a_written_number_is_read(c, 255);
    law_a_written_number_is_read(d, 255);
}

/// The ends of a dotted quad are digits.
proof fn lemma_quad_ends(a: nat, b: nat, c: nat, d: nat)
    ensures
        quad(a, b, c, d).len() > 0,
        quad(a, b, c, d)[0] == decimal(a)[0],
        quad(a, b, c, d).last() == decimal(d).last(),
        !is_white(quad(a, b, c, d)[0]),
        !is_white(quad(a, b, c, d).last()),
        lacks(quad(a, b, c, d), ':'),
        lacks(quad(a, b, c, d), ' '),
{
    lemma_decimal_lacks(a);
    lemma_decimal_lacks(b);
    lemma_decimal_lacks(c);
    lemma_decimal_lacks(d);
    let q = quad(a, b, c, d);
    assert forall|i: int| 0 <= i < q.len() implies #[trigger] q[i] != ':' && q[i] != ' ' by {
        lemma_quad_char(a, b, c, d, i);
    }
}

/// A dotted quad holds digits and dots and nothing else.
proof fn lemma_quad_char(a: nat, b: nat, c: nat, d: nat, i: int)
    requires
        0 <= i < quad(a, b, c, d).len(),
    ensures
        quad(a, b, c, d)[i] == '.' || digit_in(quad(a, b, c, d)[i], 10),
{
    lemma_decimal_digits(a);
    lemma_decimal_digits(b);
    lemma_decimal_digits(c);
    lemma_decimal_digits(d);
    let q = quad(a, b, c, d);
    let la = decimal(a).len() as int;
    let lb = decimal(b).len() as int;
    let lc = decimal(c).len() as int;
    if i < la {
        assert(q[i] == decimal(a)[i]);
    } else if i > la && i < la + 1 + lb {
        assert(q[i] == decimal(b)[i - la - 1]);
    } else if i > la + 1 + lb && i < la + lb + lc + 2 {
        assert(q[i] == decimal(c)[i - la - lb - 2]);
    } else if i > la + lb + lc + 2 {
        assert(q[i] == decimal(d)[i - la - lb - lc - 3]);
    }
}

/// The first digits of the octets that matter.
proof fn lemma_first_octets()
    ensures
        decimal(10) == seq!['1', '0'],
        decimal(172) == seq!['1', '7', '2'],
        decimal(192) == seq!['1', '9', '2'],
        decimal(127) == seq!['1', '2', '7'],
{
    reveal_with_fuel(numeral, 4);
    assert(decimal(10) =~= seq!['1', '0']);
    assert(decimal(172) =~= seq!['1', '7', '2']);
    assert(decimal(192) =~= seq!['1', '9', '2']);
    assert(decimal(127) =~= seq!['1', '2', '7']);
}

/// A dotted quad with a first number of 127 starts like a loopback address; a
/// private one does not.
proof fn lemma_loopback(a: nat, b: nat, c: nat, d: nat)
    ensures
        a == 127 ==> starts(quad(a, b, c, d), "127."@),
        private_numbers(a, b) ==> !starts(quad(a, b, c, d), "127."@),
        starts(quad(a, b, c, d), "127."@) ==> a == 127,
{
    reveal_strlit("127.");
    lemma_first_octets();
    lemma_decimal_digits(a);
    lemma_decimal_lacks(a);
    let q = quad(a, b, c, d);
    let p = "127."@;
    if a == 127 {
        assert(q.take(4) =~= p);
    }
    if starts(q, p) {
        assert(q.take(4)[0] == '1' && q.take(4)[1] == '2' && q.take(4)[2] == '7' && q.take(4)[3]
            == '.');
        let s = decimal(a);
        assert(q[0] == '1' && q[1] == '2' && q[2] == '7' && q[3] == '.');
        if s.len() >= 4 {
            assert(q[3] == s[3]);
            assert(digit_in(s[3], 10));
        }
        if s.len() == 1 {
            assert(q[1] == '.');
        }
        if s.len() == 2 {
            assert(q[2] == '.');
        }
        assert(s =~= seq!['1', '2', '7']);
        crate::text::lemma_numeral_number(a, 10);
        crate::text::lemma_numeral_number(127, 10);
    }
}

/// A peer by a dotted quad is local if it is on a private network or a loopback
/// address; it is direct unless it is the gateway itself.
pub proof fn law_local_peers(a: nat, b: nat, c: nat, d: nat, gateway: Option<Seq<char>>)
    requires
        a < 256,
        b < 256,
        c < 256,
        d < 256,
        gateway is Some ==> gateway->0.len() > 0 && !is_white(gateway->0[0]) && !is_white(
            gateway->0.last(),
        ),
    ensures
        local_peer(quad(a, b, c, d)) <==> (a == 127 || private_numbers(a, b)),
        direct_peer(quad(a, b, c, d), gateway) <==> ((a == 127 || private_numbers(a, b))
            && gateway != Some(quad(a, b, c, d))),
{
    let q = quad(a, b, c, d);
    let e = Seq::<char>::empty();
    lemma_quad_ends(a, b, c, d);
    assert(e + q + e =~= q);
    law_trimming_takes_off_the_ends(e, q, e);
    if gateway is Some {
        let g = gateway->0;
        assert(e + g + e =~= g);
        law_trimming_takes_off_the_ends(e, g, e);
    }
    law_private_addresses_are_three_ranges(a, b, c, d);
    lemma_loopback(a, b, c, d);
    reveal_strlit("::ffff:");
    reveal_strlit("::1");
    reveal_strlit("localhost");
    lemma_quad_char(a, b, c, d, 0);
    if starts(q, "::ffff:"@) {
        assert(q.take(7)[0] == q[0]);
    }
    assert(unmapped(q) == q);
    assert(q[0] != ':');
    lemma_no_letters(a, b, c, d);
}

/// A dotted quad is no host name.
proof fn lemma_no_letters(a: nat, b: nat, c: nat, d: nat)
    ensures
        crate::text::lowered(quad(a, b, c, d)) != "localhost"@,
        quad(a, b, c, d) != "localhost"@,
{
    reveal_strlit("localhost");
    let q = quad(a, b, c, d);
    assert(crate::text::lowered(q).len() == q.len());
    if q.len() == 9 {
        let la = decimal(a).len() as int;
        assert(q[la] == '.');
        assert(crate::text::lowered(q)[la] == crate::text::lower_char('.'));
        lemma_decimal_lacks(a);
        let t = "localhost"@;
        assert(t[la] != '.');
        assert(crate::text::lower_char('.') == '.');
    }
}

/// The mapped form of an address is the address.
pub proof fn law_mapped_peers_are_themselves(a: nat, b: nat, c: nat, d: nat)
    ensures
        unmapped("::ffff:"@ + quad(a, b, c, d)) == quad(a, b, c, d),
{
    reveal_strlit("::ffff:");
    let q = quad(a, b, c, d);
    let s = "::ffff:"@ + q;
    let e = Seq::<char>::empty();
    lemma_quad_ends(a, b, c, d);
    assert(s[0] == ':');
    assert(s.last() == q.last());
    assert(e + s + e =~= s);
    law_trimming_takes_off_the_ends(e, s, e);
    assert(s.take(7) =~= "::ffff:"@);
    assert(s.skip(7) =~= q);
}

/// The first address of a trusted forwarded header counts, without the white
/// space around it; the peer's own does where the header has none.
pub proof fn law_the_first_forwarded_address_counts(
    a: Seq<char>,
    first: Seq<char>,
    b: Seq<char>,
    rest: Seq<char>,
    peer: Seq<char>,
)
    requires
        all_white(a),
        all_white(b),
        lacks(first, ','),
        first.len() > 0 ==> !is_white(first[0]) && !is_white(first.last()),
    ensures
        client_address(Some((a + first + b).push(',') + rest), peer, true) == if first.len() > 0 {
            first
        } else {
            peer
        },
        client_address(Some(a + first + b), peer, true) == if first.len() > 0 {
            first
        } else {
            peer
        },
        client_address(None, peer, true) == peer,
{
    let head = a + first + b;
    law_trimming_takes_off_the_ends(a, first, b);
    assert forall|i: int| 0 <= i < head.len() implies #[trigger] head[i] != ',' by {
        if i < a.len() {
            assert(is_white(a[i]));
        } else if i < a.len() + first.len() {
            assert(head[i] == first[i - a.len()]);
        } else {
            assert(is_white(b[i - a.len() - first.len()]));
        }
    }
    law_separators_part_pieces(head, ',', rest);
    assert((seq![head] + pieces(rest, ','))[0] == head);
}

/// An endpoint with a plain host and a port is advertised as it is written; one
/// with no port that a socket can have is not advertised.
pub proof fn law_plain_endpoints_are_advertised(host: Seq<char>, port: nat)
    requires
        host.len() > 0,
        !is_white(host[0]),
        byte_len(endpoint(host, port)) <= 64,
        host != "0.0.0.0"@,
        host != "*"@,
        host != "::"@,
        forall|i: int|
            0 <= i < host.len() ==> #[trigger] host[i] != ' ' && host[i] != '"' && host[i] != '\''
                && host[i] != '{' && host[i] != '}' && host[i] != '\\',
    ensures
        advertised(endpoint(host, port)) == if 0 < port < 65536 {
            Some(endpoint(host, port))
        } else {
            None
        },
{
    let ep = endpoint(host, port);
    let e = Seq::<char>::empty();
    lemma_decimal_lacks(port);
    assert(ep[0] == host[0]);
    assert(ep.last() == decimal(port).last());
    assert(e + ep + e =~= ep);
    law_trimming_takes_off_the_ends(e, ep, e);
    law_the_last_separator_parts(host, ':', decimal(port));
    law_a_written_number_is_read(port, 65535);
    lemma_colon(host, decimal(port));
}

/// An endpoint with no host, or with a character that no host has, is never
/// advertised.
pub proof fn law_odd_hosts_are_not_advertised(host: Seq<char>, port: nat)
    requires
        host.len() == 0 || !is_white(host[0]),
        host.len() == 0 || host == "0.0.0.0"@ || host == "*"@ || host == "::"@ || host.contains(
            ' ',
        ) || host.contains('"') || host.contains('\'') || host.contains('{') || host.contains('}')
            || host.contains('\\'),
    ensures
        advertised(endpoint(host, port)) is None,
{
    let ep = endpoint(host, port);
    let e = Seq::<char>::empty();
    lemma_decimal_lacks(port);
    assert(ep[0] == if host.len() > 0 {
        host[0]
    } else {
        ':'
    });
    assert(ep.last() == decimal(port).last());
    assert(e + ep + e =~= ep);
    law_trimming_takes_off_the_ends(e, ep, e);
    law_the_last_separator_parts(host, ':', decimal(port));
}

/// One more endpoint of a local list: a private one is there afterwards while
/// there is room, and no other dotted quad is added.
proof fn lemma_lan_step(kept: Seq<Seq<char>>, a: nat, b: nat, c: nat, d: nat, port: nat)
    requires
        byte_len(endpoint(quad(a, b, c, d), port)) <= 64,
    ensures
        ({
            let ep = endpoint(quad(a, b, c, d), port);
            let next = lan_step(kept, ep);
            &&& a < 256 && b < 256 && c < 256 && d < 256 && private_numbers(a, b) && 0 < port
                < 65536 && kept.len() < 4 ==> next.contains(ep)
            &&& !(a < 256 && b < 256 && c < 256 && d < 256 && private_numbers(a, b) && 0 < port
                < 65536) ==> next == kept
        }),
{
    let q = quad(a, b, c, d);
    let ep = endpoint(q, port);
    lemma_quad_ends(a, b, c, d);
    if q == "0.0.0.0"@ {
        reveal_strlit("0.0.0.0");
        lemma_zero_quad(a, b, c, d);
        law_odd_hosts_are_not_advertised(q, port);
    } else {
        reveal_strlit("*");
        reveal_strlit("::");
        lemma_quad_char(a, b, c, d, 0);
        assert(q[0] != '*' && q[0] != ':');
        assert forall|i: int| 0 <= i < q.len() implies #[trigger] q[i] != ' ' && q[i] != '"'
            && q[i] != '\'' && q[i] != '{' && q[i] != '}' && q[i] != '\\' by {
            lemma_quad_char(a, b, c, d, i);
        }
        law_plain_endpoints_are_advertised(q, port);
        lemma_decimal_lacks(port);
        law_the_last_separator_parts(q, ':', decimal(port));
        law_private_addresses_are_three_ranges(a, b, c, d);
        lemma_loopback(a, b, c, d);
        lemma_no_letters(a, b, c, d);
        if kept.len() < 4 && !kept.contains(ep) {
            assert(kept.push(ep)[kept.len() as int] == ep);
        }
    }
}

/// The unbound quad is not private.
proof fn lemma_zero_quad(a: nat, b: nat, c: nat, d: nat)
    requires
        quad(a, b, c, d) == "0.0.0.0"@,
    ensures
        !private_numbers(a, b),
{
    reveal_strlit("0.0.0.0");
    lemma_first_octets();
    lemma_decimal_lacks(a);
    assert(quad(a, b, c, d)[0] == decimal(a)[0]);
}

/// A kept endpoint stays kept.
proof fn lemma_lan_grows(list: Seq<Seq<char>>, i: int, ep: Seq<char>)
    requires
        0 <= i <= list.len(),
        lan_kept(list.take(i)).contains(ep) || lan_kept(list.take(i)).len() >= 4,
    ensures
        lan_kept(list).contains(ep) || lan_kept(list).len() >= 4,
    decreases list.len() - i,
{
    if i == list.len() {
        assert(list.take(i) =~= list);
    } else {
        let kept = lan_kept(list.take(i));
        let t = list.take(i + 1);
        assert(t.drop_last() =~= list.take(i));
        let next = lan_kept(t);
        if kept.contains(ep) {
            let k = choose|k: int| 0 <= k < kept.len() && kept[k] == ep;
            assert(next[k] == ep);
        }
        lemma_lan_grows(list, i + 1, ep);
    }
}

/// A private address with a port is kept of a local list unless four others
/// are; a public one never is.
pub proof fn law_private_endpoints_are_kept(
    list: Seq<Seq<char>>,
    i: int,
    a: nat,
    b: nat,
    c: nat,
    d: nat,
    port: nat,
)
    requires
        0 <= i < list.len(),
        list[i] == endpoint(quad(a, b, c, d), port),
        byte_len(list[i]) <= 64,
        a < 256,
        b < 256,
        c < 256,
        d < 256,
        0 < port < 65536,
    ensures
        private_numbers(a, b) ==> lan_kept(list).contains(list[i]) || lan_kept(list).len() == 4,
        !private_numbers(a, b) ==> lan_kept(list) == lan_kept(list.remove(i)),
{
    let ep = list[i];
    let before = lan_kept(list.take(i));
    let t = list.take(i + 1);
    assert(t.drop_last() =~= list.take(i));
    assert(t.last() == ep);
    lemma_lan_step(before, a, b, c, d, port);
    if private_numbers(a, b) {
        if before.len() >= 4 {
            assert(lan_kept(t) == before);
        }
        lemma_lan_grows(list, i + 1, ep);
        super::input::law_lan_endpoints_bounded(list);
    } else {
        lemma_lan_without(list, i, list.len() as int);
    }
}

/// An item that adds nothing may be left out.
proof fn lemma_lan_without(list: Seq<Seq<char>>, i: int, n: int)
    requires
        0 <= i < n <= list.len(),
        lan_kept(list.take(i + 1)) == lan_kept(list.take(i)),
    ensures
        lan_kept(list.take(n)) == lan_kept(list.remove(i).take(n - 1)),
        n == list.len() ==> lan_kept(list) == lan_kept(list.remove(i)),
    decreases n,
{
    let r = list.remove(i);
    if n == i + 1 {
        assert(r.take(i) =~= list.take(i));
    } else {
        lemma_lan_without(list, i, n - 1);
        assert(list.take(n).drop_last() =~= list.take(n - 1));
        assert(r.take(n - 1).drop_last() =~= r.take(n - 2));
        assert(list.take(n).last() == r.take(n - 1).last());
    }
    if n == list.len() {
        assert(list.take(n) =~= list);
        assert(r.take(n - 1) =~= r);
    }
}

} // verus!
