//! This host's public IPv4 address, asked of a STUN server (RFC 5389 Binding).
//!
//! Used where no public host is configured, so that the input relay never
//! advertises a loopback address to remote peers.

use crate::config::{var, Env};
use crate::find::{first_where, lemma_first_is, lemma_first_none};
use crate::outside::random_bytes;
use crate::text::{
    cat3, dec, decimal, lowered, parse, parsed, same, starts, starts_with, trim, trim_lower,
    trimmed, views,
};
use vstd::prelude::*;
use vstd::string::*;

verus! {

pub const STUN_MAGIC: u32 = 0x2112_A442;

pub const STUN_BINDING_SUCCESS: u16 = 0x0101;

pub const STUN_ATTR_MAPPED_ADDRESS: u16 = 0x0001;

pub const STUN_ATTR_XOR_MAPPED_ADDRESS: u16 = 0x0020;

pub const STUN_HEADER: usize = 20;

// ---------------------------------------------------------------- the host

/// Whether a host is empty or leads back to this machine.
pub open spec fn loopback_host(host: Seq<char>) -> bool {
    let h = lowered(trimmed(host));
    h.len() == 0 || h == "127.0.0.1"@ || h == "::1"@ || h == "localhost"@ || starts(h, "127."@)
}

/// True when `host` is empty, loopback, or otherwise unsafe to advertise.
pub fn advertise_host_needs_public(host: &str) -> (r: bool)
    ensures
        r == loopback_host(host@),
{
    let h = trim_lower(host);
    h.as_str().is_empty() || same(h.as_str(), "127.0.0.1") || same(h.as_str(), "::1") || same(
        h.as_str(),
        "localhost",
    ) || starts_with(h.as_str(), "127.")
}

pub proof fn lemma_empty_is_loopback(host: Seq<char>)
    ensures
        host.len() == 0 ==> loopback_host(host),
{
    if host.len() == 0 {
        assert(crate::text::trimmed_start(host).len() == 0);
        assert(trimmed(host).len() == 0);
    }
}

// ----------------------------------------------------------- the endpoints

/// The endpoint that a setting names, where it names one.
pub open spec fn endpoint_of(e: Seq<(Seq<char>, Seq<char>)>, key: Seq<char>) -> Option<Seq<char>> {
    match var(e, key) {
        Some(raw) => {
            let t = trimmed(raw);
            if t.len() == 0 {
                None
            } else if t.contains(':') {
                Some(t)
            } else {
                let port = match var(e, "COTURN_STUN_PORT"@) {
                    Some(p) => match parsed(p, 10, 65535) {
                        Some(n) => n,
                        None => 3478,
                    },
                    None => 3478,
                };
                Some(t + ":"@ + decimal(port as nat))
            }
        },
        None => None,
    }
}

pub open spec fn one_or_none(o: Option<Seq<char>>) -> Seq<Seq<char>> {
    match o {
        Some(s) => seq![s],
        None => Seq::empty(),
    }
}

/// The servers to ask, in their order.
pub open spec fn stun_endpoints(e: Seq<(Seq<char>, Seq<char>)>) -> Seq<Seq<char>> {
    one_or_none(endpoint_of(e, "INPUT_RELAY_STUN"@)) + one_or_none(
        endpoint_of(e, "COTURN_STUN_HOST"@),
    ) + one_or_none(endpoint_of(e, "COTURN_HOST"@)) + seq!["stun.l.google.com:19302"@]
}

fn holds_colon(s: &str) -> (r: bool)
    ensures
        r == s@.contains(':'),
{
    let v = crate::text::chars_of(s);
    let mut i: usize = 0;
    while i < v.len()
        invariant
            i <= v@.len(),
            v@ == s@,
            forall|k: int| 0 <= k < i ==> v@[k] != ':',
        decreases v@.len() - i,
    {
        if v[i] == ':' {
            return true;
        }
        i = i + 1;
    }
    false
}

fn endpoint_from(env: &Env, key: &str) -> (r: Option<String>)
    ensures
        crate::text::opt_view(r) == endpoint_of(env@, key@),
{
    match env.get(key) {
        Some(raw) => {
            let t = trim(raw.as_str());
            if t.as_str().is_empty() {
                return None;
            }
            if holds_colon(t.as_str()) {
                return Some(t);
            }
            let port: u64 = match env.get("COTURN_STUN_PORT") {
                Some(p) => match parse(p.as_str(), 10, 65535) {
                    Some(n) => n,
                    None => 3478,
                },
                None => 3478,
            };
            let d = dec(port);
            Some(cat3(t.as_str(), ":", d.as_str()))
        },
        None => None,
    }
}

fn add_endpoint(out: &mut Vec<String>, o: Option<String>)
    ensures
        views(final(out)@) == views(old(out)@) + one_or_none(crate::text::opt_view(o)),
{
    let ghost before = out@;
    if let Some(s) = o {
        out.push(s);
    }
    proof {
        assert(views(out@) =~= views(before) + one_or_none(crate::text::opt_view(o)));
    }
}

/// The STUN servers of the settings, then a public one.
pub fn stun_endpoints_from_env(env: &Env) -> (r: Vec<String>)
    ensures
        views(r@) == stun_endpoints(env@),
{
    let mut out: Vec<String> = Vec::new();
    add_endpoint(&mut out, endpoint_from(env, "INPUT_RELAY_STUN"));
    add_endpoint(&mut out, endpoint_from(env, "COTURN_STUN_HOST"));
    add_endpoint(&mut out, endpoint_from(env, "COTURN_HOST"));
    add_endpoint(&mut out, Some("stun.l.google.com:19302".to_owned()));
    proof {
        assert(views(out@) =~= stun_endpoints(env@));
    }
    out
}

// ----------------------------------------------------------- the discovery

/// How a discovery goes on.
pub enum Discovery {
    /// This is the address.
    Found(String),
    /// The server at this place of the list is to be asked next.
    Ask(usize),
    /// No server helped; this is why the last one did not.
    Failed(String),
}

pub open spec fn answers_view(v: Seq<Result<String, String>>) -> Seq<Result<Seq<char>, Seq<char>>> {
    v.map_values(
        |a: Result<String, String>|
            match a {
                Ok(ip) => Ok(ip@),
                Err(e) => Err(e@),
            },
    )
}

/// Asks one server after the other, `servers` in all, until one names the
/// address. `answers` is what those asked so far said, in order.
pub fn discover_ipv4(servers: usize, answers: &Vec<Result<String, String>>) -> (r: Discovery)
    ensures
        ({
            let all = answers_view(answers@);
            match first_where(all, |a: Result<Seq<char>, Seq<char>>| a is Ok) {
                Some(i) => r matches Discovery::Found(ip) && all[i] == Ok::<Seq<char>, Seq<char>>(
                    ip@,
                ),
                None => if all.len() < servers {
                    r matches Discovery::Ask(k) && k == all.len()
                } else {
                    r matches Discovery::Failed(why) && why@ == (if all.len() == 0 {
                        "no STUN endpoints"@
                    } else {
                        all.last()->Err_0
                    })
                },
            }
        }),
{
    let ghost all = answers_view(answers@);
    let ghost good = |a: Result<Seq<char>, Seq<char>>| a is Ok;
    let mut i: usize = 0;
    while i < answers.len()
        invariant
            i <= answers@.len(),
            all == answers_view(answers@),
            good == (|a: Result<Seq<char>, Seq<char>>| a is Ok),
            forall|k: int| 0 <= k < i ==> !good(#[trigger] all[k]),
        decreases answers@.len() - i,
    {
        match &answers[i] {
            Ok(ip) => {
                proof {
                    assert(all[i as int] == Ok::<Seq<char>, Seq<char>>(ip@));
                    lemma_first_is(all, good, i as int);
                }
                return Discovery::Found(ip.clone());
            },
            Err(_) => {
                proof {
                    assert(all[i as int] is Err);
                }
            },
        }
        i = i + 1;
    }
    proof {
        lemma_first_none(all, good);
    }
    if answers.len() < servers {
        return Discovery::Ask(answers.len());
    }
    if answers.len() == 0 {
        return Discovery::Failed("no STUN endpoints".to_owned());
    }
    match &answers[answers.len() - 1] {
        Err(e) => {
            proof {
                assert(all.last() == Err::<Seq<char>, Seq<char>>(e@));
            }
            Discovery::Failed(e.clone())
        },
        Ok(_) => {
            proof {
                assert(good(all[answers@.len() - 1]));
            }
            Discovery::Failed(String::new())
        },
    }
}

// ------------------------------------------------------------- the request

/// A Binding request under a transaction id.
pub open spec fn request(txid: Seq<u8>) -> Seq<u8> {
    seq![0x00u8, 0x01, 0x00, 0x00, 0x21, 0x12, 0xA4, 0x42] + txid
}

pub fn binding_request(txid: &Vec<u8>) -> (r: Vec<u8>)
    ensures
        r@ == request(txid@),
{
    let mut out: Vec<u8> = Vec::new();
    out.push(0x00);
    out.push(0x01);
    out.push(0x00);
    out.push(0x00);
    out.push(0x21);
    out.push(0x12);
    out.push(0xA4);
    out.push(0x42);
    let ghost head = out@;
    let mut i: usize = 0;
    while i < txid.len()
        invariant
            i <= txid@.len(),
            out@ == head + txid@.take(i as int),
            head == seq![0x00u8, 0x01, 0x00, 0x00, 0x21, 0x12, 0xA4, 0x42],
        decreases txid@.len() - i,
    {
        out.push(txid[i]);
        proof {
            assert(txid@.take(i + 1) =~= txid@.take(i as int).push(txid@[i as int]));
            assert(out@ =~= head + txid@.take(i + 1));
        }
        i = i + 1;
    }
    proof {
        assert(txid@.take(txid@.len() as int) =~= txid@);
    }
    out
}

/// A transaction id by chance, and the request under it.
pub fn new_request() -> (r: (Vec<u8>, Vec<u8>))
    ensures
        r.0@.len() == 12,
        r.1@ == request(r.0@),
        r.1@.len() == STUN_HEADER,
{
    let txid = random_bytes(12);
    let req = binding_request(&txid);
    (txid, req)
}

// --------------------------------------------------------------- the reply

pub open spec fn be16(b: Seq<u8>, off: int) -> int {
    256 * b[off] + b[off + 1]
}

pub open spec fn be32(b: Seq<u8>, off: int) -> int {
    16777216 * b[off] + 65536 * b[off + 1] + 256 * b[off + 2] + b[off + 3]
}

fn read_u16(b: &[u8], off: usize) -> (r: u16)
    requires
        off + 2 <= b@.len(),
    ensures
        r == be16(b@, off as int),
{
    256 * (b[off] as u16) + (b[off + 1] as u16)
}

fn read_u32(b: &[u8], off: usize) -> (r: u32)
    requires
        off + 4 <= b@.len(),
    ensures
        r == be32(b@, off as int),
{
    16777216 * (b[off] as u32) + 65536 * (b[off + 1] as u32) + 256 * (b[off + 2] as u32) + (b[off
        + 3] as u32)
}

/// An address that a host on the network can have.
pub open spec fn usable(addr: u32) -> bool {
    0 < addr / 16777216 < 224
}

pub fn ipv4_usable(addr: u32) -> (r: bool)
    ensures
        r == usable(addr),
{
    let first: u32 = addr / 16777216;
    first != 0 && first < 224
}

/// The address of the attribute at `off`, where it holds a usable one.
pub open spec fn attribute_address(p: Seq<u8>, off: int) -> Option<u32> {
    let kind = be16(p, off);
    let raw = be32(p, off + 8) as u32;
    let addr = if kind == STUN_ATTR_XOR_MAPPED_ADDRESS {
        raw ^ STUN_MAGIC
    } else {
        raw
    };
    if (kind == STUN_ATTR_MAPPED_ADDRESS || kind == STUN_ATTR_XOR_MAPPED_ADDRESS) && be16(
        p,
        off + 2,
    ) >= 8 && p[off + 5] == 0x01 && usable(addr) {
        Some(addr)
    } else {
        None
    }
}

/// Where the attribute behind the one at `off` starts.
pub open spec fn next_attribute(p: Seq<u8>, off: int) -> int {
    let len = be16(p, off + 2);
    off + 4 + len + (4 - (len % 4)) % 4
}

/// The last mapped and the last XOR-mapped address from `off` on, with those
/// found before; nothing where an attribute runs past the end.
pub open spec fn addresses(p: Seq<u8>, off: int, mapped: Option<u32>, xored: Option<u32>) -> Option<
    (Option<u32>, Option<u32>),
>
    decreases p.len() + 8 - off,
{
    if off + 4 > p.len() {
        Some((mapped, xored))
    } else if off + 4 + be16(p, off + 2) > p.len() {
        None
    } else {
        let a = attribute_address(p, off);
        let m = if a is Some && be16(p, off) == STUN_ATTR_MAPPED_ADDRESS {
            a
        } else {
            mapped
        };
        let x = if a is Some && be16(p, off) == STUN_ATTR_XOR_MAPPED_ADDRESS {
            a
        } else {
            xored
        };
        addresses(p, next_attribute(p, off), m, x)
    }
}

/// The four numbers of an address.
pub open spec fn dotted(addr: u32) -> Seq<char> {
    decimal((addr / 16777216) as nat) + "."@ + decimal(((addr / 65536) % 256) as nat) + "."@
        + decimal(((addr / 256) % 256) as nat) + "."@ + decimal((addr % 256) as nat)
}

/// What a reply says: an address, or why it says none.
pub open spec fn reply(p: Seq<u8>, txid: Seq<u8>) -> Result<Seq<char>, Seq<char>> {
    if p.len() < STUN_HEADER {
        Err("STUN response too short"@)
    } else if be16(p, 0) != STUN_BINDING_SUCCESS {
        Err("STUN not Binding success"@)
    } else if be32(p, 4) != STUN_MAGIC {
        Err("STUN bad magic cookie"@)
    } else if p.subrange(8, 20) != txid {
        Err("STUN transaction id mismatch"@)
    } else if be16(p, 2) + STUN_HEADER != p.len() || be16(p, 2) % 4 != 0 {
        Err("STUN bad message length"@)
    } else {
        match addresses(p, STUN_HEADER as int, None, None) {
            None => Err("STUN attribute overrun"@),
            Some((m, x)) => match (x, m) {
                (Some(a), _) => Ok(dotted(a)),
                (None, Some(a)) => Ok(dotted(a)),
                (None, None) => Err("STUN response missing mapped IPv4"@),
            },
        }
    }
}

pub fn dotted_quad(addr: u32) -> (r: String)
    ensures
        r@ == dotted(addr),
{
    let a = dec((addr / 16777216) as u64);
    let b = dec(((addr / 65536) % 256) as u64);
    let c = dec(((addr / 256) % 256) as u64);
    let d = dec((addr % 256) as u64);
    let mut out = cat3(a.as_str(), ".", b.as_str());
    out.append(".");
    out.append(c.as_str());
    out.append(".");
    out.append(d.as_str());
    out
}

fn read_address(p: &[u8], off: usize) -> (r: Option<u32>)
    requires
        p@.len() <= 65555,
        off + 4 + be16(p@, off + 2) <= p@.len(),
        off + 4 <= p@.len(),
    ensures
        r == attribute_address(p@, off as int),
{
    let kind: u16 = read_u16(p, off);
    let len: u16 = read_u16(p, off + 2);
    if (kind != STUN_ATTR_MAPPED_ADDRESS && kind != STUN_ATTR_XOR_MAPPED_ADDRESS) || len < 8 {
        return None;
    }
    if p[off + 5] != 0x01 {
        return None;
    }
    let raw: u32 = read_u32(p, off + 8);
    let addr: u32 = if kind == STUN_ATTR_XOR_MAPPED_ADDRESS {
        raw ^ STUN_MAGIC
    } else {
        raw
    };
    if ipv4_usable(addr) {
        Some(addr)
    } else {
        None
    }
}

fn same_id(p: &[u8], txid: &[u8]) -> (r: bool)
    requires
        p@.len() >= 20,
    ensures
        r == (p@.subrange(8, 20) == txid@),
{
    if txid.len() != 12 {
        return false;
    }
    let ghost got = p@.subrange(8, 20);
    let mut i: usize = 0;
    while i < 12
        invariant
            i <= 12,
            p@.len() >= 20,
            txid@.len() == 12,
            got == p@.subrange(8, 20),
            forall|k: int| 0 <= k < i ==> got[k] == txid@[k],
        decreases 12 - i,
    {
        if p[8 + i] != txid[i] {
            proof {
                assert(got[i as int] != txid@[i as int]);
            }
            return false;
        }
        i = i + 1;
    }
    proof {
        assert(got =~= txid@);
    }
    true
}

/// The address in a Binding reply: the XOR-mapped one, or else the mapped one.
pub fn parse_binding_ipv4(packet: &[u8], txid: &[u8]) -> (r: Result<String, &'static str>)
    ensures
        match (r, reply(packet@, txid@)) {
            (Ok(a), Ok(b)) => a@ == b,
            (Err(a), Err(b)) => a@ == b,
            _ => false,
        },
{
    if packet.len() < STUN_HEADER {
        return Err("STUN response too short");
    }
    if read_u16(packet, 0) != STUN_BINDING_SUCCESS {
        return Err("STUN not Binding success");
    }
    if read_u32(packet, 4) != STUN_MAGIC {
        return Err("STUN bad magic cookie");
    }
    if !same_id(packet, txid) {
        return Err("STUN transaction id mismatch");
    }
    let msg_len: usize = read_u16(packet, 2) as usize;
    if msg_len + STUN_HEADER != packet.len() || msg_len % 4 != 0 {
        return Err("STUN bad message length");
    }
    let mut mapped: Option<u32> = None;
    let mut xored: Option<u32> = None;
    let mut off: usize = STUN_HEADER;
    while off + 4 <= packet.len()
        invariant
            packet@.len() <= 65555,
            off <= 65560,
            packet@.len() >= STUN_HEADER,
            addresses(packet@, STUN_HEADER as int, None, None) == addresses(
                packet@,
                off as int,
                mapped,
                xored,
            ),
            reply(packet@, txid@) == (match addresses(packet@, STUN_HEADER as int, None, None) {
                None => Err("STUN attribute overrun"@),
                Some((m, x)) => match (x, m) {
                    (Some(a), _) => Ok(dotted(a)),
                    (None, Some(a)) => Ok(dotted(a)),
                    (None, None) => Err("STUN response missing mapped IPv4"@),
                },
            }),
        decreases packet@.len() + 8 - off,
    {
        let kind: u16 = read_u16(packet, off);
        let len: usize = read_u16(packet, off + 2) as usize;
        if off + 4 + len > packet.len() {
            return Err("STUN attribute overrun");
        }
        if let Some(addr) = read_address(packet, off) {
            if kind == STUN_ATTR_XOR_MAPPED_ADDRESS {
                xored = Some(addr);
            } else {
                mapped = Some(addr);
            }
        }
        off = off + 4 + len + (4 - (len % 4)) % 4;
    }
    match xored {
        Some(a) => Ok(dotted_quad(a)),
        None => match mapped {
            Some(a) => Ok(dotted_quad(a)),
            None => Err("STUN response missing mapped IPv4"),
        },
    }
}

pub fn format_socket(ip: &str, port: u16) -> (r: String)
    ensures
        r@ == ip@ + ":"@ + decimal(port as nat),
{
    let d = dec(port as u64);
    cat3(ip, ":", d.as_str())
}

// -------------------------------------------------------------------- laws

/// A reply under another transaction id says nothing, whatever it holds.
pub proof fn law_foreign_reply_is_refused(p: Seq<u8>, txid: Seq<u8>)
    requires
        p.len() >= STUN_HEADER,
        p.subrange(8, 20) != txid,
    ensures
        reply(p, txid) is Err,
{
}

/// A reply of one XOR-mapped address.
pub open spec fn mapped_reply(txid: Seq<u8>, x0: u8, x1: u8, x2: u8, x3: u8) -> Seq<u8> {
    seq![0x01u8, 0x01, 0x00, 0x0C, 0x21, 0x12, 0xA4, 0x42] + txid + seq![
        0x00u8,
        0x20,
        0x00,
        0x08,
        0x00,
        0x01,
        0x00,
        0x00,
        x0,
        x1,
        x2,
        x3,
    ]
}

/// A reply names the address whose bytes, each masked with its byte of the
/// cookie, it carries; one that no host can have is refused.
pub proof fn law_a_reply_names_its_address(txid: Seq<u8>, x0: u8, x1: u8, x2: u8, x3: u8)
    requires
        txid.len() == 12,
    ensures
        ({
            let a = x0 ^ 0x21;
            let said = reply(mapped_reply(txid, x0, x1, x2, x3), txid);
            &&& 0 < a < 224 ==> said == Ok::<Seq<char>, Seq<char>>(
                decimal(a as nat) + "."@ + decimal((x1 ^ 0x12) as nat) + "."@ + decimal(
                    (x2 ^ 0xA4) as nat,
                ) + "."@ + decimal((x3 ^ 0x42) as nat),
            )
            &&& !(0 < a < 224) ==> said is Err
        }),
{
    let p = mapped_reply(txid, x0, x1, x2, x3);
    assert(p.len() == 32);
    assert(p.subrange(8, 20) =~= txid);
    assert(p[0] == 0x01 && p[1] == 0x01 && p[2] == 0x00 && p[3] == 0x0C);
    assert(p[4] == 0x21 && p[5] == 0x12 && p[6] == 0xA4 && p[7] == 0x42);
    assert(p[20] == 0x00 && p[21] == 0x20 && p[22] == 0x00 && p[23] == 0x08);
    assert(p[24] == 0x00 && p[25] == 0x01 && p[28] == x0 && p[29] == x1 && p[30] == x2 && p[31]
        == x3);
    let raw: u32 = be32(p, 28) as u32;
    assert(be32(p, 28) == 16777216 * x0 + 65536 * x1 + 256 * x2 + x3);
    let addr: u32 = raw ^ STUN_MAGIC;
    lemma_masked(x0, x1, x2, x3, raw);
    assert(next_attribute(p, 20) == 32);
    reveal_with_fuel(addresses, 2);
}

proof fn lemma_masked(x0: u8, x1: u8, x2: u8, x3: u8, raw: u32)
    requires
        raw == 16777216 * x0 + 65536 * x1 + 256 * x2 + x3,
    ensures
        ({
            let addr = raw ^ STUN_MAGIC;
            &&& addr / 16777216 == (x0 ^ 0x21) as u32
            &&& (addr / 65536) % 256 == (x1 ^ 0x12) as u32
            &&& (addr / 256) % 256 == (x2 ^ 0xA4) as u32
            &&& addr % 256 == (x3 ^ 0x42) as u32
        }),
{
    let a: u32 = x0 as u32;
    let b: u32 = x1 as u32;
    let c: u32 = x2 as u32;
    let d: u32 = x3 as u32;
    assert(((16777216u32 * a + 65536u32 * b + 256u32 * c + d) as u32 ^ 0x2112_A442u32) / 16777216u32
        == (x0 ^ 0x21u8) as u32 && (((16777216u32 * a + 65536u32 * b + 256u32 * c + d) as u32
        ^ 0x2112_A442u32) / 65536u32) % 256u32 == (x1 ^ 0x12u8) as u32 && (((16777216u32 * a
        + 65536u32 * b + 256u32 * c + d) as u32 ^ 0x2112_A442u32) / 256u32) % 256u32 == (x2
        ^ 0xA4u8) as u32 && ((16777216u32 * a + 65536u32 * b + 256u32 * c + d) as u32
        ^ 0x2112_A442u32) % 256u32 == (x3 ^ 0x42u8) as u32) by (bit_vector)
        requires
            a == x0 as u32,
            b == x1 as u32,
            c == x2 as u32,
            d == x3 as u32,
    ;
    assert(raw == (16777216u32 * a + 65536u32 * b + 256u32 * c + d) as u32);
}

} // verus!
