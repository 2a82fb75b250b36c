//! What comes in: the message fields and the rules that clean them.

use crate::chat_filter::{ChatFilter, FilterView};
use crate::json::Json;
use crate::names::{is_refused, refused, sanitize, sanitized};
use crate::text::{
    byte_len, cat3, chars_of, control, cut_last, dec, decimal, is_control, longer_than, lower,
    lowered, opt_view, parse, parsed, pieces, rsplit_once, same, split, starts, starts_with,
    strip_prefix, stripped, trim, trim_lower, trimmed, value_of, views,
};
use vstd::prelude::*;
use vstd::string::*;

verus! {

/// One title of an automatch ticket.
pub struct InTitle {
    pub game_name: String,
    pub game_version: String,
    pub disc_fp: String,
    pub ruleset_id: String,
    pub max_slots: Option<usize>,
}

/// One message of a client. `op` says what it asks for; the other fields are
/// there or not.
pub struct InMsg {
    pub op: String,
    pub display_name: Option<String>,
    pub session: Option<String>,
    pub name: Option<String>,
    pub game_name: Option<String>,
    pub game_version: Option<String>,
    pub disc_fp: Option<String>,
    pub password: Option<String>,
    pub max_slots: Option<u32>,
    pub allow_spectators: Option<bool>,
    pub host_bind: Option<String>,
    pub host_endpoint: Option<String>,
    pub lan_endpoints: Option<Vec<String>>,
    pub guest_bind: Option<String>,
    pub lobby_id: Option<String>,
    pub to_player_id: Option<String>,
    pub kind: Option<i32>,
    pub flag: Option<i32>,
    pub text: Option<String>,
    pub ready: Option<bool>,
    pub bios_offer: Option<Json>,
    pub mod_offer: Option<Json>,
    pub memcard_offer: Option<Json>,
    pub match_caps: Option<Json>,
    pub slot: Option<usize>,
    pub from_slot: Option<usize>,
    pub target_slot: Option<usize>,
    pub accept: Option<bool>,
    pub asker_player_id: Option<String>,
    pub to_slot: Option<usize>,
    pub path: Option<String>,
    pub error: Option<String>,
    pub titles: Option<Vec<InTitle>>,
    pub ruleset_id: Option<String>,
    pub mods_enabled: Option<bool>,
    pub mod_exempt: Option<Vec<String>>,
    pub tick: Option<i64>,
    pub partition: Option<String>,
    pub mine: Option<String>,
    pub theirs: Option<String>,
    pub role: Option<String>,
    pub mod_exempt_text: Option<String>,
    pub mid: Option<String>,
    pub mids: Option<Vec<String>>,
    pub game: Option<String>,
    pub platform: Option<String>,
    pub server: Option<String>,
    pub lobby: Option<String>,
    pub scope: Option<String>,
    pub reason: Option<String>,
    pub note: Option<String>,
    pub match_id: Option<String>,
    pub rtt_ms: Option<i64>,
}

/// A message that asks for `op` and says nothing else.
pub fn bare(op: &str) -> (r: InMsg)
    ensures
        r.op@ == op@,
        r == (InMsg {
            op: r.op,
            display_name: None,
            session: None,
            name: None,
            game_name: None,
            game_version: None,
            disc_fp: None,
            password: None,
            max_slots: None,
            allow_spectators: None,
            host_bind: None,
            host_endpoint: None,
            lan_endpoints: None,
            guest_bind: None,
            lobby_id: None,
            to_player_id: None,
            kind: None,
            flag: None,
            text: None,
            ready: None,
            bios_offer: None,
            mod_offer: None,
            memcard_offer: None,
            match_caps: None,
            slot: None,
            from_slot: None,
            target_slot: None,
            accept: None,
            asker_player_id: None,
            to_slot: None,
            path: None,
            error: None,
            titles: None,
            ruleset_id: None,
            mods_enabled: None,
            mod_exempt: None,
            tick: None,
            partition: None,
            mine: None,
            theirs: None,
            role: None,
            mod_exempt_text: None,
            mid: None,
            mids: None,
            game: None,
            platform: None,
            server: None,
            lobby: None,
            scope: None,
            reason: None,
            note: None,
            match_id: None,
            rtt_ms: None,
        }),
{
    InMsg {
        op: op.to_owned(),
        display_name: None,
        session: None,
        name: None,
        game_name: None,
        game_version: None,
        disc_fp: None,
        password: None,
        max_slots: None,
        allow_spectators: None,
        host_bind: None,
        host_endpoint: None,
        lan_endpoints: None,
        guest_bind: None,
        lobby_id: None,
        to_player_id: None,
        kind: None,
        flag: None,
        text: None,
        ready: None,
        bios_offer: None,
        mod_offer: None,
        memcard_offer: None,
        match_caps: None,
        slot: None,
        from_slot: None,
        target_slot: None,
        accept: None,
        asker_player_id: None,
        to_slot: None,
        path: None,
        error: None,
        titles: None,
        ruleset_id: None,
        mods_enabled: None,
        mod_exempt: None,
        tick: None,
        partition: None,
        mine: None,
        theirs: None,
        role: None,
        mod_exempt_text: None,
        mid: None,
        mids: None,
        game: None,
        platform: None,
        server: None,
        lobby: None,
        scope: None,
        reason: None,
        note: None,
        match_id: None,
        rtt_ms: None,
    }
}

// --------------------------------------------------------------- the name rules

/// Bytes a password may take.
pub const PASSWORD_MAX_BYTES: usize = 128;

/// A password that no honest client can produce.
pub open spec fn bad_password(pw: Seq<char>) -> bool {
    byte_len(pw) > PASSWORD_MAX_BYTES || exists|i: int|
        0 <= i < pw.len() && is_control(#[trigger] pw[i])
}

pub fn password_is_invalid(pw: &str) -> (r: bool)
    ensures
        r == bad_password(pw@),
{
    if longer_than(pw, PASSWORD_MAX_BYTES) {
        return true;
    }
    let v = chars_of(pw);
    let mut i: usize = 0;
    while i < v.len()
        invariant
            i <= v@.len(),
            v@ == pw@,
            forall|k: int| 0 <= k < i ==> !is_control(#[trigger] v@[k]),
        decreases v@.len() - i,
    {
        if control(v[i]) {
            proof {
                assert(is_control(pw@[i as int]));
            }
            return true;
        }
        i = i + 1;
    }
    false
}

/// Why a message is turned away, the cleaned names and the password given.
pub open spec fn gate(
    filter: FilterView,
    display_name: Option<Seq<char>>,
    name: Option<Seq<char>>,
    password: Option<Seq<char>>,
) -> Option<Seq<char>> {
    if display_name is Some && refused(filter, display_name->0) {
        Some("name_rejected"@)
    } else if name is Some && refused(filter, name->0) {
        Some("lobby_name_rejected"@)
    } else if password is Some && bad_password(password->0) {
        Some("password_invalid"@)
    } else {
        None
    }
}

impl InMsg {
    /// Every client-supplied name is cleaned or refused here, once, before any
    /// handler runs. A code refuses the whole message.
    ///
    /// A title is a scoping key, not prose: it gets the hygiene pass and
    /// nothing more. A password is validated, never rewritten.
    pub fn sanitize_in_place(&mut self, filter: &ChatFilter) -> (r: Option<&'static str>)
        requires
            filter@.wf(),
        ensures
            opt_view(final(self).display_name) == sanitized(opt_view(old(self).display_name)),
            opt_view(final(self).name) == sanitized(opt_view(old(self).name)),
            opt_view(final(self).game_name) == sanitized(opt_view(old(self).game_name)),
            *final(self) == (InMsg {
                display_name: final(self).display_name,
                name: final(self).name,
                game_name: final(self).game_name,
                ..*old(self)
            }),
            super::wire::opt_str(r) == gate(
                filter@,
                sanitized(opt_view(old(self).display_name)),
                sanitized(opt_view(old(self).name)),
                opt_view(old(self).password),
            ),
    {
        self.display_name = sanitize(self.display_name.take());
        self.name = sanitize(self.name.take());
        self.game_name = sanitize(self.game_name.take());
        if let Some(n) = &self.display_name {
            if is_refused(filter, n.as_str()) {
                return Some("name_rejected");
            }
        }
        if let Some(n) = &self.name {
            if is_refused(filter, n.as_str()) {
                return Some("lobby_name_rejected");
            }
        }
        if let Some(pw) = &self.password {
            if password_is_invalid(pw.as_str()) {
                return Some("password_invalid");
            }
        }
        None
    }
}

/// The text of an optional field, empty where it is not there.
pub open spec fn text_or_empty(o: Option<String>) -> Seq<char> {
    match o {
        Some(s) => s@,
        None => Seq::empty(),
    }
}

pub fn or_empty(o: &Option<String>) -> (r: String)
    ensures
        r@ == text_or_empty(*o),
{
    match o {
        Some(s) => s.clone(),
        None => String::new(),
    }
}

/// The text of an optional field that is there and not empty.
pub open spec fn nonempty(o: Option<Seq<char>>) -> Option<Seq<char>> {
    match o {
        Some(s) => if s.len() == 0 {
            None
        } else {
            Some(s)
        },
        None => None,
    }
}

pub fn if_nonempty(o: &Option<String>) -> (r: Option<String>)
    ensures
        opt_view(r) == nonempty(opt_view(*o)),
{
    match o {
        Some(s) => if s.as_str().is_empty() {
            None
        } else {
            Some(s.clone())
        },
        None => None,
    }
}

/// The text of a field that is there and not empty, or else `default`.
pub open spec fn text_or(o: Option<Seq<char>>, default: Seq<char>) -> Seq<char> {
    match nonempty(o) {
        Some(s) => s,
        None => default,
    }
}

pub fn or_default(o: &Option<String>, default: &str) -> (r: String)
    ensures
        r@ == text_or(opt_view(*o), default@),
{
    match o {
        Some(s) => if s.as_str().is_empty() {
            default.to_owned()
        } else {
            s.clone()
        },
        None => default.to_owned(),
    }
}

// ------------------------------------------------------ versions and discs

pub open spec fn hex_digit(c: char) -> bool {
    crate::text::digit_value(c) is Some
}

/// A disc fingerprint: 64 hexadecimal digits in lower case, or empty.
pub open spec fn disc_fingerprint(v: Option<Seq<char>>) -> Seq<char> {
    match v {
        Some(raw) => {
            let s = lowered(trimmed(raw));
            if s.len() == 64 && (forall|i: int| 0 <= i < s.len() ==> hex_digit(#[trigger] s[i])) {
                s
            } else {
                Seq::empty()
            }
        },
        None => Seq::empty(),
    }
}

pub fn normalize_disc_fp(v: &Option<String>) -> (r: String)
    ensures
        r@ == disc_fingerprint(opt_view(*v)),
{
    let raw = match v {
        Some(s) => s,
        None => {
            return String::new();
        },
    };
    let s = trim_lower(raw.as_str());
    let c = chars_of(s.as_str());
    if c.len() != 64 {
        return String::new();
    }
    let mut i: usize = 0;
    while i < c.len()
        invariant
            i <= c@.len(),
            c@ == lowered(trimmed(raw@)),
            opt_view(*v) == Some(raw@),
            c@.len() == 64,
            forall|k: int| 0 <= k < i ==> hex_digit(#[trigger] c@[k]),
        decreases c@.len() - i,
    {
        if value_of(c[i]).is_none() {
            proof {
                assert(!hex_digit(c@[i as int]));
            }
            return String::new();
        }
        i = i + 1;
    }
    s
}

/// Two fingerprints clash, where at least one side gives one.
pub open spec fn discs_clash(a: Seq<char>, b: Seq<char>) -> bool {
    !(a.len() == 0 && b.len() == 0) && a != b
}

pub fn disc_fp_mismatch(lobby_fp: &str, join_fp: &str) -> (r: bool)
    ensures
        r == discs_clash(lobby_fp@, join_fp@),
{
    if lobby_fp.is_empty() && join_fp.is_empty() {
        return false;
    }
    !same(lobby_fp, join_fp)
}

/// The version, trimmed; `dev` where there is none.
pub open spec fn version_of(v: Option<Seq<char>>) -> Seq<char> {
    match v {
        Some(s) => if trimmed(s).len() == 0 {
            "dev"@
        } else {
            trimmed(s)
        },
        None => "dev"@,
    }
}

pub fn normalize_game_version(v: &Option<String>) -> (r: String)
    ensures
        r@ == version_of(opt_view(*v)),
{
    match v {
        Some(s) => {
            let t = trim(s.as_str());
            if t.as_str().is_empty() {
                "dev".to_owned()
            } else {
                t
            }
        },
        None => "dev".to_owned(),
    }
}

// ------------------------------------------------------------- endpoints

/// A host part that stands for every address.
pub open spec fn unbound(host: Seq<char>) -> bool {
    host.len() == 0 || host == "0.0.0.0"@ || host == "*"@ || host == "::"@
}

fn is_unbound(host: &str) -> (r: bool)
    ensures
        r == unbound(host@),
{
    host.is_empty() || same(host, "0.0.0.0") || same(host, "*") || same(host, "::")
}

/// `bind` with the peer's address in the place of an unbound host.
pub open spec fn rewritten(bind: Seq<char>, peer_ip: Seq<char>) -> Seq<char> {
    match cut_last(bind, ':') {
        Some((host, port)) => {
            let h = if unbound(host) {
                if peer_ip.len() == 0 {
                    "127.0.0.1"@
                } else {
                    peer_ip
                }
            } else {
                host
            };
            h + ":"@ + port
        },
        None => bind,
    }
}

pub fn rewrite_endpoint(bind: &str, peer_ip: &str) -> (r: String)
    ensures
        r@ == rewritten(bind@, peer_ip@),
{
    match rsplit_once(bind, ':') {
        Some((host, port)) => {
            if is_unbound(host.as_str()) {
                if peer_ip.is_empty() {
                    cat3("127.0.0.1", ":", port.as_str())
                } else {
                    cat3(peer_ip, ":", port.as_str())
                }
            } else {
                cat3(host.as_str(), ":", port.as_str())
            }
        },
        None => bind.to_owned(),
    }
}

/// A character that no advertised host may hold.
pub open spec fn bad_host_char(c: char) -> bool {
    c == ' ' || c == '"' || c == '\'' || c == '{' || c == '}' || c == '\\'
}

pub open spec fn bad_host(host: Seq<char>) -> bool {
    unbound(host) || exists|i: int| 0 <= i < host.len() && bad_host_char(#[trigger] host[i])
}

fn is_bad_host(host: &str) -> (r: bool)
    ensures
        r == bad_host(host@),
{
    if is_unbound(host) {
        return true;
    }
    let v = chars_of(host);
    let mut i: usize = 0;
    while i < v.len()
        invariant
            i <= v@.len(),
            v@ == host@,
            forall|k: int| 0 <= k < i ==> !bad_host_char(#[trigger] v@[k]),
        decreases v@.len() - i,
    {
        let c: char = v[i];
        if matches!(c, ' ' | '"' | '\'' | '{' | '}' | '\\') {
            proof {
                assert(bad_host_char(host@[i as int]));
            }
            return true;
        }
        i = i + 1;
    }
    false
}

/// The endpoint that a host may advertise: `host:port`, the port not 0.
pub open spec fn advertised(raw: Seq<char>) -> Option<Seq<char>> {
    let ep = trimmed(raw);
    if ep.len() == 0 || byte_len(ep) > 64 {
        None
    } else {
        match cut_last(ep, ':') {
            Some((host, port)) => if bad_host(host) {
                None
            } else {
                match parsed(port, 10, 65535) {
                    Some(n) => if n == 0 {
                        None
                    } else {
                        Some(host + ":"@ + decimal(n as nat))
                    },
                    None => None,
                }
            },
            None => None,
        }
    }
}

/// Validates a host-advertised UDP endpoint for list and waiting-room RTT.
pub fn parse_advertise_endpoint(raw: &str) -> (r: Option<String>)
    ensures
        opt_view(r) == advertised(raw@),
{
    let ep = trim(raw);
    if ep.as_str().is_empty() || longer_than(ep.as_str(), 64) {
        return None;
    }
    match rsplit_once(ep.as_str(), ':') {
        Some((host, port)) => {
            if is_bad_host(host.as_str()) {
                return None;
            }
            match parse(port.as_str(), 10, 65535) {
                Some(n) => {
                    if n == 0 {
                        return None;
                    }
                    let d = dec(n);
                    Some(cat3(host.as_str(), ":", d.as_str()))
                },
                None => None,
            }
        },
        None => None,
    }
}

pub open spec fn octet(s: Seq<char>) -> Option<int> {
    parsed(s, 10, 255)
}

/// A dotted quad of a private network.
pub open spec fn private_host(host: Seq<char>) -> bool {
    let p = pieces(host, '.');
    &&& p.len() == 4
    &&& octet(p[0]) is Some && octet(p[1]) is Some && octet(p[2]) is Some && octet(p[3]) is Some
    &&& octet(p[0])->0 == 10 || (octet(p[0])->0 == 172 && 16 <= octet(p[1])->0 <= 31) || (octet(
        p[0],
    )->0 == 192 && octet(p[1])->0 == 168)
}

pub fn is_rfc1918_host(host: &str) -> (r: bool)
    ensures
        r == private_host(host@),
{
    let parts = split(host, '.');
    proof {
        assert(forall|i: int| 0 <= i < parts@.len() ==> #[trigger] views(parts@)[i] == parts@[i]@);
    }
    if parts.len() != 4 {
        return false;
    }
    let a = parse(parts[0].as_str(), 10, 255);
    let b = parse(parts[1].as_str(), 10, 255);
    let c = parse(parts[2].as_str(), 10, 255);
    let d = parse(parts[3].as_str(), 10, 255);
    if c.is_none() || d.is_none() {
        return false;
    }
    match (a, b) {
        (Some(a), Some(b)) => a == 10 || (a == 172 && 16 <= b && b <= 31) || (a == 192 && b == 168),
        _ => false,
    }
}

/// The address, trimmed, without the prefix of a mapped IPv4 address.
pub open spec fn unmapped(ip: Seq<char>) -> Seq<char> {
    match stripped(trimmed(ip), "::ffff:"@) {
        Some(s) => s,
        None => trimmed(ip),
    }
}

pub fn normalize_ws_peer_v4(ip: &str) -> (r: String)
    ensures
        r@ == unmapped(ip@),
{
    let h = trim(ip);
    match strip_prefix(h.as_str(), "::ffff:") {
        Some(s) => s,
        None => h,
    }
}

/// A peer on the local network, or on this very host.
pub open spec fn local_peer(ip: Seq<char>) -> bool {
    let h = trimmed(ip);
    h.len() > 0 && (h == "::1"@ || lowered(h) == "localhost"@ || starts(h, "127."@)
        || private_host(unmapped(h)))
}

pub fn is_local_ws_peer_ip(ip: &str) -> (r: bool)
    ensures
        r == local_peer(ip@),
{
    let h = trim(ip);
    if h.as_str().is_empty() {
        return false;
    }
    let l = lower(h.as_str());
    if same(h.as_str(), "::1") || same(l.as_str(), "localhost") || starts_with(h.as_str(), "127.") {
        return true;
    }
    let v4 = normalize_ws_peer_v4(h.as_str());
    is_rfc1918_host(v4.as_str())
}

/// A peer on the local network that did not come in through the gateway.
pub open spec fn direct_peer(ip: Seq<char>, gateway: Option<Seq<char>>) -> bool {
    local_peer(ip) && (gateway is Some && trimmed(gateway->0).len() > 0 ==> unmapped(ip) != trimmed(
        gateway->0,
    ))
}

pub fn is_direct_lan_ws_peer(ip: &str, gateway: &Option<String>) -> (r: bool)
    ensures
        r == direct_peer(ip@, opt_view(*gateway)),
{
    if !is_local_ws_peer_ip(ip) {
        return false;
    }
    match gateway {
        Some(g) => {
            let gw = trim(g.as_str());
            if gw.as_str().is_empty() {
                return true;
            }
            let v4 = normalize_ws_peer_v4(ip);
            !same(v4.as_str(), gw.as_str())
        },
        None => true,
    }
}

/// The local endpoints kept so far, with one more item looked at.
pub open spec fn lan_step(kept: Seq<Seq<char>>, item: Seq<char>) -> Seq<Seq<char>> {
    if kept.len() >= 4 {
        kept
    } else {
        match advertised(item) {
            Some(ep) => {
                let host = match cut_last(ep, ':') {
                    Some((h, _p)) => h,
                    None => Seq::empty(),
                };
                if starts(host, "127."@) || host == "localhost"@ || !private_host(host)
                    || kept.contains(ep) {
                    kept
                } else {
                    kept.push(ep)
                }
            },
            None => kept,
        }
    }
}

/// The first four private endpoints of a list, none twice.
pub open spec fn lan_kept(list: Seq<Seq<char>>) -> Seq<Seq<char>>
    decreases list.len(),
{
    if list.len() == 0 {
        Seq::empty()
    } else {
        lan_step(lan_kept(list.drop_last()), list.last())
    }
}

/// Caps and validates a LAN advertise list (private addresses only).
pub fn sanitize_lan_endpoints(raw: &Option<Vec<String>>) -> (r: Vec<String>)
    ensures
        views(r@) == (match *raw {
            Some(list) => lan_kept(views(list@)),
            None => Seq::empty(),
        }),
{
    let mut out: Vec<String> = Vec::new();
    proof {
        assert(views(out@) =~= Seq::<Seq<char>>::empty());
    }
    let list = match raw {
        Some(l) => l,
        None => {
            return out;
        },
    };
    let ghost all = views(list@);
    let mut i: usize = 0;
    proof {
        assert(all.take(0) =~= Seq::<Seq<char>>::empty());
    }
    while i < list.len()
        invariant
            i <= list@.len(),
            all == views(list@),
            views(out@) == lan_kept(all.take(i as int)),
        decreases list@.len() - i,
    {
        proof {
            let t = all.take(i + 1);
            assert(t.drop_last() =~= all.take(i as int));
            assert(t.last() == list@[i as int]@);
        }
        if out.len() < 4 {
            if let Some(ep) = parse_advertise_endpoint(list[i].as_str()) {
                let host = match rsplit_once(ep.as_str(), ':') {
                    Some((h, _)) => h,
                    None => String::new(),
                };
                if !starts_with(host.as_str(), "127.") && !same(host.as_str(), "localhost")
                    && is_rfc1918_host(host.as_str()) && !crate::text::listed(&out, ep.as_str()) {
                    let ghost before = out@;
                    out.push(ep);
                    proof {
                        assert(views(out@) =~= views(before).push(ep@));
                    }
                }
            }
        }
        i = i + 1;
    }
    proof {
        assert(all.take(list@.len() as int) =~= all);
    }
    out
}

/// The path kind that a report names.
pub open spec fn path_kind(raw: Seq<char>) -> Option<Seq<char>> {
    let s = lowered(trimmed(raw));
    if s == "direct"@ || s == "host"@ || s == "srflx"@ || s == "prflx"@ {
        Some("direct"@)
    } else if s == "relay"@ {
        Some("relay"@)
    } else if s == "fail"@ || s == "failed"@ || s == "none"@ {
        Some("fail"@)
    } else {
        None
    }
}

pub fn normalize_ice_path(raw: &str) -> (r: Option<&'static str>)
    ensures
        super::wire::opt_str(r) == path_kind(raw@),
{
    let t = trim_lower(raw);
    let s = t.as_str();
    if same(s, "direct") || same(s, "host") || same(s, "srflx") || same(s, "prflx") {
        Some("direct")
    } else if same(s, "relay") {
        Some("relay")
    } else if same(s, "fail") || same(s, "failed") || same(s, "none") {
        Some("fail")
    } else {
        None
    }
}

/// The address to attribute a connection to: the first entry of the forwarded
/// header where the proxy is trusted, else the peer.
pub open spec fn client_address(header: Option<Seq<char>>, peer: Seq<char>, trust: bool) -> Seq<char> {
    if trust && header is Some && trimmed(pieces(header->0, ',')[0]).len() > 0 {
        trimmed(pieces(header->0, ',')[0])
    } else {
        peer
    }
}

pub fn client_ip_for(header: Option<&str>, peer: &str, trust_proxy: bool) -> (r: String)
    ensures
        r@ == client_address(super::wire::opt_str(header), peer@, trust_proxy),
{
    if trust_proxy {
        if let Some(fwd) = header {
            let parts = split(fwd, ',');
            proof {
                assert(views(parts@)[0] == parts@[0]@);
            }
            let first = trim(parts[0].as_str());
            if !first.as_str().is_empty() {
                return first;
            }
        }
    }
    peer.to_owned()
}

// ------------------------------------------------------------------- laws

/// A local endpoint list never grows past four, and never repeats one.
pub proof fn law_lan_endpoints_bounded(list: Seq<Seq<char>>)
    ensures
        lan_kept(list).len() <= 4,
        lan_kept(list).no_duplicates(),
    decreases list.len(),
{
    if list.len() > 0 {
        law_lan_endpoints_bounded(list.drop_last());
        let kept = lan_kept(list.drop_last());
        let next = lan_kept(list);
        if next != kept {
            assert forall|i: int, j: int| 0 <= i < next.len() && 0 <= j < next.len() && i
                != j implies next[i] != next[j] by {
                if i < kept.len() && j == kept.len() {
                    assert(kept.contains(kept[i]));
                }
                if j < kept.len() && i == kept.len() {
                    assert(kept.contains(kept[j]));
                }
            }
        }
    }
}

/// A forwarded header counts for nothing unless the proxy is trusted.
pub proof fn law_untrusted_header_is_ignored(header: Option<Seq<char>>, peer: Seq<char>)
    ensures
        client_address(header, peer, false) == peer,
{
}

} // verus!
