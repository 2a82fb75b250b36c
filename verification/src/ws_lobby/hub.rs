//! The hub as a whole: its connections, its counts and where its clients are.

use super::model::{no_one, ClientMeta, ClientView, HubInner, HubView, LobbyView};
use super::wire::{only, sent, Effect, effects};
use crate::address::{address, parse_address};
use crate::find::{lemma_first_is, lemma_first_none, lemma_first_where};
use crate::geo::{code_from, db_code, db_sound, file_codes, open_db, opt_bytes, opt_codes, GeoDb};
use crate::ip_country::{country, lookup, Ip, Table};
use crate::json::{empty_object, Json, JsonView};
use crate::metrics::{counts_view, GameCount};
use crate::outside::{new_uuid, uuid_shape};
use crate::tally::{tally, tally_names};
use crate::text::{cat, first_chars, take_chars, trimmed};
use vstd::prelude::*;
use vstd::string::*;

verus! {

/// The lobby hub, with the table that tells countries and the database that the
/// operator may have put on top of it.
pub struct WsLobbyHub {
    pub inner: HubInner,
    pub table: Option<Table>,
    pub geoip: Option<GeoDb>,
}

// ------------------------------------------------------------ the countries

/// Whether an address is private, of this machine, of the local link, or none.
pub open spec fn unroutable(ip: Ip) -> bool {
    match ip {
        Ip::V4(a) => {
            let top = a as int / 16777216;
            let second = a as int / 65536 % 256;
            top == 10 || (top == 172 && 16 <= second <= 31) || (top == 192 && second == 168) || top
                == 127 || (top == 169 && second == 254) || a == 0
        },
        Ip::V6(a) => {
            let first = a as int / 5192296858534827628530496329220096;
            a == 1 || a == 0 || (0xFC00 <= first <= 0xFDFF) || (0xFE80 <= first <= 0xFEBF)
        },
    }
}

fn is_unroutable(ip: Ip) -> (r: bool)
    ensures
        r == unroutable(ip),
{
    match ip {
        Ip::V4(a) => {
            let top: u32 = a / 16777216;
            let second: u32 = a / 65536 % 256;
            top == 10 || (top == 172 && 16 <= second && second <= 31) || (top == 192 && second
                == 168) || top == 127 || (top == 169 && second == 254) || a == 0
        },
        Ip::V6(a) => {
            let first: u128 = a / 5192296858534827628530496329220096;
            a == 1 || a == 0 || (0xFC00 <= first && first <= 0xFDFF) || (0xFE80 <= first && first
                <= 0xFEBF)
        },
    }
}

/// The country that the table gives an address.
pub open spec fn table_code(table: Option<Seq<u8>>, ip: Ip) -> Seq<char> {
    match table {
        Some(b) => match country(b, ip) {
            Some(c) => c,
            None => Seq::empty(),
        },
        None => Seq::empty(),
    }
}

/// The country of the address that a text writes: none for a text that writes
/// none and for an address that has none, else what the operator's database
/// says, else what the table says.
pub open spec fn flag_of(
    table: Option<Seq<u8>>,
    codes: Option<Map<Ip, Seq<char>>>,
    text: Seq<char>,
) -> Seq<char> {
    match address(trimmed(text)) {
        None => Seq::empty(),
        Some(a) => if unroutable(a) {
            Seq::empty()
        } else if db_code(codes, a).len() > 0 {
            db_code(codes, a)
        } else {
            table_code(table, a)
        },
    }
}

pub open spec fn blob_of(t: Option<Table>) -> Option<Seq<u8>> {
    match t {
        Some(t) => Some(t.blob@),
        None => None,
    }
}

// --------------------------------------------------------------- the counts

pub open spec fn lobby_titles(ls: Seq<LobbyView>) -> Seq<Seq<char>> {
    ls.map_values(|l: LobbyView| l.game_name)
}

/// The lobbies whose match has started.
pub open spec fn started_lobbies(ls: Seq<LobbyView>) -> Seq<LobbyView>
    decreases ls.len(),
{
    if ls.len() == 0 {
        Seq::empty()
    } else if ls.last().started {
        started_lobbies(ls.drop_last()).push(ls.last())
    } else {
        started_lobbies(ls.drop_last())
    }
}

impl WsLobbyHub {
    pub open spec fn wf(&self) -> bool {
        &&& self.inner@.wf()
        &&& self.table is Some ==> self.table->0.wf()
        &&& db_sound(self.geoip)
    }

    /// An empty hub without a table.
    pub fn new() -> (r: WsLobbyHub)
        ensures
            r.wf(),
            r.inner@ == no_one(),
            r.table is None,
            r.geoip is None,
    {
        WsLobbyHub { inner: HubInner::default(), table: None, geoip: None }
    }

    /// An empty hub with the table that some bytes are, and with the database
    /// that some others are. Bytes that are no table, no database or a damaged
    /// one cost the flags that they would have given, and nothing else.
    pub fn with_geoip(blob: Vec<u8>, db: Option<Vec<u8>>) -> (r: WsLobbyHub)
        ensures
            r.wf(),
            r.inner@ == no_one(),
            blob_of(r.table) == (if crate::ip_country::is_table(blob@) {
                Some(blob@)
            } else {
                None
            }),
            opt_codes(r.geoip) == file_codes(opt_bytes(db)),
    {
        WsLobbyHub { inner: HubInner::default(), table: Table::parse(blob), geoip: open_db(db) }
    }

    /// The country of an address as two letters in upper case. Nothing for a
    /// text that is no address, for a private one, and for one that neither the
    /// database nor the table knows.
    pub fn country_for(&self, ip: &str) -> (r: String)
        requires
            self.wf(),
        ensures
            r@ == flag_of(blob_of(self.table), opt_codes(self.geoip), ip@),
    {
        match parse_address(ip) {
            None => String::new(),
            Some(a) => {
                if is_unroutable(a) {
                    return String::new();
                }
                let from_db = code_from(&self.geoip, a);
                if !from_db.as_str().is_empty() {
                    return from_db;
                }
                match lookup(&self.table, a) {
                    Some(c) => c,
                    None => String::new(),
                }
            },
        }
    }

    pub fn client_count(&self) -> (r: usize)
        ensures
            r == self.inner@.clients.len(),
    {
        self.inner.clients.len()
    }

    pub fn lobby_count(&self) -> (r: usize)
        ensures
            r == self.inner@.lobbies.len(),
    {
        self.inner.lobbies.len()
    }

    fn started_names<'a>(&'a self) -> (r: Vec<&'a String>)
        ensures
            r@.map_values(|s: &'a String| s@) == lobby_titles(started_lobbies(self.inner@.lobbies)),
    {
        let ghost all = self.inner@.lobbies;
        let mut names: Vec<&'a String> = Vec::new();
        let mut i: usize = 0;
        proof {
            assert(all.take(0) =~= Seq::<LobbyView>::empty());
            assert(names@.map_values(|s: &'a String| s@) =~= lobby_titles(
                started_lobbies(all.take(0)),
            ));
        }
        while i < self.inner.lobbies.len()
            invariant
                i <= self.inner.lobbies@.len(),
                all == self.inner@.lobbies,
                names@.map_values(|s: &'a String| s@) == lobby_titles(
                    started_lobbies(all.take(i as int)),
                ),
            decreases self.inner.lobbies@.len() - i,
        {
            proof {
                let t = all.take(i + 1);
                assert(t.drop_last() =~= all.take(i as int));
                assert(t.last() == self.inner.lobbies@[i as int]@);
            }
            if self.inner.lobbies[i].started {
                let ghost before = names@;
                names.push(&self.inner.lobbies[i].game_name);
                proof {
                    let o = started_lobbies(all.take(i as int));
                    assert(names@.map_values(|s: &'a String| s@) =~= before.map_values(
                        |s: &'a String| s@,
                    ).push(self.inner.lobbies@[i as int].game_name@));
                    assert(lobby_titles(o.push(all[i as int])) =~= lobby_titles(o).push(
                        all[i as int].game_name,
                    ));
                }
            }
            i = i + 1;
        }
        proof {
            assert(all.take(self.inner.lobbies@.len() as int) =~= all);
        }
        names
    }

    /// Lobbies that started at least once.
    pub fn match_count(&self) -> (r: usize)
        ensures
            r == started_lobbies(self.inner@.lobbies).len(),
    {
        let names = self.started_names();
        proof {
            assert(names@.map_values(|s: &String| s@).len() == names@.len());
            assert(lobby_titles(started_lobbies(self.inner@.lobbies)).len() == started_lobbies(
                self.inner@.lobbies,
            ).len());
        }
        names.len()
    }

    /// Live lobby counts by title.
    pub fn counts_by_game(&self) -> (r: Vec<GameCount>)
        ensures
            counts_view(r@) == tally(lobby_titles(self.inner@.lobbies)),
    {
        let mut names: Vec<&String> = Vec::new();
        let mut i: usize = 0;
        while i < self.inner.lobbies.len()
            invariant
                i <= self.inner.lobbies@.len(),
                names@.len() == i,
                forall|k: int|
                    0 <= k < i ==> (#[trigger] names@[k])@ == lobby_titles(self.inner@.lobbies)[k],
            decreases self.inner.lobbies@.len() - i,
        {
            names.push(&self.inner.lobbies[i].game_name);
            i = i + 1;
        }
        proof {
            assert(names@.map_values(|s: &String| s@) =~= lobby_titles(self.inner@.lobbies));
        }
        tally_names(&names)
    }

    /// Live in-match lobby counts by title.
    pub fn match_counts_by_game(&self) -> (r: Vec<GameCount>)
        ensures
            counts_view(r@) == tally(lobby_titles(started_lobbies(self.inner@.lobbies))),
    {
        let names = self.started_names();
        tally_names(&names)
    }
}

// ---------------------------------------------------------- the connections

/// A connection as it begins: a guest, in no room, playing nothing.
pub open spec fn new_client(id: Seq<char>, peer_ip: Seq<char>, country: Seq<char>) -> ClientView {
    ClientView {
        player_id: id,
        display_name: "Player-"@ + first_chars(id, 8),
        account: None,
        peer_ip,
        country,
        game_name: Seq::empty(),
        lobby_id: None,
        pending_mod_lobby: None,
        probe_rtt_ms: (-1) as i32,
    }
}

pub open spec fn welcome_msg(id: Seq<char>) -> JsonView {
    empty_object().with("op"@, JsonView::Str("welcome"@)).with("ok"@, JsonView::Bool(true)).with(
        "player_id"@,
        JsonView::Str(id),
    )
}

impl HubView {
    /// The hub with the connection `c`, in the place of one with its id.
    pub open spec fn connected(self, c: ClientView) -> HubView {
        match self.client_at(c.player_id) {
            Some(i) => HubView { clients: self.clients.update(i, c), ..self },
            None => HubView { clients: self.clients.push(c), ..self },
        }
    }

    /// The hub without the connection `id`.
    pub open spec fn disconnected(self, id: Seq<char>) -> HubView {
        match self.client_at(id) {
            Some(i) => HubView { clients: self.clients.remove(i), ..self },
            None => self,
        }
    }
}

impl HubInner {
    /// Takes a connection in under an id, and greets it.
    pub fn connect_as(&mut self, id: &str, peer_ip: &str, country: &str) -> (r: Vec<Effect>)
        requires
            old(self)@.wf(),
        ensures
            final(self)@.wf(),
            final(self)@ == old(self)@.connected(new_client(id@, peer_ip@, country@)),
            effects(r@) == sent(id@, welcome_msg(id@)),
    {
        let ghost h = self@;
        let head = take_chars(id, 8);
        let c = ClientMeta {
            player_id: id.to_owned(),
            display_name: cat("Player-", head.as_str()),
            account: None,
            peer_ip: peer_ip.to_owned(),
            country: country.to_owned(),
            game_name: String::new(),
            lobby_id: None,
            pending_mod_lobby: None,
            probe_rtt_ms: -1,
        };
        let ghost v = new_client(id@, peer_ip@, country@);
        proof {
            assert(c@ =~= v);
        }
        match self.client_index(id) {
            Some(i) => {
                self.clients.set(i, c);
                proof {
                    assert(self@.clients =~= h.clients.update(i as int, v));
                }
            },
            None => {
                self.clients.push(c);
                proof {
                    assert(self@.clients =~= h.clients.push(v));
                }
            },
        }
        proof {
            assert(self@ =~= h.connected(v));
        }
        only(
            id,
            Json::object().with("op", Json::text("welcome")).with("ok", Json::flag(true)).with(
                "player_id",
                Json::text(id),
            ),
        )
    }

    /// Takes a connection in under an id by chance.
    pub fn connect(&mut self, peer_ip: &str, country: &str) -> (r: (String, Vec<Effect>))
        requires
            old(self)@.wf(),
        ensures
            final(self)@.wf(),
            uuid_shape(r.0@),
            final(self)@ == old(self)@.connected(new_client(r.0@, peer_ip@, country@)),
            effects(r.1@) == sent(r.0@, welcome_msg(r.0@)),
    {
        let id = new_uuid();
        let out = self.connect_as(id.as_str(), peer_ip, country);
        (id, out)
    }

    /// Forgets a connection.
    pub fn forget(&mut self, id: &str)
        requires
            old(self)@.wf(),
        ensures
            final(self)@.wf(),
            final(self)@ == old(self)@.disconnected(id@),
    {
        let ghost h = self@;
        if let Some(i) = self.client_index(id) {
            let _ = self.clients.remove(i);
            proof {
                assert(self@.clients =~= h.clients.remove(i as int));
                assert(self@ =~= h.disconnected(id@));
            }
        }
    }
}

// -------------------------------------------------------------------- laws

/// No two connections have one id.
pub open spec fn distinct_clients(h: HubView) -> bool {
    forall|i: int, j: int|
        0 <= i < j < h.clients.len() ==> (#[trigger] h.clients[i]).player_id != (
        #[trigger] h.clients[j]).player_id
}

/// A connection that was taken in is found, as a guest in no room; ids stay
/// distinct.
pub proof fn law_connected_is_found(h: HubView, id: Seq<char>, peer_ip: Seq<char>, country: Seq<char>)
    requires
        distinct_clients(h),
    ensures
        h.connected(new_client(id, peer_ip, country)).client(id) == Some(
            new_client(id, peer_ip, country),
        ),
        distinct_clients(h.connected(new_client(id, peer_ip, country))),
{
    let c = new_client(id, peer_ip, country);
    let g = h.connected(c);
    let p = |c: ClientView| c.player_id == id;
    lemma_first_where(h.clients, p);
    match h.client_at(id) {
        Some(i) => {
            assert forall|k: int| 0 <= k < i implies !p(#[trigger] g.clients[k]) by {
                assert(g.clients[k] == h.clients[k]);
            }
            lemma_first_is(g.clients, p, i);
            assert forall|a: int, b: int| 0 <= a < b < g.clients.len() implies (
            #[trigger] g.clients[a]).player_id != (#[trigger] g.clients[b]).player_id by {
                assert(g.clients[a].player_id == h.clients[a].player_id);
                assert(g.clients[b].player_id == h.clients[b].player_id);
            }
        },
        None => {
            let n = h.clients.len() as int;
            assert forall|k: int| 0 <= k < n implies !p(#[trigger] g.clients[k]) by {
                assert(g.clients[k] == h.clients[k]);
            }
            lemma_first_is(g.clients, p, n);
            assert forall|a: int, b: int| 0 <= a < b < g.clients.len() implies (
            #[trigger] g.clients[a]).player_id != (#[trigger] g.clients[b]).player_id by {
                assert(g.clients[a] == h.clients[a]);
                if b < n {
                    assert(g.clients[b] == h.clients[b]);
                } else {
                    assert(!p(h.clients[a]));
                }
            }
        },
    }
}

/// A connection that was forgotten is not found.
pub proof fn law_forgotten_is_gone(h: HubView, id: Seq<char>)
    requires
        distinct_clients(h),
    ensures
        h.disconnected(id).client(id) is None,
        distinct_clients(h.disconnected(id)),
{
    let g = h.disconnected(id);
    let p = |c: ClientView| c.player_id == id;
    lemma_first_where(h.clients, p);
    match h.client_at(id) {
        Some(i) => {
            assert forall|k: int| 0 <= k < g.clients.len() implies !p(#[trigger] g.clients[k]) by {
                if k < i {
                    assert(g.clients[k] == h.clients[k]);
                    assert(!p(h.clients[k]));
                } else {
                    assert(g.clients[k] == h.clients[k + 1]);
                    assert(h.clients[i].player_id != h.clients[k + 1].player_id);
                }
            }
            lemma_first_none(g.clients, p);
            assert forall|a: int, b: int| 0 <= a < b < g.clients.len() implies (
            #[trigger] g.clients[a]).player_id != (#[trigger] g.clients[b]).player_id by {
                let x = if a < i {
                    a
                } else {
                    a + 1
                };
                let y = if b < i {
                    b
                } else {
                    b + 1
                };
                assert(g.clients[a] == h.clients[x]);
                assert(g.clients[b] == h.clients[y]);
            }
        },
        None => {},
    }
}

/// A private address shows no flag, and neither does a text that is no address,
/// whatever the database and the table say.
pub proof fn law_private_addresses_show_no_flag(
    table: Option<Seq<u8>>,
    codes: Option<Map<Ip, Seq<char>>>,
    text: Seq<char>,
)
    requires
        address(trimmed(text)) matches Some(a) ==> unroutable(a),
    ensures
        flag_of(table, codes, text).len() == 0,
{
}

/// The operator's database can only improve on the table: where it has a
/// record that counts, and elsewhere the table answers as it would alone.
pub proof fn law_database_takes_precedence(
    table: Option<Seq<u8>>,
    codes: Option<Map<Ip, Seq<char>>>,
    text: Seq<char>,
)
    requires
        address(trimmed(text)) matches Some(a) && !unroutable(a),
    ensures
        ({
            let said = db_code(codes, address(trimmed(text))->0);
            &&& said.len() > 0 ==> flag_of(table, codes, text) == said
            &&& said.len() == 0 ==> flag_of(table, codes, text) == flag_of(table, None, text)
        }),
{
}

/// An address is out of reach by its numbers: a private network, the loopback,
/// a link-local one, or none at all; every other one is routed.
pub proof fn law_unroutable_ranges(a: u8, b: u8, c: u8, d: u8, ip: u32)
    requires
        ip == 16777216 * a + 65536 * b + 256 * c + d,
    ensures
        unroutable(Ip::V4(ip)) <==> (a == 10 || (a == 172 && 16 <= b < 32) || (a == 192 && b == 168)
            || a == 127 || (a == 169 && b == 254) || (a == 0 && b == 0 && c == 0 && d == 0)),
{
    let x = ip as int;
    assert(x / 16777216 == a) by (nonlinear_arith)
        requires
            x == 16777216 * a + 65536 * b + 256 * c + d,
            0 <= b < 256,
            0 <= c < 256,
            0 <= d < 256,
    ;
    assert(x / 65536 == 256 * a + b) by (nonlinear_arith)
        requires
            x == 16777216 * a + 65536 * b + 256 * c + d,
            0 <= c < 256,
            0 <= d < 256,
    ;
    assert((256 * a + b) % 256 == b as int) by (nonlinear_arith)
        requires
            0 <= b < 256,
    ;
}

/// A match counts from when it has started, and a room that waits does not.
pub proof fn law_started_matches_are_counted(ls: Seq<LobbyView>, l: LobbyView)
    ensures
        started_lobbies(Seq::empty()).len() == 0,
        l.started ==> started_lobbies(ls.push(l)) == started_lobbies(ls).push(l),
        !l.started ==> started_lobbies(ls.push(l)) == started_lobbies(ls),
{
    assert(ls.push(l).drop_last() =~= ls);
}

/// Who connects has the id that it is given and nothing else yet: no account, no
/// room, no title and no round trip.
pub proof fn law_a_newcomer_has_nothing(id: Seq<char>, peer_ip: Seq<char>, country: Seq<char>)
    ensures
        ({
            let c = new_client(id, peer_ip, country);
            &&& c.player_id == id
            &&& c.peer_ip == peer_ip
            &&& c.country == country
            &&& c.account is None
            &&& c.lobby_id is None
            &&& c.pending_mod_lobby is None
            &&& c.game_name.len() == 0
            &&& c.probe_rtt_ms == -1
            &&& id.len() >= 8 ==> c.display_name == "Player-"@ + id.take(8)
        }),
{
    if id.len() == 8 {
        assert(id.take(8) =~= id);
    }
}

} // verus!
