//! Clients, seats, lobbies and the hub that holds them.

use crate::find::{first_where, lemma_first_is, lemma_first_none, lemma_first_where};
use crate::identity::{opt_player, Player, PlayerView};
use crate::json::{opt_json, Json, JsonView};
use crate::text::{cat3, dec, decimal, opt_view, same, trim, trimmed, views};
use vstd::prelude::*;
use vstd::string::*;

verus! {

pub const MAX_SLOTS: usize = 8;

pub const MAX_LOBBIES: usize = 64;

/// Spectator seats a host may open, on top of the player seats.
pub const MAX_SPECTATORS: usize = 4;

/// Seat indices are one namespace on the wire: below the base is a player
/// seat, at or above it is `index - base` in the spectator pool.
pub const SPECTATOR_SLOT_BASE: usize = 64;

pub open spec fn spectator_index(seat: int) -> bool {
    seat >= SPECTATOR_SLOT_BASE
}

pub fn is_spectator_seat(seat: usize) -> (r: bool)
    ensures
        r == spectator_index(seat as int),
{
    seat >= SPECTATOR_SLOT_BASE
}

pub fn spectator_seat(index: usize) -> (r: usize)
    requires
        index <= usize::MAX - SPECTATOR_SLOT_BASE,
    ensures
        r == SPECTATOR_SLOT_BASE + index,
{
    SPECTATOR_SLOT_BASE + index
}

// ------------------------------------------------------------------ seats

/// One occupied seat. Offers are opaque objects that the peer advertises.
pub struct Slot {
    pub player_id: String,
    pub display_name: String,
    pub ready: bool,
    pub bios_offer: Option<Json>,
    pub mod_offer: Option<Json>,
    pub memcard_offer: Option<Json>,
    /// Country (alpha-2) of the peer's address; empty when unknown.
    pub country: String,
    /// Waiting-room ICE path report: "direct", "relay" or "fail".
    pub ice_path: Option<String>,
    /// When the report came, in milliseconds.
    pub ice_path_at: Option<u64>,
}

#[verifier::ext_equal]
pub ghost struct SlotView {
    pub player_id: Seq<char>,
    pub display_name: Seq<char>,
    pub ready: bool,
    pub bios_offer: Option<JsonView>,
    pub mod_offer: Option<JsonView>,
    pub memcard_offer: Option<JsonView>,
    pub country: Seq<char>,
    pub ice_path: Option<Seq<char>>,
    pub ice_path_at: Option<u64>,
}

impl View for Slot {
    type V = SlotView;

    open spec fn view(&self) -> SlotView {
        SlotView {
            player_id: self.player_id@,
            display_name: self.display_name@,
            ready: self.ready,
            bios_offer: opt_json(self.bios_offer),
            mod_offer: opt_json(self.mod_offer),
            memcard_offer: opt_json(self.memcard_offer),
            country: self.country@,
            ice_path: opt_view(self.ice_path),
            ice_path_at: self.ice_path_at,
        }
    }
}

pub open spec fn opt_slot(o: Option<Slot>) -> Option<SlotView> {
    match o {
        Some(s) => Some(s@),
        None => None,
    }
}

pub open spec fn seats_view(v: Seq<Option<Slot>>) -> Seq<Option<SlotView>> {
    v.map_values(|o: Option<Slot>| opt_slot(o))
}

/// A seat as a newcomer takes it.
pub open spec fn fresh_slot(player_id: Seq<char>, display_name: Seq<char>, country: Seq<char>) -> SlotView {
    SlotView {
        player_id,
        display_name,
        ready: false,
        bios_offer: None,
        mod_offer: None,
        memcard_offer: None,
        country,
        ice_path: None,
        ice_path_at: None,
    }
}

pub fn new_slot(player_id: &str, display_name: &str, country: &str) -> (r: Slot)
    ensures
        r@ == fresh_slot(player_id@, display_name@, country@),
{
    Slot {
        player_id: player_id.to_owned(),
        display_name: display_name.to_owned(),
        ready: false,
        bios_offer: None,
        mod_offer: None,
        memcard_offer: None,
        country: country.to_owned(),
        ice_path: None,
        ice_path_at: None,
    }
}

/// The occupied seats, in their order.
pub open spec fn seated(s: Seq<Option<SlotView>>) -> Seq<SlotView>
    decreases s.len(),
{
    if s.len() == 0 {
        Seq::empty()
    } else {
        match s.last() {
            Some(x) => seated(s.drop_last()).push(x),
            None => seated(s.drop_last()),
        }
    }
}

/// No more sit than there are seats.
pub proof fn lemma_seated_len(s: Seq<Option<SlotView>>)
    ensures
        seated(s).len() <= s.len(),
    decreases s.len(),
{
    if s.len() > 0 {
        lemma_seated_len(s.drop_last());
    }
}

/// Un-readying moves nobody.
pub proof fn lemma_unready_seated(s: Seq<Option<SlotView>>)
    ensures
        seated(unready(s)).len() == seated(s).len(),
        forall|i: int|
            0 <= i < seated(s).len() ==> (#[trigger] seated(unready(s))[i]).player_id == seated(
                s,
            )[i].player_id,
    decreases s.len(),
{
    if s.len() > 0 {
        lemma_unready_seated(s.drop_last());
        assert(unready(s).drop_last() =~= unready(s.drop_last()));
    }
}

/// Whether `o` is a seat that `id` sits in.
pub open spec fn sits(o: Option<SlotView>, id: Seq<char>) -> bool {
    o is Some && o->0.player_id == id
}

/// The first seat that `id` sits in.
pub open spec fn player_at(s: Seq<Option<SlotView>>, id: Seq<char>) -> Option<int> {
    first_where(s, |o: Option<SlotView>| sits(o, id))
}

/// The first free seat.
pub open spec fn free_at(s: Seq<Option<SlotView>>) -> Option<int> {
    first_where(s, |o: Option<SlotView>| o is None)
}

pub open spec fn unready_slot(o: Option<SlotView>) -> Option<SlotView> {
    match o {
        Some(x) => Some(SlotView { ready: false, ..x }),
        None => None,
    }
}

pub open spec fn pathless_slot(o: Option<SlotView>) -> Option<SlotView> {
    match o {
        Some(x) => Some(SlotView { ice_path: None, ice_path_at: None, ..x }),
        None => None,
    }
}

/// The seats with nobody ready.
pub open spec fn unready(s: Seq<Option<SlotView>>) -> Seq<Option<SlotView>> {
    s.map_values(|o: Option<SlotView>| unready_slot(o))
}

/// The seats with no path reported.
pub open spec fn pathless(s: Seq<Option<SlotView>>) -> Seq<Option<SlotView>> {
    s.map_values(|o: Option<SlotView>| pathless_slot(o))
}

/// The seats without `id`.
pub open spec fn vacated(s: Seq<Option<SlotView>>, id: Seq<char>) -> Seq<Option<SlotView>> {
    s.map_values(
        |o: Option<SlotView>|
            if sits(o, id) {
                None
            } else {
                o
            },
    )
}

// ---------------------------------------------------------------- lobbies

pub struct Lobby {
    pub lobby_id: String,
    pub name: String,
    pub game_name: String,
    /// Release or build pin. Peers must match to join.
    pub game_version: String,
    /// TOC fingerprint (lowercase hex SHA-256). Empty: no check.
    pub disc_fp: String,
    /// Empty where the server itself is the host.
    pub host_player_id: String,
    pub host_bind: String,
    pub host_endpoint: String,
    /// Private UDP endpoints for same-LAN list RTT.
    pub lan_endpoints: Vec<String>,
    pub guest_endpoint: String,
    /// Digest and salt of the password, where there is one.
    pub password_hash: Option<Vec<u8>>,
    pub password_salt: Option<Vec<u8>>,
    pub max_slots: usize,
    pub session_id: u32,
    pub slots: Vec<Option<Slot>>,
    /// Host opt-in. False leaves `spectators` empty.
    pub allow_spectators: bool,
    pub spectators: Vec<Option<Slot>>,
    /// Host-authoritative settings (opaque object).
    pub match_caps: Option<Json>,
    /// Active UDP input-relay session.
    pub relay_session_id: Option<u32>,
    /// True after a successful `start` until the lobby is destroyed.
    pub started: bool,
    /// Built by the server for a matched pair.
    pub automatch: bool,
}

#[verifier::ext_equal]
pub ghost struct LobbyView {
    pub lobby_id: Seq<char>,
    pub name: Seq<char>,
    pub game_name: Seq<char>,
    pub game_version: Seq<char>,
    pub disc_fp: Seq<char>,
    pub host_player_id: Seq<char>,
    pub host_bind: Seq<char>,
    pub host_endpoint: Seq<char>,
    pub lan_endpoints: Seq<Seq<char>>,
    pub guest_endpoint: Seq<char>,
    pub password_hash: Option<Seq<u8>>,
    pub password_salt: Option<Seq<u8>>,
    pub max_slots: usize,
    pub session_id: u32,
    pub slots: Seq<Option<SlotView>>,
    pub allow_spectators: bool,
    pub spectators: Seq<Option<SlotView>>,
    pub match_caps: Option<JsonView>,
    pub relay_session_id: Option<u32>,
    pub started: bool,
    pub automatch: bool,
}

pub open spec fn opt_bytes(o: Option<Vec<u8>>) -> Option<Seq<u8>> {
    match o {
        Some(v) => Some(v@),
        None => None,
    }
}

impl View for Lobby {
    type V = LobbyView;

    open spec fn view(&self) -> LobbyView {
        LobbyView {
            lobby_id: self.lobby_id@,
            name: self.name@,
            game_name: self.game_name@,
            game_version: self.game_version@,
            disc_fp: self.disc_fp@,
            host_player_id: self.host_player_id@,
            host_bind: self.host_bind@,
            host_endpoint: self.host_endpoint@,
            lan_endpoints: views(self.lan_endpoints@),
            guest_endpoint: self.guest_endpoint@,
            password_hash: opt_bytes(self.password_hash),
            password_salt: opt_bytes(self.password_salt),
            max_slots: self.max_slots,
            session_id: self.session_id,
            slots: seats_view(self.slots@),
            allow_spectators: self.allow_spectators,
            spectators: seats_view(self.spectators@),
            match_caps: opt_json(self.match_caps),
            relay_session_id: self.relay_session_id,
            started: self.started,
            automatch: self.automatch,
        }
    }
}

impl LobbyView {
    /// Both tables fit their part of the seat numbers, and the room its size.
    pub open spec fn wf(self) -> bool {
        self.slots.len() <= MAX_SLOTS && self.spectators.len() <= MAX_SPECTATORS && self.max_slots
            <= MAX_SLOTS
    }

    /// What is in the seat `seat`; nothing where there is no such seat.
    pub open spec fn seat(self, seat: int) -> Option<Option<SlotView>> {
        if spectator_index(seat) {
            let i = seat - SPECTATOR_SLOT_BASE;
            if i < self.spectators.len() {
                Some(self.spectators[i])
            } else {
                None
            }
        } else if 0 <= seat < self.slots.len() {
            Some(self.slots[seat])
        } else {
            None
        }
    }

    /// The lobby with `to` in the seat `seat`.
    pub open spec fn with_seat(self, seat: int, to: Option<SlotView>) -> LobbyView {
        if spectator_index(seat) {
            LobbyView {
                spectators: self.spectators.update(seat - SPECTATOR_SLOT_BASE, to),
                ..self
            }
        } else {
            LobbyView { slots: self.slots.update(seat, to), ..self }
        }
    }

    /// Every seated participant, players first.
    pub open spec fn everyone(self) -> Seq<SlotView> {
        seated(self.slots) + seated(self.spectators)
    }

    pub open spec fn member_ids(self) -> Seq<Seq<char>> {
        self.everyone().map_values(|s: SlotView| s.player_id)
    }

    /// Which seat `id` occupies, in the shared index namespace.
    pub open spec fn seat_of(self, id: Seq<char>) -> Option<int> {
        match player_at(self.slots, id) {
            Some(i) => Some(i),
            None => match player_at(self.spectators, id) {
                Some(i) => Some(SPECTATOR_SLOT_BASE + i),
                None => None,
            },
        }
    }

    pub open spec fn player_count(self) -> int {
        seated(self.slots).len() as int
    }

    pub open spec fn spectator_count(self) -> int {
        seated(self.spectators).len() as int
    }

    /// The lobby once its roster changed: nobody is ready, no path is known.
    pub open spec fn reshuffled(self) -> LobbyView {
        LobbyView {
            slots: pathless(unready(self.slots)),
            spectators: pathless(self.spectators),
            ..self
        }
    }

    /// Every player is ready, and there are two at least.
    pub open spec fn all_ready(self) -> bool {
        &&& forall|i: int|
            0 <= i < seated(self.slots).len() ==> (#[trigger] seated(self.slots)[i]).ready
        &&& self.player_count() >= 2
    }

    /// The lobby with the seats `a` and `b` traded.
    pub open spec fn traded(self, a: int, b: int) -> LobbyView {
        self.with_seat(a, self.seat(b)->0).with_seat(b, self.seat(a)->0)
    }

    /// Whether somebody seated other than `skip` goes by `name`.
    pub open spec fn name_taken(self, name: Seq<char>, skip: Option<Seq<char>>) -> bool {
        exists|i: int|
            0 <= i < self.everyone().len() && skip != Some(self.everyone()[i].player_id)
                && (#[trigger] self.everyone()[i]).display_name == name
    }

    /// The first number from `n` to 64 that makes the name free.
    pub open spec fn free_number(self, base: Seq<char>, n: int, skip: Option<Seq<char>>) -> Option<
        int,
    >
        decreases 65 - n,
    {
        if n > 64 {
            None
        } else if !self.name_taken(numbered(base, n), skip) {
            Some(n)
        } else {
            self.free_number(base, n + 1, skip)
        }
    }

    /// `requested`, made unique among the occupied seats. `tag` marks the name
    /// where every number is taken.
    pub open spec fn unique_name(
        self,
        requested: Seq<char>,
        skip: Option<Seq<char>>,
        tag: Seq<char>,
    ) -> Seq<char> {
        let base = if trimmed(requested).len() == 0 {
            "Guest"@
        } else {
            trimmed(requested)
        };
        if !self.name_taken(base, skip) {
            base
        } else {
            match self.free_number(base, 2, skip) {
                Some(n) => numbered(base, n),
                None => base + " ("@ + tag + ")"@,
            }
        }
    }
}

/// `base (n)`.
pub open spec fn numbered(base: Seq<char>, n: int) -> Seq<char> {
    base + " ("@ + decimal(n as nat) + ")"@
}

pub proof fn lemma_seats_update(v: Seq<Option<Slot>>, i: int, o: Option<Slot>)
    requires
        0 <= i < v.len(),
    ensures
        seats_view(v.update(i, o)) == seats_view(v).update(i, opt_slot(o)),
{
    assert(seats_view(v.update(i, o)) =~= seats_view(v).update(i, opt_slot(o)));
}

fn push_seated<'a>(seats: &'a Vec<Option<Slot>>, out: &mut Vec<&'a Slot>)
    ensures
        slots_of(final(out)@) == slots_of(old(out)@) + seated(seats_view(seats@)),
{
    let ghost all = seats_view(seats@);
    let ghost start = slots_of(out@);
    let mut i: usize = 0;
    proof {
        assert(all.take(0) =~= Seq::<Option<SlotView>>::empty());
        assert(slots_of(out@) =~= start + seated(all.take(0)));
    }
    while i < seats.len()
        invariant
            i <= seats@.len(),
            all == seats_view(seats@),
            slots_of(out@) == start + seated(all.take(i as int)),
        decreases seats@.len() - i,
    {
        let ghost before = out@;
        proof {
            let t = all.take(i + 1);
            assert(t.drop_last() =~= all.take(i as int));
            assert(t.last() == opt_slot(seats@[i as int]));
        }
        match &seats[i] {
            Some(s) => {
                out.push(s);
                proof {
                    assert(slots_of(out@) =~= slots_of(before).push(s@));
                    assert(slots_of(out@) =~= start + seated(all.take(i + 1)));
                }
            },
            None => {},
        }
        i = i + 1;
    }
    proof {
        assert(all.take(seats@.len() as int) =~= all);
    }
}

pub open spec fn slots_of(v: Seq<&Slot>) -> Seq<SlotView> {
    v.map_values(|s: &Slot| s@)
}

fn count_seated(seats: &Vec<Option<Slot>>) -> (r: usize)
    ensures
        r == seated(seats_view(seats@)).len(),
{
    let mut v: Vec<&Slot> = Vec::new();
    push_seated(seats, &mut v);
    v.len()
}

fn find_player(seats: &Vec<Option<Slot>>, id: &str) -> (r: Option<usize>)
    ensures
        match (r, player_at(seats_view(seats@), id@)) {
            (Some(a), Some(b)) => a == b && a < seats@.len(),
            (None, None) => true,
            _ => false,
        },
{
    let ghost p = |o: Option<SlotView>| sits(o, id@);
    let ghost all = seats_view(seats@);
    let mut i: usize = 0;
    while i < seats.len()
        invariant
            i <= seats@.len(),
            all == seats_view(seats@),
            forall|k: int| 0 <= k < i ==> !sits(#[trigger] all[k], id@),
        decreases seats@.len() - i,
    {
        proof {
            assert(all[i as int] == opt_slot(seats@[i as int]));
        }
        if let Some(s) = &seats[i] {
            if same(s.player_id.as_str(), id) {
                proof {
                    lemma_first_is(all, |o: Option<SlotView>| sits(o, id@), i as int);
                }
                return Some(i);
            }
        }
        i = i + 1;
    }
    proof {
        lemma_first_none(all, |o: Option<SlotView>| sits(o, id@));
    }
    None
}

pub fn find_free(seats: &Vec<Option<Slot>>) -> (r: Option<usize>)
    ensures
        match (r, free_at(seats_view(seats@))) {
            (Some(a), Some(b)) => a == b && a < seats@.len(),
            (None, None) => true,
            _ => false,
        },
{
    let ghost all = seats_view(seats@);
    let mut i: usize = 0;
    while i < seats.len()
        invariant
            i <= seats@.len(),
            all == seats_view(seats@),
            forall|k: int| 0 <= k < i ==> (#[trigger] all[k]) is Some,
        decreases seats@.len() - i,
    {
        proof {
            assert(all[i as int] == opt_slot(seats@[i as int]));
        }
        if seats[i].is_none() {
            proof {
                lemma_first_is(all, |o: Option<SlotView>| o is None, i as int);
            }
            return Some(i);
        }
        i = i + 1;
    }
    proof {
        lemma_first_none(all, |o: Option<SlotView>| o is None);
    }
    None
}

fn unready_all(seats: &mut Vec<Option<Slot>>)
    ensures
        seats_view(final(seats)@) == unready(seats_view(old(seats)@)),
        final(seats)@.len() == old(seats)@.len(),
{
    let n: usize = seats.len();
    let mut i: usize = 0;
    while i < n
        invariant
            i <= n,
            n == seats@.len(),
            n == old(seats)@.len(),
            forall|k: int|
                0 <= k < n ==> opt_slot(#[trigger] seats@[k]) == (if k < i {
                    unready_slot(opt_slot(old(seats)@[k]))
                } else {
                    opt_slot(old(seats)@[k])
                }),
        decreases n - i,
    {
        match &mut seats[i] {
            Some(s) => {
                s.ready = false;
            },
            None => {},
        }
        i = i + 1;
    }
    proof {
        assert(seats_view(seats@) =~= unready(seats_view(old(seats)@)));
    }
}

fn forget_paths(seats: &mut Vec<Option<Slot>>)
    ensures
        seats_view(final(seats)@) == pathless(seats_view(old(seats)@)),
        final(seats)@.len() == old(seats)@.len(),
{
    let n: usize = seats.len();
    let mut i: usize = 0;
    while i < n
        invariant
            i <= n,
            n == seats@.len(),
            n == old(seats)@.len(),
            forall|k: int|
                0 <= k < n ==> opt_slot(#[trigger] seats@[k]) == (if k < i {
                    pathless_slot(opt_slot(old(seats)@[k]))
                } else {
                    opt_slot(old(seats)@[k])
                }),
        decreases n - i,
    {
        match &mut seats[i] {
            Some(s) => {
                s.ice_path = None;
                s.ice_path_at = None;
            },
            None => {},
        }
        i = i + 1;
    }
    proof {
        assert(seats_view(seats@) =~= pathless(seats_view(old(seats)@)));
    }
}

fn vacate(seats: &mut Vec<Option<Slot>>, id: &str)
    ensures
        seats_view(final(seats)@) == vacated(seats_view(old(seats)@), id@),
        final(seats)@.len() == old(seats)@.len(),
{
    let n: usize = seats.len();
    let mut i: usize = 0;
    while i < n
        invariant
            i <= n,
            n == seats@.len(),
            n == old(seats)@.len(),
            forall|k: int|
                0 <= k < n ==> opt_slot(#[trigger] seats@[k]) == (if k < i && sits(
                    opt_slot(old(seats)@[k]),
                    id@,
                ) {
                    None
                } else {
                    opt_slot(old(seats)@[k])
                }),
        decreases n - i,
    {
        let hit: bool = match &seats[i] {
            Some(s) => same(s.player_id.as_str(), id),
            None => false,
        };
        if hit {
            seats[i] = None;
        }
        i = i + 1;
    }
    proof {
        assert(seats_view(seats@) =~= vacated(seats_view(old(seats)@), id@));
    }
}

impl Lobby {
    /// The seat `seat`; `None` out of range in either table.
    pub fn seat<'a>(&'a self, seat: usize) -> (r: Option<&'a Option<Slot>>)
        ensures
            match (r, self@.seat(seat as int)) {
                (Some(a), Some(b)) => opt_slot(*a) == b,
                (None, None) => true,
                _ => false,
            },
    {
        if is_spectator_seat(seat) {
            let i: usize = seat - SPECTATOR_SLOT_BASE;
            if i < self.spectators.len() {
                Some(&self.spectators[i])
            } else {
                None
            }
        } else if seat < self.slots.len() {
            Some(&self.slots[seat])
        } else {
            None
        }
    }

    /// Puts `to` into the seat `seat` and hands back what was there.
    pub fn put_seat(&mut self, seat: usize, to: Option<Slot>) -> (r: Option<Slot>)
        requires
            old(self)@.seat(seat as int) is Some,
        ensures
            final(self)@ == old(self)@.with_seat(seat as int, opt_slot(to)),
            opt_slot(r) == old(self)@.seat(seat as int)->0,
    {
        let mut to = to;
        if is_spectator_seat(seat) {
            let i: usize = seat - SPECTATOR_SLOT_BASE;
            proof {
                lemma_seats_update(self.spectators@, i as int, to);
            }
            std::mem::swap(&mut self.spectators[i], &mut to);
        } else {
            proof {
                lemma_seats_update(self.slots@, seat as int, to);
            }
            std::mem::swap(&mut self.slots[seat], &mut to);
        }
        to
    }

    /// The seat `seat` for writing; `None` out of range in either table.
    pub fn seat_mut<'a>(&'a mut self, seat: usize) -> (r: Option<&'a mut Option<Slot>>)
        ensures
            match r {
                Some(c) => old(self)@.seat(seat as int) == Some(opt_slot(*c)) && final(self)@
                    == old(self)@.with_seat(seat as int, opt_slot(*final(c))),
                None => old(self)@.seat(seat as int) is None && final(self)@ == old(self)@,
            },
    {
        if is_spectator_seat(seat) {
            let i: usize = seat - SPECTATOR_SLOT_BASE;
            if i < self.spectators.len() {
                let c = &mut self.spectators[i];
                proof {
                    lemma_seats_update(old(self).spectators@, i as int, *final(c));
                }
                Some(c)
            } else {
                None
            }
        } else if seat < self.slots.len() {
            let c = &mut self.slots[seat];
            proof {
                lemma_seats_update(old(self).slots@, seat as int, *final(c));
            }
            Some(c)
        } else {
            None
        }
    }

    /// Every seated participant, players first. For "who is in this room";
    /// `slots` is for "who is playing".
    pub fn everyone<'a>(&'a self) -> (r: Vec<&'a Slot>)
        ensures
            slots_of(r@) == self@.everyone(),
    {
        let mut out: Vec<&Slot> = Vec::new();
        push_seated(&self.slots, &mut out);
        push_seated(&self.spectators, &mut out);
        proof {
            assert(slots_of(out@) =~= self@.everyone());
        }
        out
    }

    pub fn member_ids(&self) -> (r: Vec<String>)
        ensures
            views(r@) == self@.member_ids(),
    {
        let all = self.everyone();
        let mut out: Vec<String> = Vec::new();
        let mut i: usize = 0;
        while i < all.len()
            invariant
                i <= all@.len(),
                slots_of(all@) == self@.everyone(),
                views(out@) =~= self@.member_ids().take(i as int),
            decreases all@.len() - i,
        {
            let ghost before = out@;
            let id = all[i].player_id.clone();
            out.push(id);
            proof {
                assert(slots_of(all@)[i as int] == all@[i as int]@);
                assert(views(out@) =~= views(before).push(id@));
                assert(self@.member_ids()[i as int] == id@);
            }
            i = i + 1;
        }
        proof {
            assert(self@.member_ids().take(all@.len() as int) =~= self@.member_ids());
        }
        out
    }

    /// Which seat a player occupies, in the shared index namespace.
    pub fn seat_of(&self, player_id: &str) -> (r: Option<usize>)
        requires
            self@.wf(),
        ensures
            match (r, self@.seat_of(player_id@)) {
                (Some(a), Some(b)) => a == b && self@.seat(b) is Some && sits(
                    self@.seat(b)->0,
                    player_id@,
                ),
                (None, None) => true,
                _ => false,
            },
    {
        proof {
            lemma_first_where(self@.slots, |o: Option<SlotView>| sits(o, player_id@));
            lemma_first_where(self@.spectators, |o: Option<SlotView>| sits(o, player_id@));
        }
        match find_player(&self.slots, player_id) {
            Some(i) => Some(i),
            None => match find_player(&self.spectators, player_id) {
                Some(i) => Some(spectator_seat(i)),
                None => None,
            },
        }
    }

    pub fn spectator_count(&self) -> (r: usize)
        ensures
            r == self@.spectator_count(),
    {
        count_seated(&self.spectators)
    }

    /// Un-readies the players and forgets every reported path.
    pub fn reshuffle(&mut self)
        ensures
            final(self)@ == old(self)@.reshuffled(),
    {
        unready_all(&mut self.slots);
        forget_paths(&mut self.slots);
        forget_paths(&mut self.spectators);
    }

    /// Un-readies the players.
    pub fn unready_players(&mut self)
        ensures
            final(self)@ == (LobbyView { slots: unready(old(self)@.slots), ..old(self)@ }),
    {
        unready_all(&mut self.slots);
    }

    /// Frees every seat that `player_id` sits in.
    pub fn vacate(&mut self, player_id: &str)
        ensures
            final(self)@ == (LobbyView {
                slots: vacated(old(self)@.slots, player_id@),
                spectators: vacated(old(self)@.spectators, player_id@),
                ..old(self)@
            }),
    {
        vacate(&mut self.slots, player_id);
        vacate(&mut self.spectators, player_id);
    }

    /// Trades the seats `a` and `b`, in one table or across both.
    pub fn trade(&mut self, a: usize, b: usize)
        requires
            old(self)@.seat(a as int) is Some,
            old(self)@.seat(b as int) is Some,
            a != b,
        ensures
            final(self)@ == old(self)@.traded(a as int, b as int),
    {
        let x = self.put_seat(a, None);
        let y = self.put_seat(b, None);
        let _ = self.put_seat(b, x);
        let _ = self.put_seat(a, y);
        proof {
            assert(self@ =~= old(self)@.traded(a as int, b as int));
        }
    }

    /// Whether every player is ready and there are two at least.
    pub fn all_ready(&self) -> (r: bool)
        ensures
            r == self@.all_ready(),
    {
        let mut v: Vec<&Slot> = Vec::new();
        push_seated(&self.slots, &mut v);
        proof {
            assert(slots_of(v@) =~= seated(self@.slots));
        }
        let mut i: usize = 0;
        while i < v.len()
            invariant
                i <= v@.len(),
                slots_of(v@) == seated(self@.slots),
                forall|k: int| 0 <= k < i ==> (#[trigger] seated(self@.slots)[k]).ready,
            decreases v@.len() - i,
        {
            proof {
                assert(slots_of(v@)[i as int] == v@[i as int]@);
            }
            if !v[i].ready {
                proof {
                    assert(!seated(self@.slots)[i as int].ready);
                }
                return false;
            }
            i = i + 1;
        }
        v.len() >= 2
    }

    fn name_taken(&self, name: &str, skip: Option<&str>) -> (r: bool)
        ensures
            r == self@.name_taken(
                name@,
                match skip {
                    Some(s) => Some(s@),
                    None => None,
                },
            ),
    {
        let ghost skipped = match skip {
            Some(s) => Some(s@),
            None => None,
        };
        let all = self.everyone();
        let mut i: usize = 0;
        while i < all.len()
            invariant
                i <= all@.len(),
                slots_of(all@) == self@.everyone(),
                skipped == (match skip {
                    Some(s) => Some(s@),
                    None => None,
                }),
                forall|k: int|
                    0 <= k < i ==> skipped == Some(self@.everyone()[k].player_id) || (
                    #[trigger] self@.everyone()[k]).display_name != name@,
            decreases all@.len() - i,
        {
            proof {
                assert(slots_of(all@)[i as int] == all@[i as int]@);
            }
            let skipping: bool = match skip {
                Some(s) => same(all[i].player_id.as_str(), s),
                None => false,
            };
            if !skipping && same(all[i].display_name.as_str(), name) {
                proof {
                    assert(self@.everyone()[i as int].display_name == name@);
                }
                return true;
            }
            i = i + 1;
        }
        false
    }
}

pub fn player_count(lobby: &Lobby) -> (r: usize)
    ensures
        r == lobby@.player_count(),
{
    count_seated(&lobby.slots)
}

fn numbered_name(base: &str, n: u64) -> (r: String)
    ensures
        r@ == numbered(base@, n as int),
{
    let d = dec(n);
    let mut out = cat3(base, " (", d.as_str());
    out.append(")");
    out
}

/// Makes `requested` unique among occupied lobby seats (`Alex`, `Alex (2)`).
pub fn unique_display_name(lobby: &Lobby, requested: &str, skip: Option<&str>, tag: &str) -> (r:
    String)
    ensures
        r@ == lobby@.unique_name(
            requested@,
            match skip {
                Some(s) => Some(s@),
                None => None,
            },
            tag@,
        ),
{
    let ghost skipped = match skip {
        Some(s) => Some(s@),
        None => None,
    };
    let t = trim(requested);
    let base: String = if t.as_str().is_empty() {
        "Guest".to_owned()
    } else {
        t
    };
    if !lobby.name_taken(base.as_str(), skip) {
        return base;
    }
    let mut n: u64 = 2;
    while n <= 64
        invariant
            2 <= n <= 65,
            skipped == (match skip {
                Some(s) => Some(s@),
                None => None,
            }),
            lobby@.free_number(base@, 2, skipped) == lobby@.free_number(base@, n as int, skipped),
            lobby@.name_taken(base@, skipped),
            base@ == (if trimmed(requested@).len() == 0 {
                "Guest"@
            } else {
                trimmed(requested@)
            }),
        decreases 65 - n,
    {
        let candidate = numbered_name(base.as_str(), n);
        if !lobby.name_taken(candidate.as_str(), skip) {
            return candidate;
        }
        n = n + 1;
    }
    let mut out = cat3(base.as_str(), " (", tag);
    out.append(")");
    out
}

// -------------------------------------------------------------- the clients

pub struct ClientMeta {
    pub player_id: String,
    pub display_name: String,
    /// The signed-in account, when there is one. `None` is a guest.
    pub account: Option<Player>,
    /// TCP source address as seen by the lobby.
    pub peer_ip: String,
    /// Country (alpha-2) of that address; empty when unknown.
    pub country: String,
    /// The title this client is browsing for.
    pub game_name: String,
    pub lobby_id: Option<String>,
    /// Password-ok join waiting on missing mods (not seated).
    pub pending_mod_lobby: Option<String>,
    /// Round trip to the relay in milliseconds; -1 until one is reported.
    pub probe_rtt_ms: i32,
}

#[verifier::ext_equal]
pub ghost struct ClientView {
    pub player_id: Seq<char>,
    pub display_name: Seq<char>,
    pub account: Option<PlayerView>,
    pub peer_ip: Seq<char>,
    pub country: Seq<char>,
    pub game_name: Seq<char>,
    pub lobby_id: Option<Seq<char>>,
    pub pending_mod_lobby: Option<Seq<char>>,
    pub probe_rtt_ms: i32,
}

impl View for ClientMeta {
    type V = ClientView;

    open spec fn view(&self) -> ClientView {
        ClientView {
            player_id: self.player_id@,
            display_name: self.display_name@,
            account: opt_player(self.account),
            peer_ip: self.peer_ip@,
            country: self.country@,
            game_name: self.game_name@,
            lobby_id: opt_view(self.lobby_id),
            pending_mod_lobby: opt_view(self.pending_mod_lobby),
            probe_rtt_ms: self.probe_rtt_ms,
        }
    }
}

impl ClientView {
    /// The opaque account id, empty for a guest.
    pub open spec fn account_id(self) -> Seq<char> {
        match self.account {
            Some(a) => a.id,
            None => Seq::empty(),
        }
    }
}

/// One chat line the server relayed, kept just long enough to be reportable.
pub struct ChatLine {
    pub id: String,
    /// Account of the sender; empty for a signed-out connection.
    pub from_account: String,
    pub from_name: String,
    pub text: String,
    /// "lobby" or "server".
    pub scope: String,
    /// Empty for server chat.
    pub lobby_id: String,
    pub game_name: String,
}

#[verifier::ext_equal]
pub ghost struct ChatLineView {
    pub id: Seq<char>,
    pub from_account: Seq<char>,
    pub from_name: Seq<char>,
    pub text: Seq<char>,
    pub scope: Seq<char>,
    pub lobby_id: Seq<char>,
    pub game_name: Seq<char>,
}

impl View for ChatLine {
    type V = ChatLineView;

    open spec fn view(&self) -> ChatLineView {
        ChatLineView {
            id: self.id@,
            from_account: self.from_account@,
            from_name: self.from_name@,
            text: self.text@,
            scope: self.scope@,
            lobby_id: self.lobby_id@,
            game_name: self.game_name@,
        }
    }
}

// ------------------------------------------------------------------ the hub

pub struct HubInner {
    pub clients: Vec<ClientMeta>,
    pub lobbies: Vec<Lobby>,
    pub next_session: u32,
    /// Recently relayed chat, oldest first.
    pub chat_ring: Vec<ChatLine>,
    /// Source of message ids, never reused within a run.
    pub next_chat_id: u64,
}

#[verifier::ext_equal]
pub ghost struct HubView {
    pub clients: Seq<ClientView>,
    pub lobbies: Seq<LobbyView>,
    pub next_session: u32,
    pub chat_ring: Seq<ChatLineView>,
    pub next_chat_id: u64,
}

impl View for HubInner {
    type V = HubView;

    open spec fn view(&self) -> HubView {
        HubView {
            clients: self.clients@.map_values(|c: ClientMeta| c@),
            lobbies: self.lobbies@.map_values(|l: Lobby| l@),
            next_session: self.next_session,
            chat_ring: self.chat_ring@.map_values(|l: ChatLine| l@),
            next_chat_id: self.next_chat_id,
        }
    }
}

impl HubView {
    /// Every lobby's tables fit the seat numbers.
    pub open spec fn wf(self) -> bool {
        forall|i: int| 0 <= i < self.lobbies.len() ==> (#[trigger] self.lobbies[i]).wf()
    }

    /// Where the client `id` stands.
    pub open spec fn client_at(self, id: Seq<char>) -> Option<int> {
        first_where(self.clients, |c: ClientView| c.player_id == id)
    }

    /// Where the lobby `id` stands.
    pub open spec fn lobby_at(self, id: Seq<char>) -> Option<int> {
        first_where(self.lobbies, |l: LobbyView| l.lobby_id == id)
    }

    pub open spec fn client(self, id: Seq<char>) -> Option<ClientView> {
        match self.client_at(id) {
            Some(i) => Some(self.clients[i]),
            None => None,
        }
    }

    pub open spec fn lobby(self, id: Seq<char>) -> Option<LobbyView> {
        match self.lobby_at(id) {
            Some(i) => Some(self.lobbies[i]),
            None => None,
        }
    }

    /// The hub with `c` in the place of the client `id`, where there is one.
    pub open spec fn with_client(self, id: Seq<char>, c: ClientView) -> HubView {
        match self.client_at(id) {
            Some(i) => HubView { clients: self.clients.update(i, c), ..self },
            None => self,
        }
    }

    /// The hub with `l` in the place of the lobby `id`, where there is one.
    pub open spec fn with_lobby(self, id: Seq<char>, l: LobbyView) -> HubView {
        match self.lobby_at(id) {
            Some(i) => HubView { lobbies: self.lobbies.update(i, l), ..self },
            None => self,
        }
    }

    /// The lobby id that the client `id` holds.
    pub open spec fn lobby_id_of(self, id: Seq<char>) -> Option<Seq<char>> {
        match self.client(id) {
            Some(c) => c.lobby_id,
            None => None,
        }
    }

    /// The opaque account id behind a connection, empty for a guest.
    pub open spec fn account_of(self, id: Seq<char>) -> Seq<char> {
        match self.client(id) {
            Some(c) => c.account_id(),
            None => Seq::empty(),
        }
    }

    /// The title a client counts as playing: its own, or else its room's.
    pub open spec fn game_scope(self, id: Seq<char>) -> Seq<char> {
        match self.client(id) {
            Some(c) => if c.game_name.len() > 0 {
                c.game_name
            } else {
                match c.lobby_id {
                    Some(lid) => match self.lobby(lid) {
                        Some(l) => l.game_name,
                        None => Seq::empty(),
                    },
                    None => Seq::empty(),
                }
            },
            None => Seq::empty(),
        }
    }
}

pub proof fn lemma_lobby_at(h: HubView, id: Seq<char>)
    ensures
        match h.lobby_at(id) {
            Some(i) => 0 <= i < h.lobbies.len() && h.lobbies[i].lobby_id == id,
            None => true,
        },
{
    lemma_first_where(h.lobbies, |l: LobbyView| l.lobby_id == id);
}

/// A hub to which no one has come yet.
pub open spec fn no_one() -> HubView {
    HubView {
        clients: Seq::empty(),
        lobbies: Seq::empty(),
        next_session: 1,
        chat_ring: Seq::empty(),
        next_chat_id: 1,
    }
}

impl Default for HubInner {
    fn default() -> (r: HubInner)
        ensures
            r@ == no_one(),
            r@.wf(),
    {
        let r = HubInner {
            clients: Vec::new(),
            lobbies: Vec::new(),
            next_session: 1,
            chat_ring: Vec::new(),
            next_chat_id: 1,
        };
        proof {
            assert(r@.clients =~= Seq::<ClientView>::empty());
            assert(r@.lobbies =~= Seq::<LobbyView>::empty());
            assert(r@.chat_ring =~= Seq::<ChatLineView>::empty());
        }
        r
    }
}

impl HubInner {
    pub fn client_index(&self, id: &str) -> (r: Option<usize>)
        ensures
            match (r, self@.client_at(id@)) {
                (Some(a), Some(b)) => a == b && a < self.clients@.len(),
                (None, None) => true,
                _ => false,
            },
    {
        let ghost all = self@.clients;
        let mut i: usize = 0;
        while i < self.clients.len()
            invariant
                i <= self.clients@.len(),
                all == self@.clients,
                forall|k: int| 0 <= k < i ==> (#[trigger] all[k]).player_id != id@,
            decreases self.clients@.len() - i,
        {
            proof {
                assert(all[i as int] == self.clients@[i as int]@);
            }
            if same(self.clients[i].player_id.as_str(), id) {
                proof {
                    lemma_first_is(all, |c: ClientView| c.player_id == id@, i as int);
                }
                return Some(i);
            }
            i = i + 1;
        }
        proof {
            lemma_first_none(all, |c: ClientView| c.player_id == id@);
        }
        None
    }

    pub fn lobby_index(&self, id: &str) -> (r: Option<usize>)
        ensures
            match (r, self@.lobby_at(id@)) {
                (Some(a), Some(b)) => a == b && a < self.lobbies@.len(),
                (None, None) => true,
                _ => false,
            },
    {
        let ghost all = self@.lobbies;
        let mut i: usize = 0;
        while i < self.lobbies.len()
            invariant
                i <= self.lobbies@.len(),
                all == self@.lobbies,
                forall|k: int| 0 <= k < i ==> (#[trigger] all[k]).lobby_id != id@,
            decreases self.lobbies@.len() - i,
        {
            proof {
                assert(all[i as int] == self.lobbies@[i as int]@);
            }
            if same(self.lobbies[i].lobby_id.as_str(), id) {
                proof {
                    lemma_first_is(all, |l: LobbyView| l.lobby_id == id@, i as int);
                }
                return Some(i);
            }
            i = i + 1;
        }
        proof {
            lemma_first_none(all, |l: LobbyView| l.lobby_id == id@);
        }
        None
    }

    pub fn client<'a>(&'a self, id: &str) -> (r: Option<&'a ClientMeta>)
        ensures
            match (r, self@.client(id@)) {
                (Some(a), Some(b)) => a@ == b,
                (None, None) => true,
                _ => false,
            },
    {
        match self.client_index(id) {
            Some(i) => Some(&self.clients[i]),
            None => None,
        }
    }

    pub fn lobby<'a>(&'a self, id: &str) -> (r: Option<&'a Lobby>)
        ensures
            match (r, self@.lobby(id@)) {
                (Some(a), Some(b)) => a@ == b && (self@.wf() ==> b.wf()),
                (None, None) => true,
                _ => false,
            },
    {
        match self.lobby_index(id) {
            Some(i) => {
                proof {
                    assert(self@.lobbies[i as int] == self.lobbies@[i as int]@);
                }
                Some(&self.lobbies[i])
            },
            None => None,
        }
    }

    /// The client at `i`, for writing.
    pub fn client_mut<'a>(&'a mut self, i: usize) -> (r: &'a mut ClientMeta)
        requires
            i < old(self)@.clients.len(),
        ensures
            r@ == old(self)@.clients[i as int],
            final(self)@ == (HubView {
                clients: old(self)@.clients.update(i as int, final(r)@),
                ..old(self)@
            }),
    {
        let r = &mut self.clients[i];
        proof {
            let c = *final(r);
            assert(old(self).clients@.update(i as int, c).map_values(|c: ClientMeta| c@)
                =~= old(self)@.clients.update(i as int, c@));
        }
        r
    }

    /// The lobby at `i`, for writing.
    pub fn lobby_mut<'a>(&'a mut self, i: usize) -> (r: &'a mut Lobby)
        requires
            i < old(self)@.lobbies.len(),
        ensures
            r@ == old(self)@.lobbies[i as int],
            final(self)@ == (HubView {
                lobbies: old(self)@.lobbies.update(i as int, final(r)@),
                ..old(self)@
            }),
    {
        let r = &mut self.lobbies[i];
        proof {
            let l = *final(r);
            assert(old(self).lobbies@.update(i as int, l).map_values(|l: Lobby| l@)
                =~= old(self)@.lobbies.update(i as int, l@));
        }
        r
    }

    /// The lobby id that the client `id` holds.
    pub fn lobby_id_of(&self, id: &str) -> (r: Option<String>)
        ensures
            opt_view(r) == self@.lobby_id_of(id@),
    {
        match self.client(id) {
            Some(c) => crate::text::clone_opt(&c.lobby_id),
            None => None,
        }
    }

    /// The opaque account id behind a connection, or an empty string for a
    /// guest.
    pub fn account_of(&self, id: &str) -> (r: String)
        ensures
            r@ == self@.account_of(id@),
    {
        match self.client(id) {
            Some(c) => match &c.account {
                Some(a) => a.id.clone(),
                None => String::new(),
            },
            None => String::new(),
        }
    }
}

/// The title a client counts as playing, for the players-online list and for
/// server chat: never the version.
pub fn game_scope_for(g: &HubInner, player_id: &str) -> (r: String)
    ensures
        r@ == g@.game_scope(player_id@),
{
    match g.client(player_id) {
        Some(c) => {
            if !c.game_name.as_str().is_empty() {
                return c.game_name.clone();
            }
            match &c.lobby_id {
                Some(lid) => match g.lobby(lid.as_str()) {
                    Some(l) => l.game_name.clone(),
                    None => String::new(),
                },
                None => String::new(),
            }
        },
        None => String::new(),
    }
}

} // verus!
