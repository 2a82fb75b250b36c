//! Opening a room and getting into one.

use super::input::{
    disc_fingerprint, disc_fp_mismatch, discs_clash, if_nonempty, nonempty, normalize_disc_fp,
    normalize_game_version, or_default, rewrite_endpoint, rewritten, text_or, version_of, InMsg,
};
use super::model::{
    find_free, free_at, fresh_slot, is_spectator_seat, lemma_lobby_at, new_slot, numbered,
    player_count, seated, spectator_index, spectator_seat, unique_display_name, ClientView,
    HubInner, HubView, Lobby, LobbyView, Slot, SlotView, MAX_LOBBIES, MAX_SLOTS, MAX_SPECTATORS,
    SPECTATOR_SLOT_BASE,
};
use super::roster::{
    lemma_reshuffled, lemma_with_client, lemma_with_lobby, lemma_with_seat, who, who_in,
};
use super::seats::{chat_system, lemma_with_lobby_wf, sanitize_match_caps, system_line};
use super::wire::{
    broadcast_list, count, counted, effects, emit_lobby_update, lemma_items_push, list_push,
    lobby_update, nothing, only, refusal, refuse, send_to, sent, with_opt, Effect, EffectView,
    Event, EventView,
};
use crate::json::{
    bounded_object, copy_opt, empty_object, items_view, lemma_items, opt_json, Json, JsonView,
};
use crate::outside::{sha256, sha256_of};
use crate::text::{cat, decimal, lemma_numeral_number, opt_view, same, trimmed};
use vstd::prelude::*;
use vstd::string::*;
use vstd::utf8::encode_utf8;

verus! {

// --------------------------------------------------------------- passwords

/// The digest that a password is kept as: the salt, then the password.
pub open spec fn password_digest(password: Seq<char>, salt: Seq<u8>) -> Seq<u8> {
    sha256_of(salt + encode_utf8(password))
}

pub fn hash_password(password: &str, salt: &Vec<u8>) -> (r: Vec<u8>)
    ensures
        r@ == password_digest(password@, salt@),
{
    let mut data: Vec<u8> = Vec::new();
    let bytes = password.as_bytes();
    let mut i: usize = 0;
    while i < salt.len()
        invariant
            i <= salt@.len(),
            data@ =~= salt@.take(i as int),
        decreases salt@.len() - i,
    {
        data.push(salt[i]);
        i = i + 1;
    }
    let mut k: usize = 0;
    while k < bytes.len()
        invariant
            k <= bytes@.len(),
            data@ =~= salt@ + bytes@.take(k as int),
        decreases bytes@.len() - k,
    {
        data.push(bytes[k]);
        k = k + 1;
    }
    proof {
        assert(data@ =~= salt@ + encode_utf8(password@));
    }
    sha256(&data)
}

fn same_bytes(a: &Vec<u8>, b: &Vec<u8>) -> (r: bool)
    ensures
        r == (a@ == b@),
{
    if a.len() != b.len() {
        return false;
    }
    let mut i: usize = 0;
    while i < a.len()
        invariant
            i <= a@.len(),
            a@.len() == b@.len(),
            forall|k: int| 0 <= k < i ==> a@[k] == b@[k],
        decreases a@.len() - i,
    {
        if a[i] != b[i] {
            return false;
        }
        i = i + 1;
    }
    proof {
        assert(a@ =~= b@);
    }
    true
}

/// Why a password does not open the room.
pub open spec fn password_error(l: LobbyView, password: Option<Seq<char>>) -> Option<Seq<char>> {
    if l.password_hash is Some && l.password_salt is Some {
        match nonempty(password) {
            None => Some("need_password"@),
            Some(pw) => if password_digest(pw, l.password_salt->0) != l.password_hash->0 {
                Some("bad_password"@)
            } else {
                None
            },
        }
    } else {
        None
    }
}

fn check_password(l: &Lobby, password: &Option<String>) -> (r: Option<&'static str>)
    ensures
        super::wire::opt_str(r) == password_error(l@, opt_view(*password)),
{
    match (&l.password_hash, &l.password_salt) {
        (Some(hash), Some(salt)) => match if_nonempty(password) {
            None => Some("need_password"),
            Some(pw) => {
                let h = hash_password(pw.as_str(), salt);
                if same_bytes(&h, hash) {
                    None
                } else {
                    Some("bad_password")
                }
            },
        },
        _ => None,
    }
}

// ------------------------------------------------------------------- mods

/// The text under `a`, or else under `b`.
pub open spec fn text_under(row: JsonView, a: Seq<char>, b: Seq<char>) -> Option<Seq<char>> {
    match row.get_either(a, b) {
        Some(v) => v.as_text(),
        None => None,
    }
}

fn get_text<'a>(row: &'a Json, a: &str, b: &str) -> (r: Option<&'a String>)
    ensures
        match (r, text_under(row@, a@, b@)) {
            (Some(x), Some(y)) => x@ == y,
            (None, None) => true,
            _ => false,
        },
{
    match row.get_either(a, b) {
        Some(v) => v.as_text(),
        None => None,
    }
}

pub open spec fn mod_id(row: JsonView) -> Option<Seq<char>> {
    text_under(row, "id"@, "i"@)
}

pub open spec fn mod_version(row: JsonView) -> Option<Seq<char>> {
    text_under(row, "ver"@, "v"@)
}

/// Whether the offer lists the package.
pub open spec fn offers(offer: Option<JsonView>, id: Seq<char>, ver: Seq<char>) -> bool {
    match offer {
        Some(o) => match o.get_either("pkgs"@, "mods"@) {
            Some(v) => match v.as_items() {
                Some(items) => exists|i: int|
                    0 <= i < items.len() && mod_id(#[trigger] items[i]) == Some(id) && mod_version(
                        items[i],
                    ) == Some(ver),
                None => false,
            },
            None => false,
        },
        None => false,
    }
}

fn has_text(o: Option<&String>, want: &str) -> (r: bool)
    ensures
        r == (match o {
            Some(s) => s@ == want@,
            None => false,
        }),
{
    match o {
        Some(s) => same(s.as_str(), want),
        None => false,
    }
}

pub fn guest_has_pkg(offer: &Option<Json>, id: &str, ver: &str) -> (r: bool)
    ensures
        r == offers(opt_json(*offer), id@, ver@),
{
    let o = match offer {
        Some(o) => o,
        None => {
            return false;
        },
    };
    let v = match o.get_either("pkgs", "mods") {
        Some(v) => v,
        None => {
            return false;
        },
    };
    match v {
        Json::Arr(items) => {
            let ghost all = items_view(items@);
            proof {
                lemma_items(items@);
            }
            let mut i: usize = 0;
            while i < items.len()
                invariant
                    i <= items@.len(),
                    all == items_view(items@),
                    all.len() == items@.len(),
                    v@ == JsonView::Arr(all),
                    opt_json(*offer) is Some,
                    opt_json(*offer)->0.get_either("pkgs"@, "mods"@) == Some(v@),
                    forall|k: int|
                        0 <= k < i ==> mod_id(#[trigger] all[k]) != Some(id@) || mod_version(all[k])
                            != Some(ver@),
                decreases items@.len() - i,
            {
                proof {
                    lemma_items(items@);
                    assert(all[i as int] == items@[i as int]@);
                }
                if has_text(get_text(&items[i], "id", "i"), id) && has_text(
                    get_text(&items[i], "ver", "v"),
                    ver,
                ) {
                    proof {
                        assert(mod_id(all[i as int]) == Some(id@));
                    }
                    return true;
                }
                i = i + 1;
            }
            false
        },
        _ => false,
    }
}

/// The rows of a room's mod list that name a mod.
pub open spec fn naming_rows(items: Seq<JsonView>) -> Seq<JsonView>
    decreases items.len(),
{
    if items.len() == 0 {
        Seq::empty()
    } else if mod_id(items.last()) is Some && mod_id(items.last())->0.len() > 0 {
        naming_rows(items.drop_last()).push(items.last())
    } else {
        naming_rows(items.drop_last())
    }
}

/// The mods that a room asks for.
pub open spec fn required_mods(caps: Option<JsonView>) -> Seq<JsonView> {
    match caps {
        Some(c) => match c.get("mods"@) {
            Some(v) => match v.as_items() {
                Some(items) => naming_rows(items),
                None => Seq::empty(),
            },
            None => Seq::empty(),
        },
        None => Seq::empty(),
    }
}

pub fn required_mod_rows(caps: &Option<Json>) -> (r: Vec<Json>)
    ensures
        items_view(r@) == required_mods(opt_json(*caps)),
{
    let mut out: Vec<Json> = Vec::new();
    let c = match caps {
        Some(c) => c,
        None => {
            return out;
        },
    };
    let v = match c.get("mods") {
        Some(v) => v,
        None => {
            return out;
        },
    };
    match v {
        Json::Arr(items) => {
            let ghost all = items_view(items@);
            proof {
                lemma_items(items@);
                assert(all.take(0) =~= Seq::<JsonView>::empty());
            }
            let mut i: usize = 0;
            while i < items.len()
                invariant
                    i <= items@.len(),
                    all == items_view(items@),
                    all.len() == items@.len(),
                    items_view(out@) == naming_rows(all.take(i as int)),
                decreases items@.len() - i,
            {
                proof {
                    lemma_items(items@);
                    let t = all.take(i + 1);
                    assert(t.drop_last() =~= all.take(i as int));
                    assert(t.last() == items@[i as int]@);
                }
                let named: bool = match get_text(&items[i], "id", "i") {
                    Some(s) => !s.as_str().is_empty(),
                    None => false,
                };
                if named {
                    let row = items[i].copy();
                    proof {
                        lemma_items_push(out@, row);
                    }
                    out.push(row);
                }
                i = i + 1;
            }
            proof {
                assert(all.take(items@.len() as int) =~= all);
            }
        },
        _ => {},
    }
    out
}

/// The rows among `rows` whose mod the offer does not list.
pub open spec fn missing_rows(rows: Seq<JsonView>, offer: Option<JsonView>) -> Seq<JsonView>
    decreases rows.len(),
{
    if rows.len() == 0 {
        Seq::empty()
    } else {
        let id = mod_id(rows.last());
        let ver = match mod_version(rows.last()) {
            Some(v) => v,
            None => Seq::empty(),
        };
        if id is Some && id->0.len() > 0 && !offers(offer, id->0, ver) {
            missing_rows(rows.drop_last(), offer).push(rows.last())
        } else {
            missing_rows(rows.drop_last(), offer)
        }
    }
}

fn missing_mods(rows: Vec<Json>, offer: &Option<Json>) -> (r: Vec<Json>)
    ensures
        items_view(r@) == missing_rows(items_view(rows@), opt_json(*offer)),
{
    let ghost all = items_view(rows@);
    let mut out: Vec<Json> = Vec::new();
    let mut i: usize = 0;
    proof {
        lemma_items(rows@);
        assert(all.take(0) =~= Seq::<JsonView>::empty());
    }
    while i < rows.len()
        invariant
            i <= rows@.len(),
            all == items_view(rows@),
            all.len() == rows@.len(),
            items_view(out@) == missing_rows(all.take(i as int), opt_json(*offer)),
        decreases rows@.len() - i,
    {
        proof {
            lemma_items(rows@);
            let t = all.take(i + 1);
            assert(t.drop_last() =~= all.take(i as int));
            assert(t.last() == rows@[i as int]@);
        }
        let id: String = match get_text(&rows[i], "id", "i") {
            Some(s) => s.clone(),
            None => String::new(),
        };
        let ver: String = match get_text(&rows[i], "ver", "v") {
            Some(s) => s.clone(),
            None => String::new(),
        };
        if !id.as_str().is_empty() && !guest_has_pkg(offer, id.as_str(), ver.as_str()) {
            let row = rows[i].copy();
            proof {
                lemma_items_push(out@, row);
            }
            out.push(row);
        }
        i = i + 1;
    }
    proof {
        assert(all.take(rows@.len() as int) =~= all);
    }
    out
}

// ----------------------------------------------------------------- seating

/// How an attempt to sit down ends.
pub enum SeatResult {
    Refused(&'static str),
    NeedMods { mods: Vec<Json>, can_transfer: bool },
    Seated {
        slot: usize,
        session_id: u32,
        host_endpoint: String,
        guest_endpoint: String,
        match_caps: Option<Json>,
    },
}

pub ghost enum SeatOutcome {
    Refused(Seq<char>),
    NeedMods { mods: Seq<JsonView>, can_transfer: bool },
    Seated {
        slot: int,
        session_id: u32,
        host_endpoint: Seq<char>,
        guest_endpoint: Seq<char>,
        match_caps: Option<JsonView>,
    },
}

impl View for SeatResult {
    type V = SeatOutcome;

    open spec fn view(&self) -> SeatOutcome {
        match self {
            SeatResult::Refused(c) => SeatOutcome::Refused(c@),
            SeatResult::NeedMods { mods, can_transfer } => SeatOutcome::NeedMods {
                mods: items_view(mods@),
                can_transfer: *can_transfer,
            },
            SeatResult::Seated { slot, session_id, host_endpoint, guest_endpoint, match_caps } =>
                SeatOutcome::Seated {
                slot: *slot as int,
                session_id: *session_id,
                host_endpoint: host_endpoint@,
                guest_endpoint: guest_endpoint@,
                match_caps: opt_json(*match_caps),
            },
        }
    }
}

/// The seat for a newcomer: the first free player seat, and once the players
/// are full the first free seat of the gallery.
pub open spec fn seat_for(l: LobbyView) -> Option<int> {
    if l.player_count() < l.max_slots && free_at(l.slots) is Some {
        free_at(l.slots)
    } else {
        match free_at(l.spectators) {
            Some(i) => Some(SPECTATOR_SLOT_BASE + i),
            None => None,
        }
    }
}

/// The room once a newcomer sits in `seat`.
pub open spec fn joined_lobby(l: LobbyView, seat: int, s: SlotView, guest_endpoint: Seq<char>) -> LobbyView {
    LobbyView { guest_endpoint, ..l.with_seat(seat, Some(s)).reshuffled() }
}

/// The name that a joining client asks for.
pub open spec fn wanted_name(h: HubView, id: Seq<char>) -> Seq<char> {
    match h.client(id) {
        Some(c) => c.display_name,
        None => "Guest"@,
    }
}

pub open spec fn country_of(h: HubView, id: Seq<char>) -> Seq<char> {
    match h.client(id) {
        Some(c) => c.country,
        None => Seq::empty(),
    }
}

/// The client once it sits in the room of `l`.
pub open spec fn seated_client(c: ClientView, lid: Seq<char>, name: Seq<char>, game: Seq<char>) -> ClientView {
    ClientView {
        lobby_id: Some(lid),
        display_name: name,
        game_name: if game.len() == 0 {
            c.game_name
        } else {
            game
        },
        ..c
    }
}

/// Seats `id` in the room `lid`, or says what stands in the way: the password,
/// then the mods, then the seats.
pub open spec fn seat_step(
    h: HubView,
    lid: Seq<char>,
    id: Seq<char>,
    peer_ip: Seq<char>,
    guest_bind: Seq<char>,
    password: Option<Seq<char>>,
    mod_offer: Option<JsonView>,
    tag: Seq<char>,
) -> (HubView, SeatOutcome) {
    match h.lobby(lid) {
        None => (h, SeatOutcome::Refused("gone"@)),
        Some(l) => match password_error(l, password) {
            Some(code) => (h, SeatOutcome::Refused(code)),
            None => {
                let missing = missing_rows(required_mods(l.match_caps), mod_offer);
                if missing.len() > 0 {
                    (h, SeatOutcome::NeedMods { mods: missing, can_transfer: true })
                } else {
                    match seat_for(l) {
                        None => (h, SeatOutcome::Refused("full"@)),
                        Some(seat) => {
                            let name = l.unique_name(wanted_name(h, id), Some(id), tag);
                            let guest = rewritten(guest_bind, peer_ip);
                            let h2 = h.with_lobby(
                                lid,
                                joined_lobby(
                                    l,
                                    seat,
                                    fresh_slot(id, name, country_of(h, id)),
                                    guest,
                                ),
                            );
                            let h3 = match h2.client(id) {
                                Some(c) => h2.with_client(
                                    id,
                                    seated_client(c, lid, name, l.game_name),
                                ),
                                None => h2,
                            };
                            (
                                h3,
                                SeatOutcome::Seated {
                                    slot: seat,
                                    session_id: l.session_id,
                                    host_endpoint: l.host_endpoint,
                                    guest_endpoint: guest,
                                    match_caps: l.match_caps,
                                },
                            )
                        },
                    }
                }
            },
        },
    }
}

fn seat_for_newcomer(l: &Lobby) -> (r: Option<usize>)
    requires
        l@.wf(),
    ensures
        match (r, seat_for(l@)) {
            (Some(a), Some(b)) => a == b && l@.seat(b) is Some,
            (None, None) => true,
            _ => false,
        },
{
    if player_count(l) < l.max_slots {
        if let Some(i) = find_free(&l.slots) {
            if !is_spectator_seat(i) {
                return Some(i);
            }
        }
    }
    match find_free(&l.spectators) {
        Some(i) => Some(spectator_seat(i)),
        None => None,
    }
}

impl HubInner {
    /// Seats a joiner. A full room is only full when there is no gallery to
    /// fall into.
    pub fn seat_joiner_locked(
        &mut self,
        lobby_id: &str,
        player_id: &str,
        peer_ip: &str,
        guest_bind: &str,
        password: &Option<String>,
        mod_offer: &Option<Json>,
        tag: &str,
    ) -> (r: SeatResult)
        requires
            old(self)@.wf(),
        ensures
            final(self)@.wf(),
            (final(self)@, r@) == seat_step(
                old(self)@,
                lobby_id@,
                player_id@,
                peer_ip@,
                guest_bind@,
                opt_view(*password),
                opt_json(*mod_offer),
                tag@,
            ),
    {
        let (requested, country) = match self.client(player_id) {
            Some(c) => (c.display_name.clone(), c.country.clone()),
            None => ("Guest".to_owned(), String::new()),
        };
        let li: usize = match self.lobby_index(lobby_id) {
            Some(i) => i,
            None => {
                return SeatResult::Refused("gone");
            },
        };
        proof {
            assert(self@.lobbies[li as int] == self.lobbies@[li as int]@);
            lemma_lobby_at(self@, lobby_id@);
        }
        let ghost h = self@;
        let ghost l = self@.lobbies[li as int];
        if let Some(code) = check_password(&self.lobbies[li], password) {
            return SeatResult::Refused(code);
        }
        let missing = missing_mods(required_mod_rows(&self.lobbies[li].match_caps), mod_offer);
        proof {
            lemma_items(missing@);
        }
        if missing.len() > 0 {
            return SeatResult::NeedMods { mods: missing, can_transfer: true };
        }
        let seat: usize = match seat_for_newcomer(&self.lobbies[li]) {
            Some(s) => s,
            None => {
                return SeatResult::Refused("full");
            },
        };
        let name = unique_display_name(&self.lobbies[li], requested.as_str(), Some(player_id), tag);
        let guest = rewrite_endpoint(guest_bind, peer_ip);
        let session_id: u32 = self.lobbies[li].session_id;
        let host_endpoint = self.lobbies[li].host_endpoint.clone();
        let match_caps = copy_opt(&self.lobbies[li].match_caps);
        let game = self.lobbies[li].game_name.clone();
        let slot = new_slot(player_id, name.as_str(), country.as_str());
        let lobby = self.lobby_mut(li);
        let _ = lobby.put_seat(seat, Some(slot));
        lobby.reshuffle();
        lobby.guest_endpoint = guest.clone();
        proof {
            let l2 = joined_lobby(
                l,
                seat as int,
                fresh_slot(player_id@, name@, country@),
                guest@,
            );
            assert(self@.lobbies[li as int] =~= l2);
            assert(self@ =~= h.with_lobby(lobby_id@, l2));
            lemma_with_lobby_wf(h, lobby_id@, l2);
        }
        if let Some(ci) = self.client_index(player_id) {
            let c = self.client_mut(ci);
            c.lobby_id = Some(lobby_id.to_owned());
            c.display_name = name;
            if !game.as_str().is_empty() {
                c.game_name = game;
            }
        }
        SeatResult::Seated { slot: seat, session_id, host_endpoint, guest_endpoint: guest, match_caps }
    }
}

// -------------------------------------------------------------------- join

impl HubView {
    /// The hub with a new name on the client `id`, where one is given.
    pub open spec fn renamed(self, id: Seq<char>, name: Option<Seq<char>>) -> HubView {
        match (name, self.client(id)) {
            (Some(n), Some(c)) => self.with_client(id, ClientView { display_name: n, ..c }),
            _ => self,
        }
    }

    /// The hub with the client `id` waiting on the mods of `lobby`.
    pub open spec fn pending(self, id: Seq<char>, lobby: Option<Seq<char>>) -> HubView {
        match self.client(id) {
            Some(c) => self.with_client(id, ClientView { pending_mod_lobby: lobby, ..c }),
            None => self,
        }
    }
}

impl HubInner {
    pub fn rename_client(&mut self, id: &str, name: Option<String>)
        ensures
            final(self)@ == old(self)@.renamed(id@, opt_view(name)),
            final(self)@.lobbies == old(self)@.lobbies,
    {
        match name {
            Some(n) => match self.client_index(id) {
                Some(i) => {
                    self.client_mut(i).display_name = n;
                },
                None => {},
            },
            None => {},
        }
    }

    pub fn set_pending(&mut self, id: &str, lobby: Option<String>)
        ensures
            final(self)@ == old(self)@.pending(id@, opt_view(lobby)),
            final(self)@.lobbies == old(self)@.lobbies,
    {
        match self.client_index(id) {
            Some(i) => {
                self.client_mut(i).pending_mod_lobby = lobby;
            },
            None => {},
        }
    }
}

/// Why the room `l` is not the one that the joiner's build can play in.
pub open spec fn build_mismatch(
    l: LobbyView,
    game: Option<Seq<char>>,
    version: Seq<char>,
    disc_fp: Seq<char>,
) -> Option<Seq<char>> {
    if discs_clash(l.disc_fp, disc_fp) {
        Some("disc_mismatch"@)
    } else if game is Some && l.game_name != game->0 {
        Some("game_mismatch"@)
    } else if l.game_version != version {
        Some("version_mismatch"@)
    } else {
        None
    }
}

fn check_build(l: &Lobby, game: &Option<String>, version: &str, disc_fp: &str) -> (r: Option<
    &'static str,
>)
    ensures
        super::wire::opt_str(r) == build_mismatch(l@, opt_view(*game), version@, disc_fp@),
{
    if disc_fp_mismatch(l.disc_fp.as_str(), disc_fp) {
        return Some("disc_mismatch");
    }
    if let Some(g) = game {
        if !same(l.game_name.as_str(), g.as_str()) {
            return Some("game_mismatch");
        }
    }
    if !same(l.game_version.as_str(), version) {
        return Some("version_mismatch");
    }
    None
}

pub open spec fn joined_msg(lid: Seq<char>, s: SeatOutcome) -> JsonView {
    let slot = s->slot;
    with_opt(
        empty_object().with("op"@, JsonView::Str("joined"@)).with("ok"@, JsonView::Bool(true)).with(
            "lobby_id"@,
            JsonView::Str(lid),
        ).with("session_id"@, JsonView::Int(s->session_id as int)).with(
            "local_slot"@,
            JsonView::Int(slot),
        ).with("spectator"@, JsonView::Bool(spectator_index(slot))).with(
            "spectator_slot_base"@,
            JsonView::Int(SPECTATOR_SLOT_BASE as int),
        ).with("host_endpoint"@, JsonView::Str(s->host_endpoint)).with(
            "guest_endpoint"@,
            JsonView::Str(s->guest_endpoint),
        ),
        "match_caps"@,
        s->match_caps,
    )
}

pub open spec fn need_mods_msg(lid: Seq<char>, host: Seq<char>, mods: Seq<JsonView>, transfer: bool) -> JsonView {
    empty_object().with("op"@, JsonView::Str("need_mods"@)).with("ok"@, JsonView::Bool(false)).with(
        "code"@,
        JsonView::Str("need_mods"@),
    ).with("lobby_id"@, JsonView::Str(lid)).with("host_player_id"@, JsonView::Str(host)).with(
        "mods"@,
        JsonView::Arr(mods),
    ).with("can_transfer"@, JsonView::Bool(transfer))
}

/// The line that a room reads when somebody came in.
pub open spec fn arrival_line(name: Seq<char>, slot: int) -> Seq<char> {
    if spectator_index(slot) {
        name + " has joined as a spectator."@
    } else {
        name + " has joined."@
    }
}

/// What follows from the outcome of an attempt to sit down in `lid`.
pub open spec fn seat_reply(h: HubView, id: Seq<char>, lid: Seq<char>, s: SeatOutcome) -> (
    HubView,
    Seq<EffectView>,
) {
    match s {
        SeatOutcome::Refused(code) => (
            h,
            counted(EventView::JoinFail(code)) + refusal(id, code),
        ),
        SeatOutcome::NeedMods { mods, can_transfer } => {
            let h2 = h.pending(id, Some(lid));
            let host = match h2.lobby(lid) {
                Some(l) => l.host_player_id,
                None => Seq::empty(),
            };
            (h2, sent(id, need_mods_msg(lid, host, mods, can_transfer)))
        },
        SeatOutcome::Seated { slot, .. } => {
            let h2 = h.pending(id, None);
            let name = match h2.client(id) {
                Some(c) => c.display_name,
                None => Seq::empty(),
            };
            (
                h2,
                sent(id, joined_msg(lid, s)) + lobby_update(h2, lid) + list_push(h2) + counted(
                    EventView::JoinOk,
                ) + system_line(h2, lid, arrival_line(name, slot)),
            )
        },
    }
}

pub open spec fn join_step(
    h: HubView,
    id: Seq<char>,
    peer_ip: Seq<char>,
    msg: InMsg,
    lid: Seq<char>,
    tag: Seq<char>,
) -> (HubView, Seq<EffectView>) {
    if h.lobby_id_of(id) is Some {
        (h, refusal(id, "already_in_lobby"@))
    } else {
        let h1 = h.renamed(id, nonempty(opt_view(msg.display_name)));
        let (h2, s) = match h1.lobby(lid) {
            None => (h1, SeatOutcome::Refused("gone"@)),
            Some(l) => match build_mismatch(
                l,
                nonempty(opt_view(msg.game_name)),
                version_of(opt_view(msg.game_version)),
                disc_fingerprint(opt_view(msg.disc_fp)),
            ) {
                Some(code) => (h1, SeatOutcome::Refused(code)),
                None => seat_step(
                    h1,
                    lid,
                    id,
                    peer_ip,
                    text_or(opt_view(msg.guest_bind), "0.0.0.0:7778"@),
                    opt_view(msg.password),
                    opt_json(msg.mod_offer),
                    tag,
                ),
            },
        };
        seat_reply(h2, id, lid, s)
    }
}

impl HubInner {
    /// Answers an attempt to sit down.
    fn reply_to_joiner(&mut self, player_id: &str, lid: &str, outcome: SeatResult) -> (r: Vec<Effect>)
        requires
            old(self)@.wf(),
        ensures
            final(self)@.wf(),
            (final(self)@, effects(r@)) == seat_reply(old(self)@, player_id@, lid@, outcome@),
    {
        let ghost s = outcome@;
        match outcome {
            SeatResult::Refused(code) => {
                let mut out = nothing();
                count(&mut out, Event::JoinFail(code.to_owned()));
                send_to(&mut out, player_id, super::wire::am_err(code));
                proof {
                    assert(effects(out@) =~= counted(EventView::JoinFail(code@)) + refusal(
                        player_id@,
                        code@,
                    ));
                }
                out
            },
            SeatResult::NeedMods { mods, can_transfer } => {
                self.set_pending(player_id, Some(lid.to_owned()));
                let host: String = match self.lobby(lid) {
                    Some(l) => l.host_player_id.clone(),
                    None => String::new(),
                };
                only(
                    player_id,
                    Json::object().with("op", Json::text("need_mods")).with(
                        "ok",
                        Json::flag(false),
                    ).with("code", Json::text("need_mods")).with("lobby_id", Json::text(lid)).with(
                        "host_player_id",
                        Json::text(host.as_str()),
                    ).with("mods", Json::Arr(mods)).with("can_transfer", Json::flag(can_transfer)),
                )
            },
            SeatResult::Seated { slot, session_id, host_endpoint, guest_endpoint, match_caps } => {
                self.set_pending(player_id, None);
                let base = Json::object().with("op", Json::text("joined")).with(
                    "ok",
                    Json::flag(true),
                ).with("lobby_id", Json::text(lid)).with(
                    "session_id",
                    Json::count(session_id as u64),
                ).with("local_slot", Json::count(slot as u64)).with(
                    "spectator",
                    Json::flag(is_spectator_seat(slot)),
                ).with("spectator_slot_base", Json::count(SPECTATOR_SLOT_BASE as u64)).with(
                    "host_endpoint",
                    Json::text(host_endpoint.as_str()),
                ).with("guest_endpoint", Json::text(guest_endpoint.as_str()));
                let joined = match match_caps {
                    Some(c) => base.with("match_caps", c),
                    None => base,
                };
                let mut out = only(player_id, joined);
                emit_lobby_update(&mut out, self, lid);
                broadcast_list(&mut out, self);
                count(&mut out, Event::JoinOk);
                let name: String = match self.client(player_id) {
                    Some(c) => c.display_name.clone(),
                    None => String::new(),
                };
                let line = if is_spectator_seat(slot) {
                    cat(name.as_str(), " has joined as a spectator.")
                } else {
                    cat(name.as_str(), " has joined.")
                };
                chat_system(&mut out, self, lid, line.as_str());
                out
            },
        }
    }

    /// Joins a room. `tag` marks a name that could not be numbered.
    pub fn handle_join(&mut self, player_id: &str, peer_ip: &str, msg: &InMsg, tag: &str) -> (r:
        Result<Vec<Effect>, &'static str>)
        requires
            old(self)@.wf(),
        ensures
            final(self)@.wf(),
            match (r, nonempty(opt_view(msg.lobby_id))) {
                (Ok(out), Some(lid)) => (final(self)@, effects(out@)) == join_step(
                    old(self)@,
                    player_id@,
                    peer_ip@,
                    *msg,
                    lid,
                    tag@,
                ),
                (Err(e), None) => e@ == "missing lobby_id"@ && final(self)@ == old(self)@,
                _ => false,
            },
    {
        let lid = match if_nonempty(&msg.lobby_id) {
            Some(l) => l,
            None => {
                return Err("missing lobby_id");
            },
        };
        if self.lobby_id_of(player_id).is_some() {
            return Ok(refuse(player_id, "already_in_lobby"));
        }
        self.rename_client(player_id, if_nonempty(&msg.display_name));
        let guest_bind = or_default(&msg.guest_bind, "0.0.0.0:7778");
        let game = if_nonempty(&msg.game_name);
        let version = normalize_game_version(&msg.game_version);
        let disc_fp = normalize_disc_fp(&msg.disc_fp);
        let refused: Option<&'static str> = match self.lobby(lid.as_str()) {
            None => Some("gone"),
            Some(l) => check_build(l, &game, version.as_str(), disc_fp.as_str()),
        };
        let outcome: SeatResult = match refused {
            Some(code) => SeatResult::Refused(code),
            None => self.seat_joiner_locked(
                lid.as_str(),
                player_id,
                peer_ip,
                guest_bind.as_str(),
                &msg.password,
                &msg.mod_offer,
                tag,
            ),
        };
        Ok(self.reply_to_joiner(player_id, lid.as_str(), outcome))
    }
}

// ------------------------------------------------------------------ create

/// How many player seats a room opens with.
pub open spec fn slots_wanted(max_slots: Option<u32>) -> int {
    match max_slots {
        Some(n) => if n < 2 {
            2
        } else if n > MAX_SLOTS {
            MAX_SLOTS as int
        } else {
            n as int
        },
        None => 2,
    }
}

/// A table of `n` seats with `s` in the first.
pub open spec fn first_seated(n: int, s: SlotView) -> Seq<Option<SlotView>> {
    Seq::new(
        n as nat,
        |i: int|
            if i == 0 {
                Some(s)
            } else {
                None
            },
    )
}

pub open spec fn gallery(open: bool) -> Seq<Option<SlotView>> {
    Seq::new(
        if open {
            MAX_SPECTATORS as nat
        } else {
            0
        },
        |i: int| None,
    )
}

/// The room that `id` opens.
pub open spec fn new_lobby(
    id: Seq<char>,
    name: Seq<char>,
    country: Seq<char>,
    peer_ip: Seq<char>,
    msg: InMsg,
    lid: Seq<char>,
    salt: Seq<u8>,
    session_id: u32,
) -> LobbyView {
    let bind = text_or(opt_view(msg.host_bind), "0.0.0.0:7777"@);
    let pw = nonempty(opt_view(msg.password));
    LobbyView {
        lobby_id: lid,
        name: text_or(opt_view(msg.name), "Lobby"@),
        game_name: text_or(opt_view(msg.game_name), "Unknown"@),
        game_version: version_of(opt_view(msg.game_version)),
        disc_fp: disc_fingerprint(opt_view(msg.disc_fp)),
        host_player_id: id,
        host_bind: bind,
        host_endpoint: rewritten(bind, peer_ip),
        lan_endpoints: Seq::empty(),
        guest_endpoint: Seq::empty(),
        password_hash: match pw {
            Some(p) => Some(password_digest(p, salt)),
            None => None,
        },
        password_salt: match pw {
            Some(_) => Some(salt),
            None => None,
        },
        max_slots: slots_wanted(msg.max_slots) as usize,
        session_id,
        slots: first_seated(slots_wanted(msg.max_slots), fresh_slot(id, name, country)),
        allow_spectators: msg.allow_spectators == Some(true),
        spectators: gallery(msg.allow_spectators == Some(true)),
        match_caps: bounded_object(opt_json(msg.match_caps), 4096),
        relay_session_id: None,
        started: false,
        automatch: false,
    }
}

/// The reply to whoever opened the room `l`.
pub open spec fn created_msg(l: LobbyView) -> JsonView {
    let s = l.slots[0]->0;
    with_opt(
        empty_object().with("op"@, JsonView::Str("created"@)).with("ok"@, JsonView::Bool(true)).with(
            "lobby_id"@,
            JsonView::Str(l.lobby_id),
        ).with("session_id"@, JsonView::Int(l.session_id as int)).with(
            "local_slot"@,
            JsonView::Int(0),
        ).with("host_endpoint"@, JsonView::Str(l.host_endpoint)).with(
            "guest_endpoint"@,
            JsonView::Str(""@),
        ).with("host_player_id"@, JsonView::Str(l.host_player_id)).with(
            "player_count"@,
            JsonView::Int(1),
        ).with("max_slots"@, JsonView::Int(l.max_slots as int)).with(
            "allow_spectators"@,
            JsonView::Bool(l.allow_spectators),
        ).with("max_spectators"@, JsonView::Int(l.spectators.len() as int)).with(
            "spectator_count"@,
            JsonView::Int(0),
        ).with("spectator_slot_base"@, JsonView::Int(SPECTATOR_SLOT_BASE as int)).with(
            "spectators"@,
            JsonView::Arr(Seq::empty()),
        ).with(
            "slots"@,
            JsonView::Arr(
                seq![
                    empty_object().with("slot"@, JsonView::Int(0)).with(
                        "player_id"@,
                        JsonView::Str(s.player_id),
                    ).with("display_name"@, JsonView::Str(s.display_name)).with(
                        "ready"@,
                        JsonView::Bool(false),
                    ),
                ],
            ),
        ),
        "match_caps"@,
        l.match_caps,
    )
}

pub open spec fn next_session(n: u32) -> u32 {
    if n == u32::MAX {
        n
    } else {
        (n + 1) as u32
    }
}

pub open spec fn create_step(
    h: HubView,
    id: Seq<char>,
    peer_ip: Seq<char>,
    msg: InMsg,
    lid: Seq<char>,
    salt: Seq<u8>,
) -> (HubView, Seq<EffectView>) {
    if h.lobby_id_of(id) is Some {
        (h, refusal(id, "already_in_lobby"@))
    } else if h.lobbies.len() >= MAX_LOBBIES {
        (h, refusal(id, "lobby_limit"@))
    } else {
        let h1 = h.renamed(id, nonempty(opt_view(msg.display_name)));
        let name = match h1.client(id) {
            Some(c) => c.display_name,
            None => "Host"@,
        };
        let l = new_lobby(
            id,
            name,
            country_of(h1, id),
            peer_ip,
            msg,
            lid,
            salt,
            h1.next_session,
        );
        let h2 = HubView {
            lobbies: h1.lobbies.push(l),
            next_session: next_session(h1.next_session),
            ..h1
        };
        let h3 = match h2.client(id) {
            Some(c) => h2.with_client(
                id,
                ClientView { lobby_id: Some(lid), game_name: l.game_name, ..c },
            ),
            None => h2,
        };
        (h3, sent(id, created_msg(l)) + list_push(h3) + counted(EventView::LobbyCreated))
    }
}

/// A table of `n` free seats.
pub fn free_seats(n: usize) -> (r: Vec<Option<Slot>>)
    ensures
        r@.len() == n,
        forall|i: int| 0 <= i < n ==> (#[trigger] r@[i]) is None,
{
    let mut out: Vec<Option<Slot>> = Vec::new();
    let mut i: usize = 0;
    while i < n
        invariant
            i <= n,
            out@.len() == i,
            forall|k: int| 0 <= k < i ==> (#[trigger] out@[k]) is None,
        decreases n - i,
    {
        out.push(None);
        i = i + 1;
    }
    out
}

fn copy_bytes(v: &Vec<u8>) -> (r: Vec<u8>)
    ensures
        r@ == v@,
{
    let mut out: Vec<u8> = Vec::new();
    let mut i: usize = 0;
    while i < v.len()
        invariant
            i <= v@.len(),
            out@ =~= v@.take(i as int),
        decreases v@.len() - i,
    {
        out.push(v[i]);
        i = i + 1;
    }
    out
}

/// Builds the room that a `create` asks for.
fn build_lobby(
    id: &str,
    name: &str,
    country: &str,
    peer_ip: &str,
    msg: &InMsg,
    lid: &str,
    salt: &Vec<u8>,
    session_id: u32,
) -> (r: Lobby)
    ensures
        r@ == new_lobby(id@, name@, country@, peer_ip@, *msg, lid@, salt@, session_id),
        r@.wf(),
        r@.slots.len() >= 2,
{
    let bind = or_default(&msg.host_bind, "0.0.0.0:7777");
    let endpoint = rewrite_endpoint(bind.as_str(), peer_ip);
    let max_slots: usize = match msg.max_slots {
        Some(n) => if n < 2 {
            2
        } else if n > 8 {
            MAX_SLOTS
        } else {
            n as usize
        },
        None => 2,
    };
    let open: bool = match msg.allow_spectators {
        Some(b) => b,
        None => false,
    };
    let mut slots = free_seats(max_slots);
    slots[0] = Some(new_slot(id, name, country));
    let spectators = free_seats(
        if open {
            MAX_SPECTATORS
        } else {
            0
        },
    );
    let (hash, kept) = match if_nonempty(&msg.password) {
        Some(pw) => (Some(hash_password(pw.as_str(), salt)), Some(copy_bytes(salt))),
        None => (None, None),
    };
    let r = Lobby {
        lobby_id: lid.to_owned(),
        name: or_default(&msg.name, "Lobby"),
        game_name: or_default(&msg.game_name, "Unknown"),
        game_version: normalize_game_version(&msg.game_version),
        disc_fp: normalize_disc_fp(&msg.disc_fp),
        host_player_id: id.to_owned(),
        host_bind: bind,
        host_endpoint: endpoint,
        lan_endpoints: Vec::new(),
        guest_endpoint: String::new(),
        password_hash: hash,
        password_salt: kept,
        max_slots,
        session_id,
        slots,
        allow_spectators: open,
        spectators,
        match_caps: sanitize_match_caps(&msg.match_caps),
        relay_session_id: None,
        started: false,
        automatch: false,
    };
    proof {
        let l = new_lobby(id@, name@, country@, peer_ip@, *msg, lid@, salt@, session_id);
        assert(r@.slots =~= l.slots);
        assert(r@.spectators =~= l.spectators);
        assert(r@.lan_endpoints =~= l.lan_endpoints);
        assert(r@ =~= l);
    }
    r
}

fn created_json(l: &Lobby, display_name: &str) -> (r: Json)
    requires
        l@.slots.len() > 0,
        l@.slots[0] is Some,
        l@.slots[0]->0.player_id == l@.host_player_id,
        l@.slots[0]->0.display_name == display_name@,
    ensures
        r@ == created_msg(l@),
{
    let row = Json::object().with("slot", Json::count(0)).with(
        "player_id",
        Json::text(l.host_player_id.as_str()),
    ).with("display_name", Json::text(display_name)).with("ready", Json::flag(false));
    let none: Vec<Json> = Vec::new();
    let mut rows: Vec<Json> = Vec::new();
    proof {
        lemma_items_push(rows@, row);
    }
    rows.push(row);
    proof {
        assert(items_view(rows@) =~= seq![row@]);
    }
    let base = Json::object().with("op", Json::text("created")).with("ok", Json::flag(true)).with(
        "lobby_id",
        Json::text(l.lobby_id.as_str()),
    ).with("session_id", Json::count(l.session_id as u64)).with("local_slot", Json::count(0)).with(
        "host_endpoint",
        Json::text(l.host_endpoint.as_str()),
    ).with("guest_endpoint", Json::text("")).with(
        "host_player_id",
        Json::text(l.host_player_id.as_str()),
    ).with("player_count", Json::count(1)).with("max_slots", Json::count(l.max_slots as u64)).with(
        "allow_spectators",
        Json::flag(l.allow_spectators),
    ).with("max_spectators", Json::count(l.spectators.len() as u64)).with(
        "spectator_count",
        Json::count(0),
    ).with("spectator_slot_base", Json::count(SPECTATOR_SLOT_BASE as u64)).with(
        "spectators",
        Json::Arr(none),
    ).with("slots", Json::Arr(rows));
    match &l.match_caps {
        Some(c) => base.with("match_caps", c.copy()),
        None => base,
    }
}

impl HubInner {
    /// Opens a room under the id `lid`. `salt` goes into the password digest.
    pub fn handle_create(
        &mut self,
        player_id: &str,
        peer_ip: &str,
        msg: &InMsg,
        lid: &str,
        salt: &Vec<u8>,
    ) -> (r: Vec<Effect>)
        requires
            old(self)@.wf(),
        ensures
            final(self)@.wf(),
            (final(self)@, effects(r@)) == create_step(
                old(self)@,
                player_id@,
                peer_ip@,
                *msg,
                lid@,
                salt@,
            ),
    {
        if self.lobby_id_of(player_id).is_some() {
            return refuse(player_id, "already_in_lobby");
        }
        if self.lobbies.len() >= MAX_LOBBIES {
            return refuse(player_id, "lobby_limit");
        }
        self.rename_client(player_id, if_nonempty(&msg.display_name));
        let ghost h1 = self@;
        let (name, country) = match self.client(player_id) {
            Some(c) => (c.display_name.clone(), c.country.clone()),
            None => ("Host".to_owned(), String::new()),
        };
        let session: u32 = self.next_session;
        self.next_session = if session == u32::MAX {
            session
        } else {
            session + 1
        };
        let lobby = build_lobby(
            player_id,
            name.as_str(),
            country.as_str(),
            peer_ip,
            msg,
            lid,
            salt,
            session,
        );
        let created = created_json(&lobby, name.as_str());
        let game = lobby.game_name.clone();
        let ghost l = lobby@;
        self.lobbies.push(lobby);
        proof {
            assert(self@ =~= (HubView {
                lobbies: h1.lobbies.push(l),
                next_session: next_session(h1.next_session),
                ..h1
            }));
        }
        if let Some(ci) = self.client_index(player_id) {
            let c = self.client_mut(ci);
            c.lobby_id = Some(lid.to_owned());
            c.game_name = game;
        }
        let mut out = only(player_id, created);
        broadcast_list(&mut out, self);
        count(&mut out, Event::LobbyCreated);
        out
    }
}

// -------------------------------------------------------------------- laws

/// A room with a password seats nobody who does not give it.
pub proof fn law_locked_rooms_need_their_password(
    h: HubView,
    lid: Seq<char>,
    id: Seq<char>,
    peer_ip: Seq<char>,
    guest_bind: Seq<char>,
    password: Option<Seq<char>>,
    mod_offer: Option<JsonView>,
    tag: Seq<char>,
)
    requires
        h.lobby(lid) is Some,
        h.lobby(lid)->0.password_hash is Some,
        h.lobby(lid)->0.password_salt is Some,
        nonempty(password) matches Some(pw) ==> password_digest(
            pw,
            h.lobby(lid)->0.password_salt->0,
        ) != h.lobby(lid)->0.password_hash->0,
    ensures
        ({
            let (h2, s) = seat_step(
                h,
                lid,
                id,
                peer_ip,
                guest_bind,
                password,
                mod_offer,
                tag,
            );
            h2 == h && s == SeatOutcome::Refused(
                if nonempty(password) is None {
                    "need_password"@
                } else {
                    "bad_password"@
                },
            )
        }),
{
}

/// The password that a room was opened with opens it.
pub proof fn law_the_password_opens(
    id: Seq<char>,
    name: Seq<char>,
    country: Seq<char>,
    peer_ip: Seq<char>,
    msg: InMsg,
    lid: Seq<char>,
    salt: Seq<u8>,
    session_id: u32,
)
    ensures
        password_error(
            new_lobby(id, name, country, peer_ip, msg, lid, salt, session_id),
            opt_view(msg.password),
        ) is None,
{
}

/// A newcomer is turned away for want of a seat only where no player seat is to
/// be had and the gallery is full.
pub proof fn law_a_full_room_has_no_gallery_seat(l: LobbyView, i: int)
    requires
        seat_for(l) is None,
        0 <= i < l.spectators.len(),
    ensures
        l.spectators[i] is Some,
        l.player_count() >= l.max_slots || free_at(l.slots) is None,
{
    crate::find::lemma_first_where(l.spectators, |o: Option<SlotView>| o is None);
}

/// Whoever sat down sits in the seat that they were told, in the room that they
/// asked for, and names it.
pub proof fn law_joined_is_seated(
    h: HubView,
    lid: Seq<char>,
    id: Seq<char>,
    peer_ip: Seq<char>,
    guest_bind: Seq<char>,
    password: Option<Seq<char>>,
    mod_offer: Option<JsonView>,
    tag: Seq<char>,
)
    requires
        h.wf(),
        h.client(id) is Some,
        seat_step(h, lid, id, peer_ip, guest_bind, password, mod_offer, tag).1 is Seated,
    ensures
        ({
            let (h2, s) = seat_step(
                h,
                lid,
                id,
                peer_ip,
                guest_bind,
                password,
                mod_offer,
                tag,
            );
            who(h2, lid, s->slot) == Some(id) && h2.lobby_id_of(id) == Some(lid)
        }),
{
    let (h3, s) = seat_step(h, lid, id, peer_ip, guest_bind, password, mod_offer, tag);
    lemma_lobby_at(h, lid);
    let l = h.lobby(lid)->0;
    crate::find::lemma_first_where(l.slots, |o: Option<SlotView>| o is None);
    crate::find::lemma_first_where(l.spectators, |o: Option<SlotView>| o is None);
    crate::find::lemma_first_where(h.clients, |c: ClientView| c.player_id == id);
    let seat = s->slot;
    let name = l.unique_name(wanted_name(h, id), Some(id), tag);
    let sat = fresh_slot(id, name, country_of(h, id));
    let guest = rewritten(guest_bind, peer_ip);
    let l2 = joined_lobby(l, seat, sat, guest);
    lemma_with_seat(l, seat, Some(sat));
    lemma_reshuffled(l.with_seat(seat, Some(sat)));
    assert(who_in(l.with_seat(seat, Some(sat)).reshuffled(), seat) == Some(id));
    assert(who_in(l2, seat) == Some(id));
    let h2 = h.with_lobby(lid, l2);
    lemma_with_lobby(h, lid, l2);
    assert(h2.clients == h.clients);
    assert(h2.client(id) == h.client(id));
    let c2 = seated_client(h.client(id)->0, lid, name, l.game_name);
    lemma_with_client(h2, id, c2);
    assert(h3 == h2.with_client(id, c2));
    assert(h3.client(id) == Some(c2));
    assert(h3.lobbies == h2.lobbies);
    assert(h3.lobby(lid) == h2.lobby(lid));
}

/// A name that a room gives is nobody else's there.
pub proof fn law_seated_names_are_unique(
    l: LobbyView,
    requested: Seq<char>,
    skip: Option<Seq<char>>,
    tag: Seq<char>,
)
    requires
        l.wf(),
    ensures
        !l.name_taken(l.unique_name(requested, skip, tag), skip),
{
    let base = if trimmed(requested).len() == 0 {
        "Guest"@
    } else {
        trimmed(requested)
    };
    lemma_free_number(l, base, 2, skip);
    lemma_some_number_is_free(l, base, skip);
}

proof fn lemma_seated_count(s: Seq<Option<SlotView>>)
    ensures
        seated(s).len() <= s.len(),
    decreases s.len(),
{
    if s.len() > 0 {
        lemma_seated_count(s.drop_last());
    }
}

/// Two numbers make two names.
proof fn lemma_numbers_differ(base: Seq<char>, a: int, b: int)
    requires
        0 <= a,
        0 <= b,
        numbered(base, a) == numbered(base, b),
    ensures
        a == b,
{
    let x = decimal(a as nat);
    let y = decimal(b as nat);
    let front = base + " ("@;
    assert(numbered(base, a).len() == front.len() + x.len() + ")"@.len());
    assert(numbered(base, b).len() == front.len() + y.len() + ")"@.len());
    assert(x =~= numbered(base, a).subrange(front.len() as int, (front.len() + x.len()) as int));
    assert(y =~= numbered(base, b).subrange(front.len() as int, (front.len() + y.len()) as int));
    lemma_numeral_number(a as nat, 10);
    lemma_numeral_number(b as nat, 10);
}

/// A room seats too few to take every number.
proof fn lemma_some_number_is_free(l: LobbyView, base: Seq<char>, skip: Option<Seq<char>>)
    requires
        l.wf(),
    ensures
        l.free_number(base, 2, skip) is Some,
{
    if l.free_number(base, 2, skip) is None {
        lemma_all_taken(l, base, 2, skip);
        let all = l.everyone();
        let names = all.map_values(|s: SlotView| s.display_name);
        let wanted = Seq::new(63, |i: int| numbered(base, i + 2));
        lemma_seated_count(l.slots);
        lemma_seated_count(l.spectators);
        assert forall|i: int, j: int| 0 <= i < j < wanted.len() implies wanted[i] != wanted[j] by {
            if wanted[i] == wanted[j] {
                lemma_numbers_differ(base, i + 2, j + 2);
            }
        }
        assert(wanted.no_duplicates());
        wanted.unique_seq_to_set();
        assert forall|n: Seq<char>| wanted.to_set().contains(n) implies names.to_set().contains(n) by {
            let i = choose|i: int| 0 <= i < wanted.len() && wanted[i] == n;
            assert(l.name_taken(numbered(base, i + 2), skip));
            let k = choose|k: int|
                0 <= k < all.len() && skip != Some(all[k].player_id) && (
                #[trigger] all[k]).display_name == numbered(base, i + 2);
            assert(names[k] == n);
        }
        vstd::seq_lib::seq_to_set_is_finite(names);
        vstd::set_lib::lemma_len_subset(wanted.to_set(), names.to_set());
        names.lemma_cardinality_of_set();
    }
}

proof fn lemma_all_taken(l: LobbyView, base: Seq<char>, n: int, skip: Option<Seq<char>>)
    requires
        l.free_number(base, n, skip) is None,
    ensures
        forall|k: int| n <= k <= 64 ==> l.name_taken(#[trigger] numbered(base, k), skip),
    decreases 65 - n,
{
    if n <= 64 {
        lemma_all_taken(l, base, n + 1, skip);
    }
}

proof fn lemma_free_number(l: LobbyView, base: Seq<char>, n: int, skip: Option<Seq<char>>)
    ensures
        l.free_number(base, n, skip) matches Some(k) ==> !l.name_taken(
            super::model::numbered(base, k),
            skip,
        ),
    decreases 65 - n,
{
    if n <= 64 && l.name_taken(super::model::numbered(base, n), skip) {
        lemma_free_number(l, base, n + 1, skip);
    }
}

} // verus!
