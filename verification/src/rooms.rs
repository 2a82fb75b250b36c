//! In-memory game-filtered rooms and the bootstrap of their sessions.

use crate::find::{first_where, lemma_first_is, lemma_first_none, lemma_first_where};
use crate::metrics::{counts_view, GameCount};
use crate::outside::{new_uuid, random_u32, uuid_shape};
use crate::tally::{tally, tally_names};
use crate::text::{clone_opt, opt_view, same, string_of, views};
use crate::ws_lobby::wire::opt_str;
use vstd::prelude::*;
use vstd::string::*;

verus! {

#[derive(Debug, Clone, Copy, PartialEq, Eq, Structural)]
pub enum RoomStatus {
    Open,
    Starting,
    Running,
    Closed,
}

pub struct Member {
    pub player_id: String,
    pub local_slot: u8,
    pub ready: bool,
    /// In milliseconds of the clock.
    pub last_heartbeat: i64,
}

#[verifier::ext_equal]
pub ghost struct MemberView {
    pub player_id: Seq<char>,
    pub local_slot: u8,
    pub ready: bool,
    pub last_heartbeat: i64,
}

impl View for Member {
    type V = MemberView;

    open spec fn view(&self) -> MemberView {
        MemberView {
            player_id: self.player_id@,
            local_slot: self.local_slot,
            ready: self.ready,
            last_heartbeat: self.last_heartbeat,
        }
    }
}

pub open spec fn members_view(v: Seq<Member>) -> Seq<MemberView> {
    v.map_values(|m: Member| m@)
}

#[derive(Debug, Clone, Copy, PartialEq, Eq, Structural)]
pub struct RnetBootstrap {
    pub session_id: u32,
    pub protocol_magic: u32,
    pub slot_count: u8,
    pub input_delay: u8,
    pub local_slot: u8,
    pub you_are_sim_authority: bool,
}

pub struct Room {
    pub room_id: String,
    pub game_id: String,
    pub client_version: String,
    pub display_name: String,
    pub slot_count: u8,
    pub input_delay: u8,
    pub protocol_magic: u32,
    pub session_id: Option<u32>,
    pub is_private: bool,
    pub join_code: Option<String>,
    pub status: RoomStatus,
    pub host_player_id: String,
    pub members: Vec<Member>,
    pub created_at: i64,
    pub updated_at: i64,
}

#[verifier::ext_equal]
pub ghost struct RoomModel {
    pub room_id: Seq<char>,
    pub game_id: Seq<char>,
    pub client_version: Seq<char>,
    pub display_name: Seq<char>,
    pub slot_count: u8,
    pub input_delay: u8,
    pub protocol_magic: u32,
    pub session_id: Option<u32>,
    pub is_private: bool,
    pub join_code: Option<Seq<char>>,
    pub status: RoomStatus,
    pub host_player_id: Seq<char>,
    pub members: Seq<MemberView>,
    pub created_at: i64,
    pub updated_at: i64,
}

impl View for Room {
    type V = RoomModel;

    open spec fn view(&self) -> RoomModel {
        RoomModel {
            room_id: self.room_id@,
            game_id: self.game_id@,
            client_version: self.client_version@,
            display_name: self.display_name@,
            slot_count: self.slot_count,
            input_delay: self.input_delay,
            protocol_magic: self.protocol_magic,
            session_id: self.session_id,
            is_private: self.is_private,
            join_code: opt_view(self.join_code),
            status: self.status,
            host_player_id: self.host_player_id@,
            members: members_view(self.members@),
            created_at: self.created_at,
            updated_at: self.updated_at,
        }
    }
}

pub struct RoomSummary {
    pub room_id: String,
    pub game_id: String,
    pub client_version: String,
    pub display_name: String,
    pub slot_count: u8,
    pub member_count: usize,
    pub input_delay: u8,
    pub is_private: bool,
    pub status: RoomStatus,
}

#[verifier::ext_equal]
pub ghost struct SummaryView {
    pub room_id: Seq<char>,
    pub game_id: Seq<char>,
    pub client_version: Seq<char>,
    pub display_name: Seq<char>,
    pub slot_count: u8,
    pub member_count: int,
    pub input_delay: u8,
    pub is_private: bool,
    pub status: RoomStatus,
}

impl View for RoomSummary {
    type V = SummaryView;

    open spec fn view(&self) -> SummaryView {
        SummaryView {
            room_id: self.room_id@,
            game_id: self.game_id@,
            client_version: self.client_version@,
            display_name: self.display_name@,
            slot_count: self.slot_count,
            member_count: self.member_count as int,
            input_delay: self.input_delay,
            is_private: self.is_private,
            status: self.status,
        }
    }
}

#[derive(Debug, Clone, Copy, PartialEq, Eq, Structural)]
pub enum RoomError {
    NotFound,
    Full,
    NotJoinable,
    BadJoinCode,
    GameMismatch,
    VersionMismatch,
    AlreadyJoined,
    NotMember,
    NotHost,
    BadSlotCount,
    GameNotAllowed,
}

/// What an error says.
pub open spec fn room_error_text(e: RoomError) -> Seq<char> {
    match e {
        RoomError::NotFound => "room not found"@,
        RoomError::Full => "room is full"@,
        RoomError::NotJoinable => "room is not joinable"@,
        RoomError::BadJoinCode => "invalid join code"@,
        RoomError::GameMismatch => "game_id mismatch"@,
        RoomError::VersionMismatch => "client_version mismatch"@,
        RoomError::AlreadyJoined => "player already in room"@,
        RoomError::NotMember => "player not in room"@,
        RoomError::NotHost => "not room host"@,
        RoomError::BadSlotCount => "invalid slot_count"@,
        RoomError::GameNotAllowed => "game_id not allowed"@,
    }
}

impl RoomError {
    /// What the error says.
    pub fn message(&self) -> (r: &'static str)
        ensures
            r@ == room_error_text(*self),
    {
        match self {
            RoomError::NotFound => "room not found",
            RoomError::Full => "room is full",
            RoomError::NotJoinable => "room is not joinable",
            RoomError::BadJoinCode => "invalid join code",
            RoomError::GameMismatch => "game_id mismatch",
            RoomError::VersionMismatch => "client_version mismatch",
            RoomError::AlreadyJoined => "player already in room",
            RoomError::NotMember => "player not in room",
            RoomError::NotHost => "not room host",
            RoomError::BadSlotCount => "invalid slot_count",
            RoomError::GameNotAllowed => "game_id not allowed",
        }
    }
}

pub struct RoomRegistry {
    pub rooms: Vec<Room>,
}

pub open spec fn rooms_view(v: Seq<Room>) -> Seq<RoomModel> {
    v.map_values(|r: Room| r@)
}

impl View for RoomRegistry {
    type V = Seq<RoomModel>;

    open spec fn view(&self) -> Seq<RoomModel> {
        rooms_view(self.rooms@)
    }
}

impl Default for RoomRegistry {
    fn default() -> (r: RoomRegistry)
        ensures
            r@ == Seq::<RoomModel>::empty(),
    {
        let r = RoomRegistry { rooms: Vec::new() };
        proof {
            assert(r@ =~= Seq::<RoomModel>::empty());
        }
        r
    }
}

// --------------------------------------------------------------- the model

/// Where the room `id` stands.
pub open spec fn room_at(rs: Seq<RoomModel>, id: Seq<char>) -> Option<int> {
    first_where(rs, |r: RoomModel| r.room_id == id)
}

pub open spec fn room_of(rs: Seq<RoomModel>, id: Seq<char>) -> Option<RoomModel> {
    match room_at(rs, id) {
        Some(i) => Some(rs[i]),
        None => None,
    }
}

/// The registry with `r` in the place of the room `id`.
pub open spec fn with_room(rs: Seq<RoomModel>, id: Seq<char>, r: RoomModel) -> Seq<RoomModel> {
    match room_at(rs, id) {
        Some(i) => rs.update(i, r),
        None => rs,
    }
}

pub open spec fn without_room(rs: Seq<RoomModel>, id: Seq<char>) -> Seq<RoomModel> {
    match room_at(rs, id) {
        Some(i) => rs.remove(i),
        None => rs,
    }
}

pub open spec fn member_at(ms: Seq<MemberView>, id: Seq<char>) -> Option<int> {
    first_where(ms, |m: MemberView| m.player_id == id)
}

/// The 32 letters of a join code.
pub open spec fn code_letters() -> Seq<char> {
    "ABCDEFGHJKLMNPQRSTUVWXYZ23456789"@
}

/// The join code of some numbers: a letter for each.
pub open spec fn code_of(rolls: Seq<u32>) -> Seq<char> {
    rolls.map_values(|n: u32| code_letters()[n as int % 32])
}

pub open spec fn new_room(
    host: Seq<char>,
    game_id: Seq<char>,
    client_version: Seq<char>,
    display_name: Seq<char>,
    slot_count: u8,
    input_delay: u8,
    protocol_magic: u32,
    is_private: bool,
    room_id: Seq<char>,
    code: Seq<char>,
    now: i64,
) -> RoomModel {
    RoomModel {
        room_id,
        game_id,
        client_version,
        display_name,
        slot_count,
        input_delay,
        protocol_magic,
        session_id: None,
        is_private,
        join_code: if is_private {
            Some(code)
        } else {
            None
        },
        status: RoomStatus::Open,
        host_player_id: host,
        members: seq![
            MemberView { player_id: host, local_slot: 0, ready: false, last_heartbeat: now },
        ],
        created_at: now,
        updated_at: now,
    }
}

/// Whether a room is in the public list of a title and a version.
pub open spec fn listed_for(r: RoomModel, game: Seq<char>, version: Option<Seq<char>>) -> bool {
    r.status == RoomStatus::Open && !r.is_private && r.game_id == game && (version is Some
        ==> version->0 == r.client_version) && r.members.len() < r.slot_count
}

pub open spec fn summary_of(r: RoomModel) -> SummaryView {
    SummaryView {
        room_id: r.room_id,
        game_id: r.game_id,
        client_version: r.client_version,
        display_name: r.display_name,
        slot_count: r.slot_count,
        member_count: r.members.len() as int,
        input_delay: r.input_delay,
        is_private: r.is_private,
        status: r.status,
    }
}

pub open spec fn public_list(rs: Seq<RoomModel>, game: Seq<char>, version: Option<Seq<char>>) -> Seq<
    SummaryView,
>
    decreases rs.len(),
{
    if rs.len() == 0 {
        Seq::empty()
    } else if listed_for(rs.last(), game, version) {
        public_list(rs.drop_last(), game, version).push(summary_of(rs.last()))
    } else {
        public_list(rs.drop_last(), game, version)
    }
}

pub open spec fn slot_used(ms: Seq<MemberView>, s: int) -> bool {
    exists|i: int| 0 <= i < ms.len() && (#[trigger] ms[i]).local_slot == s
}

/// The first slot from `s` to below `n` that nobody has.
pub open spec fn free_slot(ms: Seq<MemberView>, n: int, s: int) -> Option<int>
    decreases n - s,
{
    if s >= n {
        None
    } else if !slot_used(ms, s) {
        Some(s)
    } else {
        free_slot(ms, n, s + 1)
    }
}

/// Why a player may not join a room, if so.
pub open spec fn join_error(
    r: RoomModel,
    player: Seq<char>,
    game: Seq<char>,
    version: Seq<char>,
    code: Option<Seq<char>>,
) -> Option<RoomError> {
    if r.status != RoomStatus::Open {
        Some(RoomError::NotJoinable)
    } else if r.game_id != game {
        Some(RoomError::GameMismatch)
    } else if r.client_version != version {
        Some(RoomError::VersionMismatch)
    } else if r.is_private && !(r.join_code is Some && code is Some && r.join_code == code) {
        Some(RoomError::BadJoinCode)
    } else if member_at(r.members, player) is Some {
        Some(RoomError::AlreadyJoined)
    } else if r.members.len() >= r.slot_count || free_slot(r.members, r.slot_count as int, 0)
        is None {
        Some(RoomError::Full)
    } else {
        None
    }
}

/// The room once a player joined it.
pub open spec fn joined_room(r: RoomModel, player: Seq<char>, now: i64) -> RoomModel {
    RoomModel {
        members: r.members.push(
            MemberView {
                player_id: player,
                local_slot: free_slot(r.members, r.slot_count as int, 0)->0 as u8,
                ready: false,
                last_heartbeat: now,
            },
        ),
        updated_at: now,
        ..r
    }
}

pub open spec fn join_step(
    rs: Seq<RoomModel>,
    id: Seq<char>,
    player: Seq<char>,
    game: Seq<char>,
    version: Seq<char>,
    code: Option<Seq<char>>,
    now: i64,
) -> (Seq<RoomModel>, Result<RoomModel, RoomError>) {
    match room_of(rs, id) {
        None => (rs, Err(RoomError::NotFound)),
        Some(r) => match join_error(r, player, game, version, code) {
            Some(e) => (rs, Err(e)),
            None => {
                let r2 = joined_room(r, player, now);
                (with_room(rs, id, r2), Ok(r2))
            },
        },
    }
}

/// The members without `player`.
pub open spec fn others(ms: Seq<MemberView>, player: Seq<char>) -> Seq<MemberView>
    decreases ms.len(),
{
    if ms.len() == 0 {
        Seq::empty()
    } else if ms.last().player_id != player {
        others(ms.drop_last(), player).push(ms.last())
    } else {
        others(ms.drop_last(), player)
    }
}

pub open spec fn unready_members(ms: Seq<MemberView>) -> Seq<MemberView> {
    ms.map_values(|m: MemberView| MemberView { ready: false, ..m })
}

/// The room as it is without a session being due.
pub open spec fn reopened(r: RoomModel) -> RoomModel {
    if r.status == RoomStatus::Starting {
        RoomModel { status: RoomStatus::Open, session_id: None, ..r }
    } else {
        r
    }
}

/// The room once somebody other than its host left it.
pub open spec fn left_room(r: RoomModel, player: Seq<char>, now: i64) -> RoomModel {
    reopened(
        RoomModel {
            members: unready_members(others(r.members, player)),
            updated_at: now,
            ..r
        },
    )
}

pub open spec fn leave_step(rs: Seq<RoomModel>, id: Seq<char>, player: Seq<char>, now: i64) -> (
    Seq<RoomModel>,
    Result<RoomModel, RoomError>,
) {
    match room_of(rs, id) {
        None => (rs, Err(RoomError::NotFound)),
        Some(r) => if member_at(r.members, player) is None {
            (rs, Err(RoomError::NotMember))
        } else if r.host_player_id == player {
            (without_room(rs, id), Ok(RoomModel { status: RoomStatus::Closed, ..r }))
        } else {
            let r2 = left_room(r, player, now);
            (with_room(rs, id, r2), Ok(r2))
        },
    }
}

/// Whether everybody in the room is ready.
pub open spec fn all_set(r: RoomModel) -> bool {
    forall|i: int| 0 <= i < r.members.len() ==> (#[trigger] r.members[i]).ready
}

/// The room once the member at `i` said whether it is ready. A session that
/// becomes due gets the id `roll`.
pub open spec fn readied_room(r: RoomModel, i: int, ready: bool, roll: u32, now: i64) -> RoomModel {
    let r1 = RoomModel {
        members: r.members.update(
            i,
            MemberView { ready, last_heartbeat: now, ..r.members[i] },
        ),
        updated_at: now,
        ..r
    };
    if all_set(r1) {
        RoomModel {
            session_id: if r1.session_id is None {
                Some(roll)
            } else {
                r1.session_id
            },
            status: RoomStatus::Starting,
            ..r1
        }
    } else {
        reopened(r1)
    }
}

pub open spec fn ready_step(
    rs: Seq<RoomModel>,
    id: Seq<char>,
    player: Seq<char>,
    ready: bool,
    roll: u32,
    now: i64,
) -> (Seq<RoomModel>, Result<RoomModel, RoomError>) {
    match room_of(rs, id) {
        None => (rs, Err(RoomError::NotFound)),
        Some(r) => if r.status != RoomStatus::Open && r.status != RoomStatus::Starting {
            (rs, Err(RoomError::NotJoinable))
        } else {
            match member_at(r.members, player) {
                None => (rs, Err(RoomError::NotMember)),
                Some(i) => {
                    let r2 = readied_room(r, i, ready, roll, now);
                    (with_room(rs, id, r2), Ok(r2))
                },
            }
        },
    }
}

pub open spec fn heartbeat_step(rs: Seq<RoomModel>, id: Seq<char>, player: Seq<char>, now: i64) -> (
    Seq<RoomModel>,
    Result<(), RoomError>,
) {
    match room_of(rs, id) {
        None => (rs, Err(RoomError::NotFound)),
        Some(r) => match member_at(r.members, player) {
            None => (rs, Err(RoomError::NotMember)),
            Some(i) => (
                with_room(
                    rs,
                    id,
                    RoomModel {
                        members: r.members.update(
                            i,
                            MemberView { last_heartbeat: now, ..r.members[i] },
                        ),
                        updated_at: now,
                        ..r
                    },
                ),
                Ok(()),
            ),
        },
    }
}

pub open spec fn running_step(rs: Seq<RoomModel>, id: Seq<char>, player: Seq<char>, now: i64) -> (
    Seq<RoomModel>,
    Result<RoomModel, RoomError>,
) {
    match room_of(rs, id) {
        None => (rs, Err(RoomError::NotFound)),
        Some(r) => if r.host_player_id != player {
            (rs, Err(RoomError::NotHost))
        } else if r.status != RoomStatus::Starting {
            (rs, Err(RoomError::NotJoinable))
        } else {
            let r2 = RoomModel { status: RoomStatus::Running, updated_at: now, ..r };
            (with_room(rs, id, r2), Ok(r2))
        },
    }
}

pub open spec fn bootstrap(r: RoomModel, player: Seq<char>) -> Option<RnetBootstrap> {
    match (r.session_id, member_at(r.members, player)) {
        (Some(s), Some(i)) => Some(
            RnetBootstrap {
                session_id: s,
                protocol_magic: r.protocol_magic,
                slot_count: r.slot_count,
                input_delay: r.input_delay,
                local_slot: r.members[i].local_slot,
                you_are_sim_authority: r.members[i].local_slot == 0,
            },
        ),
        _ => None,
    }
}

/// The members that were heard of lately.
pub open spec fn live_members(ms: Seq<MemberView>, secs: u64, now: i64) -> Seq<MemberView>
    decreases ms.len(),
{
    if ms.len() == 0 {
        Seq::empty()
    } else if now - ms.last().last_heartbeat <= secs * 1000 {
        live_members(ms.drop_last(), secs, now).push(ms.last())
    } else {
        live_members(ms.drop_last(), secs, now)
    }
}

/// Whether a room stays: it has its host, and was used lately.
pub open spec fn stays(r: RoomModel, idle: u64, now: i64) -> bool {
    now - r.updated_at <= idle * 1000 && member_at(r.members, r.host_player_id) is Some
}

/// The rooms without the members and the rooms that went quiet.
pub open spec fn purged(rs: Seq<RoomModel>, heartbeat: u64, idle: u64, now: i64) -> Seq<RoomModel>
    decreases rs.len(),
{
    if rs.len() == 0 {
        Seq::empty()
    } else {
        let before = purged(rs.drop_last(), heartbeat, idle, now);
        let r = RoomModel {
            members: live_members(rs.last().members, heartbeat, now),
            ..rs.last()
        };
        if stays(r, idle, now) {
            before.push(r)
        } else {
            before
        }
    }
}

/// The titles of the rooms.
pub open spec fn titles(rs: Seq<RoomModel>) -> Seq<Seq<char>> {
    rs.map_values(|r: RoomModel| r.game_id)
}

/// The rooms whose match runs.
pub open spec fn running(rs: Seq<RoomModel>) -> Seq<RoomModel>
    decreases rs.len(),
{
    if rs.len() == 0 {
        Seq::empty()
    } else if rs.last().status == RoomStatus::Running {
        running(rs.drop_last()).push(rs.last())
    } else {
        running(rs.drop_last())
    }
}

pub open spec fn result_view(r: Result<Room, RoomError>) -> Result<RoomModel, RoomError> {
    match r {
        Ok(x) => Ok(x@),
        Err(e) => Err(e),
    }
}

// -------------------------------------------------------------- the rooms

fn copy_members(v: &Vec<Member>) -> (r: Vec<Member>)
    ensures
        members_view(r@) == members_view(v@),
{
    let mut out: Vec<Member> = Vec::new();
    let mut i: usize = 0;
    while i < v.len()
        invariant
            i <= v@.len(),
            members_view(out@) == members_view(v@).take(i as int),
        decreases v@.len() - i,
    {
        let m = Member {
            player_id: v[i].player_id.clone(),
            local_slot: v[i].local_slot,
            ready: v[i].ready,
            last_heartbeat: v[i].last_heartbeat,
        };
        let ghost before = out@;
        out.push(m);
        proof {
            assert(m@ =~= v@[i as int]@);
            assert(members_view(out@) =~= members_view(before).push(m@));
            assert(members_view(v@).take(i + 1) =~= members_view(v@).take(i as int).push(m@));
        }
        i = i + 1;
    }
    proof {
        assert(members_view(v@).take(v@.len() as int) =~= members_view(v@));
    }
    out
}

fn find_member(v: &Vec<Member>, id: &str) -> (r: Option<usize>)
    ensures
        match (r, member_at(members_view(v@), id@)) {
            (Some(a), Some(b)) => a == b && a < v@.len(),
            (None, None) => true,
            _ => false,
        },
{
    let ghost all = members_view(v@);
    let ghost p = |m: MemberView| m.player_id == id@;
    let mut i: usize = 0;
    while i < v.len()
        invariant
            i <= v@.len(),
            all == members_view(v@),
            p == (|m: MemberView| m.player_id == id@),
            forall|k: int| 0 <= k < i ==> !p(#[trigger] all[k]),
        decreases v@.len() - i,
    {
        proof {
            assert(all[i as int] == v@[i as int]@);
        }
        if same(v[i].player_id.as_str(), id) {
            proof {
                lemma_first_is(all, p, i as int);
            }
            return Some(i);
        }
        i = i + 1;
    }
    proof {
        lemma_first_none(all, p);
    }
    None
}

fn is_used(v: &Vec<Member>, s: u8) -> (r: bool)
    ensures
        r == slot_used(members_view(v@), s as int),
{
    let ghost all = members_view(v@);
    let mut i: usize = 0;
    while i < v.len()
        invariant
            i <= v@.len(),
            all == members_view(v@),
            forall|k: int| 0 <= k < i ==> (#[trigger] all[k]).local_slot != s,
        decreases v@.len() - i,
    {
        proof {
            assert(all[i as int] == v@[i as int]@);
        }
        if v[i].local_slot == s {
            return true;
        }
        i = i + 1;
    }
    false
}

fn find_slot(v: &Vec<Member>, n: u8) -> (r: Option<u8>)
    ensures
        match (r, free_slot(members_view(v@), n as int, 0)) {
            (Some(a), Some(b)) => a == b,
            (None, None) => true,
            _ => false,
        },
{
    let mut s: u8 = 0;
    while s < n
        invariant
            s <= n,
            free_slot(members_view(v@), n as int, 0) == free_slot(
                members_view(v@),
                n as int,
                s as int,
            ),
        decreases n - s,
    {
        if !is_used(v, s) {
            return Some(s);
        }
        s = s + 1;
    }
    None
}

/// The join code of some numbers by chance.
pub fn join_code(rolls: &Vec<u32>) -> (r: String)
    ensures
        r@ == code_of(rolls@),
{
    let letters = crate::text::chars_of("ABCDEFGHJKLMNPQRSTUVWXYZ23456789");
    proof {
        reveal_strlit("ABCDEFGHJKLMNPQRSTUVWXYZ23456789");
        assert(code_letters().len() == 32);
    }
    let mut out: Vec<char> = Vec::new();
    let mut i: usize = 0;
    while i < rolls.len()
        invariant
            i <= rolls@.len(),
            letters@ == code_letters(),
            letters@.len() == 32,
            out@ == code_of(rolls@).take(i as int),
        decreases rolls@.len() - i,
    {
        let k: usize = (rolls[i] % 32) as usize;
        out.push(letters[k]);
        proof {
            assert(code_of(rolls@).take(i + 1) =~= code_of(rolls@).take(i as int).push(
                letters@[k as int],
            ));
        }
        i = i + 1;
    }
    proof {
        assert(code_of(rolls@).take(rolls@.len() as int) =~= code_of(rolls@));
        assert(out@.subrange(0, out@.len() as int) =~= out@);
    }
    string_of(&out, 0, out.len())
}

/// A join code by chance: six letters out of the 32.
pub fn generate_join_code() -> (r: String)
    ensures
        exists|rolls: Seq<u32>| rolls.len() == 6 && r@ == #[trigger] code_of(rolls),
{
    let mut rolls: Vec<u32> = Vec::new();
    let mut i: usize = 0;
    while i < 6
        invariant
            i <= 6,
            rolls@.len() == i,
        decreases 6 - i,
    {
        rolls.push(random_u32());
        i = i + 1;
    }
    join_code(&rolls)
}

impl Room {
    pub fn copy(&self) -> (r: Room)
        ensures
            r@ == self@,
    {
        Room {
            room_id: self.room_id.clone(),
            game_id: self.game_id.clone(),
            client_version: self.client_version.clone(),
            display_name: self.display_name.clone(),
            slot_count: self.slot_count,
            input_delay: self.input_delay,
            protocol_magic: self.protocol_magic,
            session_id: self.session_id,
            is_private: self.is_private,
            join_code: clone_opt(&self.join_code),
            status: self.status,
            host_player_id: self.host_player_id.clone(),
            members: copy_members(&self.members),
            created_at: self.created_at,
            updated_at: self.updated_at,
        }
    }

    /// Whether somebody is a member.
    pub fn has_member(&self, player_id: &str) -> (r: bool)
        ensures
            r == (member_at(self@.members, player_id@) is Some),
    {
        find_member(&self.members, player_id).is_some()
    }

    fn summary(&self) -> (r: RoomSummary)
        ensures
            r@ == summary_of(self@),
    {
        proof {
            assert(self@.members.len() == self.members@.len());
        }
        RoomSummary {
            room_id: self.room_id.clone(),
            game_id: self.game_id.clone(),
            client_version: self.client_version.clone(),
            display_name: self.display_name.clone(),
            slot_count: self.slot_count,
            member_count: self.members.len(),
            input_delay: self.input_delay,
            is_private: self.is_private,
            status: self.status,
        }
    }

    fn is_listed(&self, game_id: &str, client_version: Option<&str>) -> (r: bool)
        ensures
            r == listed_for(self@, game_id@, opt_str(client_version)),
    {
        proof {
            assert(self@.members.len() == self.members@.len());
        }
        let version_ok = match client_version {
            Some(v) => same(v, self.client_version.as_str()),
            None => true,
        };
        self.status == RoomStatus::Open && !self.is_private && same(self.game_id.as_str(), game_id)
            && version_ok && self.members.len() < self.slot_count as usize
    }

    fn is_all_set(&self) -> (r: bool)
        ensures
            r == all_set(self@),
    {
        let ghost all = self@.members;
        proof {
            assert(all.len() == self.members@.len());
        }
        let mut i: usize = 0;
        while i < self.members.len()
            invariant
                i <= self.members@.len(),
                all == self@.members,
                all.len() == self.members@.len(),
                forall|k: int| 0 <= k < i ==> (#[trigger] all[k]).ready,
            decreases self.members@.len() - i,
        {
            proof {
                assert(all[i as int] == self.members@[i as int]@);
            }
            if !self.members[i].ready {
                proof {
                    assert(!self@.members[i as int].ready);
                }
                return false;
            }
            i = i + 1;
        }
        true
    }

    fn reopen(&mut self)
        ensures
            final(self)@ == reopened(old(self)@),
    {
        if self.status == RoomStatus::Starting {
            self.status = RoomStatus::Open;
            self.session_id = None;
        }
    }

    fn drop_member(&mut self, player_id: &str)
        ensures
            final(self)@ == (RoomModel {
                members: unready_members(others(old(self)@.members, player_id@)),
                ..old(self)@
            }),
    {
        let ghost all = self@.members;
        let mut kept: Vec<Member> = Vec::new();
        let mut i: usize = 0;
        proof {
            assert(all.take(0) =~= Seq::<MemberView>::empty());
            assert(members_view(kept@) =~= unready_members(Seq::<MemberView>::empty()));
        }
        while i < self.members.len()
            invariant
                i <= self.members@.len(),
                all == self@.members,
                members_view(kept@) == unready_members(others(all.take(i as int), player_id@)),
            decreases self.members@.len() - i,
        {
            proof {
                let t = all.take(i + 1);
                assert(t.drop_last() =~= all.take(i as int));
                assert(t.last() == self.members@[i as int]@);
            }
            if !same(self.members[i].player_id.as_str(), player_id) {
                let m = Member {
                    player_id: self.members[i].player_id.clone(),
                    local_slot: self.members[i].local_slot,
                    ready: false,
                    last_heartbeat: self.members[i].last_heartbeat,
                };
                let ghost before = kept@;
                kept.push(m);
                proof {
                    let o = others(all.take(i as int), player_id@);
                    assert(members_view(kept@) =~= members_view(before).push(m@));
                    assert(unready_members(o.push(all[i as int])) =~= unready_members(o).push(m@));
                }
            }
            i = i + 1;
        }
        proof {
            assert(all.take(self.members@.len() as int) =~= all);
        }
        self.members = kept;
    }

    fn drop_silent(&mut self, secs: u64, now: i64)
        requires
            secs <= 9_223_372_036_854_775,
        ensures
            final(self)@ == (RoomModel {
                members: live_members(old(self)@.members, secs, now),
                ..old(self)@
            }),
    {
        let ghost all = self@.members;
        let limit: i128 = secs as i128 * 1000;
        let mut kept: Vec<Member> = Vec::new();
        let mut i: usize = 0;
        proof {
            assert(all.take(0) =~= Seq::<MemberView>::empty());
            assert(members_view(kept@) =~= Seq::<MemberView>::empty());
        }
        while i < self.members.len()
            invariant
                i <= self.members@.len(),
                all == self@.members,
                limit == secs * 1000,
                members_view(kept@) == live_members(all.take(i as int), secs, now),
            decreases self.members@.len() - i,
        {
            proof {
                let t = all.take(i + 1);
                assert(t.drop_last() =~= all.take(i as int));
                assert(t.last() == self.members@[i as int]@);
            }
            if now as i128 - self.members[i].last_heartbeat as i128 <= limit {
                let m = Member {
                    player_id: self.members[i].player_id.clone(),
                    local_slot: self.members[i].local_slot,
                    ready: self.members[i].ready,
                    last_heartbeat: self.members[i].last_heartbeat,
                };
                let ghost before = kept@;
                kept.push(m);
                proof {
                    assert(m@ =~= all[i as int]);
                    assert(members_view(kept@) =~= members_view(before).push(m@));
                }
            }
            i = i + 1;
        }
        proof {
            assert(all.take(self.members@.len() as int) =~= all);
        }
        self.members = kept;
    }
}

impl RoomRegistry {
    fn index(&self, room_id: &str) -> (r: Option<usize>)
        ensures
            match (r, room_at(self@, room_id@)) {
                (Some(a), Some(b)) => a == b && a < self.rooms@.len() && self@[b]
                    == self.rooms@[b]@,
                (None, None) => true,
                _ => false,
            },
    {
        let ghost all = self@;
        let ghost p = |r: RoomModel| r.room_id == room_id@;
        let mut i: usize = 0;
        while i < self.rooms.len()
            invariant
                i <= self.rooms@.len(),
                all == self@,
                p == (|r: RoomModel| r.room_id == room_id@),
                forall|k: int| 0 <= k < i ==> !p(#[trigger] all[k]),
            decreases self.rooms@.len() - i,
        {
            proof {
                assert(all[i as int] == self.rooms@[i as int]@);
            }
            if same(self.rooms[i].room_id.as_str(), room_id) {
                proof {
                    lemma_first_is(all, p, i as int);
                }
                return Some(i);
            }
            i = i + 1;
        }
        proof {
            lemma_first_none(all, p);
        }
        None
    }

    /// Opens a room under a given id and join code.
    pub fn create_as(
        &mut self,
        host: &str,
        game_id: &str,
        client_version: &str,
        display_name: &str,
        slot_count: u8,
        input_delay: u8,
        protocol_magic: u32,
        is_private: bool,
        room_id: &str,
        code: &str,
        now: i64,
    ) -> (r: Result<Room, RoomError>)
        ensures
            match r {
                Ok(room) => 2 <= slot_count <= 5 && room@ == new_room(
                    host@,
                    game_id@,
                    client_version@,
                    display_name@,
                    slot_count,
                    input_delay,
                    protocol_magic,
                    is_private,
                    room_id@,
                    code@,
                    now,
                ) && final(self)@ == old(self)@.push(room@),
                Err(e) => !(2 <= slot_count <= 5) && e == RoomError::BadSlotCount && final(self)@
                    == old(self)@,
            },
    {
        if slot_count < 2 || slot_count > 5 {
            return Err(RoomError::BadSlotCount);
        }
        let mut members: Vec<Member> = Vec::new();
        members.push(
            Member { player_id: host.to_owned(), local_slot: 0, ready: false, last_heartbeat: now },
        );
        let join_code: Option<String> = if is_private {
            Some(code.to_owned())
        } else {
            None
        };
        let room = Room {
            room_id: room_id.to_owned(),
            game_id: game_id.to_owned(),
            client_version: client_version.to_owned(),
            display_name: display_name.to_owned(),
            slot_count,
            input_delay,
            protocol_magic,
            session_id: None,
            is_private,
            join_code,
            status: RoomStatus::Open,
            host_player_id: host.to_owned(),
            members,
            created_at: now,
            updated_at: now,
        };
        let ghost v = new_room(
            host@,
            game_id@,
            client_version@,
            display_name@,
            slot_count,
            input_delay,
            protocol_magic,
            is_private,
            room_id@,
            code@,
            now,
        );
        proof {
            assert(room@.members =~= v.members);
            assert(room@ =~= v);
        }
        let ghost before = self@;
        let out = room.copy();
        self.rooms.push(room);
        proof {
            assert(self@ =~= before.push(v));
        }
        Ok(out)
    }

    /// Opens a room. Its id, and the join code of a private one, come by
    /// chance.
    pub fn create(
        &mut self,
        host: &str,
        game_id: &str,
        client_version: &str,
        display_name: &str,
        slot_count: u8,
        input_delay: u8,
        protocol_magic: u32,
        is_private: bool,
        now: i64,
    ) -> (r: Result<Room, RoomError>)
        ensures
            match r {
                Ok(room) => {
                    &&& 2 <= slot_count <= 5
                    &&& uuid_shape(room@.room_id)
                    &&& exists|code: Seq<char>|
                        room@ == #[trigger] new_room(
                            host@,
                            game_id@,
                            client_version@,
                            display_name@,
                            slot_count,
                            input_delay,
                            protocol_magic,
                            is_private,
                            room@.room_id,
                            code,
                            now,
                        ) && exists|rolls: Seq<u32>| rolls.len() == 6 && code == #[trigger] code_of(
                            rolls,
                        )
                    &&& final(self)@ == old(self)@.push(room@)
                },
                Err(e) => !(2 <= slot_count <= 5) && e == RoomError::BadSlotCount && final(self)@
                    == old(self)@,
            },
    {
        let id = new_uuid();
        let code = generate_join_code();
        self.create_as(
            host,
            game_id,
            client_version,
            display_name,
            slot_count,
            input_delay,
            protocol_magic,
            is_private,
            id.as_str(),
            code.as_str(),
            now,
        )
    }

    pub fn get<'a>(&'a self, room_id: &str) -> (r: Option<&'a Room>)
        ensures
            match (r, room_of(self@, room_id@)) {
                (Some(a), Some(b)) => a@ == b,
                (None, None) => true,
                _ => false,
            },
    {
        match self.index(room_id) {
            Some(i) => Some(&self.rooms[i]),
            None => None,
        }
    }

    /// The open public rooms of a title that have a seat.
    pub fn list_public(&self, game_id: &str, client_version: Option<&str>) -> (r: Vec<RoomSummary>)
        ensures
            r@.map_values(|s: RoomSummary| s@) == public_list(
                self@,
                game_id@,
                opt_str(client_version),
            ),
    {
        let ghost all = self@;
        let mut out: Vec<RoomSummary> = Vec::new();
        let mut i: usize = 0;
        proof {
            assert(all.take(0) =~= Seq::<RoomModel>::empty());
            assert(out@.map_values(|s: RoomSummary| s@) =~= Seq::<SummaryView>::empty());
        }
        while i < self.rooms.len()
            invariant
                i <= self.rooms@.len(),
                all == self@,
                out@.map_values(|s: RoomSummary| s@) == public_list(
                    all.take(i as int),
                    game_id@,
                    opt_str(client_version),
                ),
            decreases self.rooms@.len() - i,
        {
            proof {
                let t = all.take(i + 1);
                assert(t.drop_last() =~= all.take(i as int));
                assert(t.last() == self.rooms@[i as int]@);
            }
            if self.rooms[i].is_listed(game_id, client_version) {
                let ghost before = out@;
                let s = self.rooms[i].summary();
                out.push(s);
                proof {
                    assert(out@.map_values(|s: RoomSummary| s@) =~= before.map_values(
                        |s: RoomSummary| s@,
                    ).push(s@));
                }
            }
            i = i + 1;
        }
        proof {
            assert(all.take(self.rooms@.len() as int) =~= all);
        }
        out
    }

    pub fn join(
        &mut self,
        room_id: &str,
        player_id: &str,
        game_id: &str,
        client_version: &str,
        join_code: Option<&str>,
        now: i64,
    ) -> (r: Result<Room, RoomError>)
        ensures
            (final(self)@, result_view(r)) == join_step(
                old(self)@,
                room_id@,
                player_id@,
                game_id@,
                client_version@,
                opt_str(join_code),
                now,
            ),
    {
        let i: usize = match self.index(room_id) {
            Some(i) => i,
            None => {
                return Err(RoomError::NotFound);
            },
        };
        let ghost all = self@;
        let room = &self.rooms[i];
        proof {
            assert(room@.members.len() == room.members@.len());
        }
        if room.status != RoomStatus::Open {
            return Err(RoomError::NotJoinable);
        }
        if !same(room.game_id.as_str(), game_id) {
            return Err(RoomError::GameMismatch);
        }
        if !same(room.client_version.as_str(), client_version) {
            return Err(RoomError::VersionMismatch);
        }
        if room.is_private {
            let good = match (&room.join_code, join_code) {
                (Some(code), Some(provided)) => same(code.as_str(), provided),
                _ => false,
            };
            if !good {
                return Err(RoomError::BadJoinCode);
            }
        }
        if find_member(&room.members, player_id).is_some() {
            return Err(RoomError::AlreadyJoined);
        }
        if room.members.len() >= room.slot_count as usize {
            return Err(RoomError::Full);
        }
        let slot: u8 = match find_slot(&room.members, room.slot_count) {
            Some(s) => s,
            None => {
                return Err(RoomError::Full);
            },
        };
        let m = Member {
            player_id: player_id.to_owned(),
            local_slot: slot,
            ready: false,
            last_heartbeat: now,
        };
        let ghost old_room = self.rooms@[i as int]@;
        let ghost old_members = self.rooms@[i as int].members@;
        let ghost mv = m@;
        self.rooms[i].members.push(m);
        self.rooms[i].updated_at = now;
        proof {
            let r2 = joined_room(old_room, player_id@, now);
            assert(members_view(old_members.push(m)) =~= old_room.members.push(mv));
            assert(self.rooms@[i as int]@ =~= r2);
            assert(self@ =~= all.update(i as int, r2));
        }
        Ok(self.rooms[i].copy())
    }

    /// Leaves a room. A host's leaving dissolves it.
    pub fn leave(&mut self, room_id: &str, player_id: &str, now: i64) -> (r: Result<Room, RoomError>)
        ensures
            (final(self)@, result_view(r)) == leave_step(old(self)@, room_id@, player_id@, now),
    {
        let i: usize = match self.index(room_id) {
            Some(i) => i,
            None => {
                return Err(RoomError::NotFound);
            },
        };
        let ghost all = self@;
        if find_member(&self.rooms[i].members, player_id).is_none() {
            return Err(RoomError::NotMember);
        }
        if same(self.rooms[i].host_player_id.as_str(), player_id) {
            let mut room = self.rooms.remove(i);
            room.status = RoomStatus::Closed;
            proof {
                assert(self@ =~= all.remove(i as int));
            }
            return Ok(room);
        }
        let ghost r0 = self.rooms@[i as int]@;
        self.rooms[i].drop_member(player_id);
        self.rooms[i].updated_at = now;
        self.rooms[i].reopen();
        proof {
            assert(self.rooms@[i as int]@ =~= left_room(r0, player_id@, now));
            assert(self@ =~= all.update(i as int, left_room(r0, player_id@, now)));
        }
        Ok(self.rooms[i].copy())
    }

    /// Says whether a member is ready. A session that becomes due gets the id
    /// `roll`.
    pub fn set_ready_as(
        &mut self,
        room_id: &str,
        player_id: &str,
        ready: bool,
        roll: u32,
        now: i64,
    ) -> (r: Result<Room, RoomError>)
        ensures
            (final(self)@, result_view(r)) == ready_step(
                old(self)@,
                room_id@,
                player_id@,
                ready,
                roll,
                now,
            ),
    {
        let i: usize = match self.index(room_id) {
            Some(i) => i,
            None => {
                return Err(RoomError::NotFound);
            },
        };
        let ghost all = self@;
        let status = self.rooms[i].status;
        if status != RoomStatus::Open && status != RoomStatus::Starting {
            return Err(RoomError::NotJoinable);
        }
        let k: usize = match find_member(&self.rooms[i].members, player_id) {
            Some(k) => k,
            None => {
                return Err(RoomError::NotMember);
            },
        };
        let ghost r0 = self.rooms@[i as int]@;
        let ghost ms = self.rooms@[i as int].members@;
        let id = self.rooms[i].members[k].player_id.clone();
        let slot = self.rooms[i].members[k].local_slot;
        let m = Member { player_id: id, local_slot: slot, ready, last_heartbeat: now };
        let ghost mv = m@;
        self.rooms[i].members.set(k, m);
        self.rooms[i].updated_at = now;
        let ghost r1 = self.rooms@[i as int]@;
        proof {
            assert(members_view(ms)[k as int] == ms[k as int]@);
            assert(members_view(self.rooms@[i as int].members@) =~= r0.members.update(
                k as int,
                mv,
            ));
            assert(r1 =~= RoomModel {
                members: r0.members.update(
                    k as int,
                    MemberView { ready, last_heartbeat: now, ..r0.members[k as int] },
                ),
                updated_at: now,
                ..r0
            });
        }
        if self.rooms[i].is_all_set() {
            if self.rooms[i].session_id.is_none() {
                self.rooms[i].session_id = Some(roll);
            }
            self.rooms[i].status = RoomStatus::Starting;
        } else {
            self.rooms[i].reopen();
        }
        proof {
            let r2 = readied_room(r0, k as int, ready, roll, now);
            assert(self.rooms@[i as int]@ =~= r2);
            assert(self@ =~= all.update(i as int, r2));
        }
        Ok(self.rooms[i].copy())
    }

    /// Says whether a member is ready. A session that becomes due gets an id
    /// by chance.
    pub fn set_ready(&mut self, room_id: &str, player_id: &str, ready: bool, now: i64) -> (r: Result<
        Room,
        RoomError,
    >)
        ensures
            exists|roll: u32|
                (final(self)@, result_view(r)) == #[trigger] ready_step(
                    old(self)@,
                    room_id@,
                    player_id@,
                    ready,
                    roll,
                    now,
                ),
    {
        let roll = random_u32();
        self.set_ready_as(room_id, player_id, ready, roll, now)
    }

    pub fn heartbeat(&mut self, room_id: &str, player_id: &str, now: i64) -> (r: Result<
        (),
        RoomError,
    >)
        ensures
            (final(self)@, r) == heartbeat_step(old(self)@, room_id@, player_id@, now),
    {
        let i: usize = match self.index(room_id) {
            Some(i) => i,
            None => {
                return Err(RoomError::NotFound);
            },
        };
        let ghost all = self@;
        let k: usize = match find_member(&self.rooms[i].members, player_id) {
            Some(k) => k,
            None => {
                return Err(RoomError::NotMember);
            },
        };
        let ghost r0 = self.rooms@[i as int]@;
        let ghost ms = self.rooms@[i as int].members@;
        let id = self.rooms[i].members[k].player_id.clone();
        let slot = self.rooms[i].members[k].local_slot;
        let ready = self.rooms[i].members[k].ready;
        let m = Member { player_id: id, local_slot: slot, ready, last_heartbeat: now };
        let ghost mv = m@;
        self.rooms[i].members.set(k, m);
        self.rooms[i].updated_at = now;
        proof {
            assert(members_view(ms)[k as int] == ms[k as int]@);
            assert(members_view(self.rooms@[i as int].members@) =~= r0.members.update(
                k as int,
                mv,
            ));
            assert(mv =~= MemberView { last_heartbeat: now, ..r0.members[k as int] });
            assert(self@ =~= heartbeat_step(all, room_id@, player_id@, now).0);
        }
        Ok(())
    }

    pub fn mark_running(&mut self, room_id: &str, player_id: &str, now: i64) -> (r: Result<
        Room,
        RoomError,
    >)
        ensures
            (final(self)@, result_view(r)) == running_step(old(self)@, room_id@, player_id@, now),
    {
        let i: usize = match self.index(room_id) {
            Some(i) => i,
            None => {
                return Err(RoomError::NotFound);
            },
        };
        let ghost all = self@;
        if !same(self.rooms[i].host_player_id.as_str(), player_id) {
            return Err(RoomError::NotHost);
        }
        if self.rooms[i].status != RoomStatus::Starting {
            return Err(RoomError::NotJoinable);
        }
        self.rooms[i].status = RoomStatus::Running;
        self.rooms[i].updated_at = now;
        proof {
            assert(self@ =~= running_step(all, room_id@, player_id@, now).0);
        }
        Ok(self.rooms[i].copy())
    }

    /// What a member needs to open the session of its room.
    pub fn bootstrap_for(room: &Room, player_id: &str) -> (r: Option<RnetBootstrap>)
        ensures
            r == bootstrap(room@, player_id@),
    {
        let session_id: u32 = match room.session_id {
            Some(s) => s,
            None => {
                return None;
            },
        };
        match find_member(&room.members, player_id) {
            Some(i) => {
                proof {
                    assert(room@.members[i as int] == room.members@[i as int]@);
                }
                Some(
                    RnetBootstrap {
                        session_id,
                        protocol_magic: room.protocol_magic,
                        slot_count: room.slot_count,
                        input_delay: room.input_delay,
                        local_slot: room.members[i].local_slot,
                        you_are_sim_authority: room.members[i].local_slot == 0,
                    },
                )
            },
            None => None,
        }
    }

    /// Drops members that went silent, and rooms that lost their host or went
    /// quiet.
    pub fn purge_stale(&mut self, heartbeat_timeout_secs: u64, idle_secs: u64, now: i64)
        requires
            heartbeat_timeout_secs <= 9_223_372_036_854_775,
            idle_secs <= 9_223_372_036_854_775,
        ensures
            final(self)@ == purged(old(self)@, heartbeat_timeout_secs, idle_secs, now),
    {
        let ghost all = self@;
        let limit: i128 = idle_secs as i128 * 1000;
        let mut taken: Vec<Room> = Vec::new();
        std::mem::swap(&mut self.rooms, &mut taken);
        let ghost list = taken@;
        let mut rest = taken;
        let mut kept: Vec<Room> = Vec::new();
        let ghost mut done: int = 0;
        proof {
            assert(all.take(0) =~= Seq::<RoomModel>::empty());
            assert(rooms_view(kept@) =~= Seq::<RoomModel>::empty());
            assert(list.skip(0) =~= list);
        }
        while rest.len() > 0
            invariant
                0 <= done <= list.len(),
                all == rooms_view(list),
                rest@ == list.skip(done),
                limit == idle_secs * 1000,
                heartbeat_timeout_secs <= 9_223_372_036_854_775,
                rooms_view(kept@) == purged(
                    all.take(done),
                    heartbeat_timeout_secs,
                    idle_secs,
                    now,
                ),
            decreases rest@.len(),
        {
            let mut room = rest.remove(0);
            proof {
                let t = all.take(done + 1);
                assert(t.drop_last() =~= all.take(done));
                assert(t.last() == room@);
                assert(list.skip(done).remove(0) =~= list.skip(done + 1));
                done = done + 1;
            }
            room.drop_silent(heartbeat_timeout_secs, now);
            let quiet = now as i128 - room.updated_at as i128 > limit;
            if !quiet && find_member(&room.members, room.host_player_id.as_str()).is_some() {
                let ghost before = kept@;
                let ghost v = room@;
                kept.push(room);
                proof {
                    assert(rooms_view(kept@) =~= rooms_view(before).push(v));
                }
            }
        }
        proof {
            assert(all.take(all.len() as int) =~= all);
        }
        self.rooms = kept;
    }

    pub fn member_ids(&self, room_id: &str) -> (r: Vec<String>)
        ensures
            views(r@) == (match room_of(self@, room_id@) {
                Some(room) => room.members.map_values(|m: MemberView| m.player_id),
                None => Seq::empty(),
            }),
    {
        let mut out: Vec<String> = Vec::new();
        match self.get(room_id) {
            Some(room) => {
                let ghost all = room@.members.map_values(|m: MemberView| m.player_id);
                let mut i: usize = 0;
                proof {
                    assert(views(out@) =~= all.take(0));
                }
                while i < room.members.len()
                    invariant
                        i <= room.members@.len(),
                        all == room@.members.map_values(|m: MemberView| m.player_id),
                        views(out@) == all.take(i as int),
                    decreases room.members@.len() - i,
                {
                    let ghost before = out@;
                    let id = room.members[i].player_id.clone();
                    out.push(id);
                    proof {
                        assert(views(out@) =~= views(before).push(id@));
                        assert(all[i as int] == id@);
                        assert(all.take(i + 1) =~= all.take(i as int).push(id@));
                    }
                    i = i + 1;
                }
                proof {
                    assert(all.take(room.members@.len() as int) =~= all);
                }
            },
            None => {
                proof {
                    assert(views(out@) =~= Seq::<Seq<char>>::empty());
                }
            },
        }
        out
    }

    pub fn len(&self) -> (r: usize)
        ensures
            r == self@.len(),
    {
        self.rooms.len()
    }

    pub fn is_empty(&self) -> (r: bool)
        ensures
            r == (self@.len() == 0),
    {
        self.rooms.len() == 0
    }

    /// Live room counts by title.
    pub fn counts_by_game(&self) -> (r: Vec<GameCount>)
        ensures
            counts_view(r@) == tally(titles(self@)),
    {
        let mut names: Vec<&String> = Vec::new();
        let mut i: usize = 0;
        while i < self.rooms.len()
            invariant
                i <= self.rooms@.len(),
                names@.len() == i,
                forall|k: int| 0 <= k < i ==> (#[trigger] names@[k])@ == titles(self@)[k],
            decreases self.rooms@.len() - i,
        {
            names.push(&self.rooms[i].game_id);
            i = i + 1;
        }
        proof {
            assert(names@.map_values(|s: &String| s@) =~= titles(self@));
        }
        tally_names(&names)
    }

    fn running_names<'a>(&'a self) -> (r: Vec<&'a String>)
        ensures
            r@.map_values(|s: &'a String| s@) == titles(running(self@)),
    {
        let ghost all = self@;
        let mut names: Vec<&'a String> = Vec::new();
        let mut i: usize = 0;
        proof {
            assert(all.take(0) =~= Seq::<RoomModel>::empty());
            assert(names@.map_values(|s: &'a String| s@) =~= titles(running(all.take(0))));
        }
        while i < self.rooms.len()
            invariant
                i <= self.rooms@.len(),
                all == self@,
                names@.map_values(|s: &'a String| s@) == titles(running(all.take(i as int))),
            decreases self.rooms@.len() - i,
        {
            proof {
                let t = all.take(i + 1);
                assert(t.drop_last() =~= all.take(i as int));
                assert(t.last() == self.rooms@[i as int]@);
            }
            if self.rooms[i].status == RoomStatus::Running {
                let ghost before = names@;
                names.push(&self.rooms[i].game_id);
                proof {
                    let o = running(all.take(i as int));
                    assert(names@.map_values(|s: &'a String| s@) =~= before.map_values(
                        |s: &'a String| s@,
                    ).push(self.rooms@[i as int].game_id@));
                    assert(titles(o.push(all[i as int])) =~= titles(o).push(all[i as int].game_id));
                }
            }
            i = i + 1;
        }
        proof {
            assert(all.take(self.rooms@.len() as int) =~= all);
        }
        names
    }

    /// Rooms whose match runs.
    pub fn running_count(&self) -> (r: usize)
        ensures
            r == running(self@).len(),
    {
        let names = self.running_names();
        proof {
            assert(titles(running(self@)).len() == running(self@).len());
            assert(names@.map_values(|s: &String| s@).len() == names@.len());
        }
        names.len()
    }

    /// Running room counts by title.
    pub fn running_counts_by_game(&self) -> (r: Vec<GameCount>)
        ensures
            counts_view(r@) == tally(titles(running(self@))),
    {
        let names = self.running_names();
        tally_names(&names)
    }
}

// -------------------------------------------------------------------- laws

/// A room is in order: somebody sits in each slot at most once, every slot is
/// one of the room's, and nobody is a member twice.
pub open spec fn orderly(r: RoomModel) -> bool {
    &&& r.members.len() <= r.slot_count
    &&& forall|i: int| 0 <= i < r.members.len() ==> (#[trigger] r.members[i]).local_slot < r.slot_count
    &&& forall|i: int, j: int|
        0 <= i < j < r.members.len() ==> (#[trigger] r.members[i]).local_slot != (
        #[trigger] r.members[j]).local_slot
    &&& forall|i: int, j: int|
        0 <= i < j < r.members.len() ==> (#[trigger] r.members[i]).player_id != (
        #[trigger] r.members[j]).player_id
}

proof fn lemma_free_slot(ms: Seq<MemberView>, n: int, s: int)
    requires
        0 <= s,
    ensures
        match free_slot(ms, n, s) {
            Some(x) => s <= x < n && !slot_used(ms, x),
            None => true,
        },
    decreases n - s,
{
    if s < n && slot_used(ms, s) {
        lemma_free_slot(ms, n, s + 1);
    }
}

/// A new room is in order, and its host sits in the first slot.
pub proof fn law_new_room_is_orderly(
    host: Seq<char>,
    game_id: Seq<char>,
    client_version: Seq<char>,
    display_name: Seq<char>,
    slot_count: u8,
    input_delay: u8,
    protocol_magic: u32,
    is_private: bool,
    room_id: Seq<char>,
    code: Seq<char>,
    now: i64,
)
    requires
        2 <= slot_count <= 5,
    ensures
        orderly(
            new_room(
                host,
                game_id,
                client_version,
                display_name,
                slot_count,
                input_delay,
                protocol_magic,
                is_private,
                room_id,
                code,
                now,
            ),
        ),
{
}

/// Joining keeps a room in order: the newcomer gets a slot that nobody has.
pub proof fn law_join_keeps_order(
    r: RoomModel,
    player: Seq<char>,
    game: Seq<char>,
    version: Seq<char>,
    code: Option<Seq<char>>,
    now: i64,
)
    requires
        orderly(r),
        join_error(r, player, game, version, code) is None,
    ensures
        orderly(joined_room(r, player, now)),
{
    let r2 = joined_room(r, player, now);
    let n = r.members.len() as int;
    lemma_free_slot(r.members, r.slot_count as int, 0);
    lemma_first_where(r.members, |m: MemberView| m.player_id == player);
    assert forall|i: int, j: int| 0 <= i < j < r2.members.len() implies (
    #[trigger] r2.members[i]).local_slot != (#[trigger] r2.members[j]).local_slot by {
        assert(r2.members[i] == r.members[i]);
        if j < n {
            assert(r2.members[j] == r.members[j]);
        }
    }
    assert forall|i: int, j: int| 0 <= i < j < r2.members.len() implies (
    #[trigger] r2.members[i]).player_id != (#[trigger] r2.members[j]).player_id by {
        assert(r2.members[i] == r.members[i]);
        if j < n {
            assert(r2.members[j] == r.members[j]);
        } else {
            assert(r.members[i].player_id != player);
        }
    }
    assert forall|i: int| 0 <= i < r2.members.len() implies (
    #[trigger] r2.members[i]).local_slot < r2.slot_count by {
        if i < n {
            assert(r2.members[i] == r.members[i]);
        }
    }
}

/// Saying that one is ready keeps a room in order; the session is due exactly
/// when everybody in the room is ready, and has an id then.
pub proof fn law_ready_barrier(r: RoomModel, i: int, ready: bool, roll: u32, now: i64)
    requires
        orderly(r),
        0 <= i < r.members.len(),
        r.status == RoomStatus::Open || r.status == RoomStatus::Starting,
    ensures
        ({
            let r2 = readied_room(r, i, ready, roll, now);
            &&& orderly(r2)
            &&& (r2.status == RoomStatus::Starting <==> all_set(r2))
            &&& r2.status == RoomStatus::Starting ==> r2.session_id is Some
            &&& !ready ==> r2.status == RoomStatus::Open
        }),
{
    let r2 = readied_room(r, i, ready, roll, now);
    assert forall|k: int| 0 <= k < r.members.len() implies (#[trigger] r2.members[k]).local_slot
        == r.members[k].local_slot && r2.members[k].player_id == r.members[k].player_id by {}
    if !ready {
        assert(!r2.members[i].ready);
    }
}

proof fn lemma_others(ms: Seq<MemberView>, player: Seq<char>)
    ensures
        others(ms, player).len() <= ms.len(),
        forall|i: int|
            0 <= i < others(ms, player).len() ==> ms.contains(#[trigger] others(ms, player)[i])
                && others(ms, player)[i].player_id != player,
    decreases ms.len(),
{
    if ms.len() > 0 {
        let d = ms.drop_last();
        lemma_others(d, player);
        assert forall|i: int| 0 <= i < others(ms, player).len() implies ms.contains(
            #[trigger] others(ms, player)[i],
        ) && others(ms, player)[i].player_id != player by {
            if i < others(d, player).len() {
                assert(others(ms, player)[i] == others(d, player)[i]);
                let k = choose|k: int| 0 <= k < d.len() && d[k] == others(d, player)[i];
                assert(ms[k] == d[k]);
            } else {
                assert(ms[ms.len() - 1] == ms.last());
            }
        }
    }
}

/// Somebody who left is no member, and nobody is ready after it.
pub proof fn law_leaving_resets_the_barrier(r: RoomModel, player: Seq<char>, now: i64)
    ensures
        member_at(left_room(r, player, now).members, player) is None,
        forall|i: int|
            0 <= i < left_room(r, player, now).members.len() ==> !(#[trigger] left_room(
                r,
                player,
                now,
            ).members[i]).ready,
        left_room(r, player, now).status != RoomStatus::Starting,
{
    let o = others(r.members, player);
    let ms = left_room(r, player, now).members;
    lemma_others(r.members, player);
    assert forall|k: int| 0 <= k < ms.len() implies (#[trigger] ms[k]).player_id != player by {
        assert(ms[k].player_id == o[k].player_id);
    }
    lemma_first_none(ms, |m: MemberView| m.player_id == player);
}

/// Nobody joins a private room without its code.
pub proof fn law_private_rooms_need_their_code(
    r: RoomModel,
    player: Seq<char>,
    game: Seq<char>,
    version: Seq<char>,
    code: Option<Seq<char>>,
)
    requires
        r.is_private,
        code != r.join_code || code is None,
    ensures
        join_error(r, player, game, version, code) is Some,
{
}

/// Every listed room is open, public and has a free seat.
pub proof fn law_listed_rooms_are_joinable(rs: Seq<RoomModel>, game: Seq<char>, version: Option<Seq<char>>)
    ensures
        forall|i: int|
            0 <= i < public_list(rs, game, version).len() ==> (#[trigger] public_list(
                rs,
                game,
                version,
            )[i]).status == RoomStatus::Open && !public_list(rs, game, version)[i].is_private
                && public_list(rs, game, version)[i].member_count < public_list(
                rs,
                game,
                version,
            )[i].slot_count && public_list(rs, game, version)[i].game_id == game,
    decreases rs.len(),
{
    if rs.len() > 0 {
        law_listed_rooms_are_joinable(rs.drop_last(), game, version);
        let d = public_list(rs.drop_last(), game, version);
        assert forall|i: int| 0 <= i < public_list(rs, game, version).len() implies (
        #[trigger] public_list(rs, game, version)[i]).status == RoomStatus::Open && !public_list(
            rs,
            game,
            version,
        )[i].is_private && public_list(rs, game, version)[i].member_count < public_list(
            rs,
            game,
            version,
        )[i].slot_count && public_list(rs, game, version)[i].game_id == game by {
            if i < d.len() {
                assert(public_list(rs, game, version)[i] == d[i]);
            }
        }
    }
}

/// Nobody among `ms` shares a slot or an id, and every slot is below `n`.
pub open spec fn apart(ms: Seq<MemberView>, n: int) -> bool {
    &&& forall|i: int| 0 <= i < ms.len() ==> (#[trigger] ms[i]).local_slot < n
    &&& forall|i: int, j: int|
        0 <= i < j < ms.len() ==> (#[trigger] ms[i]).local_slot != (#[trigger] ms[j]).local_slot
    &&& forall|i: int, j: int|
        0 <= i < j < ms.len() ==> (#[trigger] ms[i]).player_id != (#[trigger] ms[j]).player_id
}

/// Members that stand apart still do with one more who shares with none.
proof fn lemma_apart_push(kept: Seq<MemberView>, ms: Seq<MemberView>, n: int)
    requires
        ms.len() > 0,
        apart(ms, n),
        apart(kept, n),
        forall|k: int| 0 <= k < kept.len() ==> ms.drop_last().contains(#[trigger] kept[k]),
    ensures
        apart(kept.push(ms.last()), n),
{
    let all = kept.push(ms.last());
    assert forall|i: int, j: int| 0 <= i < j < all.len() implies (#[trigger] all[i]).local_slot != (
    #[trigger] all[j]).local_slot && all[i].player_id != all[j].player_id by {
        if j == kept.len() {
            assert(all[i] == kept[i]);
            let k = choose|k: int| 0 <= k < ms.drop_last().len() && ms.drop_last()[k] == kept[i];
            assert(ms[k] == kept[i]);
            assert(ms[ms.len() - 1] == ms.last());
        } else {
            assert(all[i] == kept[i] && all[j] == kept[j]);
        }
    }
    assert forall|i: int| 0 <= i < all.len() implies (#[trigger] all[i]).local_slot < n by {
        if i < kept.len() {
            assert(all[i] == kept[i]);
        } else {
            assert(ms[ms.len() - 1] == ms.last());
        }
    }
}

proof fn lemma_apart_shorter(ms: Seq<MemberView>, n: int)
    requires
        ms.len() > 0,
        apart(ms, n),
    ensures
        apart(ms.drop_last(), n),
{
    let d = ms.drop_last();
    assert forall|i: int| 0 <= i < d.len() implies #[trigger] d[i] == ms[i] by {}
}

proof fn lemma_others_apart(ms: Seq<MemberView>, player: Seq<char>, n: int)
    requires
        apart(ms, n),
    ensures
        apart(others(ms, player), n),
    decreases ms.len(),
{
    if ms.len() > 0 {
        lemma_apart_shorter(ms, n);
        lemma_others_apart(ms.drop_last(), player, n);
        lemma_others(ms.drop_last(), player);
        lemma_apart_push(others(ms.drop_last(), player), ms, n);
    }
}

proof fn lemma_live_apart(ms: Seq<MemberView>, secs: u64, now: i64, n: int)
    requires
        apart(ms, n),
    ensures
        apart(live_members(ms, secs, now), n),
        live_members(ms, secs, now).len() <= ms.len(),
        forall|k: int|
            0 <= k < live_members(ms, secs, now).len() ==> ms.contains(
                #[trigger] live_members(ms, secs, now)[k],
            ),
    decreases ms.len(),
{
    if ms.len() > 0 {
        let d = ms.drop_last();
        lemma_apart_shorter(ms, n);
        lemma_live_apart(d, secs, now, n);
        lemma_apart_push(live_members(d, secs, now), ms, n);
        let kept = live_members(ms, secs, now);
        assert forall|k: int| 0 <= k < kept.len() implies ms.contains(#[trigger] kept[k]) by {
            if k < live_members(d, secs, now).len() {
                assert(kept[k] == live_members(d, secs, now)[k]);
                let j = choose|j: int| 0 <= j < d.len() && d[j] == kept[k];
                assert(ms[j] == kept[k]);
            } else {
                assert(ms[ms.len() - 1] == kept[k]);
            }
        }
    }
}

/// Every room is in order.
pub open spec fn all_orderly(rs: Seq<RoomModel>) -> bool {
    forall|i: int| 0 <= i < rs.len() ==> orderly(#[trigger] rs[i])
}

proof fn lemma_with_room(rs: Seq<RoomModel>, id: Seq<char>, r: RoomModel)
    requires
        all_orderly(rs),
        orderly(r),
    ensures
        all_orderly(with_room(rs, id, r)),
{
    lemma_first_where(rs, |x: RoomModel| x.room_id == id);
}

proof fn lemma_found_orderly(rs: Seq<RoomModel>, id: Seq<char>)
    requires
        all_orderly(rs),
    ensures
        room_of(rs, id) matches Some(r) ==> orderly(r),
{
    lemma_first_where(rs, |x: RoomModel| x.room_id == id);
}

/// Whatever a player asks of a registry whose rooms are in order, they still
/// are: joining, leaving, readying, a heartbeat or a start.
pub proof fn law_requests_keep_rooms_in_order(
    rs: Seq<RoomModel>,
    id: Seq<char>,
    player: Seq<char>,
    game: Seq<char>,
    version: Seq<char>,
    code: Option<Seq<char>>,
    ready: bool,
    roll: u32,
    now: i64,
)
    requires
        all_orderly(rs),
    ensures
        all_orderly(join_step(rs, id, player, game, version, code, now).0),
        all_orderly(leave_step(rs, id, player, now).0),
        all_orderly(ready_step(rs, id, player, ready, roll, now).0),
        all_orderly(heartbeat_step(rs, id, player, now).0),
        all_orderly(running_step(rs, id, player, now).0),
{
    lemma_first_where(rs, |x: RoomModel| x.room_id == id);
    lemma_found_orderly(rs, id);
    if let Some(r) = room_of(rs, id) {
        if join_error(r, player, game, version, code) is None {
            law_join_keeps_order(r, player, game, version, code, now);
            lemma_with_room(rs, id, joined_room(r, player, now));
        }
        assert(apart(r.members, r.slot_count as int));
        lemma_others_apart(r.members, player, r.slot_count as int);
        lemma_others(r.members, player);
        let left = left_room(r, player, now);
        let kept = others(r.members, player);
        assert forall|k: int| 0 <= k < kept.len() implies (#[trigger] left.members[k]).local_slot
            == kept[k].local_slot && left.members[k].player_id == kept[k].player_id by {}
        assert(orderly(left));
        lemma_with_room(rs, id, left);
        lemma_first_where(r.members, |m: MemberView| m.player_id == player);
        if let Some(i) = member_at(r.members, player) {
            if r.status == RoomStatus::Open || r.status == RoomStatus::Starting {
                law_ready_barrier(r, i, ready, roll, now);
                lemma_with_room(rs, id, readied_room(r, i, ready, roll, now));
            }
            let beat = RoomModel {
                members: r.members.update(
                    i,
                    MemberView { last_heartbeat: now, ..r.members[i] },
                ),
                updated_at: now,
                ..r
            };
            assert(orderly(beat));
            lemma_with_room(rs, id, beat);
        }
        lemma_with_room(
            rs,
            id,
            RoomModel { status: RoomStatus::Running, updated_at: now, ..r },
        );
        let gone = without_room(rs, id);
        let at = room_at(rs, id)->0;
        assert forall|k: int| 0 <= k < gone.len() implies orderly(#[trigger] gone[k]) by {
            if k < at {
                assert(gone[k] == rs[k]);
            } else {
                assert(gone[k] == rs[k + 1]);
            }
        }
    }
}

/// Purging keeps the rooms that stay in order.
pub proof fn law_purging_keeps_rooms_in_order(
    rs: Seq<RoomModel>,
    heartbeat: u64,
    idle: u64,
    now: i64,
)
    requires
        all_orderly(rs),
    ensures
        all_orderly(purged(rs, heartbeat, idle, now)),
    decreases rs.len(),
{
    if rs.len() > 0 {
        let d = rs.drop_last();
        assert forall|i: int| 0 <= i < d.len() implies orderly(#[trigger] d[i]) by {
            assert(d[i] == rs[i]);
        }
        law_purging_keeps_rooms_in_order(d, heartbeat, idle, now);
        let r = rs.last();
        assert(orderly(rs[rs.len() - 1]));
        lemma_live_apart(r.members, heartbeat, now, r.slot_count as int);
        let kept = RoomModel { members: live_members(r.members, heartbeat, now), ..r };
        assert(orderly(kept));
        let before = purged(d, heartbeat, idle, now);
        assert forall|i: int| 0 <= i < before.push(kept).len() implies orderly(
            #[trigger] before.push(kept)[i],
        ) by {
            if i < before.len() {
                assert(before.push(kept)[i] == before[i]);
            }
        }
    }
}

} // verus!
