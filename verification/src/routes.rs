//! What the HTTP routes decide: who asks, what is answered, and with which
//! status.

use crate::chat_filter::ChatFilter;
use crate::config::{Config, ConfigView};
use crate::discord_auth::{
    authorize_page, authorize_url, begun, hands_session, outcome_view, session_for, take_step,
    unsigned, Completed, CompletedView, LoginStore,
};
use crate::identity::Player;
use crate::names::usable;
use crate::outside::{hex_of, parse_uuid, uuid_text, CLOCK_END};
use crate::players::{require_player, token_digest};
use crate::rooms::{
    bootstrap, code_of, heartbeat_step, join_step, leave_step, member_at, members_view, new_room,
    ready_step, result_view, room_error_text, room_of, running_step, Member, MemberView,
    RnetBootstrap, Room, RoomError, RoomModel, RoomRegistry, RoomStatus,
};
use crate::secrets::revoke;
use crate::signal::{
    envelopes, pushed, waiting, without_box, BoxView, EnvelopeView, SignalEnvelope, SignalStore,
};
use crate::text::{
    blank, byte_len, cat, cat3, chars_of, clone_list, clone_opt, longer_than, opt_view, pieces,
    same, split, string_of, strip_prefix, stripped, trim, trimmed, views,
};
use crate::turn_credentials::{
    always_fits, issue_credentials, require_config, turn_password, turn_username, TurnCredentialConfig,
};
use crate::ws_lobby::wire::opt_str;
use vstd::prelude::*;
use vstd::string::*;

verus! {

// -------------------------------------------------------------- the errors

/// A refusal: a status and what it says.
pub struct ApiError {
    pub status: u16,
    pub message: String,
}

impl View for ApiError {
    type V = (u16, Seq<char>);

    open spec fn view(&self) -> (u16, Seq<char>) {
        (self.status, self.message@)
    }
}

fn refuse(status: u16, message: &str) -> (r: ApiError)
    ensures
        r@ == (status, message@),
{
    ApiError { status, message: message.to_owned() }
}

/// The status that a room's refusal is answered with.
pub open spec fn room_status(e: RoomError) -> u16 {
    match e {
        RoomError::NotFound => 404,
        RoomError::Full => 409,
        RoomError::NotJoinable => 409,
        RoomError::BadJoinCode => 403,
        RoomError::GameMismatch => 409,
        RoomError::VersionMismatch => 409,
        RoomError::AlreadyJoined => 409,
        RoomError::NotMember => 403,
        RoomError::NotHost => 403,
        RoomError::BadSlotCount => 400,
        RoomError::GameNotAllowed => 400,
    }
}

pub open spec fn room_refusal(e: RoomError) -> (u16, Seq<char>) {
    (room_status(e), room_error_text(e))
}

/// The answer to a room's refusal.
pub fn api_error(e: RoomError) -> (r: ApiError)
    ensures
        r@ == room_refusal(e),
{
    let status: u16 = match e {
        RoomError::NotFound => 404,
        RoomError::Full => 409,
        RoomError::NotJoinable => 409,
        RoomError::BadJoinCode => 403,
        RoomError::GameMismatch => 409,
        RoomError::VersionMismatch => 409,
        RoomError::AlreadyJoined => 409,
        RoomError::NotMember => 403,
        RoomError::NotHost => 403,
        RoomError::BadSlotCount => 400,
        RoomError::GameNotAllowed => 400,
    };
    refuse(status, e.message())
}

// ------------------------------------------------------------ who is asking

/// What two headers name: the player and its token, or what is missing.
pub open spec fn named(player: Option<Seq<char>>, auth: Option<Seq<char>>) -> Result<
    (Seq<char>, Seq<char>),
    (u16, Seq<char>),
> {
    let id = match player {
        Some(p) => uuid_text(p),
        None => None,
    };
    if id is None {
        Err((401u16, "missing X-Player-Id"@))
    } else {
        match auth {
            None => Err((401u16, "missing Authorization"@)),
            Some(a) => match stripped(a, "Bearer "@) {
                None => Err((401u16, "expected Bearer token"@)),
                Some(t) => Ok((id->0, t)),
            },
        }
    }
}

/// The player and the token of a request, by its two headers.
pub fn credentials(player: Option<&str>, auth: Option<&str>) -> (r: Result<
    (String, String),
    ApiError,
>)
    ensures
        match (r, named(opt_str(player), opt_str(auth))) {
            (Ok(a), Ok(b)) => (a.0@, a.1@) == b,
            (Err(a), Err(b)) => a@ == b,
            _ => false,
        },
{
    let id = match player {
        Some(p) => parse_uuid(p),
        None => None,
    };
    let id = match id {
        Some(i) => i,
        None => {
            return Err(refuse(401, "missing X-Player-Id"));
        },
    };
    match auth {
        None => Err(refuse(401, "missing Authorization")),
        Some(a) => match strip_prefix(a, "Bearer ") {
            None => Err(refuse(401, "expected Bearer token")),
            Some(t) => Ok((id, t)),
        },
    }
}

/// Whether a request may go on, given the digest that the player's row stores.
pub fn require_auth(stored: Option<&str>, token: &str) -> (r: Result<(), ApiError>)
    ensures
        match r {
            Ok(_) => stored is Some && stored->0@ == token_digest(token@),
            Err(e) => !(stored is Some && stored->0@ == token_digest(token@)) && e@ == (
                401u16,
                "invalid credentials"@,
            ),
        },
{
    match require_player(stored, token) {
        Ok(_) => Ok(()),
        Err(_) => Err(refuse(401, "invalid credentials")),
    }
}

/// The player that a device names.
pub fn parse_player(id: &str) -> (r: Result<String, ApiError>)
    ensures
        match (r, uuid_text(id@)) {
            (Ok(a), Some(b)) => a@ == b,
            (Err(e), None) => e@ == (403u16, "invalid_secret"@),
            _ => false,
        },
{
    match parse_uuid(id) {
        Some(i) => Ok(i),
        None => Err(refuse(403, "invalid_secret")),
    }
}

// ----------------------------------------------------------- the device keys

/// Why a device's request is turned away, given whether its nonce was live and
/// whether its proof held. The nonce is spent before the proof is looked at.
pub open spec fn device_refusal(player_id: Seq<char>, live: bool, proved: bool) -> Option<
    (u16, Seq<char>),
> {
    if uuid_text(player_id) is None {
        Some((403, "invalid_secret"@))
    } else if !live {
        Some((403, "bad_nonce"@))
    } else if !proved {
        Some((403, "invalid_secret"@))
    } else {
        None
    }
}

/// A nonce that is unknown, spent or too old ends the request.
pub fn spend_nonce(live: bool) -> (r: Result<(), ApiError>)
    ensures
        match r {
            Ok(_) => live,
            Err(e) => !live && e@ == (403u16, "bad_nonce"@),
        },
{
    if live {
        Ok(())
    } else {
        Err(refuse(403, "bad_nonce"))
    }
}

fn let_in(player_id: &str, live: bool, proved: bool) -> (r: Result<(), ApiError>)
    ensures
        match (r, device_refusal(player_id@, live, proved)) {
            (Ok(_), None) => true,
            (Err(e), Some(w)) => e@ == w,
            _ => false,
        },
{
    parse_player(player_id)?;
    spend_nonce(live)?;
    if proved {
        Ok(())
    } else {
        Err(refuse(403, "invalid_secret"))
    }
}

/// Trades a proof for a session, given whether the nonce was live and whom the
/// proof names.
pub fn session_from_secret(
    config: &Config,
    player_id: &str,
    live: bool,
    proved: Option<Player>,
) -> (r: Result<Completed, ApiError>)
    ensures
        match (r, device_refusal(player_id@, live, proved is Some)) {
            (Ok(c), None) => hands_session(config@, proved->0@, c@),
            (Err(e), None) => config@.jwt_secret_current is None && e@ == (500u16, unsigned()),
            (Err(e), Some(w)) => e@ == w,
            _ => false,
        },
{
    match let_in(player_id, live, proved.is_some()) {
        Ok(_) => {},
        Err(e) => {
            return Err(e);
        },
    }
    let player = proved.unwrap();
    match session_for(config, &player) {
        Ok(c) => Ok(c),
        Err(why) => Err(refuse(500, why.as_str())),
    }
}

/// Changes a handle under a proof, and says what it became. A name that the
/// word list refuses, or that is empty, leaves the old one standing.
pub fn set_handle(filter: &ChatFilter, player_id: &str, live: bool, proved: bool, wanted: String)
    -> (r: Result<String, ApiError>)
    requires
        filter@.wf(),
    ensures
        match (r, device_refusal(player_id@, live, proved)) {
            (Ok(h), None) => usable(filter@, Some(wanted@)) == Some(h@),
            (Err(e), None) => usable(filter@, Some(wanted@)) is None && e@ == (
                409u16,
                "handle_rejected"@,
            ),
            (Err(e), Some(w)) => e@ == w,
            _ => false,
        },
{
    match let_in(player_id, live, proved) {
        Ok(_) => {},
        Err(e) => {
            return Err(e);
        },
    }
    match crate::identity::set_handle(filter, wanted) {
        Some(h) => Ok(h),
        None => Err(refuse(409, "handle_rejected")),
    }
}

/// How many keys were retired, given how many rows changed. All of a player's
/// keys go only under a proof; a single one goes by its own.
pub fn revoke_secret(player_id: &str, live: bool, proved: bool, all: bool, rows: u64) -> (r: Result<
    u64,
    ApiError,
>)
    ensures
        match (r, device_refusal(player_id@, live, proved || !all)) {
            (Ok(n), None) => n == (if all {
                rows
            } else if rows > 0 {
                1u64
            } else {
                0u64
            }),
            (Err(e), Some(w)) => e@ == w,
            _ => false,
        },
{
    match let_in(player_id, live, proved || !all) {
        Ok(_) => {},
        Err(e) => {
            return Err(e);
        },
    }
    if all {
        Ok(rows)
    } else if revoke(rows) {
        Ok(1)
    } else {
        Ok(0)
    }
}

// ---------------------------------------------------------------- the rooms

/// A room as one player sees it.
pub struct RoomView {
    pub room_id: String,
    pub game_id: String,
    pub client_version: String,
    pub display_name: String,
    pub slot_count: u8,
    pub input_delay: u8,
    pub is_private: bool,
    pub join_code: Option<String>,
    pub status: RoomStatus,
    pub host_player_id: String,
    pub members: Vec<Member>,
    pub rnet: Option<RnetBootstrap>,
}

/// Whether `v` is what `viewer` sees of a room: the join code is the host's
/// alone, and the session's bootstrap is the viewer's own.
pub open spec fn shows(v: RoomView, r: RoomModel, viewer: Seq<char>) -> bool {
    &&& v.room_id@ == r.room_id
    &&& v.game_id@ == r.game_id
    &&& v.client_version@ == r.client_version
    &&& v.display_name@ == r.display_name
    &&& v.slot_count == r.slot_count
    &&& v.input_delay == r.input_delay
    &&& v.is_private == r.is_private
    &&& opt_view(v.join_code) == (if r.host_player_id == viewer {
        r.join_code
    } else {
        None
    })
    &&& v.status == r.status
    &&& v.host_player_id@ == r.host_player_id
    &&& members_view(v.members@) == r.members
    &&& v.rnet == bootstrap(r, viewer)
}

impl RoomView {
    pub fn from_room(room: &Room, viewer: &str) -> (r: RoomView)
        ensures
            shows(r, room@, viewer@),
    {
        let rnet = RoomRegistry::bootstrap_for(room, viewer);
        let c = room.copy();
        let join_code = if same(c.host_player_id.as_str(), viewer) {
            clone_opt(&c.join_code)
        } else {
            None
        };
        RoomView {
            room_id: c.room_id,
            game_id: c.game_id,
            client_version: c.client_version,
            display_name: c.display_name,
            slot_count: c.slot_count,
            input_delay: c.input_delay,
            is_private: c.is_private,
            join_code,
            status: c.status,
            host_player_id: c.host_player_id,
            members: c.members,
            rnet,
        }
    }
}

pub open spec fn shown_or_refused(
    r: Result<RoomView, ApiError>,
    room: Result<RoomModel, RoomError>,
    viewer: Seq<char>,
) -> bool {
    match (r, room) {
        (Ok(v), Ok(m)) => shows(v, m, viewer),
        (Err(a), Err(e)) => a@ == room_refusal(e),
        _ => false,
    }
}

fn answer(room: Result<Room, RoomError>, viewer: &str) -> (r: Result<RoomView, ApiError>)
    ensures
        shown_or_refused(r, result_view(room), viewer@),
{
    match room {
        Ok(m) => Ok(RoomView::from_room(&m, viewer)),
        Err(e) => Err(api_error(e)),
    }
}

/// What a request for a room asks.
pub struct CreateRoomBody {
    pub game_id: String,
    pub client_version: String,
    pub display_name: String,
    pub slot_count: Option<u8>,
    pub input_delay: Option<u8>,
    pub is_private: bool,
}

/// Why a request for a room is refused before a room is looked at.
pub open spec fn request_error(c: ConfigView, game_id: Seq<char>, client_version: Seq<char>) -> Option<
    (u16, Seq<char>),
> {
    if !c.allows(game_id) {
        Some((400u16, "game_id not allowed"@))
    } else if game_id.len() == 0 || client_version.len() == 0 {
        Some((400u16, "game_id and client_version are required"@))
    } else {
        None
    }
}

/// The name that a room gets.
pub open spec fn room_name(display_name: Seq<char>) -> Seq<char> {
    if trimmed(display_name).len() == 0 {
        "lobby"@
    } else {
        trimmed(display_name)
    }
}

pub open spec fn given_or(o: Option<u8>, default: u8) -> u8 {
    match o {
        Some(n) => n,
        None => default,
    }
}

/// The room that a request asks for, under an id and a join code.
pub open spec fn requested_room(
    c: ConfigView,
    player: Seq<char>,
    b: CreateRoomBody,
    room_id: Seq<char>,
    code: Seq<char>,
    now: i64,
) -> RoomModel {
    new_room(
        player,
        b.game_id@,
        b.client_version@,
        room_name(b.display_name@),
        given_or(b.slot_count, c.default_slot_count),
        given_or(b.input_delay, c.default_input_delay),
        c.protocol_magic,
        b.is_private,
        room_id,
        code,
        now,
    )
}

/// Opens a room. Its id, and the code of a private one, come by chance.
pub fn create_room(
    config: &Config,
    rooms: &mut RoomRegistry,
    player: &str,
    body: &CreateRoomBody,
    now: i64,
) -> (r: Result<RoomView, ApiError>)
    ensures
        ({
            let slots = given_or(body.slot_count, config@.default_slot_count);
            match request_error(config@, body.game_id@, body.client_version@) {
                Some(e) => r is Err && r->Err_0@ == e && final(rooms)@ == old(rooms)@,
                None => if 2 <= slots <= 5 {
                    &&& r is Ok
                    &&& exists|code: Seq<char>|
                        {
                            let m = #[trigger] requested_room(
                                config@,
                                player@,
                                *body,
                                r->Ok_0.room_id@,
                                code,
                                now,
                            );
                            &&& shows(r->Ok_0, m, player@)
                            &&& final(rooms)@ == old(rooms)@.push(m)
                            &&& exists|rolls: Seq<u32>|
                                rolls.len() == 6 && code == #[trigger] code_of(rolls)
                        }
                } else {
                    &&& r is Err
                    &&& r->Err_0@ == room_refusal(RoomError::BadSlotCount)
                    &&& final(rooms)@ == old(rooms)@
                },
            }
        }),
{
    if !config.game_allowed(body.game_id.as_str()) {
        return Err(refuse(400, "game_id not allowed"));
    }
    if body.game_id.as_str().is_empty() || body.client_version.as_str().is_empty() {
        return Err(refuse(400, "game_id and client_version are required"));
    }
    let slot_count: u8 = match body.slot_count {
        Some(n) => n,
        None => config.default_slot_count,
    };
    let input_delay: u8 = match body.input_delay {
        Some(n) => n,
        None => config.default_input_delay,
    };
    let display_name = if blank(body.display_name.as_str()) {
        "lobby".to_owned()
    } else {
        trim(body.display_name.as_str())
    };
    let ghost before = rooms@;
    match rooms.create(
        player,
        body.game_id.as_str(),
        body.client_version.as_str(),
        display_name.as_str(),
        slot_count,
        input_delay,
        config.protocol_magic,
        body.is_private,
        now,
    ) {
        Ok(room) => {
            let v = RoomView::from_room(&room, player);
            proof {
                let code = choose|code: Seq<char>|
                    room@ == #[trigger] new_room(
                        player@,
                        body.game_id@,
                        body.client_version@,
                        display_name@,
                        slot_count,
                        input_delay,
                        config.protocol_magic,
                        body.is_private,
                        room@.room_id,
                        code,
                        now,
                    ) && exists|rolls: Seq<u32>| rolls.len() == 6 && code == #[trigger] code_of(
                        rolls,
                    );
                let m = requested_room(config@, player@, *body, v.room_id@, code, now);
                assert(m == room@);
                assert(rooms@ == before.push(m));
            }
            Ok(v)
        },
        Err(e) => Err(api_error(e)),
    }
}

/// Looks at a room that one is in.
pub fn get_room(rooms: &RoomRegistry, room_id: &str, player: &str) -> (r: Result<RoomView, ApiError>)
    ensures
        shown_or_refused(r, seen_room(rooms@, room_id@, player@), player@),
{
    match rooms.get(room_id) {
        None => Err(api_error(RoomError::NotFound)),
        Some(room) => {
            if !room.has_member(player) {
                return Err(api_error(RoomError::NotMember));
            }
            Ok(RoomView::from_room(room, player))
        },
    }
}

/// The room that a player may look at: one that it is in.
pub open spec fn seen_room(rs: Seq<RoomModel>, room_id: Seq<char>, player: Seq<char>) -> Result<
    RoomModel,
    RoomError,
> {
    match room_of(rs, room_id) {
        None => Err(RoomError::NotFound),
        Some(m) => if member_at(m.members, player) is None {
            Err(RoomError::NotMember)
        } else {
            Ok(m)
        },
    }
}

pub fn join_room(
    rooms: &mut RoomRegistry,
    room_id: &str,
    player: &str,
    game_id: &str,
    client_version: &str,
    join_code: Option<&str>,
    now: i64,
) -> (r: Result<RoomView, ApiError>)
    ensures
        ({
            let s = join_step(
                old(rooms)@,
                room_id@,
                player@,
                game_id@,
                client_version@,
                opt_str(join_code),
                now,
            );
            final(rooms)@ == s.0 && shown_or_refused(r, s.1, player@)
        }),
{
    let room = rooms.join(room_id, player, game_id, client_version, join_code, now);
    answer(room, player)
}

/// Leaves a room. What waited for the player is dropped.
pub fn leave_room(
    rooms: &mut RoomRegistry,
    signals: &mut SignalStore,
    room_id: &str,
    player: &str,
    now: i64,
) -> (r: Result<(), ApiError>)
    requires
        old(signals).wf(),
    ensures
        final(signals).wf(),
        ({
            let s = leave_step(old(rooms)@, room_id@, player@, now);
            &&& final(rooms)@ == s.0
            &&& match (r, s.1) {
                (Ok(_), Ok(_)) => final(signals)@ == without_box(old(signals)@, player@),
                (Err(a), Err(e)) => a@ == room_refusal(e) && final(signals)@ == old(signals)@,
                _ => false,
            }
        }),
{
    match rooms.leave(room_id, player, now) {
        Ok(_) => {
            signals.clear_player(player);
            Ok(())
        },
        Err(e) => Err(api_error(e)),
    }
}

/// Says whether a member is ready. A session that becomes due gets an id by
/// chance.
pub fn set_ready(rooms: &mut RoomRegistry, room_id: &str, player: &str, ready: bool, now: i64) -> (r:
    Result<RoomView, ApiError>)
    ensures
        exists|roll: u32|
            {
                let s = #[trigger] ready_step(old(rooms)@, room_id@, player@, ready, roll, now);
                final(rooms)@ == s.0 && shown_or_refused(r, s.1, player@)
            },
{
    let ghost before = rooms@;
    let room = rooms.set_ready(room_id, player, ready, now);
    let ghost shown = result_view(room);
    let r = answer(room, player);
    proof {
        let roll = choose|roll: u32|
            (rooms@, shown) == #[trigger] ready_step(before, room_id@, player@, ready, roll, now);
        let s = ready_step(before, room_id@, player@, ready, roll, now);
        assert(rooms@ == s.0 && shown_or_refused(r, s.1, player@));
    }
    r
}

pub fn heartbeat(rooms: &mut RoomRegistry, room_id: &str, player: &str, now: i64) -> (r: Result<
    (),
    ApiError,
>)
    ensures
        ({
            let s = heartbeat_step(old(rooms)@, room_id@, player@, now);
            &&& final(rooms)@ == s.0
            &&& match (r, s.1) {
                (Ok(_), Ok(_)) => true,
                (Err(a), Err(e)) => a@ == room_refusal(e),
                _ => false,
            }
        }),
{
    match rooms.heartbeat(room_id, player, now) {
        Ok(_) => Ok(()),
        Err(e) => Err(api_error(e)),
    }
}

pub fn mark_running(rooms: &mut RoomRegistry, room_id: &str, player: &str, now: i64) -> (r: Result<
    RoomView,
    ApiError,
>)
    ensures
        ({
            let s = running_step(old(rooms)@, room_id@, player@, now);
            final(rooms)@ == s.0 && shown_or_refused(r, s.1, player@)
        }),
{
    let room = rooms.mark_running(room_id, player, now);
    answer(room, player)
}

// -------------------------------------------------------------- the signals

/// How many bytes the text of a signal may have.
pub const SIGNAL_TEXT_MAX: usize = 2047;

/// Everybody in a room but one player, in their order.
pub open spec fn rest_of(ms: Seq<MemberView>, player: Seq<char>) -> Seq<Seq<char>>
    decreases ms.len(),
{
    if ms.len() == 0 {
        Seq::empty()
    } else if ms.last().player_id != player {
        rest_of(ms.drop_last(), player).push(ms.last().player_id)
    } else {
        rest_of(ms.drop_last(), player)
    }
}

/// Whom a signal goes to, or why it goes nowhere.
pub open spec fn signal_targets(
    rs: Seq<RoomModel>,
    room_id: Seq<char>,
    player: Seq<char>,
    target: Option<Seq<char>>,
    text: Seq<char>,
) -> Result<Seq<Seq<char>>, (u16, Seq<char>)> {
    if byte_len(text) > SIGNAL_TEXT_MAX {
        Err((400u16, "signal text exceeds 2047 characters"@))
    } else {
        match seen_room(rs, room_id, player) {
            Err(e) => Err(room_refusal(e)),
            Ok(m) => match target {
                Some(t) => if member_at(m.members, t) is None {
                    Err((400u16, "target not in room"@))
                } else {
                    Ok(seq![t])
                },
                None => Ok(rest_of(m.members, player)),
            },
        }
    }
}

/// The mailboxes once an envelope went to each target.
pub open spec fn delivered(s: Seq<BoxView>, targets: Seq<Seq<char>>, e: EnvelopeView) -> Seq<BoxView>
    decreases targets.len(),
{
    if targets.len() == 0 {
        s
    } else {
        pushed(delivered(s, targets.drop_last(), e), targets.last(), e)
    }
}

fn targets_in(room: &Room, player: &str) -> (r: Vec<String>)
    ensures
        views(r@) == rest_of(room@.members, player@),
{
    let ghost all = room@.members;
    let mut out: Vec<String> = Vec::new();
    let mut i: usize = 0;
    proof {
        assert(all.take(0) =~= Seq::<MemberView>::empty());
        assert(views(out@) =~= Seq::<Seq<char>>::empty());
    }
    while i < room.members.len()
        invariant
            i <= room.members@.len(),
            all == room@.members,
            views(out@) == rest_of(all.take(i as int), player@),
        decreases room.members@.len() - i,
    {
        proof {
            let t = all.take(i + 1);
            assert(t.drop_last() =~= all.take(i as int));
            assert(t.last() == room.members@[i as int]@);
        }
        if !same(room.members[i].player_id.as_str(), player) {
            let ghost before = out@;
            let id = room.members[i].player_id.clone();
            out.push(id);
            proof {
                assert(views(out@) =~= views(before).push(id@));
            }
        }
        i = i + 1;
    }
    proof {
        assert(all.take(room.members@.len() as int) =~= all);
    }
    out
}

fn find_targets(rooms: &RoomRegistry, room_id: &str, player: &str, target: Option<&str>, text: &str) -> (r:
    Result<Vec<String>, ApiError>)
    ensures
        match (r, signal_targets(rooms@, room_id@, player@, opt_str(target), text@)) {
            (Ok(a), Ok(b)) => views(a@) == b,
            (Err(a), Err(b)) => a@ == b,
            _ => false,
        },
{
    if longer_than(text, SIGNAL_TEXT_MAX) {
        return Err(refuse(400, "signal text exceeds 2047 characters"));
    }
    match rooms.get(room_id) {
        None => Err(api_error(RoomError::NotFound)),
        Some(room) => {
            if !room.has_member(player) {
                return Err(api_error(RoomError::NotMember));
            }
            match target {
                Some(t) => {
                    if !room.has_member(t) {
                        return Err(refuse(400, "target not in room"));
                    }
                    let mut out: Vec<String> = Vec::new();
                    out.push(t.to_owned());
                    proof {
                        assert(views(out@) =~= seq![t@]);
                    }
                    Ok(out)
                },
                None => Ok(targets_in(room, player)),
            }
        },
    }
}

/// Sends a signal to one member of a room, or to all the others.
pub fn post_signal(
    rooms: &RoomRegistry,
    signals: &mut SignalStore,
    room_id: &str,
    player: &str,
    target: Option<&str>,
    signal_type: u8,
    flag: u8,
    text: &str,
    now: i64,
) -> (r: Result<(), ApiError>)
    requires
        old(signals).wf(),
    ensures
        final(signals).wf(),
        match (r, signal_targets(rooms@, room_id@, player@, opt_str(target), text@)) {
            (Ok(_), Ok(t)) => final(signals)@ == delivered(
                old(signals)@,
                t,
                (EnvelopeView {
                    from_player_id: player@,
                    room_id: room_id@,
                    signal_type,
                    flag,
                    text: text@,
                    created_at: now,
                }),
            ),
            (Err(a), Err(b)) => a@ == b && final(signals)@ == old(signals)@,
            _ => false,
        },
{
    let targets = match find_targets(rooms, room_id, player, target, text) {
        Ok(t) => t,
        Err(e) => {
            return Err(e);
        },
    };
    let envelope = SignalEnvelope {
        from_player_id: player.to_owned(),
        room_id: room_id.to_owned(),
        signal_type,
        flag,
        text: text.to_owned(),
        created_at: now,
    };
    let ghost all = views(targets@);
    let ghost start = signals@;
    let mut i: usize = 0;
    proof {
        assert(all.take(0) =~= Seq::<Seq<char>>::empty());
    }
    while i < targets.len()
        invariant
            i <= targets@.len(),
            all == views(targets@),
            signals.wf(),
            signals@ == delivered(start, all.take(i as int), envelope@),
        decreases targets@.len() - i,
    {
        proof {
            let t = all.take(i + 1);
            assert(t.drop_last() =~= all.take(i as int));
            assert(t.last() == targets@[i as int]@);
        }
        signals.push_to(targets[i].as_str(), envelope.copy());
        i = i + 1;
    }
    proof {
        assert(all.take(targets@.len() as int) =~= all);
    }
    Ok(())
}

/// The envelopes of a room, in their order, or those of the others.
pub open spec fn of_room(v: Seq<EnvelopeView>, room_id: Seq<char>, inside: bool) -> Seq<EnvelopeView>
    decreases v.len(),
{
    if v.len() == 0 {
        Seq::empty()
    } else if (v.last().room_id == room_id) == inside {
        of_room(v.drop_last(), room_id, inside).push(v.last())
    } else {
        of_room(v.drop_last(), room_id, inside)
    }
}

/// The mailboxes once some envelopes went to one player.
pub open spec fn refilled(s: Seq<BoxView>, player: Seq<char>, v: Seq<EnvelopeView>) -> Seq<BoxView>
    decreases v.len(),
{
    if v.len() == 0 {
        s
    } else {
        pushed(refilled(s, player, v.drop_last()), player, v.last())
    }
}

/// Takes the signals of a room that wait for a player. Those of other rooms
/// wait on.
pub fn get_signals(rooms: &RoomRegistry, signals: &mut SignalStore, room_id: &str, player: &str) -> (r:
    Result<Vec<SignalEnvelope>, ApiError>)
    requires
        old(signals).wf(),
    ensures
        final(signals).wf(),
        match (r, seen_room(rooms@, room_id@, player@)) {
            (Ok(v), Ok(_)) => {
                let all = waiting(old(signals)@, player@);
                &&& envelopes(v@) == of_room(all, room_id@, true)
                &&& final(signals)@ == refilled(
                    without_box(old(signals)@, player@),
                    player@,
                    of_room(all, room_id@, false),
                )
            },
            (Err(a), Err(e)) => a@ == room_refusal(e) && final(signals)@ == old(signals)@,
            _ => false,
        },
{
    match rooms.get(room_id) {
        None => {
            return Err(api_error(RoomError::NotFound));
        },
        Some(room) => {
            if !room.has_member(player) {
                return Err(api_error(RoomError::NotMember));
            }
        },
    }
    let drained = signals.drain(player);
    let ghost list = drained@;
    let ghost all = envelopes(list);
    let ghost start = signals@;
    let mut rest = drained;
    let mut out: Vec<SignalEnvelope> = Vec::new();
    let ghost mut done: int = 0;
    proof {
        assert(all.take(0) =~= Seq::<EnvelopeView>::empty());
        assert(envelopes(out@) =~= Seq::<EnvelopeView>::empty());
        assert(list.skip(0) =~= list);
    }
    while rest.len() > 0
        invariant
            0 <= done <= list.len(),
            all == envelopes(list),
            rest@ == list.skip(done),
            signals.wf(),
            envelopes(out@) == of_room(all.take(done), room_id@, true),
            signals@ == refilled(start, player@, of_room(all.take(done), room_id@, false)),
        decreases rest@.len(),
    {
        let e = rest.remove(0);
        let ghost v = e@;
        proof {
            let t = all.take(done + 1);
            assert(t.drop_last() =~= all.take(done));
            assert(t.last() == v);
            assert(list.skip(done).remove(0) =~= list.skip(done + 1));
            let others = of_room(all.take(done), room_id@, false);
            assert(others.push(v).drop_last() =~= others);
        }
        if same(e.room_id.as_str(), room_id) {
            let ghost before = out@;
            out.push(e);
            proof {
                assert(envelopes(out@) =~= envelopes(before).push(v));
            }
        } else {
            signals.push_to(player, e);
        }
        proof {
            done = done + 1;
        }
    }
    proof {
        assert(all.take(all.len() as int) =~= all);
    }
    Ok(out)
}

// ------------------------------------------------------------ small answers

/// The titles that a server takes: all, or those that it lists.
pub struct GamesResponse {
    pub mode: &'static str,
    pub games: Vec<String>,
}

pub fn list_games(config: &Config) -> (r: GamesResponse)
    ensures
        r.mode@ == (if config@.game_allowlist.len() == 0 {
            "open"@
        } else {
            "allowlist"@
        }),
        views(r.games@) == config@.game_allowlist,
{
    proof {
        assert(config@.game_allowlist.len() == config.game_allowlist@.len());
    }
    let games = clone_list(&config.game_allowlist);
    if games.len() == 0 {
        proof {
            assert(views(games@).len() == 0);
        }
        GamesResponse { mode: "open", games }
    } else {
        proof {
            assert(views(games@).len() > 0);
        }
        GamesResponse { mode: "allowlist", games }
    }
}

/// How to reach the TURN server, and with what.
pub struct TurnCredsResponse {
    pub stun_host: String,
    pub stun_port: u16,
    pub turn_host: String,
    pub turn_port: u16,
    pub turns_port: u16,
    pub realm: String,
    pub username: String,
    pub password: String,
    pub ttl_secs: u64,
}

/// The answer that some credentials make.
pub open spec fn turn_answer(r: TurnCredsResponse, c: TurnCredentialConfig) -> bool {
    &&& r.stun_host@ == c.stun_host@
    &&& r.stun_port == c.stun_port
    &&& r.turn_host@ == c.turn_host@
    &&& r.turn_port == c.turn_port
    &&& r.turns_port == c.turns_port
    &&& r.realm@ == c.realm@
    &&& r.ttl_secs == c.ttl_secs
}

/// Credentials for the TURN server, minted by the clock. None configured: the
/// service is not there.
pub fn turn_creds(cfg: Option<TurnCredentialConfig>, player: &str) -> (r: Result<
    TurnCredsResponse,
    ApiError,
>)
    ensures
        match (r, cfg) {
            (Ok(a), Some(c)) => turn_answer(a, c) && a.password@ == turn_password(
                c.secret@,
                a.username@,
            ) && exists|e: int|
                c.ttl_secs <= e < c.ttl_secs + CLOCK_END && #[trigger] turn_username(e, player@)
                    == a.username@,
            (Err(e), None) => e@ == (
                503u16,
                "COTURN_STATIC_AUTH_SECRET and COTURN_HOST are not configured (see docs/LOBBY.md)"@,
            ),
            (Err(e), Some(c)) => !always_fits(c.ttl_secs) && e@ == (
                500u16,
                "credential expiry out of range"@,
            ),
            _ => false,
        },
{
    let c = match require_config(cfg) {
        Ok(c) => c,
        Err(e) => {
            return Err(refuse(503, e));
        },
    };
    match issue_credentials(&c, player) {
        Some((username, password)) => Ok(
            TurnCredsResponse {
                stun_host: c.stun_host,
                stun_port: c.stun_port,
                turn_host: c.turn_host,
                turn_port: c.turn_port,
                turns_port: c.turns_port,
                realm: c.realm,
                username,
                password,
                ttl_secs: c.ttl_secs,
            },
        ),
        None => Err(refuse(500, "credential expiry out of range")),
    }
}

// ---------------------------------------------------------- the login pages

/// A character in a page.
pub open spec fn html_char(c: char) -> Seq<char> {
    if c == '&' {
        "&amp;"@
    } else if c == '<' {
        "&lt;"@
    } else if c == '>' {
        "&gt;"@
    } else if c == '"' {
        "&quot;"@
    } else if c == '\'' {
        "&#39;"@
    } else {
        seq![c]
    }
}

/// A text in a page: nothing in it is markup.
pub open spec fn html_text(s: Seq<char>) -> Seq<char>
    decreases s.len(),
{
    if s.len() == 0 {
        Seq::empty()
    } else {
        html_text(s.drop_last()) + html_char(s.last())
    }
}

fn push_text(out: &mut Vec<char>, s: &str)
    ensures
        final(out)@ == old(out)@ + s@,
{
    let v = chars_of(s);
    let ghost before = out@;
    let mut i: usize = 0;
    proof {
        assert(out@ =~= before + v@.take(0));
    }
    while i < v.len()
        invariant
            i <= v@.len(),
            out@ == before + v@.take(i as int),
        decreases v@.len() - i,
    {
        out.push(v[i]);
        proof {
            assert(v@.take(i + 1) =~= v@.take(i as int).push(v@[i as int]));
            assert(out@ =~= before + v@.take(i + 1));
        }
        i = i + 1;
    }
    proof {
        assert(v@.take(v@.len() as int) =~= v@);
    }
}

pub fn html_escape(s: &str) -> (r: String)
    ensures
        r@ == html_text(s@),
{
    let v = chars_of(s);
    let mut out: Vec<char> = Vec::new();
    let mut i: usize = 0;
    proof {
        assert(v@.take(0) =~= Seq::<char>::empty());
    }
    while i < v.len()
        invariant
            i <= v@.len(),
            out@ == html_text(v@.take(i as int)),
        decreases v@.len() - i,
    {
        let c = v[i];
        let ghost before = out@;
        proof {
            let t = v@.take(i + 1);
            assert(t.drop_last() =~= v@.take(i as int));
            assert(t.last() == c);
        }
        if c == '&' {
            push_text(&mut out, "&amp;");
        } else if c == '<' {
            push_text(&mut out, "&lt;");
        } else if c == '>' {
            push_text(&mut out, "&gt;");
        } else if c == '"' {
            push_text(&mut out, "&quot;");
        } else if c == '\'' {
            push_text(&mut out, "&#39;");
        } else {
            out.push(c);
        }
        proof {
            assert(out@ =~= before + html_char(c));
        }
        i = i + 1;
    }
    proof {
        assert(v@.take(v@.len() as int) =~= v@);
        assert(out@.subrange(0, out@.len() as int) =~= out@);
    }
    string_of(&out, 0, out.len())
}

/// A page for a person to read and close.
pub open spec fn page_text(title: Seq<char>, body: Seq<char>) -> Seq<char> {
    "<!doctype html><meta charset=utf-8><title>"@ + html_text(title)
        + "</title><body style=\"font:16px/1.5 system-ui;margin:4rem auto;max-width:32rem;color:#e8e8ea;background:#0a0d16\"><h1 style=\"font-size:1.3rem\">"@
        + html_text(title) + "</h1><p>"@ + html_text(body) + "</p></body>"@
}

pub fn page(title: &str, body: &str) -> (r: String)
    ensures
        r@ == page_text(title@, body@),
{
    let t = html_escape(title);
    let b = html_escape(body);
    let mut p = cat("<!doctype html><meta charset=utf-8><title>", t.as_str());
    p = cat3(
        p.as_str(),
        "</title><body style=\"font:16px/1.5 system-ui;margin:4rem auto;max-width:32rem;color:#e8e8ea;background:#0a0d16\"><h1 style=\"font-size:1.3rem\">",
        t.as_str(),
    );
    p = cat3(p.as_str(), "</h1><p>", b.as_str());
    cat(p.as_str(), "</p></body>")
}

/// The short code in front of what went wrong.
pub open spec fn short_code(e: Seq<char>) -> Seq<char> {
    pieces(e, ':')[0]
}

/// The page that the browser shows when a login ended.
pub open spec fn login_page(outcome: Result<CompletedView, Seq<char>>) -> Seq<char> {
    match outcome {
        Ok(c) => page_text(
            "Signed in"@,
            "Welcome, "@ + html_text(c.handle)
                + ". You can close this window and return to the game."@,
        ),
        Err(e) => if e == "not_in_guild"@ {
            page_text(
                "Not a member"@,
                "This server is for members of our Discord only. Join it, then sign in again."@,
            )
        } else {
            page_text(
                "Login failed"@,
                "Sign-in could not be completed ("@ + html_text(short_code(e))
                    + "). Close this window and                      try again — if it keeps happening, the server operator can                      see the reason in the lobby server log."@,
            )
        },
    }
}

pub fn callback_page(outcome: &Result<Completed, String>) -> (r: String)
    ensures
        r@ == login_page(outcome_view(*outcome)),
{
    match outcome {
        Ok(c) => {
            let h = html_escape(c.handle.as_str());
            let b = cat3(
                "Welcome, ",
                h.as_str(),
                ". You can close this window and return to the game.",
            );
            page("Signed in", b.as_str())
        },
        Err(e) => {
            if same(e.as_str(), "not_in_guild") {
                return page(
                    "Not a member",
                    "This server is for members of our Discord only. Join it, then sign in again.",
                );
            }
            let parts = split(e.as_str(), ':');
            proof {
                assert(pieces(e@, ':').len() > 0);
                assert(views(parts@)[0] == parts@[0]@);
            }
            let code = html_escape(parts[0].as_str());
            let b = cat3(
                "Sign-in could not be completed (",
                code.as_str(),
                "). Close this window and                      try again — if it keeps happening, the server operator can                      see the reason in the lobby server log.",
            );
            page("Login failed", b.as_str())
        },
    }
}

/// What a callback asks for.
pub enum Callback {
    /// The login failed for this reason, and this page says so.
    Failed(String, String),
    /// Trade this code.
    Exchange(String),
}

/// What to do with a callback: the player's cancelling comes first, then a
/// missing code.
pub fn discord_callback(code: Option<String>, error: Option<String>) -> (r: Callback)
    ensures
        match (error, code) {
            (Some(e), _) => r matches Callback::Failed(why, shown) && why@ == e@ && shown@
                == page_text(
                "Login cancelled"@,
                "You can close this window and try again."@,
            ),
            (None, None) => r matches Callback::Failed(why, shown) && why@ == "no_code"@ && shown@
                == page_text("Login failed"@, "Discord did not return a code."@),
            (None, Some(c)) => r matches Callback::Exchange(d) && d@ == c@,
        },
{
    if let Some(e) = error {
        return Callback::Failed(
            e,
            page("Login cancelled", "You can close this window and try again."),
        );
    }
    match code {
        None => Callback::Failed(
            "no_code".to_owned(),
            page("Login failed", "Discord did not return a code."),
        ),
        Some(c) => Callback::Exchange(c),
    }
}

/// Starts a login: the pairing code and the page to open. Where Discord is not
/// configured the service is not there.
pub fn discord_start(config: &Config, store: &mut LoginStore, now: u64) -> (r: Result<
    (String, String),
    ApiError,
>)
    ensures
        exists|bytes: Seq<u8>|
            bytes.len() == 24 && final(store)@ == begun(old(store)@, #[trigger] hex_of(bytes), now)
                && (r matches Ok(p) ==> p.0@ == hex_of(bytes)),
        match r {
            Ok(p) => config@.discord_client_id is Some && config@.discord_redirect_url is Some
                && p.1@ == authorize_page(
                config@.discord_client_id->0,
                config@.discord_redirect_url->0,
                config@.discord_guild_id is Some,
                p.0@,
            ),
            Err(e) => e@ == (
                503u16,
                if config@.discord_client_id is None {
                    "DISCORD_CLIENT_ID not set"@
                } else {
                    "DISCORD_REDIRECT_URL not set"@
                },
            ) && (config@.discord_client_id is None || config@.discord_redirect_url is None),
        },
{
    let code = store.begin(now);
    match authorize_url(config, code.as_str()) {
        Ok(url) => Ok((code, url)),
        Err(e) => Err(refuse(503, e)),
    }
}

/// Whether a login is done yet. A login that still runs is answered with 202.
pub fn discord_poll(store: &mut LoginStore, code: &str, now: u64) -> (r: Result<Completed, ApiError>)
    ensures
        ({
            let s = take_step(old(store)@, code@, now);
            &&& final(store)@ == s.0
            &&& match (r, s.1) {
                (Ok(c), Some(Ok(d))) => c@ == d,
                (Err(a), Some(Err(e))) => a@ == (403u16, e),
                (Err(a), None) => a@ == (202u16, "pending"@),
                _ => false,
            }
        }),
{
    match store.take(code, now) {
        Some(Ok(done)) => Ok(done),
        Some(Err(e)) => Err(refuse(403, e.as_str())),
        None => Err(refuse(202, "pending")),
    }
}

// -------------------------------------------------------------------- laws

/// Only the host of a room is shown its join code.
pub proof fn law_join_code_is_the_hosts(v: RoomView, r: RoomModel, viewer: Seq<char>)
    requires
        shows(v, r, viewer),
        viewer != r.host_player_id,
    ensures
        v.join_code is None,
{
}

/// A text in a page holds none of the characters that would end it.
pub proof fn law_pages_hold_no_markup(s: Seq<char>)
    ensures
        forall|i: int|
            0 <= i < html_text(s).len() ==> (#[trigger] html_text(s)[i]) != '<' && html_text(s)[i]
                != '>' && html_text(s)[i] != '"' && html_text(s)[i] != '\'',
    decreases s.len(),
{
    reveal_strlit("&amp;");
    reveal_strlit("&lt;");
    reveal_strlit("&gt;");
    reveal_strlit("&quot;");
    reveal_strlit("&#39;");
    if s.len() > 0 {
        law_pages_hold_no_markup(s.drop_last());
        let a = html_text(s.drop_last());
        let b = html_char(s.last());
        assert forall|i: int| 0 <= i < html_text(s).len() implies (#[trigger] html_text(s)[i])
            != '<' && html_text(s)[i] != '>' && html_text(s)[i] != '"' && html_text(s)[i] != '\'' by {
            if i < a.len() {
                assert(html_text(s)[i] == a[i]);
            } else {
                assert(html_text(s)[i] == b[i - a.len()]);
            }
        }
    }
}

proof fn lemma_refilled(s: Seq<BoxView>, player: Seq<char>, v: Seq<EnvelopeView>)
    requires
        crate::signal::sound(s),
        waiting(s, player).len() == 0,
        v.len() <= crate::signal::MAX_QUEUED_PER_PLAYER,
    ensures
        crate::signal::sound(refilled(s, player, v)),
        waiting(refilled(s, player, v), player) == v,
    decreases v.len(),
{
    if v.len() > 0 {
        let d = v.drop_last();
        lemma_refilled(s, player, d);
        crate::signal::law_push_then_drain(refilled(s, player, d), player, v.last());
        crate::signal::lemma_pushed_sound(refilled(s, player, d), player, v.last());
        assert(d.push(v.last()) =~= v);
    } else {
        assert(waiting(s, player) =~= v);
    }
}

proof fn lemma_of_room_len(v: Seq<EnvelopeView>, room_id: Seq<char>, inside: bool)
    ensures
        of_room(v, room_id, inside).len() <= v.len(),
    decreases v.len(),
{
    if v.len() > 0 {
        lemma_of_room_len(v.drop_last(), room_id, inside);
    }
}

/// Reading one room's signals loses none of another's: they wait on, in their
/// order.
pub proof fn law_other_rooms_signals_wait_on(s: Seq<BoxView>, player: Seq<char>, room_id: Seq<char>)
    requires
        crate::signal::sound(s),
    ensures
        waiting(
            refilled(
                without_box(s, player),
                player,
                of_room(waiting(s, player), room_id, false),
            ),
            player,
        ) == of_room(waiting(s, player), room_id, false),
{
    let t = without_box(s, player);
    let v = of_room(waiting(s, player), room_id, false);
    crate::signal::lemma_without_sound(s, player);
    crate::find::lemma_first_where(s, |m: BoxView| m.owner == player);
    lemma_of_room_len(waiting(s, player), room_id, false);
    lemma_refilled(t, player, v);
}

/// A signal to the whole room does not come back to its sender.
pub proof fn law_signals_spare_the_sender(ms: Seq<MemberView>, player: Seq<char>)
    ensures
        !rest_of(ms, player).contains(player),
    decreases ms.len(),
{
    if ms.len() > 0 {
        law_signals_spare_the_sender(ms.drop_last(), player);
        let d = rest_of(ms.drop_last(), player);
        let r = rest_of(ms, player);
        assert forall|i: int| 0 <= i < r.len() implies r[i] != player by {
            if i < d.len() {
                assert(d.contains(d[i]));
                assert(r[i] == d[i]);
            }
        }
    }
}

/// A text with no markup in it stands in a page as it is, and escaping goes
/// character by character.
pub proof fn law_plain_text_is_shown_as_it_is(a: Seq<char>, b: Seq<char>)
    ensures
        html_text(a + b) == html_text(a) + html_text(b),
        (forall|i: int|
            0 <= i < a.len() ==> #[trigger] a[i] != '<' && a[i] != '>' && a[i] != '&' && a[i] != '"'
                && a[i] != '\'') ==> html_text(a) == a,
    decreases a.len() + b.len(),
{
    if b.len() > 0 {
        law_plain_text_is_shown_as_it_is(a, b.drop_last());
        assert((a + b).drop_last() =~= a + b.drop_last());
        assert(html_text(a + b) =~= html_text(a) + html_text(b));
    } else {
        assert(a + b =~= a);
        assert(html_text(a) + html_text(b) =~= html_text(a));
        if a.len() > 0 {
            law_plain_text_is_shown_as_it_is(a.drop_last(), Seq::empty());
            if forall|i: int|
                0 <= i < a.len() ==> #[trigger] a[i] != '<' && a[i] != '>' && a[i] != '&' && a[i]
                    != '"' && a[i] != '\'' {
                let t = a.drop_last();
                assert forall|i: int| 0 <= i < t.len() implies #[trigger] t[i] != '<' && t[i] != '>'
                    && t[i] != '&' && t[i] != '"' && t[i] != '\'' by {
                    assert(t[i] == a[i]);
                }
                assert(a[a.len() - 1] == a.last());
                assert(html_text(a) =~= a);
            }
        } else {
            assert(html_text(a) =~= a);
        }
    }
}

/// Everybody in a room but the sender is meant by a signal to the room, and
/// nobody outside it.
pub proof fn law_signals_are_for_the_others(ms: Seq<MemberView>, player: Seq<char>, p: Seq<char>)
    ensures
        rest_of(ms, player).contains(p) <==> p != player && exists|i: int|
            0 <= i < ms.len() && (#[trigger] ms[i]).player_id == p,
    decreases ms.len(),
{
    if ms.len() > 0 {
        let t = ms.drop_last();
        law_signals_are_for_the_others(t, player, p);
        let d = rest_of(t, player);
        let r = rest_of(ms, player);
        if r.contains(p) {
            let k = choose|k: int| 0 <= k < r.len() && r[k] == p;
            if k < d.len() {
                assert(d[k] == p);
                assert(d.contains(p));
                let i = choose|i: int| 0 <= i < t.len() && (#[trigger] t[i]).player_id == p;
                assert(ms[i] == t[i]);
            } else {
                assert(ms[ms.len() - 1].player_id == p);
            }
        }
        if p != player && exists|i: int| 0 <= i < ms.len() && (#[trigger] ms[i]).player_id == p {
            let i = choose|i: int| 0 <= i < ms.len() && (#[trigger] ms[i]).player_id == p;
            if i == ms.len() - 1 {
                assert(r[d.len() as int] == p);
            } else {
                assert(t[i] == ms[i]);
                let k = choose|k: int| 0 <= k < d.len() && d[k] == p;
                assert(r[k] == p);
            }
        }
    }
}

/// A member's signal that is not too long goes to the member it names, or to
/// everybody else in the room where it names none.
pub proof fn law_a_members_signal_goes_out(
    rs: Seq<RoomModel>,
    room: RoomModel,
    player: Seq<char>,
    target: Option<Seq<char>>,
    text: Seq<char>,
)
    requires
        room_of(rs, room.room_id) == Some(room),
    ensures
        ({
            let there = member_at(room.members, player) is Some;
            let sent = signal_targets(rs, room.room_id, player, target, text);
            &&& byte_len(text) > 2047 ==> sent is Err
            &&& !there ==> sent is Err
            &&& byte_len(text) <= 2047 && there && target is None ==> sent == Ok::<
                Seq<Seq<char>>,
                (u16, Seq<char>),
            >(rest_of(room.members, player))
            &&& byte_len(text) <= 2047 && there && target is Some && member_at(
                room.members,
                target->0,
            ) is Some ==> sent == Ok::<Seq<Seq<char>>, (u16, Seq<char>)>(seq![target->0])
            &&& target is Some && member_at(room.members, target->0) is None ==> sent is Err
        }),
{
}

proof fn lemma_delivered_sound(s: Seq<BoxView>, targets: Seq<Seq<char>>, e: EnvelopeView)
    requires
        crate::signal::sound(s),
    ensures
        crate::signal::sound(delivered(s, targets, e)),
    decreases targets.len(),
{
    if targets.len() > 0 {
        lemma_delivered_sound(s, targets.drop_last(), e);
        crate::signal::lemma_pushed_sound(
            delivered(s, targets.drop_last(), e),
            targets.last(),
            e,
        );
    }
}

/// A signal waits last with each that it is meant for, and with nobody else.
pub proof fn law_a_signal_waits_with_its_targets(
    s: Seq<BoxView>,
    targets: Seq<Seq<char>>,
    e: EnvelopeView,
    p: Seq<char>,
)
    requires
        crate::signal::sound(s),
    ensures
        targets.contains(p) ==> waiting(delivered(s, targets, e), p).len() > 0 && waiting(
            delivered(s, targets, e),
            p,
        ).last() == e,
        !targets.contains(p) ==> waiting(delivered(s, targets, e), p) == waiting(s, p),
    decreases targets.len(),
{
    if targets.len() > 0 {
        let rest = targets.drop_last();
        let t = delivered(s, rest, e);
        law_a_signal_waits_with_its_targets(s, rest, e, p);
        lemma_delivered_sound(s, rest, e);
        if targets.last() == p {
            crate::signal::law_the_newest_waits_last(t, p, e);
            assert(targets[targets.len() - 1] == p);
        } else {
            crate::signal::law_mailboxes_are_apart(t, targets.last(), e, p);
            if targets.contains(p) {
                let k = choose|k: int| 0 <= k < targets.len() && targets[k] == p;
                assert(rest[k] == p);
            }
            if rest.contains(p) {
                let k = choose|k: int| 0 <= k < rest.len() && rest[k] == p;
                assert(targets[k] == p);
            }
        }
    }
}

/// What is handed out of a room's signals is all of that room's that waited, in
/// the order in which they came, and none of another room's.
pub proof fn law_a_rooms_signals_are_handed_out(
    a: Seq<EnvelopeView>,
    e: EnvelopeView,
    room_id: Seq<char>,
)
    ensures
        of_room(Seq::empty(), room_id, true).len() == 0,
        e.room_id == room_id ==> of_room(a.push(e), room_id, true) == of_room(
            a,
            room_id,
            true,
        ).push(e),
        e.room_id != room_id ==> of_room(a.push(e), room_id, true) == of_room(a, room_id, true),
        e.room_id == room_id ==> of_room(a.push(e), room_id, false) == of_room(a, room_id, false),
        e.room_id != room_id ==> of_room(a.push(e), room_id, false) == of_room(
            a,
            room_id,
            false,
        ).push(e),
{
    assert(a.push(e).drop_last() =~= a);
}

/// A room asked for without a name is a lobby, and one with a name has it
/// without the white space around it.
pub proof fn law_rooms_get_their_name(a: Seq<char>, s: Seq<char>, b: Seq<char>)
    requires
        crate::spelling::all_white(a),
        crate::spelling::all_white(b),
        s.len() > 0 ==> !crate::text::is_white(s[0]) && !crate::text::is_white(s.last()),
    ensures
        room_name(a + s + b) == if s.len() > 0 {
            s
        } else {
            "lobby"@
        },
{
    crate::spelling::law_trimming_takes_off_the_ends(a, s, b);
}

/// What would be markup is spelled out, each in its own way.
pub proof fn law_markup_is_spelled_out()
    ensures
        html_text(seq!['&']) == "&amp;"@,
        html_text(seq!['<']) == "&lt;"@,
        html_text(seq!['>']) == "&gt;"@,
        html_text(seq!['"']) == "&quot;"@,
        html_text(seq!['\'']) == "&#39;"@,
{
    lemma_one_char('&');
    lemma_one_char('<');
    lemma_one_char('>');
    lemma_one_char('"');
    lemma_one_char('\'');
}

proof fn lemma_one_char(c: char)
    ensures
        html_text(seq![c]) == html_char(c),
{
    let s = seq![c];
    assert(s.drop_last() =~= Seq::<char>::empty());
    reveal_with_fuel(html_text, 2);
    assert(html_text(s) =~= html_char(c));
}

/// A refusal blames the request by its kind: what is not there, what may not be
/// done, what stands in the way, and what makes no sense.
pub proof fn law_refusals_have_their_status(e: RoomError)
    ensures
        room_status(e) == 404 <==> e is NotFound,
        room_status(e) == 403 <==> e is BadJoinCode || e is NotMember || e is NotHost,
        room_status(e) == 400 <==> e is BadSlotCount || e is GameNotAllowed,
        room_status(e) == 409 <==> e is Full || e is NotJoinable || e is GameMismatch || e
            is VersionMismatch || e is AlreadyJoined,
{
}

} // verus!
