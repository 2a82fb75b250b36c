//! Who gets into a room of the registry, who goes, and what is left.

use crate::find::{lemma_first_is, lemma_first_where};
use crate::rooms::{
    bootstrap, free_slot, heartbeat_step, join_step, leave_step, live_members, member_at, others,
    public_list, purged, ready_step, room_at, running_step, slot_used, summary_of, MemberView,
    RoomModel, RoomStatus,
};
use vstd::prelude::*;

verus! {

/// Whether someone is a member of a room.
pub open spec fn is_member(r: RoomModel, player: Seq<char>) -> bool {
    exists|i: int| 0 <= i < r.members.len() && (#[trigger] r.members[i]).player_id == player
}

/// Whether a slot of a room is nobody's.
pub open spec fn is_free(r: RoomModel, slot: int) -> bool {
    &&& 0 <= slot < r.slot_count
    &&& forall|i: int| 0 <= i < r.members.len() ==> (#[trigger] r.members[i]).local_slot != slot
}

/// Whether a room is to be joined: it is open, of this title and version, the code
/// is the room's where it is private, the player is no member yet, and a slot is
/// free.
pub open spec fn may_join(
    r: RoomModel,
    player: Seq<char>,
    game: Seq<char>,
    version: Seq<char>,
    code: Option<Seq<char>>,
) -> bool {
    &&& r.status == RoomStatus::Open
    &&& r.game_id == game
    &&& r.client_version == version
    &&& r.is_private ==> r.join_code is Some && code == r.join_code
    &&& !is_member(r, player)
    &&& r.members.len() < r.slot_count
    &&& exists|s: int| #[trigger] is_free(r, s)
}

proof fn lemma_free(r: RoomModel, s: int)
    requires
        0 <= s,
    ensures
        match free_slot(r.members, r.slot_count as int, s) {
            Some(k) => s <= k && is_free(r, k) && forall|j: int| s <= j < k ==> !#[trigger] is_free(r, j),
            None => forall|j: int| s <= j ==> !#[trigger] is_free(r, j),
        },
    decreases r.slot_count - s,
{
    if s < r.slot_count {
        assert(slot_used(r.members, s) == !is_free(r, s)) by {
            if slot_used(r.members, s) {
                let i = choose|i: int|
                    0 <= i < r.members.len() && (#[trigger] r.members[i]).local_slot == s;
                assert(r.members[i].local_slot == s);
            }
        }
        lemma_free(r, s + 1);
    }
}

proof fn lemma_member(r: RoomModel, player: Seq<char>)
    ensures
        (member_at(r.members, player) is Some) == is_member(r, player),
{
    lemma_first_where(r.members, |m: MemberView| m.player_id == player);
}

/// Whether every room but one stays as it is.
pub open spec fn others_stay(rs: Seq<RoomModel>, rs2: Seq<RoomModel>, k: int) -> bool {
    rs2.len() == rs.len() && forall|j: int|
        0 <= j < rs.len() && j != k ==> #[trigger] rs2[j] == rs[j]
}

/// Whether the room at `k` is the one of an id.
pub open spec fn is_room(rs: Seq<RoomModel>, id: Seq<char>, k: int) -> bool {
    &&& 0 <= k < rs.len()
    &&& rs[k].room_id == id
    &&& forall|j: int| 0 <= j < k ==> (#[trigger] rs[j]).room_id != id
}

proof fn lemma_room(rs: Seq<RoomModel>, id: Seq<char>, k: int)
    requires
        is_room(rs, id, k),
    ensures
        room_at(rs, id) == Some(k),
{
    lemma_first_is(rs, |r: RoomModel| r.room_id == id, k);
}

/// A player gets into a room exactly where the room is to be joined by that
/// player; then they have the lowest free slot, are not ready, and everyone else
/// stays as they are. Where not, nothing changes.
pub proof fn law_who_may_join_does(
    rs: Seq<RoomModel>,
    id: Seq<char>,
    player: Seq<char>,
    game: Seq<char>,
    version: Seq<char>,
    code: Option<Seq<char>>,
    now: i64,
    k: int,
)
    requires
        is_room(rs, id, k),
    ensures
        ({
            let (rs2, res) = join_step(rs, id, player, game, version, code, now);
            let r = rs[k];
            &&& (res is Ok) == may_join(r, player, game, version, code)
            &&& res is Err ==> rs2 == rs
            &&& res is Ok ==> {
                let r2 = res->Ok_0;
                let m = r2.members.last();
                &&& others_stay(rs, rs2, k)
                &&& rs2[k] == r2
                &&& r2.members.len() == r.members.len() + 1
                &&& r2.members.drop_last() == r.members
                &&& m.player_id == player
                &&& !m.ready
                &&& is_free(r, m.local_slot as int)
                &&& forall|j: int| 0 <= j < m.local_slot ==> !#[trigger] is_free(r, j)
                &&& r2.room_id == id
                &&& r2.host_player_id == r.host_player_id
                &&& r2.status == RoomStatus::Open
            }
        }),
{
    lemma_room(rs, id, k);
    let r = rs[k];
    lemma_member(r, player);
    lemma_free(r, 0);
    let (rs2, res) = join_step(rs, id, player, game, version, code, now);
    if free_slot(r.members, r.slot_count as int, 0) is None {
        assert forall|s: int| !#[trigger] is_free(r, s) by {}
    }
    if res is Ok {
        assert(res->Ok_0.members.drop_last() =~= r.members);
    }
}

proof fn lemma_others(ms: Seq<MemberView>, player: Seq<char>)
    ensures
        others(ms, player) == ms.filter(|m: MemberView| m.player_id != player),
    decreases ms.len(),
{
    reveal(Seq::filter);
    if ms.len() > 0 {
        lemma_others(ms.drop_last(), player);
    }
}

/// A member that leaves is one no more; the others keep their slots in their order
/// and have to say again that they are ready, and no start is due. The room goes
/// with its host. Whoever is no member changes nothing.
pub proof fn law_leaving_leaves_the_others(
    rs: Seq<RoomModel>,
    id: Seq<char>,
    player: Seq<char>,
    now: i64,
    k: int,
)
    requires
        is_room(rs, id, k),
    ensures
        ({
            let (rs2, res) = leave_step(rs, id, player, now);
            let r = rs[k];
            let rest = r.members.filter(|m: MemberView| m.player_id != player);
            &&& (res is Ok) == is_member(r, player)
            &&& res is Err ==> rs2 == rs
            &&& res is Ok && r.host_player_id == player ==> rs2 == rs.remove(k)
            &&& res is Ok && r.host_player_id != player ==> {
                let r2 = rs2[k];
                &&& others_stay(rs, rs2, k)
                &&& r2.members.len() == rest.len()
                &&& forall|i: int|
                    0 <= i < rest.len() ==> (#[trigger] r2.members[i]).player_id == rest[i].player_id
                        && r2.members[i].local_slot == rest[i].local_slot && !r2.members[i].ready
                &&& r2.status != RoomStatus::Starting
            }
        }),
{
    lemma_room(rs, id, k);
    lemma_member(rs[k], player);
    lemma_others(rs[k].members, player);
}

/// A room is due to start exactly where each of its members is ready; it then has a
/// session, and its members learn their own slots, of which the first decides.
pub proof fn law_a_start_is_due_when_all_are_ready(
    rs: Seq<RoomModel>,
    id: Seq<char>,
    player: Seq<char>,
    ready: bool,
    roll: u32,
    now: i64,
    k: int,
    i: int,
)
    requires
        is_room(rs, id, k),
        rs[k].status == RoomStatus::Open || rs[k].status == RoomStatus::Starting,
        0 <= i < rs[k].members.len(),
        rs[k].members[i].player_id == player,
        forall|j: int| 0 <= j < i ==> (#[trigger] rs[k].members[j]).player_id != player,
    ensures
        ({
            let (rs2, res) = ready_step(rs, id, player, ready, roll, now);
            let r = rs[k];
            let r2 = rs2[k];
            let all = ready && forall|j: int|
                0 <= j < r.members.len() && j != i ==> (#[trigger] r.members[j]).ready;
            &&& res == Ok::<RoomModel, crate::rooms::RoomError>(r2)
            &&& others_stay(rs, rs2, k)
            &&& r2.members.len() == r.members.len()
            &&& r2.members[i].ready == ready
            &&& forall|j: int|
                0 <= j < r.members.len() && j != i ==> #[trigger] r2.members[j] == r.members[j]
            &&& (r2.status == RoomStatus::Starting) == all
            &&& all ==> r2.session_id is Some
            &&& all && r.session_id is None ==> r2.session_id == Some(roll)
            &&& !all ==> r2.status == RoomStatus::Open
        }),
{
    lemma_room(rs, id, k);
    let r = rs[k];
    lemma_first_is(r.members, |m: MemberView| m.player_id == player, i);
    let ms = r.members.update(
        i,
        MemberView { ready, last_heartbeat: now, ..r.members[i] },
    );
    if ready && forall|j: int| 0 <= j < r.members.len() && j != i ==> (#[trigger] r.members[j]).ready {
        assert forall|j: int| 0 <= j < ms.len() implies (#[trigger] ms[j]).ready by {
            if j != i {
                assert(r.members[j].ready);
            }
        }
    } else if ready {
        let j = choose|j: int| 0 <= j < r.members.len() && j != i && !(#[trigger] r.members[j]).ready;
        assert(!ms[j].ready);
    } else {
        assert(!ms[i].ready);
    }
}

/// What a member needs to start: the room's session and settings, the member's own
/// slot, and whether that is the first. Nobody else gets any, and nobody before
/// there is a session.
pub proof fn law_members_learn_their_own_slot(r: RoomModel, player: Seq<char>, i: int)
    requires
        0 <= i < r.members.len(),
        r.members[i].player_id == player,
        forall|j: int| 0 <= j < i ==> (#[trigger] r.members[j]).player_id != player,
    ensures
        match r.session_id {
            Some(s) => bootstrap(r, player) is Some && {
                let b = bootstrap(r, player)->0;
                &&& b.session_id == s
                &&& b.protocol_magic == r.protocol_magic
                &&& b.slot_count == r.slot_count
                &&& b.input_delay == r.input_delay
                &&& b.local_slot == r.members[i].local_slot
                &&& b.you_are_sim_authority == (r.members[i].local_slot == 0)
            },
            None => bootstrap(r, player) is None,
        },
{
    lemma_first_is(r.members, |m: MemberView| m.player_id == player, i);
}

/// Only the host says that the match runs, and only once a start is due.
pub proof fn law_the_host_says_it_runs(
    rs: Seq<RoomModel>,
    id: Seq<char>,
    player: Seq<char>,
    now: i64,
    k: int,
)
    requires
        is_room(rs, id, k),
    ensures
        ({
            let (rs2, res) = running_step(rs, id, player, now);
            let r = rs[k];
            &&& (res is Ok) == (r.host_player_id == player && r.status == RoomStatus::Starting)
            &&& res is Err ==> rs2 == rs
            &&& res is Ok ==> others_stay(rs, rs2, k) && rs2[k].status == RoomStatus::Running
                && rs2[k].members == r.members && rs2[k].session_id == r.session_id
        }),
{
    lemma_room(rs, id, k);
}

/// A sign of life is a member's own, and moves nobody else.
pub proof fn law_a_sign_of_life_is_ones_own(
    rs: Seq<RoomModel>,
    id: Seq<char>,
    player: Seq<char>,
    now: i64,
    k: int,
    i: int,
)
    requires
        is_room(rs, id, k),
        0 <= i < rs[k].members.len(),
        rs[k].members[i].player_id == player,
        forall|j: int| 0 <= j < i ==> (#[trigger] rs[k].members[j]).player_id != player,
    ensures
        ({
            let (rs2, res) = heartbeat_step(rs, id, player, now);
            &&& res is Ok
            &&& others_stay(rs, rs2, k)
            &&& rs2[k].members[i].last_heartbeat == now
            &&& rs2[k].members[i].ready == rs[k].members[i].ready
            &&& rs2[k].updated_at == now
            &&& forall|j: int|
                0 <= j < rs[k].members.len() && j != i ==> #[trigger] rs2[k].members[j]
                    == rs[k].members[j]
        }),
{
    lemma_room(rs, id, k);
    lemma_first_is(rs[k].members, |m: MemberView| m.player_id == player, i);
}

proof fn lemma_live(ms: Seq<MemberView>, secs: u64, now: i64)
    ensures
        live_members(ms, secs, now) == ms.filter(
            |m: MemberView| now - m.last_heartbeat <= secs * 1000,
        ),
    decreases ms.len(),
{
    reveal(Seq::filter);
    if ms.len() > 0 {
        lemma_live(ms.drop_last(), secs, now);
    }
}

/// What a purge leaves of a room: the members that gave a sign of life lately.
pub open spec fn live_part(r: RoomModel, heartbeat: u64, now: i64) -> RoomModel {
    RoomModel {
        members: r.members.filter(|m: MemberView| now - m.last_heartbeat <= heartbeat * 1000),
        ..r
    }
}

/// A purge leaves exactly the rooms that were used lately and whose host gave a sign
/// of life lately, each with the members that did.
pub proof fn law_a_purge_leaves_the_living(
    rs: Seq<RoomModel>,
    heartbeat: u64,
    idle: u64,
    now: i64,
    k: int,
)
    requires
        0 <= k < rs.len(),
    ensures
        ({
            let r = live_part(rs[k], heartbeat, now);
            now - r.updated_at <= idle * 1000 && is_member(r, r.host_player_id) ==> purged(
                rs,
                heartbeat,
                idle,
                now,
            ).contains(r)
        }),
        forall|i: int|
            0 <= i < purged(rs, heartbeat, idle, now).len() ==> is_member(
                #[trigger] purged(rs, heartbeat, idle, now)[i],
                purged(rs, heartbeat, idle, now)[i].host_player_id,
            ) && now - purged(rs, heartbeat, idle, now)[i].updated_at <= idle * 1000,
    decreases rs.len(),
{
    let d = rs.drop_last();
    let all = purged(rs, heartbeat, idle, now);
    let rest = purged(d, heartbeat, idle, now);
    lemma_live(rs.last().members, heartbeat, now);
    let last = live_part(rs.last(), heartbeat, now);
    lemma_member(last, last.host_player_id);
    if d.len() > 0 {
        let j = if k < d.len() {
            k
        } else {
            0
        };
        law_a_purge_leaves_the_living(d, heartbeat, idle, now, j);
    }
    assert forall|i: int| 0 <= i < all.len() implies is_member(#[trigger] all[i], all[i].host_player_id)
        && now - all[i].updated_at <= idle * 1000 by {
        if i < rest.len() {
            assert(all[i] == rest[i]);
        }
    }
    let r = live_part(rs[k], heartbeat, now);
    if now - r.updated_at <= idle * 1000 && is_member(r, r.host_player_id) {
        if k < d.len() {
            assert(d[k] == rs[k]);
            let i = choose|i: int| 0 <= i < rest.len() && rest[i] == r;
            assert(all[i] == r);
        } else {
            assert(all[rest.len() as int] == r);
        }
    }
}

/// An open room that is not private, of the title and version that are sought, with
/// a slot left, is listed under its own particulars.
pub proof fn law_open_rooms_are_listed(
    rs: Seq<RoomModel>,
    game: Seq<char>,
    version: Option<Seq<char>>,
    k: int,
)
    requires
        0 <= k < rs.len(),
        rs[k].status == RoomStatus::Open,
        !rs[k].is_private,
        rs[k].game_id == game,
        version is Some ==> version->0 == rs[k].client_version,
        rs[k].members.len() < rs[k].slot_count,
    ensures
        exists|i: int|
            0 <= i < public_list(rs, game, version).len() && {
                let s = #[trigger] public_list(rs, game, version)[i];
                &&& s.room_id == rs[k].room_id
                &&& s.game_id == game
                &&& s.display_name == rs[k].display_name
                &&& s.slot_count == rs[k].slot_count
                &&& s.member_count == rs[k].members.len()
                &&& s.input_delay == rs[k].input_delay
            },
    decreases rs.len(),
{
    let d = rs.drop_last();
    let rest = public_list(d, game, version);
    let all = public_list(rs, game, version);
    if k < d.len() {
        assert(d[k] == rs[k]);
        law_open_rooms_are_listed(d, game, version, k);
        let i = choose|i: int|
            0 <= i < rest.len() && {
                let s = #[trigger] rest[i];
                &&& s.room_id == d[k].room_id
                &&& s.game_id == game
                &&& s.display_name == d[k].display_name
                &&& s.slot_count == d[k].slot_count
                &&& s.member_count == d[k].members.len()
                &&& s.input_delay == d[k].input_delay
            };
        assert(all[i] == rest[i]);
    } else {
        assert(all[rest.len() as int] == summary_of(rs[k]));
    }
}

} // verus!
