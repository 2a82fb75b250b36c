//! Where the relay sends what it gets.

use crate::find::{lemma_first_is, lemma_first_none, lemma_first_where};
use crate::input_relay::{
    fresh_sessions, law_fan_out_reaches_everyone, law_fan_out_spares_the_sender, le32, packet_step,
    since, Peer, ProbeWindow, RelayView, SessionView,
};
use vstd::prelude::*;
use vstd::string::*;

verus! {

/// The number that four bytes write, the lowest first.
pub open spec fn four(b: Seq<u8>, at: int) -> int {
    b[at] + 0x100 * b[at + 1] + 0x1_0000 * b[at + 2] + 0x100_0000 * b[at + 3]
}

/// The number that two bytes write, the lowest first.
pub open spec fn two(b: Seq<u8>, at: int) -> int {
    b[at] + 0x100 * b[at + 1]
}

/// Whether a datagram is one of the match protocol, for the session at `k`: the
/// protocol's number, then the kind, then the session's id, and fourteen bytes at
/// least.
pub open spec fn is_for(r: RelayView, magic: u32, pkt: Seq<u8>, k: int) -> bool {
    &&& pkt.len() >= 14
    &&& four(pkt, 0) == magic
    &&& two(pkt, 4) != 200
    &&& 0 <= k < r.sessions.len()
    &&& four(pkt, 6) == r.sessions[k].session_id
    &&& forall|j: int| 0 <= j < k ==> (#[trigger] r.sessions[j]).session_id != r.sessions[k].session_id
}

/// Whether a datagram names a seat: all but those of two kinds do, in their
/// eleventh byte.
pub open spec fn names_seat(pkt: Seq<u8>) -> bool {
    two(pkt, 4) != 3 && two(pkt, 4) != 5
}

proof fn lemma_session(r: RelayView, magic: u32, pkt: Seq<u8>, k: int)
    requires
        is_for(r, magic, pkt, k),
    ensures
        r.session_at(le32(pkt, 6) as u32) == Some(k),
{
    let id = r.sessions[k].session_id;
    assert(le32(pkt, 6) == four(pkt, 6));
    lemma_first_is(r.sessions, |s: SessionView| s.session_id == id, k);
}

/// A datagram of a player goes to everyone else who is bound to a seat of the
/// session, spectators too, and not back to its sender; the sender is bound to the
/// seat that it names, and every other seat and session stays as it is.
pub proof fn law_a_player_is_heard_by_the_others(
    r: RelayView,
    magic: u32,
    pkt: Seq<u8>,
    src: Peer,
    local_dst: Option<u32>,
    now: u64,
    k: int,
    n: int,
)
    requires
        r.wf(),
        is_for(r, magic, pkt, k),
        names_seat(pkt),
        pkt[10] < r.sessions[k].player_slots,
        0 <= n < r.sessions[k].slots.len(),
        n != pkt[10],
    ensures
        ({
            let (r2, v) = packet_step(r, magic, pkt, src, local_dst, now);
            let s = r.sessions[k];
            let s2 = r2.sessions[k];
            &&& v is Forward
            &&& s.slots[n] is Some && s.slots[n]->0.peer != src ==> v->Forward_0.contains(s.slots[n]->0)
            &&& forall|i: int|
                0 <= i < v->Forward_0.len() ==> (#[trigger] v->Forward_0[i]).peer != src
            &&& s2.session_id == s.session_id
            &&& s2.slots[pkt[10] as int] is Some
            &&& s2.slots[pkt[10] as int]->0.peer == src
            &&& local_dst is Some ==> s2.slots[pkt[10] as int]->0.local_dst == local_dst
            &&& s2.slots[n] == s.slots[n]
            &&& s2.last_rx == now
            &&& forall|j: int|
                0 <= j < r.sessions.len() && j != k ==> #[trigger] r2.sessions[j] == r.sessions[j]
        }),
{
    lemma_session(r, magic, pkt, k);
    let (r2, v) = packet_step(r, magic, pkt, src, local_dst, now);
    let s2 = r2.sessions[k];
    assert(r.sessions[k].wf());
    law_fan_out_spares_the_sender(s2.slots, src);
    if s2.slots[n] is Some && s2.slots[n]->0.peer != src {
        law_fan_out_reaches_everyone(s2.slots, src, n);
    }
}

/// A datagram of a spectator goes nowhere, but binds its sender to the seat; one
/// that names a seat beyond the session's goes nowhere and binds nobody.
pub proof fn law_a_spectator_is_heard_by_nobody(
    r: RelayView,
    magic: u32,
    pkt: Seq<u8>,
    src: Peer,
    local_dst: Option<u32>,
    now: u64,
    k: int,
)
    requires
        r.wf(),
        is_for(r, magic, pkt, k),
        names_seat(pkt),
        pkt[10] >= r.sessions[k].player_slots,
    ensures
        ({
            let (r2, v) = packet_step(r, magic, pkt, src, local_dst, now);
            let s = r.sessions[k];
            &&& v is Drop
            &&& if pkt[10] < s.slot_count {
                r2.sessions[k].slots[pkt[10] as int] is Some
                    && r2.sessions[k].slots[pkt[10] as int]->0.peer == src
            } else {
                r2.sessions[k].slots == s.slots
            }
        }),
{
    lemma_session(r, magic, pkt, k);
    assert(r.sessions[k].wf());
}

/// What is no datagram of the protocol, or of no session that there is, goes
/// nowhere and changes nothing.
pub proof fn law_strangers_are_dropped(
    r: RelayView,
    magic: u32,
    pkt: Seq<u8>,
    src: Peer,
    local_dst: Option<u32>,
    now: u64,
)
    requires
        pkt.len() < 14 || four(pkt, 0) != magic || (two(pkt, 4) != 200 && forall|j: int|
            0 <= j < r.sessions.len() ==> (#[trigger] r.sessions[j]).session_id != four(pkt, 6)),
    ensures
        packet_step(r, magic, pkt, src, local_dst, now).0 == r,
        packet_step(r, magic, pkt, src, local_dst, now).1 is Drop,
{
    if pkt.len() >= 14 && four(pkt, 0) == magic {
        let id = le32(pkt, 6) as u32;
        assert(id == four(pkt, 6));
        lemma_first_none(r.sessions, |s: SessionView| s.session_id == id);
    }
}

/// A probe is answered with its own bytes under the kind of an answer, where its
/// source has had fewer than eight answers within the second; no session changes.
pub proof fn law_a_probe_is_answered(
    r: RelayView,
    magic: u32,
    pkt: Seq<u8>,
    src: Peer,
    local_dst: Option<u32>,
    now: u64,
)
    requires
        pkt.len() == 14,
        four(pkt, 0) == magic,
        two(pkt, 4) == 200,
    ensures
        ({
            let (r2, v) = packet_step(r, magic, pkt, src, local_dst, now);
            &&& r2.sessions == r.sessions
            &&& (forall|j: int|
                0 <= j < r.probes.len() && (#[trigger] r.probes[j]).peer == src ==> since(
                    r.probes[j].from,
                    now,
                ) >= 1000 || r.probes[j].answered < 8) ==> v is Answer
            &&& (forall|j: int|
                0 <= j < r.probes.len() && (#[trigger] r.probes[j]).peer == src ==> since(
                    r.probes[j].from,
                    now,
                ) < 1000 && r.probes[j].answered >= 8) && (exists|j: int|
                0 <= j < r.probes.len() && (#[trigger] r.probes[j]).peer == src) ==> v is Drop
            &&& v is Answer ==> {
                let a = v->Answer_0;
                &&& a.len() == 14
                &&& two(a, 4) == 201
                &&& forall|i: int| 0 <= i < 14 && i != 4 && i != 5 ==> #[trigger] a[i] == pkt[i]
            }
        }),
{
    lemma_first_where(r.probes, |w: ProbeWindow| w.peer == src);
}

proof fn lemma_fresh(ss: Seq<SessionView>, now: u64, s: SessionView)
    ensures
        fresh_sessions(ss, now).contains(s) == (ss.contains(s) && since(s.last_rx, now) < 120_000),
    decreases ss.len(),
{
    if ss.len() > 0 {
        let d = ss.drop_last();
        let rest = fresh_sessions(d, now);
        let all = fresh_sessions(ss, now);
        lemma_fresh(d, now, s);
        if ss.contains(s) {
            let k = choose|k: int| 0 <= k < ss.len() && ss[k] == s;
            if k < d.len() {
                assert(d[k] == s);
            } else if since(s.last_rx, now) < 120_000 {
                assert(all[rest.len() as int] == s);
            }
        }
        if d.contains(s) {
            let k = choose|k: int| 0 <= k < d.len() && d[k] == s;
            assert(ss[k] == s);
        }
        if rest.contains(s) {
            let k = choose|k: int| 0 <= k < rest.len() && rest[k] == s;
            assert(all[k] == s);
        }
        if all.contains(s) {
            let k = choose|k: int| 0 <= k < all.len() && all[k] == s;
            if k < rest.len() {
                assert(rest[k] == s);
            } else {
                assert(ss[ss.len() - 1] == s);
            }
        }
    }
}

/// A sweep keeps the sessions that had traffic within two minutes, and no other.
pub proof fn law_a_sweep_drops_the_idle(ss: Seq<SessionView>, now: u64, s: SessionView)
    ensures
        fresh_sessions(ss, now).contains(s) == (ss.contains(s) && since(s.last_rx, now) < 120_000),
{
    lemma_fresh(ss, now, s);
}

} // verus!
