//! UDP delay-sync input relay (star topology).
//!
//! Each peer dials one public UDP endpoint. The relay validates the common
//! header (magic and session id), learns which address sits in which slot, and
//! forwards the raw datagram to every other registered seat. Pad bytes are
//! never interpreted.

use crate::find::{first_where, lemma_first_is, lemma_first_none, lemma_first_where};
use crate::text::{cat3, dec, decimal, opt_view, trim, trimmed};
use vstd::prelude::*;
use vstd::string::*;

verus! {

pub const MAX_PLAYER_SLOTS: usize = 8;

pub const MAX_SPECTATOR_SLOTS: usize = 4;

/// Eight player seats plus a four-seat gallery.
pub const MAX_SLOTS: usize = 12;

/// magic(4) + type(2) + session(4) + checksum(4).
pub const MIN_PACKET: usize = 14;

pub const HEADER_LEN: usize = 10;

pub const RNET_PKT_START: u16 = 3;

pub const RNET_PKT_DELAY_SYNC: u16 = 5;

/// A session without traffic for this many milliseconds is dropped.
pub const SESSION_IDLE_MS: u64 = 120_000;

/// Traffic this recent, from two seats at least, means pads are flowing.
pub const SESSION_ACTIVE_MS: u64 = 5_000;

/// The packet type that measures the way to the relay.
pub const RNET_PKT_PROBE: u16 = 200;

/// The packet type of the answer to a probe.
pub const RNET_PKT_PROBE_REPLY: u16 = 201;

/// A source gets this many answers a second to its probes.
pub const PROBES_PER_SECOND: u8 = 8;

/// A UDP address: four bytes of an IPv4 address, or sixteen of an IPv6 one.
#[derive(Clone, Copy, Debug, PartialEq, Eq, Structural)]
pub struct Peer {
    pub v6: bool,
    pub ip: u128,
    pub port: u16,
}

/// Who sits in a slot, and the local IPv4 address that it dialed.
#[derive(Clone, Copy, Debug, PartialEq, Eq, Structural)]
pub struct SlotBinding {
    pub peer: Peer,
    pub local_dst: Option<u32>,
}

/// How many probes of a source were answered in the second that began at
/// `from`, in milliseconds.
#[derive(Clone, Copy, Debug, PartialEq, Eq, Structural)]
pub struct ProbeWindow {
    pub peer: Peer,
    pub from: u64,
    pub answered: u8,
}

pub struct RelaySession {
    pub session_id: u32,
    /// Bindable seats: players plus spectators.
    pub slot_count: u8,
    /// Seats whose packets are forwarded; those from here to `slot_count` are
    /// the gallery.
    pub player_slots: u8,
    /// The binding of each slot, `None` until one is seen.
    pub slots: Vec<Option<SlotBinding>>,
    /// When the last packet came, in milliseconds.
    pub last_rx: u64,
}

#[verifier::ext_equal]
pub ghost struct SessionView {
    pub session_id: u32,
    pub slot_count: u8,
    pub player_slots: u8,
    pub slots: Seq<Option<SlotBinding>>,
    pub last_rx: u64,
}

impl View for RelaySession {
    type V = SessionView;

    open spec fn view(&self) -> SessionView {
        SessionView {
            session_id: self.session_id,
            slot_count: self.slot_count,
            player_slots: self.player_slots,
            slots: self.slots@,
            last_rx: self.last_rx,
        }
    }
}

pub struct InputRelay {
    pub sessions: Vec<RelaySession>,
    pub probes: Vec<ProbeWindow>,
    pub advertise_host: String,
    /// Same-LAN alternate (may be empty).
    pub lan_host: String,
    pub advertise_port: u16,
    pub enabled: bool,
}

#[verifier::ext_equal]
pub ghost struct RelayView {
    pub sessions: Seq<SessionView>,
    pub probes: Seq<ProbeWindow>,
    pub advertise_host: Seq<char>,
    pub lan_host: Seq<char>,
    pub advertise_port: u16,
    pub enabled: bool,
}

impl View for InputRelay {
    type V = RelayView;

    open spec fn view(&self) -> RelayView {
        RelayView {
            sessions: self.sessions@.map_values(|s: RelaySession| s@),
            probes: self.probes@,
            advertise_host: self.advertise_host@,
            lan_host: self.lan_host@,
            advertise_port: self.advertise_port,
            enabled: self.enabled,
        }
    }
}

impl SessionView {
    pub open spec fn wf(self) -> bool {
        self.slots.len() == MAX_SLOTS && self.slot_count <= MAX_SLOTS && self.player_slots
            <= self.slot_count
    }
}

impl RelayView {
    pub open spec fn wf(self) -> bool {
        forall|i: int| 0 <= i < self.sessions.len() ==> (#[trigger] self.sessions[i]).wf()
    }

    /// Where the session `id` stands.
    pub open spec fn session_at(self, id: u32) -> Option<int> {
        first_where(self.sessions, |s: SessionView| s.session_id == id)
    }

    /// The relay without the session `id`.
    pub open spec fn without(self, id: u32) -> RelayView {
        match self.session_at(id) {
            Some(i) => RelayView { sessions: self.sessions.remove(i), ..self },
            None => self,
        }
    }

    /// The public `host:port` that clients dial.
    pub open spec fn public_endpoint(self) -> Seq<char> {
        self.advertise_host + ":"@ + decimal(self.advertise_port as nat)
    }

    /// The same-LAN alternate, where there is one.
    pub open spec fn lan_endpoint(self) -> Option<Seq<char>> {
        if trimmed(self.lan_host).len() == 0 {
            None
        } else {
            Some(trimmed(self.lan_host) + ":"@ + decimal(self.advertise_port as nat))
        }
    }

    /// The endpoint to hand out.
    pub open spec fn endpoint(self, prefer_lan: bool) -> Seq<char> {
        if prefer_lan && self.lan_endpoint() is Some {
            self.lan_endpoint()->0
        } else {
            self.public_endpoint()
        }
    }
}

/// How many slots are bound.
pub open spec fn bound(slots: Seq<Option<SlotBinding>>) -> int
    decreases slots.len(),
{
    if slots.len() == 0 {
        0
    } else {
        bound(slots.drop_last()) + (if slots.last() is Some {
            1int
        } else {
            0
        })
    }
}

/// The milliseconds from `then` to `now`.
pub open spec fn since(then: u64, now: u64) -> int {
    if now < then {
        0
    } else {
        now - then
    }
}

pub open spec fn flowing(s: SessionView, now: u64) -> bool {
    since(s.last_rx, now) < SESSION_ACTIVE_MS && bound(s.slots) >= 2
}

/// How many of the sessions have pads flowing.
pub open spec fn flowing_count(ss: Seq<SessionView>, now: u64) -> int
    decreases ss.len(),
{
    if ss.len() == 0 {
        0
    } else {
        flowing_count(ss.drop_last(), now) + (if flowing(ss.last(), now) {
            1int
        } else {
            0
        })
    }
}

/// The sessions that had traffic lately.
pub open spec fn fresh_sessions(ss: Seq<SessionView>, now: u64) -> Seq<SessionView>
    decreases ss.len(),
{
    if ss.len() == 0 {
        Seq::empty()
    } else if since(ss.last().last_rx, now) < SESSION_IDLE_MS {
        fresh_sessions(ss.drop_last(), now).push(ss.last())
    } else {
        fresh_sessions(ss.drop_last(), now)
    }
}

/// The probe windows that are not over.
pub open spec fn open_windows(ws: Seq<ProbeWindow>, now: u64) -> Seq<ProbeWindow>
    decreases ws.len(),
{
    if ws.len() == 0 {
        Seq::empty()
    } else if since(ws.last().from, now) < 1000 {
        open_windows(ws.drop_last(), now).push(ws.last())
    } else {
        open_windows(ws.drop_last(), now)
    }
}

fn keep_open_windows(ws: &Vec<ProbeWindow>, now: u64) -> (r: Vec<ProbeWindow>)
    ensures
        r@ == open_windows(ws@, now),
{
    let mut out: Vec<ProbeWindow> = Vec::new();
    let mut i: usize = 0;
    proof {
        assert(ws@.take(0) =~= Seq::<ProbeWindow>::empty());
    }
    while i < ws.len()
        invariant
            i <= ws@.len(),
            out@ == open_windows(ws@.take(i as int), now),
        decreases ws@.len() - i,
    {
        proof {
            let t = ws@.take(i + 1);
            assert(t.drop_last() =~= ws@.take(i as int));
            assert(t.last() == ws@[i as int]);
        }
        if elapsed(ws[i].from, now) < 1000 {
            out.push(ws[i]);
        }
        i = i + 1;
    }
    proof {
        assert(ws@.take(ws@.len() as int) =~= ws@);
    }
    out
}

/// The session that `open_session` starts.
pub open spec fn opened(id: u32, players: u8, spectators: u8, now: u64) -> SessionView {
    let p = if players < 2 {
        2
    } else if players > MAX_PLAYER_SLOTS {
        MAX_PLAYER_SLOTS as int
    } else {
        players as int
    };
    let s = if spectators > MAX_SPECTATOR_SLOTS {
        MAX_SPECTATOR_SLOTS as int
    } else {
        spectators as int
    };
    SessionView {
        session_id: id,
        slot_count: (p + s) as u8,
        player_slots: p as u8,
        slots: Seq::new(MAX_SLOTS as nat, |i: int| None),
        last_rx: now,
    }
}

fn elapsed(then: u64, now: u64) -> (r: u64)
    ensures
        r == since(then, now),
{
    if now < then {
        0
    } else {
        now - then
    }
}

fn count_bound(slots: &Vec<Option<SlotBinding>>) -> (r: usize)
    ensures
        r == bound(slots@),
        r <= slots@.len(),
{
    let mut n: usize = 0;
    let mut i: usize = 0;
    proof {
        assert(slots@.take(0) =~= Seq::<Option<SlotBinding>>::empty());
    }
    while i < slots.len()
        invariant
            i <= slots@.len(),
            n == bound(slots@.take(i as int)),
            n <= i,
        decreases slots@.len() - i,
    {
        proof {
            let t = slots@.take(i + 1);
            assert(t.drop_last() =~= slots@.take(i as int));
            assert(t.last() == slots@[i as int]);
        }
        if slots[i].is_some() {
            n = n + 1;
        }
        i = i + 1;
    }
    proof {
        assert(slots@.take(slots@.len() as int) =~= slots@);
    }
    n
}

impl InputRelay {
    /// The relay of a configuration, with no session yet.
    pub fn start(enabled: bool, advertise_host: &str, lan_host: &str, advertise_port: u16) -> (r:
        InputRelay)
        ensures
            r@ == (RelayView {
                sessions: Seq::empty(),
                probes: Seq::empty(),
                advertise_host: advertise_host@,
                lan_host: trimmed(lan_host@),
                advertise_port,
                enabled,
            }),
            r@.wf(),
    {
        let r = InputRelay {
            sessions: Vec::new(),
            probes: Vec::new(),
            advertise_host: advertise_host.to_owned(),
            lan_host: trim(lan_host),
            advertise_port,
            enabled,
        };
        proof {
            assert(r@.sessions =~= Seq::<SessionView>::empty());
        }
        r
    }

    pub fn enabled(&self) -> (r: bool)
        ensures
            r == self@.enabled,
    {
        self.enabled
    }

    /// Public `host:port` string clients should dial.
    pub fn advertise_endpoint(&self) -> (r: String)
        ensures
            r@ == self@.public_endpoint(),
    {
        let d = dec(self.advertise_port as u64);
        cat3(self.advertise_host.as_str(), ":", d.as_str())
    }

    /// Same-LAN alternate, where there is one.
    pub fn lan_advertise_endpoint(&self) -> (r: Option<String>)
        ensures
            opt_view(r) == self@.lan_endpoint(),
    {
        let h = trim(self.lan_host.as_str());
        if h.as_str().is_empty() {
            None
        } else {
            let d = dec(self.advertise_port as u64);
            Some(cat3(h.as_str(), ":", d.as_str()))
        }
    }

    /// Picks public or LAN advertise.
    pub fn pick_advertise_endpoint(&self, prefer_lan: bool) -> (r: String)
        ensures
            r@ == self@.endpoint(prefer_lan),
    {
        if prefer_lan {
            if let Some(lan) = self.lan_advertise_endpoint() {
                return lan;
            }
        }
        self.advertise_endpoint()
    }

    fn session_index(&self, id: u32) -> (r: Option<usize>)
        ensures
            match (r, self@.session_at(id)) {
                (Some(a), Some(b)) => a == b && a < self.sessions@.len(),
                (None, None) => true,
                _ => false,
            },
    {
        let ghost all = self@.sessions;
        let mut i: usize = 0;
        while i < self.sessions.len()
            invariant
                i <= self.sessions@.len(),
                all == self@.sessions,
                forall|k: int| 0 <= k < i ==> (#[trigger] all[k]).session_id != id,
            decreases self.sessions@.len() - i,
        {
            proof {
                assert(all[i as int] == self.sessions@[i as int]@);
            }
            if self.sessions[i].session_id == id {
                proof {
                    lemma_first_is(all, |s: SessionView| s.session_id == id, i as int);
                }
                return Some(i);
            }
            i = i + 1;
        }
        proof {
            lemma_first_none(all, |s: SessionView| s.session_id == id);
        }
        None
    }

    /// Registers a match session; one with the same id starts over.
    pub fn open_session(&mut self, session_id: u32, player_slots: u8, spectator_slots: u8, now: u64)
        -> (r: Result<(), &'static str>)
        requires
            old(self)@.wf(),
        ensures
            final(self)@.wf(),
            match r {
                Ok(()) => old(self)@.enabled && session_id != 0 && final(self)@ == (RelayView {
                    sessions: old(self)@.without(session_id).sessions.push(
                        opened(session_id, player_slots, spectator_slots, now),
                    ),
                    ..old(self)@
                }),
                Err(e) => final(self)@ == old(self)@ && if !old(self)@.enabled {
                    e@ == "input relay disabled"@
                } else {
                    session_id == 0 && e@ == "invalid session_id"@
                },
            },
    {
        if !self.enabled {
            return Err("input relay disabled");
        }
        if session_id == 0 {
            return Err("invalid session_id");
        }
        let players: u8 = if player_slots < 2 {
            2
        } else if player_slots > 8 {
            8
        } else {
            player_slots
        };
        let spectators: u8 = if spectator_slots > 4 {
            4
        } else {
            spectator_slots
        };
        let _ = self.close_session(session_id);
        let mut slots: Vec<Option<SlotBinding>> = Vec::new();
        let mut i: usize = 0;
        while i < MAX_SLOTS
            invariant
                i <= MAX_SLOTS,
                slots@.len() == i,
                forall|k: int| 0 <= k < i ==> (#[trigger] slots@[k]) is None,
            decreases MAX_SLOTS - i,
        {
            slots.push(None);
            i = i + 1;
        }
        let s = RelaySession {
            session_id,
            slot_count: players + spectators,
            player_slots: players,
            slots,
            last_rx: now,
        };
        let ghost before = self@.sessions;
        let ghost v = s@;
        self.sessions.push(s);
        proof {
            assert(v =~= opened(session_id, player_slots, spectator_slots, now));
            assert(self@.sessions =~= before.push(v));
        }
        Ok(())
    }

    /// Forgets a session; tells whether there was one.
    pub fn close_session(&mut self, session_id: u32) -> (r: bool)
        requires
            old(self)@.wf(),
        ensures
            final(self)@.wf(),
            session_id == 0 ==> !r && final(self)@ == old(self)@,
            session_id != 0 ==> final(self)@ == old(self)@.without(session_id) && r == (old(
                self,
            )@.session_at(session_id) is Some),
    {
        if session_id == 0 {
            return false;
        }
        match self.session_index(session_id) {
            Some(i) => {
                let ghost before = self@.sessions;
                let _ = self.sessions.remove(i);
                proof {
                    assert(self@.sessions =~= before.remove(i as int));
                    assert forall|k: int| 0 <= k < self@.sessions.len() implies (
                    #[trigger] self@.sessions[k]).wf() by {
                        if k < i {
                            assert(self@.sessions[k] == before[k]);
                        } else {
                            assert(self@.sessions[k] == before[k + 1]);
                        }
                    }
                }
                true
            },
            None => false,
        }
    }

    /// The sessions there are, and those with pads flowing at `now`.
    pub fn session_counts(&self, now: u64) -> (r: (usize, usize))
        ensures
            r.0 == self@.sessions.len(),
            r.1 == flowing_count(self@.sessions, now),
    {
        let ghost all = self@.sessions;
        let mut n: usize = 0;
        let mut i: usize = 0;
        proof {
            assert(all.take(0) =~= Seq::<SessionView>::empty());
        }
        while i < self.sessions.len()
            invariant
                i <= self.sessions@.len(),
                all == self@.sessions,
                n == flowing_count(all.take(i as int), now),
                n <= i,
            decreases self.sessions@.len() - i,
        {
            proof {
                let t = all.take(i + 1);
                assert(t.drop_last() =~= all.take(i as int));
                assert(t.last() == self.sessions@[i as int]@);
            }
            let s = &self.sessions[i];
            if elapsed(s.last_rx, now) < SESSION_ACTIVE_MS && count_bound(&s.slots) >= 2 {
                n = n + 1;
            }
            i = i + 1;
        }
        proof {
            assert(all.take(self.sessions@.len() as int) =~= all);
        }
        (self.sessions.len(), n)
    }

    /// Drops the sessions that went quiet and the probe windows that ended.
    pub fn purge_idle(&mut self, now: u64)
        requires
            old(self)@.wf(),
        ensures
            final(self)@.wf(),
            final(self)@ == (RelayView {
                sessions: fresh_sessions(old(self)@.sessions, now),
                probes: open_windows(old(self)@.probes, now),
                ..old(self)@
            }),
    {
        let ghost all = self@.sessions;
        let mut old_sessions: Vec<RelaySession> = Vec::new();
        std::mem::swap(&mut self.sessions, &mut old_sessions);
        let ghost list = old_sessions@;
        let mut kept: Vec<RelaySession> = Vec::new();
        let mut rest: Vec<RelaySession> = old_sessions;
        let ghost mut done: int = 0;
        proof {
            assert(list.map_values(|s: RelaySession| s@) =~= all);
            assert(all.take(0) =~= Seq::<SessionView>::empty());
            assert(kept@.map_values(|s: RelaySession| s@) =~= Seq::<SessionView>::empty());
            assert(list.skip(0) =~= list);
        }
        while rest.len() > 0
            invariant
                0 <= done <= list.len(),
                all == list.map_values(|s: RelaySession| s@),
                rest@ == list.skip(done),
                kept@.map_values(|s: RelaySession| s@) == fresh_sessions(all.take(done), now),
                forall|k: int| 0 <= k < all.len() ==> (#[trigger] all[k]).wf(),
                forall|k: int| 0 <= k < kept@.len() ==> (#[trigger] kept@[k])@.wf(),
            decreases rest@.len(),
        {
            let s = rest.remove(0);
            proof {
                let t = all.take(done + 1);
                assert(t.drop_last() =~= all.take(done));
                assert(t.last() == s@);
                assert(all[done] == s@);
                assert(list.skip(done).remove(0) =~= list.skip(done + 1));
                done = done + 1;
            }
            if elapsed(s.last_rx, now) < SESSION_IDLE_MS {
                let ghost before = kept@;
                kept.push(s);
                proof {
                    assert(kept@.map_values(|s: RelaySession| s@) =~= before.map_values(
                        |s: RelaySession| s@,
                    ).push(s@));
                }
            }
        }
        proof {
            assert(done == list.len());
            assert(all.take(all.len() as int) =~= all);
        }
        self.sessions = kept;
        self.probes = keep_open_windows(&self.probes, now);
    }
}

// ------------------------------------------------------------- the packets

pub open spec fn le16(b: Seq<u8>, off: int) -> int {
    b[off] + 256 * b[off + 1]
}

pub open spec fn le32(b: Seq<u8>, off: int) -> int {
    b[off] + 256 * b[off + 1] + 65536 * b[off + 2] + 16777216 * b[off + 3]
}

/// The little-endian number at `off`, where the buffer holds it.
pub fn read_u16_le(buf: &[u8], off: usize) -> (r: Option<u16>)
    ensures
        match r {
            Some(n) => off + 2 <= buf@.len() && n == le16(buf@, off as int),
            None => off + 2 > buf@.len(),
        },
{
    if buf.len() < 2 || off > buf.len() - 2 {
        return None;
    }
    Some((buf[off] as u16) + 256 * (buf[off + 1] as u16))
}

/// The little-endian number at `off`, where the buffer holds it.
pub fn read_u32_le(buf: &[u8], off: usize) -> (r: Option<u32>)
    ensures
        match r {
            Some(n) => off + 4 <= buf@.len() && n == le32(buf@, off as int),
            None => off + 4 > buf@.len(),
        },
{
    if buf.len() < 4 || off > buf.len() - 4 {
        return None;
    }
    Some(
        (buf[off] as u32) + 256 * (buf[off + 1] as u32) + 65536 * (buf[off + 2] as u32) + 16777216
            * (buf[off + 3] as u32),
    )
}

/// The slot that a packet names. START and DELAY_SYNC name none.
pub open spec fn named_slot(pkt_type: u16, buf: Seq<u8>) -> Option<u8> {
    if pkt_type == RNET_PKT_START || pkt_type == RNET_PKT_DELAY_SYNC || buf.len() <= HEADER_LEN {
        None
    } else {
        Some(buf[HEADER_LEN as int])
    }
}

pub fn packet_local_slot(pkt_type: u16, buf: &[u8]) -> (r: Option<u8>)
    ensures
        r == named_slot(pkt_type, buf@),
{
    if pkt_type == RNET_PKT_START || pkt_type == RNET_PKT_DELAY_SYNC || buf.len() <= HEADER_LEN {
        return None;
    }
    Some(buf[HEADER_LEN])
}

/// A slot once `peer` was seen in it; the dialed address stays where the
/// packet tells none.
pub open spec fn rebound(slot: Option<SlotBinding>, peer: Peer, local_dst: Option<u32>) -> Option<
    SlotBinding,
> {
    match slot {
        Some(b) => Some(
            SlotBinding {
                peer,
                local_dst: if local_dst is Some {
                    local_dst
                } else {
                    b.local_dst
                },
            },
        ),
        None => Some(SlotBinding { peer, local_dst }),
    }
}

pub fn bind_slot(slot: Option<SlotBinding>, peer: Peer, local_dst: Option<u32>) -> (r: Option<
    SlotBinding,
>)
    ensures
        r == rebound(slot, peer, local_dst),
{
    match slot {
        Some(b) => Some(
            SlotBinding {
                peer,
                local_dst: if local_dst.is_some() {
                    local_dst
                } else {
                    b.local_dst
                },
            },
        ),
        None => Some(SlotBinding { peer, local_dst }),
    }
}

/// Seats at or beyond `player_slots` are spectators. An unbound sender is not
/// treated as one.
pub open spec fn muted(sender_slot: Option<u8>, player_slots: u8) -> bool {
    sender_slot is Some && sender_slot->0 >= player_slots
}

pub fn sender_is_spectator(sender_slot: Option<u8>, player_slots: u8) -> (r: bool)
    ensures
        r == muted(sender_slot, player_slots),
{
    match sender_slot {
        Some(slot) => slot >= player_slots,
        None => false,
    }
}

/// Whether `start` should open the lobby's UDP relay.
pub fn wants_input_relay(use_sfu: bool) -> (r: bool)
    ensures
        r == use_sfu,
{
    use_sfu
}

/// The first slot whose binding is `src`.
pub open spec fn slot_of_peer(slots: Seq<Option<SlotBinding>>, src: Peer) -> Option<int> {
    first_where(slots, |o: Option<SlotBinding>| o is Some && o->0.peer == src)
}

/// Every binding other than the sender's own.
pub open spec fn fan_out(slots: Seq<Option<SlotBinding>>, src: Peer) -> Seq<SlotBinding>
    decreases slots.len(),
{
    if slots.len() == 0 {
        Seq::empty()
    } else {
        let rest = fan_out(slots.drop_last(), src);
        match slots.last() {
            Some(b) => if b.peer != src {
                rest.push(b)
            } else {
                rest
            },
            None => rest,
        }
    }
}

/// What becomes of a packet.
pub enum Verdict {
    Drop(&'static str),
    /// To each of these seats, as it is.
    Forward(Vec<SlotBinding>),
    /// These bytes go back to the sender.
    Answer(Vec<u8>),
}

pub ghost enum VerdictView {
    Drop(Seq<char>),
    Forward(Seq<SlotBinding>),
    Answer(Seq<u8>),
}

impl View for Verdict {
    type V = VerdictView;

    open spec fn view(&self) -> VerdictView {
        match self {
            Verdict::Drop(s) => VerdictView::Drop(s@),
            Verdict::Forward(v) => VerdictView::Forward(v@),
            Verdict::Answer(b) => VerdictView::Answer(b@),
        }
    }
}

/// What a packet of type `pkt_type` from `src` does to a session.
pub open spec fn session_step(
    s: SessionView,
    pkt_type: u16,
    pkt: Seq<u8>,
    src: Peer,
    local_dst: Option<u32>,
    now: u64,
) -> (SessionView, VerdictView) {
    let s = SessionView { last_rx: now, ..s };
    match named_slot(pkt_type, pkt) {
        Some(slot) => if slot >= s.slot_count {
            (s, VerdictView::Drop("bad_slot"@))
        } else {
            let t = SessionView {
                slots: s.slots.update(
                    slot as int,
                    rebound(s.slots[slot as int], src, local_dst),
                ),
                ..s
            };
            if muted(Some(slot), s.player_slots) {
                (t, VerdictView::Drop("spectator"@))
            } else {
                (t, VerdictView::Forward(fan_out(t.slots, src)))
            }
        },
        None => match slot_of_peer(s.slots, src) {
            Some(i) => {
                let t = SessionView {
                    slots: s.slots.update(i, rebound(s.slots[i], src, local_dst)),
                    ..s
                };
                if muted(Some(i as u8), s.player_slots) {
                    (t, VerdictView::Drop("spectator"@))
                } else {
                    (t, VerdictView::Forward(fan_out(t.slots, src)))
                }
            },
            None => {
                let t = if pkt_type == RNET_PKT_START && s.slots[0] is None {
                    SessionView {
                        slots: s.slots.update(0, rebound(None, src, local_dst)),
                        ..s
                    }
                } else {
                    s
                };
                (t, VerdictView::Forward(fan_out(t.slots, src)))
            },
        },
    }
}

/// The first window of a source.
pub open spec fn window_at(ws: Seq<ProbeWindow>, src: Peer) -> Option<int> {
    first_where(ws, |w: ProbeWindow| w.peer == src)
}

/// The windows once a probe of `src` came, and whether it is answered.
pub open spec fn probe_step(ws: Seq<ProbeWindow>, src: Peer, now: u64) -> (Seq<ProbeWindow>, bool) {
    let fresh = ProbeWindow { peer: src, from: now, answered: 1 };
    match window_at(ws, src) {
        None => (ws.push(fresh), true),
        Some(i) => if since(ws[i].from, now) >= 1000 {
            (ws.update(i, fresh), true)
        } else if ws[i].answered >= PROBES_PER_SECOND {
            (ws, false)
        } else {
            (
                ws.update(i, ProbeWindow { answered: (ws[i].answered + 1) as u8, ..ws[i] }),
                true,
            )
        },
    }
}

/// The answer to a probe: the same bytes under the other type.
pub open spec fn probe_answer(pkt: Seq<u8>) -> Seq<u8> {
    pkt.update(4, 201u8).update(5, 0u8)
}

/// What a packet does to the relay.
pub open spec fn packet_step(
    r: RelayView,
    magic: u32,
    pkt: Seq<u8>,
    src: Peer,
    local_dst: Option<u32>,
    now: u64,
) -> (RelayView, VerdictView) {
    if pkt.len() < MIN_PACKET {
        (r, VerdictView::Drop("short"@))
    } else if le32(pkt, 0) != magic {
        (r, VerdictView::Drop("magic"@))
    } else if le16(pkt, 4) == RNET_PKT_PROBE {
        if pkt.len() != MIN_PACKET {
            (r, VerdictView::Drop("probe_length"@))
        } else {
            let (ws, answered) = probe_step(r.probes, src, now);
            (
                RelayView { probes: ws, ..r },
                if answered {
                    VerdictView::Answer(probe_answer(pkt))
                } else {
                    VerdictView::Drop("probe_rate"@)
                },
            )
        }
    } else {
        match r.session_at(le32(pkt, 6) as u32) {
            None => (r, VerdictView::Drop("unknown_session"@)),
            Some(i) => {
                let (s, v) = session_step(
                    r.sessions[i],
                    le16(pkt, 4) as u16,
                    pkt,
                    src,
                    local_dst,
                    now,
                );
                (RelayView { sessions: r.sessions.update(i, s), ..r }, v)
            },
        }
    }
}

fn others(slots: &Vec<Option<SlotBinding>>, src: Peer) -> (r: Vec<SlotBinding>)
    ensures
        r@ == fan_out(slots@, src),
{
    let mut out: Vec<SlotBinding> = Vec::new();
    let mut i: usize = 0;
    proof {
        assert(slots@.take(0) =~= Seq::<Option<SlotBinding>>::empty());
    }
    while i < slots.len()
        invariant
            i <= slots@.len(),
            out@ == fan_out(slots@.take(i as int), src),
        decreases slots@.len() - i,
    {
        proof {
            let t = slots@.take(i + 1);
            assert(t.drop_last() =~= slots@.take(i as int));
            assert(t.last() == slots@[i as int]);
        }
        if let Some(b) = slots[i] {
            if b.peer != src {
                out.push(b);
            }
        }
        i = i + 1;
    }
    proof {
        assert(slots@.take(slots@.len() as int) =~= slots@);
    }
    out
}

fn find_peer(slots: &Vec<Option<SlotBinding>>, src: Peer) -> (r: Option<usize>)
    ensures
        match (r, slot_of_peer(slots@, src)) {
            (Some(a), Some(b)) => a == b && a < slots@.len(),
            (None, None) => true,
            _ => false,
        },
{
    let mut i: usize = 0;
    while i < slots.len()
        invariant
            i <= slots@.len(),
            forall|k: int|
                0 <= k < i ==> !((#[trigger] slots@[k]) is Some && slots@[k]->0.peer == src),
        decreases slots@.len() - i,
    {
        if let Some(b) = slots[i] {
            if b.peer == src {
                proof {
                    lemma_first_is(
                        slots@,
                        |o: Option<SlotBinding>| o is Some && o->0.peer == src,
                        i as int,
                    );
                }
                return Some(i);
            }
        }
        i = i + 1;
    }
    proof {
        lemma_first_none(slots@, |o: Option<SlotBinding>| o is Some && o->0.peer == src);
    }
    None
}

fn answer_bytes(pkt: &[u8]) -> (r: Vec<u8>)
    requires
        pkt@.len() == MIN_PACKET,
    ensures
        r@ == probe_answer(pkt@),
{
    let mut out: Vec<u8> = Vec::new();
    let mut i: usize = 0;
    while i < pkt.len()
        invariant
            i <= pkt@.len(),
            out@ =~= pkt@.take(i as int),
        decreases pkt@.len() - i,
    {
        out.push(pkt[i]);
        i = i + 1;
    }
    out.set(4, 201);
    out.set(5, 0);
    proof {
        assert(out@ =~= probe_answer(pkt@));
    }
    out
}

impl InputRelay {
    /// Whether a probe of `src` is answered, by how many were.
    fn admit_probe(&mut self, src: Peer, now: u64) -> (r: bool)
        ensures
            final(self)@ == (RelayView {
                probes: probe_step(old(self)@.probes, src, now).0,
                ..old(self)@
            }),
            r == probe_step(old(self)@.probes, src, now).1,
    {
        let ghost ws = self.probes@;
        let ghost p = |w: ProbeWindow| w.peer == src;
        let n: usize = self.probes.len();
        let mut i: usize = 0;
        while i < n && self.probes[i].peer != src
            invariant
                i <= n,
                n == self.probes@.len(),
                ws == self.probes@,
                p == (|w: ProbeWindow| w.peer == src),
                forall|k: int| 0 <= k < i ==> !p(#[trigger] ws[k]),
            decreases n - i,
        {
            i = i + 1;
        }
        if i == n {
            proof {
                lemma_first_none(ws, p);
            }
            self.probes.push(ProbeWindow { peer: src, from: now, answered: 1 });
            return true;
        }
        proof {
            lemma_first_is(ws, p, i as int);
        }
        let w = self.probes[i];
        if elapsed(w.from, now) >= 1000 {
            self.probes.set(i, ProbeWindow { peer: src, from: now, answered: 1 });
            true
        } else if w.answered >= PROBES_PER_SECOND {
            false
        } else {
            self.probes.set(i, ProbeWindow { peer: w.peer, from: w.from, answered: w.answered + 1 });
            true
        }
    }
}

impl RelaySession {
    /// Takes a packet in: learns where its sender is and says who gets it.
    fn take_packet(
        &mut self,
        pkt_type: u16,
        pkt: &[u8],
        src: Peer,
        local_dst: Option<u32>,
        now: u64,
    ) -> (r: Verdict)
        requires
            old(self)@.wf(),
        ensures
            final(self)@.wf(),
            (final(self)@, r@) == session_step(old(self)@, pkt_type, pkt@, src, local_dst, now),
    {
        self.last_rx = now;
        let sender: Option<u8> = match packet_local_slot(pkt_type, pkt) {
            Some(slot) => {
                if slot >= self.slot_count {
                    return Verdict::Drop("bad_slot");
                }
                let i: usize = slot as usize;
                let b = bind_slot(self.slots[i], src, local_dst);
                self.slots.set(i, b);
                Some(slot)
            },
            None => match find_peer(&self.slots, src) {
                Some(i) => {
                    let b = bind_slot(self.slots[i], src, local_dst);
                    self.slots.set(i, b);
                    Some(i as u8)
                },
                None => {
                    if pkt_type == RNET_PKT_START && self.slots[0].is_none() {
                        let b = bind_slot(None, src, local_dst);
                        self.slots.set(0, b);
                    }
                    None
                },
            },
        };
        if sender_is_spectator(sender, self.player_slots) {
            return Verdict::Drop("spectator");
        }
        Verdict::Forward(others(&self.slots, src))
    }
}

impl InputRelay {
    /// Takes a datagram in and says what becomes of it.
    pub fn receive(
        &mut self,
        magic: u32,
        pkt: &[u8],
        src: Peer,
        local_dst: Option<u32>,
        now: u64,
    ) -> (r: Verdict)
        requires
            old(self)@.wf(),
        ensures
            final(self)@.wf(),
            (final(self)@, r@) == packet_step(old(self)@, magic, pkt@, src, local_dst, now),
    {
        if pkt.len() < MIN_PACKET {
            return Verdict::Drop("short");
        }
        let (m, pkt_type, session_id) = match (
            read_u32_le(pkt, 0),
            read_u16_le(pkt, 4),
            read_u32_le(pkt, 6),
        ) {
            (Some(a), Some(b), Some(c)) => (a, b, c),
            _ => {
                return Verdict::Drop("short");
            },
        };
        if m != magic {
            return Verdict::Drop("magic");
        }
        if pkt_type == RNET_PKT_PROBE {
            if pkt.len() != MIN_PACKET {
                return Verdict::Drop("probe_length");
            }
            if !self.admit_probe(src, now) {
                return Verdict::Drop("probe_rate");
            }
            return Verdict::Answer(answer_bytes(pkt));
        }
        let i: usize = match self.session_index(session_id) {
            Some(i) => i,
            None => {
                return Verdict::Drop("unknown_session");
            },
        };
        let ghost before = self@;
        proof {
            assert(before.sessions[i as int] == self.sessions@[i as int]@);
        }
        let r = self.sessions[i].take_packet(pkt_type, pkt, src, local_dst, now);
        proof {
            let s = self.sessions@[i as int]@;
            assert(self@.sessions =~= before.sessions.update(i as int, s));
            assert forall|k: int| 0 <= k < self@.sessions.len() implies (
            #[trigger] self@.sessions[k]).wf() by {
                if k != i {
                    assert(self@.sessions[k] == before.sessions[k]);
                }
            }
        }
        r
    }
}

// -------------------------------------------------------------------- laws

/// A datagram never comes back to the address that sent it, and goes to none
/// but bound seats.
pub proof fn law_fan_out_spares_the_sender(slots: Seq<Option<SlotBinding>>, src: Peer)
    ensures
        forall|i: int|
            #![trigger fan_out(slots, src)[i]]
            0 <= i < fan_out(slots, src).len() ==> fan_out(slots, src)[i].peer != src
                && slots.contains(Some(fan_out(slots, src)[i])),
    decreases slots.len(),
{
    if slots.len() > 0 {
        let d = slots.drop_last();
        law_fan_out_spares_the_sender(d, src);
        let rest = fan_out(d, src);
        assert forall|i: int|
            #![trigger fan_out(slots, src)[i]]
            0 <= i < fan_out(slots, src).len() implies fan_out(slots, src)[i].peer != src
            && slots.contains(Some(fan_out(slots, src)[i])) by {
            if i < rest.len() {
                assert(fan_out(slots, src)[i] == rest[i]);
                let k = choose|k: int| 0 <= k < d.len() && d[k] == Some(rest[i]);
                assert(slots[k] == d[k]);
            } else {
                assert(slots[slots.len() - 1] == slots.last());
            }
        }
    }
}

/// Every bound seat other than the sender's gets the datagram.
pub proof fn law_fan_out_reaches_everyone(slots: Seq<Option<SlotBinding>>, src: Peer, k: int)
    requires
        0 <= k < slots.len(),
        slots[k] is Some,
        slots[k]->0.peer != src,
    ensures
        fan_out(slots, src).contains(slots[k]->0),
    decreases slots.len(),
{
    let d = slots.drop_last();
    let all = fan_out(slots, src);
    if k == slots.len() - 1 {
        assert(all[all.len() - 1] == slots[k]->0);
    } else {
        assert(d[k] == slots[k]);
        law_fan_out_reaches_everyone(d, src, k);
        let rest = fan_out(d, src);
        let i = choose|i: int| 0 <= i < rest.len() && rest[i] == slots[k]->0;
        assert(all[i] == rest[i]);
    }
}

/// A packet that names a gallery seat reaches nobody, whatever it holds.
pub proof fn law_the_gallery_is_muted(
    s: SessionView,
    pkt_type: u16,
    pkt: Seq<u8>,
    src: Peer,
    local_dst: Option<u32>,
    now: u64,
)
    requires
        named_slot(pkt_type, pkt) is Some,
        named_slot(pkt_type, pkt)->0 >= s.player_slots,
    ensures
        session_step(s, pkt_type, pkt, src, local_dst, now).1 is Drop,
{
}

/// A packet that names a player seat of its session is never dropped.
pub proof fn law_players_are_forwarded(
    s: SessionView,
    pkt_type: u16,
    pkt: Seq<u8>,
    src: Peer,
    local_dst: Option<u32>,
    now: u64,
)
    requires
        s.wf(),
        named_slot(pkt_type, pkt) is Some,
        named_slot(pkt_type, pkt)->0 < s.player_slots,
    ensures
        session_step(s, pkt_type, pkt, src, local_dst, now).1 is Forward,
{
}

/// A packet changes no session but the one it names.
pub proof fn law_sessions_are_apart(
    r: RelayView,
    magic: u32,
    pkt: Seq<u8>,
    src: Peer,
    local_dst: Option<u32>,
    now: u64,
    i: int,
)
    requires
        0 <= i < r.sessions.len(),
        pkt.len() >= MIN_PACKET,
        r.sessions[i].session_id != le32(pkt, 6) as u32,
    ensures
        packet_step(r, magic, pkt, src, local_dst, now).0.sessions[i] == r.sessions[i],
{
    lemma_first_where(r.sessions, |s: SessionView| s.session_id == le32(pkt, 6) as u32);
}

/// A probe that is answered gets as many bytes back as it sent, and a source
/// never has more answers in its window than the cap.
pub proof fn law_probes_are_capped(ws: Seq<ProbeWindow>, src: Peer, now: u64, pkt: Seq<u8>)
    requires
        pkt.len() >= MIN_PACKET,
        forall|i: int| 0 <= i < ws.len() ==> (#[trigger] ws[i]).answered <= PROBES_PER_SECOND,
    ensures
        probe_answer(pkt).len() == pkt.len(),
        forall|i: int|
            0 <= i < probe_step(ws, src, now).0.len() ==> (#[trigger] probe_step(
                ws,
                src,
                now,
            ).0[i]).answered <= PROBES_PER_SECOND,
{
    lemma_first_where(ws, |w: ProbeWindow| w.peer == src);
}

/// A session that was opened is there, and one that was closed is not, where
/// no id stands twice.
pub proof fn law_open_then_found(r: RelayView, id: u32, players: u8, spectators: u8, now: u64)
    requires
        r.session_at(id) is None,
    ensures
        ({
            let o = RelayView {
                sessions: r.without(id).sessions.push(opened(id, players, spectators, now)),
                ..r
            };
            &&& o.session_at(id) == Some(r.sessions.len() as int)
            &&& o.without(id) == r
        }),
{
    let p = |s: SessionView| s.session_id == id;
    lemma_first_where(r.sessions, p);
    let o = RelayView { sessions: r.sessions.push(opened(id, players, spectators, now)), ..r };
    assert forall|k: int| 0 <= k < r.sessions.len() implies !p(#[trigger] o.sessions[k]) by {
        assert(!p(r.sessions[k]));
    }
    lemma_first_is(o.sessions, p, r.sessions.len() as int);
    assert(o.sessions.remove(r.sessions.len() as int) =~= r.sessions);
}

/// A session has a slot for each player and each spectator that it is opened
/// for, the players' first, and none is bound yet.
pub proof fn law_a_session_has_its_slots(id: u32, players: u8, spectators: u8, now: u64)
    requires
        2 <= players <= MAX_PLAYER_SLOTS,
        spectators <= MAX_SPECTATOR_SLOTS,
    ensures
        ({
            let s = opened(id, players, spectators, now);
            &&& s.session_id == id
            &&& s.player_slots == players
            &&& s.slot_count == players + spectators
            &&& s.last_rx == now
            &&& s.wf()
            &&& forall|i: int| 0 <= i < s.slots.len() ==> (#[trigger] s.slots[i]) is None
        }),
{
}

/// Peers on the network of the server are given its local address where it has
/// one, and everybody else the public one, under the same port.
pub proof fn law_local_peers_get_the_local_address(r: RelayView)
    requires
        r.lan_host.len() > 0 ==> !crate::text::is_white(r.lan_host[0]) && !crate::text::is_white(
            r.lan_host.last(),
        ),
    ensures
        r.endpoint(false) == r.advertise_host.push(':') + decimal(r.advertise_port as nat),
        r.endpoint(true) == (if r.lan_host.len() > 0 {
            r.lan_host
        } else {
            r.advertise_host
        }).push(':') + decimal(r.advertise_port as nat),
{
    reveal_strlit(":");
    let e = Seq::<char>::empty();
    assert(e + r.lan_host + e =~= r.lan_host);
    crate::spelling::law_trimming_takes_off_the_ends(e, r.lan_host, e);
    assert(r.advertise_host + ":"@ =~= r.advertise_host.push(':'));
    assert(r.lan_host + ":"@ =~= r.lan_host.push(':'));
}

/// A slot that is bound again has the new peer; the address that it was reached
/// at is the newest that is known.
pub proof fn law_the_newest_peer_has_the_slot(
    slot: Option<SlotBinding>,
    peer: Peer,
    local_dst: Option<u32>,
)
    ensures
        rebound(slot, peer, local_dst) is Some,
        rebound(slot, peer, local_dst)->0.peer == peer,
        local_dst is Some ==> rebound(slot, peer, local_dst)->0.local_dst == local_dst,
        local_dst is None && slot is Some ==> rebound(slot, peer, local_dst)->0.local_dst
            == slot->0.local_dst,
        local_dst is None && slot is None ==> rebound(slot, peer, local_dst)->0.local_dst is None,
{
}

/// A session counts as active while two of its slots are bound and something
/// came in over the last five seconds.
pub proof fn law_active_sessions_are_counted(ss: Seq<SessionView>, s: SessionView, now: u64)
    requires
        s.last_rx <= now,
    ensures
        flowing_count(Seq::empty(), now) == 0,
        flowing_count(ss.push(s), now) == flowing_count(ss, now) + if now - s.last_rx < 5000
            && bound(s.slots) >= 2 {
            1int
        } else {
            0
        },
{
    assert(ss.push(s).drop_last() =~= ss);
}

/// One more slot counts as bound where it is.
pub proof fn law_bound_slots_are_counted(
    slots: Seq<Option<SlotBinding>>,
    slot: Option<SlotBinding>,
)
    ensures
        bound(Seq::empty()) == 0,
        bound(slots.push(slot)) == bound(slots) + if slot is Some {
            1int
        } else {
            0
        },
{
    assert(slots.push(slot).drop_last() =~= slots);
}

} // verus!
