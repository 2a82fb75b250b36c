//! Who waits for an opponent, and which two are offered to each other.

use super::floors::PROBE_GRACE_SECS;
use crate::find::{first_where, lemma_first_is, lemma_first_none, lemma_first_where};
use crate::input_relay::since;
use crate::outside::{new_uuid, uuid_shape};
use crate::text::{listed, opt_view, same, views};
use vstd::prelude::*;
use vstd::string::*;

verus! {

pub const RTT_START_MS: u64 = 120;

pub const RTT_STEP_MS: u64 = 60;

pub const RTT_WIDEN_SECS: u64 = 20;

/// After this many widen steps the ceiling is gone.
pub const RTT_UNLIMITED_AFTER_STEPS: u64 = 5;

// ------------------------------------------------------------- the values

/// The join gate, as a value. Equality on the whole of it is the pairing
/// predicate.
pub struct MatchKey {
    pub game_name: String,
    pub game_version: String,
    pub disc_fp: String,
    pub ruleset_id: String,
    pub max_slots: usize,
}

#[verifier::ext_equal]
pub ghost struct KeyView {
    pub game_name: Seq<char>,
    pub game_version: Seq<char>,
    pub disc_fp: Seq<char>,
    pub ruleset_id: Seq<char>,
    pub max_slots: usize,
}

impl View for MatchKey {
    type V = KeyView;

    open spec fn view(&self) -> KeyView {
        KeyView {
            game_name: self.game_name@,
            game_version: self.game_version@,
            disc_fp: self.disc_fp@,
            ruleset_id: self.ruleset_id@,
            max_slots: self.max_slots,
        }
    }
}

pub open spec fn keys_view(v: Seq<MatchKey>) -> Seq<KeyView> {
    v.map_values(|k: MatchKey| k@)
}

/// One player waiting. `account_id` is the identity; `player_id` is only where
/// to send messages.
pub struct Ticket {
    /// Names the ticket to its owner.
    pub ticket_id: String,
    pub player_id: String,
    pub account_id: String,
    pub handle: String,
    pub username: String,
    /// Names the picture of the account; empty where it has none.
    pub avatar: String,
    pub country: String,
    /// In the client's preference order.
    pub keys: Vec<MatchKey>,
    pub host_bind: String,
    pub guest_bind: String,
    /// When the ticket was queued, in milliseconds.
    pub queued_at: u64,
    /// Round trip to the relay, or -1 when unmeasured.
    pub rtt_ms: i32,
}

#[verifier::ext_equal]
pub ghost struct TicketView {
    pub ticket_id: Seq<char>,
    pub player_id: Seq<char>,
    pub account_id: Seq<char>,
    pub handle: Seq<char>,
    pub username: Seq<char>,
    pub avatar: Seq<char>,
    pub country: Seq<char>,
    pub keys: Seq<KeyView>,
    pub host_bind: Seq<char>,
    pub guest_bind: Seq<char>,
    pub queued_at: u64,
    pub rtt_ms: i32,
}

impl View for Ticket {
    type V = TicketView;

    open spec fn view(&self) -> TicketView {
        TicketView {
            ticket_id: self.ticket_id@,
            player_id: self.player_id@,
            account_id: self.account_id@,
            handle: self.handle@,
            username: self.username@,
            avatar: self.avatar@,
            country: self.country@,
            keys: keys_view(self.keys@),
            host_bind: self.host_bind@,
            guest_bind: self.guest_bind@,
            queued_at: self.queued_at,
            rtt_ms: self.rtt_ms,
        }
    }
}

pub open spec fn tickets_view(v: Seq<Ticket>) -> Seq<TicketView> {
    v.map_values(|t: Ticket| t@)
}

/// A pair on offer, waiting for two answers.
pub struct Pending {
    pub match_id: String,
    pub key: MatchKey,
    pub a: Ticket,
    pub b: Ticket,
    pub a_accept: Option<bool>,
    pub b_accept: Option<bool>,
    /// When the offer was made, in milliseconds.
    pub offered_at: u64,
}

#[verifier::ext_equal]
pub ghost struct PendingView {
    pub match_id: Seq<char>,
    pub key: KeyView,
    pub a: TicketView,
    pub b: TicketView,
    pub a_accept: Option<bool>,
    pub b_accept: Option<bool>,
    pub offered_at: u64,
}

impl View for Pending {
    type V = PendingView;

    open spec fn view(&self) -> PendingView {
        PendingView {
            match_id: self.match_id@,
            key: self.key@,
            a: self.a@,
            b: self.b@,
            a_accept: self.a_accept,
            b_accept: self.b_accept,
            offered_at: self.offered_at,
        }
    }
}

pub open spec fn pendings_view(v: Seq<Pending>) -> Seq<PendingView> {
    v.map_values(|p: Pending| p@)
}

/// Two accounts that played each other, and when.
pub struct Played {
    pub a: String,
    pub b: String,
    pub at: u64,
}

#[verifier::ext_equal]
pub ghost struct PlayedView {
    pub a: Seq<char>,
    pub b: Seq<char>,
    pub at: u64,
}

impl View for Played {
    type V = PlayedView;

    open spec fn view(&self) -> PlayedView {
        PlayedView { a: self.a@, b: self.b@, at: self.at }
    }
}

pub open spec fn played_view(v: Seq<Played>) -> Seq<PlayedView> {
    v.map_values(|p: Played| p@)
}

/// Everything in flight.
pub struct QueueInner {
    pub tickets: Vec<Ticket>,
    pub pending: Vec<Pending>,
    /// Recent opponents, for the avoid-last-opponent filter.
    pub recent: Vec<Played>,
}

pub struct Queue {
    pub inner: QueueInner,
}

#[verifier::ext_equal]
pub ghost struct QueueView {
    pub tickets: Seq<TicketView>,
    pub pending: Seq<PendingView>,
    pub recent: Seq<PlayedView>,
}

impl View for Queue {
    type V = QueueView;

    open spec fn view(&self) -> QueueView {
        QueueView {
            tickets: tickets_view(self.inner.tickets@),
            pending: pendings_view(self.inner.pending@),
            recent: played_view(self.inner.recent@),
        }
    }
}

/// What a queue attempt refused on: the wire `code`.
pub type QueueError = &'static str;

// --------------------------------------------------------------- the model

/// Whole seconds from `then` to `now`.
pub open spec fn secs(then: u64, now: u64) -> int {
    since(then, now) / 1000
}

pub open spec fn longest(a: int, b: int) -> int {
    if a < b {
        b
    } else {
        a
    }
}

/// Which half of an offer a connection is.
pub open spec fn side_of(p: PendingView, player: Seq<char>) -> Option<bool> {
    if p.a.player_id == player {
        Some(true)
    } else if p.b.player_id == player {
        Some(false)
    } else {
        None
    }
}

/// The first offer that a connection is half of.
pub open spec fn offer_at(ps: Seq<PendingView>, player: Seq<char>) -> Option<int> {
    first_where(ps, |p: PendingView| side_of(p, player) is Some)
}

pub open spec fn ticket_at(ts: Seq<TicketView>, player: Seq<char>) -> Option<int> {
    first_where(ts, |t: TicketView| t.player_id == player)
}

/// The tickets of everyone but `player`.
pub open spec fn without_player(ts: Seq<TicketView>, player: Seq<char>) -> Seq<TicketView>
    decreases ts.len(),
{
    if ts.len() == 0 {
        Seq::empty()
    } else if ts.last().player_id != player {
        without_player(ts.drop_last(), player).push(ts.last())
    } else {
        without_player(ts.drop_last(), player)
    }
}

/// Whether an account has a ticket or stands in an open offer.
pub open spec fn account_queued(q: QueueView, account: Seq<char>) -> bool {
    ||| exists|i: int| 0 <= i < q.tickets.len() && (#[trigger] q.tickets[i]).account_id == account
    ||| exists|i: int|
        0 <= i < q.pending.len() && ((#[trigger] q.pending[i]).a.account_id == account
            || q.pending[i].b.account_id == account)
}

/// How many other accounts wait under `key`.
pub open spec fn pool(ts: Seq<TicketView>, key: KeyView, excluding: Seq<char>) -> int
    decreases ts.len(),
{
    if ts.len() == 0 {
        0
    } else {
        pool(ts.drop_last(), key, excluding) + (if ts.last().account_id != excluding
            && ts.last().keys.contains(key) {
            1int
        } else {
            0
        })
    }
}

/// Whether an offer has gone unanswered for too long.
pub open spec fn lapsed(p: PendingView, accept_secs: u64, now: u64) -> bool {
    secs(p.offered_at, now) >= accept_secs
}

/// The offers that lapsed, or those that did not.
pub open spec fn offers_by_age(
    ps: Seq<PendingView>,
    accept_secs: u64,
    now: u64,
    gone: bool,
) -> Seq<PendingView>
    decreases ps.len(),
{
    if ps.len() == 0 {
        Seq::empty()
    } else if lapsed(ps.last(), accept_secs, now) == gone {
        offers_by_age(ps.drop_last(), accept_secs, now, gone).push(ps.last())
    } else {
        offers_by_age(ps.drop_last(), accept_secs, now, gone)
    }
}

/// The meetings that still count.
pub open spec fn still_recent(rs: Seq<PlayedView>, cooldown: u64, now: u64) -> Seq<PlayedView>
    decreases rs.len(),
{
    if rs.len() == 0 {
        Seq::empty()
    } else if secs(rs.last().at, now) < cooldown {
        still_recent(rs.drop_last(), cooldown, now).push(rs.last())
    } else {
        still_recent(rs.drop_last(), cooldown, now)
    }
}

/// Has this ticket either measured, or had its chance to?
pub open spec fn had_its_chance(t: TicketView, now: u64) -> bool {
    t.rtt_ms >= 0 || secs(t.queued_at, now) >= PROBE_GRACE_SECS
}

/// Whether two links are near enough, by how long the older ticket waits. What
/// was not measured passes.
pub open spec fn near_enough(a: TicketView, b: TicketView, now: u64) -> bool {
    let steps = longest(secs(a.queued_at, now), secs(b.queued_at, now)) / RTT_WIDEN_SECS as int;
    a.rtt_ms < 0 || b.rtt_ms < 0 || steps >= RTT_UNLIMITED_AFTER_STEPS || a.rtt_ms + b.rtt_ms
        <= RTT_START_MS + steps * RTT_STEP_MS
}

/// Whether two accounts met within the cooldown.
pub open spec fn met(rs: Seq<PlayedView>, a: Seq<char>, b: Seq<char>, cooldown: u64, now: u64) -> bool {
    exists|i: int|
        0 <= i < rs.len() && secs((#[trigger] rs[i]).at, now) < cooldown && ((rs[i].a == a && rs[i].b
            == b) || (rs[i].a == b && rs[i].b == a))
}

/// Whether two tickets may meet: not just after their last match, unless one
/// of them has waited long.
pub open spec fn may_meet(
    rs: Seq<PlayedView>,
    a: TicketView,
    b: TicketView,
    cooldown: u64,
    now: u64,
) -> bool {
    longest(secs(a.queued_at, now), secs(b.queued_at, now)) >= RTT_WIDEN_SECS
        * RTT_UNLIMITED_AFTER_STEPS || !met(rs, a.account_id, b.account_id, cooldown, now)
}

/// Whether the tickets at `i` and `j` may be offered to each other under `key`.
/// `busy` lists the connections that are gone or sit in a room.
pub open spec fn pairable(
    q: QueueView,
    i: int,
    j: int,
    key: KeyView,
    cooldown: u64,
    now: u64,
    busy: Seq<Seq<char>>,
) -> bool {
    let a = q.tickets[i];
    let b = q.tickets[j];
    &&& i != j
    &&& b.keys.contains(key)
    &&& a.account_id != b.account_id
    &&& had_its_chance(a, now) && had_its_chance(b, now)
    &&& near_enough(a, b, now)
    &&& may_meet(q.recent, a, b, cooldown, now)
    &&& !busy.contains(a.player_id) && !busy.contains(b.player_id)
}

/// The first partner for the ticket at `i` under `key`, from `j` on.
pub open spec fn partner_from(
    q: QueueView,
    i: int,
    key: KeyView,
    j: int,
    cooldown: u64,
    now: u64,
    busy: Seq<Seq<char>>,
) -> Option<int>
    decreases q.tickets.len() - j,
{
    if j >= q.tickets.len() {
        None
    } else if pairable(q, i, j, key, cooldown, now, busy) {
        Some(j)
    } else {
        partner_from(q, i, key, j + 1, cooldown, now, busy)
    }
}

/// The first partner for the ticket at `i` under its keys from `k` on, which
/// stand in the order it prefers them.
pub open spec fn choice_from(
    q: QueueView,
    i: int,
    k: int,
    cooldown: u64,
    now: u64,
    busy: Seq<Seq<char>>,
) -> Option<(int, KeyView)>
    decreases q.tickets[i].keys.len() - k,
{
    if k >= q.tickets[i].keys.len() {
        None
    } else {
        match partner_from(q, i, q.tickets[i].keys[k], 0, cooldown, now, busy) {
            Some(j) => Some((j, q.tickets[i].keys[k])),
            None => choice_from(q, i, k + 1, cooldown, now, busy),
        }
    }
}

/// The first two tickets that can be paired, from the one at `i` on.
pub open spec fn pair_from(
    q: QueueView,
    i: int,
    cooldown: u64,
    now: u64,
    busy: Seq<Seq<char>>,
) -> Option<(int, int, KeyView)>
    decreases q.tickets.len() - i,
{
    if i >= q.tickets.len() {
        None
    } else {
        match choice_from(q, i, 0, cooldown, now, busy) {
            Some((j, key)) => Some((i, j, key)),
            None => pair_from(q, i + 1, cooldown, now, busy),
        }
    }
}

/// The queue once the tickets at `i` and `j` are on offer as `id`, and that
/// offer. The older ticket is `a`.
pub open spec fn offered(q: QueueView, i: int, j: int, key: KeyView, id: Seq<char>, now: u64) -> (
    QueueView,
    PendingView,
) {
    let hi = if i > j {
        i
    } else {
        j
    };
    let lo = if i > j {
        j
    } else {
        i
    };
    let first = q.tickets[lo].queued_at <= q.tickets[hi].queued_at;
    let p = PendingView {
        match_id: id,
        key,
        a: q.tickets[if first {
            lo
        } else {
            hi
        }],
        b: q.tickets[if first {
            hi
        } else {
            lo
        }],
        a_accept: None,
        b_accept: None,
        offered_at: now,
    };
    (
        QueueView {
            tickets: q.tickets.remove(hi).remove(lo),
            pending: q.pending.push(p),
            ..q
        },
        p,
    )
}

/// The queue once one pair was offered for each of `ids`, and those offers.
pub open spec fn pairing(
    q: QueueView,
    ids: Seq<Seq<char>>,
    cooldown: u64,
    now: u64,
    busy: Seq<Seq<char>>,
) -> (QueueView, Seq<PendingView>)
    decreases ids.len(),
{
    if ids.len() == 0 {
        (q, Seq::empty())
    } else {
        let (r, ps) = pairing(q, ids.drop_last(), cooldown, now, busy);
        match pair_from(r, 0, cooldown, now, busy) {
            Some((i, j, key)) => {
                let (t, p) = offered(r, i, j, key, ids.last(), now);
                (t, ps.push(p))
            },
            None => (r, ps),
        }
    }
}

pub open spec fn match_ids(ps: Seq<PendingView>) -> Seq<Seq<char>> {
    ps.map_values(|p: PendingView| p.match_id)
}

/// The queue with the old meetings forgotten.
pub open spec fn refreshed(q: QueueView, cooldown: u64, now: u64) -> QueueView {
    QueueView { recent: still_recent(q.recent, cooldown, now), ..q }
}

/// One row of the status push: the connection, its wait, its round trip, and
/// how many wait under each of its keys.
pub open spec fn status_row(q: QueueView, t: TicketView, now: u64) -> (
    Seq<char>,
    int,
    int,
    Seq<(KeyView, int)>,
) {
    (
        t.player_id,
        secs(t.queued_at, now),
        t.rtt_ms as int,
        t.keys.map_values(|k: KeyView| (k, pool(q.tickets, k, t.account_id))),
    )
}

pub open spec fn status(q: QueueView, now: u64) -> Seq<(Seq<char>, int, int, Seq<(KeyView, int)>)> {
    q.tickets.map_values(|t: TicketView| status_row(q, t, now))
}

pub open spec fn row_view(r: (String, u64, i32, Vec<(MatchKey, usize)>)) -> (
    Seq<char>,
    int,
    int,
    Seq<(KeyView, int)>,
) {
    (
        r.0@,
        r.1 as int,
        r.2 as int,
        r.3@.map_values(|x: (MatchKey, usize)| (x.0@, x.1 as int)),
    )
}

/// The answer `accept` of a connection to its offer: the queue after it, and
/// the offer where both have now spoken.
pub open spec fn answered_step(q: QueueView, player: Seq<char>, accept: bool) -> (
    QueueView,
    Option<PendingView>,
) {
    match offer_at(q.pending, player) {
        None => (q, None),
        Some(i) => {
            let p = q.pending[i];
            let t = if side_of(p, player) == Some(true) {
                PendingView { a_accept: Some(accept), ..p }
            } else {
                PendingView { b_accept: Some(accept), ..p }
            };
            if t.a_accept is Some && t.b_accept is Some {
                (QueueView { pending: q.pending.remove(i), ..q }, Some(t))
            } else {
                (QueueView { pending: q.pending.update(i, t), ..q }, None)
            }
        },
    }
}

/// The queue without a connection, and the offer that it was half of.
pub open spec fn removed_step(q: QueueView, player: Seq<char>) -> (QueueView, Option<PendingView>) {
    let ts = without_player(q.tickets, player);
    match offer_at(q.pending, player) {
        None => (QueueView { tickets: ts, ..q }, None),
        Some(i) => (
            QueueView { tickets: ts, pending: q.pending.remove(i), ..q },
            Some(q.pending[i]),
        ),
    }
}

pub open spec fn opt_pending(o: Option<Pending>) -> Option<PendingView> {
    match o {
        Some(p) => Some(p@),
        None => None,
    }
}

pub open spec fn opt_ticket(o: Option<Ticket>) -> Option<TicketView> {
    match o {
        Some(t) => Some(t@),
        None => None,
    }
}

// ---------------------------------------------------------- the operations

fn elapsed_secs(then: u64, now: u64) -> (r: u64)
    ensures
        r == secs(then, now),
{
    if now < then {
        0
    } else {
        (now - then) / 1000
    }
}

impl MatchKey {
    pub fn copy(&self) -> (r: MatchKey)
        ensures
            r@ == self@,
    {
        MatchKey {
            game_name: self.game_name.clone(),
            game_version: self.game_version.clone(),
            disc_fp: self.disc_fp.clone(),
            ruleset_id: self.ruleset_id.clone(),
            max_slots: self.max_slots,
        }
    }

    /// Whether two keys are the same in every part.
    pub fn same_as(&self, other: &MatchKey) -> (r: bool)
        ensures
            r == (self@ == other@),
    {
        let r = same(self.game_name.as_str(), other.game_name.as_str()) && same(
            self.game_version.as_str(),
            other.game_version.as_str(),
        ) && same(self.disc_fp.as_str(), other.disc_fp.as_str()) && same(
            self.ruleset_id.as_str(),
            other.ruleset_id.as_str(),
        ) && self.max_slots == other.max_slots;
        proof {
            if r {
                assert(self@ =~= other@);
            }
        }
        r
    }
}

pub fn copy_keys(v: &Vec<MatchKey>) -> (r: Vec<MatchKey>)
    ensures
        keys_view(r@) == keys_view(v@),
{
    let mut out: Vec<MatchKey> = Vec::new();
    let mut i: usize = 0;
    while i < v.len()
        invariant
            i <= v@.len(),
            keys_view(out@) == keys_view(v@).take(i as int),
        decreases v@.len() - i,
    {
        let ghost before = out@;
        let k = v[i].copy();
        out.push(k);
        proof {
            assert(keys_view(out@) =~= keys_view(before).push(k@));
            assert(keys_view(v@).take(i + 1) =~= keys_view(v@).take(i as int).push(k@));
        }
        i = i + 1;
    }
    proof {
        assert(keys_view(v@).take(v@.len() as int) =~= keys_view(v@));
    }
    out
}

/// Whether `key` is among `v`.
pub fn holds_key(v: &Vec<MatchKey>, key: &MatchKey) -> (r: bool)
    ensures
        r == keys_view(v@).contains(key@),
{
    let ghost all = keys_view(v@);
    let mut i: usize = 0;
    while i < v.len()
        invariant
            i <= v@.len(),
            all == keys_view(v@),
            forall|k: int| 0 <= k < i ==> (#[trigger] all[k]) != key@,
        decreases v@.len() - i,
    {
        proof {
            assert(all[i as int] == v@[i as int]@);
        }
        if v[i].same_as(key) {
            return true;
        }
        i = i + 1;
    }
    false
}

impl Ticket {
    /// Seconds since the ticket was queued.
    pub fn waited(&self, now: u64) -> (r: u64)
        ensures
            r == secs(self.queued_at, now),
    {
        elapsed_secs(self.queued_at, now)
    }

    pub fn copy(&self) -> (r: Ticket)
        ensures
            r@ == self@,
    {
        Ticket {
            ticket_id: self.ticket_id.clone(),
            player_id: self.player_id.clone(),
            account_id: self.account_id.clone(),
            handle: self.handle.clone(),
            username: self.username.clone(),
            avatar: self.avatar.clone(),
            country: self.country.clone(),
            keys: copy_keys(&self.keys),
            host_bind: self.host_bind.clone(),
            guest_bind: self.guest_bind.clone(),
            queued_at: self.queued_at,
            rtt_ms: self.rtt_ms,
        }
    }
}

impl Pending {
    fn side(&self, player_id: &str) -> (r: Option<bool>)
        ensures
            r == side_of(self@, player_id@),
    {
        if same(self.a.player_id.as_str(), player_id) {
            Some(true)
        } else if same(self.b.player_id.as_str(), player_id) {
            Some(false)
        } else {
            None
        }
    }

    fn answered(&self) -> (r: bool)
        ensures
            r == (self.a_accept is Some && self.b_accept is Some),
    {
        self.a_accept.is_some() && self.b_accept.is_some()
    }

    /// Whether both sides accepted.
    pub fn both_yes(&self) -> (r: bool)
        ensures
            r == (self@.a_accept == Some(true) && self@.b_accept == Some(true)),
    {
        match (self.a_accept, self.b_accept) {
            (Some(true), Some(true)) => true,
            _ => false,
        }
    }

    pub fn copy(&self) -> (r: Pending)
        ensures
            r@ == self@,
    {
        Pending {
            match_id: self.match_id.clone(),
            key: self.key.copy(),
            a: self.a.copy(),
            b: self.b.copy(),
            a_accept: self.a_accept,
            b_accept: self.b_accept,
            offered_at: self.offered_at,
        }
    }
}

fn measurable(t: &Ticket, now: u64) -> (r: bool)
    ensures
        r == had_its_chance(t@, now),
{
    t.rtt_ms >= 0 || t.waited(now) >= PROBE_GRACE_SECS
}

fn longest_wait(a: &Ticket, b: &Ticket, now: u64) -> (r: u64)
    ensures
        r == longest(secs(a.queued_at, now), secs(b.queued_at, now)),
{
    let x = a.waited(now);
    let y = b.waited(now);
    if x < y {
        y
    } else {
        x
    }
}

fn rtt_ok(a: &Ticket, b: &Ticket, now: u64) -> (r: bool)
    ensures
        r == near_enough(a@, b@, now),
{
    if a.rtt_ms < 0 || b.rtt_ms < 0 {
        return true;
    }
    let steps: u64 = longest_wait(a, b, now) / RTT_WIDEN_SECS;
    if steps >= RTT_UNLIMITED_AFTER_STEPS {
        return true;
    }
    let ceiling: u64 = RTT_START_MS + steps * RTT_STEP_MS;
    a.rtt_ms as u64 + b.rtt_ms as u64 <= ceiling
}

fn rematch_ok(recent: &Vec<Played>, a: &Ticket, b: &Ticket, cooldown: u64, now: u64) -> (r: bool)
    ensures
        r == may_meet(played_view(recent@), a@, b@, cooldown, now),
{
    if longest_wait(a, b, now) >= RTT_WIDEN_SECS * RTT_UNLIMITED_AFTER_STEPS {
        return true;
    }
    let ghost rs = played_view(recent@);
    let mut i: usize = 0;
    while i < recent.len()
        invariant
            i <= recent@.len(),
            rs == played_view(recent@),
            longest(secs(a.queued_at, now), secs(b.queued_at, now)) < RTT_WIDEN_SECS
                * RTT_UNLIMITED_AFTER_STEPS,
            forall|k: int|
                0 <= k < i ==> !(secs((#[trigger] rs[k]).at, now) < cooldown && ((rs[k].a
                    == a.account_id@ && rs[k].b == b.account_id@) || (rs[k].a == b.account_id@
                    && rs[k].b == a.account_id@))),
        decreases recent@.len() - i,
    {
        proof {
            assert(rs[i as int] == recent@[i as int]@);
        }
        let p = &recent[i];
        if elapsed_secs(p.at, now) < cooldown {
            let forth = same(p.a.as_str(), a.account_id.as_str()) && same(
                p.b.as_str(),
                b.account_id.as_str(),
            );
            let back = same(p.a.as_str(), b.account_id.as_str()) && same(
                p.b.as_str(),
                a.account_id.as_str(),
            );
            if forth || back {
                return false;
            }
        }
        i = i + 1;
    }
    true
}

fn count_pool(tickets: &Vec<Ticket>, key: &MatchKey, excluding: &str) -> (r: usize)
    ensures
        r == pool(tickets_view(tickets@), key@, excluding@),
        r <= tickets@.len(),
{
    let ghost all = tickets_view(tickets@);
    let mut n: usize = 0;
    let mut i: usize = 0;
    proof {
        assert(all.take(0) =~= Seq::<TicketView>::empty());
    }
    while i < tickets.len()
        invariant
            i <= tickets@.len(),
            all == tickets_view(tickets@),
            n == pool(all.take(i as int), key@, excluding@),
            n <= i,
        decreases tickets@.len() - i,
    {
        proof {
            let t = all.take(i + 1);
            assert(t.drop_last() =~= all.take(i as int));
            assert(t.last() == tickets@[i as int]@);
        }
        if !same(tickets[i].account_id.as_str(), excluding) && holds_key(&tickets[i].keys, key) {
            n = n + 1;
        }
        i = i + 1;
    }
    proof {
        assert(all.take(tickets@.len() as int) =~= all);
    }
    n
}

impl Default for Queue {
    fn default() -> (r: Queue)
        ensures
            r@ == (QueueView { tickets: Seq::empty(), pending: Seq::empty(), recent: Seq::empty() }),
    {
        let r = Queue {
            inner: QueueInner { tickets: Vec::new(), pending: Vec::new(), recent: Vec::new() },
        };
        proof {
            assert(r@ =~= (QueueView {
                tickets: Seq::empty(),
                pending: Seq::empty(),
                recent: Seq::empty(),
            }));
        }
        r
    }
}

impl Queue {
    fn offer_index(&self, player_id: &str) -> (r: Option<usize>)
        ensures
            match (r, offer_at(self@.pending, player_id@)) {
                (Some(a), Some(b)) => a == b && a < self.inner.pending@.len() && side_of(
                    self@.pending[b],
                    player_id@,
                ) is Some,
                (None, None) => true,
                _ => false,
            },
    {
        let ghost all = self@.pending;
        let ghost p = |p: PendingView| side_of(p, player_id@) is Some;
        let mut i: usize = 0;
        while i < self.inner.pending.len()
            invariant
                i <= self.inner.pending@.len(),
                all == self@.pending,
                p == (|p: PendingView| side_of(p, player_id@) is Some),
                forall|k: int| 0 <= k < i ==> !p(#[trigger] all[k]),
            decreases self.inner.pending@.len() - i,
        {
            proof {
                assert(all[i as int] == self.inner.pending@[i as int]@);
            }
            if self.inner.pending[i].side(player_id).is_some() {
                proof {
                    lemma_first_is(all, p, i as int);
                }
                return Some(i);
            }
            i = i + 1;
        }
        proof {
            lemma_first_none(all, p);
        }
        None
    }

    fn ticket_index(&self, player_id: &str) -> (r: Option<usize>)
        ensures
            match (r, ticket_at(self@.tickets, player_id@)) {
                (Some(a), Some(b)) => a == b && a < self.inner.tickets@.len(),
                (None, None) => true,
                _ => false,
            },
    {
        let ghost all = self@.tickets;
        let ghost p = |t: TicketView| t.player_id == player_id@;
        let mut i: usize = 0;
        while i < self.inner.tickets.len()
            invariant
                i <= self.inner.tickets@.len(),
                all == self@.tickets,
                p == (|t: TicketView| t.player_id == player_id@),
                forall|k: int| 0 <= k < i ==> !p(#[trigger] all[k]),
            decreases self.inner.tickets@.len() - i,
        {
            proof {
                assert(all[i as int] == self.inner.tickets@[i as int]@);
            }
            if same(self.inner.tickets[i].player_id.as_str(), player_id) {
                proof {
                    lemma_first_is(all, p, i as int);
                }
                return Some(i);
            }
            i = i + 1;
        }
        proof {
            lemma_first_none(all, p);
        }
        None
    }

    /// Whether an account waits, or stands before an open offer.
    pub fn is_queued_account(&self, account_id: &str) -> (r: bool)
        ensures
            r == account_queued(self@, account_id@),
    {
        let ghost ts = self@.tickets;
        let ghost ps = self@.pending;
        let mut i: usize = 0;
        while i < self.inner.tickets.len()
            invariant
                i <= self.inner.tickets@.len(),
                ts == self@.tickets,
                forall|k: int| 0 <= k < i ==> (#[trigger] ts[k]).account_id != account_id@,
            decreases self.inner.tickets@.len() - i,
        {
            proof {
                assert(ts[i as int] == self.inner.tickets@[i as int]@);
            }
            if same(self.inner.tickets[i].account_id.as_str(), account_id) {
                return true;
            }
            i = i + 1;
        }
        let mut j: usize = 0;
        while j < self.inner.pending.len()
            invariant
                j <= self.inner.pending@.len(),
                ps == self@.pending,
                forall|k: int|
                    0 <= k < j ==> (#[trigger] ps[k]).a.account_id != account_id@
                        && ps[k].b.account_id != account_id@,
            decreases self.inner.pending@.len() - j,
        {
            proof {
                assert(ps[j as int] == self.inner.pending@[j as int]@);
            }
            let p = &self.inner.pending[j];
            if same(p.a.account_id.as_str(), account_id) || same(
                p.b.account_id.as_str(),
                account_id,
            ) {
                return true;
            }
            j = j + 1;
        }
        false
    }

    /// Tickets waiting.
    pub fn waiting(&self) -> (r: usize)
        ensures
            r == self@.tickets.len(),
    {
        self.inner.tickets.len()
    }

    /// How many tickets of other accounts sit in the same bucket.
    pub fn pool_for(&self, key: &MatchKey, excluding: &str) -> (r: usize)
        ensures
            r == pool(self@.tickets, key@, excluding@),
    {
        count_pool(&self.inner.tickets, key, excluding)
    }

    pub fn push(&mut self, t: Ticket)
        ensures
            final(self)@ == (QueueView { tickets: old(self)@.tickets.push(t@), ..old(self)@ }),
    {
        self.inner.tickets.push(t);
        proof {
            assert(self@.tickets =~= old(self)@.tickets.push(t@));
        }
    }

    /// Drops a connection from everything. Returns an offer it was half of.
    pub fn remove_player(&mut self, player_id: &str) -> (r: Option<Pending>)
        ensures
            (final(self)@, opt_pending(r)) == removed_step(old(self)@, player_id@),
    {
        let ghost start = self@;
        let ghost all = start.tickets;
        let mut taken: Vec<Ticket> = Vec::new();
        std::mem::swap(&mut self.inner.tickets, &mut taken);
        let ghost list = taken@;
        let mut rest = taken;
        let mut kept: Vec<Ticket> = Vec::new();
        let ghost mut done: int = 0;
        proof {
            assert(all.take(0) =~= Seq::<TicketView>::empty());
            assert(tickets_view(kept@) =~= Seq::<TicketView>::empty());
            assert(list.skip(0) =~= list);
        }
        while rest.len() > 0
            invariant
                0 <= done <= list.len(),
                all == tickets_view(list),
                rest@ == list.skip(done),
                tickets_view(kept@) == without_player(all.take(done), player_id@),
            decreases rest@.len(),
        {
            let t = rest.remove(0);
            proof {
                let x = all.take(done + 1);
                assert(x.drop_last() =~= all.take(done));
                assert(x.last() == t@);
                assert(list.skip(done).remove(0) =~= list.skip(done + 1));
                done = done + 1;
            }
            if !same(t.player_id.as_str(), player_id) {
                let ghost before = kept@;
                kept.push(t);
                proof {
                    assert(tickets_view(kept@) =~= tickets_view(before).push(t@));
                }
            }
        }
        proof {
            assert(all.take(all.len() as int) =~= all);
        }
        self.inner.tickets = kept;
        match self.offer_index(player_id) {
            None => {
                proof {
                    assert(self@ =~= removed_step(start, player_id@).0);
                }
                None
            },
            Some(i) => {
                let ghost before = self@.pending;
                let p = self.inner.pending.remove(i);
                proof {
                    assert(self@.pending =~= before.remove(i as int));
                    assert(self@ =~= removed_step(start, player_id@).0);
                }
                Some(p)
            },
        }
    }

    /// Updates a waiting ticket's measured round trip.
    pub fn set_rtt(&mut self, player_id: &str, rtt_ms: i32) -> (r: bool)
        ensures
            match ticket_at(old(self)@.tickets, player_id@) {
                Some(i) => r && final(self)@ == (QueueView {
                    tickets: old(self)@.tickets.update(
                        i,
                        TicketView { rtt_ms, ..old(self)@.tickets[i] },
                    ),
                    ..old(self)@
                }),
                None => !r && final(self)@ == old(self)@,
            },
    {
        match self.ticket_index(player_id) {
            Some(i) => {
                let ghost before = self@.tickets;
                proof {
                    assert(before[i as int] == self.inner.tickets@[i as int]@);
                }
                self.inner.tickets[i].rtt_ms = rtt_ms;
                proof {
                    assert(self@.tickets =~= before.update(
                        i as int,
                        TicketView { rtt_ms, ..before[i as int] },
                    ));
                }
                true
            },
            None => false,
        }
    }

    pub fn ticket_of(&self, player_id: &str) -> (r: Option<Ticket>)
        ensures
            opt_ticket(r) == match ticket_at(self@.tickets, player_id@) {
                Some(i) => Some(self@.tickets[i]),
                None => None,
            },
    {
        match self.ticket_index(player_id) {
            Some(i) => {
                proof {
                    assert(self@.tickets[i as int] == self.inner.tickets@[i as int]@);
                }
                Some(self.inner.tickets[i].copy())
            },
            None => None,
        }
    }

    /// The id of the offer that a connection stands before.
    pub fn offer_of(&self, player_id: &str) -> (r: Option<String>)
        ensures
            opt_view(r) == match offer_at(self@.pending, player_id@) {
                Some(i) => Some(self@.pending[i].match_id),
                None => None,
            },
    {
        match self.offer_index(player_id) {
            Some(i) => {
                proof {
                    assert(self@.pending[i as int] == self.inner.pending@[i as int]@);
                }
                Some(self.inner.pending[i].match_id.clone())
            },
            None => None,
        }
    }

    /// Puts a ticket back at the front, as it is: whoever lost a pair without a
    /// fault of their own does not wait a second time.
    pub fn requeue_front(&mut self, t: Ticket)
        ensures
            final(self)@ == (QueueView {
                tickets: old(self)@.tickets.insert(0, t@),
                ..old(self)@
            }),
    {
        let ghost before = self@.tickets;
        let ghost v = t@;
        self.inner.tickets.insert(0, t);
        proof {
            assert(self@.tickets =~= before.insert(0, v));
        }
    }

    /// The id of the ticket at a place of the queue.
    pub fn ticket_id(&self, i: usize) -> (r: String)
        requires
            i < self@.tickets.len(),
        ensures
            r@ == self@.tickets[i as int].ticket_id,
    {
        self.inner.tickets[i].ticket_id.clone()
    }

    /// Records an answer. Returns the offer once both sides have spoken.
    pub fn answer(&mut self, player_id: &str, accept: bool) -> (r: Option<Pending>)
        ensures
            (final(self)@, opt_pending(r)) == answered_step(old(self)@, player_id@, accept),
    {
        let i: usize = match self.offer_index(player_id) {
            Some(i) => i,
            None => {
                return None;
            },
        };
        let ghost before = self@.pending;
        proof {
            assert(before[i as int] == self.inner.pending@[i as int]@);
        }
        match self.inner.pending[i].side(player_id) {
            Some(true) => {
                self.inner.pending[i].a_accept = Some(accept);
            },
            _ => {
                self.inner.pending[i].b_accept = Some(accept);
            },
        }
        let ghost t = self.inner.pending@[i as int]@;
        proof {
            assert(self@.pending =~= before.update(i as int, t));
        }
        if !self.inner.pending[i].answered() {
            return None;
        }
        let p = self.inner.pending.remove(i);
        proof {
            assert(self@.pending =~= before.remove(i as int));
        }
        Some(p)
    }

    /// Takes the offers whose deadline has passed.
    pub fn take_expired(&mut self, accept_secs: u64, now: u64) -> (r: Vec<Pending>)
        ensures
            pendings_view(r@) == offers_by_age(old(self)@.pending, accept_secs, now, true),
            final(self)@ == (QueueView {
                pending: offers_by_age(old(self)@.pending, accept_secs, now, false),
                ..old(self)@
            }),
    {
        let ghost start = self@;
        let ghost all = start.pending;
        let mut taken: Vec<Pending> = Vec::new();
        std::mem::swap(&mut self.inner.pending, &mut taken);
        let ghost list = taken@;
        let mut rest = taken;
        let mut kept: Vec<Pending> = Vec::new();
        let mut out: Vec<Pending> = Vec::new();
        let ghost mut done: int = 0;
        proof {
            assert(all.take(0) =~= Seq::<PendingView>::empty());
            assert(pendings_view(kept@) =~= Seq::<PendingView>::empty());
            assert(list.skip(0) =~= list);
        }
        while rest.len() > 0
            invariant
                0 <= done <= list.len(),
                all == pendings_view(list),
                rest@ == list.skip(done),
                pendings_view(kept@) == offers_by_age(all.take(done), accept_secs, now, false),
                pendings_view(out@) == offers_by_age(all.take(done), accept_secs, now, true),
            decreases rest@.len(),
        {
            let p = rest.remove(0);
            proof {
                let x = all.take(done + 1);
                assert(x.drop_last() =~= all.take(done));
                assert(x.last() == p@);
                assert(list.skip(done).remove(0) =~= list.skip(done + 1));
                done = done + 1;
            }
            if elapsed_secs(p.offered_at, now) >= accept_secs {
                let ghost before = out@;
                out.push(p);
                proof {
                    assert(pendings_view(out@) =~= pendings_view(before).push(p@));
                }
            } else {
                let ghost before = kept@;
                kept.push(p);
                proof {
                    assert(pendings_view(kept@) =~= pendings_view(before).push(p@));
                }
            }
        }
        proof {
            assert(all.take(all.len() as int) =~= all);
        }
        self.inner.pending = kept;
        proof {
            assert(self@ =~= QueueView {
                pending: offers_by_age(start.pending, accept_secs, now, false),
                ..start
            });
        }
        out
    }

    /// Notes that two accounts just played.
    pub fn note_pairing(&mut self, a: &str, b: &str, now: u64)
        ensures
            final(self)@ == (QueueView {
                recent: old(self)@.recent.push(PlayedView { a: a@, b: b@, at: now }),
                ..old(self)@
            }),
    {
        let ghost before = self@.recent;
        self.inner.recent.push(Played { a: a.to_owned(), b: b.to_owned(), at: now });
        proof {
            assert(self@.recent =~= before.push(PlayedView { a: a@, b: b@, at: now }));
        }
    }

    /// Forgets the meetings that no longer count.
    fn forget_old(&mut self, cooldown: u64, now: u64)
        ensures
            final(self)@ == refreshed(old(self)@, cooldown, now),
    {
        let ghost start = self@;
        let ghost all = start.recent;
        let mut taken: Vec<Played> = Vec::new();
        std::mem::swap(&mut self.inner.recent, &mut taken);
        let ghost list = taken@;
        let mut rest = taken;
        let mut kept: Vec<Played> = Vec::new();
        let ghost mut done: int = 0;
        proof {
            assert(all.take(0) =~= Seq::<PlayedView>::empty());
            assert(played_view(kept@) =~= Seq::<PlayedView>::empty());
            assert(list.skip(0) =~= list);
        }
        while rest.len() > 0
            invariant
                0 <= done <= list.len(),
                all == played_view(list),
                rest@ == list.skip(done),
                played_view(kept@) == still_recent(all.take(done), cooldown, now),
            decreases rest@.len(),
        {
            let p = rest.remove(0);
            proof {
                let x = all.take(done + 1);
                assert(x.drop_last() =~= all.take(done));
                assert(x.last() == p@);
                assert(list.skip(done).remove(0) =~= list.skip(done + 1));
                done = done + 1;
            }
            if elapsed_secs(p.at, now) < cooldown {
                let ghost before = kept@;
                kept.push(p);
                proof {
                    assert(played_view(kept@) =~= played_view(before).push(p@));
                }
            }
        }
        proof {
            assert(all.take(all.len() as int) =~= all);
        }
        self.inner.recent = kept;
        proof {
            assert(self@ =~= refreshed(start, cooldown, now));
        }
    }

    fn is_pairable(
        &self,
        i: usize,
        j: usize,
        key: &MatchKey,
        cooldown: u64,
        now: u64,
        busy: &Vec<String>,
    ) -> (r: bool)
        requires
            i < self.inner.tickets@.len(),
            j < self.inner.tickets@.len(),
        ensures
            r == pairable(self@, i as int, j as int, key@, cooldown, now, views(busy@)),
    {
        if i == j {
            return false;
        }
        let a = &self.inner.tickets[i];
        let b = &self.inner.tickets[j];
        proof {
            assert(self@.tickets[i as int] == a@);
            assert(self@.tickets[j as int] == b@);
        }
        holds_key(&b.keys, key) && !same(a.account_id.as_str(), b.account_id.as_str())
            && measurable(a, now) && measurable(b, now) && rtt_ok(a, b, now) && rematch_ok(
            &self.inner.recent,
            a,
            b,
            cooldown,
            now,
        ) && !listed(busy, a.player_id.as_str()) && !listed(busy, b.player_id.as_str())
    }

    /// The first pairable two tickets, oldest first, honouring each ticket's
    /// own preference order.
    fn find_pair(&self, cooldown: u64, now: u64, busy: &Vec<String>) -> (r: Option<
        (usize, usize, MatchKey),
    >)
        ensures
            match (r, pair_from(self@, 0, cooldown, now, views(busy@))) {
                (Some(a), Some(b)) => a.0 == b.0 && a.1 == b.1 && a.2@ == b.2 && a.0
                    < self.inner.tickets@.len() && a.1 < self.inner.tickets@.len() && a.0 != a.1,
                (None, None) => true,
                _ => false,
            },
    {
        let ghost q = self@;
        let ghost bs = views(busy@);
        let n: usize = self.inner.tickets.len();
        let mut i: usize = 0;
        while i < n
            invariant
                i <= n,
                n == self.inner.tickets@.len(),
                q == self@,
                bs == views(busy@),
                pair_from(q, 0, cooldown, now, bs) == pair_from(q, i as int, cooldown, now, bs),
            decreases n - i,
        {
            let nk: usize = self.inner.tickets[i].keys.len();
            let mut k: usize = 0;
            proof {
                assert(q.tickets[i as int] == self.inner.tickets@[i as int]@);
            }
            while k < nk
                invariant
                    i < n,
                    k <= nk,
                    n == self.inner.tickets@.len(),
                    nk == self.inner.tickets@[i as int].keys@.len(),
                    q == self@,
                    q.tickets[i as int] == self.inner.tickets@[i as int]@,
                    bs == views(busy@),
                    pair_from(q, 0, cooldown, now, bs) == pair_from(q, i as int, cooldown, now, bs),
                    choice_from(q, i as int, 0, cooldown, now, bs) == choice_from(
                        q,
                        i as int,
                        k as int,
                        cooldown,
                        now,
                        bs,
                    ),
                decreases nk - k,
            {
                let key = &self.inner.tickets[i].keys[k];
                let ghost kv = q.tickets[i as int].keys[k as int];
                proof {
                    assert(kv == key@);
                }
                let mut j: usize = 0;
                while j < n
                    invariant
                        i < n,
                        j <= n,
                        k < nk,
                        n == self.inner.tickets@.len(),
                        nk == self.inner.tickets@[i as int].keys@.len(),
                        q == self@,
                        q.tickets[i as int] == self.inner.tickets@[i as int]@,
                        bs == views(busy@),
                        kv == key@,
                        kv == q.tickets[i as int].keys[k as int],
                        pair_from(q, 0, cooldown, now, bs) == pair_from(
                            q,
                            i as int,
                            cooldown,
                            now,
                            bs,
                        ),
                        choice_from(q, i as int, 0, cooldown, now, bs) == choice_from(
                            q,
                            i as int,
                            k as int,
                            cooldown,
                            now,
                            bs,
                        ),
                        partner_from(q, i as int, kv, 0, cooldown, now, bs) == partner_from(
                            q,
                            i as int,
                            kv,
                            j as int,
                            cooldown,
                            now,
                            bs,
                        ),
                    decreases n - j,
                {
                    if self.is_pairable(i, j, key, cooldown, now, busy) {
                        return Some((i, j, key.copy()));
                    }
                    j = j + 1;
                }
                k = k + 1;
            }
            i = i + 1;
        }
        None
    }

    /// Forms pairs until none can be formed. Returns the offers to send; each
    /// gets an id by chance. `busy` lists the connections that are gone or sit
    /// in a room.
    pub fn pair(&mut self, rematch_cooldown_secs: u64, now: u64, busy: &Vec<String>) -> (r: Vec<
        Pending,
    >)
        ensures
            (final(self)@, pendings_view(r@)) == pairing(
                refreshed(old(self)@, rematch_cooldown_secs, now),
                match_ids(pendings_view(r@)),
                rematch_cooldown_secs,
                now,
                views(busy@),
            ),
            pair_from(final(self)@, 0, rematch_cooldown_secs, now, views(busy@)) is None,
            forall|i: int| 0 <= i < r@.len() ==> uuid_shape((#[trigger] r@[i])@.match_id),
    {
        let cooldown = rematch_cooldown_secs;
        let ghost bs = views(busy@);
        self.forget_old(cooldown, now);
        let ghost q0 = self@;
        let mut offers: Vec<Pending> = Vec::new();
        proof {
            assert(pendings_view(offers@) =~= Seq::<PendingView>::empty());
            assert(match_ids(pendings_view(offers@)) =~= Seq::<Seq<char>>::empty());
        }
        loop
            invariant
                bs == views(busy@),
                cooldown == rematch_cooldown_secs,
                q0 == refreshed(old(self)@, rematch_cooldown_secs, now),
                (self@, pendings_view(offers@)) == pairing(
                    q0,
                    match_ids(pendings_view(offers@)),
                    cooldown,
                    now,
                    bs,
                ),
                forall|k: int| 0 <= k < offers@.len() ==> uuid_shape((#[trigger] offers@[k])@.match_id),
            ensures
                pair_from(self@, 0, cooldown, now, bs) is None,
            decreases self@.tickets.len(),
        {
            let found = self.find_pair(cooldown, now, busy);
            let (i, j, key) = match found {
                Some(x) => x,
                None => {
                    break;
                },
            };
            let ghost q = self@;
            let ghost ps = pendings_view(offers@);
            let (hi, lo) = if i > j {
                (i, j)
            } else {
                (j, i)
            };
            proof {
                assert(q.tickets[hi as int] == self.inner.tickets@[hi as int]@);
                assert(q.tickets[lo as int] == self.inner.tickets@[lo as int]@);
            }
            let t_hi = self.inner.tickets.remove(hi);
            let t_lo = self.inner.tickets.remove(lo);
            proof {
                assert(self@.tickets =~= q.tickets.remove(hi as int).remove(lo as int));
            }
            let (a, b) = if t_lo.queued_at <= t_hi.queued_at {
                (t_lo, t_hi)
            } else {
                (t_hi, t_lo)
            };
            let p = Pending {
                match_id: new_uuid(),
                key,
                a,
                b,
                a_accept: None,
                b_accept: None,
                offered_at: now,
            };
            let ghost pv = p@;
            self.inner.pending.push(p.copy());
            let ghost before = offers@;
            offers.push(p);
            proof {
                assert(pendings_view(offers@) =~= ps.push(pv));
                let ids = match_ids(ps.push(pv));
                assert(ids.drop_last() =~= match_ids(ps));
                assert(ids.last() == pv.match_id);
                assert(self@.pending =~= q.pending.push(pv));
                assert(self@ =~= offered(q, i as int, j as int, key@, pv.match_id, now).0);
            }
        }
        offers
    }

    /// Everyone waiting, for the status push.
    pub fn status_rows(&self, now: u64) -> (r: Vec<(String, u64, i32, Vec<(MatchKey, usize)>)>)
        ensures
            r@.map_values(|x: (String, u64, i32, Vec<(MatchKey, usize)>)| row_view(x)) == status(
                self@,
                now,
            ),
    {
        let ghost q = self@;
        let mut out: Vec<(String, u64, i32, Vec<(MatchKey, usize)>)> = Vec::new();
        let mut i: usize = 0;
        while i < self.inner.tickets.len()
            invariant
                i <= self.inner.tickets@.len(),
                out@.len() == i,
                q == self@,
                forall|k: int| 0 <= k < i ==> row_view(#[trigger] out@[k]) == status(q, now)[k],
            decreases self.inner.tickets@.len() - i,
        {
            let t = &self.inner.tickets[i];
            proof {
                assert(q.tickets[i as int] == t@);
            }
            let mut pools: Vec<(MatchKey, usize)> = Vec::new();
            let mut j: usize = 0;
            while j < t.keys.len()
                invariant
                    j <= t.keys@.len(),
                    pools@.len() == j,
                    q == self@,
                    forall|k: int|
                        0 <= k < j ==> (#[trigger] pools@[k]).0@ == t@.keys[k] && pools@[k].1 == pool(
                            q.tickets,
                            t@.keys[k],
                            t@.account_id,
                        ),
                decreases t.keys@.len() - j,
            {
                let n: usize = count_pool(&self.inner.tickets, &t.keys[j], t.account_id.as_str());
                pools.push((t.keys[j].copy(), n));
                j = j + 1;
            }
            let row = (t.player_id.clone(), t.waited(now), t.rtt_ms, pools);
            proof {
                assert(row_view(row).3 =~= status_row(q, t@, now).3);
                assert(row_view(row) == status(q, now)[i as int]);
            }
            out.push(row);
            i = i + 1;
        }
        proof {
            assert(out@.map_values(|x: (String, u64, i32, Vec<(MatchKey, usize)>)| row_view(x))
                =~= status(self@, now));
        }
        out
    }
}

// -------------------------------------------------------------------- laws

proof fn lemma_partner(
    q: QueueView,
    i: int,
    key: KeyView,
    j: int,
    cooldown: u64,
    now: u64,
    busy: Seq<Seq<char>>,
)
    requires
        0 <= j,
    ensures
        match partner_from(q, i, key, j, cooldown, now, busy) {
            Some(x) => j <= x < q.tickets.len() && pairable(q, i, x, key, cooldown, now, busy),
            None => forall|x: int|
                j <= x < q.tickets.len() ==> !pairable(q, i, x, key, cooldown, now, busy),
        },
    decreases q.tickets.len() - j,
{
    if j < q.tickets.len() && !pairable(q, i, j, key, cooldown, now, busy) {
        lemma_partner(q, i, key, j + 1, cooldown, now, busy);
    }
}

proof fn lemma_choice(q: QueueView, i: int, k: int, cooldown: u64, now: u64, busy: Seq<Seq<char>>)
    requires
        0 <= k,
    ensures
        match choice_from(q, i, k, cooldown, now, busy) {
            Some((j, key)) => 0 <= j < q.tickets.len() && pairable(
                q,
                i,
                j,
                key,
                cooldown,
                now,
                busy,
            ) && q.tickets[i].keys.contains(key),
            None => forall|x: int, j: int|
                k <= x < q.tickets[i].keys.len() && 0 <= j < q.tickets.len()
                    ==> !#[trigger] pairable(
                    q,
                    i,
                    j,
                    q.tickets[i].keys[x],
                    cooldown,
                    now,
                    busy,
                ),
        },
    decreases q.tickets[i].keys.len() - k,
{
    if k < q.tickets[i].keys.len() {
        lemma_partner(q, i, q.tickets[i].keys[k], 0, cooldown, now, busy);
        if partner_from(q, i, q.tickets[i].keys[k], 0, cooldown, now, busy) is None {
            lemma_choice(q, i, k + 1, cooldown, now, busy);
        }
    }
}

pub proof fn lemma_pair(q: QueueView, i: int, cooldown: u64, now: u64, busy: Seq<Seq<char>>)
    requires
        0 <= i,
    ensures
        match pair_from(q, i, cooldown, now, busy) {
            Some((x, y, key)) => i <= x < q.tickets.len() && 0 <= y < q.tickets.len() && pairable(
                q,
                x,
                y,
                key,
                cooldown,
                now,
                busy,
            ) && q.tickets[x].keys.contains(key),
            None => forall|x: int, y: int, key: KeyView|
                i <= x < q.tickets.len() && 0 <= y < q.tickets.len()
                    && q.tickets[x].keys.contains(key) ==> !#[trigger] pairable(
                    q,
                    x,
                    y,
                    key,
                    cooldown,
                    now,
                    busy,
                ),
        },
    decreases q.tickets.len() - i,
{
    if i < q.tickets.len() {
        lemma_choice(q, i, 0, cooldown, now, busy);
        if choice_from(q, i, 0, cooldown, now, busy) is None {
            lemma_pair(q, i + 1, cooldown, now, busy);
            if pair_from(q, i + 1, cooldown, now, busy) is None {
                assert forall|x: int, y: int, key: KeyView|
                    i <= x < q.tickets.len() && 0 <= y < q.tickets.len()
                        && q.tickets[x].keys.contains(key) implies !#[trigger] pairable(
                    q,
                    x,
                    y,
                    key,
                    cooldown,
                    now,
                    busy,
                ) by {
                    if x == i {
                        let n = choose|n: int|
                            0 <= n < q.tickets[i].keys.len() && q.tickets[i].keys[n] == key;
                        assert(q.tickets[i].keys[n] == key);
                        assert(!pairable(q, i, y, q.tickets[i].keys[n], cooldown, now, busy));
                    }
                }
            }
        }
    }
}

/// What is fit to be offered: two accounts, both under the key, the older
/// ticket first.
pub open spec fn fair_offer(p: PendingView) -> bool {
    &&& p.a.account_id != p.b.account_id
    &&& p.a.keys.contains(p.key)
    &&& p.b.keys.contains(p.key)
    &&& p.a.queued_at <= p.b.queued_at
    &&& p.a_accept is None && p.b_accept is None
}

/// Pairing never offers an account to itself, offers only what both asked for,
/// gives the older ticket the first seat, and takes two tickets for each offer.
pub proof fn law_pairing_is_fair(
    q: QueueView,
    ids: Seq<Seq<char>>,
    cooldown: u64,
    now: u64,
    busy: Seq<Seq<char>>,
)
    ensures
        ({
            let (r, ps) = pairing(q, ids, cooldown, now, busy);
            &&& forall|i: int| 0 <= i < ps.len() ==> fair_offer(#[trigger] ps[i])
            &&& q.tickets.len() == r.tickets.len() + 2 * ps.len()
            &&& r.pending == q.pending + ps
            &&& r.recent == q.recent
        }),
    decreases ids.len(),
{
    if ids.len() == 0 {
        assert(q.pending + Seq::<PendingView>::empty() =~= q.pending);
    } else {
        let (r, ps) = pairing(q, ids.drop_last(), cooldown, now, busy);
        law_pairing_is_fair(q, ids.drop_last(), cooldown, now, busy);
        lemma_pair(r, 0, cooldown, now, busy);
        match pair_from(r, 0, cooldown, now, busy) {
            Some((i, j, key)) => {
                let (t, p) = offered(r, i, j, key, ids.last(), now);
                assert(fair_offer(p));
                assert(t.pending =~= q.pending + ps.push(p));
                assert forall|k: int| 0 <= k < ps.push(p).len() implies fair_offer(
                    #[trigger] ps.push(p)[k],
                ) by {
                    if k < ps.len() {
                        assert(ps.push(p)[k] == ps[k]);
                    }
                }
            },
            None => {},
        }
    }
}

/// Where the search finds no pair, no two tickets may be offered to each
/// other.
pub proof fn law_no_pair_left(
    q: QueueView,
    cooldown: u64,
    now: u64,
    busy: Seq<Seq<char>>,
    x: int,
    y: int,
    key: KeyView,
)
    requires
        pair_from(q, 0, cooldown, now, busy) is None,
        0 <= x < q.tickets.len(),
        0 <= y < q.tickets.len(),
        q.tickets[x].keys.contains(key),
    ensures
        !pairable(q, x, y, key, cooldown, now, busy),
{
    lemma_pair(q, 0, cooldown, now, busy);
}

/// A ticket that is put back stands before every other, as it was, and the
/// others keep their order behind it.
pub proof fn law_requeued_is_first(q: QueueView, t: TicketView)
    ensures
        q.tickets.insert(0, t)[0] == t,
        q.tickets.insert(0, t).drop_first() == q.tickets,
        ticket_at(q.tickets.insert(0, t), t.player_id) == Some(0int),
{
    let ts = q.tickets.insert(0, t);
    assert(ts.drop_first() =~= q.tickets);
    lemma_first_is(ts, |x: TicketView| x.player_id == t.player_id, 0);
}

proof fn lemma_without(ts: Seq<TicketView>, player: Seq<char>)
    ensures
        forall|i: int|
            0 <= i < without_player(ts, player).len() ==> (#[trigger] without_player(
                ts,
                player,
            )[i]).player_id != player,
    decreases ts.len(),
{
    if ts.len() > 0 {
        let d = ts.drop_last();
        lemma_without(d, player);
        assert forall|i: int| 0 <= i < without_player(ts, player).len() implies (
        #[trigger] without_player(ts, player)[i]).player_id != player by {
            if i < without_player(d, player).len() {
                assert(without_player(ts, player)[i] == without_player(d, player)[i]);
            }
        }
    }
}

/// A connection that was removed has no ticket left; where no connection
/// stands in two offers, none is left before an offer either.
pub proof fn law_removed_leaves_nothing(q: QueueView, player: Seq<char>)
    requires
        forall|i: int, j: int|
            0 <= i < j < q.pending.len() && side_of(#[trigger] q.pending[i], player) is Some
                ==> side_of(#[trigger] q.pending[j], player) is None,
    ensures
        ({
            let r = removed_step(q, player).0;
            ticket_at(r.tickets, player) is None && offer_at(r.pending, player) is None
        }),
{
    let r = removed_step(q, player).0;
    lemma_without(q.tickets, player);
    lemma_first_none(r.tickets, |t: TicketView| t.player_id == player);
    let p = |p: PendingView| side_of(p, player) is Some;
    lemma_first_where(q.pending, p);
    match offer_at(q.pending, player) {
        Some(i) => {
            assert forall|k: int| 0 <= k < r.pending.len() implies !p(#[trigger] r.pending[k]) by {
                if k < i {
                    assert(r.pending[k] == q.pending[k]);
                } else {
                    assert(r.pending[k] == q.pending[k + 1]);
                    assert(side_of(q.pending[i], player) is Some);
                }
            }
            lemma_first_none(r.pending, p);
        },
        None => {},
    }
}

/// One answer never settles an offer that had none.
pub proof fn law_one_answer_is_not_enough(q: QueueView, player: Seq<char>, accept: bool)
    requires
        offer_at(q.pending, player) is Some,
        q.pending[offer_at(q.pending, player)->0].a_accept is None,
        q.pending[offer_at(q.pending, player)->0].b_accept is None,
    ensures
        answered_step(q, player, accept).1 is None,
        answered_step(q, player, accept).0.pending.len() == q.pending.len(),
{
    lemma_first_where(q.pending, |p: PendingView| side_of(p, player) is Some);
}

/// An account with a ticket, or with an open offer, is known to the queue.
pub proof fn law_offered_accounts_stay_queued(q: QueueView, i: int)
    requires
        0 <= i < q.pending.len(),
    ensures
        account_queued(q, q.pending[i].a.account_id),
        account_queued(q, q.pending[i].b.account_id),
{
}

/// One more ticket adds one to what another account sees waiting under a title's
/// key, where it waits under that key, and none to what its own account sees.
pub proof fn law_the_pool_counts_the_others(
    ts: Seq<TicketView>,
    t: TicketView,
    key: KeyView,
    account: Seq<char>,
)
    ensures
        pool(Seq::empty(), key, account) == 0,
        t.account_id != account && t.keys.contains(key) ==> pool(ts.push(t), key, account) == pool(
            ts,
            key,
            account,
        ) + 1,
        t.account_id == account || !t.keys.contains(key) ==> pool(ts.push(t), key, account) == pool(
            ts,
            key,
            account,
        ),
{
    assert(ts.push(t).drop_last() =~= ts);
}

/// A wait is counted in whole seconds.
pub proof fn law_a_wait_is_in_seconds(then: u64, s: u64, now: u64)
    requires
        then + 1000 * s <= now < then + 1000 * s + 1000,
    ensures
        secs(then, now) == s,
{
    assert((now - then) / 1000 == s as int) by (nonlinear_arith)
        requires
            then + 1000 * s <= now < then + 1000 * s + 1000,
    ;
}

/// A meeting counts until its cooldown is over, and is forgotten then.
pub proof fn law_meetings_are_forgotten(
    rs: Seq<PlayedView>,
    r: PlayedView,
    cooldown: u64,
    now: u64,
)
    requires
        r.at <= now,
    ensures
        now - r.at < 1000 * cooldown ==> still_recent(rs.push(r), cooldown, now) == still_recent(
            rs,
            cooldown,
            now,
        ).push(r),
        now - r.at >= 1000 * cooldown ==> still_recent(rs.push(r), cooldown, now) == still_recent(
            rs,
            cooldown,
            now,
        ),
{
    assert(rs.push(r).drop_last() =~= rs);
    let d = now - r.at;
    assert(d / 1000 < cooldown <==> d < 1000 * cooldown) by (nonlinear_arith)
        requires
            d >= 0,
    ;
}

/// A row of the status tells a ticket's own connection, wait and round trip, and
/// for each of its keys how many others wait under it.
pub proof fn law_a_status_is_of_its_ticket(q: QueueView, i: int, now: u64)
    requires
        0 <= i < q.tickets.len(),
    ensures
        ({
            let t = q.tickets[i];
            let row = status(q, now)[i];
            &&& status(q, now).len() == q.tickets.len()
            &&& row.0 == t.player_id
            &&& row.1 == secs(t.queued_at, now)
            &&& row.2 == t.rtt_ms
            &&& row.3.len() == t.keys.len()
            &&& forall|k: int|
                0 <= k < t.keys.len() ==> (#[trigger] row.3[k]).0 == t.keys[k] && row.3[k].1 == pool(
                    q.tickets,
                    t.keys[k],
                    t.account_id,
                )
        }),
{
}

} // verus!
