//! The delay and prediction that a pair's link needs.
//!
//! Automatch negotiates delay the same way a human-hosted room does. The
//! tables are keyed on a round trip between the two peers; through the relay
//! that is the sum of the two peers' own round trips to it.

use crate::json::{empty_object, Json, JsonView};
use vstd::prelude::*;
use vstd::string::*;

verus! {

/// Frames added on top of the latency the measurement saw.
pub const JITTER_MARGIN_FRAMES: u32 = 1;

/// Launcher clamps: delay 2..20, prediction 2..16.
pub const MIN_DELAY: u32 = 2;

pub const MAX_DELAY: u32 = 20;

pub const MIN_PREDICTION: u32 = 2;

pub const MAX_PREDICTION: u32 = 16;

/// Past this, the link cannot host a match a person would want to play.
pub const MAX_REPORTED_RTT_MS: u32 = 2000;

/// The relay packet type a client probes with.
pub const PROBE_PKT_TYPE: u16 = 200;

/// How long a freshly queued ticket is held back to let its probe land.
pub const PROBE_GRACE_SECS: u64 = 3;

// ------------------------------------------------------- reading the caps

/// The number under `key`, where it is an integer of 64 unsigned bits.
pub open spec fn unsigned_under(caps: JsonView, key: Seq<char>) -> Option<int> {
    match caps.get(key) {
        Some(JsonView::Int(n)) => if 0 <= n <= u64::MAX {
            Some(n)
        } else {
            None
        },
        _ => None,
    }
}

/// The number under `key`, where it is an integer of 64 signed bits.
pub open spec fn signed_under(caps: JsonView, key: Seq<char>) -> Option<int> {
    match caps.get(key) {
        Some(JsonView::Int(n)) => if i64::MIN <= n <= i64::MAX {
            Some(n)
        } else {
            None
        },
        _ => None,
    }
}

/// The flag under `key`.
pub open spec fn flag_under(caps: JsonView, key: Seq<char>) -> Option<bool> {
    match caps.get(key) {
        Some(JsonView::Bool(b)) => Some(b),
        _ => None,
    }
}

/// The last 32 bits of the number under `key`, or `otherwise`.
pub open spec fn small_under(caps: JsonView, key: Seq<char>, otherwise: int) -> int {
    match unsigned_under(caps, key) {
        Some(n) => n % 0x1_0000_0000,
        None => otherwise,
    }
}

pub fn get_signed(caps: &Json, key: &str) -> (r: Option<i64>)
    ensures
        match (r, signed_under(caps@, key@)) {
            (Some(a), Some(b)) => a == b,
            (None, None) => true,
            _ => false,
        },
{
    match caps.get(key) {
        Some(v) => v.as_i64(),
        None => None,
    }
}

pub fn get_flag(caps: &Json, key: &str) -> (r: Option<bool>)
    ensures
        r == flag_under(caps@, key@),
{
    match caps.get(key) {
        Some(v) => v.as_flag(),
        None => None,
    }
}

fn get_small(caps: &Json, key: &str, otherwise: u32) -> (r: u32)
    ensures
        r == small_under(caps@, key@, otherwise as int),
{
    match caps.get(key) {
        Some(Json::Int(n)) => {
            if *n >= 0 && *n <= 0xffff_ffff_ffff_ffff {
                (*n % 0x1_0000_0000) as u32
            } else {
                otherwise
            }
        },
        _ => otherwise,
    }
}

// -------------------------------------------------------------- the tables

pub open spec fn clamped(n: int, low: int, high: int) -> int {
    if n < low {
        low
    } else if n > high {
        high
    } else {
        n
    }
}

pub open spec fn larger(a: int, b: int) -> int {
    if a < b {
        b
    } else {
        a
    }
}

fn clamp_u64(n: u64, low: u32, high: u32) -> (r: u32)
    ensures
        r == clamped(n as int, low as int, high as int),
{
    if n < low as u64 {
        low
    } else if n > high as u64 {
        high
    } else {
        n as u32
    }
}

fn max_u64(a: u64, b: u64) -> (r: u64)
    ensures
        r == larger(a as int, b as int),
{
    if a < b {
        b
    } else {
        a
    }
}

/// Rollback delay by the pair's round trip.
pub open spec fn rollback_tier(rtt: int) -> int {
    if rtt < 50 {
        3
    } else if rtt < 80 {
        4
    } else if rtt < 120 {
        6
    } else if rtt < 160 {
        7
    } else if rtt < 200 {
        8
    } else if rtt < 260 {
        9
    } else {
        10
    }
}

/// Four frames more than the delay, within 6 and 16.
pub open spec fn runway(delay: int) -> int {
    clamped(4 + larger(delay, 2), 6, MAX_PREDICTION as int)
}

/// A frame for each 33 ms begun, one at least, plus three; within 3 and 20.
pub open spec fn delay_only(rtt: int) -> int {
    clamped(larger((larger(rtt, 0) + 32) / 33, 1) + 3, 3, MAX_DELAY as int)
}

/// Rollback D, from the pair's round-trip time. WAN-aware tiers, floor 3.
pub fn hosted_rollback_delay(rtt_ms: i32) -> (r: u32)
    ensures
        r == rollback_tier(rtt_ms as int),
        3 <= r <= 10,
{
    if rtt_ms < 50 {
        3
    } else if rtt_ms < 80 {
        4
    } else if rtt_ms < 120 {
        6
    } else if rtt_ms < 160 {
        7
    } else if rtt_ms < 200 {
        8
    } else if rtt_ms < 260 {
        9
    } else {
        10
    }
}

/// Invent runway: P = 4 + D.
pub fn hosted_rollback_prediction(delay: u32) -> (r: u32)
    ensures
        r == runway(delay as int),
{
    clamp_u64(4 + max_u64(delay as u64, 2), 6, MAX_PREDICTION)
}

/// Delay-only D. No runway to hide latency in, so the pad is larger.
pub fn hosted_delay_only(rtt_ms: i32) -> (r: u32)
    ensures
        r == delay_only(rtt_ms as int),
{
    let rtt: u64 = if rtt_ms < 0 {
        0
    } else {
        rtt_ms as u64
    };
    let one_way: u64 = max_u64((rtt + 32) / 33, 1);
    clamp_u64(one_way + 3, 3, MAX_DELAY)
}

/// The delay and prediction a match should actually run.
#[derive(Debug, Clone, Copy, PartialEq, Eq, Structural)]
pub struct DelayFloor {
    pub input_delay: u32,
    pub input_prediction: u32,
    /// Frames the link needed. 0 when nothing was measured.
    pub needed: u32,
}

/// The sum of two round trips, as 32 signed bits hold it.
pub open spec fn pair_rtt(a: i32, b: i32) -> int {
    clamped(a + b, i32::MIN as int, i32::MAX as int)
}

/// The delay and the runway with rollback: the tier or the authored delay, and
/// what is short of `needed` goes on the delay.
pub open spec fn rollback_pair(base_d: int, base_p: int, rtt: int, needed: int) -> (int, int) {
    let d = larger(rollback_tier(rtt), base_d);
    let p = larger(runway(d), base_p);
    if needed <= d + p {
        (d, p)
    } else {
        let d2 = d + (needed - (d + p));
        (d2, larger(runway(d2), base_p))
    }
}

/// The floor of a pair under `caps` whose link needs `needed` frames.
pub open spec fn floor_of(caps: JsonView, a: i32, b: i32, needed: u32) -> DelayFloor {
    let base_d = small_under(caps, "input_delay"@, MIN_DELAY as int);
    let base_p = small_under(caps, "input_prediction"@, MIN_PREDICTION as int);
    let rollback = flag_under(caps, "rollback"@) == Some(true);
    let (d, p) = if needed == 0 {
        (base_d, base_p)
    } else if rollback {
        rollback_pair(base_d, base_p, pair_rtt(a, b), needed as int)
    } else {
        (larger(larger(delay_only(pair_rtt(a, b)), needed as int), base_d), base_p)
    };
    DelayFloor {
        input_delay: clamped(d, MIN_DELAY as int, MAX_DELAY as int) as u32,
        input_prediction: clamped(p, MIN_PREDICTION as int, MAX_PREDICTION as int) as u32,
        needed,
    }
}

/// What a pair's match runs: the caps as a baseline, raised to what the link
/// needs. `needed` is the frames of the link, 0 where nothing was measured.
pub fn delay_floor(caps: &Json, rtt_a: i32, rtt_b: i32, needed: u32) -> (r: DelayFloor)
    ensures
        r == floor_of(caps@, rtt_a, rtt_b, needed),
{
    let base_d: u32 = get_small(caps, "input_delay", MIN_DELAY);
    let base_p: u32 = get_small(caps, "input_prediction", MIN_PREDICTION);
    let rollback = match get_flag(caps, "rollback") {
        Some(b) => b,
        None => false,
    };
    if needed == 0 {
        return DelayFloor {
            input_delay: clamp_u64(base_d as u64, MIN_DELAY, MAX_DELAY),
            input_prediction: clamp_u64(base_p as u64, MIN_PREDICTION, MAX_PREDICTION),
            needed: 0,
        };
    }
    let sum: i64 = rtt_a as i64 + rtt_b as i64;
    let pair: i32 = if sum < -0x8000_0000 {
        -0x8000_0000
    } else if sum > 0x7fff_ffff {
        0x7fff_ffff
    } else {
        sum as i32
    };
    let (d, p): (u64, u64) = if rollback {
        let d: u64 = max_u64(hosted_rollback_delay(pair) as u64, base_d as u64);
        let p: u64 = max_u64(hosted_rollback_prediction(d as u32) as u64, base_p as u64);
        if needed as u64 <= d + p {
            (d, p)
        } else {
            let d2: u64 = d + (needed as u64 - (d + p));
            (d2, max_u64(hosted_rollback_prediction(d2 as u32) as u64, base_p as u64))
        }
    } else {
        (
            max_u64(max_u64(hosted_delay_only(pair) as u64, needed as u64), base_d as u64),
            base_p as u64,
        )
    };
    DelayFloor {
        input_delay: clamp_u64(d, MIN_DELAY, MAX_DELAY),
        input_prediction: clamp_u64(p, MIN_PREDICTION, MAX_PREDICTION),
        needed,
    }
}

/// The caps with a floor applied; only a rollback match has a runway.
pub open spec fn floored(caps: JsonView, floor: DelayFloor) -> JsonView {
    let base = if caps.is_object() {
        caps
    } else {
        empty_object()
    };
    let out = base.with("input_delay"@, JsonView::Int(floor.input_delay as int));
    if flag_under(out, "rollback"@) == Some(true) {
        out.with("input_prediction"@, JsonView::Int(floor.input_prediction as int))
    } else {
        out
    }
}

/// Ruleset caps with the floor applied.
pub fn caps_with_floor(caps: &Json, floor: DelayFloor) -> (r: Json)
    ensures
        r@ == floored(caps@, floor),
{
    let base = if caps.is_object() {
        caps.copy()
    } else {
        Json::object()
    };
    let out = base.with("input_delay", Json::count(floor.input_delay as u64));
    match get_flag(&out, "rollback") {
        Some(true) => out.with("input_prediction", Json::count(floor.input_prediction as u64)),
        _ => out,
    }
}

/// A reported round trip as it is kept: -1 for none, 2000 at most.
pub open spec fn kept_rtt(raw: int) -> int {
    if raw < 0 {
        -1
    } else if raw > MAX_REPORTED_RTT_MS {
        MAX_REPORTED_RTT_MS as int
    } else {
        raw
    }
}

/// A client-reported round trip, made safe to store.
pub fn sanitize_rtt(raw: i64) -> (r: i32)
    ensures
        r == kept_rtt(raw as int),
{
    if raw < 0 {
        -1
    } else if raw > MAX_REPORTED_RTT_MS as i64 {
        2000
    } else {
        raw as i32
    }
}

/// What the table says of two round trips: nothing where one was not measured,
/// and its last entry for a sum past its end.
pub open spec fn frames_at(table: Seq<u32>, a: i32, b: i32) -> u32 {
    if a < 0 || b < 0 || table.len() == 0 {
        0
    } else if a + b < table.len() {
        table[a + b]
    } else {
        table.last()
    }
}

/// The frames that two round trips need, by a title's table: entry `n` is for
/// a combined round trip of `n` milliseconds.
pub fn frames_for(table: &Vec<u32>, a: i32, b: i32) -> (r: u32)
    ensures
        r == frames_at(table@, a, b),
{
    if a < 0 || b < 0 || table.len() == 0 {
        return 0;
    }
    let sum: u64 = a as u64 + b as u64;
    if sum < table.len() as u64 {
        table[sum as usize]
    } else {
        table[table.len() - 1]
    }
}

// -------------------------------------------------------------------- laws

/// Whatever was measured and authored, the floor stays within the launcher's
/// clamps.
pub proof fn law_floor_is_clamped(caps: JsonView, a: i32, b: i32, needed: u32)
    ensures
        MIN_DELAY <= floor_of(caps, a, b, needed).input_delay <= MAX_DELAY,
        MIN_PREDICTION <= floor_of(caps, a, b, needed).input_prediction <= MAX_PREDICTION,
{
}

/// A floor, never a ceiling: a measurement does not lower what the ruleset
/// asked for.
pub proof fn law_floor_never_lowers(caps: JsonView, a: i32, b: i32, needed: u32)
    ensures
        floor_of(caps, a, b, needed).input_delay >= clamped(
            small_under(caps, "input_delay"@, MIN_DELAY as int),
            MIN_DELAY as int,
            MAX_DELAY as int,
        ),
        floor_of(caps, a, b, needed).input_prediction >= clamped(
            small_under(caps, "input_prediction"@, MIN_PREDICTION as int),
            MIN_PREDICTION as int,
            MAX_PREDICTION as int,
        ),
{
}

/// Without rollback the delay carries the whole link, as far as the clamp lets
/// it; with rollback the delay and the runway carry it together.
pub proof fn law_floor_covers_the_link(caps: JsonView, a: i32, b: i32, needed: u32)
    ensures
        ({
            let f = floor_of(caps, a, b, needed);
            if flag_under(caps, "rollback"@) == Some(true) {
                f.input_delay + f.input_prediction >= needed || f.input_delay == MAX_DELAY
                    || f.input_prediction == MAX_PREDICTION
            } else {
                f.input_delay >= needed || f.input_delay == MAX_DELAY
            }
        }),
{
}

/// A pair that was not measured runs the ruleset as it was written.
pub proof fn law_unmeasured_runs_as_written(caps: JsonView, a: i32, b: i32, table: Seq<u32>)
    requires
        a < 0 || b < 0,
    ensures
        frames_at(table, a, b) == 0,
        floor_of(caps, a, b, 0) == (DelayFloor {
            input_delay: clamped(
                small_under(caps, "input_delay"@, MIN_DELAY as int),
                MIN_DELAY as int,
                MAX_DELAY as int,
            ) as u32,
            input_prediction: clamped(
                small_under(caps, "input_prediction"@, MIN_PREDICTION as int),
                MIN_PREDICTION as int,
                MAX_PREDICTION as int,
            ) as u32,
            needed: 0,
        }),
{
}

/// Applying a floor leaves every other setting as it was.
pub proof fn law_floor_keeps_other_settings(caps: JsonView, floor: DelayFloor, key: Seq<char>)
    requires
        caps.is_object(),
        key != "input_delay"@,
        key != "input_prediction"@,
    ensures
        floored(caps, floor).get(key) == caps.get(key),
{
    let out = caps.with("input_delay"@, JsonView::Int(floor.input_delay as int));
    crate::json::lemma_with_get(
        caps,
        "input_delay"@,
        JsonView::Int(floor.input_delay as int),
    );
    crate::json::lemma_with_other(
        caps,
        "input_delay"@,
        JsonView::Int(floor.input_delay as int),
        key,
    );
    crate::json::lemma_with_other(
        out,
        "input_prediction"@,
        JsonView::Int(floor.input_prediction as int),
        key,
    );
}

/// A match without rollback gets no runway written into its caps, and every
/// match gets the delay of the floor.
pub proof fn law_floor_in_the_caps(caps: JsonView, floor: DelayFloor)
    ensures
        floored(caps, floor).get("input_delay"@) == Some(JsonView::Int(floor.input_delay as int)),
        caps.is_object() && flag_under(caps, "rollback"@) != Some(true) ==> floored(
            caps,
            floor,
        ).get("input_prediction"@) == caps.get("input_prediction"@),
{
    reveal_strlit("input_delay");
    reveal_strlit("input_prediction");
    reveal_strlit("rollback");
    let base = if caps.is_object() {
        caps
    } else {
        empty_object()
    };
    let v = JsonView::Int(floor.input_delay as int);
    let out = base.with("input_delay"@, v);
    assert("input_delay"@.len() == 11 && "input_prediction"@.len() == 16 && "rollback"@.len() == 8);
    crate::json::lemma_with_get(base, "input_delay"@, v);
    crate::json::lemma_with_other(base, "input_delay"@, v, "input_prediction"@);
    crate::json::lemma_with_other(base, "input_delay"@, v, "rollback"@);
    crate::json::lemma_with_other(
        out,
        "input_prediction"@,
        JsonView::Int(floor.input_prediction as int),
        "input_delay"@,
    );
}

} // verus!
