//! What a dodge costs, and how long its record is kept.

use vstd::prelude::*;

verus! {

/// How far back a cooldown counts strikes.
pub const STRIKE_WINDOW_SECS: u64 = 86_400;

/// How often the retention sweep runs.
pub const SWEEP_INTERVAL_SECS: u64 = 86_400;

/// Seconds that are left of the penalty for `count` strikes of which the last
/// is `since` seconds ago.
pub open spec fn cooldown_left(ladder: Seq<u64>, count: int, since: int) -> int {
    if ladder.len() == 0 || count <= 0 {
        0
    } else {
        let penalty = ladder[if count <= ladder.len() {
            count - 1
        } else {
            ladder.len() - 1
        }];
        let elapsed = if since < 0 {
            0
        } else {
            since
        };
        if penalty <= elapsed {
            0
        } else {
            penalty - elapsed
        }
    }
}

/// Seconds an account must wait before queueing again, or 0: `count` is its
/// strikes in the window, `since` the seconds from the last one, where known.
pub fn cooldown_secs(ladder: &Vec<u64>, count: i64, since: Option<i64>) -> (r: u64)
    ensures
        r == cooldown_left(
            ladder@,
            count as int,
            match since {
                Some(s) => s as int,
                None => 0,
            },
        ),
{
    if ladder.len() == 0 || count <= 0 {
        return 0;
    }
    let i: usize = if count as u64 <= ladder.len() as u64 {
        (count as u64 - 1) as usize
    } else {
        ladder.len() - 1
    };
    let penalty: u64 = ladder[i];
    let elapsed: u64 = match since {
        Some(s) => if s < 0 {
            0
        } else {
            s as u64
        },
        None => 0,
    };
    if penalty <= elapsed {
        0
    } else {
        penalty - elapsed
    }
}

/// Rows deleted by one sweep.
#[derive(Debug, Clone, Copy, PartialEq, Eq, Structural)]
pub struct Pruned {
    pub strikes: u64,
    pub pairings: u64,
}

impl Default for Pruned {
    fn default() -> (r: Pruned)
        ensures
            r == (Pruned { strikes: 0, pairings: 0 }),
    {
        Pruned { strikes: 0, pairings: 0 }
    }
}

impl Pruned {
    /// All rows deleted.
    pub fn total(&self) -> (r: u64)
        requires
            self.strikes + self.pairings <= u64::MAX,
        ensures
            r == self.strikes + self.pairings,
    {
        self.strikes + self.pairings
    }
}

/// The longer of the retention and the window, as 64 bits hold it.
pub open spec fn cutoff(retention_days: int, window: int) -> int {
    let kept = if retention_days * 86_400 > u64::MAX {
        u64::MAX as int
    } else {
        retention_days * 86_400
    };
    if kept < window {
        window
    } else {
        kept
    }
}

/// Seconds of history a table keeps: the operator's retention, floored by the
/// window the feature still reads from it.
pub fn cutoff_secs(retention_days: u64, functional_window_secs: u64) -> (r: u64)
    ensures
        r == cutoff(retention_days as int, functional_window_secs as int),
{
    let kept: u64 = if retention_days > 0xffff_ffff_ffff_ffff / 86_400 {
        0xffff_ffff_ffff_ffff
    } else {
        retention_days * 86_400
    };
    if kept < functional_window_secs {
        functional_window_secs
    } else {
        kept
    }
}

/// The cutoffs of one sweep: of the strikes, and of the pairings.
pub fn sweep_cutoffs(retention_days: u64, rematch_cooldown_secs: u64) -> (r: (u64, u64))
    ensures
        r.0 == cutoff(retention_days as int, STRIKE_WINDOW_SECS as int),
        r.1 == cutoff(retention_days as int, rematch_cooldown_secs as int),
{
    (
        cutoff_secs(retention_days, STRIKE_WINDOW_SECS),
        cutoff_secs(retention_days, rematch_cooldown_secs),
    )
}

// -------------------------------------------------------------------- laws

/// No retention, however short, drops what the feature still reads, and none
/// is cut below what the operator asked for.
pub proof fn law_cutoff_keeps_the_window(retention_days: u64, window: u64)
    ensures
        cutoff(retention_days as int, window as int) >= window,
        retention_days * 86_400 <= u64::MAX ==> cutoff(retention_days as int, window as int)
            >= retention_days * 86_400,
{
}

/// On a ladder that does not come down, a further strike never shortens the
/// wait.
pub proof fn law_ladder_escalates(ladder: Seq<u64>, count: int, since: int)
    requires
        count >= 1,
        forall|i: int, j: int| 0 <= i <= j < ladder.len() ==> ladder[i] <= ladder[j],
    ensures
        cooldown_left(ladder, count, since) <= cooldown_left(ladder, count + 1, since),
{
}

/// A strike just taken costs the step of the ladder that its number stands
/// for, and the last step once the ladder has run out; from there on each
/// second that passes takes one off, until nothing is left.
pub proof fn law_a_strike_costs_its_step(ladder: Seq<u64>, count: int, since: int)
    requires
        ladder.len() > 0,
        count >= 1,
        since >= 0,
    ensures
        count <= ladder.len() ==> cooldown_left(ladder, count, 0) == ladder[count - 1],
        count > ladder.len() ==> cooldown_left(ladder, count, 0) == ladder.last(),
        cooldown_left(ladder, count, since) > 0 ==> cooldown_left(ladder, count, since + 1)
            == cooldown_left(ladder, count, since) - 1,
        cooldown_left(ladder, count, since) == 0 ==> cooldown_left(ladder, count, since + 1) == 0,
        cooldown_left(ladder, 0, since) == 0,
{
}

/// A cooldown is over once its penalty has passed, and an empty ladder charges
/// nothing.
pub proof fn law_cooldown_ends(ladder: Seq<u64>, count: int, since: int)
    ensures
        ladder.len() == 0 ==> cooldown_left(ladder, count, since) == 0,
        (forall|i: int| 0 <= i < ladder.len() ==> ladder[i] <= since) ==> cooldown_left(
            ladder,
            count,
            since,
        ) == 0,
{
}

} // verus!
