//! Automatch: the rulesets on offer, the queue, the delay a pair needs, and
//! what a dodge costs.

pub mod floors;
pub mod pairs;
pub mod places;
pub mod queue;
pub mod rulesets;
pub mod strikes;
