//! The lobby protocol: what the hub holds and what each message does to it.

pub mod chat;
pub mod dispatch;
pub mod dodges;
pub mod doors;
pub mod entries;
pub mod hosts;
pub mod hub;
pub mod input;
pub mod join;
pub mod keeps;
pub mod lines;
pub mod matches;
pub mod matching;
pub mod model;
pub mod moves;
pub mod notices;
pub mod ops;
pub mod outcomes;
pub mod readiness;
pub mod ring;
pub mod roster;
pub mod seating;
pub mod seats;
pub mod signals;
pub mod start;
pub mod wire;
