//! Recipes for coordination.
//!
//! `leader` is the election among participants with unique identifiers. What
//! stands here directly is the election among participants that are known by
//! their nodes' names alone.

pub mod backoff;
pub mod exchange;
pub mod leader;
pub mod plain;
pub mod ranking;

pub use crate::recipes::backoff::Attempts;
pub use crate::recipes::plain::candidate::{
    Announcing, Candidate, Checking, LeadershipState, ObserveError, Role, Verdict, Watching,
};
pub use crate::recipes::plain::child::{get_children, ElectionChild};
pub use crate::recipes::plain::election::{
    Joined, Joining, LeaderElection, OpenUnsafe, Searching, Volunteer,
};
