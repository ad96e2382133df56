//! Leader election among participants that are told apart by unique
//! identifiers and ranked by sequence numbers.

pub mod candidate;
pub mod child;
pub mod election;
pub mod laws;

pub use crate::recipes::backoff::Attempts;
pub use crate::recipes::leader::candidate::{
    is_retryable, Announcing, Candidate, Checking, LeadershipState, Role, Verdict, Watching,
};
pub use crate::recipes::leader::child::{get_children, ElectionChild};
pub use crate::recipes::leader::election::{
    Joined, Joining, LeaderElection, Searching, Volunteer,
};
