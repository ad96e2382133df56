//! Leader election among participants that are known, and ranked, by the names
//! of their nodes.

pub mod candidate;
pub mod child;
pub mod election;
pub mod laws;
