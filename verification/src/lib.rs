//! Leader election over a ZooKeeper-like coordination service.

pub mod failure;
pub mod guid;
pub mod recipes;
pub mod text;

pub use crate::failure::Failure;
