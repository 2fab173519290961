//! How writers and readers of a tree keep out of each other's way.

pub mod locking_strategy;
