//! Wire messages and the per-node propagation engine.
pub mod data;
pub mod node;
