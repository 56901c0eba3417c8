//! Epidemic (gossip) broadcast of model snapshots among a fixed set of peers.
pub mod network;
