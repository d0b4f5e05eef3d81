//! Meta-connection engine of a mesh VPN daemon: configuration loading, the
//! per-peer handshake state machine and request dispatch, keepalive sweeps, and
//! the node/edge graph with its deterministic minimum spanning tree.
use vstd::prelude::*;

pub mod canonical;
pub mod config;
pub mod connection;
pub mod graph;
pub mod manager;
pub mod protocol;
pub mod text;

verus! {

} // verus!
