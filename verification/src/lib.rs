//! Bootstrap core for a simulated packet-switched mesh network.
//!
//! A user-supplied topology description lists relay nodes ("drones") and edge
//! nodes ("clients", "servers"), each with its neighbor ids. This crate
//! validates the description against the graph invariants that must hold
//! before any node is started, and then allocates the channels, assigns
//! implementation variants, and plans the neighbor wiring that turn the
//! description into a running network.

pub mod bitset;
pub mod channel;
pub mod config;
pub mod graph;
pub mod init;
pub mod text;
pub mod validate;

use vstd::prelude::*;

verus! {

/// Upper bound on the network size: node ids are `u8`, so every id is a
/// valid index into a table of this many slots.
pub const MAX_NODES: usize = 256;

} // verus!
