//! A peer-to-peer clock synchronization library.
//!
//! Each node listens for inbound peers, dials a static peer list, and
//! periodically exchanges adjusted wall-clock timestamps so that a small
//! cluster converges on a shared approximate time base without a central
//! coordinator. This crate holds the verified core: the wire codec with
//! explicit length-delimited framing, the peer registry, the offset
//! adjustment algorithm, and the per-connection handler state machine.
//! The unverified binary around it does the socket I/O and hands plain
//! values in and out.
use vstd::prelude::*;

pub mod codec;
pub mod offset;
pub mod protocol;
pub mod registry;

verus! {

/// Milliseconds of local clock correction; starts at zero on every node.
pub fn initial_offset() -> (r: i128)
    ensures
        r == 0,
{
    0i128
}

} // verus!
