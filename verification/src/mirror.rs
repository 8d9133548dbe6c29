//! The values the command-line client keeps its own copy of.
//!
//! The client depends on the wire types and the text rules and nothing else,
//! which keeps its startup instant; the cost is that a few values exist
//! twice. Gathering them here makes the copies findable and puts them where
//! a test can compare each one against the node's.

use vstd::prelude::*;

verus! {

/// How long the node spends reaching a device, in seconds; the node's
/// `transport::PEER_CONNECT`, kept by hand. Being shorter than the node's
/// bound is the bug: the client would give up on a node that is still
/// working out why a device is unreachable.
pub const PEER_CONNECT: u64 = 90;

/// The node's socket name when nothing overrides it; the node's default,
/// kept by hand.
pub const SOCKET_NAME: &'static str = "clispeak.sock";

} // verus!
