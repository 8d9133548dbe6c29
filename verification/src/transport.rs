//! This device's connection to the network: the few facts about it that are
//! fixed. Dialling and accepting are the host's.

use vstd::prelude::*;

use crate::ipc::{announced, be_bytes, be_value, oversized_text, prefixed, MAX_FRAME};
use crate::strs::{owned, push_dec, push_str, dec};

verus! {

/// How long the node spends reaching a device before calling it
/// unreachable, in seconds.
///
/// Ninety, measured rather than guessed: a real phone answered in about two
/// seconds warm and fifty-eight cold, and a cold phone is the ordinary case.
/// The node applies the bound and answers `unreachable` with a reason, which
/// only works if the CLI waits longer than the node does.
pub const PEER_CONNECT: u64 = 90;

/// What a dial that timed out says: the number, because the next question
/// anyone asks is whether waiting longer would have worked.
pub fn no_answer() -> (r: String)
    ensures
        r@ == "connecting to peer: no answer in "@ + dec(PEER_CONNECT as nat) + "s"@,
{
    let mut s = owned("connecting to peer: no answer in ");
    push_dec(&mut s, PEER_CONNECT);
    push_str(&mut s, "s");
    s
}

/// One peer message's frame: its length, then its bytes. The same framing
/// as the local socket, and the same limit on what is read.
pub fn message_frame(payload: &Vec<u8>) -> (r: Result<Vec<u8>, String>)
    ensures
        match r {
            Ok(f) => payload@.len() <= u32::MAX && f@ == be_bytes(payload@.len()) + payload@,
            Err(m) => payload@.len() > u32::MAX && m@ == "message too large"@,
        },
{
    prefixed(payload, "message too large")
}

/// How many bytes a peer message says follow its header.
pub fn message_length(header: [u8; 4]) -> (r: Result<u32, String>)
    ensures
        match r {
            Ok(n) => n == be_value(header@) && n <= MAX_FRAME,
            Err(m) => be_value(header@) > MAX_FRAME && m@ == oversized_text("message"@, be_value(header@)),
        },
{
    announced(header, "message")
}

} // verus!
