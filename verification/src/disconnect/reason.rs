//! Reason codes this client sends of its own accord.

use vstd::prelude::*;

verus! {

/// The packet received did not conform to the protocol.
pub const MALFORMED_PACKET: u8 = 0x81;

} // verus!
