//! Bit positions in the options byte of a subscription. The top two bits are
//! reserved.

use vstd::prelude::*;

verus! {

/// The low bit of the QoS.
pub const QOS1: u8 = 0;

/// The high bit of the QoS.
pub const QOS2: u8 = 1;

/// Do not send this client its own messages.
pub const NO_LOCAL: u8 = 2;

/// Keep the RETAIN flag that a message was published with.
pub const RETAIN_AS_PUBLISHED: u8 = 3;

/// The low bit of the retain handling.
pub const RETAIN_HANDLING1: u8 = 4;

/// The high bit of the retain handling.
pub const RETAIN_HANDLING2: u8 = 5;

} // verus!
