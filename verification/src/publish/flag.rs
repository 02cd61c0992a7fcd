//! The flag bits in the low nibble of a PUBLISH byte.

use vstd::prelude::*;

verus! {

/// RETAIN.
pub const RETAIN: u8 = 0;

/// The low bit of the QoS.
pub const QOS1: u8 = 1;

/// The high bit of the QoS.
pub const QOS2: u8 = 2;

/// DUP.
pub const DUP: u8 = 3;

} // verus!
