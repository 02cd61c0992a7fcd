//! Bit positions in the flags byte of a CONNECT. Bit 0 is reserved.

use vstd::prelude::*;

verus! {

/// Start a new session.
pub const CLEAN: u8 = 1;

/// A will follows.
pub const WILL: u8 = 2;

/// The low bit of the will's QoS.
pub const WILL_QOS1: u8 = 3;

/// The high bit of the will's QoS.
pub const WILL_QOS2: u8 = 4;

/// The will is retained.
pub const WILL_RETAIN: u8 = 5;

/// A password follows.
pub const PASSWORD: u8 = 6;

/// A user name follows.
pub const USERNAME: u8 = 7;

} // verus!
