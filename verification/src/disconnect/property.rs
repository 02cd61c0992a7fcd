//! The property identifiers a DISCONNECT may carry.

use vstd::prelude::*;

verus! {

/// Session Expiry Interval, from the client only.
pub const SESSION_EXPIRY: u8 = 0x11;

/// Server Reference, from the broker only.
pub const SERVER_REFERENCE: u8 = 0x1C;

/// Reason String.
pub const REASON_STRING: u8 = 0x1F;

/// User Property.
pub const USER_PROPERTY: u8 = 0x26;

} // verus!
