//! The property identifiers a CONNACK may carry.

use vstd::prelude::*;

verus! {

/// Session Expiry Interval.
pub const SESSION_EXPIRY: u8 = 0x11;

/// Assigned Client Identifier.
pub const ASSIGNED_CLIENT_ID: u8 = 0x12;

/// Server Keep Alive.
pub const SERVER_KEEP_ALIVE: u8 = 0x13;

/// Authentication Method.
pub const AUTH_METHOD: u8 = 0x15;

/// Authentication Data: bytes, in the same shape as a string.
pub const AUTH_DATA: u8 = 0x16;

/// Response Information.
pub const RESPONSE_INFO: u8 = 0x1A;

/// Server Reference.
pub const SERVER_REFERENCE: u8 = 0x1C;

/// Reason String.
pub const REASON_STRING: u8 = 0x1F;

/// Receive Maximum.
pub const RECEIVE_MAX: u8 = 0x21;

/// Topic Alias Maximum.
pub const TOPIC_ALIAS_MAX: u8 = 0x22;

/// Maximum QoS.
pub const MAX_QOS: u8 = 0x24;

/// Retain Available.
pub const RETAIN_AVAILABLE: u8 = 0x25;

/// User Property.
pub const USER_PROPERTY: u8 = 0x26;

/// Maximum Packet Size.
pub const MAX_PACKET_SIZE: u8 = 0x27;

/// Wildcard Subscription Available.
pub const WILDCARD_AVAILABLE: u8 = 0x28;

/// Subscription Identifiers Available.
pub const SUBSCRIPTION_ID_AVAILABLE: u8 = 0x29;

/// Shared Subscription Available.
pub const SHARED_SUB_AVAILABLE: u8 = 0x2A;

} // verus!
