//! The property identifiers a client may send.

use vstd::prelude::*;

verus! {

/// Payload Format Indicator.
pub const PAYLOAD_FORMAT: u8 = 0x01;

/// Message Expiry Interval.
pub const MESSAGE_EXPIRY: u8 = 0x02;

/// Content Type.
pub const CONTENT_TYPE: u8 = 0x03;

/// Response Topic.
pub const RESPONSE_TOPIC: u8 = 0x08;

/// Correlation Data.
pub const CORRELATION_DATA: u8 = 0x09;

/// Subscription Identifier.
pub const SUBSCRIPTION_ID: u8 = 0x0B;

/// Session Expiry Interval.
pub const SESSION_EXPIRY: u8 = 0x11;

/// Authentication Method.
pub const AUTH_METHOD: u8 = 0x15;

/// Authentication Data.
pub const AUTH_DATA: u8 = 0x16;

/// Request Problem Information.
pub const REQUEST_PROBLEM: u8 = 0x17;

/// Will Delay Interval.
pub const WILL_DELAY: u8 = 0x18;

/// Request Response Information.
pub const REQUEST_RESPONSE: u8 = 0x19;

/// Reason String.
pub const REASON_STRING: u8 = 0x1F;

/// Receive Maximum.
pub const RECEIVE_MAX: u8 = 0x21;

/// Topic Alias Maximum.
pub const TOPIC_ALIAS_MAX: u8 = 0x22;

/// Topic Alias.
pub const TOPIC_ALIAS: u8 = 0x23;

/// User Property.
pub const USER_PROPERTY: u8 = 0x26;

/// Maximum Packet Size.
pub const MAX_PACKET_SIZE: u8 = 0x27;

} // verus!
