//! Bit positions in a bitmap of properties that are present.
//!
//! The numbering is part of the interface: the bitmap is handed to callers.

use vstd::prelude::*;

verus! {

/// Subscription Identifier.
pub const SUBSCRIPTION_ID: u32 = 1;

/// Session Expiry Interval.
pub const SESSION_EXPIRY_INTERVAL: u32 = 2;

/// Receive Maximum.
pub const RECEIVE_MAXIMUM: u32 = 3;

/// Maximum Packet Size.
pub const MAX_PACKET_SIZE: u32 = 4;

/// Topic Alias Maximum.
pub const TOPIC_ALIAS_MAX: u32 = 5;

/// Request Response Information.
pub const REQUEST_RESPONSE_INFO: u32 = 6;

/// Request Problem Information.
pub const REQUEST_PROBLEM_INFO: u32 = 7;

/// Authentication Method.
pub const AUTHENTICATION_METHOD: u32 = 9;

/// Authentication Data.
pub const AUTHENTICATION_DATA: u32 = 10;

/// Payload Format Indicator.
pub const PAYLOAD_FORMAT_INDICATOR: u32 = 11;

/// Message Expiry Interval.
pub const MESSAGE_EXPIRY_INTERVAL: u32 = 12;

/// Topic Alias.
pub const TOPIC_ALIAS: u32 = 13;

/// Response Topic.
pub const RESPONSE_TOPIC: u32 = 14;

/// Correlation Data.
pub const CORRELATION_DATA: u32 = 15;

/// Content Type.
pub const CONTENT_TYPE: u32 = 16;

/// Reason String.
pub const REASON_STRING: u32 = 17;

/// Will Delay Interval.
pub const WILL_DELAY: u32 = 18;

/// Assigned Client Identifier.
pub const ASSIGNED_CLIENT_ID: u32 = 19;

/// Server Keep Alive.
pub const SERVER_KEEP_ALIVE: u32 = 20;

/// Response Information.
pub const RESPONSE_INFORMATION: u32 = 21;

/// Server Reference.
pub const SERVER_REFERENCE: u32 = 22;

/// Maximum QoS.
pub const MAX_QOS: u32 = 23;

/// Retain Available.
pub const RETAIN_AVAILABLE: u32 = 24;

/// Wildcard Subscription Available.
pub const WILDCARD_SUBSCRIPTION_AVAILABLE: u32 = 25;

/// Subscription Identifiers Available.
pub const SUBSCRIPTION_ID_AVAILABLE: u32 = 26;

/// Shared Subscription Available.
pub const SHARED_SUBSCRIPTION_AVAILABLE: u32 = 27;

/// User Property.
pub const USER_PROP: u32 = 28;

} // verus!
