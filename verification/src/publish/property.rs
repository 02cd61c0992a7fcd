//! The property identifiers a PUBLISH may carry.

use vstd::prelude::*;

verus! {

/// Payload Format Indicator.
pub const PAYLOAD_FORMAT: u8 = 0x01;

/// Message Expiry Interval.
pub const MESSAGE_EXPIRY: u8 = 0x02;

/// Content Type.
pub const CONTENT_TYPE: u8 = 0x03;

/// Response Topic.
pub const RESPONSE_TOPIC: u8 = 0x08;

/// Correlation Data.
pub const CORRELATION_DATA: u8 = 0x09;

/// Subscription Identifier.
pub const SUBSCRIPTION_ID: u8 = 0x0B;

/// Topic Alias.
pub const TOPIC_ALIAS: u8 = 0x23;

/// User Property.
pub const USER_PROPERTY: u8 = 0x26;

} // verus!
