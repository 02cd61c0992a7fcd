//! The first byte of each packet kind.

use vstd::prelude::*;

verus! {

/// CONNECT, which only a client sends.
pub const CONNECT: u8 = 0x10;

/// CONNACK, the broker's answer to a CONNECT.
pub const CONNACK: u8 = 0x20;

/// PUBLISH. The low nibble carries the QoS, DUP and RETAIN flags.
pub const PUBLISH: u8 = 0x30;

/// PUBACK, a QoS 1 delivery acknowledged.
pub const PUBACK: u8 = 0x40;

/// PUBREC, the first half of a QoS 2 handshake.
pub const PUBREC: u8 = 0x50;

/// PUBREL with its reserved bit masked off.
pub const PUBREL_NIBBLE: u8 = 0x60;

/// PUBCOMP, a QoS 2 handshake finished.
pub const PUBCOMP: u8 = 0x70;

/// SUBACK, one reason code per topic filter subscribed.
pub const SUBACK: u8 = 0x90;

/// UNSUBACK, one reason code per topic filter unsubscribed.
pub const UNSUBACK: u8 = 0xB0;

/// PINGRESP, which carries nothing.
pub const PINGRESP: u8 = 0xD0;

/// DISCONNECT, which either end may send.
pub const DISCONNECT: u8 = 0xE0;

/// PUBREL, whole: the nibble with the reserved bit that must be set.
pub const PUBREL: u8 = 0x62;

/// SUBSCRIBE, whole, with its reserved bit.
pub const SUBSCRIBE: u8 = 0x82;

/// UNSUBSCRIBE, whole, with its reserved bit.
pub const UNSUBSCRIBE: u8 = 0xA2;

/// PINGREQ, which only a client sends.
pub const PINGREQ: u8 = 0xC0;

/// AUTH, the extended authentication exchange.
pub const AUTH: u8 = 0xF0;

} // verus!
