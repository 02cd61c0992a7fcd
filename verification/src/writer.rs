//! Writing the fixed part of an outgoing packet.
//!
//! Each function here writes a packet's type, its remaining length and the few
//! bytes whose size never changes, at the front of a buffer, and returns how
//! many bytes that took. A buffer that is too small is left alone, and the
//! answer is 0.
//!
//! A remaining length past the limit does not fit the four bytes it is given.
//! The answer is then 0 as well, unless the buffer ends just where the fifth
//! byte would have gone.

use vstd::prelude::*;

use crate::header;
use crate::header::{packet, variable_length_encoded_size};
use crate::state::QoS;
use crate::wire;
use crate::wire::Sheet;

pub mod connect_flag;

verus! {

/// The protocol version this crate speaks.
pub const VERSION_5: u8 = 5;

/// A whole PINGREQ.
pub const PINGREQ: [u8; 2] = [0xC0, 0x00];

/// What a CONNECT's flags and fixed fields are made from.
#[derive(Debug, Clone, Copy)]
pub struct ConnectInfo<'a> {
    /// Start a new session, whatever the broker remembers.
    pub clean_session: bool,
    /// The keep-alive interval. Zero turns it off.
    pub keep_alive_seconds: u16,
    /// The user name, if any.
    pub username: Option<&'a [u8]>,
    /// The password, if any.
    pub password: Option<&'a [u8]>,
}

impl<'a> Default for ConnectInfo<'a> {
    fn default() -> (info: Self)
        ensures
            !info.clean_session,
            info.keep_alive_seconds == 0,
            info.username is None,
            info.password is None,
    {
        ConnectInfo {
            clean_session: false,
            keep_alive_seconds: 0,
            username: None,
            password: None,
        }
    }
}

/// The part of a will that goes into a CONNECT's flags.
#[derive(Debug, Clone, Copy, PartialEq, Eq, Structural)]
pub struct WillInfo {
    /// The QoS the will is published with.
    pub qos: QoS,
    /// Whether the broker keeps the will for new subscribers.
    pub retain: bool,
}

impl Default for WillInfo {
    fn default() -> (info: Self)
        ensures
            info == (WillInfo { qos: QoS::AtMostOnce, retain: false }),
    {
        WillInfo { qos: QoS::AtMostOnce, retain: false }
    }
}

// ---------------------------------------------------------------------------
// What is written
// ---------------------------------------------------------------------------

/// A QoS as a number.
pub open spec fn qos_number(qos: QoS) -> int {
    match qos {
        QoS::AtMostOnce => 0,
        QoS::AtLeastOnce => 1,
        QoS::ExactlyOnce => 2,
    }
}

/// `weight` if the condition holds, and nothing otherwise.
pub open spec fn weighed(condition: bool, weight: int) -> int {
    if condition {
        weight
    } else {
        0
    }
}

/// The flags byte of a CONNECT. The lowest bit is reserved and stays clear.
pub open spec fn connect_flags(connect: ConnectInfo<'_>, will: Option<WillInfo>) -> u8 {
    (weighed(connect.clean_session, 2) + weighed(connect.username is Some, 128) + weighed(
        connect.password is Some,
        64,
    ) + match will {
        Some(w) => 4 + 8 * qos_number(w.qos) + weighed(w.retain, 32),
        None => 0,
    }) as u8
}

/// The protocol name, the version, the flags and the keep-alive.
pub open spec fn connect_fields(connect: ConnectInfo<'_>, will: Option<WillInfo>) -> Seq<u8> {
    seq![0u8, 4u8, 0x4Du8, 0x51u8, 0x54u8, 0x54u8, VERSION_5, connect_flags(connect, will)]
        + wire::u16_bytes(connect.keep_alive_seconds)
}

/// The type, the remaining length, and `fields`: what a packet begins with.
pub open spec fn fixed_bytes(packet_type: u8, remaining_length: u32, fields: Seq<u8>) -> Seq<u8> {
    seq![packet_type] + wire::length_bytes(remaining_length as nat) + fields
}

/// What comes of writing [`fixed_bytes`] at the front of a buffer: the number
/// of bytes reported, and the buffer after.
pub open spec fn fixed_written(
    buffer: Seq<u8>,
    packet_type: u8,
    remaining_length: u32,
    fields: Seq<u8>,
) -> (int, Seq<u8>) {
    let total = 1 + wire::length_size(remaining_length as int) + fields.len();
    let begun = Sheet::over(buffer).put(seq![packet_type]).put_length(remaining_length as nat);
    if buffer.len() < total {
        (0, buffer)
    } else if begun.at != 1 + wire::length_size(remaining_length as int) {
        (0, begun.buffer)
    } else {
        (total, begun.put(fields).buffer)
    }
}

/// **Law.** Up to the limit, the fixed part is written whole or not at all, and
/// nothing behind it is touched.
pub proof fn law_fixed_whole_or_nothing(
    buffer: Seq<u8>,
    packet_type: u8,
    remaining_length: u32,
    fields: Seq<u8>,
)
    requires
        remaining_length <= header::MAX_REMAINING_LENGTH,
    ensures
        ({
            let bytes = fixed_bytes(packet_type, remaining_length, fields);
            fixed_written(buffer, packet_type, remaining_length, fields) == (if bytes.len()
                <= buffer.len() {
                (bytes.len() as int, wire::overwrite(buffer, 0, bytes))
            } else {
                (0int, buffer)
            })
        }),
{
    let bytes = fixed_bytes(packet_type, remaining_length, fields);
    let length = wire::length_bytes(remaining_length as nat);
    wire::lemma_length_bytes_len(remaining_length as nat);
    if bytes.len() <= buffer.len() {
        let sheet = Sheet::over(buffer);
        wire::lemma_put_length(sheet.put(seq![packet_type]), remaining_length as nat);
        wire::lemma_puts_join(sheet, seq![packet_type], length);
        wire::lemma_puts_join(sheet, seq![packet_type] + length, fields);
    }
}

/// Writes a packet's type, its remaining length and `fields`.
pub fn write_fixed(destination: &mut [u8], packet_type: u8, remaining_length: u32, fields: &[u8]) -> (
written: usize)
    requires
        fields@.len() <= 16,
    ensures
        (written as int, final(destination)@) == fixed_written(
            old(destination)@,
            packet_type,
            remaining_length,
            fields@,
        ),
        final(destination)@.len() == old(destination)@.len(),
        written <= final(destination)@.len(),
        remaining_length <= header::MAX_REMAINING_LENGTH ==> {
            let bytes = fixed_bytes(packet_type, remaining_length, fields@);
            if bytes.len() <= old(destination)@.len() {
                written == bytes.len() && final(destination)@ == wire::overwrite(
                    old(destination)@,
                    0,
                    bytes,
                )
            } else {
                written == 0 && final(destination)@ == old(destination)@
            }
        },
{
    let ghost before = destination@;
    proof {
        if remaining_length <= header::MAX_REMAINING_LENGTH {
            law_fixed_whole_or_nothing(before, packet_type, remaining_length, fields@);
        }
    }
    let length_bytes: usize = variable_length_encoded_size(remaining_length) as usize;
    let total: usize = 1 + length_bytes + fields.len();
    if destination.len() < total {
        return 0;
    }
    let _ = put(destination, 0, packet_type);
    let next = match header::put_length(destination, 1, remaining_length) {
        Some(next) => next,
        None => return 0,
    };
    if next != 1 + length_bytes {
        return 0;
    }
    let _ = wire::write_at(destination, next, fields);
    total
}

/// Writes one byte, or nothing where there is no such place.
fn put(destination: &mut [u8], at: usize, value: u8) -> (fits: bool)
    ensures
        fits == (at < old(destination)@.len()),
        fits ==> final(destination)@ == wire::overwrite(old(destination)@, at as int, seq![value]),
        !fits ==> final(destination)@ == old(destination)@,
{
    wire::write_u8(destination, at, value)
}

/// Writes the front of a publish acknowledgement: type, length, packet
/// identifier and reason code.
#[must_use]
pub fn serialize_ack_fixed(
    destination: &mut [u8],
    packet_type: u8,
    packet_id: u16,
    remaining_length: u32,
    reason_code: u8,
) -> (written: usize)
    ensures
        (written as int, final(destination)@) == fixed_written(
            old(destination)@,
            packet_type,
            remaining_length,
            wire::u16_bytes(packet_id).push(reason_code),
        ),
        written <= final(destination)@.len(),
        remaining_length <= header::MAX_REMAINING_LENGTH ==> {
            let bytes = fixed_bytes(
                packet_type,
                remaining_length,
                wire::u16_bytes(packet_id).push(reason_code),
            );
            if bytes.len() <= old(destination)@.len() {
                written == bytes.len() && final(destination)@ == wire::overwrite(
                    old(destination)@,
                    0,
                    bytes,
                )
            } else {
                written == 0 && final(destination)@ == old(destination)@
            }
        },
{
    let id = wire::split_u16(packet_id);
    let fields = [id[0], id[1], reason_code];
    assert(fields@ =~= wire::u16_bytes(packet_id).push(reason_code));
    write_fixed(destination, packet_type, remaining_length, &fields)
}

/// Writes the front of a CONNECT: type, length, protocol name and version,
/// flags and keep-alive.
#[must_use]
pub fn serialize_connect_fixed_header(
    destination: &mut [u8],
    connect: &ConnectInfo<'_>,
    will: Option<&WillInfo>,
    remaining_length: u32,
) -> (written: usize)
    ensures
        ({
            let will = match will {
                Some(w) => Some(*w),
                None => None,
            };
            let fields = connect_fields(*connect, will);
            let bytes = fixed_bytes(packet::CONNECT, remaining_length, fields);
            &&& (written as int, final(destination)@) == fixed_written(
                old(destination)@,
                packet::CONNECT,
                remaining_length,
                fields,
            )
            &&& remaining_length <= header::MAX_REMAINING_LENGTH ==> if bytes.len() <= old(
                destination)@.len() {
                written == bytes.len() && final(destination)@ == wire::overwrite(
                    old(destination)@,
                    0,
                    bytes,
                )
            } else {
                written == 0 && final(destination)@ == old(destination)@
            }
        }),
        written <= final(destination)@.len(),
{
    let mut flags: u8 = 0;
    if connect.clean_session {
        flags = flags + 2;
    }
    if connect.username.is_some() {
        flags = flags + 128;
    }
    if connect.password.is_some() {
        flags = flags + 64;
    }
    match will {
        Some(will) => {
            flags = flags + 4;
            match will.qos {
                QoS::AtLeastOnce => flags = flags + 8,
                QoS::ExactlyOnce => flags = flags + 16,
                QoS::AtMostOnce => {},
            }
            if will.retain {
                flags = flags + 32;
            }
        },
        None => {},
    }
    let keep_alive = wire::split_u16(connect.keep_alive_seconds);
    let fields = [
        0u8,
        4u8,
        0x4Du8,
        0x51u8,
        0x54u8,
        0x54u8,
        VERSION_5,
        flags,
        keep_alive[0],
        keep_alive[1],
    ];
    proof {
        let will = match will {
            Some(w) => Some(*w),
            None => None,
        };
        assert(flags == connect_flags(*connect, will));
        assert(fields@ =~= connect_fields(*connect, will));
    }
    write_fixed(destination, packet::CONNECT, remaining_length, &fields)
}

/// Writes the front of a SUBSCRIBE: type, length and packet identifier.
#[must_use]
pub fn serialize_subscribe_header(
    destination: &mut [u8],
    remaining_length: u32,
    packet_id: u16,
) -> (written: usize)
    ensures
        (written as int, final(destination)@) == fixed_written(
            old(destination)@,
            packet::SUBSCRIBE,
            remaining_length,
            wire::u16_bytes(packet_id),
        ),
        final(destination)@.len() == old(destination)@.len(),
        written <= final(destination)@.len(),
{
    serialize_id_header(destination, packet::SUBSCRIBE, remaining_length, packet_id)
}

/// Writes the front of an UNSUBSCRIBE: type, length and packet identifier.
#[must_use]
pub fn serialize_unsubscribe_header(
    destination: &mut [u8],
    remaining_length: u32,
    packet_id: u16,
) -> (written: usize)
    ensures
        (written as int, final(destination)@) == fixed_written(
            old(destination)@,
            packet::UNSUBSCRIBE,
            remaining_length,
            wire::u16_bytes(packet_id),
        ),
        final(destination)@.len() == old(destination)@.len(),
        written <= final(destination)@.len(),
{
    serialize_id_header(destination, packet::UNSUBSCRIBE, remaining_length, packet_id)
}

fn serialize_id_header(
    destination: &mut [u8],
    packet_type: u8,
    remaining_length: u32,
    packet_id: u16,
) -> (written: usize)
    ensures
        (written as int, final(destination)@) == fixed_written(
            old(destination)@,
            packet_type,
            remaining_length,
            wire::u16_bytes(packet_id),
        ),
        final(destination)@.len() == old(destination)@.len(),
        written <= final(destination)@.len(),
{
    let fields = wire::split_u16(packet_id);
    write_fixed(destination, packet_type, remaining_length, &fields)
}

/// Writes the front of a DISCONNECT: type, length, and the reason code if there
/// is one.
#[must_use]
pub fn serialize_disconnect_fixed(
    destination: &mut [u8],
    reason_code: Option<u8>,
    remaining_length: u32,
) -> (written: usize)
    ensures
        (written as int, final(destination)@) == fixed_written(
            old(destination)@,
            packet::DISCONNECT,
            remaining_length,
            match reason_code {
                Some(code) => seq![code],
                None => Seq::empty(),
            },
        ),
        final(destination)@.len() == old(destination)@.len(),
        written <= final(destination)@.len(),
{
    match reason_code {
        Some(code) => {
            let fields = [code];
            assert(fields@ =~= seq![code]);
            write_fixed(destination, packet::DISCONNECT, remaining_length, &fields)
        },
        None => {
            let fields = [];
            assert(fields@ =~= Seq::<u8>::empty());
            write_fixed(destination, packet::DISCONNECT, remaining_length, &fields)
        },
    }
}

/// **Law.** The reserved bit of a CONNECT's flags is never set, and each of the
/// other bits says what follows in the packet.
pub proof fn law_connect_flags(connect: ConnectInfo<'_>, will: Option<WillInfo>)
    ensures
        ({
            let flags = connect_flags(connect, will);
            &&& flags & (1u8 << 0u8) == 0
            &&& (flags & (1u8 << connect_flag::CLEAN) != 0) == connect.clean_session
            &&& (flags & (1u8 << connect_flag::WILL) != 0) == will is Some
            &&& (flags & (1u8 << connect_flag::WILL_QOS1) != 0) == (will matches Some(w) && w.qos
                == QoS::AtLeastOnce)
            &&& (flags & (1u8 << connect_flag::WILL_QOS2) != 0) == (will matches Some(w) && w.qos
                == QoS::ExactlyOnce)
            &&& (flags & (1u8 << connect_flag::WILL_RETAIN) != 0) == (will matches Some(w)
                && w.retain)
            &&& (flags & (1u8 << connect_flag::PASSWORD) != 0) == connect.password is Some
            &&& (flags & (1u8 << connect_flag::USERNAME) != 0) == connect.username is Some
        }),
{
    wire::lemma_bits(connect_flags(connect, will));
}

} // verus!
