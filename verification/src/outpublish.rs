//! The outgoing PUBLISH.
//!
//! Three serializers write the same packet to different depths: whole, without
//! its payload, and without its topic as well. The shorter ones are for callers
//! that send the rest from where it already lies. What each writes is a prefix
//! of what the next longer one writes.

use vstd::prelude::*;

use crate::ack::PacketModel;
use crate::header;
use crate::header::{
    packet, variable_length_encoded_size, MAX_REMAINING_LENGTH, REMAINING_LENGTH_INVALID,
};
use crate::property;
use crate::property::{place_bytes, place_length, place_section, place_text};
use crate::publish;
use crate::publish::{PublishError, PublishModel};
use crate::state::QoS;
use crate::wire;
use crate::wire::{Piece, Sheet, Trouble};
use crate::writer;

verus! {

/// A PUBLISH to be sent.
#[derive(Debug, Clone, Copy)]
pub struct OutgoingPublish<'a> {
    /// The QoS.
    pub qos: QoS,
    /// Whether this is a second delivery.
    pub dup: bool,
    /// Whether the broker keeps this message for new subscribers.
    pub retain: bool,
    /// The topic.
    pub topic_name: &'a [u8],
    /// The message.
    pub payload: &'a [u8],
    /// The property section.
    pub properties: &'a [u8],
}

/// How large a PUBLISH is.
#[derive(Debug, Clone, Copy, PartialEq, Eq, Structural)]
pub struct PublishSize {
    /// The length of the body.
    pub remaining_length: u32,
    /// The length of the packet.
    pub packet_size: u32,
}

/// Why a PUBLISH was refused.
#[derive(Debug, Clone, Copy, PartialEq, Eq, Structural)]
pub enum OutgoingError {
    /// The call was wrong, or a length is past its limit.
    BadParameter,
    /// The destination is too small.
    NoMemory,
}

// ---------------------------------------------------------------------------
// What a PUBLISH consists of
// ---------------------------------------------------------------------------

/// The first byte of a PUBLISH: the type, and the three flags.
pub open spec fn publish_byte(publish: OutgoingPublish<'_>) -> u8 {
    (packet::PUBLISH + 2 * writer::qos_number(publish.qos) + writer::weighed(publish.retain, 1)
        + writer::weighed(publish.dup, 8)) as u8
}

/// The packet identifier, above QoS 0.
pub open spec fn id_piece(publish: OutgoingPublish<'_>, packet_id: u16) -> Seq<Piece> {
    if publish.qos == QoS::AtMostOnce {
        Seq::empty()
    } else {
        seq![Piece::Bytes(wire::u16_bytes(packet_id))]
    }
}

/// The type byte and the length.
pub open spec fn front_pieces(publish: OutgoingPublish<'_>, remaining_length: u32) -> Seq<Piece> {
    seq![Piece::Bytes(seq![publish_byte(publish)])] + seq![
        Piece::Bytes(wire::length_bytes(remaining_length as nat)),
    ]
}

/// Everything before the payload, in order.
pub open spec fn header_pieces(
    publish: OutgoingPublish<'_>,
    packet_id: u16,
    remaining_length: u32,
) -> Seq<Piece> {
    front_pieces(publish, remaining_length) + seq![Piece::Text(publish.topic_name@)] + id_piece(
        publish,
        packet_id,
    ) + seq![Piece::Section(publish.properties@)]
}

/// The whole packet, in order.
pub open spec fn publish_pieces(
    publish: OutgoingPublish<'_>,
    packet_id: u16,
    remaining_length: u32,
) -> Seq<Piece> {
    header_pieces(publish, packet_id, remaining_length) + seq![Piece::Bytes(publish.payload@)]
}

/// The size of a PUBLISH's body.
pub open spec fn publish_body_size(publish: OutgoingPublish<'_>) -> int {
    2 + publish.topic_name@.len() + publish::id_size(publish.qos) + wire::length_size(
        publish.properties@.len() as int,
    ) + publish.properties@.len() + publish.payload@.len()
}

/// How large a PUBLISH is, or that it may not be sent.
pub open spec fn publish_size(publish: OutgoingPublish<'_>, max_packet_size: u32) -> Result<
    PublishSize,
    OutgoingError,
> {
    let body = publish_body_size(publish);
    if publish.topic_name@.len() > u16::MAX || body > MAX_REMAINING_LENGTH || header::whole_packet(
        body,
    ) > max_packet_size {
        Err(OutgoingError::BadParameter)
    } else {
        Ok(
            PublishSize {
                remaining_length: body as u32,
                packet_size: header::whole_packet(body) as u32,
            },
        )
    }
}

/// What the two serializers that write the topic demand of a PUBLISH.
pub open spec fn strict(publish: OutgoingPublish<'_>, packet_id: u16, remaining_length: u32) -> bool {
    &&& 0 < publish.topic_name@.len() <= u16::MAX
    &&& publish.qos != QoS::AtMostOnce ==> packet_id != 0
    &&& publish.dup ==> publish.qos != QoS::AtMostOnce
    &&& remaining_length < REMAINING_LENGTH_INVALID
}

/// What a piece that cannot be written is reported as.
pub open spec fn trouble_of(trouble: Trouble) -> OutgoingError {
    match trouble {
        Trouble::TooLong => OutgoingError::BadParameter,
        Trouble::NoRoom => OutgoingError::NoMemory,
    }
}

/// Writing a whole PUBLISH over a buffer: how much was written, or why not, and
/// the buffer after.
pub open spec fn publish_written(
    buffer: Seq<u8>,
    publish: OutgoingPublish<'_>,
    packet_id: u16,
    remaining_length: u32,
) -> (Result<usize, OutgoingError>, Seq<u8>) {
    if !strict(publish, packet_id, remaining_length) || publish.properties@.len()
        > MAX_REMAINING_LENGTH {
        (Err(OutgoingError::BadParameter), buffer)
    } else if buffer.len() < header::whole_packet(remaining_length as int) {
        (Err(OutgoingError::NoMemory), buffer)
    } else {
        match wire::fill(
            Sheet::over(buffer),
            publish_pieces(publish, packet_id, remaining_length),
            u32::MAX as int,
        ) {
            (None, sheet) => (Ok(sheet.at as usize), sheet.buffer),
            (Some(trouble), sheet) => (Err(trouble_of(trouble)), sheet.buffer),
        }
    }
}

/// What a PUBLISH with this body takes without its payload.
pub open spec fn header_size(publish: OutgoingPublish<'_>, remaining_length: u32) -> int {
    header::whole_packet(remaining_length as int) - publish.payload@.len()
}

/// Writing a PUBLISH without its payload over a buffer. The size reported is
/// the one announced.
pub open spec fn header_written(
    buffer: Seq<u8>,
    publish: OutgoingPublish<'_>,
    packet_id: u16,
    remaining_length: u32,
) -> (Result<usize, OutgoingError>, Seq<u8>) {
    if !strict(publish, packet_id, remaining_length) || remaining_length < publish.payload@.len() {
        (Err(OutgoingError::BadParameter), buffer)
    } else if buffer.len() < header_size(publish, remaining_length) {
        (Err(OutgoingError::NoMemory), buffer)
    } else {
        match wire::fill(
            Sheet::over(buffer),
            header_pieces(publish, packet_id, remaining_length),
            u32::MAX as int,
        ) {
            (None, sheet) => (Ok(header_size(publish, remaining_length) as usize), sheet.buffer),
            (Some(trouble), sheet) => (Err(trouble_of(trouble)), sheet.buffer),
        }
    }
}

/// The count that stands before the topic.
pub open spec fn topic_count(publish: OutgoingPublish<'_>) -> u16 {
    if publish.topic_name@.len() <= u16::MAX {
        publish.topic_name@.len() as u16
    } else {
        u16::MAX
    }
}

/// The bytes of a PUBLISH up to its topic's count.
pub open spec fn bare_bytes(publish: OutgoingPublish<'_>, remaining_length: u32) -> Seq<u8> {
    writer::fixed_bytes(
        publish_byte(publish),
        remaining_length,
        wire::u16_bytes(topic_count(publish)),
    )
}

// ---------------------------------------------------------------------------
// Size
// ---------------------------------------------------------------------------

/// How large a PUBLISH is.
///
/// # Errors
///
/// [`OutgoingError::BadParameter`] for a topic too long for its count, or a
/// packet past either limit.
pub fn publish_packet_size(publish: &OutgoingPublish<'_>, max_packet_size: u32) -> (size: Result<
    PublishSize,
    OutgoingError,
>)
    ensures
        size == publish_size(*publish, max_packet_size),
{
    if publish.properties.len() > MAX_REMAINING_LENGTH as usize {
        return Err(OutgoingError::BadParameter);
    }
    let property_length: u32 = publish.properties.len() as u32;
    if publish.topic_name.len() > u16::MAX as usize {
        return Err(OutgoingError::BadParameter);
    }
    if publish.payload.len() >= REMAINING_LENGTH_INVALID as usize {
        return Err(OutgoingError::BadParameter);
    }
    let payload_length: u32 = publish.payload.len() as u32;
    let mut remaining_length: u32 = publish.topic_name.len() as u32 + 2;
    if publish.qos != QoS::AtMostOnce {
        remaining_length = remaining_length + 2;
    }
    remaining_length = remaining_length + variable_length_encoded_size(property_length)
        + property_length + payload_length;
    if remaining_length > MAX_REMAINING_LENGTH {
        return Err(OutgoingError::BadParameter);
    }
    let packet_size = header::packet_size_of(remaining_length);
    if packet_size > max_packet_size {
        return Err(OutgoingError::BadParameter);
    }
    Ok(PublishSize { remaining_length, packet_size })
}

// ---------------------------------------------------------------------------
// Writing
// ---------------------------------------------------------------------------

/// The first byte of a PUBLISH.
fn publish_flags(publish: &OutgoingPublish<'_>) -> (byte: u8)
    ensures
        byte == publish_byte(*publish),
{
    let mut flags: u8 = packet::PUBLISH;
    match publish.qos {
        QoS::AtMostOnce => {},
        QoS::AtLeastOnce => flags = flags + 2,
        QoS::ExactlyOnce => flags = flags + 4,
    }
    if publish.retain {
        flags = flags + 1;
    }
    if publish.dup {
        flags = flags + 8;
    }
    flags
}

fn outgoing_error(trouble: Trouble) -> (error: OutgoingError)
    ensures
        error == trouble_of(trouble),
{
    match trouble {
        Trouble::TooLong => OutgoingError::BadParameter,
        Trouble::NoRoom => OutgoingError::NoMemory,
    }
}

/// Writes the type byte and the length.
fn place_front(destination: &mut [u8], publish: &OutgoingPublish<'_>, remaining_length: u32) -> (
next: Result<usize, Trouble>)
    requires
        remaining_length <= MAX_REMAINING_LENGTH,
    ensures
        property::filled(
            old(destination)@,
            0,
            front_pieces(*publish, remaining_length),
            u32::MAX as int,
            next,
            final(destination)@,
        ),
{
    let ghost before = destination@;
    let ghost limit = u32::MAX as int;
    let ghost first = seq![Piece::Bytes(seq![publish_byte(*publish)])];
    let ghost second = seq![Piece::Bytes(wire::length_bytes(remaining_length as nat))];
    let byte = [publish_flags(publish)];
    assert(byte@ =~= seq![publish_byte(*publish)]);
    let at = match place_bytes(destination, 0, &byte) {
        Ok(next) => next,
        Err(trouble) => {
            assert(property::filled(before, 0, first, limit, Err(trouble), destination@));
            proof {
                property::lemma_filled_stops(
                    before,
                    0,
                    first,
                    second,
                    limit,
                    trouble,
                    destination@,
                );
            }
            return Err(trouble);
        },
    };
    let ghost middle = destination@;
    assert(property::filled(before, 0, first, limit, Ok(at), middle));
    let next = place_length(destination, at, remaining_length);
    assert(property::filled(middle, at, second, limit, next, destination@));
    proof {
        property::lemma_filled_parts(
            before,
            0,
            first,
            middle,
            at,
            second,
            limit,
            next,
            destination@,
        );
    }
    next
}

/// Writes the packet identifier, above QoS 0.
fn place_id(destination: &mut [u8], at: usize, publish: &OutgoingPublish<'_>, packet_id: u16) -> (
next: Result<usize, Trouble>)
    requires
        at <= old(destination)@.len(),
    ensures
        property::filled(
            old(destination)@,
            at,
            id_piece(*publish, packet_id),
            u32::MAX as int,
            next,
            final(destination)@,
        ),
{
    if publish.qos != QoS::AtMostOnce {
        let id = wire::split_u16(packet_id);
        let ghost before = destination@;
        let next = place_bytes(destination, at, &id);
        assert(property::filled(
            before,
            at,
            seq![Piece::Bytes(wire::u16_bytes(packet_id))],
            u32::MAX as int,
            next,
            destination@,
        ));
        next
    } else {
        Ok(at)
    }
}

/// Writes everything before the payload.
fn serialize_common(
    destination: &mut [u8],
    publish: &OutgoingPublish<'_>,
    packet_id: u16,
    remaining_length: u32,
) -> (next: Result<usize, Trouble>)
    requires
        remaining_length <= MAX_REMAINING_LENGTH,
    ensures
        property::filled(
            old(destination)@,
            0,
            header_pieces(*publish, packet_id, remaining_length),
            u32::MAX as int,
            next,
            final(destination)@,
        ),
{
    let ghost start = destination@;
    let ghost limit = u32::MAX as int;
    let ghost front = front_pieces(*publish, remaining_length);
    let ghost topic = seq![Piece::Text(publish.topic_name@)];
    let ghost id = id_piece(*publish, packet_id);
    let ghost section = seq![Piece::Section(publish.properties@)];
    let first = place_front(destination, publish, remaining_length);
    let first_at = match first {
        Ok(next) => next,
        Err(trouble) => {
            proof {
                property::lemma_filled_stops(start, 0, front, topic, limit, trouble, destination@);
                property::lemma_filled_stops(
                    start,
                    0,
                    front + topic,
                    id,
                    limit,
                    trouble,
                    destination@,
                );
                property::lemma_filled_stops(
                    start,
                    0,
                    front + topic + id,
                    section,
                    limit,
                    trouble,
                    destination@,
                );
            }
            return Err(trouble);
        },
    };
    let ghost one = destination@;
    let second = place_text(destination, first_at, publish.topic_name);
    proof {
        assert(property::filled(one, first_at, topic, limit, second, destination@));
        property::lemma_filled_parts(
            start,
            0,
            front,
            one,
            first_at,
            topic,
            limit,
            second,
            destination@,
        );
    }
    let second_at = match second {
        Ok(next) => next,
        Err(trouble) => {
            proof {
                property::lemma_filled_stops(
                    start,
                    0,
                    front + topic,
                    id,
                    limit,
                    trouble,
                    destination@,
                );
                property::lemma_filled_stops(
                    start,
                    0,
                    front + topic + id,
                    section,
                    limit,
                    trouble,
                    destination@,
                );
            }
            return Err(trouble);
        },
    };
    let ghost two = destination@;
    let third = place_id(destination, second_at, publish, packet_id);
    proof {
        property::lemma_filled_parts(
            start,
            0,
            front + topic,
            two,
            second_at,
            id,
            limit,
            third,
            destination@,
        );
    }
    let third_at = match third {
        Ok(next) => next,
        Err(trouble) => {
            proof {
                property::lemma_filled_stops(
                    start,
                    0,
                    front + topic + id,
                    section,
                    limit,
                    trouble,
                    destination@,
                );
            }
            return Err(trouble);
        },
    };
    let ghost three = destination@;
    let next = place_section(destination, third_at, publish.properties, u32::MAX);
    proof {
        property::lemma_filled_parts(
            start,
            0,
            front + topic + id,
            three,
            third_at,
            section,
            limit,
            next,
            destination@,
        );
    }
    next
}

/// What the two serializers that write the topic demand of a PUBLISH.
fn validate_strict(publish: &OutgoingPublish<'_>, packet_id: u16, remaining_length: u32) -> (result:
    Result<(), OutgoingError>)
    ensures
        result == (if strict(*publish, packet_id, remaining_length) {
            Ok::<(), OutgoingError>(())
        } else {
            Err(OutgoingError::BadParameter)
        }),
{
    if publish.topic_name.len() == 0 {
        return Err(OutgoingError::BadParameter);
    }
    if publish.topic_name.len() > u16::MAX as usize {
        return Err(OutgoingError::BadParameter);
    }
    if publish.qos != QoS::AtMostOnce && packet_id == 0 {
        return Err(OutgoingError::BadParameter);
    }
    if publish.dup && publish.qos == QoS::AtMostOnce {
        return Err(OutgoingError::BadParameter);
    }
    if remaining_length >= REMAINING_LENGTH_INVALID {
        return Err(OutgoingError::BadParameter);
    }
    Ok(())
}

/// Writes a whole PUBLISH, and returns how many bytes it took.
///
/// # Errors
///
/// [`OutgoingError::BadParameter`] for an empty or over-long topic, a missing
/// packet identifier, DUP at QoS 0, or a length past the limit;
/// [`OutgoingError::NoMemory`] if the destination is too small for the length
/// announced, or for what is written.
pub fn serialize_publish(
    destination: &mut [u8],
    publish: &OutgoingPublish<'_>,
    packet_id: u16,
    remaining_length: u32,
) -> (written: Result<usize, OutgoingError>)
    ensures
        (written, final(destination)@) == publish_written(
            old(destination)@,
            *publish,
            packet_id,
            remaining_length,
        ),
{
    let ghost start = destination@;
    let ghost limit = u32::MAX as int;
    match validate_strict(publish, packet_id, remaining_length) {
        Ok(()) => {},
        Err(error) => return Err(error),
    }
    if publish.properties.len() > MAX_REMAINING_LENGTH as usize {
        return Err(OutgoingError::BadParameter);
    }
    if destination.len() < header::packet_size_of(remaining_length) as usize {
        return Err(OutgoingError::NoMemory);
    }
    let ghost first = header_pieces(*publish, packet_id, remaining_length);
    let ghost second = seq![Piece::Bytes(publish.payload@)];
    let at = match serialize_common(destination, publish, packet_id, remaining_length) {
        Ok(next) => next,
        Err(trouble) => {
            proof {
                property::lemma_filled_stops(
                    start,
                    0,
                    first,
                    second,
                    limit,
                    trouble,
                    destination@,
                );
            }
            return Err(outgoing_error(trouble));
        },
    };
    let ghost middle = destination@;
    let next = place_bytes(destination, at, publish.payload);
    proof {
        assert(property::filled(middle, at, second, limit, next, destination@));
        property::lemma_filled_parts(
            start,
            0,
            first,
            middle,
            at,
            second,
            limit,
            next,
            destination@,
        );
    }
    match next {
        Ok(end) => Ok(end),
        Err(trouble) => Err(outgoing_error(trouble)),
    }
}

/// Writes a PUBLISH without its payload, and returns the size of that part as
/// announced.
///
/// # Errors
///
/// As [`serialize_publish`], for a destination that holds everything but the
/// payload; and [`OutgoingError::BadParameter`] for a payload longer than the
/// body announced.
pub fn serialize_publish_header(
    destination: &mut [u8],
    publish: &OutgoingPublish<'_>,
    packet_id: u16,
    remaining_length: u32,
) -> (written: Result<usize, OutgoingError>)
    ensures
        (written, final(destination)@) == header_written(
            old(destination)@,
            *publish,
            packet_id,
            remaining_length,
        ),
{
    match validate_strict(publish, packet_id, remaining_length) {
        Ok(()) => {},
        Err(error) => return Err(error),
    }
    if (remaining_length as usize) < publish.payload.len() {
        return Err(OutgoingError::BadParameter);
    }
    let header_size: usize = header::packet_size_of(remaining_length) as usize
        - publish.payload.len();
    if destination.len() < header_size {
        return Err(OutgoingError::NoMemory);
    }
    match serialize_common(destination, publish, packet_id, remaining_length) {
        Ok(_) => Ok(header_size),
        Err(trouble) => Err(outgoing_error(trouble)),
    }
}

/// Writes a PUBLISH up to its topic's count, and returns how many bytes that
/// took.
///
/// # Errors
///
/// [`OutgoingError::BadParameter`] for a length past the limit;
/// [`OutgoingError::NoMemory`] if the destination is too small. Either way
/// nothing is written.
pub fn serialize_publish_header_without_topic(
    destination: &mut [u8],
    publish: &OutgoingPublish<'_>,
    remaining_length: u32,
) -> (written: Result<usize, OutgoingError>)
    ensures
        ({
            let bytes = bare_bytes(*publish, remaining_length);
            if remaining_length >= REMAINING_LENGTH_INVALID {
                &&& written == Err::<usize, OutgoingError>(OutgoingError::BadParameter)
                &&& final(destination)@ == old(destination)@
            } else if bytes.len() > old(destination)@.len() {
                &&& written == Err::<usize, OutgoingError>(OutgoingError::NoMemory)
                &&& final(destination)@ == old(destination)@
            } else {
                &&& written == Ok::<usize, OutgoingError>(bytes.len() as usize)
                &&& final(destination)@ == wire::overwrite(old(destination)@, 0, bytes)
            }
        }),
{
    if remaining_length >= REMAINING_LENGTH_INVALID {
        return Err(OutgoingError::BadParameter);
    }
    proof {
        wire::lemma_length_bytes_len(remaining_length as nat);
    }
    let length: u16 = if publish.topic_name.len() <= u16::MAX as usize {
        publish.topic_name.len() as u16
    } else {
        u16::MAX
    };
    let count = wire::split_u16(length);
    let written = writer::write_fixed(destination, publish_flags(publish), remaining_length, &count);
    if written == 0 {
        return Err(OutgoingError::NoMemory);
    }
    Ok(written)
}

/// The first byte of a PUBLISH, with its DUP flag set or cleared.
pub open spec fn with_dup(byte: u8, set: bool) -> u8 {
    if (byte / 8 % 2 == 1) == set {
        byte
    } else if set {
        (byte + 8) as u8
    } else {
        (byte - 8) as u8
    }
}

/// Sets or clears the DUP flag in a PUBLISH that is already serialized.
///
/// # Errors
///
/// [`OutgoingError::BadParameter`], with the byte unchanged, if it is not the
/// first byte of a PUBLISH.
pub fn update_duplicate_flag(header: &mut u8, set: bool) -> (result: Result<(), OutgoingError>)
    ensures
        *old(header) / 16 != packet::PUBLISH / 16 ==> result == Err::<(), OutgoingError>(
            OutgoingError::BadParameter,
        ) && *final(header) == *old(header),
        *old(header) / 16 == packet::PUBLISH / 16 ==> result == Ok::<(), OutgoingError>(())
            && *final(header) == with_dup(*old(header), set),
{
    if *header / 16 != packet::PUBLISH / 16 {
        return Err(OutgoingError::BadParameter);
    }
    let is_set = *header / 8 % 2 == 1;
    if set && !is_set {
        *header = *header + 8;
    } else if !set && is_set {
        *header = *header - 8;
    }
    Ok(())
}

// ---------------------------------------------------------------------------
// Laws
// ---------------------------------------------------------------------------

/// **Law.** Setting DUP and clearing it are inverse, and change nothing else:
/// the byte stays a PUBLISH of the same QoS and RETAIN.
pub proof fn law_dup_is_one_bit(byte: u8, set: bool)
    requires
        byte / 16 == packet::PUBLISH / 16,
    ensures
        (with_dup(byte, set) & (1u8 << publish::flag::DUP) != 0) == set,
        with_dup(byte, set) / 16 == packet::PUBLISH / 16,
        with_dup(byte, set) % 8 == byte % 8,
        with_dup(with_dup(byte, !set), set) == with_dup(byte, set),
        with_dup(byte, byte / 8 % 2 == 1) == byte,
{
    wire::lemma_bits(with_dup(byte, set));
}

/// **Law.** The flags of an outgoing PUBLISH are what an incoming one is read
/// by.
pub proof fn law_publish_byte_round_trip(publish: OutgoingPublish<'_>)
    ensures
        ({
            let byte = publish_byte(publish);
            &&& byte / 16 == packet::PUBLISH / 16
            &&& publish::qos_of(byte) == Some(publish.qos)
            &&& (byte & (1u8 << publish::flag::DUP) != 0) == publish.dup
            &&& (byte & (1u8 << publish::flag::RETAIN) != 0) == publish.retain
            &&& (byte & (1u8 << publish::flag::QOS1) != 0) == (publish.qos == QoS::AtLeastOnce)
            &&& (byte & (1u8 << publish::flag::QOS2) != 0) == (publish.qos == QoS::ExactlyOnce)
            &&& (byte / 8 % 2 == 1) == publish.dup
            &&& (byte % 2 == 1) == publish.retain
        }),
{
    wire::lemma_bits(publish_byte(publish));
}

/// The bytes of a PUBLISH's body before its payload.
pub open spec fn body_front(publish: OutgoingPublish<'_>, packet_id: u16) -> Seq<u8> {
    wire::text_bytes(publish.topic_name@) + (if publish.qos == QoS::AtMostOnce {
        Seq::empty()
    } else {
        wire::u16_bytes(packet_id)
    }) + wire::section_bytes(publish.properties@)
}

/// The bytes of a PUBLISH before its payload.
pub open spec fn header_bytes(
    publish: OutgoingPublish<'_>,
    packet_id: u16,
    remaining_length: u32,
) -> Seq<u8> {
    seq![publish_byte(publish)] + wire::length_bytes(remaining_length as nat) + body_front(
        publish,
        packet_id,
    )
}

/// The pieces of a PUBLISH are its bytes.
proof fn lemma_publish_pieces(publish: OutgoingPublish<'_>, packet_id: u16, remaining_length: u32)
    requires
        publish.topic_name@.len() <= u16::MAX,
        publish.properties@.len() <= MAX_REMAINING_LENGTH,
        remaining_length <= MAX_REMAINING_LENGTH,
    ensures
        wire::joined(header_pieces(publish, packet_id, remaining_length)) == header_bytes(
            publish,
            packet_id,
            remaining_length,
        ),
        wire::joined(publish_pieces(publish, packet_id, remaining_length)) == header_bytes(
            publish,
            packet_id,
            remaining_length,
        ) + publish.payload@,
        wire::all_sayable(
            header_pieces(publish, packet_id, remaining_length),
            MAX_REMAINING_LENGTH as int,
        ),
        wire::all_sayable(
            publish_pieces(publish, packet_id, remaining_length),
            MAX_REMAINING_LENGTH as int,
        ),
        header_bytes(publish, packet_id, remaining_length).len() + publish.payload@.len() == 1
            + wire::length_size(remaining_length as int) + publish_body_size(publish),
{
    let limit = MAX_REMAINING_LENGTH as int;
    let byte = seq![Piece::Bytes(seq![publish_byte(publish)])];
    let length = seq![Piece::Bytes(wire::length_bytes(remaining_length as nat))];
    let front = byte + length;
    let topic = seq![Piece::Text(publish.topic_name@)];
    let id = id_piece(publish, packet_id);
    let section = seq![Piece::Section(publish.properties@)];
    let payload = seq![Piece::Bytes(publish.payload@)];
    wire::lemma_joined_one(byte[0]);
    wire::lemma_joined_one(length[0]);
    wire::lemma_joined_one(topic[0]);
    wire::lemma_joined_one(section[0]);
    wire::lemma_joined_one(payload[0]);
    wire::lemma_joined_one(Piece::Bytes(wire::u16_bytes(packet_id)));
    wire::lemma_joined_parts(byte, length);
    wire::lemma_joined_parts(front, topic);
    wire::lemma_joined_parts(front + topic, id);
    wire::lemma_joined_parts(front + topic + id, section);
    wire::lemma_joined_parts(front + topic + id + section, payload);
    wire::lemma_sayable_parts(byte, length, limit);
    wire::lemma_sayable_parts(front, topic, limit);
    wire::lemma_sayable_parts(front + topic, id, limit);
    wire::lemma_sayable_parts(front + topic + id, section, limit);
    wire::lemma_sayable_parts(front + topic + id + section, payload, limit);
    wire::lemma_length_bytes_len(remaining_length as nat);
    wire::lemma_length_bytes_len(publish.properties@.len());
    assert(wire::joined(header_pieces(publish, packet_id, remaining_length)) =~= header_bytes(
        publish,
        packet_id,
        remaining_length,
    ));
}

/// Pieces that can be said under a limit can be said under a higher one, and
/// are written the same.
proof fn lemma_limit_is_no_matter(sheet: Sheet, pieces: Seq<Piece>, low: int, high: int)
    requires
        wire::all_sayable(pieces, low),
        low <= high,
    ensures
        wire::fill(sheet, pieces, high) == wire::fill(sheet, pieces, low),
    decreases pieces.len(),
{
    if pieces.len() > 0 {
        let rest = pieces.drop_first();
        assert(wire::all_sayable(rest, low)) by {
            assert forall|i: int| 0 <= i < rest.len() implies rest[i] == pieces[i + 1] by {}
        }
        let first = pieces[0];
        assert(wire::put_piece(sheet, first, high) == wire::put_piece(sheet, first, low));
        lemma_limit_is_no_matter(wire::put_piece(sheet, first, low).1, rest, low, high);
    }
}

/// **Law.** The size that is calculated is the size that is written, by each of
/// the serializers that write the topic: a destination large enough is filled
/// with exactly the packet, or with the packet up to its payload.
pub proof fn law_publish_size_is_written(
    buffer: Seq<u8>,
    publish: OutgoingPublish<'_>,
    packet_id: u16,
    max_packet_size: u32,
)
    requires
        buffer.len() <= usize::MAX,
    ensures
        publish_size(publish, max_packet_size) matches Ok(size) ==> {
            let front = header_bytes(publish, packet_id, size.remaining_length);
            let bytes = front + publish.payload@;
            &&& bytes.len() == size.packet_size
            &&& strict(publish, packet_id, size.remaining_length) && bytes.len() <= buffer.len()
                ==> publish_written(buffer, publish, packet_id, size.remaining_length) == (
                Ok::<usize, OutgoingError>(size.packet_size as usize),
                wire::overwrite(buffer, 0, bytes),
            )
            &&& strict(publish, packet_id, size.remaining_length) && front.len() <= buffer.len()
                ==> header_written(buffer, publish, packet_id, size.remaining_length) == (
                Ok::<usize, OutgoingError>(front.len() as usize),
                wire::overwrite(buffer, 0, front),
            )
        },
{
    if let Ok(size) = publish_size(publish, max_packet_size) {
        let low = MAX_REMAINING_LENGTH as int;
        let high = u32::MAX as int;
        let sheet = Sheet::over(buffer);
        let front = header_pieces(publish, packet_id, size.remaining_length);
        let whole = publish_pieces(publish, packet_id, size.remaining_length);
        lemma_publish_pieces(publish, packet_id, size.remaining_length);
        lemma_limit_is_no_matter(sheet, front, low, high);
        lemma_limit_is_no_matter(sheet, whole, low, high);
        if wire::joined(whole).len() <= buffer.len() {
            wire::law_fill_writes_all(sheet, whole, low);
        }
        if wire::joined(front).len() <= buffer.len() {
            wire::law_fill_writes_all(sheet, front, low);
        }
    }
}

/// **Law.** What the three serializers write are prefixes of each other: the
/// part up to the topic's count, then that without the payload, then the whole.
pub proof fn law_serializers_are_prefixes(
    publish: OutgoingPublish<'_>,
    packet_id: u16,
    remaining_length: u32,
)
    requires
        publish.topic_name@.len() <= u16::MAX,
    ensures
        bare_bytes(publish, remaining_length).is_prefix_of(
            header_bytes(publish, packet_id, remaining_length),
        ),
        header_bytes(publish, packet_id, remaining_length).is_prefix_of(
            header_bytes(publish, packet_id, remaining_length) + publish.payload@,
        ),
{
    let bare = bare_bytes(publish, remaining_length);
    let front = header_bytes(publish, packet_id, remaining_length);
    let whole = front + publish.payload@;
    assert(bare =~= front.take(bare.len() as int));
    assert(front =~= whole.take(front.len() as int));
}

/// **Law.** A PUBLISH that is written is read back as it was, by the fixed
/// header and by its body, where its properties are ones that a receiver
/// accepts.
#[verifier::spinoff_prover]
pub proof fn law_publish_round_trip(
    publish: OutgoingPublish<'_>,
    packet_id: u16,
    max_packet_size: u32,
    read_max_packet_size: u32,
    topic_alias_max: u16,
)
    requires
        publish_size(publish, max_packet_size) is Ok,
        strict(
            publish,
            packet_id,
            (publish_size(publish, max_packet_size)->Ok_0).remaining_length,
        ),
        (publish_size(publish, max_packet_size)->Ok_0).packet_size <= read_max_packet_size,
        publish::publish_properties_ok(publish.properties@, topic_alias_max),
    ensures
        ({
            let size = publish_size(publish, max_packet_size)->Ok_0;
            let bytes = header_bytes(publish, packet_id, size.remaining_length) + publish.payload@;
            let head = 1 + wire::length_size(size.remaining_length as int);
            &&& header::header_of(bytes) == Ok::<header::PacketHeader, header::HeaderError>(
                header::PacketHeader {
                    packet_type: publish_byte(publish),
                    remaining_length: size.remaining_length,
                    header_length: head as usize,
                },
            )
            &&& publish::publish_of(
                PacketModel {
                    packet_type: publish_byte(publish),
                    claimed: size.remaining_length,
                    data: bytes.skip(head),
                },
                read_max_packet_size,
                topic_alias_max,
            ) == Ok::<PublishModel, PublishError>(
                PublishModel {
                    qos: publish.qos,
                    dup: publish.dup,
                    retain: publish.retain,
                    packet_id: if publish.qos == QoS::AtMostOnce {
                        None
                    } else {
                        Some(packet_id)
                    },
                    topic_name: publish.topic_name@,
                    properties: publish.properties@,
                    payload: publish.payload@,
                },
            )
        }),
{
    let size = publish_size(publish, max_packet_size)->Ok_0;
    let byte = publish_byte(publish);
    let body = body_front(publish, packet_id) + publish.payload@;
    lemma_publish_shape(publish, packet_id, max_packet_size);
    law_publish_byte_round_trip(publish);
    header::law_header_round_trip(byte, size.remaining_length, body);
    assert(body.subrange(0, size.remaining_length as int) =~= body);
    lemma_body_read(publish, packet_id, byte, topic_alias_max);
}

/// A PUBLISH is its type byte, its length and its body.
proof fn lemma_publish_shape(
    publish: OutgoingPublish<'_>,
    packet_id: u16,
    max_packet_size: u32,
)
    requires
        publish_size(publish, max_packet_size) is Ok,
        strict(
            publish,
            packet_id,
            (publish_size(publish, max_packet_size)->Ok_0).remaining_length,
        ),
    ensures
        ({
            let size = publish_size(publish, max_packet_size)->Ok_0;
            let bytes = header_bytes(publish, packet_id, size.remaining_length) + publish.payload@;
            let body = body_front(publish, packet_id) + publish.payload@;
            let length = wire::length_bytes(size.remaining_length as nat);
            &&& bytes == seq![publish_byte(publish)] + length + body
            &&& bytes.skip(1 + wire::length_size(size.remaining_length as int)) == body
            &&& body.len() == size.remaining_length
        }),
{
    let size = publish_size(publish, max_packet_size)->Ok_0;
    let bytes = header_bytes(publish, packet_id, size.remaining_length) + publish.payload@;
    let body = body_front(publish, packet_id) + publish.payload@;
    let length = wire::length_bytes(size.remaining_length as nat);
    lemma_publish_pieces(publish, packet_id, size.remaining_length);
    wire::lemma_length_bytes_len(size.remaining_length as nat);
    wire::lemma_length_bytes_len(publish.properties@.len());
    assert(bytes =~= seq![publish_byte(publish)] + length + body);
    assert(bytes.skip(1 + wire::length_size(size.remaining_length as int)) =~= body);
}

/// A PUBLISH's body, read back.
proof fn lemma_body_read(
    publish: OutgoingPublish<'_>,
    packet_id: u16,
    byte: u8,
    topic_alias_max: u16,
)
    requires
        publish.topic_name@.len() <= u16::MAX,
        publish.properties@.len() <= MAX_REMAINING_LENGTH,
        publish.qos != QoS::AtMostOnce ==> packet_id != 0,
        publish::publish_properties_ok(publish.properties@, topic_alias_max),
    ensures
        publish::publish_body(
            byte,
            body_front(publish, packet_id) + publish.payload@,
            publish.qos,
            topic_alias_max,
        ) == Some(
            PublishModel {
                qos: publish.qos,
                dup: byte / 8 % 2 == 1,
                retain: byte % 2 == 1,
                packet_id: if publish.qos == QoS::AtMostOnce {
                    None
                } else {
                    Some(packet_id)
                },
                topic_name: publish.topic_name@,
                properties: publish.properties@,
                payload: publish.payload@,
            },
        ),
{
    let topic = publish.topic_name@;
    let tail = publish.properties@ + publish.payload@;
    let after_id = wire::length_bytes(publish.properties@.len()) + tail;
    let after_topic = if publish.qos == QoS::AtMostOnce {
        after_id
    } else {
        wire::u16_bytes(packet_id) + after_id
    };
    lemma_body_split(publish, packet_id);
    assert(wire::take_text(wire::text_bytes(topic) + after_topic) == Some((topic, after_topic)))
        by {
        wire::law_text_round_trip(topic, after_topic);
    }
    assert(publish.qos != QoS::AtMostOnce ==> wire::take_u16(after_topic) == Some(
        (packet_id, after_id),
    )) by {
        wire::law_u16_round_trip(packet_id, after_id);
    }
    assert(wire::take_length(after_id) == Some((publish.properties@.len() as u32, tail))) by {
        wire::law_take_length_round_trip(publish.properties@.len() as u32, tail);
    }
    assert(tail.take(publish.properties@.len() as int) =~= publish.properties@);
    assert(tail.skip(publish.properties@.len() as int) =~= publish.payload@);
}

/// A PUBLISH's body is its topic, its identifier if it has one, its properties
/// with their length, and its payload.
proof fn lemma_body_split(publish: OutgoingPublish<'_>, packet_id: u16)
    ensures
        ({
            let tail = publish.properties@ + publish.payload@;
            let after_id = wire::length_bytes(publish.properties@.len()) + tail;
            let after_topic = if publish.qos == QoS::AtMostOnce {
                after_id
            } else {
                wire::u16_bytes(packet_id) + after_id
            };
            body_front(publish, packet_id) + publish.payload@ == wire::text_bytes(
                publish.topic_name@,
            ) + after_topic
        }),
{
    let tail = publish.properties@ + publish.payload@;
    let after_id = wire::length_bytes(publish.properties@.len()) + tail;
    let body = body_front(publish, packet_id) + publish.payload@;
    if publish.qos == QoS::AtMostOnce {
        assert(body =~= wire::text_bytes(publish.topic_name@) + after_id);
    } else {
        assert(body =~= wire::text_bytes(publish.topic_name@) + (wire::u16_bytes(packet_id)
            + after_id));
    }
}

} // verus!
