//! Outgoing SUBSCRIBE, UNSUBSCRIBE, publish acknowledgements and PINGREQ.

use vstd::prelude::*;

use crate::ack;
use crate::ack::{AckError, AckModel, Limits, PacketModel};
use crate::header;
use crate::header::{
    packet, variable_length_encoded_size, MAX_REMAINING_LENGTH, REMAINING_LENGTH_INVALID,
};
use crate::property;
use crate::property::{place_bytes, place_section, place_text};
use crate::size;
use crate::size::ListPacket;
use crate::state::QoS;
use crate::wire;
use crate::wire::{Piece, Sheet, Trouble};
use crate::writer;
use crate::writer::{serialize_subscribe_header, serialize_unsubscribe_header};

pub mod option;

verus! {

/// The body of an acknowledgement that says nothing but "received".
pub const SIMPLE_ACK_REMAINING_LENGTH: u8 = 2;

/// Such an acknowledgement, whole.
pub const PUBLISH_ACK_PACKET_SIZE: usize = 4;

/// When the broker sends the messages it has kept for a topic.
#[derive(Debug, Clone, Copy, PartialEq, Eq, Structural)]
pub enum RetainHandling {
    /// At every subscription.
    OnSubscribe,
    /// At a subscription that did not exist before.
    OnSubscribeIfNew,
    /// Never.
    Never,
}

impl Default for RetainHandling {
    fn default() -> (handling: Self)
        ensures
            handling == RetainHandling::OnSubscribe,
    {
        RetainHandling::OnSubscribe
    }
}

/// One topic filter to subscribe to, or to unsubscribe from.
#[derive(Debug, Clone, Copy)]
pub struct Subscription<'a> {
    /// The topic filter.
    pub topic_filter: &'a [u8],
    /// The largest QoS to receive messages with.
    pub qos: QoS,
    /// Do not send this client its own messages.
    pub no_local: bool,
    /// Keep the RETAIN flag that a message was published with.
    pub retain_as_published: bool,
    /// When the broker sends the messages it has kept.
    pub retain_handling: RetainHandling,
}

/// Why an outgoing packet was refused.
#[derive(Debug, Clone, Copy, PartialEq, Eq, Structural)]
pub enum OutboundError {
    /// The call was wrong, or a length is past its limit.
    BadParameter,
    /// The destination is too small.
    NoMemory,
}

// ---------------------------------------------------------------------------
// What is written
// ---------------------------------------------------------------------------

/// Retain handling as a number.
pub open spec fn handling_number(handling: RetainHandling) -> int {
    match handling {
        RetainHandling::OnSubscribe => 0,
        RetainHandling::OnSubscribeIfNew => 1,
        RetainHandling::Never => 2,
    }
}

/// The options byte of a subscription.
pub open spec fn options_byte(subscription: Subscription<'_>) -> u8 {
    (writer::qos_number(subscription.qos) + writer::weighed(subscription.no_local, 4)
        + writer::weighed(subscription.retain_as_published, 8) + 16 * handling_number(
        subscription.retain_handling,
    )) as u8
}

/// The pieces of one filter: in a SUBSCRIBE its options follow it.
pub open spec fn filter_piece(kind: ListPacket, subscription: Subscription<'_>) -> Seq<Piece> {
    seq![Piece::Text(subscription.topic_filter@)] + (if kind == ListPacket::Subscribe {
        seq![Piece::Bytes(seq![options_byte(subscription)])]
    } else {
        Seq::empty()
    })
}

/// The pieces of a list of filters.
pub open spec fn filter_pieces(kind: ListPacket, subscriptions: Seq<Subscription<'_>>) -> Seq<Piece>
    decreases subscriptions.len(),
{
    if subscriptions.len() == 0 {
        Seq::empty()
    } else {
        filter_pieces(kind, subscriptions.drop_last()) + filter_piece(kind, subscriptions.last())
    }
}

/// The type of a packet that carries a list of filters.
pub open spec fn list_type(kind: ListPacket) -> u8 {
    match kind {
        ListPacket::Subscribe => packet::SUBSCRIBE,
        ListPacket::Unsubscribe => packet::UNSUBSCRIBE,
    }
}

/// The pieces before the filters: the fixed part, and the properties.
pub open spec fn list_front(
    kind: ListPacket,
    properties: Seq<u8>,
    packet_id: u16,
    remaining_length: u32,
) -> Seq<Piece> {
    seq![
        Piece::Bytes(
            writer::fixed_bytes(list_type(kind), remaining_length, wire::u16_bytes(packet_id)),
        ),
    ] + seq![Piece::Section(properties)]
}

/// A filter that may be sent: not empty, and no longer than its count can say.
pub open spec fn filter_ok(subscription: Subscription<'_>) -> bool {
    0 < subscription.topic_filter@.len() <= u16::MAX
}

/// Writing a SUBSCRIBE or an UNSUBSCRIBE over a buffer: the size announced, or
/// why not, and the buffer after. The filters are looked at after the buffer's
/// size, and before anything is written.
pub open spec fn list_written(
    kind: ListPacket,
    buffer: Seq<u8>,
    subscriptions: Seq<Subscription<'_>>,
    properties: Seq<u8>,
    packet_id: u16,
    remaining_length: u32,
) -> (Result<usize, OutboundError>, Seq<u8>) {
    if properties.len() >= REMAINING_LENGTH_INVALID || subscriptions.len() == 0 || packet_id == 0
        || remaining_length >= REMAINING_LENGTH_INVALID {
        (Err(OutboundError::BadParameter), buffer)
    } else if buffer.len() < header::whole_packet(remaining_length as int) {
        (Err(OutboundError::NoMemory), buffer)
    } else if exists|i: int| 0 <= i < subscriptions.len() && !filter_ok(#[trigger] subscriptions[i]) {
        (Err(OutboundError::BadParameter), buffer)
    } else {
        match wire::fill(
            Sheet::over(buffer),
            list_front(kind, properties, packet_id, remaining_length) + filter_pieces(
                kind,
                subscriptions,
            ),
            MAX_REMAINING_LENGTH as int,
        ) {
            (None, sheet) => (
                Ok(header::whole_packet(remaining_length as int) as usize),
                sheet.buffer,
            ),
            (Some(_), sheet) => (Err(OutboundError::NoMemory), sheet.buffer),
        }
    }
}

/// The four publish acknowledgements.
pub open spec fn is_publish_ack(packet_type: u8) -> bool {
    packet_type == packet::PUBACK || packet_type == packet::PUBREC || packet_type == ack::PUBREL
        || packet_type == packet::PUBCOMP
}

/// The reason codes that may be sent in each publish acknowledgement.
pub open spec fn ack_code_allowed(packet_type: u8, reason_code: u8) -> bool {
    if packet_type == packet::PUBACK || packet_type == packet::PUBREC {
        reason_code == 0x00 || reason_code == 0x10 || reason_code == 0x80 || reason_code == 0x83
            || reason_code == 0x87 || reason_code == 0x90 || reason_code == 0x91 || reason_code
            == 0x97 || reason_code == 0x99
    } else if packet_type == ack::PUBREL || packet_type == packet::PUBCOMP {
        reason_code == 0x00 || reason_code == 0x92
    } else {
        false
    }
}

/// The bytes of a publish acknowledgement without a reason code.
pub open spec fn simple_ack_bytes(packet_type: u8, packet_id: u16) -> Seq<u8> {
    seq![packet_type, SIMPLE_ACK_REMAINING_LENGTH] + wire::u16_bytes(packet_id)
}

/// The bytes of a publish acknowledgement with a reason code.
pub open spec fn full_ack_bytes(
    packet_type: u8,
    packet_id: u16,
    reason_code: u8,
    properties: Seq<u8>,
) -> Seq<u8> {
    writer::fixed_bytes(
        packet_type,
        size::ack_body_size(properties.len() as int) as u32,
        wire::u16_bytes(packet_id).push(reason_code),
    ) + wire::section_bytes(properties)
}

/// Writing a publish acknowledgement over a buffer: its size, or why not, and
/// the buffer after. The type byte is written before it is known whether an
/// acknowledgement with a reason code fits, and stays if it does not.
pub open spec fn ack_written(
    buffer: Seq<u8>,
    packet_type: u8,
    packet_id: u16,
    reason_code: Option<u8>,
    properties: Seq<u8>,
) -> (Result<usize, OutboundError>, Seq<u8>) {
    let body = size::ack_body_size(properties.len() as int);
    if buffer.len() < PUBLISH_ACK_PACKET_SIZE {
        (Err(OutboundError::NoMemory), buffer)
    } else if packet_id == 0 || properties.len() >= REMAINING_LENGTH_INVALID {
        (Err(OutboundError::BadParameter), buffer)
    } else {
        match reason_code {
            None => if properties.len() != 0 || !is_publish_ack(packet_type) {
                (Err(OutboundError::BadParameter), buffer)
            } else {
                (Ok(4), wire::overwrite(buffer, 0, simple_ack_bytes(packet_type, packet_id)))
            },
            Some(code) => if !ack_code_allowed(packet_type, code) {
                (Err(OutboundError::BadParameter), buffer)
            } else if body > MAX_REMAINING_LENGTH || buffer.len() < header::whole_packet(body) {
                (Err(OutboundError::BadParameter), buffer.update(0, packet_type))
            } else {
                (
                    Ok(header::whole_packet(body) as usize),
                    wire::overwrite(
                        buffer,
                        0,
                        full_ack_bytes(packet_type, packet_id, code, properties),
                    ),
                )
            },
        }
    }
}

// ---------------------------------------------------------------------------
// SUBSCRIBE and UNSUBSCRIBE
// ---------------------------------------------------------------------------

/// Checks everything but the properties, and returns the packet's size.
fn validate_list(
    subscriptions: &[Subscription<'_>],
    packet_id: u16,
    remaining_length: u32,
    destination: &[u8],
) -> (size: Result<usize, OutboundError>)
    ensures
        size == (if subscriptions@.len() == 0 || packet_id == 0 || remaining_length
            >= REMAINING_LENGTH_INVALID {
            Err::<usize, OutboundError>(OutboundError::BadParameter)
        } else if destination@.len() < header::whole_packet(remaining_length as int) {
            Err(OutboundError::NoMemory)
        } else if exists|i: int|
            0 <= i < subscriptions@.len() && !filter_ok(#[trigger] subscriptions@[i]) {
            Err(OutboundError::BadParameter)
        } else {
            Ok(header::whole_packet(remaining_length as int) as usize)
        }),
{
    if subscriptions.len() == 0 {
        return Err(OutboundError::BadParameter);
    }
    if packet_id == 0 {
        return Err(OutboundError::BadParameter);
    }
    if remaining_length >= REMAINING_LENGTH_INVALID {
        return Err(OutboundError::BadParameter);
    }
    let packet_size: usize = header::packet_size_of(remaining_length) as usize;
    if destination.len() < packet_size {
        return Err(OutboundError::NoMemory);
    }
    let mut index: usize = 0;
    while index < subscriptions.len()
        invariant
            index <= subscriptions@.len(),
            subscriptions@.len() > 0,
            packet_id != 0,
            remaining_length < REMAINING_LENGTH_INVALID,
            packet_size == header::whole_packet(remaining_length as int),
            packet_size <= destination@.len(),
            forall|i: int| 0 <= i < index ==> filter_ok(#[trigger] subscriptions@[i]),
        decreases subscriptions@.len() - index,
    {
        let length: usize = subscriptions[index].topic_filter.len();
        if length == 0 || length > u16::MAX as usize {
            assert(!filter_ok(subscriptions@[index as int]));
            return Err(OutboundError::BadParameter);
        }
        index += 1;
    }
    Ok(packet_size)
}

/// The options byte of a subscription.
#[must_use]
pub fn subscription_options(subscription: &Subscription<'_>) -> (options: u8)
    ensures
        options == options_byte(*subscription),
{
    let mut options: u8 = match subscription.qos {
        QoS::AtMostOnce => 0,
        QoS::AtLeastOnce => 1,
        QoS::ExactlyOnce => 2,
    };
    if subscription.no_local {
        options = options + 4;
    }
    if subscription.retain_as_published {
        options = options + 8;
    }
    match subscription.retain_handling {
        RetainHandling::OnSubscribe => {},
        RetainHandling::OnSubscribeIfNew => options = options + 16,
        RetainHandling::Never => options = options + 32,
    }
    options
}

/// Writes a SUBSCRIBE, and returns its size as announced.
///
/// # Errors
///
/// [`OutboundError::BadParameter`] for an empty list, an empty or over-long
/// filter, a zero packet identifier, or a length past the limit;
/// [`OutboundError::NoMemory`] if the destination is too small for the length
/// announced, or for what is written.
pub fn serialize_subscribe(
    destination: &mut [u8],
    subscriptions: &[Subscription<'_>],
    properties: &[u8],
    packet_id: u16,
    remaining_length: u32,
) -> (written: Result<usize, OutboundError>)
    ensures
        (written, final(destination)@) == list_written(
            ListPacket::Subscribe,
            old(destination)@,
            subscriptions@,
            properties@,
            packet_id,
            remaining_length,
        ),
{
    serialize_list(
        ListPacket::Subscribe,
        destination,
        subscriptions,
        properties,
        packet_id,
        remaining_length,
    )
}

/// Writes an UNSUBSCRIBE, and returns its size as announced.
///
/// # Errors
///
/// As [`serialize_subscribe`].
pub fn serialize_unsubscribe(
    destination: &mut [u8],
    subscriptions: &[Subscription<'_>],
    properties: &[u8],
    packet_id: u16,
    remaining_length: u32,
) -> (written: Result<usize, OutboundError>)
    ensures
        (written, final(destination)@) == list_written(
            ListPacket::Unsubscribe,
            old(destination)@,
            subscriptions@,
            properties@,
            packet_id,
            remaining_length,
        ),
{
    serialize_list(
        ListPacket::Unsubscribe,
        destination,
        subscriptions,
        properties,
        packet_id,
        remaining_length,
    )
}

/// Writes the fixed part and the properties.
fn place_list_front(
    kind: ListPacket,
    destination: &mut [u8],
    properties: &[u8],
    packet_id: u16,
    remaining_length: u32,
) -> (next: Result<usize, Trouble>)
    requires
        remaining_length <= MAX_REMAINING_LENGTH,
    ensures
        property::filled(
            old(destination)@,
            0,
            list_front(kind, properties@, packet_id, remaining_length),
            MAX_REMAINING_LENGTH as int,
            next,
            final(destination)@,
        ),
{
    let ghost before = destination@;
    let ghost limit = MAX_REMAINING_LENGTH as int;
    let ghost bytes = writer::fixed_bytes(
        list_type(kind),
        remaining_length,
        wire::u16_bytes(packet_id),
    );
    let ghost first = seq![Piece::Bytes(bytes)];
    let ghost second = seq![Piece::Section(properties@)];
    proof {
        wire::lemma_fill_one(Sheet::over(before), Piece::Bytes(bytes), limit);
        writer::law_fixed_whole_or_nothing(
            before,
            list_type(kind),
            remaining_length,
            wire::u16_bytes(packet_id),
        );
    }
    let at = match kind {
        ListPacket::Subscribe => serialize_subscribe_header(
            destination,
            remaining_length,
            packet_id,
        ),
        ListPacket::Unsubscribe => serialize_unsubscribe_header(
            destination,
            remaining_length,
            packet_id,
        ),
    };
    if at == 0 {
        proof {
            property::lemma_filled_stops(
                before,
                0,
                first,
                second,
                limit,
                Trouble::NoRoom,
                destination@,
            );
        }
        return Err(Trouble::NoRoom);
    }
    let ghost middle = destination@;
    assert(property::filled(before, 0, first, limit, Ok(at), middle));
    let next = place_section(destination, at, properties, MAX_REMAINING_LENGTH);
    proof {
        property::lemma_filled_parts(
            before,
            0,
            first,
            middle,
            at,
            second,
            limit,
            next,
            destination@,
        );
    }
    next
}

/// Writes one filter, and in a SUBSCRIBE its options.
fn place_filter(
    kind: ListPacket,
    destination: &mut [u8],
    at: usize,
    subscription: &Subscription<'_>,
) -> (next: Result<usize, Trouble>)
    requires
        at <= old(destination)@.len(),
    ensures
        property::filled(
            old(destination)@,
            at,
            filter_piece(kind, *subscription),
            MAX_REMAINING_LENGTH as int,
            next,
            final(destination)@,
        ),
{
    let ghost before = destination@;
    let ghost limit = MAX_REMAINING_LENGTH as int;
    let ghost first = seq![Piece::Text(subscription.topic_filter@)];
    let text = place_text(destination, at, subscription.topic_filter);
    assert(property::filled(before, at, first, limit, text, destination@));
    if kind == ListPacket::Unsubscribe {
        assert(filter_piece(kind, *subscription) =~= first);
        return text;
    }
    let ghost second = seq![Piece::Bytes(seq![options_byte(*subscription)])];
    let options_at = match text {
        Ok(next) => next,
        Err(trouble) => {
            proof {
                property::lemma_filled_stops(
                    before,
                    at,
                    first,
                    second,
                    limit,
                    trouble,
                    destination@,
                );
            }
            return Err(trouble);
        },
    };
    let ghost middle = destination@;
    let options = [subscription_options(subscription)];
    assert(options@ =~= seq![options_byte(*subscription)]);
    let next = place_bytes(destination, options_at, &options);
    proof {
        assert(property::filled(middle, options_at, second, limit, next, destination@));
        property::lemma_filled_parts(
            before,
            at,
            first,
            middle,
            options_at,
            second,
            limit,
            next,
            destination@,
        );
    }
    next
}

/// A list that cannot be written to the end cannot be written.
proof fn lemma_list_stops(
    kind: ListPacket,
    before: Seq<u8>,
    front: Seq<Piece>,
    subscriptions: Seq<Subscription<'_>>,
    n: int,
    trouble: Trouble,
    after: Seq<u8>,
)
    requires
        0 <= n <= subscriptions.len(),
        property::filled(
            before,
            0,
            front + filter_pieces(kind, subscriptions.take(n)),
            MAX_REMAINING_LENGTH as int,
            Err(trouble),
            after,
        ),
    ensures
        property::filled(
            before,
            0,
            front + filter_pieces(kind, subscriptions),
            MAX_REMAINING_LENGTH as int,
            Err(trouble),
            after,
        ),
    decreases subscriptions.len() - n,
{
    if n == subscriptions.len() {
        assert(subscriptions.take(n) =~= subscriptions);
    } else {
        let some = filter_pieces(kind, subscriptions.take(n));
        let next = filter_piece(kind, subscriptions[n]);
        assert(subscriptions.take(n + 1).drop_last() =~= subscriptions.take(n));
        assert(front + (some + next) =~= front + some + next);
        property::lemma_filled_stops(
            before,
            0,
            front + some,
            next,
            MAX_REMAINING_LENGTH as int,
            trouble,
            after,
        );
        lemma_list_stops(kind, before, front, subscriptions, n + 1, trouble, after);
    }
}

/// Writes a SUBSCRIBE or an UNSUBSCRIBE.
fn serialize_list(
    kind: ListPacket,
    destination: &mut [u8],
    subscriptions: &[Subscription<'_>],
    properties: &[u8],
    packet_id: u16,
    remaining_length: u32,
) -> (written: Result<usize, OutboundError>)
    ensures
        (written, final(destination)@) == list_written(
            kind,
            old(destination)@,
            subscriptions@,
            properties@,
            packet_id,
            remaining_length,
        ),
{
    let ghost start = destination@;
    let ghost limit = MAX_REMAINING_LENGTH as int;
    match section_length(properties) {
        Ok(_) => {},
        Err(error) => return Err(error),
    }
    let packet_size = match validate_list(subscriptions, packet_id, remaining_length, destination) {
        Ok(size) => size,
        Err(error) => return Err(error),
    };
    let ghost front = list_front(kind, properties@, packet_id, remaining_length);
    assert(subscriptions@.take(0) =~= Seq::empty());
    assert(front + Seq::<Piece>::empty() =~= front);
    let mut at = match place_list_front(
        kind,
        destination,
        properties,
        packet_id,
        remaining_length,
    ) {
        Ok(next) => next,
        Err(trouble) => {
            proof {
                lemma_list_stops(kind, start, front, subscriptions@, 0, trouble, destination@);
            }
            return Err(OutboundError::NoMemory);
        },
    };
    let mut index: usize = 0;
    while index < subscriptions.len()
        invariant
            index <= subscriptions@.len(),
            start == old(destination)@,
            limit == MAX_REMAINING_LENGTH as int,
            at <= destination@.len(),
            property::filled(
                start,
                0,
                front + filter_pieces(kind, subscriptions@.take(index as int)),
                limit,
                Ok(at),
                destination@,
            ),
            front == list_front(kind, properties@, packet_id, remaining_length),
            packet_size == header::whole_packet(remaining_length as int),
            packet_size <= start.len(),
            properties@.len() < REMAINING_LENGTH_INVALID,
            subscriptions@.len() > 0,
            packet_id != 0,
            remaining_length < REMAINING_LENGTH_INVALID,
            forall|i: int|
                0 <= i < subscriptions@.len() ==> filter_ok(#[trigger] subscriptions@[i]),
        decreases subscriptions@.len() - index,
    {
        let ghost some = filter_pieces(kind, subscriptions@.take(index as int));
        let ghost one = filter_piece(kind, subscriptions@[index as int]);
        let ghost before = destination@;
        let next = place_filter(kind, destination, at, &subscriptions[index]);
        proof {
            assert(subscriptions@.take(index + 1).drop_last() =~= subscriptions@.take(
                index as int,
            ));
            assert(front + (some + one) =~= front + some + one);
            property::lemma_filled_parts(
                start,
                0,
                front + some,
                before,
                at,
                one,
                limit,
                next,
                destination@,
            );
        }
        match next {
            Ok(position) => {
                at = position;
            },
            Err(trouble) => {
                proof {
                    lemma_list_stops(
                        kind,
                        start,
                        front,
                        subscriptions@,
                        index + 1,
                        trouble,
                        destination@,
                    );
                }
                return Err(OutboundError::NoMemory);
            },
        }
        index += 1;
    }
    assert(subscriptions@.take(index as int) =~= subscriptions@);
    Ok(packet_size)
}

/// The length of a property section, if it may be sent.
fn section_length(properties: &[u8]) -> (length: Result<u32, OutboundError>)
    ensures
        length == (if properties@.len() >= REMAINING_LENGTH_INVALID {
            Err::<u32, OutboundError>(OutboundError::BadParameter)
        } else {
            Ok(properties@.len() as u32)
        }),
{
    if properties.len() >= REMAINING_LENGTH_INVALID as usize {
        return Err(OutboundError::BadParameter);
    }
    Ok(properties.len() as u32)
}

// ---------------------------------------------------------------------------
// Publish acknowledgements
// ---------------------------------------------------------------------------

/// May this reason code be sent in this publish acknowledgement?
#[must_use]
pub fn ack_reason_code_allowed(packet_type: u8, reason_code: u8) -> (allowed: bool)
    ensures
        allowed == ack_code_allowed(packet_type, reason_code),
{
    match packet_type {
        packet::PUBACK | packet::PUBREC => match reason_code {
            0x00 | 0x10 | 0x80 | 0x83 | 0x87 | 0x90 | 0x91 | 0x97 | 0x99 => true,
            _ => false,
        },
        ack::PUBREL | packet::PUBCOMP => match reason_code {
            0x00 | 0x92 => true,
            _ => false,
        },
        _ => false,
    }
}

/// Writes a publish acknowledgement, and returns how many bytes it took.
///
/// Without a reason code it is four bytes, and may have no properties. With one
/// it has a property section, if only an empty one.
///
/// # Errors
///
/// [`OutboundError::NoMemory`] for a destination under four bytes;
/// [`OutboundError::BadParameter`] for a zero packet identifier, properties
/// without a reason code, a reason code that this acknowledgement may not
/// carry, a packet that is none, a length past the limit, or a destination that
/// is too small for an acknowledgement with a reason code.
pub fn serialize_ack(
    destination: &mut [u8],
    packet_type: u8,
    packet_id: u16,
    reason_code: Option<u8>,
    properties: &[u8],
) -> (written: Result<usize, OutboundError>)
    ensures
        (written, final(destination)@) == ack_written(
            old(destination)@,
            packet_type,
            packet_id,
            reason_code,
            properties@,
        ),
{
    let ghost before = destination@;
    if destination.len() < PUBLISH_ACK_PACKET_SIZE {
        return Err(OutboundError::NoMemory);
    }
    if packet_id == 0 {
        return Err(OutboundError::BadParameter);
    }
    if reason_code.is_none() && properties.len() != 0 {
        return Err(OutboundError::BadParameter);
    }
    match reason_code {
        Some(code) => {
            if !ack_reason_code_allowed(packet_type, code) {
                return Err(OutboundError::BadParameter);
            }
        },
        None => {
            if packet_type != packet::PUBACK && packet_type != packet::PUBREC && packet_type
                != ack::PUBREL && packet_type != packet::PUBCOMP {
                return Err(OutboundError::BadParameter);
            }
        },
    }
    let property_length = match section_length(properties) {
        Ok(length) => length,
        Err(error) => return Err(error),
    };
    let id = wire::split_u16(packet_id);
    let code = match reason_code {
        Some(code) => code,
        None => {
            let bytes = [packet_type, SIMPLE_ACK_REMAINING_LENGTH, id[0], id[1]];
            assert(bytes@ =~= simple_ack_bytes(packet_type, packet_id));
            let _ = wire::write_at(destination, 0, &bytes);
            return Ok(4);
        },
    };
    destination[0] = packet_type;
    let remaining_length: u32 = 3 + variable_length_encoded_size(property_length) + property_length;
    if remaining_length > MAX_REMAINING_LENGTH {
        return Err(OutboundError::BadParameter);
    }
    let packet_size: usize = header::packet_size_of(remaining_length) as usize;
    if destination.len() < packet_size {
        return Err(OutboundError::BadParameter);
    }
    proof {
        wire::lemma_length_bytes_len(remaining_length as nat);
        wire::lemma_length_bytes_len(properties@.len());
    }
    let ghost fixed = writer::fixed_bytes(
        packet_type,
        remaining_length,
        wire::u16_bytes(packet_id).push(code),
    );
    let ghost middle = destination@;
    let at = writer::serialize_ack_fixed(
        destination,
        packet_type,
        packet_id,
        remaining_length,
        code,
    );
    proof {
        let sheet = Sheet::over(middle);
        wire::lemma_put_section(sheet.put(fixed), properties@);
        wire::lemma_puts_join(sheet, fixed, wire::section_bytes(properties@));
    }
    let _ = property::put_section(destination, at, properties);
    assert(destination@ =~= wire::overwrite(
        before,
        0,
        full_ack_bytes(packet_type, packet_id, code, properties@),
    ));
    Ok(packet_size)
}

/// Writes a PINGREQ, and returns how many bytes it took.
///
/// # Errors
///
/// [`OutboundError::NoMemory`], with nothing written, if the destination is
/// under two bytes.
pub fn serialize_pingreq(destination: &mut [u8]) -> (written: Result<usize, OutboundError>)
    ensures
        old(destination)@.len() < 2 ==> written == Err::<usize, OutboundError>(
            OutboundError::NoMemory,
        ) && final(destination)@ == old(destination)@,
        old(destination)@.len() >= 2 ==> written == Ok::<usize, OutboundError>(2) && final(
            destination)@ == wire::overwrite(
            old(destination)@,
            0,
            seq![packet::PINGREQ, 0x00u8],
        ),
{
    let bytes = writer::PINGREQ;
    assert(bytes@ =~= seq![packet::PINGREQ, 0x00u8]);
    if !wire::write_at(destination, 0, &bytes) {
        return Err(OutboundError::NoMemory);
    }
    Ok(2)
}

// ---------------------------------------------------------------------------
// Laws
// ---------------------------------------------------------------------------

/// **Law.** The options byte packs five decisions into six bits, each into its
/// own, and leaves the top two clear.
pub proof fn law_options_byte(subscription: Subscription<'_>)
    ensures
        ({
            let byte = options_byte(subscription);
            &&& byte < 64
            &&& (byte & (1u8 << option::QOS1) != 0) == (subscription.qos == QoS::AtLeastOnce)
            &&& (byte & (1u8 << option::QOS2) != 0) == (subscription.qos == QoS::ExactlyOnce)
            &&& (byte & (1u8 << option::NO_LOCAL) != 0) == subscription.no_local
            &&& (byte & (1u8 << option::RETAIN_AS_PUBLISHED) != 0)
                == subscription.retain_as_published
            &&& (byte & (1u8 << option::RETAIN_HANDLING1) != 0) == (subscription.retain_handling
                == RetainHandling::OnSubscribeIfNew)
            &&& (byte & (1u8 << option::RETAIN_HANDLING2) != 0) == (subscription.retain_handling
                == RetainHandling::Never)
        }),
{
    wire::lemma_bits(options_byte(subscription));
}

/// **Law.** Two subscriptions have the same options byte only if they agree in
/// all five decisions.
pub proof fn law_options_tell_apart(one: Subscription<'_>, other: Subscription<'_>)
    requires
        options_byte(one) == options_byte(other),
    ensures
        one.qos == other.qos,
        one.no_local == other.no_local,
        one.retain_as_published == other.retain_as_published,
        one.retain_handling == other.retain_handling,
{
    law_options_byte(one);
    law_options_byte(other);
}

/// The lengths of the filters in a list.
pub open spec fn filter_lengths(subscriptions: Seq<Subscription<'_>>) -> Seq<usize> {
    Seq::new(subscriptions.len(), |i: int| subscriptions[i].topic_filter@.len() as usize)
}

/// A list of filters takes what its size says.
proof fn lemma_filter_pieces(kind: ListPacket, subscriptions: Seq<Subscription<'_>>)
    requires
        forall|i: int| 0 <= i < subscriptions.len() ==> filter_ok(#[trigger] subscriptions[i]),
    ensures
        wire::joined(filter_pieces(kind, subscriptions)).len() == size::filters_size(
            kind,
            filter_lengths(subscriptions),
        ),
        wire::all_sayable(filter_pieces(kind, subscriptions), MAX_REMAINING_LENGTH as int),
    decreases subscriptions.len(),
{
    if subscriptions.len() > 0 {
        let shorter = subscriptions.drop_last();
        let last = subscriptions.last();
        let limit = MAX_REMAINING_LENGTH as int;
        assert(filter_ok(subscriptions[subscriptions.len() - 1]));
        assert forall|i: int| 0 <= i < shorter.len() implies filter_ok(#[trigger] shorter[i]) by {
            assert(shorter[i] == subscriptions[i]);
        }
        lemma_filter_pieces(kind, shorter);
        assert(filter_lengths(subscriptions).drop_last() =~= filter_lengths(shorter));
        let text = seq![Piece::Text(last.topic_filter@)];
        let options = seq![Piece::Bytes(seq![options_byte(last)])];
        wire::lemma_joined_one(text[0]);
        wire::lemma_joined_one(options[0]);
        wire::lemma_joined_parts(text, options);
        wire::lemma_joined_parts(text, Seq::empty());
        wire::lemma_joined_parts(filter_pieces(kind, shorter), filter_piece(kind, last));
        assert(wire::all_sayable(filter_piece(kind, last), limit));
        wire::lemma_sayable_parts(filter_pieces(kind, shorter), filter_piece(kind, last), limit);
    }
}

/// The bytes of a SUBSCRIBE or an UNSUBSCRIBE.
pub open spec fn list_bytes(
    kind: ListPacket,
    subscriptions: Seq<Subscription<'_>>,
    properties: Seq<u8>,
    packet_id: u16,
    remaining_length: u32,
) -> Seq<u8> {
    writer::fixed_bytes(list_type(kind), remaining_length, wire::u16_bytes(packet_id))
        + wire::section_bytes(properties) + wire::joined(filter_pieces(kind, subscriptions))
}

/// **Law.** The size that is calculated is the size that is written: a
/// destination of that many bytes or more is filled with exactly those.
pub proof fn law_list_size_is_written(
    kind: ListPacket,
    buffer: Seq<u8>,
    subscriptions: Seq<Subscription<'_>>,
    properties: Seq<u8>,
    packet_id: u16,
    max_packet_size: u32,
)
    requires
        packet_id != 0,
        properties.len() <= MAX_REMAINING_LENGTH,
        forall|i: int| 0 <= i < subscriptions.len() ==> filter_ok(#[trigger] subscriptions[i]),
    ensures
        size::list_size(
            kind,
            filter_lengths(subscriptions),
            properties.len() as u32,
            max_packet_size,
        ) matches Ok(size) ==> {
            let bytes = list_bytes(
                kind,
                subscriptions,
                properties,
                packet_id,
                size.remaining_length,
            );
            &&& bytes.len() == size.packet_size
            &&& bytes.len() <= buffer.len() ==> list_written(
                kind,
                buffer,
                subscriptions,
                properties,
                packet_id,
                size.remaining_length,
            ) == (
                Ok::<usize, OutboundError>(size.packet_size as usize),
                wire::overwrite(buffer, 0, bytes),
            )
        },
{
    let lengths = filter_lengths(subscriptions);
    if let Ok(size) = size::list_size(kind, lengths, properties.len() as u32, max_packet_size) {
        let limit = MAX_REMAINING_LENGTH as int;
        let filters = filter_pieces(kind, subscriptions);
        let fixed = writer::fixed_bytes(
            list_type(kind),
            size.remaining_length,
            wire::u16_bytes(packet_id),
        );
        let first = seq![Piece::Bytes(fixed)];
        let second = seq![Piece::Section(properties)];
        lemma_filter_pieces(kind, subscriptions);
        wire::lemma_length_bytes_len(size.remaining_length as nat);
        wire::lemma_length_bytes_len(properties.len());
        wire::lemma_joined_one(first[0]);
        wire::lemma_joined_one(second[0]);
        wire::lemma_joined_parts(first, second);
        wire::lemma_joined_parts(first + second, filters);
        wire::lemma_sayable_parts(first, second, limit);
        wire::lemma_sayable_parts(first + second, filters, limit);
        if wire::joined(first + second + filters).len() <= buffer.len() {
            wire::law_fill_writes_all(Sheet::over(buffer), first + second + filters, limit);
        }
    }
}

/// **Law.** The size that is calculated for an acknowledgement with a reason
/// code is the size that is written.
pub proof fn law_ack_size_is_written(
    buffer: Seq<u8>,
    packet_type: u8,
    packet_id: u16,
    reason_code: u8,
    properties: Seq<u8>,
    max_packet_size: u32,
)
    requires
        packet_id != 0,
        ack_code_allowed(packet_type, reason_code),
        properties.len() <= MAX_REMAINING_LENGTH,
    ensures
        size::sized(size::ack_body_size(properties.len() as int), max_packet_size) matches Ok(size)
            ==> {
            let bytes = full_ack_bytes(packet_type, packet_id, reason_code, properties);
            &&& bytes.len() == size.packet_size
            &&& bytes.len() <= buffer.len() ==> ack_written(
                buffer,
                packet_type,
                packet_id,
                Some(reason_code),
                properties,
            ) == (
                Ok::<usize, OutboundError>(size.packet_size as usize),
                wire::overwrite(buffer, 0, bytes),
            )
        },
{
    let body = size::ack_body_size(properties.len() as int);
    if body <= MAX_REMAINING_LENGTH {
        wire::lemma_length_bytes_len(body as nat);
        wire::lemma_length_bytes_len(properties.len());
    }
}

/// **Law.** An acknowledgement that is written is read back as it was: every
/// reason code that may be sent is one that is accepted on the way in.
#[verifier::spinoff_prover]
pub proof fn law_ack_round_trip(
    packet_type: u8,
    packet_id: u16,
    reason_code: u8,
    properties: Seq<u8>,
    limits: Limits,
)
    requires
        packet_id != 0,
        ack_code_allowed(packet_type, reason_code),
        ack::ack_properties_ok(properties, false),
        size::ack_body_size(properties.len() as int) <= MAX_REMAINING_LENGTH,
        limits.max_packet_size >= header::whole_packet(
            size::ack_body_size(properties.len() as int),
        ),
        limits.request_problem_info,
    ensures
        ({
            let bytes = full_ack_bytes(packet_type, packet_id, reason_code, properties);
            let claimed = size::ack_body_size(properties.len() as int) as u32;
            let head = 1 + wire::length_size(claimed as int);
            &&& header::header_of(bytes) == Ok::<header::PacketHeader, header::HeaderError>(
                header::PacketHeader {
                    packet_type,
                    remaining_length: claimed,
                    header_length: head as usize,
                },
            )
            &&& ack::ack_of(
                PacketModel { packet_type, claimed, data: bytes.skip(head) },
                limits,
            ) == Ok::<AckModel, AckError>(
                AckModel {
                    packet_id: Some(packet_id),
                    reason_codes: seq![reason_code],
                    properties,
                },
            )
        }),
{
    let claimed = size::ack_body_size(properties.len() as int) as u32;
    let body = wire::u16_bytes(packet_id).push(reason_code) + wire::section_bytes(properties);
    lemma_full_ack_shape(packet_type, packet_id, reason_code, properties);
    header::law_header_round_trip(packet_type, claimed, body);
    lemma_full_ack_body(packet_id, reason_code, properties);
}

/// An acknowledgement is its type byte, its length and its body.
proof fn lemma_full_ack_shape(
    packet_type: u8,
    packet_id: u16,
    reason_code: u8,
    properties: Seq<u8>,
)
    requires
        size::ack_body_size(properties.len() as int) <= MAX_REMAINING_LENGTH,
    ensures
        ({
            let bytes = full_ack_bytes(packet_type, packet_id, reason_code, properties);
            let claimed = size::ack_body_size(properties.len() as int) as u32;
            let body = wire::u16_bytes(packet_id).push(reason_code) + wire::section_bytes(
                properties,
            );
            &&& bytes == seq![packet_type] + wire::length_bytes(claimed as nat) + body
            &&& bytes.skip(1 + wire::length_size(claimed as int)) == body
            &&& body.len() == claimed
        }),
{
    let bytes = full_ack_bytes(packet_type, packet_id, reason_code, properties);
    let claimed = size::ack_body_size(properties.len() as int) as u32;
    let body = wire::u16_bytes(packet_id).push(reason_code) + wire::section_bytes(properties);
    wire::lemma_length_bytes_len(claimed as nat);
    wire::lemma_length_bytes_len(properties.len());
    assert(bytes =~= seq![packet_type] + wire::length_bytes(claimed as nat) + body);
    assert(bytes.skip(1 + wire::length_size(claimed as int)) =~= body);
}

/// The body of an acknowledgement, taken apart again.
proof fn lemma_full_ack_body(packet_id: u16, reason_code: u8, properties: Seq<u8>)
    requires
        size::ack_body_size(properties.len() as int) <= MAX_REMAINING_LENGTH,
    ensures
        ({
            let claimed = size::ack_body_size(properties.len() as int);
            let section = wire::section_bytes(properties);
            let body = wire::u16_bytes(packet_id).push(reason_code) + section;
            &&& wire::take_u16(body) == Some((packet_id, seq![reason_code] + section))
            &&& body[2] == reason_code
            &&& body.subrange(2, 3) == seq![reason_code]
            &&& wire::part(body, 3, claimed - 3) == Some(section)
            &&& wire::take_length(section) == Some((properties.len() as u32, properties))
        }),
{
    let claimed = size::ack_body_size(properties.len() as int);
    let section = wire::section_bytes(properties);
    let body = wire::u16_bytes(packet_id).push(reason_code) + section;
    wire::lemma_length_bytes_len(properties.len());
    assert(body =~= wire::u16_bytes(packet_id) + (seq![reason_code] + section));
    wire::law_u16_round_trip(packet_id, seq![reason_code] + section);
    assert(body.subrange(2, 3) =~= seq![reason_code]);
    assert(body.subrange(3, claimed) =~= section);
    wire::law_take_length_round_trip(properties.len() as u32, properties);
}

} // verus!
