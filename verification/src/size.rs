//! How large an outgoing packet will be.
//!
//! A size is calculated before a packet is written, so that the writer can be
//! given a buffer that fits and a packet past the broker's limit is never sent.

use vstd::prelude::*;

use crate::header;
use crate::header::{
    variable_length_encoded_size, MAX_REMAINING_LENGTH, REMAINING_LENGTH_INVALID,
};
use crate::wire;

verus! {

/// A PINGREQ is two bytes, always.
pub const PINGREQ_PACKET_SIZE: u32 = 2;

/// How large a packet is.
#[derive(Debug, Clone, Copy, PartialEq, Eq, Structural)]
pub struct PacketSize {
    /// The length of the body.
    pub remaining_length: u32,
    /// The length of the packet.
    pub packet_size: u32,
}

/// Why a size was refused.
#[derive(Debug, Clone, Copy, PartialEq, Eq, Structural)]
pub enum SizeError {
    /// A length past a limit, or nothing to send.
    BadParameter,
}

/// Which of the two packets that carry a list of topic filters.
#[derive(Debug, Clone, Copy, PartialEq, Eq, Structural)]
pub enum ListPacket {
    /// SUBSCRIBE: an options byte follows each filter.
    Subscribe,
    /// UNSUBSCRIBE.
    Unsubscribe,
}

/// The size of a packet with a body of `body` bytes, or that it may not be
/// sent.
pub open spec fn sized(body: int, max_packet_size: u32) -> Result<PacketSize, SizeError> {
    if body > MAX_REMAINING_LENGTH || header::whole_packet(body) > max_packet_size {
        Err(SizeError::BadParameter)
    } else {
        Ok(
            PacketSize {
                remaining_length: body as u32,
                packet_size: header::whole_packet(body) as u32,
            },
        )
    }
}

/// The body of a publish acknowledgement with this many bytes of properties: an
/// identifier, a reason code and the section.
pub open spec fn ack_body_size(property_length: int) -> int {
    3 + wire::length_size(property_length) + property_length
}

/// What a list of topic filters takes: each its two-byte count, its bytes, and
/// in a SUBSCRIBE an options byte.
pub open spec fn filters_size(kind: ListPacket, lengths: Seq<usize>) -> int
    decreases lengths.len(),
{
    if lengths.len() == 0 {
        0
    } else {
        filters_size(kind, lengths.drop_last()) + lengths.last() + 2 + (if kind
            == ListPacket::Subscribe {
            1int
        } else {
            0
        })
    }
}

/// The body of a SUBSCRIBE or an UNSUBSCRIBE.
pub open spec fn list_body_size(
    kind: ListPacket,
    lengths: Seq<usize>,
    property_length: int,
) -> int {
    2 + wire::length_size(property_length) + property_length + filters_size(kind, lengths)
}

/// How large a SUBSCRIBE or an UNSUBSCRIBE is, or that it may not be sent.
pub open spec fn list_size(
    kind: ListPacket,
    lengths: Seq<usize>,
    property_length: u32,
    max_packet_size: u32,
) -> Result<PacketSize, SizeError> {
    if lengths.len() == 0 || (exists|i: int|
        0 <= i < lengths.len() && #[trigger] lengths[i] > u16::MAX) || property_length
        > MAX_REMAINING_LENGTH {
        Err(SizeError::BadParameter)
    } else {
        sized(list_body_size(kind, lengths, property_length as int), max_packet_size)
    }
}

/// How large a publish acknowledgement with a reason code and properties is.
///
/// # Errors
///
/// [`SizeError::BadParameter`] for a zero `max_packet_size`, or a packet past
/// either limit.
pub fn ack_packet_size(max_packet_size: u32, property_length: usize) -> (size: Result<
    PacketSize,
    SizeError,
>)
    ensures
        size == (if property_length > MAX_REMAINING_LENGTH {
            Err::<PacketSize, SizeError>(SizeError::BadParameter)
        } else {
            sized(ack_body_size(property_length as int), max_packet_size)
        }),
{
    if max_packet_size == 0 {
        return Err(SizeError::BadParameter);
    }
    if property_length > MAX_REMAINING_LENGTH as usize {
        return Err(SizeError::BadParameter);
    }
    let property_length: u32 = property_length as u32;
    let remaining_length: u32 = 3 + variable_length_encoded_size(property_length) + property_length;
    finish(remaining_length, max_packet_size)
}

/// Adds the fixed header to a body, and checks both limits.
fn finish(remaining_length: u32, max_packet_size: u32) -> (size: Result<PacketSize, SizeError>)
    ensures
        size == sized(remaining_length as int, max_packet_size),
{
    if remaining_length > MAX_REMAINING_LENGTH {
        return Err(SizeError::BadParameter);
    }
    let packet_size = header::packet_size_of(remaining_length);
    if packet_size > max_packet_size {
        return Err(SizeError::BadParameter);
    }
    Ok(PacketSize { remaining_length, packet_size })
}

/// How large a SUBSCRIBE or an UNSUBSCRIBE with filters of these lengths is.
///
/// # Errors
///
/// [`SizeError::BadParameter`] for an empty list, a filter too long for its
/// count, a zero `max_packet_size`, or a packet past either limit.
pub fn list_packet_size(
    kind: ListPacket,
    topic_filter_lengths: &[usize],
    property_length: u32,
    max_packet_size: u32,
) -> (size: Result<PacketSize, SizeError>)
    ensures
        size == list_size(kind, topic_filter_lengths@, property_length, max_packet_size),
{
    let ghost lengths = topic_filter_lengths@;
    proof {
        lemma_filters_grow(kind, lengths, 0);
    }
    if topic_filter_lengths.len() == 0 || max_packet_size == 0 {
        return Err(SizeError::BadParameter);
    }
    if property_length > MAX_REMAINING_LENGTH {
        return Err(SizeError::BadParameter);
    }
    let ghost base = 2 + wire::length_size(property_length as int) + property_length;
    let mut remaining_length: u32 = 2 + property_length + variable_length_encoded_size(
        property_length,
    );
    let mut index: usize = 0;
    while index < topic_filter_lengths.len()
        invariant
            index <= lengths.len(),
            lengths == topic_filter_lengths@,
            lengths.len() > 0,
            property_length <= MAX_REMAINING_LENGTH,
            base == 2 + wire::length_size(property_length as int) + property_length,
            remaining_length <= REMAINING_LENGTH_INVALID + 6,
            remaining_length == base + filters_size(kind, lengths.take(index as int)),
            forall|i: int| 0 <= i < index ==> lengths[i] <= u16::MAX,
        decreases lengths.len() - index,
    {
        let length: usize = topic_filter_lengths[index];
        proof {
            assert(lengths.take(index + 1).drop_last() =~= lengths.take(index as int));
            assert(lengths.take(lengths.len() as int) =~= lengths);
        }
        if length > u16::MAX as usize {
            return Err(SizeError::BadParameter);
        }
        remaining_length = remaining_length + length as u32 + 2;
        if remaining_length >= REMAINING_LENGTH_INVALID {
            proof {
                lemma_filters_grow(kind, lengths, index + 1);
            }
            return Err(SizeError::BadParameter);
        }
        if kind == ListPacket::Subscribe {
            remaining_length = remaining_length + 1;
        }
        index += 1;
    }
    assert(lengths.take(index as int) =~= lengths);
    finish(remaining_length, max_packet_size)
}

/// More filters never take less room.
proof fn lemma_filters_grow(kind: ListPacket, lengths: Seq<usize>, n: int)
    requires
        0 <= n <= lengths.len(),
    ensures
        filters_size(kind, lengths.take(n)) <= filters_size(kind, lengths),
    decreases lengths.len() - n,
{
    if n < lengths.len() {
        assert(lengths.take(n + 1).drop_last() =~= lengths.take(n));
        lemma_filters_grow(kind, lengths, n + 1);
    } else {
        assert(lengths.take(n) =~= lengths);
    }
}

/// How large a SUBSCRIBE is.
///
/// # Errors
///
/// As [`list_packet_size`].
pub fn subscribe_packet_size(
    topic_filter_lengths: &[usize],
    property_length: u32,
    max_packet_size: u32,
) -> (size: Result<PacketSize, SizeError>)
    ensures
        size == list_size(
            ListPacket::Subscribe,
            topic_filter_lengths@,
            property_length,
            max_packet_size,
        ),
{
    list_packet_size(
        ListPacket::Subscribe,
        topic_filter_lengths,
        property_length,
        max_packet_size,
    )
}

/// How large an UNSUBSCRIBE is.
///
/// # Errors
///
/// As [`list_packet_size`].
pub fn unsubscribe_packet_size(
    topic_filter_lengths: &[usize],
    property_length: u32,
    max_packet_size: u32,
) -> (size: Result<PacketSize, SizeError>)
    ensures
        size == list_size(
            ListPacket::Unsubscribe,
            topic_filter_lengths@,
            property_length,
            max_packet_size,
        ),
{
    list_packet_size(
        ListPacket::Unsubscribe,
        topic_filter_lengths,
        property_length,
        max_packet_size,
    )
}

/// **Law.** A SUBSCRIBE costs exactly one byte more for each filter than an
/// UNSUBSCRIBE of the same filters.
pub proof fn law_subscribe_costs_one_more(lengths: Seq<usize>, property_length: int)
    ensures
        list_body_size(ListPacket::Subscribe, lengths, property_length) == list_body_size(
            ListPacket::Unsubscribe,
            lengths,
            property_length,
        ) + lengths.len(),
    decreases lengths.len(),
{
    if lengths.len() > 0 {
        law_subscribe_costs_one_more(lengths.drop_last(), property_length);
    }
}

} // verus!
