//! The fixed header: a packet type, and a variable-byte length.
//!
//! Every packet begins with one type byte and a *remaining length* of one to
//! four bytes, seven bits at a time. It is the first thing read off a socket,
//! before anything else about the packet is known. Three malformed lengths are
//! refused: one of more than four bytes, one past the limit, and one spelled in
//! more bytes than it needs.

use vstd::prelude::*;

use crate::wire;
use crate::wire::{LengthRead, Sheet};

pub mod packet;

verus! {

/// The largest remaining length a packet may have.
pub const MAX_REMAINING_LENGTH: u32 = 268_435_455;

/// One past the largest remaining length.
pub const REMAINING_LENGTH_INVALID: u32 = 268_435_456;

/// A decoded fixed header.
#[derive(Debug, Clone, Copy, PartialEq, Eq, Structural)]
pub struct PacketHeader {
    /// The type byte, flags and all: a PUBLISH carries its QoS in them.
    pub packet_type: u8,
    /// How many bytes follow the header.
    pub remaining_length: u32,
    /// How long the header itself was: two to five bytes.
    pub header_length: usize,
}

/// Why a fixed header could not be read.
#[derive(Debug, Clone, Copy, PartialEq, Eq, Structural)]
pub enum HeaderError {
    /// Nothing has arrived yet.
    NoDataAvailable,
    /// A header has started but is not complete: read more and ask again.
    NeedMoreBytes,
    /// The type is not one a broker sends, or the length is malformed.
    BadResponse,
}

/// The size of a whole packet whose body has `remaining_length` bytes: the
/// type byte, the length, and the body.
pub open spec fn whole_packet(remaining_length: int) -> int {
    1 + wire::length_size(remaining_length) + remaining_length
}

/// [`whole_packet`] as a `u32` counts it: stopping at the largest one.
pub open spec fn counted_packet(remaining_length: u32) -> u32 {
    if whole_packet(remaining_length as int) <= u32::MAX {
        whole_packet(remaining_length as int) as u32
    } else {
        u32::MAX
    }
}

/// Whether a byte is the first byte of a packet that a broker may send.
///
/// CONNECT, SUBSCRIBE, UNSUBSCRIBE and PINGREQ travel from client to broker
/// only, and a PUBREL must have its reserved bit set.
pub open spec fn comes_from_broker(packet_type: u8) -> bool {
    let nibble = packet_type / 16;
    if nibble == packet::PUBREL_NIBBLE / 16 {
        packet_type / 2 % 2 == 1
    } else {
        ||| nibble == packet::CONNACK / 16
        ||| nibble == packet::PUBLISH / 16
        ||| nibble == packet::PUBACK / 16
        ||| nibble == packet::PUBREC / 16
        ||| nibble == packet::PUBCOMP / 16
        ||| nibble == packet::SUBACK / 16
        ||| nibble == packet::UNSUBACK / 16
        ||| nibble == packet::PINGRESP / 16
        ||| nibble == packet::DISCONNECT / 16
        ||| nibble == packet::AUTH / 16
    }
}

/// What the bytes that have arrived say as a fixed header.
pub open spec fn header_of(arrived: Seq<u8>) -> Result<PacketHeader, HeaderError> {
    if arrived.len() == 0 {
        Err(HeaderError::NoDataAvailable)
    } else if !comes_from_broker(arrived[0]) {
        Err(HeaderError::BadResponse)
    } else {
        match wire::read_length(arrived.skip(1)) {
            LengthRead::Short => Err(HeaderError::NeedMoreBytes),
            LengthRead::Malformed => Err(HeaderError::BadResponse),
            LengthRead::Value(n) => Ok(
                PacketHeader {
                    packet_type: arrived[0],
                    remaining_length: n,
                    header_length: (1 + wire::length_size(n as int)) as usize,
                },
            ),
        }
    }
}

/// The bytes of `buffer` that have arrived, where `available` are said to.
pub open spec fn arrived_of(buffer: Seq<u8>, available: usize) -> Seq<u8> {
    if available <= buffer.len() {
        buffer.take(available as int)
    } else {
        buffer
    }
}

/// How many bytes `length` takes.
///
/// Lengths past [`MAX_REMAINING_LENGTH`] are given four, which is one too few
/// for them.
#[must_use]
pub fn variable_length_encoded_size(length: u32) -> (size: u32)
    ensures
        size == wire::length_size(length as int),
        1 <= size <= 4,
{
    if length < 128 {
        1
    } else if length < 16_384 {
        2
    } else if length < 2_097_152 {
        3
    } else {
        4
    }
}

/// The size of a whole packet with a body of `remaining_length` bytes, where
/// `u32` can hold it.
pub fn packet_size_of(remaining_length: u32) -> (size: u32)
    ensures
        size == counted_packet(remaining_length),
{
    remaining_length.saturating_add(variable_length_encoded_size(remaining_length)).saturating_add(
        1,
    )
}

/// Writes `length` at the front of `destination`, seven bits at a time, and
/// returns how many bytes were used.
///
/// Returns 0, with nothing written, if the destination is smaller than
/// [`variable_length_encoded_size`] says. A length past
/// [`MAX_REMAINING_LENGTH`] is written in five bytes, cut to the destination.
#[must_use]
pub fn encode_variable_length(destination: &mut [u8], length: u32) -> (written: usize)
    ensures
        final(destination)@.len() == old(destination)@.len(),
        old(destination)@.len() < wire::length_size(length as int) ==> written == 0
            && final(destination)@ == old(destination)@,
        old(destination)@.len() >= wire::length_size(length as int) ==> {
            let bytes = wire::length_bytes(length as nat);
            &&& written == (if bytes.len() <= old(destination)@.len() {
                bytes.len()
            } else {
                old(destination)@.len()
            })
            &&& final(destination)@ == wire::overwrite(old(destination)@, 0, bytes.take(written as int))
        },
        length <= MAX_REMAINING_LENGTH && written != 0 ==> written == wire::length_size(length as int)
            && final(destination)@ == wire::overwrite(
            old(destination)@,
            0,
            wire::length_bytes(length as nat),
        ),
{
    let ghost before = destination@;
    let ghost bytes = wire::length_bytes(length as nat);
    proof {
        wire::lemma_length_bytes_len(length as nat);
    }
    if destination.len() < variable_length_encoded_size(length) as usize {
        return 0;
    }
    let mut remaining: u32 = length;
    let mut written: usize = 0;
    loop
        invariant_except_break
            written < bytes.len(),
            written <= before.len(),
            bytes.skip(written as int) == wire::length_bytes(remaining as nat),
        invariant
            before == old(destination)@,
            bytes == wire::length_bytes(length as nat),
            wire::length_size(length as int) <= before.len(),
            length <= MAX_REMAINING_LENGTH ==> bytes.len() == wire::length_size(length as int),
            bytes.len() <= 5,
            destination@.len() == before.len(),
            forall|i: int|
                0 <= i < before.len() ==> destination@[i] == (if i < written {
                    bytes[i]
                } else {
                    before[i]
                }),
        ensures
            written == bytes.len(),
            written <= before.len(),
        decreases bytes.len() - written,
    {
        let mut byte: u8 = (remaining % 128) as u8;
        let ghost here = remaining;
        remaining = remaining / 128;
        if remaining > 0 {
            byte = byte + 128;
        }
        proof {
            assert(bytes[written as int] == bytes.skip(written as int)[0]);
            assert(bytes[written as int] == byte);
            assert(bytes.skip(written as int + 1) =~= bytes.skip(written as int).skip(1));
            if remaining > 0 {
                assert(wire::length_bytes(here as nat).skip(1) =~= wire::length_bytes(remaining as nat));
                assert(wire::length_bytes(remaining as nat).len() > 0);
                assert(bytes.skip(written as int + 1).len() > 0);
            } else {
                assert(wire::length_bytes(here as nat).len() == 1);
                assert(bytes.skip(written as int).len() == 1);
            }
        }
        if written >= destination.len() {
            assert(destination@ =~= wire::overwrite(before, 0, bytes.take(written as int)));
            return written;
        }
        destination[written] = byte;
        written += 1;
        if remaining == 0 {
            break;
        }
    }
    assert(bytes.take(written as int) =~= bytes);
    assert(destination@ =~= wire::overwrite(before, 0, bytes));
    written
}

/// Writes `length` at `at`; `None`, with nothing written, where it does not
/// fit. Otherwise the position after it.
pub fn put_length(destination: &mut [u8], at: usize, length: u32) -> (next: Option<usize>)
    requires
        at <= old(destination)@.len(),
    ensures
        ({
            let sheet = (Sheet { buffer: old(destination)@, at: at as int, open: true }).put_length(
                length as nat,
            );
            &&& final(destination)@ == sheet.buffer
            &&& next is Some == sheet.open
            &&& next matches Some(n) ==> n == sheet.at && n <= final(destination)@.len() && n > at
        }),
{
    let ghost before = destination@;
    let size: usize = destination.len();
    let (_head, tail) = destination.split_at_mut(at);
    let ghost rest = tail@;
    let written = encode_variable_length(tail, length);
    proof {
        wire::lemma_length_bytes_len(length as nat);
        let bytes = wire::length_bytes(length as nat);
        assert(rest =~= before.skip(at as int));
        assert(bytes.take(bytes.len() as int) =~= bytes);
        assert(destination@ =~= (Sheet { buffer: before, at: at as int, open: true }).put_length(
            length as nat,
        ).buffer);
    }
    assert(at + written <= size);
    if written == 0 {
        None
    } else {
        Some(at + written)
    }
}

/// Writes a variable-length integer into four bytes, which are enough.
pub(crate) fn encode_length(destination: &mut [u8; 4], length: u32) -> (written: usize)
    requires
        length <= wire::LARGEST_LENGTH,
    ensures
        written <= 4,
        final(destination)@.subrange(0, written as int) == wire::length_bytes(length as nat),
{
    proof {
        wire::lemma_length_bytes_len(length as nat);
    }
    let written = encode_variable_length(destination, length);
    proof {
        let bytes = wire::length_bytes(length as nat);
        assert(bytes.take(written as int) =~= bytes);
        assert(destination@.subrange(0, written as int) =~= bytes);
    }
    written
}

/// Is this the first byte of a packet that a broker may send?
#[must_use]
pub fn incoming_packet_valid(packet_type: u8) -> (valid: bool)
    ensures
        valid == comes_from_broker(packet_type),
{
    let nibble: u8 = packet_type / 16;
    if nibble == packet::PUBREL_NIBBLE / 16 {
        return packet_type / 2 % 2 == 1;
    }
    nibble == packet::CONNACK / 16 || nibble == packet::PUBLISH / 16 || nibble == packet::PUBACK
        / 16 || nibble == packet::PUBREC / 16 || nibble == packet::PUBCOMP / 16 || nibble
        == packet::SUBACK / 16 || nibble == packet::UNSUBACK / 16 || nibble == packet::PINGRESP / 16
        || nibble == packet::DISCONNECT / 16 || nibble == packet::AUTH / 16
}

/// Reads a fixed header from the front of a buffer of which `available` bytes
/// have arrived.
///
/// # Errors
///
/// [`HeaderError::NoDataAvailable`] when nothing has arrived,
/// [`HeaderError::NeedMoreBytes`] when the header is incomplete, and
/// [`HeaderError::BadResponse`] when the type is not one a broker sends or the
/// length is malformed. Only the middle one is worth retrying.
pub fn process_incoming_packet_type_and_length(buffer: &[u8], available: usize) -> (header: Result<
    PacketHeader,
    HeaderError,
>)
    ensures
        header == header_of(arrived_of(buffer@, available)),
{
    let ghost arrived = arrived_of(buffer@, available);
    if available < 1 || buffer.len() < 1 {
        return Err(HeaderError::NoDataAvailable);
    }
    let packet_type: u8 = buffer[0];
    if !incoming_packet_valid(packet_type) {
        return Err(HeaderError::BadResponse);
    }
    let mut remaining_length: u32 = 0;
    let mut multiplier: u32 = 1;
    let mut bytes_decoded: usize = 0;
    let ghost body = arrived.skip(1);
    loop
        invariant_except_break
            bytes_decoded == 0 ==> multiplier == 1 && remaining_length == 0,
            bytes_decoded == 1 ==> multiplier == 128 && remaining_length == body[0] - 128
                && body[0] >= 128,
            bytes_decoded == 2 ==> multiplier == 16_384 && remaining_length == body[0] - 128 + 128
                * (body[1] - 128) && body[0] >= 128 && body[1] >= 128,
            bytes_decoded == 3 ==> multiplier == 2_097_152 && remaining_length == body[0] - 128
                + 128 * (body[1] - 128) + 16_384 * (body[2] - 128) && body[0] >= 128 && body[1]
                >= 128 && body[2] >= 128,
            bytes_decoded == 4 ==> multiplier > 2_097_152 && body[0] >= 128 && body[1] >= 128
                && body[2] >= 128 && body[3] >= 128,
        invariant
            arrived == arrived_of(buffer@, available),
            arrived.len() >= 1,
            arrived[0] == packet_type,
            comes_from_broker(packet_type),
            body == arrived.skip(1),
            bytes_decoded <= 4,
            bytes_decoded <= body.len(),
        ensures
            1 <= bytes_decoded <= 4,
            bytes_decoded == 1 ==> body[0] < 128 && remaining_length == body[0],
            bytes_decoded == 2 ==> body[0] >= 128 && body[1] < 128 && remaining_length == body[0]
                - 128 + 128 * body[1],
            bytes_decoded == 3 ==> body[0] >= 128 && body[1] >= 128 && body[2] < 128
                && remaining_length == body[0] - 128 + 128 * (body[1] - 128) + 16_384 * body[2],
            bytes_decoded == 4 ==> body[0] >= 128 && body[1] >= 128 && body[2] >= 128 && body[3]
                < 128 && remaining_length == body[0] - 128 + 128 * (body[1] - 128) + 16_384 * (
            body[2] - 128) + 2_097_152 * body[3],
        decreases 5 - bytes_decoded,
    {
        if multiplier > 2_097_152 {
            return Err(HeaderError::BadResponse);
        }
        if available <= bytes_decoded + 1 || buffer.len() <= bytes_decoded + 1 {
            return Err(HeaderError::NeedMoreBytes);
        }
        let byte: u8 = buffer[bytes_decoded + 1];
        assert(byte == body[bytes_decoded as int]);
        if bytes_decoded == 0 {
            remaining_length = (byte % 128) as u32;
            multiplier = 128;
        } else if bytes_decoded == 1 {
            remaining_length = remaining_length + (byte % 128) as u32 * 128;
            multiplier = 16_384;
        } else if bytes_decoded == 2 {
            remaining_length = remaining_length + (byte % 128) as u32 * 16_384;
            multiplier = 2_097_152;
        } else {
            remaining_length = remaining_length + (byte % 128) as u32 * 2_097_152;
            multiplier = 268_435_456;
        }
        bytes_decoded += 1;
        if byte < 128 {
            break;
        }
    }
    if bytes_decoded != variable_length_encoded_size(remaining_length) as usize {
        return Err(HeaderError::BadResponse);
    }
    Ok(PacketHeader { packet_type, remaining_length, header_length: bytes_decoded + 1 })
}

/// **Law.** A fixed header that is written whole is read back as it was, with
/// whatever bytes behind it.
pub proof fn law_header_round_trip(packet_type: u8, remaining_length: u32, after: Seq<u8>)
    requires
        comes_from_broker(packet_type),
        remaining_length <= MAX_REMAINING_LENGTH,
    ensures
        header_of(seq![packet_type] + wire::length_bytes(remaining_length as nat) + after) == Ok::<
            PacketHeader,
            HeaderError,
        >(
            PacketHeader {
                packet_type,
                remaining_length,
                header_length: (1 + wire::length_size(remaining_length as int)) as usize,
            },
        ),
{
    let whole = seq![packet_type] + wire::length_bytes(remaining_length as nat) + after;
    assert(whole.skip(1) =~= wire::length_bytes(remaining_length as nat) + after);
    wire::law_length_round_trip(remaining_length, after);
}

/// **Law.** More bytes never change an answer other than "read more": once a
/// header is read or refused as malformed, it stays so.
pub proof fn law_header_needs_no_more(arrived: Seq<u8>, more: Seq<u8>)
    requires
        header_of(arrived) != Err::<PacketHeader, HeaderError>(HeaderError::NeedMoreBytes),
        header_of(arrived) != Err::<PacketHeader, HeaderError>(HeaderError::NoDataAvailable),
    ensures
        header_of(arrived + more) == header_of(arrived),
{
    assert((arrived + more).skip(1) =~= arrived.skip(1) + more);
}

} // verus!
