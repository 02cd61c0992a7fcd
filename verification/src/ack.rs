//! Reading an acknowledgement off the wire.
//!
//! Seven packet types are read here, in three families: PUBACK, PUBREC, PUBREL
//! and PUBCOMP carry a packet identifier, perhaps a reason code, perhaps
//! properties; SUBACK and UNSUBACK carry a packet identifier, properties, and
//! one reason code for each topic filter; a PINGRESP carries nothing. A CONNACK
//! has a reader of its own, in [`connack`](crate::connack).
//!
//! A packet's claimed length and the bytes that arrived are two different
//! things. [`PacketInfo`] keeps both, and a claim larger than the bytes is
//! refused.

use vstd::prelude::*;

use crate::header;
use crate::header::{packet, variable_length_encoded_size};
use crate::property::{decode_variable_length, PropertyError, PropertyReader};
use crate::wire;

verus! {

/// A PINGRESP carries no body.
pub const PINGRESP_REMAINING_LENGTH: u32 = 0;

/// A whole PUBREL byte, with the reserved bit that must be set.
pub const PUBREL: u8 = 0x62;

/// The Reason String property.
pub const REASON_STRING_ID: u8 = 0x1F;

/// The User Property property.
pub const USER_PROPERTY_ID: u8 = 0x26;

/// An incoming packet, as the receive loop hands it over.
#[derive(Debug, Clone, Copy)]
pub struct PacketInfo<'a> {
    /// The fixed header's first byte, whole.
    pub packet_type: u8,
    /// What the packet **claimed** its body was. May exceed `remaining_data`.
    pub remaining_length: u32,
    /// The bytes that actually arrived.
    pub remaining_data: &'a [u8],
}

/// An incoming packet, as values.
pub struct PacketModel {
    pub packet_type: u8,
    pub claimed: u32,
    pub data: Seq<u8>,
}

impl<'a> View for PacketInfo<'a> {
    type V = PacketModel;

    open spec fn view(&self) -> PacketModel {
        PacketModel {
            packet_type: self.packet_type,
            claimed: self.remaining_length,
            data: self.remaining_data@,
        }
    }
}

/// The two connection properties an acknowledgement is checked against.
#[derive(Debug, Clone, Copy)]
pub struct Limits {
    /// The largest packet this client told the broker it would accept.
    pub max_packet_size: u32,
    /// Whether this client asked for reason strings and user properties. If it
    /// did not, an acknowledgement that carries properties is refused whole.
    pub request_problem_info: bool,
}

/// What an acknowledgement turned out to contain.
#[derive(Debug, Clone, Copy, PartialEq, Eq)]
pub struct AckInfo<'a> {
    /// `None` only for a PINGRESP, which has no packet identifier.
    pub packet_id: Option<u16>,
    /// The reason codes: none, one, or one for each topic filter.
    pub reason_codes: &'a [u8],
    /// The property section, without its length prefix.
    pub properties: &'a [u8],
}

/// What an acknowledgement contains, as values.
pub struct AckModel {
    pub packet_id: Option<u16>,
    pub reason_codes: Seq<u8>,
    pub properties: Seq<u8>,
}

impl<'a> View for AckInfo<'a> {
    type V = AckModel;

    open spec fn view(&self) -> AckModel {
        AckModel {
            packet_id: self.packet_id,
            reason_codes: self.reason_codes@,
            properties: self.properties@,
        }
    }
}

/// Why an acknowledgement was refused.
#[derive(Debug, Clone, Copy, PartialEq, Eq, Structural)]
pub enum AckError {
    /// The call was wrong: a CONNACK, or a zero maximum packet size.
    BadParameter,
    /// The packet was wrong.
    BadResponse,
}

impl From<PropertyError> for AckError {
    fn from(_error: PropertyError) -> (converted: Self) {
        AckError::BadResponse
    }
}

impl vstd::std_specs::convert::FromSpecImpl<PropertyError> for AckError {
    open spec fn obeys_from_spec() -> bool {
        true
    }

    open spec fn from_spec(_error: PropertyError) -> Self {
        AckError::BadResponse
    }
}

// ---------------------------------------------------------------------------
// What an acknowledgement says
// ---------------------------------------------------------------------------

/// An acknowledgement's properties are at most one reason string and any number
/// of user properties, and nothing else.
pub open spec fn ack_properties_ok(s: Seq<u8>, reason_seen: bool) -> bool
    decreases s.len(),
{
    if s.len() == 0 {
        true
    } else if s[0] == REASON_STRING_ID {
        match wire::take_text(s.skip(1)) {
            Some((_, rest)) => !reason_seen && ack_properties_ok(rest, true),
            None => false,
        }
    } else if s[0] == USER_PROPERTY_ID {
        match wire::take_pair(s.skip(1)) {
            Some((_, rest)) => ack_properties_ok(rest, reason_seen),
            None => false,
        }
    } else {
        false
    }
}

/// The reason codes that a SUBACK or an UNSUBACK may carry. Both are held to
/// the same list.
pub open spec fn suback_code(code: u8) -> bool {
    code <= 0x02 || code == 0x80 || code == 0x83 || code == 0x87 || code == 0x8F || code == 0x91
        || code == 0x97 || code == 0x9E || code == 0xA1 || code == 0xA2
}

/// The reason codes that any of the four publish acknowledgements may carry.
pub open spec fn publish_ack_code(code: u8) -> bool {
    code == 0x00 || code == 0x10 || code == 0x80 || code == 0x83 || code == 0x87 || code == 0x90
        || code == 0x91 || code == 0x92 || code == 0x97 || code == 0x99
}

/// The packet identifier at the front of a body; a zero one is none.
pub open spec fn packet_id_of(data: Seq<u8>) -> Option<u16> {
    match wire::take_u16(data) {
        Some((id, _)) => if id == 0 {
            None
        } else {
            Some(id)
        },
        None => None,
    }
}

/// The body of a publish acknowledgement: an identifier; a reason code where
/// more than two bytes are claimed; a property section that ends with the
/// packet where more than three are.
pub open spec fn pub_ack_of(claimed: u32, data: Seq<u8>, request_problem_info: bool) -> Option<
    AckModel,
> {
    match packet_id_of(data) {
        None => None,
        Some(id) => if claimed < 2 || (claimed > 2 && data.len() < 3) {
            None
        } else if claimed <= 3 {
            Some(
                AckModel {
                    packet_id: Some(id),
                    reason_codes: if claimed > 2 {
                        data.subrange(2, 3)
                    } else {
                        Seq::empty()
                    },
                    properties: Seq::empty(),
                },
            )
        } else if !request_problem_info {
            None
        } else {
            match wire::part(data, 3, claimed - 3) {
                None => None,
                Some(body) => match wire::take_length(body) {
                    None => None,
                    Some((n, properties)) => if properties.len() == n && ack_properties_ok(
                        properties,
                        false,
                    ) {
                        Some(
                            AckModel {
                                packet_id: Some(id),
                                reason_codes: data.subrange(2, 3),
                                properties,
                            },
                        )
                    } else {
                        None
                    },
                },
            }
        },
    }
}

/// The body of a SUBACK or an UNSUBACK: an identifier, a property section, and
/// reason codes to the end.
pub open spec fn list_ack_of(claimed: u32, data: Seq<u8>) -> Option<AckModel> {
    match (packet_id_of(data), wire::part(data, 2, claimed - 2)) {
        (Some(id), Some(after_id)) => match wire::take_length(after_id) {
            Some((n, rest)) => if claimed >= 4 && n <= rest.len() && ack_properties_ok(
                rest.take(n as int),
                false,
            ) && (forall|i: int| n <= i < rest.len() ==> suback_code(#[trigger] rest[i])) {
                Some(
                    AckModel {
                        packet_id: Some(id),
                        reason_codes: rest.skip(n as int),
                        properties: rest.take(n as int),
                    },
                )
            } else {
                None
            },
            None => None,
        },
        _ => None,
    }
}

/// What an acknowledgement says, if it is well formed.
pub open spec fn ack_body(packet: PacketModel, request_problem_info: bool) -> Option<AckModel> {
    let kind = packet.packet_type;
    if kind == packet::PUBACK || kind == packet::PUBREC || kind == PUBREL || kind
        == packet::PUBCOMP {
        match pub_ack_of(packet.claimed, packet.data, request_problem_info) {
            Some(ack) => if packet.claimed > 2 && !publish_ack_code(ack.reason_codes[0]) {
                None
            } else {
                Some(ack)
            },
            None => None,
        }
    } else if kind == packet::SUBACK || kind == packet::UNSUBACK {
        list_ack_of(packet.claimed, packet.data)
    } else if kind == packet::PINGRESP && packet.claimed == PINGRESP_REMAINING_LENGTH {
        Some(
            AckModel { packet_id: None, reason_codes: Seq::empty(), properties: Seq::empty() },
        )
    } else {
        None
    }
}

/// Reading an acknowledgement: what it says, or why it is refused.
pub open spec fn ack_of(packet: PacketModel, limits: Limits) -> Result<AckModel, AckError> {
    if packet.packet_type == packet::CONNACK || limits.max_packet_size == 0 {
        Err(AckError::BadParameter)
    } else if header::counted_packet(packet.claimed) > limits.max_packet_size {
        Err(AckError::BadResponse)
    } else {
        match ack_body(packet, limits.request_problem_info) {
            Some(ack) => Ok(ack),
            None => Err(AckError::BadResponse),
        }
    }
}

// ---------------------------------------------------------------------------
// Reading
// ---------------------------------------------------------------------------

/// Reads any acknowledgement except a CONNACK.
///
/// # Errors
///
/// [`AckError::BadParameter`] for a CONNACK or a zero `max_packet_size`;
/// [`AckError::BadResponse`] for everything that can be wrong with the packet.
pub fn deserialize_ack<'a>(packet: &PacketInfo<'a>, limits: &Limits) -> (ack: Result<
    AckInfo<'a>,
    AckError,
>)
    ensures
        wire::viewed(ack) == ack_of(packet@, *limits),
{
    if packet.packet_type == packet::CONNACK {
        return Err(AckError::BadParameter);
    }
    if limits.max_packet_size == 0 {
        return Err(AckError::BadParameter);
    }
    if header::packet_size_of(packet.remaining_length) > limits.max_packet_size {
        return Err(AckError::BadResponse);
    }
    let kind: u8 = packet.packet_type;
    if kind == packet::PUBACK || kind == packet::PUBREC || kind == PUBREL || kind
        == packet::PUBCOMP {
        match deserialize_pub_acks(packet, limits.request_problem_info) {
            Ok(ack) => {
                if packet.remaining_length > 2 {
                    match validate_ack_reason_code(ack.reason_codes[0]) {
                        Ok(()) => {},
                        Err(error) => return Err(error),
                    }
                }
                Ok(ack)
            },
            Err(error) => Err(error),
        }
    } else if kind == packet::SUBACK || kind == packet::UNSUBACK {
        deserialize_sub_unsub_ack(packet)
    } else if kind == packet::PINGRESP && packet.remaining_length == PINGRESP_REMAINING_LENGTH {
        let none: &'a [u8] = vstd::slice::slice_subrange(packet.remaining_data, 0, 0);
        assert(none@ =~= Seq::<u8>::empty());
        Ok(AckInfo { packet_id: None, reason_codes: none, properties: none })
    } else {
        Err(AckError::BadResponse)
    }
}

/// A packet identifier, then an optional reason code and optional properties.
fn deserialize_pub_acks<'a>(packet: &PacketInfo<'a>, request_problem_info: bool) -> (ack: Result<
    AckInfo<'a>,
    AckError,
>)
    ensures
        wire::viewed(ack) == (match pub_ack_of(
            packet.remaining_length,
            packet.remaining_data@,
            request_problem_info,
        ) {
            Some(model) => Ok::<AckModel, AckError>(model),
            None => Err(AckError::BadResponse),
        }),
        ack matches Ok(a) ==> packet.remaining_length > 2 ==> a.reason_codes@.len() == 1,
{
    if packet.remaining_length < 2 {
        return Err(AckError::BadResponse);
    }
    let data = packet.remaining_data;
    let packet_id = match read_packet_id(data) {
        Ok(id) => id,
        Err(error) => return Err(error),
    };
    let none: &'a [u8] = vstd::slice::slice_subrange(data, 0, 0);
    assert(none@ =~= Seq::<u8>::empty());
    let reason_codes = if packet.remaining_length > 2 {
        if data.len() < 3 {
            return Err(AckError::BadResponse);
        }
        vstd::slice::slice_subrange(data, 2, 3)
    } else {
        none
    };
    if packet.remaining_length <= 3 {
        return Ok(AckInfo { packet_id: Some(packet_id), reason_codes, properties: none });
    }
    if !request_problem_info {
        return Err(AckError::BadResponse);
    }
    let body = match bounded(data, 3, packet.remaining_length - 3) {
        Ok(body) => body,
        Err(error) => return Err(error),
    };
    match decode_pub_ack_properties(body) {
        Ok(properties) => Ok(AckInfo { packet_id: Some(packet_id), reason_codes, properties }),
        Err(error) => Err(error),
    }
}

/// A property section that is the rest of the packet: its length has to say
/// exactly what follows.
fn decode_pub_ack_properties(body: &[u8]) -> (properties: Result<&[u8], AckError>)
    requires
        body@.len() <= u32::MAX,
    ensures
        wire::viewed(properties) == (match wire::take_length(body@) {
            Some((n, rest)) => if rest.len() == n && ack_properties_ok(rest, false) {
                Ok::<Seq<u8>, AckError>(rest)
            } else {
                Err(AckError::BadResponse)
            },
            None => Err(AckError::BadResponse),
        }),
{
    let property_length = match decode_variable_length(body) {
        Ok(length) => length,
        Err(_) => return Err(AckError::BadResponse),
    };
    proof {
        wire::lemma_read_length_bounds(body@);
    }
    let encoded: u32 = variable_length_encoded_size(property_length);
    if body.len() as u32 != property_length + encoded {
        return Err(AckError::BadResponse);
    }
    let properties = vstd::slice::slice_subrange(body, encoded as usize, body.len());
    assert(properties@ =~= body@.skip(encoded as int));
    match walk_ack_properties(properties) {
        Ok(()) => Ok(properties),
        Err(error) => Err(error),
    }
}

/// A packet identifier, a property section, then the reason codes.
fn deserialize_sub_unsub_ack<'a>(packet: &PacketInfo<'a>) -> (ack: Result<AckInfo<'a>, AckError>)
    ensures
        wire::viewed(ack) == (match list_ack_of(packet.remaining_length, packet.remaining_data@) {
            Some(model) => Ok::<AckModel, AckError>(model),
            None => Err(AckError::BadResponse),
        }),
{
    if packet.remaining_length < 4 {
        return Err(AckError::BadResponse);
    }
    let packet_id = match read_packet_id(packet.remaining_data) {
        Ok(id) => id,
        Err(error) => return Err(error),
    };
    let after_id = match bounded(packet.remaining_data, 2, packet.remaining_length - 2) {
        Ok(part) => part,
        Err(error) => return Err(error),
    };
    let (properties, property_bytes) = match deserialize_sub_unsub_ack_properties(after_id) {
        Ok(found) => found,
        Err(error) => return Err(error),
    };
    let reason_codes = vstd::slice::slice_subrange(after_id, property_bytes, after_id.len());
    proof {
        let (n, rest) = wire::take_length(after_id@)->0;
        assert(reason_codes@ =~= rest.skip(n as int));
        assert forall|i: int| n <= i < rest.len() implies rest[i] == reason_codes@[i - n] by {}
        assert forall|i: int| 0 <= i < reason_codes@.len() implies reason_codes@[i] == rest[i + n] by {}
    }
    match read_suback_status(reason_codes) {
        Ok(()) => Ok(AckInfo { packet_id: Some(packet_id), reason_codes, properties }),
        Err(error) => Err(error),
    }
}

/// The property section at the front of `after_id`, and how many bytes it and
/// its length take.
fn deserialize_sub_unsub_ack_properties(after_id: &[u8]) -> (found: Result<
    (&[u8], usize),
    AckError,
>)
    requires
        after_id@.len() <= u32::MAX,
    ensures
        match wire::take_length(after_id@) {
            Some((n, rest)) => if n <= rest.len() && ack_properties_ok(rest.take(n as int), false) {
                found matches Ok((properties, total)) && properties@ == rest.take(n as int) && total
                    == after_id@.len() - rest.len() + n
            } else {
                found == Err::<(&[u8], usize), AckError>(AckError::BadResponse)
            },
            None => found == Err::<(&[u8], usize), AckError>(AckError::BadResponse),
        },
{
    let property_length = match decode_variable_length(after_id) {
        Ok(length) => length,
        Err(_) => return Err(AckError::BadResponse),
    };
    proof {
        wire::lemma_read_length_bounds(after_id@);
    }
    let encoded: u32 = variable_length_encoded_size(property_length);
    if property_length + encoded > after_id.len() as u32 {
        return Err(AckError::BadResponse);
    }
    let total: usize = encoded as usize + property_length as usize;
    let properties = vstd::slice::slice_subrange(after_id, encoded as usize, total);
    assert(properties@ =~= after_id@.skip(encoded as int).take(property_length as int));
    match walk_ack_properties(properties) {
        Ok(()) => Ok((properties, total)),
        Err(error) => Err(error),
    }
}

/// The property walk that both families share.
fn walk_ack_properties(properties: &[u8]) -> (result: Result<(), AckError>)
    requires
        properties@.len() <= u32::MAX,
    ensures
        result == (if ack_properties_ok(properties@, false) {
            Ok::<(), AckError>(())
        } else {
            Err(AckError::BadResponse)
        }),
{
    let mut reader = PropertyReader::new(properties, properties.len() as u32);
    let mut reason_string_seen = false;
    while reader.remaining() > 0
        invariant
            reader.full(),
            ack_properties_ok(properties@, false) == ack_properties_ok(
                reader.window(),
                reason_string_seen,
            ),
        decreases reader.left(),
    {
        let id = match reader.property_id() {
            Ok(id) => id,
            Err(_) => return Err(AckError::BadResponse),
        };
        if id == REASON_STRING_ID {
            match reader.utf8(&mut reason_string_seen) {
                Ok(_) => {},
                Err(_) => return Err(AckError::BadResponse),
            }
        } else if id == USER_PROPERTY_ID {
            match reader.user_property() {
                Ok(_) => {},
                Err(_) => return Err(AckError::BadResponse),
            }
        } else {
            return Err(AckError::BadResponse);
        }
    }
    Ok(())
}

/// Every reason code must be one that a SUBACK may carry.
///
/// # Errors
///
/// [`AckError::BadResponse`] if one is not.
pub fn read_suback_status(reason_codes: &[u8]) -> (result: Result<(), AckError>)
    ensures
        result == (if forall|i: int| 0 <= i < reason_codes@.len() ==> suback_code(#[trigger] reason_codes@[i]) {
            Ok::<(), AckError>(())
        } else {
            Err(AckError::BadResponse)
        }),
{
    let mut index: usize = 0;
    while index < reason_codes.len()
        invariant
            index <= reason_codes@.len(),
            forall|i: int| 0 <= i < index ==> suback_code(#[trigger] reason_codes@[i]),
        decreases reason_codes@.len() - index,
    {
        let code: u8 = reason_codes[index];
        match code {
            // Granted QoS 0, 1 and 2.
            0x00..=0x02 => {},
            // Refusals.
            0x80 | 0x83 | 0x87 | 0x8F | 0x91 | 0x97 | 0x9E | 0xA1 | 0xA2 => {},
            _ => {
                assert(!suback_code(reason_codes@[index as int]));
                return Err(AckError::BadResponse);
            },
        }
        index += 1;
    }
    Ok(())
}

/// The reason codes that a publish acknowledgement may carry. The four kinds
/// share one list.
///
/// # Errors
///
/// [`AckError::BadResponse`] for any other code.
pub fn validate_ack_reason_code(code: u8) -> (result: Result<(), AckError>)
    ensures
        result == (if publish_ack_code(code) {
            Ok::<(), AckError>(())
        } else {
            Err(AckError::BadResponse)
        }),
{
    match code {
        0x00 | 0x10 | 0x80 | 0x83 | 0x87 | 0x90 | 0x91 | 0x92 | 0x97 | 0x99 => Ok(()),
        _ => Err(AckError::BadResponse),
    }
}

/// The first two bytes, most significant first, refusing zero: no publish in
/// flight has that identifier.
fn read_packet_id(remaining_data: &[u8]) -> (id: Result<u16, AckError>)
    ensures
        id == (match packet_id_of(remaining_data@) {
            Some(v) => Ok::<u16, AckError>(v),
            None => Err(AckError::BadResponse),
        }),
{
    if remaining_data.len() < 2 {
        return Err(AckError::BadResponse);
    }
    let id = wire::join_u16(remaining_data[0], remaining_data[1]);
    if id == 0 {
        return Err(AckError::BadResponse);
    }
    Ok(id)
}

/// `length` bytes starting at `from`, if the buffer really has them.
///
/// # Errors
///
/// [`AckError::BadResponse`] if it has not.
pub fn bounded(buffer: &[u8], from: usize, length: u32) -> (part: Result<&[u8], AckError>)
    ensures
        wire::viewed(part) == (match wire::part(buffer@, from as int, length as int) {
            Some(bytes) => Ok::<Seq<u8>, AckError>(bytes),
            None => Err(AckError::BadResponse),
        }),
{
    if from > buffer.len() || length as usize > buffer.len() - from {
        return Err(AckError::BadResponse);
    }
    Ok(vstd::slice::slice_subrange(buffer, from, from + length as usize))
}

/// **Law.** An accepted acknowledgement never shows bytes that did not arrive:
/// what it hands out is no more than the data.
pub proof fn law_ack_shows_only_what_arrived(packet: PacketModel, limits: Limits)
    ensures
        ack_of(packet, limits) matches Ok(ack) ==> ack.reason_codes.len() + ack.properties.len()
            <= packet.data.len(),
{
    if let Some(id) = packet_id_of(packet.data) {
        if let Some(body) = wire::part(packet.data, 3, packet.claimed - 3) {
            wire::lemma_read_length_bounds(body);
        }
        if let Some(body) = wire::part(packet.data, 2, packet.claimed - 2) {
            wire::lemma_read_length_bounds(body);
        }
    }
}

} // verus!
