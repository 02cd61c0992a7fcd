//! The DISCONNECT, in both directions.
//!
//! Either end may send one. The two directions differ in the reason codes and
//! in the properties that they allow: a Session Expiry Interval goes out only,
//! a Server Reference comes in only.
//!
//! A body-less DISCONNECT is read but never written: one without a reason code
//! is written with an empty property section, as three bytes.

use vstd::prelude::*;

use crate::ack::{bounded, AckError, PacketInfo, PacketModel};
use crate::header;
use crate::header::{packet, variable_length_encoded_size, REMAINING_LENGTH_INVALID};
use crate::property::{decode_variable_length, put_section, PropertyError, PropertyReader};
use crate::wire;
use crate::wire::Sheet;
use crate::writer;

pub mod property;
pub mod reason;

verus! {

/// A DISCONNECT, read.
#[derive(Debug, Clone, Copy, PartialEq, Eq)]
pub struct Disconnect<'a> {
    /// The reason; `None` for a DISCONNECT without a body.
    pub reason_code: Option<u8>,
    /// The property section, without its length prefix.
    pub properties: &'a [u8],
}

/// A DISCONNECT, as values.
pub struct DisconnectModel {
    pub reason_code: Option<u8>,
    pub properties: Seq<u8>,
}

impl<'a> View for Disconnect<'a> {
    type V = DisconnectModel;

    open spec fn view(&self) -> DisconnectModel {
        DisconnectModel { reason_code: self.reason_code, properties: self.properties@ }
    }
}

/// How large a DISCONNECT is.
#[derive(Debug, Clone, Copy, PartialEq, Eq, Structural)]
pub struct DisconnectSize {
    /// The length of the body.
    pub remaining_length: u32,
    /// The length of the packet.
    pub packet_size: u32,
}

/// Why a DISCONNECT was refused.
#[derive(Debug, Clone, Copy, PartialEq, Eq, Structural)]
pub enum DisconnectError {
    /// The call was wrong.
    BadParameter,
    /// The packet, or the layout of a property, was wrong.
    BadResponse,
    /// The destination is too small.
    NoMemory,
}

impl From<PropertyError> for DisconnectError {
    fn from(_error: PropertyError) -> (converted: Self) {
        DisconnectError::BadResponse
    }
}

impl vstd::std_specs::convert::FromSpecImpl<PropertyError> for DisconnectError {
    open spec fn obeys_from_spec() -> bool {
        true
    }

    open spec fn from_spec(_error: PropertyError) -> Self {
        DisconnectError::BadResponse
    }
}

impl From<AckError> for DisconnectError {
    fn from(error: AckError) -> (converted: Self) {
        match error {
            AckError::BadParameter => DisconnectError::BadParameter,
            AckError::BadResponse => DisconnectError::BadResponse,
        }
    }
}

impl vstd::std_specs::convert::FromSpecImpl<AckError> for DisconnectError {
    open spec fn obeys_from_spec() -> bool {
        true
    }

    open spec fn from_spec(error: AckError) -> Self {
        match error {
            AckError::BadParameter => DisconnectError::BadParameter,
            AckError::BadResponse => DisconnectError::BadResponse,
        }
    }
}

// ---------------------------------------------------------------------------
// What a DISCONNECT says
// ---------------------------------------------------------------------------

/// The reason codes a DISCONNECT may carry, in either direction.
pub open spec fn disconnect_code(code: u8, incoming: bool) -> bool {
    ||| code == 0x04 && !incoming
    ||| code == 0x00 || 0x80 <= code <= 0x83 || code == 0x90 || 0x93 <= code <= 0x99
    ||| incoming && (code == 0x87 || code == 0x89 || 0x8B <= code <= 0x8F || 0x9A <= code <= 0x9E
        || 0xA0 <= code <= 0xA2)
}

/// An incoming DISCONNECT's properties are at most one reason string, at most
/// one server reference, and any number of user properties.
pub open spec fn incoming_properties_ok(
    s: Seq<u8>,
    reason_seen: bool,
    reference_seen: bool,
) -> bool
    decreases s.len(),
{
    if s.len() == 0 {
        true
    } else if s[0] == property::REASON_STRING {
        match wire::take_text(s.skip(1)) {
            Some((_, rest)) => !reason_seen && incoming_properties_ok(rest, true, reference_seen),
            None => false,
        }
    } else if s[0] == property::SERVER_REFERENCE {
        match wire::take_text(s.skip(1)) {
            Some((_, rest)) => !reference_seen && incoming_properties_ok(rest, reason_seen, true),
            None => false,
        }
    } else if s[0] == property::USER_PROPERTY {
        match wire::take_pair(s.skip(1)) {
            Some((_, rest)) => incoming_properties_ok(rest, reason_seen, reference_seen),
            None => false,
        }
    } else {
        false
    }
}

/// Reading a DISCONNECT: what it says, or why it is refused.
pub open spec fn disconnect_of(packet: PacketModel, max_packet_size: u32) -> Result<
    DisconnectModel,
    DisconnectError,
> {
    if max_packet_size == 0 {
        Err(DisconnectError::BadParameter)
    } else if packet.claimed >= REMAINING_LENGTH_INVALID || header::counted_packet(packet.claimed)
        > max_packet_size {
        Err(DisconnectError::BadResponse)
    } else if packet.claimed == 0 {
        Ok(DisconnectModel { reason_code: None, properties: Seq::empty() })
    } else if packet.data.len() < 1 || !disconnect_code(packet.data[0], true) {
        Err(DisconnectError::BadResponse)
    } else if packet.claimed == 1 {
        Ok(DisconnectModel { reason_code: Some(packet.data[0]), properties: Seq::empty() })
    } else {
        match wire::part(packet.data, 1, packet.claimed - 1) {
            None => Err(DisconnectError::BadResponse),
            Some(after) => match wire::take_length(after) {
                None => Err(DisconnectError::BadResponse),
                Some((n, properties)) => if properties.len() == n && incoming_properties_ok(
                    properties,
                    false,
                    false,
                ) {
                    Ok(DisconnectModel { reason_code: Some(packet.data[0]), properties })
                } else {
                    Err(DisconnectError::BadResponse)
                },
            },
        }
    }
}

/// Checking the properties of an outgoing DISCONNECT, in the order in which
/// they stand. A session that was opened without an expiry cannot be given one.
/// Repeats are not looked for.
pub open spec fn outgoing_check(s: Seq<u8>, connect_session_expiry: u32) -> Result<
    (),
    DisconnectError,
>
    decreases s.len(),
{
    if s.len() == 0 {
        Ok(())
    } else if s[0] == property::SESSION_EXPIRY {
        match wire::take_u32(s.skip(1)) {
            Some((expiry, rest)) => if connect_session_expiry == 0 && expiry != 0 {
                Err(DisconnectError::BadParameter)
            } else {
                outgoing_check(rest, connect_session_expiry)
            },
            None => Err(DisconnectError::BadResponse),
        }
    } else if s[0] == property::REASON_STRING {
        match wire::take_text(s.skip(1)) {
            Some((_, rest)) => outgoing_check(rest, connect_session_expiry),
            None => Err(DisconnectError::BadResponse),
        }
    } else if s[0] == property::USER_PROPERTY {
        match wire::take_pair(s.skip(1)) {
            Some((_, rest)) => outgoing_check(rest, connect_session_expiry),
            None => Err(DisconnectError::BadResponse),
        }
    } else {
        Err(DisconnectError::BadParameter)
    }
}

/// The fields of a DISCONNECT's fixed part: the reason code, if there is one.
pub open spec fn reason_field(reason_code: Option<u8>) -> Seq<u8> {
    match reason_code {
        Some(code) => seq![code],
        None => Seq::empty(),
    }
}

/// The body length of a DISCONNECT with this many bytes of properties.
pub open spec fn disconnect_body(reason_code: Option<u8>, property_length: int) -> int {
    reason_field(reason_code).len() + wire::length_size(property_length) + property_length
}

/// How large a DISCONNECT is, or that it may not be sent.
pub open spec fn disconnect_size(
    reason_code: Option<u8>,
    property_length: u32,
    max_packet_size: u32,
) -> Result<DisconnectSize, DisconnectError> {
    let body = disconnect_body(reason_code, property_length as int);
    if (reason_code is None && property_length != 0) || max_packet_size == 0 || (
    reason_code matches Some(code) && !disconnect_code(code, false)) || body
        >= REMAINING_LENGTH_INVALID || header::whole_packet(body) > max_packet_size {
        Err(DisconnectError::BadParameter)
    } else {
        Ok(
            DisconnectSize {
                remaining_length: body as u32,
                packet_size: header::whole_packet(body) as u32,
            },
        )
    }
}

/// Writing a DISCONNECT over a buffer: how much was written, or why not, and
/// the buffer after.
pub open spec fn disconnect_written(
    buffer: Seq<u8>,
    reason_code: Option<u8>,
    properties: Seq<u8>,
    remaining_length: u32,
) -> (Result<usize, DisconnectError>, Seq<u8>) {
    let sheet = Sheet::over(buffer).put(
        writer::fixed_bytes(packet::DISCONNECT, remaining_length, reason_field(reason_code)),
    ).put_section(properties);
    if properties.len() >= REMAINING_LENGTH_INVALID || (reason_code is None && properties.len()
        != 0) || remaining_length >= REMAINING_LENGTH_INVALID {
        (Err(DisconnectError::BadParameter), buffer)
    } else if buffer.len() < header::whole_packet(remaining_length as int) {
        (Err(DisconnectError::NoMemory), buffer)
    } else if sheet.open {
        (Ok(sheet.at as usize), sheet.buffer)
    } else {
        (Err(DisconnectError::NoMemory), sheet.buffer)
    }
}

// ---------------------------------------------------------------------------
// Incoming
// ---------------------------------------------------------------------------

/// May a DISCONNECT carry this reason code, in this direction?
#[must_use]
pub fn reason_code_allowed(reason_code: u8, incoming: bool) -> (allowed: bool)
    ensures
        allowed == disconnect_code(reason_code, incoming),
{
    match reason_code {
        // "Disconnect with will message" makes sense from a client only.
        0x04 => !incoming,
        0x00 | 0x80 | 0x81 | 0x82 | 0x83 | 0x90 | 0x93 | 0x94 | 0x95 | 0x96 | 0x97 | 0x98
        | 0x99 => true,
        0x87 | 0x89 | 0x8B | 0x8C | 0x8D | 0x8E | 0x8F | 0x9A | 0x9B | 0x9C | 0x9D | 0x9E | 0xA0
        | 0xA1 | 0xA2 => incoming,
        _ => false,
    }
}

/// Reads a DISCONNECT.
///
/// # Errors
///
/// [`DisconnectError::BadParameter`] if `max_packet_size` is zero;
/// [`DisconnectError::BadResponse`] for everything that can be wrong with the
/// packet.
pub fn deserialize_disconnect<'a>(packet: &PacketInfo<'a>, max_packet_size: u32) -> (disconnect:
    Result<Disconnect<'a>, DisconnectError>)
    ensures
        wire::viewed(disconnect) == disconnect_of(packet@, max_packet_size),
{
    if max_packet_size == 0 {
        return Err(DisconnectError::BadParameter);
    }
    if packet.remaining_length >= REMAINING_LENGTH_INVALID {
        return Err(DisconnectError::BadResponse);
    }
    if header::packet_size_of(packet.remaining_length) > max_packet_size {
        return Err(DisconnectError::BadResponse);
    }
    let data = packet.remaining_data;
    let none: &'a [u8] = vstd::slice::slice_subrange(data, 0, 0);
    assert(none@ =~= Seq::<u8>::empty());
    if packet.remaining_length == 0 {
        return Ok(Disconnect { reason_code: None, properties: none });
    }
    if data.len() < 1 {
        return Err(DisconnectError::BadResponse);
    }
    let reason_code: u8 = data[0];
    if !reason_code_allowed(reason_code, true) {
        return Err(DisconnectError::BadResponse);
    }
    if packet.remaining_length == 1 {
        return Ok(Disconnect { reason_code: Some(reason_code), properties: none });
    }
    let after_reason = match bounded(data, 1, packet.remaining_length - 1) {
        Ok(part) => part,
        Err(_) => return Err(DisconnectError::BadResponse),
    };
    let property_length = match decode_variable_length(after_reason) {
        Ok(length) => length,
        Err(_) => return Err(DisconnectError::BadResponse),
    };
    proof {
        wire::lemma_read_length_bounds(after_reason@);
    }
    let encoded: u32 = variable_length_encoded_size(property_length);
    // Nothing follows the properties, so they must fill the body exactly.
    if packet.remaining_length != property_length + encoded + 1 {
        return Err(DisconnectError::BadResponse);
    }
    let properties = vstd::slice::slice_subrange(
        after_reason,
        encoded as usize,
        after_reason.len(),
    );
    assert(properties@ =~= after_reason@.skip(encoded as int));
    match walk_incoming_properties(properties) {
        Ok(()) => Ok(Disconnect { reason_code: Some(reason_code), properties }),
        Err(error) => Err(error),
    }
}

/// Reads every property of an incoming section.
fn walk_incoming_properties(properties: &[u8]) -> (result: Result<(), DisconnectError>)
    requires
        properties@.len() <= u32::MAX,
    ensures
        result == (if incoming_properties_ok(properties@, false, false) {
            Ok::<(), DisconnectError>(())
        } else {
            Err(DisconnectError::BadResponse)
        }),
{
    let mut reader = PropertyReader::new(properties, properties.len() as u32);
    let mut reason_string = false;
    let mut server_reference = false;
    while reader.remaining() > 0
        invariant
            reader.full(),
            incoming_properties_ok(properties@, false, false) == incoming_properties_ok(
                reader.window(),
                reason_string,
                server_reference,
            ),
        decreases reader.left(),
    {
        let id = match reader.property_id() {
            Ok(id) => id,
            Err(_) => return Err(DisconnectError::BadResponse),
        };
        match id {
            property::REASON_STRING => match reader.utf8(&mut reason_string) {
                Ok(_) => {},
                Err(_) => return Err(DisconnectError::BadResponse),
            },
            property::SERVER_REFERENCE => match reader.utf8(&mut server_reference) {
                Ok(_) => {},
                Err(_) => return Err(DisconnectError::BadResponse),
            },
            property::USER_PROPERTY => match reader.user_property() {
                Ok(_) => {},
                Err(_) => return Err(DisconnectError::BadResponse),
            },
            _ => return Err(DisconnectError::BadResponse),
        }
    }
    Ok(())
}

// ---------------------------------------------------------------------------
// Outgoing
// ---------------------------------------------------------------------------

/// Checks the properties of an outgoing DISCONNECT.
///
/// # Errors
///
/// [`DisconnectError::BadParameter`] for a property that may not be sent, for a
/// session expiry on a session that was opened without one, or for more bytes
/// than a `u32` can count; [`DisconnectError::BadResponse`] for a property that
/// does not fit the section. The first one found is reported.
pub fn validate_outgoing_properties(connect_session_expiry: u32, properties: &[u8]) -> (result:
    Result<(), DisconnectError>)
    ensures
        result == (if properties@.len() > u32::MAX {
            Err::<(), DisconnectError>(DisconnectError::BadParameter)
        } else {
            outgoing_check(properties@, connect_session_expiry)
        }),
{
    if properties.len() > u32::MAX as usize {
        return Err(DisconnectError::BadParameter);
    }
    let mut reader = PropertyReader::new(properties, properties.len() as u32);
    while reader.remaining() > 0
        invariant
            reader.full(),
            properties@.len() <= u32::MAX,
            outgoing_check(properties@, connect_session_expiry) == outgoing_check(
                reader.window(),
                connect_session_expiry,
            ),
        decreases reader.left(),
    {
        let mut used = false;
        let id = match reader.property_id() {
            Ok(id) => id,
            Err(_) => return Err(DisconnectError::BadResponse),
        };
        match id {
            property::SESSION_EXPIRY => match reader.u32(&mut used) {
                Ok(session_expiry) => {
                    if connect_session_expiry == 0 && session_expiry != 0 {
                        return Err(DisconnectError::BadParameter);
                    }
                },
                Err(_) => return Err(DisconnectError::BadResponse),
            },
            property::REASON_STRING => match reader.utf8(&mut used) {
                Ok(_) => {},
                Err(_) => return Err(DisconnectError::BadResponse),
            },
            property::USER_PROPERTY => match reader.user_property() {
                Ok(_) => {},
                Err(_) => return Err(DisconnectError::BadResponse),
            },
            _ => return Err(DisconnectError::BadParameter),
        }
    }
    Ok(())
}

/// How large a DISCONNECT with these parts is.
///
/// # Errors
///
/// [`DisconnectError::BadParameter`] for properties without a reason code, a
/// reason code a client may not send, a zero `max_packet_size`, or a packet
/// past either limit.
pub fn disconnect_packet_size(
    reason_code: Option<u8>,
    property_length: u32,
    max_packet_size: u32,
) -> (size: Result<DisconnectSize, DisconnectError>)
    ensures
        size == disconnect_size(reason_code, property_length, max_packet_size),
{
    if reason_code.is_none() && property_length != 0 {
        return Err(DisconnectError::BadParameter);
    }
    if max_packet_size == 0 {
        return Err(DisconnectError::BadParameter);
    }
    let mut length: u32 = 0;
    match reason_code {
        Some(code) => {
            if !reason_code_allowed(code, false) {
                return Err(DisconnectError::BadParameter);
            }
            length = 1;
        },
        None => {},
    }
    if property_length >= REMAINING_LENGTH_INVALID {
        return Err(DisconnectError::BadParameter);
    }
    let remaining_length: u32 = length + variable_length_encoded_size(property_length)
        + property_length;
    if remaining_length >= REMAINING_LENGTH_INVALID {
        return Err(DisconnectError::BadParameter);
    }
    let packet_size = header::packet_size_of(remaining_length);
    if packet_size > max_packet_size {
        return Err(DisconnectError::BadParameter);
    }
    Ok(DisconnectSize { remaining_length, packet_size })
}

/// Writes a DISCONNECT, and returns how many bytes it took.
///
/// # Errors
///
/// [`DisconnectError::BadParameter`] for properties without a reason code, or a
/// length past the limit; [`DisconnectError::NoMemory`] if the destination is
/// too small for the length announced, or for what is written.
pub fn serialize_disconnect(
    destination: &mut [u8],
    reason_code: Option<u8>,
    properties: &[u8],
    remaining_length: u32,
) -> (written: Result<usize, DisconnectError>)
    ensures
        (written, final(destination)@) == disconnect_written(
            old(destination)@,
            reason_code,
            properties@,
            remaining_length,
        ),
{
    let ghost before = destination@;
    if properties.len() >= REMAINING_LENGTH_INVALID as usize {
        return Err(DisconnectError::BadParameter);
    }
    if reason_code.is_none() && properties.len() != 0 {
        return Err(DisconnectError::BadParameter);
    }
    if remaining_length >= REMAINING_LENGTH_INVALID {
        return Err(DisconnectError::BadParameter);
    }
    if destination.len() < header::packet_size_of(remaining_length) as usize {
        return Err(DisconnectError::NoMemory);
    }
    proof {
        writer::law_fixed_whole_or_nothing(
            before,
            packet::DISCONNECT,
            remaining_length,
            reason_field(reason_code),
        );
    }
    let at = writer::serialize_disconnect_fixed(destination, reason_code, remaining_length);
    if at == 0 {
        return Err(DisconnectError::NoMemory);
    }
    match put_section(destination, at, properties) {
        Some(end) => Ok(end),
        None => Err(DisconnectError::NoMemory),
    }
}

/// The bytes of a DISCONNECT.
pub open spec fn disconnect_bytes(
    reason_code: Option<u8>,
    properties: Seq<u8>,
    remaining_length: u32,
) -> Seq<u8> {
    writer::fixed_bytes(packet::DISCONNECT, remaining_length, reason_field(reason_code))
        + wire::section_bytes(properties)
}

/// **Law.** The size that is calculated is the size that is written: a
/// destination of that many bytes or more is filled with exactly those.
pub proof fn law_disconnect_size_is_written(
    buffer: Seq<u8>,
    reason_code: Option<u8>,
    properties: Seq<u8>,
    max_packet_size: u32,
)
    requires
        properties.len() < REMAINING_LENGTH_INVALID,
    ensures
        disconnect_size(reason_code, properties.len() as u32, max_packet_size) matches Ok(size)
            ==> {
            let bytes = disconnect_bytes(reason_code, properties, size.remaining_length);
            &&& bytes.len() == size.packet_size
            &&& size.packet_size <= buffer.len() ==> disconnect_written(
                buffer,
                reason_code,
                properties,
                size.remaining_length,
            ) == (
                Ok::<usize, DisconnectError>(size.packet_size as usize),
                wire::overwrite(buffer, 0, bytes),
            )
        },
{
    if let Ok(size) = disconnect_size(reason_code, properties.len() as u32, max_packet_size) {
        let sheet = Sheet::over(buffer);
        let fixed = writer::fixed_bytes(
            packet::DISCONNECT,
            size.remaining_length,
            reason_field(reason_code),
        );
        wire::lemma_length_bytes_len(size.remaining_length as nat);
        wire::lemma_length_bytes_len(properties.len());
        if size.packet_size <= buffer.len() {
            wire::lemma_put_section(sheet.put(fixed), properties);
            wire::lemma_puts_join(sheet, fixed, wire::section_bytes(properties));
        }
    }
}

/// **Law.** A DISCONNECT that is written and could also have come from a broker
/// is read back as it was: by the fixed header, and by its body.
pub proof fn law_disconnect_round_trip(
    reason_code: u8,
    properties: Seq<u8>,
    max_packet_size: u32,
    read_max_packet_size: u32,
)
    requires
        properties.len() < REMAINING_LENGTH_INVALID,
        disconnect_size(Some(reason_code), properties.len() as u32, max_packet_size) is Ok,
        disconnect_code(reason_code, true),
        incoming_properties_ok(properties, false, false),
        (disconnect_size(
            Some(reason_code),
            properties.len() as u32,
            max_packet_size,
        )->Ok_0).packet_size <= read_max_packet_size,
    ensures
        ({
            let size = disconnect_size(
                Some(reason_code),
                properties.len() as u32,
                max_packet_size,
            )->Ok_0;
            let bytes = disconnect_bytes(Some(reason_code), properties, size.remaining_length);
            let head = 1 + wire::length_size(size.remaining_length as int);
            &&& header::header_of(bytes) == Ok::<header::PacketHeader, header::HeaderError>(
                header::PacketHeader {
                    packet_type: packet::DISCONNECT,
                    remaining_length: size.remaining_length,
                    header_length: head as usize,
                },
            )
            &&& disconnect_of(
                PacketModel {
                    packet_type: packet::DISCONNECT,
                    claimed: size.remaining_length,
                    data: bytes.skip(head),
                },
                read_max_packet_size,
            ) == Ok::<DisconnectModel, DisconnectError>(
                DisconnectModel { reason_code: Some(reason_code), properties },
            )
        }),
{
    let size = disconnect_size(
        Some(reason_code),
        properties.len() as u32,
        max_packet_size,
    )->Ok_0;
    let bytes = disconnect_bytes(Some(reason_code), properties, size.remaining_length);
    let head = 1 + wire::length_size(size.remaining_length as int);
    let section = wire::section_bytes(properties);
    let body = seq![reason_code] + section;
    wire::lemma_length_bytes_len(size.remaining_length as nat);
    wire::lemma_length_bytes_len(properties.len());
    assert(bytes =~= seq![packet::DISCONNECT] + wire::length_bytes(size.remaining_length as nat)
        + body);
    header::law_header_round_trip(packet::DISCONNECT, size.remaining_length, body);
    assert(bytes.skip(head) =~= body);
    assert(wire::part(body, 1, size.remaining_length - 1) == Some(section)) by {
        assert(body.subrange(1, size.remaining_length as int) =~= section);
    }
    wire::law_take_length_round_trip(properties.len() as u32, properties);
}

} // verus!
