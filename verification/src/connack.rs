//! Reading the CONNACK, the packet that opens a session.
//!
//! A CONNACK is the first thing a broker sends and the only packet that sets
//! connection-wide state: how large a packet the server accepts, how many
//! messages it takes in flight, which features it has, and what keep-alive the
//! client must use.
//!
//! A refused connection still parses. The reason string that says why the
//! broker refused is among the properties, so a refusal is `Ok` here, with
//! everything that the packet said; [`ConnAck::refused`] tells it apart.

use vstd::prelude::*;

use crate::cursor;
use crate::cursor::width_of;
use crate::ack::{bounded, AckError, PacketInfo, PacketModel};
use crate::header;
use crate::header::{packet, variable_length_encoded_size};
use crate::property::{decode_variable_length, PropertyError, PropertyReader};
use crate::wire;

pub mod field;
pub mod property;

verus! {

/// Flags, reason code, property length.
pub const CONNACK_MINIMUM_SIZE: u32 = 3;

/// The lowest bit of the flags.
pub const SESSION_PRESENT_MASK: u8 = 0x01;

/// What the client told the broker, which the CONNACK is checked against.
#[derive(Debug, Clone, Copy)]
pub struct ClientSettings {
    /// The largest packet this client accepts. Zero is refused.
    pub max_packet_size: u32,
    /// Whether the client asked for Response Information. If it did not, a
    /// CONNACK that carries it is refused.
    pub request_response_info: bool,
}

/// What the broker said, with zero standing for each absent property.
///
/// [`ConnAck::fields_present`] tells "the server said 0" from "the server said
/// nothing": a Maximum QoS of 0 and an absent one mean opposite things.
#[derive(Debug, Clone, Copy, PartialEq, Eq, Structural)]
pub struct ServerSettings {
    /// Session Expiry Interval, in seconds.
    pub session_expiry: u32,
    /// How many QoS 1 and 2 messages the server takes in flight. Never zero
    /// where it is present.
    pub receive_max: u16,
    /// The largest QoS the server supports, 0 or 1. Absent means 2.
    pub max_qos: u8,
    /// Whether retained messages work. Absent means yes.
    pub retain_available: u8,
    /// The largest packet the server accepts. Never zero where it is present.
    pub max_packet_size: u32,
    /// The highest topic alias the server accepts.
    pub topic_alias_max: u16,
    /// Whether wildcard subscriptions work. Absent means yes.
    pub wildcard_available: u8,
    /// Whether subscription identifiers work. Absent means yes.
    pub subscription_id_available: u8,
    /// Whether shared subscriptions work. Absent means yes.
    pub shared_available: u8,
    /// The keep-alive the server imposes, which overrides the client's.
    pub keep_alive: u16,
}

/// Settings of which nothing is present.
pub open spec fn no_settings() -> ServerSettings {
    ServerSettings {
        session_expiry: 0,
        receive_max: 0,
        max_qos: 0,
        retain_available: 0,
        max_packet_size: 0,
        topic_alias_max: 0,
        wildcard_available: 0,
        subscription_id_available: 0,
        shared_available: 0,
        keep_alive: 0,
    }
}

impl Default for ServerSettings {
    fn default() -> (settings: Self)
        ensures
            settings == no_settings(),
    {
        ServerSettings {
            session_expiry: 0,
            receive_max: 0,
            max_qos: 0,
            retain_available: 0,
            max_packet_size: 0,
            topic_alias_max: 0,
            wildcard_available: 0,
            subscription_id_available: 0,
            shared_available: 0,
            keep_alive: 0,
        }
    }
}

/// A CONNACK, read.
#[derive(Debug, Clone, Copy, PartialEq, Eq)]
pub struct ConnAck<'a> {
    /// Whether the broker resumed a previous session. Never with a refusal.
    pub session_present: bool,
    /// Zero is success; anything else is a refusal with a reason.
    pub reason_code: u8,
    /// Every limit the rest of the session runs under.
    pub server: ServerSettings,
    /// Which properties the packet carried, by [`field`] bit.
    pub fields_present: u32,
    /// The property section, without its length prefix.
    pub properties: &'a [u8],
}

/// A CONNACK, as values.
pub struct ConnAckModel {
    pub session_present: bool,
    pub reason_code: u8,
    pub server: ServerSettings,
    pub fields_present: u32,
    pub properties: Seq<u8>,
}

impl<'a> View for ConnAck<'a> {
    type V = ConnAckModel;

    open spec fn view(&self) -> ConnAckModel {
        ConnAckModel {
            session_present: self.session_present,
            reason_code: self.reason_code,
            server: self.server,
            fields_present: self.fields_present,
            properties: self.properties@,
        }
    }
}

impl<'a> ConnAck<'a> {
    /// The packet parsed, and the broker said no.
    #[must_use]
    pub fn refused(&self) -> (refused: bool)
        ensures
            refused == (self@.reason_code != 0),
    {
        self.reason_code != 0
    }
}

/// Why a CONNACK could not be read.
#[derive(Debug, Clone, Copy, PartialEq, Eq, Structural)]
pub enum ConnAckError {
    /// Not a CONNACK, or a zero maximum packet size.
    BadParameter,
    /// The packet was wrong.
    BadResponse,
}

impl From<PropertyError> for ConnAckError {
    fn from(_error: PropertyError) -> (converted: Self) {
        ConnAckError::BadResponse
    }
}

impl vstd::std_specs::convert::FromSpecImpl<PropertyError> for ConnAckError {
    open spec fn obeys_from_spec() -> bool {
        true
    }

    open spec fn from_spec(_error: PropertyError) -> Self {
        ConnAckError::BadResponse
    }
}

impl From<AckError> for ConnAckError {
    fn from(error: AckError) -> (converted: Self) {
        match error {
            AckError::BadParameter => ConnAckError::BadParameter,
            AckError::BadResponse => ConnAckError::BadResponse,
        }
    }
}

impl vstd::std_specs::convert::FromSpecImpl<AckError> for ConnAckError {
    open spec fn obeys_from_spec() -> bool {
        true
    }

    open spec fn from_spec(error: AckError) -> Self {
        match error {
            AckError::BadParameter => ConnAckError::BadParameter,
            AckError::BadResponse => ConnAckError::BadResponse,
        }
    }
}

// ---------------------------------------------------------------------------
// What a CONNACK says
// ---------------------------------------------------------------------------

/// The bit of each property a CONNACK may carry; `None` for any other.
pub open spec fn connack_bit(id: u8) -> Option<u32> {
    if id == property::SESSION_EXPIRY {
        Some(field::SESSION_EXPIRY_INTERVAL)
    } else if id == property::RECEIVE_MAX {
        Some(field::RECEIVE_MAXIMUM)
    } else if id == property::MAX_QOS {
        Some(field::MAX_QOS)
    } else if id == property::RETAIN_AVAILABLE {
        Some(field::RETAIN_AVAILABLE)
    } else if id == property::MAX_PACKET_SIZE {
        Some(field::MAX_PACKET_SIZE)
    } else if id == property::ASSIGNED_CLIENT_ID {
        Some(field::ASSIGNED_CLIENT_ID)
    } else if id == property::TOPIC_ALIAS_MAX {
        Some(field::TOPIC_ALIAS_MAX)
    } else if id == property::REASON_STRING {
        Some(field::REASON_STRING)
    } else if id == property::USER_PROPERTY {
        Some(field::USER_PROP)
    } else if id == property::WILDCARD_AVAILABLE {
        Some(field::WILDCARD_SUBSCRIPTION_AVAILABLE)
    } else if id == property::SUBSCRIPTION_ID_AVAILABLE {
        Some(field::SUBSCRIPTION_ID_AVAILABLE)
    } else if id == property::SHARED_SUB_AVAILABLE {
        Some(field::SHARED_SUBSCRIPTION_AVAILABLE)
    } else if id == property::SERVER_KEEP_ALIVE {
        Some(field::SERVER_KEEP_ALIVE)
    } else if id == property::RESPONSE_INFO {
        Some(field::RESPONSE_INFORMATION)
    } else if id == property::SERVER_REFERENCE {
        Some(field::SERVER_REFERENCE)
    } else if id == property::AUTH_METHOD {
        Some(field::AUTHENTICATION_METHOD)
    } else if id == property::AUTH_DATA {
        Some(field::AUTHENTICATION_DATA)
    } else {
        None
    }
}

/// The value a property may have. Five are flags, two are limits that must not
/// be zero, and Response Information has to have been asked for.
pub open spec fn connack_value_ok(id: u8, value: u32, request_response_info: bool) -> bool {
    if id == property::MAX_QOS || id == property::RETAIN_AVAILABLE || id
        == property::WILDCARD_AVAILABLE || id == property::SUBSCRIPTION_ID_AVAILABLE || id
        == property::SHARED_SUB_AVAILABLE {
        value <= 1
    } else if id == property::RECEIVE_MAX || id == property::MAX_PACKET_SIZE {
        value != 0
    } else if id == property::RESPONSE_INFO {
        request_response_info
    } else {
        true
    }
}

/// The settings after a property.
pub open spec fn with_setting(server: ServerSettings, id: u8, value: u32) -> ServerSettings {
    if id == property::SESSION_EXPIRY {
        ServerSettings { session_expiry: value, ..server }
    } else if id == property::RECEIVE_MAX {
        ServerSettings { receive_max: value as u16, ..server }
    } else if id == property::MAX_QOS {
        ServerSettings { max_qos: value as u8, ..server }
    } else if id == property::RETAIN_AVAILABLE {
        ServerSettings { retain_available: value as u8, ..server }
    } else if id == property::MAX_PACKET_SIZE {
        ServerSettings { max_packet_size: value, ..server }
    } else if id == property::TOPIC_ALIAS_MAX {
        ServerSettings { topic_alias_max: value as u16, ..server }
    } else if id == property::WILDCARD_AVAILABLE {
        ServerSettings { wildcard_available: value as u8, ..server }
    } else if id == property::SUBSCRIPTION_ID_AVAILABLE {
        ServerSettings { subscription_id_available: value as u8, ..server }
    } else if id == property::SHARED_SUB_AVAILABLE {
        ServerSettings { shared_available: value as u8, ..server }
    } else if id == property::SERVER_KEEP_ALIVE {
        ServerSettings { keep_alive: value as u16, ..server }
    } else {
        server
    }
}

/// Reads the property `id` from `body`: its value, its bit, and the bytes after
/// it. `None` if it is not a CONNACK property, is present already and may not
/// repeat, does not fit, or has a value it must not have.
pub open spec fn connack_step(
    id: u8,
    body: Seq<u8>,
    fields: u32,
    request_response_info: bool,
) -> Option<(u32, u32, Seq<u8>)> {
    match (connack_bit(id), cursor::layout(id)) {
        (Some(bit), Some(width)) => if id != property::USER_PROPERTY && fields & (1u32 << bit)
            != 0 {
            None
        } else {
            match crate::property::take_number(width, body) {
                Some((value, rest)) => if connack_value_ok(id, value, request_response_info) {
                    Some((value, bit, rest))
                } else {
                    None
                },
                None => None,
            }
        },
        _ => None,
    }
}

/// Reading a property uses bytes up.
pub proof fn lemma_connack_step(
    id: u8,
    body: Seq<u8>,
    fields: u32,
    request_response_info: bool,
)
    ensures
        connack_step(id, body, fields, request_response_info) matches Some((_, bit, rest)) ==> {
            &&& rest.len() < body.len()
            &&& bit < 32
            &&& connack_bit(id) == Some(bit)
        },
{
    if let Some(width) = cursor::layout(id) {
        crate::property::lemma_take_number(width, body);
    }
}

/// Reads a whole section: the settings it makes and the bitmap of what was in
/// it.
pub open spec fn connack_walk(
    s: Seq<u8>,
    server: ServerSettings,
    fields: u32,
    request_response_info: bool,
) -> Option<(ServerSettings, u32)>
    decreases s.len(),
{
    if s.len() == 0 {
        Some((server, fields))
    } else {
        proof {
            lemma_connack_step(s[0], s.skip(1), fields, request_response_info);
        }
        match connack_step(s[0], s.skip(1), fields, request_response_info) {
            None => None,
            Some((value, bit, rest)) => connack_walk(
                rest,
                with_setting(server, s[0], value),
                fields | (1u32 << bit),
                request_response_info,
            ),
        }
    }
}

/// The reason codes that a CONNACK may carry.
pub open spec fn connack_code(code: u8) -> bool {
    code == 0x00 || 0x80 <= code <= 0x8A || code == 0x8C || code == 0x90 || code == 0x95 || code
        == 0x97 || 0x99 <= code <= 0x9D || code == 0x9F
}

/// What a CONNACK's body says, if it is well formed: flags of which only the
/// lowest bit may be set, and not with a refusal; a known reason code; and a
/// property section that ends with the packet.
pub open spec fn connack_body(
    claimed: u32,
    data: Seq<u8>,
    request_response_info: bool,
) -> Option<ConnAckModel> {
    if claimed < CONNACK_MINIMUM_SIZE || data.len() < 2 || data[0] > 1 || (data[0] == 1 && data[1]
        != 0) || !connack_code(data[1]) {
        None
    } else {
        match wire::part(data, 2, claimed - 2) {
            None => None,
            Some(after) => match wire::take_length(after) {
                None => None,
                Some((n, properties)) => if properties.len() != n {
                    None
                } else {
                    match connack_walk(
                        properties,
                        no_settings(),
                        0,
                        request_response_info,
                    ) {
                        None => None,
                        Some((server, fields_present)) => Some(
                            ConnAckModel {
                                session_present: data[0] == 1,
                                reason_code: data[1],
                                server,
                                fields_present,
                                properties,
                            },
                        ),
                    }
                },
            },
        }
    }
}

/// Reading a CONNACK: what it says, or why it cannot be read.
pub open spec fn connack_of(packet: PacketModel, client: ClientSettings) -> Result<
    ConnAckModel,
    ConnAckError,
> {
    if packet.packet_type != packet::CONNACK || client.max_packet_size == 0 {
        Err(ConnAckError::BadParameter)
    } else if header::counted_packet(packet.claimed) > client.max_packet_size {
        Err(ConnAckError::BadResponse)
    } else {
        match connack_body(packet.claimed, packet.data, client.request_response_info) {
            Some(connack) => Ok(connack),
            None => Err(ConnAckError::BadResponse),
        }
    }
}

// ---------------------------------------------------------------------------
// Reading
// ---------------------------------------------------------------------------

/// Reads a CONNACK.
///
/// # Errors
///
/// [`ConnAckError::BadParameter`] if the packet is not a CONNACK or
/// `max_packet_size` is zero; [`ConnAckError::BadResponse`] for everything that
/// can be wrong with the packet.
pub fn deserialize_connack<'a>(packet: &PacketInfo<'a>, client: &ClientSettings) -> (connack:
    Result<ConnAck<'a>, ConnAckError>)
    ensures
        wire::viewed(connack) == connack_of(packet@, *client),
{
    if packet.packet_type != packet::CONNACK {
        return Err(ConnAckError::BadParameter);
    }
    if client.max_packet_size == 0 {
        return Err(ConnAckError::BadParameter);
    }
    if header::packet_size_of(packet.remaining_length) > client.max_packet_size {
        return Err(ConnAckError::BadResponse);
    }
    if packet.remaining_length < CONNACK_MINIMUM_SIZE {
        return Err(ConnAckError::BadResponse);
    }
    let data = packet.remaining_data;
    if data.len() < 2 {
        return Err(ConnAckError::BadResponse);
    }
    let flags: u8 = data[0];
    let reason_code: u8 = data[1];
    // Every bit but the lowest is reserved.
    if flags > SESSION_PRESENT_MASK {
        return Err(ConnAckError::BadResponse);
    }
    let session_present = flags == SESSION_PRESENT_MASK;
    // A session cannot be resumed and refused at once.
    if session_present && reason_code != 0 {
        return Err(ConnAckError::BadResponse);
    }
    if !connack_reason_code_valid(reason_code) {
        return Err(ConnAckError::BadResponse);
    }
    let after_header = match bounded(data, 2, packet.remaining_length - 2) {
        Ok(part) => part,
        Err(_) => return Err(ConnAckError::BadResponse),
    };
    let property_length = match decode_variable_length(after_header) {
        Ok(length) => length,
        Err(_) => return Err(ConnAckError::BadResponse),
    };
    proof {
        wire::lemma_read_length_bounds(after_header@);
    }
    let encoded: u32 = variable_length_encoded_size(property_length);
    // Nothing follows the properties, so they must fill the body exactly.
    if packet.remaining_length != property_length + encoded + 2 {
        return Err(ConnAckError::BadResponse);
    }
    let properties = vstd::slice::slice_subrange(
        after_header,
        encoded as usize,
        after_header.len(),
    );
    assert(properties@ =~= after_header@.skip(encoded as int));
    match walk_connack_properties(properties, client) {
        Ok((server, fields_present)) => Ok(
            ConnAck { session_present, reason_code, server, fields_present, properties },
        ),
        Err(error) => Err(error),
    }
}

/// Is this a reason code that a CONNACK may carry?
#[must_use]
pub fn connack_reason_code_valid(reason_code: u8) -> (valid: bool)
    ensures
        valid == connack_code(reason_code),
{
    match reason_code {
        0x00 | 0x80 | 0x81 | 0x82 | 0x83 | 0x84 | 0x85 | 0x86 | 0x87 | 0x88 | 0x89 | 0x8A | 0x8C
        | 0x90 | 0x95 | 0x97 | 0x99 | 0x9A | 0x9B | 0x9C | 0x9D | 0x9F => true,
        _ => false,
    }
}

/// Reads every property of the section.
fn walk_connack_properties(properties: &[u8], client: &ClientSettings) -> (found: Result<
    (ServerSettings, u32),
    ConnAckError,
>)
    requires
        properties@.len() <= u32::MAX,
    ensures
        found == (match connack_walk(
            properties@,
            no_settings(),
            0,
            client.request_response_info,
        ) {
            Some(all) => Ok::<(ServerSettings, u32), ConnAckError>(all),
            None => Err(ConnAckError::BadResponse),
        }),
{
    let mut reader = PropertyReader::new(properties, properties.len() as u32);
    let mut server = ServerSettings::default();
    let mut fields_present: u32 = 0;
    while reader.remaining() > 0
        invariant
            reader.full(),
            connack_walk(properties@, no_settings(), 0, client.request_response_info)
                == connack_walk(
                reader.window(),
                server,
                fields_present,
                client.request_response_info,
            ),
        decreases reader.left(),
    {
        let id = match reader.property_id() {
            Ok(id) => id,
            Err(_) => return Err(ConnAckError::BadResponse),
        };
        let (bit, width) = match (connack_field(id), width_of(id)) {
            (Some(bit), Some(width)) => (bit, width),
            _ => return Err(ConnAckError::BadResponse),
        };
        // A repeat is a protocol error for every property but the User Property.
        let mut used = id != property::USER_PROPERTY && fields_present & (1u32 << bit) != 0;
        let value = match reader.number(width, &mut used) {
            Ok(value) => value,
            Err(_) => return Err(ConnAckError::BadResponse),
        };
        if !connack_value_valid(id, value, client) {
            return Err(ConnAckError::BadResponse);
        }
        store_setting(&mut server, id, value);
        fields_present = fields_present | (1u32 << bit);
    }
    Ok((server, fields_present))
}

/// The bit of a property that a CONNACK may carry.
fn connack_field(id: u8) -> (bit: Option<u32>)
    ensures
        bit == connack_bit(id),
        bit matches Some(b) ==> b < 32 && cursor::layout(id) is Some,
{
    if id == property::SESSION_EXPIRY {
        Some(field::SESSION_EXPIRY_INTERVAL)
    } else if id == property::RECEIVE_MAX {
        Some(field::RECEIVE_MAXIMUM)
    } else if id == property::MAX_QOS {
        Some(field::MAX_QOS)
    } else if id == property::RETAIN_AVAILABLE {
        Some(field::RETAIN_AVAILABLE)
    } else if id == property::MAX_PACKET_SIZE {
        Some(field::MAX_PACKET_SIZE)
    } else if id == property::ASSIGNED_CLIENT_ID {
        Some(field::ASSIGNED_CLIENT_ID)
    } else if id == property::TOPIC_ALIAS_MAX {
        Some(field::TOPIC_ALIAS_MAX)
    } else if id == property::REASON_STRING {
        Some(field::REASON_STRING)
    } else if id == property::USER_PROPERTY {
        Some(field::USER_PROP)
    } else if id == property::WILDCARD_AVAILABLE {
        Some(field::WILDCARD_SUBSCRIPTION_AVAILABLE)
    } else if id == property::SUBSCRIPTION_ID_AVAILABLE {
        Some(field::SUBSCRIPTION_ID_AVAILABLE)
    } else if id == property::SHARED_SUB_AVAILABLE {
        Some(field::SHARED_SUBSCRIPTION_AVAILABLE)
    } else if id == property::SERVER_KEEP_ALIVE {
        Some(field::SERVER_KEEP_ALIVE)
    } else if id == property::RESPONSE_INFO {
        Some(field::RESPONSE_INFORMATION)
    } else if id == property::SERVER_REFERENCE {
        Some(field::SERVER_REFERENCE)
    } else if id == property::AUTH_METHOD {
        Some(field::AUTHENTICATION_METHOD)
    } else if id == property::AUTH_DATA {
        Some(field::AUTHENTICATION_DATA)
    } else {
        None
    }
}

/// May a property have this value?
fn connack_value_valid(id: u8, value: u32, client: &ClientSettings) -> (valid: bool)
    ensures
        valid == connack_value_ok(id, value, client.request_response_info),
{
    match id {
        property::MAX_QOS
        | property::RETAIN_AVAILABLE
        | property::WILDCARD_AVAILABLE
        | property::SUBSCRIPTION_ID_AVAILABLE
        | property::SHARED_SUB_AVAILABLE => boolean(value),
        property::RECEIVE_MAX | property::MAX_PACKET_SIZE => value != 0,
        property::RESPONSE_INFO => client.request_response_info,
        _ => true,
    }
}

/// A flag must be 0 or 1: nothing else counts as true.
fn boolean(value: u32) -> (valid: bool)
    ensures
        valid == (value <= 1),
{
    value <= 1
}

/// Stores a property's value where it belongs.
fn store_setting(server: &mut ServerSettings, id: u8, value: u32)
    ensures
        *final(server) == with_setting(*old(server), id, value),
{
    if id == property::SESSION_EXPIRY {
        server.session_expiry = value;
    } else if id == property::RECEIVE_MAX {
        server.receive_max = value as u16;
    } else if id == property::MAX_QOS {
        server.max_qos = value as u8;
    } else if id == property::RETAIN_AVAILABLE {
        server.retain_available = value as u8;
    } else if id == property::MAX_PACKET_SIZE {
        server.max_packet_size = value;
    } else if id == property::TOPIC_ALIAS_MAX {
        server.topic_alias_max = value as u16;
    } else if id == property::WILDCARD_AVAILABLE {
        server.wildcard_available = value as u8;
    } else if id == property::SUBSCRIPTION_ID_AVAILABLE {
        server.subscription_id_available = value as u8;
    } else if id == property::SHARED_SUB_AVAILABLE {
        server.shared_available = value as u8;
    } else if id == property::SERVER_KEEP_ALIVE {
        server.keep_alive = value as u16;
    }
}

/// **Law.** A CONNACK that resumes a session never refuses the connection.
pub proof fn law_resumed_is_not_refused(packet: PacketModel, client: ClientSettings)
    ensures
        connack_of(packet, client) matches Ok(connack) ==> connack.session_present
            ==> connack.reason_code == 0,
{
}

/// What holds of the settings while a section is read: the limits that must not
/// be zero are set exactly if they are present, and every flag is 0 or 1.
pub open spec fn settings_usable(server: ServerSettings, fields: u32) -> bool {
    &&& (server.receive_max != 0) == (fields & (1u32 << field::RECEIVE_MAXIMUM) != 0)
    &&& (server.max_packet_size != 0) == (fields & (1u32 << field::MAX_PACKET_SIZE) != 0)
    &&& server.max_qos <= 1
    &&& server.retain_available <= 1
    &&& server.wildcard_available <= 1
    &&& server.subscription_id_available <= 1
    &&& server.shared_available <= 1
}

proof fn lemma_walk_usable(
    s: Seq<u8>,
    server: ServerSettings,
    fields: u32,
    request_response_info: bool,
)
    requires
        settings_usable(server, fields),
    ensures
        connack_walk(s, server, fields, request_response_info) matches Some((after, bits))
            ==> settings_usable(after, bits),
    decreases s.len(),
{
    if s.len() > 0 {
        lemma_connack_step(s[0], s.skip(1), fields, request_response_info);
        if let Some((value, bit, rest)) = connack_step(
            s[0],
            s.skip(1),
            fields,
            request_response_info,
        ) {
            lemma_bit_set(fields, bit, field::RECEIVE_MAXIMUM);
            lemma_bit_set(fields, bit, field::MAX_PACKET_SIZE);
            if let Some(width) = cursor::layout(s[0]) {
                crate::property::lemma_take_number(width, s.skip(1));
            }
            lemma_walk_usable(
                rest,
                with_setting(server, s[0], value),
                fields | (1u32 << bit),
                request_response_info,
            );
        }
    }
}

/// Setting one bit of a bitmap sets that bit and no other.
pub proof fn lemma_bit_set(fields: u32, bit: u32, other: u32)
    requires
        bit < 32,
        other < 32,
    ensures
        ((fields | (1u32 << bit)) & (1u32 << other) != 0) <==> (bit == other || fields & (1u32
            << other) != 0),
{
    assert(((fields | (1u32 << bit)) & (1u32 << other) != 0) <==> (bit == other || fields & (1u32
        << other) != 0)) by (bit_vector)
        requires
            bit < 32,
            other < 32,
    ;
}

/// **Law.** The limits of an accepted CONNACK are usable: a Receive Maximum or
/// a Maximum Packet Size is present exactly if it is not zero, and every flag
/// is 0 or 1.
pub proof fn law_connack_limits(packet: PacketModel, client: ClientSettings)
    ensures
        connack_of(packet, client) matches Ok(connack) ==> {
            &&& settings_usable(connack.server, connack.fields_present)
        },
{
    assert(0u32 & (1u32 << 3u32) == 0 && 0u32 & (1u32 << 4u32) == 0) by (bit_vector);
    if let Ok(connack) = connack_of(packet, client) {
        lemma_walk_usable(
            connack.properties,
            no_settings(),
            0,
            client.request_response_info,
        );
    }
}

} // verus!
