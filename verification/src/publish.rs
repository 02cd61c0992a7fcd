//! Reading an incoming PUBLISH, the packet that carries application data.
//!
//! A PUBLISH is handed to the application, so its topic, its payload and its
//! properties are what somebody else's code will index with. Its type byte is
//! partly data: the low nibble carries DUP, QoS and RETAIN, and a QoS above 0
//! puts a packet identifier between the topic and the properties.
//!
//! Two things that a strict reader would refuse are accepted: an empty topic
//! without a Topic Alias, and a Subscription Identifier of zero.

use vstd::prelude::*;

use crate::ack::{bounded, AckError, PacketInfo, PacketModel};
use crate::cursor;
use crate::cursor::width_of;
use crate::header;
use crate::header::{packet, variable_length_encoded_size, REMAINING_LENGTH_INVALID};
use crate::property::{decode_variable_length, IdSet, PropertyError, PropertyReader};
use crate::state::QoS;
use crate::wire;

pub mod flag;
pub mod property;

verus! {

/// A PUBLISH, read.
#[derive(Debug, Clone, Copy, PartialEq, Eq)]
pub struct PublishInfo<'a> {
    /// The QoS.
    pub qos: QoS,
    /// Whether this may be a second delivery.
    pub dup: bool,
    /// Whether the broker kept this message for new subscribers.
    pub retain: bool,
    /// The packet identifier. Never zero; `None` exactly for QoS 0.
    pub packet_id: Option<u16>,
    /// The topic. May be empty.
    pub topic_name: &'a [u8],
    /// The property section, without its length prefix.
    pub properties: &'a [u8],
    /// The message.
    pub payload: &'a [u8],
}

/// A PUBLISH, as values.
pub struct PublishModel {
    pub qos: QoS,
    pub dup: bool,
    pub retain: bool,
    pub packet_id: Option<u16>,
    pub topic_name: Seq<u8>,
    pub properties: Seq<u8>,
    pub payload: Seq<u8>,
}

impl<'a> View for PublishInfo<'a> {
    type V = PublishModel;

    open spec fn view(&self) -> PublishModel {
        PublishModel {
            qos: self.qos,
            dup: self.dup,
            retain: self.retain,
            packet_id: self.packet_id,
            topic_name: self.topic_name@,
            properties: self.properties@,
            payload: self.payload@,
        }
    }
}

/// Why a PUBLISH was refused.
#[derive(Debug, Clone, Copy, PartialEq, Eq, Structural)]
pub enum PublishError {
    /// Not a PUBLISH, a claimed length past the limit, or a topic that does not
    /// fit the claimed length.
    BadParameter,
    /// The packet was wrong.
    BadResponse,
}

impl From<PropertyError> for PublishError {
    fn from(_error: PropertyError) -> (converted: Self) {
        PublishError::BadResponse
    }
}

impl vstd::std_specs::convert::FromSpecImpl<PropertyError> for PublishError {
    open spec fn obeys_from_spec() -> bool {
        true
    }

    open spec fn from_spec(_error: PropertyError) -> Self {
        PublishError::BadResponse
    }
}

impl From<AckError> for PublishError {
    fn from(error: AckError) -> (converted: Self) {
        match error {
            AckError::BadParameter => PublishError::BadParameter,
            AckError::BadResponse => PublishError::BadResponse,
        }
    }
}

impl vstd::std_specs::convert::FromSpecImpl<AckError> for PublishError {
    open spec fn obeys_from_spec() -> bool {
        true
    }

    open spec fn from_spec(error: AckError) -> Self {
        match error {
            AckError::BadParameter => PublishError::BadParameter,
            AckError::BadResponse => PublishError::BadResponse,
        }
    }
}

// ---------------------------------------------------------------------------
// What a PUBLISH says
// ---------------------------------------------------------------------------

/// The QoS in the flags of a PUBLISH byte. There is no QoS 3.
pub open spec fn qos_of(packet_type: u8) -> Option<QoS> {
    let bits = packet_type / 2 % 4;
    if bits == 0 {
        Some(QoS::AtMostOnce)
    } else if bits == 1 {
        Some(QoS::AtLeastOnce)
    } else if bits == 2 {
        Some(QoS::ExactlyOnce)
    } else {
        None
    }
}

/// How many bytes a packet identifier takes in a PUBLISH of this QoS.
pub open spec fn id_size(qos: QoS) -> int {
    if qos == QoS::AtMostOnce {
        0
    } else {
        2
    }
}

/// The properties that a PUBLISH may carry.
pub open spec fn publish_allows(id: u8) -> bool {
    id == property::PAYLOAD_FORMAT || id == property::MESSAGE_EXPIRY || id == property::CONTENT_TYPE
        || id == property::RESPONSE_TOPIC || id == property::CORRELATION_DATA || id
        == property::SUBSCRIPTION_ID || id == property::TOPIC_ALIAS || id == property::USER_PROPERTY
}

/// The properties that a PUBLISH may carry more than once.
pub open spec fn publish_repeats(id: u8) -> bool {
    id == property::SUBSCRIPTION_ID || id == property::USER_PROPERTY
}

/// The values that a property of a PUBLISH may have.
pub open spec fn publish_value_ok(id: u8, value: u32) -> bool {
    &&& id == property::PAYLOAD_FORMAT ==> value <= 1
    &&& id == property::TOPIC_ALIAS ==> value != 0
}

/// Reads the property `id` from `body`: its value, and the bytes after it.
pub open spec fn publish_step(id: u8, body: Seq<u8>, seen: Set<u8>) -> Option<(u32, Seq<u8>)> {
    if !publish_allows(id) || (seen.contains(id) && !publish_repeats(id)) {
        None
    } else {
        match cursor::layout(id) {
            None => None,
            Some(width) => match crate::property::take_number(width, body) {
                Some((value, rest)) => if publish_value_ok(id, value) {
                    Some((value, rest))
                } else {
                    None
                },
                None => None,
            },
        }
    }
}

/// Reading a property uses bytes up.
pub proof fn lemma_publish_step(id: u8, body: Seq<u8>, seen: Set<u8>)
    ensures
        publish_step(id, body, seen) matches Some((value, rest)) ==> rest.len() < body.len() && id
            < 64,
{
    if let Some(width) = cursor::layout(id) {
        crate::property::lemma_take_number(width, body);
    }
}

/// Reads a whole section. `None` if it is refused; otherwise the Topic Alias in
/// it, or 0.
pub open spec fn publish_walk(s: Seq<u8>, seen: Set<u8>, alias: u32) -> Option<u32>
    decreases s.len(),
{
    if s.len() == 0 {
        Some(alias)
    } else {
        proof {
            lemma_publish_step(s[0], s.skip(1), seen);
        }
        match publish_step(s[0], s.skip(1), seen) {
            None => None,
            Some((value, rest)) => publish_walk(
                rest,
                seen.insert(s[0]),
                if s[0] == property::TOPIC_ALIAS {
                    value
                } else {
                    alias
                },
            ),
        }
    }
}

/// A PUBLISH's properties are acceptable: every one may be there, none is
/// refused, and a Topic Alias is no larger than the client announced.
pub open spec fn publish_properties_ok(s: Seq<u8>, topic_alias_max: u16) -> bool {
    publish_walk(s, Set::empty(), 0) matches Some(alias) && alias <= topic_alias_max
}

/// What the body of a PUBLISH says: a topic, an identifier above QoS 0, a
/// property section, and the payload to the end.
pub open spec fn publish_body(
    packet_type: u8,
    body: Seq<u8>,
    qos: QoS,
    topic_alias_max: u16,
) -> Option<PublishModel> {
    match wire::take_text(body) {
        None => None,
        Some((topic_name, after_topic)) => {
            let (packet_id, after_id) = if qos == QoS::AtMostOnce {
                (Some(None), after_topic)
            } else {
                match wire::take_u16(after_topic) {
                    Some((id, rest)) => if id == 0 {
                        (None, rest)
                    } else {
                        (Some(Some(id)), rest)
                    },
                    None => (None, after_topic),
                }
            };
            match (packet_id, wire::take_length(after_id)) {
                (Some(packet_id), Some((n, rest))) => if n <= rest.len() && publish_properties_ok(
                    rest.take(n as int),
                    topic_alias_max,
                ) {
                    Some(
                        PublishModel {
                            qos,
                            dup: packet_type / 8 % 2 == 1,
                            retain: packet_type % 2 == 1,
                            packet_id,
                            topic_name,
                            properties: rest.take(n as int),
                            payload: rest.skip(n as int),
                        },
                    )
                } else {
                    None
                },
                _ => None,
            }
        },
    }
}

/// Reading a PUBLISH: what it says, or why it is refused.
pub open spec fn publish_of(packet: PacketModel, max_packet_size: u32, topic_alias_max: u16) -> Result<
    PublishModel,
    PublishError,
> {
    if packet.packet_type / 16 != packet::PUBLISH / 16 || packet.claimed
        >= REMAINING_LENGTH_INVALID {
        Err(PublishError::BadParameter)
    } else if header::counted_packet(packet.claimed) > max_packet_size {
        Err(PublishError::BadResponse)
    } else {
        match (qos_of(packet.packet_type), wire::part(packet.data, 0, packet.claimed as int)) {
            (Some(qos), Some(body)) => if packet.claimed < 4 + id_size(qos) {
                Err(PublishError::BadResponse)
            } else if wire::take_text(body) is None {
                Err(PublishError::BadParameter)
            } else {
                match publish_body(packet.packet_type, body, qos, topic_alias_max) {
                    Some(publish) => Ok(publish),
                    None => Err(PublishError::BadResponse),
                }
            },
            _ => Err(PublishError::BadResponse),
        }
    }
}

// ---------------------------------------------------------------------------
// Reading
// ---------------------------------------------------------------------------

/// Reads a PUBLISH.
///
/// # Errors
///
/// [`PublishError::BadParameter`] if the packet is not a PUBLISH, claims a
/// length past the limit, or has a topic that does not fit the length it claims;
/// [`PublishError::BadResponse`] for everything else that can be wrong with the
/// packet, its being too short for its QoS or shorter than it claims among it.
pub fn deserialize_publish<'a>(
    packet: &PacketInfo<'a>,
    max_packet_size: u32,
    topic_alias_max: u16,
) -> (publish: Result<PublishInfo<'a>, PublishError>)
    ensures
        wire::viewed(publish) == publish_of(packet@, max_packet_size, topic_alias_max),
{
    if packet.packet_type / 16 != packet::PUBLISH / 16 {
        return Err(PublishError::BadParameter);
    }
    if packet.remaining_length >= REMAINING_LENGTH_INVALID {
        return Err(PublishError::BadParameter);
    }
    if header::packet_size_of(packet.remaining_length) > max_packet_size {
        return Err(PublishError::BadResponse);
    }
    let flags = match process_publish_flags(packet.packet_type) {
        Ok(flags) => flags,
        Err(error) => return Err(error),
    };
    match check_remaining_length(packet.remaining_length, flags.0, 4) {
        Ok(()) => {},
        Err(error) => return Err(error),
    }
    // Everything the packet claims has to be there.
    match bounded(packet.remaining_data, 0, packet.remaining_length) {
        Ok(body) => read_publish_body(packet.packet_type, body, flags, topic_alias_max),
        Err(_) => Err(PublishError::BadResponse),
    }
}

/// Reads the body of a PUBLISH whose flags are read.
fn read_publish_body<'a>(
    packet_type: u8,
    body: &'a [u8],
    flags: (QoS, bool, bool),
    topic_alias_max: u16,
) -> (publish: Result<PublishInfo<'a>, PublishError>)
    requires
        body@.len() < REMAINING_LENGTH_INVALID,
        body@.len() >= 4,
        flags.1 == (packet_type / 8 % 2 == 1),
        flags.2 == (packet_type % 2 == 1),
    ensures
        wire::viewed(publish) == (if wire::take_text(body@) is None {
            Err::<PublishModel, PublishError>(PublishError::BadParameter)
        } else {
            match publish_body(packet_type, body@, flags.0, topic_alias_max) {
                Some(model) => Ok(model),
                None => Err(PublishError::BadResponse),
            }
        }),
{
    let (qos, dup, retain) = flags;
    let topic_name_length = wire::join_u16(body[0], body[1]);
    let after_topic: usize = topic_name_length as usize + 2;
    if after_topic > body.len() {
        return Err(PublishError::BadParameter);
    }
    match check_remaining_length(body.len() as u32, qos, topic_name_length as u32 + 2) {
        Ok(()) => {},
        Err(error) => return Err(error),
    }
    let topic_name = vstd::slice::slice_subrange(body, 2, after_topic);
    let mut after_id: usize = after_topic;
    let mut packet_id = None;
    if qos != QoS::AtMostOnce {
        let id = wire::join_u16(body[after_topic], body[after_topic + 1]);
        if id == 0 {
            return Err(PublishError::BadResponse);
        }
        after_id = after_topic + 2;
        packet_id = Some(id);
    }
    let section = vstd::slice::slice_subrange(body, after_id, body.len());
    proof {
        let rest = body@.skip(after_topic as int);
        assert(topic_name@ =~= body@.subrange(2, 2 + topic_name_length));
        assert(section@ =~= (if qos == QoS::AtMostOnce {
            rest
        } else {
            rest.skip(2)
        }));
    }
    match read_publish_properties(section, topic_alias_max) {
        Ok((properties, payload)) => Ok(
            PublishInfo { qos, dup, retain, packet_id, topic_name, properties, payload },
        ),
        Err(error) => Err(error),
    }
}

/// The three flags in the low nibble. There is no QoS 3.
fn process_publish_flags(flags: u8) -> (found: Result<(QoS, bool, bool), PublishError>)
    ensures
        found == (match qos_of(flags) {
            Some(qos) => Ok::<(QoS, bool, bool), PublishError>(
                (qos, flags / 8 % 2 == 1, flags % 2 == 1),
            ),
            None => Err(PublishError::BadResponse),
        }),
{
    let bits: u8 = flags / 2 % 4;
    let qos = if bits == 3 {
        return Err(PublishError::BadResponse);
    } else if bits == 2 {
        QoS::ExactlyOnce
    } else if bits == 1 {
        QoS::AtLeastOnce
    } else {
        QoS::AtMostOnce
    };
    Ok((qos, flags / 8 % 2 == 1, flags % 2 == 1))
}

/// The claimed length has to reach a minimum, which a packet identifier raises
/// by two.
fn check_remaining_length(remaining_length: u32, qos: QoS, qos0_minimum: u32) -> (result: Result<
    (),
    PublishError,
>)
    requires
        qos0_minimum <= 0x1_0000_0000 - 3,
    ensures
        result == (if remaining_length < qos0_minimum + id_size(qos) {
            Err::<(), PublishError>(PublishError::BadResponse)
        } else {
            Ok(())
        }),
{
    let minimum: u32 = if qos == QoS::AtMostOnce {
        qos0_minimum
    } else {
        qos0_minimum + 2
    };
    if remaining_length < minimum {
        return Err(PublishError::BadResponse);
    }
    Ok(())
}

/// Splits what follows the identifier into the property section and the
/// payload.
fn read_publish_properties(section: &[u8], topic_alias_max: u16) -> (found: Result<
    (&[u8], &[u8]),
    PublishError,
>)
    requires
        section@.len() < REMAINING_LENGTH_INVALID,
    ensures
        match wire::take_length(section@) {
            Some((n, rest)) => if n <= rest.len() && publish_properties_ok(
                rest.take(n as int),
                topic_alias_max,
            ) {
                found matches Ok((properties, payload)) && properties@ == rest.take(n as int)
                    && payload@ == rest.skip(n as int)
            } else {
                found == Err::<(&[u8], &[u8]), PublishError>(PublishError::BadResponse)
            },
            None => found == Err::<(&[u8], &[u8]), PublishError>(PublishError::BadResponse),
        },
{
    let property_length = match decode_variable_length(section) {
        Ok(length) => length,
        Err(_) => return Err(PublishError::BadResponse),
    };
    proof {
        wire::lemma_read_length_bounds(section@);
    }
    let encoded: usize = variable_length_encoded_size(property_length) as usize;
    if property_length as usize > section.len() - encoded {
        return Err(PublishError::BadResponse);
    }
    let payload_at: usize = encoded + property_length as usize;
    let properties = vstd::slice::slice_subrange(section, encoded, payload_at);
    let payload = vstd::slice::slice_subrange(section, payload_at, section.len());
    proof {
        let rest = section@.skip(encoded as int);
        assert(properties@ =~= rest.take(property_length as int));
        assert(payload@ =~= rest.skip(property_length as int));
    }
    match walk_publish_properties(properties, topic_alias_max) {
        Ok(()) => Ok((properties, payload)),
        Err(error) => Err(error),
    }
}

/// Reads every property of the section.
fn walk_publish_properties(properties: &[u8], topic_alias_max: u16) -> (result: Result<
    (),
    PublishError,
>)
    requires
        properties@.len() <= u32::MAX,
    ensures
        result == (if publish_properties_ok(properties@, topic_alias_max) {
            Ok::<(), PublishError>(())
        } else {
            Err(PublishError::BadResponse)
        }),
{
    let mut reader = PropertyReader::new(properties, properties.len() as u32);
    let mut seen = IdSet::new();
    let mut topic_alias: u32 = 0;
    while reader.remaining() > 0
        invariant
            reader.full(),
            publish_walk(properties@, Set::empty(), 0) == publish_walk(
                reader.window(),
                seen@,
                topic_alias,
            ),
        decreases reader.left(),
    {
        let id = match reader.property_id() {
            Ok(id) => id,
            Err(_) => return Err(PublishError::BadResponse),
        };
        let width = match (publish_may_carry(id), width_of(id)) {
            (true, Some(width)) => width,
            _ => return Err(PublishError::BadResponse),
        };
        let mut used = seen.contains(id) && id != property::SUBSCRIPTION_ID && id
            != property::USER_PROPERTY;
        let value = match reader.number(width, &mut used) {
            Ok(value) => value,
            Err(_) => return Err(PublishError::BadResponse),
        };
        if id == property::PAYLOAD_FORMAT && value > 1 {
            return Err(PublishError::BadResponse);
        }
        if id == property::TOPIC_ALIAS {
            topic_alias = value;
            if value == 0 {
                return Err(PublishError::BadResponse);
            }
        }
        seen.insert(id);
    }
    if topic_alias > topic_alias_max as u32 {
        return Err(PublishError::BadResponse);
    }
    Ok(())
}

/// May a PUBLISH carry this property?
fn publish_may_carry(id: u8) -> (allowed: bool)
    ensures
        allowed == publish_allows(id),
        allowed ==> id < 64 && cursor::layout(id) is Some,
{
    match id {
        property::PAYLOAD_FORMAT
        | property::MESSAGE_EXPIRY
        | property::CONTENT_TYPE
        | property::RESPONSE_TOPIC
        | property::CORRELATION_DATA
        | property::SUBSCRIPTION_ID
        | property::TOPIC_ALIAS
        | property::USER_PROPERTY => true,
        _ => false,
    }
}

/// **Law.** The parts of an accepted PUBLISH add up to the length it claimed,
/// and that length never exceeds what arrived.
pub proof fn law_publish_parts_add_up(
    packet: PacketModel,
    max_packet_size: u32,
    topic_alias_max: u16,
)
    ensures
        publish_of(packet, max_packet_size, topic_alias_max) matches Ok(publish) ==> {
            &&& packet.claimed == 2 + publish.topic_name.len() + id_size(publish.qos)
                + wire::length_size(publish.properties.len() as int) + publish.properties.len()
                + publish.payload.len()
            &&& packet.claimed <= packet.data.len()
            &&& (publish.packet_id is None) == (publish.qos == QoS::AtMostOnce)
            &&& publish.packet_id != Some(0u16)
        },
{
    if let Ok(publish) = publish_of(packet, max_packet_size, topic_alias_max) {
        let body = wire::part(packet.data, 0, packet.claimed as int)->0;
        let after_topic = (wire::take_text(body)->0).1;
        let after_id = if publish.qos == QoS::AtMostOnce {
            after_topic
        } else {
            (wire::take_u16(after_topic)->0).1
        };
        wire::lemma_read_length_bounds(after_id);
    }
}

} // verus!
