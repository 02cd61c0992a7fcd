//! Which property may go in which outgoing packet.
//!
//! Each packet kind has its own table. Two refusals are told apart: a property
//! that does not fit its section, or repeats where the reader notices it, is
//! [`ValidateError::BadResponse`]; most of what a table itself refuses is
//! [`ValidateError::BadParameter`]. The first problem found is reported.
//!
//! The PUBLISH table is laxer than the incoming one: it looks for repeats of
//! the Topic Alias only, and takes a Payload Format Indicator above 1 and a
//! Topic Alias of zero.

use vstd::prelude::*;

use crate::cursor;
use crate::cursor::width_of;
use crate::header::REMAINING_LENGTH_INVALID;
use crate::outpublish::OutgoingPublish;
use crate::property;
use crate::property::{IdSet, PropertyError, PropertyReader};
use crate::state::QoS;
use crate::wire;

pub mod id;

verus! {

/// Why properties were refused.
#[derive(Debug, Clone, Copy, PartialEq, Eq, Structural)]
pub enum ValidateError {
    /// The packet may not carry this.
    BadParameter,
    /// A property is malformed.
    BadResponse,
}

impl From<PropertyError> for ValidateError {
    fn from(_error: PropertyError) -> (converted: Self) {
        ValidateError::BadResponse
    }
}

impl vstd::std_specs::convert::FromSpecImpl<PropertyError> for ValidateError {
    open spec fn obeys_from_spec() -> bool {
        true
    }

    open spec fn from_spec(_error: PropertyError) -> Self {
        ValidateError::BadResponse
    }
}

/// What a CONNECT's properties turned out to say.
#[derive(Debug, Clone, Copy, PartialEq, Eq, Structural)]
pub struct ConnectValidation {
    /// The client asks for reason strings and user properties.
    pub request_problem_info: bool,
    /// The largest packet the client accepts, if it says.
    pub max_packet_size: Option<u32>,
}

impl Default for ConnectValidation {
    fn default() -> (found: Self)
        ensures
            found == (ConnectValidation { request_problem_info: false, max_packet_size: None }),
    {
        ConnectValidation { request_problem_info: false, max_packet_size: None }
    }
}

// ---------------------------------------------------------------------------
// The tables
// ---------------------------------------------------------------------------

/// The section is too long to be one.
pub open spec fn section_too_long(properties: Seq<u8>) -> bool {
    properties.len() >= REMAINING_LENGTH_INVALID
}

/// The value of the property `id` at the front of `body`, and what follows.
pub open spec fn value_of(id: u8, body: Seq<u8>) -> Option<(u32, Seq<u8>)> {
    match cursor::layout(id) {
        Some(width) => property::take_number(width, body),
        None => None,
    }
}

/// Reading a value uses bytes up.
pub proof fn lemma_value_of(id: u8, body: Seq<u8>)
    ensures
        value_of(id, body) matches Some((value, rest)) ==> rest.len() < body.len(),
{
    if let Some(width) = cursor::layout(id) {
        property::lemma_take_number(width, body);
    }
}

/// The properties a CONNECT may carry.
pub open spec fn connect_allows(id: u8) -> bool {
    id == id::SESSION_EXPIRY || id == id::RECEIVE_MAX || id == id::MAX_PACKET_SIZE || id
        == id::TOPIC_ALIAS_MAX || id == id::REQUEST_RESPONSE || id == id::REQUEST_PROBLEM || id
        == id::AUTH_METHOD || id == id::AUTH_DATA || id == id::USER_PROPERTY
}

/// The values they may have: two limits must not be zero, two flags must be 0
/// or 1.
pub open spec fn connect_value_ok(id: u8, value: u32) -> bool {
    &&& id == id::RECEIVE_MAX || id == id::MAX_PACKET_SIZE ==> value != 0
    &&& id == id::REQUEST_RESPONSE || id == id::REQUEST_PROBLEM ==> value <= 1
}

/// What a property of a CONNECT adds to what is known.
pub open spec fn connect_found(found: ConnectValidation, id: u8, value: u32) -> ConnectValidation {
    if id == id::MAX_PACKET_SIZE {
        ConnectValidation { max_packet_size: Some(value), ..found }
    } else if id == id::REQUEST_PROBLEM {
        ConnectValidation { request_problem_info: value == 1, ..found }
    } else {
        found
    }
}

/// Checking a CONNECT's properties: the answer, and what is known by then.
pub open spec fn connect_check(s: Seq<u8>, seen: Set<u8>, found: ConnectValidation) -> (Result<
    (),
    ValidateError,
>, ConnectValidation)
    decreases s.len(),
{
    if s.len() == 0 {
        if seen.contains(id::AUTH_DATA) && !seen.contains(id::AUTH_METHOD) {
            (Err(ValidateError::BadParameter), found)
        } else {
            (Ok(()), found)
        }
    } else {
        proof {
            lemma_value_of(s[0], s.skip(1));
        }
        match value_of(s[0], s.skip(1)) {
            Some((value, rest)) => if connect_allows(s[0]) && (s[0] == id::USER_PROPERTY
                || !seen.contains(s[0])) && connect_value_ok(s[0], value) {
                connect_check(rest, seen.insert(s[0]), connect_found(found, s[0], value))
            } else {
                (Err(ValidateError::BadResponse), found)
            },
            None => (Err(ValidateError::BadResponse), found),
        }
    }
}

/// The properties a will may carry.
pub open spec fn will_allows(id: u8) -> bool {
    id == id::WILL_DELAY || id == id::PAYLOAD_FORMAT || id == id::MESSAGE_EXPIRY || id
        == id::CONTENT_TYPE || id == id::RESPONSE_TOPIC || id == id::CORRELATION_DATA || id
        == id::USER_PROPERTY
}

/// A will's properties are ones it may carry, none but the user property twice,
/// with a Payload Format Indicator of 0 or 1.
pub open spec fn will_properties_ok(s: Seq<u8>, seen: Set<u8>) -> bool
    decreases s.len(),
{
    if s.len() == 0 {
        true
    } else {
        proof {
            lemma_value_of(s[0], s.skip(1));
        }
        match value_of(s[0], s.skip(1)) {
            Some((value, rest)) => will_allows(s[0]) && (s[0] == id::USER_PROPERTY
                || !seen.contains(s[0])) && (s[0] == id::PAYLOAD_FORMAT ==> value <= 1)
                && will_properties_ok(rest, seen.insert(s[0])),
            None => false,
        }
    }
}

/// Checking a SUBSCRIBE's properties: one Subscription Identifier, not zero and
/// only where the broker supports them, and any number of user properties.
pub open spec fn subscribe_check(s: Seq<u8>, seen: bool, available: bool) -> Result<
    (),
    ValidateError,
>
    decreases s.len(),
{
    if s.len() == 0 {
        Ok(())
    } else if s[0] == id::SUBSCRIPTION_ID {
        if seen {
            Err(ValidateError::BadParameter)
        } else {
            proof {
                wire::lemma_readers_shrink(s.skip(1));
            }
            match wire::take_length(s.skip(1)) {
                Some((value, rest)) => if !available || value == 0 {
                    Err(ValidateError::BadParameter)
                } else {
                    subscribe_check(rest, true, available)
                },
                None => Err(ValidateError::BadResponse),
            }
        }
    } else if s[0] == id::USER_PROPERTY {
        match wire::take_pair(s.skip(1)) {
            Some((_, rest)) => subscribe_check(rest, seen, available),
            None => Err(ValidateError::BadResponse),
        }
    } else {
        Err(ValidateError::BadParameter)
    }
}

/// The properties an outgoing PUBLISH may carry.
pub open spec fn outgoing_publish_allows(id: u8) -> bool {
    id == id::PAYLOAD_FORMAT || id == id::MESSAGE_EXPIRY || id == id::CONTENT_TYPE || id
        == id::RESPONSE_TOPIC || id == id::CORRELATION_DATA || id == id::TOPIC_ALIAS || id
        == id::USER_PROPERTY
}

/// Checking an outgoing PUBLISH's properties: the answer, and the Topic Alias
/// by then. An alias past the broker's maximum is handed over before it is
/// refused.
pub open spec fn publish_check(
    s: Seq<u8>,
    alias_seen: bool,
    alias: Option<u16>,
    alias_max: u16,
) -> (Result<(), ValidateError>, Option<u16>)
    decreases s.len(),
{
    if s.len() == 0 {
        (Ok(()), alias)
    } else if !outgoing_publish_allows(s[0]) {
        (Err(ValidateError::BadParameter), alias)
    } else {
        proof {
            lemma_value_of(s[0], s.skip(1));
        }
        match value_of(s[0], s.skip(1)) {
            None => (Err(ValidateError::BadResponse), alias),
            Some((value, rest)) => if s[0] != id::TOPIC_ALIAS {
                publish_check(rest, alias_seen, alias, alias_max)
            } else if alias_seen {
                (Err(ValidateError::BadResponse), alias)
            } else if alias_max < value {
                (Err(ValidateError::BadParameter), Some(value as u16))
            } else {
                publish_check(rest, true, Some(value as u16), alias_max)
            },
        }
    }
}

/// Checking an outgoing publish acknowledgement's properties.
pub open spec fn publish_ack_check(s: Seq<u8>, reason_seen: bool) -> Result<(), ValidateError>
    decreases s.len(),
{
    if s.len() == 0 {
        Ok(())
    } else if s[0] == id::REASON_STRING {
        match wire::take_text(s.skip(1)) {
            Some((_, rest)) => if reason_seen {
                Err(ValidateError::BadResponse)
            } else {
                publish_ack_check(rest, true)
            },
            None => Err(ValidateError::BadResponse),
        }
    } else if s[0] == id::USER_PROPERTY {
        match wire::take_pair(s.skip(1)) {
            Some((_, rest)) => publish_ack_check(rest, reason_seen),
            None => Err(ValidateError::BadResponse),
        }
    } else {
        Err(ValidateError::BadParameter)
    }
}

/// Checking an UNSUBSCRIBE's properties: user properties only.
pub open spec fn unsubscribe_check(s: Seq<u8>) -> Result<(), ValidateError>
    decreases s.len(),
{
    if s.len() == 0 {
        Ok(())
    } else if s[0] == id::USER_PROPERTY {
        match wire::take_pair(s.skip(1)) {
            Some((_, rest)) => unsubscribe_check(rest),
            None => Err(ValidateError::BadResponse),
        }
    } else {
        Err(ValidateError::BadParameter)
    }
}

/// A check, refused outright for a section that is too long to be one.
pub open spec fn or_too_long(properties: Seq<u8>, check: Result<(), ValidateError>) -> Result<
    (),
    ValidateError,
> {
    if section_too_long(properties) {
        Err(ValidateError::BadParameter)
    } else {
        check
    }
}

// ---------------------------------------------------------------------------
// The validators
// ---------------------------------------------------------------------------

/// A reader over the whole section.
fn reader(properties: &[u8]) -> (made: Result<PropertyReader<'_>, ValidateError>)
    ensures
        made is Err == section_too_long(properties@),
        made matches Ok(r) ==> r.full() && r.window() == properties@,
        made matches Err(error) ==> error == ValidateError::BadParameter,
{
    if properties.len() >= REMAINING_LENGTH_INVALID as usize {
        return Err(ValidateError::BadParameter);
    }
    Ok(PropertyReader::new(properties, properties.len() as u32))
}

/// Refuses a property that was there before, and remembers it otherwise. User
/// properties may repeat.
fn check_once(seen: &mut IdSet, id: u8) -> (result: Result<(), ValidateError>)
    requires
        id < 64,
    ensures
        old(seen)@.contains(id) && id != id::USER_PROPERTY ==> result == Err::<(), ValidateError>(
            ValidateError::BadResponse,
        ),
        !(old(seen)@.contains(id) && id != id::USER_PROPERTY) ==> result == Ok::<
            (),
            ValidateError,
        >(()) && final(seen)@ == old(seen)@.insert(id),
{
    if id != id::USER_PROPERTY && seen.contains(id) {
        return Err(ValidateError::BadResponse);
    }
    seen.insert(id);
    Ok(())
}

/// Checks the properties of a CONNECT.
///
/// What they say goes into `found` as they are read: on a refusal it holds what
/// was read by then. A request for problem information is taken as absent to
/// begin with; a maximum packet size that is not set stays as it was.
///
/// # Errors
///
/// [`ValidateError::BadParameter`] for a section that is too long, or for
/// authentication data without a method; [`ValidateError::BadResponse`] for
/// anything else.
pub fn validate_connect_properties(properties: &[u8], found: &mut ConnectValidation) -> (result:
    Result<(), ValidateError>)
    ensures
        section_too_long(properties@) ==> result == Err::<(), ValidateError>(
            ValidateError::BadParameter,
        ) && *final(found) == *old(found),
        !section_too_long(properties@) ==> (result, *final(found)) == connect_check(
            properties@,
            Set::empty(),
            ConnectValidation { request_problem_info: false, ..*old(found) },
        ),
{
    let mut reader = match reader(properties) {
        Ok(reader) => reader,
        Err(error) => return Err(error),
    };
    found.request_problem_info = false;
    let ghost start = *found;
    let mut seen = IdSet::new();
    while reader.remaining() > 0
        invariant
            reader.full(),
            !section_too_long(properties@),
            start == (ConnectValidation { request_problem_info: false, ..*old(found) }),
            connect_check(properties@, Set::empty(), start) == connect_check(
                reader.window(),
                seen@,
                *found,
            ),
        decreases reader.left(),
    {
        let id = match reader.property_id() {
            Ok(id) => id,
            Err(_) => return Err(ValidateError::BadResponse),
        };
        let width = match (connect_may_carry(id), width_of(id)) {
            (true, Some(width)) => width,
            _ => return Err(ValidateError::BadResponse),
        };
        match check_once(&mut seen, id) {
            Ok(()) => {},
            Err(error) => return Err(error),
        }
        let mut used = false;
        let value = match reader.number(width, &mut used) {
            Ok(value) => value,
            Err(_) => return Err(ValidateError::BadResponse),
        };
        match id {
            id::RECEIVE_MAX => {
                if value == 0 {
                    return Err(ValidateError::BadResponse);
                }
            },
            id::MAX_PACKET_SIZE => {
                if value == 0 {
                    return Err(ValidateError::BadResponse);
                }
                found.max_packet_size = Some(value);
            },
            id::REQUEST_RESPONSE => {
                if value > 1 {
                    return Err(ValidateError::BadResponse);
                }
            },
            id::REQUEST_PROBLEM => {
                if value > 1 {
                    return Err(ValidateError::BadResponse);
                }
                found.request_problem_info = value == 1;
            },
            _ => {},
        }
    }
    if seen.contains(id::AUTH_DATA) && !seen.contains(id::AUTH_METHOD) {
        return Err(ValidateError::BadParameter);
    }
    Ok(())
}

/// May a CONNECT carry this property?
fn connect_may_carry(id: u8) -> (allowed: bool)
    ensures
        allowed == connect_allows(id),
        allowed ==> id < 64 && cursor::layout(id) is Some,
{
    match id {
        id::SESSION_EXPIRY
        | id::RECEIVE_MAX
        | id::MAX_PACKET_SIZE
        | id::TOPIC_ALIAS_MAX
        | id::REQUEST_RESPONSE
        | id::REQUEST_PROBLEM
        | id::AUTH_METHOD
        | id::AUTH_DATA
        | id::USER_PROPERTY => true,
        _ => false,
    }
}

/// Checks the properties of a will.
///
/// # Errors
///
/// [`ValidateError::BadParameter`] for a section that is too long;
/// [`ValidateError::BadResponse`] for anything else.
pub fn validate_will_properties(properties: &[u8]) -> (result: Result<(), ValidateError>)
    ensures
        result == or_too_long(
            properties@,
            if will_properties_ok(properties@, Set::empty()) {
                Ok(())
            } else {
                Err(ValidateError::BadResponse)
            },
        ),
{
    let mut reader = match reader(properties) {
        Ok(reader) => reader,
        Err(error) => return Err(error),
    };
    let mut seen = IdSet::new();
    while reader.remaining() > 0
        invariant
            reader.full(),
            !section_too_long(properties@),
            will_properties_ok(properties@, Set::empty()) == will_properties_ok(
                reader.window(),
                seen@,
            ),
        decreases reader.left(),
    {
        let id = match reader.property_id() {
            Ok(id) => id,
            Err(_) => return Err(ValidateError::BadResponse),
        };
        let width = match (will_may_carry(id), width_of(id)) {
            (true, Some(width)) => width,
            _ => return Err(ValidateError::BadResponse),
        };
        match check_once(&mut seen, id) {
            Ok(()) => {},
            Err(error) => return Err(error),
        }
        let mut used = false;
        match reader.number(width, &mut used) {
            Ok(value) => {
                if id == id::PAYLOAD_FORMAT && value > 1 {
                    return Err(ValidateError::BadResponse);
                }
            },
            Err(_) => return Err(ValidateError::BadResponse),
        }
    }
    Ok(())
}

/// May a will carry this property?
fn will_may_carry(id: u8) -> (allowed: bool)
    ensures
        allowed == will_allows(id),
        allowed ==> id < 64 && cursor::layout(id) is Some,
{
    match id {
        id::WILL_DELAY
        | id::PAYLOAD_FORMAT
        | id::MESSAGE_EXPIRY
        | id::CONTENT_TYPE
        | id::RESPONSE_TOPIC
        | id::CORRELATION_DATA
        | id::USER_PROPERTY => true,
        _ => false,
    }
}

/// Checks the properties of a SUBSCRIBE.
///
/// # Errors
///
/// [`ValidateError::BadParameter`] for a property that is not allowed, a
/// repeated, zero or unsupported Subscription Identifier, or a section that is
/// too long; [`ValidateError::BadResponse`] for a property that does not fit.
pub fn validate_subscribe_properties(subscription_id_available: bool, properties: &[u8]) -> (result:
    Result<(), ValidateError>)
    ensures
        result == or_too_long(
            properties@,
            subscribe_check(properties@, false, subscription_id_available),
        ),
{
    let mut reader = match reader(properties) {
        Ok(reader) => reader,
        Err(error) => return Err(error),
    };
    let mut subscription_id = false;
    while reader.remaining() > 0
        invariant
            reader.full(),
            !section_too_long(properties@),
            subscribe_check(properties@, false, subscription_id_available) == subscribe_check(
                reader.window(),
                subscription_id,
                subscription_id_available,
            ),
        decreases reader.left(),
    {
        let id = match reader.property_id() {
            Ok(id) => id,
            Err(_) => return Err(ValidateError::BadResponse),
        };
        match id {
            id::SUBSCRIPTION_ID => {
                if subscription_id {
                    return Err(ValidateError::BadParameter);
                }
                match reader.variable_length() {
                    Ok(value) => {
                        if !subscription_id_available {
                            return Err(ValidateError::BadParameter);
                        }
                        if value == 0 {
                            return Err(ValidateError::BadParameter);
                        }
                    },
                    Err(_) => return Err(ValidateError::BadResponse),
                }
                subscription_id = true;
            },
            id::USER_PROPERTY => match reader.user_property() {
                Ok(_) => {},
                Err(_) => return Err(ValidateError::BadResponse),
            },
            _ => return Err(ValidateError::BadParameter),
        }
    }
    Ok(())
}

/// Checks the properties of an outgoing PUBLISH, and hands over its Topic
/// Alias if it has one.
///
/// # Errors
///
/// [`ValidateError::BadParameter`] for a property that is not allowed, a Topic
/// Alias past the broker's maximum, or a section that is too long;
/// [`ValidateError::BadResponse`] for a property that does not fit, or a second
/// Topic Alias.
pub fn validate_publish_properties(
    server_topic_alias_max: u16,
    properties: &[u8],
    topic_alias: &mut Option<u16>,
) -> (result: Result<(), ValidateError>)
    ensures
        section_too_long(properties@) ==> result == Err::<(), ValidateError>(
            ValidateError::BadParameter,
        ) && *final(topic_alias) == *old(topic_alias),
        !section_too_long(properties@) ==> (result, *final(topic_alias)) == publish_check(
            properties@,
            false,
            *old(topic_alias),
            server_topic_alias_max,
        ),
{
    let mut reader = match reader(properties) {
        Ok(reader) => reader,
        Err(error) => return Err(error),
    };
    let mut alias_used = false;
    while reader.remaining() > 0
        invariant
            reader.full(),
            !section_too_long(properties@),
            publish_check(properties@, false, *old(topic_alias), server_topic_alias_max)
                == publish_check(
                reader.window(),
                alias_used,
                *topic_alias,
                server_topic_alias_max,
            ),
        decreases reader.left(),
    {
        let mut used = false;
        let id = match reader.property_id() {
            Ok(id) => id,
            Err(_) => return Err(ValidateError::BadResponse),
        };
        match id {
            id::PAYLOAD_FORMAT => match reader.u8(&mut used) {
                Ok(_) => {},
                Err(_) => return Err(ValidateError::BadResponse),
            },
            id::MESSAGE_EXPIRY => match reader.u32(&mut used) {
                Ok(_) => {},
                Err(_) => return Err(ValidateError::BadResponse),
            },
            id::CONTENT_TYPE | id::RESPONSE_TOPIC | id::CORRELATION_DATA => match reader.utf8(
                &mut used,
            ) {
                Ok(_) => {},
                Err(_) => return Err(ValidateError::BadResponse),
            },
            id::TOPIC_ALIAS => match reader.u16(&mut alias_used) {
                Ok(value) => {
                    *topic_alias = Some(value);
                    if server_topic_alias_max < value {
                        return Err(ValidateError::BadParameter);
                    }
                },
                Err(_) => return Err(ValidateError::BadResponse),
            },
            id::USER_PROPERTY => match reader.user_property() {
                Ok(_) => {},
                Err(_) => return Err(ValidateError::BadResponse),
            },
            _ => return Err(ValidateError::BadParameter),
        }
    }
    Ok(())
}

/// Checks the properties of an outgoing publish acknowledgement.
///
/// # Errors
///
/// [`ValidateError::BadParameter`] for a property that is not allowed, or a
/// section that is too long; [`ValidateError::BadResponse`] for a property that
/// does not fit, or a second reason string.
pub fn validate_publish_ack_properties(properties: &[u8]) -> (result: Result<(), ValidateError>)
    ensures
        result == or_too_long(properties@, publish_ack_check(properties@, false)),
{
    let mut reader = match reader(properties) {
        Ok(reader) => reader,
        Err(error) => return Err(error),
    };
    let mut reason_string = false;
    while reader.remaining() > 0
        invariant
            reader.full(),
            !section_too_long(properties@),
            publish_ack_check(properties@, false) == publish_ack_check(
                reader.window(),
                reason_string,
            ),
        decreases reader.left(),
    {
        let id = match reader.property_id() {
            Ok(id) => id,
            Err(_) => return Err(ValidateError::BadResponse),
        };
        match id {
            id::REASON_STRING => match reader.utf8(&mut reason_string) {
                Ok(_) => {},
                Err(_) => return Err(ValidateError::BadResponse),
            },
            id::USER_PROPERTY => match reader.user_property() {
                Ok(_) => {},
                Err(_) => return Err(ValidateError::BadResponse),
            },
            _ => return Err(ValidateError::BadParameter),
        }
    }
    Ok(())
}

/// Checks the properties of an UNSUBSCRIBE.
///
/// # Errors
///
/// [`ValidateError::BadParameter`] for anything but a user property, or a
/// section that is too long; [`ValidateError::BadResponse`] for a user property
/// that does not fit.
pub fn validate_unsubscribe_properties(properties: &[u8]) -> (result: Result<(), ValidateError>)
    ensures
        result == or_too_long(properties@, unsubscribe_check(properties@)),
{
    let mut reader = match reader(properties) {
        Ok(reader) => reader,
        Err(error) => return Err(error),
    };
    while reader.remaining() > 0
        invariant
            reader.full(),
            !section_too_long(properties@),
            unsubscribe_check(properties@) == unsubscribe_check(reader.window()),
        decreases reader.left(),
    {
        let id = match reader.property_id() {
            Ok(id) => id,
            Err(_) => return Err(ValidateError::BadResponse),
        };
        match id {
            id::USER_PROPERTY => match reader.user_property() {
                Ok(_) => {},
                Err(_) => return Err(ValidateError::BadResponse),
            },
            _ => return Err(ValidateError::BadParameter),
        }
    }
    Ok(())
}

/// Whether an outgoing PUBLISH is within what the broker offers. A QoS is
/// refused only where the broker supports none above 0.
pub open spec fn publish_params_ok(
    publish: OutgoingPublish<'_>,
    retain_available: u8,
    max_qos: u8,
    topic_alias: u16,
    max_packet_size: u32,
) -> bool {
    &&& publish.retain ==> retain_available != 0
    &&& publish.qos != QoS::AtMostOnce ==> max_qos != 0
    &&& topic_alias != 0 || publish.topic_name@.len() > 0
    &&& publish.topic_name@.len() <= u16::MAX
    &&& max_packet_size != 0
}

/// Checks an outgoing PUBLISH against what the broker offers.
///
/// # Errors
///
/// [`ValidateError::BadParameter`] if it retains where the broker does not, has
/// a QoS where the broker has none, has neither a topic nor an alias, a topic
/// too long for its count, or nothing may be sent at all.
pub fn validate_publish_params(
    publish: &OutgoingPublish<'_>,
    retain_available: u8,
    max_qos: u8,
    topic_alias: u16,
    max_packet_size: u32,
) -> (result: Result<(), ValidateError>)
    ensures
        result == (if publish_params_ok(
            *publish,
            retain_available,
            max_qos,
            topic_alias,
            max_packet_size,
        ) {
            Ok::<(), ValidateError>(())
        } else {
            Err(ValidateError::BadParameter)
        }),
{
    if publish.retain && retain_available == 0 {
        return Err(ValidateError::BadParameter);
    }
    if publish.qos != QoS::AtMostOnce && max_qos == 0 {
        return Err(ValidateError::BadParameter);
    }
    if topic_alias == 0 && publish.topic_name.len() == 0 {
        return Err(ValidateError::BadParameter);
    }
    if publish.topic_name.len() > u16::MAX as usize {
        return Err(ValidateError::BadParameter);
    }
    if max_packet_size == 0 {
        return Err(ValidateError::BadParameter);
    }
    Ok(())
}

} // verus!
