//! What the two ends of a connection have agreed on.
//!
//! [`ConnectionProperties`] holds both sides: what this client announced in its
//! CONNECT, and what the broker answered in its CONNACK. A fresh one is a legal
//! session, not an empty one: every value is what the protocol prescribes where
//! nothing is said.

use vstd::prelude::*;

use crate::header::REMAINING_LENGTH_INVALID;
use crate::property::{IdSet, PropertyReader};
use crate::validate;
use crate::validate::id;

verus! {

/// The largest packet there can be: a body of the largest length, and the five
/// bytes before it.
pub const MAX_PACKET_SIZE: u32 = 268_435_460;

/// Why a CONNECT's properties could not be taken over.
#[derive(Debug, Clone, Copy, PartialEq, Eq, Structural)]
pub enum ContextError {
    /// A property that a CONNECT may not carry, or a section that is too long.
    BadParameter,
    /// A property that does not fit, or repeats.
    BadResponse,
}

/// What this client announced.
#[derive(Debug, Clone, Copy, PartialEq, Eq, Structural)]
pub struct ClientLimits {
    /// How many QoS 1 and 2 messages this client takes in flight.
    pub receive_max: u16,
    /// The largest packet this client accepts.
    pub max_packet_size: u32,
    /// The highest topic alias this client accepts.
    pub topic_alias_max: u16,
    /// Whether this client asked for Response Information.
    pub request_response_info: bool,
    /// Whether this client asked for reason strings and user properties.
    pub request_problem_info: bool,
}

/// What the broker answered.
#[derive(Debug, Clone, Copy, PartialEq, Eq, Structural)]
pub struct ServerLimits {
    /// How many QoS 1 and 2 messages the broker takes in flight.
    pub receive_max: u16,
    /// The largest QoS the broker supports.
    pub max_qos: u8,
    /// Whether retained messages work.
    pub retain_available: u8,
    /// The largest packet the broker accepts.
    pub max_packet_size: u32,
    /// The highest topic alias the broker accepts.
    pub topic_alias_max: u16,
    /// Whether wildcard subscriptions work.
    pub wildcard_available: u8,
    /// Whether subscription identifiers work.
    pub subscription_id_available: u8,
    /// Whether shared subscriptions work.
    pub shared_available: u8,
    /// The keep-alive interval in force.
    pub keep_alive: u16,
}

/// What the two ends have agreed on.
#[derive(Debug, Clone, Copy, PartialEq, Eq, Structural)]
pub struct ConnectionProperties {
    /// How long the broker remembers the session, in seconds.
    pub session_expiry: u32,
    /// What this client announced.
    pub client: ClientLimits,
    /// What the broker answered.
    pub server: ServerLimits,
}

/// What holds where nothing is said.
pub open spec fn defaults() -> ConnectionProperties {
    ConnectionProperties {
        session_expiry: 0,
        client: ClientLimits {
            receive_max: u16::MAX,
            max_packet_size: MAX_PACKET_SIZE,
            topic_alias_max: 0,
            request_response_info: false,
            request_problem_info: true,
        },
        server: ServerLimits {
            receive_max: u16::MAX,
            max_qos: 2,
            retain_available: 1,
            max_packet_size: MAX_PACKET_SIZE,
            topic_alias_max: 0,
            wildcard_available: 1,
            subscription_id_available: 1,
            shared_available: 1,
            keep_alive: u16::MAX,
        },
    }
}

impl ConnectionProperties {
    /// What holds where nothing is said.
    #[must_use]
    pub fn new() -> (properties: Self)
        ensures
            properties == defaults(),
    {
        ConnectionProperties {
            session_expiry: 0,
            client: ClientLimits {
                receive_max: u16::MAX,
                max_packet_size: MAX_PACKET_SIZE,
                topic_alias_max: 0,
                request_response_info: false,
                request_problem_info: true,
            },
            server: ServerLimits {
                receive_max: u16::MAX,
                max_qos: 2,
                retain_available: 1,
                max_packet_size: MAX_PACKET_SIZE,
                topic_alias_max: 0,
                wildcard_available: 1,
                subscription_id_available: 1,
                shared_available: 1,
                keep_alive: u16::MAX,
            },
        }
    }
}

impl Default for ConnectionProperties {
    fn default() -> (properties: Self)
        ensures
            properties == defaults(),
    {
        ConnectionProperties::new()
    }
}

/// The four properties that are taken over, each of which may appear once.
pub open spec fn taken_over(id: u8) -> bool {
    id == id::SESSION_EXPIRY || id == id::RECEIVE_MAX || id == id::MAX_PACKET_SIZE || id
        == id::TOPIC_ALIAS_MAX
}

/// Taking over one property.
pub open spec fn with_property(
    context: ConnectionProperties,
    id: u8,
    value: u32,
) -> ConnectionProperties {
    if id == id::SESSION_EXPIRY {
        ConnectionProperties { session_expiry: value, ..context }
    } else if id == id::RECEIVE_MAX {
        ConnectionProperties {
            client: ClientLimits { receive_max: value as u16, ..context.client },
            ..context
        }
    } else if id == id::MAX_PACKET_SIZE {
        ConnectionProperties {
            client: ClientLimits { max_packet_size: value, ..context.client },
            ..context
        }
    } else if id == id::TOPIC_ALIAS_MAX {
        ConnectionProperties {
            client: ClientLimits { topic_alias_max: value as u16, ..context.client },
            ..context
        }
    } else {
        context
    }
}

/// Taking over a CONNECT's properties: the answer, and the context by then.
/// Values are stored as they stand, even ones that a validator refuses.
pub open spec fn context_check(s: Seq<u8>, seen: Set<u8>, context: ConnectionProperties) -> (Result<
    (),
    ContextError,
>, ConnectionProperties)
    decreases s.len(),
{
    if s.len() == 0 {
        (Ok(()), context)
    } else if !validate::connect_allows(s[0]) {
        (Err(ContextError::BadParameter), context)
    } else {
        proof {
            validate::lemma_value_of(s[0], s.skip(1));
        }
        match validate::value_of(s[0], s.skip(1)) {
            Some((value, rest)) => if taken_over(s[0]) && seen.contains(s[0]) {
                (Err(ContextError::BadResponse), context)
            } else {
                context_check(rest, seen.insert(s[0]), with_property(context, s[0], value))
            },
            None => (Err(ContextError::BadResponse), context),
        }
    }
}

/// Takes over what a CONNECT's properties announce.
///
/// On a refusal the context keeps what was taken over by then.
///
/// # Errors
///
/// [`ContextError::BadParameter`] for a property that a CONNECT may not carry,
/// or a section that is too long; [`ContextError::BadResponse`] for a property
/// that does not fit, or repeats where it is taken over.
pub fn update_with_connect_props(properties: &[u8], context: &mut ConnectionProperties) -> (result:
    Result<(), ContextError>)
    ensures
        properties@.len() >= REMAINING_LENGTH_INVALID ==> result == Err::<(), ContextError>(
            ContextError::BadParameter,
        ) && *final(context) == *old(context),
        properties@.len() < REMAINING_LENGTH_INVALID ==> (result, *final(context))
            == context_check(properties@, Set::empty(), *old(context)),
{
    if properties.len() >= REMAINING_LENGTH_INVALID as usize {
        return Err(ContextError::BadParameter);
    }
    let mut reader = PropertyReader::new(properties, properties.len() as u32);
    let mut seen = IdSet::new();
    while reader.remaining() > 0
        invariant
            reader.full(),
            properties@.len() < REMAINING_LENGTH_INVALID,
            context_check(properties@, Set::empty(), *old(context)) == context_check(
                reader.window(),
                seen@,
                *context,
            ),
        decreases reader.left(),
    {
        let id = match reader.property_id() {
            Ok(id) => id,
            Err(_) => return Err(ContextError::BadResponse),
        };
        if id >= 64 {
            return Err(ContextError::BadParameter);
        }
        let mut used = false;
        match id {
            id::SESSION_EXPIRY => {
                used = seen.contains(id);
                match reader.u32(&mut used) {
                    Ok(value) => context.session_expiry = value,
                    Err(_) => return Err(ContextError::BadResponse),
                }
            },
            id::RECEIVE_MAX => {
                used = seen.contains(id);
                match reader.u16(&mut used) {
                    Ok(value) => context.client.receive_max = value,
                    Err(_) => return Err(ContextError::BadResponse),
                }
            },
            id::MAX_PACKET_SIZE => {
                used = seen.contains(id);
                match reader.u32(&mut used) {
                    Ok(value) => context.client.max_packet_size = value,
                    Err(_) => return Err(ContextError::BadResponse),
                }
            },
            id::TOPIC_ALIAS_MAX => {
                used = seen.contains(id);
                match reader.u16(&mut used) {
                    Ok(value) => context.client.topic_alias_max = value,
                    Err(_) => return Err(ContextError::BadResponse),
                }
            },
            id::REQUEST_PROBLEM | id::REQUEST_RESPONSE => match reader.u8(&mut used) {
                Ok(_) => {},
                Err(_) => return Err(ContextError::BadResponse),
            },
            id::AUTH_DATA | id::AUTH_METHOD => match reader.utf8(&mut used) {
                Ok(_) => {},
                Err(_) => return Err(ContextError::BadResponse),
            },
            id::USER_PROPERTY => match reader.user_property() {
                Ok(_) => {},
                Err(_) => return Err(ContextError::BadResponse),
            },
            _ => return Err(ContextError::BadParameter),
        }
        seen.insert(id);
    }
    Ok(())
}

/// **Law.** What the validator accepts is taken over without an error, and
/// leaves no limit at zero.
pub proof fn law_validated_is_taken_over(
    s: Seq<u8>,
    seen: Set<u8>,
    found: validate::ConnectValidation,
    context: ConnectionProperties,
)
    requires
        validate::connect_check(s, seen, found).0 is Ok,
    ensures
        context_check(s, seen, context).0 is Ok,
        context.client.receive_max != 0 ==> context_check(s, seen, context).1.client.receive_max
            != 0,
        context.client.max_packet_size != 0 ==> context_check(
            s,
            seen,
            context,
        ).1.client.max_packet_size != 0,
        context_check(s, seen, context).1.server == context.server,
    decreases s.len(),
{
    if s.len() > 0 {
        validate::lemma_value_of(s[0], s.skip(1));
        if let Some((value, rest)) = validate::value_of(s[0], s.skip(1)) {
            law_validated_is_taken_over(
                rest,
                seen.insert(s[0]),
                validate::connect_found(found, s[0], value),
                with_property(context, s[0], value),
            );
        }
    }
}

} // verus!
