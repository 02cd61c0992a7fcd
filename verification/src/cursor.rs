//! Walking a property section back, one property at a time.
//!
//! A reader does not know what a section holds: any property that the packet
//! allows, in any order. So it walks a cursor: ask what is next, take it or
//! [`skip`](PropertyCursor::skip) it, and stop when the section runs out.
//!
//! Every getter demands one identifier. It reads what is under the cursor and
//! does not search, so a section read in the wrong order fails instead of
//! handing out the value of another property. A refusal does not move the
//! cursor.

use vstd::prelude::*;

use crate::connack::property as server;
use crate::header::variable_length_encoded_size;
use crate::property;
use crate::property::{decode_variable_length, PropertyError, PropertyReader};
use crate::validate::id as client;
use crate::wire;

verus! {

/// Why a property could not be taken.
#[derive(Debug, Clone, Copy, PartialEq, Eq, Structural)]
pub enum CursorError {
    /// What is under the cursor is another property, or none at all.
    BadParameter,
    /// The property does not fit what is left of the section.
    BadResponse,
    /// There are no more properties.
    EndOfProperties,
}

impl From<PropertyError> for CursorError {
    fn from(_error: PropertyError) -> (converted: Self) {
        CursorError::BadResponse
    }
}

impl vstd::std_specs::convert::FromSpecImpl<PropertyError> for CursorError {
    open spec fn obeys_from_spec() -> bool {
        true
    }

    open spec fn from_spec(_error: PropertyError) -> Self {
        CursorError::BadResponse
    }
}

/// How the value of a property is laid out.
#[derive(Debug, Clone, Copy, PartialEq, Eq, Structural)]
pub enum Width {
    /// One byte.
    Byte,
    /// A two-byte integer.
    TwoBytes,
    /// A four-byte integer.
    FourBytes,
    /// A two-byte count, then that many bytes.
    String,
    /// Two strings.
    Pair,
    /// A variable-length integer.
    Variable,
}

/// How the value of each property is laid out; `None` where no property has
/// this identifier.
pub open spec fn layout(id: u8) -> Option<Width> {
    if id == client::SESSION_EXPIRY || id == client::MAX_PACKET_SIZE || id == client::WILL_DELAY
        || id == client::MESSAGE_EXPIRY {
        Some(Width::FourBytes)
    } else if id == client::RECEIVE_MAX || id == client::TOPIC_ALIAS_MAX || id
        == client::TOPIC_ALIAS || id == server::SERVER_KEEP_ALIVE {
        Some(Width::TwoBytes)
    } else if id == client::REQUEST_PROBLEM || id == client::REQUEST_RESPONSE || id
        == client::PAYLOAD_FORMAT || id == server::MAX_QOS || id == server::RETAIN_AVAILABLE || id
        == server::WILDCARD_AVAILABLE || id == server::SUBSCRIPTION_ID_AVAILABLE || id
        == server::SHARED_SUB_AVAILABLE {
        Some(Width::Byte)
    } else if id == client::AUTH_METHOD || id == client::CONTENT_TYPE || id
        == client::RESPONSE_TOPIC || id == server::ASSIGNED_CLIENT_ID || id
        == client::REASON_STRING || id == server::RESPONSE_INFO || id == server::SERVER_REFERENCE
        || id == client::AUTH_DATA || id == client::CORRELATION_DATA {
        Some(Width::String)
    } else if id == client::USER_PROPERTY {
        Some(Width::Pair)
    } else if id == client::SUBSCRIPTION_ID {
        Some(Width::Variable)
    } else {
        None
    }
}

/// How the value of a property is laid out; `None` where no property has this
/// identifier.
#[must_use]
pub fn width_of(id: u8) -> (width: Option<Width>)
    ensures
        width == layout(id),
{
    match id {
        client::SESSION_EXPIRY
        | client::MAX_PACKET_SIZE
        | client::WILL_DELAY
        | client::MESSAGE_EXPIRY => Some(Width::FourBytes),
        client::RECEIVE_MAX
        | client::TOPIC_ALIAS_MAX
        | client::TOPIC_ALIAS
        | server::SERVER_KEEP_ALIVE => Some(Width::TwoBytes),
        client::REQUEST_PROBLEM
        | client::REQUEST_RESPONSE
        | client::PAYLOAD_FORMAT
        | server::MAX_QOS
        | server::RETAIN_AVAILABLE
        | server::WILDCARD_AVAILABLE
        | server::SUBSCRIPTION_ID_AVAILABLE
        | server::SHARED_SUB_AVAILABLE => Some(Width::Byte),
        client::AUTH_METHOD
        | client::CONTENT_TYPE
        | client::RESPONSE_TOPIC
        | server::ASSIGNED_CLIENT_ID
        | client::REASON_STRING
        | server::RESPONSE_INFO
        | server::SERVER_REFERENCE
        | client::AUTH_DATA
        | client::CORRELATION_DATA => Some(Width::String),
        client::USER_PROPERTY => Some(Width::Pair),
        client::SUBSCRIPTION_ID => Some(Width::Variable),
        _ => None,
    }
}

/// Taking the property `id` from under a cursor, where `found` is what reading
/// its value from behind the identifier gives: the answer, and where the cursor
/// is then.
pub open spec fn taking<T>(
    section: Seq<u8>,
    at: int,
    id: u8,
    found: Option<(T, Seq<u8>)>,
) -> (Result<T, CursorError>, int) {
    if at >= section.len() {
        (Err(CursorError::EndOfProperties), at)
    } else if section[at] != id {
        (Err(CursorError::BadParameter), at)
    } else if section.len() - at - 1 > u32::MAX {
        (Err(CursorError::BadResponse), at)
    } else {
        match found {
            Some((value, rest)) => (Ok(value), section.len() - rest.len()),
            None => (Err(CursorError::BadResponse), at),
        }
    }
}

/// Stepping over whatever property is under a cursor.
pub open spec fn skipping(section: Seq<u8>, at: int) -> (Result<(), CursorError>, int) {
    if at >= section.len() {
        (Err(CursorError::EndOfProperties), at)
    } else {
        match layout(section[at]) {
            None => (Err(CursorError::BadParameter), at),
            Some(width) => if section.len() - at - 1 > u32::MAX {
                (Err(CursorError::BadResponse), at)
            } else {
                match property::take_number(width, section.skip(at + 1)) {
                    Some((_, rest)) => (Ok(()), section.len() - rest.len()),
                    None => (Err(CursorError::BadResponse), at),
                }
            },
        }
    }
}

/// A cursor over a property section.
#[derive(Debug, Clone)]
pub struct PropertyCursor<'a> {
    section: &'a [u8],
    at: usize,
}

impl<'a> PropertyCursor<'a> {
    /// The section the cursor walks.
    pub closed spec fn section(&self) -> Seq<u8> {
        self.section@
    }

    /// Where the cursor is.
    pub closed spec fn at(&self) -> int {
        self.at as int
    }

    /// The bytes behind the identifier under the cursor.
    pub open spec fn behind(&self) -> Seq<u8> {
        self.section().skip(self.at() + 1)
    }

    /// A cursor at the front of a section.
    #[must_use]
    pub fn new(section: &'a [u8]) -> (cursor: Self)
        ensures
            cursor.section() == section@,
            cursor.at() == 0,
    {
        PropertyCursor { section, at: 0 }
    }

    /// Where the cursor is.
    #[must_use]
    pub fn position(&self) -> (at: usize)
        ensures
            at == self.at(),
    {
        self.at
    }

    /// Moves the cursor. Past the end of the section there is nothing to take.
    pub fn seek(&mut self, at: usize)
        ensures
            final(self).section() == old(self).section(),
            final(self).at() == at,
    {
        self.at = at;
    }

    /// Has the section run out?
    #[must_use]
    pub fn is_empty(&self) -> (empty: bool)
        ensures
            empty == (self.at() >= self.section().len()),
    {
        self.at >= self.section.len()
    }

    /// The identifier under the cursor.
    fn identifier(&self) -> (id: Result<u8, CursorError>)
        ensures
            id == (if self.at() >= self.section().len() {
                Err::<u8, CursorError>(CursorError::EndOfProperties)
            } else {
                Ok(self.section()[self.at()])
            }),
    {
        if self.at >= self.section.len() {
            return Err(CursorError::EndOfProperties);
        }
        Ok(self.section[self.at])
    }

    /// A reader over everything behind the identifier.
    fn body(&self) -> (reader: Result<PropertyReader<'a>, CursorError>)
        requires
            self.at() < self.section().len(),
        ensures
            reader is Err == (self.section().len() - self.at() - 1 > u32::MAX),
            reader matches Err(error) ==> error == CursorError::BadResponse,
            reader matches Ok(r) ==> r.full() && r.at() == 0 && r.window() == self.behind(),
    {
        assert(self.at < self.section.len());
        let rest = vstd::slice::slice_subrange(self.section, self.at + 1, self.section.len());
        assert(rest@ =~= self.behind());
        if rest.len() > u32::MAX as usize {
            return Err(CursorError::BadResponse);
        }
        Ok(PropertyReader::new(rest, rest.len() as u32))
    }

    /// The identifier of the next property, without taking it.
    ///
    /// # Errors
    ///
    /// [`CursorError::EndOfProperties`] if the section has run out,
    /// [`CursorError::BadParameter`] if no property has the identifier.
    pub fn next_type(&self) -> (id: Result<u8, CursorError>)
        ensures
            id == (if self.at() >= self.section().len() {
                Err::<u8, CursorError>(CursorError::EndOfProperties)
            } else if layout(self.section()[self.at()]) is None {
                Err(CursorError::BadParameter)
            } else {
                Ok(self.section()[self.at()])
            }),
    {
        let id = match self.identifier() {
            Ok(id) => id,
            Err(error) => return Err(error),
        };
        if width_of(id).is_none() {
            return Err(CursorError::BadParameter);
        }
        Ok(id)
    }

    /// Steps over the next property.
    ///
    /// # Errors
    ///
    /// As [`next_type`](Self::next_type), and [`CursorError::BadResponse`] if
    /// the property does not fit what is left of the section.
    pub fn skip(&mut self) -> (result: Result<(), CursorError>)
        ensures
            (result, final(self).at()) == skipping(old(self).section(), old(self).at()),
            final(self).section() == old(self).section(),
    {
        let id = match self.identifier() {
            Ok(id) => id,
            Err(error) => return Err(error),
        };
        let width = match width_of(id) {
            Some(width) => width,
            None => return Err(CursorError::BadParameter),
        };
        let mut reader = match self.body() {
            Ok(reader) => reader,
            Err(error) => return Err(error),
        };
        let mut used = false;
        match reader.number(width, &mut used) {
            Ok(_) => {
                self.advance(reader.position());
                Ok(())
            },
            Err(_) => Err(CursorError::BadResponse),
        }
    }

    /// Moves the cursor past the identifier and a value of this many bytes.
    fn advance(&mut self, value: usize)
        requires
            old(self).at() < old(self).section().len(),
            value <= old(self).behind().len(),
        ensures
            final(self).section() == old(self).section(),
            final(self).at() == old(self).at() + 1 + value,
    {
        assert(self.at + 1 + value <= self.section.len());
        self.at = self.at + 1 + value;
    }

    /// Takes a pair of strings.
    ///
    /// # Errors
    ///
    /// [`CursorError::EndOfProperties`] if the section has run out,
    /// [`CursorError::BadParameter`] if another property is next, and
    /// [`CursorError::BadResponse`] if it does not fit.
    pub fn user_property(&mut self) -> (pair: Result<(&'a [u8], &'a [u8]), CursorError>)
        ensures
            (
                match pair {
                    Ok((key, value)) => Ok((key@, value@)),
                    Err(error) => Err(error),
                },
                final(self).at(),
            ) == taking(
                old(self).section(),
                old(self).at(),
                client::USER_PROPERTY,
                wire::take_pair(old(self).behind()),
            ),
            final(self).section() == old(self).section(),
    {
        match self.identifier() {
            Ok(id) => {
                if id != client::USER_PROPERTY {
                    return Err(CursorError::BadParameter);
                }
            },
            Err(error) => return Err(error),
        }
        let mut reader = match self.body() {
            Ok(reader) => reader,
            Err(error) => return Err(error),
        };
        match reader.user_property() {
            Ok(pair) => {
                self.advance(reader.position());
                Ok(pair)
            },
            Err(_) => Err(CursorError::BadResponse),
        }
    }

    /// Takes a Subscription Identifier.
    ///
    /// # Errors
    ///
    /// As [`user_property`](Self::user_property).
    pub fn subscription_id(&mut self) -> (value: Result<u32, CursorError>)
        ensures
            old(self).section().len() <= u32::MAX ==> (value, final(self).at()) == taking(
                old(self).section(),
                old(self).at(),
                client::SUBSCRIPTION_ID,
                wire::take_length(old(self).behind()),
            ),
            old(self).section().len() > u32::MAX ==> (value, final(self).at()) == (if old(
                self).at() >= old(self).section().len() {
                (Err::<u32, CursorError>(CursorError::EndOfProperties), old(self).at())
            } else if old(self).section()[old(self).at()] != client::SUBSCRIPTION_ID {
                (Err(CursorError::BadParameter), old(self).at())
            } else {
                match wire::take_length(old(self).behind()) {
                    Some((n, rest)) => (Ok(n), old(self).section().len() - rest.len()),
                    None => (Err(CursorError::BadResponse), old(self).at()),
                }
            }),
            final(self).section() == old(self).section(),
    {
        match self.identifier() {
            Ok(id) => {
                if id != client::SUBSCRIPTION_ID {
                    return Err(CursorError::BadParameter);
                }
            },
            Err(error) => return Err(error),
        }
        self.variable()
    }

    /// Takes a variable-length value, whatever its identifier.
    fn variable(&mut self) -> (value: Result<u32, CursorError>)
        requires
            old(self).at() < old(self).section().len(),
        ensures
            (value, final(self).at()) == (match wire::take_length(old(self).behind()) {
                Some((n, rest)) => (
                    Ok::<u32, CursorError>(n),
                    old(self).section().len() - rest.len(),
                ),
                None => (Err(CursorError::BadResponse), old(self).at()),
            }),
            final(self).section() == old(self).section(),
    {
        let rest = vstd::slice::slice_subrange(self.section, self.at + 1, self.section.len());
        assert(rest@ =~= self.behind());
        match decode_variable_length(rest) {
            Ok(value) => {
                proof {
                    wire::lemma_read_length_bounds(rest@);
                }
                self.advance(variable_length_encoded_size(value) as usize);
                Ok(value)
            },
            Err(_) => Err(CursorError::BadResponse),
        }
    }

    /// Takes a one-byte property with this identifier.
    fn byte(&mut self, expected: u8) -> (value: Result<u8, CursorError>)
        ensures
            (value, final(self).at()) == taking(
                old(self).section(),
                old(self).at(),
                expected,
                wire::take_u8(old(self).behind()),
            ),
            final(self).section() == old(self).section(),
    {
        match self.identifier() {
            Ok(id) => {
                if id != expected {
                    return Err(CursorError::BadParameter);
                }
            },
            Err(error) => return Err(error),
        }
        let mut reader = match self.body() {
            Ok(reader) => reader,
            Err(error) => return Err(error),
        };
        let mut used = false;
        match reader.u8(&mut used) {
            Ok(value) => {
                self.advance(reader.position());
                Ok(value)
            },
            Err(_) => Err(CursorError::BadResponse),
        }
    }

    /// Takes a two-byte property with this identifier.
    fn two_bytes(&mut self, expected: u8) -> (value: Result<u16, CursorError>)
        ensures
            (value, final(self).at()) == taking(
                old(self).section(),
                old(self).at(),
                expected,
                wire::take_u16(old(self).behind()),
            ),
            final(self).section() == old(self).section(),
    {
        match self.identifier() {
            Ok(id) => {
                if id != expected {
                    return Err(CursorError::BadParameter);
                }
            },
            Err(error) => return Err(error),
        }
        let mut reader = match self.body() {
            Ok(reader) => reader,
            Err(error) => return Err(error),
        };
        let mut used = false;
        match reader.u16(&mut used) {
            Ok(value) => {
                self.advance(reader.position());
                Ok(value)
            },
            Err(_) => Err(CursorError::BadResponse),
        }
    }

    /// Takes a four-byte property with this identifier.
    fn four_bytes(&mut self, expected: u8) -> (value: Result<u32, CursorError>)
        ensures
            (value, final(self).at()) == taking(
                old(self).section(),
                old(self).at(),
                expected,
                wire::take_u32(old(self).behind()),
            ),
            final(self).section() == old(self).section(),
    {
        match self.identifier() {
            Ok(id) => {
                if id != expected {
                    return Err(CursorError::BadParameter);
                }
            },
            Err(error) => return Err(error),
        }
        let mut reader = match self.body() {
            Ok(reader) => reader,
            Err(error) => return Err(error),
        };
        let mut used = false;
        match reader.u32(&mut used) {
            Ok(value) => {
                self.advance(reader.position());
                Ok(value)
            },
            Err(_) => Err(CursorError::BadResponse),
        }
    }

    /// Takes a string property with this identifier.
    fn text(&mut self, expected: u8) -> (value: Result<&'a [u8], CursorError>)
        ensures
            (wire::viewed(value), final(self).at()) == taking(
                old(self).section(),
                old(self).at(),
                expected,
                wire::take_text(old(self).behind()),
            ),
            final(self).section() == old(self).section(),
    {
        match self.identifier() {
            Ok(id) => {
                if id != expected {
                    return Err(CursorError::BadParameter);
                }
            },
            Err(error) => return Err(error),
        }
        let mut reader = match self.body() {
            Ok(reader) => reader,
            Err(error) => return Err(error),
        };
        let mut used = false;
        match reader.utf8(&mut used) {
            Ok(value) => {
                self.advance(reader.position());
                Ok(value)
            },
            Err(_) => Err(CursorError::BadResponse),
        }
    }

    /// Takes a Session Expiry Interval.
    ///
    /// # Errors
    ///
    /// As [`user_property`](Self::user_property).
    pub fn session_expiry(&mut self) -> (value: Result<u32, CursorError>)
        ensures
            (value, final(self).at()) == taking(
                old(self).section(),
                old(self).at(),
                client::SESSION_EXPIRY,
                wire::take_u32(old(self).behind()),
            ),
            final(self).section() == old(self).section(),
    {
        self.four_bytes(client::SESSION_EXPIRY)
    }

    /// Takes a Receive Maximum.
    ///
    /// # Errors
    ///
    /// As [`user_property`](Self::user_property).
    pub fn receive_max(&mut self) -> (value: Result<u16, CursorError>)
        ensures
            (value, final(self).at()) == taking(
                old(self).section(),
                old(self).at(),
                client::RECEIVE_MAX,
                wire::take_u16(old(self).behind()),
            ),
            final(self).section() == old(self).section(),
    {
        self.two_bytes(client::RECEIVE_MAX)
    }

    /// Takes a Maximum QoS.
    ///
    /// # Errors
    ///
    /// As [`user_property`](Self::user_property).
    pub fn max_qos(&mut self) -> (value: Result<u8, CursorError>)
        ensures
            (value, final(self).at()) == taking(
                old(self).section(),
                old(self).at(),
                server::MAX_QOS,
                wire::take_u8(old(self).behind()),
            ),
            final(self).section() == old(self).section(),
    {
        self.byte(server::MAX_QOS)
    }

    /// Takes Retain Available.
    ///
    /// # Errors
    ///
    /// As [`user_property`](Self::user_property).
    pub fn retain_available(&mut self) -> (value: Result<u8, CursorError>)
        ensures
            (value, final(self).at()) == taking(
                old(self).section(),
                old(self).at(),
                server::RETAIN_AVAILABLE,
                wire::take_u8(old(self).behind()),
            ),
            final(self).section() == old(self).section(),
    {
        self.byte(server::RETAIN_AVAILABLE)
    }

    /// Takes a Maximum Packet Size.
    ///
    /// # Errors
    ///
    /// As [`user_property`](Self::user_property).
    pub fn max_packet_size(&mut self) -> (value: Result<u32, CursorError>)
        ensures
            (value, final(self).at()) == taking(
                old(self).section(),
                old(self).at(),
                client::MAX_PACKET_SIZE,
                wire::take_u32(old(self).behind()),
            ),
            final(self).section() == old(self).section(),
    {
        self.four_bytes(client::MAX_PACKET_SIZE)
    }

    /// Takes an Assigned Client Identifier.
    ///
    /// # Errors
    ///
    /// As [`user_property`](Self::user_property).
    pub fn assigned_client_id(&mut self) -> (value: Result<&'a [u8], CursorError>)
        ensures
            (wire::viewed(value), final(self).at()) == taking(
                old(self).section(),
                old(self).at(),
                server::ASSIGNED_CLIENT_ID,
                wire::take_text(old(self).behind()),
            ),
            final(self).section() == old(self).section(),
    {
        self.text(server::ASSIGNED_CLIENT_ID)
    }

    /// Takes a Topic Alias Maximum.
    ///
    /// # Errors
    ///
    /// As [`user_property`](Self::user_property).
    pub fn topic_alias_max(&mut self) -> (value: Result<u16, CursorError>)
        ensures
            (value, final(self).at()) == taking(
                old(self).section(),
                old(self).at(),
                client::TOPIC_ALIAS_MAX,
                wire::take_u16(old(self).behind()),
            ),
            final(self).section() == old(self).section(),
    {
        self.two_bytes(client::TOPIC_ALIAS_MAX)
    }

    /// Takes a Reason String.
    ///
    /// # Errors
    ///
    /// As [`user_property`](Self::user_property).
    pub fn reason_string(&mut self) -> (value: Result<&'a [u8], CursorError>)
        ensures
            (wire::viewed(value), final(self).at()) == taking(
                old(self).section(),
                old(self).at(),
                client::REASON_STRING,
                wire::take_text(old(self).behind()),
            ),
            final(self).section() == old(self).section(),
    {
        self.text(client::REASON_STRING)
    }

    /// Takes Wildcard Subscription Available.
    ///
    /// # Errors
    ///
    /// As [`user_property`](Self::user_property).
    pub fn wildcard_available(&mut self) -> (value: Result<u8, CursorError>)
        ensures
            (value, final(self).at()) == taking(
                old(self).section(),
                old(self).at(),
                server::WILDCARD_AVAILABLE,
                wire::take_u8(old(self).behind()),
            ),
            final(self).section() == old(self).section(),
    {
        self.byte(server::WILDCARD_AVAILABLE)
    }

    /// Takes Subscription Identifiers Available.
    ///
    /// # Errors
    ///
    /// As [`user_property`](Self::user_property).
    pub fn subscription_id_available(&mut self) -> (value: Result<u8, CursorError>)
        ensures
            (value, final(self).at()) == taking(
                old(self).section(),
                old(self).at(),
                server::SUBSCRIPTION_ID_AVAILABLE,
                wire::take_u8(old(self).behind()),
            ),
            final(self).section() == old(self).section(),
    {
        self.byte(server::SUBSCRIPTION_ID_AVAILABLE)
    }

    /// Takes Shared Subscription Available.
    ///
    /// # Errors
    ///
    /// As [`user_property`](Self::user_property).
    pub fn shared_sub_available(&mut self) -> (value: Result<u8, CursorError>)
        ensures
            (value, final(self).at()) == taking(
                old(self).section(),
                old(self).at(),
                server::SHARED_SUB_AVAILABLE,
                wire::take_u8(old(self).behind()),
            ),
            final(self).section() == old(self).section(),
    {
        self.byte(server::SHARED_SUB_AVAILABLE)
    }

    /// Takes a Server Keep Alive.
    ///
    /// # Errors
    ///
    /// As [`user_property`](Self::user_property).
    pub fn server_keep_alive(&mut self) -> (value: Result<u16, CursorError>)
        ensures
            (value, final(self).at()) == taking(
                old(self).section(),
                old(self).at(),
                server::SERVER_KEEP_ALIVE,
                wire::take_u16(old(self).behind()),
            ),
            final(self).section() == old(self).section(),
    {
        self.two_bytes(server::SERVER_KEEP_ALIVE)
    }

    /// Takes Response Information.
    ///
    /// # Errors
    ///
    /// As [`user_property`](Self::user_property).
    pub fn response_info(&mut self) -> (value: Result<&'a [u8], CursorError>)
        ensures
            (wire::viewed(value), final(self).at()) == taking(
                old(self).section(),
                old(self).at(),
                server::RESPONSE_INFO,
                wire::take_text(old(self).behind()),
            ),
            final(self).section() == old(self).section(),
    {
        self.text(server::RESPONSE_INFO)
    }

    /// Takes a Server Reference.
    ///
    /// # Errors
    ///
    /// As [`user_property`](Self::user_property).
    pub fn server_reference(&mut self) -> (value: Result<&'a [u8], CursorError>)
        ensures
            (wire::viewed(value), final(self).at()) == taking(
                old(self).section(),
                old(self).at(),
                server::SERVER_REFERENCE,
                wire::take_text(old(self).behind()),
            ),
            final(self).section() == old(self).section(),
    {
        self.text(server::SERVER_REFERENCE)
    }

    /// Takes an Authentication Method.
    ///
    /// # Errors
    ///
    /// As [`user_property`](Self::user_property).
    pub fn auth_method(&mut self) -> (value: Result<&'a [u8], CursorError>)
        ensures
            (wire::viewed(value), final(self).at()) == taking(
                old(self).section(),
                old(self).at(),
                client::AUTH_METHOD,
                wire::take_text(old(self).behind()),
            ),
            final(self).section() == old(self).section(),
    {
        self.text(client::AUTH_METHOD)
    }

    /// Takes Authentication Data.
    ///
    /// # Errors
    ///
    /// As [`user_property`](Self::user_property).
    pub fn auth_data(&mut self) -> (value: Result<&'a [u8], CursorError>)
        ensures
            (wire::viewed(value), final(self).at()) == taking(
                old(self).section(),
                old(self).at(),
                client::AUTH_DATA,
                wire::take_text(old(self).behind()),
            ),
            final(self).section() == old(self).section(),
    {
        self.text(client::AUTH_DATA)
    }

    /// Takes a Payload Format Indicator.
    ///
    /// # Errors
    ///
    /// As [`user_property`](Self::user_property).
    pub fn payload_format(&mut self) -> (value: Result<u8, CursorError>)
        ensures
            (value, final(self).at()) == taking(
                old(self).section(),
                old(self).at(),
                client::PAYLOAD_FORMAT,
                wire::take_u8(old(self).behind()),
            ),
            final(self).section() == old(self).section(),
    {
        self.byte(client::PAYLOAD_FORMAT)
    }

    /// Takes a Message Expiry Interval.
    ///
    /// # Errors
    ///
    /// As [`user_property`](Self::user_property).
    pub fn message_expiry(&mut self) -> (value: Result<u32, CursorError>)
        ensures
            (value, final(self).at()) == taking(
                old(self).section(),
                old(self).at(),
                client::MESSAGE_EXPIRY,
                wire::take_u32(old(self).behind()),
            ),
            final(self).section() == old(self).section(),
    {
        self.four_bytes(client::MESSAGE_EXPIRY)
    }

    /// Takes a Topic Alias.
    ///
    /// # Errors
    ///
    /// As [`user_property`](Self::user_property).
    pub fn topic_alias(&mut self) -> (value: Result<u16, CursorError>)
        ensures
            (value, final(self).at()) == taking(
                old(self).section(),
                old(self).at(),
                client::TOPIC_ALIAS,
                wire::take_u16(old(self).behind()),
            ),
            final(self).section() == old(self).section(),
    {
        self.two_bytes(client::TOPIC_ALIAS)
    }

    /// Takes a Response Topic.
    ///
    /// # Errors
    ///
    /// As [`user_property`](Self::user_property).
    pub fn response_topic(&mut self) -> (value: Result<&'a [u8], CursorError>)
        ensures
            (wire::viewed(value), final(self).at()) == taking(
                old(self).section(),
                old(self).at(),
                client::RESPONSE_TOPIC,
                wire::take_text(old(self).behind()),
            ),
            final(self).section() == old(self).section(),
    {
        self.text(client::RESPONSE_TOPIC)
    }

    /// Takes Correlation Data.
    ///
    /// # Errors
    ///
    /// As [`user_property`](Self::user_property).
    pub fn correlation_data(&mut self) -> (value: Result<&'a [u8], CursorError>)
        ensures
            (wire::viewed(value), final(self).at()) == taking(
                old(self).section(),
                old(self).at(),
                client::CORRELATION_DATA,
                wire::take_text(old(self).behind()),
            ),
            final(self).section() == old(self).section(),
    {
        self.text(client::CORRELATION_DATA)
    }

    /// Takes a Content Type.
    ///
    /// # Errors
    ///
    /// As [`user_property`](Self::user_property).
    pub fn content_type(&mut self) -> (value: Result<&'a [u8], CursorError>)
        ensures
            (wire::viewed(value), final(self).at()) == taking(
                old(self).section(),
                old(self).at(),
                client::CONTENT_TYPE,
                wire::take_text(old(self).behind()),
            ),
            final(self).section() == old(self).section(),
    {
        self.text(client::CONTENT_TYPE)
    }
}

/// **Law.** No reader leaves more than it was given, so a step of the cursor
/// stays inside the section: it moves on if and only if it succeeds, and never
/// past the end.
pub proof fn law_skip_stays_inside(section: Seq<u8>, at: int)
    requires
        0 <= at,
    ensures
        skipping(section, at).0 is Ok ==> at < skipping(section, at).1 <= section.len(),
        skipping(section, at).0 is Err ==> skipping(section, at).1 == at,
{
    if at < section.len() {
        if let Some(width) = layout(section[at]) {
            property::lemma_take_number(width, section.skip(at + 1));
        }
    }
}

/// **Law.** Taking a property moves the cursor on if and only if it succeeds,
/// never past the end, and to where skipping it would have moved it.
pub proof fn law_taking_is_skipping(section: Seq<u8>, at: int, id: u8)
    requires
        0 <= at,
    ensures
        layout(id) == Some(Width::Byte) ==> taking(
            section,
            at,
            id,
            wire::take_u8(section.skip(at + 1)),
        ).1 == (if at < section.len() && section[at] == id {
            skipping(section, at).1
        } else {
            at
        }),
        layout(id) == Some(Width::TwoBytes) ==> taking(
            section,
            at,
            id,
            wire::take_u16(section.skip(at + 1)),
        ).1 == (if at < section.len() && section[at] == id {
            skipping(section, at).1
        } else {
            at
        }),
        layout(id) == Some(Width::FourBytes) ==> taking(
            section,
            at,
            id,
            wire::take_u32(section.skip(at + 1)),
        ).1 == (if at < section.len() && section[at] == id {
            skipping(section, at).1
        } else {
            at
        }),
        layout(id) == Some(Width::String) ==> taking(
            section,
            at,
            id,
            wire::take_text(section.skip(at + 1)),
        ).1 == (if at < section.len() && section[at] == id {
            skipping(section, at).1
        } else {
            at
        }),
        layout(id) == Some(Width::Pair) ==> taking(
            section,
            at,
            id,
            wire::take_pair(section.skip(at + 1)),
        ).1 == (if at < section.len() && section[at] == id {
            skipping(section, at).1
        } else {
            at
        }),
        layout(id) == Some(Width::Variable) ==> taking(
            section,
            at,
            id,
            wire::take_length(section.skip(at + 1)),
        ).1 == (if at < section.len() && section[at] == id {
            skipping(section, at).1
        } else {
            at
        }),
{
}

/// **Law.** Asking for the next property and skipping it know the same
/// identifiers: 27 of them, and whatever the first accepts the second can step
/// over where the value fits.
pub proof fn law_one_alphabet(section: Seq<u8>, at: int)
    requires
        0 <= at < section.len() <= u32::MAX,
    ensures
        (layout(section[at]) is None) == (skipping(section, at).0 == Err::<(), CursorError>(
            CursorError::BadParameter,
        )),
{
}

} // verus!
