//! The CONNECT, the packet that opens a session.
//!
//! A CONNECT announces its shape twice: the flags byte says which of the will,
//! the user name and the password follow, and the body holds them in a fixed
//! order. Both come from the same [`Connect`], so they agree.

use vstd::prelude::*;

use crate::header;
use crate::header::{packet, variable_length_encoded_size, MAX_REMAINING_LENGTH};
use crate::property;
use crate::property::{place_section, place_text};
use crate::wire;
use crate::wire::{Piece, Sheet, Trouble};
use crate::writer;
use crate::writer::{ConnectInfo, WillInfo};

verus! {

/// The protocol name, the version, the flags and the keep-alive.
pub const CONNECT_HEADER_SIZE: u32 = 10;

/// The longest field that a two-byte count can describe.
pub const MAX_FIELD: usize = 65_535;

/// The bytes that every CONNECT has behind its length: the protocol name and
/// the version.
pub const PROTOCOL_PREAMBLE: [u8; 7] = [0x00, 0x04, 0x4D, 0x51, 0x54, 0x54, 0x05];

/// What the broker publishes if this client goes away without a DISCONNECT.
#[derive(Debug, Clone, Copy)]
pub struct Will<'a> {
    /// The QoS and the retain flag.
    pub info: WillInfo,
    /// The topic to publish on.
    pub topic_name: &'a [u8],
    /// The message.
    pub payload: &'a [u8],
    /// The will's own property section.
    pub properties: &'a [u8],
}

/// A CONNECT.
#[derive(Debug, Clone, Copy)]
pub struct Connect<'a> {
    /// The flags, the keep-alive and the credentials.
    pub info: ConnectInfo<'a>,
    /// The client identifier. May be empty: the broker then assigns one.
    pub client_identifier: &'a [u8],
    /// The property section.
    pub properties: &'a [u8],
    /// The will, if any.
    pub will: Option<Will<'a>>,
}

/// How large a CONNECT is.
#[derive(Debug, Clone, Copy, PartialEq, Eq, Structural)]
pub struct ConnectSize {
    /// The length of the body.
    pub remaining_length: u32,
    /// The length of the packet.
    pub packet_size: u32,
}

/// Why a CONNECT was refused.
#[derive(Debug, Clone, Copy, PartialEq, Eq, Structural)]
pub enum ConnectError {
    /// A field is too long, or the client identifier begins with NUL.
    BadParameter,
    /// The destination is too small.
    NoMemory,
}

// ---------------------------------------------------------------------------
// What a CONNECT consists of
// ---------------------------------------------------------------------------

/// The part of the will that goes into the flags.
pub open spec fn will_info(connect: Connect<'_>) -> Option<WillInfo> {
    match connect.will {
        Some(will) => Some(will.info),
        None => None,
    }
}

/// The pieces of the will.
pub open spec fn will_pieces(connect: Connect<'_>) -> Seq<Piece> {
    match connect.will {
        Some(will) => seq![
            Piece::Section(will.properties@),
            Piece::Text(will.topic_name@),
            Piece::Text(will.payload@),
        ],
        None => Seq::empty(),
    }
}

/// A field that may be absent.
pub open spec fn optional_text(field: Option<&[u8]>) -> Seq<Piece> {
    match field {
        Some(text) => seq![Piece::Text(text@)],
        None => Seq::empty(),
    }
}

/// Everything behind a CONNECT's fixed fields, in order.
pub open spec fn connect_pieces(connect: Connect<'_>) -> Seq<Piece> {
    seq![Piece::Section(connect.properties@), Piece::Text(connect.client_identifier@)]
        + will_pieces(connect) + optional_text(connect.info.username) + optional_text(
        connect.info.password,
    )
}

/// What a text takes: its count and its bytes.
pub open spec fn text_size(length: int) -> int {
    2 + length
}

/// What a section takes: its length and its bytes.
pub open spec fn section_size(length: int) -> int {
    wire::length_size(length) + length
}

/// The size of a CONNECT's body.
pub open spec fn connect_body_size(connect: Connect<'_>) -> int {
    CONNECT_HEADER_SIZE + section_size(connect.properties@.len() as int) + text_size(
        connect.client_identifier@.len() as int,
    ) + match connect.will {
        Some(will) => section_size(will.properties@.len() as int) + text_size(
            will.topic_name@.len() as int,
        ) + text_size(will.payload@.len() as int),
        None => 0,
    } + match connect.info.username {
        Some(text) => text_size(text@.len() as int),
        None => 0,
    } + match connect.info.password {
        Some(text) => text_size(text@.len() as int),
        None => 0,
    }
}

/// An optional field is no longer than its count can say.
pub open spec fn optional_fits(field: Option<&[u8]>) -> bool {
    field matches Some(text) ==> text@.len() <= MAX_FIELD
}

/// Every field of a CONNECT is no longer than its count or length can say.
pub open spec fn fields_fit(connect: Connect<'_>) -> bool {
    &&& connect.client_identifier@.len() <= MAX_FIELD
    &&& optional_fits(connect.info.username)
    &&& optional_fits(connect.info.password)
    &&& connect.properties@.len() <= MAX_REMAINING_LENGTH
    &&& connect.will matches Some(will) ==> {
        &&& will.payload@.len() <= MAX_FIELD
        &&& will.topic_name@.len() <= MAX_FIELD
        &&& will.properties@.len() <= MAX_REMAINING_LENGTH
    }
}

/// The client identifier begins with NUL.
pub open spec fn begins_with_nul(text: Seq<u8>) -> bool {
    text.len() > 0 && text[0] == 0
}

/// How large a CONNECT is, or that it may not be sent.
pub open spec fn connect_size(connect: Connect<'_>) -> Result<ConnectSize, ConnectError> {
    let body = connect_body_size(connect);
    if begins_with_nul(connect.client_identifier@) || !fields_fit(connect) || body
        > MAX_REMAINING_LENGTH {
        Err(ConnectError::BadParameter)
    } else {
        Ok(
            ConnectSize {
                remaining_length: body as u32,
                packet_size: header::whole_packet(body) as u32,
            },
        )
    }
}

/// What a piece that cannot be written is reported as.
pub open spec fn trouble_of(trouble: Trouble) -> ConnectError {
    match trouble {
        Trouble::TooLong => ConnectError::BadParameter,
        Trouble::NoRoom => ConnectError::NoMemory,
    }
}

/// Writing a CONNECT over a buffer: how much was written, or why not, and the
/// buffer after.
pub open spec fn connect_written(
    buffer: Seq<u8>,
    connect: Connect<'_>,
    remaining_length: u32,
) -> (Result<usize, ConnectError>, Seq<u8>) {
    let (head, begun) = writer::fixed_written(
        buffer,
        packet::CONNECT,
        remaining_length,
        writer::connect_fields(connect.info, will_info(connect)),
    );
    if connect.client_identifier@.len() > MAX_FIELD || !optional_fits(connect.info.username)
        || !optional_fits(connect.info.password) || (connect.will matches Some(will)
        && will.topic_name@.len() > MAX_FIELD) {
        (Err(ConnectError::BadParameter), buffer)
    } else if buffer.len() < header::counted_packet(remaining_length) {
        (Err(ConnectError::NoMemory), buffer)
    } else if head == 0 {
        (Err(ConnectError::NoMemory), begun)
    } else {
        match wire::fill(
            Sheet { buffer: begun, at: head, open: true },
            connect_pieces(connect),
            MAX_REMAINING_LENGTH as int,
        ) {
            (None, sheet) => (Ok(sheet.at as usize), sheet.buffer),
            (Some(trouble), sheet) => (Err(trouble_of(trouble)), sheet.buffer),
        }
    }
}

/// The bytes of a CONNECT.
pub open spec fn connect_bytes(connect: Connect<'_>, remaining_length: u32) -> Seq<u8> {
    writer::fixed_bytes(
        packet::CONNECT,
        remaining_length,
        writer::connect_fields(connect.info, will_info(connect)),
    ) + wire::joined(connect_pieces(connect))
}

// ---------------------------------------------------------------------------
// Size
// ---------------------------------------------------------------------------

/// How large a CONNECT is.
///
/// # Errors
///
/// [`ConnectError::BadParameter`] if the client identifier begins with NUL, a
/// field is longer than its count can say, or the packet is past the limit.
pub fn connect_packet_size(connect: &Connect<'_>) -> (size: Result<ConnectSize, ConnectError>)
    ensures
        size == connect_size(*connect),
{
    if connect.client_identifier.len() > 0 && connect.client_identifier[0] == 0 {
        return Err(ConnectError::BadParameter);
    }
    if connect.client_identifier.len() > MAX_FIELD || too_long(connect.info.username) || too_long(
        connect.info.password,
    ) {
        return Err(ConnectError::BadParameter);
    }
    let property_length = match section_length(connect.properties) {
        Ok(length) => length,
        Err(error) => return Err(error),
    };
    let mut length: u32 = CONNECT_HEADER_SIZE + property_length + variable_length_encoded_size(
        property_length,
    ) + field(connect.client_identifier.len());
    match &connect.will {
        Some(will) => {
            if will.payload.len() > MAX_FIELD || will.topic_name.len() > MAX_FIELD {
                return Err(ConnectError::BadParameter);
            }
            let will_property_length = match section_length(will.properties) {
                Ok(length) => length,
                Err(error) => return Err(error),
            };
            length = length + will_property_length + variable_length_encoded_size(
                will_property_length,
            ) + field(will.topic_name.len()) + field(will.payload.len());
        },
        None => {},
    }
    match connect.info.username {
        Some(username) => {
            length = length + field(username.len());
        },
        None => {},
    }
    match connect.info.password {
        Some(password) => {
            length = length + field(password.len());
        },
        None => {},
    }
    if !within_remaining_length(length) {
        return Err(ConnectError::BadParameter);
    }
    Ok(ConnectSize { remaining_length: length, packet_size: header::packet_size_of(length) })
}

/// Is the length one that a packet may have?
#[must_use]
pub fn within_remaining_length(length: u32) -> (within: bool)
    ensures
        within == (length <= MAX_REMAINING_LENGTH),
{
    length <= MAX_REMAINING_LENGTH
}

/// Is an optional field longer than its count can say?
fn too_long(field: Option<&[u8]>) -> (long: bool)
    ensures
        long == !optional_fits(field),
{
    match field {
        Some(text) => text.len() > MAX_FIELD,
        None => false,
    }
}

/// The length of a property section, if it may be sent.
fn section_length(properties: &[u8]) -> (length: Result<u32, ConnectError>)
    ensures
        length == (if properties@.len() > MAX_REMAINING_LENGTH {
            Err::<u32, ConnectError>(ConnectError::BadParameter)
        } else {
            Ok(properties@.len() as u32)
        }),
{
    if properties.len() > MAX_REMAINING_LENGTH as usize {
        return Err(ConnectError::BadParameter);
    }
    Ok(properties.len() as u32)
}

/// What a text of this many bytes takes.
fn field(length: usize) -> (size: u32)
    requires
        length <= MAX_FIELD,
    ensures
        size == text_size(length as int),
{
    length as u32 + 2
}

// ---------------------------------------------------------------------------
// Writing
// ---------------------------------------------------------------------------

fn connect_error(trouble: Trouble) -> (error: ConnectError)
    ensures
        error == trouble_of(trouble),
{
    match trouble {
        Trouble::TooLong => ConnectError::BadParameter,
        Trouble::NoRoom => ConnectError::NoMemory,
    }
}

/// Writes a CONNECT, and returns how many bytes it took.
///
/// # Errors
///
/// [`ConnectError::BadParameter`] for a field that is longer than its count or
/// length can say; [`ConnectError::NoMemory`] if the destination is too small
/// for the length announced, or for what is written.
pub fn serialize_connect(destination: &mut [u8], connect: &Connect<'_>, remaining_length: u32) -> (
written: Result<usize, ConnectError>)
    ensures
        (written, final(destination)@) == connect_written(
            old(destination)@,
            *connect,
            remaining_length,
        ),
{
    if connect.client_identifier.len() > MAX_FIELD || too_long(connect.info.username) || too_long(
        connect.info.password,
    ) {
        return Err(ConnectError::BadParameter);
    }
    let mut will_info: Option<WillInfo> = None;
    match &connect.will {
        Some(will) => {
            if will.topic_name.len() > MAX_FIELD {
                return Err(ConnectError::BadParameter);
            }
            will_info = Some(will.info);
        },
        None => {},
    }
    if destination.len() < header::packet_size_of(remaining_length) as usize {
        return Err(ConnectError::NoMemory);
    }
    let at = writer::serialize_connect_fixed_header(
        destination,
        &connect.info,
        will_info.as_ref(),
        remaining_length,
    );
    if at == 0 {
        return Err(ConnectError::NoMemory);
    }
    match serialize_fields(destination, at, connect) {
        Ok(next) => Ok(next),
        Err(trouble) => Err(connect_error(trouble)),
    }
}

/// Writes a property section, then a text.
fn place_section_and_text(destination: &mut [u8], at: usize, section: &[u8], text: &[u8]) -> (next:
    Result<usize, Trouble>)
    requires
        at <= old(destination)@.len(),
    ensures
        property::filled(
            old(destination)@,
            at,
            seq![Piece::Section(section@), Piece::Text(text@)],
            MAX_REMAINING_LENGTH as int,
            next,
            final(destination)@,
        ),
{
    let ghost before = destination@;
    let ghost first = seq![Piece::Section(section@)];
    let ghost second = seq![Piece::Text(text@)];
    let ghost limit = MAX_REMAINING_LENGTH as int;
    assert(first + second =~= seq![Piece::Section(section@), Piece::Text(text@)]);
    let middle_at = match place_section(destination, at, section, MAX_REMAINING_LENGTH) {
        Ok(next) => next,
        Err(trouble) => {
            proof {
                property::lemma_filled_stops(
                    before,
                    at,
                    first,
                    second,
                    limit,
                    trouble,
                    destination@,
                );
            }
            return Err(trouble);
        },
    };
    let ghost middle = destination@;
    let next = place_text(destination, middle_at, text);
    proof {
        property::lemma_filled_parts(
            before,
            at,
            first,
            middle,
            middle_at,
            second,
            limit,
            next,
            destination@,
        );
    }
    next
}

/// Writes a field that may be absent.
fn place_optional(destination: &mut [u8], at: usize, field: Option<&[u8]>) -> (next: Result<
    usize,
    Trouble,
>)
    requires
        at <= old(destination)@.len(),
    ensures
        property::filled(
            old(destination)@,
            at,
            optional_text(field),
            MAX_REMAINING_LENGTH as int,
            next,
            final(destination)@,
        ),
{
    match field {
        Some(text) => {
            place_text(destination, at, text)
        },
        None => Ok(at),
    }
}

/// Writes the will, if there is one.
fn place_will(destination: &mut [u8], at: usize, connect: &Connect<'_>) -> (next: Result<
    usize,
    Trouble,
>)
    requires
        at <= old(destination)@.len(),
    ensures
        property::filled(
            old(destination)@,
            at,
            will_pieces(*connect),
            MAX_REMAINING_LENGTH as int,
            next,
            final(destination)@,
        ),
{
    let ghost before = destination@;
    let ghost limit = MAX_REMAINING_LENGTH as int;
    match &connect.will {
        Some(will) => {
            let ghost first = seq![
                Piece::Section(will.properties@),
                Piece::Text(will.topic_name@),
            ];
            let ghost second = seq![Piece::Text(will.payload@)];
            assert(first + second =~= will_pieces(*connect));
            let middle_at = match place_section_and_text(
                destination,
                at,
                will.properties,
                will.topic_name,
            ) {
                Ok(next) => next,
                Err(trouble) => {
                    proof {
                        property::lemma_filled_stops(before, at, first, second, limit, trouble, destination@);
                    }
                    return Err(trouble);
                },
            };
            let ghost middle = destination@;
            let next = place_optional(destination, middle_at, Some(will.payload));
            proof {
                property::lemma_filled_parts(before, at, first, middle, middle_at, second, limit, next, destination@);
            }
            next
        },
        None => Ok(at),
    }
}

/// Writes everything behind the fixed fields.
fn serialize_fields(destination: &mut [u8], at: usize, connect: &Connect<'_>) -> (next: Result<
    usize,
    Trouble,
>)
    requires
        at <= old(destination)@.len(),
    ensures
        property::filled(
            old(destination)@,
            at,
            connect_pieces(*connect),
            MAX_REMAINING_LENGTH as int,
            next,
            final(destination)@,
        ),
{
    let ghost start = destination@;
    let ghost limit = MAX_REMAINING_LENGTH as int;
    let ghost front = seq![
        Piece::Section(connect.properties@),
        Piece::Text(connect.client_identifier@),
    ];
    let ghost will = will_pieces(*connect);
    let ghost username = optional_text(connect.info.username);
    let ghost password = optional_text(connect.info.password);
    let first_at = match place_section_and_text(
        destination,
        at,
        connect.properties,
        connect.client_identifier,
    ) {
        Ok(next) => next,
        Err(trouble) => {
            proof {
                property::lemma_filled_stops(start, at, front, will, limit, trouble, destination@);
                property::lemma_filled_stops(start, at, front + will, username, limit, trouble, destination@);
                property::lemma_filled_stops(start, at, front + will + username, password, limit, trouble, destination@);
            }
            return Err(trouble);
        },
    };
    let ghost first = destination@;
    let second = place_will(destination, first_at, connect);
    proof {
        property::lemma_filled_parts(start, at, front, first, first_at, will, limit, second, destination@);
    }
    let second_at = match second {
        Ok(next) => next,
        Err(trouble) => {
            proof {
                property::lemma_filled_stops(start, at, front + will, username, limit, trouble, destination@);
                property::lemma_filled_stops(start, at, front + will + username, password, limit, trouble, destination@);
            }
            return Err(trouble);
        },
    };
    let ghost middle = destination@;
    let third = place_optional(destination, second_at, connect.info.username);
    proof {
        property::lemma_filled_parts(start, at, front + will, middle, second_at, username, limit, third, destination@);
    }
    let third_at = match third {
        Ok(next) => next,
        Err(trouble) => {
            proof {
                property::lemma_filled_stops(start, at, front + will + username, password, limit, trouble, destination@);
            }
            return Err(trouble);
        },
    };
    let ghost last = destination@;
    let next = place_optional(destination, third_at, connect.info.password);
    proof {
        property::lemma_filled_parts(start, at, front + will + username, last, third_at, password, limit, next, destination@);
    }
    next
}

// ---------------------------------------------------------------------------
// Laws
// ---------------------------------------------------------------------------

/// A section and a text take what their sizes say.
proof fn lemma_section_and_text(section: Seq<u8>, text: Seq<u8>)
    requires
        section.len() <= MAX_REMAINING_LENGTH,
        text.len() <= MAX_FIELD,
    ensures
        ({
            let pieces = seq![Piece::Section(section), Piece::Text(text)];
            &&& wire::all_sayable(pieces, MAX_REMAINING_LENGTH as int)
            &&& wire::joined(pieces).len() == section_size(section.len() as int) + text_size(
                text.len() as int,
            )
        }),
{
    let first = seq![Piece::Section(section)];
    let second = seq![Piece::Text(text)];
    assert(first + second =~= seq![Piece::Section(section), Piece::Text(text)]);
    wire::lemma_joined_parts(first, second);
    wire::lemma_joined_one(Piece::Section(section));
    wire::lemma_joined_one(Piece::Text(text));
    wire::lemma_length_bytes_len(section.len());
}

/// An optional field takes what its size says.
proof fn lemma_optional(field: Option<&[u8]>)
    requires
        optional_fits(field),
    ensures
        wire::all_sayable(optional_text(field), MAX_REMAINING_LENGTH as int),
        wire::joined(optional_text(field)).len() == (match field {
            Some(text) => text_size(text@.len() as int),
            None => 0,
        }),
{
    if let Some(text) = field {
        wire::lemma_joined_one(Piece::Text(text@));
    }
}

/// The will takes what its size says.
proof fn lemma_will(connect: Connect<'_>)
    requires
        fields_fit(connect),
    ensures
        wire::all_sayable(will_pieces(connect), MAX_REMAINING_LENGTH as int),
        wire::joined(will_pieces(connect)).len() == (match connect.will {
            Some(will) => section_size(will.properties@.len() as int) + text_size(
                will.topic_name@.len() as int,
            ) + text_size(will.payload@.len() as int),
            None => 0,
        }),
{
    if let Some(will) = connect.will {
        let first = seq![Piece::Section(will.properties@), Piece::Text(will.topic_name@)];
        let second = optional_text(Some(will.payload));
        lemma_section_and_text(will.properties@, will.topic_name@);
        lemma_optional(Some(will.payload));
        assert(first + second =~= will_pieces(connect));
        wire::lemma_joined_parts(first, second);
        wire::lemma_sayable_parts(first, second, MAX_REMAINING_LENGTH as int);
    }
}

/// The pieces of a CONNECT take what its size says.
proof fn lemma_connect_pieces(connect: Connect<'_>)
    requires
        fields_fit(connect),
    ensures
        wire::all_sayable(connect_pieces(connect), MAX_REMAINING_LENGTH as int),
        CONNECT_HEADER_SIZE + wire::joined(connect_pieces(connect)).len() == connect_body_size(
            connect,
        ),
{
    let limit = MAX_REMAINING_LENGTH as int;
    let front = seq![
        Piece::Section(connect.properties@),
        Piece::Text(connect.client_identifier@),
    ];
    let will = will_pieces(connect);
    let username = optional_text(connect.info.username);
    let password = optional_text(connect.info.password);
    lemma_section_and_text(connect.properties@, connect.client_identifier@);
    lemma_will(connect);
    lemma_optional(connect.info.username);
    lemma_optional(connect.info.password);
    wire::lemma_joined_parts(front, will);
    wire::lemma_joined_parts(front + will, username);
    wire::lemma_joined_parts(front + will + username, password);
    wire::lemma_sayable_parts(front, will, limit);
    wire::lemma_sayable_parts(front + will, username, limit);
    wire::lemma_sayable_parts(front + will + username, password, limit);
}

/// **Law.** The size that is calculated is the size that is written: a
/// destination of that many bytes or more is filled with exactly those.
pub proof fn law_connect_size_is_written(buffer: Seq<u8>, connect: Connect<'_>)
    ensures
        connect_size(connect) matches Ok(size) ==> {
            let bytes = connect_bytes(connect, size.remaining_length);
            &&& bytes.len() == size.packet_size
            &&& size.packet_size <= buffer.len() <= usize::MAX ==> connect_written(
                buffer,
                connect,
                size.remaining_length,
            ) == (
                Ok::<usize, ConnectError>(size.packet_size as usize),
                wire::overwrite(buffer, 0, bytes),
            )
        },
{
    if let Ok(size) = connect_size(connect) {
        let fields = writer::connect_fields(connect.info, will_info(connect));
        let fixed = writer::fixed_bytes(packet::CONNECT, size.remaining_length, fields);
        let sheet = Sheet::over(buffer);
        lemma_connect_pieces(connect);
        wire::lemma_length_bytes_len(size.remaining_length as nat);
        if size.packet_size <= buffer.len() {
            writer::law_fixed_whole_or_nothing(
                buffer,
                packet::CONNECT,
                size.remaining_length,
                fields,
            );
            wire::law_fill_writes_all(
                sheet.put(fixed),
                connect_pieces(connect),
                MAX_REMAINING_LENGTH as int,
            );
            wire::lemma_puts_join(sheet, fixed, wire::joined(connect_pieces(connect)));
        }
    }
}

} // verus!
