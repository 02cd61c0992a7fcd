//! Sending a CONNECT without copying it together: a list of parts is handed to
//! the transport.

use vstd::prelude::*;
use vstd::slice::slice_subrange;

use crate::client::send;
use crate::client::send::SendOutcome;
use crate::client::{ClientError, Clock, ContextModel, Moment, MqttContext};
use crate::connect;
use crate::connect::Connect;
use crate::context;
use crate::context::{
    update_with_connect_props, ConnectionProperties, ContextError, ServerLimits, MAX_PACKET_SIZE,
};
use crate::header::{encode_length, packet};
use crate::reader;
use crate::reader::Transport;
use crate::wire;
use crate::wire::Piece;
use crate::writer;
use crate::writer::serialize_connect_fixed_header;

verus! {

/// How many parts a CONNECT has at most.
pub const CONNECT_PARTS: usize = 15;

/// What the client goes by once it has announced itself: its keep-alive, and
/// what its properties say, as far as they can be read.
pub open spec fn announced(context: ContextModel, connect: Connect<'_>) -> (
    Result<(), ContextError>,
    ContextModel,
) {
    let properties = ConnectionProperties {
        server: ServerLimits {
            keep_alive: connect.info.keep_alive_seconds,
            ..context.properties.server
        },
        ..context.properties
    };
    if connect.properties@.len() == 0 {
        (Ok(()), ContextModel { properties, ..context })
    } else {
        let (result, properties) = context::context_check(
            connect.properties@,
            Set::empty(),
            properties,
        );
        (result, ContextModel { properties, ..context })
    }
}

/// A CONNECT was sent, with this result.
pub open spec fn connect_sent(
    before: Moment,
    after: Moment,
    connect: Connect<'_>,
    remaining_length: u32,
    result: Result<(), ClientError>,
) -> bool {
    let (taken, context) = announced(before.context, connect);
    let bytes = connect::connect_bytes(connect, remaining_length);
    if taken is Err {
        &&& after == (Moment { context, ..before })
        &&& result == Err::<(), ClientError>(ClientError::BadParameter)
    } else {
        exists|outcome: SendOutcome| #[trigger]
            send::sending(Moment { context, ..before }, after, bytes, true, outcome) && result
                == if outcome == SendOutcome::Sent(bytes.len() as usize) {
                Ok::<(), ClientError>(())
            } else {
                Err(ClientError::SendFailed)
            }
    }
}

/// The parts gathered so far, joined.
pub open spec fn gathered(parts: Seq<&[u8]>, count: int) -> Seq<u8> {
    reader::contents(parts.take(count)).flatten()
}

/// One more part.
proof fn lemma_gathered(parts: Seq<&[u8]>, count: int, part: &[u8])
    requires
        0 <= count < parts.len(),
    ensures
        gathered(parts.update(count, part), count + 1) == gathered(parts, count) + part@,
{
    let before = reader::contents(parts.take(count));
    let after = reader::contents(parts.update(count, part).take(count + 1));
    assert(after =~= before.push(part@));
    before.lemma_flatten_push(part@);
}

/// No parts are no bytes.
proof fn lemma_gathered_nothing(parts: Seq<&[u8]>)
    ensures
        gathered(parts, 0) == Seq::<u8>::empty(),
{
    assert(reader::contents(parts.take(0)) =~= Seq::<Seq<u8>>::empty());
}

/// The bytes of the will.
pub open spec fn will_bytes(connect: Connect<'_>) -> Seq<u8> {
    match connect.will {
        Some(will) => wire::section_bytes(will.properties@) + wire::text_bytes(will.topic_name@)
            + wire::text_bytes(will.payload@),
        None => Seq::empty(),
    }
}

/// The bytes of a field that may be absent.
pub open spec fn optional_bytes(field: Option<&[u8]>) -> Seq<u8> {
    match field {
        Some(text) => wire::text_bytes(text@),
        None => Seq::empty(),
    }
}

/// A CONNECT, taken apart.
pub proof fn lemma_connect_parts(connect: Connect<'_>, remaining_length: u32)
    ensures
        connect::connect_bytes(connect, remaining_length) == writer::fixed_bytes(
            packet::CONNECT,
            remaining_length,
            writer::connect_fields(connect.info, connect::will_info(connect)),
        ) + wire::section_bytes(connect.properties@) + wire::text_bytes(connect.client_identifier@)
            + will_bytes(connect) + optional_bytes(connect.info.username) + optional_bytes(
            connect.info.password,
        ),
{
    let section = seq![Piece::Section(connect.properties@)];
    let text = seq![Piece::Text(connect.client_identifier@)];
    let front = seq![
        Piece::Section(connect.properties@),
        Piece::Text(connect.client_identifier@),
    ];
    let will = connect::will_pieces(connect);
    let username = connect::optional_text(connect.info.username);
    let password = connect::optional_text(connect.info.password);
    assert(front =~= section + text);
    wire::lemma_joined_parts(section, text);
    wire::lemma_joined_one(section[0]);
    wire::lemma_joined_one(text[0]);
    wire::lemma_joined_parts(front, will);
    wire::lemma_joined_parts(front + will, username);
    wire::lemma_joined_parts(front + will + username, password);
    lemma_optional_bytes(connect.info.username);
    lemma_optional_bytes(connect.info.password);
    if let Some(will_parts) = connect.will {
        let one = seq![Piece::Section(will_parts.properties@)];
        let two = seq![Piece::Text(will_parts.topic_name@)];
        let three = seq![Piece::Text(will_parts.payload@)];
        assert(will =~= one + two + three);
        wire::lemma_joined_parts(one, two);
        wire::lemma_joined_parts(one + two, three);
        wire::lemma_joined_one(one[0]);
        wire::lemma_joined_one(two[0]);
        wire::lemma_joined_one(three[0]);
    }
    let fixed = writer::fixed_bytes(
        packet::CONNECT,
        remaining_length,
        writer::connect_fields(connect.info, connect::will_info(connect)),
    );
    assert(wire::joined(will) == will_bytes(connect));
    assert(fixed + wire::joined(connect::connect_pieces(connect)) =~= fixed + wire::section_bytes(
        connect.properties@,
    ) + wire::text_bytes(connect.client_identifier@) + will_bytes(connect) + optional_bytes(
        connect.info.username,
    ) + optional_bytes(connect.info.password));
}

/// A field that may be absent, as a piece and as bytes.
proof fn lemma_optional_bytes(field: Option<&[u8]>)
    ensures
        wire::joined(connect::optional_text(field)) == optional_bytes(field),
{
    if let Some(text) = field {
        wire::lemma_joined_one(Piece::Text(text@));
    }
}

/// Adds a part to the list.
fn push_part<'b>(
    parts: &mut [&'b [u8]; 15],
    count: usize,
    total: &mut usize,
    part: &'b [u8],
) -> (next: usize)
    requires
        count < CONNECT_PARTS,
        *old(total) + part@.len() <= MAX_PACKET_SIZE,
    ensures
        next == count + 1,
        *final(total) == *old(total) + part@.len(),
        gathered(final(parts)@, next as int) == gathered(old(parts)@, count as int) + part@,
{
    proof {
        lemma_gathered(parts@, count as int, part);
    }
    parts[count] = part;
    *total = *total + part.len();
    count + 1
}

/// Adds a text to the list: its count, and its bytes if there are any.
///
/// # Errors
///
/// [`ClientError::BadParameter`] if the packet would be too large.
pub(crate) fn push_string<'b>(
    parts: &mut [&'b [u8]; 15],
    count: usize,
    total: &mut usize,
    field: &'b [u8; 2],
    body: &'b [u8],
) -> (next: Result<usize, ClientError>)
    requires
        count + 2 <= CONNECT_PARTS,
        *old(total) <= MAX_PACKET_SIZE,
    ensures
        *old(total) + 2 + body@.len() > MAX_PACKET_SIZE ==> next == Err::<usize, ClientError>(
            ClientError::BadParameter,
        ) && *final(total) == *old(total) && final(parts)@ == old(parts)@,
        *old(total) + 2 + body@.len() <= MAX_PACKET_SIZE ==> {
            &&& next matches Ok(next)
            &&& count < next <= count + 2
            &&& *final(total) == *old(total) + 2 + body@.len()
            &&& gathered(final(parts)@, next as int) == gathered(old(parts)@, count as int) + (
            field@ + body@)
        },
{
    let room: usize = MAX_PACKET_SIZE as usize - *total;
    if room < 2 || body.len() > room - 2 {
        return Err(ClientError::BadParameter);
    }
    let ghost before = gathered(parts@, count as int);
    let mut next = push_part(parts, count, total, field.as_slice());
    if body.len() > 0 {
        next = push_part(parts, next, total, body);
    }
    assert(gathered(parts@, next as int) =~= before + (field@ + body@));
    Ok(next)
}

/// Adds a section to the list: its length, and its bytes if there are any.
fn push_section<'b>(
    parts: &mut [&'b [u8]; 15],
    count: usize,
    total: &mut usize,
    length: &'b [u8],
    section: &'b [u8],
) -> (next: usize)
    requires
        count + 2 <= CONNECT_PARTS,
        *old(total) + length@.len() + section@.len() <= MAX_PACKET_SIZE,
    ensures
        count < next <= count + 2,
        *final(total) == *old(total) + length@.len() + section@.len(),
        gathered(final(parts)@, next as int) == gathered(old(parts)@, count as int) + (length@
            + section@),
{
    let ghost before = gathered(parts@, count as int);
    let mut next = push_part(parts, count, total, length);
    if section.len() > 0 {
        next = push_part(parts, next, total, section);
    }
    assert(gathered(parts@, next as int) =~= before + (length@ + section@));
    next
}

/// The count of a text that may be absent.
fn count_field(text: Option<&[u8]>) -> (field: [u8; 2])
    requires
        text matches Some(text) ==> text@.len() <= 65_535,
    ensures
        text matches Some(text) ==> field@ == wire::u16_bytes(text@.len() as u16),
{
    match text {
        Some(text) => wire::split_u16(text.len() as u16),
        None => [0u8; 2],
    }
}

/// The counts and lengths that stand between the texts and sections of a
/// CONNECT, and its front.
struct Fields {
    fixed: [u8; 15],
    header: usize,
    length: [u8; 4],
    length_written: usize,
    will_length: [u8; 4],
    will_length_written: usize,
    client_id: [u8; 2],
    will_topic: [u8; 2],
    will_payload: [u8; 2],
    username: [u8; 2],
    password: [u8; 2],
}

impl Fields {
    /// These are the fields of this CONNECT.
    spec fn belong_to(self, connect: Connect<'_>, remaining_length: u32) -> bool {
        &&& self.header <= 15
        &&& self.fixed@.subrange(0, self.header as int) == writer::fixed_bytes(
            packet::CONNECT,
            remaining_length,
            writer::connect_fields(connect.info, connect::will_info(connect)),
        )
        &&& self.length_written <= 4
        &&& self.length@.subrange(0, self.length_written as int) == wire::length_bytes(
            connect.properties@.len(),
        )
        &&& self.will_length_written <= 4
        &&& self.client_id@ == wire::u16_bytes(connect.client_identifier@.len() as u16)
        &&& connect.will matches Some(will) ==> {
            &&& self.will_length@.subrange(0, self.will_length_written as int)
                == wire::length_bytes(will.properties@.len())
            &&& self.will_topic@ == wire::u16_bytes(will.topic_name@.len() as u16)
            &&& self.will_payload@ == wire::u16_bytes(will.payload@.len() as u16)
        }
        &&& connect.info.username matches Some(username) ==> self.username@ == wire::u16_bytes(
            username@.len() as u16,
        )
        &&& connect.info.password matches Some(password) ==> self.password@ == wire::u16_bytes(
            password@.len() as u16,
        )
    }
}

/// The fields of a CONNECT.
fn fields_of(connect: &Connect<'_>, remaining_length: u32) -> (fields: Fields)
    requires
        connect::connect_size(*connect) matches Ok(size) && size.remaining_length
            == remaining_length,
    ensures
        fields.belong_to(*connect, remaining_length),
        0 < fields.header,
{
    let mut fixed = [0u8; 15];
    proof {
        wire::lemma_length_bytes_len(remaining_length as nat);
    }
    let will_info = match &connect.will {
        Some(will) => Some(&will.info),
        None => None,
    };
    let header = serialize_connect_fixed_header(
        &mut fixed,
        &connect.info,
        will_info,
        remaining_length,
    );
    assert(fixed@.subrange(0, header as int) =~= writer::fixed_bytes(
        packet::CONNECT,
        remaining_length,
        writer::connect_fields(connect.info, connect::will_info(*connect)),
    ));
    let mut length = [0u8; 4];
    let length_written = encode_length(&mut length, connect.properties.len() as u32);
    let mut will_length = [0u8; 4];
    let will_length_written = match &connect.will {
        Some(will) => encode_length(&mut will_length, will.properties.len() as u32),
        None => 0,
    };
    let will_topic = count_field(
        match &connect.will {
            Some(will) => Some(will.topic_name),
            None => None,
        },
    );
    let will_payload = count_field(
        match &connect.will {
            Some(will) => Some(will.payload),
            None => None,
        },
    );
    Fields {
        fixed,
        header,
        length,
        length_written,
        will_length,
        will_length_written,
        client_id: count_field(Some(connect.client_identifier)),
        will_topic,
        will_payload,
        username: count_field(connect.info.username),
        password: count_field(connect.info.password),
    }
}

/// Adds the will to the list, if there is one.
fn gather_will<'b>(
    parts: &mut [&'b [u8]; 15],
    count: usize,
    total: &mut usize,
    fields: &'b Fields,
    connect: &Connect<'b>,
    Ghost(remaining_length): Ghost<u32>,
) -> (next: Result<usize, ClientError>)
    requires
        count + 6 <= CONNECT_PARTS,
        fields.belong_to(*connect, remaining_length),
        connect::fields_fit(*connect),
        *old(total) + will_bytes(*connect).len() <= MAX_PACKET_SIZE,
    ensures
        next matches Ok(next) && next <= count + 6 && gathered(final(parts)@, next as int)
            == gathered(old(parts)@, count as int) + will_bytes(*connect),
        *final(total) == *old(total) + will_bytes(*connect).len(),
{
    let ghost before = gathered(parts@, count as int);
    let mut next = count;
    if let Some(will) = &connect.will {
        let prefix = slice_subrange(&fields.will_length, 0, fields.will_length_written);
        next = push_section(parts, next, total, prefix, will.properties);
        next = match push_string(parts, next, total, &fields.will_topic, will.topic_name) {
            Ok(next) => next,
            Err(error) => return Err(error),
        };
        next = match push_string(parts, next, total, &fields.will_payload, will.payload) {
            Ok(next) => next,
            Err(error) => return Err(error),
        };
    }
    assert(gathered(parts@, next as int) =~= before + will_bytes(*connect));
    Ok(next)
}

/// Adds a text that may be absent to the list.
fn gather_optional<'b>(
    parts: &mut [&'b [u8]; 15],
    count: usize,
    total: &mut usize,
    field: &'b [u8; 2],
    text: Option<&'b [u8]>,
) -> (next: Result<usize, ClientError>)
    requires
        count + 2 <= CONNECT_PARTS,
        text matches Some(text) ==> field@ == wire::u16_bytes(text@.len() as u16),
        *old(total) + optional_bytes(text).len() <= MAX_PACKET_SIZE,
    ensures
        next matches Ok(next) && next <= count + 2 && gathered(final(parts)@, next as int)
            == gathered(old(parts)@, count as int) + optional_bytes(text),
        *final(total) == *old(total) + optional_bytes(text).len(),
{
    let ghost before = gathered(parts@, count as int);
    let mut next = count;
    if let Some(text) = text {
        next = match push_string(parts, next, total, field, text) {
            Ok(next) => next,
            Err(error) => return Err(error),
        };
    }
    assert(gathered(parts@, next as int) =~= before + optional_bytes(text));
    Ok(next)
}

impl<'a> MqttContext<'a> {
    /// Sends a CONNECT.
    pub(crate) fn send_connect<T: Transport, C: Clock>(
        &mut self,
        transport: &mut T,
        clock: &mut C,
        connect: &Connect<'_>,
        remaining_length: u32,
    ) -> (result: Result<(), ClientError>)
        requires
            connect::connect_size(*connect) matches Ok(size) && size.remaining_length
                == remaining_length,
        ensures
            connect_sent(
                Moment::of(*old(self), *old(transport), *old(clock)),
                Moment::of(*final(self), *final(transport), *final(clock)),
                *connect,
                remaining_length,
                result,
            ),
    {
        let ghost before = Moment::of(*self, *transport, *clock);
        let ghost bytes = connect::connect_bytes(*connect, remaining_length);
        proof {
            connect::law_connect_size_is_written(Seq::empty(), *connect);
            lemma_connect_parts(*connect, remaining_length);
        }
        let fields = fields_of(connect, remaining_length);
        if fields.header == 0 {
            return Err(ClientError::SendFailed);
        }
        self.properties.server.keep_alive = connect.info.keep_alive_seconds;
        let head = slice_subrange(&fields.fixed, 0, fields.header);
        let prefix = slice_subrange(&fields.length, 0, fields.length_written);
        let mut parts: [&[u8]; 15] = [&[]; 15];
        let mut total: usize = 0;
        proof {
            lemma_gathered_nothing(parts@);
        }
        let mut count = push_part(&mut parts, 0, &mut total, head);
        count = push_section(&mut parts, count, &mut total, prefix, connect.properties);
        if connect.properties.len() > 0 {
            match update_with_connect_props(connect.properties, &mut self.properties) {
                Ok(()) => {},
                Err(_) => return Err(ClientError::BadParameter),
            }
        }
        let ghost ready = Moment::of(*self, *transport, *clock);
        assert(announced(before.context, *connect).0 is Ok);
        assert(announced(before.context, *connect).1 =~= ready.context);
        count = match push_string(
            &mut parts,
            count,
            &mut total,
            &fields.client_id,
            connect.client_identifier,
        ) {
            Ok(count) => count,
            Err(error) => return Err(error),
        };
        count = match gather_will(
            &mut parts,
            count,
            &mut total,
            &fields,
            connect,
            Ghost(remaining_length),
        ) {
            Ok(count) => count,
            Err(error) => return Err(error),
        };
        count = match gather_optional(
            &mut parts,
            count,
            &mut total,
            &fields.username,
            connect.info.username,
        ) {
            Ok(count) => count,
            Err(error) => return Err(error),
        };
        count = match gather_optional(
            &mut parts,
            count,
            &mut total,
            &fields.password,
            connect.info.password,
        ) {
            Ok(count) => count,
            Err(error) => return Err(error),
        };
        assert(gathered(parts@, count as int) =~= bytes);
        let all: &mut [&[u8]] = &mut parts;
        let (gather, _unused) = all.split_at_mut(count);
        let outcome = self.send_vectors(transport, clock, gather);
        assert(send::sending(ready, Moment::of(*self, *transport, *clock), bytes, true, outcome));
        match outcome {
            SendOutcome::Sent(sent) => if sent == total {
                Ok(())
            } else {
                Err(ClientError::SendFailed)
            },
            SendOutcome::Failed => Err(ClientError::SendFailed),
        }
    }
}

} // verus!
