//! Packets that go out, read back by the positions of their bytes.

use vstd::prelude::*;

use crate::connect;
use crate::connect::{Connect, ConnectError};
use crate::law::plain;
use crate::session::announce;
use crate::state::QoS;
use crate::wire;
use crate::writer;

verus! {

/// A QoS as two bits say it.
pub open spec fn level(qos: QoS) -> int {
    match qos {
        QoS::AtMostOnce => 0,
        QoS::AtLeastOnce => 1,
        QoS::ExactlyOnce => 2,
    }
}

/// The bytes are a packet of this type, and nothing more: a type byte, a length,
/// and as many bytes as that says.
pub open spec fn is_packet(s: Seq<u8>, packet_type: u8) -> bool {
    &&& s.len() >= 2
    &&& s[0] == packet_type
    &&& plain::section_end(s, 1) == s.len()
}

/// Where the body of a packet begins.
pub open spec fn body_of(s: Seq<u8>) -> int {
    plain::length_end(s, 1)
}

/// What a broker reads in a CONNECT.
pub struct ConnectRead {
    pub flags: u8,
    pub keep_alive: int,
    pub properties: Seq<u8>,
    pub client_identifier: Seq<u8>,
    pub will: Option<(Seq<u8>, Seq<u8>, Seq<u8>)>,
    pub username: Option<Seq<u8>>,
    pub password: Option<Seq<u8>>,
    pub end: int,
}

/// A CONNECT as a broker reads it: the client identifier, the will's properties,
/// topic and payload, the user name and the password, as far as the flags say
/// that they are there.
pub open spec fn connect_read(s: Seq<u8>) -> ConnectRead {
    let body = body_of(s);
    let flags = s[body + 7];
    let id_at = plain::section_end(s, body + 10);
    let will_at = plain::text_end(s, id_at);
    let topic_at = plain::section_end(s, will_at);
    let payload_at = plain::text_end(s, topic_at);
    let name_at = if plain::bit(flags, 4) {
        plain::text_end(s, payload_at)
    } else {
        will_at
    };
    let word_at = if plain::bit(flags, 128) {
        plain::text_end(s, name_at)
    } else {
        name_at
    };
    ConnectRead {
        flags,
        keep_alive: plain::number_at(s, body + 8),
        properties: plain::section_at(s, body + 10),
        client_identifier: plain::text_at(s, id_at),
        will: if plain::bit(flags, 4) {
            Some(
                (
                    plain::section_at(s, will_at),
                    plain::text_at(s, topic_at),
                    plain::text_at(s, payload_at),
                ),
            )
        } else {
            None
        },
        username: if plain::bit(flags, 128) {
            Some(plain::text_at(s, name_at))
        } else {
            None
        },
        password: if plain::bit(flags, 64) {
            Some(plain::text_at(s, word_at))
        } else {
            None
        },
        end: if plain::bit(flags, 64) {
            plain::text_end(s, word_at)
        } else {
            word_at
        },
    }
}

/// The bytes are a CONNECT of MQTT 5 that says all of this and nothing else.
pub open spec fn says_connect(s: Seq<u8>, connect: Connect<'_>) -> bool {
    let body = body_of(s);
    let read = connect_read(s);
    &&& is_packet(s, 0x10)
    &&& s.subrange(body, body + 7) == seq![0u8, 4u8, 0x4Du8, 0x51u8, 0x54u8, 0x54u8, 5u8]
    &&& read.end == s.len()
    &&& read.keep_alive == connect.info.keep_alive_seconds
    &&& read.properties == connect.properties@
    &&& read.client_identifier == connect.client_identifier@
    &&& !plain::bit(read.flags, 1)
    &&& plain::bit(read.flags, 2) == connect.info.clean_session
    &&& match connect.will {
        Some(will) => {
            &&& read.will == Some((will.properties@, will.topic_name@, will.payload@))
            &&& read.flags as int / 8 % 4 == level(will.info.qos)
            &&& plain::bit(read.flags, 32) == will.info.retain
        },
        None => read.will is None && read.flags as int / 8 % 8 == 0,
    }
    &&& read.username == match connect.info.username {
        Some(name) => Some(name@),
        None => None,
    }
    &&& read.password == match connect.info.password {
        Some(word) => Some(word@),
        None => None,
    }
}

/// **Law.** A CONNECT that is written is read by a broker as it was meant: every
/// field comes back, in the order in which the payload of a CONNECT has them,
/// and so do the flags. The same bytes go out when it is sent in parts.
pub proof fn law_connect_is_understood(buffer: Seq<u8>, connect: Connect<'_>)
    requires
        connect::connect_size(connect) is Ok,
        (connect::connect_size(connect)->Ok_0).packet_size <= buffer.len() <= usize::MAX,
    ensures
        ({
            let size = connect::connect_size(connect)->Ok_0;
            let (written, after) = connect::connect_written(
                buffer,
                connect,
                size.remaining_length,
            );
            let n = size.packet_size as int;
            &&& written == Ok::<usize, ConnectError>(size.packet_size as usize)
            &&& says_connect(after.take(n), connect)
            &&& after.skip(n) == buffer.skip(n)
            &&& says_connect(connect::connect_bytes(connect, size.remaining_length), connect)
        }),
{
    let size = connect::connect_size(connect)->Ok_0;
    let bytes = connect::connect_bytes(connect, size.remaining_length);
    connect::law_connect_size_is_written(buffer, connect);
    let after = connect::connect_written(buffer, connect, size.remaining_length).1;
    lemma_overwrite(buffer, bytes);
    lemma_connect_read(connect);
}

/// The bytes of a CONNECT, read back.
pub proof fn lemma_connect_read(connect: Connect<'_>)
    requires
        connect::connect_size(connect) is Ok,
    ensures
        says_connect(
            connect::connect_bytes(
                connect,
                (connect::connect_size(connect)->Ok_0).remaining_length,
            ),
            connect,
        ),
{
    let n = (connect::connect_size(connect)->Ok_0).remaining_length;
    let s = connect::connect_bytes(connect, n);
    let flags = writer::connect_flags(connect.info, connect::will_info(connect));
    let head = seq![0x10u8] + wire::length_bytes(n as nat);
    let from = head + connect_front(flags, connect);
    let tail = connect_tail(connect);
    lemma_connect_shape(connect, n);
    lemma_is_packet(0x10, n as nat, connect_front(flags, connect) + tail);
    lemma_connect_front(head, flags, connect, tail);
    lemma_flags(connect.info, connect::will_info(connect));
    lemma_connect_tail(from, flags, connect);
}

/// The fields of a CONNECT up to its client identifier.
spec fn connect_front(flags: u8, connect: Connect<'_>) -> Seq<u8> {
    seq![0u8, 4u8, 0x4Du8, 0x51u8, 0x54u8, 0x54u8, 5u8, flags] + wire::u16_bytes(
        connect.info.keep_alive_seconds,
    ) + wire::section_bytes(connect.properties@) + wire::text_bytes(connect.client_identifier@)
}

/// The fields of a CONNECT from its will on.
spec fn connect_tail(connect: Connect<'_>) -> Seq<u8> {
    announce::will_bytes(connect) + announce::optional_bytes(connect.info.username)
        + announce::optional_bytes(connect.info.password)
}

/// The bytes of a CONNECT are its type, its length and its fields.
proof fn lemma_connect_shape(connect: Connect<'_>, n: u32)
    requires
        connect::connect_size(connect) matches Ok(size) && size.remaining_length == n,
    ensures
        ({
            let s = connect::connect_bytes(connect, n);
            let flags = writer::connect_flags(connect.info, connect::will_info(connect));
            let head = seq![0x10u8] + wire::length_bytes(n as nat);
            let front = connect_front(flags, connect);
            let tail = connect_tail(connect);
            &&& s == head + (front + tail)
            &&& s == head + front + tail
            &&& (front + tail).len() == n
        }),
{
    let s = connect::connect_bytes(connect, n);
    let flags = writer::connect_flags(connect.info, connect::will_info(connect));
    let head = seq![0x10u8] + wire::length_bytes(n as nat);
    let front = connect_front(flags, connect);
    let tail = connect_tail(connect);
    announce::lemma_connect_parts(connect, n);
    let will = announce::will_bytes(connect);
    let user = announce::optional_bytes(connect.info.username);
    let word = announce::optional_bytes(connect.info.password);
    let section = wire::section_bytes(connect.properties@);
    let id = wire::text_bytes(connect.client_identifier@);
    let fields = writer::connect_fields(connect.info, connect::will_info(connect));
    assert(front =~= fields + section + id);
    assert(s =~= head + front + tail);
    assert(s =~= head + (front + tail));
    connect::law_connect_size_is_written(Seq::empty(), connect);
    wire::lemma_length_bytes_len(n as nat);
}

/// A type byte, a length and a body of that length are a packet.
pub proof fn lemma_is_packet(packet_type: u8, n: nat, body: Seq<u8>)
    requires
        body.len() == n,
    ensures
        ({
            let head = seq![packet_type] + wire::length_bytes(n);
            &&& is_packet(head + body, packet_type)
            &&& body_of(head + body) == head.len()
        }),
{
    plain::lemma_length(seq![packet_type], n, body);
}

/// What is written at the front of a buffer stands there, and nothing else
/// changes.
pub proof fn lemma_overwrite(buffer: Seq<u8>, bytes: Seq<u8>)
    requires
        bytes.len() <= buffer.len(),
    ensures
        wire::overwrite(buffer, 0, bytes).take(bytes.len() as int) == bytes,
        wire::overwrite(buffer, 0, bytes).skip(bytes.len() as int) == buffer.skip(
            bytes.len() as int,
        ),
{
    let after = wire::overwrite(buffer, 0, bytes);
    assert(after.take(bytes.len() as int) =~= bytes);
    assert(after.skip(bytes.len() as int) =~= buffer.skip(bytes.len() as int));
}

/// The front of a CONNECT, read back.
proof fn lemma_connect_front(head: Seq<u8>, flags: u8, connect: Connect<'_>, tail: Seq<u8>)
    requires
        connect.client_identifier@.len() <= 65_535,
    ensures
        ({
            let s = head + connect_front(flags, connect) + tail;
            let body = head.len() as int;
            let id_at = plain::section_end(s, body + 10);
            &&& s.subrange(body, body + 7) == seq![
                0u8,
                4u8,
                0x4Du8,
                0x51u8,
                0x54u8,
                0x54u8,
                5u8,
            ]
            &&& s[body + 7] == flags
            &&& plain::number_at(s, body + 8) == connect.info.keep_alive_seconds
            &&& plain::section_at(s, body + 10) == connect.properties@
            &&& plain::text_at(s, id_at) == connect.client_identifier@
            &&& plain::text_end(s, id_at) == (head + connect_front(flags, connect)).len()
        }),
{
    let name = seq![0u8, 4u8, 0x4Du8, 0x51u8, 0x54u8, 0x54u8, 5u8, flags];
    let alive = wire::u16_bytes(connect.info.keep_alive_seconds);
    let section = wire::section_bytes(connect.properties@);
    let id = wire::text_bytes(connect.client_identifier@);
    let s = head + connect_front(flags, connect) + tail;
    let body = head.len() as int;
    let front = head + name;
    assert(s.subrange(body, body + 7) =~= seq![0u8, 4u8, 0x4Du8, 0x51u8, 0x54u8, 0x54u8, 5u8]);
    assert(s[body + 7] == name[7]);
    assert(s =~= front + alive + (section + id + tail));
    plain::lemma_number(front, connect.info.keep_alive_seconds, section + id + tail);
    assert(s =~= front + alive + section + (id + tail));
    plain::lemma_section(front + alive, connect.properties@, id + tail);
    assert(s =~= front + alive + section + id + tail);
    plain::lemma_text(front + alive + section, connect.client_identifier@, tail);
}

/// The rest of a CONNECT, read back.
proof fn lemma_connect_tail(from: Seq<u8>, flags: u8, connect: Connect<'_>)
    requires
        connect::fields_fit(connect),
        plain::bit(flags, 4) == (connect.will is Some),
        plain::bit(flags, 128) == (connect.info.username is Some),
        plain::bit(flags, 64) == (connect.info.password is Some),
    ensures
        ({
            let s = from + connect_tail(connect);
            let will_at = from.len() as int;
            let topic_at = plain::section_end(s, will_at);
            let payload_at = plain::text_end(s, topic_at);
            let name_at = if plain::bit(flags, 4) {
                plain::text_end(s, payload_at)
            } else {
                will_at
            };
            let word_at = if plain::bit(flags, 128) {
                plain::text_end(s, name_at)
            } else {
                name_at
            };
            &&& connect.will matches Some(will) ==> {
                &&& plain::section_at(s, will_at) == will.properties@
                &&& plain::text_at(s, topic_at) == will.topic_name@
                &&& plain::text_at(s, payload_at) == will.payload@
            }
            &&& connect.info.username matches Some(text) ==> plain::text_at(s, name_at) == text@
            &&& connect.info.password matches Some(text) ==> plain::text_at(s, word_at) == text@
            &&& s.len() == if plain::bit(flags, 64) {
                plain::text_end(s, word_at)
            } else {
                word_at
            }
        }),
{
    let will = announce::will_bytes(connect);
    let user = announce::optional_bytes(connect.info.username);
    let word = announce::optional_bytes(connect.info.password);
    let s = from + connect_tail(connect);
    assert(s =~= from + will + (user + word));
    assert(s =~= (from + will) + user + word);
    assert(s =~= (from + will + user) + word + Seq::empty());
    lemma_will_read(from, connect, user + word);
    lemma_optional_read(from + will, connect.info.username, word);
    lemma_optional_read(from + will + user, connect.info.password, Seq::empty());
}

/// A will, read back.
proof fn lemma_will_read(from: Seq<u8>, connect: Connect<'_>, rest: Seq<u8>)
    requires
        connect::fields_fit(connect),
    ensures
        ({
            let s = from + announce::will_bytes(connect) + rest;
            let will_at = from.len() as int;
            let topic_at = plain::section_end(s, will_at);
            let payload_at = plain::text_end(s, topic_at);
            connect.will matches Some(will) ==> {
                &&& plain::section_at(s, will_at) == will.properties@
                &&& plain::text_at(s, topic_at) == will.topic_name@
                &&& plain::text_at(s, payload_at) == will.payload@
                &&& plain::text_end(s, payload_at) == (from + announce::will_bytes(connect)).len()
            }
        }),
{
    let s = from + announce::will_bytes(connect) + rest;
    if let Some(parts) = connect.will {
        let one = wire::section_bytes(parts.properties@);
        let two = wire::text_bytes(parts.topic_name@);
        let three = wire::text_bytes(parts.payload@);
        assert(s =~= from + one + (two + three + rest));
        assert(s =~= (from + one) + two + (three + rest));
        assert(s =~= (from + one + two) + three + rest);
        plain::lemma_section(from, parts.properties@, two + three + rest);
        plain::lemma_text(from + one, parts.topic_name@, three + rest);
        plain::lemma_text(from + one + two, parts.payload@, rest);
    }
}

/// A text that may be absent, read back.
proof fn lemma_optional_read(from: Seq<u8>, field: Option<&[u8]>, rest: Seq<u8>)
    requires
        connect::optional_fits(field),
    ensures
        ({
            let s = from + announce::optional_bytes(field) + rest;
            let at = from.len() as int;
            let end = (from + announce::optional_bytes(field)).len();
            match field {
                Some(text) => plain::text_at(s, at) == text@ && plain::text_end(s, at) == end,
                None => end == at,
            }
        }),
{
    if let Some(text) = field {
        plain::lemma_text(from, text@, rest);
    }
}

/// The flags of a CONNECT, bit by bit.
proof fn lemma_flags(info: writer::ConnectInfo<'_>, will: Option<writer::WillInfo>)
    ensures
        ({
            let flags = writer::connect_flags(info, will);
            &&& !plain::bit(flags, 1)
            &&& plain::bit(flags, 2) == info.clean_session
            &&& plain::bit(flags, 4) == (will is Some)
            &&& plain::bit(flags, 128) == (info.username is Some)
            &&& plain::bit(flags, 64) == (info.password is Some)
            &&& match will {
                Some(will) => {
                    &&& flags as int / 8 % 4 == level(will.qos)
                    &&& plain::bit(flags, 32) == will.retain
                },
                None => flags as int / 8 % 8 == 0,
            }
        }),
{
}

} // verus!
