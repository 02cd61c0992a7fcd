//! PUBLISH, SUBSCRIBE, UNSUBSCRIBE, the acknowledgements, PINGREQ and
//! DISCONNECT, read back by the positions of their bytes, and their sizes.

use vstd::prelude::*;

use crate::connect;
use crate::connect::{Connect, ConnectError, ConnectSize};
use crate::disconnect;
use crate::disconnect::{DisconnectError, DisconnectSize};
use crate::header::packet;
use crate::law::outgoing;
use crate::law::plain;
use crate::outbound;
use crate::outbound::{OutboundError, RetainHandling, Subscription};
use crate::outpublish;
use crate::outpublish::{OutgoingError, OutgoingPublish, PublishSize};
use crate::size;
use crate::size::{ListPacket, PacketSize, SizeError};
use crate::state::QoS;
use crate::wire;
use crate::writer;

verus! {

/// One where a condition holds, and nothing otherwise.
pub open spec fn one_if(condition: bool) -> int {
    if condition {
        1
    } else {
        0
    }
}

// ---------------------------------------------------------------------------
// PUBLISH
// ---------------------------------------------------------------------------

/// The bytes are a PUBLISH that says all of this and nothing else.
pub open spec fn says_publish(s: Seq<u8>, publish: OutgoingPublish<'_>, packet_id: u16) -> bool {
    let topic_at = outgoing::body_of(s);
    let id_at = plain::text_end(s, topic_at);
    let section_at = if publish.qos == QoS::AtMostOnce {
        id_at
    } else {
        id_at + 2
    };
    &&& outgoing::is_packet(s, s[0])
    &&& s[0] == 0x30 + 8 * one_if(publish.dup) + 2 * outgoing::level(publish.qos) + one_if(
        publish.retain,
    )
    &&& plain::text_at(s, topic_at) == publish.topic_name@
    &&& publish.qos != QoS::AtMostOnce ==> plain::number_at(s, id_at) == packet_id
    &&& plain::section_at(s, section_at) == publish.properties@
    &&& s.skip(plain::section_end(s, section_at)) == publish.payload@
}

/// **Law.** A PUBLISH that is written is read by a broker as it was meant: its
/// flags, its topic, its identifier above the lowest quality of service, its
/// properties and its payload. Written without its payload, it is the same up to
/// there, and up to the topic's count without its topic.
pub proof fn law_publish_is_understood(
    buffer: Seq<u8>,
    publish: OutgoingPublish<'_>,
    packet_id: u16,
    max_packet_size: u32,
)
    requires
        outpublish::publish_size(publish, max_packet_size) is Ok,
        publish.topic_name@.len() > 0,
        publish.qos != QoS::AtMostOnce ==> packet_id != 0,
        publish.dup ==> publish.qos != QoS::AtMostOnce,
        (outpublish::publish_size(publish, max_packet_size)->Ok_0).packet_size <= buffer.len()
            <= usize::MAX,
    ensures
        ({
            let size = outpublish::publish_size(publish, max_packet_size)->Ok_0;
            let n = size.packet_size as int;
            let front = n - publish.payload@.len();
            let (written, after) = outpublish::publish_written(
                buffer,
                publish,
                packet_id,
                size.remaining_length,
            );
            let (part, begun) = outpublish::header_written(
                buffer,
                publish,
                packet_id,
                size.remaining_length,
            );
            let bare = outpublish::bare_bytes(publish, size.remaining_length);
            &&& written == Ok::<usize, OutgoingError>(size.packet_size as usize)
            &&& says_publish(after.take(n), publish, packet_id)
            &&& after.skip(n) == buffer.skip(n)
            &&& part == Ok::<usize, OutgoingError>(front as usize)
            &&& begun.take(front) == after.take(front)
            &&& begun.skip(front) == buffer.skip(front)
            &&& bare == after.take(outgoing::body_of(after.take(n)) + 2)
        }),
{
    let size = outpublish::publish_size(publish, max_packet_size)->Ok_0;
    let n = size.remaining_length;
    let bytes = outpublish::header_bytes(publish, packet_id, n);
    let s = bytes + publish.payload@;
    outpublish::law_publish_size_is_written(buffer, publish, packet_id, max_packet_size);
    outgoing::lemma_overwrite(buffer, s);
    outgoing::lemma_overwrite(buffer, bytes);
    lemma_publish_bytes(publish, packet_id, max_packet_size);
    let after = wire::overwrite(buffer, 0, s);
    assert(after.take(bytes.len() as int) =~= bytes) by {
        assert(after.take(bytes.len() as int) =~= after.take(s.len() as int).take(
            bytes.len() as int,
        ));
    }
    let part = outgoing::body_of(s) + 2;
    assert(after.take(part) =~= after.take(s.len() as int).take(part));
}

/// The bytes of a PUBLISH, read back.
proof fn lemma_publish_bytes(
    publish: OutgoingPublish<'_>,
    packet_id: u16,
    max_packet_size: u32,
)
    requires
        outpublish::publish_size(publish, max_packet_size) is Ok,
    ensures
        ({
            let n = (outpublish::publish_size(publish, max_packet_size)->Ok_0).remaining_length;
            let s = outpublish::header_bytes(publish, packet_id, n) + publish.payload@;
            &&& says_publish(s, publish, packet_id)
            &&& 0 <= outgoing::body_of(s) <= s.len() - 2
            &&& s.take(outgoing::body_of(s) + 2) == outpublish::bare_bytes(publish, n)
        }),
{
    let n = (outpublish::publish_size(publish, max_packet_size)->Ok_0).remaining_length;
    let s = outpublish::header_bytes(publish, packet_id, n) + publish.payload@;
    let byte = outpublish::publish_byte(publish);
    let head = seq![byte] + wire::length_bytes(n as nat);
    let body = outpublish::body_front(publish, packet_id) + publish.payload@;
    assert(s =~= head + body);
    assert(body.len() == n) by {
        wire::lemma_length_bytes_len(publish.properties@.len());
    }
    outgoing::lemma_is_packet(byte, n as nat, body);
    lemma_publish_read(head, publish, packet_id);
    let count = wire::u16_bytes(publish.topic_name@.len() as u16);
    assert(outpublish::bare_bytes(publish, n) =~= head + count);
    assert(body.take(2) =~= count);
    assert(s.take(head.len() as int + 2) =~= head + count);
}

/// The body of a PUBLISH, read back.
proof fn lemma_publish_read(head: Seq<u8>, publish: OutgoingPublish<'_>, packet_id: u16)
    requires
        publish.topic_name@.len() <= 65_535,
    ensures
        ({
            let s = head + (outpublish::body_front(publish, packet_id) + publish.payload@);
            let topic_at = head.len() as int;
            let id_at = plain::text_end(s, topic_at);
            let section_at = if publish.qos == QoS::AtMostOnce {
                id_at
            } else {
                id_at + 2
            };
            &&& plain::text_at(s, topic_at) == publish.topic_name@
            &&& publish.qos != QoS::AtMostOnce ==> plain::number_at(s, id_at) == packet_id
            &&& plain::section_at(s, section_at) == publish.properties@
            &&& s.skip(plain::section_end(s, section_at)) == publish.payload@
        }),
{
    let s = head + (outpublish::body_front(publish, packet_id) + publish.payload@);
    let topic = wire::text_bytes(publish.topic_name@);
    let section = wire::section_bytes(publish.properties@);
    let id = if publish.qos == QoS::AtMostOnce {
        Seq::<u8>::empty()
    } else {
        wire::u16_bytes(packet_id)
    };
    assert(s =~= head + topic + (id + section + publish.payload@));
    assert(s =~= (head + topic) + id + (section + publish.payload@));
    assert(s =~= (head + topic + id) + section + publish.payload@);
    plain::lemma_text(head, publish.topic_name@, id + section + publish.payload@);
    if publish.qos != QoS::AtMostOnce {
        plain::lemma_number(head + topic, packet_id, section + publish.payload@);
    }
    plain::lemma_section(head + topic + id, publish.properties@, publish.payload@);
    assert(s.skip((head + topic + id + section).len() as int) =~= publish.payload@);
}

// ---------------------------------------------------------------------------
// SUBSCRIBE and UNSUBSCRIBE
// ---------------------------------------------------------------------------

/// The filters from a position to the end, each with the byte behind it if there
/// is one.
pub open spec fn filters_read(s: Seq<u8>, at: int, options: bool) -> Seq<(Seq<u8>, int)>
    decreases s.len() - at,
{
    let end = plain::text_end(s, at);
    if at >= s.len() || end <= at || end > s.len() || (options && end == s.len()) {
        Seq::empty()
    } else if options {
        seq![(plain::text_at(s, at), s[end] as int)] + filters_read(s, end + 1, options)
    } else {
        seq![(plain::text_at(s, at), 0)] + filters_read(s, end, options)
    }
}

/// When retained messages are sent, as two bits say it.
pub open spec fn handling(handling: RetainHandling) -> int {
    match handling {
        RetainHandling::OnSubscribe => 0,
        RetainHandling::OnSubscribeIfNew => 1,
        RetainHandling::Never => 2,
    }
}

/// What a broker reads of a list is what was asked for.
pub open spec fn says_filters(
    read: Seq<(Seq<u8>, int)>,
    list: Seq<Subscription<'_>>,
    options: bool,
) -> bool {
    &&& read.len() == list.len()
    &&& forall|i: int|
        0 <= i < list.len() ==> (#[trigger] read[i]).0 == list[i].topic_filter@ && (options
            ==> read[i].1 == outgoing::level(list[i].qos) + 4 * one_if(list[i].no_local) + 8
            * one_if(list[i].retain_as_published) + 16 * handling(list[i].retain_handling))
}

/// The bytes are a SUBSCRIBE, or an UNSUBSCRIBE, that says all of this.
pub open spec fn says_list(
    s: Seq<u8>,
    kind: ListPacket,
    list: Seq<Subscription<'_>>,
    properties: Seq<u8>,
    packet_id: u16,
) -> bool {
    let body = outgoing::body_of(s);
    let options = kind == ListPacket::Subscribe;
    &&& outgoing::is_packet(
        s,
        if options {
            0x82u8
        } else {
            0xA2u8
        },
    )
    &&& plain::number_at(s, body) == packet_id
    &&& plain::section_at(s, body + 2) == properties
    &&& says_filters(
        filters_read(s, plain::section_end(s, body + 2), options),
        list,
        options,
    )
}

/// **Law.** A SUBSCRIBE or an UNSUBSCRIBE that is written is read by a broker as
/// it was meant: its identifier, its properties, and every filter in order, in a
/// SUBSCRIBE each with its options.
pub proof fn law_list_is_understood(
    kind: ListPacket,
    buffer: Seq<u8>,
    list: Seq<Subscription<'_>>,
    properties: Seq<u8>,
    packet_id: u16,
    max_packet_size: u32,
)
    requires
        packet_id != 0,
        properties.len() <= 268_435_455,
        forall|i: int|
            0 <= i < list.len() ==> 0 < (#[trigger] list[i]).topic_filter@.len() <= 65_535,
        size::list_size(
            kind,
            outbound::filter_lengths(list),
            properties.len() as u32,
            max_packet_size,
        ) matches Ok(size) && size.packet_size <= buffer.len(),
    ensures
        ({
            let size = size::list_size(
                kind,
                outbound::filter_lengths(list),
                properties.len() as u32,
                max_packet_size,
            )->Ok_0;
            let (written, after) = outbound::list_written(
                kind,
                buffer,
                list,
                properties,
                packet_id,
                size.remaining_length,
            );
            let n = size.packet_size as int;
            &&& written == Ok::<usize, OutboundError>(size.packet_size as usize)
            &&& says_list(after.take(n), kind, list, properties, packet_id)
            &&& after.skip(n) == buffer.skip(n)
        }),
{
    let size = size::list_size(
        kind,
        outbound::filter_lengths(list),
        properties.len() as u32,
        max_packet_size,
    )->Ok_0;
    let n = size.remaining_length;
    assert forall|i: int| 0 <= i < list.len() implies outbound::filter_ok(#[trigger] list[i]) by {}
    outbound::law_list_size_is_written(kind, buffer, list, properties, packet_id, max_packet_size);
    let s = outbound::list_bytes(kind, list, properties, packet_id, n);
    outgoing::lemma_overwrite(buffer, s);
    wire::lemma_length_bytes_len(n as nat);
    lemma_list_bytes(kind, list, properties, packet_id, n);
}

/// The bytes of a list, read back.
proof fn lemma_list_bytes(
    kind: ListPacket,
    list: Seq<Subscription<'_>>,
    properties: Seq<u8>,
    packet_id: u16,
    n: u32,
)
    requires
        forall|i: int|
            0 <= i < list.len() ==> 0 < (#[trigger] list[i]).topic_filter@.len() <= 65_535,
        outbound::list_bytes(kind, list, properties, packet_id, n).len() == 1 + wire::length_bytes(
            n as nat,
        ).len() + n,
    ensures
        says_list(
            outbound::list_bytes(kind, list, properties, packet_id, n),
            kind,
            list,
            properties,
            packet_id,
        ),
{
    let options = kind == ListPacket::Subscribe;
    let s = outbound::list_bytes(kind, list, properties, packet_id, n);
    let byte = if options {
        0x82u8
    } else {
        0xA2u8
    };
    let head = seq![byte] + wire::length_bytes(n as nat);
    let id = wire::u16_bytes(packet_id);
    let section = wire::section_bytes(properties);
    let filters = wire::joined(outbound::filter_pieces(kind, list));
    let body = id + section + filters;
    assert(s =~= head + body);
    assert(s =~= head + id + (section + filters));
    assert(s =~= (head + id) + section + filters);
    outgoing::lemma_is_packet(byte, n as nat, body);
    plain::lemma_number(head, packet_id, section + filters);
    plain::lemma_section(head + id, properties, filters);
    lemma_filters_read(head + id + section, kind, list);
}

/// The bytes of one filter, with its options.
spec fn filter_bytes(kind: ListPacket, entry: Subscription<'_>) -> Seq<u8> {
    wire::text_bytes(entry.topic_filter@) + (if kind == ListPacket::Subscribe {
        seq![outbound::options_byte(entry)]
    } else {
        Seq::empty()
    })
}

/// A list of filters is its first, and the others behind it.
proof fn lemma_filters_front(kind: ListPacket, list: Seq<Subscription<'_>>)
    requires
        list.len() > 0,
    ensures
        wire::joined(outbound::filter_pieces(kind, list)) == filter_bytes(kind, list[0])
            + wire::joined(outbound::filter_pieces(kind, list.drop_first())),
    decreases list.len(),
{
    let last = outbound::filter_piece(kind, list.last());
    let shorter = outbound::filter_pieces(kind, list.drop_last());
    wire::lemma_joined_parts(shorter, last);
    let text = seq![wire::Piece::Text(list.last().topic_filter@)];
    let options = seq![wire::Piece::Bytes(seq![outbound::options_byte(list.last())])];
    wire::lemma_joined_one(text[0]);
    wire::lemma_joined_one(options[0]);
    if kind == ListPacket::Subscribe {
        wire::lemma_joined_parts(text, options);
        assert(last =~= text + options);
    } else {
        assert(last =~= text);
    }
    assert(wire::joined(last) =~= filter_bytes(kind, list.last()));
    if list.len() == 1 {
        assert(list.drop_first() =~= Seq::<Subscription<'_>>::empty());
        assert(list.drop_last() =~= Seq::<Subscription<'_>>::empty());
        assert(wire::joined(shorter) =~= Seq::<u8>::empty());
        assert(wire::joined(outbound::filter_pieces(kind, list)) =~= filter_bytes(kind, list[0]));
    } else {
        lemma_filters_front(kind, list.drop_last());
        let rest = list.drop_first();
        assert(list.drop_last().drop_first() =~= rest.drop_last());
        assert(rest.last() == list.last());
        wire::lemma_joined_parts(outbound::filter_pieces(kind, rest.drop_last()), last);
        assert(wire::joined(outbound::filter_pieces(kind, list)) =~= filter_bytes(kind, list[0])
            + wire::joined(outbound::filter_pieces(kind, rest)));
    }
}

/// A list of filters, read back.
proof fn lemma_filters_read(front: Seq<u8>, kind: ListPacket, list: Seq<Subscription<'_>>)
    requires
        forall|i: int|
            0 <= i < list.len() ==> 0 < (#[trigger] list[i]).topic_filter@.len() <= 65_535,
    ensures
        ({
            let s = front + wire::joined(outbound::filter_pieces(kind, list));
            let options = kind == ListPacket::Subscribe;
            says_filters(filters_read(s, front.len() as int, options), list, options)
        }),
    decreases list.len(),
{
    let options = kind == ListPacket::Subscribe;
    let s = front + wire::joined(outbound::filter_pieces(kind, list));
    if list.len() == 0 {
        assert(s =~= front);
    } else {
        lemma_filters_front(kind, list);
        let rest = list.drop_first();
        let others = wire::joined(outbound::filter_pieces(kind, rest));
        let first = filter_bytes(kind, list[0]);
        let text = wire::text_bytes(list[0].topic_filter@);
        let behind = if options {
            seq![outbound::options_byte(list[0])]
        } else {
            Seq::empty()
        };
        assert(s =~= front + text + (behind + others));
        assert(s =~= (front + first) + others);
        plain::lemma_text(front, list[0].topic_filter@, behind + others);
        assert forall|i: int| 0 <= i < rest.len() implies 0 < (
        #[trigger] rest[i]).topic_filter@.len() <= 65_535 by {
            assert(rest[i] == list[i + 1]);
        }
        lemma_filters_read(front + first, kind, rest);
        let end = plain::text_end(s, front.len() as int);
        if options {
            assert(s[end] == behind[0]);
        }
        let read = filters_read(s, front.len() as int, options);
        let tail = filters_read(s, (front + first).len() as int, options);
        assert(read =~= seq![read[0]] + tail);
        assert forall|i: int| 0 <= i < list.len() implies (#[trigger] read[i]).0
            == list[i].topic_filter@ && (options ==> read[i].1 == outgoing::level(list[i].qos) + 4
            * one_if(list[i].no_local) + 8 * one_if(list[i].retain_as_published) + 16 * handling(
            list[i].retain_handling,
        )) by {
            if i > 0 {
                assert(read[i] == tail[i - 1]);
                assert(list[i] == rest[i - 1]);
            }
        }
    }
}

// ---------------------------------------------------------------------------
// Acknowledgements, PINGREQ and DISCONNECT
// ---------------------------------------------------------------------------

/// One of the four acknowledgements of a publish, by its first byte.
pub open spec fn acknowledges(packet_type: u8) -> bool {
    packet_type == 0x40 || packet_type == 0x50 || packet_type == 0x62 || packet_type == 0x70
}

/// A reason code that an acknowledgement may be sent with. Nine belong to the
/// first half of a handshake, two to the second.
pub open spec fn code_fits(packet_type: u8, code: u8) -> bool {
    if packet_type == 0x40 || packet_type == 0x50 {
        seq![0x00u8, 0x10u8, 0x80u8, 0x83u8, 0x87u8, 0x90u8, 0x91u8, 0x97u8, 0x99u8].contains(code)
    } else {
        (packet_type == 0x62 || packet_type == 0x70) && seq![0x00u8, 0x92u8].contains(code)
    }
}

/// **Law.** An acknowledgement that is written is read as it was meant: four
/// bytes where there is nothing to add, and otherwise an identifier, a reason
/// code and properties. It is refused exactly where it is none, has no
/// identifier, or has a reason code that does not belong to it.
pub proof fn law_ack_is_understood(
    buffer: Seq<u8>,
    packet_type: u8,
    packet_id: u16,
    code: u8,
    properties: Seq<u8>,
)
    requires
        4 <= buffer.len(),
        properties.len() <= 268_435_400,
        properties.len() + 12 <= buffer.len(),
    ensures
        ({
            let (written, after) = outbound::ack_written(
                buffer,
                packet_type,
                packet_id,
                None,
                Seq::empty(),
            );
            &&& written is Ok == (acknowledges(packet_type) && packet_id != 0)
            &&& written is Ok ==> written == Ok::<usize, OutboundError>(4) && after[0]
                == packet_type && after[1] == 2 && plain::number_at(after, 2) == packet_id
                && after.skip(4) == buffer.skip(4)
        }),
        ({
            let (written, after) = outbound::ack_written(
                buffer,
                packet_type,
                packet_id,
                Some(code),
                properties,
            );
            &&& written is Ok == (code_fits(packet_type, code) && packet_id != 0)
            &&& written matches Ok(n) ==> {
                let s = after.take(n as int);
                let body = outgoing::body_of(s);
                &&& outgoing::is_packet(s, packet_type)
                &&& plain::number_at(s, body) == packet_id
                &&& s[body + 2] == code
                &&& plain::section_at(s, body + 3) == properties
                &&& plain::section_end(s, body + 3) == n
                &&& after.skip(n as int) == buffer.skip(n as int)
            }
        }),
        properties.len() > 0 ==> outbound::ack_written(
            buffer,
            packet_type,
            packet_id,
            None,
            properties,
        ).0 is Err,
{
    lemma_code_fits(packet_type, code);
    wire::lemma_length_bytes_len(properties.len());
    let id = wire::u16_bytes(packet_id);
    let none = Seq::<u8>::empty();
    let simple = outbound::simple_ack_bytes(packet_type, packet_id);
    outgoing::lemma_overwrite(buffer, simple);
    let plainly = wire::overwrite(buffer, 0, simple);
    assert(plainly.take(4) =~= simple);
    assert(plainly[0] == simple[0] && plainly[1] == simple[1] && plainly[2] == simple[2]
        && plainly[3] == simple[3]);
    let claimed = size::ack_body_size(properties.len() as int);
    wire::lemma_length_bytes_len(claimed as nat);
    if code_fits(packet_type, code) && packet_id != 0 {
        let s = outbound::full_ack_bytes(packet_type, packet_id, code, properties);
        let section = wire::section_bytes(properties);
        let head = seq![packet_type] + wire::length_bytes(claimed as nat);
        let body = id.push(code) + section;
        assert(s =~= head + body);
        assert(s =~= head + id + (seq![code] + section));
        assert(s =~= (head + id.push(code)) + section + none);
        outgoing::lemma_is_packet(packet_type, claimed as nat, body);
        plain::lemma_number(head, packet_id, seq![code] + section);
        plain::lemma_section(head + id.push(code), properties, none);
        outgoing::lemma_overwrite(buffer, s);
        assert(s[head.len() as int + 2] == code);
    }
}

/// The reason codes that fit, both ways of saying it.
proof fn lemma_code_fits(packet_type: u8, code: u8)
    ensures
        code_fits(packet_type, code) == outbound::ack_code_allowed(packet_type, code),
{
    let first = seq![
        0x00u8,
        0x10u8,
        0x80u8,
        0x83u8,
        0x87u8,
        0x90u8,
        0x91u8,
        0x97u8,
        0x99u8,
    ];
    let second = seq![0x00u8, 0x92u8];
    assert(first[0] == 0x00 && first[1] == 0x10 && first[2] == 0x80 && first[3] == 0x83 && first[4]
        == 0x87 && first[5] == 0x90 && first[6] == 0x91 && first[7] == 0x97 && first[8] == 0x99);
    assert(second[0] == 0x00 && second[1] == 0x92);
}

/// **Law.** A PINGREQ is the type byte of one and no body, and that is what the
/// client sends.
pub proof fn law_pingreq_is_empty()
    ensures
        writer::PINGREQ@ == seq![0xC0u8, 0x00u8],
        packet::PINGREQ == 0xC0,
        outgoing::is_packet(writer::PINGREQ@, 0xC0),
{
    reveal_with_fuel(plain::length_end, 2);
    reveal_with_fuel(plain::length_at, 2);
    assert(writer::PINGREQ@ =~= seq![0xC0u8, 0x00u8]);
}

/// **Law.** A DISCONNECT that is written is read by a broker as it was meant:
/// its reason code, if it has one, and its properties.
pub proof fn law_disconnect_is_understood(
    buffer: Seq<u8>,
    reason_code: Option<u8>,
    properties: Seq<u8>,
    max_packet_size: u32,
)
    requires
        properties.len() <= 268_435_455,
        disconnect::disconnect_size(
            reason_code,
            properties.len() as u32,
            max_packet_size,
        ) matches Ok(size) && size.packet_size <= buffer.len(),
    ensures
        ({
            let size = disconnect::disconnect_size(
                reason_code,
                properties.len() as u32,
                max_packet_size,
            )->Ok_0;
            let (written, after) = disconnect::disconnect_written(
                buffer,
                reason_code,
                properties,
                size.remaining_length,
            );
            let n = size.packet_size as int;
            let s = after.take(n);
            let body = outgoing::body_of(s);
            let section_at = match reason_code {
                Some(_) => body + 1,
                None => body,
            };
            &&& written == Ok::<usize, DisconnectError>(size.packet_size as usize)
            &&& outgoing::is_packet(s, 0xE0)
            &&& reason_code matches Some(code) ==> s[body] == code
            &&& plain::section_at(s, section_at) == properties
            &&& plain::section_end(s, section_at) == n
            &&& after.skip(n) == buffer.skip(n)
            &&& s == disconnect::disconnect_bytes(reason_code, properties, size.remaining_length)
        }),
{
    let size = disconnect::disconnect_size(
        reason_code,
        properties.len() as u32,
        max_packet_size,
    )->Ok_0;
    let n = size.remaining_length;
    let s = disconnect::disconnect_bytes(reason_code, properties, n);
    let none = Seq::<u8>::empty();
    disconnect::law_disconnect_size_is_written(buffer, reason_code, properties, max_packet_size);
    outgoing::lemma_overwrite(buffer, s);
    let head = seq![0xE0u8] + wire::length_bytes(n as nat);
    let reason = disconnect::reason_field(reason_code);
    let section = wire::section_bytes(properties);
    assert(s =~= head + (reason + section));
    assert(s =~= (head + reason) + section + none);
    wire::lemma_length_bytes_len(n as nat);
    wire::lemma_length_bytes_len(properties.len());
    outgoing::lemma_is_packet(0xE0, n as nat, reason + section);
    plain::lemma_section(head + reason, properties, none);
    if let Some(code) = reason_code {
        assert(s[head.len() as int] == reason[0]);
    }
}

// ---------------------------------------------------------------------------
// Sizes
// ---------------------------------------------------------------------------

/// What a packet with this body takes in all.
pub open spec fn in_all(body: int) -> int {
    1 + plain::length_count(body) + body
}

/// A packet with this body may be sent: a length can say it, and the broker
/// takes so much.
pub open spec fn sendable(body: int, max_packet_size: u32) -> bool {
    body <= 268_435_455 && in_all(body) <= max_packet_size
}

/// What a section of so many bytes takes.
pub open spec fn section_takes(length: int) -> int {
    plain::length_count(length) + length
}

/// **Law.** An acknowledgement, a PUBLISH and a DISCONNECT are given a size
/// exactly if they may be sent, and it is that of their parts.
pub proof fn law_sizes_are_those_of_the_parts(
    properties: u32,
    max_packet_size: u32,
    publish: OutgoingPublish<'_>,
    reason_code: Option<u8>,
)
    requires
        properties <= 268_435_455,
        publish.properties@.len() <= 268_435_455,
    ensures
        ({
            let body = 3 + section_takes(properties as int);
            let size = if sendable(body, max_packet_size) {
                Ok::<PacketSize, SizeError>(
                    PacketSize {
                        remaining_length: body as u32,
                        packet_size: in_all(body) as u32,
                    },
                )
            } else {
                Err(SizeError::BadParameter)
            };
            size::sized(size::ack_body_size(properties as int), max_packet_size) == size
        }),
        ({
            let id = if publish.qos == QoS::AtMostOnce {
                0int
            } else {
                2
            };
            let body = 2 + publish.topic_name@.len() + id + section_takes(
                publish.properties@.len() as int,
            ) + publish.payload@.len();
            outpublish::publish_size(publish, max_packet_size) == if publish.topic_name@.len()
                <= 65_535 && sendable(body, max_packet_size) {
                Ok::<PublishSize, OutgoingError>(
                    PublishSize {
                        remaining_length: body as u32,
                        packet_size: in_all(body) as u32,
                    },
                )
            } else {
                Err(OutgoingError::BadParameter)
            }
        }),
        ({
            let body = one_if(reason_code is Some) + section_takes(properties as int);
            disconnect::disconnect_size(reason_code, properties, max_packet_size) matches Ok(size)
                ==> size == (DisconnectSize {
                remaining_length: body as u32,
                packet_size: in_all(body) as u32,
            }) && sendable(body, max_packet_size)
        }),
        reason_code == Some(0u8) && sendable(1 + section_takes(properties as int), max_packet_size)
            ==> disconnect::disconnect_size(reason_code, properties, max_packet_size) is Ok,
{
    plain::lemma_length_count(properties as int);
    plain::lemma_length_count(publish.properties@.len() as int);
    let ack = size::ack_body_size(properties as int);
    let sent = outpublish::publish_body_size(publish);
    let gone = disconnect::disconnect_body(reason_code, properties as int);
    if ack <= 268_435_455 {
        plain::lemma_length_count(ack);
    }
    if sent <= 268_435_455 {
        plain::lemma_length_count(sent);
    }
    if gone <= 268_435_455 {
        plain::lemma_length_count(gone);
    }
}

/// What an optional text takes.
pub open spec fn text_takes(text: Option<&[u8]>) -> int {
    match text {
        Some(text) => 2 + text@.len() as int,
        None => 0,
    }
}

/// An optional text can be said.
pub open spec fn text_sayable(text: Option<&[u8]>) -> bool {
    text matches Some(text) ==> text@.len() <= 65_535
}

/// **Law.** A CONNECT is given a size exactly if its client identifier does not
/// begin with a NUL, every text in it has at most 65,535 bytes and every section
/// at most 268,435,455, and so has the body. The size is that of its parts: ten
/// fixed bytes, the properties, the client identifier, the will, the user name
/// and the password.
pub proof fn law_connect_size_is_that_of_the_parts(connect: Connect<'_>)
    ensures
        ({
            let fits = {
                &&& connect.client_identifier@.len() <= 65_535
                &&& connect.client_identifier@.len() > 0 ==> connect.client_identifier@[0] != 0
                &&& connect.properties@.len() <= 268_435_455
                &&& text_sayable(connect.info.username) && text_sayable(connect.info.password)
                &&& connect.will matches Some(will) ==> will.properties@.len() <= 268_435_455
                    && will.topic_name@.len() <= 65_535 && will.payload@.len() <= 65_535
            };
            let will = match connect.will {
                Some(will) => section_takes(will.properties@.len() as int) + 2
                    + will.topic_name@.len() + 2 + will.payload@.len(),
                None => 0,
            };
            let body = 10 + section_takes(connect.properties@.len() as int) + 2
                + connect.client_identifier@.len() + will + text_takes(connect.info.username)
                + text_takes(connect.info.password);
            connect::connect_size(connect) == if fits && body <= 268_435_455 {
                Ok::<ConnectSize, ConnectError>(
                    ConnectSize {
                        remaining_length: body as u32,
                        packet_size: in_all(body) as u32,
                    },
                )
            } else {
                Err(ConnectError::BadParameter)
            }
        }),
{
    if connect.properties@.len() <= 268_435_455 {
        plain::lemma_length_count(connect.properties@.len() as int);
    }
    if let Some(will) = connect.will {
        if will.properties@.len() <= 268_435_455 {
            plain::lemma_length_count(will.properties@.len() as int);
        }
    }
    let body = connect::connect_body_size(connect);
    if 0 <= body <= 268_435_455 {
        plain::lemma_length_count(body);
    }
}

/// Numbers, one and the others.
pub open spec fn sum_of(lengths: Seq<usize>) -> int
    decreases lengths.len(),
{
    if lengths.len() == 0 {
        0
    } else {
        lengths[0] + sum_of(lengths.drop_first())
    }
}

proof fn lemma_sum_push(lengths: Seq<usize>, last: usize)
    ensures
        sum_of(lengths.push(last)) == sum_of(lengths) + last,
    decreases lengths.len(),
{
    let more = lengths.push(last);
    assert(sum_of(more) == more[0] + sum_of(more.drop_first()));
    if lengths.len() == 0 {
        assert(more.drop_first() =~= Seq::empty());
        assert(sum_of(Seq::empty()) == 0);
    } else {
        assert(more.drop_first() =~= lengths.drop_first().push(last));
        lemma_sum_push(lengths.drop_first(), last);
    }
}

proof fn lemma_filters_take(kind: ListPacket, lengths: Seq<usize>)
    ensures
        size::filters_size(kind, lengths) == sum_of(lengths) + lengths.len() * (if kind
            == ListPacket::Subscribe {
            3int
        } else {
            2
        }),
    decreases lengths.len(),
{
    if lengths.len() > 0 {
        let fewer = lengths.drop_last();
        lemma_filters_take(kind, fewer);
        lemma_sum_push(fewer, lengths.last());
        assert(fewer.push(lengths.last()) =~= lengths);
        assert(lengths.len() * 3 == fewer.len() * 3 + 3);
        assert(lengths.len() * 2 == fewer.len() * 2 + 2);
    }
}

/// **Law.** A SUBSCRIBE and an UNSUBSCRIBE are given a size exactly if they have
/// a filter, every filter has at most 65,535 bytes, and the packet may be sent.
/// The size is that of the parts: two bytes of an identifier, the properties,
/// and each filter with two bytes before it and, in a SUBSCRIBE, one behind it.
pub proof fn law_list_size_is_that_of_the_parts(
    kind: ListPacket,
    lengths: Seq<usize>,
    properties: u32,
    max_packet_size: u32,
)
    requires
        properties <= 268_435_455,
    ensures
        ({
            let each = if kind == ListPacket::Subscribe {
                3int
            } else {
                2
            };
            let body = 2 + section_takes(properties as int) + sum_of(lengths) + lengths.len()
                * each;
            let fits = lengths.len() > 0 && forall|i: int|
                0 <= i < lengths.len() ==> #[trigger] lengths[i] <= 65_535;
            size::list_size(kind, lengths, properties, max_packet_size) == if fits && sendable(
                body,
                max_packet_size,
            ) {
                Ok::<PacketSize, SizeError>(
                    PacketSize {
                        remaining_length: body as u32,
                        packet_size: in_all(body) as u32,
                    },
                )
            } else {
                Err(SizeError::BadParameter)
            }
        }),
{
    lemma_filters_take(kind, lengths);
    plain::lemma_length_count(properties as int);
    lemma_sum_is_no_less(lengths);
    let body = size::list_body_size(kind, lengths, properties as int);
    if 0 <= body <= 268_435_455 {
        plain::lemma_length_count(body);
    }
}

proof fn lemma_sum_is_no_less(lengths: Seq<usize>)
    ensures
        sum_of(lengths) >= 0,
    decreases lengths.len(),
{
    if lengths.len() > 0 {
        lemma_sum_is_no_less(lengths.drop_first());
    }
}

/// **Law.** A PUBLISH is not written without a topic, with one that cannot be
/// said, above QoS 0 without an identifier, or as a duplicate at QoS 0; nor with a
/// body that cannot be said; nor into a buffer that is too small. The buffer is
/// then as it was.
pub proof fn law_publish_is_refused(
    buffer: Seq<u8>,
    publish: OutgoingPublish<'_>,
    packet_id: u16,
    body: u32,
)
    requires
        publish.properties@.len() <= 268_435_455,
        publish.payload@.len() <= body,
    ensures
        ({
            let fits = {
                &&& 1 <= publish.topic_name@.len() <= 65_535
                &&& publish.qos is AtMostOnce || packet_id > 0
                &&& publish.dup ==> !(publish.qos is AtMostOnce)
                &&& body <= 268_435_455
            };
            let whole = outpublish::publish_written(buffer, publish, packet_id, body);
            let front = outpublish::header_written(buffer, publish, packet_id, body);
            &&& !fits ==> whole == (Err::<usize, _>(OutgoingError::BadParameter), buffer)
            &&& !fits ==> front == (Err::<usize, _>(OutgoingError::BadParameter), buffer)
            &&& fits && buffer.len() < in_all(body as int) ==> whole == (
                Err::<usize, _>(OutgoingError::NoMemory),
                buffer,
            )
            &&& fits && buffer.len() < in_all(body as int) - publish.payload@.len() ==> front == (
                Err::<usize, _>(OutgoingError::NoMemory),
                buffer,
            )
        }),
{
    if body <= 268_435_455 {
        plain::lemma_length_count(body as int);
    }
}

/// **Law.** A SUBSCRIBE or UNSUBSCRIBE is not written without filters or without
/// an identifier, nor with a filter that is empty or cannot be said, nor into a
/// buffer that is too small. The buffer is then as it was.
pub proof fn law_list_is_refused(
    kind: ListPacket,
    buffer: Seq<u8>,
    list: Seq<Subscription<'_>>,
    properties: Seq<u8>,
    packet_id: u16,
    body: u32,
    i: int,
)
    ensures
        ({
            let written = outbound::list_written(
                kind,
                buffer,
                list,
                properties,
                packet_id,
                body,
            );
            let bad = (Err::<usize, _>(OutboundError::BadParameter), buffer);
            &&& list.len() == 0 || packet_id == 0 || properties.len() > 268_435_455 || body
                > 268_435_455 ==> written == bad
            &&& list.len() > 0 && packet_id != 0 && properties.len() <= 268_435_455 && body
                <= 268_435_455 ==> {
                &&& buffer.len() < in_all(body as int) ==> written == (
                    Err::<usize, _>(OutboundError::NoMemory),
                    buffer,
                )
                &&& buffer.len() >= in_all(body as int) && 0 <= i < list.len() && !(1
                    <= list[i].topic_filter@.len() <= 65_535) ==> written == bad
            }
        }),
{
    if body <= 268_435_455 {
        plain::lemma_length_count(body as int);
    }
    if 0 <= i < list.len() && !(1 <= list[i].topic_filter@.len() <= 65_535) {
        assert(!outbound::filter_ok(list[i]));
    }
}

/// **Law.** A DISCONNECT is not written with properties and no code, with a length
/// that cannot be said, or into a buffer that is too small.
pub proof fn law_disconnect_is_refused(
    buffer: Seq<u8>,
    reason_code: Option<u8>,
    properties: Seq<u8>,
    body: u32,
)
    ensures
        ({
            let written = disconnect::disconnect_written(buffer, reason_code, properties, body);
            let fits = {
                &&& properties.len() <= 268_435_455
                &&& reason_code is None ==> properties.len() == 0
                &&& body <= 268_435_455
            };
            &&& !fits ==> written == (Err::<usize, _>(DisconnectError::BadParameter), buffer)
            &&& fits && buffer.len() < in_all(body as int) ==> written == (
                Err::<usize, _>(DisconnectError::NoMemory),
                buffer,
            )
        }),
{
    if body <= 268_435_455 {
        plain::lemma_length_count(body as int);
    }
}

} // verus!
