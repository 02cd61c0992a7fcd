//! What packets say that arrive, built up from their parts.

use vstd::prelude::*;

use crate::ack;
use crate::ack::{AckError, AckModel, Limits, PacketModel};
use crate::client::{ClientError, ContextModel};
use crate::connack::{ClientSettings, ConnAckError, ConnAckModel};
use crate::disconnect;
use crate::disconnect::{DisconnectError, DisconnectModel};
use crate::header;
use crate::header::{HeaderError, PacketHeader};
use crate::law::grammar;
use crate::law::grammar::Prop;
use crate::law::outgoing;
use crate::law::plain;
use crate::law::sections;
use crate::publish;
use crate::publish::{PublishError, PublishModel};
use crate::session;
use crate::wire;

verus! {

/// How many bytes a packet takes whose body has so many.
pub open spec fn packet_count(body: int) -> int {
    1 + plain::length_count(body) + body
}

proof fn lemma_packet_count(body: u32)
    requires
        body <= 268_435_455,
    ensures
        header::counted_packet(body) == packet_count(body as int),
{
    plain::lemma_length_count(body as int);
}

/// A section at the front of bytes is taken as such.
proof fn lemma_section_taken(section: Seq<u8>, rest: Seq<u8>)
    requires
        section.len() <= 268_435_455,
    ensures
        wire::take_length(wire::section_bytes(section) + rest) == Some(
            (section.len() as u32, section + rest),
        ),
        (section + rest).take(section.len() as int) == section,
        (section + rest).skip(section.len() as int) == rest,
{
    let n = section.len() as u32;
    wire::law_take_length_round_trip(n, section + rest);
    assert(wire::section_bytes(section) + rest =~= wire::length_bytes(n as nat) + (section
        + rest));
    assert((section + rest).take(section.len() as int) =~= section);
    assert((section + rest).skip(section.len() as int) =~= rest);
}

/// A section that can be taken off the front is one.
proof fn lemma_section_back(s: Seq<u8>)
    requires
        wire::take_length(s) is Some,
        (wire::take_length(s)->0).0 <= (wire::take_length(s)->0).1.len(),
    ensures
        ({
            let (n, behind) = wire::take_length(s)->0;
            s == wire::section_bytes(behind.take(n as int)) + behind.skip(n as int)
        }),
{
    let (n, behind) = wire::take_length(s)->0;
    wire::law_length_has_one_spelling(s, n);
    wire::lemma_read_length_bounds(s);
    assert(behind =~= behind.take(n as int) + behind.skip(n as int));
    assert(s =~= wire::length_bytes(n as nat) + behind);
    assert(s =~= wire::section_bytes(behind.take(n as int)) + behind.skip(n as int));
}

// ---------------------------------------------------------------------------
// PUBLISH
// ---------------------------------------------------------------------------

/// The body of a PUBLISH: the topic, the packet identifier where there is one,
/// the properties, the payload.
pub open spec fn message(topic: Seq<u8>, id: Option<u16>, section: Seq<u8>, payload: Seq<u8>) ->
    Seq<u8> {
    wire::text_bytes(topic) + (match id {
        Some(id) => wire::u16_bytes(id),
        None => Seq::empty(),
    }) + wire::section_bytes(section) + payload
}

proof fn lemma_message_taken(topic: Seq<u8>, id: Option<u16>, section: Seq<u8>, payload: Seq<u8>)
    requires
        topic.len() <= 65_535,
        section.len() <= 268_435_455,
    ensures
        ({
            let body = message(topic, id, section, payload);
            let after = wire::section_bytes(section) + payload;
            &&& wire::take_text(body) == Some(
                (
                    topic,
                    match id {
                        Some(id) => wire::u16_bytes(id) + after,
                        None => after,
                    },
                ),
            )
            &&& id matches Some(id) ==> wire::take_u16(wire::u16_bytes(id) + after) == Some(
                (id, after),
            )
        }),
{
    let body = message(topic, id, section, payload);
    let after = wire::section_bytes(section) + payload;
    match id {
        Some(id) => {
            wire::law_u16_round_trip(id, after);
            wire::law_text_round_trip(topic, wire::u16_bytes(id) + after);
            assert(body =~= wire::text_bytes(topic) + (wire::u16_bytes(id) + after));
        },
        None => {
            wire::law_text_round_trip(topic, after);
            assert(body =~= wire::text_bytes(topic) + after);
        },
    }
}

/// **Law.** A PUBLISH that is built from a topic, an identifier above QoS 0,
/// properties and a payload is accepted exactly if the packet is within the
/// client's limit, long enough, has no identifier 0, and its properties are
/// ones that a message may carry. What is handed out is then that topic,
/// identifier, section and payload, with the QoS, the duplicate flag and the
/// retain flag of the first byte. Any other is refused as a bad response.
pub proof fn law_message_is_read(
    first: u8,
    topic: Seq<u8>,
    id: Option<u16>,
    props: Seq<Prop>,
    payload: Seq<u8>,
    beyond: Seq<u8>,
    max_packet_size: u32,
    alias_max: u16,
)
    requires
        grammar::all_proper(props),
        topic.len() <= 65_535,
        message(topic, id, grammar::section(props), payload).len() <= 268_435_455,
        0x30 <= first <= 0x3F,
        first / 2 % 4 != 3,
        id is None <==> first / 2 % 4 == 0,
    ensures
        ({
            let body = message(topic, id, grammar::section(props), payload);
            let packet = PacketModel {
                packet_type: first,
                claimed: body.len() as u32,
                data: body + beyond,
            };
            let read = publish::publish_of(packet, max_packet_size, alias_max);
            &&& read is Ok <==> {
                &&& packet_count(body.len() as int) <= max_packet_size
                &&& body.len() >= 4 + outgoing_id_count(id)
                &&& id != Some(0u16)
                &&& sections::legal(
                    props,
                    sections::in_message(alias_max),
                    sections::message_often(),
                )
            }
            &&& read is Err ==> read == Err::<PublishModel, _>(PublishError::BadResponse)
            &&& read matches Ok(said) ==> {
                &&& outgoing::level(said.qos) == first / 2 % 4
                &&& said.dup == plain::bit(first, 8)
                &&& said.retain == plain::bit(first, 1)
                &&& said.packet_id == id
                &&& said.topic_name == topic
                &&& said.properties == grammar::section(props)
                &&& said.payload == payload
            }
        }),
{
    let section = grammar::section(props);
    let body = message(topic, id, section, payload);
    let n = body.len() as u32;
    lemma_packet_count(n);
    assert(section.len() <= body.len());
    lemma_message_taken(topic, id, section, payload);
    lemma_section_taken(section, payload);
    sections::law_message_properties(props, section, alias_max);
    assert((body + beyond).subrange(0, n as int) =~= body);
}

/// How many bytes an identifier takes.
pub open spec fn outgoing_id_count(id: Option<u16>) -> int {
    if id is Some {
        2
    } else {
        0
    }
}

/// **Law.** A PUBLISH that is accepted is built from the parts handed out: its
/// bytes are their bytes, in that order, up to the claimed end. A first byte
/// that is not a PUBLISH's, and a length that cannot be said, are refused as bad
/// parameters; QoS 3 is refused as a bad response.
pub proof fn law_message_read_is_there(packet: PacketModel, max_packet_size: u32, alias_max: u16)
    ensures
        ({
            let read = publish::publish_of(packet, max_packet_size, alias_max);
            &&& read matches Ok(said) ==> {
                &&& 0x30 <= packet.packet_type <= 0x3F
                &&& packet.claimed <= packet.data.len()
                &&& packet.data.take(packet.claimed as int) == message(
                    said.topic_name,
                    said.packet_id,
                    said.properties,
                    said.payload,
                )
                &&& grammar::spelled(said.properties)
                &&& said.packet_id is None <==> packet.packet_type / 2 % 4 == 0
                &&& said.packet_id != Some(0u16)
            }
            &&& !(0x30 <= packet.packet_type <= 0x3F) ==> read == Err::<PublishModel, _>(
                PublishError::BadParameter,
            )
            &&& packet.claimed > 268_435_455 ==> read == Err::<PublishModel, _>(
                PublishError::BadParameter,
            )
            &&& 0x30 <= packet.packet_type <= 0x3F && packet.claimed <= 268_435_455
                && packet.packet_type / 2 % 4 == 3 ==> read == Err::<PublishModel, _>(
                PublishError::BadResponse,
            )
        }),
{
    let read = publish::publish_of(packet, max_packet_size, alias_max);
    if let Ok(said) = read {
        let body = packet.data.subrange(0, packet.claimed as int);
        assert(body =~= packet.data.take(packet.claimed as int));
        grammar::lemma_text_back(body);
        let after = (wire::take_text(body)->0).1;
        if packet.packet_type / 2 % 4 == 0 {
            lemma_section_back(after);
            assert(body =~= message(
                said.topic_name,
                said.packet_id,
                said.properties,
                said.payload,
            ));
        } else {
            let (id, behind) = wire::take_u16(after)->0;
            assert(after =~= wire::u16_bytes(id) + behind);
            lemma_section_back(behind);
            assert(body =~= message(
                said.topic_name,
                said.packet_id,
                said.properties,
                said.payload,
            ));
        }
        sections::law_message_properties(Seq::empty(), said.properties, alias_max);
    }
}

// ---------------------------------------------------------------------------
// CONNACK
// ---------------------------------------------------------------------------

/// The reason codes of a CONNACK.
pub open spec fn connack_codes() -> Set<u8> {
    set![
        0x00, 0x80, 0x81, 0x82, 0x83, 0x84, 0x85, 0x86, 0x87, 0x88, 0x89, 0x8A, 0x8C, 0x90, 0x95,
        0x97, 0x99, 0x9A, 0x9B, 0x9C, 0x9D, 0x9F,
    ]
}

/// The body of a CONNACK.
pub open spec fn connack(flags: u8, code: u8, section: Seq<u8>) -> Seq<u8> {
    seq![flags, code] + wire::section_bytes(section)
}

proof fn lemma_connack_read(flags: u8, code: u8, props: Seq<Prop>, claimed: u32, asked: bool)
    requires
        grammar::all_proper(props),
        connack(flags, code, grammar::section(props)).len() <= 268_435_455,
        claimed == connack(flags, code, grammar::section(props)).len(),
    ensures
        ({
            let section = grammar::section(props);
            let body = crate::connack::connack_body(
                claimed,
                connack(flags, code, section),
                asked,
            );
            let walk = crate::connack::connack_walk(
                section,
                crate::connack::no_settings(),
                0,
                asked,
            );
            let fits = flags <= 1 && (flags == 1 ==> code == 0) && connack_codes().contains(code)
                && walk is Some;
            &&& body is Some <==> fits
            &&& body matches Some(said) ==> {
                &&& said.session_present == (flags == 1)
                &&& said.reason_code == code
                &&& said.server == (walk->0).0
                &&& said.fields_present == (walk->0).1
                &&& said.properties == section
            }
        }),
{
    let section = grammar::section(props);
    let data = connack(flags, code, section);
    let after = wire::section_bytes(section);
    lemma_section_taken(section, Seq::empty());
    assert(after + Seq::<u8>::empty() =~= after);
    assert(section + Seq::<u8>::empty() =~= section);
    assert(data.subrange(2, claimed as int) =~= after);
    wire::lemma_length_bytes_len(section.len());
    assert(crate::connack::connack_code(code) == connack_codes().contains(code));
}

/// **Law.** After a CONNACK has been taken in, each setting of the broker is the
/// value of the property of that name, if the CONNACK has it, and what it was
/// before, if not: the session expiry, the receive maximum, the maximum QoS,
/// whether messages are retained, the maximum packet size, the topic alias
/// maximum, whether there are wildcards, subscription identifiers and shared
/// subscriptions, and the keep-alive. Nothing else changes. The connection
/// stands exactly if the code is 0 and a fresh session was not answered with a
/// kept one. A CONNACK that cannot be read changes nothing.
pub proof fn law_connack_is_taken(
    context: ContextModel,
    flags: u8,
    code: u8,
    props: Seq<Prop>,
    beyond: Seq<u8>,
    clean: bool,
)
    requires
        grammar::all_proper(props),
        connack(flags, code, grammar::section(props)).len() <= 268_435_455,
        context.network == connack(flags, code, grammar::section(props)) + beyond,
        context.properties.client.max_packet_size != 0,
    ensures
        ({
            let size = connack(flags, code, grammar::section(props)).len();
            let (result, after, kept) = session::connack_taken(context, size as u32, clean);
            let asked = context.properties.client.request_response_info;
            let readable = {
                &&& packet_count(size as int) <= context.properties.client.max_packet_size
                &&& flags <= 1
                &&& flags == 1 ==> code == 0
                &&& connack_codes().contains(code)
                &&& sections::legal(props, sections::in_connack(asked), sections::user_often())
            };
            let held = context.properties;
            let now = after.properties;
            &&& !readable ==> {
                &&& result == Err::<(), _>(ClientError::BadResponse)
                &&& after == context
                &&& kept is None
            }
            &&& readable ==> {
                &&& kept == Some(flags == 1)
                &&& result is Ok <==> code == 0 && !(clean && flags == 1)
                &&& result == Err::<(), _>(ClientError::BadResponse) <==> clean && flags == 1
                &&& result == Err::<(), _>(ClientError::ServerRefused) <==> code != 0
                &&& after == (ContextModel { properties: now, ..context })
                &&& now.client == held.client
                &&& now.session_expiry == sections::said_or(
                    props,
                    0x11,
                    held.session_expiry as int,
                )
                &&& now.server.receive_max == sections::said_or(
                    props,
                    0x21,
                    held.server.receive_max as int,
                )
                &&& now.server.max_qos == sections::said_or(
                    props,
                    0x24,
                    held.server.max_qos as int,
                )
                &&& now.server.retain_available == sections::said_or(
                    props,
                    0x25,
                    held.server.retain_available as int,
                )
                &&& now.server.max_packet_size == sections::said_or(
                    props,
                    0x27,
                    held.server.max_packet_size as int,
                )
                &&& now.server.topic_alias_max == sections::said_or(
                    props,
                    0x22,
                    held.server.topic_alias_max as int,
                )
                &&& now.server.wildcard_available == sections::said_or(
                    props,
                    0x28,
                    held.server.wildcard_available as int,
                )
                &&& now.server.subscription_id_available == sections::said_or(
                    props,
                    0x29,
                    held.server.subscription_id_available as int,
                )
                &&& now.server.shared_available == sections::said_or(
                    props,
                    0x2A,
                    held.server.shared_available as int,
                )
                &&& now.server.keep_alive == sections::said_or(
                    props,
                    0x13,
                    held.server.keep_alive as int,
                )
            }
        }),
{
    let section = grammar::section(props);
    let data = connack(flags, code, section);
    let size = data.len() as u32;
    let asked = context.properties.client.request_response_info;
    lemma_packet_count(size);
    assert(context.network.take(size as int) =~= data);
    lemma_connack_read(flags, code, props, size, asked);
    sections::law_connack_properties(props, section, asked, 0x11);
    sections::law_connack_properties(props, section, asked, 0x21);
    sections::law_connack_properties(props, section, asked, 0x24);
    sections::law_connack_properties(props, section, asked, 0x25);
    sections::law_connack_properties(props, section, asked, 0x27);
    sections::law_connack_properties(props, section, asked, 0x22);
    sections::law_connack_properties(props, section, asked, 0x28);
    sections::law_connack_properties(props, section, asked, 0x29);
    sections::law_connack_properties(props, section, asked, 0x2A);
    sections::law_connack_properties(props, section, asked, 0x13);
    grammar::lemma_said(props, 0x11);
    grammar::lemma_said(props, 0x21);
    grammar::lemma_said(props, 0x24);
    grammar::lemma_said(props, 0x25);
    grammar::lemma_said(props, 0x27);
    grammar::lemma_said(props, 0x22);
    grammar::lemma_said(props, 0x28);
    grammar::lemma_said(props, 0x29);
    grammar::lemma_said(props, 0x2A);
    grammar::lemma_said(props, 0x13);
}

/// **Law.** A CONNACK that is accepted is built from the parts that it says, up
/// to the claimed end.
pub proof fn law_connack_read_is_there(claimed: u32, data: Seq<u8>, asked: bool)
    ensures
        crate::connack::connack_body(claimed, data, asked) matches Some(said) ==> {
            &&& claimed <= data.len()
            &&& data.take(claimed as int) == connack(
                if said.session_present {
                    1
                } else {
                    0
                },
                said.reason_code,
                said.properties,
            )
            &&& grammar::spelled(said.properties)
        },
{
    if let Some(said) = crate::connack::connack_body(claimed, data, asked) {
        let after = data.subrange(2, claimed as int);
        lemma_section_back(after);
        let behind = (wire::take_length(after)->0).1;
        assert(behind.take(behind.len() as int) =~= behind);
        assert(behind.skip(behind.len() as int) =~= Seq::empty());
        assert(data.take(claimed as int) =~= seq![data[0], data[1]] + after);
        assert(after =~= wire::section_bytes(said.properties));
        sections::law_connack_properties(Seq::empty(), said.properties, asked, 0);
    }
}

/// **Law.** Nothing but a CONNACK is read as one, and none is read by a client
/// that takes no packets.
pub proof fn law_connack_is_a_connack(packet: PacketModel, client: ClientSettings)
    ensures
        packet.packet_type != 0x20 || client.max_packet_size == 0 ==> crate::connack::connack_of(
            packet,
            client,
        ) == Err::<ConnAckModel, ConnAckError>(ConnAckError::BadParameter),
        packet.claimed < 3 ==> crate::connack::connack_of(packet, client) is Err,
{
}

// ---------------------------------------------------------------------------
// Acknowledgements
// ---------------------------------------------------------------------------

/// The reason codes of the four acknowledgements of a PUBLISH.
pub open spec fn publish_ack_codes() -> Set<u8> {
    set![0x00, 0x10, 0x80, 0x83, 0x87, 0x90, 0x91, 0x92, 0x97, 0x99]
}

/// The reason codes of a SUBACK and an UNSUBACK.
pub open spec fn list_ack_codes() -> Set<u8> {
    set![0x00, 0x01, 0x02, 0x80, 0x83, 0x87, 0x8F, 0x91, 0x97, 0x9E, 0xA1, 0xA2]
}

/// The first byte of PUBACK, PUBREC, PUBREL and PUBCOMP.
pub open spec fn acks_publish(first: u8) -> bool {
    first == 0x40 || first == 0x50 || first == 0x62 || first == 0x70
}

/// **Law.** A PUBACK, PUBREC, PUBREL or PUBCOMP is an identifier; or that and a
/// reason code; or those and properties, where the client asked for problem
/// information. It is accepted exactly if the identifier is not 0, the code is
/// one of the ten, the properties are user properties and at most one reason
/// string, and the packet is within the client's limit. It says just these
/// parts.
pub proof fn law_publish_ack_is_read(
    first: u8,
    id: u16,
    code: u8,
    props: Seq<Prop>,
    beyond: Seq<u8>,
    limits: Limits,
)
    requires
        acks_publish(first),
        grammar::all_proper(props),
        grammar::section(props).len() <= 200_000_000,
        limits.max_packet_size != 0,
    ensures
        ({
            let section = grammar::section(props);
            let short = wire::u16_bytes(id);
            let coded = short + seq![code];
            let full = coded + wire::section_bytes(section);
            let read_short = ack::ack_of(
                PacketModel { packet_type: first, claimed: 2, data: short + beyond },
                limits,
            );
            let read_coded = ack::ack_of(
                PacketModel { packet_type: first, claimed: 3, data: coded + beyond },
                limits,
            );
            let read_full = ack::ack_of(
                PacketModel {
                    packet_type: first,
                    claimed: full.len() as u32,
                    data: full + beyond,
                },
                limits,
            );
            let named = id != 0;
            let known = publish_ack_codes().contains(code);
            let fits = sections::legal(props, sections::in_ack(), sections::user_often());
            &&& read_short == if named && limits.max_packet_size >= 4 {
                Ok::<_, AckError>(
                    AckModel {
                        packet_id: Some(id),
                        reason_codes: Seq::empty(),
                        properties: Seq::empty(),
                    },
                )
            } else {
                Err(AckError::BadResponse)
            }
            &&& read_coded == if named && known && limits.max_packet_size >= 5 {
                Ok::<_, AckError>(
                    AckModel {
                        packet_id: Some(id),
                        reason_codes: seq![code],
                        properties: Seq::empty(),
                    },
                )
            } else {
                Err(AckError::BadResponse)
            }
            &&& read_full == if named && known && fits && limits.request_problem_info
                && packet_count(full.len() as int) <= limits.max_packet_size {
                Ok::<_, AckError>(
                    AckModel {
                        packet_id: Some(id),
                        reason_codes: seq![code],
                        properties: section,
                    },
                )
            } else {
                Err(AckError::BadResponse)
            }
        }),
{
    let section = grammar::section(props);
    let short = wire::u16_bytes(id);
    let coded = short + seq![code];
    let after = wire::section_bytes(section);
    let full = coded + after;
    let n = full.len() as u32;
    wire::lemma_length_bytes_len(section.len());
    lemma_packet_count(2);
    lemma_packet_count(3);
    lemma_packet_count(n);
    assert(plain::length_count(2) == 1 && plain::length_count(3) == 1);
    wire::law_u16_round_trip(id, beyond);
    wire::law_u16_round_trip(id, seq![code] + beyond);
    wire::law_u16_round_trip(id, seq![code] + after + beyond);
    assert(coded + beyond =~= short + (seq![code] + beyond));
    assert(full + beyond =~= short + (seq![code] + after + beyond));
    assert((coded + beyond).subrange(2, 3) =~= seq![code]);
    assert((full + beyond).subrange(2, 3) =~= seq![code]);
    assert((full + beyond).subrange(3, 3 + (n - 3)) =~= after);
    lemma_section_taken(section, Seq::empty());
    assert(after + Seq::<u8>::empty() =~= after);
    assert(section + Seq::<u8>::empty() =~= section);
    sections::law_ack_properties(props, section);
    assert(ack::publish_ack_code(code) == publish_ack_codes().contains(code));
}

/// Every code is one of a SUBACK or an UNSUBACK.
#[verifier::opaque]
pub open spec fn all_known(codes: Seq<u8>) -> bool {
    forall|i: int| 0 <= i < codes.len() ==> list_ack_codes().contains(#[trigger] codes[i])
}

/// The codes behind a section are all known.
proof fn lemma_list_codes(section: Seq<u8>, codes: Seq<u8>)
    ensures
        ({
            let rest = section + codes;
            (forall|i: int| section.len() <= i < rest.len() ==> ack::suback_code(#[trigger] rest[i]))
                == all_known(codes)
        }),
{
    reveal(all_known);
    let rest = section + codes;
    if forall|i: int| 0 <= i < codes.len() ==> list_ack_codes().contains(#[trigger] codes[i]) {
        assert forall|i: int| section.len() <= i < rest.len() implies ack::suback_code(
            #[trigger] rest[i],
        ) by {
            assert(rest[i] == codes[i - section.len()]);
        }
    }
    if forall|i: int| section.len() <= i < rest.len() ==> ack::suback_code(#[trigger] rest[i]) {
        assert forall|i: int| 0 <= i < codes.len() implies list_ack_codes().contains(
            #[trigger] codes[i],
        ) by {
            assert(codes[i] == rest[i + section.len()]);
        }
    }
}

/// The identifier and the rest of a SUBACK or UNSUBACK.
proof fn lemma_list_shape(id: u16, section: Seq<u8>, codes: Seq<u8>, beyond: Seq<u8>)
    ensures
        ({
            let after = wire::section_bytes(section) + codes;
            let body = wire::u16_bytes(id) + wire::section_bytes(section) + codes;
            let data = body + beyond;
            &&& ack::packet_id_of(data) == if id == 0 {
                None
            } else {
                Some(id)
            }
            &&& wire::part(data, 2, body.len() - 2) == Some(after)
            &&& section.len() < body.len()
        }),
{
    let after = wire::section_bytes(section) + codes;
    let body = wire::u16_bytes(id) + wire::section_bytes(section) + codes;
    let data = body + beyond;
    wire::law_u16_round_trip(id, after + beyond);
    assert(data =~= wire::u16_bytes(id) + (after + beyond));
    assert(data.subrange(2, 2 + (body.len() - 2)) =~= after);
}

/// The body of a SUBACK or UNSUBACK, read.
proof fn lemma_list_read(id: u16, props: Seq<Prop>, codes: Seq<u8>, beyond: Seq<u8>)
    requires
        grammar::all_proper(props),
        (wire::u16_bytes(id) + wire::section_bytes(grammar::section(props)) + codes).len()
            <= 268_435_455,
    ensures
        ({
            let section = grammar::section(props);
            let body = wire::u16_bytes(id) + wire::section_bytes(section) + codes;
            let fits = {
                &&& id != 0
                &&& body.len() >= 4
                &&& sections::legal(props, sections::in_ack(), sections::user_often())
                &&& all_known(codes)
            };
            ack::list_ack_of(body.len() as u32, body + beyond) == if fits {
                Some(AckModel { packet_id: Some(id), reason_codes: codes, properties: section })
            } else {
                None
            }
        }),
{
    let section = grammar::section(props);
    lemma_list_shape(id, section, codes, beyond);
    lemma_section_taken(section, codes);
    sections::law_ack_properties(props, section);
    lemma_list_codes(section, codes);
}

/// **Law.** A SUBACK or UNSUBACK is an identifier, properties and a reason code
/// for each filter. It is accepted exactly if the identifier is not 0, the
/// properties are user properties and at most one reason string, every code is
/// one of the twelve, there is at least a byte behind the identifier and an
/// empty section, and the packet is within the client's limit. It says just
/// these parts, the codes in the order of the filters.
pub proof fn law_list_ack_is_read(
    first: u8,
    id: u16,
    props: Seq<Prop>,
    codes: Seq<u8>,
    beyond: Seq<u8>,
    limits: Limits,
)
    requires
        first == 0x90 || first == 0xB0,
        grammar::all_proper(props),
        (wire::u16_bytes(id) + wire::section_bytes(grammar::section(props)) + codes).len()
            <= 268_435_455,
        limits.max_packet_size != 0,
    ensures
        ({
            let section = grammar::section(props);
            let body = wire::u16_bytes(id) + wire::section_bytes(section) + codes;
            let read = ack::ack_of(
                PacketModel {
                    packet_type: first,
                    claimed: body.len() as u32,
                    data: body + beyond,
                },
                limits,
            );
            let fits = {
                &&& id != 0
                &&& body.len() >= 4
                &&& sections::legal(props, sections::in_ack(), sections::user_often())
                &&& all_known(codes)
                &&& packet_count(body.len() as int) <= limits.max_packet_size
            };
            read == if fits {
                Ok::<_, AckError>(
                    AckModel { packet_id: Some(id), reason_codes: codes, properties: section },
                )
            } else {
                Err(AckError::BadResponse)
            }
        }),
{
    let section = grammar::section(props);
    let body = wire::u16_bytes(id) + wire::section_bytes(section) + codes;
    lemma_packet_count(body.len() as u32);
    lemma_list_read(id, props, codes, beyond);
}

/// **Law.** A PINGRESP is two bytes, and nothing else is one; no acknowledgement
/// has another first byte.
pub proof fn law_pingresp_is_read(packet: PacketModel, limits: Limits)
    requires
        limits.max_packet_size >= 2,
    ensures
        packet.packet_type == 0xD0 ==> (ack::ack_of(packet, limits) == if packet.claimed == 0 {
            Ok::<_, AckError>(
                AckModel { packet_id: None, reason_codes: Seq::empty(), properties: Seq::empty() },
            )
        } else {
            Err(AckError::BadResponse)
        }),
        packet.packet_type != 0xD0 && !acks_publish(packet.packet_type) && packet.packet_type
            != 0x90 && packet.packet_type != 0xB0 ==> ack::ack_of(packet, limits) is Err,
{
    lemma_packet_count(0);
    assert(plain::length_count(0) == 1);
}

/// **Law.** An acknowledgement of a PUBLISH that is accepted is an identifier,
/// or that and a code, or those and properties, as it says; a SUBACK or UNSUBACK
/// that is accepted is an identifier, properties and codes, as it says.
pub proof fn law_ack_read_is_there(packet: PacketModel, limits: Limits)
    ensures
        ack::ack_of(packet, limits) matches Ok(said) ==> {
            let bytes = packet.data.take(packet.claimed as int);
            let id = wire::u16_bytes(said.packet_id->0);
            &&& acks_publish(packet.packet_type) ==> {
                &&& said.packet_id is Some && packet.claimed <= packet.data.len()
                &&& bytes == id || bytes == id + said.reason_codes || bytes == id
                    + said.reason_codes + wire::section_bytes(said.properties)
                &&& grammar::spelled(said.properties)
            }
            &&& packet.packet_type == 0x90 || packet.packet_type == 0xB0 ==> {
                &&& said.packet_id is Some && packet.claimed <= packet.data.len()
                &&& bytes == id + wire::section_bytes(said.properties) + said.reason_codes
                &&& grammar::spelled(said.properties)
            }
        },
{
    if let Ok(said) = ack::ack_of(packet, limits) {
        let data = packet.data;
        let claimed = packet.claimed as int;
        if said.packet_id is Some {
            let id = said.packet_id->0;
            assert(data.take(2) =~= wire::u16_bytes(id));
            grammar::lemma_spelled_empty(Seq::empty());
            if acks_publish(packet.packet_type) {
                if claimed == 3 {
                    assert(data.take(3) =~= wire::u16_bytes(id) + said.reason_codes);
                } else if claimed > 3 {
                    let after = data.subrange(3, claimed);
                    lemma_section_back(after);
                    let behind = (wire::take_length(after)->0).1;
                    assert(behind.take(behind.len() as int) =~= behind);
                    assert(behind.skip(behind.len() as int) =~= Seq::empty());
                    assert(after =~= wire::section_bytes(said.properties));
                    assert(data.take(claimed) =~= wire::u16_bytes(id) + said.reason_codes + after);
                    sections::law_ack_properties(Seq::empty(), said.properties);
                }
            } else if packet.packet_type == 0x90 || packet.packet_type == 0xB0 {
                let after = data.subrange(2, claimed);
                lemma_section_back(after);
                assert(data.take(claimed) =~= wire::u16_bytes(id) + after);
                assert(data.take(claimed) =~= wire::u16_bytes(id) + wire::section_bytes(
                    said.properties,
                ) + said.reason_codes);
                sections::law_ack_properties(Seq::empty(), said.properties);
            }
        }
    }
}

// ---------------------------------------------------------------------------
// DISCONNECT
// ---------------------------------------------------------------------------

/// The reason codes of a DISCONNECT from a broker.
pub open spec fn disconnect_codes() -> Set<u8> {
    set![
        0x00, 0x80, 0x81, 0x82, 0x83, 0x87, 0x89, 0x8B, 0x8C, 0x8D, 0x8E, 0x8F, 0x90, 0x93, 0x94,
        0x95, 0x96, 0x97, 0x98, 0x99, 0x9A, 0x9B, 0x9C, 0x9D, 0x9E, 0xA0, 0xA1, 0xA2,
    ]
}

/// The reason codes of a DISCONNECT from a client.
pub open spec fn sent_disconnect_codes() -> Set<u8> {
    set![0x00, 0x04, 0x80, 0x81, 0x82, 0x83, 0x90, 0x93, 0x94, 0x95, 0x96, 0x97, 0x98, 0x99]
}

/// **Law.** A client may disconnect with these codes and no others.
pub proof fn law_disconnect_codes(code: u8)
    ensures
        disconnect::disconnect_code(code, false) == sent_disconnect_codes().contains(code),
        disconnect::disconnect_code(code, true) == disconnect_codes().contains(code),
{
}

/// **Law.** A DISCONNECT is empty; or a reason code; or a code and properties.
/// It is accepted exactly if the code is one a broker may give, the properties
/// are user properties, at most one reason string and at most one server
/// reference, and the packet is within the client's limit. It says just these
/// parts.
pub proof fn law_disconnect_is_read(
    first: u8,
    code: u8,
    props: Seq<Prop>,
    beyond: Seq<u8>,
    max_packet_size: u32,
)
    requires
        grammar::all_proper(props),
        grammar::section(props).len() <= 200_000_000,
        max_packet_size != 0,
    ensures
        ({
            let section = grammar::section(props);
            let full = seq![code] + wire::section_bytes(section);
            let read_empty = disconnect::disconnect_of(
                PacketModel { packet_type: first, claimed: 0, data: beyond },
                max_packet_size,
            );
            let read_coded = disconnect::disconnect_of(
                PacketModel { packet_type: first, claimed: 1, data: seq![code] + beyond },
                max_packet_size,
            );
            let read_full = disconnect::disconnect_of(
                PacketModel {
                    packet_type: first,
                    claimed: full.len() as u32,
                    data: full + beyond,
                },
                max_packet_size,
            );
            let known = disconnect_codes().contains(code);
            let fits = sections::legal(props, sections::in_disconnect(), sections::user_often());
            &&& read_empty == if max_packet_size >= 2 {
                Ok::<_, DisconnectError>(
                    DisconnectModel { reason_code: None, properties: Seq::empty() },
                )
            } else {
                Err(DisconnectError::BadResponse)
            }
            &&& read_coded == if known && max_packet_size >= 3 {
                Ok::<_, DisconnectError>(
                    DisconnectModel { reason_code: Some(code), properties: Seq::empty() },
                )
            } else {
                Err(DisconnectError::BadResponse)
            }
            &&& read_full == if known && fits && packet_count(full.len() as int)
                <= max_packet_size {
                Ok::<_, DisconnectError>(
                    DisconnectModel { reason_code: Some(code), properties: section },
                )
            } else {
                Err(DisconnectError::BadResponse)
            }
        }),
{
    let section = grammar::section(props);
    let after = wire::section_bytes(section);
    let full = seq![code] + after;
    let n = full.len() as u32;
    wire::lemma_length_bytes_len(section.len());
    lemma_packet_count(0);
    lemma_packet_count(1);
    lemma_packet_count(n);
    assert(plain::length_count(0) == 1 && plain::length_count(1) == 1);
    law_disconnect_codes(code);
    assert((full + beyond).subrange(1, 1 + (n - 1)) =~= after);
    lemma_section_taken(section, Seq::empty());
    assert(after + Seq::<u8>::empty() =~= after);
    assert(section + Seq::<u8>::empty() =~= section);
    sections::law_disconnect_properties(props, section);
}

/// **Law.** A DISCONNECT that is accepted is nothing, a code, or a code and
/// properties, as it says.
pub proof fn law_disconnect_read_is_there(packet: PacketModel, max_packet_size: u32)
    ensures
        disconnect::disconnect_of(packet, max_packet_size) matches Ok(said) ==> {
            let bytes = packet.data.take(packet.claimed as int);
            &&& packet.claimed <= packet.data.len()
            &&& said.reason_code is None ==> bytes == Seq::<u8>::empty() && said.properties.len()
                == 0
            &&& said.reason_code matches Some(code) ==> bytes == seq![code] || bytes == seq![code]
                + wire::section_bytes(said.properties)
            &&& grammar::spelled(said.properties)
        },
{
    if let Ok(said) = disconnect::disconnect_of(packet, max_packet_size) {
        let data = packet.data;
        let claimed = packet.claimed as int;
        grammar::lemma_spelled_empty(Seq::empty());
        if claimed == 0 {
            assert(data.take(0) =~= Seq::empty());
        } else if claimed == 1 {
            assert(data.take(1) =~= seq![data[0]]);
        } else {
            let after = data.subrange(1, claimed);
            lemma_section_back(after);
            let behind = (wire::take_length(after)->0).1;
            assert(behind.take(behind.len() as int) =~= behind);
            assert(behind.skip(behind.len() as int) =~= Seq::empty());
            assert(after =~= wire::section_bytes(said.properties));
            assert(data.take(claimed) =~= seq![data[0]] + after);
            sections::law_disconnect_properties(Seq::empty(), said.properties);
        }
    }
}

// ---------------------------------------------------------------------------
// The fixed header
// ---------------------------------------------------------------------------

/// The first bytes of packets that a broker sends, by packet type and flags.
pub open spec fn from_broker(first: u8) -> bool {
    match first / 16 {
        2 | 3 | 4 | 5 | 7 | 9 | 11 | 13 | 14 | 15 => true,
        6 => plain::bit(first, 2),
        _ => false,
    }
}

/// **Law.** A first byte that a broker may send and a length behind it are a
/// header: it says that byte and that length, and how many bytes they took.
/// Nothing is known as long as no byte, or not all of the length, has come.
/// Another first byte is refused, and so are four length bytes that each say
/// that another follows, and a length with a useless last byte.
pub proof fn law_header_is_read(first: u8, n: u32, rest: Seq<u8>, partial: Seq<u8>)
    requires
        n <= 268_435_455,
        forall|i: int| 0 <= i < partial.len() ==> #[trigger] partial[i] >= 128,
    ensures
        header::header_of(Seq::empty()) == Err::<PacketHeader, _>(HeaderError::NoDataAvailable),
        header::header_of(seq![first] + wire::length_bytes(n as nat) + rest) == if from_broker(
            first,
        ) {
            Ok::<_, HeaderError>(
                PacketHeader {
                    packet_type: first,
                    remaining_length: n,
                    header_length: (1 + plain::length_count(n as int)) as usize,
                },
            )
        } else {
            Err(HeaderError::BadResponse)
        },
        from_broker(first) && partial.len() < 4 ==> header::header_of(seq![first] + partial) == Err::<
            PacketHeader,
            _,
        >(HeaderError::NeedMoreBytes),
        from_broker(first) && partial.len() >= 4 ==> header::header_of(seq![first] + partial) == Err::<
            PacketHeader,
            _,
        >(HeaderError::BadResponse),
        from_broker(first) && 1 <= partial.len() <= 3 ==> header::header_of(
            seq![first] + partial + seq![0u8] + rest,
        ) == Err::<PacketHeader, _>(HeaderError::BadResponse),
{
    let whole = seq![first] + wire::length_bytes(n as nat) + rest;
    assert(whole.skip(1) =~= wire::length_bytes(n as nat) + rest);
    wire::law_length_round_trip(n, rest);
    plain::lemma_length_count(n as int);
    assert((seq![first] + partial).skip(1) =~= partial);
    let useless = partial + seq![0u8] + rest;
    assert((seq![first] + partial + seq![0u8] + rest).skip(1) =~= useless);
    assert(useless[partial.len() as int] == 0);
    assert forall|i: int| 0 <= i < partial.len() implies useless[i] == partial[i] by {}
    if partial.len() >= 1 {
        assert(useless[0] == partial[0]);
    }
    if partial.len() >= 2 {
        assert(useless[1] == partial[1]);
    }
    if partial.len() >= 3 {
        assert(useless[2] == partial[2]);
    }
}

} // verus!
