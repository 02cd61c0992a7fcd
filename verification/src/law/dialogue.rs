//! What is answered to what arrives, who is told of it, and what is kept.

use vstd::prelude::*;

use crate::ack::{AckError, AckModel, Limits, PacketModel};
use crate::client::send;
use crate::client::send::SendOutcome;
use crate::client::{ClientError, ConnectionStatus, ContextModel, Keeping, Moment};
use crate::disconnect;
use crate::header;
use crate::law::grammar;
use crate::law::grammar::Prop;
use crate::law::incoming as reading;
use crate::law::messages;
use crate::law::outgoing;
use crate::law::plain;
use crate::law::records;
use crate::law::sections;
use crate::law::transport;
use crate::loop_::answer;
use crate::loop_::answer::Reply;
use crate::loop_::incoming;
use crate::loop_::incoming::Scene;
use crate::outbound;
use crate::session::resume;
use crate::state;
use crate::state::{AckType, Operation, PublishState, QoS, Record, RecordsModel, StateError};
use crate::wire;
use crate::writer;

verus! {

/// The first byte of the acknowledgement that a state asks for; 0 if it asks for
/// none.
pub open spec fn asks_for(state: PublishState) -> u8 {
    match state {
        PublishState::PubAckSend => 0x40,
        PublishState::PubRecSend => 0x50,
        PublishState::PubRelSend => 0x62,
        PublishState::PubCompSend => 0x70,
        _ => 0x00,
    }
}

/// The acknowledgement with a first byte.
pub open spec fn kind_of(first: u8) -> Option<AckType> {
    match first {
        0x40 => Some(AckType::PubAck),
        0x50 => Some(AckType::PubRec),
        0x62 => Some(AckType::PubRel),
        0x70 => Some(AckType::PubComp),
        _ => None,
    }
}

/// The bytes are an acknowledgement: of four bytes, or with a code and
/// properties.
pub open spec fn says_ack(
    s: Seq<u8>,
    first: u8,
    packet_id: u16,
    code: Option<u8>,
    properties: Seq<u8>,
) -> bool {
    match code {
        None => s.len() == 4 && s[0] == first && s[1] == 2 && plain::number_at(s, 2) == packet_id,
        Some(code) => {
            let body = outgoing::body_of(s);
            &&& outgoing::is_packet(s, first)
            &&& plain::number_at(s, body) == packet_id
            &&& s[body + 2] == code
            &&& plain::section_at(s, body + 3) == properties
            &&& plain::section_end(s, body + 3) == s.len()
        },
    }
}

proof fn lemma_simple_ack(first: u8, packet_id: u16)
    ensures
        says_ack(outbound::simple_ack_bytes(first, packet_id), first, packet_id, None, Seq::empty()),
        seq![outbound::simple_ack_bytes(first, packet_id)].flatten() == outbound::simple_ack_bytes(
            first,
            packet_id,
        ),
{
    let s = outbound::simple_ack_bytes(first, packet_id);
    plain::lemma_number(seq![first, 2u8], packet_id, Seq::empty());
    assert(s =~= seq![first, 2u8] + wire::u16_bytes(packet_id) + Seq::<u8>::empty());
    seq![s].lemma_flatten_one_element();
}

proof fn lemma_full_ack(first: u8, packet_id: u16, code: u8, properties: Seq<u8>)
    requires
        properties.len() <= 268_435_455,
    ensures
        says_ack(
            answer::full_ack_parts(first, packet_id, code, properties).flatten(),
            first,
            packet_id,
            Some(code),
            properties,
        ),
        answer::full_ack_parts(first, packet_id, code, properties).flatten().len()
            <= properties.len() + 13,
{
    let n = crate::size::ack_body_size(properties.len() as int) as nat;
    let head = seq![first] + wire::length_bytes(n);
    let section = wire::section_bytes(properties);
    let body = wire::u16_bytes(packet_id) + seq![code] + section;
    let s = answer::full_ack_parts(first, packet_id, code, properties).flatten();
    wire::lemma_length_bytes_len(properties.len());
    wire::lemma_length_bytes_len(n);
    lemma_parts_join(first, packet_id, code, properties);
    assert(s =~= head + body);
    outgoing::lemma_is_packet(first, n, body);
    plain::lemma_number(head, packet_id, seq![code] + section);
    assert(s =~= head + wire::u16_bytes(packet_id) + (seq![code] + section));
    let front = head + wire::u16_bytes(packet_id) + seq![code];
    plain::lemma_section(front, properties, Seq::empty());
    assert(s =~= front + section + Seq::<u8>::empty());
    assert(s[head.len() as int + 2] == code);
}

proof fn lemma_parts_join(first: u8, packet_id: u16, code: u8, properties: Seq<u8>)
    ensures
        answer::full_ack_parts(first, packet_id, code, properties).flatten() == writer::fixed_bytes(
            first,
            crate::size::ack_body_size(properties.len() as int) as u32,
            wire::u16_bytes(packet_id).push(code),
        ) + wire::section_bytes(properties),
{
    let parts = answer::full_ack_parts(first, packet_id, code, properties);
    let one = seq![parts[0]];
    let two = one.push(parts[1]);
    one.lemma_flatten_one_element();
    one.lemma_flatten_push(parts[1]);
    two.lemma_flatten_push(properties);
    if properties.len() == 0 {
        assert(parts =~= two);
    } else {
        assert(parts =~= two.push(properties));
    }
    assert(parts.flatten() =~= parts[0] + wire::length_bytes(properties.len()) + properties);
}

/// The store was asked for nothing, or to keep one packet under a key, made of
/// parts that join to these bytes.
pub open spec fn keeps(
    before: Option<Seq<Keeping>>,
    after: Option<Seq<Keeping>>,
    key: int,
    whole: Seq<u8>,
) -> bool {
    match (before, after) {
        (Some(before), Some(after)) => {
            &&& after.len() == before.len() + 1
            &&& after.drop_last() == before
            &&& after.last() matches Keeping::Store { key: under, parts, kept } && under == key
                && parts.flatten() == whole && kept
        },
        _ => before is None && after is None,
    }
}

/// **Law.** An acknowledgement that was sent is the one that the state asks for,
/// of that identifier: four bytes where the application had nothing to say, and
/// otherwise its code and the properties it left. A PUBREC and a PUBREL are kept
/// before they go out, whole, under the identifier and 65,536; a PUBACK and a
/// PUBCOMP are not. The step of the handshake is then taken. A state that asks
/// for none sends none.
pub proof fn law_answer(
    before: Moment,
    after: Moment,
    kept_before: Option<Seq<Keeping>>,
    kept_after: Option<Seq<Keeping>>,
    packet_id: u16,
    state: PublishState,
    reply: Reply,
    result: Result<(), ClientError>,
)
    requires
        answer::ack_sent(
            before,
            after,
            kept_before,
            kept_after,
            packet_id,
            state,
            reply,
            result,
        ),
        result is Ok,
        transport::honest(after.wire.skip(before.wire.len() as int)),
    ensures
        ({
            let first = asks_for(state);
            let taken = transport::all_taken(after.wire.skip(before.wire.len() as int));
            let bare = reply.reason_code is None && reply.property_length == 0;
            &&& first == 0 ==> after.wire == before.wire && kept_after == kept_before
            &&& first != 0 ==> {
                &&& before.context.status is Connected
                &&& bare ==> says_ack(taken, first, packet_id, None, Seq::empty())
                &&& !bare ==> reply.reason_code is Some && says_ack(
                    taken,
                    first,
                    packet_id,
                    reply.reason_code,
                    before.context.ack_properties.take(reply.property_length as int),
                )
                &&& first == 0x40 || first == 0x70 ==> kept_after == kept_before
                &&& first == 0x50 || first == 0x62 ==> keeps(
                    kept_before,
                    kept_after,
                    packet_id + 65_536,
                    taken,
                )
                &&& reply.property_length > 0 ==> after.context.ack_used == 0
                &&& before.context.records matches Some(records) ==> {
                    let (step, then) = records.after_ack(
                        packet_id,
                        kind_of(first)->0,
                        Operation::Send,
                    );
                    step is Ok && after.context.records == Some(then)
                }
            }
        }),
{
    let first = asks_for(state);
    let bare = reply.reason_code is None && reply.property_length == 0;
    if first != 0 {
        let start = if bare {
            before
        } else {
            Moment {
                context: answer::properties_spent(before.context, reply.property_length),
                ..before
            }
        };
        let code = reply.reason_code->0;
        let properties = before.context.ack_properties.take(reply.property_length as int);
        let parts = if bare {
            seq![outbound::simple_ack_bytes(first, packet_id)]
        } else {
            answer::full_ack_parts(first, packet_id, code, properties)
        };
        let whole = parts.flatten();
        let gather = !bare;
        if bare {
            lemma_simple_ack(first, packet_id);
        } else {
            wire::lemma_length_bytes_len(properties.len());
            assert(crate::size::ack_body_size(reply.property_length as int) <= 268_435_455);
            assert(properties.len() == reply.property_length);
            lemma_full_ack(first, packet_id, code, properties);
        }
        assert(answer::ack_posted(
            start,
            after,
            kept_before,
            kept_after,
            first,
            packet_id,
            parts,
            gather,
            result,
        ));
        let (sent, outcome) = choose|sent: Moment, outcome: SendOutcome| #[trigger]
            send::sending(start, sent, whole, gather, outcome) && if outcome == SendOutcome::Sent(
                whole.len() as usize,
            ) {
                let (noted, context) = resume::ack_noted(
                    sent.context,
                    packet_id,
                    resume::ack_meant(first)->0,
                );
                result == noted && after == (Moment { context, ..sent })
            } else {
                result == Err::<(), ClientError>(ClientError::SendFailed) && after == sent
            };
        assert(whole.len() <= 300_000_000);
        let count = whole.len() as usize;
        assert(outcome == SendOutcome::Sent(count));
        transport::law_sent_is_taken(start, sent, whole, gather, count);
        transport::law_send_is_given_up(start, sent, whole, gather, outcome);
        let taken = transport::all_taken(after.wire.skip(before.wire.len() as int));
        assert(taken == whole);
        if (first == 0x50 || first == 0x62) && kept_before is Some {
            assert(kept_after->0.drop_last() =~= kept_before->0);
            assert(keeps(kept_before, kept_after, packet_id + 65_536, taken));
        }
        assert(before.context.status is Connected);
    }
}


// ---------------------------------------------------------------------------
// A packet at the front
// ---------------------------------------------------------------------------

/// A packet with this first byte and body is at the front of what has arrived.
pub open spec fn in_front(context: ContextModel, first: u8, body: Seq<u8>, total: usize) -> bool {
    let whole = seq![first] + wire::length_bytes(body.len()) + body;
    &&& body.len() <= 268_435_455
    &&& total == whole.len()
    &&& total <= context.index
    &&& total <= context.network.len()
    &&& context.network.take(total as int) == whole
}

proof fn lemma_seen(context: ContextModel, first: u8, body: Seq<u8>, total: usize)
    requires
        in_front(context, first, body, total),
        reading::from_broker(first),
    ensures
        incoming::packet_seen(context.network, context.index, total) == Some(
            PacketModel { packet_type: first, claimed: body.len() as u32, data: body },
        ),
        context.network.len() > 0,
        context.network[0] == first,
{
    let n = body.len() as u32;
    let here = header::arrived_of(context.network, context.index);
    let whole = seq![first] + wire::length_bytes(body.len()) + body;
    let beyond = here.skip(total as int);
    let network = context.network;
    assert forall|i: int| 0 <= i < total implies here[i] == whole[i] by {
        assert(network.take(total as int)[i] == network[i]);
    }
    assert(here =~= seq![first] + wire::length_bytes(n as nat) + (body + beyond));
    reading::law_header_is_read(first, n, body + beyond, Seq::empty());
    plain::lemma_length(seq![first], body.len(), body);
    let start = 1 + plain::length_count(n as int);
    assert forall|i: int| 0 <= i < body.len() implies network[start + i] == body[i] by {
        assert(network.take(total as int)[start + i] == network[start + i]);
        assert(whole[start + i] == body[i]);
    }
    assert(network.subrange(start, total as int) =~= body);
    assert(network[0] == network.take(total as int)[0]);
}

/// The application was told of one thing more, and offered the room for an
/// answer as it stood, with nothing said in it yet.
pub open spec fn told_once(before: Scene, after: Scene) -> bool {
    let offered = after.told.last().offered;
    &&& after.told.len() == before.told.len() + 1
    &&& after.told.drop_last() == before.told
    &&& offered.properties == before.moment.context.ack_properties
    &&& offered.used == before.moment.context.ack_used
    &&& offered.reason_code is None
}

/// What the application says in an answer, if it says anything.
pub open spec fn reply_of(code: Option<u8>, used: usize) -> Reply {
    Reply { reason_code: code, property_length: used }
}

/// The bytes are an acknowledgement that says what the application said when it
/// was told, if it was: nothing, or its code and as much of the properties as it
/// used.
pub open spec fn answers(before: Scene, after: Scene, s: Seq<u8>, first: u8, id: u16) -> bool {
    let reply = after.told.last().reply;
    if after.told == before.told || (reply.reason_code is None && reply.used == 0) {
        says_ack(s, first, id, None, Seq::empty())
    } else {
        reply.reason_code is Some && says_ack(
            s,
            first,
            id,
            reply.reason_code,
            reply.properties.take(reply.used as int),
        )
    }
}

/// **Law.** A message at QoS 0 that is in order is told to the application, with
/// all its parts, and nothing is answered, kept or noted. The result is the
/// application's.
pub proof fn law_message_at_most_once(
    before: Scene,
    after: Scene,
    total: usize,
    manage: bool,
    result: Result<(), ClientError>,
    first: u8,
    topic: Seq<u8>,
    props: Seq<Prop>,
    payload: Seq<u8>,
)
    requires
        grammar::all_proper(props),
        topic.len() <= 65_535,
        0x30 <= first <= 0x3F,
        first / 2 % 4 == 0,
        in_front(
            before.moment.context,
            first,
            reading::message(topic, None, grammar::section(props), payload),
            total,
        ),
        reading::message(topic, None, grammar::section(props), payload).len() >= 4,
        total <= before.moment.context.properties.client.max_packet_size,
        sections::legal(
            props,
            sections::in_message(before.moment.context.properties.client.topic_alias_max),
            sections::message_often(),
        ),
        incoming::packet_handled(before, after, total, manage, result),
    ensures
        told_once(before, after),
        ({
            let told = after.told.last();
            &&& told.event.packet_type == first
            &&& told.event.packet_id == 0
            &&& told.event.properties == grammar::section(props)
            &&& told.event.reason_codes.len() == 0
            &&& told.event.publish matches Some(publish) && {
                &&& publish.topic_name == topic
                &&& publish.payload == payload
                &&& publish.packet_id is None
                &&& outgoing::level(publish.qos) == 0
                &&& publish.dup == plain::bit(first, 8)
                &&& publish.retain == plain::bit(first, 1)
            }
            &&& !told.offered.wants_reply
            &&& result == if told.accepted {
                Ok::<(), ClientError>(())
            } else {
                Err(ClientError::EventCallbackFailed)
            }
        }),
        after.moment.wire == before.moment.wire,
        after.kept == before.kept,
        after.moment.context.records == before.moment.context.records,
{
    reveal(incoming::packet_handled);
    let context = before.moment.context;
    let body = reading::message(topic, None, grammar::section(props), payload);
    lemma_seen(context, first, body, total);
    lemma_message(first, topic, None, props, payload, context, total);
}

proof fn lemma_message(
    first: u8,
    topic: Seq<u8>,
    id: Option<u16>,
    props: Seq<Prop>,
    payload: Seq<u8>,
    context: ContextModel,
    total: usize,
)
    requires
        grammar::all_proper(props),
        topic.len() <= 65_535,
        0x30 <= first <= 0x3F,
        first / 2 % 4 != 3,
        id is None <==> first / 2 % 4 == 0,
        id != Some(0u16),
        in_front(
            context,
            first,
            reading::message(topic, id, grammar::section(props), payload),
            total,
        ),
        reading::message(topic, id, grammar::section(props), payload).len() >= 4
            + reading::outgoing_id_count(id),
        total <= context.properties.client.max_packet_size,
        sections::legal(
            props,
            sections::in_message(context.properties.client.topic_alias_max),
            sections::message_often(),
        ),
    ensures
        ({
            let body = reading::message(topic, id, grammar::section(props), payload);
            let read = crate::publish::publish_of(
                PacketModel { packet_type: first, claimed: body.len() as u32, data: body },
                context.properties.client.max_packet_size,
                context.properties.client.topic_alias_max,
            );
            &&& read matches Ok(said) && {
                &&& outgoing::level(said.qos) == first / 2 % 4
                &&& said.dup == plain::bit(first, 8)
                &&& said.retain == plain::bit(first, 1)
                &&& said.packet_id == id
                &&& said.topic_name == topic
                &&& said.properties == grammar::section(props)
                &&& said.payload == payload
            }
        }),
{
    let body = reading::message(topic, id, grammar::section(props), payload);
    reading::law_message_is_read(
        first,
        topic,
        id,
        props,
        payload,
        Seq::empty(),
        context.properties.client.max_packet_size,
        context.properties.client.topic_alias_max,
    );
    assert(body + Seq::<u8>::empty() =~= body);
    plain::lemma_length(seq![first], body.len(), body);
    assert(total == reading::packet_count(body.len() as int));
}

/// **Law.** A message at QoS 1 or 2 that is in order is told to the application
/// with all its parts, unless it is one at QoS 2 that was told before and whose
/// handshake still goes on: that one is not told again. If the application
/// accepts it, it is answered, the second time as well as the first: with a
/// PUBACK at QoS 1, with a PUBREC at QoS 2, which is kept. If not, nothing is
/// answered.
pub proof fn law_message_is_answered(
    before: Scene,
    after: Scene,
    total: usize,
    manage: bool,
    result: Result<(), ClientError>,
    first: u8,
    topic: Seq<u8>,
    id: u16,
    props: Seq<Prop>,
    payload: Seq<u8>,
    records: RecordsModel,
)
    requires
        grammar::all_proper(props),
        topic.len() <= 65_535,
        0x30 <= first <= 0x3F,
        first / 2 % 4 == 1 || first / 2 % 4 == 2,
        id != 0,
        in_front(
            before.moment.context,
            first,
            reading::message(topic, Some(id), grammar::section(props), payload),
            total,
        ),
        reading::message(topic, Some(id), grammar::section(props), payload).len() >= 6,
        total <= before.moment.context.properties.client.max_packet_size,
        sections::legal(
            props,
            sections::in_message(before.moment.context.properties.client.topic_alias_max),
            sections::message_often(),
        ),
        before.moment.context.records == Some(records),
        incoming::packet_handled(before, after, total, manage, result),
        after.told.len() == before.told.len() ==> before.moment.context.ack_used == 0,
        result is Ok,
        transport::honest(after.moment.wire.skip(before.moment.wire.len() as int)),
    ensures
        ({
            let again = records::holds_id(records.incoming, id);
            let taken = transport::all_taken(
                after.moment.wire.skip(before.moment.wire.len() as int),
            );
            let told = after.told.last();
            &&& again && first / 2 % 4 == 2 <==> after.told == before.told
            &&& !(again && first / 2 % 4 == 2) ==> {
                &&& told_once(before, after)
                &&& told.accepted
                &&& told.offered.wants_reply
                &&& told.event.packet_type == first
                &&& told.event.packet_id == id
                &&& told.event.properties == grammar::section(props)
                &&& told.event.publish matches Some(publish) && {
                    &&& publish.topic_name == topic
                    &&& publish.payload == payload
                    &&& publish.packet_id == Some(id)
                    &&& outgoing::level(publish.qos) == first / 2 % 4
                    &&& publish.dup == plain::bit(first, 8)
                    &&& publish.retain == plain::bit(first, 1)
                }
            }
            &&& first / 2 % 4 == 1 ==> answers(before, after, taken, 0x40, id) && after.kept
                == before.kept
            &&& first / 2 % 4 == 2 ==> answers(before, after, taken, 0x50, id) && keeps(
                before.kept,
                after.kept,
                id + 65_536,
                taken,
            )
        }),
{
    reveal(incoming::packet_handled);
    let context = before.moment.context;
    let body = reading::message(topic, Some(id), grammar::section(props), payload);
    lemma_seen(context, first, body, total);
    lemma_message(first, topic, Some(id), props, payload, context, total);
    let (plan, then) = incoming::publish_plan(context, total);
    lemma_collision(records, id, plan->Ok_0.qos);
    assert(plan is Ok);
    let plan = plan->Ok_0;
    let state = if first / 2 % 4 == 1 {
        PublishState::PubAckSend
    } else {
        PublishState::PubRecSend
    };
    assert(plan.ack_state == state);
    let start = if plan.tell {
        incoming::after_telling(then, after.told.last())
    } else {
        then
    };
    let moment = Moment { context: start, ..before.moment };
    law_answer(
        moment,
        after.moment,
        before.kept,
        after.kept,
        id,
        state,
        if plan.tell {
            reply_of(after.told.last().reply.reason_code, start.ack_used)
        } else {
            reply_of(None, 0)
        },
        result,
    );
}

proof fn lemma_collision(records: RecordsModel, id: u16, qos: QoS)
    requires
        id != 0,
        outgoing::level(qos) != 0,
    ensures
        ({
            let (result, after) = records.after_publish(id, Operation::Receive, qos);
            let state = if outgoing::level(qos) == 1 {
                PublishState::PubAckSend
            } else {
                PublishState::PubRecSend
            };
            &&& result matches Ok(new) ==> new == state
            &&& result == Err::<PublishState, StateError>(
                StateError::StateCollision,
            ) <==> records::holds_id(records.incoming, id)
        }),
{
    let record = Record {
        packet_id: id,
        qos,
        state: state::state_after_publish(Operation::Receive, qos),
    };
    records::law_added(records.incoming, record);
}

/// What acknowledgements are checked against: what this client announced.
pub open spec fn announced(context: ContextModel) -> Limits {
    Limits {
        max_packet_size: context.properties.client.max_packet_size,
        request_problem_info: context.properties.client.request_problem_info,
    }
}

/// The key of what an acknowledgement makes needless: the publish, under its
/// identifier, or the acknowledgement before it, 65,536 further on.
pub open spec fn needless(first: u8, id: u16) -> int {
    if first == 0x40 || first == 0x50 {
        id as int
    } else {
        id + 65_536
    }
}

/// **Law.** An acknowledgement of a publish that is in order and may come where
/// the handshake stands takes it a step on. What is now needless is forgotten,
/// before anything else is kept; the application is told of the packet, its
/// identifier, its codes and its properties. If it accepts, a PUBREC is answered
/// with a PUBREL, which is kept, and a PUBREL with a PUBCOMP, which is not;
/// nothing is answered to a PUBACK or a PUBCOMP.
pub proof fn law_ack_is_answered(
    before: Scene,
    after: Scene,
    total: usize,
    manage: bool,
    result: Result<(), ClientError>,
    first: u8,
    body: Seq<u8>,
    info: AckModel,
    id: u16,
    records: RecordsModel,
)
    requires
        reading::acks_publish(first),
        in_front(before.moment.context, first, body, total),
        crate::ack::ack_of(
            PacketModel { packet_type: first, claimed: body.len() as u32, data: body },
            announced(before.moment.context),
        ) == Ok::<_, AckError>(info),
        info.packet_id == Some(id),
        before.moment.context.records == Some(records),
        records.after_ack(id, kind_of(first)->0, Operation::Receive).0 is Ok,
        records.apart(),
        incoming::packet_handled(before, after, total, manage, result),
        transport::honest(after.moment.wire.skip(before.moment.wire.len() as int)),
    ensures
        told_once(before, after),
        ({
            let told = after.told.last();
            let taken = transport::all_taken(
                after.moment.wire.skip(before.moment.wire.len() as int),
            );
            let then = records.after_ack(id, kind_of(first)->0, Operation::Receive).1;
            let forgot = match before.kept {
                Some(kept) => Some(kept.push(Keeping::Clear { key: needless(first, id) as u32 })),
                None => None,
            };
            &&& told.event.packet_type == first
            &&& told.event.packet_id == id
            &&& told.event.publish is None
            &&& told.event.reason_codes == info.reason_codes
            &&& told.event.properties == info.properties
            &&& told.offered.wants_reply == (first == 0x50 || first == 0x62)
            &&& !told.accepted ==> result == Err::<(), _>(ClientError::EventCallbackFailed)
            &&& !told.accepted || first == 0x40 || first == 0x70 ==> {
                &&& after.moment.wire == before.moment.wire
                &&& after.kept == forgot
                &&& after.moment.context.records == Some(then)
                &&& told.reply.used < 268_435_456 ==> (result is Ok <==> told.accepted)
            }
            &&& told.accepted && first == 0x50 && result is Ok ==> answers(
                before,
                after,
                taken,
                0x62,
                id,
            ) && keeps(forgot, after.kept, id + 65_536, taken)
            &&& told.accepted && first == 0x62 && result is Ok ==> answers(
                before,
                after,
                taken,
                0x70,
                id,
            ) && after.kept == forgot
        }),
{
    reveal(incoming::packet_handled);
    let context = before.moment.context;
    lemma_seen(context, first, body, total);
    let (plan, then) = incoming::ack_plan(context, total);
    let plan = plan->Ok_0;
    let start = incoming::after_telling(then, after.told.last());
    let moment = Moment { context: start, ..before.moment };
    let forgot = incoming::cleared(before.kept, incoming::cleared_key(plan.ack, id));
    if after.told.last().accepted && (first == 0x50 || first == 0x62) && result is Ok {
        let state = plan.ack_state;
        lemma_step_state(records, id, first);
        law_answer(
            moment,
            after.moment,
            forgot,
            after.kept,
            id,
            state,
            reply_of(after.told.last().reply.reason_code, start.ack_used),
            result,
        );
    }
}

proof fn lemma_step_state(records: RecordsModel, id: u16, first: u8)
    requires
        first == 0x50 || first == 0x62,
        records.after_ack(id, kind_of(first)->0, Operation::Receive).0 is Ok,
        records.apart(),
    ensures
        records.after_ack(id, kind_of(first)->0, Operation::Receive).0 == Ok::<_, StateError>(
            if first == 0x50 {
                PublishState::PubRelSend
            } else {
                PublishState::PubCompSend
            },
        ),
{
}

/// **Law.** An acknowledgement that may not come where the handshake stands is
/// told to nobody and answered with nothing, and the reason is handed back.
pub proof fn law_ack_out_of_place(
    before: Scene,
    after: Scene,
    total: usize,
    manage: bool,
    result: Result<(), ClientError>,
    first: u8,
    body: Seq<u8>,
    info: AckModel,
    id: u16,
    records: RecordsModel,
    error: StateError,
)
    requires
        reading::acks_publish(first),
        in_front(before.moment.context, first, body, total),
        crate::ack::ack_of(
            PacketModel { packet_type: first, claimed: body.len() as u32, data: body },
            announced(before.moment.context),
        ) == Ok::<_, AckError>(info),
        info.packet_id == Some(id),
        before.moment.context.records == Some(records),
        records.after_ack(id, kind_of(first)->0, Operation::Receive).0 == Err::<
            PublishState,
            StateError,
        >(error),
        incoming::packet_handled(before, after, total, manage, result),
    ensures
        result == Err::<(), _>(ClientError::State(error)),
        after.told == before.told,
        after.kept == before.kept,
        after.moment.wire == before.moment.wire,
{
    reveal(incoming::packet_handled);
    lemma_seen(before.moment.context, first, body, total);
}

/// **Law.** The application is told of a SUBACK and an UNSUBACK: of the
/// identifier, every code and the properties. Nothing is answered, and the
/// result is the application's.
pub proof fn law_list_ack_is_told(
    before: Scene,
    after: Scene,
    total: usize,
    manage: bool,
    result: Result<(), ClientError>,
    first: u8,
    body: Seq<u8>,
    info: AckModel,
)
    requires
        first == 0x90 || first == 0xB0,
        in_front(before.moment.context, first, body, total),
        crate::ack::ack_of(
            PacketModel { packet_type: first, claimed: body.len() as u32, data: body },
            announced(before.moment.context),
        ) == Ok::<_, AckError>(info),
        info.packet_id is Some,
        incoming::packet_handled(before, after, total, manage, result),
    ensures
        told_once(before, after),
        ({
            let told = after.told.last();
            &&& told.event.packet_type == first
            &&& Some(told.event.packet_id) == info.packet_id
            &&& told.event.publish is None
            &&& told.event.reason_codes == info.reason_codes
            &&& told.event.properties == info.properties
            &&& !told.offered.wants_reply
            &&& result == if told.accepted {
                Ok::<(), ClientError>(())
            } else {
                Err(ClientError::EventCallbackFailed)
            }
        }),
        after.moment.wire == before.moment.wire,
        after.kept == before.kept,
        after.moment.context.records == before.moment.context.records,
{
    reveal(incoming::packet_handled);
    lemma_seen(before.moment.context, first, body, total);
}

/// **Law.** After a DISCONNECT there is no connection. The application is told
/// of one that can be read: of its code, if it has one, and its properties. One
/// that cannot is told to nobody, and answered with a DISCONNECT that says that
/// the packet was malformed, if that can be sent.
pub proof fn law_disconnect_is_handled(
    before: Scene,
    after: Scene,
    total: usize,
    manage: bool,
    result: Result<(), ClientError>,
    body: Seq<u8>,
)
    requires
        in_front(before.moment.context, 0xE0, body, total),
        incoming::packet_handled(before, after, total, manage, result),
    ensures
        after.moment.context.status is NotConnected,
        after.kept == before.kept,
        after.moment.context.records == before.moment.context.records,
        ({
            let read = disconnect::disconnect_of(
                PacketModel { packet_type: 0xE0, claimed: body.len() as u32, data: body },
                before.moment.context.properties.client.max_packet_size,
            );
            let exchanges = after.moment.wire.skip(before.moment.wire.len() as int);
            let told = after.told.last();
            &&& read matches Ok(said) ==> {
                &&& told_once(before, after)
                &&& told.event.packet_type == 0xE0
                &&& told.event.packet_id == 0
                &&& told.event.publish is None
                &&& told.event.reason_codes == match said.reason_code {
                    Some(code) => seq![code],
                    None => Seq::<u8>::empty(),
                }
                &&& told.event.properties == said.properties
                &&& after.moment.wire == before.moment.wire
                &&& result is Ok <==> told.accepted
            }
            &&& read is Err ==> {
                &&& after.told == before.told
                &&& result is Err
                &&& result == Err::<(), _>(ClientError::NotConnected) && !(
                before.moment.context.status is NotConnected) && transport::honest(exchanges)
                    ==> transport::all_taken(exchanges) == seq![0xE0u8, 0x02u8, 0x81u8, 0x00u8]
            }
        }),
{
    reveal(incoming::packet_handled);
    let context = before.moment.context;
    lemma_seen(context, 0xE0, body, total);
    let read = disconnect::disconnect_of(
        PacketModel { packet_type: 0xE0, claimed: body.len() as u32, data: body },
        context.properties.client.max_packet_size,
    );
    if read is Err {
        let (answered, answer) = choose|answered: Moment, answer: Result<(), ClientError>|
            #[trigger]
            incoming::disconnect_answered(before, after, answered, answer, result);
        lemma_malformed(before.moment, answered, answer);
    }
}

proof fn lemma_malformed(before: Moment, after: Moment, result: Result<(), ClientError>)
    requires
        send::disconnecting(before, after, Some(0x81), Seq::empty(), result),
    ensures
        after.context.records == before.context.records,
        result != Err::<(), _>(ClientError::NotConnected) || before.context.status is NotConnected,
        result is Ok && transport::honest(after.wire.skip(before.wire.len() as int))
            ==> transport::all_taken(after.wire.skip(before.wire.len() as int)) == seq![
            0xE0u8,
            0x02u8,
            0x81u8,
            0x00u8,
        ],
{
    let nothing = Seq::<u8>::empty();
    wire::lemma_length_bytes_unfold(0);
    wire::lemma_length_bytes_unfold(2);
    if let Ok(size) = send::disconnect_check(before.context, Some(0x81), nothing) {
        assert(size.remaining_length == 2 && size.packet_size == 4);
        let bytes = disconnect::disconnect_bytes(Some(0x81), nothing, 2);
        assert(bytes =~= seq![0xE0u8, 0x02u8, 0x81u8, 0x00u8]);
        let (sent, outcome) = choose|sent: Moment, outcome: SendOutcome| #[trigger]
            send::sending(before, sent, bytes, true, outcome) && if outcome == SendOutcome::Sent(
                4,
            ) {
                &&& result == Ok::<(), ClientError>(())
                &&& after == (Moment {
                    context: ContextModel {
                        status: ConnectionStatus::NotConnected,
                        ..sent.context
                    },
                    ..sent
                })
            } else {
                result == Err::<(), ClientError>(ClientError::SendFailed) && after == sent
            };
        transport::law_send_is_given_up(before, sent, bytes, true, outcome);
        if outcome == SendOutcome::Sent(4) {
            transport::law_sent_is_taken(before, sent, bytes, true, 4);
        }
    }
}

/// **Law.** A message at QoS 1 or 2 that is in order is refused only if it is new
/// and every place for messages is taken; then nobody is told. That it came
/// before is no error: it goes on to be answered, and at QoS 1 it is told again,
/// however the answer fares.
pub proof fn law_repeated_message_is_no_error(
    before: Scene,
    after: Scene,
    total: usize,
    manage: bool,
    result: Result<(), ClientError>,
    first: u8,
    topic: Seq<u8>,
    id: u16,
    props: Seq<Prop>,
    payload: Seq<u8>,
    records: RecordsModel,
)
    requires
        grammar::all_proper(props),
        topic.len() <= 65_535,
        0x30 <= first <= 0x3F,
        first / 2 % 4 == 1 || first / 2 % 4 == 2,
        id != 0,
        in_front(
            before.moment.context,
            first,
            reading::message(topic, Some(id), grammar::section(props), payload),
            total,
        ),
        reading::message(topic, Some(id), grammar::section(props), payload).len() >= 6,
        total <= before.moment.context.properties.client.max_packet_size,
        sections::legal(
            props,
            sections::in_message(before.moment.context.properties.client.topic_alias_max),
            sections::message_often(),
        ),
        before.moment.context.records == Some(records),
        incoming::packet_handled(before, after, total, manage, result),
    ensures
        ({
            let again = records::holds_id(records.incoming, id);
            let full = records::flying(records.incoming).len() == records.incoming.len();
            &&& !again && full ==> {
                &&& result == Err::<(), _>(ClientError::State(StateError::NoMemory))
                &&& after.told == before.told
                &&& after.moment.wire == before.moment.wire
                &&& after.kept == before.kept
            }
            &&& again || !full ==> {
                &&& again && first / 2 % 4 == 2 ==> after.told == before.told
                &&& !(again && first / 2 % 4 == 2) ==> told_once(before, after)
                &&& result != Err::<(), _>(ClientError::State(StateError::StateCollision))
                &&& result != Err::<(), _>(ClientError::State(StateError::NoMemory))
            }
        }),
{
    reveal(incoming::packet_handled);
    let context = before.moment.context;
    let body = reading::message(topic, Some(id), grammar::section(props), payload);
    lemma_seen(context, first, body, total);
    lemma_message(first, topic, Some(id), props, payload, context, total);
    let qos = if first / 2 % 4 == 1 {
        QoS::AtLeastOnce
    } else {
        QoS::ExactlyOnce
    };
    lemma_collision(records, id, qos);
    records::law_publish_arrives(records, id, qos);
    records::law_added(
        records.incoming,
        Record { packet_id: id, qos, state: state::state_after_publish(Operation::Receive, qos) },
    );
    let (plan, then) = incoming::publish_plan(context, total);
    if records::holds_id(records.incoming, id) || records::flying(records.incoming).len()
        != records.incoming.len() {
        assert(plan is Ok);
        let plan = plan->Ok_0;
        let start = if plan.tell {
            incoming::after_telling(then, after.told.last())
        } else {
            then
        };
        let accepted = !plan.tell || after.told.last().accepted;
        if accepted && start.ack_used < 268_435_456 {
            lemma_answer_is_no_collision(
                Moment { context: start, ..before.moment },
                after.moment,
                before.kept,
                after.kept,
                id,
                plan.ack_state,
                reply_of(
                    if plan.tell {
                        after.told.last().reply.reason_code
                    } else {
                        None
                    },
                    start.ack_used,
                ),
                result,
            );
        }
    }
}

/// An answer to a message never fails for want of a place or over a repeat.
proof fn lemma_answer_is_no_collision(
    before: Moment,
    after: Moment,
    kept_before: Option<Seq<Keeping>>,
    kept_after: Option<Seq<Keeping>>,
    packet_id: u16,
    state: PublishState,
    reply: Reply,
    result: Result<(), ClientError>,
)
    requires
        answer::ack_sent(
            before,
            after,
            kept_before,
            kept_after,
            packet_id,
            state,
            reply,
            result,
        ),
        state is PubAckSend || state is PubRecSend,
    ensures
        result != Err::<(), _>(ClientError::State(StateError::StateCollision)),
        result != Err::<(), _>(ClientError::State(StateError::NoMemory)),
{
}

/// **Law.** Without records, a message above QoS 0 cannot be received: nobody is
/// told and nothing is answered.
pub proof fn law_message_without_records(
    before: Scene,
    after: Scene,
    total: usize,
    manage: bool,
    result: Result<(), ClientError>,
    first: u8,
    topic: Seq<u8>,
    id: u16,
    props: Seq<Prop>,
    payload: Seq<u8>,
)
    requires
        grammar::all_proper(props),
        topic.len() <= 65_535,
        0x30 <= first <= 0x3F,
        first / 2 % 4 == 1 || first / 2 % 4 == 2,
        id != 0,
        in_front(
            before.moment.context,
            first,
            reading::message(topic, Some(id), grammar::section(props), payload),
            total,
        ),
        reading::message(topic, Some(id), grammar::section(props), payload).len() >= 6,
        total <= before.moment.context.properties.client.max_packet_size,
        sections::legal(
            props,
            sections::in_message(before.moment.context.properties.client.topic_alias_max),
            sections::message_often(),
        ),
        before.moment.context.records is None,
        incoming::packet_handled(before, after, total, manage, result),
    ensures
        result == Err::<(), _>(ClientError::RecvFailed),
        after == before,
{
    reveal(incoming::packet_handled);
    let context = before.moment.context;
    let body = reading::message(topic, Some(id), grammar::section(props), payload);
    lemma_seen(context, first, body, total);
    lemma_message(first, topic, Some(id), props, payload, context, total);
}

/// **Law.** A packet that a broker sends but that belongs to no open matter, a
/// CONNACK or an AUTH, is a bad response, and changes nothing.
pub proof fn law_stray_packet(
    before: Scene,
    after: Scene,
    total: usize,
    manage: bool,
    result: Result<(), ClientError>,
    first: u8,
    body: Seq<u8>,
)
    requires
        first == 0x20 || first == 0xF0,
        in_front(before.moment.context, first, body, total),
        incoming::packet_handled(before, after, total, manage, result),
    ensures
        result == Err::<(), _>(ClientError::BadResponse),
        after == before,
{
    reveal(incoming::packet_handled);
    lemma_seen(before.moment.context, first, body, total);
}

// ---------------------------------------------------------------------------
// What may be sent
// ---------------------------------------------------------------------------

/// **Law.** An acknowledgement of four bytes may be sent exactly if it has an
/// identifier, the broker takes four bytes, and there is a connection. One with a
/// code and properties may be sent exactly if the code is one of its kind, the
/// properties are in order and all there, the packet is within the broker's
/// limit, and there is a connection.
pub proof fn law_answer_is_checked(
    context: ContextModel,
    packet_id: u16,
    first: u8,
    code: Option<u8>,
    length: usize,
    props: Seq<Prop>,
)
    requires
        reading::acks_publish(first),
        grammar::all_proper(props),
        length <= context.ack_properties.len() ==> context.ack_properties.take(length as int)
            == grammar::section(props),
        length <= 268_435_455,
    ensures
        answer::plain_ack_check(context, packet_id) is Ok <==> {
            &&& packet_id != 0
            &&& context.properties.server.max_packet_size >= 4
            &&& context.status is Connected
        },
        answer::full_ack_check(context, first, reply_of(code, length)) is Ok <==> {
            let body = 3 + plain::length_count(length as int) + length;
            &&& code matches Some(code) && messages::code_fits(first, code)
            &&& length <= context.ack_properties.len()
            &&& sections::legal(props, sections::in_ack(), sections::user_often())
            &&& body <= 268_435_455
            &&& reading::packet_count(body) <= context.properties.server.max_packet_size
            &&& context.status is Connected
        },
        answer::full_ack_check(context, first, reply_of(code, length)) matches Err(error) ==> error
            is BadParameter || error is NotConnected || error is DisconnectPending,
{
    sections::law_ack_properties(props, Seq::empty());
    plain::lemma_length_count(length as int);
    let body = 3 + plain::length_count(length as int) + length;
    if body <= 268_435_455 {
        plain::lemma_length_count(body);
    }
    if length == 0 {
        let none = context.ack_properties.take(0);
        assert(none.len() == 0);
        assert(props.len() == 0) by {
            if props.len() > 0 {
                grammar::lemma_first(props);
            }
        }
    }
    if let Some(code) = code {
        lemma_codes(first, code);
    }
}

proof fn lemma_codes(first: u8, code: u8)
    requires
        reading::acks_publish(first),
    ensures
        answer::reason_code_fits(Some(code), first) == messages::code_fits(first, code),
{
    let nine = seq![0x00u8, 0x10u8, 0x80u8, 0x83u8, 0x87u8, 0x90u8, 0x91u8, 0x97u8, 0x99u8];
    let two = seq![0x00u8, 0x92u8];
    assert(nine[0] == 0x00 && nine[1] == 0x10 && nine[2] == 0x80 && nine[3] == 0x83 && nine[4]
        == 0x87 && nine[5] == 0x90 && nine[6] == 0x91 && nine[7] == 0x97 && nine[8] == 0x99);
    assert(two[0] == 0x00 && two[1] == 0x92);
}

/// **Law.** An acknowledgement that is sent again is the one that the state asks
/// for, of four bytes; the step is then taken. Without an identifier it is
/// refused, and a state that asks for none sends none.
pub proof fn law_ack_is_sent_again(
    before: Moment,
    after: Moment,
    packet_id: u16,
    state: PublishState,
    result: Result<(), ClientError>,
)
    requires
        resume::ack_sent_again(before, after, packet_id, state, result),
        transport::honest(after.wire.skip(before.wire.len() as int)),
    ensures
        asks_for(state) == 0 ==> result is Ok && after == before,
        asks_for(state) != 0 && packet_id == 0 ==> result == Err::<(), _>(
            ClientError::BadParameter,
        ) && after == before,
        asks_for(state) != 0 && packet_id != 0 && result is Ok ==> {
            &&& before.context.status is Connected
            &&& says_ack(
                transport::all_taken(after.wire.skip(before.wire.len() as int)),
                asks_for(state),
                packet_id,
                None,
                Seq::empty(),
            )
            &&& after.context.control_packet_sent
            &&& before.context.records matches Some(records) ==> after.context.records == Some(
                records.after_ack(packet_id, kind_of(asks_for(state))->0, Operation::Send).1,
            )
        },
{
    let first = asks_for(state);
    let bytes = outbound::simple_ack_bytes(first, packet_id);
    if first != 0 && packet_id != 0 && result is Ok {
        let (sent, outcome) = choose|sent: Moment, outcome: SendOutcome| #[trigger]
            send::sending(before, sent, bytes, false, outcome) && if outcome == SendOutcome::Sent(
                4,
            ) {
                let (noted, context) = resume::ack_noted(
                    sent.context,
                    packet_id,
                    resume::ack_meant(first)->0,
                );
                result == noted && after == (Moment { context, ..sent })
            } else {
                result == Err::<(), ClientError>(ClientError::SendFailed) && after == sent
            };
        lemma_simple_ack(first, packet_id);
        transport::law_sent_is_taken(before, sent, bytes, false, 4);
        transport::law_send_is_given_up(before, sent, bytes, false, outcome);
    }
}

/// **Law.** A DISCONNECT that went out is read by a broker as it was meant: its
/// code, if it has one, and its properties. There is then no connection. Where
/// there was none, where the code is none of a client's, or where the properties
/// are not in order, nothing goes out.
pub proof fn law_disconnect_goes_out(
    before: Moment,
    after: Moment,
    code: Option<u8>,
    section: Seq<u8>,
    props: Seq<Prop>,
    result: Result<(), ClientError>,
)
    requires
        grammar::all_proper(props),
        section == grammar::section(props),
        section.len() <= 268_435_400,
        send::disconnecting(before, after, code, section, result),
        transport::honest(after.wire.skip(before.wire.len() as int)),
    ensures
        result is Ok ==> {
            let s = transport::all_taken(after.wire.skip(before.wire.len() as int));
            let body = outgoing::body_of(s);
            &&& after.context.status is NotConnected
            &&& !(before.context.status is NotConnected)
            &&& outgoing::is_packet(s, 0xE0)
            &&& s.len() <= before.context.properties.server.max_packet_size
            &&& code matches Some(code) ==> {
                &&& reading::sent_disconnect_codes().contains(code)
                &&& s[body] == code
                &&& plain::section_at(s, body + 1) == section
                &&& plain::section_end(s, body + 1) == s.len()
            }
            &&& code is None ==> section.len() == 0
            &&& grammar::each(
                props,
                sections::in_sent_disconnect(before.context.properties.session_expiry),
            )
        },
        before.context.status is NotConnected ==> result is Err && after == before,
        !grammar::each(
            props,
            sections::in_sent_disconnect(before.context.properties.session_expiry),
        ) ==> result == Err::<(), _>(ClientError::BadParameter) && after == before,
{
    sections::law_sent_disconnect_properties(
        props,
        Seq::empty(),
        before.context.properties.session_expiry,
    );
    if let Ok(size) = send::disconnect_check(before.context, code, section) {
        let n = size.remaining_length;
        let bytes = disconnect::disconnect_bytes(code, section, n);
        wire::lemma_length_bytes_len(section.len());
        wire::lemma_length_bytes_len(n as nat);
        plain::lemma_length_count(n as int);
        let head = seq![0xE0u8] + wire::length_bytes(n as nat);
        let front = head + disconnect::reason_field(code);
        let rest = wire::section_bytes(section);
        assert(bytes =~= head + (disconnect::reason_field(code) + rest));
        outgoing::lemma_is_packet(0xE0, n as nat, disconnect::reason_field(code) + rest);
        plain::lemma_section(front, section, Seq::empty());
        assert(bytes =~= front + rest + Seq::<u8>::empty());
        if let Some(code) = code {
            reading::law_disconnect_codes(code);
            assert(bytes[head.len() as int] == code);
        }
        let count = size.packet_size as usize;
        let (sent, outcome) = choose|sent: Moment, outcome: SendOutcome| #[trigger]
            send::sending(before, sent, bytes, true, outcome) && if outcome == SendOutcome::Sent(
                count,
            ) {
                &&& result == Ok::<(), ClientError>(())
                &&& after == (Moment {
                    context: ContextModel {
                        status: ConnectionStatus::NotConnected,
                        ..sent.context
                    },
                    ..sent
                })
            } else {
                result == Err::<(), ClientError>(ClientError::SendFailed) && after == sent
            };
        if outcome == SendOutcome::Sent(count) {
            transport::law_sent_is_taken(before, sent, bytes, true, count);
        }
    }
}

} // verus!
