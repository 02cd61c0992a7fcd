//! What a client may ask for, where it begins, and how it goes through what has
//! arrived.

use vstd::prelude::*;

use crate::ack::{AckError, PacketModel};
use crate::builder;
use crate::client;
use crate::client::{ClientError, ContextModel, Moment, Subscription, SubscriptionType};
use crate::context;
use crate::context::ConnectionProperties;
use crate::header::HeaderError;
use crate::law::incoming as reading;
use crate::law::plain;
use crate::law::transport;
use crate::loop_;
use crate::loop_::incoming::Scene;
use crate::outpublish::OutgoingPublish;
use crate::reader;
use crate::reader::{Exchange, IncomingHeader, ReadError, Received, Recv};
use crate::session;
use crate::state::QoS;
use crate::topic;
use crate::validate;
use crate::wire;

verus! {

// ---------------------------------------------------------------------------
// Subscriptions and publishes
// ---------------------------------------------------------------------------

/// The bytes that every shared subscription begins with: `$share/`.
pub open spec fn share() -> Seq<u8> {
    seq![0x24u8, 0x73u8, 0x68u8, 0x61u8, 0x72u8, 0x65u8, 0x2Fu8]
}

/// No wildcard among these bytes.
pub open spec fn plain_name(s: Seq<u8>) -> bool {
    forall|i: int| 0 <= i < s.len() ==> #[trigger] s[i] != 0x23 && s[i] != 0x2B
}

/// No slash among these bytes.
pub open spec fn one_word(s: Seq<u8>) -> bool {
    forall|i: int| 0 <= i < s.len() ==> #[trigger] s[i] != 0x2F
}

proof fn lemma_slash(s: Seq<u8>, from: int, at: int)
    requires
        0 <= from <= at <= s.len(),
        forall|i: int| from <= i < at ==> #[trigger] s[i] != 0x2F,
        at < s.len() ==> s[at] == 0x2F,
    ensures
        topic::next_slash(s, from) == at,
    decreases at - from,
{
    if from < at {
        lemma_slash(s, from + 1, at);
    }
}

/// **Law.** A filter `$share/name/filter` is a shared subscription. It may be
/// asked for exactly if the name is there and holds no wildcard, a filter
/// follows it, the broker offers shared subscriptions, and messages of the
/// client's own are not to be left out. Without a slash behind the name it may
/// not be asked for. A filter that begins otherwise is no shared subscription.
pub proof fn law_shared_subscriptions(
    name: Seq<u8>,
    filter: Seq<u8>,
    other: Seq<u8>,
    no_local: bool,
    offered: u8,
)
    requires
        one_word(name),
    ensures
        ({
            let whole = share() + name + seq![0x2Fu8] + filter;
            &&& client::is_shared(whole)
            &&& client::shared_ok(whole, no_local, offered) <==> {
                &&& name.len() > 0
                &&& plain_name(name)
                &&& filter.len() > 0
                &&& !no_local
                &&& offered != 0
            }
        }),
        !client::shared_ok(share() + name, no_local, offered),
        name.len() > 0 ==> client::is_shared(share() + name),
        !share().is_prefix_of(other) ==> !client::is_shared(other),
        !client::is_shared(share()),
{
    let whole = share() + name + seq![0x2Fu8] + filter;
    let end = 7 + name.len() as int;
    assert(whole.take(7) =~= share());
    assert forall|i: int| 7 <= i < end implies #[trigger] whole[i] != 0x2F by {
        assert(whole[i] == name[i - 7]);
    }
    assert(whole[end] == 0x2F);
    lemma_slash(whole, 7, end);
    assert(whole.subrange(7, end) =~= name);
    if !plain_name(name) {
        let i = choose|i: int|
            0 <= i < name.len() && !(#[trigger] name[i] != 0x23 && name[i] != 0x2B);
        assert(name.contains(name[i]));
    }
    let short = share() + name;
    assert forall|i: int| 7 <= i < end implies #[trigger] short[i] != 0x2F by {
        assert(short[i] == name[i - 7]);
    }
    lemma_slash(short, 7, end);
    assert(short.take(7) =~= share());
    if client::is_shared(other) {
        assert(share() =~= other.take(7));
        assert(share().is_prefix_of(other));
    }
}

/// **Law.** An entry may be subscribed to exactly if its filter has between 1
/// and 65,535 bytes, holds a wildcard only where the broker has them, and is in
/// order if it names a shared subscription. To unsubscribe, the length is all
/// that counts.
pub proof fn law_entries(entry: Subscription<'_>, properties: ConnectionProperties)
    ensures
        ({
            let filter = entry.topic_filter@;
            let long = 1 <= filter.len() <= 65_535;
            let server = properties.server;
            &&& client::entry_ok(entry, SubscriptionType::Unsubscribe, properties) == long
            &&& client::entry_ok(entry, SubscriptionType::Subscribe, properties) ==> long
            &&& long && plain_name(filter) && !client::is_shared(filter) ==> client::entry_ok(
                entry,
                SubscriptionType::Subscribe,
                properties,
            )
            &&& !plain_name(filter) && server.wildcard_available == 0 ==> !client::entry_ok(
                entry,
                SubscriptionType::Subscribe,
                properties,
            )
            &&& long && server.wildcard_available != 0 && !client::is_shared(filter)
                ==> client::entry_ok(entry, SubscriptionType::Subscribe, properties)
            &&& long && client::is_shared(filter) && server.wildcard_available != 0 ==> (
            client::entry_ok(entry, SubscriptionType::Subscribe, properties) <==> client::shared_ok(
                filter,
                entry.no_local,
                server.shared_available,
            ))
        }),
{
    let filter = entry.topic_filter@;
    if !plain_name(filter) {
        let i = choose|i: int|
            0 <= i < filter.len() && !(#[trigger] filter[i] != 0x23 && filter[i] != 0x2B);
        assert(filter.contains(filter[i]));
    }
}

/// **Law.** A list of one entry may be sent exactly if it has an identifier, the
/// entry is in order, and messages above QoS 0 are asked for only where they can
/// be received. An empty list may not be sent, and no list without an
/// identifier. A longer list goes by its last entry, and by the QoS of all.
pub proof fn law_lists(
    list: Seq<Subscription<'_>>,
    entry: Subscription<'_>,
    packet_id: u16,
    which: SubscriptionType,
    context: ContextModel,
)
    ensures
        !client::list_ok(Seq::empty(), packet_id, which, context),
        packet_id == 0 ==> !client::list_ok(list, packet_id, which, context),
        client::list_ok(seq![entry], packet_id, which, context) <==> {
            &&& packet_id != 0
            &&& client::entry_ok(entry, which, context.properties)
            &&& entry.qos is AtMostOnce || context.incoming_records > 0
        },
        context.incoming_records > 0 ==> client::list_ok(
            list.push(entry),
            packet_id,
            which,
            context,
        ) == client::list_ok(seq![entry], packet_id, which, context),
        context.incoming_records == 0 && client::list_ok(
            list.push(entry),
            packet_id,
            which,
            context,
        ) ==> forall|i: int| 0 <= i < list.len() ==> (#[trigger] list[i]).qos is AtMostOnce,
{
    let one = seq![entry];
    assert(one[0] == entry);
    let more = list.push(entry);
    assert(more.last() == entry);
    if context.incoming_records == 0 && client::list_ok(more, packet_id, which, context) {
        assert forall|i: int| 0 <= i < list.len() implies (#[trigger] list[i]).qos
            is AtMostOnce by {
            assert(more[i] == list[i]);
        }
    }
}

/// **Law.** A publish may be sent exactly if its topic has at most 65,535 bytes,
/// its payload at most 268,435,455, and above QoS 0 it has an identifier and
/// there are records.
pub proof fn law_publish_sizes(
    qos: QoS,
    packet_id: u16,
    topic_length: nat,
    payload_length: nat,
    records: usize,
)
    ensures
        client::publish_ok(
            qos,
            packet_id,
            topic_length as int,
            payload_length as int,
            records,
        ) <==> {
            &&& topic_length <= 65_535
            &&& payload_length <= 268_435_455
            &&& qos is AtMostOnce || packet_id > 0
            &&& qos is AtMostOnce || records > 0
        },
{
}

/// **Law.** A message is within what a broker offers exactly if it is retained
/// only where that is offered, is above QoS 0 only where that is, has a topic or
/// an alias, a topic that can be said, and may have a size at all.
pub proof fn law_within_offer(
    publish: OutgoingPublish<'_>,
    retain: u8,
    qos: u8,
    alias: u16,
    size: u32,
)
    ensures
        validate::publish_params_ok(publish, retain, qos, alias, size) <==> {
            &&& !publish.retain || retain > 0
            &&& publish.qos is AtMostOnce || qos > 0
            &&& alias > 0 || publish.topic_name@.len() >= 1
            &&& publish.topic_name@.len() <= 65_535
            &&& size > 0
        },
{
}

/// **Law.** Identifiers are given out one after the other, from 1 to 65,535 and
/// then from 1 again.
pub proof fn law_identifiers_go_round(id: u16)
    ensures
        id < 65_535 ==> client::id_after(id) == id + 1,
        client::id_after(65_535) == 1,
        client::fresh(Seq::empty()).next_packet_id == 1,
{
}

/// **Law.** What is kept of a publish stands under its identifier, what is kept
/// of an acknowledgement 65,536 further on.
pub proof fn law_keys(id: u16)
    ensures
        client::ack_key(id) == id + 65_536,
{
}

// ---------------------------------------------------------------------------
// Where a client begins
// ---------------------------------------------------------------------------

/// **Law.** Until something is said, a connection goes by what MQTT 5 lays down:
/// sessions end with the connection, 65,535 publishes may be in flight, packets
/// may be as large as there are, there are no topic aliases, every QoS and every
/// kind of subscription is there, and messages are retained. The client does not
/// ask for response information, but for problem information.
pub proof fn law_defaults()
    ensures
        ({
            let d = context::defaults();
            &&& d.session_expiry == 0
            &&& d.client.receive_max == 65_535 && d.server.receive_max == 65_535
            &&& d.client.max_packet_size == 268_435_460 && d.server.max_packet_size == 268_435_460
            &&& d.client.topic_alias_max == 0 && d.server.topic_alias_max == 0
            &&& !d.client.request_response_info && d.client.request_problem_info
            &&& d.server.max_qos == 2
            &&& d.server.retain_available == 1 && d.server.wildcard_available == 1
            &&& d.server.subscription_id_available == 1 && d.server.shared_available == 1
            &&& d.server.keep_alive == 65_535
        }),
{
}

/// **Law.** A fresh client is not connected, has nothing in flight, awaits no
/// answer, and has its network buffer before it with nothing in it.
pub proof fn law_fresh_client(network: Seq<u8>)
    ensures
        ({
            let c = client::fresh(network);
            &&& c.status is NotConnected
            &&& c.properties == context::defaults()
            &&& c.network == network && c.index == 0
            &&& c.records is None && c.outgoing_records == 0 && c.incoming_records == 0
            &&& !c.waiting_for_ping_resp && !c.control_packet_sent
            &&& c.keep_alive_seconds == 0
            &&& c.ack_properties.len() == 0 && c.ack_used == 0 && c.ack_room == 0
            &&& c.last_packet_tx_time == 0 && c.last_packet_rx_time == 0 && c.ping_req_send_time
                == 0
        }),
{
}

/// The properties that a packet may be given, by the first byte of the packet.
pub open spec fn takes(first: u8, id: u8) -> bool {
    match first {
        0x10 => id == 0x11 || id == 0x15 || id == 0x16 || id == 0x17 || id == 0x19 || id == 0x21
            || id == 0x22 || id == 0x26 || id == 0x27,
        0x30 => id == 0x01 || id == 0x02 || id == 0x03 || id == 0x08 || id == 0x09 || id == 0x23
            || id == 0x26,
        0x40 | 0x50 | 0x62 | 0x70 => id == 0x1F || id == 0x26,
        0x82 => id == 0x0B || id == 0x26,
        0xA2 => id == 0x26,
        0xE0 => id == 0x11 || id == 0x1F || id == 0x26,
        _ => false,
    }
}

/// **Law.** A property is added to a section exactly if the packet may be given
/// it, it is not there yet or may be there twice, its value can be said, and
/// there is room. It then stands behind all others, as its identifier and its
/// value, and its bit is set. Otherwise nothing changes.
pub proof fn law_properties_are_added(
    before: builder::BuilderModel,
    id: u8,
    bit: u32,
    value: Seq<u8>,
    sayable: bool,
    first: Option<u8>,
)
    requires
        bit < 32,
    ensures
        ({
            let (result, after) = before.adding(id, bit, value, sayable, first);
            let fits = {
                &&& bit == 28 || before.fields & (1u32 << bit) == 0
                &&& first matches Some(first) ==> takes(first, id)
                &&& sayable
            };
            let room = 1 + value.len() <= before.spare.len();
            &&& result is Ok <==> fits && room
            &&& result == Err::<(), _>(builder::AddError::BadParameter) <==> !fits
            &&& result is Err ==> after == before
            &&& result is Ok ==> {
                &&& after.section == before.section + seq![id] + value
                &&& after.fields & (1u32 << bit) != 0
                &&& after.section.len() + after.spare.len() == before.section.len()
                    + before.spare.len()
            }
        }),
{
    let fields = before.fields;
    assert((fields | (1u32 << bit)) & (1u32 << bit) != 0) by (bit_vector)
        requires
            bit < 32,
    ;
    if let Some(first) = first {
        assert(builder::may_carry(first, id) == takes(first, id));
    }
}

// ---------------------------------------------------------------------------
// Going through what has arrived
// ---------------------------------------------------------------------------

/// **Law.** A packet that was handled is taken off the front: what came behind
/// it is then in front, in order, as many bytes fewer are there, and the buffer
/// has its size.
pub proof fn law_handled_is_taken_off(context: ContextModel, total: usize)
    requires
        total <= context.index <= context.network.len(),
    ensures
        ({
            let after = loop_::consumed(context, total);
            &&& after.index == context.index - total
            &&& after.network.len() == context.network.len()
            &&& after.network.take(after.index as int) == context.network.subrange(
                total as int,
                context.index as int,
            )
            &&& after.records == context.records && after.properties == context.properties
        }),
{
    let after = loop_::consumed(context, total);
    assert(after.network.take(after.index as int) =~= context.network.subrange(
        total as int,
        context.index as int,
    ));
}

/// **Law.** How long the packet in front is comes to be known with its header,
/// and is the header and the body together. It can be handled once all of it is
/// there; one that can never be there is given up.
pub proof fn law_front_is_measured(context: ContextModel, first: u8, n: u32, rest: Seq<u8>)
    requires
        n <= 268_435_455,
        reading::from_broker(first),
        context.index <= context.network.len(),
        context.network.take(context.index as int) == seq![first] + wire::length_bytes(n as nat)
            + rest,
    ensures
        ({
            let total = reading::packet_count(n as int);
            let known = loop_::measured(context);
            &&& known == Ok::<usize, ClientError>(total as usize)
            &&& loop_::fitting(context, known) == if total > context.network.len() {
                Err::<usize, ClientError>(ClientError::RecvFailed)
            } else if total > context.index {
                Err(ClientError::NeedMoreBytes)
            } else {
                Ok(total as usize)
            }
        }),
{
    reading::law_header_is_read(first, n, rest, Seq::empty());
    plain::lemma_length(seq![first], n as nat, rest);
    plain::lemma_length_count(n as int);
}

/// **Law.** Bytes that a transport brings go behind those that have arrived, and
/// leave them as they are. The transport is asked for as many as there is room
/// for, and once.
pub proof fn law_bytes_are_asked_for(before: Scene, after: Scene, received: Recv)
    requires
        loop_::asked(before, after, received),
        before.moment.context.index <= before.moment.context.network.len(),
    ensures
        ({
            let index = before.moment.context.index as int;
            let network = before.moment.context.network;
            let now = after.moment.context.network;
            &&& now.len() == network.len()
            &&& now.take(index) == network.take(index)
            &&& after.moment.wire.len() == before.moment.wire.len() + 1
            &&& after.moment.wire.drop_last() == before.moment.wire
            &&& after.moment.wire.last() matches Exchange::Receive { got, buffer } && got
                == received && buffer == now.skip(index) && buffer.len() == network.len() - index
            &&& after.moment.context.index == index
        }),
{
    let index = before.moment.context.index as int;
    let network = before.moment.context.network;
    let now = after.moment.context.network;
    assert(now == wire::overwrite(network, index, now.skip(index)));
    assert(now =~= network.take(index) + now.skip(index) + network.skip(
        index + now.skip(index).len(),
    ));
    assert(now.take(index) =~= network.take(index));
    assert(after.moment.wire.drop_last() =~= before.moment.wire);
}

/// **Law.** A transport that fails ends the turn, and leaves a connection to be
/// closed. One that brings nothing when nothing has arrived leaves all as it
/// was. As many bytes are counted as it brings.
pub proof fn law_bytes_are_counted(context: ContextModel, count: usize)
    requires
        context.index + count <= usize::MAX,
    ensures
        loop_::taken_in(context, Recv::Failed).0 == Err::<usize, _>(ClientError::RecvFailed),
        context.status is Connected ==> loop_::taken_in(context, Recv::Failed).1.status
            is DisconnectPending,
        context.index == 0 ==> loop_::taken_in(context, Recv::Nothing) == (
            Err::<usize, _>(ClientError::NoDataAvailable),
            context,
        ),
        context.index == 0 ==> loop_::taken_in(context, Recv::Bytes(0)) == (
            Err::<usize, _>(ClientError::NoDataAvailable),
            context,
        ),
        count > 0 ==> loop_::taken_in(context, Recv::Bytes(count)).1 == (ContextModel {
            index: (context.index + count) as usize,
            ..context
        }),
        context.index > 0 ==> loop_::taken_in(context, Recv::Nothing).1 == context,
{
}

/// **Law.** Bytes that a transport brought are counted in one turn only: every
/// turn behind that goes by nothing new.
pub proof fn law_bytes_count_once(received: Recv, context: ContextModel)
    requires
        !(received is Failed),
        context.index > 0,
    ensures
        loop_::taken_in(context, loop_::next_received(received)).1 == context,
        received is Nothing ==> loop_::next_received(received) is Nothing,
        loop_::next_received(loop_::next_received(received)) == loop_::next_received(received),
{
}

/// **Law.** That nothing has arrived is no error of the loop; everything else
/// that went wrong is.
pub proof fn law_silence_is_no_error(error: ClientError)
    ensures
        loop_::finished(Ok(())) is Ok,
        loop_::finished(Err(error)) is Ok <==> error is NoDataAvailable,
        loop_::finished(Err(error)) is Err ==> loop_::finished(Err(error)) == Err::<
            (),
            ClientError,
        >(error),
{
}

/// **Law.** The codes of a SUBACK or an UNSUBACK are all that stands behind its
/// identifier and its properties.
pub proof fn law_status_codes(first: u8, id: u16, section: Seq<u8>, codes: Seq<u8>)
    requires
        4 <= (wire::u16_bytes(id) + wire::section_bytes(section) + codes).len() <= 268_435_455,
    ensures
        ({
            let body = wire::u16_bytes(id) + wire::section_bytes(section) + codes;
            let packet = PacketModel {
                packet_type: first,
                claimed: body.len() as u32,
                data: body,
            };
            topic::status_codes_of(packet, first) == Ok::<_, AckError>(codes)
        }),
        ({
            let body = wire::u16_bytes(id) + wire::section_bytes(section) + codes;
            forall|other: u8| other != first ==> #[trigger] topic::status_codes_of(
                PacketModel { packet_type: first, claimed: body.len() as u32, data: body },
                other,
            ) == Err::<Seq<u8>, _>(AckError::BadParameter)
        }),
{
    let body = wire::u16_bytes(id) + wire::section_bytes(section) + codes;
    let n = section.len() as u32;
    assert(section.len() <= body.len());
    wire::law_take_length_round_trip(n, section + codes);
    assert(body.skip(2) =~= wire::length_bytes(n as nat) + (section + codes));
    assert((section + codes).skip(n as int) =~= codes);
}

/// **Law.** How long the packet in front is depends on what has arrived and on
/// nothing else: what lies beyond is not looked at.
pub proof fn law_only_arrived_counts(one: ContextModel, other: ContextModel)
    requires
        one.index == other.index,
        one.index <= one.network.len(),
        other.index <= other.network.len(),
        one.network.take(one.index as int) == other.network.take(other.index as int),
    ensures
        loop_::measured(one) == loop_::measured(other),
{
}

/// **Law.** The loop ends well only when all that has arrived has been handled.
pub proof fn law_loop_handles_all(
    count: nat,
    before: Scene,
    after: Scene,
    received: Recv,
    manage: bool,
    result: Result<(), ClientError>,
)
    requires
        loop_::turns(count, before, after, received, manage, result),
    ensures
        result is Ok ==> after.moment.context.index == 0,
    decreases count,
{
    let (middle, one) = choose|middle: Scene, one: Result<(), ClientError>| #[trigger]
        loop_::turned(before, middle, received, manage, one) && if one is Err
            || middle.moment.context.index == 0 {
            count == 0 && after == middle && result == one
        } else {
            &&& count > 0
            &&& loop_::turns(
                (count - 1) as nat,
                middle,
                after,
                loop_::next_received(received),
                manage,
                result,
            )
        };
    if !(one is Err || middle.moment.context.index == 0) {
        law_loop_handles_all(
            (count - 1) as nat,
            middle,
            after,
            loop_::next_received(received),
            manage,
            result,
        );
    }
}

/// **Law.** The connection is looked after only by a client that does so itself,
/// and only when nothing came: otherwise nothing is sent and the clock is not
/// looked at. What had been found stands, unless looking after failed.
pub proof fn law_looked_after_in_silence(
    before: Scene,
    after: Scene,
    received: Recv,
    manage: bool,
    found: Result<usize, ClientError>,
    status: Result<usize, ClientError>,
)
    requires
        loop_::looked_after(before, after, received, manage, found, status),
    ensures
        !manage ==> after == before && status == found,
        received matches Recv::Bytes(count) && count > 0 ==> after == before && status == found,
        status is Ok ==> status == found,
        after.told == before.told && after.kept == before.kept,
{
}

/// **Law.** What failed to be handled is left where it is, and the failure is
/// the result; what was handled is gone.
pub proof fn law_failed_packet_stays(
    before: Scene,
    after: Scene,
    manage: bool,
    total: usize,
    result: Result<(), ClientError>,
)
    requires
        loop_::front_handled(before, after, manage, Ok(total), result),
        total <= before.moment.context.index <= before.moment.context.network.len(),
        client::records_ok(before.moment.context),
    ensures
        result is Ok ==> after.moment.context.index == before.moment.context.index - total,
        result is Ok ==> after.moment.context.last_packet_rx_time == after.moment.ticks.last(),
        result is Err ==> after.moment.context.index == before.moment.context.index,
        result is Err ==> after.moment.context.network == before.moment.context.network,
{
    let (handled, outcome) = choose|handled: Scene, outcome: Result<(), ClientError>| #[trigger]
        crate::loop_::incoming::packet_handled(before, handled, total, manage, outcome)
            && if outcome is Err {
            after == handled && result == outcome
        } else {
            let now = after.moment.ticks.last();
            &&& result == Ok::<(), ClientError>(())
            &&& after == (Scene {
                moment: Moment {
                    context: ContextModel {
                        last_packet_rx_time: now,
                        ..loop_::consumed(handled.moment.context, total)
                    },
                    ticks: handled.moment.ticks.push(now),
                    ..handled.moment
                },
                ..handled
            })
        };
    loop_::law_handling_keeps(before, handled, total, manage, outcome);
}

/// **Law.** A connection can be opened only where there is none.
pub proof fn law_one_connection_at_a_time<S: crate::client::Store>(
    before: Moment,
    after: Moment,
    store: Option<S>,
    outgoing: crate::connect::Connect<'_>,
    timeout: u32,
    kept: Option<bool>,
    asked: Seq<crate::client::Keeping>,
    result: Result<(), ClientError>,
)
    requires
        session::opening::connect_made(
            before,
            after,
            store,
            outgoing,
            timeout,
            kept,
            asked,
            result,
        ),
        crate::connect::connect_size(outgoing) is Ok,
    ensures
        before.context.status is Connected ==> result == Err::<(), _>(ClientError::StatusConnected)
            && after == before,
        before.context.status is DisconnectPending ==> result == Err::<(), _>(
            ClientError::DisconnectPending,
        ) && after == before,
        result is Ok ==> before.context.status is NotConnected,
        result is Err && before.context.status is NotConnected ==> !(
        after.context.status is Connected),
{
}

// ---------------------------------------------------------------------------
// Waiting for a CONNACK
// ---------------------------------------------------------------------------

/// **Law.** A CONNACK is waited for as long as was said, and without a time for
/// six attempts: it is given up for silence only when that time has passed since
/// the first look at the clock, or there was nothing at any of the six.
pub proof fn law_connack_is_waited_for(
    before: Moment,
    after: Moment,
    timeout: u32,
    silent: nat,
)
    requires
        session::header_awaited(
            before,
            after,
            timeout,
            silent,
            Err(ReadError::NoDataAvailable),
        ),
    ensures
        ({
            let readings = after.ticks.skip(before.ticks.len() as int);
            &&& timeout == 0 ==> silent + 1 == 6
            &&& timeout > 0 ==> transport::waited(readings[0], readings.last()) >= timeout || silent
                + 1 == 0xFFFF_FFFF_FFFF_FFFF
            &&& after.context == before.context
        }),
{
}

/// **Law.** A header that a transport gives byte by byte says what the same
/// bytes say in a buffer, and as many bytes are taken as it has.
pub proof fn law_header_comes_byte_by_byte(first: u8, n: u32, heard: Seq<Received>)
    requires
        n <= 268_435_455,
        reading::from_broker(first),
        ({
            let bytes = seq![first] + wire::length_bytes(n as nat);
            &&& heard.len() == bytes.len()
            &&& forall|i: int|
                0 <= i < heard.len() ==> #[trigger] heard[i] == Received::Byte(bytes[i])
        }),
    ensures
        reader::header_heard(heard) == Ok::<_, ReadError>(
            IncomingHeader {
                packet_type: first,
                remaining_length: n,
                header_length: (1 + plain::length_count(n as int)) as usize,
            },
        ),
        reader::header_heard(seq![Received::Nothing]) == Err::<IncomingHeader, _>(
            ReadError::NoDataAvailable,
        ),
        reader::header_heard(seq![Received::Failed]) == Err::<IncomingHeader, _>(
            ReadError::RecvFailed,
        ),
{
    let bytes = seq![first] + wire::length_bytes(n as nat);
    reading::law_header_is_read(first, n, Seq::empty(), Seq::empty());
    assert(heard[0] == Received::Byte(bytes[0]));
    assert(reader::bytes_heard(heard) =~= bytes);
    assert(bytes.skip(1) =~= wire::length_bytes(n as nat) + Seq::<u8>::empty());
    wire::law_length_round_trip(n, Seq::empty());
    plain::lemma_length(seq![first], n as nat, Seq::empty());
    assert(heard[heard.len() - 1] == Received::Byte(bytes[heard.len() - 1]));
}

// ---------------------------------------------------------------------------
// Errors
// ---------------------------------------------------------------------------

/// **Law.** An error keeps its name on its way to the client: what was a bad
/// parameter stays one, and so does a bad response, a want of memory and a want
/// of bytes.
pub proof fn law_errors_keep_their_names()
    ensures
        client::from_header(HeaderError::NoDataAvailable) is NoDataAvailable,
        client::from_header(HeaderError::NeedMoreBytes) is NeedMoreBytes,
        client::from_header(HeaderError::BadResponse) is BadResponse,
        client::from_read(ReadError::NoDataAvailable) is RecvFailed,
        client::from_read(ReadError::RecvFailed) is RecvFailed,
        client::from_read(ReadError::BadResponse) is BadResponse,
        client::from_publish(crate::publish::PublishError::BadParameter) is BadParameter,
        client::from_publish(crate::publish::PublishError::BadResponse) is BadResponse,
        client::from_ack(AckError::BadParameter) is BadParameter,
        client::from_ack(AckError::BadResponse) is BadResponse,
        client::from_connack(crate::connack::ConnAckError::BadParameter) is BadParameter,
        client::from_connack(crate::connack::ConnAckError::BadResponse) is BadResponse,
        client::from_connect(crate::connect::ConnectError::BadParameter) is BadParameter,
        client::from_connect(crate::connect::ConnectError::NoMemory) is NoMemory,
        client::from_disconnect(crate::disconnect::DisconnectError::BadParameter) is BadParameter,
        client::from_disconnect(crate::disconnect::DisconnectError::BadResponse) is BadResponse,
        client::from_disconnect(crate::disconnect::DisconnectError::NoMemory) is NoMemory,
{
}

} // verus!
