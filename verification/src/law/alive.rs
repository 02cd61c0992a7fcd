//! Keeping a connection alive.

use vstd::prelude::*;

use crate::ack::PacketModel;
use crate::client;
use crate::client::send;
use crate::client::send::SendOutcome;
use crate::client::{ClientError, ConnectionStatus, ContextModel, Moment};
use crate::header;
use crate::law::incoming as reading;
use crate::law::messages;
use crate::law::transport;
use crate::loop_;
use crate::loop_::incoming;
use crate::loop_::incoming::Scene;
use crate::wire;

verus! {

/// **Law.** The time that passed between two readings of a clock is what has to
/// be added to the first to come to the second, on a clock that runs over.
pub proof fn law_elapsed(then: u32, passed: u32, now: u32)
    requires
        now == (then + passed) % 0x1_0000_0000,
    ensures
        client::elapsed(now, then) == passed,
        transport::waited(then, now) == passed,
{
}

/// **Law.** While an answer to a PINGREQ is awaited, the connection is given up
/// after more than 5 seconds, and nothing is done before. While none is
/// awaited, a PINGREQ is due exactly if nothing was sent for the keep-alive
/// time, or 30 seconds if that is less, or nothing arrived for 30 seconds. A
/// keep-alive time of 0 asks for nothing to be sent.
pub proof fn law_what_is_due(context: ContextModel, now: u32, sent: u32, heard: u32, asked: u32)
    requires
        now == (context.last_packet_tx_time + sent) % 0x1_0000_0000,
        now == (context.last_packet_rx_time + heard) % 0x1_0000_0000,
        now == (context.ping_req_send_time + asked) % 0x1_0000_0000,
    ensures
        ({
            let seconds = context.keep_alive_seconds as int;
            let idle = seconds != 0 && (sent >= 1000 * seconds || sent >= 30_000);
            let silent = heard >= 30_000;
            let due = loop_::due(context, now);
            &&& due is TimedOut <==> context.waiting_for_ping_resp && asked > 5_000
            &&& due is Ping <==> !context.waiting_for_ping_resp && (idle || silent)
            &&& due is Nothing <==> (context.waiting_for_ping_resp && asked <= 5_000) || (
            !context.waiting_for_ping_resp && !idle && !silent)
        }),
{
    law_elapsed(context.last_packet_tx_time, sent, now);
    law_elapsed(context.last_packet_rx_time, heard, now);
    law_elapsed(context.ping_req_send_time, asked, now);
}

/// **Law.** Keeping a connection alive fails for want of an answer only while
/// one is awaited, and only when more than 5 seconds have passed since the
/// PINGREQ. Then nothing is sent.
pub proof fn law_timeout_means_unanswered(
    before: Moment,
    after: Moment,
    result: Result<(), ClientError>,
)
    requires
        loop_::kept_alive(before, after, result),
    ensures
        !before.context.waiting_for_ping_resp ==> result != Err::<(), ClientError>(
            ClientError::KeepAliveTimeout,
        ),
        result == Err::<(), ClientError>(ClientError::KeepAliveTimeout) ==> {
            &&& before.context.waiting_for_ping_resp
            &&& transport::waited(before.context.ping_req_send_time, after.ticks.last()) > 5_000
            &&& after.wire == before.wire
        },
        before.context.waiting_for_ping_resp ==> after.wire == before.wire && after.context
            == before.context,
{
    let now = after.ticks[before.ticks.len() as int];
    assert(before.ticks.push(now).last() == now);
}

/// **Law.** A PINGREQ that went out is the two bytes of one, it went out on a
/// connection, and from then on an answer is awaited: since the reading of the
/// clock at which the last of it was taken. Where none went out, none is
/// awaited that was not before.
pub proof fn law_ping_is_sent(before: Moment, after: Moment, result: Result<(), ClientError>)
    requires
        send::pinging(before, after, result),
    ensures
        ({
            let exchanges = after.wire.skip(before.wire.len() as int);
            &&& result is Ok ==> {
                &&& before.context.status is Connected
                &&& after.context.waiting_for_ping_resp
                &&& after.context.ping_req_send_time == after.context.last_packet_tx_time
                &&& transport::honest(exchanges) ==> transport::all_taken(exchanges) == seq![
                    0xC0u8,
                    0x00u8,
                ]
            }
            &&& result is Err ==> after.context.waiting_for_ping_resp
                == before.context.waiting_for_ping_resp && after.context.ping_req_send_time
                == before.context.ping_req_send_time
            &&& before.context.status is NotConnected ==> result == Err::<(), ClientError>(
                ClientError::NotConnected,
            ) && after == before
            &&& before.context.status is DisconnectPending ==> result == Err::<(), ClientError>(
                ClientError::DisconnectPending,
            ) && after == before
            &&& before.context.status is Connected && result is Err ==> result == Err::<
                (),
                ClientError,
            >(ClientError::SendFailed)
        }),
{
    messages::law_pingreq_is_empty();
    let bytes = crate::writer::PINGREQ@;
    if before.context.status is Connected {
        let (sent, outcome) = choose|sent: Moment, outcome: SendOutcome| #[trigger]
            send::sending(before, sent, bytes, false, outcome) && if outcome == SendOutcome::Sent(
                2,
            ) {
                &&& result == Ok::<(), ClientError>(())
                &&& after == (Moment {
                    context: ContextModel {
                        ping_req_send_time: sent.context.last_packet_tx_time,
                        waiting_for_ping_resp: true,
                        ..sent.context
                    },
                    ..sent
                })
            } else {
                result == Err::<(), ClientError>(ClientError::SendFailed) && after == sent
            };
        if outcome == SendOutcome::Sent(2) {
            transport::law_sent_is_taken(before, sent, bytes, false, 2);
        }
        reveal(send::sending);
    }
}

/// The two bytes of a PINGRESP are at the front of what has arrived.
pub open spec fn pingresp_in_front(context: ContextModel) -> bool {
    &&& 2 <= context.index
    &&& 2 <= context.network.len()
    &&& context.network[0] == 0xD0
    &&& context.network[1] == 0x00
}

proof fn lemma_pingresp_seen(context: ContextModel)
    requires
        pingresp_in_front(context),
    ensures
        incoming::packet_seen(context.network, context.index, 2) == Some(
            PacketModel { packet_type: 0xD0, claimed: 0, data: Seq::empty() },
        ),
{
    let here = header::arrived_of(context.network, context.index);
    assert(here[0] == 0xD0 && here[1] == 0x00);
    wire::lemma_length_bytes_unfold(0);
    let rest = here.skip(2);
    assert(here =~= seq![0xD0u8] + wire::length_bytes(0) + rest);
    reading::law_header_is_read(0xD0, 0, rest, Seq::empty());
    assert(context.network.subrange(2, 2) =~= Seq::empty());
}

/// **Law.** Once a client that keeps its connection alive has handled a
/// PINGRESP, no answer is awaited any more. Nothing else changes, nothing is
/// sent and nobody is told. So no later look at the clock finds that an answer
/// is overdue, as long as no other PINGREQ has made the client wait again.
pub proof fn law_pingresp_ends_the_wait(
    before: Scene,
    after: Scene,
    result: Result<(), ClientError>,
    later: Moment,
    latest: Moment,
    outcome: Result<(), ClientError>,
)
    requires
        pingresp_in_front(before.moment.context),
        before.moment.context.properties.client.max_packet_size >= 2,
        incoming::packet_handled(before, after, 2, true, result),
        later.context.waiting_for_ping_resp == after.moment.context.waiting_for_ping_resp,
        loop_::kept_alive(later, latest, outcome),
    ensures
        result is Ok,
        !after.moment.context.waiting_for_ping_resp,
        after.moment.context == (ContextModel {
            waiting_for_ping_resp: false,
            ..before.moment.context
        }),
        after.moment.wire == before.moment.wire,
        after.told == before.told,
        after.kept == before.kept,
        outcome != Err::<(), ClientError>(ClientError::KeepAliveTimeout),
{
    reveal(incoming::packet_handled);
    let context = before.moment.context;
    lemma_pingresp_seen(context);
    reading::law_pingresp_is_read(
        PacketModel { packet_type: 0xD0, claimed: 0, data: Seq::empty() },
        incoming::limits_of(context.properties),
    );
    law_timeout_means_unanswered(later, latest, outcome);
}

/// **Law.** The same of a whole turn of the loop: behind a PINGRESP no answer is
/// awaited, its two bytes are gone from the front, and the time at which it was
/// handled is the time at which something last arrived.
pub proof fn law_turn_with_pingresp(
    before: Scene,
    after: Scene,
    result: Result<(), ClientError>,
)
    requires
        pingresp_in_front(before.moment.context),
        before.moment.context.properties.client.max_packet_size >= 2,
        loop_::front_handled(before, after, true, Ok(2), result),
    ensures
        result is Ok,
        !after.moment.context.waiting_for_ping_resp,
        after.moment.context.index == before.moment.context.index - 2,
        after.moment.context.last_packet_rx_time == after.moment.ticks.last(),
{
    reveal(incoming::packet_handled);
    let context = before.moment.context;
    lemma_pingresp_seen(context);
    reading::law_pingresp_is_read(
        PacketModel { packet_type: 0xD0, claimed: 0, data: Seq::empty() },
        incoming::limits_of(context.properties),
    );
}

/// **Law.** A client that leaves the keep-alive to its application tells it of a
/// PINGRESP, which has no identifier, no codes and no properties, wants no
/// answer to it, and takes the application's verdict for the result.
pub proof fn law_pingresp_is_told(before: Scene, after: Scene, result: Result<(), ClientError>)
    requires
        pingresp_in_front(before.moment.context),
        before.moment.context.properties.client.max_packet_size >= 2,
        incoming::packet_handled(before, after, 2, false, result),
    ensures
        after.told.len() == before.told.len() + 1,
        after.told.drop_last() == before.told,
        ({
            let told = after.told.last();
            &&& told.event.packet_type == 0xD0
            &&& told.event.packet_id == 0
            &&& told.event.publish is None
            &&& told.event.reason_codes.len() == 0
            &&& told.event.properties.len() == 0
            &&& !told.offered.wants_reply
            &&& result is Ok <==> told.accepted
        }),
        after.moment.wire == before.moment.wire,
        after.moment.context.waiting_for_ping_resp == before.moment.context.waiting_for_ping_resp,
{
    reveal(incoming::packet_handled);
    let context = before.moment.context;
    lemma_pingresp_seen(context);
    reading::law_pingresp_is_read(
        PacketModel { packet_type: 0xD0, claimed: 0, data: Seq::empty() },
        incoming::limits_of(context.properties),
    );
}

/// **Law.** Nothing is sent on a connection that does not stand.
pub proof fn law_only_when_connected(status: ConnectionStatus)
    ensures
        client::connected_check(status) is Ok <==> status is Connected,
        client::connected_check(status) == Err::<(), ClientError>(ClientError::NotConnected)
            <==> status is NotConnected,
        client::connected_check(status) == Err::<(), ClientError>(ClientError::DisconnectPending)
            <==> status is DisconnectPending,
{
}

} // verus!
