//! The loop: taking in what has arrived, packet by packet, and keeping the
//! connection alive.
//!
//! One call asks the transport once, and then handles every packet that has
//! arrived whole. What is left of one that has not stays at the front of the
//! network buffer for the next call.
//!
//! * Keeping alive is looked after only when nothing arrived, and before any
//!   packet that was already there is handled.
//! * That nothing arrived is no error. That a packet is incomplete is told.

use vstd::prelude::*;

use crate::client;
use crate::client::send;
use crate::client::{
    elapsed_ms, ClientError, Clock, ConnectionStatus, ContextModel, EventHandler, Keeping, Moment,
    MqttContext, Store,
};
use crate::header;
use crate::header::process_incoming_packet_type_and_length;
use crate::loop_::incoming::{lend, Scene};
use crate::reader::{Exchange, Recv, Transport};
use crate::session::recv_into;
use crate::session::resume;
use crate::state;
use crate::state::{AckType, Operation, QoS, RecordsModel};
use crate::wire;

pub use crate::loop_::answer::validate_publish_ack_reason_code;

pub mod answer;
pub mod incoming;

verus! {

/// How long the client sends nothing before it sends a PINGREQ, whatever its
/// keep-alive interval.
pub const PACKET_TX_TIMEOUT_MS: u32 = 30_000;

/// How long it hears nothing before it sends one.
pub const PACKET_RX_TIMEOUT_MS: u32 = 30_000;

/// How long the answer to it may take.
pub const PINGRESP_TIMEOUT_MS: u32 = 5_000;

// ---------------------------------------------------------------------------
// Keeping alive
// ---------------------------------------------------------------------------

/// What is due to keep the connection alive.
#[derive(Debug, Clone, Copy, PartialEq, Eq, Structural)]
pub enum KeepAlive {
    /// Nothing.
    Nothing,
    /// A PINGREQ.
    Ping,
    /// The answer to the last one is overdue.
    TimedOut,
}

/// How long the client may send nothing. Zero means for ever.
pub open spec fn tx_timeout(keep_alive_seconds: u16) -> int {
    if PACKET_TX_TIMEOUT_MS < 1000 * keep_alive_seconds {
        PACKET_TX_TIMEOUT_MS as int
    } else {
        1000 * keep_alive_seconds
    }
}

/// What is due at this time.
pub open spec fn due(context: ContextModel, now: u32) -> KeepAlive {
    let timeout = tx_timeout(context.keep_alive_seconds);
    if context.waiting_for_ping_resp {
        if client::elapsed(now, context.ping_req_send_time) > PINGRESP_TIMEOUT_MS {
            KeepAlive::TimedOut
        } else {
            KeepAlive::Nothing
        }
    } else if timeout != 0 && client::elapsed(now, context.last_packet_tx_time) >= timeout {
        KeepAlive::Ping
    } else if client::elapsed(now, context.last_packet_rx_time) >= PACKET_RX_TIMEOUT_MS {
        KeepAlive::Ping
    } else {
        KeepAlive::Nothing
    }
}

/// The connection was kept alive: the clock was read, and what was due was done.
pub open spec fn kept_alive(
    before: Moment,
    after: Moment,
    result: Result<(), ClientError>,
) -> bool {
    let now = after.ticks[before.ticks.len() as int];
    let read = Moment { ticks: before.ticks.push(now), ..before };
    match due(before.context, now) {
        KeepAlive::Nothing => after == read && result == Ok::<(), ClientError>(()),
        KeepAlive::TimedOut => after == read && result == Err::<(), ClientError>(
            ClientError::KeepAliveTimeout,
        ),
        KeepAlive::Ping => send::pinging(read, after, result),
    }
}

/// **Law.** While an answer is awaited no second PINGREQ is sent, and without
/// one a client that both sends and hears often enough sends none.
pub proof fn law_no_needless_ping(context: ContextModel, now: u32)
    ensures
        context.waiting_for_ping_resp ==> due(context, now) != KeepAlive::Ping,
        client::elapsed(now, context.last_packet_rx_time) < PACKET_RX_TIMEOUT_MS && (
        context.keep_alive_seconds == 0 || client::elapsed(now, context.last_packet_tx_time)
            < tx_timeout(context.keep_alive_seconds)) ==> due(context, now) != KeepAlive::Ping,
{
}

// ---------------------------------------------------------------------------
// What has arrived
// ---------------------------------------------------------------------------

/// How long the packet at the front of the network buffer is.
pub open spec fn measured(context: ContextModel) -> Result<usize, ClientError> {
    match header::header_of(header::arrived_of(context.network, context.index)) {
        Ok(found) => Ok((found.remaining_length + found.header_length) as usize),
        Err(error) => Err(client::from_header(error)),
    }
}

/// The context without the first `total` bytes that arrived.
pub open spec fn consumed(context: ContextModel, total: usize) -> ContextModel {
    let network = context.network;
    ContextModel {
        index: if context.index >= total {
            (context.index - total) as usize
        } else {
            0
        },
        network: network.skip(total as int) + network.skip(network.len() - total),
        ..context
    }
}

/// **Law.** What is left after a packet was taken away is what had arrived
/// behind it.
pub proof fn law_consumed_keeps_the_rest(context: ContextModel, total: usize)
    requires
        total <= context.index <= context.network.len(),
    ensures
        consumed(context, total).network.len() == context.network.len(),
        header::arrived_of(consumed(context, total).network, consumed(context, total).index)
            == header::arrived_of(context.network, context.index).skip(total as int),
{
    let after = consumed(context, total);
    assert(header::arrived_of(after.network, after.index) =~= header::arrived_of(
        context.network,
        context.index,
    ).skip(total as int));
}

/// A packet that was measured has at least a type and a length.
proof fn lemma_measured(context: ContextModel)
    ensures
        measured(context) matches Ok(total) ==> {
            let found = header::header_of(header::arrived_of(context.network, context.index));
            &&& total >= 2
            &&& found is Ok
            &&& total == found->Ok_0.remaining_length + found->Ok_0.header_length
        },
{
    let arrived = header::arrived_of(context.network, context.index);
    if arrived.len() > 0 {
        wire::lemma_read_length_bounds(arrived.skip(1));
    }
}

/// Nothing was received.
pub open spec fn quiet(received: Recv) -> bool {
    received == Recv::Nothing || received == Recv::Bytes(0)
}

/// The index with so many more bytes.
pub open spec fn index_after(index: usize, received: Recv) -> usize {
    match received {
        Recv::Bytes(count) => if index + count > usize::MAX {
            usize::MAX
        } else {
            (index + count) as usize
        },
        _ => index,
    }
}

/// What a transport's answer amounts to: how long the packet at the front is, or
/// why that is not known, and the context by then.
pub open spec fn taken_in(context: ContextModel, received: Recv) -> (
    Result<usize, ClientError>,
    ContextModel,
) {
    if received == Recv::Failed {
        (
            Err(ClientError::RecvFailed),
            ContextModel { status: send::after_failure(context.status), ..context },
        )
    } else if quiet(received) && context.index == 0 {
        (Err(ClientError::NoDataAvailable), context)
    } else {
        let after = ContextModel { index: index_after(context.index, received), ..context };
        (measured(after), after)
    }
}

/// The client waits for more.
pub open spec fn waits(found: Result<usize, ClientError>) -> bool {
    found is Ok || found == Err::<usize, ClientError>(ClientError::NoDataAvailable) || found == Err::<
        usize,
        ClientError,
    >(ClientError::NeedMoreBytes)
}

/// The connection was kept alive, if that is the client's to do and nothing
/// arrived. A failure takes the place of what was found.
pub open spec fn looked_after(
    before: Scene,
    after: Scene,
    received: Recv,
    manage_keep_alive: bool,
    found: Result<usize, ClientError>,
    status: Result<usize, ClientError>,
) -> bool {
    if quiet(received) && manage_keep_alive && waits(found) {
        &&& after == (Scene { moment: after.moment, ..before })
        &&& exists|result: Result<(), ClientError>| #[trigger]
            kept_alive(before.moment, after.moment, result) && status == match result {
                Ok(()) => found,
                Err(error) => Err(error),
            }
    } else {
        after == before && status == found
    }
}

/// Whether the packet at the front can be handled.
pub open spec fn fitting(context: ContextModel, status: Result<usize, ClientError>) -> Result<
    usize,
    ClientError,
> {
    match status {
        Err(error) => Err(error),
        Ok(total) => if total > context.network.len() {
            Err(ClientError::RecvFailed)
        } else if total > context.index {
            Err(ClientError::NeedMoreBytes)
        } else {
            Ok(total)
        },
    }
}

/// The packet at the front was handled and taken away, if it can be.
pub open spec fn front_handled(
    before: Scene,
    after: Scene,
    manage_keep_alive: bool,
    status: Result<usize, ClientError>,
    result: Result<(), ClientError>,
) -> bool {
    match fitting(before.moment.context, status) {
        Err(error) => after == before && result == Err::<(), ClientError>(error),
        Ok(total) => exists|handled: Scene, outcome: Result<(), ClientError>| #[trigger]
            incoming::packet_handled(before, handled, total, manage_keep_alive, outcome) && if outcome is
                Err {
                after == handled && result == outcome
            } else {
                let now = after.moment.ticks.last();
                &&& result == Ok::<(), ClientError>(())
                &&& after == (Scene {
                    moment: Moment {
                        context: ContextModel {
                            last_packet_rx_time: now,
                            ..consumed(handled.moment.context, total)
                        },
                        ticks: handled.moment.ticks.push(now),
                        ..handled.moment
                    },
                    ..handled
                })
            },
    }
}

/// One turn of the loop.
pub open spec fn turned(
    before: Scene,
    after: Scene,
    received: Recv,
    manage_keep_alive: bool,
    result: Result<(), ClientError>,
) -> bool {
    let (found, context) = taken_in(before.moment.context, received);
    exists|awake: Scene, status: Result<usize, ClientError>|
        {
            &&& #[trigger] looked_after(
                before.with(context),
                awake,
                received,
                manage_keep_alive,
                found,
                status,
            )
            &&& front_handled(awake, after, manage_keep_alive, status, result)
        }
}

/// What the next turn goes by.
pub open spec fn next_received(received: Recv) -> Recv {
    if quiet(received) {
        received
    } else {
        Recv::Bytes(0)
    }
}

/// Turn after turn, until one fails or nothing is left. `count` is how many
/// went on to another.
pub open spec fn turns(
    count: nat,
    before: Scene,
    after: Scene,
    received: Recv,
    manage_keep_alive: bool,
    result: Result<(), ClientError>,
) -> bool
    decreases count,
{
    exists|middle: Scene, one: Result<(), ClientError>| #[trigger]
        turned(before, middle, received, manage_keep_alive, one) && if one is Err
            || middle.moment.context.index == 0 {
            count == 0 && after == middle && result == one
        } else {
            &&& count > 0
            &&& turns(
                (count - 1) as nat,
                middle,
                after,
                next_received(received),
                manage_keep_alive,
                result,
            )
        }
}

/// The transport was asked for as much as there is room for.
pub open spec fn asked(before: Scene, after: Scene, received: Recv) -> bool {
    let context = before.moment.context;
    if context.index > context.network.len() {
        after == before && received == Recv::Failed
    } else {
        let index = context.index as int;
        let network = after.moment.context.network;
        &&& network.len() == context.network.len()
        &&& after == (Scene {
            moment: Moment {
                context: ContextModel {
                    network: wire::overwrite(context.network, index, network.skip(index)),
                    ..context
                },
                wire: before.moment.wire.push(
                    Exchange::Receive { got: received, buffer: network.skip(index) },
                ),
                ..before.moment
            },
            ..before
        })
    }
}

/// That nothing arrived is no error.
pub open spec fn finished(outcome: Result<(), ClientError>) -> Result<(), ClientError> {
    if outcome == Err::<(), ClientError>(ClientError::NoDataAvailable) {
        Ok(())
    } else {
        outcome
    }
}

/// One call of the loop.
pub open spec fn iterated(
    before: Scene,
    after: Scene,
    manage_keep_alive: bool,
    result: Result<(), ClientError>,
) -> bool {
    exists|
        first: Scene,
        received: Recv,
        count: nat,
        outcome: Result<(), ClientError>,
    |
        {
            &&& #[trigger] asked(before, first, received)
            &&& #[trigger] turns(count, first, after, received, manage_keep_alive, outcome)
            &&& result == finished(outcome)
        }
}

/// **Law.** The loop never reports that nothing arrived.
pub proof fn law_silence_is_no_error(
    before: Scene,
    after: Scene,
    manage_keep_alive: bool,
    result: Result<(), ClientError>,
)
    requires
        iterated(before, after, manage_keep_alive, result),
    ensures
        result != Err::<(), ClientError>(ClientError::NoDataAvailable),
{
}

// ---------------------------------------------------------------------------
// What handling a packet leaves alone
// ---------------------------------------------------------------------------

/// The two contexts hold the same bytes.
pub open spec fn same_bytes(one: ContextModel, other: ContextModel) -> bool {
    one.network == other.network && one.index == other.index
}

/// What every step keeps: the bytes that have arrived, and the invariant of the
/// records.
pub open spec fn kept_whole(before: ContextModel, after: ContextModel) -> bool {
    same_bytes(before, after) && (client::records_ok(before) ==> client::records_ok(after))
}

/// A result that does not say that nothing arrived.
pub open spec fn not_silence(result: Result<(), ClientError>) -> bool {
    result != Err::<(), ClientError>(ClientError::NoDataAvailable)
}

/// An acknowledgement in the records keeps their invariant.
proof fn lemma_records_kept(
    records: Option<RecordsModel>,
    packet_id: u16,
    ack: AckType,
    op: Operation,
    qos: QoS,
)
    requires
        records matches Some(records) ==> records.well_formed() && records.apart(),
    ensures
        records matches Some(records) ==> {
            &&& records.after_ack(packet_id, ack, op).1.well_formed()
            &&& records.after_ack(packet_id, ack, op).1.apart()
            &&& records.after_publish(packet_id, op, qos).1.well_formed()
            &&& records.after_publish(packet_id, op, qos).1.apart()
        },
{
    if let Some(records) = records {
        state::law_records_stay_well_formed(records, packet_id, ack, op, qos, 0, 0);
        state::law_directions_stay_apart(records, packet_id, ack, op, qos, 0, 0);
    }
}

/// Sending an acknowledgement leaves what has arrived alone.
proof fn lemma_posting_keeps(
    before: Moment,
    after: Moment,
    kept_before: Option<Seq<Keeping>>,
    kept_after: Option<Seq<Keeping>>,
    packet_type: u8,
    packet_id: u16,
    parts: Seq<Seq<u8>>,
    gather: bool,
    result: Result<(), ClientError>,
)
    requires
        answer::ack_posted(
            before,
            after,
            kept_before,
            kept_after,
            packet_type,
            packet_id,
            parts,
            gather,
            result,
        ),
    ensures
        kept_whole(before.context, after.context),
        not_silence(result),
{
    if after != before {
        let whole = parts.flatten();
        let (sent, outcome) = choose|sent: Moment, outcome: send::SendOutcome| #[trigger]
            send::sending(before, sent, whole, gather, outcome) && if outcome
                == send::SendOutcome::Sent(whole.len() as usize) {
                let (noted, context) = resume::ack_noted(
                    sent.context,
                    packet_id,
                    resume::ack_meant(packet_type)->0,
                );
                result == noted && after == (Moment { context, ..sent })
            } else {
                result == Err::<(), ClientError>(ClientError::SendFailed) && after == sent
            };
        send::lemma_sending_keeps(before, sent, whole, gather, outcome);
        if client::records_ok(before.context) {
            lemma_records_kept(
                sent.context.records,
                packet_id,
                resume::ack_meant(packet_type)->0,
                Operation::Send,
                QoS::AtMostOnce,
            );
        }
    }
}

/// So does answering.
proof fn lemma_answering_keeps(
    before: Moment,
    after: Moment,
    kept_before: Option<Seq<Keeping>>,
    kept_after: Option<Seq<Keeping>>,
    packet_id: u16,
    state: state::PublishState,
    reply: answer::Reply,
    result: Result<(), ClientError>,
)
    requires
        answer::ack_sent(
            before,
            after,
            kept_before,
            kept_after,
            packet_id,
            state,
            reply,
            result,
        ),
    ensures
        kept_whole(before.context, after.context),
        not_silence(result),
{
    let packet_type = resume::ack_type(state);
    if after != before {
        if reply.property_length == 0 && reply.reason_code is None {
            lemma_posting_keeps(
                before,
                after,
                kept_before,
                kept_after,
                packet_type,
                packet_id,
                seq![crate::outbound::simple_ack_bytes(packet_type, packet_id)],
                false,
                result,
            );
        } else {
            let ready = Moment {
                context: answer::properties_spent(before.context, reply.property_length),
                ..before
            };
            lemma_posting_keeps(
                ready,
                after,
                kept_before,
                kept_after,
                packet_type,
                packet_id,
                answer::full_ack_parts(
                    packet_type,
                    packet_id,
                    reply.reason_code->0,
                    before.context.ack_properties.take(reply.property_length as int),
                ),
                true,
                result,
            );
        }
    }
}

/// **Law.** Handling a packet leaves what has arrived alone, and keeps the
/// invariant of the records: no packet id is in flight twice, no place is half
/// empty, and what was sent and what was received are kept apart.
pub proof fn law_handling_keeps(
    before: Scene,
    after: Scene,
    total: usize,
    manage_keep_alive: bool,
    result: Result<(), ClientError>,
)
    requires
        incoming::packet_handled(before, after, total, manage_keep_alive, result),
    ensures
        kept_whole(before.moment.context, after.moment.context),
        not_silence(result),
{
    reveal(incoming::packet_handled);
    let network = before.moment.context.network;
    let context = before.moment.context;
    if network.len() == 0 {
    } else if network[0] / 16 == header::packet::PUBLISH / 16 {
        let (plan, planned) = incoming::publish_plan(context, total);
        lemma_publish_plan_keeps(context, total);
        if let Ok(plan) = plan {
            let told = after.told.last();
            let (start, accepted, code) = if plan.tell {
                (incoming::after_telling(planned, told), told.accepted, told.reply.reason_code)
            } else {
                (planned, true, None)
            };
            let ready = before.with(start).moment;
            if after.moment != ready {
                lemma_answering_keeps(
                    ready,
                    after.moment,
                    before.kept,
                    after.kept,
                    plan.packet_id,
                    plan.ack_state,
                    answer::Reply { reason_code: code, property_length: start.ack_used },
                    result,
                );
            }
        }
    } else if network[0] == header::packet::DISCONNECT {
        lemma_disconnect_keeps(before, after, total, result);
    } else if resume::ack_meant(network[0]) is Some {
        let (plan, planned) = incoming::ack_plan(context, total);
        lemma_ack_plan_keeps(context, total);
        if let Ok(plan) = plan {
            let told = after.told.last();
            let start = incoming::after_telling(planned, told);
            let ready = before.with(start).moment;
            if after.moment != ready {
                lemma_answering_keeps(
                    ready,
                    after.moment,
                    incoming::cleared(
                        before.kept,
                        incoming::cleared_key(plan.ack, plan.packet_id),
                    ),
                    after.kept,
                    plan.packet_id,
                    plan.ack_state,
                    answer::Reply {
                        reason_code: told.reply.reason_code,
                        property_length: start.ack_used,
                    },
                    result,
                );
            }
        }
    }
}

/// So does noting a publish.
proof fn lemma_publish_plan_keeps(context: ContextModel, total: usize)
    ensures
        kept_whole(context, incoming::publish_plan(context, total).1),
        incoming::publish_plan(context, total).0 matches Err(error) ==> error
            != ClientError::NoDataAvailable,
{
    if let Some(seen) = incoming::packet_seen(context.network, context.index, total) {
        if let Ok(found) = crate::publish::publish_of(
            seen,
            context.properties.client.max_packet_size,
            context.properties.client.topic_alias_max,
        ) {
            if client::records_ok(context) {
                lemma_records_kept(
                    context.records,
                    incoming::id_or_zero(found.packet_id),
                    AckType::PubAck,
                    Operation::Receive,
                    found.qos,
                );
            }
        }
    }
}

/// And noting an acknowledgement.
proof fn lemma_ack_plan_keeps(context: ContextModel, total: usize)
    ensures
        kept_whole(context, incoming::ack_plan(context, total).1),
        incoming::ack_plan(context, total).0 matches Err(error) ==> error
            != ClientError::NoDataAvailable,
{
    if let Some(seen) = incoming::packet_seen(context.network, context.index, total) {
        if let Some(ack) = resume::ack_meant(seen.packet_type) {
            if let Ok(info) = crate::ack::ack_of(seen, incoming::limits_of(context.properties)) {
                if client::records_ok(context) {
                    lemma_records_kept(
                        context.records,
                        incoming::id_or_zero(info.packet_id),
                        ack,
                        Operation::Receive,
                        QoS::AtMostOnce,
                    );
                }
            }
        }
    }
}

/// So does a DISCONNECT.
proof fn lemma_disconnect_keeps(
    before: Scene,
    after: Scene,
    total: usize,
    result: Result<(), ClientError>,
)
    requires
        incoming::disconnect_handled(before, after, total, result),
    ensures
        kept_whole(before.moment.context, after.moment.context),
        not_silence(result),
{
    let context = before.moment.context;
    if let Some(seen) = incoming::packet_seen(context.network, context.index, total) {
        if crate::disconnect::disconnect_of(
            seen,
            context.properties.client.max_packet_size,
        ) is Err {
            let (answered, answer) = choose|answered: Moment, answer: Result<(), ClientError>|
                #[trigger]
                incoming::disconnect_answered(before, after, answered, answer, result);
            lemma_disconnecting_keeps(before.moment, answered, answer);
        }
    }
}

/// So does sending one.
proof fn lemma_disconnecting_keeps(
    before: Moment,
    after: Moment,
    result: Result<(), ClientError>,
)
    requires
        send::disconnecting(
            before,
            after,
            Some(crate::disconnect::reason::MALFORMED_PACKET),
            Seq::empty(),
            result,
        ),
    ensures
        kept_whole(before.context, after.context),
        not_silence(result),
{
    let code = Some(crate::disconnect::reason::MALFORMED_PACKET);
    if let Ok(size) = send::disconnect_check(before.context, code, Seq::empty()) {
        let bytes = crate::disconnect::disconnect_bytes(
            code,
            Seq::empty(),
            size.remaining_length,
        );
        let (sent, outcome) = choose|sent: Moment, outcome: send::SendOutcome| #[trigger]
            send::sending(before, sent, bytes, true, outcome) && if outcome
                == send::SendOutcome::Sent(size.packet_size as usize) {
                &&& result == Ok::<(), ClientError>(())
                &&& after == (Moment {
                    context: ContextModel {
                        status: ConnectionStatus::NotConnected,
                        ..sent.context
                    },
                    ..sent
                })
            } else {
                result == Err::<(), ClientError>(ClientError::SendFailed) && after == sent
            };
        send::lemma_sending_keeps(before, sent, bytes, true, outcome);
    }
}

// ---------------------------------------------------------------------------
// The loop itself
// ---------------------------------------------------------------------------

/// That nothing arrived is no error.
fn finish(outcome: Result<(), ClientError>) -> (result: Result<(), ClientError>)
    ensures
        result == finished(outcome),
{
    match outcome {
        Err(ClientError::NoDataAvailable) => Ok(()),
        other => other,
    }
}

/// What was asked of a store that may not be there.
pub open spec fn kept_of<S: Store>(store: Option<&mut S>) -> Option<Seq<Keeping>> {
    match store {
        Some(keeper) => Some(keeper.keepings()),
        None => None,
    }
}

impl<'a> MqttContext<'a> {
    /// What is due at this time to keep the connection alive.
    pub fn keep_alive_due(&self, now: u32) -> (step: KeepAlive)
        ensures
            step == due(self@, now),
    {
        let mut timeout: u32 = 1000 * self.keep_alive_seconds as u32;
        if PACKET_TX_TIMEOUT_MS < timeout {
            timeout = PACKET_TX_TIMEOUT_MS;
        }
        if self.waiting_for_ping_resp {
            if elapsed_ms(now, self.ping_req_send_time) > PINGRESP_TIMEOUT_MS {
                return KeepAlive::TimedOut;
            }
            return KeepAlive::Nothing;
        }
        if timeout != 0 && elapsed_ms(now, self.last_packet_tx_time) >= timeout {
            return KeepAlive::Ping;
        }
        if elapsed_ms(now, self.last_packet_rx_time) >= PACKET_RX_TIMEOUT_MS {
            return KeepAlive::Ping;
        }
        KeepAlive::Nothing
    }

    /// Keeps the connection alive.
    fn handle_keep_alive<T: Transport, C: Clock>(&mut self, transport: &mut T, clock: &mut C) -> (
    result: Result<(), ClientError>)
        ensures
            kept_alive(
                Moment::of(*old(self), *old(transport), *old(clock)),
                Moment::of(*final(self), *final(transport), *final(clock)),
                result,
            ),
    {
        let ghost before = Moment::of(*self, *transport, *clock);
        let now = clock.now_ms();
        match self.keep_alive_due(now) {
            KeepAlive::Nothing => Ok(()),
            KeepAlive::TimedOut => Err(ClientError::KeepAliveTimeout),
            KeepAlive::Ping => {
                let ghost read = Moment::of(*self, *transport, *clock);
                let result = self.ping(transport, clock);
                proof {
                    let after = Moment::of(*self, *transport, *clock);
                    lemma_pinging_reads_on(read, after, result);
                    assert(read.ticks =~= after.ticks.take(read.ticks.len() as int));
                    assert(read.ticks[before.ticks.len() as int] == now);
                    assert(after.ticks[before.ticks.len() as int] == now);
                }
                result
            },
        }
    }

    /// How long the packet at the front of the network buffer is.
    fn measure(&self) -> (total: Result<usize, ClientError>)
        ensures
            total == measured(self@),
    {
        match process_incoming_packet_type_and_length(self.network, self.index) {
            Ok(found) => {
                proof {
                    let arrived = header::arrived_of(self@.network, self@.index);
                    wire::lemma_read_length_bounds(arrived.skip(1));
                }
                Ok(found.remaining_length as usize + found.header_length)
            },
            Err(error) => Err(ClientError::from(error)),
        }
    }

    /// Takes the first `total` bytes away.
    fn consume(&mut self, total: usize)
        requires
            total <= old(self)@.network.len(),
        ensures
            final(self)@ == consumed(old(self)@, total),
    {
        self.index = if self.index >= total {
            self.index - total
        } else {
            0
        };
        move_to_front(self.network, total);
    }

    /// Notes what the transport brought, and measures the packet at the front.
    fn take_in(&mut self, received: Recv) -> (found: Result<usize, ClientError>)
        ensures
            (found, final(self)@) == taken_in(old(self)@, received),
    {
        match received {
            Recv::Failed => {
                self.note_failure();
                return Err(ClientError::RecvFailed);
            },
            Recv::Nothing => {
                if self.index == 0 {
                    return Err(ClientError::NoDataAvailable);
                }
            },
            Recv::Bytes(count) => {
                if count == 0 && self.index == 0 {
                    return Err(ClientError::NoDataAvailable);
                }
                self.index = if count > usize::MAX - self.index {
                    usize::MAX
                } else {
                    self.index + count
                };
            },
        }
        self.measure()
    }

    /// Keeps the connection alive, if that is the client's to do and nothing
    /// arrived.
    fn look_after<T: Transport, C: Clock>(
        &mut self,
        transport: &mut T,
        clock: &mut C,
        received: Recv,
        manage_keep_alive: bool,
        found: Result<usize, ClientError>,
    ) -> (status: Result<usize, ClientError>)
        ensures
            forall|kept: Option<Seq<Keeping>>, told: Seq<client::Told>| #[trigger]
                looked_after(
                    Scene { moment: Moment::of(*old(self), *old(transport), *old(clock)), kept, told },
                    Scene {
                        moment: Moment::of(*final(self), *final(transport), *final(clock)),
                        kept,
                        told,
                    },
                    received,
                    manage_keep_alive,
                    found,
                    status,
                ),
            same_bytes(old(self)@, final(self)@),
    {
        let ghost before = Moment::of(*self, *transport, *clock);
        let is_quiet = match received {
            Recv::Nothing => true,
            Recv::Bytes(count) => count == 0,
            Recv::Failed => false,
        };
        let is_waiting = match found {
            Ok(_) => true,
            Err(ClientError::NoDataAvailable) => true,
            Err(ClientError::NeedMoreBytes) => true,
            Err(_) => false,
        };
        if !(is_quiet && manage_keep_alive && is_waiting) {
            return found;
        }
        let result = self.handle_keep_alive(transport, clock);
        proof {
            let after = Moment::of(*self, *transport, *clock);
            assert(kept_alive(before, after, result));
            lemma_kept_alive_keeps(before, after, result);
        }
        match result {
            Ok(()) => found,
            Err(error) => Err(error),
        }
    }

    /// One turn of the loop.
    fn turn<T: Transport, C: Clock, S: Store, H: EventHandler>(
        &mut self,
        transport: &mut T,
        clock: &mut C,
        store: Option<&mut S>,
        handler: &mut H,
        received: Recv,
        manage_keep_alive: bool,
    ) -> (result: Result<(), ClientError>)
        ensures
            match store {
                Some(keeper) => turned(
                    Scene::of(
                        *old(self),
                        *old(transport),
                        *old(clock),
                        Some(keeper.keepings()),
                        *old(handler),
                    ),
                    Scene::of(
                        *final(self),
                        *final(transport),
                        *final(clock),
                        Some(final(keeper).keepings()),
                        *final(handler),
                    ),
                    received,
                    manage_keep_alive,
                    result,
                ),
                None => turned(
                    Scene::of(*old(self), *old(transport), *old(clock), None, *old(handler)),
                    Scene::of(
                        *final(self),
                        *final(transport),
                        *final(clock),
                        None,
                        *final(handler),
                    ),
                    received,
                    manage_keep_alive,
                    result,
                ),
            },
            result is Ok ==> final(self)@.index < index_after(old(self)@.index, received),
    {
        let ghost start = Moment::of(*self, *transport, *clock);
        let found = self.take_in(received);
        let ghost begun = Moment::of(*self, *transport, *clock);
        let status = self.look_after(transport, clock, received, manage_keep_alive, found);
        let ghost awake = Moment::of(*self, *transport, *clock);
        proof {
            lemma_measured(begun.context);
            assert(begun.context == taken_in(start.context, received).1);
        }
        let fitting_total: Result<usize, ClientError> = match status {
            Err(error) => Err(error),
            Ok(total) => if total > self.network.len() {
                Err(ClientError::RecvFailed)
            } else if total > self.index {
                Err(ClientError::NeedMoreBytes)
            } else {
                Ok(total)
            },
        };
        match store {
            Some(keeper) => {
                let ghost held = keeper.keepings();
                let ghost rest = Scene {
                    moment: awake,
                    kept: Some(held),
                    told: handler.told(),
                };
                assert(looked_after(
                    Scene { moment: begun, kept: Some(held), told: handler.told() },
                    rest,
                    received,
                    manage_keep_alive,
                    found,
                    status,
                ));
                let result = self.handle_front(
                    transport,
                    clock,
                    Some(&mut *keeper),
                    handler,
                    fitting_total,
                    manage_keep_alive,
                    Ghost(status),
                );
                assert(front_handled(
                    rest,
                    Scene::of(*self, *transport, *clock, Some(keeper.keepings()), *handler),
                    manage_keep_alive,
                    status,
                    result,
                ));
                result
            },
            None => {
                let ghost rest = Scene { moment: awake, kept: None, told: handler.told() };
                assert(looked_after(
                    Scene { moment: begun, kept: None, told: handler.told() },
                    rest,
                    received,
                    manage_keep_alive,
                    found,
                    status,
                ));
                self.handle_front(
                    transport,
                    clock,
                    None::<&mut S>,
                    handler,
                    fitting_total,
                    manage_keep_alive,
                    Ghost(status),
                )
            },
        }
    }

    /// Handles the packet at the front and takes it away, if it can be.
    fn handle_front<T: Transport, C: Clock, S: Store, H: EventHandler>(
        &mut self,
        transport: &mut T,
        clock: &mut C,
        store: Option<&mut S>,
        handler: &mut H,
        fitting_total: Result<usize, ClientError>,
        manage_keep_alive: bool,
        Ghost(status): Ghost<Result<usize, ClientError>>,
    ) -> (result: Result<(), ClientError>)
        requires
            fitting_total == fitting(old(self)@, status),
        ensures
            match store {
                Some(keeper) => front_handled(
                    Scene::of(
                        *old(self),
                        *old(transport),
                        *old(clock),
                        Some(keeper.keepings()),
                        *old(handler),
                    ),
                    Scene::of(
                        *final(self),
                        *final(transport),
                        *final(clock),
                        Some(final(keeper).keepings()),
                        *final(handler),
                    ),
                    manage_keep_alive,
                    status,
                    result,
                ),
                None => front_handled(
                    Scene::of(*old(self), *old(transport), *old(clock), None, *old(handler)),
                    Scene::of(
                        *final(self),
                        *final(transport),
                        *final(clock),
                        None,
                        *final(handler),
                    ),
                    manage_keep_alive,
                    status,
                    result,
                ),
            },
            result is Ok ==> fitting_total is Ok && final(self)@.index == old(self)@.index
                - fitting_total->Ok_0,
    {
        let total = match fitting_total {
            Ok(total) => total,
            Err(error) => return Err(error),
        };
        match store {
            Some(keeper) => {
                let ghost before = Scene::of(
                    *self,
                    *transport,
                    *clock,
                    Some(keeper.keepings()),
                    *handler,
                );
                let outcome = self.handle_packet(
                    transport,
                    clock,
                    Some(&mut *keeper),
                    handler,
                    total,
                    manage_keep_alive,
                );
                let ghost handled = Scene::of(
                    *self,
                    *transport,
                    *clock,
                    Some(keeper.keepings()),
                    *handler,
                );
                proof {
                    assert(incoming::packet_handled(
                        before,
                        handled,
                        total,
                        manage_keep_alive,
                        outcome,
                    ));
                    law_handling_keeps(
                        before,
                        handled,
                        total,
                        manage_keep_alive,
                        outcome,
                    );
                }
                if outcome.is_err() {
                    return outcome;
                }
                self.consume(total);
                self.last_packet_rx_time = clock.now_ms();
                Ok(())
            },
            None => {
                let ghost before = Scene::of(*self, *transport, *clock, None, *handler);
                let outcome = self.handle_packet(
                    transport,
                    clock,
                    None::<&mut S>,
                    handler,
                    total,
                    manage_keep_alive,
                );
                let ghost handled = Scene::of(*self, *transport, *clock, None, *handler);
                proof {
                    assert(incoming::packet_handled(
                        before,
                        handled,
                        total,
                        manage_keep_alive,
                        outcome,
                    ));
                    law_handling_keeps(
                        before,
                        handled,
                        total,
                        manage_keep_alive,
                        outcome,
                    );
                }
                if outcome.is_err() {
                    return outcome;
                }
                self.consume(total);
                self.last_packet_rx_time = clock.now_ms();
                Ok(())
            },
        }
    }
}

/// Moves everything behind the first `total` bytes to the front.
fn move_to_front(buffer: &mut [u8], total: usize)
    requires
        total <= old(buffer)@.len(),
    ensures
        final(buffer)@ == old(buffer)@.skip(total as int) + old(buffer)@.skip(
            old(buffer)@.len() - total,
        ),
{
    let ghost before = buffer@;
    let size = buffer.len();
    let mut i: usize = 0;
    while i < size - total
        invariant
            size == before.len(),
            buffer@.len() == size,
            total <= size,
            i <= size - total,
            forall|k: int| 0 <= k < i ==> buffer@[k] == before[k + total],
            forall|k: int| i <= k < size ==> buffer@[k] == before[k],
        decreases size - total - i,
    {
        buffer[i] = buffer[i + total];
        i += 1;
    }
    assert(buffer@ =~= before.skip(total as int) + before.skip(before.len() - total));
}

/// A PINGREQ adds readings, and takes none away.
proof fn lemma_pinging_reads_on(before: Moment, after: Moment, result: Result<(), ClientError>)
    requires
        send::pinging(before, after, result),
    ensures
        crate::reader::extends(before.ticks, after.ticks),
        kept_whole(before.context, after.context),
        not_silence(result),
{
    crate::reader::lemma_extends_self(before.ticks);
    if after != before {
        let bytes = crate::writer::PINGREQ@;
        let (sent, outcome) = choose|sent: Moment, outcome: send::SendOutcome| #[trigger]
            send::sending(before, sent, bytes, false, outcome) && if outcome
                == send::SendOutcome::Sent(2) {
                &&& result == Ok::<(), ClientError>(())
                &&& after == (Moment {
                    context: ContextModel {
                        ping_req_send_time: sent.context.last_packet_tx_time,
                        waiting_for_ping_resp: true,
                        ..sent.context
                    },
                    ..sent
                })
            } else {
                result == Err::<(), ClientError>(ClientError::SendFailed) && after == sent
            };
        send::lemma_sending_keeps(before, sent, bytes, false, outcome);
    }
}

/// Keeping alive leaves what has arrived alone.
proof fn lemma_kept_alive_keeps(
    before: Moment,
    after: Moment,
    result: Result<(), ClientError>,
)
    requires
        kept_alive(before, after, result),
    ensures
        kept_whole(before.context, after.context),
        not_silence(result),
{
    let now = after.ticks[before.ticks.len() as int];
    let read = Moment { ticks: before.ticks.push(now), ..before };
    if due(before.context, now) == KeepAlive::Ping {
        lemma_pinging_reads_on(read, after, result);
    }
}

impl<'a> MqttContext<'a> {
    /// Asks the transport for as much as there is room for.
    fn ask<T: Transport>(&mut self, transport: &mut T) -> (received: Recv)
        ensures
            forall|kept: Option<Seq<Keeping>>, told: Seq<client::Told>, ticks: Seq<u32>| #[trigger]
                asked(
                    Scene {
                        moment: Moment { context: old(self)@, wire: old(transport).log(), ticks },
                        kept,
                        told,
                    },
                    Scene {
                        moment: Moment {
                            context: final(self)@,
                            wire: final(transport).log(),
                            ticks,
                        },
                        kept,
                        told,
                    },
                    received,
                ),
    {
        if self.index > self.network.len() {
            return Recv::Failed;
        }
        let to = self.network.len();
        let received = recv_into(transport, self.network, self.index, to);
        assert(self.network@.subrange(self.index as int, to as int) =~= self.network@.skip(
            self.index as int,
        ));
        received
    }

    /// Takes in what has arrived, packet by packet.
    fn receive_single_iteration<T: Transport, C: Clock, S: Store, H: EventHandler>(
        &mut self,
        transport: &mut T,
        clock: &mut C,
        mut store: Option<&mut S>,
        handler: &mut H,
        manage_keep_alive: bool,
    ) -> (result: Result<(), ClientError>)
        ensures
            match store {
                Some(keeper) => iterated(
                    Scene::of(
                        *old(self),
                        *old(transport),
                        *old(clock),
                        Some(keeper.keepings()),
                        *old(handler),
                    ),
                    Scene::of(
                        *final(self),
                        *final(transport),
                        *final(clock),
                        Some(final(keeper).keepings()),
                        *final(handler),
                    ),
                    manage_keep_alive,
                    result,
                ),
                None => iterated(
                    Scene::of(*old(self), *old(transport), *old(clock), None, *old(handler)),
                    Scene::of(
                        *final(self),
                        *final(transport),
                        *final(clock),
                        None,
                        *final(handler),
                    ),
                    manage_keep_alive,
                    result,
                ),
            },
    {
        let ghost lender = store;
        let ghost before = Scene::of(*self, *transport, *clock, kept_of(store), *handler);
        let mut received = self.ask(transport);
        let ghost start = Scene::of(*self, *transport, *clock, kept_of(store), *handler);
        let ghost answer = received;
        let ghost mut steps: nat = 0;
        assert(asked(before, start, answer));
        let mut outcome: Result<(), ClientError> = Ok(());
        loop
            invariant_except_break
                before == Scene::of(
                    *old(self),
                    *old(transport),
                    *old(clock),
                    kept_of(lender),
                    *old(handler),
                ),
                asked(before, start, answer),
                forall|count: nat, after: Scene, outcome: Result<(), ClientError>| #[trigger]
                    turns(
                        count,
                        Scene::of(*self, *transport, *clock, kept_of(store), *handler),
                        after,
                        received,
                        manage_keep_alive,
                        outcome,
                    ) ==> turns(
                        count + steps,
                        start,
                        after,
                        answer,
                        manage_keep_alive,
                        outcome,
                    ),
            invariant
                store is Some == lender is Some,
                store is Some ==> *final(store->0) == *final(lender->0),
            ensures
                iterated(
                    before,
                    Scene::of(*self, *transport, *clock, kept_of(store), *handler),
                    manage_keep_alive,
                    finished(outcome),
                ),
            decreases index_after(self@.index, received),
        {
            let ghost now = Scene::of(*self, *transport, *clock, kept_of(store), *handler);
            let one = self.turn(
                transport,
                clock,
                lend(&mut store),
                handler,
                received,
                manage_keep_alive,
            );
            let ghost then = Scene::of(*self, *transport, *clock, kept_of(store), *handler);
            assert(turned(now, then, received, manage_keep_alive, one));
            if one.is_err() || self.index == 0 {
                assert(turns(0, now, then, received, manage_keep_alive, one));
                assert(turns(0 + steps, start, then, answer, manage_keep_alive, one));
                assert(iterated(before, then, manage_keep_alive, finished(one)));
                outcome = one;
                break;
            }
            let ghost last = received;
            received = match received {
                Recv::Nothing => Recv::Nothing,
                _ => Recv::Bytes(0),
            };
            proof {
                assert(received == next_received(last));
                assert forall|count: nat, after: Scene, outcome: Result<(), ClientError>| #[trigger]
                    turns(count, then, after, received, manage_keep_alive, outcome) implies turns(
                    count + (steps + 1),
                    start,
                    after,
                    answer,
                    manage_keep_alive,
                    outcome,
                ) by {
                    assert(turns(count + 1, now, after, last, manage_keep_alive, outcome));
                    assert(count + 1 + steps == count + (steps + 1));
                }
                steps = steps + 1;
            }
        }
        finish(outcome)
    }

    /// Takes in what has arrived, and keeps the connection alive.
    ///
    /// # Errors
    ///
    /// [`ClientError::NeedMoreBytes`] if the last packet has not arrived whole,
    /// [`ClientError::RecvFailed`] if the transport fails or a packet does not
    /// fit, [`ClientError::KeepAliveTimeout`] if the broker does not answer a
    /// ping, [`ClientError::EventCallbackFailed`] if the application refuses an
    /// event, and what is said of a packet that is malformed or cannot be
    /// answered.
    pub fn process_loop<T: Transport, C: Clock, S: Store, H: EventHandler>(
        &mut self,
        transport: &mut T,
        clock: &mut C,
        store: Option<&mut S>,
        handler: &mut H,
    ) -> (result: Result<(), ClientError>)
        ensures
            match store {
                Some(keeper) => iterated(
                    Scene::of(
                        *old(self),
                        *old(transport),
                        *old(clock),
                        Some(keeper.keepings()),
                        *old(handler),
                    ).with(ContextModel { control_packet_sent: false, ..old(self)@ }),
                    Scene::of(
                        *final(self),
                        *final(transport),
                        *final(clock),
                        Some(final(keeper).keepings()),
                        *final(handler),
                    ),
                    true,
                    result,
                ),
                None => iterated(
                    Scene::of(*old(self), *old(transport), *old(clock), None, *old(handler)).with(ContextModel { control_packet_sent: false, ..old(self)@ }),
                    Scene::of(
                        *final(self),
                        *final(transport),
                        *final(clock),
                        None,
                        *final(handler),
                    ),
                    true,
                    result,
                ),
            },
            result != Err::<(), ClientError>(ClientError::NoDataAvailable),
    {
        self.control_packet_sent = false;
        self.receive_single_iteration(transport, clock, store, handler, true)
    }

    /// Takes in what has arrived. Keeping the connection alive is left to the
    /// application, which is told of every PINGRESP.
    ///
    /// # Errors
    ///
    /// As [`process_loop`](Self::process_loop), but for the answer to a ping.
    pub fn receive_loop<T: Transport, C: Clock, S: Store, H: EventHandler>(
        &mut self,
        transport: &mut T,
        clock: &mut C,
        store: Option<&mut S>,
        handler: &mut H,
    ) -> (result: Result<(), ClientError>)
        ensures
            match store {
                Some(keeper) => iterated(
                    Scene::of(
                        *old(self),
                        *old(transport),
                        *old(clock),
                        Some(keeper.keepings()),
                        *old(handler),
                    ),
                    Scene::of(
                        *final(self),
                        *final(transport),
                        *final(clock),
                        Some(final(keeper).keepings()),
                        *final(handler),
                    ),
                    false,
                    result,
                ),
                None => iterated(
                    Scene::of(*old(self), *old(transport), *old(clock), None, *old(handler)),
                    Scene::of(
                        *final(self),
                        *final(transport),
                        *final(clock),
                        None,
                        *final(handler),
                    ),
                    false,
                    result,
                ),
            },
            result != Err::<(), ClientError>(ClientError::NoDataAvailable),
    {
        self.receive_single_iteration(transport, clock, store, handler, false)
    }
}

// ---------------------------------------------------------------------------
// What the loop as a whole promises
// ---------------------------------------------------------------------------

/// **Law.** What arrives goes behind what had arrived.
pub proof fn law_arrival_appends(before: Scene, after: Scene, count: usize)
    requires
        asked(before, after, Recv::Bytes(count)),
        before.moment.context.index + count <= before.moment.context.network.len() <= usize::MAX,
    ensures
        ({
            let context = before.moment.context;
            let (_, taken) = taken_in(after.moment.context, Recv::Bytes(count));
            let brought = crate::session::brought_into(after.moment.wire.last());
            count > 0 ==> header::arrived_of(taken.network, taken.index) == header::arrived_of(
                context.network,
                context.index,
            ) + brought.take(count as int)
        }),
{
    let context = before.moment.context;
    let (_, taken) = taken_in(after.moment.context, Recv::Bytes(count));
    let brought = crate::session::brought_into(after.moment.wire.last());
    if count > 0 {
        assert(header::arrived_of(taken.network, taken.index) =~= header::arrived_of(
            context.network,
            context.index,
        ) + brought.take(count as int));
    }
}

/// **Law.** On a turn on which bytes arrived, nothing is done to keep the
/// connection alive, and the clock is not read for it.
pub proof fn law_busy_is_not_pinged(
    before: Scene,
    after: Scene,
    received: Recv,
    manage_keep_alive: bool,
    found: Result<usize, ClientError>,
    status: Result<usize, ClientError>,
)
    requires
        looked_after(before, after, received, manage_keep_alive, found, status),
        !quiet(received),
    ensures
        after == before,
        status == found,
{
}

/// **Law.** A packet that has not arrived whole stays where it is.
pub proof fn law_incomplete_stays(
    before: Scene,
    after: Scene,
    manage_keep_alive: bool,
    total: usize,
    result: Result<(), ClientError>,
)
    requires
        front_handled(before, after, manage_keep_alive, Ok(total), result),
        before.moment.context.index < total <= before.moment.context.network.len(),
    ensures
        after == before,
        result == Err::<(), ClientError>(ClientError::NeedMoreBytes),
{
}

/// What one turn keeps, and when it may say that nothing arrived.
proof fn lemma_turn_keeps(
    before: Scene,
    after: Scene,
    received: Recv,
    manage_keep_alive: bool,
    one: Result<(), ClientError>,
)
    requires
        turned(before, after, received, manage_keep_alive, one),
    ensures
        client::records_ok(before.moment.context) ==> client::records_ok(after.moment.context),
        after.moment.context.network.len() == before.moment.context.network.len(),
        !not_silence(one) && before.moment.context.network.len() > 0
            ==> after.moment.context.index == 0,
{
    let (found, context) = taken_in(before.moment.context, received);
    let (awake, status) = choose|awake: Scene, status: Result<usize, ClientError>|
        {
            &&& #[trigger] looked_after(
                before.with(context),
                awake,
                received,
                manage_keep_alive,
                found,
                status,
            )
            &&& front_handled(awake, after, manage_keep_alive, status, one)
        };
    if quiet(received) && manage_keep_alive && waits(found) {
        let result = choose|result: Result<(), ClientError>| #[trigger]
            kept_alive(before.with(context).moment, awake.moment, result) && status == match result {
                Ok(()) => found,
                Err(error) => Err(error),
            };
        lemma_kept_alive_keeps(before.with(context).moment, awake.moment, result);
    }
    assert(kept_whole(context, awake.moment.context));
    if let Ok(total) = fitting(awake.moment.context, status) {
        let (handled, outcome) = choose|handled: Scene, outcome: Result<(), ClientError>| #[trigger]
            incoming::packet_handled(awake, handled, total, manage_keep_alive, outcome) && if outcome is
                Err {
                after == handled && one == outcome
            } else {
                let now = after.moment.ticks.last();
                &&& one == Ok::<(), ClientError>(())
                &&& after == (Scene {
                    moment: Moment {
                        context: ContextModel {
                            last_packet_rx_time: now,
                            ..consumed(handled.moment.context, total)
                        },
                        ticks: handled.moment.ticks.push(now),
                        ..handled.moment
                    },
                    ..handled
                })
            };
        law_handling_keeps(awake, handled, total, manage_keep_alive, outcome);
    }
}

/// What turn after turn keeps.
proof fn lemma_turns_keep(
    count: nat,
    before: Scene,
    after: Scene,
    received: Recv,
    manage_keep_alive: bool,
    result: Result<(), ClientError>,
)
    requires
        turns(count, before, after, received, manage_keep_alive, result),
    ensures
        client::records_ok(before.moment.context) ==> client::records_ok(after.moment.context),
        after.moment.context.network.len() == before.moment.context.network.len(),
        finished(result) is Ok && before.moment.context.network.len() > 0
            ==> after.moment.context.index == 0,
    decreases count,
{
    let (middle, one) = choose|middle: Scene, one: Result<(), ClientError>| #[trigger]
        turned(before, middle, received, manage_keep_alive, one) && if one is Err
            || middle.moment.context.index == 0 {
            count == 0 && after == middle && result == one
        } else {
            &&& count > 0
            &&& turns(
                (count - 1) as nat,
                middle,
                after,
                next_received(received),
                manage_keep_alive,
                result,
            )
        };
    lemma_turn_keeps(before, middle, received, manage_keep_alive, one);
    if !(one is Err || middle.moment.context.index == 0) {
        lemma_turns_keep(
            (count - 1) as nat,
            middle,
            after,
            next_received(received),
            manage_keep_alive,
            result,
        );
    }
}

/// **Law.** The loop keeps the invariant of the records, whatever arrives.
pub proof fn law_loop_keeps_records(
    before: Scene,
    after: Scene,
    manage_keep_alive: bool,
    result: Result<(), ClientError>,
)
    requires
        iterated(before, after, manage_keep_alive, result),
        client::records_ok(before.moment.context),
    ensures
        client::records_ok(after.moment.context),
{
    let (first, received, count, outcome) = choose|
        first: Scene,
        received: Recv,
        count: nat,
        outcome: Result<(), ClientError>,
    |
        {
            &&& #[trigger] asked(before, first, received)
            &&& #[trigger] turns(count, first, after, received, manage_keep_alive, outcome)
            &&& result == finished(outcome)
        };
    lemma_turns_keep(count, first, after, received, manage_keep_alive, outcome);
}

/// **Law.** A call of the loop that succeeds has handled everything that had
/// arrived.
pub proof fn law_success_leaves_nothing(
    before: Scene,
    after: Scene,
    manage_keep_alive: bool,
)
    requires
        iterated(before, after, manage_keep_alive, Ok(())),
        before.moment.context.network.len() > 0,
    ensures
        after.moment.context.index == 0,
{
    let (first, received, count, outcome) = choose|
        first: Scene,
        received: Recv,
        count: nat,
        outcome: Result<(), ClientError>,
    |
        {
            &&& #[trigger] asked(before, first, received)
            &&& #[trigger] turns(count, first, after, received, manage_keep_alive, outcome)
            &&& Ok::<(), ClientError>(()) == finished(outcome)
        };
    lemma_turns_keep(count, first, after, received, manage_keep_alive, outcome);
}

} // verus!
