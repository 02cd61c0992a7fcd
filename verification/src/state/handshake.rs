//! Whole handshakes: what becomes of one message from the first step to the
//! last.

use vstd::prelude::*;

use crate::state;
use crate::state::{
    AckType, Operation, PublishState, QoS, Record, RecordsModel, StateError, PACKET_ID_INVALID,
};

verus! {

/// A message with this packet id is in flight, and its handshake is here.
pub open spec fn stands(
    records: Seq<Record>,
    packet_id: u16,
    qos: QoS,
    state: PublishState,
) -> bool {
    let place = state::place_of(records, packet_id, 0);
    &&& place < records.len()
    &&& records[place].qos == qos
    &&& records[place].state == state
}

/// In well-formed records a packet id has one place.
proof fn lemma_one_place(records: Seq<Record>, packet_id: u16, place: int)
    requires
        state::well_formed(records),
        packet_id != PACKET_ID_INVALID,
        0 <= place < records.len(),
        records[place].packet_id == packet_id,
    ensures
        state::place_of(records, packet_id, 0) == place,
{
    state::lemma_place_of(records, packet_id, 0);
    let found = state::place_of(records, packet_id, 0);
    if found < place {
        assert(records[found].packet_id != records[place].packet_id);
    }
}

/// A record that was added is in flight.
proof fn lemma_added_stands(records: Seq<Record>, record: Record)
    requires
        state::well_formed(records),
        record.packet_id != PACKET_ID_INVALID,
        record.qos != QoS::AtMostOnce,
        record.state != PublishState::Null,
        record.state != PublishState::PublishDone,
        state::added(records, record).0 is Ok,
    ensures
        state::well_formed(state::added(records, record).1),
        stands(state::added(records, record).1, record.packet_id, record.qos, record.state),
{
    let after = state::added(records, record).1;
    state::law_added_goes_last(records, record);
    let ready = if records.len() > 0 && !records.last().vacant() {
        state::compacted(records)
    } else {
        records
    };
    state::lemma_first_free(ready);
    lemma_one_place(after, record.packet_id, state::first_free(ready));
}

/// One step of a handshake that moves it on.
proof fn lemma_step(
    records: Seq<Record>,
    packet_id: u16,
    qos: QoS,
    from: PublishState,
    ack: AckType,
    op: Operation,
)
    requires
        state::well_formed(records),
        packet_id != PACKET_ID_INVALID,
        stands(records, packet_id, qos, from),
        qos == QoS::AtLeastOnce || qos == QoS::ExactlyOnce,
        state::ack_may_go(from, state::state_after_ack(ack, op, qos)),
        from != state::state_after_ack(ack, op, qos),
    ensures
        ({
            let new = state::state_after_ack(ack, op, qos);
            let (result, after) = state::acknowledged(records, packet_id, ack, op);
            &&& result == Ok::<PublishState, StateError>(new)
            &&& state::well_formed(after)
            &&& if new == PublishState::PublishDone {
                !state::holds(after, packet_id)
            } else {
                stands(after, packet_id, qos, new)
            }
        }),
{
    let new = state::state_after_ack(ack, op, qos);
    let (result, after) = state::acknowledged(records, packet_id, ack, op);
    let place = state::place_of(records, packet_id, 0);
    state::lemma_place_of(records, packet_id, 0);
    state::law_acknowledged(records, packet_id, ack, op);
    let emptied = records.update(place, state::empty_record());
    if new == PublishState::PublishDone {
        state::lemma_place_of(emptied, packet_id, 0);
        if state::holds(emptied, packet_id) {
            let other = state::place_of(emptied, packet_id, 0);
            assert(records[other].packet_id == packet_id);
            lemma_one_place(records, packet_id, other);
        }
    } else if new == PublishState::PubRelSend {
        state::lemma_update_keeps(records, place, new);
        lemma_added_stands(
            emptied,
            Record { packet_id, qos: QoS::ExactlyOnce, state: PublishState::PubRelSend },
        );
    } else {
        lemma_one_place(after, packet_id, place);
    }
}

/// **Law.** A message sent at least once is reserved, sent and acknowledged,
/// and then no longer in flight.
pub proof fn law_sent_at_least_once(records: RecordsModel, packet_id: u16)
    requires
        records.well_formed(),
        packet_id != PACKET_ID_INVALID,
        records.reserved(packet_id, QoS::AtLeastOnce).0 is Ok,
    ensures
        ({
            let reserved = records.reserved(packet_id, QoS::AtLeastOnce).1;
            let (sending, sent) = reserved.after_publish(
                packet_id,
                Operation::Send,
                QoS::AtLeastOnce,
            );
            let (done, after) = sent.after_ack(packet_id, AckType::PubAck, Operation::Receive);
            &&& sending == Ok::<PublishState, StateError>(PublishState::PubAckPending)
            &&& done == Ok::<PublishState, StateError>(PublishState::PublishDone)
            &&& !state::holds(after.outgoing, packet_id)
        }),
{
    let sent = lemma_sent(records, packet_id, QoS::AtLeastOnce);
    lemma_step(
        sent.outgoing,
        packet_id,
        QoS::AtLeastOnce,
        PublishState::PubAckPending,
        AckType::PubAck,
        Operation::Receive,
    );
}

/// **Law.** A message sent exactly once goes through all four packets of its
/// handshake, and is then no longer in flight.
pub proof fn law_sent_exactly_once(records: RecordsModel, packet_id: u16)
    requires
        records.well_formed(),
        packet_id != PACKET_ID_INVALID,
        records.reserved(packet_id, QoS::ExactlyOnce).0 is Ok,
    ensures
        ({
            let reserved = records.reserved(packet_id, QoS::ExactlyOnce).1;
            let (one, first) = reserved.after_publish(
                packet_id,
                Operation::Send,
                QoS::ExactlyOnce,
            );
            let (two, second) = first.after_ack(packet_id, AckType::PubRec, Operation::Receive);
            let (three, third) = second.after_ack(packet_id, AckType::PubRel, Operation::Send);
            let (four, fourth) = third.after_ack(packet_id, AckType::PubComp, Operation::Receive);
            &&& one == Ok::<PublishState, StateError>(PublishState::PubRecPending)
            &&& two == Ok::<PublishState, StateError>(PublishState::PubRelSend)
            &&& three == Ok::<PublishState, StateError>(PublishState::PubCompPending)
            &&& four == Ok::<PublishState, StateError>(PublishState::PublishDone)
            &&& !state::holds(fourth.outgoing, packet_id)
        }),
{
    let first = lemma_sent(records, packet_id, QoS::ExactlyOnce);
    lemma_step(
        first.outgoing,
        packet_id,
        QoS::ExactlyOnce,
        PublishState::PubRecPending,
        AckType::PubRec,
        Operation::Receive,
    );
    let second = first.after_ack(packet_id, AckType::PubRec, Operation::Receive).1;
    lemma_step(
        second.outgoing,
        packet_id,
        QoS::ExactlyOnce,
        PublishState::PubRelSend,
        AckType::PubRel,
        Operation::Send,
    );
    let third = second.after_ack(packet_id, AckType::PubRel, Operation::Send).1;
    lemma_step(
        third.outgoing,
        packet_id,
        QoS::ExactlyOnce,
        PublishState::PubCompPending,
        AckType::PubComp,
        Operation::Receive,
    );
}

/// **Law.** A message received at least once is acknowledged, and is then no
/// longer in flight.
pub proof fn law_received_at_least_once(records: RecordsModel, packet_id: u16)
    requires
        records.well_formed(),
        packet_id != PACKET_ID_INVALID,
        records.after_publish(packet_id, Operation::Receive, QoS::AtLeastOnce).0 is Ok,
    ensures
        ({
            let (one, first) = records.after_publish(
                packet_id,
                Operation::Receive,
                QoS::AtLeastOnce,
            );
            let (two, second) = first.after_ack(packet_id, AckType::PubAck, Operation::Send);
            &&& one == Ok::<PublishState, StateError>(PublishState::PubAckSend)
            &&& two == Ok::<PublishState, StateError>(PublishState::PublishDone)
            &&& !state::holds(second.incoming, packet_id)
        }),
{
    let record = Record {
        packet_id,
        qos: QoS::AtLeastOnce,
        state: PublishState::PubAckSend,
    };
    lemma_added_stands(records.incoming, record);
    lemma_step(
        state::added(records.incoming, record).1,
        packet_id,
        QoS::AtLeastOnce,
        PublishState::PubAckSend,
        AckType::PubAck,
        Operation::Send,
    );
}

/// **Law.** A message received exactly once goes through all four packets of
/// its handshake, and is then no longer in flight.
pub proof fn law_received_exactly_once(records: RecordsModel, packet_id: u16)
    requires
        records.well_formed(),
        packet_id != PACKET_ID_INVALID,
        records.after_publish(packet_id, Operation::Receive, QoS::ExactlyOnce).0 is Ok,
    ensures
        ({
            let (one, first) = records.after_publish(
                packet_id,
                Operation::Receive,
                QoS::ExactlyOnce,
            );
            let (two, second) = first.after_ack(packet_id, AckType::PubRec, Operation::Send);
            let (three, third) = second.after_ack(packet_id, AckType::PubRel, Operation::Receive);
            let (four, fourth) = third.after_ack(packet_id, AckType::PubComp, Operation::Send);
            &&& one == Ok::<PublishState, StateError>(PublishState::PubRecSend)
            &&& two == Ok::<PublishState, StateError>(PublishState::PubRelPending)
            &&& three == Ok::<PublishState, StateError>(PublishState::PubCompSend)
            &&& four == Ok::<PublishState, StateError>(PublishState::PublishDone)
            &&& !state::holds(fourth.incoming, packet_id)
        }),
{
    let record = Record {
        packet_id,
        qos: QoS::ExactlyOnce,
        state: PublishState::PubRecSend,
    };
    lemma_added_stands(records.incoming, record);
    let first = state::added(records.incoming, record).1;
    lemma_step(
        first,
        packet_id,
        QoS::ExactlyOnce,
        PublishState::PubRecSend,
        AckType::PubRec,
        Operation::Send,
    );
    let second = state::acknowledged(first, packet_id, AckType::PubRec, Operation::Send).1;
    lemma_step(
        second,
        packet_id,
        QoS::ExactlyOnce,
        PublishState::PubRelPending,
        AckType::PubRel,
        Operation::Receive,
    );
    let third = state::acknowledged(second, packet_id, AckType::PubRel, Operation::Receive).1;
    lemma_step(
        third,
        packet_id,
        QoS::ExactlyOnce,
        PublishState::PubCompSend,
        AckType::PubComp,
        Operation::Send,
    );
}

/// **Law.** A message that is received twice while its handshake is under way
/// is known for a duplicate, and what is in flight stays in flight.
pub proof fn law_duplicates_are_known(records: RecordsModel, packet_id: u16, qos: QoS)
    requires
        packet_id != PACKET_ID_INVALID,
        qos != QoS::AtMostOnce,
    ensures
        ({
            let (result, after) = records.after_publish(packet_id, Operation::Receive, qos);
            state::holds(records.incoming, packet_id) ==> {
                &&& result == Err::<PublishState, StateError>(StateError::StateCollision)
                &&& state::in_flight(after.incoming) == state::in_flight(records.incoming)
            }
        }),
{
    state::law_added_goes_last(
        records.incoming,
        Record { packet_id, qos, state: state::state_after_publish(Operation::Receive, qos) },
    );
}

/// **Law.** An acknowledgement of nothing that is in flight is refused, and
/// changes nothing.
pub proof fn law_unknown_acks_change_nothing(
    records: RecordsModel,
    packet_id: u16,
    ack: AckType,
    op: Operation,
)
    requires
        !state::holds(
            if state::ack_is_for_outgoing(ack, op) {
                records.outgoing
            } else {
                records.incoming
            },
            packet_id,
        ),
    ensures
        records.after_ack(packet_id, ack, op).0 is Err,
        records.after_ack(packet_id, ack, op).1 == records,
{
}

/// A message that was reserved, once it is sent.
proof fn lemma_sent(records: RecordsModel, packet_id: u16, qos: QoS) -> (sent: RecordsModel)
    requires
        records.well_formed(),
        packet_id != PACKET_ID_INVALID,
        qos == QoS::AtLeastOnce || qos == QoS::ExactlyOnce,
        records.reserved(packet_id, qos).0 is Ok,
    ensures
        records.reserved(packet_id, qos).1.after_publish(packet_id, Operation::Send, qos) == (
            Ok::<PublishState, StateError>(state::state_after_publish(Operation::Send, qos)),
            sent,
        ),
        sent.well_formed(),
        stands(
            sent.outgoing,
            packet_id,
            qos,
            state::state_after_publish(Operation::Send, qos),
        ),
{
    let record = Record { packet_id, qos, state: PublishState::PublishSend };
    lemma_added_stands(records.outgoing, record);
    let reserved = records.reserved(packet_id, qos).1;
    let sent = reserved.after_publish(packet_id, Operation::Send, qos).1;
    state::law_records_stay_well_formed(
        reserved,
        packet_id,
        AckType::PubAck,
        Operation::Send,
        qos,
        0,
        0,
    );
    let place = state::place_of(reserved.outgoing, packet_id, 0);
    state::lemma_place_of(reserved.outgoing, packet_id, 0);
    lemma_one_place(sent.outgoing, packet_id, place);
    sent
}

} // verus!
