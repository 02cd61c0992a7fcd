//! The publishes in flight, and what is sent again of them.

use vstd::prelude::*;

use crate::session::resume;
use crate::state;
use crate::state::{AckType, Operation, PublishState, QoS, Record, RecordsModel, StateError};

verus! {

/// The publishes in flight, in the order of their places.
pub open spec fn flying(records: Seq<Record>) -> Seq<Record> {
    records.filter(|r: Record| r.packet_id != 0)
}

/// A record with this identifier is there.
pub open spec fn holds_id(records: Seq<Record>, packet_id: u16) -> bool {
    exists|i: int| 0 <= i < records.len() && (#[trigger] records[i]).packet_id == packet_id
}

/// The place of a record with this identifier, which is the first.
pub open spec fn stands_at(records: Seq<Record>, packet_id: u16, i: int) -> bool {
    &&& 0 <= i < records.len()
    &&& records[i].packet_id == packet_id
    &&& forall|j: int| 0 <= j < i ==> (#[trigger] records[j]).packet_id != packet_id
}

/// The states of a message at QoS 1.
pub open spec fn of_level_one(state: PublishState) -> bool {
    state == PublishState::PublishSend || state == PublishState::PubAckPending || state
        == PublishState::PubAckSend
}

/// The states of a message at QoS 2.
pub open spec fn of_level_two(state: PublishState) -> bool {
    state == PublishState::PublishSend || state == PublishState::PubRecPending || state
        == PublishState::PubRelSend || state == PublishState::PubCompPending || state
        == PublishState::PubRecSend || state == PublishState::PubRelPending || state
        == PublishState::PubCompSend
}

/// The state of a record is one of its QoS.
pub open spec fn consistent(record: Record) -> bool {
    match record.qos {
        QoS::AtMostOnce => false,
        QoS::AtLeastOnce => of_level_one(record.state),
        QoS::ExactlyOnce => of_level_two(record.state),
    }
}

/// A place that is free.
pub open spec fn free() -> Record {
    Record { packet_id: 0, qos: QoS::AtMostOnce, state: PublishState::Null }
}

proof fn lemma_flying(records: Seq<Record>)
    ensures
        flying(records) == state::in_flight(records),
        flying(records).len() <= records.len(),
        flying(records).len() == records.len() <==> forall|i: int|
            0 <= i < records.len() ==> (#[trigger] records[i]).packet_id != 0,
    decreases records.len(),
{
    reveal(Seq::filter);
    if records.len() > 0 {
        let fewer = records.drop_last();
        lemma_flying(fewer);
        if flying(records).len() == records.len() {
            assert forall|i: int| 0 <= i < records.len() implies (#[trigger] records[i]).packet_id
                != 0 by {
                if i < fewer.len() {
                    assert(fewer[i] == records[i]);
                }
            }
        }
        if forall|i: int| 0 <= i < records.len() ==> (#[trigger] records[i]).packet_id != 0 {
            assert forall|i: int| 0 <= i < fewer.len() implies (#[trigger] fewer[i]).packet_id
                != 0 by {
                assert(fewer[i] == records[i]);
            }
            assert(records[records.len() - 1].packet_id != 0);
        }
    }
}

proof fn lemma_place(records: Seq<Record>, packet_id: u16, from: int)
    requires
        0 <= from <= records.len(),
    ensures
        ({
            let place = state::place_of(records, packet_id, from);
            &&& from <= place <= records.len()
            &&& place < records.len() ==> records[place].packet_id == packet_id
            &&& forall|j: int| from <= j < place ==> (#[trigger] records[j]).packet_id != packet_id
        }),
    decreases records.len() - from,
{
    if from < records.len() && records[from].packet_id != packet_id {
        lemma_place(records, packet_id, from + 1);
    }
}

/// Where a record is found.
proof fn lemma_found(records: Seq<Record>, packet_id: u16)
    ensures
        state::holds(records, packet_id) == holds_id(records, packet_id),
        forall|i: int|
            #![trigger stands_at(records, packet_id, i)]
            stands_at(records, packet_id, i) ==> state::place_of(records, packet_id, 0) == i,
{
    lemma_place(records, packet_id, 0);
    let place = state::place_of(records, packet_id, 0);
    if place < records.len() {
        assert(records[place].packet_id == packet_id);
    }
}

/// **Law.** A record that is added goes behind every publish in flight, whose
/// order stays. It is refused exactly if its identifier is there already, or if
/// every place is taken; then the publishes in flight are as they were.
pub proof fn law_added(records: Seq<Record>, record: Record)
    requires
        record.packet_id != 0,
    ensures
        ({
            let (result, after) = state::added(records, record);
            let known = holds_id(records, record.packet_id);
            let full = flying(records).len() == records.len();
            &&& after.len() == records.len()
            &&& result == if known {
                Err::<(), _>(StateError::StateCollision)
            } else if full {
                Err(StateError::NoMemory)
            } else {
                Ok(())
            }
            &&& flying(after) == if known || full {
                flying(records)
            } else {
                flying(records).push(record)
            }
        }),
{
    let (result, after) = state::added(records, record);
    state::law_added_goes_last(records, record);
    lemma_found(records, record.packet_id);
    lemma_flying(records);
    lemma_flying(after);
    if flying(records).len() != records.len() {
        let i = choose|i: int|
            0 <= i < records.len() && (#[trigger] records[i]).packet_id == 0;
        assert(records[i].vacant());
    }
}

/// **Law.** A publish that is to be sent takes a place behind the others, with
/// its identifier and its QoS. At QoS 0 it takes none, and without an identifier
/// it is refused. What arrived is not touched.
pub proof fn law_reserved(records: RecordsModel, packet_id: u16, qos: QoS)
    ensures
        ({
            let (result, after) = records.reserved(packet_id, qos);
            let known = holds_id(records.outgoing, packet_id);
            let full = flying(records.outgoing).len() == records.outgoing.len();
            &&& after.incoming == records.incoming
            &&& qos is AtMostOnce ==> result is Ok && after == records
            &&& !(qos is AtMostOnce) && packet_id == 0 ==> result == Err::<(), _>(
                StateError::BadParameter,
            ) && after == records
            &&& !(qos is AtMostOnce) && packet_id != 0 ==> {
                &&& result is Ok <==> !known && !full
                &&& result == Err::<(), _>(StateError::StateCollision) <==> known
                &&& result is Ok ==> flying(after.outgoing) == flying(records.outgoing).push(
                    Record { packet_id, qos, state: PublishState::PublishSend },
                )
                &&& result is Err ==> flying(after.outgoing) == flying(records.outgoing)
            }
        }),
{
    if packet_id != 0 {
        law_added(
            records.outgoing,
            Record { packet_id, qos, state: PublishState::PublishSend },
        );
    }
}

/// **Law.** A publish that arrives takes a place behind the others that did, to
/// be answered by a PUBACK at QoS 1 and by a PUBREC at QoS 2. At QoS 0 it takes
/// none. What was sent is not touched.
pub proof fn law_publish_arrives(records: RecordsModel, packet_id: u16, qos: QoS)
    ensures
        ({
            let (result, after) = records.after_publish(packet_id, Operation::Receive, qos);
            let known = holds_id(records.incoming, packet_id);
            let full = flying(records.incoming).len() == records.incoming.len();
            let next = if qos is AtLeastOnce {
                PublishState::PubAckSend
            } else {
                PublishState::PubRecSend
            };
            &&& after.outgoing == records.outgoing
            &&& qos is AtMostOnce ==> result == Ok::<_, StateError>(PublishState::PublishDone)
                && after == records
            &&& !(qos is AtMostOnce) && packet_id == 0 ==> result == Err::<PublishState, _>(
                StateError::BadParameter,
            ) && after == records
            &&& !(qos is AtMostOnce) && packet_id != 0 ==> {
                &&& result is Ok <==> !known && !full
                &&& result == Err::<PublishState, _>(StateError::StateCollision) <==> known
                &&& result is Ok ==> result == Ok::<_, StateError>(next) && flying(after.incoming)
                    == flying(records.incoming).push(Record { packet_id, qos, state: next })
                &&& result is Err ==> flying(after.incoming) == flying(records.incoming)
            }
        }),
{
    if packet_id != 0 {
        law_added(
            records.incoming,
            Record {
                packet_id,
                qos,
                state: state::state_after_publish(Operation::Receive, qos),
            },
        );
    }
}

/// **Law.** A publish that went out awaits a PUBACK at QoS 1 and a PUBREC at QoS
/// 2, in its place, whether it went out for the first time or again. It is
/// refused if it was not announced with that QoS, and once the handshake has
/// gone on.
pub proof fn law_publish_goes_out(records: RecordsModel, packet_id: u16, qos: QoS, i: int)
    requires
        packet_id != 0,
        !(qos is AtMostOnce),
        stands_at(records.outgoing, packet_id, i),
        consistent(records.outgoing[i]),
    ensures
        ({
            let (result, after) = records.after_publish(packet_id, Operation::Send, qos);
            let record = records.outgoing[i];
            let next = if qos is AtLeastOnce {
                PublishState::PubAckPending
            } else {
                PublishState::PubRecPending
            };
            let fits = record.qos == qos && (record.state is PublishSend || record.state == next);
            &&& result is Ok <==> fits
            &&& result == Err::<PublishState, _>(StateError::BadParameter) <==> record.qos != qos
            &&& fits ==> result == Ok::<_, StateError>(next) && after == (RecordsModel {
                outgoing: records.outgoing.update(i, Record { packet_id, qos, state: next }),
                ..records
            })
            &&& !fits ==> after == records
        }),
{
    lemma_found(records.outgoing, packet_id);
}

/// An acknowledgement that concerns a publish that was sent: one that a broker
/// gives of it, or the PUBREL that goes out.
pub open spec fn concerns_sent(ack: AckType, op: Operation) -> bool {
    match (ack, op) {
        (AckType::PubAck, Operation::Receive) => true,
        (AckType::PubRec, Operation::Receive) => true,
        (AckType::PubComp, Operation::Receive) => true,
        (AckType::PubRel, Operation::Send) => true,
        _ => false,
    }
}

/// The publishes that an acknowledgement concerns.
pub open spec fn concerned(records: RecordsModel, ack: AckType, op: Operation) -> Seq<Record> {
    if concerns_sent(ack, op) {
        records.outgoing
    } else {
        records.incoming
    }
}

/// The state that an acknowledgement leads to from another, if it may come
/// there.
pub open spec fn leads_to(ack: AckType, op: Operation, state: PublishState) -> Option<PublishState> {
    match (ack, op, state) {
        (AckType::PubAck, Operation::Receive, PublishState::PubAckPending) => Some(
            PublishState::PublishDone,
        ),
        (AckType::PubAck, Operation::Send, PublishState::PubAckSend) => Some(
            PublishState::PublishDone,
        ),
        (AckType::PubRec, Operation::Receive, PublishState::PubRecPending) => Some(
            PublishState::PubRelSend,
        ),
        (AckType::PubRec, Operation::Send, PublishState::PubRecSend) => Some(
            PublishState::PubRelPending,
        ),
        (AckType::PubRec, Operation::Send, PublishState::PubRelPending) => Some(
            PublishState::PubRelPending,
        ),
        (AckType::PubRel, Operation::Send, PublishState::PubRelSend) => Some(
            PublishState::PubCompPending,
        ),
        (AckType::PubRel, Operation::Send, PublishState::PubCompPending) => Some(
            PublishState::PubCompPending,
        ),
        (AckType::PubRel, Operation::Receive, PublishState::PubRelPending) => Some(
            PublishState::PubCompSend,
        ),
        (AckType::PubRel, Operation::Receive, PublishState::PubCompSend) => Some(
            PublishState::PubCompSend,
        ),
        (AckType::PubComp, Operation::Receive, PublishState::PubCompPending) => Some(
            PublishState::PublishDone,
        ),
        (AckType::PubComp, Operation::Send, PublishState::PubCompSend) => Some(
            PublishState::PublishDone,
        ),
        _ => None,
    }
}

/// **Law.** An acknowledgement takes the publish it names one step on, and no
/// other publish anywhere. The last one of a handshake frees the place. A PUBREC
/// that arrives puts the publish behind all others that were sent; every other
/// step leaves it in its place. One that may not come there is refused, and so
/// is one of an identifier that is not there; both change nothing.
pub proof fn law_acknowledged(
    records: RecordsModel,
    packet_id: u16,
    ack: AckType,
    op: Operation,
    i: int,
)
    requires
        packet_id != 0,
        stands_at(concerned(records, ack, op), packet_id, i),
        consistent(concerned(records, ack, op)[i]),
        records.apart(),
        records.well_formed(),
    ensures
        ({
            let (result, after) = records.after_ack(packet_id, ack, op);
            let here = concerned(records, ack, op);
            let then = concerned(after, ack, op);
            let record = here[i];
            let next = leads_to(ack, op, record.state);
            &&& concerns_sent(ack, op) ==> after.incoming == records.incoming
            &&& !concerns_sent(ack, op) ==> after.outgoing == records.outgoing
            &&& result == match next {
                Some(state) => Ok::<_, StateError>(state),
                None => Err(StateError::IllegalState),
            }
            &&& next is None ==> after == records
            &&& next == Some(PublishState::PublishDone) ==> then == here.update(i, free())
            &&& next == Some(PublishState::PubRelSend) ==> flying(then) == flying(
                here.update(i, free()),
            ).push(Record { packet_id, qos: QoS::ExactlyOnce, state: PublishState::PubRelSend })
            &&& next is Some && !(next->0 is PublishDone) && !(next->0 is PubRelSend) ==> then
                == here.update(i, Record { state: next->0, ..record })
        }),
{
    let here = concerned(records, ack, op);
    lemma_found(here, packet_id);
    let record = here[i];
    assert(!record.vacant());
    if leads_to(ack, op, record.state) == Some(PublishState::PubRelSend) {
        let without = here.update(i, free());
        law_added(
            without,
            Record { packet_id, qos: QoS::ExactlyOnce, state: PublishState::PubRelSend },
        );
        lemma_flying(without);
        assert(without[i].packet_id == 0);
        assert forall|j: int| 0 <= j < without.len() implies (#[trigger] without[j]).packet_id
            != packet_id by {
            if j != i {
                assert(without[j] == here[j]);
                if here[j].packet_id == packet_id {
                    assert(!here[j].vacant() && !here[i].vacant());
                    assert(here[j].packet_id != here[i].packet_id);
                }
            }
        }
    }
    if leads_to(ack, op, record.state) == Some(record.state) {
        assert(here.update(i, Record { state: record.state, ..record }) =~= here);
    }
}

/// **Law.** An acknowledgement without an identifier is a bad parameter, and one
/// whose identifier is not there a bad response. Neither changes anything.
pub proof fn law_unknown_ack(records: RecordsModel, packet_id: u16, ack: AckType, op: Operation)
    requires
        packet_id != 0 ==> !holds_id(concerned(records, ack, op), packet_id),
    ensures
        records.after_ack(packet_id, ack, op) == (
            Err::<PublishState, _>(
                if packet_id == 0 {
                    StateError::BadParameter
                } else {
                    StateError::BadResponse
                },
            ),
            records,
        ),
{
    lemma_found(concerned(records, ack, op), packet_id);
}

/// **Law.** A publish that is given up frees its place, and nothing else
/// changes. One that is not there cannot be given up.
pub proof fn law_removed(records: RecordsModel, packet_id: u16, i: int)
    requires
        packet_id != 0,
        records.well_formed(),
    ensures
        !holds_id(records.outgoing, packet_id) ==> records.removed(packet_id) == (
            Err::<(), _>(StateError::BadParameter),
            records,
        ),
        stands_at(records.outgoing, packet_id, i) ==> records.removed(packet_id) == (
            Ok::<(), StateError>(()),
            RecordsModel { outgoing: records.outgoing.update(i, free()), ..records },
        ),
{
    lemma_found(records.outgoing, packet_id);
    if stands_at(records.outgoing, packet_id, i) {
        assert(!records.outgoing[i].vacant());
    }
}

/// **Law.** No more places are used than both limits allow; those that are left
/// are the first ones, as they were.
pub proof fn law_capped(records: RecordsModel, outgoing: nat, incoming: nat)
    ensures
        ({
            let after = records.capped(outgoing as int, incoming as int);
            &&& after.outgoing.len() <= outgoing && after.incoming.len() <= incoming
            &&& after.outgoing.is_prefix_of(records.outgoing)
            &&& after.incoming.is_prefix_of(records.incoming)
            &&& records.outgoing.len() <= outgoing ==> after.outgoing == records.outgoing
            &&& records.incoming.len() <= incoming ==> after.incoming == records.incoming
            &&& outgoing <= records.outgoing.len() ==> after.outgoing.len() == outgoing
            &&& incoming <= records.incoming.len() ==> after.incoming.len() == incoming
        }),
{
}

// ---------------------------------------------------------------------------
// What is sent again
// ---------------------------------------------------------------------------

/// A PUBREL is to be sent again: its PUBCOMP has not come.
pub open spec fn pubrel_owed() -> spec_fn(Record) -> bool {
    |r: Record| r.state is PubRelSend || r.state is PubCompPending
}

/// A publish is to be sent again: its first acknowledgement has not come.
pub open spec fn publish_owed() -> spec_fn(Record) -> bool {
    |r: Record| r.state is PublishSend || r.state is PubAckPending || r.state is PubRecPending
}

/// The identifiers of records, in order.
pub open spec fn ids_of(records: Seq<Record>) -> Seq<u16> {
    Seq::new(records.len(), |i: int| records[i].packet_id)
}

/// What one of the two scans looks for.
pub open spec fn owed(pubrels: bool) -> spec_fn(Record) -> bool {
    if pubrels {
        pubrel_owed()
    } else {
        publish_owed()
    }
}

proof fn lemma_owed(records: Seq<Record>, pubrels: bool, from: int)
    requires
        0 <= from <= records.len(),
        state::well_formed(records),
    ensures
        resume::resend_ids(records, pubrels, from) == ids_of(
            records.skip(from).filter(owed(pubrels)),
        ),
    decreases records.len() - from,
{
    let good = owed(pubrels);
    let rest = records.skip(from);
    lemma_next(records, pubrels, from);
    let place = state::next_wanted(records, pubrels, from);
    let behind = records.skip(place);
    assert(rest =~= records.subrange(from, place) + behind);
    lemma_none(records.subrange(from, place), good);
    Seq::<Record>::filter_distributes_over_add(records.subrange(from, place), behind, good);
    assert(rest.filter(good) =~= behind.filter(good));
    reveal(Seq::filter);
    if place < records.len() {
        let record = records[place];
        assert(good(record));
        assert(!record.vacant()) by {
            if record.vacant() {
                assert(records[place] == state::empty_record());
            }
        }
        resume::lemma_scan_goes_on(records, pubrels, from);
        lemma_owed(records, pubrels, place + 1);
        let more = records.skip(place + 1);
        assert(behind =~= seq![record] + more);
        Seq::<Record>::filter_distributes_over_add(seq![record], more, good);
        assert(seq![record].drop_last() =~= Seq::empty());
        assert(seq![record].filter(good) =~= seq![record]);
        assert(ids_of(behind.filter(good)) =~= seq![record.packet_id] + ids_of(more.filter(good)));
    } else {
        assert(behind =~= Seq::empty());
        assert(ids_of(behind.filter(good)) =~= Seq::empty());
    }
}

proof fn lemma_next(records: Seq<Record>, pubrels: bool, from: int)
    requires
        0 <= from <= records.len(),
    ensures
        ({
            let place = state::next_wanted(records, pubrels, from);
            &&& from <= place <= records.len()
            &&& place < records.len() ==> owed(pubrels)(records[place])
            &&& forall|j: int| from <= j < place ==> !owed(pubrels)(#[trigger] records[j])
        }),
    decreases records.len() - from,
{
    if from < records.len() && !state::wanted(pubrels, records[from].state) {
        lemma_next(records, pubrels, from + 1);
    }
}

proof fn lemma_none(records: Seq<Record>, good: spec_fn(Record) -> bool)
    requires
        forall|j: int| 0 <= j < records.len() ==> !good(#[trigger] records[j]),
    ensures
        records.filter(good) == Seq::<Record>::empty(),
    decreases records.len(),
{
    reveal(Seq::filter);
    if records.len() > 0 {
        let fewer = records.drop_last();
        assert forall|j: int| 0 <= j < fewer.len() implies !good(#[trigger] fewer[j]) by {
            assert(fewer[j] == records[j]);
        }
        lemma_none(fewer, good);
        assert(!good(records[records.len() - 1]));
    }
}

/// **Law.** What is to be sent again is found whole and in order: the PUBRELs of
/// just those publishes whose PUBREC has come and whose PUBCOMP has not, and the
/// publishes of just those that await a first acknowledgement.
pub proof fn law_what_is_owed(records: Seq<Record>)
    requires
        state::well_formed(records),
    ensures
        resume::resend_ids(records, true, 0) == ids_of(records.filter(pubrel_owed())),
        resume::resend_ids(records, false, 0) == ids_of(records.filter(publish_owed())),
{
    assert(records.skip(0) =~= records);
    lemma_owed(records, true, 0);
    lemma_owed(records, false, 0);
}

} // verus!
