//! The QoS state machine: which acknowledgement is owed to whom.
//!
//! A QoS 1 or QoS 2 publish is remembered in a record until its handshake is
//! finished. [`PublishRecords`] keeps two arrays of them, one for publishes
//! this client sent and one for those it received, in storage the caller lends.
//! Records keep the order in which they were added, because publishes have to
//! be sent again in that order after a reconnect.

use vstd::prelude::*;

pub mod handshake;

verus! {

/// The packet identifier that no packet may carry: an empty record has it.
pub const PACKET_ID_INVALID: u16 = 0;

/// How hard a publish is delivered.
#[derive(Debug, Clone, Copy, PartialEq, Eq, Structural)]
pub enum QoS {
    /// QoS 0: sent once, never acknowledged.
    AtMostOnce,
    /// QoS 1: sent until a PUBACK comes.
    AtLeastOnce,
    /// QoS 2: a four-packet handshake.
    ExactlyOnce,
}

impl Default for QoS {
    fn default() -> (qos: Self)
        ensures
            qos == QoS::AtMostOnce,
    {
        QoS::AtMostOnce
    }
}

/// Where a publish stands in its handshake.
#[derive(Debug, Clone, Copy, PartialEq, Eq, Structural)]
pub enum PublishState {
    /// No publish.
    Null,
    /// A publish is about to be sent.
    PublishSend,
    /// A PUBACK is owed.
    PubAckSend,
    /// A PUBREC is owed.
    PubRecSend,
    /// A PUBREL is owed.
    PubRelSend,
    /// A PUBCOMP is owed.
    PubCompSend,
    /// A PUBACK is awaited.
    PubAckPending,
    /// A PUBREC is awaited.
    PubRecPending,
    /// A PUBREL is awaited.
    PubRelPending,
    /// A PUBCOMP is awaited.
    PubCompPending,
    /// The handshake is finished.
    PublishDone,
}

impl Default for PublishState {
    fn default() -> (state: Self)
        ensures
            state == PublishState::Null,
    {
        PublishState::Null
    }
}

/// The four acknowledgements of a publish.
#[derive(Debug, Clone, Copy, PartialEq, Eq, Structural)]
pub enum AckType {
    /// PUBACK.
    PubAck,
    /// PUBREC.
    PubRec,
    /// PUBREL.
    PubRel,
    /// PUBCOMP.
    PubComp,
}

/// Which way a packet travels.
#[derive(Debug, Clone, Copy, PartialEq, Eq, Structural)]
pub enum Operation {
    /// From this client.
    Send,
    /// To this client.
    Receive,
}

/// One publish in flight, or an empty place.
#[derive(Debug, Clone, Copy, PartialEq, Eq, Structural)]
pub struct Record {
    /// The publish's packet identifier; [`PACKET_ID_INVALID`] where the record
    /// is empty.
    pub packet_id: u16,
    /// The publish's QoS.
    pub qos: QoS,
    /// Where its handshake stands.
    pub state: PublishState,
}

impl Record {
    /// Holds no publish.
    pub open spec fn vacant(self) -> bool {
        self.packet_id == PACKET_ID_INVALID
    }

    fn is_empty(&self) -> (empty: bool)
        ensures
            empty == self.vacant(),
    {
        self.packet_id == PACKET_ID_INVALID
    }
}

impl Default for Record {
    fn default() -> (record: Self)
        ensures
            record == empty_record(),
    {
        Record {
            packet_id: PACKET_ID_INVALID,
            qos: QoS::AtMostOnce,
            state: PublishState::Null,
        }
    }
}

/// How far a scan for publishes to send again has come.
#[derive(Debug, Clone, Copy, PartialEq, Eq, Structural)]
pub struct Cursor(usize);

impl Cursor {
    /// The index of the record that is looked at next.
    pub closed spec fn at(&self) -> int {
        self.0 as int
    }

    /// A cursor at the first record.
    #[must_use]
    pub fn new() -> (cursor: Self)
        ensures
            cursor.at() == 0,
    {
        Cursor(0)
    }

    /// The index of the record that is looked at next.
    #[must_use]
    pub fn position(&self) -> (at: usize)
        ensures
            at == self.at(),
    {
        self.0
    }
}

impl Default for Cursor {
    fn default() -> (cursor: Self)
        ensures
            cursor.at() == 0,
    {
        Cursor(0)
    }
}

/// Why a state change was refused.
#[derive(Debug, Clone, Copy, PartialEq, Eq, Structural)]
pub enum StateError {
    /// The call does not make sense: an invalid identifier, or no such record.
    BadParameter,
    /// No room for another record.
    NoMemory,
    /// A record with this identifier exists already.
    StateCollision,
    /// The handshake does not allow this step.
    IllegalState,
    /// An acknowledgement for a publish that is not in flight.
    BadResponse,
}

// ---------------------------------------------------------------------------
// The transition tables
// ---------------------------------------------------------------------------

/// A publish with this QoS may take a record from `current` to `new`.
pub open spec fn publish_may_go(
    current: PublishState,
    new: PublishState,
    op: Operation,
    qos: QoS,
) -> bool {
    ||| current == PublishState::Null && op == Operation::Receive && (new
        == PublishState::PubAckSend || new == PublishState::PubRecSend)
    ||| current == PublishState::PublishSend && qos == QoS::AtLeastOnce && new
        == PublishState::PubAckPending
    ||| current == PublishState::PublishSend && qos == QoS::ExactlyOnce && new
        == PublishState::PubRecPending
    ||| current == PublishState::PubAckPending && new == PublishState::PubAckPending
    ||| current == PublishState::PubRecPending && new == PublishState::PubRecPending
}

/// An acknowledgement may take a record from `current` to `new`.
pub open spec fn ack_may_go(current: PublishState, new: PublishState) -> bool {
    ||| current == PublishState::PubAckSend && new == PublishState::PublishDone
    ||| current == PublishState::PubAckPending && new == PublishState::PublishDone
    ||| current == PublishState::PubRecSend && new == PublishState::PubRelPending
    ||| current == PublishState::PubRelPending && (new == PublishState::PubCompSend || new
        == PublishState::PubRelPending)
    ||| current == PublishState::PubCompSend && (new == PublishState::PublishDone || new
        == PublishState::PubCompSend)
    ||| current == PublishState::PubRecPending && new == PublishState::PubRelSend
    ||| current == PublishState::PubRelSend && new == PublishState::PubCompPending
    ||| current == PublishState::PubCompPending && (new == PublishState::PublishDone || new
        == PublishState::PubCompPending)
}

/// The state a publish brings its record to.
pub open spec fn state_after_publish(op: Operation, qos: QoS) -> PublishState {
    match (qos, op) {
        (QoS::AtMostOnce, _) => PublishState::PublishDone,
        (QoS::AtLeastOnce, Operation::Send) => PublishState::PubAckPending,
        (QoS::AtLeastOnce, Operation::Receive) => PublishState::PubAckSend,
        (QoS::ExactlyOnce, Operation::Send) => PublishState::PubRecPending,
        (QoS::ExactlyOnce, Operation::Receive) => PublishState::PubRecSend,
    }
}

/// The state an acknowledgement brings a record to: [`PublishState::Null`]
/// where that acknowledgement does not belong to the record's QoS.
pub open spec fn state_after_ack(ack: AckType, op: Operation, qos: QoS) -> PublishState {
    match (ack, op, qos) {
        (AckType::PubAck, _, QoS::AtLeastOnce) => PublishState::PublishDone,
        (AckType::PubRec, Operation::Send, QoS::ExactlyOnce) => PublishState::PubRelPending,
        (AckType::PubRec, Operation::Receive, QoS::ExactlyOnce) => PublishState::PubRelSend,
        (AckType::PubRel, Operation::Send, QoS::ExactlyOnce) => PublishState::PubCompPending,
        (AckType::PubRel, Operation::Receive, QoS::ExactlyOnce) => PublishState::PubCompSend,
        (AckType::PubComp, _, QoS::ExactlyOnce) => PublishState::PublishDone,
        _ => PublishState::Null,
    }
}

/// The acknowledgement belongs to a publish that this client sent.
pub open spec fn ack_is_for_outgoing(ack: AckType, op: Operation) -> bool {
    (ack == AckType::PubRel) == (op == Operation::Send)
}

/// May a publish take a record from `current` to `new`?
#[must_use]
pub fn validate_transition_publish(
    current: PublishState,
    new: PublishState,
    op: Operation,
    qos: QoS,
) -> (legal: bool)
    ensures
        legal == publish_may_go(current, new, op, qos),
{
    match current {
        PublishState::Null => op == Operation::Receive && (new == PublishState::PubAckSend || new
            == PublishState::PubRecSend),
        PublishState::PublishSend => match qos {
            QoS::AtLeastOnce => new == PublishState::PubAckPending,
            QoS::ExactlyOnce => new == PublishState::PubRecPending,
            QoS::AtMostOnce => false,
        },
        // Sending again after a reconnect leaves the state as it is.
        PublishState::PubAckPending => new == PublishState::PubAckPending,
        PublishState::PubRecPending => new == PublishState::PubRecPending,
        _ => false,
    }
}

/// May an acknowledgement take a record from `current` to `new`?
#[must_use]
pub fn validate_transition_ack(current: PublishState, new: PublishState) -> (legal: bool)
    ensures
        legal == ack_may_go(current, new),
{
    match current {
        PublishState::PubAckSend | PublishState::PubAckPending => new == PublishState::PublishDone,
        PublishState::PubRecSend => new == PublishState::PubRelPending,
        PublishState::PubRelPending => new == PublishState::PubCompSend || new
            == PublishState::PubRelPending,
        PublishState::PubCompSend => new == PublishState::PublishDone || new
            == PublishState::PubCompSend,
        PublishState::PubRecPending => new == PublishState::PubRelSend,
        PublishState::PubRelSend => new == PublishState::PubCompPending,
        PublishState::PubCompPending => new == PublishState::PublishDone || new
            == PublishState::PubCompPending,
        _ => false,
    }
}

/// Does the acknowledgement belong to a publish that this client sent?
fn is_publish_outgoing(ack: AckType, op: Operation) -> (outgoing: bool)
    ensures
        outgoing == ack_is_for_outgoing(ack, op),
{
    match ack {
        AckType::PubAck | AckType::PubRec | AckType::PubComp => op == Operation::Receive,
        AckType::PubRel => op == Operation::Send,
    }
}

/// The state a publish brings its record to.
#[must_use]
pub fn calculate_state_publish(op: Operation, qos: QoS) -> (state: PublishState)
    ensures
        state == state_after_publish(op, qos),
{
    match qos {
        QoS::AtMostOnce => PublishState::PublishDone,
        QoS::AtLeastOnce => match op {
            Operation::Send => PublishState::PubAckPending,
            Operation::Receive => PublishState::PubAckSend,
        },
        QoS::ExactlyOnce => match op {
            Operation::Send => PublishState::PubRecPending,
            Operation::Receive => PublishState::PubRecSend,
        },
    }
}

/// The state an acknowledgement brings its record to: [`PublishState::Null`]
/// where the acknowledgement does not belong to the record's QoS.
#[must_use]
pub fn calculate_state_ack(ack: AckType, op: Operation, qos: QoS) -> (state: PublishState)
    ensures
        state == state_after_ack(ack, op, qos),
{
    let fits = match ack {
        AckType::PubAck => qos == QoS::AtLeastOnce,
        _ => qos == QoS::ExactlyOnce,
    };
    if !fits {
        return PublishState::Null;
    }
    match ack {
        AckType::PubAck | AckType::PubComp => PublishState::PublishDone,
        AckType::PubRec => match op {
            Operation::Send => PublishState::PubRelPending,
            Operation::Receive => PublishState::PubRelSend,
        },
        AckType::PubRel => match op {
            Operation::Send => PublishState::PubCompPending,
            Operation::Receive => PublishState::PubCompSend,
        },
    }
}

// ---------------------------------------------------------------------------
// Sequences of records
// ---------------------------------------------------------------------------

/// The record of an empty place.
pub open spec fn empty_record() -> Record {
    Record { packet_id: PACKET_ID_INVALID, qos: QoS::AtMostOnce, state: PublishState::Null }
}

/// `n` empty places.
pub open spec fn all_empty(n: nat) -> Seq<Record> {
    Seq::new(n, |i: int| empty_record())
}

/// The publishes in flight, in order.
pub open spec fn in_flight(records: Seq<Record>) -> Seq<Record>
    decreases records.len(),
{
    if records.len() == 0 {
        Seq::empty()
    } else if records.last().vacant() {
        in_flight(records.drop_last())
    } else {
        in_flight(records.drop_last()).push(records.last())
    }
}

/// The records moved to the front, in order. A place that a record was moved
/// out of is left empty.
pub open spec fn compacted(records: Seq<Record>) -> Seq<Record> {
    Seq::new(
        records.len(),
        |i: int|
            if i < in_flight(records).len() {
                in_flight(records)[i]
            } else if records[i].vacant() {
                records[i]
            } else {
                empty_record()
            },
    )
}

/// The first index from `from` on whose record has this identifier; the number
/// of records if there is none.
pub open spec fn place_of(records: Seq<Record>, packet_id: u16, from: int) -> int
    decreases records.len() - from,
{
    if from >= records.len() {
        records.len() as int
    } else if records[from].packet_id == packet_id {
        from
    } else {
        place_of(records, packet_id, from + 1)
    }
}

/// Some record has this identifier.
pub open spec fn holds(records: Seq<Record>, packet_id: u16) -> bool {
    place_of(records, packet_id, 0) < records.len()
}

/// One past the last publish in flight.
pub open spec fn first_free(records: Seq<Record>) -> int
    decreases records.len(),
{
    if records.len() == 0 || !records.last().vacant() {
        records.len() as int
    } else {
        first_free(records.drop_last())
    }
}

/// Adding a record behind all others: what comes out, and the records after.
/// Room is made by moving records to the front if the last place is taken.
pub open spec fn added(records: Seq<Record>, record: Record) -> (Result<(), StateError>, Seq<
    Record,
>) {
    let ready = if records.len() > 0 && !records.last().vacant() {
        compacted(records)
    } else {
        records
    };
    if holds(ready, record.packet_id) {
        (Err(StateError::StateCollision), ready)
    } else if first_free(ready) >= ready.len() {
        (Err(StateError::NoMemory), ready)
    } else {
        (Ok(()), ready.update(first_free(ready), record))
    }
}

/// The next record, from `from` on, that one of two kinds of scan is looking
/// for; the number of records if there is none.
pub open spec fn next_wanted(records: Seq<Record>, pubrels: bool, from: int) -> int
    decreases records.len() - from,
{
    if from >= records.len() {
        records.len() as int
    } else if wanted(pubrels, records[from].state) {
        from
    } else {
        next_wanted(records, pubrels, from + 1)
    }
}

/// What is sent again after a reconnect: the PUBRELs whose PUBCOMP has not
/// come, or the publishes whose first acknowledgement has not come.
pub open spec fn wanted(pubrels: bool, state: PublishState) -> bool {
    if pubrels {
        state == PublishState::PubCompPending || state == PublishState::PubRelSend
    } else {
        state == PublishState::PublishSend || state == PublishState::PubAckPending || state
            == PublishState::PubRecPending
    }
}

/// What a resend scan returns from a given cursor.
pub open spec fn resend_found(records: Seq<Record>, pubrels: bool, from: int) -> Option<u16> {
    let place = next_wanted(records, pubrels, from);
    if place < records.len() && records[place].packet_id != PACKET_ID_INVALID {
        Some(records[place].packet_id)
    } else {
        None
    }
}

/// Where a resend scan leaves the cursor.
pub open spec fn resend_cursor(records: Seq<Record>, pubrels: bool, from: int) -> int {
    let place = next_wanted(records, pubrels, from);
    if from >= records.len() {
        from
    } else if place < records.len() {
        place + 1
    } else {
        place
    }
}

/// The invariant of an array of records: an empty place is wholly empty, a
/// taken one has a QoS that is acknowledged and a handshake under way, and no
/// identifier is in flight twice.
pub open spec fn well_formed(records: Seq<Record>) -> bool {
    &&& forall|i: int|
        0 <= i < records.len() && (#[trigger] records[i]).vacant() ==> records[i] == empty_record()
    &&& forall|i: int|
        0 <= i < records.len() && !(#[trigger] records[i]).vacant() ==> records[i].qos
            != QoS::AtMostOnce && records[i].state != PublishState::Null && records[i].state
            != PublishState::PublishDone
    &&& forall|i: int, j: int|
        0 <= i < j < records.len() && !records[i].vacant() ==> (#[trigger] records[i]).packet_id
            != (#[trigger] records[j]).packet_id
}

// ---------------------------------------------------------------------------
// Lemmas
// ---------------------------------------------------------------------------

proof fn lemma_in_flight_step(records: Seq<Record>, n: int)
    requires
        0 <= n < records.len(),
    ensures
        in_flight(records.take(n + 1)) == (if records[n].vacant() {
            in_flight(records.take(n))
        } else {
            in_flight(records.take(n)).push(records[n])
        }),
        in_flight(records.take(n)).len() <= n,
    decreases n,
{
    assert(records.take(n + 1).drop_last() =~= records.take(n));
    if n > 0 {
        lemma_in_flight_step(records, n - 1);
    }
}

/// Publishes in flight are never empty records, and each comes from a place.
proof fn lemma_in_flight_members(records: Seq<Record>)
    ensures
        in_flight(records).len() <= records.len(),
        forall|k: int|
            0 <= k < in_flight(records).len() ==> !(#[trigger] in_flight(records)[k]).vacant()
                && exists|i: int|
                k <= i < records.len() && records[i] == in_flight(records)[k],
        forall|i: int|
            0 <= i < records.len() && !(#[trigger] records[i]).vacant() ==> exists|k: int|
                0 <= k < in_flight(records).len() && in_flight(records)[k] == records[i],
    decreases records.len(),
{
    if records.len() > 0 {
        let shorter = records.drop_last();
        lemma_in_flight_members(shorter);
        assert forall|k: int| 0 <= k < in_flight(records).len() implies !(
        #[trigger] in_flight(records)[k]).vacant() && exists|i: int|
            k <= i < records.len() && records[i] == in_flight(records)[k] by {
            if k < in_flight(shorter).len() {
                assert(in_flight(records)[k] == in_flight(shorter)[k]);
                let i = choose|i: int| k <= i < shorter.len() && shorter[i] == in_flight(shorter)[k];
                assert(records[i] == in_flight(records)[k]);
            } else {
                assert(records[records.len() - 1] == in_flight(records)[k]);
            }
        }
        assert forall|i: int| 0 <= i < records.len() && !(#[trigger] records[i]).vacant() implies exists|
            k: int,
        | 0 <= k < in_flight(records).len() && in_flight(records)[k] == records[i] by {
            if i < shorter.len() {
                assert(shorter[i] == records[i]);
                let k = choose|k: int|
                    0 <= k < in_flight(shorter).len() && in_flight(shorter)[k] == shorter[i];
                assert(in_flight(records)[k] == records[i]);
            } else {
                assert(in_flight(records)[in_flight(shorter).len() as int] == records[i]);
            }
        }
    }
}

/// No identifier in flight twice, seen through [`in_flight`].
proof fn lemma_in_flight_distinct(records: Seq<Record>)
    requires
        well_formed(records),
    ensures
        forall|k: int, l: int|
            0 <= k < l < in_flight(records).len() ==> (#[trigger] in_flight(records)[k]).packet_id
                != (#[trigger] in_flight(records)[l]).packet_id,
    decreases records.len(),
{
    if records.len() > 0 {
        let shorter = records.drop_last();
        assert(well_formed(shorter)) by {
            assert forall|i: int| 0 <= i < shorter.len() implies shorter[i] == records[i] by {}
        }
        lemma_in_flight_distinct(shorter);
        lemma_in_flight_members(shorter);
        assert forall|k: int, l: int| 0 <= k < l < in_flight(records).len() implies (
        #[trigger] in_flight(records)[k]).packet_id != (#[trigger] in_flight(records)[l]).packet_id by {
            if l == in_flight(shorter).len() {
                assert(in_flight(records)[k] == in_flight(shorter)[k]);
                let i = choose|i: int| k <= i < shorter.len() && shorter[i] == in_flight(shorter)[k];
                assert(records[i] == shorter[i]);
                assert(records[records.len() - 1] == in_flight(records)[l]);
            } else {
                assert(in_flight(records)[k] == in_flight(shorter)[k]);
                assert(in_flight(records)[l] == in_flight(shorter)[l]);
            }
        }
    }
}

/// A run of empty places adds nothing to what is in flight.
proof fn lemma_in_flight_tail(records: Seq<Record>, n: int)
    requires
        0 <= n <= records.len(),
        forall|i: int| n <= i < records.len() ==> (#[trigger] records[i]).vacant(),
    ensures
        in_flight(records) == in_flight(records.take(n)),
    decreases records.len() - n,
{
    if n < records.len() {
        let shorter = records.drop_last();
        assert(shorter.take(n) =~= records.take(n));
        lemma_in_flight_tail(shorter, n);
    } else {
        assert(records.take(n) =~= records);
    }
}

/// A run of taken places is itself what is in flight.
proof fn lemma_in_flight_whole(records: Seq<Record>)
    requires
        forall|i: int| 0 <= i < records.len() ==> !(#[trigger] records[i]).vacant(),
    ensures
        in_flight(records) == records,
    decreases records.len(),
{
    if records.len() > 0 {
        lemma_in_flight_whole(records.drop_last());
        assert(records.drop_last().push(records.last()) =~= records);
    }
}

proof fn lemma_place_of(records: Seq<Record>, packet_id: u16, from: int)
    requires
        0 <= from <= records.len(),
    ensures
        from <= place_of(records, packet_id, from) <= records.len(),
        place_of(records, packet_id, from) < records.len() ==> records[place_of(
            records,
            packet_id,
            from,
        )].packet_id == packet_id,
        forall|i: int|
            from <= i < place_of(records, packet_id, from) ==> (#[trigger] records[i]).packet_id
                != packet_id,
    decreases records.len() - from,
{
    if from < records.len() && records[from].packet_id != packet_id {
        lemma_place_of(records, packet_id, from + 1);
    }
}

proof fn lemma_first_free(records: Seq<Record>)
    ensures
        0 <= first_free(records) <= records.len(),
        forall|i: int|
            first_free(records) <= i < records.len() ==> (#[trigger] records[i]).vacant(),
        first_free(records) > 0 ==> !records[first_free(records) - 1].vacant(),
    decreases records.len(),
{
    if records.len() > 0 && records.last().vacant() {
        let shorter = records.drop_last();
        lemma_first_free(shorter);
        assert forall|i: int| first_free(records) <= i < records.len() implies (
        #[trigger] records[i]).vacant() by {
            if i < shorter.len() {
                assert(shorter[i] == records[i]);
            }
        }
    }
}

proof fn lemma_first_free_is(records: Seq<Record>, n: int)
    requires
        0 <= n <= records.len(),
        forall|i: int| n <= i < records.len() ==> (#[trigger] records[i]).vacant(),
        n > 0 ==> !records[n - 1].vacant(),
    ensures
        first_free(records) == n,
{
    lemma_first_free(records);
}

/// Moving records to the front puts everything in flight before everything
/// empty, and changes nothing of what is in flight.
proof fn lemma_compacted_order(records: Seq<Record>)
    ensures
        in_flight(compacted(records)) == in_flight(records),
        first_free(compacted(records)) == in_flight(records).len(),
        in_flight(records).len() <= records.len(),
        forall|i: int|
            in_flight(records).len() <= i < records.len() ==> (#[trigger] compacted(
                records,
            )[i]).vacant(),
{
    let after = compacted(records);
    let m = in_flight(records).len() as int;
    lemma_in_flight_members(records);
    assert(after.take(m) =~= in_flight(records));
    lemma_in_flight_tail(after, m);
    assert forall|i: int| 0 <= i < m implies !(#[trigger] after.take(m)[i]).vacant() by {
        assert(!in_flight(records)[i].vacant());
    }
    lemma_in_flight_whole(after.take(m));
    if m > 0 {
        assert(after[m - 1] == in_flight(records)[m - 1]);
    }
    lemma_first_free_is(after, m);
}

/// Moving records to the front keeps the record invariant.
proof fn lemma_compacted_keeps(records: Seq<Record>)
    requires
        well_formed(records),
    ensures
        well_formed(compacted(records)),
{
    let after = compacted(records);
    let m = in_flight(records).len() as int;
    lemma_in_flight_members(records);
    lemma_in_flight_distinct(records);
    assert forall|i: int| 0 <= i < after.len() && !(#[trigger] after[i]).vacant() implies after[i].qos
        != QoS::AtMostOnce && after[i].state != PublishState::Null && after[i].state
        != PublishState::PublishDone by {
        assert(after[i] == in_flight(records)[i]);
        let k = choose|k: int| i <= k < records.len() && records[k] == in_flight(records)[i];
        assert(records[k] == after[i]);
    }
    assert forall|i: int| 0 <= i < after.len() && (#[trigger] after[i]).vacant() implies after[i]
        == empty_record() by {
        if i < m {
            assert(!in_flight(records)[i].vacant());
        } else {
            assert(records[i].vacant() ==> records[i] == empty_record());
        }
    }
    assert forall|i: int, j: int| 0 <= i < j < after.len() && !after[i].vacant() implies (
    #[trigger] after[i]).packet_id != (#[trigger] after[j]).packet_id by {
        if j < m {
            assert(after[i] == in_flight(records)[i]);
            assert(after[j] == in_flight(records)[j]);
        } else {
            assert(after[j].vacant());
        }
    }
}

/// Moving records to the front loses no identifier and invents none.
proof fn lemma_compacted_holds(records: Seq<Record>, packet_id: u16)
    requires
        packet_id != PACKET_ID_INVALID,
    ensures
        holds(compacted(records), packet_id) <==> holds(records, packet_id),
{
    let after = compacted(records);
    lemma_in_flight_members(records);
    lemma_place_of(after, packet_id, 0);
    lemma_place_of(records, packet_id, 0);
    if holds(after, packet_id) {
        let p = place_of(after, packet_id, 0);
        assert(after[p] == in_flight(records)[p]);
        let i = choose|i: int| p <= i < records.len() && records[i] == in_flight(records)[p];
        assert(records[i].packet_id == packet_id);
    }
    if holds(records, packet_id) {
        let p = place_of(records, packet_id, 0);
        assert(!records[p].vacant());
        let k = choose|k: int|
            0 <= k < in_flight(records).len() && in_flight(records)[k] == records[p];
        assert(after[k] == in_flight(records)[k]);
    }
}

/// With an empty place, fewer are in flight than there are places.
proof fn lemma_in_flight_shorter(records: Seq<Record>, i: int)
    requires
        0 <= i < records.len(),
        records[i].vacant(),
    ensures
        in_flight(records).len() < records.len(),
    decreases records.len(),
{
    let shorter = records.drop_last();
    if i < records.len() - 1 {
        lemma_in_flight_shorter(shorter, i);
    } else {
        lemma_in_flight_members(shorter);
    }
}

/// **Law.** A record that is added goes behind every publish in flight, and
/// keeps the invariant.
pub proof fn law_added_goes_last(records: Seq<Record>, record: Record)
    requires
        !record.vacant(),
    ensures
        added(records, record).1.len() == records.len(),
        added(records, record).0 is Ok ==> in_flight(added(records, record).1) == in_flight(
            records,
        ).push(record),
        added(records, record).0 is Err ==> in_flight(added(records, record).1) == in_flight(
            records,
        ),
        added(records, record).0 == Err::<(), StateError>(StateError::StateCollision) <==> holds(
            records,
            record.packet_id,
        ),
        well_formed(records) && record.qos != QoS::AtMostOnce && record.state != PublishState::Null
            && record.state != PublishState::PublishDone ==> well_formed(added(records, record).1),
        (exists|i: int| 0 <= i < records.len() && (#[trigger] records[i]).vacant()) ==> added(
            records,
            record,
        ).0 != Err::<(), StateError>(StateError::NoMemory),
{
    let ready = if records.len() > 0 && !records.last().vacant() {
        lemma_compacted_order(records);
        lemma_compacted_holds(records, record.packet_id);
        if well_formed(records) {
            lemma_compacted_keeps(records);
        }
        if exists|i: int| 0 <= i < records.len() && (#[trigger] records[i]).vacant() {
            let i = choose|i: int| 0 <= i < records.len() && (#[trigger] records[i]).vacant();
            lemma_in_flight_shorter(records, i);
        }
        compacted(records)
    } else {
        records
    };
    let free = first_free(ready);
    lemma_first_free(ready);
    lemma_place_of(ready, record.packet_id, 0);
    if !holds(ready, record.packet_id) && free < ready.len() {
        let after = ready.update(free, record);
        assert(after.take(free) =~= ready.take(free));
        lemma_in_flight_tail(ready, free);
        lemma_in_flight_tail(after, free + 1);
        lemma_in_flight_step(after, free);
        assert forall|i: int| 0 <= i < after.len() && i != free implies after[i] == ready[i] by {}
    }
}

proof fn lemma_next_wanted(records: Seq<Record>, pubrels: bool, from: int)
    requires
        0 <= from <= records.len(),
    ensures
        from <= next_wanted(records, pubrels, from) <= records.len(),
        next_wanted(records, pubrels, from) < records.len() ==> wanted(
            pubrels,
            records[next_wanted(records, pubrels, from)].state,
        ),
        forall|i: int|
            from <= i < next_wanted(records, pubrels, from) ==> !wanted(
                pubrels,
                (#[trigger] records[i]).state,
            ),
    decreases records.len() - from,
{
    if from < records.len() && !wanted(pubrels, records[from].state) {
        lemma_next_wanted(records, pubrels, from + 1);
    }
}

/// **Law.** A resend scan that finds something has moved the cursor on, so it
/// ends; and in a well-formed array it passes over nothing it was looking for
/// and stops only where nothing is left.
pub proof fn law_resend_advances(records: Seq<Record>, pubrels: bool, from: int)
    requires
        well_formed(records),
        0 <= from <= records.len(),
    ensures
        resend_found(records, pubrels, from) is Some ==> from < resend_cursor(
            records,
            pubrels,
            from,
        ) <= records.len(),
        resend_found(records, pubrels, from) matches Some(id) ==> {
            let place = resend_cursor(records, pubrels, from) - 1;
            &&& records[place].packet_id == id
            &&& wanted(pubrels, records[place].state)
            &&& forall|i: int|
                from <= i < place ==> !wanted(pubrels, (#[trigger] records[i]).state)
        },
        resend_found(records, pubrels, from) is None ==> forall|i: int|
            from <= i < records.len() ==> !wanted(pubrels, (#[trigger] records[i]).state),
{
    lemma_next_wanted(records, pubrels, from);
}

// ---------------------------------------------------------------------------
// Executable operations on one array
// ---------------------------------------------------------------------------

/// Empties every place.
fn clear_all(records: &mut [Record])
    ensures
        final(records)@ == all_empty(old(records)@.len()),
{
    let size: usize = records.len();
    let mut index: usize = 0;
    while index < size
        invariant
            index <= size,
            size == records@.len(),
            size == old(records)@.len(),
            forall|i: int| 0 <= i < index ==> records@[i] == empty_record(),
        decreases size - index,
    {
        records[index] = Record::default();
        index += 1;
    }
    assert(records@ =~= all_empty(old(records)@.len()));
}

/// Moves every record to the front, in order.
fn compact(records: &mut [Record])
    ensures
        final(records)@ == compacted(old(records)@),
{
    let ghost before = records@;
    let size: usize = records.len();
    let mut index: usize = 0;
    // The first empty place, if one has been passed: everything from it to
    // `index` is empty.
    let mut taken: usize = 0;
    while index < size
        invariant
            size == records@.len(),
            size == before.len(),
            taken <= index <= size,
            taken == in_flight(before.take(index as int)).len(),
            forall|i: int| 0 <= i < taken ==> records@[i] == in_flight(before.take(index as int))[i],
            forall|i: int|
                taken <= i < index ==> records@[i] == (if (#[trigger] before[i]).vacant() {
                    before[i]
                } else {
                    empty_record()
                }),
            forall|i: int| index <= i < size ==> records@[i] == before[i],
        decreases size - index,
    {
        proof {
            lemma_in_flight_step(before, index as int);
        }
        let record = records[index];
        if !record.is_empty() {
            if taken < index {
                records[taken] = record;
                records[index] = Record::default();
            }
            taken += 1;
        }
        index += 1;
    }
    proof {
        assert(before.take(size as int) =~= before);
        assert(records@ =~= compacted(before));
    }
}

/// Adds a record behind all others.
fn add_record(records: &mut [Record], packet_id: u16, qos: QoS, state: PublishState) -> (result:
    Result<(), StateError>)
    requires
        packet_id != PACKET_ID_INVALID,
    ensures
        (result, final(records)@) == added(old(records)@, Record { packet_id, qos, state }),
{
    let count: usize = records.len();
    if count > 0 && !records[count - 1].is_empty() {
        compact(records);
    }
    let ghost ready = records@;
    proof {
        lemma_first_free(ready);
        lemma_place_of(ready, packet_id, 0);
    }
    let mut available: usize = count;
    let mut valid_entry_found = false;
    let mut index: usize = count;
    while index > 0
        invariant
            index <= count,
            count == records@.len(),
            records@ == ready,
            packet_id != PACKET_ID_INVALID,
            !valid_entry_found ==> available == index && forall|i: int|
                index <= i < count ==> (#[trigger] ready[i]).vacant(),
            valid_entry_found ==> index < available <= count && available == first_free(ready),
            forall|i: int| index <= i < count ==> (#[trigger] ready[i]).packet_id != packet_id,
            ready == (if old(records)@.len() > 0 && !old(records)@.last().vacant() {
                compacted(old(records)@)
            } else {
                old(records)@
            }),
        decreases index,
    {
        index -= 1;
        let record = records[index];
        if record.is_empty() {
            if !valid_entry_found {
                available = index;
            }
        } else {
            if !valid_entry_found {
                proof {
                    lemma_first_free_is(ready, available as int);
                }
            }
            valid_entry_found = true;
            if record.packet_id == packet_id {
                proof {
                    lemma_place_of(ready, packet_id, 0);
                }
                return Err(StateError::StateCollision);
            }
        }
    }
    proof {
        lemma_place_of(ready, packet_id, 0);
        if !valid_entry_found {
            lemma_first_free_is(ready, 0);
        }
    }
    if available >= count {
        return Err(StateError::NoMemory);
    }
    records[available] = Record { packet_id, qos, state };
    Ok(())
}

/// The first record with this identifier: its index, its QoS and its state.
fn find_in_record(records: &[Record], packet_id: u16) -> (found: Option<
    (usize, QoS, PublishState),
>)
    ensures
        found is Some == holds(records@, packet_id),
        found matches Some((index, qos, state)) ==> {
            &&& index == place_of(records@, packet_id, 0)
            &&& index < records@.len()
            &&& qos == records@[index as int].qos
            &&& state == records@[index as int].state
            &&& records@[index as int].packet_id == packet_id
        },
{
    let mut index: usize = 0;
    while index < records.len()
        invariant
            index <= records@.len(),
            place_of(records@, packet_id, 0) == place_of(records@, packet_id, index as int),
        decreases records@.len() - index,
    {
        if records[index].packet_id == packet_id {
            return Some((index, records[index].qos, records[index].state));
        }
        index += 1;
    }
    None
}

/// Changes the state of one record, or empties its place.
fn update_record(records: &mut [Record], index: usize, new: PublishState, delete: bool)
    requires
        index < old(records)@.len(),
    ensures
        final(records)@ == old(records)@.update(
            index as int,
            if delete {
                empty_record()
            } else {
                Record { state: new, ..old(records)@[index as int] }
            },
        ),
{
    if delete {
        records[index] = Record::default();
    } else {
        let record = records[index];
        records[index] = Record { packet_id: record.packet_id, qos: record.qos, state: new };
    }
}

/// Moves the cursor past the next record that the scan is looking for, and
/// returns that record's identifier.
fn state_select(records: &[Record], pubrels: bool, cursor: &mut Cursor) -> (found: u16)
    ensures
        resend_found(records@, pubrels, old(cursor).at()) == (if found == PACKET_ID_INVALID {
            None::<u16>
        } else {
            Some(found)
        }),
        final(cursor).at() == resend_cursor(records@, pubrels, old(cursor).at()),
{
    let ghost start = cursor.at();
    while cursor.0 < records.len()
        invariant
            start == old(cursor).at(),
            start <= cursor.at(),
            start < records@.len() ==> cursor.at() <= records@.len(),
            start >= records@.len() ==> cursor.at() == start,
            next_wanted(records@, pubrels, start) == next_wanted(records@, pubrels, cursor.at()),
        decreases records@.len() - cursor.at(),
    {
        let record = records[cursor.0];
        let found = if pubrels {
            record.state == PublishState::PubCompPending || record.state == PublishState::PubRelSend
        } else {
            record.state == PublishState::PublishSend || record.state == PublishState::PubAckPending
                || record.state == PublishState::PubRecPending
        };
        *cursor = Cursor(cursor.0 + 1);
        if found {
            return record.packet_id;
        }
    }
    PACKET_ID_INVALID
}

// ---------------------------------------------------------------------------
// The two arrays
// ---------------------------------------------------------------------------

/// The two arrays of records, as sequences.
#[verifier::ext_equal]
pub struct RecordsModel {
    /// Publishes this client sent.
    pub outgoing: Seq<Record>,
    /// Publishes this client received.
    pub incoming: Seq<Record>,
}

impl RecordsModel {
    /// Both arrays satisfy the record invariant.
    pub open spec fn well_formed(self) -> bool {
        well_formed(self.outgoing) && well_formed(self.incoming)
    }

    /// Reserving a place for a publish that is about to be sent.
    pub open spec fn reserved(self, packet_id: u16, qos: QoS) -> (Result<(), StateError>, Self) {
        if qos == QoS::AtMostOnce {
            (Ok(()), self)
        } else if packet_id == PACKET_ID_INVALID {
            (Err(StateError::BadParameter), self)
        } else {
            let (result, outgoing) = added(
                self.outgoing,
                Record { packet_id, qos, state: PublishState::PublishSend },
            );
            (result, RecordsModel { outgoing, ..self })
        }
    }

    /// A publish was sent or received.
    pub open spec fn after_publish(self, packet_id: u16, op: Operation, qos: QoS) -> (Result<
        PublishState,
        StateError,
    >, Self) {
        let new = state_after_publish(op, qos);
        if qos == QoS::AtMostOnce {
            (Ok(PublishState::PublishDone), self)
        } else if packet_id == PACKET_ID_INVALID {
            (Err(StateError::BadParameter), self)
        } else if op == Operation::Receive {
            match added(self.incoming, Record { packet_id, qos, state: new }) {
                (Ok(()), incoming) => (Ok(new), RecordsModel { incoming, ..self }),
                (Err(error), incoming) => (Err(error), RecordsModel { incoming, ..self }),
            }
        } else {
            let place = place_of(self.outgoing, packet_id, 0);
            if place >= self.outgoing.len() || self.outgoing[place].qos != qos {
                (Err(StateError::BadParameter), self)
            } else if !publish_may_go(self.outgoing[place].state, new, op, qos) {
                (Err(StateError::IllegalState), self)
            } else {
                let record = Record { state: new, ..self.outgoing[place] };
                (
                    Ok(new),
                    RecordsModel { outgoing: self.outgoing.update(place, record), ..self },
                )
            }
        }
    }

    /// An acknowledgement was sent or received.
    pub open spec fn after_ack(self, packet_id: u16, ack: AckType, op: Operation) -> (Result<
        PublishState,
        StateError,
    >, Self) {
        if packet_id == PACKET_ID_INVALID {
            (Err(StateError::BadParameter), self)
        } else if ack_is_for_outgoing(ack, op) {
            let (result, outgoing) = acknowledged(self.outgoing, packet_id, ack, op);
            (result, RecordsModel { outgoing, ..self })
        } else {
            let (result, incoming) = acknowledged(self.incoming, packet_id, ack, op);
            (result, RecordsModel { incoming, ..self })
        }
    }

    /// A publish is given up.
    pub open spec fn removed(self, packet_id: u16) -> (Result<(), StateError>, Self) {
        let place = place_of(self.outgoing, packet_id, 0);
        if packet_id == PACKET_ID_INVALID || place >= self.outgoing.len()
            || self.outgoing[place].state == PublishState::Null || self.outgoing[place].qos
            == QoS::AtMostOnce {
            (Err(StateError::BadParameter), self)
        } else {
            (
                Ok(()),
                RecordsModel { outgoing: self.outgoing.update(place, empty_record()), ..self },
            )
        }
    }

    /// No more places than these.
    pub open spec fn capped(self, outgoing: int, incoming: int) -> Self {
        RecordsModel {
            outgoing: if outgoing < self.outgoing.len() {
                self.outgoing.take(outgoing)
            } else {
                self.outgoing
            },
            incoming: if incoming < self.incoming.len() {
                self.incoming.take(incoming)
            } else {
                self.incoming
            },
        }
    }
}

/// An acknowledgement applied to the array it belongs to.
///
/// A finished handshake empties its place. A PUBREC that is received moves its
/// record behind all others, because PUBRELs have to be sent again in the order
/// in which the PUBRECs came.
pub open spec fn acknowledged(
    records: Seq<Record>,
    packet_id: u16,
    ack: AckType,
    op: Operation,
) -> (Result<PublishState, StateError>, Seq<Record>) {
    let place = place_of(records, packet_id, 0);
    if place >= records.len() {
        (Err(StateError::BadResponse), records)
    } else {
        let current = records[place].state;
        let new = state_after_ack(ack, op, records[place].qos);
        let record = Record { packet_id, qos: QoS::ExactlyOnce, state: PublishState::PubRelSend };
        if !ack_may_go(current, new) {
            (Err(StateError::IllegalState), records)
        } else if current == new {
            (Ok(new), records)
        } else if new == PublishState::PublishDone {
            (Ok(new), records.update(place, empty_record()))
        } else if new == PublishState::PubRelSend {
            match added(records.update(place, empty_record()), record) {
                (Ok(()), after) => (Ok(new), after),
                (Err(error), after) => (Err(error), after),
            }
        } else {
            (Ok(new), records.update(place, Record { state: new, ..records[place] }))
        }
    }
}

/// Emptying a place, or moving its handshake on, keeps the record invariant.
proof fn lemma_update_keeps(records: Seq<Record>, place: int, state: PublishState)
    requires
        well_formed(records),
        0 <= place < records.len(),
    ensures
        well_formed(records.update(place, empty_record())),
        !records[place].vacant() && state != PublishState::Null && state
            != PublishState::PublishDone ==> well_formed(
            records.update(place, Record { state, ..records[place] }),
        ),
{
    let emptied = records.update(place, empty_record());
    assert forall|i: int| 0 <= i < emptied.len() && i != place implies emptied[i] == records[i] by {}
    let moved = records.update(place, Record { state, ..records[place] });
    assert forall|i: int| 0 <= i < moved.len() && i != place implies moved[i] == records[i] by {}
    assert(moved[place].packet_id == records[place].packet_id);
}

/// An acknowledgement leaves as many places as there were.
pub proof fn lemma_acknowledged_size(
    records: Seq<Record>,
    packet_id: u16,
    ack: AckType,
    op: Operation,
)
    ensures
        acknowledged(records, packet_id, ack, op).1.len() == records.len(),
{
    lemma_place_of(records, packet_id, 0);
    let emptied = records.update(place_of(records, packet_id, 0), empty_record());
    lemma_first_free(emptied);
    lemma_first_free(compacted(emptied));
}

/// **Law.** Every acknowledgement keeps the record invariant and the number of
/// places, and in a well-formed array one is refused only because nothing with
/// that identifier is in flight or because the handshake does not allow it.
pub proof fn law_acknowledged(records: Seq<Record>, packet_id: u16, ack: AckType, op: Operation)
    requires
        packet_id != PACKET_ID_INVALID,
        well_formed(records),
    ensures
        acknowledged(records, packet_id, ack, op).1.len() == records.len(),
        well_formed(acknowledged(records, packet_id, ack, op).1),
        acknowledged(records, packet_id, ack, op).0 matches Err(error) ==> error
            == StateError::BadResponse || error == StateError::IllegalState,
        acknowledged(records, packet_id, ack, op).0 == Ok::<PublishState, StateError>(
            PublishState::PubRelSend,
        ) ==> in_flight(acknowledged(records, packet_id, ack, op).1).last() == (Record {
            packet_id,
            qos: QoS::ExactlyOnce,
            state: PublishState::PubRelSend,
        }),
{
    lemma_place_of(records, packet_id, 0);
    let place = place_of(records, packet_id, 0);
    if place < records.len() {
        let new = state_after_ack(ack, op, records[place].qos);
        lemma_update_keeps(records, place, new);
        if ack_may_go(records[place].state, new) && new == PublishState::PubRelSend {
            let emptied = records.update(place, empty_record());
            let record = Record {
                packet_id,
                qos: QoS::ExactlyOnce,
                state: PublishState::PubRelSend,
            };
            assert(emptied[place].vacant());
            law_added_goes_last(emptied, record);
            lemma_place_of(emptied, packet_id, 0);
            if holds(emptied, packet_id) {
                let other = place_of(emptied, packet_id, 0);
                assert(records[other].packet_id == packet_id);
                assert(records[place].packet_id == packet_id);
            }
        }
    }
}

/// **Law.** Every operation on the two arrays keeps their invariant.
pub proof fn law_records_stay_well_formed(
    records: RecordsModel,
    packet_id: u16,
    ack: AckType,
    op: Operation,
    qos: QoS,
    outgoing: nat,
    incoming: nat,
)
    requires
        records.well_formed(),
    ensures
        records.reserved(packet_id, qos).1.well_formed(),
        records.after_publish(packet_id, op, qos).1.well_formed(),
        records.after_ack(packet_id, ack, op).1.well_formed(),
        records.removed(packet_id).1.well_formed(),
        records.capped(outgoing as int, incoming as int).well_formed(),
        well_formed(all_empty(records.outgoing.len())),
{
    if packet_id != PACKET_ID_INVALID {
        law_acknowledged(records.outgoing, packet_id, ack, op);
        law_acknowledged(records.incoming, packet_id, ack, op);
        law_added_goes_last(
            records.outgoing,
            Record { packet_id, qos, state: PublishState::PublishSend },
        );
        law_added_goes_last(
            records.incoming,
            Record { packet_id, qos, state: state_after_publish(op, qos) },
        );
        lemma_place_of(records.outgoing, packet_id, 0);
        let place = place_of(records.outgoing, packet_id, 0);
        if place < records.outgoing.len() {
            lemma_update_keeps(records.outgoing, place, state_after_publish(op, qos));
        }
    }
    lemma_capped_keeps(records.outgoing, outgoing as int);
    lemma_capped_keeps(records.incoming, incoming as int);
}

/// A publish that this client sent can be in this state. Each of the five is
/// sent again after a reconnect, by one of the two kinds of scan.
pub open spec fn state_of_sent(state: PublishState) -> bool {
    wanted(false, state) || wanted(true, state)
}

/// A publish that this client received can be in this state.
pub open spec fn state_of_received(state: PublishState) -> bool {
    state == PublishState::PubAckSend || state == PublishState::PubRecSend || state
        == PublishState::PubRelPending || state == PublishState::PubCompSend
}

/// Every publish in flight is in a state of one that was sent.
pub open spec fn only_sent(records: Seq<Record>) -> bool {
    forall|i: int|
        0 <= i < records.len() && !(#[trigger] records[i]).vacant() ==> state_of_sent(
            records[i].state,
        )
}

/// Every publish in flight is in a state of one that was received.
pub open spec fn only_received(records: Seq<Record>) -> bool {
    forall|i: int|
        0 <= i < records.len() && !(#[trigger] records[i]).vacant() ==> state_of_received(
            records[i].state,
        )
}

impl RecordsModel {
    /// What was sent and what was received are kept apart.
    pub open spec fn apart(self) -> bool {
        only_sent(self.outgoing) && only_received(self.incoming)
    }
}

/// **Law.** A publish in the outgoing array is only ever in one of the five
/// states of a publish that was sent, and one in the incoming array in one of
/// the four states of a publish that was received: this holds of empty records,
/// and every operation keeps it.
pub proof fn law_directions_stay_apart(
    records: RecordsModel,
    packet_id: u16,
    ack: AckType,
    op: Operation,
    qos: QoS,
    outgoing: nat,
    incoming: nat,
)
    ensures
        (RecordsModel { outgoing: all_empty(outgoing), incoming: all_empty(incoming) }).apart(),
        records.apart() ==> {
            &&& records.reserved(packet_id, qos).1.apart()
            &&& records.after_publish(packet_id, op, qos).1.apart()
            &&& records.after_ack(packet_id, ack, op).1.apart()
            &&& records.removed(packet_id).1.apart()
            &&& records.capped(outgoing as int, incoming as int).apart()
            &&& (RecordsModel {
                outgoing: all_empty(records.outgoing.len()),
                ..records
            }).apart()
            &&& (RecordsModel {
                incoming: all_empty(records.incoming.len()),
                ..records
            }).apart()
        },
{
    if records.apart() {
        let sent = Record { packet_id, qos, state: PublishState::PublishSend };
        let received = Record { packet_id, qos, state: state_after_publish(op, qos) };
        let released = Record {
            packet_id,
            qos: QoS::ExactlyOnce,
            state: PublishState::PubRelSend,
        };
        let place = place_of(records.outgoing, packet_id, 0);
        lemma_place_of(records.outgoing, packet_id, 0);
        lemma_place_of(records.incoming, packet_id, 0);
        lemma_added_is_one_more(records.outgoing, sent);
        lemma_added_is_one_more(records.incoming, received);
        lemma_added_is_one_more(records.outgoing.update(place, empty_record()), released);
    }
}

/// **Law.** Each publish that was sent and is in flight is looked for by exactly
/// one of the two kinds of scan, and nothing that was received is by either.
pub proof fn law_one_scan_each(records: RecordsModel)
    requires
        records.apart(),
    ensures
        forall|i: int|
            0 <= i < records.outgoing.len() && !(#[trigger] records.outgoing[i]).vacant()
                ==> wanted(true, records.outgoing[i].state) != wanted(
                false,
                records.outgoing[i].state,
            ),
        forall|i: int, pubrels: bool|
            0 <= i < records.incoming.len() && !(#[trigger] records.incoming[i]).vacant()
                ==> !#[trigger] wanted(pubrels, records.incoming[i].state),
{
}

/// After adding a record, whatever is in flight was there before or is that
/// record.
proof fn lemma_added_is_one_more(records: Seq<Record>, record: Record)
    ensures
        forall|i: int|
            0 <= i < added(records, record).1.len() && !(#[trigger] added(
                records,
                record,
            ).1[i]).vacant() ==> added(records, record).1[i] == record || exists|j: int|
                0 <= j < records.len() && records[j] == added(records, record).1[i],
{
    let ready = if records.len() > 0 && !records.last().vacant() {
        compacted(records)
    } else {
        records
    };
    let after = added(records, record).1;
    lemma_in_flight_members(records);
    lemma_first_free(ready);
    assert forall|i: int| 0 <= i < ready.len() && !(#[trigger] ready[i]).vacant() implies exists|
        j: int,
    | 0 <= j < records.len() && records[j] == ready[i] by {
        if ready != records {
            assert(ready[i] == in_flight(records)[i]);
        } else {
            assert(records[i] == ready[i]);
        }
    }
    assert forall|i: int| 0 <= i < after.len() && !(#[trigger] after[i]).vacant() implies after[i]
        == record || exists|j: int| 0 <= j < records.len() && records[j] == after[i] by {
        assert(after[i] == record || after[i] == ready[i]);
    }
}

proof fn lemma_capped_keeps(records: Seq<Record>, n: int)
    requires
        well_formed(records),
        n >= 0,
    ensures
        n < records.len() ==> well_formed(records.take(n)),
{
    if n < records.len() {
        assert forall|i: int| 0 <= i < n implies records.take(n)[i] == records[i] by {}
    }
}

/// **Law.** A step that leaves a record in the state it was in never leads to a
/// state that empties the record or moves it.
pub proof fn law_staying_never_deletes(
    state: PublishState,
    op: Operation,
    qos: QoS,
)
    ensures
        ack_may_go(state, state) ==> state != PublishState::PublishDone && state
            != PublishState::PubRelSend,
        publish_may_go(state, state, op, qos) ==> state != PublishState::PublishDone && state
            != PublishState::PubRelSend,
{
}

/// **Law.** Each of the five states in which a packet is sent again after a
/// reconnect allows the step that leaves it as it is.
pub proof fn law_reconnect_steps_are_legal(op: Operation, qos: QoS)
    ensures
        publish_may_go(PublishState::PubAckPending, PublishState::PubAckPending, op, qos),
        publish_may_go(PublishState::PubRecPending, PublishState::PubRecPending, op, qos),
        ack_may_go(PublishState::PubRelPending, PublishState::PubRelPending),
        ack_may_go(PublishState::PubCompSend, PublishState::PubCompSend),
        ack_may_go(PublishState::PubCompPending, PublishState::PubCompPending),
{
}

/// The publishes in flight, in storage that the caller lends.
#[derive(Debug)]
pub struct PublishRecords<'a> {
    outgoing: &'a mut [Record],
    incoming: &'a mut [Record],
}

impl<'a> View for PublishRecords<'a> {
    type V = RecordsModel;

    closed spec fn view(&self) -> RecordsModel {
        RecordsModel { outgoing: self.outgoing@, incoming: self.incoming@ }
    }
}

impl<'a> PublishRecords<'a> {
    /// Takes over two arrays and empties them.
    pub fn new(outgoing: &'a mut [Record], incoming: &'a mut [Record]) -> (records: Self)
        ensures
            records@.outgoing == all_empty(old(outgoing)@.len()),
            records@.incoming == all_empty(old(incoming)@.len()),
            records@.well_formed(),
    {
        clear_all(outgoing);
        clear_all(incoming);
        PublishRecords { outgoing, incoming }
    }

    /// The records of publishes this client sent.
    #[must_use]
    pub fn outgoing(&self) -> (records: &[Record])
        ensures
            records@ == self@.outgoing,
    {
        &*self.outgoing
    }

    /// The records of publishes this client received.
    #[must_use]
    pub fn incoming(&self) -> (records: &[Record])
        ensures
            records@ == self@.incoming,
    {
        &*self.incoming
    }

    /// Reserves a record for a publish that is about to be sent.
    ///
    /// A QoS 0 publish needs none, and succeeds without one.
    ///
    /// # Errors
    ///
    /// [`StateError::BadParameter`] for an invalid identifier,
    /// [`StateError::StateCollision`] if one is in flight already, and
    /// [`StateError::NoMemory`] if there is no room.
    pub fn reserve(&mut self, packet_id: u16, qos: QoS) -> (result: Result<(), StateError>)
        ensures
            (result, final(self)@) == old(self)@.reserved(packet_id, qos),
            old(self)@.well_formed() ==> final(self)@.well_formed(),
    {
        proof {
            if self@.well_formed() {
                law_records_stay_well_formed(
                    self@,
                    packet_id,
                    AckType::PubAck,
                    Operation::Send,
                    qos,
                    0,
                    0,
                );
            }
        }
        if qos == QoS::AtMostOnce {
            return Ok(());
        }
        if packet_id == PACKET_ID_INVALID {
            return Err(StateError::BadParameter);
        }
        add_record(self.outgoing, packet_id, qos, PublishState::PublishSend)
    }

    /// Records that a publish was sent or received, and returns the state its
    /// handshake is in now.
    ///
    /// # Errors
    ///
    /// [`StateError::BadParameter`] for an invalid identifier, or for a publish
    /// sent without a reserved record of that QoS; [`StateError::IllegalState`]
    /// if the record is not waiting to be sent; and for one received, the
    /// errors of adding a record.
    pub fn update_publish(&mut self, packet_id: u16, op: Operation, qos: QoS) -> (result: Result<
        PublishState,
        StateError,
    >)
        ensures
            (result, final(self)@) == old(self)@.after_publish(packet_id, op, qos),
            old(self)@.well_formed() ==> final(self)@.well_formed(),
    {
        let ghost before = self@;
        proof {
            if before.well_formed() {
                law_records_stay_well_formed(before, packet_id, AckType::PubAck, op, qos, 0, 0);
            }
        }
        if qos == QoS::AtMostOnce {
            return Ok(PublishState::PublishDone);
        }
        if packet_id == PACKET_ID_INVALID {
            return Err(StateError::BadParameter);
        }
        let mut record_index: usize = 0;
        let mut current = PublishState::Null;
        if op == Operation::Send {
            match find_in_record(self.outgoing, packet_id) {
                None => return Err(StateError::BadParameter),
                Some((index, found_qos, state)) => {
                    if found_qos != qos {
                        return Err(StateError::BadParameter);
                    }
                    record_index = index;
                    current = state;
                },
            }
        }
        let new = calculate_state_publish(op, qos);
        if !validate_transition_publish(current, new, op, qos) {
            return Err(StateError::IllegalState);
        }
        match op {
            Operation::Receive => {
                match add_record(self.incoming, packet_id, qos, new) {
                    Ok(()) => {},
                    Err(error) => return Err(error),
                }
            },
            Operation::Send => {
                if current != new {
                    update_record(self.outgoing, record_index, new, false);
                }
                proof {
                    assert(self@.outgoing =~= before.after_publish(
                        packet_id,
                        op,
                        qos,
                    ).1.outgoing);
                }
            },
        }
        Ok(new)
    }

    /// Records that an acknowledgement was sent or received, and returns the
    /// state its handshake is in now.
    ///
    /// # Errors
    ///
    /// [`StateError::BadParameter`] for an invalid identifier,
    /// [`StateError::BadResponse`] if nothing with it is in flight, and
    /// [`StateError::IllegalState`] if the handshake does not allow it.
    pub fn update_ack(&mut self, packet_id: u16, ack: AckType, op: Operation) -> (result: Result<
        PublishState,
        StateError,
    >)
        ensures
            (result, final(self)@) == old(self)@.after_ack(packet_id, ack, op),
            old(self)@.well_formed() ==> final(self)@.well_formed(),
    {
        proof {
            if self@.well_formed() {
                law_records_stay_well_formed(
                    self@,
                    packet_id,
                    ack,
                    op,
                    QoS::AtMostOnce,
                    0,
                    0,
                );
            }
        }
        if packet_id == PACKET_ID_INVALID {
            return Err(StateError::BadParameter);
        }
        if is_publish_outgoing(ack, op) {
            acknowledge(self.outgoing, packet_id, ack, op)
        } else {
            acknowledge(self.incoming, packet_id, ack, op)
        }
    }

    /// Gives up a publish that was sent.
    ///
    /// # Errors
    ///
    /// [`StateError::BadParameter`] if there is no such publish in flight.
    pub fn remove(&mut self, packet_id: u16) -> (result: Result<(), StateError>)
        ensures
            (result, final(self)@) == old(self)@.removed(packet_id),
            old(self)@.well_formed() ==> final(self)@.well_formed(),
    {
        proof {
            if self@.well_formed() {
                law_records_stay_well_formed(
                    self@,
                    packet_id,
                    AckType::PubAck,
                    Operation::Send,
                    QoS::AtMostOnce,
                    0,
                    0,
                );
            }
        }
        if packet_id == PACKET_ID_INVALID {
            return Err(StateError::BadParameter);
        }
        match find_in_record(self.outgoing, packet_id) {
            None => Err(StateError::BadParameter),
            Some((index, qos, current)) => {
                if current == PublishState::Null || qos == QoS::AtMostOnce {
                    return Err(StateError::BadParameter);
                }
                update_record(self.outgoing, index, PublishState::Null, true);
                Ok(())
            },
        }
    }

    /// The next publish that has to be sent again after a reconnect.
    pub fn publish_to_resend(&self, cursor: &mut Cursor) -> (found: Option<u16>)
        ensures
            found == resend_found(self@.outgoing, false, old(cursor).at()),
            final(cursor).at() == resend_cursor(self@.outgoing, false, old(cursor).at()),
    {
        let packet_id = state_select(self.outgoing, false, cursor);
        if packet_id == PACKET_ID_INVALID {
            None
        } else {
            Some(packet_id)
        }
    }

    /// The next PUBREL that has to be sent again after a reconnect.
    pub fn pubrel_to_resend(&self, cursor: &mut Cursor) -> (found: Option<u16>)
        ensures
            found == resend_found(self@.outgoing, true, old(cursor).at()),
            final(cursor).at() == resend_cursor(self@.outgoing, true, old(cursor).at()),
    {
        let packet_id = state_select(self.outgoing, true, cursor);
        if packet_id == PACKET_ID_INVALID {
            None
        } else {
            Some(packet_id)
        }
    }

    /// Forgets every publish this client sent.
    pub fn clear_outgoing(&mut self)
        ensures
            final(self)@ == (RecordsModel {
                outgoing: all_empty(old(self)@.outgoing.len()),
                ..old(self)@
            }),
    {
        clear_all(self.outgoing);
    }

    /// The outgoing records, to be changed directly.
    pub fn outgoing_mut(&mut self) -> (records: &mut [Record])
        ensures
            records@ == old(self)@.outgoing,
            final(self)@ == (RecordsModel { outgoing: final(records)@, ..old(self)@ }),
    {
        &mut *self.outgoing
    }

    /// Forgets every publish this client received.
    pub fn clear_incoming(&mut self)
        ensures
            final(self)@ == (RecordsModel {
                incoming: all_empty(old(self)@.incoming.len()),
                ..old(self)@
            }),
    {
        clear_all(self.incoming);
    }

    /// Keeps no more places than these. A cap never adds a place.
    pub fn cap(&mut self, outgoing: usize, incoming: usize)
        ensures
            final(self)@ == old(self)@.capped(outgoing as int, incoming as int),
            old(self)@.well_formed() ==> final(self)@.well_formed(),
    {
        proof {
            if self@.well_formed() {
                lemma_capped_keeps(self@.outgoing, outgoing as int);
                lemma_capped_keeps(self@.incoming, incoming as int);
            }
        }
        if outgoing < self.outgoing.len() {
            let mut slice: &'a mut [Record] = &mut [];
            core::mem::swap(&mut slice, &mut self.outgoing);
            let (head, _tail) = slice.split_at_mut(outgoing);
            self.outgoing = head;
        }
        if incoming < self.incoming.len() {
            let mut slice: &'a mut [Record] = &mut [];
            core::mem::swap(&mut slice, &mut self.incoming);
            let (head, _tail) = slice.split_at_mut(incoming);
            self.incoming = head;
        }
    }
}

/// Applies an acknowledgement to the array it belongs to.
fn acknowledge(records: &mut [Record], packet_id: u16, ack: AckType, op: Operation) -> (result:
    Result<PublishState, StateError>)
    requires
        packet_id != PACKET_ID_INVALID,
    ensures
        (result, final(records)@) == acknowledged(old(records)@, packet_id, ack, op),
{
    let (index, qos, current) = match find_in_record(records, packet_id) {
        None => return Err(StateError::BadResponse),
        Some(found) => found,
    };
    let new = calculate_state_ack(ack, op, qos);
    if !validate_transition_ack(current, new) {
        return Err(StateError::IllegalState);
    }
    if current != new {
        let should_delete = new == PublishState::PublishDone || new == PublishState::PubRelSend;
        update_record(records, index, new, should_delete);
        if new == PublishState::PubRelSend {
            match add_record(records, packet_id, QoS::ExactlyOnce, PublishState::PubRelSend) {
                Ok(()) => {},
                Err(error) => return Err(error),
            }
        }
    }
    Ok(new)
}

} // verus!
