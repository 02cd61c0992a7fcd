//! What a session is resumed from: the acknowledgements and publishes that have
//! to be sent again, or forgotten.

use vstd::prelude::*;

use crate::client;
use crate::client::send;
use crate::client::send::SendOutcome;
use crate::client::{
    incoming_key, ClientError, Clock, ContextModel, Keeping, Moment, MqttContext, Store,
};
use crate::context::MAX_PACKET_SIZE;
use crate::header::packet;
use crate::outbound;
use crate::outbound::serialize_ack;
use crate::reader::Transport;
use crate::state;
use crate::state::{
    AckType, Cursor, Operation, PublishRecords, PublishState, Record, RecordsModel,
};

verus! {

// ---------------------------------------------------------------------------
// Acknowledgements
// ---------------------------------------------------------------------------

/// The acknowledgement that a state asks for, or 0.
pub open spec fn ack_type(state: PublishState) -> u8 {
    match state {
        PublishState::PubAckSend => packet::PUBACK,
        PublishState::PubRecSend => packet::PUBREC,
        PublishState::PubRelSend => packet::PUBREL,
        PublishState::PubCompSend => packet::PUBCOMP,
        _ => 0,
    }
}

/// Which acknowledgement a type byte means.
pub open spec fn ack_meant(packet_type: u8) -> Option<AckType> {
    if packet_type == packet::PUBACK {
        Some(AckType::PubAck)
    } else if packet_type == packet::PUBREC {
        Some(AckType::PubRec)
    } else if packet_type == packet::PUBREL {
        Some(AckType::PubRel)
    } else if packet_type == packet::PUBCOMP {
        Some(AckType::PubComp)
    } else {
        None
    }
}

/// Which acknowledgement a type byte means.
pub fn ack_from_packet_type(packet_type: u8) -> (ack: Option<AckType>)
    ensures
        ack == ack_meant(packet_type),
{
    match packet_type {
        packet::PUBACK => Some(AckType::PubAck),
        packet::PUBREC => Some(AckType::PubRec),
        packet::PUBREL => Some(AckType::PubRel),
        packet::PUBCOMP => Some(AckType::PubComp),
        _ => None,
    }
}

/// **Law.** Every acknowledgement that a state asks for is one, and no two
/// states ask for the same.
pub proof fn law_acks_to_send(one: PublishState, other: PublishState)
    ensures
        ack_type(one) != 0 ==> ack_meant(ack_type(one)) is Some && outbound::is_publish_ack(
            ack_type(one),
        ),
        ack_type(one) == 0 ==> ack_meant(ack_type(one)) is None,
        ack_type(one) == ack_type(other) && ack_type(one) != 0 ==> one == other,
{
}

/// What a context is after an acknowledgement has gone out, and what is said of
/// it.
pub open spec fn ack_noted(context: ContextModel, packet_id: u16, ack: AckType) -> (
    Result<(), ClientError>,
    ContextModel,
) {
    match context.records {
        None => (Ok(()), ContextModel { control_packet_sent: true, ..context }),
        Some(records) => {
            let (result, records) = records.after_ack(packet_id, ack, Operation::Send);
            (
                match result {
                    Ok(_) => Ok(()),
                    Err(error) => Err(ClientError::State(error)),
                },
                ContextModel { control_packet_sent: true, records: Some(records), ..context },
            )
        },
    }
}

/// The acknowledgement that a state asks for was sent again, if it asks for one.
pub open spec fn ack_sent_again(
    before: Moment,
    after: Moment,
    packet_id: u16,
    state: PublishState,
    result: Result<(), ClientError>,
) -> bool {
    let packet_type = ack_type(state);
    if packet_type == 0 {
        after == before && result == Ok::<(), ClientError>(())
    } else if packet_id == 0 {
        after == before && result == Err::<(), ClientError>(ClientError::BadParameter)
    } else {
        match client::connected_check(before.context.status) {
            Err(error) => after == before && result == Err::<(), ClientError>(error),
            Ok(()) => exists|sent: Moment, outcome: SendOutcome| #[trigger]
                send::sending(
                    before,
                    sent,
                    outbound::simple_ack_bytes(packet_type, packet_id),
                    false,
                    outcome,
                ) && if outcome == SendOutcome::Sent(4) {
                    let (noted, context) = ack_noted(
                        sent.context,
                        packet_id,
                        ack_meant(packet_type)->0,
                    );
                    result == noted && after == (Moment { context, ..sent })
                } else {
                    result == Err::<(), ClientError>(ClientError::SendFailed) && after == sent
                },
        }
    }
}

impl<'a> MqttContext<'a> {
    /// The acknowledgement that a state asks for, or 0.
    pub fn ack_type_to_send(state: PublishState) -> (packet_type: u8)
        ensures
            packet_type == ack_type(state),
    {
        match state {
            PublishState::PubAckSend => packet::PUBACK,
            PublishState::PubRecSend => packet::PUBREC,
            PublishState::PubRelSend => packet::PUBREL,
            PublishState::PubCompSend => packet::PUBCOMP,
            _ => 0,
        }
    }

    /// Notes that an acknowledgement has gone out.
    pub(crate) fn note_ack_sent(&mut self, packet_id: u16, ack: AckType) -> (result: Result<
        (),
        ClientError,
    >)
        ensures
            (result, final(self)@) == ack_noted(old(self)@, packet_id, ack),
    {
        self.control_packet_sent = true;
        if let Some(records) = &mut self.records {
            match records.update_ack(packet_id, ack, Operation::Send) {
                Ok(_) => {},
                Err(error) => return Err(ClientError::State(error)),
            }
        }
        Ok(())
    }

    /// Sends the acknowledgement that a state asks for, if it asks for one.
    ///
    /// # Errors
    ///
    /// [`ClientError::BadParameter`] without a packet id, what the connection
    /// says if it is not up, [`ClientError::SendFailed`], or
    /// [`ClientError::State`] if the records do not know of it.
    pub fn send_publish_acks<T: Transport, C: Clock>(
        &mut self,
        transport: &mut T,
        clock: &mut C,
        packet_id: u16,
        state: PublishState,
    ) -> (result: Result<(), ClientError>)
        ensures
            ack_sent_again(
                Moment::of(*old(self), *old(transport), *old(clock)),
                Moment::of(*final(self), *final(transport), *final(clock)),
                packet_id,
                state,
                result,
            ),
    {
        let ghost before = Moment::of(*self, *transport, *clock);
        let packet_type = Self::ack_type_to_send(state);
        if packet_type == 0 {
            return Ok(());
        }
        let ack = match ack_from_packet_type(packet_type) {
            Some(ack) => ack,
            None => return Ok(()),
        };
        let mut packet = [0u8; 4];
        let written = match serialize_ack(&mut packet, packet_type, packet_id, None, &[]) {
            Ok(written) => written,
            Err(_) => return Err(ClientError::BadParameter),
        };
        assert(packet@ =~= outbound::simple_ack_bytes(packet_type, packet_id));
        match self.connected() {
            Ok(()) => {},
            Err(error) => return Err(error),
        }
        let outcome = self.send_buffer(transport, clock, &packet);
        let ghost sent = Moment::of(*self, *transport, *clock);
        assert(send::sending(
            before,
            sent,
            outbound::simple_ack_bytes(packet_type, packet_id),
            false,
            outcome,
        ));
        match outcome {
            SendOutcome::Sent(4) => {},
            _ => return Err(ClientError::SendFailed),
        }
        self.note_ack_sent(packet_id, ack)
    }
}

// ---------------------------------------------------------------------------
// Forgetting
// ---------------------------------------------------------------------------

/// A scan does not go back.
pub proof fn lemma_scan_goes_on(records: Seq<Record>, pubrels: bool, from: int)
    ensures
        from <= records.len() ==> from <= state::next_wanted(records, pubrels, from)
            <= records.len(),
        state::resend_found(records, pubrels, from) is Some ==> from < state::resend_cursor(
            records,
            pubrels,
            from,
        ) <= records.len(),
    decreases records.len() - from,
{
    if from < records.len() && !state::wanted(pubrels, records[from].state) {
        lemma_scan_goes_on(records, pubrels, from + 1);
    }
}

/// The packet ids that a scan finds, in order.
pub open spec fn resend_ids(records: Seq<Record>, pubrels: bool, from: int) -> Seq<u16>
    decreases records.len() - from,
{
    match state::resend_found(records, pubrels, from) {
        None => Seq::empty(),
        Some(packet_id) => {
            proof {
                lemma_scan_goes_on(records, pubrels, from);
            }
            seq![packet_id] + resend_ids(
                records,
                pubrels,
                state::resend_cursor(records, pubrels, from),
            )
        },
    }
}

/// A scan finds what it looks for, from where it starts on.
pub open spec fn found_from(records: Seq<Record>, pubrels: bool, from: int, packet_id: u16) -> bool {
    exists|i: int|
        from <= i < records.len() && (#[trigger] records[i]).packet_id == packet_id
            && state::wanted(pubrels, records[i].state)
}

/// The packet ids that a scan finds are those it looks for, each once.
proof fn lemma_resend_ids(records: Seq<Record>, pubrels: bool, from: int)
    requires
        state::well_formed(records),
        0 <= from <= records.len(),
    ensures
        resend_ids(records, pubrels, from).no_duplicates(),
        forall|packet_id: u16| #[trigger]
            resend_ids(records, pubrels, from).contains(packet_id) == found_from(
                records,
                pubrels,
                from,
                packet_id,
            ),
    decreases records.len() - from,
{
    let ids = resend_ids(records, pubrels, from);
    state::law_resend_advances(records, pubrels, from);
    if let Some(found) = state::resend_found(records, pubrels, from) {
        let next = state::resend_cursor(records, pubrels, from);
        let rest = resend_ids(records, pubrels, next);
        let place = next - 1;
        lemma_resend_ids(records, pubrels, next);
        assert(ids =~= seq![found] + rest);
        assert(!records[place].vacant());
        assert(!found_from(records, pubrels, next, found));
        assert(!rest.contains(found));
        assert forall|packet_id: u16| #[trigger] ids.contains(packet_id) == found_from(
            records,
            pubrels,
            from,
            packet_id,
        ) by {
            assert(ids.contains(packet_id) == (packet_id == found || rest.contains(packet_id))) by {
                assert(ids[0] == found);
                if rest.contains(packet_id) {
                    let k = choose|k: int| 0 <= k < rest.len() && rest[k] == packet_id;
                    assert(ids[k + 1] == packet_id);
                }
            }
            if found_from(records, pubrels, from, packet_id) {
                let i = choose|i: int|
                    from <= i < records.len() && (#[trigger] records[i]).packet_id == packet_id
                        && state::wanted(pubrels, records[i].state);
                assert(i >= place);
            }
        }
        assert forall|i: int, j: int| 0 <= i < j < ids.len() implies ids[i] != ids[j] by {
            assert(ids[j] == rest[j - 1]);
            if i > 0 {
                assert(ids[i] == rest[i - 1]);
            } else {
                assert(rest.contains(rest[j - 1]));
            }
        }
    }
}

/// **Law.** After a reconnect each publish that was sent and is still in flight
/// is found by exactly one of the two scans, and by that one once.
pub proof fn law_each_is_sent_again_once(records: RecordsModel, place: int)
    requires
        records.well_formed(),
        records.apart(),
        0 <= place < records.outgoing.len(),
        !records.outgoing[place].vacant(),
    ensures
        ({
            let packet_id = records.outgoing[place].packet_id;
            let publishes = resend_ids(records.outgoing, false, 0);
            let pubrels = resend_ids(records.outgoing, true, 0);
            &&& publishes.contains(packet_id) != pubrels.contains(packet_id)
            &&& publishes.no_duplicates()
            &&& pubrels.no_duplicates()
        }),
{
    let packet_id = records.outgoing[place].packet_id;
    lemma_resend_ids(records.outgoing, false, 0);
    lemma_resend_ids(records.outgoing, true, 0);
    state::law_one_scan_each(records);
    assert forall|pubrels: bool| #[trigger] found_from(records.outgoing, pubrels, 0, packet_id)
        == state::wanted(pubrels, records.outgoing[place].state) by {
        if found_from(records.outgoing, pubrels, 0, packet_id) {
            let i = choose|i: int|
                0 <= i < records.outgoing.len() && (#[trigger] records.outgoing[i]).packet_id
                    == packet_id && state::wanted(pubrels, records.outgoing[i].state);
            assert(i == place);
        }
    }
    assert(found_from(records.outgoing, false, 0, packet_id) != found_from(
        records.outgoing,
        true,
        0,
        packet_id,
    ));
}

/// The key under which what is sent again is kept.
pub open spec fn resend_key(pubrels: bool, packet_id: u16) -> u32 {
    if pubrels {
        client::ack_key(packet_id)
    } else {
        packet_id as u32
    }
}

/// These packets were cleared from the store.
pub open spec fn clears(pubrels: bool, ids: Seq<u16>) -> Seq<Keeping> {
    Seq::new(ids.len(), |i: int| Keeping::Clear { key: resend_key(pubrels, ids[i]) })
}

/// **Law.** In records that are empty there is nothing to send again.
pub proof fn law_nothing_to_resend(size: nat, pubrels: bool, from: int)
    requires
        0 <= from,
    ensures
        resend_ids(state::all_empty(size), pubrels, from) == Seq::<u16>::empty(),
    decreases size - from,
{
    lemma_nothing_wanted(size, pubrels, from);
}

/// A scan of empty records finds nothing.
proof fn lemma_nothing_wanted(size: nat, pubrels: bool, from: int)
    requires
        0 <= from,
    ensures
        state::next_wanted(state::all_empty(size), pubrels, from) == size,
        state::resend_found(state::all_empty(size), pubrels, from) is None,
    decreases size - from,
{
    if from < size {
        lemma_nothing_wanted(size, pubrels, from + 1);
    }
}

/// A context that has forgotten its session.
pub open spec fn forgotten(context: ContextModel) -> ContextModel {
    ContextModel {
        index: 0,
        network: Seq::new(context.network.len(), |i: int| 0u8),
        records: match context.records {
            None => None,
            Some(records) => Some(
                RecordsModel {
                    outgoing: state::all_empty(records.outgoing.len()),
                    incoming: state::all_empty(records.incoming.len()),
                },
            ),
        },
        ..context
    }
}

/// What forgetting a session asks of the store.
pub open spec fn forgotten_in_store(context: ContextModel) -> Seq<Keeping> {
    match context.records {
        None => Seq::empty(),
        Some(records) => clears(false, resend_ids(records.outgoing, false, 0)),
    }
}

/// Clears from the store what a scan finds.
fn forget<S: Store>(records: &PublishRecords<'_>, pubrels: bool, keeper: &mut S)
    ensures
        final(keeper).keepings() == old(keeper).keepings() + clears(
            pubrels,
            resend_ids(records@.outgoing, pubrels, 0),
        ),
{
    let ghost start = keeper.keepings();
    let ghost all = resend_ids(records@.outgoing, pubrels, 0);
    let ghost mut done: Seq<u16> = Seq::empty();
    let mut cursor = Cursor::new();
    assert(keeper.keepings() =~= start + clears(pubrels, done));
    assert(all =~= done + all);
    loop
        invariant_except_break
            all == done + resend_ids(records@.outgoing, pubrels, cursor.at()),
            0 <= cursor.at() <= records@.outgoing.len(),
        invariant
            keeper.keepings() == start + clears(pubrels, done),
            all == resend_ids(records@.outgoing, pubrels, 0),
            start == old(keeper).keepings(),
        ensures
            done == all,
        decreases records@.outgoing.len() - cursor.at(),
    {
        let ghost from = cursor.at();
        proof {
            lemma_scan_goes_on(records@.outgoing, pubrels, from);
        }
        let next = if pubrels {
            records.pubrel_to_resend(&mut cursor)
        } else {
            records.publish_to_resend(&mut cursor)
        };
        let packet_id = match next {
            Some(packet_id) => packet_id,
            None => {
                assert(all =~= done);
                break;
            },
        };
        let key = if pubrels {
            incoming_key(packet_id)
        } else {
            packet_id as u32
        };
        keeper.clear(key);
        proof {
            let rest = resend_ids(records@.outgoing, pubrels, cursor.at());
            assert(done + (seq![packet_id] + rest) =~= done.push(packet_id) + rest);
            assert((start + clears(pubrels, done)).push(Keeping::Clear { key }) =~= start + clears(
                pubrels,
                done.push(packet_id),
            ));
            done = done.push(packet_id);
        }
    }
}

/// Fills a buffer with zeros.
fn blank(buffer: &mut [u8])
    ensures
        final(buffer)@ == Seq::new(old(buffer)@.len(), |i: int| 0u8),
{
    let mut i: usize = 0;
    while i < buffer.len()
        invariant
            i <= buffer@.len(),
            buffer@.len() == old(buffer)@.len(),
            forall|k: int| 0 <= k < i ==> buffer@[k] == 0,
        decreases buffer@.len() - i,
    {
        buffer[i] = 0;
        i += 1;
    }
    assert(buffer@ =~= Seq::new(old(buffer)@.len(), |i: int| 0u8));
}

impl<'a> MqttContext<'a> {
    /// Forgets the session, as the broker has done.
    pub(crate) fn handle_clean_session<S: Store>(&mut self, store: Option<&mut S>)
        ensures
            final(self)@ == forgotten(old(self)@),
            store matches Some(keeper) ==> final(keeper).keepings() == keeper.keepings()
                + forgotten_in_store(old(self)@),
    {
        self.index = 0;
        blank(self.network);
        match store {
            Some(keeper) => {
                let ghost start = keeper.keepings();
                if let Some(records) = &mut self.records {
                    forget(records, false, keeper);
                    let ghost middle = keeper.keepings();
                    records.clear_outgoing();
                    forget(records, true, keeper);
                    proof {
                        law_nothing_to_resend(records@.outgoing.len(), true, 0);
                        assert(middle + clears(true, Seq::empty()) =~= middle);
                    }
                    records.clear_incoming();
                } else {
                    assert(start + Seq::<Keeping>::empty() =~= start);
                }
            },
            None => {
                if let Some(records) = &mut self.records {
                    records.clear_outgoing();
                    records.clear_incoming();
                }
            },
        }
    }
}

// ---------------------------------------------------------------------------
// Sending again
// ---------------------------------------------------------------------------

/// What a scan of a context's records finds.
pub open spec fn to_resend(context: ContextModel, pubrels: bool, from: int) -> Option<u16> {
    match context.records {
        None => None,
        Some(records) => state::resend_found(records.outgoing, pubrels, from),
    }
}

/// Where it goes on.
pub open spec fn resend_goes_on(context: ContextModel, pubrels: bool, from: int) -> int {
    match context.records {
        None => from,
        Some(records) => state::resend_cursor(records.outgoing, pubrels, from),
    }
}

/// Packets were sent again out of the store, the first `count` of them whole:
/// what a scan finds from `from` on, in order, until one is missing, is too
/// large, or cannot be sent.
pub open spec fn resent<S: Store>(
    count: nat,
    store: S,
    pubrels: bool,
    from: int,
    before: Moment,
    after: Moment,
    result: Result<(), ClientError>,
) -> bool
    decreases count,
{
    match to_resend(before.context, pubrels, from) {
        None => count == 0 && after == before && result == Ok::<(), ClientError>(()),
        Some(packet_id) => match store.kept(resend_key(pubrels, packet_id)) {
            None => {
                &&& count == 0
                &&& after == before
                &&& result == Err::<(), ClientError>(ClientError::PublishRetrieveFailed)
            },
            Some(packet) => if packet.len() > MAX_PACKET_SIZE {
                &&& count == 0
                &&& after == before
                &&& result == Err::<(), ClientError>(ClientError::BadParameter)
            } else {
                exists|sent: Moment, outcome: SendOutcome| #[trigger]
                    send::sending(before, sent, packet, false, outcome) && if outcome
                        == SendOutcome::Sent(packet.len() as usize) {
                        &&& count > 0
                        &&& resent(
                            (count - 1) as nat,
                            store,
                            pubrels,
                            resend_goes_on(before.context, pubrels, from),
                            sent,
                            after,
                            result,
                        )
                    } else {
                        &&& count == 0
                        &&& after == sent
                        &&& result == Err::<(), ClientError>(ClientError::SendFailed)
                    }
            },
        },
    }
}

/// PUBRELs were made anew and sent again, the first `count` of them without an
/// error: for what a scan finds from `from` on, in order.
pub open spec fn pubrels_sent(
    count: nat,
    from: int,
    before: Moment,
    after: Moment,
    result: Result<(), ClientError>,
) -> bool
    decreases count,
{
    match to_resend(before.context, true, from) {
        None => count == 0 && after == before && result == Ok::<(), ClientError>(()),
        Some(packet_id) => exists|sent: Moment, one: Result<(), ClientError>| #[trigger]
            ack_sent_again(before, sent, packet_id, PublishState::PubRelSend, one) && if one is Ok {
                &&& count > 0
                &&& pubrels_sent(
                    (count - 1) as nat,
                    resend_goes_on(before.context, true, from),
                    sent,
                    after,
                    result,
                )
            } else {
                count == 0 && after == sent && result == one
            },
    }
}

/// The PUBRELs were sent again.
pub open spec fn pubrels_resumed<S: Store>(
    before: Moment,
    after: Moment,
    store: Option<S>,
    result: Result<(), ClientError>,
) -> bool {
    match store {
        Some(store) => exists|count: nat| #[trigger]
            resent(count, store, true, 0, before, after, result),
        None => exists|count: nat| #[trigger] pubrels_sent(count, 0, before, after, result),
    }
}

/// The publishes were sent again. Without a store there are none to send.
pub open spec fn publishes_resumed<S: Store>(
    before: Moment,
    after: Moment,
    store: Option<S>,
    result: Result<(), ClientError>,
) -> bool {
    match store {
        Some(store) => exists|count: nat| #[trigger]
            resent(count, store, false, 0, before, after, result),
        None => after == before && result == Ok::<(), ClientError>(()),
    }
}

/// A session was resumed: first the PUBRELs, then the publishes.
pub open spec fn resumed<S: Store>(
    before: Moment,
    after: Moment,
    store: Option<S>,
    result: Result<(), ClientError>,
) -> bool {
    exists|middle: Moment, first: Result<(), ClientError>| #[trigger]
        pubrels_resumed(before, middle, store, first) && if first is Ok {
            publishes_resumed(middle, after, store, result)
        } else {
            after == middle && result == first
        }
}

/// An acknowledgement that was sent leaves as many records as there were.
proof fn lemma_ack_keeps_records(
    before: Moment,
    after: Moment,
    packet_id: u16,
    state: PublishState,
    result: Result<(), ClientError>,
)
    requires
        ack_sent_again(before, after, packet_id, state, result),
        before.context.records is Some,
    ensures
        after.context.records matches Some(records) && records.outgoing.len()
            == before.context.records->0.outgoing.len(),
{
    if after != before {
        let bytes = outbound::simple_ack_bytes(ack_type(state), packet_id);
        let (sent, outcome) = choose|sent: Moment, outcome: SendOutcome| #[trigger]
            send::sending(before, sent, bytes, false, outcome) && if outcome == SendOutcome::Sent(
                4,
            ) {
                let (noted, context) = ack_noted(
                    sent.context,
                    packet_id,
                    ack_meant(ack_type(state))->0,
                );
                result == noted && after == (Moment { context, ..sent })
            } else {
                result == Err::<(), ClientError>(ClientError::SendFailed) && after == sent
            };
        send::lemma_sending_keeps(before, sent, bytes, false, outcome);
        let records = before.context.records->0;
        assert(sent.context.records == Some(records));
        let ack = ack_meant(ack_type(state))->0;
        state::lemma_acknowledged_size(records.outgoing, packet_id, ack, Operation::Send);
    }
}

impl<'a> MqttContext<'a> {
    /// What a scan finds next.
    fn next_to_resend(&self, pubrels: bool, cursor: &mut Cursor) -> (found: Option<u16>)
        requires
            0 <= old(cursor).at(),
        ensures
            found == to_resend(self@, pubrels, old(cursor).at()),
            final(cursor).at() == resend_goes_on(self@, pubrels, old(cursor).at()),
            found is Some ==> self@.records is Some && old(cursor).at() < final(cursor).at()
                <= self@.records->0.outgoing.len(),
    {
        match &self.records {
            Some(records) => {
                proof {
                    lemma_scan_goes_on(records@.outgoing, pubrels, cursor.at());
                }
                if pubrels {
                    records.pubrel_to_resend(cursor)
                } else {
                    records.publish_to_resend(cursor)
                }
            },
            None => None,
        }
    }

    /// Sends again, out of the store, what a scan finds.
    fn resend_stored<T: Transport, C: Clock, S: Store>(
        &mut self,
        transport: &mut T,
        clock: &mut C,
        keeper: &S,
        pubrels: bool,
    ) -> (result: Result<(), ClientError>)
        ensures
            exists|count: nat| #[trigger]
                resent(
                    count,
                    *keeper,
                    pubrels,
                    0,
                    Moment::of(*old(self), *old(transport), *old(clock)),
                    Moment::of(*final(self), *final(transport), *final(clock)),
                    result,
                ),
    {
        let ghost before = Moment::of(*self, *transport, *clock);
        let ghost mut steps: nat = 0;
        let ghost size = match self@.records {
            Some(records) => records.outgoing.len() as int,
            None => 0,
        };
        let mut cursor = Cursor::new();
        loop
            invariant
                before == Moment::of(*old(self), *old(transport), *old(clock)),
                0 <= cursor.at() <= size,
                self@.records matches Some(records) ==> size == records.outgoing.len(),
                forall|count: nat, after: Moment, result: Result<(), ClientError>| #[trigger]
                    resent(
                        count,
                        *keeper,
                        pubrels,
                        cursor.at(),
                        Moment::of(*self, *transport, *clock),
                        after,
                        result,
                    ) ==> resent(count + steps, *keeper, pubrels, 0, before, after, result),
            decreases size - cursor.at(),
        {
            let ghost now = Moment::of(*self, *transport, *clock);
            let ghost from = cursor.at();
            let packet_id = match self.next_to_resend(pubrels, &mut cursor) {
                Some(packet_id) => packet_id,
                None => {
                    assert(resent(0, *keeper, pubrels, from, now, now, Ok(())));
                    assert(resent(0 + steps, *keeper, pubrels, 0, before, now, Ok(())));
                    return Ok(());
                },
            };
            let key = if pubrels {
                incoming_key(packet_id)
            } else {
                packet_id as u32
            };
            let packet = match keeper.retrieve(key) {
                Some(packet) => packet,
                None => {
                    let ghost failure: Result<(), ClientError> = Err(
                        ClientError::PublishRetrieveFailed,
                    );
                    assert(resent(0, *keeper, pubrels, from, now, now, failure));
                    assert(resent(0 + steps, *keeper, pubrels, 0, before, now, failure));
                    return Err(ClientError::PublishRetrieveFailed);
                },
            };
            if packet.len() > MAX_PACKET_SIZE as usize {
                let ghost failure: Result<(), ClientError> = Err(ClientError::BadParameter);
                assert(resent(0, *keeper, pubrels, from, now, now, failure));
                assert(resent(0 + steps, *keeper, pubrels, 0, before, now, failure));
                return Err(ClientError::BadParameter);
            }
            let outcome = self.send_buffer(transport, clock, packet);
            let ghost sent = Moment::of(*self, *transport, *clock);
            assert(send::sending(now, sent, packet@, false, outcome));
            proof {
                send::lemma_sending_keeps(now, sent, packet@, false, outcome);
            }
            let whole = match outcome {
                SendOutcome::Sent(count) => count == packet.len(),
                SendOutcome::Failed => false,
            };
            if !whole {
                let ghost failure: Result<(), ClientError> = Err(ClientError::SendFailed);
                assert(resent(0, *keeper, pubrels, from, now, sent, failure));
                assert(resent(0 + steps, *keeper, pubrels, 0, before, sent, failure));
                return Err(ClientError::SendFailed);
            }
            proof {
                assert forall|count: nat, after: Moment, result: Result<(), ClientError>| #[trigger]
                    resent(count, *keeper, pubrels, cursor.at(), sent, after, result) implies resent(
                    count + (steps + 1),
                    *keeper,
                    pubrels,
                    0,
                    before,
                    after,
                    result,
                ) by {
                    assert(resent(count + 1, *keeper, pubrels, from, now, after, result));
                    assert(count + 1 + steps == count + (steps + 1));
                }
                steps = steps + 1;
            }
        }
    }

    /// Sends again the PUBRELs that a scan finds, made anew.
    fn resend_pubrels<T: Transport, C: Clock>(&mut self, transport: &mut T, clock: &mut C) -> (result:
        Result<(), ClientError>)
        ensures
            exists|count: nat| #[trigger]
                pubrels_sent(
                    count,
                    0,
                    Moment::of(*old(self), *old(transport), *old(clock)),
                    Moment::of(*final(self), *final(transport), *final(clock)),
                    result,
                ),
    {
        let ghost before = Moment::of(*self, *transport, *clock);
        let ghost mut steps: nat = 0;
        let ghost size = match self@.records {
            Some(records) => records.outgoing.len() as int,
            None => 0,
        };
        let mut cursor = Cursor::new();
        loop
            invariant
                before == Moment::of(*old(self), *old(transport), *old(clock)),
                0 <= cursor.at() <= size,
                self@.records matches Some(records) ==> size == records.outgoing.len(),
                forall|count: nat, after: Moment, result: Result<(), ClientError>| #[trigger]
                    pubrels_sent(
                        count,
                        cursor.at(),
                        Moment::of(*self, *transport, *clock),
                        after,
                        result,
                    ) ==> pubrels_sent(count + steps, 0, before, after, result),
            decreases size - cursor.at(),
        {
            let ghost now = Moment::of(*self, *transport, *clock);
            let ghost from = cursor.at();
            let packet_id = match self.next_to_resend(true, &mut cursor) {
                Some(packet_id) => packet_id,
                None => {
                    assert(pubrels_sent(0, from, now, now, Ok(())));
                    assert(pubrels_sent(0 + steps, 0, before, now, Ok(())));
                    return Ok(());
                },
            };
            let one = self.send_publish_acks(
                transport,
                clock,
                packet_id,
                PublishState::PubRelSend,
            );
            let ghost sent = Moment::of(*self, *transport, *clock);
            assert(ack_sent_again(now, sent, packet_id, PublishState::PubRelSend, one));
            if one.is_err() {
                assert(pubrels_sent(0, from, now, sent, one));
                assert(pubrels_sent(0 + steps, 0, before, sent, one));
                return one;
            }
            proof {
                lemma_ack_keeps_records(now, sent, packet_id, PublishState::PubRelSend, one);
                assert forall|count: nat, after: Moment, result: Result<(), ClientError>| #[trigger]
                    pubrels_sent(count, cursor.at(), sent, after, result) implies pubrels_sent(
                    count + (steps + 1),
                    0,
                    before,
                    after,
                    result,
                ) by {
                    assert(pubrels_sent(count + 1, from, now, after, result));
                    assert(count + 1 + steps == count + (steps + 1));
                }
                steps = steps + 1;
            }
        }
    }

    /// Takes up the session with a store.
    fn resume_from_store<T: Transport, C: Clock, S: Store>(
        &mut self,
        transport: &mut T,
        clock: &mut C,
        keeper: &S,
    ) -> (result: Result<(), ClientError>)
        ensures
            resumed(
                Moment::of(*old(self), *old(transport), *old(clock)),
                Moment::of(*final(self), *final(transport), *final(clock)),
                Some(*keeper),
                result,
            ),
    {
        let ghost before = Moment::of(*self, *transport, *clock);
        let first = self.resend_stored(transport, clock, keeper, true);
        let ghost middle = Moment::of(*self, *transport, *clock);
        let ghost count = choose|count: nat| #[trigger]
            resent(count, *keeper, true, 0, before, middle, first);
        let ghost some = Some(*keeper);
        assert(resent(count, some->0, true, 0, before, middle, first));
        assert(pubrels_resumed(before, middle, Some(*keeper), first));
        if first.is_err() {
            return first;
        }
        let result = self.resend_stored(transport, clock, keeper, false);
        let ghost after = Moment::of(*self, *transport, *clock);
        let ghost count = choose|count: nat| #[trigger]
            resent(count, *keeper, false, 0, middle, after, result);
        assert(resent(count, some->0, false, 0, middle, after, result));
        assert(publishes_resumed(middle, after, some, result));
        assert(resumed(before, after, some, result));
        result
    }

    /// Takes up the session where it was left: sends again what the broker has
    /// not acknowledged.
    pub(crate) fn handle_unclean_session<T: Transport, C: Clock, S: Store>(
        &mut self,
        transport: &mut T,
        clock: &mut C,
        store: Option<&mut S>,
    ) -> (result: Result<(), ClientError>)
        ensures
            match store {
                Some(keeper) => *final(keeper) == *keeper && resumed(
                    Moment::of(*old(self), *old(transport), *old(clock)),
                    Moment::of(*final(self), *final(transport), *final(clock)),
                    Some(*keeper),
                    result,
                ),
                None => resumed(
                    Moment::of(*old(self), *old(transport), *old(clock)),
                    Moment::of(*final(self), *final(transport), *final(clock)),
                    None::<S>,
                    result,
                ),
            },
    {
        let ghost before = Moment::of(*self, *transport, *clock);
        match store {
            Some(keeper) => self.resume_from_store(transport, clock, &*keeper),
            None => {
                let first = self.resend_pubrels(transport, clock);
                let ghost middle = Moment::of(*self, *transport, *clock);
                assert(pubrels_resumed(before, middle, None::<S>, first));
                if first.is_err() {
                    return first;
                }
                assert(publishes_resumed(middle, middle, None::<S>, Ok(())));
                Ok(())
            },
        }
    }
}

// ---------------------------------------------------------------------------
// What taking up a session promises
// ---------------------------------------------------------------------------

/// **Law.** A clean session never clears a stored acknowledgement, only stored
/// publishes.
pub proof fn law_stored_pubrels_stay(context: ContextModel, i: int)
    requires
        0 <= i < forgotten_in_store(context).len(),
    ensures
        forgotten_in_store(context)[i] matches Keeping::Clear { key } && key <= u16::MAX,
{
}

/// What taking up a session keeps: a connection that is up, unless the transport
/// fails, and the invariant of the records.
pub open spec fn taken_up_whole(before: Moment, after: Moment, result: Result<(), ClientError>) -> bool {
    &&& result is Ok ==> after.context.status == before.context.status
    &&& client::records_ok(before.context) ==> client::records_ok(after.context)
}

/// An acknowledgement that is sent again keeps it.
proof fn lemma_ack_keeps(
    before: Moment,
    after: Moment,
    packet_id: u16,
    state: PublishState,
    result: Result<(), ClientError>,
)
    requires
        ack_sent_again(before, after, packet_id, state, result),
    ensures
        taken_up_whole(before, after, result),
{
    if after != before {
        let bytes = outbound::simple_ack_bytes(ack_type(state), packet_id);
        let ack = ack_meant(ack_type(state))->0;
        let (sent, outcome) = choose|sent: Moment, outcome: SendOutcome| #[trigger]
            send::sending(before, sent, bytes, false, outcome) && if outcome == SendOutcome::Sent(
                4,
            ) {
                let (noted, context) = ack_noted(sent.context, packet_id, ack);
                result == noted && after == (Moment { context, ..sent })
            } else {
                result == Err::<(), ClientError>(ClientError::SendFailed) && after == sent
            };
        send::lemma_sending_keeps(before, sent, bytes, false, outcome);
        if client::records_ok(before.context) && sent.context.records is Some {
            state::law_directions_stay_apart(
                sent.context.records->0,
                packet_id,
                ack,
                Operation::Send,
                state::QoS::AtMostOnce,
                0,
                0,
            );
            state::law_records_stay_well_formed(
                sent.context.records->0,
                packet_id,
                ack,
                Operation::Send,
                state::QoS::AtMostOnce,
                0,
                0,
            );
        }
    }
}

/// So does sending again out of the store.
proof fn lemma_resent_keeps<S: Store>(
    count: nat,
    store: S,
    pubrels: bool,
    from: int,
    before: Moment,
    after: Moment,
    result: Result<(), ClientError>,
)
    requires
        resent(count, store, pubrels, from, before, after, result),
    ensures
        taken_up_whole(before, after, result),
    decreases count,
{
    if let Some(packet_id) = to_resend(before.context, pubrels, from) {
        if let Some(packet) = store.kept(resend_key(pubrels, packet_id)) {
            if packet.len() <= MAX_PACKET_SIZE {
                let goes_on = resend_goes_on(before.context, pubrels, from);
                let (sent, outcome) = choose|sent: Moment, outcome: SendOutcome| #[trigger]
                    send::sending(before, sent, packet, false, outcome) && if outcome
                        == SendOutcome::Sent(packet.len() as usize) {
                        &&& count > 0
                        &&& resent(
                            (count - 1) as nat,
                            store,
                            pubrels,
                            goes_on,
                            sent,
                            after,
                            result,
                        )
                    } else {
                        &&& count == 0
                        &&& after == sent
                        &&& result == Err::<(), ClientError>(ClientError::SendFailed)
                    };
                send::lemma_sending_keeps(before, sent, packet, false, outcome);
                if outcome == SendOutcome::Sent(packet.len() as usize) {
                    lemma_resent_keeps(
                        (count - 1) as nat,
                        store,
                        pubrels,
                        goes_on,
                        sent,
                        after,
                        result,
                    );
                }
            }
        }
    }
}

/// And making PUBRELs anew.
proof fn lemma_pubrels_keep(
    count: nat,
    from: int,
    before: Moment,
    after: Moment,
    result: Result<(), ClientError>,
)
    requires
        pubrels_sent(count, from, before, after, result),
    ensures
        taken_up_whole(before, after, result),
    decreases count,
{
    if let Some(packet_id) = to_resend(before.context, true, from) {
        let goes_on = resend_goes_on(before.context, true, from);
        let (sent, one) = choose|sent: Moment, one: Result<(), ClientError>| #[trigger]
            ack_sent_again(before, sent, packet_id, PublishState::PubRelSend, one) && if one is Ok {
                &&& count > 0
                &&& pubrels_sent((count - 1) as nat, goes_on, sent, after, result)
            } else {
                count == 0 && after == sent && result == one
            };
        lemma_ack_keeps(before, sent, packet_id, PublishState::PubRelSend, one);
        if one is Ok {
            lemma_pubrels_keep((count - 1) as nat, goes_on, sent, after, result);
        }
    }
}

/// **Law.** Taking up a session leaves the connection up if it succeeds, and
/// keeps the invariant of the records whether or not it does.
pub proof fn law_resumed_keeps<S: Store>(
    before: Moment,
    after: Moment,
    store: Option<S>,
    result: Result<(), ClientError>,
)
    requires
        resumed(before, after, store, result),
    ensures
        taken_up_whole(before, after, result),
{
    let (middle, first) = choose|middle: Moment, first: Result<(), ClientError>| #[trigger]
        pubrels_resumed(before, middle, store, first) && if first is Ok {
            publishes_resumed(middle, after, store, result)
        } else {
            after == middle && result == first
        };
    match store {
        Some(keeper) => {
            let count = choose|count: nat| #[trigger]
                resent(count, keeper, true, 0, before, middle, first);
            lemma_resent_keeps(count, keeper, true, 0, before, middle, first);
            if first is Ok {
                let count = choose|count: nat| #[trigger]
                    resent(count, keeper, false, 0, middle, after, result);
                lemma_resent_keeps(count, keeper, false, 0, middle, after, result);
            }
        },
        None => {
            let count = choose|count: nat| #[trigger] pubrels_sent(count, 0, before, middle, first);
            lemma_pubrels_keep(count, 0, before, middle, first);
        },
    }
}

} // verus!
