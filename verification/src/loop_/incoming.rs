//! What is done with a packet that has arrived whole.
//!
//! * A publish that was delivered before is acknowledged again, but told again
//!   only if its quality of service promises no more than at least once.
//! * An acknowledgement is noted in the records and cleared from the store
//!   before the application hears of it.
//! * A DISCONNECT ends the connection whatever the application says, and so does
//!   one that cannot be read, which is answered first.

use vstd::prelude::*;
use vstd::slice::slice_subrange;

use crate::ack;
use crate::ack::{deserialize_ack, AckModel, Limits, PacketInfo, PacketModel};
use crate::client;
use crate::client::send;
use crate::client::{
    incoming_key, AckReply, ClientError, Clock, ConnectionStatus, ContextModel, Event,
    EventHandler, EventModel, Keeping, Moment, MqttContext, ReplyModel, Store, Told,
};
use crate::context::ConnectionProperties;
use crate::disconnect;
use crate::disconnect::{deserialize_disconnect, reason, DisconnectModel};
use crate::header;
use crate::header::{
    packet, process_incoming_packet_type_and_length, REMAINING_LENGTH_INVALID,
};
use crate::loop_::answer;
use crate::loop_::answer::Reply;
use crate::publish;
use crate::publish::deserialize_publish;
use crate::reader::Transport;
use crate::session::resume;
use crate::session::resume::ack_from_packet_type;
use crate::state;
use crate::state::{
    calculate_state_publish, AckType, Operation, PublishRecords, PublishState, QoS, RecordsModel,
    StateError,
};

verus! {

/// Everything at one moment: the context, its transport and clock, what was
/// asked of the store if there is one, and what the application was told.
#[verifier::ext_equal]
pub struct Scene {
    pub moment: Moment,
    pub kept: Option<Seq<Keeping>>,
    pub told: Seq<Told>,
}

impl Scene {
    /// The scene around a context.
    pub open spec fn of<T: Transport, C: Clock, H: EventHandler>(
        context: MqttContext<'_>,
        transport: T,
        clock: C,
        kept: Option<Seq<Keeping>>,
        handler: H,
    ) -> Self {
        Scene { moment: Moment::of(context, transport, clock), kept, told: handler.told() }
    }

    /// The scene with another context.
    pub open spec fn with(self, context: ContextModel) -> Self {
        Scene { moment: Moment { context, ..self.moment }, ..self }
    }
}

// ---------------------------------------------------------------------------
// Looking at a packet, and telling of it
// ---------------------------------------------------------------------------

/// The packet of `total` bytes at the front of the network buffer.
pub open spec fn packet_seen(network: Seq<u8>, index: usize, total: usize) -> Option<PacketModel> {
    match header::header_of(header::arrived_of(network, index)) {
        Err(_) => None,
        Ok(found) => if found.header_length <= total <= network.len() {
            Some(
                PacketModel {
                    packet_type: found.packet_type,
                    claimed: found.remaining_length,
                    data: network.subrange(found.header_length as int, total as int),
                },
            )
        } else {
            None
        },
    }
}

/// The packet of `total` bytes at the front of the network buffer.
fn packet_view(network: &[u8], index: usize, total: usize) -> (view: Option<PacketInfo<'_>>)
    ensures
        match view {
            Some(view) => packet_seen(network@, index, total) == Some(view@),
            None => packet_seen(network@, index, total) is None,
        },
{
    let found = match process_incoming_packet_type_and_length(network, index) {
        Ok(found) => found,
        Err(_) => return None,
    };
    if found.header_length > total || total > network.len() {
        return None;
    }
    Some(
        PacketInfo {
            packet_type: found.packet_type,
            remaining_length: found.remaining_length,
            remaining_data: slice_subrange(network, found.header_length, total),
        },
    )
}

/// The application was told of an event, and offered what waits for the next
/// acknowledgement.
pub open spec fn telling(
    before: Seq<Told>,
    after: Seq<Told>,
    context: ContextModel,
    event: EventModel,
    wants_reply: bool,
) -> bool {
    &&& after.len() == before.len() + 1
    &&& after.drop_last() == before
    &&& after.last().event == event
    &&& after.last().offered == (ReplyModel {
        wants_reply,
        properties: context.ack_properties,
        used: context.ack_used,
        reason_code: None,
    })
}

/// The context after the application was told: what it put into its reply waits
/// for the next acknowledgement.
pub open spec fn after_telling(context: ContextModel, told: Told) -> ContextModel {
    ContextModel {
        ack_properties: told.reply.properties,
        ack_used: told.reply.used,
        ..context
    }
}

/// `Ok` if the application accepted.
pub open spec fn verdict(accepted: bool) -> Result<(), ClientError> {
    if accepted {
        Ok(())
    } else {
        Err(ClientError::EventCallbackFailed)
    }
}

/// Tells the application of an event.
fn dispatch<H: EventHandler>(
    handler: &mut H,
    event: &Event<'_>,
    wants_reply: bool,
    ack_properties: &mut [u8],
    ack_used: &mut usize,
) -> (answer: (bool, Option<u8>))
    ensures
        ({
            let told = final(handler).told().last();
            &&& final(handler).told() == old(handler).told().push(told)
            &&& told.event == event@
            &&& told.offered == (ReplyModel {
                wants_reply,
                properties: old(ack_properties)@,
                used: *old(ack_used),
                reason_code: None,
            })
            &&& told.reply.properties == final(ack_properties)@
            &&& told.reply.used == *final(ack_used)
            &&& answer == (told.accepted, told.reply.reason_code)
        }),
{
    let mut reply = AckReply::new(wants_reply, ack_properties, *ack_used);
    let accepted = handler.on_event(event, &mut reply);
    *ack_used = reply.used();
    (accepted, reply.reason_code())
}

/// What an acknowledgement is checked against.
pub open spec fn limits_of(properties: ConnectionProperties) -> Limits {
    Limits {
        max_packet_size: properties.client.max_packet_size,
        request_problem_info: properties.client.request_problem_info,
    }
}

// ---------------------------------------------------------------------------
// Publishes
// ---------------------------------------------------------------------------

/// What is to be done with a publish.
pub struct PublishPlan {
    /// What the application is told.
    pub event: EventModel,
    /// Whether it is told.
    pub tell: bool,
    /// The quality of service.
    pub qos: QoS,
    /// The packet id.
    pub packet_id: u16,
    /// Where the handshake stands.
    pub ack_state: PublishState,
}

/// Where the handshake of a publish that arrived stands, whether it was
/// delivered before, and the records after.
pub open spec fn publish_noted(records: Option<RecordsModel>, packet_id: u16, qos: QoS) -> (
    Result<(PublishState, bool), ClientError>,
    Option<RecordsModel>,
) {
    match records {
        None => if qos != QoS::AtMostOnce {
            (Err(ClientError::RecvFailed), None)
        } else {
            (Ok((PublishState::Null, false)), None)
        },
        Some(records) => {
            let (result, after) = records.after_publish(packet_id, Operation::Receive, qos);
            (
                match result {
                    Ok(state) => Ok((state, false)),
                    Err(StateError::StateCollision) => Ok(
                        (state::state_after_publish(Operation::Receive, qos), true),
                    ),
                    Err(error) => Err(ClientError::State(error)),
                },
                Some(after),
            )
        },
    }
}

/// What is to be done with the publish of `total` bytes at the front of the
/// network buffer, and the context by then.
pub open spec fn publish_plan(context: ContextModel, total: usize) -> (
    Result<PublishPlan, ClientError>,
    ContextModel,
) {
    match packet_seen(context.network, context.index, total) {
        None => (Err(ClientError::RecvFailed), context),
        Some(seen) => match publish::publish_of(
            seen,
            context.properties.client.max_packet_size,
            context.properties.client.topic_alias_max,
        ) {
            Err(error) => (Err(client::from_publish(error)), context),
            Ok(publish) => {
                let packet_id = match publish.packet_id {
                    Some(packet_id) => packet_id,
                    None => 0,
                };
                let (noted, records) = publish_noted(
                    context.records,
                    packet_id,
                    publish.qos,
                );
                (
                    match noted {
                        Err(error) => Err(error),
                        Ok((ack_state, duplicate)) => Ok(
                            PublishPlan {
                                event: EventModel {
                                    packet_type: seen.packet_type,
                                    packet_id,
                                    publish: Some(publish),
                                    reason_codes: Seq::empty(),
                                    properties: publish.properties,
                                },
                                tell: !duplicate || publish.qos == QoS::AtLeastOnce,
                                qos: publish.qos,
                                packet_id,
                                ack_state,
                            },
                        ),
                    },
                    ContextModel { records, ..context },
                )
            },
        },
    }
}

/// What follows once the application has answered: an acknowledgement, if one is
/// due.
pub open spec fn publish_answered(
    before: Scene,
    after: Scene,
    qos: QoS,
    packet_id: u16,
    ack_state: PublishState,
    accepted: bool,
    reason_code: Option<u8>,
    result: Result<(), ClientError>,
) -> bool {
    let used = before.moment.context.ack_used;
    &&& after.told == before.told
    &&& if !accepted {
        after == before && result == Err::<(), ClientError>(ClientError::EventCallbackFailed)
    } else if qos == QoS::AtMostOnce {
        after == before && result == Ok::<(), ClientError>(())
    } else if used >= REMAINING_LENGTH_INVALID {
        after == before && result == Err::<(), ClientError>(ClientError::SendFailed)
    } else {
        answer::ack_sent(
            before.moment,
            after.moment,
            before.kept,
            after.kept,
            packet_id,
            ack_state,
            Reply { reason_code, property_length: used },
            result,
        )
    }
}

/// A publish was handled.
pub open spec fn publish_handled(
    before: Scene,
    after: Scene,
    total: usize,
    result: Result<(), ClientError>,
) -> bool {
    let (plan, context) = publish_plan(before.moment.context, total);
    match plan {
        Err(error) => after == before.with(context) && result == Err::<(), ClientError>(error),
        Ok(plan) => if plan.tell {
            let told = after.told.last();
            &&& telling(
                before.told,
                after.told,
                context,
                plan.event,
                plan.qos != QoS::AtMostOnce,
            )
            &&& publish_answered(
                Scene { told: after.told, ..before.with(after_telling(context, told)) },
                after,
                plan.qos,
                plan.packet_id,
                plan.ack_state,
                told.accepted,
                told.reply.reason_code,
                result,
            )
        } else {
            publish_answered(
                before.with(context),
                after,
                plan.qos,
                plan.packet_id,
                plan.ack_state,
                true,
                None,
                result,
            )
        },
    }
}

/// Notes a publish that arrived in the records.
fn note_publish(records: &mut Option<PublishRecords<'_>>, packet_id: u16, qos: QoS) -> (noted: Result<
    (PublishState, bool),
    ClientError,
>)
    ensures
        (noted, client::records_of(*final(records))) == publish_noted(
            client::records_of(*old(records)),
            packet_id,
            qos,
        ),
{
    match records {
        None => if qos != QoS::AtMostOnce {
            Err(ClientError::RecvFailed)
        } else {
            Ok((PublishState::Null, false))
        },
        Some(records) => match records.update_publish(packet_id, Operation::Receive, qos) {
            Ok(state) => Ok((state, false)),
            Err(StateError::StateCollision) => Ok(
                (calculate_state_publish(Operation::Receive, qos), true),
            ),
            Err(error) => Err(ClientError::State(error)),
        },
    }
}

impl<'a> MqttContext<'a> {
    /// Handles a publish.
    pub(crate) fn handle_incoming_publish<T: Transport, C: Clock, S: Store, H: EventHandler>(
        &mut self,
        transport: &mut T,
        clock: &mut C,
        store: Option<&mut S>,
        handler: &mut H,
        total: usize,
    ) -> (result: Result<(), ClientError>)
        ensures
            match store {
                Some(keeper) => publish_handled(
                    Scene::of(
                        *old(self),
                        *old(transport),
                        *old(clock),
                        Some(keeper.keepings()),
                        *old(handler),
                    ),
                    Scene::of(
                        *final(self),
                        *final(transport),
                        *final(clock),
                        Some(final(keeper).keepings()),
                        *final(handler),
                    ),
                    total,
                    result,
                ),
                None => publish_handled(
                    Scene::of(*old(self), *old(transport), *old(clock), None, *old(handler)),
                    Scene::of(
                        *final(self),
                        *final(transport),
                        *final(clock),
                        None,
                        *final(handler),
                    ),
                    total,
                    result,
                ),
            },
    {
        let ghost start = self@;
        let (accepted, reason_code, qos, packet_id, ack_state) = {
            let view = match packet_view(self.network, self.index, total) {
                Some(view) => view,
                None => return Err(ClientError::RecvFailed),
            };
            let publish = match deserialize_publish(
                &view,
                self.properties.client.max_packet_size,
                self.properties.client.topic_alias_max,
            ) {
                Ok(publish) => publish,
                Err(error) => return Err(ClientError::from(error)),
            };
            let qos = publish.qos;
            let packet_id = match publish.packet_id {
                Some(packet_id) => packet_id,
                None => 0,
            };
            let (ack_state, duplicate) = match note_publish(&mut self.records, packet_id, qos) {
                Ok(noted) => noted,
                Err(error) => return Err(error),
            };
            let event = Event {
                packet_type: view.packet_type,
                packet_id,
                publish: Some(publish),
                reason_codes: &[],
                properties: publish.properties,
            };
            assert(event@ =~= publish_plan(start, total).0->Ok_0.event);
            let (accepted, reason_code) = if !duplicate || qos == QoS::AtLeastOnce {
                dispatch(
                    handler,
                    &event,
                    qos != QoS::AtMostOnce,
                    self.ack_properties,
                    &mut self.ack_used,
                )
            } else {
                (true, None)
            };
            (accepted, reason_code, qos, packet_id, ack_state)
        };
        assert(handler.told().len() > old(handler).told().len() ==> handler.told().drop_last()
            =~= old(handler).told());
        if !accepted {
            return Err(ClientError::EventCallbackFailed);
        }
        if qos == QoS::AtMostOnce {
            return Ok(());
        }
        if self.ack_used >= REMAINING_LENGTH_INVALID as usize {
            return Err(ClientError::SendFailed);
        }
        let reply = Reply { reason_code, property_length: self.ack_used };
        self.send_ack_for(transport, clock, store, packet_id, ack_state, reply)
    }
}

// ---------------------------------------------------------------------------
// Acknowledgements
// ---------------------------------------------------------------------------

/// What is to be done with an acknowledgement of a publish.
pub struct AckPlan {
    /// What the application is told.
    pub event: EventModel,
    /// Which acknowledgement it is.
    pub ack: AckType,
    /// The packet id.
    pub packet_id: u16,
    /// Where the handshake stands.
    pub ack_state: PublishState,
}

/// An id that may be absent, as a number.
pub open spec fn id_or_zero(packet_id: Option<u16>) -> u16 {
    match packet_id {
        Some(packet_id) => packet_id,
        None => 0,
    }
}

/// What an event says of an acknowledgement.
pub open spec fn ack_event(packet_type: u8, info: AckModel) -> EventModel {
    EventModel {
        packet_type,
        packet_id: id_or_zero(info.packet_id),
        publish: None,
        reason_codes: info.reason_codes,
        properties: info.properties,
    }
}

/// Where the handshake stands after an acknowledgement that arrived, and the
/// records after.
pub open spec fn ack_received(records: Option<RecordsModel>, packet_id: u16, ack: AckType) -> (
    Result<PublishState, ClientError>,
    Option<RecordsModel>,
) {
    match records {
        None => (Ok(PublishState::Null), None),
        Some(records) => {
            let (result, after) = records.after_ack(packet_id, ack, Operation::Receive);
            (
                match result {
                    Ok(state) => Ok(state),
                    Err(error) => Err(ClientError::State(error)),
                },
                Some(after),
            )
        },
    }
}

/// What is to be done with the acknowledgement of `total` bytes at the front of
/// the network buffer, and the context by then.
pub open spec fn ack_plan(context: ContextModel, total: usize) -> (
    Result<AckPlan, ClientError>,
    ContextModel,
) {
    match packet_seen(context.network, context.index, total) {
        None => (Err(ClientError::RecvFailed), context),
        Some(seen) => match resume::ack_meant(seen.packet_type) {
            None => (Err(ClientError::BadResponse), context),
            Some(ack) => match ack::ack_of(seen, limits_of(context.properties)) {
                Err(error) => (Err(client::from_ack(error)), context),
                Ok(info) => {
                    let packet_id = id_or_zero(info.packet_id);
                    let (noted, records) = ack_received(context.records, packet_id, ack);
                    (
                        match noted {
                            Err(error) => Err(error),
                            Ok(ack_state) => Ok(
                                AckPlan {
                                    event: ack_event(seen.packet_type, info),
                                    ack,
                                    packet_id,
                                    ack_state,
                                },
                            ),
                        },
                        ContextModel { records, ..context },
                    )
                },
            },
        },
    }
}

/// The handshake ends with this acknowledgement.
pub open spec fn ends_handshake(ack: AckType) -> bool {
    ack == AckType::PubAck || ack == AckType::PubComp
}

/// The key under which that is kept which this acknowledgement makes needless:
/// the publish, or the acknowledgement before it.
pub open spec fn cleared_key(ack: AckType, packet_id: u16) -> u32 {
    match ack {
        AckType::PubAck | AckType::PubRec => packet_id as u32,
        AckType::PubComp | AckType::PubRel => client::ack_key(packet_id),
    }
}

/// A key was cleared, if there is a store.
pub open spec fn cleared(kept: Option<Seq<Keeping>>, key: u32) -> Option<Seq<Keeping>> {
    match kept {
        None => None,
        Some(keepings) => Some(keepings.push(Keeping::Clear { key })),
    }
}

/// What follows once the application has answered: an acknowledgement, if one is
/// due.
pub open spec fn ack_answered(
    before: Scene,
    after: Scene,
    plan: AckPlan,
    accepted: bool,
    reason_code: Option<u8>,
    result: Result<(), ClientError>,
) -> bool {
    let used = before.moment.context.ack_used;
    &&& after.told == before.told
    &&& if !accepted {
        after == before && result == Err::<(), ClientError>(ClientError::EventCallbackFailed)
    } else if used >= REMAINING_LENGTH_INVALID {
        after == before && result == Err::<(), ClientError>(ClientError::SendFailed)
    } else if ends_handshake(plan.ack) {
        after == before && result == Ok::<(), ClientError>(())
    } else {
        answer::ack_sent(
            before.moment,
            after.moment,
            before.kept,
            after.kept,
            plan.packet_id,
            plan.ack_state,
            Reply { reason_code, property_length: used },
            result,
        )
    }
}

/// An acknowledgement of a publish was handled.
pub open spec fn publish_ack_handled(
    before: Scene,
    after: Scene,
    total: usize,
    result: Result<(), ClientError>,
) -> bool {
    let (plan, context) = ack_plan(before.moment.context, total);
    match plan {
        Err(error) => after == before.with(context) && result == Err::<(), ClientError>(error),
        Ok(plan) => {
            let told = after.told.last();
            &&& telling(before.told, after.told, context, plan.event, !ends_handshake(plan.ack))
            &&& ack_answered(
                Scene {
                    kept: cleared(before.kept, cleared_key(plan.ack, plan.packet_id)),
                    told: after.told,
                    ..before.with(after_telling(context, told))
                },
                after,
                plan,
                told.accepted,
                told.reply.reason_code,
                result,
            )
        },
    }
}

/// What is read of an acknowledgement that concerns no publish.
pub open spec fn other_ack(context: ContextModel, total: usize) -> Result<
    (u8, AckModel),
    ClientError,
> {
    match packet_seen(context.network, context.index, total) {
        None => Err(ClientError::RecvFailed),
        Some(seen) => match ack::ack_of(seen, limits_of(context.properties)) {
            Err(error) => Err(client::from_ack(error)),
            Ok(info) => Ok((seen.packet_type, info)),
        },
    }
}

/// The application was told of an event that is not answered, and its verdict is
/// the result.
pub open spec fn event_told(
    before: Scene,
    after: Scene,
    event: EventModel,
    result: Result<(), ClientError>,
) -> bool {
    let context = before.moment.context;
    let told = after.told.last();
    &&& telling(before.told, after.told, context, event, false)
    &&& after == (Scene { told: after.told, ..before.with(after_telling(context, told)) })
    &&& result == verdict(told.accepted)
}

/// A PINGRESP was handled. A client that keeps the connection alive itself does
/// not tell of it.
pub open spec fn pingresp_handled(
    before: Scene,
    after: Scene,
    total: usize,
    manage_keep_alive: bool,
    result: Result<(), ClientError>,
) -> bool {
    let context = before.moment.context;
    match other_ack(context, total) {
        Err(error) => after == before && result == Err::<(), ClientError>(error),
        Ok((packet_type, info)) => if manage_keep_alive {
            &&& after == before.with(ContextModel { waiting_for_ping_resp: false, ..context })
            &&& result == Ok::<(), ClientError>(())
        } else {
            event_told(
                before,
                after,
                ack_event(
                    packet_type,
                    AckModel {
                        reason_codes: Seq::empty(),
                        properties: Seq::empty(),
                        ..info
                    },
                ),
                result,
            )
        },
    }
}

/// A SUBACK or UNSUBACK was handled.
pub open spec fn sub_ack_handled(
    before: Scene,
    after: Scene,
    total: usize,
    result: Result<(), ClientError>,
) -> bool {
    match other_ack(before.moment.context, total) {
        Err(error) => after == before && result == Err::<(), ClientError>(error),
        Ok((packet_type, info)) => event_told(before, after, ack_event(packet_type, info), result),
    }
}

/// An acknowledgement was handled.
pub open spec fn ack_handled(
    before: Scene,
    after: Scene,
    total: usize,
    manage_keep_alive: bool,
    result: Result<(), ClientError>,
) -> bool {
    let network = before.moment.context.network;
    if network.len() == 0 {
        after == before && result == Err::<(), ClientError>(ClientError::RecvFailed)
    } else if resume::ack_meant(network[0]) is Some {
        publish_ack_handled(before, after, total, result)
    } else if network[0] == packet::PINGRESP {
        pingresp_handled(before, after, total, manage_keep_alive, result)
    } else if network[0] == packet::SUBACK || network[0] == packet::UNSUBACK {
        sub_ack_handled(before, after, total, result)
    } else {
        after == before && result == Err::<(), ClientError>(ClientError::BadResponse)
    }
}

/// Notes an acknowledgement that arrived in the records.
fn note_ack(records: &mut Option<PublishRecords<'_>>, packet_id: u16, ack: AckType) -> (noted: Result<
    PublishState,
    ClientError,
>)
    ensures
        (noted, client::records_of(*final(records))) == ack_received(
            client::records_of(*old(records)),
            packet_id,
            ack,
        ),
{
    match records {
        None => Ok(PublishState::Null),
        Some(records) => match records.update_ack(packet_id, ack, Operation::Receive) {
            Ok(state) => Ok(state),
            Err(error) => Err(ClientError::State(error)),
        },
    }
}

/// Lends a store that may not be there.
pub(crate) fn lend<'s, 'r, S: Store>(store: &'r mut Option<&'s mut S>) -> (lent: Option<&'r mut S>)
    ensures
        lent is Some == *old(store) is Some,
        *old(store) is Some == *final(store) is Some,
        lent matches Some(keeper) ==> {
            &&& *keeper == *((*old(store))->0)
            &&& *((*final(store))->0) == *final(keeper)
            &&& *final((*final(store))->0) == *final((*old(store))->0)
        },
{
    match store {
        Some(keeper) => Some(&mut **keeper),
        None => None,
    }
}

/// Clears from the store what an acknowledgement makes needless.
fn clear_acknowledged<S: Store>(keeper: &mut S, packet_id: u16, ack: AckType)
    ensures
        final(keeper).keepings() == old(keeper).keepings().push(
            Keeping::Clear { key: cleared_key(ack, packet_id) },
        ),
{
    match ack {
        AckType::PubAck | AckType::PubRec => keeper.clear(packet_id as u32),
        AckType::PubComp | AckType::PubRel => keeper.clear(incoming_key(packet_id)),
    }
}

impl<'a> MqttContext<'a> {
    /// What an acknowledgement is checked against.
    fn limits(&self) -> (limits: Limits)
        ensures
            limits == limits_of(self@.properties),
    {
        Limits {
            max_packet_size: self.properties.client.max_packet_size,
            request_problem_info: self.properties.client.request_problem_info,
        }
    }

    /// Handles an acknowledgement of a publish.
    fn handle_publish_acks<T: Transport, C: Clock, S: Store, H: EventHandler>(
        &mut self,
        transport: &mut T,
        clock: &mut C,
        mut store: Option<&mut S>,
        handler: &mut H,
        total: usize,
    ) -> (result: Result<(), ClientError>)
        ensures
            match store {
                Some(keeper) => publish_ack_handled(
                    Scene::of(
                        *old(self),
                        *old(transport),
                        *old(clock),
                        Some(keeper.keepings()),
                        *old(handler),
                    ),
                    Scene::of(
                        *final(self),
                        *final(transport),
                        *final(clock),
                        Some(final(keeper).keepings()),
                        *final(handler),
                    ),
                    total,
                    result,
                ),
                None => publish_ack_handled(
                    Scene::of(*old(self), *old(transport), *old(clock), None, *old(handler)),
                    Scene::of(
                        *final(self),
                        *final(transport),
                        *final(clock),
                        None,
                        *final(handler),
                    ),
                    total,
                    result,
                ),
            },
    {
        let ghost start = self@;
        let (accepted, reason_code, packet_id, ack, ack_state) = {
            let limits = self.limits();
            let view = match packet_view(self.network, self.index, total) {
                Some(view) => view,
                None => return Err(ClientError::RecvFailed),
            };
            let ack = match ack_from_packet_type(view.packet_type) {
                Some(ack) => ack,
                None => return Err(ClientError::BadResponse),
            };
            let info = match deserialize_ack(&view, &limits) {
                Ok(info) => info,
                Err(error) => return Err(ClientError::from(error)),
            };
            let packet_id = match info.packet_id {
                Some(packet_id) => packet_id,
                None => 0,
            };
            let ack_state = match note_ack(&mut self.records, packet_id, ack) {
                Ok(state) => state,
                Err(error) => return Err(error),
            };
            if let Some(keeper) = lend(&mut store) {
                clear_acknowledged(keeper, packet_id, ack);
            }
            let event = Event {
                packet_type: view.packet_type,
                packet_id,
                publish: None,
                reason_codes: info.reason_codes,
                properties: info.properties,
            };
            assert(event@ =~= ack_plan(start, total).0->Ok_0.event);
            let wants_reply = match ack {
                AckType::PubAck | AckType::PubComp => false,
                _ => true,
            };
            let (accepted, reason_code) = dispatch(
                handler,
                &event,
                wants_reply,
                self.ack_properties,
                &mut self.ack_used,
            );
            (accepted, reason_code, packet_id, ack, ack_state)
        };
        assert(handler.told().drop_last() =~= old(handler).told());
        if !accepted {
            return Err(ClientError::EventCallbackFailed);
        }
        if self.ack_used >= REMAINING_LENGTH_INVALID as usize {
            return Err(ClientError::SendFailed);
        }
        match ack {
            AckType::PubAck | AckType::PubComp => return Ok(()),
            _ => {},
        }
        let reply = Reply { reason_code, property_length: self.ack_used };
        self.send_ack_for(transport, clock, store, packet_id, ack_state, reply)
    }

    /// Handles a PINGRESP.
    fn handle_pingresp<T: Transport, C: Clock, H: EventHandler>(
        &mut self,
        transport: &mut T,
        clock: &mut C,
        handler: &mut H,
        total: usize,
        manage_keep_alive: bool,
    ) -> (result: Result<(), ClientError>)
        ensures
            *final(transport) == *old(transport),
            *final(clock) == *old(clock),
            forall|kept: Option<Seq<Keeping>>| #[trigger]
                pingresp_handled(
                    Scene::of(*old(self), *old(transport), *old(clock), kept, *old(handler)),
                    Scene::of(
                        *final(self),
                        *final(transport),
                        *final(clock),
                        kept,
                        *final(handler),
                    ),
                    total,
                    manage_keep_alive,
                    result,
                ),
    {
        let (accepted, _code) = {
            let limits = self.limits();
            let view = match packet_view(self.network, self.index, total) {
                Some(view) => view,
                None => return Err(ClientError::RecvFailed),
            };
            let info = match deserialize_ack(&view, &limits) {
                Ok(info) => info,
                Err(error) => return Err(ClientError::from(error)),
            };
            if manage_keep_alive {
                self.waiting_for_ping_resp = false;
                return Ok(());
            }
            let packet_id = match info.packet_id {
                Some(packet_id) => packet_id,
                None => 0,
            };
            let event = Event {
                packet_type: view.packet_type,
                packet_id,
                publish: None,
                reason_codes: &[],
                properties: &[],
            };
            assert(event@ =~= ack_event(
                view.packet_type,
                AckModel { reason_codes: Seq::empty(), properties: Seq::empty(), ..info@ },
            ));
            dispatch(handler, &event, false, self.ack_properties, &mut self.ack_used)
        };
        assert(handler.told().drop_last() =~= old(handler).told());
        if accepted {
            Ok(())
        } else {
            Err(ClientError::EventCallbackFailed)
        }
    }

    /// Handles a SUBACK or UNSUBACK.
    fn handle_sub_unsub_ack<T: Transport, C: Clock, H: EventHandler>(
        &mut self,
        transport: &mut T,
        clock: &mut C,
        handler: &mut H,
        total: usize,
    ) -> (result: Result<(), ClientError>)
        ensures
            *final(transport) == *old(transport),
            *final(clock) == *old(clock),
            forall|kept: Option<Seq<Keeping>>| #[trigger]
                sub_ack_handled(
                    Scene::of(*old(self), *old(transport), *old(clock), kept, *old(handler)),
                    Scene::of(
                        *final(self),
                        *final(transport),
                        *final(clock),
                        kept,
                        *final(handler),
                    ),
                    total,
                    result,
                ),
    {
        let (accepted, _code) = {
            let limits = self.limits();
            let view = match packet_view(self.network, self.index, total) {
                Some(view) => view,
                None => return Err(ClientError::RecvFailed),
            };
            let info = match deserialize_ack(&view, &limits) {
                Ok(info) => info,
                Err(error) => return Err(ClientError::from(error)),
            };
            let packet_id = match info.packet_id {
                Some(packet_id) => packet_id,
                None => 0,
            };
            let event = Event {
                packet_type: view.packet_type,
                packet_id,
                publish: None,
                reason_codes: info.reason_codes,
                properties: info.properties,
            };
            assert(event@ =~= ack_event(view.packet_type, info@));
            dispatch(handler, &event, false, self.ack_properties, &mut self.ack_used)
        };
        assert(handler.told().drop_last() =~= old(handler).told());
        if accepted {
            Ok(())
        } else {
            Err(ClientError::EventCallbackFailed)
        }
    }

    /// Handles an acknowledgement.
    fn handle_incoming_ack<T: Transport, C: Clock, S: Store, H: EventHandler>(
        &mut self,
        transport: &mut T,
        clock: &mut C,
        store: Option<&mut S>,
        handler: &mut H,
        total: usize,
        manage_keep_alive: bool,
    ) -> (result: Result<(), ClientError>)
        ensures
            match store {
                Some(keeper) => ack_handled(
                    Scene::of(
                        *old(self),
                        *old(transport),
                        *old(clock),
                        Some(keeper.keepings()),
                        *old(handler),
                    ),
                    Scene::of(
                        *final(self),
                        *final(transport),
                        *final(clock),
                        Some(final(keeper).keepings()),
                        *final(handler),
                    ),
                    total,
                    manage_keep_alive,
                    result,
                ),
                None => ack_handled(
                    Scene::of(*old(self), *old(transport), *old(clock), None, *old(handler)),
                    Scene::of(
                        *final(self),
                        *final(transport),
                        *final(clock),
                        None,
                        *final(handler),
                    ),
                    total,
                    manage_keep_alive,
                    result,
                ),
            },
    {
        if self.network.len() == 0 {
            return Err(ClientError::RecvFailed);
        }
        match self.network[0] {
            packet::PUBACK | packet::PUBREC | packet::PUBREL | packet::PUBCOMP => {
                self.handle_publish_acks(transport, clock, store, handler, total)
            },
            packet::PINGRESP => {
                self.handle_pingresp(transport, clock, handler, total, manage_keep_alive)
            },
            packet::SUBACK | packet::UNSUBACK => {
                self.handle_sub_unsub_ack(transport, clock, handler, total)
            },
            _ => Err(ClientError::BadResponse),
        }
    }
}

// ---------------------------------------------------------------------------
// DISCONNECT, and every packet
// ---------------------------------------------------------------------------

/// What an event says of a DISCONNECT.
pub open spec fn disconnect_event(packet_type: u8, incoming: DisconnectModel) -> EventModel {
    EventModel {
        packet_type,
        packet_id: 0,
        publish: None,
        reason_codes: disconnect::reason_field(incoming.reason_code),
        properties: incoming.properties,
    }
}

/// The scene with the connection gone.
pub open spec fn without_connection(scene: Scene) -> Scene {
    scene.with(
        ContextModel { status: ConnectionStatus::NotConnected, ..scene.moment.context },
    )
}

/// A DISCONNECT that cannot be read was answered with one of the client's own.
pub open spec fn disconnect_answered(
    before: Scene,
    after: Scene,
    answered: Moment,
    answer: Result<(), ClientError>,
    result: Result<(), ClientError>,
) -> bool {
    &&& send::disconnecting(
        before.moment,
        answered,
        Some(reason::MALFORMED_PACKET),
        Seq::empty(),
        answer,
    )
    &&& after == without_connection(Scene { moment: answered, ..before })
    &&& result == match answer {
        Ok(()) => Err::<(), ClientError>(ClientError::NotConnected),
        Err(error) => Err(error),
    }
}

/// A DISCONNECT was handled.
pub open spec fn disconnect_handled(
    before: Scene,
    after: Scene,
    total: usize,
    result: Result<(), ClientError>,
) -> bool {
    let context = before.moment.context;
    match packet_seen(context.network, context.index, total) {
        None => after == before && result == Err::<(), ClientError>(ClientError::RecvFailed),
        Some(seen) => match disconnect::disconnect_of(
            seen,
            context.properties.client.max_packet_size,
        ) {
            Ok(incoming) => exists|told: Scene| #[trigger]
                event_told(before, told, disconnect_event(seen.packet_type, incoming), result)
                    && after == without_connection(told),
            Err(_) => exists|answered: Moment, answer: Result<(), ClientError>| #[trigger]
                disconnect_answered(before, after, answered, answer, result),
        },
    }
}

/// **Law.** A DISCONNECT ends the connection, whether or not it can be read,
/// and whatever the application says of it.
pub proof fn law_disconnect_ends_the_connection(
    before: Scene,
    after: Scene,
    total: usize,
    result: Result<(), ClientError>,
)
    requires
        disconnect_handled(before, after, total, result),
        packet_seen(before.moment.context.network, before.moment.context.index, total) is Some,
    ensures
        after.moment.context.status == ConnectionStatus::NotConnected,
{
}

/// A packet of `total` bytes was handled.
#[verifier::opaque]
pub open spec fn packet_handled(
    before: Scene,
    after: Scene,
    total: usize,
    manage_keep_alive: bool,
    result: Result<(), ClientError>,
) -> bool {
    let network = before.moment.context.network;
    if network.len() == 0 {
        after == before && result == Err::<(), ClientError>(ClientError::RecvFailed)
    } else if network[0] / 16 == packet::PUBLISH / 16 {
        publish_handled(before, after, total, result)
    } else if network[0] == packet::DISCONNECT {
        disconnect_handled(before, after, total, result)
    } else {
        ack_handled(before, after, total, manage_keep_alive, result)
    }
}

impl<'a> MqttContext<'a> {
    /// Tells the application of a DISCONNECT, if it can be read.
    fn tell_disconnect<H: EventHandler>(&mut self, handler: &mut H, total: usize) -> (told: Option<
        Option<bool>,
    >)
        ensures
            match packet_seen(old(self)@.network, old(self)@.index, total) {
                None => told is None && final(self)@ == old(self)@ && final(handler).told()
                    == old(handler).told(),
                Some(seen) => match disconnect::disconnect_of(
                    seen,
                    old(self)@.properties.client.max_packet_size,
                ) {
                    Err(_) => {
                        &&& told == Some(None::<bool>)
                        &&& final(self)@ == old(self)@
                        &&& final(handler).told() == old(handler).told()
                    },
                    Ok(incoming) => {
                        &&& telling(
                            old(handler).told(),
                            final(handler).told(),
                            old(self)@,
                            disconnect_event(seen.packet_type, incoming),
                            false,
                        )
                        &&& final(self)@ == after_telling(
                            old(self)@,
                            final(handler).told().last(),
                        )
                        &&& told == Some(Some(final(handler).told().last().accepted))
                    },
                },
            },
    {
        let (accepted, _code) = {
            let view = match packet_view(self.network, self.index, total) {
                Some(view) => view,
                None => return None,
            };
            let incoming = match deserialize_disconnect(
                &view,
                self.properties.client.max_packet_size,
            ) {
                Ok(incoming) => incoming,
                Err(_) => return Some(None),
            };
            let reason_byte: [u8; 1] = match incoming.reason_code {
                Some(code) => [code],
                None => [0u8],
            };
            let count: usize = if incoming.reason_code.is_some() {
                1
            } else {
                0
            };
            let event = Event {
                packet_type: view.packet_type,
                packet_id: 0,
                publish: None,
                reason_codes: slice_subrange(&reason_byte, 0, count),
                properties: incoming.properties,
            };
            assert(event@ =~= disconnect_event(view.packet_type, incoming@));
            dispatch(handler, &event, false, self.ack_properties, &mut self.ack_used)
        };
        assert(handler.told().drop_last() =~= old(handler).told());
        Some(Some(accepted))
    }

    /// Handles a DISCONNECT.
    fn handle_incoming_disconnect<T: Transport, C: Clock, H: EventHandler>(
        &mut self,
        transport: &mut T,
        clock: &mut C,
        handler: &mut H,
        total: usize,
    ) -> (result: Result<(), ClientError>)
        ensures
            forall|kept: Option<Seq<Keeping>>| #[trigger]
                disconnect_handled(
                    Scene::of(*old(self), *old(transport), *old(clock), kept, *old(handler)),
                    Scene::of(
                        *final(self),
                        *final(transport),
                        *final(clock),
                        kept,
                        *final(handler),
                    ),
                    total,
                    result,
                ),
    {
        let ghost before = Moment::of(*self, *transport, *clock);
        let told = match self.tell_disconnect(handler, total) {
            Some(told) => told,
            None => return Err(ClientError::RecvFailed),
        };
        let ghost middle = Moment::of(*self, *transport, *clock);
        let (result, answer) = match told {
            Some(true) => (Ok(()), Ok(())),
            Some(false) => (Err(ClientError::EventCallbackFailed), Ok(())),
            None => {
                let answer = self.disconnect(
                    transport,
                    clock,
                    Some(reason::MALFORMED_PACKET),
                    &[],
                );
                match answer {
                    Ok(()) => (Err(ClientError::NotConnected), answer),
                    Err(error) => (Err(error), answer),
                }
            },
        };
        let ghost answered = Moment::of(*self, *transport, *clock);
        self.connect_status = ConnectionStatus::NotConnected;
        proof {
            let after = Moment::of(*self, *transport, *clock);
            assert forall|kept: Option<Seq<Keeping>>| #[trigger]
                disconnect_handled(
                    Scene { moment: before, kept, told: old(handler).told() },
                    Scene { moment: after, kept, told: handler.told() },
                    total,
                    result,
                ) by {
                let first = Scene { moment: before, kept, told: old(handler).told() };
                let last = Scene { moment: after, kept, told: handler.told() };
                let seen = packet_seen(
                    before.context.network,
                    before.context.index,
                    total,
                )->0;
                if told is Some {
                    let incoming = disconnect::disconnect_of(
                        seen,
                        before.context.properties.client.max_packet_size,
                    )->Ok_0;
                    let scene = Scene { moment: middle, kept, told: handler.told() };
                    assert(event_told(
                        first,
                        scene,
                        disconnect_event(seen.packet_type, incoming),
                        result,
                    ));
                    assert(last =~= without_connection(scene));
                } else {
                    assert(Seq::<u8>::empty() =~= (&[])@);
                    assert(disconnect_answered(first, last, answered, answer, result));
                }
            }
        }
        result
    }

    /// Handles a packet.
    pub(crate) fn handle_packet<T: Transport, C: Clock, S: Store, H: EventHandler>(
        &mut self,
        transport: &mut T,
        clock: &mut C,
        store: Option<&mut S>,
        handler: &mut H,
        total: usize,
        manage_keep_alive: bool,
    ) -> (result: Result<(), ClientError>)
        ensures
            match store {
                Some(keeper) => packet_handled(
                    Scene::of(
                        *old(self),
                        *old(transport),
                        *old(clock),
                        Some(keeper.keepings()),
                        *old(handler),
                    ),
                    Scene::of(
                        *final(self),
                        *final(transport),
                        *final(clock),
                        Some(final(keeper).keepings()),
                        *final(handler),
                    ),
                    total,
                    manage_keep_alive,
                    result,
                ),
                None => packet_handled(
                    Scene::of(*old(self), *old(transport), *old(clock), None, *old(handler)),
                    Scene::of(
                        *final(self),
                        *final(transport),
                        *final(clock),
                        None,
                        *final(handler),
                    ),
                    total,
                    manage_keep_alive,
                    result,
                ),
            },
    {
        proof {
            reveal(packet_handled);
        }
        if self.network.len() == 0 {
            return Err(ClientError::RecvFailed);
        }
        let packet_type = self.network[0];
        if packet_type / 16 == packet::PUBLISH / 16 {
            return self.handle_incoming_publish(transport, clock, store, handler, total);
        }
        if packet_type == packet::DISCONNECT {
            return self.handle_incoming_disconnect(transport, clock, handler, total);
        }
        self.handle_incoming_ack(transport, clock, store, handler, total, manage_keep_alive)
    }
}

} // verus!
