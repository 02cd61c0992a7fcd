//! The client: what one connection holds, and the checks it makes before
//! anything goes on the wire.
//!
//! A [`MqttContext`] lives in memory its user gives it: a network buffer, and
//! for the higher qualities of service two arrays of records and a buffer for
//! the properties of acknowledgements. The world around it is four traits. A
//! [`Transport`](crate::reader::Transport) carries bytes, a [`Clock`] tells the
//! time, a [`Store`] keeps packets until they are acknowledged, and an
//! [`EventHandler`] is told what arrives. Each of them records what was asked of
//! it, and contracts speak of those records.
//!
//! Three things about the checks are easily missed:
//!
//! * A list of subscriptions is judged by its last entry alone.
//! * A list is refused for its quality of service as a whole, and before any
//!   filter is looked at.
//! * A filter that is exactly `$share/` is not a shared subscription.

use vstd::prelude::*;

use crate::ack::AckError;
use crate::connack::ConnAckError;
use crate::connect::ConnectError;
use crate::context;
use crate::context::ConnectionProperties;
use crate::disconnect::DisconnectError;
use crate::header::{HeaderError, REMAINING_LENGTH_INVALID};
use crate::publish::{PublishError, PublishInfo, PublishModel};
use crate::reader::{Exchange, ReadError};
use crate::state;
use crate::state::{PublishRecords, QoS, Record, RecordsModel, StateError};
use crate::topic;
use crate::topic::{HASH, PLUS, SLASH};
use crate::validate;
use crate::validate::{validate_subscribe_properties, ValidateError};

pub use crate::client::send::SendOutcome;

pub mod send;

verus! {

/// Why the client refused, or failed at, something.
#[derive(Debug, Clone, Copy, PartialEq, Eq, Structural)]
pub enum ClientError {
    /// Something the caller passed, or asked for, is not allowed.
    BadParameter,
    /// There is no connection.
    NotConnected,
    /// The connection is being given up.
    DisconnectPending,
    /// There is a connection already.
    StatusConnected,
    /// A buffer is too small.
    NoMemory,
    /// The transport failed, or a packet does not fit the network buffer.
    RecvFailed,
    /// Nothing has arrived.
    NoDataAvailable,
    /// A packet has not arrived whole.
    NeedMoreBytes,
    /// What arrived is malformed, or out of place.
    BadResponse,
    /// The broker refused the connection.
    ServerRefused,
    /// The broker did not answer a ping in time.
    KeepAliveTimeout,
    /// Not everything could be sent.
    SendFailed,
    /// The application refused an event.
    EventCallbackFailed,
    /// A packet could not be stored.
    PublishStoreFailed,
    /// A packet that should be stored is not.
    PublishRetrieveFailed,
    /// The records of publishes in flight do not allow it.
    State(StateError),
}

/// Where the connection stands.
#[derive(Debug, Clone, Copy, PartialEq, Eq, Structural)]
pub enum ConnectionStatus {
    /// There is none.
    NotConnected,
    /// It is up.
    Connected,
    /// The transport failed, and it is to be given up.
    DisconnectPending,
}

impl Default for ConnectionStatus {
    fn default() -> (status: Self)
        ensures
            status == ConnectionStatus::NotConnected,
    {
        ConnectionStatus::NotConnected
    }
}

/// What a list of subscriptions is for.
#[derive(Debug, Clone, Copy, PartialEq, Eq, Structural)]
pub enum SubscriptionType {
    /// To subscribe.
    Subscribe,
    /// To unsubscribe.
    Unsubscribe,
}

/// When the broker sends retained messages for a subscription.
#[derive(Debug, Clone, Copy, PartialEq, Eq, Structural)]
pub enum RetainHandling {
    /// At every subscribe.
    OnSubscribe,
    /// At a subscribe that makes a new subscription.
    OnSubscribeIfNew,
    /// Never.
    Never,
}

impl Default for RetainHandling {
    fn default() -> (handling: Self)
        ensures
            handling == RetainHandling::OnSubscribe,
    {
        RetainHandling::OnSubscribe
    }
}

/// One entry of a list of subscriptions.
#[derive(Debug, Clone, Copy)]
pub struct Subscription<'a> {
    /// The topic filter.
    pub topic_filter: &'a [u8],
    /// The quality of service asked for.
    pub qos: QoS,
    /// Whether messages of this client are kept from it.
    pub no_local: bool,
    /// Whether messages keep their retain flag.
    pub retain_as_published: bool,
    /// When retained messages are sent.
    pub retain_handling: RetainHandling,
}

// ---------------------------------------------------------------------------
// The world around the client
// ---------------------------------------------------------------------------

/// Tells the time.
pub trait Clock {
    /// Every reading so far. A clock that is only run, and not reasoned about,
    /// need not say.
    closed spec fn ticks(&self) -> Seq<u32> {
        Seq::empty()
    }

    /// The time in milliseconds. It may wrap.
    fn now_ms(&mut self) -> (now: u32)
        ensures
            final(self).ticks() == old(self).ticks().push(now),
    ;
}

/// One change asked of a store.
pub enum Keeping {
    /// To keep a packet, given in parts.
    Store { key: u32, parts: Seq<Seq<u8>>, kept: bool },
    /// To forget one.
    Clear { key: u32 },
}

/// Keeps packets that may have to be sent again.
pub trait Store {
    /// Every change asked for so far. A store that is only run, and not reasoned
    /// about, need not say.
    closed spec fn keepings(&self) -> Seq<Keeping> {
        Seq::empty()
    }

    /// What is kept under a key. The same holds of this.
    closed spec fn kept(&self, key: u32) -> Option<Seq<u8>> {
        None
    }

    /// Keeps a packet, and says whether that worked.
    fn store(&mut self, key: u32, parts: &[&[u8]]) -> (kept: bool)
        ensures
            final(self).keepings() == old(self).keepings().push(
                Keeping::Store { key, parts: crate::reader::contents(parts@), kept },
            ),
    ;

    /// What is kept under a key.
    fn retrieve(&self, key: u32) -> (packet: Option<&[u8]>)
        ensures
            match packet {
                Some(bytes) => self.kept(key) == Some(bytes@),
                None => self.kept(key) == None::<Seq<u8>>,
            },
    ;

    /// Forgets what is kept under a key.
    fn clear(&mut self, key: u32)
        ensures
            final(self).keepings() == old(self).keepings().push(Keeping::Clear { key }),
    ;
}

/// Something that arrived.
#[derive(Debug, Clone, Copy)]
pub struct Event<'e> {
    /// The type byte, flags and all.
    pub packet_type: u8,
    /// The packet id, or 0 where there is none.
    pub packet_id: u16,
    /// The publish, if it is one.
    pub publish: Option<PublishInfo<'e>>,
    /// The reason codes.
    pub reason_codes: &'e [u8],
    /// The properties.
    pub properties: &'e [u8],
}

/// The contents of an [`Event`].
#[verifier::ext_equal]
pub struct EventModel {
    pub packet_type: u8,
    pub packet_id: u16,
    pub publish: Option<PublishModel>,
    pub reason_codes: Seq<u8>,
    pub properties: Seq<u8>,
}

impl View for Event<'_> {
    type V = EventModel;

    open spec fn view(&self) -> EventModel {
        EventModel {
            packet_type: self.packet_type,
            packet_id: self.packet_id,
            publish: match self.publish {
                Some(publish) => Some(publish@),
                None => None,
            },
            reason_codes: self.reason_codes@,
            properties: self.properties@,
        }
    }
}

/// What the application would have an acknowledgement say.
///
/// The properties stand at the front of the buffer. They are added to what was
/// there before and not yet sent.
#[derive(Debug)]
pub struct AckReply<'r> {
    /// Whether there will be an acknowledgement to say it in.
    pub wants_reply: bool,
    /// Room for properties.
    pub properties: &'r mut [u8],
    /// How much of the room is used.
    pub used: usize,
    /// The reason code, if it is to say one.
    pub reason_code: Option<u8>,
}

/// The contents of an [`AckReply`].
#[verifier::ext_equal]
pub struct ReplyModel {
    pub wants_reply: bool,
    pub properties: Seq<u8>,
    pub used: usize,
    pub reason_code: Option<u8>,
}

impl View for AckReply<'_> {
    type V = ReplyModel;

    open spec fn view(&self) -> ReplyModel {
        ReplyModel {
            wants_reply: self.wants_reply,
            properties: self.properties@,
            used: self.used,
            reason_code: self.reason_code,
        }
    }
}

impl<'r> AckReply<'r> {
    /// A reply that says nothing new.
    pub fn new(wants_reply: bool, properties: &'r mut [u8], used: usize) -> (reply: Self)
        ensures
            reply@ == (ReplyModel {
                wants_reply,
                properties: old(properties)@,
                used,
                reason_code: None,
            }),
            final(reply.properties)@ == final(properties)@,
    {
        AckReply { wants_reply, properties, used, reason_code: None }
    }

    /// How much of the room is used.
    pub fn used(&self) -> (used: usize)
        ensures
            used == self@.used,
    {
        self.used
    }

    /// The reason code, if it is to say one.
    pub fn reason_code(&self) -> (code: Option<u8>)
        ensures
            code == self@.reason_code,
    {
        self.reason_code
    }
}

/// One event that was told, and what the application made of it.
pub struct Told {
    /// The event.
    pub event: EventModel,
    /// The reply as it was offered.
    pub offered: ReplyModel,
    /// The reply as it came back.
    pub reply: ReplyModel,
    /// Whether the application accepted the event.
    pub accepted: bool,
}

/// Is told what arrives.
pub trait EventHandler {
    /// Everything told so far. A handler that is only run, and not reasoned
    /// about, need not say.
    closed spec fn told(&self) -> Seq<Told> {
        Seq::empty()
    }

    /// Takes an event, and says whether it is accepted. What an acknowledgement
    /// should say goes into the reply, in the room that came with it.
    fn on_event(&mut self, event: &Event<'_>, reply: &mut AckReply<'_>) -> (accepted: bool)
        ensures
            final(self).told() == old(self).told().push(
                Told { event: event@, offered: old(reply)@, reply: final(reply)@, accepted },
            ),
            final(final(reply).properties)@ == final(old(reply).properties)@,
    ;
}

// ---------------------------------------------------------------------------
// The context
// ---------------------------------------------------------------------------

/// One connection: its buffers, its records, and what it knows of the broker.
#[derive(Debug)]
pub struct MqttContext<'a> {
    /// What the two sides told each other.
    pub properties: ConnectionProperties,
    /// Where the connection stands.
    pub connect_status: ConnectionStatus,
    pub(crate) network: &'a mut [u8],
    pub(crate) next_packet_id: u16,
    pub(crate) outgoing_records: usize,
    pub(crate) incoming_records: usize,
    pub(crate) ack_room: usize,
    pub(crate) records: Option<PublishRecords<'a>>,
    pub(crate) index: usize,
    pub(crate) ack_properties: &'a mut [u8],
    pub(crate) ack_used: usize,
    pub(crate) control_packet_sent: bool,
    pub(crate) keep_alive_seconds: u16,
    pub(crate) last_packet_tx_time: u32,
    pub(crate) last_packet_rx_time: u32,
    pub(crate) waiting_for_ping_resp: bool,
    pub(crate) ping_req_send_time: u32,
}

/// The contents of a [`MqttContext`].
#[verifier::ext_equal]
pub struct ContextModel {
    /// What the two sides told each other.
    pub properties: ConnectionProperties,
    /// Where the connection stands.
    pub status: ConnectionStatus,
    /// The network buffer.
    pub network: Seq<u8>,
    /// The packet id that is handed out next.
    pub next_packet_id: u16,
    /// How many outgoing records there are said to be.
    pub outgoing_records: usize,
    /// How many incoming records there are said to be.
    pub incoming_records: usize,
    /// How much room there is said to be for the properties of acknowledgements.
    pub ack_room: usize,
    /// The publishes in flight.
    pub records: Option<RecordsModel>,
    /// How many bytes of the network buffer have arrived and wait.
    pub index: usize,
    /// The room for the properties of acknowledgements.
    pub ack_properties: Seq<u8>,
    /// How much of it is used.
    pub ack_used: usize,
    /// Whether a control packet went out.
    pub control_packet_sent: bool,
    /// The keep-alive interval.
    pub keep_alive_seconds: u16,
    /// When bytes last went out.
    pub last_packet_tx_time: u32,
    /// When a packet was last taken in.
    pub last_packet_rx_time: u32,
    /// Whether a ping is unanswered.
    pub waiting_for_ping_resp: bool,
    /// When it was sent.
    pub ping_req_send_time: u32,
}

/// The contents of records that may not be there.
pub open spec fn records_of(records: Option<PublishRecords<'_>>) -> Option<RecordsModel> {
    match records {
        Some(records) => Some(records@),
        None => None,
    }
}

impl View for MqttContext<'_> {
    type V = ContextModel;

    open(crate) spec fn view(&self) -> ContextModel {
        ContextModel {
            properties: self.properties,
            status: self.connect_status,
            network: self.network@,
            next_packet_id: self.next_packet_id,
            outgoing_records: self.outgoing_records,
            incoming_records: self.incoming_records,
            ack_room: self.ack_room,
            records: records_of(self.records),
            index: self.index,
            ack_properties: self.ack_properties@,
            ack_used: self.ack_used,
            control_packet_sent: self.control_packet_sent,
            keep_alive_seconds: self.keep_alive_seconds,
            last_packet_tx_time: self.last_packet_tx_time,
            last_packet_rx_time: self.last_packet_rx_time,
            waiting_for_ping_resp: self.waiting_for_ping_resp,
            ping_req_send_time: self.ping_req_send_time,
        }
    }
}

/// The records of a context are in order, if it has any: no packet id is in
/// flight twice, no place is half empty, and what was sent and what was received
/// are kept apart.
pub open spec fn records_ok(context: ContextModel) -> bool {
    context.records matches Some(records) ==> records.well_formed() && records.apart()
}

/// A context, its transport and its clock at one moment.
#[verifier::ext_equal]
pub struct Moment {
    /// The context.
    pub context: ContextModel,
    /// What has passed over the transport.
    pub wire: Seq<Exchange>,
    /// What the clock has said.
    pub ticks: Seq<u32>,
}

/// Everything a fresh context holds.
pub open spec fn fresh(network: Seq<u8>) -> ContextModel {
    ContextModel {
        properties: context::defaults(),
        status: ConnectionStatus::NotConnected,
        network,
        next_packet_id: 1,
        outgoing_records: 0,
        incoming_records: 0,
        ack_room: 0,
        records: None,
        index: 0,
        ack_properties: Seq::empty(),
        ack_used: 0,
        control_packet_sent: false,
        keep_alive_seconds: 0,
        last_packet_tx_time: 0,
        last_packet_rx_time: 0,
        waiting_for_ping_resp: false,
        ping_req_send_time: 0,
    }
}

/// The packet id behind another. 0 is none, so the numbers go round without it.
pub open spec fn id_after(packet_id: u16) -> u16 {
    if packet_id == u16::MAX {
        1
    } else {
        (packet_id + 1) as u16
    }
}

/// Whether packets may be sent, and what is said if they may not.
pub open spec fn connected_check(status: ConnectionStatus) -> Result<(), ClientError> {
    match status {
        ConnectionStatus::Connected => Ok(()),
        ConnectionStatus::NotConnected => Err(ClientError::NotConnected),
        ConnectionStatus::DisconnectPending => Err(ClientError::DisconnectPending),
    }
}

/// Bytes of `s` before `end` that are wildcards.
pub open spec fn has_wildcard(s: Seq<u8>) -> bool {
    s.contains(HASH) || s.contains(PLUS)
}

/// `$share/`, which a shared subscription begins with.
pub open spec fn share_prefix() -> Seq<u8> {
    seq![0x24u8, 0x73u8, 0x68u8, 0x61u8, 0x72u8, 0x65u8, 0x2Fu8]
}

/// The filter names a shared subscription: it begins with the prefix, and goes
/// on behind it.
pub open spec fn is_shared(filter: Seq<u8>) -> bool {
    filter.len() > 7 && filter.take(7) == share_prefix()
}

/// A shared subscription is well formed and allowed: its name is not empty,
/// holds no wildcard and ends in a slash, a filter follows, and the broker
/// offers such subscriptions.
pub open spec fn shared_ok(filter: Seq<u8>, no_local: bool, shared_available: u8) -> bool {
    let end = topic::next_slash(filter, 7);
    &&& 7 < end < filter.len() - 1
    &&& !no_local
    &&& shared_available != 0
    &&& !has_wildcard(filter.subrange(7, end))
}

/// One entry of a list may be sent.
pub open spec fn entry_ok(
    entry: Subscription<'_>,
    which: SubscriptionType,
    properties: ConnectionProperties,
) -> bool {
    let filter = entry.topic_filter@;
    &&& 0 < filter.len() <= 65_535
    &&& which == SubscriptionType::Subscribe ==> {
        &&& has_wildcard(filter) ==> properties.server.wildcard_available != 0
        &&& is_shared(filter) ==> shared_ok(
            filter,
            entry.no_local,
            properties.server.shared_available,
        )
    }
}

/// A list may be sent, as far as its entries go. Only its last filter counts.
pub open spec fn list_ok(
    list: Seq<Subscription<'_>>,
    packet_id: u16,
    which: SubscriptionType,
    context: ContextModel,
) -> bool {
    &&& list.len() > 0
    &&& packet_id != 0
    &&& context.incoming_records == 0 ==> forall|i: int|
        0 <= i < list.len() ==> (#[trigger] list[i]).qos == QoS::AtMostOnce
    &&& entry_ok(list.last(), which, context.properties)
}

/// `Ok` if the condition holds, and the parameters are to blame if not.
pub open spec fn parameters(ok: bool) -> Result<(), ClientError> {
    if ok {
        Ok(())
    } else {
        Err(ClientError::BadParameter)
    }
}

/// A publish may be sent, as far as its sizes and the records go.
pub open spec fn publish_ok(
    qos: QoS,
    packet_id: u16,
    topic_length: int,
    payload_length: int,
    outgoing_records: usize,
) -> bool {
    &&& topic_length <= 65_535
    &&& payload_length < REMAINING_LENGTH_INVALID
    &&& qos != QoS::AtMostOnce ==> packet_id != 0 && outgoing_records != 0
}

/// How long ago a reading was. A clock that wrapped is allowed for.
pub open spec fn elapsed(now: u32, then: u32) -> u32 {
    if now >= then {
        (now - then) as u32
    } else {
        (now - then + 0x1_0000_0000) as u32
    }
}

/// How long ago a reading was. A clock that wrapped is allowed for.
pub fn elapsed_ms(now: u32, then: u32) -> (elapsed: u32)
    ensures
        elapsed == self::elapsed(now, then),
{
    now.wrapping_sub(then)
}

/// The key under which the store keeps an acknowledgement of this packet id. A
/// publish is kept under the packet id itself.
pub open spec fn ack_key(packet_id: u16) -> u32 {
    (packet_id + 0x1_0000) as u32
}

/// The key under which the store keeps an acknowledgement of this packet id.
pub fn incoming_key(packet_id: u16) -> (key: u32)
    ensures
        key == ack_key(packet_id),
{
    packet_id as u32 + 0x1_0000
}

/// **Law.** An acknowledgement and a publish are never kept under one key.
pub proof fn law_keys_apart(one: u16, other: u16)
    ensures
        ack_key(one) != other as u32,
        one != other ==> ack_key(one) != ack_key(other),
{
}

/// **Law.** A packet id is never 0, and comes round again only after all the
/// others.
pub proof fn law_packet_ids(packet_id: u16)
    requires
        packet_id != 0,
    ensures
        id_after(packet_id) != 0,
        forall|other: u16| other != 0 && id_after(other) == id_after(packet_id) ==> other
            == packet_id,
{
}

impl<'a> MqttContext<'a> {
    /// A context with nothing but a network buffer.
    pub fn new(network: &'a mut [u8]) -> (context: Self)
        ensures
            context@ == fresh(old(network)@),
    {
        MqttContext {
            properties: ConnectionProperties::new(),
            connect_status: ConnectionStatus::NotConnected,
            network,
            next_packet_id: 1,
            outgoing_records: 0,
            incoming_records: 0,
            ack_room: 0,
            records: None,
            index: 0,
            ack_properties: &mut [],
            ack_used: 0,
            control_packet_sent: false,
            keep_alive_seconds: 0,
            last_packet_tx_time: 0,
            last_packet_rx_time: 0,
            waiting_for_ping_resp: false,
            ping_req_send_time: 0,
        }
    }

    /// How large the network buffer is.
    pub fn network_size(&self) -> (size: usize)
        ensures
            size == self@.network.len(),
    {
        self.network.len()
    }

    /// Says how many records there are, and how much room for the properties of
    /// acknowledgements. The checks go by these numbers.
    pub fn enable_qos(&mut self, outgoing: usize, incoming: usize, ack_properties: usize)
        ensures
            final(self)@ == (ContextModel {
                outgoing_records: outgoing,
                incoming_records: incoming,
                ack_room: ack_properties,
                ..old(self)@
            }),
    {
        self.outgoing_records = outgoing;
        self.incoming_records = incoming;
        self.ack_room = ack_properties;
    }

    /// Hands over the records, which are emptied, and the room for the properties
    /// of acknowledgements. Without them only the lowest quality of service works.
    pub fn attach_records(
        &mut self,
        outgoing: &'a mut [Record],
        incoming: &'a mut [Record],
        ack_properties: &'a mut [u8],
    )
        ensures
            final(self)@ == (ContextModel {
                outgoing_records: old(outgoing)@.len() as usize,
                incoming_records: old(incoming)@.len() as usize,
                ack_room: old(ack_properties)@.len() as usize,
                records: Some(
                    RecordsModel {
                        outgoing: state::all_empty(old(outgoing)@.len()),
                        incoming: state::all_empty(old(incoming)@.len()),
                    },
                ),
                ack_properties: old(ack_properties)@,
                ack_used: 0,
                ..old(self)@
            }),
    {
        self.enable_qos(outgoing.len(), incoming.len(), ack_properties.len());
        self.records = Some(PublishRecords::new(outgoing, incoming));
        self.ack_properties = ack_properties;
        self.ack_used = 0;
    }

    /// The records, for the publishes that the application puts on the wire.
    pub fn records_mut(&mut self) -> (records: Option<&mut PublishRecords<'a>>)
        ensures
            match records {
                Some(records) => {
                    &&& old(self)@.records == Some(records@)
                    &&& final(self)@ == (ContextModel {
                        records: Some(final(records)@),
                        ..old(self)@
                    })
                },
                None => old(self)@.records is None && final(self)@ == old(self)@,
            },
    {
        match &mut self.records {
            Some(records) => Some(records),
            None => None,
        }
    }

    /// How many outgoing records there are.
    pub fn outgoing_records(&self) -> (count: usize)
        ensures
            count == self@.outgoing_records,
    {
        self.outgoing_records
    }

    /// How many incoming records there are.
    pub fn incoming_records(&self) -> (count: usize)
        ensures
            count == self@.incoming_records,
    {
        self.incoming_records
    }

    /// How much room there is for the properties of acknowledgements.
    pub fn ack_properties(&self) -> (size: usize)
        ensures
            size == self@.ack_room,
    {
        self.ack_room
    }

    /// Where the connection stands.
    pub fn status(&self) -> (status: ConnectionStatus)
        ensures
            status == self@.status,
    {
        self.connect_status
    }

    /// Hands out a packet id.
    pub fn next_packet_id(&mut self) -> (id: u16)
        ensures
            id == old(self)@.next_packet_id,
            final(self)@ == (ContextModel {
                next_packet_id: id_after(old(self)@.next_packet_id),
                ..old(self)@
            }),
    {
        let id = self.next_packet_id;
        self.next_packet_id = if id == u16::MAX {
            1
        } else {
            id + 1
        };
        id
    }

    /// Whether packets may be sent.
    pub fn connected(&self) -> (result: Result<(), ClientError>)
        ensures
            result == connected_check(self@.status),
    {
        match self.connect_status {
            ConnectionStatus::Connected => Ok(()),
            ConnectionStatus::NotConnected => Err(ClientError::NotConnected),
            ConnectionStatus::DisconnectPending => Err(ClientError::DisconnectPending),
        }
    }

    /// Whether a list of subscriptions may be sent.
    ///
    /// # Errors
    ///
    /// [`ClientError::BadParameter`] if it is empty, has no packet id, asks for
    /// a quality of service that needs records where there are none, or ends in
    /// a filter that may not be sent.
    pub fn validate_subscriptions(
        &self,
        list: &[Subscription<'_>],
        packet_id: u16,
        which: SubscriptionType,
    ) -> (result: Result<(), ClientError>)
        ensures
            result == parameters(list_ok(list@, packet_id, which, self@)),
    {
        if list.len() == 0 || packet_id == 0 {
            return Err(ClientError::BadParameter);
        }
        if self.incoming_records == 0 {
            let mut i: usize = 0;
            while i < list.len()
                invariant
                    i <= list@.len(),
                    self@.incoming_records == 0,
                    forall|k: int| 0 <= k < i ==> (#[trigger] list@[k]).qos == QoS::AtMostOnce,
                decreases list@.len() - i,
            {
                if list[i].qos != QoS::AtMostOnce {
                    assert(list@[i as int].qos != QoS::AtMostOnce);
                    return Err(ClientError::BadParameter);
                }
                i += 1;
            }
        }
        let mut status = Ok(());
        let mut i: usize = 0;
        while i < list.len()
            invariant
                i <= list@.len(),
                i > 0 ==> status == parameters(
                    entry_ok(list@[i - 1], which, self@.properties),
                ),
            decreases list@.len() - i,
        {
            status = self.validate_one(&list[i], which);
            i += 1;
        }
        status
    }

    /// Whether one entry of a list may be sent.
    fn validate_one(&self, entry: &Subscription<'_>, which: SubscriptionType) -> (result: Result<
        (),
        ClientError,
    >)
        ensures
            result == parameters(entry_ok(*entry, which, self@.properties)),
    {
        if entry.topic_filter.len() == 0 {
            return Err(ClientError::BadParameter);
        }
        if entry.topic_filter.len() > 65_535 {
            return Err(ClientError::BadParameter);
        }
        if which == SubscriptionType::Unsubscribe {
            return Ok(());
        }
        if self.wildcards_forbidden(entry.topic_filter) {
            return Err(ClientError::BadParameter);
        }
        self.validate_shared(entry)
    }

    /// Whether the filter holds a wildcard, and the broker allows none.
    fn wildcards_forbidden(&self, filter: &[u8]) -> (forbidden: bool)
        ensures
            forbidden == (self@.properties.server.wildcard_available == 0 && has_wildcard(filter@)),
    {
        proof {
            assert(filter@.subrange(0, filter@.len() as int) =~= filter@);
        }
        self.properties.server.wildcard_available == 0 && (holds_byte(filter, 0, filter.len(), HASH)
            || holds_byte(filter, 0, filter.len(), PLUS))
    }

    /// Whether the filter, if it is a shared subscription, is a good one.
    fn validate_shared(&self, entry: &Subscription<'_>) -> (result: Result<(), ClientError>)
        ensures
            result == parameters(
                is_shared(entry.topic_filter@) ==> shared_ok(
                    entry.topic_filter@,
                    entry.no_local,
                    self@.properties.server.shared_available,
                ),
            ),
    {
        let filter = entry.topic_filter;
        if !begins_shared(filter) {
            return Ok(());
        }
        let mut end: usize = 7;
        while end < filter.len() && filter[end] != SLASH
            invariant
                7 <= end <= filter@.len(),
                topic::next_slash(filter@, 7) == topic::next_slash(filter@, end as int),
            decreases filter@.len() - end,
        {
            end += 1;
        }
        assert(topic::next_slash(filter@, 7) == end);
        if end == filter.len() || end == 7 {
            return Err(ClientError::BadParameter);
        }
        if entry.no_local {
            return Err(ClientError::BadParameter);
        }
        if self.properties.server.shared_available == 0 {
            return Err(ClientError::BadParameter);
        }
        if end == filter.len() - 1 {
            return Err(ClientError::BadParameter);
        }
        if holds_byte(filter, 7, end, HASH) || holds_byte(filter, 7, end, PLUS) {
            return Err(ClientError::BadParameter);
        }
        Ok(())
    }

    /// Whether a SUBSCRIBE may go on the wire.
    ///
    /// # Errors
    ///
    /// [`ClientError::BadParameter`] as in
    /// [`validate_subscriptions`](Self::validate_subscriptions), and if the
    /// properties are not those of a SUBSCRIBE; otherwise what the connection
    /// says.
    pub fn subscribe(
        &self,
        list: &[Subscription<'_>],
        packet_id: u16,
        properties: Option<&[u8]>,
    ) -> (result: Result<(), ClientError>)
        ensures
            result == if list_ok(list@, packet_id, SubscriptionType::Subscribe, self@) && (
            properties matches Some(section) ==> validate::or_too_long(
                section@,
                validate::subscribe_check(
                    section@,
                    false,
                    self@.properties.server.subscription_id_available != 0,
                ),
            ) is Ok) {
                connected_check(self@.status)
            } else {
                Err(ClientError::BadParameter)
            },
    {
        self.validate_subscriptions(list, packet_id, SubscriptionType::Subscribe)?;
        if let Some(section) = properties {
            let available = self.properties.server.subscription_id_available != 0;
            if validate_subscribe_properties(available, section).is_err() {
                return Err(ClientError::BadParameter);
            }
        }
        self.connected()
    }

    /// Whether an UNSUBSCRIBE may go on the wire.
    ///
    /// # Errors
    ///
    /// [`ClientError::BadParameter`] as in
    /// [`validate_subscriptions`](Self::validate_subscriptions); otherwise what
    /// the connection says.
    pub fn unsubscribe(&self, list: &[Subscription<'_>], packet_id: u16) -> (result: Result<
        (),
        ClientError,
    >)
        ensures
            result == if list_ok(list@, packet_id, SubscriptionType::Unsubscribe, self@) {
                connected_check(self@.status)
            } else {
                Err(ClientError::BadParameter)
            },
    {
        self.validate_subscriptions(list, packet_id, SubscriptionType::Unsubscribe)?;
        self.connected()
    }

    /// Whether a publish of these sizes may be sent.
    ///
    /// # Errors
    ///
    /// [`ClientError::BadParameter`] if it is too large, or of a quality of
    /// service that needs a packet id or a record where there is none.
    pub fn validate_publish(
        &self,
        qos: QoS,
        packet_id: u16,
        topic_length: usize,
        payload_length: usize,
    ) -> (result: Result<(), ClientError>)
        ensures
            result == parameters(
                publish_ok(
                    qos,
                    packet_id,
                    topic_length as int,
                    payload_length as int,
                    self@.outgoing_records,
                ),
            ),
    {
        if qos != QoS::AtMostOnce && packet_id == 0 {
            return Err(ClientError::BadParameter);
        }
        if topic_length > 65_535 {
            return Err(ClientError::BadParameter);
        }
        if payload_length >= REMAINING_LENGTH_INVALID as usize {
            return Err(ClientError::BadParameter);
        }
        if self.outgoing_records == 0 && qos != QoS::AtMostOnce {
            return Err(ClientError::BadParameter);
        }
        Ok(())
    }

    /// Whether a PUBLISH may go on the wire.
    ///
    /// # Errors
    ///
    /// [`ClientError::BadParameter`] as in
    /// [`validate_publish`](Self::validate_publish), and if there is no topic;
    /// otherwise what the connection says.
    pub fn publish(&self, qos: QoS, packet_id: u16, topic: &[u8], payload: &[u8]) -> (result:
        Result<(), ClientError>)
        ensures
            result == if publish_ok(
                qos,
                packet_id,
                topic@.len() as int,
                payload@.len() as int,
                self@.outgoing_records,
            ) && topic@.len() > 0 {
                connected_check(self@.status)
            } else {
                Err(ClientError::BadParameter)
            },
    {
        self.validate_publish(qos, packet_id, topic.len(), payload.len())?;
        if topic.len() == 0 {
            return Err(ClientError::BadParameter);
        }
        self.connected()
    }
}

/// Whether a byte stands in part of a slice.
fn holds_byte(s: &[u8], from: usize, to: usize, byte: u8) -> (found: bool)
    requires
        from <= to <= s@.len(),
    ensures
        found == s@.subrange(from as int, to as int).contains(byte),
{
    let ghost part = s@.subrange(from as int, to as int);
    let mut i: usize = from;
    while i < to
        invariant
            from <= i <= to <= s@.len(),
            part == s@.subrange(from as int, to as int),
            forall|k: int| 0 <= k < i - from ==> part[k] != byte,
        decreases to - i,
    {
        if s[i] == byte {
            assert(part[i - from] == byte);
            return true;
        }
        i += 1;
    }
    false
}

/// Whether a filter names a shared subscription.
fn begins_shared(filter: &[u8]) -> (shared: bool)
    ensures
        shared == is_shared(filter@),
{
    if filter.len() <= 7 {
        return false;
    }
    let shared = filter[0] == 0x24 && filter[1] == 0x73 && filter[2] == 0x68 && filter[3] == 0x61
        && filter[4] == 0x72 && filter[5] == 0x65 && filter[6] == 0x2F;
    proof {
        if shared {
            assert(filter@.take(7) =~= share_prefix());
        } else if filter@.take(7) == share_prefix() {
            assert(forall|i: int| 0 <= i < 7 ==> filter@.take(7)[i] == filter@[i]);
            assert(share_prefix()[0] == 0x24 && share_prefix()[1] == 0x73 && share_prefix()[2]
                == 0x68 && share_prefix()[3] == 0x61 && share_prefix()[4] == 0x72
                && share_prefix()[5] == 0x65 && share_prefix()[6] == 0x2F);
        }
    }
    shared
}

// ---------------------------------------------------------------------------
// What other errors mean to the client
// ---------------------------------------------------------------------------

impl vstd::std_specs::convert::FromSpecImpl<ValidateError> for ClientError {
    open spec fn obeys_from_spec() -> bool {
        true
    }

    open spec fn from_spec(error: ValidateError) -> Self {
        ClientError::BadParameter
    }
}

impl From<ValidateError> for ClientError {
    fn from(error: ValidateError) -> (client: Self) {
        ClientError::BadParameter
    }
}

/// What an error of a header means to the client.
pub open spec fn from_header(error: HeaderError) -> ClientError {
    match error {
        HeaderError::NoDataAvailable => ClientError::NoDataAvailable,
        HeaderError::NeedMoreBytes => ClientError::NeedMoreBytes,
        HeaderError::BadResponse => ClientError::BadResponse,
    }
}

impl vstd::std_specs::convert::FromSpecImpl<HeaderError> for ClientError {
    open spec fn obeys_from_spec() -> bool {
        true
    }

    open spec fn from_spec(error: HeaderError) -> Self {
        from_header(error)
    }
}

impl From<HeaderError> for ClientError {
    fn from(error: HeaderError) -> (client: Self) {
        match error {
            HeaderError::NoDataAvailable => ClientError::NoDataAvailable,
            HeaderError::NeedMoreBytes => ClientError::NeedMoreBytes,
            HeaderError::BadResponse => ClientError::BadResponse,
        }
    }
}

/// What an error of reading a header off the transport means to the client. One
/// that was waited for and did not come was not received.
pub open spec fn from_read(error: ReadError) -> ClientError {
    match error {
        ReadError::NoDataAvailable => ClientError::RecvFailed,
        ReadError::RecvFailed => ClientError::RecvFailed,
        ReadError::BadResponse => ClientError::BadResponse,
    }
}

impl vstd::std_specs::convert::FromSpecImpl<ReadError> for ClientError {
    open spec fn obeys_from_spec() -> bool {
        true
    }

    open spec fn from_spec(error: ReadError) -> Self {
        from_read(error)
    }
}

impl From<ReadError> for ClientError {
    fn from(error: ReadError) -> (client: Self) {
        match error {
            ReadError::NoDataAvailable => ClientError::RecvFailed,
            ReadError::RecvFailed => ClientError::RecvFailed,
            ReadError::BadResponse => ClientError::BadResponse,
        }
    }
}

/// What an error of a publish means to the client.
pub open spec fn from_publish(error: PublishError) -> ClientError {
    match error {
        PublishError::BadParameter => ClientError::BadParameter,
        PublishError::BadResponse => ClientError::BadResponse,
    }
}

impl vstd::std_specs::convert::FromSpecImpl<PublishError> for ClientError {
    open spec fn obeys_from_spec() -> bool {
        true
    }

    open spec fn from_spec(error: PublishError) -> Self {
        from_publish(error)
    }
}

impl From<PublishError> for ClientError {
    fn from(error: PublishError) -> (client: Self) {
        match error {
            PublishError::BadParameter => ClientError::BadParameter,
            PublishError::BadResponse => ClientError::BadResponse,
        }
    }
}

/// What an error of an acknowledgement means to the client.
pub open spec fn from_ack(error: AckError) -> ClientError {
    match error {
        AckError::BadParameter => ClientError::BadParameter,
        AckError::BadResponse => ClientError::BadResponse,
    }
}

impl vstd::std_specs::convert::FromSpecImpl<AckError> for ClientError {
    open spec fn obeys_from_spec() -> bool {
        true
    }

    open spec fn from_spec(error: AckError) -> Self {
        from_ack(error)
    }
}

impl From<AckError> for ClientError {
    fn from(error: AckError) -> (client: Self) {
        match error {
            AckError::BadParameter => ClientError::BadParameter,
            AckError::BadResponse => ClientError::BadResponse,
        }
    }
}

/// What an error of a CONNACK means to the client.
pub open spec fn from_connack(error: ConnAckError) -> ClientError {
    match error {
        ConnAckError::BadParameter => ClientError::BadParameter,
        ConnAckError::BadResponse => ClientError::BadResponse,
    }
}

impl vstd::std_specs::convert::FromSpecImpl<ConnAckError> for ClientError {
    open spec fn obeys_from_spec() -> bool {
        true
    }

    open spec fn from_spec(error: ConnAckError) -> Self {
        from_connack(error)
    }
}

impl From<ConnAckError> for ClientError {
    fn from(error: ConnAckError) -> (client: Self) {
        match error {
            ConnAckError::BadParameter => ClientError::BadParameter,
            ConnAckError::BadResponse => ClientError::BadResponse,
        }
    }
}

/// What an error of a CONNECT means to the client.
pub open spec fn from_connect(error: ConnectError) -> ClientError {
    match error {
        ConnectError::BadParameter => ClientError::BadParameter,
        ConnectError::NoMemory => ClientError::NoMemory,
    }
}

impl vstd::std_specs::convert::FromSpecImpl<ConnectError> for ClientError {
    open spec fn obeys_from_spec() -> bool {
        true
    }

    open spec fn from_spec(error: ConnectError) -> Self {
        from_connect(error)
    }
}

impl From<ConnectError> for ClientError {
    fn from(error: ConnectError) -> (client: Self) {
        match error {
            ConnectError::BadParameter => ClientError::BadParameter,
            ConnectError::NoMemory => ClientError::NoMemory,
        }
    }
}

/// What an error of a DISCONNECT means to the client.
pub open spec fn from_disconnect(error: DisconnectError) -> ClientError {
    match error {
        DisconnectError::BadParameter => ClientError::BadParameter,
        DisconnectError::BadResponse => ClientError::BadResponse,
        DisconnectError::NoMemory => ClientError::NoMemory,
    }
}

impl vstd::std_specs::convert::FromSpecImpl<DisconnectError> for ClientError {
    open spec fn obeys_from_spec() -> bool {
        true
    }

    open spec fn from_spec(error: DisconnectError) -> Self {
        from_disconnect(error)
    }
}

impl From<DisconnectError> for ClientError {
    fn from(error: DisconnectError) -> (client: Self) {
        match error {
            DisconnectError::BadParameter => ClientError::BadParameter,
            DisconnectError::BadResponse => ClientError::BadResponse,
            DisconnectError::NoMemory => ClientError::NoMemory,
        }
    }
}

} // verus!
