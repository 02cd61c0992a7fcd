//! Opening a session: sending the CONNECT, waiting for the CONNACK, and taking
//! up where the last session left off.
//!
//! * A CONNECT without properties is given one: the size of the network buffer,
//!   so that the broker sends nothing that does not fit.
//! * With a timeout of zero the CONNACK's first byte is asked for once, and then
//!   a fixed number of times more.
//! * A broker that kept the session gets the PUBRELs again before the publishes,
//!   each in the order in which it was first sent.
//! * A broker that kept nothing makes the client forget everything too. The
//!   stored publishes are cleared from the store. Stored PUBRELs are looked for
//!   after the records have been emptied, and so are not found.

use vstd::prelude::*;
use vstd::slice::slice_subrange;

use crate::ack::{PacketInfo, PacketModel};
use crate::client;
use crate::client::send;
use crate::client::send::MAX_IDLE_POLLS;
use crate::client::{elapsed_ms, ClientError, Clock, ContextModel, Moment, MqttContext};
use crate::connack;
use crate::connack::{deserialize_connack, field, ClientSettings, ConnAck, ConnAckModel};
use crate::context::{ConnectionProperties, ServerLimits};
use crate::header::packet;
use crate::reader;
use crate::reader::{read_header, Exchange, IncomingHeader, ReadError, Received, Recv, Transport};
use crate::wire;

pub use crate::session::resume::ack_from_packet_type;

pub mod announce;
pub mod opening;
pub mod resume;

verus! {

/// How long a transport may bring nothing in the middle of a packet.
pub const RECV_POLLING_TIMEOUT_MS: u32 = 10;

/// How often a CONNACK that does not come is asked for again, without a timeout.
pub const MAX_CONNACK_RECEIVE_RETRY_COUNT: u16 = 5;

/// What became of a read.
#[derive(Debug, Clone, Copy, PartialEq, Eq, Structural)]
pub enum ReadOutcome {
    /// This many bytes arrived.
    Bytes(usize),
    /// The transport failed, or the bytes do not fit.
    Failed,
}

// ---------------------------------------------------------------------------
// Reading a known number of bytes
// ---------------------------------------------------------------------------

/// How many bytes an exchange says it brought.
pub open spec fn brought(exchange: Exchange) -> int {
    match exchange {
        Exchange::Receive { got: Recv::Bytes(count), buffer } => count as int,
        _ => 0,
    }
}

/// The buffer an exchange filled.
pub open spec fn brought_into(exchange: Exchange) -> Seq<u8> {
    match exchange {
        Exchange::Receive { got, buffer } => buffer,
        _ => Seq::empty(),
    }
}

/// How many bytes of those wanted have arrived. No more are counted than were
/// asked for, whatever a transport says.
pub open spec fn arrived(exchanges: Seq<Exchange>, wanted: nat) -> nat
    decreases exchanges.len(),
{
    if exchanges.len() == 0 {
        0
    } else {
        let before = arrived(exchanges.drop_last(), wanted);
        let count = brought(exchanges.last());
        if before + count > wanted {
            wanted
        } else {
            (before + count) as nat
        }
    }
}

/// The network buffer with everything the exchanges brought in it.
pub open spec fn landed(network: Seq<u8>, exchanges: Seq<Exchange>, wanted: nat) -> Seq<u8>
    decreases exchanges.len(),
{
    if exchanges.len() == 0 {
        network
    } else {
        let before = exchanges.drop_last();
        wire::overwrite(
            landed(network, before, wanted),
            arrived(before, wanted) as int,
            brought_into(exchanges.last()),
        )
    }
}

/// An exchange asks for all that is still wanted.
pub open spec fn asked_at(exchanges: Seq<Exchange>, wanted: nat, i: int) -> bool {
    let before = arrived(exchanges.take(i), wanted);
    &&& before < wanted
    &&& exchanges[i] is Receive
    &&& brought_into(exchanges[i]).len() == wanted - before
}

/// Each exchange asks for all that is still wanted.
pub open spec fn asked_in_turn(exchanges: Seq<Exchange>, wanted: nat) -> bool {
    forall|i: int| 0 <= i < exchanges.len() ==> #[trigger] asked_at(exchanges, wanted, i)
}

/// The reading of the clock that was taken when bytes last arrived. There is one
/// reading before the first exchange and one behind each.
pub open spec fn last_heard(exchanges: Seq<Exchange>) -> nat
    decreases exchanges.len(),
{
    if exchanges.len() == 0 {
        0
    } else if brought(exchanges.last()) > 0 {
        exchanges.len()
    } else {
        last_heard(exchanges.drop_last())
    }
}

/// Behind the first `count` exchanges, the transport had brought nothing for too
/// long.
pub open spec fn gone_quiet(exchanges: Seq<Exchange>, readings: Seq<u32>, count: int) -> bool {
    client::elapsed(readings[count], readings[last_heard(exchanges.take(count)) as int])
        >= RECV_POLLING_TIMEOUT_MS
}

/// So many bytes were read to the front of the network buffer, with this
/// outcome.
///
/// The clock is read once at the start and once behind each exchange that does
/// not fail. What is still wanted is asked for as long as the transport has not
/// gone quiet.
#[verifier::opaque]
pub open spec fn receiving(
    before: Moment,
    after: Moment,
    wanted: nat,
    outcome: ReadOutcome,
) -> bool {
    let exchanges = reader::since(before.wire, after.wire);
    let readings = reader::since(before.ticks, after.ticks);
    &&& reader::extends(before.wire, after.wire)
    &&& reader::extends(before.ticks, after.ticks)
    &&& asked_in_turn(exchanges, wanted)
    &&& forall|i: int| 0 <= i < exchanges.len() - 1 ==> !send::failed(#[trigger] exchanges[i])
    &&& forall|i: int| 0 < i < exchanges.len() ==> !#[trigger] gone_quiet(exchanges, readings, i)
    &&& match outcome {
        ReadOutcome::Failed => if wanted > before.context.network.len() {
            exchanges.len() == 0 && readings.len() == 1
        } else {
            &&& exchanges.len() > 0 && send::failed(exchanges.last())
            &&& readings.len() == exchanges.len()
        },
        ReadOutcome::Bytes(count) => {
            &&& wanted <= before.context.network.len()
            &&& exchanges.len() > 0 ==> !send::failed(exchanges.last())
            &&& readings.len() == exchanges.len() + 1
            &&& count == arrived(exchanges, wanted)
            &&& count < wanted ==> exchanges.len() > 0 && (gone_quiet(
                exchanges,
                readings,
                exchanges.len() as int,
            ) || exchanges.len() - last_heard(exchanges) == MAX_IDLE_POLLS)
        },
    }
    &&& after.context == (ContextModel {
        status: if outcome is Failed && exchanges.len() > 0 {
            send::after_failure(before.context.status)
        } else {
            before.context.status
        },
        network: landed(before.context.network, exchanges, wanted),
        ..before.context
    })
}

/// Asks for bytes into part of a buffer.
pub(crate) fn recv_into<T: Transport>(
    transport: &mut T,
    network: &mut [u8],
    from: usize,
    to: usize,
) -> (got: Recv)
    requires
        from <= to <= old(network)@.len(),
    ensures
        final(network)@.len() == old(network)@.len(),
        final(transport).log() == old(transport).log().push(
            Exchange::Receive { got, buffer: final(network)@.subrange(from as int, to as int) },
        ),
        final(network)@ == wire::overwrite(
            old(network)@,
            from as int,
            final(network)@.subrange(from as int, to as int),
        ),
{
    let (_front, back) = network.split_at_mut(from);
    let (into, _rest) = back.split_at_mut(to - from);
    let got = transport.recv(into);
    let ghost filled = into@;
    assert(network@.subrange(from as int, to as int) =~= filled);
    got
}

impl<'a> MqttContext<'a> {
    /// Reads so many bytes to the front of the network buffer.
    ///
    /// Gives up with what there is if nothing arrives for
    /// [`RECV_POLLING_TIMEOUT_MS`].
    pub fn recv_exact<T: Transport, C: Clock>(
        &mut self,
        transport: &mut T,
        clock: &mut C,
        wanted: usize,
    ) -> (outcome: ReadOutcome)
        ensures
            receiving(
                Moment::of(*old(self), *old(transport), *old(clock)),
                Moment::of(*final(self), *final(transport), *final(clock)),
                wanted as nat,
                outcome,
            ),
    {
        let ghost before = Moment::of(*self, *transport, *clock);
        let ghost mut exchanges: Seq<Exchange> = Seq::empty();
        proof {
            reveal(receiving);
            reader::lemma_extends_self(before.wire);
            reader::lemma_extends_self(before.ticks);
        }
        let mut total: usize = 0;
        let mut polls: u64 = 0;
        let mut last_data = clock.now_ms();
        proof {
            reader::lemma_extends(before.ticks, before.ticks, last_data);
        }
        if wanted > self.network.len() {
            return ReadOutcome::Failed;
        }
        while total < wanted
            invariant
                before == Moment::of(*old(self), *old(transport), *old(clock)),
                total <= wanted <= self@.network.len(),
                wanted <= before.context.network.len(),
                polls == exchanges.len() - last_heard(exchanges),
                polls < MAX_IDLE_POLLS,
                reader::extends(before.wire, transport.log()),
                exchanges == reader::since(before.wire, transport.log()),
                reader::extends(before.ticks, clock.ticks()),
                reader::since(before.ticks, clock.ticks()).len() == exchanges.len() + 1,
                last_heard(exchanges) <= exchanges.len(),
                reader::since(before.ticks, clock.ticks())[last_heard(exchanges) as int]
                    == last_data,
                forall|i: int|
                    0 < i <= exchanges.len() && total < wanted ==> !#[trigger] gone_quiet(
                        exchanges,
                        reader::since(before.ticks, clock.ticks()),
                        i,
                    ),
                forall|i: int|
                    0 < i < exchanges.len() ==> !#[trigger] gone_quiet(
                        exchanges,
                        reader::since(before.ticks, clock.ticks()),
                        i,
                    ),
                asked_in_turn(exchanges, wanted as nat),
                total == arrived(exchanges, wanted as nat),
                forall|i: int| 0 <= i < exchanges.len() ==> !send::failed(#[trigger] exchanges[i]),
                self@ == (ContextModel {
                    network: landed(before.context.network, exchanges, wanted as nat),
                    ..before.context
                }),
            decreases wanted - total, MAX_IDLE_POLLS - polls,
        {
            proof {
                reveal(receiving);
            }
            let ghost log = transport.log();
            let got = recv_into(transport, self.network, total, wanted);
            proof {
                let exchange = transport.log().last();
                reader::lemma_extends(before.wire, log, exchange);
                lemma_asked_push(before.context.network, exchanges, wanted as nat, exchange);
                lemma_not_quiet_before(
                    exchanges,
                    exchange,
                    reader::since(before.ticks, clock.ticks()),
                );
                exchanges = exchanges.push(exchange);
                assert(exchanges.take(exchanges.len() as int) =~= exchanges);
            }
            if let Recv::Failed = got {
                self.note_failure();
                return ReadOutcome::Failed;
            }
            let ghost ticks = clock.ticks();
            let now = clock.now_ms();
            proof {
                reader::lemma_extends(before.ticks, ticks, now);
            }
            match got {
                Recv::Bytes(count) => {
                    if count > 0 {
                        total = if count > wanted - total {
                            wanted
                        } else {
                            total + count
                        };
                        last_data = now;
                        polls = 0;
                    } else {
                        if elapsed_ms(now, last_data) >= RECV_POLLING_TIMEOUT_MS {
                            return ReadOutcome::Bytes(total);
                        }
                        polls += 1;
                    }
                },
                _ => {
                    if elapsed_ms(now, last_data) >= RECV_POLLING_TIMEOUT_MS {
                        return ReadOutcome::Bytes(total);
                    }
                    polls += 1;
                },
            }
            if polls == MAX_IDLE_POLLS {
                return ReadOutcome::Bytes(total);
            }
        }
        ReadOutcome::Bytes(total)
    }
}

/// A further exchange and a further reading change nothing about those before
/// them.
proof fn lemma_not_quiet_before(exchanges: Seq<Exchange>, exchange: Exchange, readings: Seq<u32>)
    requires
        readings.len() == exchanges.len() + 1,
        forall|i: int|
            0 < i <= exchanges.len() ==> !#[trigger] gone_quiet(exchanges, readings, i),
    ensures
        forall|i: int|
            0 < i <= exchanges.len() ==> !#[trigger] gone_quiet(
                exchanges.push(exchange),
                readings,
                i,
            ),
        forall|now: u32, i: int|
            0 < i <= exchanges.len() ==> !#[trigger] gone_quiet(
                exchanges.push(exchange),
                readings.push(now),
                i,
            ),
{
    assert forall|i: int| 0 < i <= exchanges.len() implies !#[trigger] gone_quiet(
        exchanges.push(exchange),
        readings,
        i,
    ) by {
        assert(!gone_quiet(exchanges, readings, i));
        assert(exchanges.push(exchange).take(i) =~= exchanges.take(i));
    }
    assert forall|now: u32, i: int| 0 < i <= exchanges.len() implies !#[trigger] gone_quiet(
        exchanges.push(exchange),
        readings.push(now),
        i,
    ) by {
        assert(!gone_quiet(exchanges, readings, i));
        assert(exchanges.push(exchange).take(i) =~= exchanges.take(i));
        lemma_last_heard(exchanges.take(i));
    }
}

/// Bytes were last heard at one of the exchanges, or not at all.
proof fn lemma_last_heard(exchanges: Seq<Exchange>)
    ensures
        last_heard(exchanges) <= exchanges.len(),
    decreases exchanges.len(),
{
    if exchanges.len() > 0 {
        lemma_last_heard(exchanges.drop_last());
    }
}

/// **Law.** A transport that brings something whenever it is asked is waited
/// for, however little it brings and however long that takes.
pub proof fn law_dribble_is_waited_for(
    before: Moment,
    after: Moment,
    wanted: nat,
    outcome: ReadOutcome,
)
    requires
        receiving(before, after, wanted, outcome),
        wanted <= before.context.network.len(),
        wanted <= usize::MAX,
        forall|i: int|
            0 <= i < reader::since(before.wire, after.wire).len() ==> brought(
                #[trigger] reader::since(before.wire, after.wire)[i],
            ) > 0,
    ensures
        outcome == ReadOutcome::Bytes(wanted as usize),
{
    reveal(receiving);
    let exchanges = reader::since(before.wire, after.wire);
    if exchanges.len() > 0 {
        assert(brought(exchanges[exchanges.len() - 1]) > 0);
        assert(exchanges.take(exchanges.len() as int) =~= exchanges);
    }
}

/// One more exchange.
proof fn lemma_asked_push(
    network: Seq<u8>,
    exchanges: Seq<Exchange>,
    wanted: nat,
    exchange: Exchange,
)
    requires
        asked_in_turn(exchanges, wanted),
        arrived(exchanges, wanted) < wanted,
        exchange is Receive,
        brought_into(exchange).len() == wanted - arrived(exchanges, wanted),
    ensures
        asked_in_turn(exchanges.push(exchange), wanted),
        arrived(exchanges.push(exchange), wanted) == if arrived(exchanges, wanted) + brought(
            exchange,
        ) > wanted {
            wanted
        } else {
            (arrived(exchanges, wanted) + brought(exchange)) as nat
        },
        landed(network, exchanges.push(exchange), wanted) == wire::overwrite(
            landed(network, exchanges, wanted),
            arrived(exchanges, wanted) as int,
            brought_into(exchange),
        ),
        last_heard(exchanges.push(exchange)) == if brought(exchange) > 0 {
            exchanges.len() + 1
        } else {
            last_heard(exchanges)
        },
{
    let more = exchanges.push(exchange);
    assert(more.drop_last() =~= exchanges);
    assert forall|i: int| 0 <= i < more.len() implies #[trigger] asked_at(more, wanted, i) by {
        if i < exchanges.len() {
            assert(more.take(i) =~= exchanges.take(i));
            assert(asked_at(exchanges, wanted, i));
        } else {
            assert(more.take(i) =~= exchanges);
        }
    }
}

// ---------------------------------------------------------------------------
// The CONNACK
// ---------------------------------------------------------------------------

/// A property was present, by its [`field`] bit.
pub open spec fn present(fields: u32, bit: u32) -> bool {
    fields & (1u32 << bit) != 0
}

/// One value or the other.
pub open spec fn pick<A>(condition: bool, one: A, other: A) -> A {
    if condition {
        one
    } else {
        other
    }
}

/// What the client goes by after a CONNACK: what the broker said, and what held
/// before for everything it did not speak of.
pub open spec fn with_connack(properties: ConnectionProperties, connack: ConnAckModel) ->
    ConnectionProperties {
    let fields = connack.fields_present;
    let said = connack.server;
    let held = properties.server;
    ConnectionProperties {
        session_expiry: pick(
            present(fields, field::SESSION_EXPIRY_INTERVAL),
            said.session_expiry,
            properties.session_expiry,
        ),
        server: ServerLimits {
            receive_max: pick(
                present(fields, field::RECEIVE_MAXIMUM),
                said.receive_max,
                held.receive_max,
            ),
            max_qos: pick(present(fields, field::MAX_QOS), said.max_qos, held.max_qos),
            retain_available: pick(
                present(fields, field::RETAIN_AVAILABLE),
                said.retain_available,
                held.retain_available,
            ),
            max_packet_size: pick(
                present(fields, field::MAX_PACKET_SIZE),
                said.max_packet_size,
                held.max_packet_size,
            ),
            topic_alias_max: pick(
                present(fields, field::TOPIC_ALIAS_MAX),
                said.topic_alias_max,
                held.topic_alias_max,
            ),
            wildcard_available: pick(
                present(fields, field::WILDCARD_SUBSCRIPTION_AVAILABLE),
                said.wildcard_available,
                held.wildcard_available,
            ),
            subscription_id_available: pick(
                present(fields, field::SUBSCRIPTION_ID_AVAILABLE),
                said.subscription_id_available,
                held.subscription_id_available,
            ),
            shared_available: pick(
                present(fields, field::SHARED_SUBSCRIPTION_AVAILABLE),
                said.shared_available,
                held.shared_available,
            ),
            keep_alive: pick(
                present(fields, field::SERVER_KEEP_ALIVE),
                said.keep_alive,
                held.keep_alive,
            ),
        },
        ..properties
    }
}

/// **Law.** A CONNACK that says nothing changes nothing.
pub proof fn law_silent_connack(properties: ConnectionProperties, connack: ConnAckModel)
    requires
        connack.fields_present == 0,
    ensures
        with_connack(properties, connack) == properties,
{
    assert(forall|bit: u32| #[trigger] present(0, bit) == false) by {
        assert(forall|bit: u32| #[trigger] (0u32 & (1u32 << bit)) == 0) by (bit_vector);
    }
}

/// What the client tells the reader of a CONNACK.
pub open spec fn client_settings(properties: ConnectionProperties) -> ClientSettings {
    ClientSettings {
        max_packet_size: properties.client.max_packet_size,
        request_response_info: properties.client.request_response_info,
    }
}

/// What comes of a CONNACK that has arrived at the front of the network buffer:
/// the result, the context after, and whether the session was kept, if that
/// came to be known.
pub open spec fn connack_taken(context: ContextModel, remaining_length: u32, clean_session: bool) ->
    (Result<(), ClientError>, ContextModel, Option<bool>) {
    let arrived = PacketModel {
        packet_type: packet::CONNACK,
        claimed: remaining_length,
        data: context.network.take(remaining_length as int),
    };
    match connack::connack_of(arrived, client_settings(context.properties)) {
        Err(error) => (Err(client::from_connack(error)), context, None),
        Ok(connack) => {
            let after = ContextModel {
                properties: with_connack(context.properties, connack),
                ..context
            };
            let result = if clean_session && connack.session_present {
                Err(ClientError::BadResponse)
            } else if connack.reason_code != 0 {
                Err(ClientError::ServerRefused)
            } else {
                Ok(())
            };
            (result, after, Some(connack.session_present))
        },
    }
}

/// **Law.** A session that was asked to be fresh is accepted only if the broker
/// kept none, and one that was refused is not accepted.
pub proof fn law_clean_session_is_fresh(context: ContextModel, remaining_length: u32)
    ensures
        connack_taken(context, remaining_length, true).0 is Ok ==> connack_taken(
            context,
            remaining_length,
            true,
        ).2 == Some(false),
        forall|clean_session: bool|
            (#[trigger] connack_taken(context, remaining_length, clean_session)).0 is Ok ==> {
                let connack = connack::connack_of(
                    PacketModel {
                        packet_type: packet::CONNACK,
                        claimed: remaining_length,
                        data: context.network.take(remaining_length as int),
                    },
                    client_settings(context.properties),
                );
                connack is Ok && (connack->Ok_0).reason_code == 0
            },
{
}

/// A header was waited for. Nothing came at the first `silent` attempts.
///
/// With a timeout the clock is read once at the start and once behind each
/// attempt. Without one, the attempts are counted.
pub open spec fn header_awaited(
    before: Moment,
    after: Moment,
    timeout_ms: u32,
    silent: nat,
    header: Result<IncomingHeader, ReadError>,
) -> bool {
    let exchanges = reader::since(before.wire, after.wire);
    let readings = reader::since(before.ticks, after.ticks);
    let nothing = header == Err::<IncomingHeader, ReadError>(ReadError::NoDataAvailable);
    &&& after.context == before.context
    &&& reader::extends(before.wire, after.wire)
    &&& reader::extends(before.ticks, after.ticks)
    &&& silent < exchanges.len()
    &&& forall|i: int|
        0 <= i < silent ==> reader::asks_one(#[trigger] exchanges[i]) && reader::answer(
            exchanges[i],
        ) == Received::Nothing
    &&& reader::header_was_read(before.wire + exchanges.take(silent as int), after.wire, header)
    &&& if timeout_ms > 0 {
        &&& readings.len() == silent + 2
        &&& forall|i: int|
            0 < i <= silent ==> client::elapsed(#[trigger] readings[i], readings[0]) < timeout_ms
        &&& nothing ==> client::elapsed(readings.last(), readings[0]) >= timeout_ms || silent + 1
            == MAX_IDLE_POLLS
    } else {
        &&& readings.len() == 1
        &&& silent <= MAX_CONNACK_RECEIVE_RETRY_COUNT
        &&& nothing ==> silent == MAX_CONNACK_RECEIVE_RETRY_COUNT
    }
}

/// The rest of a CONNACK was read, with this result.
pub open spec fn connack_body_read(
    before: Moment,
    after: Moment,
    remaining_length: u32,
    result: Result<(), ClientError>,
) -> bool {
    if remaining_length > before.context.network.len() {
        after == before && result == Err::<(), ClientError>(ClientError::RecvFailed)
    } else {
        exists|outcome: ReadOutcome| #[trigger]
            receiving(before, after, remaining_length as nat, outcome) && result == if outcome
                == ReadOutcome::Bytes(remaining_length as usize) {
                Ok::<(), ClientError>(())
            } else {
                Err(ClientError::RecvFailed)
            }
    }
}

/// What happens once a header has come: at the moment `headed` there was one,
/// and the body was in at the moment `read`.
pub open spec fn connack_followed(
    headed: Moment,
    read: Moment,
    after: Moment,
    header: Result<IncomingHeader, ReadError>,
    clean_session: bool,
    session_present: Option<bool>,
    result: Result<(), ClientError>,
) -> bool {
    match header {
        Err(error) => {
            &&& after == headed
            &&& session_present is None
            &&& result == Err::<(), ClientError>(client::from_read(error))
        },
        Ok(header) => if header.packet_type != packet::CONNACK {
            &&& after == headed
            &&& session_present is None
            &&& result == Err::<(), ClientError>(ClientError::BadResponse)
        } else {
            ||| {
                &&& connack_body_read(
                    headed,
                    read,
                    header.remaining_length,
                    Err(ClientError::RecvFailed),
                )
                &&& after == read
                &&& session_present is None
                &&& result == Err::<(), ClientError>(ClientError::RecvFailed)
            }
            ||| {
                &&& connack_body_read(headed, read, header.remaining_length, Ok(()))
                &&& after == (Moment { context: after.context, ..read })
                &&& (result, after.context, session_present) == connack_taken(
                    read.context,
                    header.remaining_length,
                    clean_session,
                )
            }
        },
    }
}

/// A CONNACK was waited for and taken in.
pub open spec fn connack_received(
    before: Moment,
    after: Moment,
    timeout_ms: u32,
    clean_session: bool,
    session_present: Option<bool>,
    result: Result<(), ClientError>,
) -> bool {
    exists|
        headed: Moment,
        read: Moment,
        silent: nat,
        header: Result<IncomingHeader, ReadError>,
    |
        {
            &&& #[trigger] header_awaited(before, headed, timeout_ms, silent, header)
            &&& #[trigger] connack_followed(
                headed,
                read,
                after,
                header,
                clean_session,
                session_present,
                result,
            )
        }
}

/// Takes over what a CONNACK says.
pub fn apply_connack(properties: &mut ConnectionProperties, connack: &ConnAck<'_>)
    ensures
        *final(properties) == with_connack(*old(properties), connack@),
{
    let fields = connack.fields_present;
    if is_present(fields, field::SESSION_EXPIRY_INTERVAL) {
        properties.session_expiry = connack.server.session_expiry;
    }
    if is_present(fields, field::RECEIVE_MAXIMUM) {
        properties.server.receive_max = connack.server.receive_max;
    }
    if is_present(fields, field::MAX_QOS) {
        properties.server.max_qos = connack.server.max_qos;
    }
    if is_present(fields, field::RETAIN_AVAILABLE) {
        properties.server.retain_available = connack.server.retain_available;
    }
    if is_present(fields, field::MAX_PACKET_SIZE) {
        properties.server.max_packet_size = connack.server.max_packet_size;
    }
    if is_present(fields, field::TOPIC_ALIAS_MAX) {
        properties.server.topic_alias_max = connack.server.topic_alias_max;
    }
    if is_present(fields, field::WILDCARD_SUBSCRIPTION_AVAILABLE) {
        properties.server.wildcard_available = connack.server.wildcard_available;
    }
    if is_present(fields, field::SUBSCRIPTION_ID_AVAILABLE) {
        properties.server.subscription_id_available = connack.server.subscription_id_available;
    }
    if is_present(fields, field::SHARED_SUBSCRIPTION_AVAILABLE) {
        properties.server.shared_available = connack.server.shared_available;
    }
    if is_present(fields, field::SERVER_KEEP_ALIVE) {
        properties.server.keep_alive = connack.server.keep_alive;
    }
}

/// Whether a property was present.
fn is_present(fields: u32, bit: u32) -> (found: bool)
    requires
        bit < 32,
    ensures
        found == present(fields, bit),
{
    fields & (1u32 << bit) != 0
}

impl<'a> MqttContext<'a> {
    /// Reads the rest of a CONNACK.
    fn receive_connack_packet<T: Transport, C: Clock>(
        &mut self,
        transport: &mut T,
        clock: &mut C,
        remaining_length: u32,
    ) -> (result: Result<(), ClientError>)
        ensures
            connack_body_read(
                Moment::of(*old(self), *old(transport), *old(clock)),
                Moment::of(*final(self), *final(transport), *final(clock)),
                remaining_length,
                result,
            ),
    {
        let ghost before = Moment::of(*self, *transport, *clock);
        let wanted = remaining_length as usize;
        if wanted > self.network.len() {
            return Err(ClientError::RecvFailed);
        }
        let outcome = self.recv_exact(transport, clock, wanted);
        assert(receiving(
            before,
            Moment::of(*self, *transport, *clock),
            remaining_length as nat,
            outcome,
        ));
        match outcome {
            ReadOutcome::Bytes(got) => if got == wanted {
                Ok(())
            } else {
                Err(ClientError::RecvFailed)
            },
            ReadOutcome::Failed => Err(ClientError::RecvFailed),
        }
    }

    /// Waits for a header.
    fn await_header<T: Transport, C: Clock>(
        &mut self,
        transport: &mut T,
        clock: &mut C,
        timeout_ms: u32,
    ) -> (header: Result<IncomingHeader, ReadError>)
        ensures
            exists|silent: nat| #[trigger]
                header_awaited(
                    Moment::of(*old(self), *old(transport), *old(clock)),
                    Moment::of(*final(self), *final(transport), *final(clock)),
                    timeout_ms,
                    silent,
                    header,
                ),
            final(self)@ == old(self)@,
    {
        let ghost before = Moment::of(*self, *transport, *clock);
        let ghost mut silent: nat = 0;
        let ghost mut exchanges: Seq<Exchange> = Seq::empty();
        proof {
            reader::lemma_extends_self(before.wire);
            reader::lemma_extends_self(before.ticks);
        }
        let entry = clock.now_ms();
        proof {
            reader::lemma_extends(before.ticks, before.ticks, entry);
        }
        let mut attempts: u64 = 0;
        let mut loop_count: u16 = 0;
        loop
            invariant
                before == Moment::of(*old(self), *old(transport), *old(clock)),
                self@ == before.context,
                attempts == silent,
                attempts < MAX_IDLE_POLLS,
                timeout_ms == 0 ==> loop_count == silent && loop_count
                    <= MAX_CONNACK_RECEIVE_RETRY_COUNT,
                reader::extends(before.wire, transport.log()),
                exchanges == reader::since(before.wire, transport.log()),
                transport.log() == before.wire + exchanges,
                exchanges.len() == silent,
                forall|i: int|
                    0 <= i < silent ==> reader::asks_one(#[trigger] exchanges[i]) && reader::answer(
                        exchanges[i],
                    ) == Received::Nothing,
                reader::extends(before.ticks, clock.ticks()),
                reader::since(before.ticks, clock.ticks())[0] == entry,
                timeout_ms > 0 ==> reader::since(before.ticks, clock.ticks()).len() == silent + 1,
                timeout_ms == 0 ==> reader::since(before.ticks, clock.ticks()).len() == 1,
                timeout_ms > 0 ==> forall|i: int|
                    0 < i <= silent ==> client::elapsed(
                        #[trigger] reader::since(before.ticks, clock.ticks())[i],
                        entry,
                    ) < timeout_ms,
            decreases MAX_IDLE_POLLS - attempts,
        {
            let ghost log = transport.log();
            let header = read_header(transport);
            proof {
                lemma_attempt(before.wire, log, transport.log(), header);
            }
            let give_up = if timeout_ms > 0 {
                let ghost ticks = clock.ticks();
                let now = clock.now_ms();
                proof {
                    reader::lemma_extends(before.ticks, ticks, now);
                }
                elapsed_ms(now, entry) >= timeout_ms
            } else {
                let done = loop_count >= MAX_CONNACK_RECEIVE_RETRY_COUNT;
                done
            };
            let last_attempt = attempts == MAX_IDLE_POLLS - 1;
            let nothing = match header {
                Err(ReadError::NoDataAvailable) => true,
                _ => false,
            };
            if !nothing || give_up || last_attempt {
                assert(reader::since(before.wire, transport.log()).take(silent as int)
                    =~= exchanges);
                assert(header_awaited(
                    before,
                    Moment::of(*self, *transport, *clock),
                    timeout_ms,
                    silent,
                    header,
                ));
                return header;
            }
            if timeout_ms == 0 {
                loop_count += 1;
            }
            attempts += 1;
            proof {
                silent = silent + 1;
                exchanges = reader::since(before.wire, transport.log());
                assert(transport.log() =~= before.wire + exchanges);
            }
        }
    }

    /// Takes in a CONNACK that has arrived at the front of the network buffer.
    ///
    /// # Errors
    ///
    /// [`ClientError::BadParameter`] or [`ClientError::BadResponse`] if it
    /// cannot be read, [`ClientError::BadResponse`] if the broker kept a session
    /// that was to be fresh, and [`ClientError::ServerRefused`].
    pub fn take_connack(
        &mut self,
        remaining_length: u32,
        clean_session: bool,
        session_present: &mut bool,
    ) -> (result: Result<(), ClientError>)
        requires
            remaining_length <= old(self)@.network.len(),
        ensures
            ({
                let (expected, context, kept) = connack_taken(
                    old(self)@,
                    remaining_length,
                    clean_session,
                );
                &&& result == expected
                &&& final(self)@ == context
                &&& *final(session_present) == match kept {
                    Some(kept) => kept,
                    None => *old(session_present),
                }
            }),
    {
        let body = slice_subrange(self.network, 0, remaining_length as usize);
        assert(body@ =~= self.network@.take(remaining_length as int));
        let info = PacketInfo {
            packet_type: packet::CONNACK,
            remaining_length,
            remaining_data: body,
        };
        let settings = ClientSettings {
            max_packet_size: self.properties.client.max_packet_size,
            request_response_info: self.properties.client.request_response_info,
        };
        let connack = match deserialize_connack(&info, &settings) {
            Ok(connack) => connack,
            Err(error) => return Err(ClientError::from(error)),
        };
        *session_present = connack.session_present;
        apply_connack(&mut self.properties, &connack);
        if clean_session && connack.session_present {
            return Err(ClientError::BadResponse);
        }
        if connack.refused() {
            return Err(ClientError::ServerRefused);
        }
        Ok(())
    }

    /// Waits for a CONNACK and takes it in.
    fn receive_connack<T: Transport, C: Clock>(
        &mut self,
        transport: &mut T,
        clock: &mut C,
        timeout_ms: u32,
        clean_session: bool,
        session_present: &mut bool,
    ) -> (result: Result<(), ClientError>)
        ensures
            exists|kept: Option<bool>|
                {
                    &&& #[trigger] connack_received(
                        Moment::of(*old(self), *old(transport), *old(clock)),
                        Moment::of(*final(self), *final(transport), *final(clock)),
                        timeout_ms,
                        clean_session,
                        kept,
                        result,
                    )
                    &&& *final(session_present) == match kept {
                        Some(kept) => kept,
                        None => *old(session_present),
                    }
                },
    {
        let ghost before = Moment::of(*self, *transport, *clock);
        let header = self.await_header(transport, clock, timeout_ms);
        let ghost headed = Moment::of(*self, *transport, *clock);
        let ghost silent = choose|silent: nat| #[trigger]
            header_awaited(before, headed, timeout_ms, silent, header);
        assert(header_awaited(before, headed, timeout_ms, silent, header));
        let packet = match header {
            Ok(packet) => packet,
            Err(error) => {
                let error = ClientError::from(error);
                assert(connack_followed(
                    headed,
                    headed,
                    headed,
                    header,
                    clean_session,
                    None,
                    Err(error),
                ));
                assert(connack_received(before, headed, timeout_ms, clean_session, None, Err(error)));
                return Err(error);
            },
        };
        if packet.packet_type != packet::CONNACK {
            assert(connack_followed(
                headed,
                headed,
                headed,
                header,
                clean_session,
                None,
                Err(ClientError::BadResponse),
            ));
            assert(connack_received(
                before,
                headed,
                timeout_ms,
                clean_session,
                None,
                Err(ClientError::BadResponse),
            ));
            return Err(ClientError::BadResponse);
        }
        let body = self.receive_connack_packet(transport, clock, packet.remaining_length);
        let ghost read = Moment::of(*self, *transport, *clock);
        if body.is_err() {
            assert(connack_followed(
                headed,
                read,
                read,
                header,
                clean_session,
                None,
                Err(ClientError::RecvFailed),
            ));
            assert(connack_received(
                before,
                read,
                timeout_ms,
                clean_session,
                None,
                Err(ClientError::RecvFailed),
            ));
            return Err(ClientError::RecvFailed);
        }
        proof {
            lemma_receiving_keeps_size(headed, read, packet.remaining_length);
        }
        let result = self.take_connack(packet.remaining_length, clean_session, session_present);
        proof {
            let kept = connack_taken(read.context, packet.remaining_length, clean_session).2;
            let after = Moment::of(*self, *transport, *clock);
            assert(connack_followed(headed, read, after, header, clean_session, kept, result));
            assert(connack_received(before, after, timeout_ms, clean_session, kept, result));
        }
        result
    }
}

/// An attempt at a header that finds nothing is one exchange.
proof fn lemma_attempt(
    before: Seq<Exchange>,
    middle: Seq<Exchange>,
    after: Seq<Exchange>,
    header: Result<IncomingHeader, ReadError>,
)
    requires
        reader::extends(before, middle),
        reader::header_was_read(middle, after, header),
    ensures
        reader::extends(before, after),
        reader::since(before, after).len() > reader::since(before, middle).len(),
        reader::since(before, after).take(reader::since(before, middle).len() as int)
            == reader::since(before, middle),
        forall|i: int|
            0 <= i < reader::since(before, middle).len() ==> #[trigger] reader::since(
                before,
                after,
            )[i] == reader::since(before, middle)[i],
        header == Err::<IncomingHeader, ReadError>(ReadError::NoDataAvailable) ==> {
            &&& reader::since(before, after).len() == reader::since(before, middle).len() + 1
            &&& reader::asks_one(reader::since(before, after).last())
            &&& reader::answer(reader::since(before, after).last()) == Received::Nothing
        },
{
    reader::lemma_extends_on(before, middle, after);
    let attempt = reader::since(middle, after);
    let heard = reader::answers(attempt);
    assert(heard.len() == attempt.len());
    assert(heard[0] == reader::answer(attempt[0]));
    assert(reader::asks_one(attempt[0]));
    assert(reader::since(before, after).take(reader::since(before, middle).len() as int)
        =~= reader::since(before, middle));
}

/// Reading does not change how large the network buffer is.
proof fn lemma_receiving_keeps_size(before: Moment, after: Moment, remaining_length: u32)
    requires
        connack_body_read(before, after, remaining_length, Ok(())),
    ensures
        after.context.network.len() == before.context.network.len(),
        remaining_length <= after.context.network.len(),
{
    reveal(receiving);
    lemma_landed_size(
        before.context.network,
        reader::since(before.wire, after.wire),
        remaining_length as nat,
    );
}

/// What lands does not change how large the network buffer is.
proof fn lemma_landed_size(network: Seq<u8>, exchanges: Seq<Exchange>, wanted: nat)
    requires
        asked_in_turn(exchanges, wanted),
        wanted <= network.len(),
    ensures
        landed(network, exchanges, wanted).len() == network.len(),
    decreases exchanges.len(),
{
    if exchanges.len() > 0 {
        let before = exchanges.drop_last();
        assert forall|i: int| 0 <= i < before.len() implies #[trigger] asked_at(
            before,
            wanted,
            i,
        ) by {
            assert(asked_at(exchanges, wanted, i));
            assert(before.take(i) =~= exchanges.take(i));
        }
        lemma_landed_size(network, before, wanted);
        assert(asked_at(exchanges, wanted, exchanges.len() - 1));
        assert(exchanges.take(exchanges.len() - 1) =~= before);
    }
}

} // verus!
