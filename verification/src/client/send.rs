//! Putting bytes on the wire, and the two packets that are nothing but a few
//! bytes: PINGREQ and DISCONNECT.
//!
//! A transport may take less than it is offered. The rest is offered again
//! until it is taken, the transport fails, or the time is up.

use vstd::prelude::*;
use vstd::slice::slice_subrange;

use crate::client;
use crate::client::{
    elapsed_ms, ClientError, Clock, ConnectionStatus, ContextModel, Moment, MqttContext,
};
use crate::disconnect;
use crate::disconnect::{disconnect_packet_size, validate_outgoing_properties, DisconnectSize};
use crate::header::{encode_length, packet};
use crate::reader;
use crate::reader::{Exchange, Sent, Transport};
use crate::wire;
use crate::writer;
use crate::writer::{serialize_disconnect_fixed, PINGREQ};

verus! {

/// How long the client goes on offering what a transport does not take.
pub const SEND_TIMEOUT_MS: u32 = 20_000;

/// How often the client polls a transport that does nothing while the clock
/// stands still. The bound is there so that every wait ends; no machine polls so
/// often.
pub const MAX_IDLE_POLLS: u64 = 0xFFFF_FFFF_FFFF_FFFF;

/// What became of bytes that were sent.
#[derive(Debug, Clone, Copy, PartialEq, Eq, Structural)]
pub enum SendOutcome {
    /// This many were taken.
    Sent(usize),
    /// The transport failed.
    Failed,
}

// ---------------------------------------------------------------------------
// What is offered, and what is taken
// ---------------------------------------------------------------------------

impl Moment {
    /// The moment a context, its transport and its clock are in.
    pub open spec fn of<T: Transport, C: Clock>(
        context: MqttContext<'_>,
        transport: T,
        clock: C,
    ) -> Self {
        Moment { context: context@, wire: transport.log(), ticks: clock.ticks() }
    }
}

/// How many bytes an exchange says were taken.
pub open spec fn claimed(exchange: Exchange) -> int {
    match exchange {
        Exchange::Offer { bytes, took: Sent::Bytes(count) } => count as int,
        Exchange::OfferAll { parts, took: Sent::Bytes(count) } => count as int,
        _ => 0,
    }
}

/// How many bytes of `size` were taken in all. None is taken twice, whatever a
/// transport says.
pub open spec fn accepted(exchanges: Seq<Exchange>, size: nat) -> nat
    decreases exchanges.len(),
{
    if exchanges.len() == 0 {
        0
    } else {
        let before = accepted(exchanges.drop_last(), size);
        let count = claimed(exchanges.last());
        if before + count > size {
            size
        } else {
            (before + count) as nat
        }
    }
}

/// The exchange failed.
pub open spec fn failed(exchange: Exchange) -> bool {
    match exchange {
        Exchange::Receive { got, buffer } => got is Failed,
        Exchange::Offer { bytes, took } => took is Failed,
        Exchange::OfferAll { parts, took } => took is Failed,
    }
}

/// The exchange offers `rest`. With `gather`, it offers all of it in parts, or
/// the first of them that is not empty.
pub open spec fn offers(exchange: Exchange, rest: Seq<u8>, gather: bool) -> bool {
    match exchange {
        Exchange::Receive { got, buffer } => false,
        Exchange::Offer { bytes, took } => if gather {
            bytes.len() > 0 && bytes.is_prefix_of(rest)
        } else {
            bytes == rest
        },
        Exchange::OfferAll { parts, took } => gather && parts.flatten() == rest,
    }
}

/// An exchange offers what was not taken by those before it, and there was
/// something left to offer.
pub open spec fn offered_at(whole: Seq<u8>, exchanges: Seq<Exchange>, gather: bool, i: int) -> bool {
    let done = accepted(exchanges.take(i), whole.len());
    done < whole.len() && offers(exchanges[i], whole.skip(done as int), gather)
}

/// Each exchange offers what was not taken by those before it.
pub open spec fn in_turn(whole: Seq<u8>, exchanges: Seq<Exchange>, gather: bool) -> bool {
    forall|i: int| 0 <= i < exchanges.len() ==> #[trigger] offered_at(whole, exchanges, gather, i)
}

/// Where the connection stands after the transport failed.
pub open spec fn after_failure(status: ConnectionStatus) -> ConnectionStatus {
    match status {
        ConnectionStatus::Connected => ConnectionStatus::DisconnectPending,
        other => other,
    }
}

/// The reading of the clock that was taken when bytes were last taken. There is
/// one reading before the first exchange and one behind each.
pub open spec fn last_taken(exchanges: Seq<Exchange>) -> nat
    decreases exchanges.len(),
{
    if exchanges.len() == 0 {
        0
    } else if claimed(exchanges.last()) > 0 {
        exchanges.len()
    } else {
        last_taken(exchanges.drop_last())
    }
}

/// The time was up at one of these readings: so long after the first.
pub open spec fn time_is_up(readings: Seq<u32>, i: int) -> bool {
    client::elapsed(readings[i], readings[0]) >= SEND_TIMEOUT_MS
}

/// `whole` was sent, with this outcome.
///
/// The clock is read once at the start and once behind each exchange that does
/// not fail. What was not taken is offered again for as long as the time is not
/// up.
#[verifier::opaque]
pub open spec fn sending(
    before: Moment,
    after: Moment,
    whole: Seq<u8>,
    gather: bool,
    outcome: SendOutcome,
) -> bool {
    let exchanges = reader::since(before.wire, after.wire);
    let readings = reader::since(before.ticks, after.ticks);
    &&& reader::extends(before.wire, after.wire)
    &&& reader::extends(before.ticks, after.ticks)
    &&& in_turn(whole, exchanges, gather)
    &&& forall|i: int| 0 <= i < exchanges.len() - 1 ==> !failed(#[trigger] exchanges[i])
    &&& forall|i: int| 0 < i < exchanges.len() ==> !#[trigger] time_is_up(readings, i)
    &&& match outcome {
        SendOutcome::Failed => {
            &&& exchanges.len() > 0 && failed(exchanges.last())
            &&& readings.len() == exchanges.len()
        },
        SendOutcome::Sent(count) => {
            &&& exchanges.len() > 0 ==> !failed(exchanges.last())
            &&& readings.len() == exchanges.len() + 1
            &&& count == accepted(exchanges, whole.len())
            &&& count < whole.len() ==> exchanges.len() > 0 && (time_is_up(
                readings,
                exchanges.len() as int,
            ) || exchanges.len() - last_taken(exchanges) == MAX_IDLE_POLLS)
        },
    }
    &&& after.context == (ContextModel {
        status: if outcome is Failed {
            after_failure(before.context.status)
        } else {
            before.context.status
        },
        last_packet_tx_time: if last_taken(exchanges) == 0 {
            before.context.last_packet_tx_time
        } else {
            readings[last_taken(exchanges) as int]
        },
        ..before.context
    })
}

/// PINGREQ was sent, unless there is no connection to send it on. The client
/// waits for the answer from when the last byte went out.
pub open spec fn pinging(before: Moment, after: Moment, result: Result<(), ClientError>) -> bool {
    match client::connected_check(before.context.status) {
        Err(error) => after == before && result == Err::<(), ClientError>(error),
        Ok(()) => exists|sent: Moment, outcome: SendOutcome| #[trigger]
            sending(before, sent, PINGREQ@, false, outcome) && if outcome == SendOutcome::Sent(2) {
                &&& result == Ok::<(), ClientError>(())
                &&& after == (Moment {
                    context: ContextModel {
                        ping_req_send_time: sent.context.last_packet_tx_time,
                        waiting_for_ping_resp: true,
                        ..sent.context
                    },
                    ..sent
                })
            } else {
                result == Err::<(), ClientError>(ClientError::SendFailed) && after == sent
            },
    }
}

/// Whether a DISCONNECT with these parts may be sent, and how large it is.
pub open spec fn disconnect_check(
    context: ContextModel,
    reason_code: Option<u8>,
    properties: Seq<u8>,
) -> Result<DisconnectSize, ClientError> {
    if properties.len() > u32::MAX {
        Err(ClientError::BadParameter)
    } else {
        match disconnect::outgoing_check(properties, context.properties.session_expiry) {
            Err(error) => Err(client::from_disconnect(error)),
            Ok(()) => match disconnect::disconnect_size(
                reason_code,
                properties.len() as u32,
                context.properties.server.max_packet_size,
            ) {
                Err(error) => Err(client::from_disconnect(error)),
                Ok(size) => if context.status == ConnectionStatus::NotConnected {
                    Err(ClientError::NotConnected)
                } else {
                    Ok(size)
                },
            },
        }
    }
}

/// A DISCONNECT was sent, unless it may not be. Once it has gone out, there is
/// no connection.
pub open spec fn disconnecting(
    before: Moment,
    after: Moment,
    reason_code: Option<u8>,
    properties: Seq<u8>,
    result: Result<(), ClientError>,
) -> bool {
    match disconnect_check(before.context, reason_code, properties) {
        Err(error) => after == before && result == Err::<(), ClientError>(error),
        Ok(size) => exists|sent: Moment, outcome: SendOutcome| #[trigger]
            sending(
                before,
                sent,
                disconnect::disconnect_bytes(reason_code, properties, size.remaining_length),
                true,
                outcome,
            ) && if outcome == SendOutcome::Sent(size.packet_size as usize) {
                &&& result == Ok::<(), ClientError>(())
                &&& after == (Moment {
                    context: ContextModel {
                        status: ConnectionStatus::NotConnected,
                        ..sent.context
                    },
                    ..sent
                })
            } else {
                result == Err::<(), ClientError>(ClientError::SendFailed) && after == sent
            },
    }
}

/// What sending leaves alone.
pub proof fn lemma_sending_keeps(
    before: Moment,
    after: Moment,
    whole: Seq<u8>,
    gather: bool,
    outcome: SendOutcome,
)
    requires
        sending(before, after, whole, gather, outcome),
    ensures
        reader::extends(before.wire, after.wire),
        reader::extends(before.ticks, after.ticks),
        after.context == (ContextModel {
            status: if outcome is Failed {
                after_failure(before.context.status)
            } else {
                before.context.status
            },
            last_packet_tx_time: after.context.last_packet_tx_time,
            ..before.context
        }),
{
    reveal(sending);
}

/// Sending does not look at the room for the properties of acknowledgements.
pub proof fn lemma_sending_without_room(
    before: Moment,
    after: Moment,
    whole: Seq<u8>,
    gather: bool,
    outcome: SendOutcome,
    room: Seq<u8>,
)
    requires
        sending(before, after, whole, gather, outcome),
    ensures
        sending(
            Moment {
                context: ContextModel { ack_properties: room, ..before.context },
                ..before
            },
            Moment { context: ContextModel { ack_properties: room, ..after.context }, ..after },
            whole,
            gather,
            outcome,
        ),
{
    reveal(sending);
}

/// **Law.** A transport that takes all it is offered at once gets everything in
/// one call.
pub proof fn law_sent_at_once(
    before: Moment,
    after: Moment,
    whole: Seq<u8>,
    outcome: SendOutcome,
)
    requires
        sending(before, after, whole, false, outcome),
        whole.len() > 0,
        whole.len() <= usize::MAX,
        reader::since(before.wire, after.wire).len() > 0,
        claimed(reader::since(before.wire, after.wire)[0]) >= whole.len(),
    ensures
        outcome == SendOutcome::Sent(whole.len() as usize),
        after.wire == before.wire.push(
            Exchange::Offer { bytes: whole, took: (after.wire.last())->Offer_took },
        ),
{
    reveal(sending);
    let exchanges = reader::since(before.wire, after.wire);
    assert(exchanges.take(0) =~= Seq::<Exchange>::empty());
    assert(whole.skip(0) =~= whole);
    assert(offered_at(whole, exchanges, false, 0));
    assert(exchanges.take(1).drop_last() =~= exchanges.take(0));
    assert(accepted(exchanges.take(1), whole.len()) == whole.len());
    if exchanges.len() > 1 {
        assert(offered_at(whole, exchanges, false, 1));
    }
    assert(exchanges =~= exchanges.take(1));
    assert(after.wire =~= before.wire.push(exchanges[0])) by {
        assert(before.wire =~= after.wire.take(before.wire.len() as int));
    }
}

/// One more exchange.
proof fn lemma_in_turn_push(
    whole: Seq<u8>,
    exchanges: Seq<Exchange>,
    exchange: Exchange,
    gather: bool,
)
    requires
        in_turn(whole, exchanges, gather),
        accepted(exchanges, whole.len()) < whole.len(),
        offers(exchange, whole.skip(accepted(exchanges, whole.len()) as int), gather),
    ensures
        in_turn(whole, exchanges.push(exchange), gather),
        last_taken(exchanges.push(exchange)) == if claimed(exchange) > 0 {
            exchanges.len() + 1
        } else {
            last_taken(exchanges)
        },
        accepted(exchanges.push(exchange), whole.len()) == if accepted(exchanges, whole.len())
            + claimed(exchange) > whole.len() {
            whole.len()
        } else {
            (accepted(exchanges, whole.len()) + claimed(exchange)) as nat
        },
{
    let more = exchanges.push(exchange);
    assert(more.drop_last() =~= exchanges);
    assert forall|i: int| 0 <= i < more.len() implies #[trigger] offered_at(
        whole,
        more,
        gather,
        i,
    ) by {
        if i < exchanges.len() {
            assert(more.take(i) =~= exchanges.take(i));
            assert(offered_at(whole, exchanges, gather, i));
        } else {
            assert(more.take(i) =~= exchanges);
        }
    }
}

/// The parts from one on, joined.
pub open spec fn from_part(parts: Seq<&[u8]>, first: int) -> Seq<u8> {
    reader::contents(parts.skip(first)).flatten()
}

/// The parts from one on are that one, and the parts behind it.
proof fn lemma_from_part(parts: Seq<&[u8]>, first: int)
    requires
        0 <= first <= parts.len(),
    ensures
        first < parts.len() ==> from_part(parts, first) == parts[first]@ + from_part(
            parts,
            first + 1,
        ),
        first == parts.len() ==> from_part(parts, first) == Seq::<u8>::empty(),
{
    let rest = reader::contents(parts.skip(first));
    if first < parts.len() {
        assert(rest.drop_first() =~= reader::contents(parts.skip(first + 1)));
        assert(rest.first() == parts[first]@);
    }
}

/// Parts that are empty add nothing.
proof fn lemma_empty_parts(parts: Seq<&[u8]>, first: int)
    requires
        0 <= first <= parts.len(),
        forall|i: int| 0 <= i < first ==> (#[trigger] parts[i])@.len() == 0,
    ensures
        from_part(parts, 0) == from_part(parts, first),
    decreases first,
{
    if first > 0 {
        lemma_empty_parts(parts, first - 1);
        lemma_from_part(parts, first - 1);
        assert(parts[first - 1]@ + from_part(parts, first) =~= from_part(parts, first));
    }
}

/// Takes `count` bytes off the front of the parts, and passes over empty ones.
fn advance(parts: &mut [&[u8]], first: usize, count: usize) -> (next: usize)
    requires
        first <= old(parts)@.len(),
        count <= from_part(old(parts)@, first as int).len(),
        forall|i: int| 0 <= i < first ==> (#[trigger] old(parts)@[i])@.len() == 0,
    ensures
        final(parts)@.len() == old(parts)@.len(),
        first <= next <= final(parts)@.len(),
        from_part(final(parts)@, next as int) == from_part(old(parts)@, first as int).skip(
            count as int,
        ),
        forall|i: int| 0 <= i < next ==> (#[trigger] final(parts)@[i])@.len() == 0,
        next < final(parts)@.len() ==> final(parts)@[next as int]@.len() > 0,
{
    let ghost target = from_part(parts@, first as int).skip(count as int);
    let mut next: usize = first;
    let mut left: usize = count;
    while next < parts.len()
        invariant
            parts@.len() == old(parts)@.len(),
            first <= next <= parts@.len(),
            left <= from_part(parts@, next as int).len(),
            from_part(parts@, next as int).skip(left as int) == target,
            target == from_part(old(parts)@, first as int).skip(count as int),
            forall|i: int| 0 <= i < next ==> (#[trigger] parts@[i])@.len() == 0,
        decreases parts@.len() - next,
    {
        proof {
            lemma_from_part(parts@, next as int);
        }
        let ghost before = parts@;
        let part = parts[next];
        let size = part.len();
        if left < size {
            parts[next] = slice_subrange(part, left, size);
            proof {
                lemma_from_part(parts@, next as int);
                assert(parts@.skip(next + 1) =~= before.skip(next + 1));
                assert(from_part(before, next as int).skip(left as int) =~= from_part(
                    parts@,
                    next as int,
                ));
            }
            return next;
        }
        parts[next] = slice_subrange(part, size, size);
        assert(parts@.skip(next + 1) =~= before.skip(next + 1));
        assert(from_part(before, next as int).skip(left as int) =~= from_part(
            parts@,
            next + 1,
        ).skip(left - size));
        left = left - size;
        next = next + 1;
    }
    proof {
        lemma_from_part(parts@, next as int);
        assert(from_part(parts@, next as int).skip(left as int) =~= from_part(parts@, next as int));
    }
    next
}

impl<'a> MqttContext<'a> {
    /// The transport failed.
    pub(crate) fn note_failure(&mut self)
        ensures
            final(self)@ == (ContextModel {
                status: after_failure(old(self)@.status),
                ..old(self)@
            }),
    {
        if self.connect_status == ConnectionStatus::Connected {
            self.connect_status = ConnectionStatus::DisconnectPending;
        }
    }

    /// Sends bytes.
    pub fn send_buffer<T: Transport, C: Clock>(
        &mut self,
        transport: &mut T,
        clock: &mut C,
        bytes: &[u8],
    ) -> (outcome: SendOutcome)
        ensures
            sending(
                Moment::of(*old(self), *old(transport), *old(clock)),
                Moment::of(*final(self), *final(transport), *final(clock)),
                bytes@,
                false,
                outcome,
            ),
    {
        let ghost before = Moment::of(*self, *transport, *clock);
        let ghost mut exchanges: Seq<Exchange> = Seq::empty();
        proof {
            reveal(sending);
            reader::lemma_extends_self(before.wire);
            reader::lemma_extends_self(before.ticks);
        }
        let mut sent: usize = 0;
        let mut polls: u64 = 0;
        let start = clock.now_ms();
        proof {
            reader::lemma_extends(before.ticks, before.ticks, start);
        }
        while sent < bytes.len()
            invariant
                before == Moment::of(*old(self), *old(transport), *old(clock)),
                sent <= bytes@.len(),
                polls == exchanges.len() - last_taken(exchanges),
                polls < MAX_IDLE_POLLS,
                reader::extends(before.wire, transport.log()),
                exchanges == reader::since(before.wire, transport.log()),
                reader::extends(before.ticks, clock.ticks()),
                reader::since(before.ticks, clock.ticks()).len() == exchanges.len() + 1,
                reader::since(before.ticks, clock.ticks())[0] == start,
                forall|i: int|
                    0 < i <= exchanges.len() && sent < bytes@.len() ==> !#[trigger] time_is_up(
                        reader::since(before.ticks, clock.ticks()),
                        i,
                    ),
                forall|i: int|
                    0 < i < exchanges.len() ==> !#[trigger] time_is_up(
                        reader::since(before.ticks, clock.ticks()),
                        i,
                    ),
                last_taken(exchanges) <= exchanges.len(),
                in_turn(bytes@, exchanges, false),
                sent == accepted(exchanges, bytes@.len()),
                forall|i: int| 0 <= i < exchanges.len() ==> !failed(#[trigger] exchanges[i]),
                self@ == (ContextModel {
                    last_packet_tx_time: if last_taken(exchanges) == 0 {
                        before.context.last_packet_tx_time
                    } else {
                        reader::since(before.ticks, clock.ticks())[last_taken(exchanges) as int]
                    },
                    ..before.context
                }),
            decreases bytes@.len() - sent, MAX_IDLE_POLLS - polls,
        {
            proof {
                reveal(sending);
            }
            let ghost log = transport.log();
            let rest = slice_subrange(bytes, sent, bytes.len());
            let took = transport.send(rest);
            proof {
                let exchange = Exchange::Offer { bytes: rest@, took };
                reader::lemma_extends(before.wire, log, exchange);
                assert(rest@ =~= bytes@.skip(sent as int));
                lemma_in_turn_push(bytes@, exchanges, exchange, false);
                exchanges = exchanges.push(exchange);
            }
            if let Sent::Failed = took {
                self.note_failure();
                assert(claimed(exchanges.last()) == 0);
                return SendOutcome::Failed;
            }
            let ghost ticks = clock.ticks();
            let now = clock.now_ms();
            proof {
                reader::lemma_extends(before.ticks, ticks, now);
                lemma_not_up_before(reader::since(before.ticks, ticks), now);
            }
            polls += 1;
            if let Sent::Bytes(count) = took {
                if count > 0 {
                    sent = if count > bytes.len() - sent {
                        bytes.len()
                    } else {
                        sent + count
                    };
                    self.last_packet_tx_time = now;
                    polls = 0;
                }
            }
            if sent < bytes.len() {
                if elapsed_ms(now, start) >= SEND_TIMEOUT_MS || polls == MAX_IDLE_POLLS {
                    return SendOutcome::Sent(sent);
                }
            }
        }
        SendOutcome::Sent(sent)
    }

    /// Sends the bytes of several buffers, one behind the other. What is left in
    /// the buffers afterwards was not taken.
    pub fn send_vectors<T: Transport, C: Clock>(
        &mut self,
        transport: &mut T,
        clock: &mut C,
        parts: &mut [&[u8]],
    ) -> (outcome: SendOutcome)
        requires
            reader::contents(old(parts)@).flatten().len() <= usize::MAX,
        ensures
            sending(
                Moment::of(*old(self), *old(transport), *old(clock)),
                Moment::of(*final(self), *final(transport), *final(clock)),
                reader::contents(old(parts)@).flatten(),
                true,
                outcome,
            ),
            final(parts)@.len() == old(parts)@.len(),
            reader::contents(final(parts)@).flatten() == reader::contents(
                old(parts)@,
            ).flatten().skip(
                accepted(
                    reader::since(old(transport).log(), final(transport).log()),
                    reader::contents(old(parts)@).flatten().len(),
                ) as int,
            ),
    {
        let ghost before = Moment::of(*self, *transport, *clock);
        let ghost whole = reader::contents(parts@).flatten();
        let ghost mut exchanges: Seq<Exchange> = Seq::empty();
        proof {
            reveal(sending);
            assert(parts@.skip(0) =~= parts@);
            reader::lemma_extends_self(before.wire);
            reader::lemma_extends_self(before.ticks);
            assert(whole.skip(0) =~= whole);
        }
        let total = total_of(parts);
        let mut first = advance(parts, 0, 0);
        let mut sent: usize = 0;
        let mut polls: u64 = 0;
        let start = clock.now_ms();
        proof {
            reader::lemma_extends(before.ticks, before.ticks, start);
        }
        while sent < total
            invariant
                before == Moment::of(*old(self), *old(transport), *old(clock)),
                whole == reader::contents(old(parts)@).flatten(),
                total == whole.len(),
                sent <= total,
                polls == exchanges.len() - last_taken(exchanges),
                polls < MAX_IDLE_POLLS,
                parts@.len() == old(parts)@.len(),
                first <= parts@.len(),
                from_part(parts@, first as int) == whole.skip(sent as int),
                forall|i: int| 0 <= i < first ==> (#[trigger] parts@[i])@.len() == 0,
                first < parts@.len() ==> parts@[first as int]@.len() > 0,
                reader::extends(before.wire, transport.log()),
                exchanges == reader::since(before.wire, transport.log()),
                reader::extends(before.ticks, clock.ticks()),
                reader::since(before.ticks, clock.ticks()).len() == exchanges.len() + 1,
                reader::since(before.ticks, clock.ticks())[0] == start,
                forall|i: int|
                    0 < i <= exchanges.len() && sent < total ==> !#[trigger] time_is_up(
                        reader::since(before.ticks, clock.ticks()),
                        i,
                    ),
                forall|i: int|
                    0 < i < exchanges.len() ==> !#[trigger] time_is_up(
                        reader::since(before.ticks, clock.ticks()),
                        i,
                    ),
                last_taken(exchanges) <= exchanges.len(),
                in_turn(whole, exchanges, true),
                sent == accepted(exchanges, whole.len()),
                forall|i: int| 0 <= i < exchanges.len() ==> !failed(#[trigger] exchanges[i]),
                self@ == (ContextModel {
                    last_packet_tx_time: if last_taken(exchanges) == 0 {
                        before.context.last_packet_tx_time
                    } else {
                        reader::since(before.ticks, clock.ticks())[last_taken(exchanges) as int]
                    },
                    ..before.context
                }),
            decreases total - sent, MAX_IDLE_POLLS - polls,
        {
            let ghost log = transport.log();
            proof {
                reveal(sending);
                lemma_from_part(parts@, first as int);
                lemma_empty_parts(parts@, first as int);
                assert(parts@.skip(0) =~= parts@);
            }
            let rest = slice_subrange(parts, first, parts.len());
            assert(rest@ =~= parts@.skip(first as int));
            let took = transport.writev(rest);
            proof {
                let exchange = transport.log().last();
                assert(transport.log() =~= log.push(exchange));
                reader::lemma_extends(before.wire, log, exchange);
                assert(rest@[0]@.is_prefix_of(whole.skip(sent as int))) by {
                    assert(rest@[0]@ =~= whole.skip(sent as int).take(rest@[0]@.len() as int));
                }
                lemma_in_turn_push(whole, exchanges, exchange, true);
                exchanges = exchanges.push(exchange);
            }
            if let Sent::Failed = took {
                self.note_failure();
                assert(claimed(exchanges.last()) == 0);
                return SendOutcome::Failed;
            }
            let ghost ticks = clock.ticks();
            let now = clock.now_ms();
            proof {
                reader::lemma_extends(before.ticks, ticks, now);
                lemma_not_up_before(reader::since(before.ticks, ticks), now);
            }
            polls += 1;
            if let Sent::Bytes(count) = took {
                if count > 0 {
                    let taken: usize = if count > total - sent {
                        total - sent
                    } else {
                        count
                    };
                    assert(whole.skip(sent as int).skip(taken as int) =~= whole.skip(sent + taken));
                    first = advance(parts, first, taken);
                    sent = sent + taken;
                    self.last_packet_tx_time = now;
                    polls = 0;
                }
            }
            proof {
                lemma_empty_parts(parts@, first as int);
                assert(parts@.skip(0) =~= parts@);
            }
            if sent < total {
                if elapsed_ms(now, start) >= SEND_TIMEOUT_MS || polls == MAX_IDLE_POLLS {
                    return SendOutcome::Sent(sent);
                }
            }
        }
        proof {
            lemma_empty_parts(parts@, first as int);
            assert(parts@.skip(0) =~= parts@);
        }
        SendOutcome::Sent(sent)
    }

    /// Sends a PINGREQ.
    ///
    /// # Errors
    ///
    /// What the connection says if it is not up, or [`ClientError::SendFailed`].
    pub fn ping<T: Transport, C: Clock>(&mut self, transport: &mut T, clock: &mut C) -> (result:
        Result<(), ClientError>)
        ensures
            pinging(
                Moment::of(*old(self), *old(transport), *old(clock)),
                Moment::of(*final(self), *final(transport), *final(clock)),
                result,
            ),
    {
        let ghost before = Moment::of(*self, *transport, *clock);
        match self.connected() {
            Ok(()) => {},
            Err(error) => return Err(error),
        }
        let outcome = self.send_buffer(transport, clock, &PINGREQ);
        let ghost sent = Moment::of(*self, *transport, *clock);
        assert(sending(before, sent, PINGREQ@, false, outcome));
        match outcome {
            SendOutcome::Sent(2) => {},
            _ => return Err(ClientError::SendFailed),
        }
        self.ping_req_send_time = self.last_packet_tx_time;
        self.waiting_for_ping_resp = true;
        Ok(())
    }

    /// Sends a DISCONNECT, and drops the connection.
    ///
    /// # Errors
    ///
    /// [`ClientError::BadParameter`] or [`ClientError::BadResponse`] if the
    /// reason code or the properties may not be sent,
    /// [`ClientError::NotConnected`] if there is no connection to drop, or
    /// [`ClientError::SendFailed`].
    pub fn disconnect<T: Transport, C: Clock>(
        &mut self,
        transport: &mut T,
        clock: &mut C,
        reason_code: Option<u8>,
        properties: &[u8],
    ) -> (result: Result<(), ClientError>)
        ensures
            disconnecting(
                Moment::of(*old(self), *old(transport), *old(clock)),
                Moment::of(*final(self), *final(transport), *final(clock)),
                reason_code,
                properties@,
                result,
            ),
    {
        let ghost before = Moment::of(*self, *transport, *clock);
        match validate_outgoing_properties(self.properties.session_expiry, properties) {
            Ok(()) => {},
            Err(error) => return Err(ClientError::from(error)),
        }
        let size = match disconnect_packet_size(
            reason_code,
            properties.len() as u32,
            self.properties.server.max_packet_size,
        ) {
            Ok(size) => size,
            Err(error) => return Err(ClientError::from(error)),
        };
        if self.connect_status == ConnectionStatus::NotConnected {
            return Err(ClientError::NotConnected);
        }
        let mut fixed = [0u8; 6];
        proof {
            lemma_disconnect_parts(
                fixed@,
                reason_code,
                properties@,
                self.properties.server.max_packet_size,
                size,
            );
        }
        let written = serialize_disconnect_fixed(&mut fixed, reason_code, size.remaining_length);
        let mut length_field = [0u8; 4];
        let length_written = encode_length(&mut length_field, properties.len() as u32);
        let mut parts: [&[u8]; 3] = [
            slice_subrange(&fixed, 0, written),
            slice_subrange(&length_field, 0, length_written),
            properties,
        ];
        proof {
            lemma_three_parts(parts@);
            assert(fixed@.subrange(0, written as int) =~= fixed@.take(written as int));
            assert(reader::contents(parts@).flatten() =~= disconnect::disconnect_bytes(
                reason_code,
                properties@,
                size.remaining_length,
            ));
        }
        let outcome = self.send_vectors(transport, clock, &mut parts);
        let ghost sent = Moment::of(*self, *transport, *clock);
        assert(disconnect_check(before.context, reason_code, properties@)->Ok_0 == size);
        assert(sending(
            before,
            sent,
            disconnect::disconnect_bytes(reason_code, properties@, size.remaining_length),
            true,
            outcome,
        ));
        match outcome {
            SendOutcome::Sent(count) => {
                if count != size.packet_size as usize {
                    return Err(ClientError::SendFailed);
                }
            },
            SendOutcome::Failed => return Err(ClientError::SendFailed),
        }
        self.connect_status = ConnectionStatus::NotConnected;
        Ok(())
    }
}

/// A further reading changes nothing about those before it.
proof fn lemma_not_up_before(readings: Seq<u32>, now: u32)
    requires
        readings.len() > 0,
        forall|i: int| 0 < i < readings.len() ==> !#[trigger] time_is_up(readings, i),
    ensures
        forall|i: int| 0 < i < readings.len() ==> !#[trigger] time_is_up(readings.push(now), i),
        readings.push(now)[0] == readings[0],
{
    assert forall|i: int| 0 < i < readings.len() implies !#[trigger] time_is_up(
        readings.push(now),
        i,
    ) by {
        assert(!time_is_up(readings, i));
    }
}

/// How many bytes there are in several buffers.
pub(crate) fn total_of(parts: &[&[u8]]) -> (total: usize)
    requires
        reader::contents(parts@).flatten().len() <= usize::MAX,
    ensures
        total == reader::contents(parts@).flatten().len(),
{
    let mut total: usize = 0;
    let mut i: usize = 0;
    assert(parts@.skip(0) =~= parts@);
    while i < parts.len()
        invariant
            i <= parts@.len(),
            total + from_part(parts@, i as int).len() == reader::contents(parts@).flatten().len(),
            reader::contents(parts@).flatten().len() <= usize::MAX,
        decreases parts@.len() - i,
    {
        proof {
            lemma_from_part(parts@, i as int);
        }
        total = total + parts[i].len();
        i += 1;
    }
    proof {
        lemma_from_part(parts@, i as int);
    }
    total
}

/// Three parts, joined.
pub proof fn lemma_three_parts(parts: Seq<&[u8]>)
    requires
        parts.len() == 3,
    ensures
        reader::contents(parts).flatten() == parts[0]@ + parts[1]@ + parts[2]@,
{
    assert(parts.skip(0) =~= parts);
    lemma_from_part(parts, 0);
    lemma_from_part(parts, 1);
    lemma_from_part(parts, 2);
    lemma_from_part(parts, 3);
    assert(parts[0]@ + (parts[1]@ + (parts[2]@ + Seq::<u8>::empty())) =~= parts[0]@ + parts[1]@
        + parts[2]@);
}

/// The front of a DISCONNECT that may be sent fits its six bytes, and the parts
/// make up the packet.
proof fn lemma_disconnect_parts(
    buffer: Seq<u8>,
    reason_code: Option<u8>,
    properties: Seq<u8>,
    max_packet_size: u32,
    size: DisconnectSize,
)
    requires
        buffer.len() == 6,
        properties.len() <= u32::MAX,
        disconnect::disconnect_size(reason_code, properties.len() as u32, max_packet_size) == Ok::<
            DisconnectSize,
            disconnect::DisconnectError,
        >(size),
    ensures
        ({
            let bytes = writer::fixed_bytes(
                packet::DISCONNECT,
                size.remaining_length,
                disconnect::reason_field(reason_code),
            );
            let (written, after) = writer::fixed_written(
                buffer,
                packet::DISCONNECT,
                size.remaining_length,
                disconnect::reason_field(reason_code),
            );
            &&& properties.len() <= wire::LARGEST_LENGTH
            &&& after.take(written) == bytes
            &&& written == bytes.len()
            &&& 0 < written <= 6
            &&& size.packet_size == bytes.len() + wire::section_bytes(properties).len()
        }),
{
    wire::lemma_length_bytes_len(size.remaining_length as nat);
    wire::lemma_length_bytes_len(properties.len());
    writer::law_fixed_whole_or_nothing(
        buffer,
        packet::DISCONNECT,
        size.remaining_length,
        disconnect::reason_field(reason_code),
    );
}

} // verus!
