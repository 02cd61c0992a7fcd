//! Answering a publish, or one of its acknowledgements, with the next
//! acknowledgement.
//!
//! An acknowledgement that the application has nothing to add to is four bytes.
//! One with a reason code or properties is sent in parts. Either way a copy of a
//! PUBREC or a PUBREL is stored before it is sent, because it may have to be
//! sent again.

use vstd::prelude::*;
use vstd::slice::slice_subrange;

use crate::client;
use crate::client::send;
use crate::client::send::SendOutcome;
use crate::client::{
    incoming_key, ClientError, Clock, ContextModel, Keeping, Moment, MqttContext, Store,
};
use crate::header;
use crate::header::{encode_length, packet};
use crate::outbound;
use crate::outbound::serialize_ack;
use crate::reader;
use crate::reader::Transport;
use crate::session::resume;
use crate::session::resume::ack_from_packet_type;
use crate::size;
use crate::size::ack_packet_size;
use crate::state::PublishState;
use crate::validate;
use crate::validate::validate_publish_ack_properties;
use crate::wire;
use crate::writer;
use crate::writer::serialize_ack_fixed;

verus! {

/// What an acknowledgement is to say: a reason code, and so many bytes of
/// properties.
#[derive(Debug, Clone, Copy, PartialEq, Eq, Structural)]
pub struct Reply {
    /// The reason code, if there is one.
    pub reason_code: Option<u8>,
    /// How many bytes of properties wait.
    pub property_length: usize,
}

/// A copy is stored before it is sent: of every acknowledgement that is itself
/// acknowledged.
pub open spec fn keeps_copy(packet_type: u8) -> bool {
    packet_type != packet::PUBACK && packet_type != packet::PUBCOMP
}

/// A copy was stored, if one is to be and there is a store.
pub open spec fn copied(
    before: Option<Seq<Keeping>>,
    after: Option<Seq<Keeping>>,
    packet_type: u8,
    packet_id: u16,
    parts: Seq<Seq<u8>>,
    kept: bool,
) -> bool {
    if keeps_copy(packet_type) && before is Some {
        after == Some(
            before->0.push(Keeping::Store { key: client::ack_key(packet_id), parts, kept }),
        )
    } else {
        after == before && kept
    }
}

/// What happens to an acknowledgement once it is ready: it is copied, sent and
/// noted. `whole` is its bytes, `parts` how they are handed over.
pub open spec fn ack_posted(
    before: Moment,
    after: Moment,
    kept_before: Option<Seq<Keeping>>,
    kept_after: Option<Seq<Keeping>>,
    packet_type: u8,
    packet_id: u16,
    parts: Seq<Seq<u8>>,
    gather: bool,
    result: Result<(), ClientError>,
) -> bool {
    let whole = parts.flatten();
    ||| {
        &&& copied(kept_before, kept_after, packet_type, packet_id, parts, false)
        &&& after == before
        &&& result == Err::<(), ClientError>(ClientError::PublishStoreFailed)
    }
    ||| {
        &&& copied(kept_before, kept_after, packet_type, packet_id, parts, true)
        &&& exists|sent: Moment, outcome: SendOutcome| #[trigger]
            send::sending(before, sent, whole, gather, outcome) && if outcome == SendOutcome::Sent(
                whole.len() as usize,
            ) {
                let (noted, context) = resume::ack_noted(
                    sent.context,
                    packet_id,
                    resume::ack_meant(packet_type)->0,
                );
                result == noted && after == (Moment { context, ..sent })
            } else {
                result == Err::<(), ClientError>(ClientError::SendFailed) && after == sent
            }
    }
}

/// An acknowledgement was copied, and handed over in parts.
pub open spec fn ack_handed_over(
    before: Moment,
    after: Moment,
    kept_before: Option<Seq<Keeping>>,
    kept_after: Option<Seq<Keeping>>,
    packet_type: u8,
    packet_id: u16,
    parts: Seq<Seq<u8>>,
    result: Result<(), ClientError>,
) -> bool {
    let whole = parts.flatten();
    ||| {
        &&& copied(kept_before, kept_after, packet_type, packet_id, parts, false)
        &&& after == before
        &&& result == Err::<(), ClientError>(ClientError::PublishStoreFailed)
    }
    ||| {
        &&& copied(kept_before, kept_after, packet_type, packet_id, parts, true)
        &&& exists|outcome: SendOutcome| #[trigger]
            send::sending(before, after, whole, true, outcome) && result == if outcome
                == SendOutcome::Sent(whole.len() as usize) {
                Ok::<(), ClientError>(())
            } else {
                Err(ClientError::SendFailed)
            }
    }
}

/// Whether an acknowledgement of four bytes may be sent.
pub open spec fn plain_ack_check(context: ContextModel, packet_id: u16) -> Result<(), ClientError> {
    if packet_id == 0 || context.properties.server.max_packet_size < 4 {
        Err(ClientError::BadParameter)
    } else {
        client::connected_check(context.status)
    }
}

/// The acknowledgement that a state asks for was sent, with nothing added.
pub open spec fn plain_ack_sent(
    before: Moment,
    after: Moment,
    kept_before: Option<Seq<Keeping>>,
    kept_after: Option<Seq<Keeping>>,
    packet_id: u16,
    state: PublishState,
    result: Result<(), ClientError>,
) -> bool {
    let packet_type = resume::ack_type(state);
    if packet_type == 0 {
        after == before && kept_after == kept_before && result == Ok::<(), ClientError>(())
    } else {
        match plain_ack_check(before.context, packet_id) {
            Err(error) => {
                &&& after == before
                &&& kept_after == kept_before
                &&& result == Err::<(), ClientError>(error)
            },
            Ok(()) => ack_posted(
                before,
                after,
                kept_before,
                kept_after,
                packet_type,
                packet_id,
                seq![outbound::simple_ack_bytes(packet_type, packet_id)],
                false,
                result,
            ),
        }
    }
}

/// An acknowledgement may carry this reason code. One has to be given.
pub open spec fn reason_code_fits(reason_code: Option<u8>, packet_type: u8) -> bool {
    reason_code matches Some(code) && {
        ||| code == 0x00
        ||| (code == 0x10 || code == 0x80 || code == 0x83 || code == 0x87 || code == 0x90 || code
            == 0x91 || code == 0x97 || code == 0x99) && (packet_type == packet::PUBACK
            || packet_type == packet::PUBREC)
        ||| code == 0x92 && (packet_type == packet::PUBREL || packet_type == packet::PUBCOMP)
    }
}

/// Whether an acknowledgement with a reply may be sent.
pub open spec fn full_ack_check(context: ContextModel, packet_type: u8, reply: Reply) -> Result<
    (),
    ClientError,
> {
    let length = reply.property_length as int;
    let properties = context.ack_properties.take(length);
    if packet_type != 0 && (length > context.ack_properties.len() && length > 0
        || validate::or_too_long(properties, validate::publish_ack_check(properties, false)) is Err
        && length > 0 || !reason_code_fits(reply.reason_code, packet_type) || size::sized(
        size::ack_body_size(length),
        context.properties.server.max_packet_size,
    ) is Err) {
        Err(ClientError::BadParameter)
    } else {
        client::connected_check(context.status)
    }
}

/// The parts in which an acknowledgement with a reply is handed over.
pub open spec fn full_ack_parts(
    packet_type: u8,
    packet_id: u16,
    reason_code: u8,
    properties: Seq<u8>,
) -> Seq<Seq<u8>> {
    let front = seq![
        writer::fixed_bytes(
            packet_type,
            size::ack_body_size(properties.len() as int) as u32,
            wire::u16_bytes(packet_id).push(reason_code),
        ),
        wire::length_bytes(properties.len()),
    ];
    if properties.len() == 0 {
        front
    } else {
        front.push(properties)
    }
}

/// The context from which an acknowledgement with properties is sent: they no
/// longer wait.
pub open spec fn properties_spent(context: ContextModel, length: usize) -> ContextModel {
    if length > 0 {
        ContextModel { ack_used: 0, ..context }
    } else {
        context
    }
}

/// The acknowledgement that a state asks for was sent, with a reply.
pub open spec fn full_ack_sent(
    before: Moment,
    after: Moment,
    kept_before: Option<Seq<Keeping>>,
    kept_after: Option<Seq<Keeping>>,
    packet_id: u16,
    state: PublishState,
    reply: Reply,
    result: Result<(), ClientError>,
) -> bool {
    let packet_type = resume::ack_type(state);
    match full_ack_check(before.context, packet_type, reply) {
        Err(error) => {
            &&& after == before
            &&& kept_after == kept_before
            &&& result == Err::<(), ClientError>(error)
        },
        Ok(()) => if packet_type == 0 {
            after == before && kept_after == kept_before && result == Ok::<(), ClientError>(())
        } else {
            ack_posted(
                Moment {
                    context: properties_spent(before.context, reply.property_length),
                    ..before
                },
                after,
                kept_before,
                kept_after,
                packet_type,
                packet_id,
                full_ack_parts(
                    packet_type,
                    packet_id,
                    reply.reason_code->0,
                    before.context.ack_properties.take(reply.property_length as int),
                ),
                true,
                result,
            )
        },
    }
}

/// The acknowledgement that a state asks for was sent.
pub open spec fn ack_sent(
    before: Moment,
    after: Moment,
    kept_before: Option<Seq<Keeping>>,
    kept_after: Option<Seq<Keeping>>,
    packet_id: u16,
    state: PublishState,
    reply: Reply,
    result: Result<(), ClientError>,
) -> bool {
    if reply.property_length == 0 && reply.reason_code is None {
        plain_ack_sent(before, after, kept_before, kept_after, packet_id, state, result)
    } else {
        full_ack_sent(before, after, kept_before, kept_after, packet_id, state, reply, result)
    }
}

/// **Law.** The parts of an acknowledgement with a reply are those bytes that a
/// single buffer would hold.
pub proof fn law_parts_are_the_packet(
    packet_type: u8,
    packet_id: u16,
    reason_code: u8,
    properties: Seq<u8>,
)
    ensures
        full_ack_parts(packet_type, packet_id, reason_code, properties).flatten()
            == outbound::full_ack_bytes(packet_type, packet_id, reason_code, properties),
{
    let parts = full_ack_parts(packet_type, packet_id, reason_code, properties);
    let one = seq![parts[0]];
    one.lemma_flatten_one_element();
    one.lemma_flatten_push(parts[1]);
    let two = one.push(parts[1]);
    two.lemma_flatten_push(properties);
    assert(wire::section_bytes(properties) == parts[1] + properties);
    if properties.len() == 0 {
        assert(parts =~= two);
        assert(parts[0] + parts[1] =~= parts[0] + (parts[1] + properties));
    } else {
        assert(parts =~= two.push(properties));
        assert(parts[0] + parts[1] + properties =~= parts[0] + (parts[1] + properties));
    }
}

/// **Law.** Properties without a reason code are never sent.
pub proof fn law_properties_need_a_reason_code(
    before: Moment,
    after: Moment,
    kept_before: Option<Seq<Keeping>>,
    kept_after: Option<Seq<Keeping>>,
    packet_id: u16,
    state: PublishState,
    reply: Reply,
    result: Result<(), ClientError>,
)
    requires
        ack_sent(before, after, kept_before, kept_after, packet_id, state, reply, result),
        resume::ack_type(state) != 0,
        reply.property_length > 0,
        reply.reason_code is None,
    ensures
        after == before,
        kept_after == kept_before,
        result == Err::<(), ClientError>(ClientError::BadParameter),
{
}

/// **Law.** An acknowledgement may be sent with a reason code in exactly the
/// cases in which one can be written.
pub proof fn law_reason_codes_agree(reason_code: u8, packet_type: u8)
    requires
        outbound::is_publish_ack(packet_type),
    ensures
        reason_code_fits(Some(reason_code), packet_type) == outbound::ack_code_allowed(
            packet_type,
            reason_code,
        ),
{
}

/// Whether an acknowledgement may carry this reason code.
///
/// # Errors
///
/// [`ClientError::BadParameter`] if there is none, or it may not.
pub fn validate_publish_ack_reason_code(reason_code: Option<u8>, packet_type: u8) -> (result: Result<
    (),
    ClientError,
>)
    ensures
        result == client::parameters(reason_code_fits(reason_code, packet_type)),
{
    let reason_code = match reason_code {
        Some(reason_code) => reason_code,
        None => return Err(ClientError::BadParameter),
    };
    match reason_code {
        0x00 => Ok(()),
        0x10 | 0x80 | 0x83 | 0x87 | 0x90 | 0x91 | 0x97 | 0x99 => {
            if packet_type == packet::PUBACK || packet_type == packet::PUBREC {
                Ok(())
            } else {
                Err(ClientError::BadParameter)
            }
        },
        0x92 => {
            if packet_type == packet::PUBREL || packet_type == packet::PUBCOMP {
                Ok(())
            } else {
                Err(ClientError::BadParameter)
            }
        },
        _ => Err(ClientError::BadParameter),
    }
}

/// Stores a copy of an acknowledgement, if one is to be and there is a store.
fn copy_ack<S: Store>(
    store: Option<&mut S>,
    packet_type: u8,
    packet_id: u16,
    parts: &[&[u8]],
) -> (kept: bool)
    ensures
        match store {
            Some(keeper) => copied(
                Some(keeper.keepings()),
                Some(final(keeper).keepings()),
                packet_type,
                packet_id,
                reader::contents(parts@),
                kept,
            ),
            None => kept,
        },
{
    match store {
        Some(keeper) => {
            if packet_type != packet::PUBACK && packet_type != packet::PUBCOMP {
                keeper.store(incoming_key(packet_id), parts)
            } else {
                true
            }
        },
        None => true,
    }
}

impl<'a> MqttContext<'a> {
    /// Sends the acknowledgement that a state asks for, with nothing added.
    pub(crate) fn send_publish_acks_without_property<T: Transport, C: Clock, S: Store>(
        &mut self,
        transport: &mut T,
        clock: &mut C,
        store: Option<&mut S>,
        packet_id: u16,
        state: PublishState,
    ) -> (result: Result<(), ClientError>)
        ensures
            match store {
                Some(keeper) => plain_ack_sent(
                    Moment::of(*old(self), *old(transport), *old(clock)),
                    Moment::of(*final(self), *final(transport), *final(clock)),
                    Some(keeper.keepings()),
                    Some(final(keeper).keepings()),
                    packet_id,
                    state,
                    result,
                ),
                None => plain_ack_sent(
                    Moment::of(*old(self), *old(transport), *old(clock)),
                    Moment::of(*final(self), *final(transport), *final(clock)),
                    None,
                    None,
                    packet_id,
                    state,
                    result,
                ),
            },
    {
        let ghost before = Moment::of(*self, *transport, *clock);
        let packet_type = Self::ack_type_to_send(state);
        if packet_type == 0 {
            return Ok(());
        }
        let ack = match ack_from_packet_type(packet_type) {
            Some(ack) => ack,
            None => return Ok(()),
        };
        let mut packet = [0u8; 4];
        match serialize_ack(&mut packet, packet_type, packet_id, None, &[]) {
            Ok(_) => {},
            Err(_) => return Err(ClientError::BadParameter),
        }
        if 4 > self.properties.server.max_packet_size {
            return Err(ClientError::BadParameter);
        }
        match self.connected() {
            Ok(()) => {},
            Err(error) => return Err(error),
        }
        let bytes: &[u8] = &packet;
        let parts: [&[u8]; 1] = [bytes];
        let ghost whole = outbound::simple_ack_bytes(packet_type, packet_id);
        proof {
            assert(packet@ =~= whole);
            assert(reader::contents(parts@) =~= seq![whole]);
            seq![whole].lemma_flatten_one_element();
        }
        if !copy_ack(store, packet_type, packet_id, &parts) {
            return Err(ClientError::PublishStoreFailed);
        }
        let outcome = self.send_buffer(transport, clock, bytes);
        let ghost sent = Moment::of(*self, *transport, *clock);
        assert(send::sending(before, sent, seq![whole].flatten(), false, outcome));
        match outcome {
            SendOutcome::Sent(4) => {},
            _ => return Err(ClientError::SendFailed),
        }
        self.note_ack_sent(packet_id, ack)
    }

    /// Whether an acknowledgement with a reply may be sent.
    pub fn check_full_ack(&self, packet_type: u8, reply: Reply) -> (result: Result<
        (),
        ClientError,
    >)
        ensures
            result == full_ack_check(self@, packet_type, reply),
    {
        if packet_type != 0 {
            let length = reply.property_length;
            if length > 0 {
                if length > self.ack_properties.len() {
                    return Err(ClientError::BadParameter);
                }
                let properties = slice_subrange(self.ack_properties, 0, length);
                assert(properties@ =~= self.ack_properties@.take(length as int));
                match validate_publish_ack_properties(properties) {
                    Ok(()) => {},
                    Err(error) => return Err(ClientError::from(error)),
                }
            }
            match validate_publish_ack_reason_code(reply.reason_code, packet_type) {
                Ok(()) => {},
                Err(error) => return Err(error),
            }
            match ack_packet_size(self.properties.server.max_packet_size, length) {
                Ok(_) => {},
                Err(_) => return Err(ClientError::BadParameter),
            }
        }
        self.connected()
    }

    /// Sends the acknowledgement that a state asks for, with a reply.
    pub(crate) fn send_publish_acks_with_property<T: Transport, C: Clock, S: Store>(
        &mut self,
        transport: &mut T,
        clock: &mut C,
        store: Option<&mut S>,
        packet_id: u16,
        state: PublishState,
        reply: Reply,
    ) -> (result: Result<(), ClientError>)
        ensures
            match store {
                Some(keeper) => full_ack_sent(
                    Moment::of(*old(self), *old(transport), *old(clock)),
                    Moment::of(*final(self), *final(transport), *final(clock)),
                    Some(keeper.keepings()),
                    Some(final(keeper).keepings()),
                    packet_id,
                    state,
                    reply,
                    result,
                ),
                None => full_ack_sent(
                    Moment::of(*old(self), *old(transport), *old(clock)),
                    Moment::of(*final(self), *final(transport), *final(clock)),
                    None,
                    None,
                    packet_id,
                    state,
                    reply,
                    result,
                ),
            },
    {
        let packet_type = Self::ack_type_to_send(state);
        match self.check_full_ack(packet_type, reply) {
            Ok(()) => {},
            Err(error) => return Err(error),
        }
        if packet_type == 0 {
            return Ok(());
        }
        let ack = match ack_from_packet_type(packet_type) {
            Some(ack) => ack,
            None => return Ok(()),
        };
        let size = match ack_packet_size(
            self.properties.server.max_packet_size,
            reply.property_length,
        ) {
            Ok(size) => size,
            Err(_) => return Err(ClientError::BadParameter),
        };
        let reason_code = match reply.reason_code {
            Some(reason_code) => reason_code,
            None => 0,
        };
        let handed = self.build_and_send_ack_with_props(
            transport,
            clock,
            store,
            packet_type,
            packet_id,
            reason_code,
            size.remaining_length,
            reply.property_length,
        );
        if handed.is_err() {
            return handed;
        }
        self.note_ack_sent(packet_id, ack)
    }

    /// Puts an acknowledgement with a reply together, and sends it.
    fn build_and_send_ack_with_props<T: Transport, C: Clock, S: Store>(
        &mut self,
        transport: &mut T,
        clock: &mut C,
        store: Option<&mut S>,
        packet_type: u8,
        packet_id: u16,
        reason_code: u8,
        remaining_length: u32,
        property_length: usize,
    ) -> (result: Result<(), ClientError>)
        requires
            property_length <= old(self)@.ack_properties.len(),
            property_length <= wire::LARGEST_LENGTH,
            remaining_length == size::ack_body_size(property_length as int),
            remaining_length <= wire::LARGEST_LENGTH,
        ensures
            ({
                let before = Moment::of(*old(self), *old(transport), *old(clock));
                let ready = Moment {
                    context: properties_spent(before.context, property_length),
                    ..before
                };
                let after = Moment::of(*final(self), *final(transport), *final(clock));
                let parts = full_ack_parts(
                    packet_type,
                    packet_id,
                    reason_code,
                    before.context.ack_properties.take(property_length as int),
                );
                match store {
                    Some(keeper) => ack_handed_over(
                        ready,
                        after,
                        Some(keeper.keepings()),
                        Some(final(keeper).keepings()),
                        packet_type,
                        packet_id,
                        parts,
                        result,
                    ),
                    None => ack_handed_over(
                        ready,
                        after,
                        None,
                        None,
                        packet_type,
                        packet_id,
                        parts,
                        result,
                    ),
                }
            }),
    {
        let ghost before = Moment::of(*self, *transport, *clock);
        let ghost room = self.ack_properties@;
        let ghost spent = properties_spent(before.context, property_length);
        let mut header = [0u8; 8];
        proof {
            wire::lemma_length_bytes_len(remaining_length as nat);
            wire::lemma_length_bytes_len(property_length as nat);
            law_parts_are_the_packet(
                packet_type,
                packet_id,
                reason_code,
                room.take(property_length as int),
            );
        }
        let written = serialize_ack_fixed(
            &mut header,
            packet_type,
            packet_id,
            remaining_length,
            reason_code,
        );
        if written == 0 {
            return Err(ClientError::SendFailed);
        }
        let mut length_field = [0u8; 4];
        let length_written = encode_length(&mut length_field, property_length as u32);
        if property_length > 0 {
            self.ack_used = 0;
        }
        let mut room_taken: &'a mut [u8] = &mut [];
        core::mem::swap(&mut room_taken, &mut self.ack_properties);
        let mut parts: [&[u8]; 3] = [
            slice_subrange(&header, 0, written),
            slice_subrange(&length_field, 0, length_written),
            slice_subrange(room_taken, 0, property_length),
        ];
        let count: usize = if property_length == 0 {
            2
        } else {
            3
        };
        let ghost expected = full_ack_parts(
            packet_type,
            packet_id,
            reason_code,
            room.take(property_length as int),
        );
        let all: &mut [&[u8]] = &mut parts;
        let (gather, _unused) = all.split_at_mut(count);
        proof {
            assert(header@.subrange(0, written as int) =~= expected[0]);
            assert(room.subrange(0, property_length as int) =~= room.take(property_length as int));
            assert(reader::contents(gather@) =~= expected);
        }
        let ghost without = Moment::of(*self, *transport, *clock);
        let result = self.hand_over_ack(transport, clock, store, packet_type, packet_id, gather);
        let ghost sent = Moment::of(*self, *transport, *clock);
        core::mem::swap(&mut room_taken, &mut self.ack_properties);
        let ghost after = Moment::of(*self, *transport, *clock);
        proof {
            let ready = Moment { context: spent, ..before };
            assert(ready =~= (Moment {
                context: ContextModel { ack_properties: room, ..without.context },
                ..without
            }));
            assert(after =~= (Moment {
                context: ContextModel { ack_properties: room, ..sent.context },
                ..sent
            }));
            assert forall|outcome: SendOutcome| #[trigger]
                send::sending(without, sent, expected.flatten(), true, outcome) implies send::sending(
                ready,
                after,
                expected.flatten(),
                true,
                outcome,
            ) by {
                send::lemma_sending_without_room(
                    without,
                    sent,
                    expected.flatten(),
                    true,
                    outcome,
                    room,
                );
            }
        }
        result
    }

    /// Copies an acknowledgement to the store, and sends it in parts.
    fn hand_over_ack<T: Transport, C: Clock, S: Store>(
        &mut self,
        transport: &mut T,
        clock: &mut C,
        store: Option<&mut S>,
        packet_type: u8,
        packet_id: u16,
        gather: &mut [&[u8]],
    ) -> (result: Result<(), ClientError>)
        requires
            reader::contents(old(gather)@).flatten().len() <= usize::MAX,
        ensures
            match store {
                Some(keeper) => ack_handed_over(
                    Moment::of(*old(self), *old(transport), *old(clock)),
                    Moment::of(*final(self), *final(transport), *final(clock)),
                    Some(keeper.keepings()),
                    Some(final(keeper).keepings()),
                    packet_type,
                    packet_id,
                    reader::contents(old(gather)@),
                    result,
                ),
                None => ack_handed_over(
                    Moment::of(*old(self), *old(transport), *old(clock)),
                    Moment::of(*final(self), *final(transport), *final(clock)),
                    None,
                    None,
                    packet_type,
                    packet_id,
                    reader::contents(old(gather)@),
                    result,
                ),
            },
    {
        let ghost before = Moment::of(*self, *transport, *clock);
        let ghost whole = reader::contents(gather@).flatten();
        if !copy_ack(store, packet_type, packet_id, gather) {
            return Err(ClientError::PublishStoreFailed);
        }
        let total = send::total_of(gather);
        let outcome = self.send_vectors(transport, clock, gather);
        assert(send::sending(
            before,
            Moment::of(*self, *transport, *clock),
            whole,
            true,
            outcome,
        ));
        match outcome {
            SendOutcome::Sent(sent) => if sent == total {
                Ok(())
            } else {
                Err(ClientError::SendFailed)
            },
            SendOutcome::Failed => Err(ClientError::SendFailed),
        }
    }

    /// Sends the acknowledgement that a state asks for.
    pub(crate) fn send_ack_for<T: Transport, C: Clock, S: Store>(
        &mut self,
        transport: &mut T,
        clock: &mut C,
        store: Option<&mut S>,
        packet_id: u16,
        state: PublishState,
        reply: Reply,
    ) -> (result: Result<(), ClientError>)
        ensures
            match store {
                Some(keeper) => ack_sent(
                    Moment::of(*old(self), *old(transport), *old(clock)),
                    Moment::of(*final(self), *final(transport), *final(clock)),
                    Some(keeper.keepings()),
                    Some(final(keeper).keepings()),
                    packet_id,
                    state,
                    reply,
                    result,
                ),
                None => ack_sent(
                    Moment::of(*old(self), *old(transport), *old(clock)),
                    Moment::of(*final(self), *final(transport), *final(clock)),
                    None,
                    None,
                    packet_id,
                    state,
                    reply,
                    result,
                ),
            },
    {
        if reply.property_length == 0 && reply.reason_code.is_none() {
            self.send_publish_acks_without_property(transport, clock, store, packet_id, state)
        } else {
            self.send_publish_acks_with_property(transport, clock, store, packet_id, state, reply)
        }
    }
}

} // verus!
