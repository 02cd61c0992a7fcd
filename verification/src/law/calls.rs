//! What callers of a builder, a cursor and a client are told.
//!
//! These laws speak of the functions themselves: of every result that a call may
//! have.

use vstd::prelude::*;

use crate::builder::{AddError, BuilderModel, PropertyBuilder};
use crate::client::{ClientError, MqttContext, Subscription};
use crate::cursor::{CursorError, PropertyCursor};
use crate::law::grammar;
use crate::law::grammar::Prop;
use crate::law::plain;
use crate::law::records;
use crate::law::rules;
use crate::law::sections;
use crate::state::{QoS, Record};
use crate::validate;

verus! {

// ---------------------------------------------------------------------------
// The builder
// ---------------------------------------------------------------------------

/// A property was added, or that was refused: it stands behind the others,
/// spelled out, and its bit is set, exactly if the packet may have it, it is not
/// there yet or may be there often, it can be said, and there is room.
pub open spec fn adds(
    before: BuilderModel,
    after: BuilderModel,
    prop: Prop,
    bit: u32,
    first: Option<u8>,
    result: Result<(), AddError>,
) -> bool {
    let fits = {
        &&& prop.id() == 0x26 || before.fields & (1u32 << bit) == 0
        &&& first matches Some(first) ==> rules::takes(first, prop.id())
        &&& prop.proper()
    };
    let size = 1 + prop.value().len();
    &&& result == if !fits {
        Err::<(), AddError>(AddError::BadParameter)
    } else if size > before.spare.len() {
        Err(AddError::NoMemory)
    } else {
        Ok(())
    }
    &&& result is Err ==> after == before
    &&& result is Ok ==> {
        &&& after.section == before.section + seq![prop.id()] + prop.value()
        &&& after.fields & (1u32 << bit) != 0
        &&& after.section.len() + after.spare.len() == before.section.len() + before.spare.len()
    }
}

/// **Law.** Each function of a builder adds the property of its name, with the
/// identifier, the shape and the bit that belong to it.
pub proof fn law_builder_adds<'a, 'b>(
    builder: &'b mut PropertyBuilder<'a>,
    long: u32,
    short: u16,
    flag: bool,
    text: &[u8],
    other: &[u8],
    first: Option<u8>,
    result: Result<(), AddError>,
)
    ensures
        call_ensures(PropertyBuilder::<'a>::session_expiry, (builder, long, first), result) ==> adds(
            old(builder)@,
            final(builder)@,
            Prop::Four(0x11, long),
            2,
            first,
            result,
        ),
        call_ensures(PropertyBuilder::<'a>::receive_max, (builder, short, first), result) ==> adds(
            old(builder)@,
            final(builder)@,
            Prop::Two(0x21, short),
            3,
            first,
            result,
        ),
        call_ensures(PropertyBuilder::<'a>::topic_alias, (builder, short, first), result) ==> adds(
            old(builder)@,
            final(builder)@,
            Prop::Two(0x23, short),
            13,
            first,
            result,
        ),
        call_ensures(PropertyBuilder::<'a>::payload_format, (builder, flag, first), result) ==> adds(
            old(builder)@,
            final(builder)@,
            Prop::Byte(0x01, if flag { 1 } else { 0 }),
            11,
            first,
            result,
        ),
        call_ensures(PropertyBuilder::<'a>::reason_string, (builder, text, first), result) ==> adds(
            old(builder)@,
            final(builder)@,
            Prop::Text(0x1F, text@),
            17,
            first,
            result,
        ),
        call_ensures(PropertyBuilder::<'a>::content_type, (builder, text, first), result) ==> adds(
            old(builder)@,
            final(builder)@,
            Prop::Text(0x03, text@),
            16,
            first,
            result,
        ),
        call_ensures(PropertyBuilder::<'a>::user_property, (builder, text, other, first), result) ==> adds(
            old(builder)@,
            final(builder)@,
            Prop::Pair(0x26, text@, other@),
            28,
            first,
            result,
        ),
        call_ensures(PropertyBuilder::<'a>::subscription_id, (builder, long, first), result) ==> adds(
            old(builder)@,
            final(builder)@,
            Prop::Length(0x0B, long),
            1,
            first,
            result,
        ),
{
    let before = old(builder)@;
    lemma_adding(before, Prop::Four(0x11, long), 2, first);
    lemma_adding(before, Prop::Two(0x21, short), 3, first);
    lemma_adding(before, Prop::Two(0x23, short), 13, first);
    lemma_adding(before, Prop::Byte(0x01, if flag { 1 } else { 0 }), 11, first);
    lemma_adding(before, Prop::Text(0x1F, text@), 17, first);
    lemma_adding(before, Prop::Text(0x03, text@), 16, first);
    lemma_adding(before, Prop::Pair(0x26, text@, other@), 28, first);
    lemma_adding(before, Prop::Length(0x0B, long), 1, first);
}

proof fn lemma_adding(before: BuilderModel, prop: Prop, bit: u32, first: Option<u8>)
    requires
        bit < 32,
        bit == 28 <==> prop.id() == 0x26,
    ensures
        ({
            let (result, after) = before.adding(prop.id(), bit, prop.value(), prop.proper(), first);
            adds(before, after, prop, bit, first, result)
        }),
{
    rules::law_properties_are_added(
        before,
        prop.id(),
        bit,
        prop.value(),
        prop.proper(),
        first,
    );
}

// ---------------------------------------------------------------------------
// The cursor
// ---------------------------------------------------------------------------

/// The property under a cursor was read, or that was refused: at the end there is
/// none, another one is left where it is, and one that does not fit is bad.
pub open spec fn reads<T>(
    section: Seq<u8>,
    at: int,
    now: int,
    id: u8,
    fits: bool,
    value: T,
    end: int,
    result: Result<T, CursorError>,
) -> bool {
    if at >= section.len() {
        result == Err::<T, CursorError>(CursorError::EndOfProperties) && now == at
    } else if section[at] != id {
        result == Err::<T, CursorError>(CursorError::BadParameter) && now == at
    } else if fits {
        result == Ok::<T, CursorError>(value) && now == end
    } else {
        result == Err::<T, CursorError>(CursorError::BadResponse) && now == at
    }
}

/// A byte behind an identifier.
pub open spec fn reads_byte(s: Seq<u8>, at: int, now: int, id: u8, result: Result<u8, CursorError>) -> bool {
    reads(s, at, now, id, at + 2 <= s.len(), s[at + 1], at + 2, result)
}

/// Two bytes behind an identifier.
pub open spec fn reads_two(s: Seq<u8>, at: int, now: int, id: u8, result: Result<u16, CursorError>) -> bool {
    reads(
        s,
        at,
        now,
        id,
        at + 3 <= s.len(),
        plain::number_at(s, at + 1) as u16,
        at + 3,
        result,
    )
}

/// Four bytes behind an identifier.
pub open spec fn reads_four(s: Seq<u8>, at: int, now: int, id: u8, result: Result<u32, CursorError>) -> bool {
    reads(s, at, now, id, at + 5 <= s.len(), plain::long_at(s, at + 1) as u32, at + 5, result)
}

/// A text behind an identifier.
pub open spec fn reads_text(
    s: Seq<u8>,
    at: int,
    now: int,
    id: u8,
    result: Result<&[u8], CursorError>,
) -> bool {
    let fits = at + 3 <= s.len() && plain::text_end(s, at + 1) <= s.len();
    reads(
        s,
        at,
        now,
        id,
        fits,
        plain::text_at(s, at + 1),
        plain::text_end(s, at + 1),
        match result {
            Ok(text) => Ok(text@),
            Err(error) => Err(error),
        },
    )
}

/// **Law.** Each function of a cursor for flags reads the property of its name:
/// the one with the identifier and the shape that belong to it.
pub proof fn law_cursor_reads_byte<'a, 'b>(
    cursor: &'b mut PropertyCursor<'a>,
    result: Result<u8, CursorError>,
)
    requires
        old(cursor).section().len() <= 0xFFFF_FFFF,
        0 <= old(cursor).at(),
    ensures
        call_ensures(PropertyCursor::<'a>::max_qos, (cursor,), result) ==> reads_byte(
            old(cursor).section(),
            old(cursor).at(),
            final(cursor).at(),
            0x24,
            result,
        ),
        call_ensures(PropertyCursor::<'a>::retain_available, (cursor,), result) ==> reads_byte(
            old(cursor).section(),
            old(cursor).at(),
            final(cursor).at(),
            0x25,
            result,
        ),
        call_ensures(PropertyCursor::<'a>::wildcard_available, (cursor,), result) ==> reads_byte(
            old(cursor).section(),
            old(cursor).at(),
            final(cursor).at(),
            0x28,
            result,
        ),
        call_ensures(PropertyCursor::<'a>::subscription_id_available, (cursor,), result) ==> reads_byte(
            old(cursor).section(),
            old(cursor).at(),
            final(cursor).at(),
            0x29,
            result,
        ),
        call_ensures(PropertyCursor::<'a>::shared_sub_available, (cursor,), result) ==> reads_byte(
            old(cursor).section(),
            old(cursor).at(),
            final(cursor).at(),
            0x2A,
            result,
        ),
        call_ensures(PropertyCursor::<'a>::payload_format, (cursor,), result) ==> reads_byte(
            old(cursor).section(),
            old(cursor).at(),
            final(cursor).at(),
            0x01,
            result,
        ),
{
    let s = old(cursor).section();
    let at = old(cursor).at();
    let behind = s.skip(at + 1);
    if at + 2 <= s.len() {
        assert(behind[0] == s[at + 1]);
    }
}

/// **Law.** Each function of a cursor for short numbers reads the property of its name:
/// the one with the identifier and the shape that belong to it.
pub proof fn law_cursor_reads_two<'a, 'b>(
    cursor: &'b mut PropertyCursor<'a>,
    result: Result<u16, CursorError>,
)
    requires
        old(cursor).section().len() <= 0xFFFF_FFFF,
        0 <= old(cursor).at(),
    ensures
        call_ensures(PropertyCursor::<'a>::receive_max, (cursor,), result) ==> reads_two(
            old(cursor).section(),
            old(cursor).at(),
            final(cursor).at(),
            0x21,
            result,
        ),
        call_ensures(PropertyCursor::<'a>::topic_alias_max, (cursor,), result) ==> reads_two(
            old(cursor).section(),
            old(cursor).at(),
            final(cursor).at(),
            0x22,
            result,
        ),
        call_ensures(PropertyCursor::<'a>::server_keep_alive, (cursor,), result) ==> reads_two(
            old(cursor).section(),
            old(cursor).at(),
            final(cursor).at(),
            0x13,
            result,
        ),
        call_ensures(PropertyCursor::<'a>::topic_alias, (cursor,), result) ==> reads_two(
            old(cursor).section(),
            old(cursor).at(),
            final(cursor).at(),
            0x23,
            result,
        ),
{
    let s = old(cursor).section();
    let at = old(cursor).at();
    let behind = s.skip(at + 1);
    if at + 3 <= s.len() {
        assert(behind[0] == s[at + 1] && behind[1] == s[at + 2]);
    }
}

/// **Law.** Each function of a cursor for long numbers reads the property of its name:
/// the one with the identifier and the shape that belong to it.
pub proof fn law_cursor_reads_four<'a, 'b>(
    cursor: &'b mut PropertyCursor<'a>,
    result: Result<u32, CursorError>,
)
    requires
        old(cursor).section().len() <= 0xFFFF_FFFF,
        0 <= old(cursor).at(),
    ensures
        call_ensures(PropertyCursor::<'a>::session_expiry, (cursor,), result) ==> reads_four(
            old(cursor).section(),
            old(cursor).at(),
            final(cursor).at(),
            0x11,
            result,
        ),
        call_ensures(PropertyCursor::<'a>::max_packet_size, (cursor,), result) ==> reads_four(
            old(cursor).section(),
            old(cursor).at(),
            final(cursor).at(),
            0x27,
            result,
        ),
        call_ensures(PropertyCursor::<'a>::message_expiry, (cursor,), result) ==> reads_four(
            old(cursor).section(),
            old(cursor).at(),
            final(cursor).at(),
            0x02,
            result,
        ),
{
    let s = old(cursor).section();
    let at = old(cursor).at();
    let behind = s.skip(at + 1);
    if at + 5 <= s.len() {
        assert(behind[0] == s[at + 1] && behind[1] == s[at + 2]);
        assert(behind[2] == s[at + 3] && behind[3] == s[at + 4]);
    }
}

/// **Law.** Each function of a cursor for texts reads the property of its name:
/// the one with the identifier and the shape that belong to it.
pub proof fn law_cursor_reads_text<'a, 'b>(
    cursor: &'b mut PropertyCursor<'a>,
    result: Result<&'a [u8], CursorError>,
)
    requires
        old(cursor).section().len() <= 0xFFFF_FFFF,
        0 <= old(cursor).at(),
    ensures
        call_ensures(PropertyCursor::<'a>::assigned_client_id, (cursor,), result) ==> reads_text(
            old(cursor).section(),
            old(cursor).at(),
            final(cursor).at(),
            0x12,
            result,
        ),
        call_ensures(PropertyCursor::<'a>::reason_string, (cursor,), result) ==> reads_text(
            old(cursor).section(),
            old(cursor).at(),
            final(cursor).at(),
            0x1F,
            result,
        ),
        call_ensures(PropertyCursor::<'a>::response_info, (cursor,), result) ==> reads_text(
            old(cursor).section(),
            old(cursor).at(),
            final(cursor).at(),
            0x1A,
            result,
        ),
        call_ensures(PropertyCursor::<'a>::server_reference, (cursor,), result) ==> reads_text(
            old(cursor).section(),
            old(cursor).at(),
            final(cursor).at(),
            0x1C,
            result,
        ),
        call_ensures(PropertyCursor::<'a>::auth_method, (cursor,), result) ==> reads_text(
            old(cursor).section(),
            old(cursor).at(),
            final(cursor).at(),
            0x15,
            result,
        ),
        call_ensures(PropertyCursor::<'a>::auth_data, (cursor,), result) ==> reads_text(
            old(cursor).section(),
            old(cursor).at(),
            final(cursor).at(),
            0x16,
            result,
        ),
        call_ensures(PropertyCursor::<'a>::response_topic, (cursor,), result) ==> reads_text(
            old(cursor).section(),
            old(cursor).at(),
            final(cursor).at(),
            0x08,
            result,
        ),
        call_ensures(PropertyCursor::<'a>::correlation_data, (cursor,), result) ==> reads_text(
            old(cursor).section(),
            old(cursor).at(),
            final(cursor).at(),
            0x09,
            result,
        ),
        call_ensures(PropertyCursor::<'a>::content_type, (cursor,), result) ==> reads_text(
            old(cursor).section(),
            old(cursor).at(),
            final(cursor).at(),
            0x03,
            result,
        ),
{
    let s = old(cursor).section();
    let at = old(cursor).at();
    let behind = s.skip(at + 1);
    if at + 3 <= s.len() {
        assert(behind[0] == s[at + 1] && behind[1] == s[at + 2]);
        if plain::text_end(s, at + 1) <= s.len() {
            assert(behind.subrange(2, 2 + plain::number_at(s, at + 1)) =~= plain::text_at(s, at + 1));
        }
    }
}

/// **Law.** A cursor reads a user property as a pair of texts and a subscription
/// identifier as a length, and steps over each property that there is, from its
/// identifier to the next.
pub proof fn law_cursor_over_sections<'a, 'b>(
    cursor: &'b mut PropertyCursor<'a>,
    front: Seq<u8>,
    props: Seq<Prop>,
    pair: Result<(&'a [u8], &'a [u8]), CursorError>,
    number: Result<u32, CursorError>,
    skipped: Result<(), CursorError>,
    next: Result<u8, CursorError>,
)
    requires
        grammar::all_proper(props),
        props.len() > 0,
        old(cursor).section() == front + grammar::section(props),
        old(cursor).section().len() <= 0xFFFF_FFFF,
        old(cursor).at() == front.len(),
    ensures
        ({
            let end = front.len() + 1 + props[0].value().len();
            &&& call_ensures(PropertyCursor::<'a>::skip, (cursor,), skipped) ==> skipped is Ok
                && final(cursor).at() == end
            &&& call_ensures(PropertyCursor::<'a>::next_type, (&*old(cursor),), next) ==> next == Ok::<
                u8,
                CursorError,
            >(props[0].id())
            &&& props[0] matches Prop::Pair(_, key, value) ==> (call_ensures(
                PropertyCursor::<'a>::user_property,
                (cursor,),
                pair,
            ) ==> pair is Ok && (pair->Ok_0).0@ == key && (pair->Ok_0).1@ == value 
                && final(cursor).at() == end)
            &&& props[0] matches Prop::Length(_, value) ==> (call_ensures(
                PropertyCursor::<'a>::subscription_id,
                (cursor,),
                number,
            ) ==> number == Ok::<u32, CursorError>(value) && final(cursor).at() == end)
        }),
{
    let s = old(cursor).section();
    grammar::lemma_first(props);
    grammar::lemma_proper_rest(props);
    grammar::law_shapes(props[0].id());
    let own = grammar::section(props);
    assert(s.skip(front.len() as int + 1) =~= own.skip(1));
    assert(s[front.len() as int] == own[0]);
}

// ---------------------------------------------------------------------------
// The client
// ---------------------------------------------------------------------------

/// **Law.** A SUBSCRIBE of one filter without wildcards that is no shared
/// subscription, with properties that are in order, may be sent on a connection,
/// if it has an identifier and asks for nothing that cannot be received. It may
/// not be sent with other properties, without an identifier, with no filters, or
/// without a connection. The same goes for an UNSUBSCRIBE, which has no
/// properties here.
pub proof fn law_subscribe<'a, 'b>(
    context: &'b MqttContext<'a>,
    list: &[Subscription<'_>],
    packet_id: u16,
    section: &[u8],
    props: Seq<Prop>,
    result: Result<(), ClientError>,
)
    requires
        grammar::all_proper(props),
        section@ == grammar::section(props),
        section@.len() <= 268_435_455,
    ensures
        call_ensures(
            MqttContext::<'a>::subscribe,
            (context, list, packet_id, Some(section)),
            result,
        ) ==> {
            let available = context@.properties.server.subscription_id_available != 0;
            let entry = list@[0];
            let filter = entry.topic_filter@;
            let legal = sections::legal(
                props,
                sections::in_subscribe(available),
                sections::user_often(),
            );
            &&& result is Ok ==> legal && packet_id != 0 && list@.len() > 0
                && context@.status is Connected
            &&& list@.len() == 1 && 1 <= filter.len() <= 65_535 && rules::plain_name(filter)
                && !rules::share().is_prefix_of(filter) && packet_id != 0 && (entry.qos is AtMostOnce
                || context@.incoming_records > 0) ==> result == if !legal {
                Err::<(), ClientError>(ClientError::BadParameter)
            } else {
                unless_connected(*context)
            }
        },
        call_ensures(MqttContext::<'a>::unsubscribe, (context, list, packet_id), result) ==> {
            let entry = list@[0];
            let filter = entry.topic_filter@;
            &&& result is Ok ==> packet_id != 0 && list@.len() > 0 && context@.status is Connected
            &&& list@.len() == 1 && 1 <= filter.len() <= 65_535 && packet_id != 0 && (
            entry.qos is AtMostOnce || context@.incoming_records > 0) ==> result
                == unless_connected(*context)
            &&& list@.len() == 1 && !(1 <= filter.len() <= 65_535) ==> result == Err::<
                (),
                ClientError,
            >(ClientError::BadParameter)
        },
{
    let available = context@.properties.server.subscription_id_available != 0;
    sections::law_subscribe_properties(props, Seq::empty(), available);
    if list@.len() == 1 {
        let entry = list@[0];
        rules::law_entries(entry, context@.properties);
        rules::law_shared_subscriptions(
            Seq::empty(),
            Seq::empty(),
            entry.topic_filter@,
            false,
            0,
        );
        assert(list@ =~= seq![entry]);
        rules::law_lists(
            Seq::empty(),
            entry,
            packet_id,
            crate::client::SubscriptionType::Subscribe,
            context@,
        );
        rules::law_lists(
            Seq::empty(),
            entry,
            packet_id,
            crate::client::SubscriptionType::Unsubscribe,
            context@,
        );
    }
}

/// What is said where there is no connection.
pub open spec fn unless_connected(context: MqttContext<'_>) -> Result<(), ClientError> {
    match context@.status {
        crate::client::ConnectionStatus::Connected => Ok(()),
        crate::client::ConnectionStatus::NotConnected => Err(ClientError::NotConnected),
        crate::client::ConnectionStatus::DisconnectPending => Err(ClientError::DisconnectPending),
    }
}

/// **Law.** A message may be sent exactly if it has a topic of at most 65,535
/// bytes and a payload of at most 268,435,455, above QoS 0 an identifier and
/// records to note it in, and there is a connection.
pub proof fn law_publish<'a, 'b>(
    context: &'b MqttContext<'a>,
    qos: QoS,
    packet_id: u16,
    topic: &[u8],
    payload: &[u8],
    result: Result<(), ClientError>,
)
    requires
        call_ensures(
            MqttContext::<'a>::publish,
            (context, qos, packet_id, topic, payload),
            result,
        ),
    ensures
        result == if 1 <= topic@.len() <= 65_535 && payload@.len() <= 268_435_455 && (
        qos is AtMostOnce || (packet_id != 0 && context@.outgoing_records > 0)) {
            unless_connected(*context)
        } else {
            Err(ClientError::BadParameter)
        },
{
}

/// **Law.** Identifiers are given out in order, from 1 on, and nothing else
/// changes.
pub proof fn law_next_packet_id<'a, 'b>(context: &'b mut MqttContext<'a>, id: u16)
    requires
        call_ensures(MqttContext::<'a>::next_packet_id, (context,), id),
    ensures
        id == old(context)@.next_packet_id,
        final(context)@.next_packet_id == if id == 65_535 {
            1
        } else {
            id + 1
        },
        final(context)@.records == old(context)@.records,
        final(context)@.status == old(context)@.status,
        final(context)@.network == old(context)@.network,
{
}

/// **Law.** The records handed over are emptied, all of them are used, and so is
/// the room for the properties of acknowledgements.
pub proof fn law_records_are_handed_over<'a, 'b>(
    context: &'b mut MqttContext<'a>,
    outgoing: &'a mut [Record],
    incoming: &'a mut [Record],
    room: &'a mut [u8],
    done: (),
)
    requires
        call_ensures(
            MqttContext::<'a>::attach_records,
            (context, outgoing, incoming, room),
            done,
        ),
    ensures
        final(context)@.records matches Some(held) && {
            &&& held.outgoing.len() == old(outgoing)@.len()
            &&& held.incoming.len() == old(incoming)@.len()
            &&& forall|i: int|
                0 <= i < held.outgoing.len() ==> #[trigger] held.outgoing[i]
                    == records::free()
            &&& forall|i: int|
                0 <= i < held.incoming.len() ==> #[trigger] held.incoming[i]
                    == records::free()
        },
        final(context)@.ack_properties == old(room)@,
        final(context)@.ack_used == 0,
        final(context)@.status == old(context)@.status,
{
}

// ---------------------------------------------------------------------------
// The checks
// ---------------------------------------------------------------------------

/// **Law.** A section that is too long to be one is a bad parameter to every
/// check, and nothing is taken over from it.
pub proof fn law_too_long_is_refused<'a, 'b>(
    section: &'a [u8],
    available: bool,
    alias_max: u16,
    alias: &'b mut Option<u16>,
    found: &'b mut validate::ConnectValidation,
    result: Result<(), validate::ValidateError>,
)
    requires
        section@.len() > 268_435_455,
    ensures
        call_ensures(validate::validate_will_properties, (section,), result) ==> refused(result),
        call_ensures(validate::validate_subscribe_properties, (available, section), result)
            ==> refused(result),
        call_ensures(validate::validate_publish_ack_properties, (section,), result) ==> refused(
            result,
        ),
        call_ensures(validate::validate_unsubscribe_properties, (section,), result) ==> refused(
            result,
        ),
        call_ensures(validate::validate_publish_properties, (alias_max, section, alias), result)
            ==> refused(result) && *final(alias) == *old(alias),
        call_ensures(validate::validate_connect_properties, (section, found), result) ==> refused(
            result,
        ) && *final(found) == *old(found),
{
}

/// A check called the parameters bad.
pub open spec fn refused(result: Result<(), validate::ValidateError>) -> bool {
    result == Err::<(), validate::ValidateError>(validate::ValidateError::BadParameter)
}

/// **Law.** The checks of a CONNECT and of a message to be sent accept just the
/// lists that those may carry, and hand out what those say.
pub proof fn law_checks_that_tell<'a, 'b>(
    section: &'a [u8],
    props: Seq<Prop>,
    alias_max: u16,
    alias: &'b mut Option<u16>,
    found: &'b mut validate::ConnectValidation,
    result: Result<(), validate::ValidateError>,
)
    requires
        grammar::all_proper(props),
        section@ == grammar::section(props),
        section@.len() <= 268_435_455,
    ensures
        call_ensures(validate::validate_publish_properties, (alias_max, section, alias), result)
            ==> {
            &&& result is Ok == sections::legal(
                props,
                sections::in_sent_message(alias_max),
                sections::alias_once(),
            )
            &&& result is Ok ==> *final(alias) == match grammar::said(props, 0x23) {
                Some(value) => Some(value as u16),
                None => *old(alias),
            }
        },
        call_ensures(validate::validate_connect_properties, (section, found), result) ==> {
            &&& result is Ok == (sections::legal(
                props,
                sections::in_connect(),
                sections::user_often(),
            ) && (grammar::has(props, 0x16) ==> grammar::has(props, 0x15)))
            &&& result is Ok ==> final(found).max_packet_size == match grammar::said(props, 0x27) {
                Some(value) => Some(value as u32),
                None => old(found).max_packet_size,
            }
            &&& result is Ok ==> final(found).request_problem_info == (grammar::said(props, 0x17)
                == Some(1int))
        },
{
    sections::law_sent_message_properties(props, Seq::empty(), *old(alias), alias_max);
    sections::law_connect_properties(
        props,
        Seq::empty(),
        validate::ConnectValidation { request_problem_info: false, ..*old(found) },
    );
}

/// **Law.** Each check of outgoing properties accepts just those lists that its
/// packet may carry.
pub proof fn law_checks<'a>(
    section: &'a [u8],
    props: Seq<Prop>,
    available: bool,
    result: Result<(), validate::ValidateError>,
)
    requires
        grammar::all_proper(props),
        section@ == grammar::section(props),
        section@.len() <= 268_435_455,
    ensures
        call_ensures(validate::validate_will_properties, (section,), result) ==> result is Ok
            == sections::legal(props, sections::in_will(), sections::user_often()),
        call_ensures(validate::validate_subscribe_properties, (available, section), result)
            ==> result is Ok == sections::legal(
            props,
            sections::in_subscribe(available),
            sections::user_often(),
        ),
        call_ensures(validate::validate_publish_ack_properties, (section,), result) ==> result is Ok
            == sections::legal(props, sections::in_ack(), sections::user_often()),
        call_ensures(validate::validate_unsubscribe_properties, (section,), result) ==> result is Ok
            == grammar::each(props, sections::only_user()),
{
    sections::law_will_properties(props, Seq::empty());
    sections::law_subscribe_properties(props, Seq::empty(), available);
    sections::law_ack_properties(props, Seq::empty());
    sections::law_unsubscribe_properties(props, Seq::empty());
}

} // verus!
