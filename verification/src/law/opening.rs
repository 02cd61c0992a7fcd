//! Opening a session and taking one up again.

use vstd::prelude::*;

use crate::client::send;
use crate::client::send::SendOutcome;
use crate::client::{ClientError, ContextModel, Keeping, Moment, Store};
use crate::connect;
use crate::connect::Connect;
use crate::law::grammar;
use crate::law::grammar::Prop;
use crate::law::outgoing;
use crate::law::records;
use crate::law::sections;
use crate::law::transport;
use crate::session;
use crate::session::announce;
use crate::session::opening;
use crate::session::resume;
use crate::state;
use crate::state::{Operation, PublishState, Record, RecordsModel};
use crate::validate::ConnectValidation;
use crate::wire;

verus! {

// ---------------------------------------------------------------------------
// What goes out with a CONNECT
// ---------------------------------------------------------------------------

/// How large a network buffer is, as far as four bytes can say it.
pub open spec fn sayable_size(network: Seq<u8>) -> int {
    if network.len() > 0xFFFF_FFFF {
        0xFFFF_FFFF
    } else {
        network.len() as int
    }
}

/// **Law.** A CONNECT without properties goes out with one: the maximum packet
/// size, which is the size of the network buffer, and by which this client then
/// goes. A CONNECT with properties goes out with those.
pub proof fn law_size_is_announced(context: ContextModel, connect: Connect<'_>)
    ensures
        connect.properties@.len() == 0 ==> opening::outgoing_properties(context, connect)
            == grammar::section(
            seq![Prop::Four(0x27, sayable_size(context.network) as u32)],
        ),
        connect.properties@.len() > 0 ==> opening::outgoing_properties(context, connect)
            == connect.properties@,
        connect.properties@.len() == 0 && connect.will is None ==> {
            let (result, after) = opening::prepared(context, connect);
            &&& result is Ok
            &&& after.properties.client.max_packet_size == sayable_size(context.network)
            &&& after.properties.server == context.properties.server
            &&& after.properties.client.receive_max == context.properties.client.receive_max
            &&& after.properties.client.request_problem_info
                == context.properties.client.request_problem_info
        },
{
    let one = seq![Prop::Four(0x27, sayable_size(context.network) as u32)];
    assert(one.drop_first() =~= Seq::empty());
    assert(grammar::section(one.drop_first()) =~= Seq::empty());
    assert(grammar::section(one) =~= seq![0x27u8] + wire::u32_bytes(
        sayable_size(context.network) as u32,
    ));
}

/// **Law.** A CONNECT with properties may go out exactly if those are in order,
/// a maximum packet size among them is within the network buffer, and the
/// properties of a will are in order. Problem information is then expected
/// exactly if it was asked for.
pub proof fn law_properties_are_checked(
    context: ContextModel,
    connect: Connect<'_>,
    props: Seq<Prop>,
    of_will: Seq<Prop>,
)
    requires
        grammar::all_proper(props),
        grammar::all_proper(of_will),
        props.len() > 0,
        connect.properties@ == grammar::section(props),
        grammar::section(props).len() <= 268_435_455,
        connect.will matches Some(will) ==> will.properties@ == grammar::section(of_will)
            && grammar::section(of_will).len() <= 268_435_455,
    ensures
        ({
            let (result, after) = opening::prepared(context, connect);
            let fits = {
                &&& sections::legal(props, sections::in_connect(), sections::user_often())
                &&& grammar::has(props, 0x16) ==> grammar::has(props, 0x15)
                &&& grammar::said(props, 0x27) matches Some(size) ==> size
                    <= context.network.len()
                &&& connect.will is Some ==> sections::legal(
                    of_will,
                    sections::in_will(),
                    sections::user_often(),
                )
            };
            &&& result is Ok <==> fits
            &&& result is Err ==> result == Err::<(), _>(ClientError::BadParameter)
            &&& fits ==> after.properties.client.request_problem_info == (grammar::said(props, 0x17)
                == Some(1int))
            &&& fits ==> after.properties.server == context.properties.server
            &&& fits ==> after.properties.client.max_packet_size
                == context.properties.client.max_packet_size
        }),
{
    let blank = ConnectValidation { request_problem_info: false, max_packet_size: None };
    grammar::lemma_first(props);
    sections::law_connect_properties(props, Seq::empty(), blank);
    sections::law_will_properties(of_will, Seq::empty());
    grammar::lemma_said(props, 0x27);
    if let Some(size) = grammar::said(props, 0x27) {
        lemma_four(props, 0x27);
    }
}

/// A number of a proper property fits.
proof fn lemma_four(props: Seq<Prop>, id: u8)
    requires
        grammar::all_proper(props),
        grammar::said(props, id) is Some,
    ensures
        0 <= grammar::said(props, id)->0 <= 0xFFFF_FFFF,
{
    grammar::lemma_said(props, id);
    let value = grammar::said(props, id)->0;
    let i = choose|i: int|
        0 <= i < props.len() && (#[trigger] props[i]).id() == id && props[i].number() == value;
    assert(props[i].proper());
}

/// **Law.** A CONNECT that went out is read by a broker as it was meant, all of
/// it and nothing else. From then on its keep-alive holds, until the broker says
/// another.
pub proof fn law_connect_goes_out(before: Moment, after: Moment, connect: Connect<'_>)
    requires
        connect::connect_size(connect) is Ok,
        announce::connect_sent(
            before,
            after,
            connect,
            (connect::connect_size(connect)->Ok_0).remaining_length,
            Ok(()),
        ),
        transport::honest(after.wire.skip(before.wire.len() as int)),
        connect.properties@.len() == 0 || grammar::spelled(connect.properties@),
    ensures
        outgoing::says_connect(
            transport::all_taken(after.wire.skip(before.wire.len() as int)),
            connect,
        ),
        after.context.properties.server.keep_alive == connect.info.keep_alive_seconds,
        after.context.properties.server.max_packet_size
            == before.context.properties.server.max_packet_size,
        after.context.records == before.context.records,
{
    let n = (connect::connect_size(connect)->Ok_0).remaining_length;
    let bytes = connect::connect_bytes(connect, n);
    let context = announce::announced(before.context, connect).1;
    let start = Moment { context, ..before };
    let outcome = choose|outcome: SendOutcome| #[trigger]
        send::sending(start, after, bytes, true, outcome) && Ok::<(), ClientError>(()) == if outcome
            == SendOutcome::Sent(bytes.len() as usize) {
            Ok::<(), ClientError>(())
        } else {
            Err(ClientError::SendFailed)
        };
    outgoing::lemma_connect_read(connect);
    lemma_connect_fits(connect);
    transport::law_send_is_given_up(start, after, bytes, true, outcome);
    transport::law_sent_is_taken(start, after, bytes, true, bytes.len() as usize);
    if connect.properties@.len() > 0 {
        let props = choose|props: Seq<Prop>| #[trigger]
            grammar::all_proper(props) && grammar::section(props) == connect.properties@;
        let held = crate::context::ConnectionProperties {
            server: crate::context::ServerLimits {
                keep_alive: connect.info.keep_alive_seconds,
                ..before.context.properties.server
            },
            ..before.context.properties
        };
        sections::law_announced_limits(props, held);
    }
}

/// A CONNECT that may be sent has as many bytes as can be counted.
proof fn lemma_connect_fits(connect: Connect<'_>)
    requires
        connect::connect_size(connect) is Ok,
    ensures
        connect::connect_bytes(
            connect,
            (connect::connect_size(connect)->Ok_0).remaining_length,
        ).len() <= 268_435_470,
{
    let size = connect::connect_size(connect)->Ok_0;
    let buffer = Seq::new(size.packet_size as nat, |i: int| 0u8);
    connect::law_connect_size_is_written(buffer, connect);
}

// ---------------------------------------------------------------------------
// A fresh session
// ---------------------------------------------------------------------------

/// The smaller of two.
pub open spec fn least(a: nat, b: nat) -> nat {
    if a < b {
        a
    } else {
        b
    }
}

/// **Law.** A session that the broker does not keep begins afresh: the
/// connection is up, no answer is awaited, the keep-alive is the one agreed on,
/// the network buffer is cleared, and nothing is in flight. There are no more
/// places for what is sent than the broker receives at a time, and no more for
/// what arrives than this client does. The store is asked to forget just the
/// publishes that would have been sent again. Nothing is sent.
pub proof fn law_session_begins_afresh<S: Store>(
    before: Moment,
    after: Moment,
    store: Option<S>,
    asked: Seq<Keeping>,
    result: Result<(), ClientError>,
    held: RecordsModel,
)
    requires
        opening::session_begun(before, after, store, false, asked, result),
        before.context.records == Some(held),
        held.well_formed(),
    ensures
        result is Ok,
        after.wire == before.wire,
        after.context.status is Connected,
        !after.context.waiting_for_ping_resp,
        after.context.ping_req_send_time == 0,
        after.context.keep_alive_seconds == before.context.properties.server.keep_alive,
        after.context.properties == before.context.properties,
        after.context.index == 0,
        after.context.network.len() == before.context.network.len(),
        forall|i: int|
            0 <= i < after.context.network.len() ==> #[trigger] after.context.network[i] == 0,
        after.context.records matches Some(now) && {
            &&& now.outgoing.len() == least(
                held.outgoing.len(),
                before.context.properties.server.receive_max as nat,
            )
            &&& now.incoming.len() == least(
                held.incoming.len(),
                before.context.properties.client.receive_max as nat,
            )
            &&& forall|i: int|
                0 <= i < now.outgoing.len() ==> #[trigger] now.outgoing[i] == records::free()
            &&& forall|i: int|
                0 <= i < now.incoming.len() ==> #[trigger] now.incoming[i] == records::free()
        },
        store is None ==> asked.len() == 0,
        store is Some ==> {
            let places = held.outgoing.take(
                least(
                    held.outgoing.len(),
                    before.context.properties.server.receive_max as nat,
                ) as int,
            );
            let ids = records::ids_of(places.filter(records::publish_owed()));
            &&& asked.len() == ids.len()
            &&& forall|i: int|
                0 <= i < ids.len() ==> #[trigger] asked[i] == (Keeping::Clear {
                    key: ids[i] as u32,
                })
        },
{
    let n = least(held.outgoing.len(), before.context.properties.server.receive_max as nat);
    let places = held.outgoing.take(n as int);
    assert(held.outgoing.take(held.outgoing.len() as int) =~= held.outgoing);
    assert(state::well_formed(places)) by {
        assert forall|i: int| 0 <= i < places.len() implies places[i] == held.outgoing[i] by {}
        assert forall|i: int| 0 <= i < places.len() && (#[trigger] places[i]).vacant() implies places[i]
            == state::empty_record() by {
            assert(held.outgoing[i].vacant());
        }
        assert forall|i: int|
            0 <= i < places.len() && !(#[trigger] places[i]).vacant() implies places[i].qos
            != state::QoS::AtMostOnce && places[i].state != PublishState::Null && places[i].state
            != PublishState::PublishDone by {
            assert(!held.outgoing[i].vacant());
        }
        assert forall|i: int, j: int|
            0 <= i < j < places.len() && !places[i].vacant() implies (
        #[trigger] places[i]).packet_id != (#[trigger] places[j]).packet_id by {
            assert(!held.outgoing[i].vacant());
            assert(held.outgoing[i].packet_id != held.outgoing[j].packet_id);
        }
    }
    records::law_what_is_owed(places);
}

// ---------------------------------------------------------------------------
// A session that goes on
// ---------------------------------------------------------------------------

/// What is kept under the keys of these identifiers, one behind the other.
pub open spec fn kept_of<S: Store>(store: S, ids: Seq<u16>, further: int) -> Seq<u8>
    decreases ids.len(),
{
    if ids.len() == 0 {
        Seq::empty()
    } else {
        store.kept((ids[0] + further) as u32)->0 + kept_of(store, ids.drop_first(), further)
    }
}

proof fn lemma_taken_joins(a: Seq<crate::reader::Exchange>, b: Seq<crate::reader::Exchange>)
    ensures
        transport::all_taken(a + b) == transport::all_taken(a) + transport::all_taken(b),
    decreases b.len(),
{
    if b.len() == 0 {
        assert(a + b =~= a);
        assert(transport::all_taken(a) + transport::all_taken(b) =~= transport::all_taken(a));
    } else {
        lemma_taken_joins(a, b.drop_last());
        assert((a + b).drop_last() =~= a + b.drop_last());
        let last = transport::offered(b.last()).take(transport::took(b.last()) as int);
        assert(transport::all_taken(a + b) =~= transport::all_taken(a) + (transport::all_taken(
            b.drop_last(),
        ) + last));
    }
}

/// Two stretches of exchanges, one behind the other.
proof fn lemma_two_stretches(first: Moment, second: Moment, third: Moment)
    requires
        first.wire.is_prefix_of(second.wire),
        second.wire.is_prefix_of(third.wire),
        transport::honest(third.wire.skip(first.wire.len() as int)),
    ensures
        first.wire.is_prefix_of(third.wire),
        transport::honest(second.wire.skip(first.wire.len() as int)),
        transport::honest(third.wire.skip(second.wire.len() as int)),
        transport::all_taken(third.wire.skip(first.wire.len() as int)) == transport::all_taken(
            second.wire.skip(first.wire.len() as int),
        ) + transport::all_taken(third.wire.skip(second.wire.len() as int)),
{
    let x = second.wire.skip(first.wire.len() as int);
    let y = third.wire.skip(second.wire.len() as int);
    let whole = third.wire.skip(first.wire.len() as int);
    assert(whole =~= x + y);
    assert forall|i: int| 0 <= i < x.len() implies transport::took(#[trigger] x[i])
        <= transport::offered(x[i]).len() by {
        assert(x[i] == whole[i]);
    }
    assert forall|i: int| 0 <= i < y.len() implies transport::took(#[trigger] y[i])
        <= transport::offered(y[i]).len() by {
        assert(y[i] == whole[i + x.len()]);
    }
    lemma_taken_joins(x, y);
}

proof fn lemma_resent_extends<S: Store>(
    count: nat,
    store: S,
    pubrels: bool,
    from: int,
    before: Moment,
    after: Moment,
    result: Result<(), ClientError>,
)
    requires
        resume::resent(count, store, pubrels, from, before, after, result),
    ensures
        before.wire.is_prefix_of(after.wire),
        result is Ok ==> after.context.records == before.context.records,
    decreases count,
{
    reveal(send::sending);
    if let Some(packet_id) = resume::to_resend(before.context, pubrels, from) {
        if let Some(packet) = store.kept(resume::resend_key(pubrels, packet_id)) {
            if packet.len() <= crate::context::MAX_PACKET_SIZE {
                let (sent, outcome) = choose|sent: Moment, outcome: SendOutcome| #[trigger]
                    send::sending(before, sent, packet, false, outcome) && if outcome
                        == SendOutcome::Sent(packet.len() as usize) {
                        &&& count > 0
                        &&& resume::resent(
                            (count - 1) as nat,
                            store,
                            pubrels,
                            resume::resend_goes_on(before.context, pubrels, from),
                            sent,
                            after,
                            result,
                        )
                    } else {
                        &&& count == 0
                        &&& after == sent
                        &&& result == Err::<(), ClientError>(ClientError::SendFailed)
                    };
                if outcome == SendOutcome::Sent(packet.len() as usize) {
                    lemma_resent_extends(
                        (count - 1) as nat,
                        store,
                        pubrels,
                        resume::resend_goes_on(before.context, pubrels, from),
                        sent,
                        after,
                        result,
                    );
                }
            }
        }
    }
}

proof fn lemma_resent<S: Store>(
    count: nat,
    store: S,
    pubrels: bool,
    from: int,
    before: Moment,
    after: Moment,
    held: RecordsModel,
)
    requires
        resume::resent(count, store, pubrels, from, before, after, Ok(())),
        before.context.records == Some(held),
        transport::honest(after.wire.skip(before.wire.len() as int)),
    ensures
        ({
            let ids = resume::resend_ids(held.outgoing, pubrels, from);
            let further = if pubrels {
                65_536int
            } else {
                0
            };
            transport::all_taken(after.wire.skip(before.wire.len() as int)) == kept_of(
                store,
                ids,
                further,
            )
        }),
    decreases count,
{
    let further = if pubrels {
        65_536int
    } else {
        0
    };
    let ids = resume::resend_ids(held.outgoing, pubrels, from);
    match resume::to_resend(before.context, pubrels, from) {
        None => {
            assert(after.wire.skip(before.wire.len() as int) =~= Seq::empty());
        },
        Some(packet_id) => {
            let packet = store.kept(resume::resend_key(pubrels, packet_id))->0;
            let next = resume::resend_goes_on(before.context, pubrels, from);
            let (sent, outcome) = choose|sent: Moment, outcome: SendOutcome| #[trigger]
                send::sending(before, sent, packet, false, outcome) && if outcome
                    == SendOutcome::Sent(packet.len() as usize) {
                    &&& count > 0
                    &&& resume::resent(
                        (count - 1) as nat,
                        store,
                        pubrels,
                        next,
                        sent,
                        after,
                        Ok(()),
                    )
                } else {
                    &&& count == 0
                    &&& after == sent
                    &&& Ok::<(), ClientError>(()) == Err::<(), ClientError>(
                        ClientError::SendFailed,
                    )
                };
            lemma_resent_extends((count - 1) as nat, store, pubrels, next, sent, after, Ok(()));
            assert(before.wire.is_prefix_of(sent.wire)) by {
                reveal(send::sending);
            }
            lemma_two_stretches(before, sent, after);
            transport::law_sent_is_taken(before, sent, packet, false, packet.len() as usize);
            transport::law_send_is_given_up(before, sent, packet, false, outcome);
            lemma_resent((count - 1) as nat, store, pubrels, next, sent, after, held);
            resume::lemma_scan_goes_on(held.outgoing, pubrels, from);
            let rest = resume::resend_ids(held.outgoing, pubrels, next);
            assert(ids == seq![packet_id] + rest);
            assert(ids.drop_first() =~= rest);
            assert(ids[0] == packet_id);
        },
    }
}

/// **Law.** A session that is taken up with a store sends again what it keeps,
/// whole and in order: first every PUBREL whose PUBCOMP has not come, then every
/// publish whose first acknowledgement has not come, and nothing else.
pub proof fn law_session_is_taken_up<S: Store>(
    before: Moment,
    after: Moment,
    store: S,
    held: RecordsModel,
)
    requires
        resume::resumed(before, after, Some(store), Ok(())),
        before.context.records == Some(held),
        held.well_formed(),
        transport::honest(after.wire.skip(before.wire.len() as int)),
    ensures
        transport::all_taken(after.wire.skip(before.wire.len() as int)) == kept_of(
            store,
            records::ids_of(held.outgoing.filter(records::pubrel_owed())),
            65_536,
        ) + kept_of(
            store,
            records::ids_of(held.outgoing.filter(records::publish_owed())),
            0,
        ),
{
    let (middle, first) = choose|middle: Moment, first: Result<(), ClientError>| #[trigger]
        resume::pubrels_resumed(before, middle, Some(store), first) && if first is Ok {
            resume::publishes_resumed(middle, after, Some(store), Ok(()))
        } else {
            after == middle && Ok::<(), ClientError>(()) == first
        };
    if let Ok(unit) = first {
        assert(unit == ());
    }
    assert(first is Ok);
    assert(first == Ok::<(), ClientError>(()));
    let one = choose|count: nat| #[trigger]
        resume::resent(count, store, true, 0, before, middle, first);
    let two = choose|count: nat| #[trigger]
        resume::resent(count, store, false, 0, middle, after, Ok(()));
    lemma_resent_extends(one, store, true, 0, before, middle, first);
    lemma_resent_extends(two, store, false, 0, middle, after, Ok(()));
    lemma_two_stretches(before, middle, after);
    lemma_resent(one, store, true, 0, before, middle, held);
    lemma_resent(two, store, false, 0, middle, after, held);
    records::law_what_is_owed(held.outgoing);
}

/// The PUBRELs of these identifiers, one behind the other.
pub open spec fn pubrels_of(ids: Seq<u16>) -> Seq<u8>
    decreases ids.len(),
{
    if ids.len() == 0 {
        Seq::empty()
    } else {
        seq![0x62u8, 0x02u8] + wire::u16_bytes(ids[0]) + pubrels_of(ids.drop_first())
    }
}

/// A PUBREL that went out again.
proof fn lemma_pubrel_again(before: Moment, after: Moment, packet_id: u16, held: RecordsModel)
    requires
        resume::ack_sent_again(before, after, packet_id, PublishState::PubRelSend, Ok(())),
        before.context.records == Some(held),
    ensures
        before.wire.is_prefix_of(after.wire),
        transport::honest(after.wire.skip(before.wire.len() as int)) ==> transport::all_taken(
            after.wire.skip(before.wire.len() as int),
        ) == seq![0x62u8, 0x02u8] + wire::u16_bytes(packet_id),
        after.context.records == Some(
            held.after_ack(packet_id, state::AckType::PubRel, Operation::Send).1,
        ),
        held.after_ack(packet_id, state::AckType::PubRel, Operation::Send).0 is Ok,
{
    let bytes = crate::outbound::simple_ack_bytes(0x62, packet_id);
    let result = Ok::<(), ClientError>(());
    let (sent, outcome) = choose|sent: Moment, outcome: SendOutcome| #[trigger]
        send::sending(before, sent, bytes, false, outcome) && if outcome == SendOutcome::Sent(4) {
            let (noted, context) = resume::ack_noted(
                sent.context,
                packet_id,
                resume::ack_meant(0x62)->0,
            );
            result == noted && after == (Moment { context, ..sent })
        } else {
            result == Err::<(), ClientError>(ClientError::SendFailed) && after == sent
        };
    transport::law_sent_is_taken(before, sent, bytes, false, 4);
    transport::law_send_is_given_up(before, sent, bytes, false, outcome);
    assert(bytes =~= seq![0x62u8, 0x02u8] + wire::u16_bytes(packet_id));
    reveal(send::sending);
}

/// A scan finds the same in arrays with the same identifiers, of which it wants
/// the same.
proof fn lemma_scans_alike(a: Seq<Record>, b: Seq<Record>, from: int)
    requires
        a.len() == b.len(),
        forall|i: int|
            0 <= i < a.len() ==> (#[trigger] a[i]).packet_id == (#[trigger] b[i]).packet_id
                && state::wanted(true, a[i].state) == state::wanted(true, b[i].state),
        0 <= from,
    ensures
        state::next_wanted(a, true, from) == state::next_wanted(b, true, from),
        resume::resend_ids(a, true, from) == resume::resend_ids(b, true, from),
    decreases a.len() - from,
{
    if from < a.len() {
        assert(a[from].packet_id == b[from].packet_id);
        lemma_scans_alike(a, b, from + 1);
        let place = state::next_wanted(a, true, from);
        assert(place == state::next_wanted(b, true, from));
        resume::lemma_scan_goes_on(a, true, from);
        if place < a.len() {
            assert(a[place].packet_id == b[place].packet_id);
            if state::resend_found(a, true, from) is Some {
                lemma_scans_alike(a, b, place + 1);
            }
        }
    }
}

/// A PUBREL that goes out leaves its record in its place, and wanted.
proof fn lemma_pubrel_step(held: RecordsModel, packet_id: u16)
    requires
        held.after_ack(packet_id, state::AckType::PubRel, Operation::Send).0 is Ok,
    ensures
        ({
            let a = held.outgoing;
            let b = held.after_ack(packet_id, state::AckType::PubRel, Operation::Send).1.outgoing;
            &&& a.len() == b.len()
            &&& forall|i: int|
                0 <= i < a.len() ==> (#[trigger] a[i]).packet_id == (#[trigger] b[i]).packet_id
                    && state::wanted(true, a[i].state) == state::wanted(true, b[i].state)
        }),
{
    let place = state::place_of(held.outgoing, packet_id, 0);
    lemma_place_is_not_before(held.outgoing, packet_id, 0);
    let record = held.outgoing[place];
    let new = state::state_after_ack(state::AckType::PubRel, Operation::Send, record.qos);
    assert(new == PublishState::PubCompPending);
    assert(record.state == PublishState::PubRelSend || record.state
        == PublishState::PubCompPending);
}

proof fn lemma_place_is_not_before(records: Seq<Record>, packet_id: u16, from: int)
    ensures
        0 <= from ==> 0 <= state::place_of(records, packet_id, from),
    decreases records.len() - from,
{
    if from < records.len() && records[from].packet_id != packet_id {
        lemma_place_is_not_before(records, packet_id, from + 1);
    }
}

proof fn lemma_pubrels_sent(
    count: nat,
    from: int,
    before: Moment,
    after: Moment,
    held: RecordsModel,
)
    requires
        resume::pubrels_sent(count, from, before, after, Ok(())),
        before.context.records == Some(held),
        transport::honest(after.wire.skip(before.wire.len() as int)),
        0 <= from,
    ensures
        transport::all_taken(after.wire.skip(before.wire.len() as int)) == pubrels_of(
            resume::resend_ids(held.outgoing, true, from),
        ),
    decreases count,
{
    let ids = resume::resend_ids(held.outgoing, true, from);
    match resume::to_resend(before.context, true, from) {
        None => {
            assert(after.wire.skip(before.wire.len() as int) =~= Seq::empty());
        },
        Some(packet_id) => {
            let next = resume::resend_goes_on(before.context, true, from);
            let (sent, one) = choose|sent: Moment, one: Result<(), ClientError>| #[trigger]
                resume::ack_sent_again(before, sent, packet_id, PublishState::PubRelSend, one)
                    && if one is Ok {
                    &&& count > 0
                    &&& resume::pubrels_sent((count - 1) as nat, next, sent, after, Ok(()))
                } else {
                    count == 0 && after == sent && Ok::<(), ClientError>(()) == one
                };
            lemma_pubrel_again(before, sent, packet_id, held);
            let then = held.after_ack(packet_id, state::AckType::PubRel, Operation::Send).1;
            lemma_pubrels_extend((count - 1) as nat, next, sent, after, then);
            lemma_two_stretches(before, sent, after);
            resume::lemma_scan_goes_on(held.outgoing, true, from);
            lemma_pubrels_sent((count - 1) as nat, next, sent, after, then);
            lemma_pubrel_step(held, packet_id);
            lemma_scans_alike(held.outgoing, then.outgoing, next);
            let rest = resume::resend_ids(held.outgoing, true, next);
            assert(ids == seq![packet_id] + rest);
            assert(ids.drop_first() =~= rest);
            assert(ids[0] == packet_id);
        },
    }
}

proof fn lemma_pubrels_extend(
    count: nat,
    from: int,
    before: Moment,
    after: Moment,
    held: RecordsModel,
)
    requires
        resume::pubrels_sent(count, from, before, after, Ok(())),
        before.context.records == Some(held),
    ensures
        before.wire.is_prefix_of(after.wire),
    decreases count,
{
    if let Some(packet_id) = resume::to_resend(before.context, true, from) {
        let next = resume::resend_goes_on(before.context, true, from);
        let (sent, one) = choose|sent: Moment, one: Result<(), ClientError>| #[trigger]
            resume::ack_sent_again(before, sent, packet_id, PublishState::PubRelSend, one)
                && if one is Ok {
                &&& count > 0
                &&& resume::pubrels_sent((count - 1) as nat, next, sent, after, Ok(()))
            } else {
                count == 0 && after == sent && Ok::<(), ClientError>(()) == one
            };
        lemma_pubrel_again(before, sent, packet_id, held);
        let then = held.after_ack(packet_id, state::AckType::PubRel, Operation::Send).1;
        lemma_pubrels_extend((count - 1) as nat, next, sent, after, then);
    }
}

/// **Law.** A session that is taken up without a store sends a PUBREL again for
/// every publish whose PUBCOMP has not come, in order, and nothing else.
pub proof fn law_session_is_taken_up_without_store<S: Store>(
    before: Moment,
    after: Moment,
    store: Option<S>,
    held: RecordsModel,
)
    requires
        store is None,
        resume::resumed(before, after, store, Ok(())),
        before.context.records == Some(held),
        held.well_formed(),
        transport::honest(after.wire.skip(before.wire.len() as int)),
    ensures
        transport::all_taken(after.wire.skip(before.wire.len() as int)) == pubrels_of(
            records::ids_of(held.outgoing.filter(records::pubrel_owed())),
        ),
{
    let (middle, first) = choose|middle: Moment, first: Result<(), ClientError>| #[trigger]
        resume::pubrels_resumed(before, middle, store, first) && if first is Ok {
            resume::publishes_resumed(middle, after, store, Ok(()))
        } else {
            after == middle && Ok::<(), ClientError>(()) == first
        };
    if let Ok(unit) = first {
        assert(unit == ());
    }
    assert(first is Ok);
    assert(first == Ok::<(), ClientError>(()));
    let count = choose|count: nat| #[trigger]
        resume::pubrels_sent(count, 0, before, middle, first);
    lemma_pubrels_sent(count, 0, before, middle, held);
    records::law_what_is_owed(held.outgoing);
}

/// **Law.** A session that the broker keeps is taken up on a connection that is
/// up, with the keep-alive agreed on and no answer awaited; nothing is asked of
/// the store but what is sent again.
pub proof fn law_session_goes_on<S: Store>(
    before: Moment,
    after: Moment,
    store: Option<S>,
    asked: Seq<Keeping>,
    result: Result<(), ClientError>,
)
    requires
        opening::session_begun(before, after, store, true, asked, result),
    ensures
        asked.len() == 0,
        ({
            let start = opening::up(opening::capped(before.context));
            &&& resume::resumed(Moment { context: start, ..before }, after, store, result)
            &&& start.status is Connected
            &&& !start.waiting_for_ping_resp
            &&& start.keep_alive_seconds == before.context.properties.server.keep_alive
            &&& start.network == before.context.network
            &&& before.context.records matches Some(held) ==> start.records == Some(
                RecordsModel {
                    outgoing: held.outgoing.take(
                        least(
                            held.outgoing.len(),
                            before.context.properties.server.receive_max as nat,
                        ) as int,
                    ),
                    incoming: held.incoming.take(
                        least(
                            held.incoming.len(),
                            before.context.properties.client.receive_max as nat,
                        ) as int,
                    ),
                },
            )
        }),
{
    if let Some(held) = before.context.records {
        assert(held.outgoing.take(held.outgoing.len() as int) =~= held.outgoing);
        assert(held.incoming.take(held.incoming.len() as int) =~= held.incoming);
    }
}

/// **Law.** What a CONNACK says of the session is what is handed out, and where
/// none said anything, that stays as it was.
pub proof fn law_session_is_made_known(kept: bool, before: bool)
    ensures
        opening::known(Some(kept), before) == kept,
        opening::known(None, before) == before,
{
}

/// **Law.** A connect that failed leaves no connection up: one that was up is
/// left to be closed.
pub proof fn law_failed_connect_is_not_up(context: ContextModel, result: Result<(), ClientError>)
    ensures
        result is Err ==> !(opening::given_up(context, result).status is Connected),
        result is Ok ==> opening::given_up(context, result) == context,
        result is Err && context.status is Connected ==> opening::given_up(context, result).status
            is DisconnectPending,
{
}

/// **Law.** What answers a CONNECT has to be a CONNACK, and all of it has to
/// come: otherwise nothing is taken in, nothing becomes known of the session,
/// and that is what is said.
pub proof fn law_only_a_connack_answers(
    headed: Moment,
    read: Moment,
    after: Moment,
    header: Result<crate::reader::IncomingHeader, crate::reader::ReadError>,
    clean: bool,
    kept: Option<bool>,
    result: Result<(), ClientError>,
)
    requires
        session::connack_followed(headed, read, after, header, clean, kept, result),
    ensures
        header matches Ok(h) && h.packet_type != 0x20 ==> {
            &&& result == Err::<(), ClientError>(ClientError::BadResponse)
            &&& kept is None
            &&& after == headed
        },
        header is Err ==> result is Err && kept is None && after == headed,
        header matches Ok(h) && h.remaining_length > headed.context.network.len() ==> result is Err
            && kept is None && after.wire == headed.wire,
        result is Ok ==> kept is Some && header is Ok && header->Ok_0.packet_type == 0x20,
{
}

} // verus!
