//! What a transport has taken and brought.

use vstd::prelude::*;

use crate::client::send;
use crate::client::send::SendOutcome;
use crate::client::{ContextModel, Moment};
use crate::reader;
use crate::reader::{Exchange, Recv, Sent};
use crate::session;
use crate::session::ReadOutcome;
use crate::wire;

verus! {

/// The bytes that an exchange offered.
pub open spec fn offered(exchange: Exchange) -> Seq<u8> {
    match exchange {
        Exchange::Receive { .. } => Seq::empty(),
        Exchange::Offer { bytes, .. } => bytes,
        Exchange::OfferAll { parts, .. } => parts.flatten(),
    }
}

/// How many bytes an exchange took of those offered.
pub open spec fn took(exchange: Exchange) -> nat {
    match exchange {
        Exchange::Offer { took: Sent::Bytes(count), .. } => count as nat,
        Exchange::OfferAll { took: Sent::Bytes(count), .. } => count as nat,
        _ => 0,
    }
}

/// All bytes that the exchanges took, one behind the other.
pub open spec fn all_taken(exchanges: Seq<Exchange>) -> Seq<u8>
    decreases exchanges.len(),
{
    if exchanges.len() == 0 {
        Seq::empty()
    } else {
        all_taken(exchanges.drop_last()) + offered(exchanges.last()).take(
            took(exchanges.last()) as int,
        )
    }
}

/// No exchange claims to have taken more than it was offered.
pub open spec fn honest(exchanges: Seq<Exchange>) -> bool {
    forall|i: int|
        0 <= i < exchanges.len() ==> took(#[trigger] exchanges[i]) <= offered(exchanges[i]).len()
}

/// The bytes that an exchange brought.
pub open spec fn arrived_with(exchange: Exchange) -> Seq<u8> {
    match exchange {
        Exchange::Receive { got: Recv::Bytes(count), buffer } => buffer.take(count as int),
        _ => Seq::empty(),
    }
}

/// All bytes that the exchanges brought, one behind the other.
pub open spec fn all_arrived(exchanges: Seq<Exchange>) -> Seq<u8>
    decreases exchanges.len(),
{
    if exchanges.len() == 0 {
        Seq::empty()
    } else {
        all_arrived(exchanges.drop_last()) + arrived_with(exchanges.last())
    }
}

/// No exchange claims to have brought more than it was asked for.
pub open spec fn honestly_brought(exchanges: Seq<Exchange>) -> bool {
    forall|i: int|
        0 <= i < exchanges.len() ==> (#[trigger] exchanges[i] matches Exchange::Receive {
            got: Recv::Bytes(count),
            buffer,
        } ==> count <= buffer.len())
}

proof fn lemma_taken(whole: Seq<u8>, exchanges: Seq<Exchange>, gather: bool)
    requires
        send::in_turn(whole, exchanges, gather),
        honest(exchanges),
    ensures
        send::accepted(exchanges, whole.len()) <= whole.len(),
        all_taken(exchanges) == whole.take(send::accepted(exchanges, whole.len()) as int),
    decreases exchanges.len(),
{
    if exchanges.len() == 0 {
        assert(whole.take(0) =~= Seq::empty());
    } else {
        let before = exchanges.drop_last();
        let last = exchanges.last();
        let n = exchanges.len() - 1;
        assert forall|i: int| 0 <= i < before.len() implies #[trigger] send::offered_at(
            whole,
            before,
            gather,
            i,
        ) by {
            assert(send::offered_at(whole, exchanges, gather, i));
            assert(before.take(i) =~= exchanges.take(i));
        }
        assert forall|i: int| 0 <= i < before.len() implies took(#[trigger] before[i]) <= offered(
            before[i],
        ).len() by {
            assert(before[i] == exchanges[i]);
        }
        lemma_taken(whole, before, gather);
        assert(exchanges.take(n) =~= before);
        assert(send::offered_at(whole, exchanges, gather, n));
        let done = send::accepted(before, whole.len()) as int;
        let rest = whole.skip(done);
        assert(took(exchanges[n]) <= offered(exchanges[n]).len());
        assert(send::claimed(last) == took(last));
        assert(offered(last).is_prefix_of(rest));
        assert(offered(last).take(took(last) as int) =~= rest.take(took(last) as int));
        assert(whole.take(done + took(last)) =~= whole.take(done) + rest.take(took(last) as int));
    }
}

/// **Law.** What a transport that is honest has taken, when something was sent,
/// is the front of that: nothing is left out, nothing comes twice and nothing
/// else goes out. If all was sent, it is just that. Whatever a transport says,
/// no more is counted than there was.
pub proof fn law_sent_is_taken(
    before: Moment,
    after: Moment,
    whole: Seq<u8>,
    gather: bool,
    count: usize,
)
    requires
        send::sending(before, after, whole, gather, SendOutcome::Sent(count)),
    ensures
        ({
            let exchanges = after.wire.skip(before.wire.len() as int);
            &&& count <= whole.len()
            &&& honest(exchanges) ==> all_taken(exchanges) == whole.take(count as int)
            &&& honest(exchanges) && count == whole.len() ==> all_taken(exchanges) == whole
        }),
{
    reveal(send::sending);
    let exchanges = reader::since(before.wire, after.wire);
    lemma_accepted(exchanges, whole.len());
    if honest(exchanges) {
        lemma_taken(whole, exchanges, gather);
        assert(whole.take(whole.len() as int) =~= whole);
    }
}

proof fn lemma_accepted(exchanges: Seq<Exchange>, size: nat)
    ensures
        send::accepted(exchanges, size) <= size,
    decreases exchanges.len(),
{
    if exchanges.len() > 0 {
        lemma_accepted(exchanges.drop_last(), size);
    }
}

/// The time from one reading of a clock to another, which may have run over in
/// between.
pub open spec fn waited(then: u32, now: u32) -> int {
    (now - then) % 0x1_0000_0000
}

/// **Law.** Nothing is given up before its time: a send that did not get all out
/// and did not fail has gone on for 20 seconds since it began, or as many offers
/// in a row as can be counted have brought it no further. A send that failed did so at its last
/// offer, which leaves a connection pending to be closed and nothing else
/// changed. Only the time of the last packet changes otherwise.
pub proof fn law_send_is_given_up(
    before: Moment,
    after: Moment,
    whole: Seq<u8>,
    gather: bool,
    outcome: SendOutcome,
)
    requires
        send::sending(before, after, whole, gather, outcome),
    ensures
        ({
            let exchanges = after.wire.skip(before.wire.len() as int);
            let readings = after.ticks.skip(before.ticks.len() as int);
            &&& outcome matches SendOutcome::Sent(count) ==> {
                &&& after.context.status == before.context.status
                &&& readings.len() == exchanges.len() + 1
                &&& count < whole.len() ==> waited(readings[0], readings.last()) >= 20_000 || (
                exchanges.len() >= 0xFFFF_FFFF_FFFF_FFFF && forall|i: int|
                    exchanges.len() - 0xFFFF_FFFF_FFFF_FFFF <= i < exchanges.len() ==> took(
                        #[trigger] exchanges[i],
                    ) == 0)
            }
            &&& outcome is Failed ==> {
                &&& exchanges.len() > 0 && send::failed(exchanges.last())
                &&& before.context.status is Connected ==> after.context.status
                    is DisconnectPending
                &&& !(before.context.status is Connected) ==> after.context.status
                    == before.context.status
            }
            &&& after.context == (ContextModel {
                status: after.context.status,
                last_packet_tx_time: after.context.last_packet_tx_time,
                ..before.context
            })
            &&& after.context.last_packet_tx_time != before.context.last_packet_tx_time
                ==> readings.contains(after.context.last_packet_tx_time)
        }),
{
    reveal(send::sending);
    let exchanges = reader::since(before.wire, after.wire);
    let readings = reader::since(before.ticks, after.ticks);
    lemma_last_taken(exchanges);
}

proof fn lemma_last_taken(exchanges: Seq<Exchange>)
    ensures
        send::last_taken(exchanges) <= exchanges.len(),
        send::last_taken(exchanges) == 0 || took(exchanges[send::last_taken(exchanges) - 1]) > 0,
        forall|i: int|
            send::last_taken(exchanges) <= i < exchanges.len() ==> took(#[trigger] exchanges[i])
                == 0,
    decreases exchanges.len(),
{
    if exchanges.len() > 0 && !(send::claimed(exchanges.last()) > 0) {
        let before = exchanges.drop_last();
        lemma_last_taken(before);
        assert forall|i: int| send::last_taken(exchanges) <= i < exchanges.len() implies took(
            #[trigger] exchanges[i],
        ) == 0 by {
            if i < before.len() {
                assert(before[i] == exchanges[i]);
            }
        }
    }
}

proof fn lemma_brought(network: Seq<u8>, exchanges: Seq<Exchange>, wanted: nat)
    requires
        session::asked_in_turn(exchanges, wanted),
        honestly_brought(exchanges),
        wanted <= network.len(),
    ensures
        ({
            let now = session::landed(network, exchanges, wanted);
            &&& session::arrived(exchanges, wanted) == all_arrived(exchanges).len()
            &&& all_arrived(exchanges).len() <= wanted
            &&& now.len() == network.len()
            &&& now.take(all_arrived(exchanges).len() as int) == all_arrived(exchanges)
            &&& now.skip(wanted as int) == network.skip(wanted as int)
        }),
    decreases exchanges.len(),
{
    let now = session::landed(network, exchanges, wanted);
    if exchanges.len() == 0 {
        assert(network.take(0) =~= Seq::empty());
    } else {
        let before = exchanges.drop_last();
        let last = exchanges.last();
        let n = exchanges.len() - 1;
        assert forall|i: int| 0 <= i < before.len() implies #[trigger] session::asked_at(
            before,
            wanted,
            i,
        ) by {
            assert(session::asked_at(exchanges, wanted, i));
            assert(before.take(i) =~= exchanges.take(i));
        }
        assert forall|i: int| 0 <= i < before.len() implies (
        #[trigger] before[i] matches Exchange::Receive {
            got: Recv::Bytes(count),
            buffer,
        } ==> count <= buffer.len()) by {
            assert(before[i] == exchanges[i]);
        }
        lemma_brought(network, before, wanted);
        assert(exchanges.take(n) =~= before);
        assert(session::asked_at(exchanges, wanted, n));
        assert(exchanges[n] == last);
        let then = session::landed(network, before, wanted);
        let done = all_arrived(before).len() as int;
        let buffer = session::brought_into(last);
        assert(now == wire::overwrite(then, done, buffer));
        assert(now == then.take(done) + buffer + then.skip(done + buffer.len()));
        assert(now.skip(wanted as int) =~= then.skip(wanted as int));
        let more = arrived_with(last);
        assert(more =~= buffer.take(more.len() as int));
        assert(now.take(done + more.len()) =~= then.take(done) + more);
    }
}

/// **Law.** What an honest transport has brought, when bytes were read, stands
/// at the front of the network buffer in the order in which it came, and what
/// lies beyond the bytes asked for is as it was. As many bytes are counted as
/// came.
pub proof fn law_read_is_brought(before: Moment, after: Moment, wanted: nat, count: usize)
    requires
        session::receiving(before, after, wanted, ReadOutcome::Bytes(count)),
        honestly_brought(after.wire.skip(before.wire.len() as int)),
    ensures
        ({
            let came = all_arrived(after.wire.skip(before.wire.len() as int));
            &&& count == came.len() <= wanted
            &&& after.context.network.take(count as int) == came
            &&& after.context.network.skip(wanted as int) == before.context.network.skip(
                wanted as int,
            )
            &&& after.context.network.len() == before.context.network.len()
            &&& after.context.status == before.context.status
        }),
{
    reveal(session::receiving);
    lemma_brought(before.context.network, reader::since(before.wire, after.wire), wanted);
}

/// **Law.** A read is not given up before its time: if not all came that was
/// wanted, the transport had brought nothing for 10 milliseconds, or for
/// as many questions in a row as can be counted.
pub proof fn law_read_is_given_up(before: Moment, after: Moment, wanted: nat, count: usize)
    requires
        session::receiving(before, after, wanted, ReadOutcome::Bytes(count)),
        count < wanted,
    ensures
        ({
            let exchanges = after.wire.skip(before.wire.len() as int);
            let readings = after.ticks.skip(before.ticks.len() as int);
            exists|heard: int|
                {
                    &&& 0 <= heard <= exchanges.len()
                    &&& #[trigger] waited(readings[heard], readings.last()) >= 10
                        || exchanges.len() - heard >= 0xFFFF_FFFF_FFFF_FFFF
                    &&& forall|i: int|
                        heard <= i < exchanges.len() ==> arrived_with(
                            #[trigger] exchanges[i],
                        ).len() == 0
                }
        }),
{
    reveal(session::receiving);
    let exchanges = reader::since(before.wire, after.wire);
    let readings = reader::since(before.ticks, after.ticks);
    lemma_last_heard(exchanges);
    let heard = session::last_heard(exchanges) as int;
    assert(exchanges.take(exchanges.len() as int) =~= exchanges);
    assert(waited(readings[heard], readings.last()) >= 10 || exchanges.len() - heard >= 0xFFFF_FFFF_FFFF_FFFF);
}

proof fn lemma_last_heard(exchanges: Seq<Exchange>)
    ensures
        session::last_heard(exchanges) <= exchanges.len(),
        forall|i: int|
            session::last_heard(exchanges) <= i < exchanges.len() ==> arrived_with(
                #[trigger] exchanges[i],
            ).len() == 0,
    decreases exchanges.len(),
{
    if exchanges.len() > 0 && !(session::brought(exchanges.last()) > 0) {
        let before = exchanges.drop_last();
        lemma_last_heard(before);
        assert forall|i: int| session::last_heard(exchanges) <= i
            < exchanges.len() implies arrived_with(#[trigger] exchanges[i]).len() == 0 by {
            if i < before.len() {
                assert(before[i] == exchanges[i]);
            }
        }
    }
}

/// **Law.** Nothing is offered any more once 20 seconds have passed since a send
/// began, or once an offer has failed.
pub proof fn law_send_stops(
    before: Moment,
    after: Moment,
    whole: Seq<u8>,
    gather: bool,
    outcome: SendOutcome,
    i: int,
)
    requires
        send::sending(before, after, whole, gather, outcome),
        0 < i < after.wire.skip(before.wire.len() as int).len(),
    ensures
        ({
            let exchanges = after.wire.skip(before.wire.len() as int);
            let readings = after.ticks.skip(before.ticks.len() as int);
            &&& waited(readings[0], readings[i]) < 20_000
            &&& !send::failed(exchanges[i - 1])
        }),
{
    reveal(send::sending);
    let readings = reader::since(before.ticks, after.ticks);
    assert(!send::time_is_up(readings, i));
}

/// **Law.** A read that failed did so at its last question, which leaves a
/// connection pending to be closed; or it was for more than there is room for,
/// and then nothing was asked and nothing changed.
pub proof fn law_read_fails(before: Moment, after: Moment, wanted: nat)
    requires
        session::receiving(before, after, wanted, ReadOutcome::Failed),
    ensures
        wanted <= before.context.network.len() ==> {
            &&& after.wire.len() > before.wire.len() && send::failed(after.wire.last())
            &&& before.context.status is Connected ==> after.context.status is DisconnectPending
            &&& !(before.context.status is Connected) ==> after.context.status
                == before.context.status
        },
        wanted > before.context.network.len() ==> after.wire == before.wire && after.context
            == before.context,
{
    reveal(session::receiving);
    let exchanges = reader::since(before.wire, after.wire);
    if wanted > before.context.network.len() {
        assert(after.wire =~= before.wire);
    } else {
        assert(after.wire.last() == exchanges.last());
    }
}

/// **Law.** The transport is not asked again once it has brought nothing for 10
/// milliseconds, nor once it has failed.
pub proof fn law_read_stops(
    before: Moment,
    after: Moment,
    wanted: nat,
    outcome: ReadOutcome,
    i: int,
)
    requires
        session::receiving(before, after, wanted, outcome),
        0 < i < after.wire.skip(before.wire.len() as int).len(),
        arrived_with(after.wire.skip(before.wire.len() as int)[i - 1]).len() == 0,
        i > 1 ==> arrived_with(after.wire.skip(before.wire.len() as int)[i - 2]).len() > 0,
        honestly_brought(after.wire.skip(before.wire.len() as int)),
    ensures
        ({
            let exchanges = after.wire.skip(before.wire.len() as int);
            let readings = after.ticks.skip(before.ticks.len() as int);
            &&& waited(readings[i - 1], readings[i]) < 10
            &&& !send::failed(exchanges[i - 1])
        }),
{
    reveal(session::receiving);
    let exchanges = reader::since(before.wire, after.wire);
    let readings = reader::since(before.ticks, after.ticks);
    assert(!session::gone_quiet(exchanges, readings, i));
    let done = exchanges.take(i);
    assert(session::asked_at(exchanges, wanted, i - 1));
    assert(done.last() == exchanges[i - 1]);
    assert(done.drop_last() =~= exchanges.take(i - 1));
    if i > 1 {
        assert(session::asked_at(exchanges, wanted, i - 2));
        assert(exchanges.take(i - 1).last() == exchanges[i - 2]);
    } else {
        assert(exchanges.take(0) =~= Seq::empty());
    }
    assert(session::brought(exchanges[i - 1]) == 0);
    let fewer = exchanges.take(i - 1);
    assert(i > 1 ==> session::brought(fewer.last()) > 0);
    assert(session::last_heard(fewer) == i - 1);
    assert(session::last_heard(done) == session::last_heard(done.drop_last()));
}

} // verus!
