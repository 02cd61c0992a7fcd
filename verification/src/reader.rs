//! The transport, and pulling a packet's header off it one byte at a time.
//!
//! A [`Transport`] is a socket, a ring buffer, or a script: something bytes go
//! to and come from. What passes over it is recorded in its
//! [`log`](Transport::log), so that the contract of a function that uses a
//! transport can say what was asked of it and what follows from each answer.
//!
//! A packet type that a client may not receive is refused after one call: the
//! length behind it is never read. And a transport that has nothing is told
//! apart from one that failed only at the type byte. Past it, both mean that
//! the header is malformed.

use vstd::prelude::*;

use crate::header;
use crate::header::{incoming_packet_valid, variable_length_encoded_size};
use crate::wire;
use crate::wire::LengthRead;

verus! {

/// What a transport gave back when asked for one byte.
#[derive(Debug, Clone, Copy, PartialEq, Eq, Structural)]
pub enum Received {
    /// One byte arrived.
    Byte(u8),
    /// Nothing yet.
    Nothing,
    /// The transport failed.
    Failed,
}

/// What a transport did with a request for several bytes.
#[derive(Debug, Clone, Copy, PartialEq, Eq, Structural)]
pub enum Recv {
    /// This many bytes arrived, at the front of the buffer. May be fewer than
    /// asked for.
    Bytes(usize),
    /// None arrived, and nothing is wrong.
    Nothing,
    /// The transport failed.
    Failed,
}

/// What a transport did with the bytes it was offered.
#[derive(Debug, Clone, Copy, PartialEq, Eq, Structural)]
pub enum Sent {
    /// This many bytes were accepted. May be fewer than offered.
    Bytes(usize),
    /// None were accepted, and nothing is wrong.
    Nothing,
    /// The transport failed.
    Failed,
}

/// One call of a transport, and what it answered.
pub enum Exchange {
    /// Bytes were asked for. `buffer` is the whole buffer afterwards.
    Receive { got: Recv, buffer: Seq<u8> },
    /// Bytes were offered.
    Offer { bytes: Seq<u8>, took: Sent },
    /// Several buffers were offered at once.
    OfferAll { parts: Seq<Seq<u8>>, took: Sent },
}

/// The contents of several buffers.
pub open spec fn contents(parts: Seq<&[u8]>) -> Seq<Seq<u8>> {
    Seq::new(parts.len(), |i: int| parts[i]@)
}

/// One byte out of an answer to a request for one.
pub open spec fn received_of(got: Recv, buffer: Seq<u8>) -> Received {
    match got {
        Recv::Failed => Received::Failed,
        Recv::Nothing => Received::Nothing,
        Recv::Bytes(count) => if count == 0 {
            Received::Nothing
        } else {
            Received::Byte(buffer[0])
        },
    }
}

/// Something bytes go to and come from.
pub trait Transport {
    /// Every call so far, with its answer. A transport that is only run, and not
    /// reasoned about, need not say.
    closed spec fn log(&self) -> Seq<Exchange> {
        Seq::empty()
    }

    /// Asks for up to `into.len()` bytes, and says how many arrived.
    ///
    /// A transport may deliver fewer than it is asked for. One that claims to
    /// have delivered more is in error.
    fn recv(&mut self, into: &mut [u8]) -> (got: Recv)
        ensures
            final(into)@.len() == old(into)@.len(),
            final(self).log() == old(self).log().push(
                Exchange::Receive { got, buffer: final(into)@ },
            ),
    ;

    /// Asks for exactly one byte.
    ///
    /// This is [`recv`](Self::recv) with a buffer of one byte. A transport that
    /// answers a single byte in its own way has to agree with that.
    fn recv_one(&mut self) -> (received: Received)
        ensures
            final(self).log().len() == old(self).log().len() + 1,
            final(self).log().drop_last() == old(self).log(),
            final(self).log().last() matches Exchange::Receive { got, buffer } && buffer.len() == 1
                && received == received_of(got, buffer),
    {
        let mut byte = [0u8; 1];
        let got = self.recv(&mut byte);
        assert(self.log().drop_last() =~= old(self).log());
        match got {
            Recv::Failed => Received::Failed,
            Recv::Nothing => Received::Nothing,
            Recv::Bytes(count) => {
                if count == 0 {
                    Received::Nothing
                } else {
                    Received::Byte(byte[0])
                }
            },
        }
    }

    /// Offers bytes, and says how many were taken.
    ///
    /// A transport may take fewer than it is offered. One that claims to have
    /// taken more is in error.
    fn send(&mut self, bytes: &[u8]) -> (took: Sent)
        ensures
            final(self).log() == old(self).log().push(Exchange::Offer { bytes: bytes@, took }),
    ;

    /// Offers several buffers in one call.
    ///
    /// A transport that cannot do that offers the first one alone, which is
    /// what happens unless it says otherwise.
    fn writev(&mut self, parts: &[&[u8]]) -> (took: Sent)
        ensures
            ({
                let before = old(self).log();
                let after = final(self).log();
                ||| after == before.push(Exchange::OfferAll { parts: contents(parts@), took })
                ||| parts@.len() > 0 && after == before.push(
                    Exchange::Offer { bytes: parts@[0]@, took },
                )
                ||| parts@.len() == 0 && after == before && took == Sent::Nothing
            }),
    {
        if parts.len() == 0 {
            return Sent::Nothing;
        }
        self.send(parts[0])
    }
}

/// A packet's fixed header, as the transport delivered it.
#[derive(Debug, Clone, Copy, PartialEq, Eq, Structural)]
pub struct IncomingHeader {
    /// The type byte, flags and all.
    pub packet_type: u8,
    /// How many bytes follow the header.
    pub remaining_length: u32,
    /// How long the header was: the type byte and the length.
    pub header_length: usize,
}

/// Why a header could not be read.
#[derive(Debug, Clone, Copy, PartialEq, Eq, Structural)]
pub enum ReadError {
    /// Nothing had arrived at the type byte.
    NoDataAvailable,
    /// The transport failed at the type byte.
    RecvFailed,
    /// The header is malformed, or stopped short.
    BadResponse,
}

// ---------------------------------------------------------------------------
// What is asked, and what follows from the answers
// ---------------------------------------------------------------------------

/// `after` is `before` with more behind it.
pub open spec fn extends<A>(before: Seq<A>, after: Seq<A>) -> bool {
    before.is_prefix_of(after)
}

/// What was added to `before`.
pub open spec fn since<A>(before: Seq<A>, after: Seq<A>) -> Seq<A> {
    after.skip(before.len() as int)
}

/// The exchange is a request for one byte.
pub open spec fn asks_one(exchange: Exchange) -> bool {
    exchange matches Exchange::Receive { got, buffer } && buffer.len() == 1
}

/// The answer to a request for one byte.
pub open spec fn answer(exchange: Exchange) -> Received {
    match exchange {
        Exchange::Receive { got, buffer } => received_of(got, buffer),
        _ => Received::Nothing,
    }
}

/// The answers to requests for one byte each.
pub open spec fn answers(exchanges: Seq<Exchange>) -> Seq<Received> {
    Seq::new(exchanges.len(), |i: int| answer(exchanges[i]))
}

/// The byte that asks for another length byte.
pub open spec fn goes_on(received: Received) -> bool {
    received matches Received::Byte(byte) && byte >= 128
}

/// The answers are those to a whole attempt: one, if the type byte does not
/// come or may not be received; otherwise the type byte, and length bytes up to
/// the first that does not ask for another, at most four.
pub open spec fn whole_attempt(heard: Seq<Received>) -> bool {
    if heard.len() == 0 {
        false
    } else if !(heard[0] matches Received::Byte(byte) && header::comes_from_broker(byte)) {
        heard.len() == 1
    } else {
        &&& 2 <= heard.len() <= 5
        &&& forall|i: int| 1 <= i < heard.len() - 1 ==> goes_on(#[trigger] heard[i])
        &&& goes_on(heard.last()) ==> heard.len() == 5
    }
}

/// The bytes among the answers.
pub open spec fn bytes_heard(heard: Seq<Received>) -> Seq<u8> {
    Seq::new(
        heard.len(),
        |i: int|
            match heard[i] {
                Received::Byte(byte) => byte,
                _ => 0,
            },
    )
}

/// What a whole attempt comes to.
pub open spec fn header_heard(heard: Seq<Received>) -> Result<IncomingHeader, ReadError> {
    match heard[0] {
        Received::Nothing => Err(ReadError::NoDataAvailable),
        Received::Failed => Err(ReadError::RecvFailed),
        Received::Byte(packet_type) => if !header::comes_from_broker(packet_type) {
            Err(ReadError::BadResponse)
        } else {
            match (heard.last(), wire::read_length(bytes_heard(heard).skip(1))) {
                (Received::Byte(_), LengthRead::Value(n)) => Ok(
                    IncomingHeader {
                        packet_type,
                        remaining_length: n,
                        header_length: heard.len() as usize,
                    },
                ),
                _ => Err(ReadError::BadResponse),
            }
        },
    }
}

/// A header was read: between the two logs lies one whole attempt, and the
/// result is what it comes to.
pub open spec fn header_was_read(
    before: Seq<Exchange>,
    after: Seq<Exchange>,
    result: Result<IncomingHeader, ReadError>,
) -> bool {
    let exchanges = since(before, after);
    &&& extends(before, after)
    &&& forall|i: int| 0 <= i < exchanges.len() ==> asks_one(#[trigger] exchanges[i])
    &&& whole_attempt(answers(exchanges))
    &&& result == header_heard(answers(exchanges))
}

/// Reads a packet's fixed header off a transport.
///
/// # Errors
///
/// [`ReadError::NoDataAvailable`] or [`ReadError::RecvFailed`] if the type byte
/// does not come; [`ReadError::BadResponse`] if it is not one a broker sends,
/// or the length is malformed or does not come.
pub fn read_header<T: Transport>(transport: &mut T) -> (result: Result<IncomingHeader, ReadError>)
    ensures
        header_was_read(old(transport).log(), final(transport).log(), result),
{
    let ghost before = transport.log();
    let received = transport.recv_one();
    proof {
        lemma_one_more(before, before, transport.log());
    }
    let packet_type = match received {
        Received::Byte(byte) => byte,
        Received::Nothing => return Err(ReadError::NoDataAvailable),
        Received::Failed => return Err(ReadError::RecvFailed),
    };
    if !incoming_packet_valid(packet_type) {
        return Err(ReadError::BadResponse);
    }
    match read_remaining_length(transport, packet_type, Ghost(before)) {
        Ok((remaining_length, bytes_decoded)) => Ok(
            IncomingHeader { packet_type, remaining_length, header_length: bytes_decoded + 1 },
        ),
        Err(error) => Err(error),
    }
}

/// One more entry behind a record that extends another.
pub proof fn lemma_extends<A>(before: Seq<A>, middle: Seq<A>, entry: A)
    requires
        extends(before, middle),
    ensures
        extends(before, middle.push(entry)),
        since(before, middle.push(entry)) == since(before, middle).push(entry),
{
    assert(before =~= middle.push(entry).take(before.len() as int));
    assert(since(before, middle.push(entry)) =~= since(before, middle).push(entry));
}

/// A record extends itself, by nothing.
pub proof fn lemma_extends_self<A>(before: Seq<A>)
    ensures
        extends(before, before),
        since(before, before) == Seq::<A>::empty(),
{
    assert(before =~= before.take(before.len() as int));
    assert(since(before, before) =~= Seq::<A>::empty());
}

/// A record that extends one that extends another.
pub proof fn lemma_extends_on<A>(before: Seq<A>, middle: Seq<A>, after: Seq<A>)
    requires
        extends(before, middle),
        extends(middle, after),
    ensures
        extends(before, after),
        since(before, after) == since(before, middle) + since(middle, after),
{
    assert(before =~= after.take(before.len() as int)) by {
        assert(middle =~= after.take(middle.len() as int));
    }
    assert(since(before, after) =~= since(before, middle) + since(middle, after)) by {
        assert(middle =~= after.take(middle.len() as int));
    }
}

/// One more exchange behind a log that extends another.
proof fn lemma_one_more(before: Seq<Exchange>, middle: Seq<Exchange>, after: Seq<Exchange>)
    requires
        extends(before, middle),
        after.len() == middle.len() + 1,
        after.drop_last() == middle,
    ensures
        extends(before, after),
        since(before, after) == since(before, middle).push(after.last()),
        answers(since(before, after)) == answers(since(before, middle)).push(answer(after.last())),
{
    assert(after =~= middle.push(after.last()));
    lemma_extends(before, middle, after.last());
    assert(answers(since(before, after)) =~= answers(since(before, middle)).push(
        answer(after.last()),
    ));
}

/// Reads the length behind a type byte that was received.
fn read_remaining_length<T: Transport>(
    transport: &mut T,
    packet_type: u8,
    Ghost(before): Ghost<Seq<Exchange>>,
) -> (result: Result<(u32, usize), ReadError>)
    requires
        extends(before, old(transport).log()),
        since(before, old(transport).log()).len() == 1,
        asks_one(since(before, old(transport).log())[0]),
        answer(since(before, old(transport).log())[0]) == Received::Byte(packet_type),
        header::comes_from_broker(packet_type),
    ensures
        ({
            let exchanges = since(before, final(transport).log());
            let heard = answers(exchanges);
            &&& extends(before, final(transport).log())
            &&& forall|i: int| 0 <= i < exchanges.len() ==> asks_one(#[trigger] exchanges[i])
            &&& whole_attempt(heard)
            &&& match result {
                Ok((length, size)) => header_heard(heard) == Ok::<IncomingHeader, ReadError>(
                    IncomingHeader {
                        packet_type,
                        remaining_length: length,
                        header_length: (size + 1) as usize,
                    },
                ) && size < 5,
                Err(error) => error == ReadError::BadResponse && header_heard(heard) == Err::<
                    IncomingHeader,
                    ReadError,
                >(error),
            }
        }),
{
    let mut remaining_length: u32 = 0;
    let mut multiplier: u32 = 1;
    let mut bytes_decoded: usize = 0;
    let ghost mut body: Seq<u8> = Seq::empty();
    loop
        invariant_except_break
            bytes_decoded == 0 ==> multiplier == 1 && remaining_length == 0,
            bytes_decoded == 1 ==> multiplier == 128 && remaining_length == body[0] - 128,
            bytes_decoded == 2 ==> multiplier == 16_384 && remaining_length == body[0] - 128 + 128
                * (body[1] - 128),
            bytes_decoded == 3 ==> multiplier == 2_097_152 && remaining_length == body[0] - 128
                + 128 * (body[1] - 128) + 16_384 * (body[2] - 128),
            bytes_decoded == 4 ==> multiplier > 2_097_152,
            forall|i: int| 0 <= i < bytes_decoded ==> body[i] >= 128,
            forall|i: int|
                1 <= i < bytes_decoded + 1 ==> goes_on(
                    #[trigger] answers(since(before, transport.log()))[i],
                ),
        invariant
            header::comes_from_broker(packet_type),
            bytes_decoded <= 4,
            body.len() == bytes_decoded,
            extends(before, transport.log()),
            since(before, transport.log()).len() == bytes_decoded + 1,
            forall|i: int|
                0 <= i < bytes_decoded + 1 ==> asks_one(
                    #[trigger] since(before, transport.log())[i],
                ),
            answers(since(before, transport.log()))[0] == Received::Byte(packet_type),
            bytes_heard(answers(since(before, transport.log()))).skip(1) == body,
        ensures
            1 <= bytes_decoded <= 4,
            forall|i: int|
                1 <= i < bytes_decoded ==> goes_on(
                    #[trigger] answers(since(before, transport.log()))[i],
                ),
            answers(since(before, transport.log()))[bytes_decoded as int] is Byte,
            !goes_on(answers(since(before, transport.log()))[bytes_decoded as int]),
            forall|i: int| 0 <= i < bytes_decoded - 1 ==> body[i] >= 128,
            body[bytes_decoded - 1] < 128,
            bytes_decoded == 1 ==> remaining_length == body[0],
            bytes_decoded == 2 ==> remaining_length == body[0] - 128 + 128 * body[1],
            bytes_decoded == 3 ==> remaining_length == body[0] - 128 + 128 * (body[1] - 128)
                + 16_384 * body[2],
            bytes_decoded == 4 ==> remaining_length == body[0] - 128 + 128 * (body[1] - 128)
                + 16_384 * (body[2] - 128) + 2_097_152 * body[3],
        decreases 5 - bytes_decoded,
    {
        if multiplier > 2_097_152 {
            return Err(ReadError::BadResponse);
        }
        let ghost middle = transport.log();
        let received = transport.recv_one();
        proof {
            lemma_one_more(before, middle, transport.log());
        }
        let byte = match received {
            Received::Byte(byte) => byte,
            _ => return Err(ReadError::BadResponse),
        };
        proof {
            let heard = answers(since(before, middle));
            assert(bytes_heard(heard.push(received)).skip(1) =~= bytes_heard(heard).skip(1).push(
                byte,
            ));
            body = body.push(byte);
        }
        if bytes_decoded == 0 {
            remaining_length = (byte % 128) as u32;
            multiplier = 128;
        } else if bytes_decoded == 1 {
            remaining_length = remaining_length + (byte % 128) as u32 * 128;
            multiplier = 16_384;
        } else if bytes_decoded == 2 {
            remaining_length = remaining_length + (byte % 128) as u32 * 16_384;
            multiplier = 2_097_152;
        } else {
            remaining_length = remaining_length + (byte % 128) as u32 * 2_097_152;
            multiplier = 268_435_456;
        }
        bytes_decoded += 1;
        if byte < 128 {
            break;
        }
    }
    if bytes_decoded != variable_length_encoded_size(remaining_length) as usize {
        return Err(ReadError::BadResponse);
    }
    Ok((remaining_length, bytes_decoded))
}

/// **Law.** A header that comes byte by byte is read as one that lies in a
/// buffer. What a buffer cannot say yet is malformed here.
pub proof fn law_readers_agree(heard: Seq<Received>)
    requires
        whole_attempt(heard),
        forall|i: int| 0 <= i < heard.len() ==> (#[trigger] heard[i]) is Byte,
    ensures
        match header::header_of(bytes_heard(heard)) {
            Ok(found) => header_heard(heard) == Ok::<IncomingHeader, ReadError>(
                IncomingHeader {
                    packet_type: found.packet_type,
                    remaining_length: found.remaining_length,
                    header_length: found.header_length,
                },
            ),
            Err(_) => header_heard(heard) == Err::<IncomingHeader, ReadError>(
                ReadError::BadResponse,
            ),
        },
{
    let bytes = bytes_heard(heard);
    if heard.len() > 1 {
        let length = bytes.skip(1);
        assert forall|i: int| 0 <= i < length.len() - 1 implies length[i] >= 128 by {
            assert(goes_on(heard[i + 1]));
        }
        assert(heard.last() is Byte);
        assert(length.last() == heard.last()->Byte_0);
    }
}

/// **Law.** Where a length stops short, a buffer asks for more bytes, and a
/// transport that brings none has sent a malformed header.
pub proof fn law_only_a_buffer_waits(heard: Seq<Received>)
    requires
        whole_attempt(heard),
        heard.len() > 1,
        heard.last() !is Byte,
    ensures
        header_heard(heard) == Err::<IncomingHeader, ReadError>(ReadError::BadResponse),
        header::header_of(bytes_heard(heard.drop_last())) == Err::<
            header::PacketHeader,
            header::HeaderError,
        >(header::HeaderError::NeedMoreBytes),
{
    let bytes = bytes_heard(heard.drop_last());
    let length = bytes.skip(1);
    assert forall|i: int| 0 <= i < length.len() implies length[i] >= 128 by {
        assert(goes_on(heard[i + 1]));
    }
}

} // verus!
