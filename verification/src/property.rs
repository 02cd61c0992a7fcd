//! The property primitives: bounded reads out of a packet.
//!
//! Almost every MQTT 5 packet carries properties, and all of them are made of
//! the same few shapes: a one-, two- or four-byte integer, a length-prefixed
//! string, a pair of strings, or a variable-length integer.
//!
//! Two rules are enforced here. A property may appear once: the caller keeps a
//! flag for each identifier, and a read whose flag is already set is refused.
//! And every read is bounded twice, by the bytes that exist and by the property
//! length that the packet claimed.
//!
//! A refused string still moves the reader past its two count bytes, because
//! the count has to be read before it can be found too large. The only sound
//! response to a refusal is to abandon the packet.

use vstd::prelude::*;

use crate::cursor::Width;
use crate::header;
use crate::header::{variable_length_encoded_size, REMAINING_LENGTH_INVALID};
use crate::wire;
use crate::wire::{LengthRead, Piece, Sheet, Trouble};

verus! {

/// Why a property read was refused.
#[derive(Debug, Clone, Copy, PartialEq, Eq, Structural)]
pub enum PropertyError {
    /// The property repeats, or does not fit. Either way the packet is
    /// malformed and has to be dropped.
    BadResponse,
}

/// A set of property identifiers, for telling which have been seen.
///
/// Every identifier is below 64, so a bitmap holds them.
pub struct IdSet {
    bits: u64,
}

/// The bit that stands for an identifier is set.
spec fn marked(bits: u64, id: u8) -> bool {
    bits & (1u64 << (id as u64)) != 0
}

impl View for IdSet {
    type V = Set<u8>;

    closed spec fn view(&self) -> Set<u8> {
        Set::new(|id: u8| id < 64 && marked(self.bits, id))
    }
}

impl IdSet {
    /// The empty set.
    pub fn new() -> (set: Self)
        ensures
            set@ == Set::<u8>::empty(),
    {
        let set = IdSet { bits: 0 };
        proof {
            assert forall|id: u8| id < 64 implies !#[trigger] marked(0, id) by {
                let wide = id as u64;
                assert(0u64 & (1u64 << wide) == 0) by (bit_vector);
            }
            assert(set@ =~= Set::<u8>::empty());
        }
        set
    }

    /// Is the identifier in the set?
    pub fn contains(&self, id: u8) -> (found: bool)
        requires
            id < 64,
        ensures
            found == self@.contains(id),
    {
        self.bits & (1u64 << (id as u64)) != 0
    }

    /// Puts the identifier into the set.
    pub fn insert(&mut self, id: u8)
        requires
            id < 64,
        ensures
            final(self)@ == old(self)@.insert(id),
    {
        let ghost before = self.bits;
        let ghost wide = id as u64;
        self.bits = self.bits | (1u64 << (id as u64));
        proof {
            assert forall|other: u8| other < 64 implies #[trigger] marked(self.bits, other) == (other
                == id || marked(before, other)) by {
                let o = other as u64;
                assert(((before | (1u64 << wide)) & (1u64 << o) != 0) == (o == wide || before & (1u64
                    << o) != 0)) by (bit_vector)
                    requires
                        o < 64,
                        wide < 64,
                ;
            }
            assert(self@ =~= old(self)@.insert(id));
        }
    }
}

/// A cursor over a packet's property section, with a budget.
///
/// The budget is the property length that the packet claimed. It is not the
/// number of bytes in the slice: the slice is what exists, the budget is what
/// was promised, and a malformed packet is one where they disagree.
#[derive(Debug)]
pub struct PropertyReader<'a> {
    bytes: &'a [u8],
    at: usize,
    remaining: u32,
}

/// A value of this layout at the front of `s`, and what follows it. Only the
/// number is kept: a string or a pair counts as 0.
pub open spec fn take_number(width: Width, s: Seq<u8>) -> Option<(u32, Seq<u8>)> {
    match width {
        Width::Byte => match wire::take_u8(s) {
            Some((v, rest)) => Some((v as u32, rest)),
            None => None,
        },
        Width::TwoBytes => match wire::take_u16(s) {
            Some((v, rest)) => Some((v as u32, rest)),
            None => None,
        },
        Width::FourBytes => wire::take_u32(s),
        Width::String => match wire::take_text(s) {
            Some((_, rest)) => Some((0, rest)),
            None => None,
        },
        Width::Pair => match wire::take_pair(s) {
            Some((_, rest)) => Some((0, rest)),
            None => None,
        },
        Width::Variable => wire::take_length(s),
    }
}

/// Reading a value uses bytes up, and a number fits its width.
pub proof fn lemma_take_number(width: Width, s: Seq<u8>)
    ensures
        take_number(width, s) matches Some((v, rest)) ==> {
            &&& rest.len() < s.len()
            &&& width == Width::Byte ==> v <= u8::MAX
            &&& width == Width::TwoBytes ==> v <= u16::MAX
        },
{
    wire::lemma_readers_shrink(s);
}

impl<'a> PropertyReader<'a> {
    /// The cursor never passes the end of the bytes.
    #[verifier::type_invariant]
    spec fn within(&self) -> bool {
        self.at <= self.bytes@.len()
    }

    /// All the bytes the reader was made over.
    pub closed spec fn bytes(&self) -> Seq<u8> {
        self.bytes@
    }

    /// How far the reader has moved.
    pub closed spec fn at(&self) -> int {
        self.at as int
    }

    /// How much of the budget is left.
    pub closed spec fn left(&self) -> int {
        self.remaining as int
    }

    /// What can still be read: the bytes from the cursor on, cut to the budget.
    pub open spec fn window(&self) -> Seq<u8> {
        if self.left() <= self.bytes().len() - self.at() {
            self.bytes().subrange(self.at(), self.at() + self.left())
        } else {
            self.bytes().skip(self.at())
        }
    }

    /// The budget and the bytes agree: what is left is exactly what was
    /// promised.
    pub open spec fn full(&self) -> bool {
        self.at() <= self.bytes().len() && self.left() == self.bytes().len() - self.at()
    }

    /// This reader is `before`, moved on by `n` bytes that it was charged for.
    pub open spec fn moved(&self, before: &Self, n: int) -> bool {
        &&& self.bytes() == before.bytes()
        &&& self.at() == before.at() + n
        &&& self.left() == before.left() - n
        &&& self.window() == before.window().skip(n)
        &&& before.full() ==> self.full()
    }

    /// This reader is in the state `before` was in.
    pub open spec fn unmoved(&self, before: &Self) -> bool {
        &&& self.bytes() == before.bytes()
        &&& self.at() == before.at()
        &&& self.left() == before.left()
        &&& self.window() == before.window()
        &&& before.full() ==> self.full()
    }

    /// A reader over `bytes`, with `property_length` bytes claimed.
    #[must_use]
    pub fn new(bytes: &'a [u8], property_length: u32) -> (reader: Self)
        ensures
            reader.bytes() == bytes@,
            reader.at() == 0,
            reader.left() == property_length,
            property_length == bytes@.len() ==> reader.full() && reader.window() == bytes@,
    {
        let reader = PropertyReader { bytes, at: 0, remaining: property_length };
        assert(bytes@.subrange(0, bytes@.len() as int) =~= bytes@);
        reader
    }

    /// How far into the buffer the cursor has moved.
    #[must_use]
    pub fn position(&self) -> (at: usize)
        ensures
            at == self.at(),
    {
        self.at
    }

    /// How much of the property budget is left.
    #[must_use]
    pub fn remaining(&self) -> (left: u32)
        ensures
            left == self.left(),
            self.full() ==> left == self.window().len(),
    {
        self.remaining
    }

    /// Takes `n` bytes from the cursor and charges them, if the slice and the
    /// budget both have them.
    fn take(&mut self, n: usize) -> (taken: Option<&'a [u8]>)
        ensures
            old(self).window().len() < n ==> taken is None && final(self).unmoved(old(self)),
            old(self).window().len() >= n ==> {
                &&& taken is Some
                &&& (taken->0)@ == old(self).window().take(n as int)
                &&& final(self).moved(old(self), n as int)
            },
    {
        proof {
            use_type_invariant(&*self);
        }
        if n > self.remaining as usize || n > self.bytes.len() - self.at {
            return None;
        }
        let slice = vstd::slice::slice_subrange(self.bytes, self.at, self.at + n);
        self.at = self.at + n;
        self.remaining = self.remaining - n as u32;
        proof {
            assert(slice@ =~= old(self).window().take(n as int));
            assert(self.window() =~= old(self).window().skip(n as int));
        }
        Some(slice)
    }

    /// A one-byte property.
    ///
    /// # Errors
    ///
    /// [`PropertyError::BadResponse`] if `used` is already set, or there is
    /// nothing left to read. A refusal moves nothing.
    pub fn u8(&mut self, used: &mut bool) -> (value: Result<u8, PropertyError>)
        ensures
            value is Ok == (!*old(used) && wire::take_u8(old(self).window()) is Some),
            value matches Ok(v) ==> {
                &&& Some((v, final(self).window())) == wire::take_u8(old(self).window())
                &&& final(self).moved(old(self), 1)
                &&& *final(used)
            },
            value is Err ==> final(self).unmoved(old(self)) && *final(used) == *old(used),
    {
        if *used {
            return Err(PropertyError::BadResponse);
        }
        match self.take(1) {
            Some(bytes) => {
                *used = true;
                Ok(bytes[0])
            },
            None => Err(PropertyError::BadResponse),
        }
    }

    /// A two-byte property.
    ///
    /// # Errors
    ///
    /// As [`u8`](Self::u8), for two bytes.
    pub fn u16(&mut self, used: &mut bool) -> (value: Result<u16, PropertyError>)
        ensures
            value is Ok == (!*old(used) && wire::take_u16(old(self).window()) is Some),
            value matches Ok(v) ==> {
                &&& Some((v, final(self).window())) == wire::take_u16(old(self).window())
                &&& final(self).moved(old(self), 2)
                &&& *final(used)
            },
            value is Err ==> final(self).unmoved(old(self)) && *final(used) == *old(used),
    {
        if *used {
            return Err(PropertyError::BadResponse);
        }
        match self.take(2) {
            Some(bytes) => {
                *used = true;
                Ok(wire::join_u16(bytes[0], bytes[1]))
            },
            None => Err(PropertyError::BadResponse),
        }
    }

    /// A four-byte property.
    ///
    /// # Errors
    ///
    /// As [`u8`](Self::u8), for four bytes.
    pub fn u32(&mut self, used: &mut bool) -> (value: Result<u32, PropertyError>)
        ensures
            value is Ok == (!*old(used) && wire::take_u32(old(self).window()) is Some),
            value matches Ok(v) ==> {
                &&& Some((v, final(self).window())) == wire::take_u32(old(self).window())
                &&& final(self).moved(old(self), 4)
                &&& *final(used)
            },
            value is Err ==> final(self).unmoved(old(self)) && *final(used) == *old(used),
    {
        if *used {
            return Err(PropertyError::BadResponse);
        }
        match self.take(4) {
            Some(bytes) => {
                *used = true;
                Ok(wire::join_u32(bytes[0], bytes[1], bytes[2], bytes[3]))
            },
            None => Err(PropertyError::BadResponse),
        }
    }

    /// The identifier byte that introduces each property.
    ///
    /// It takes no flag: a section is a sequence of identifiers, and which of
    /// them may repeat is for the caller to say.
    ///
    /// # Errors
    ///
    /// [`PropertyError::BadResponse`] if there is nothing left to read.
    pub fn property_id(&mut self) -> (id: Result<u8, PropertyError>)
        ensures
            id is Ok == wire::take_u8(old(self).window()) is Some,
            id matches Ok(v) ==> {
                &&& Some((v, final(self).window())) == wire::take_u8(old(self).window())
                &&& final(self).moved(old(self), 1)
            },
            id is Err ==> final(self).unmoved(old(self)),
    {
        match self.take(1) {
            Some(bytes) => Ok(bytes[0]),
            None => Err(PropertyError::BadResponse),
        }
    }

    /// A two-byte count, then that many bytes. The bytes are handed back as
    /// they are: nothing checks that they are UTF-8.
    ///
    /// # Errors
    ///
    /// [`PropertyError::BadResponse`] if `used` is set, if fewer than two bytes
    /// remain, or if the count exceeds what is left after it. A refusal of the
    /// last kind leaves the reader past the count.
    pub fn utf8(&mut self, used: &mut bool) -> (value: Result<&'a [u8], PropertyError>)
        ensures
            value is Ok == (!*old(used) && wire::take_text(old(self).window()) is Some),
            value matches Ok(v) ==> {
                &&& Some((v@, final(self).window())) == wire::take_text(old(self).window())
                &&& final(self).moved(old(self), 2int + v@.len())
                &&& *final(used)
            },
            value is Err ==> *final(used) == *old(used),
            value is Err && (*old(used) || old(self).window().len() < 2) ==> final(self).unmoved(
                old(self),
            ),
            value is Err && !*old(used) && old(self).window().len() >= 2 ==> final(self).moved(
                old(self),
                2,
            ),
    {
        if *used {
            return Err(PropertyError::BadResponse);
        }
        let length = match self.take(2) {
            Some(bytes) => wire::join_u16(bytes[0], bytes[1]),
            None => return Err(PropertyError::BadResponse),
        };
        match self.take(length as usize) {
            Some(body) => {
                *used = true;
                proof {
                    let window = old(self).window();
                    assert(body@ =~= window.subrange(2, 2 + length));
                    assert(self.window() =~= window.skip(2 + length));
                }
                Ok(body)
            },
            None => Err(PropertyError::BadResponse),
        }
    }

    /// Two strings, a name and a value. This is the one property that may
    /// repeat, so it takes no flag.
    ///
    /// # Errors
    ///
    /// [`PropertyError::BadResponse`] if either string fails. A failure on the
    /// value leaves the name consumed.
    pub fn user_property(&mut self) -> (pair: Result<(&'a [u8], &'a [u8]), PropertyError>)
        ensures
            pair is Ok == wire::take_pair(old(self).window()) is Some,
            pair matches Ok((key, value)) ==> {
                &&& Some(((key@, value@), final(self).window())) == wire::take_pair(
                    old(self).window(),
                )
                &&& final(self).moved(old(self), 4int + key@.len() + value@.len())
            },
            pair is Err ==> {
                let first = old(self).window();
                match wire::take_text(first) {
                    None => if first.len() < 2 {
                        final(self).unmoved(old(self))
                    } else {
                        final(self).moved(old(self), 2)
                    },
                    Some((key, rest)) => final(self).moved(
                        old(self),
                        2 + key.len() + (if rest.len() < 2 {
                            0int
                        } else {
                            2
                        }),
                    ),
                }
            },
    {
        let mut used = false;
        let key = match self.utf8(&mut used) {
            Ok(key) => key,
            Err(error) => return Err(error),
        };
        used = false;
        match self.utf8(&mut used) {
            Ok(value) => {
                proof {
                    let window = old(self).window();
                    assert(self.window() =~= window.skip(4int + key@.len() + value@.len()));
                }
                Ok((key, value))
            },
            Err(error) => {
                proof {
                    let window = old(self).window();
                    if window.len() >= 4 + key@.len() {
                        assert(window.skip(2int + key@.len()).skip(2) =~= window.skip(
                            2int + key@.len() + 2,
                        ));
                    }
                }
                Err(error)
            },
        }
    }

    /// A value of the given layout, of which only the number is kept.
    ///
    /// # Errors
    ///
    /// [`PropertyError::BadResponse`] if `used` is set or the value does not
    /// fit what is left.
    pub(crate) fn number(&mut self, width: Width, used: &mut bool) -> (value: Result<u32, PropertyError>)
        ensures
            value is Ok == (!*old(used) && take_number(width, old(self).window()) is Some),
            value matches Ok(v) ==> {
                &&& Some((v, final(self).window())) == take_number(width, old(self).window())
                &&& final(self).bytes() == old(self).bytes()
                &&& final(self).at() - old(self).at() == old(self).window().len() - final(self).window().len()
                &&& final(self).left() - old(self).left() == final(self).window().len() - old(self).window().len()
                &&& final(self).left() < old(self).left()
                &&& old(self).full() ==> final(self).full()
            },
    {
        proof {
            lemma_take_number(width, self.window());
        }
        if *used {
            return Err(PropertyError::BadResponse);
        }
        match width {
            Width::Byte => match self.u8(used) {
                Ok(value) => Ok(value as u32),
                Err(error) => Err(error),
            },
            Width::TwoBytes => match self.u16(used) {
                Ok(value) => Ok(value as u32),
                Err(error) => Err(error),
            },
            Width::FourBytes => self.u32(used),
            Width::String => match self.utf8(used) {
                Ok(_) => Ok(0),
                Err(error) => Err(error),
            },
            Width::Pair => match self.user_property() {
                Ok(_) => Ok(0),
                Err(error) => Err(error),
            },
            Width::Variable => self.variable_length(),
        }
    }

    /// A variable-length integer, in its minimal spelling.
    ///
    /// # Errors
    ///
    /// [`PropertyError::BadResponse`] if it is malformed or does not fit what
    /// is left. A refusal moves nothing.
    pub fn variable_length(&mut self) -> (value: Result<u32, PropertyError>)
        ensures
            value is Ok == wire::take_length(old(self).window()) is Some,
            value matches Ok(v) ==> {
                &&& Some((v, final(self).window())) == wire::take_length(old(self).window())
                &&& final(self).moved(old(self), wire::length_size(v as int))
            },
            value is Err ==> final(self).unmoved(old(self)),
    {
        proof {
            use_type_invariant(&*self);
        }
        let end: usize = if (self.remaining as usize) < self.bytes.len() - self.at {
            self.at + self.remaining as usize
        } else {
            self.bytes.len()
        };
        let window = vstd::slice::slice_subrange(self.bytes, self.at, end);
        assert(window@ =~= self.window());
        match decode_variable_length(window) {
            Ok(value) => {
                proof {
                    wire::lemma_read_length_bounds(window@);
                }
                let size = variable_length_encoded_size(value) as usize;
                let _ = self.take(size);
                Ok(value)
            },
            Err(error) => Err(error),
        }
    }
}

/// Reads a variable-length integer from the start of a buffer.
///
/// # Errors
///
/// [`PropertyError::BadResponse`] for a value encoded in too many bytes, in
/// more bytes than it needs, or truncated.
pub fn decode_variable_length(buffer: &[u8]) -> (value: Result<u32, PropertyError>)
    ensures
        value == (match wire::read_length(buffer@) {
            LengthRead::Value(n) => Ok::<u32, PropertyError>(n),
            _ => Err::<u32, PropertyError>(PropertyError::BadResponse),
        }),
        value matches Ok(n) ==> n < REMAINING_LENGTH_INVALID,
{
    let mut remaining_length: u32 = 0;
    let mut multiplier: u32 = 1;
    let mut bytes_decoded: usize = 0;
    let ghost body = buffer@;
    loop
        invariant_except_break
            bytes_decoded == 0 ==> multiplier == 1 && remaining_length == 0,
            bytes_decoded == 1 ==> multiplier == 128 && remaining_length == body[0] - 128
                && body[0] >= 128,
            bytes_decoded == 2 ==> multiplier == 16_384 && remaining_length == body[0] - 128 + 128
                * (body[1] - 128) && body[0] >= 128 && body[1] >= 128,
            bytes_decoded == 3 ==> multiplier == 2_097_152 && remaining_length == body[0] - 128
                + 128 * (body[1] - 128) + 16_384 * (body[2] - 128) && body[0] >= 128 && body[1]
                >= 128 && body[2] >= 128,
            bytes_decoded == 4 ==> multiplier > 2_097_152 && body[0] >= 128 && body[1] >= 128
                && body[2] >= 128 && body[3] >= 128,
        invariant
            body == buffer@,
            bytes_decoded <= 4,
            bytes_decoded <= body.len(),
        ensures
            1 <= bytes_decoded <= 4,
            bytes_decoded == 1 ==> body[0] < 128 && remaining_length == body[0],
            bytes_decoded == 2 ==> body[0] >= 128 && body[1] < 128 && remaining_length == body[0]
                - 128 + 128 * body[1],
            bytes_decoded == 3 ==> body[0] >= 128 && body[1] >= 128 && body[2] < 128
                && remaining_length == body[0] - 128 + 128 * (body[1] - 128) + 16_384 * body[2],
            bytes_decoded == 4 ==> body[0] >= 128 && body[1] >= 128 && body[2] >= 128 && body[3]
                < 128 && remaining_length == body[0] - 128 + 128 * (body[1] - 128) + 16_384 * (
            body[2] - 128) + 2_097_152 * body[3],
        decreases 5 - bytes_decoded,
    {
        if multiplier > 2_097_152 {
            return Err(PropertyError::BadResponse);
        }
        if buffer.len() <= bytes_decoded {
            return Err(PropertyError::BadResponse);
        }
        let byte: u8 = buffer[bytes_decoded];
        if bytes_decoded == 0 {
            remaining_length = (byte % 128) as u32;
            multiplier = 128;
        } else if bytes_decoded == 1 {
            remaining_length = remaining_length + (byte % 128) as u32 * 128;
            multiplier = 16_384;
        } else if bytes_decoded == 2 {
            remaining_length = remaining_length + (byte % 128) as u32 * 16_384;
            multiplier = 2_097_152;
        } else {
            remaining_length = remaining_length + (byte % 128) as u32 * 2_097_152;
            multiplier = 268_435_456;
        }
        bytes_decoded += 1;
        if byte < 128 {
            break;
        }
    }
    if bytes_decoded != variable_length_encoded_size(remaining_length) as usize {
        return Err(PropertyError::BadResponse);
    }
    Ok(remaining_length)
}

/// Writes a two-byte count and a body at the front of `destination`, and
/// returns how many bytes they take.
///
/// `source` may be `None`, which writes the count and leaves the body's bytes
/// as they are, for a body that is copied in separately. Returns 0, with
/// nothing written, if the destination is too small; and 0, with the count
/// written, if `source` holds fewer than `length` bytes.
#[must_use]
pub fn encode_string(destination: &mut [u8], source: Option<&[u8]>, length: u16) -> (written: usize)
    ensures
        final(destination)@.len() == old(destination)@.len(),
        old(destination)@.len() < length + 2 ==> written == 0 && final(destination)@ == old(destination)@,
        old(destination)@.len() >= length + 2 ==> match source {
            None => written == length + 2 && final(destination)@ == wire::overwrite(
                old(destination)@,
                0,
                wire::u16_bytes(length),
            ),
            Some(bytes) => if bytes@.len() < length {
                written == 0 && final(destination)@ == wire::overwrite(
                    old(destination)@,
                    0,
                    wire::u16_bytes(length),
                )
            } else {
                written == length + 2 && final(destination)@ == wire::overwrite(
                    old(destination)@,
                    0,
                    wire::text_bytes(bytes@.take(length as int)),
                )
            },
        },
{
    let ghost before = destination@;
    let total: usize = length as usize + 2;
    if destination.len() < total {
        return 0;
    }
    let count = wire::split_u16(length);
    let _ = wire::write_at(destination, 0, &count);
    match source {
        None => total,
        Some(bytes) => {
            if bytes.len() < length as usize {
                return 0;
            }
            let body = vstd::slice::slice_subrange(bytes, 0, length as usize);
            let _ = wire::write_at(destination, 2, body);
            proof {
                assert(body@ =~= bytes@.take(length as int));
                assert(destination@ =~= wire::overwrite(before, 0, wire::text_bytes(body@)));
            }
            total
        },
    }
}

/// Writes a text at `at`; `None`, with nothing written, where it does not fit.
/// Otherwise the position after it.
pub fn put_text(destination: &mut [u8], at: usize, text: &[u8]) -> (next: Option<usize>)
    requires
        at <= old(destination)@.len(),
        text@.len() <= u16::MAX,
    ensures
        ({
            let sheet = (Sheet { buffer: old(destination)@, at: at as int, open: true }).put(
                wire::text_bytes(text@),
            );
            &&& final(destination)@ == sheet.buffer
            &&& next is Some == sheet.open
            &&& next matches Some(n) ==> n == sheet.at && n <= final(destination)@.len() && n > at
        }),
{
    let ghost before = destination@;
    let size: usize = destination.len();
    let (_head, tail) = destination.split_at_mut(at);
    let written = encode_string(tail, Some(text), text.len() as u16);
    proof {
        assert(text@.take(text@.len() as int) =~= text@);
        assert(destination@ =~= (Sheet { buffer: before, at: at as int, open: true }).put(
            wire::text_bytes(text@),
        ).buffer);
    }
    assert(at + written <= size);
    if written == 0 {
        None
    } else {
        Some(at + written)
    }
}

/// Writes a property section at `at`: its length, then its bytes. `None` where
/// either does not fit; a length that fits is written even if the bytes after
/// it do not. Otherwise the position after the section.
pub fn put_section(destination: &mut [u8], at: usize, section: &[u8]) -> (next: Option<usize>)
    requires
        at <= old(destination)@.len(),
        section@.len() <= u32::MAX,
    ensures
        ({
            let sheet = (Sheet {
                buffer: old(destination)@,
                at: at as int,
                open: true,
            }).put_section(section@);
            &&& final(destination)@ == sheet.buffer
            &&& next is Some == sheet.open
            &&& next matches Some(n) ==> n == sheet.at && n <= final(destination)@.len() && n > at
        }),
{
    let size: usize = destination.len();
    let body_at = match header::put_length(destination, at, section.len() as u32) {
        Some(next) => next,
        None => return None,
    };
    if !wire::write_at(destination, body_at, section) {
        return None;
    }
    assert(body_at + section@.len() <= size);
    Some(body_at + section.len())
}

/// Writes a text, if its count can say how long it is.
///
/// # Errors
///
/// [`Trouble::TooLong`] if it cannot, [`Trouble::NoRoom`] if it does not fit.
pub(crate) fn place_text(destination: &mut [u8], at: usize, text: &[u8]) -> (next: Result<usize, Trouble>)
    requires
        at <= old(destination)@.len(),
    ensures
        forall|limit: int| #[trigger]
            filled(
                old(destination)@,
                at,
                seq![Piece::Text(text@)],
                limit,
                next,
                final(destination)@,
            ),
{
    let ghost sheet = Sheet { buffer: destination@, at: at as int, open: true };
    proof {
        assert forall|limit: int| #[trigger]
            wire::fill(sheet, seq![Piece::Text(text@)], limit) == wire::put_piece(
                sheet,
                Piece::Text(text@),
                limit,
            ) by {
            wire::lemma_fill_one(sheet, Piece::Text(text@), limit);
        }
    }
    if text.len() > u16::MAX as usize {
        return Err(Trouble::TooLong);
    }
    match put_text(destination, at, text) {
        Some(next) => Ok(next),
        None => Err(Trouble::NoRoom),
    }
}

/// Writes a property section of up to `limit` bytes.
///
/// # Errors
///
/// [`Trouble::TooLong`] if it is longer, [`Trouble::NoRoom`] if it does not fit.
pub(crate) fn place_section(destination: &mut [u8], at: usize, section: &[u8], limit: u32) -> (next:
    Result<usize, Trouble>)
    requires
        at <= old(destination)@.len(),
    ensures
        filled(
            old(destination)@,
            at,
            seq![Piece::Section(section@)],
            limit as int,
            next,
            final(destination)@,
        ),
{
    proof {
        wire::lemma_fill_one(
            Sheet { buffer: destination@, at: at as int, open: true },
            Piece::Section(section@),
            limit as int,
        );
    }
    if section.len() > limit as usize {
        return Err(Trouble::TooLong);
    }
    match put_section(destination, at, section) {
        Some(next) => Ok(next),
        None => Err(Trouble::NoRoom),
    }
}

/// Writes bytes as they are.
///
/// # Errors
///
/// [`Trouble::NoRoom`] if they do not fit.
pub(crate) fn place_bytes(destination: &mut [u8], at: usize, bytes: &[u8]) -> (next: Result<
    usize,
    Trouble,
>)
    requires
        at <= old(destination)@.len(),
    ensures
        forall|limit: int| #[trigger]
            filled(
                old(destination)@,
                at,
                seq![Piece::Bytes(bytes@)],
                limit,
                next,
                final(destination)@,
            ),
{
    let ghost sheet = Sheet { buffer: destination@, at: at as int, open: true };
    proof {
        assert forall|limit: int| #[trigger]
            wire::fill(sheet, seq![Piece::Bytes(bytes@)], limit) == wire::put_piece(
                sheet,
                Piece::Bytes(bytes@),
                limit,
            ) by {
            wire::lemma_fill_one(sheet, Piece::Bytes(bytes@), limit);
        }
    }
    let size: usize = destination.len();
    if !wire::write_at(destination, at, bytes) {
        return Err(Trouble::NoRoom);
    }
    assert(at + bytes@.len() <= size);
    Ok(at + bytes.len())
}

/// Writes a length as a piece of its own.
///
/// # Errors
///
/// [`Trouble::NoRoom`] if it does not fit.
pub(crate) fn place_length(destination: &mut [u8], at: usize, length: u32) -> (next: Result<
    usize,
    Trouble,
>)
    requires
        at <= old(destination)@.len(),
        length <= header::MAX_REMAINING_LENGTH,
    ensures
        forall|limit: int| #[trigger]
            filled(
                old(destination)@,
                at,
                seq![Piece::Bytes(wire::length_bytes(length as nat))],
                limit,
                next,
                final(destination)@,
            ),
{
    let ghost sheet = Sheet { buffer: destination@, at: at as int, open: true };
    let ghost bytes = wire::length_bytes(length as nat);
    proof {
        wire::lemma_put_length(sheet, length as nat);
        assert forall|limit: int| #[trigger]
            wire::fill(sheet, seq![Piece::Bytes(bytes)], limit) == wire::put_piece(
                sheet,
                Piece::Bytes(bytes),
                limit,
            ) by {
            wire::lemma_fill_one(sheet, Piece::Bytes(bytes), limit);
        }
    }
    match header::put_length(destination, at, length) {
        Some(next) => Ok(next),
        None => Err(Trouble::NoRoom),
    }
}

/// Writing these pieces at `at` over `before` gives `next` and `after`.
pub open spec fn filled(
    before: Seq<u8>,
    at: usize,
    pieces: Seq<Piece>,
    limit: int,
    next: Result<usize, Trouble>,
    after: Seq<u8>,
) -> bool {
    let (trouble, sheet) = wire::fill(
        Sheet { buffer: before, at: at as int, open: true },
        pieces,
        limit,
    );
    &&& after == sheet.buffer
    &&& match next {
        Ok(n) => trouble is None && n == sheet.at && n <= after.len() && sheet.open,
        Err(error) => trouble == Some(error),
    }
}

/// Two lists of pieces written one after the other are one list.
pub proof fn lemma_filled_parts(
    before: Seq<u8>,
    at: usize,
    first: Seq<Piece>,
    middle: Seq<u8>,
    middle_at: usize,
    second: Seq<Piece>,
    limit: int,
    next: Result<usize, Trouble>,
    after: Seq<u8>,
)
    requires
        filled(before, at, first, limit, Ok(middle_at), middle),
        filled(middle, middle_at, second, limit, next, after),
    ensures
        filled(before, at, first + second, limit, next, after),
{
    wire::lemma_fill_parts(
        Sheet { buffer: before, at: at as int, open: true },
        first,
        second,
        limit,
    );
}

/// A list of pieces that cannot be written is the end of it.
pub proof fn lemma_filled_stops(
    before: Seq<u8>,
    at: usize,
    first: Seq<Piece>,
    second: Seq<Piece>,
    limit: int,
    trouble: Trouble,
    after: Seq<u8>,
)
    requires
        filled(before, at, first, limit, Err(trouble), after),
    ensures
        filled(before, at, first + second, limit, Err(trouble), after),
{
    wire::lemma_fill_parts(
        Sheet { buffer: before, at: at as int, open: true },
        first,
        second,
        limit,
    );
}

} // verus!
