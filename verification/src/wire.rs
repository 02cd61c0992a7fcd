//! Bytes on the wire: the vocabulary every codec in this crate is stated in.
//!
//! Two models live here. *Reading* is a family of functions from a byte
//! sequence to a value and the bytes that follow it. *Writing* is [`Sheet`], a
//! buffer with a write position that closes for good at the first piece that
//! does not fit. The executable helpers at the end write into a slice and are
//! proved against those models.

use vstd::prelude::*;

verus! {

/// The largest value a one-to-four-byte length can hold.
pub const LARGEST_LENGTH: u32 = 268_435_455;

// ---------------------------------------------------------------------------
// Integers
// ---------------------------------------------------------------------------

/// Two bytes, most significant first.
pub open spec fn u16_of(hi: u8, lo: u8) -> u16 {
    (hi * 256 + lo) as u16
}

/// Four bytes, most significant first.
pub open spec fn u32_of(a: u8, b: u8, c: u8, d: u8) -> u32 {
    (a * 16_777_216 + b * 65_536 + c * 256 + d) as u32
}

/// A `u16` as it is transmitted.
pub open spec fn u16_bytes(value: u16) -> Seq<u8> {
    seq![(value / 256) as u8, (value % 256) as u8]
}

/// A `u32` as it is transmitted.
pub open spec fn u32_bytes(value: u32) -> Seq<u8> {
    seq![
        (value / 16_777_216) as u8,
        (value / 65_536 % 256) as u8,
        (value / 256 % 256) as u8,
        (value % 256) as u8,
    ]
}

// ---------------------------------------------------------------------------
// Variable-length integers
// ---------------------------------------------------------------------------

/// How many bytes a length takes, for lengths up to [`LARGEST_LENGTH`].
pub open spec fn length_size(n: int) -> int {
    if n < 128 {
        1
    } else if n < 16_384 {
        2
    } else if n < 2_097_152 {
        3
    } else {
        4
    }
}

/// A length as it is transmitted: seven bits at a time, least significant
/// first, with the top bit of each byte saying that another follows.
pub open spec fn length_bytes(n: nat) -> Seq<u8>
    decreases n,
{
    if n < 128 {
        seq![n as u8]
    } else {
        seq![(n % 128 + 128) as u8] + length_bytes(n / 128)
    }
}

/// What the first bytes of a sequence say when they are read as a length.
pub enum LengthRead {
    /// A value, in its only accepted spelling.
    Value(u32),
    /// Every byte so far asks for another one, and there is none.
    Short,
    /// More than four bytes, or more bytes than the value needs.
    Malformed,
}

/// Reads a length from the front of `s`.
pub open spec fn read_length(s: Seq<u8>) -> LengthRead {
    if s.len() < 1 {
        LengthRead::Short
    } else if s[0] < 128 {
        LengthRead::Value(s[0] as u32)
    } else if s.len() < 2 {
        LengthRead::Short
    } else if s[1] < 128 {
        if s[1] == 0 {
            LengthRead::Malformed
        } else {
            LengthRead::Value((s[0] - 128 + 128 * s[1]) as u32)
        }
    } else if s.len() < 3 {
        LengthRead::Short
    } else if s[2] < 128 {
        if s[2] == 0 {
            LengthRead::Malformed
        } else {
            LengthRead::Value((s[0] - 128 + 128 * (s[1] - 128) + 16_384 * s[2]) as u32)
        }
    } else if s.len() < 4 {
        LengthRead::Short
    } else if s[3] < 128 {
        if s[3] == 0 {
            LengthRead::Malformed
        } else {
            LengthRead::Value(
                (s[0] - 128 + 128 * (s[1] - 128) + 16_384 * (s[2] - 128) + 2_097_152 * s[3]) as u32,
            )
        }
    } else {
        LengthRead::Malformed
    }
}

/// A value read as a length is a legal one, and its size is the number of bytes
/// it was read from.
pub proof fn lemma_read_length_bounds(s: Seq<u8>)
    ensures
        read_length(s) matches LengthRead::Value(n) ==> {
            &&& n <= LARGEST_LENGTH
            &&& length_size(n as int) <= s.len()
            &&& 1 <= length_size(n as int) <= 4
        },
{
}

/// The encoding of a legal length has exactly the size that is announced for
/// it; one past the limit takes a fifth byte.
pub proof fn lemma_length_bytes_len(n: nat)
    ensures
        n <= LARGEST_LENGTH ==> length_bytes(n).len() == length_size(n as int),
        LARGEST_LENGTH < n <= u32::MAX ==> length_bytes(n).len() == 5,
{
    reveal_with_fuel(length_bytes, 5);
}

/// The bytes of a length, one by one.
pub proof fn lemma_length_bytes_unfold(n: nat)
    requires
        n <= LARGEST_LENGTH,
    ensures
        n < 128 ==> length_bytes(n) == seq![n as u8],
        128 <= n < 16_384 ==> length_bytes(n) == seq![(n % 128 + 128) as u8, (n / 128) as u8],
        16_384 <= n < 2_097_152 ==> length_bytes(n) == seq![
            (n % 128 + 128) as u8,
            (n / 128 % 128 + 128) as u8,
            (n / 128 / 128) as u8,
        ],
        2_097_152 <= n ==> length_bytes(n) == seq![
            (n % 128 + 128) as u8,
            (n / 128 % 128 + 128) as u8,
            (n / 128 / 128 % 128 + 128) as u8,
            (n / 128 / 128 / 128) as u8,
        ],
{
    reveal_with_fuel(length_bytes, 5);
}

/// **Law.** A legal length, written and then read back, is itself, whatever
/// bytes follow it.
pub proof fn law_length_round_trip(n: u32, after: Seq<u8>)
    requires
        n <= LARGEST_LENGTH,
    ensures
        read_length(length_bytes(n as nat) + after) == LengthRead::Value(n),
{
    lemma_length_bytes_unfold(n as nat);
}

/// **Law.** A length has one spelling: bytes that read as `n` begin with the
/// bytes that `n` is written as.
pub proof fn law_length_has_one_spelling(s: Seq<u8>, n: u32)
    requires
        read_length(s) == LengthRead::Value(n),
    ensures
        length_bytes(n as nat).is_prefix_of(s),
        length_bytes(n as nat).len() == length_size(n as int),
{
    lemma_read_length_bounds(s);
    lemma_length_bytes_len(n as nat);
    lemma_length_bytes_unfold(n as nat);
    let bytes = length_bytes(n as nat);
    if s[0] < 128 {
        assert(bytes =~= s.take(1));
    } else if s[1] < 128 {
        assert(n % 128 == s[0] - 128 && n / 128 == s[1]);
        assert(bytes =~= s.take(2));
    } else if s[2] < 128 {
        assert(n % 128 == s[0] - 128 && n / 128 == (s[1] - 128) + 128 * s[2]);
        assert(n / 128 % 128 == s[1] - 128 && n / 128 / 128 == s[2]);
        assert(bytes =~= s.take(3));
    } else {
        assert(n % 128 == s[0] - 128 && n / 128 == (s[1] - 128) + 128 * (s[2] - 128) + 16_384
            * s[3]);
        assert(n / 128 % 128 == s[1] - 128 && n / 128 / 128 == (s[2] - 128) + 128 * s[3]);
        assert(n / 128 / 128 % 128 == s[2] - 128 && n / 128 / 128 / 128 == s[3]);
        assert(bytes =~= s.take(4));
    }
}

// ---------------------------------------------------------------------------
// Reading: a value, and what follows it
// ---------------------------------------------------------------------------

/// One byte.
pub open spec fn take_u8(s: Seq<u8>) -> Option<(u8, Seq<u8>)> {
    if s.len() < 1 {
        None
    } else {
        Some((s[0], s.skip(1)))
    }
}

/// A two-byte integer.
pub open spec fn take_u16(s: Seq<u8>) -> Option<(u16, Seq<u8>)> {
    if s.len() < 2 {
        None
    } else {
        Some((u16_of(s[0], s[1]), s.skip(2)))
    }
}

/// A four-byte integer.
pub open spec fn take_u32(s: Seq<u8>) -> Option<(u32, Seq<u8>)> {
    if s.len() < 4 {
        None
    } else {
        Some((u32_of(s[0], s[1], s[2], s[3]), s.skip(4)))
    }
}

/// A two-byte count and that many bytes.
pub open spec fn take_text(s: Seq<u8>) -> Option<(Seq<u8>, Seq<u8>)> {
    if s.len() < 2 || s.len() - 2 < u16_of(s[0], s[1]) {
        None
    } else {
        let n = u16_of(s[0], s[1]) as int;
        Some((s.subrange(2, 2 + n), s.skip(2 + n)))
    }
}

/// Two texts, one after the other.
pub open spec fn take_pair(s: Seq<u8>) -> Option<((Seq<u8>, Seq<u8>), Seq<u8>)> {
    match take_text(s) {
        None => None,
        Some((key, rest)) => match take_text(rest) {
            None => None,
            Some((value, after)) => Some(((key, value), after)),
        },
    }
}

/// A length in its minimal spelling.
pub open spec fn take_length(s: Seq<u8>) -> Option<(u32, Seq<u8>)> {
    match read_length(s) {
        LengthRead::Value(n) => Some((n, s.skip(length_size(n as int)))),
        _ => None,
    }
}

/// A text as it is transmitted.
pub open spec fn text_bytes(text: Seq<u8>) -> Seq<u8> {
    u16_bytes(text.len() as u16) + text
}

/// A property section as it is transmitted: its length, then its bytes.
pub open spec fn section_bytes(section: Seq<u8>) -> Seq<u8> {
    length_bytes(section.len()) + section
}

/// **Law.** A `u16`, written and then read back, is itself.
pub proof fn law_u16_round_trip(value: u16, after: Seq<u8>)
    ensures
        take_u16(u16_bytes(value) + after) == Some((value, after)),
{
    assert((u16_bytes(value) + after).skip(2) =~= after);
}

/// **Law.** A `u32`, written and then read back, is itself.
pub proof fn law_u32_round_trip(value: u32, after: Seq<u8>)
    ensures
        take_u32(u32_bytes(value) + after) == Some((value, after)),
{
    assert((u32_bytes(value) + after).skip(4) =~= after);
}

/// **Law.** A text no longer than its count can say, written and then read
/// back, is itself.
pub proof fn law_text_round_trip(text: Seq<u8>, after: Seq<u8>)
    requires
        text.len() <= u16::MAX,
    ensures
        take_text(text_bytes(text) + after) == Some((text, after)),
{
    let s = text_bytes(text) + after;
    assert(s.subrange(2, 2 + text.len() as int) =~= text);
    assert(s.skip(2 + text.len() as int) =~= after);
}

/// **Law.** Reading a length back leaves exactly what followed it.
pub proof fn law_take_length_round_trip(n: u32, after: Seq<u8>)
    requires
        n <= LARGEST_LENGTH,
    ensures
        take_length(length_bytes(n as nat) + after) == Some((n, after)),
{
    law_length_round_trip(n, after);
    lemma_length_bytes_len(n as nat);
    assert((length_bytes(n as nat) + after).skip(length_size(n as int)) =~= after);
}

/// Every reader consumes at least one byte and leaves a suffix.
pub proof fn lemma_readers_shrink(s: Seq<u8>)
    ensures
        take_u8(s) matches Some((_, r)) ==> r.len() < s.len(),
        take_u16(s) matches Some((_, r)) ==> r.len() < s.len(),
        take_u32(s) matches Some((_, r)) ==> r.len() < s.len(),
        take_text(s) matches Some((_, r)) ==> r.len() < s.len(),
        take_pair(s) matches Some((_, r)) ==> r.len() < s.len(),
        take_length(s) matches Some((_, r)) ==> r.len() < s.len(),
{
    lemma_read_length_bounds(s);
}

/// A result, with the value it carries seen through its view.
pub open spec fn viewed<T: View, E>(result: Result<T, E>) -> Result<T::V, E> {
    match result {
        Ok(value) => Ok(value@),
        Err(error) => Err(error),
    }
}

/// `length` bytes of `s` from `from` on, where there are that many.
pub open spec fn part(s: Seq<u8>, from: int, length: int) -> Option<Seq<u8>> {
    if from + length <= s.len() {
        Some(s.subrange(from, from + length))
    } else {
        None
    }
}

// ---------------------------------------------------------------------------
// Writing
// ---------------------------------------------------------------------------

/// `buffer` with `bytes` written over it at `at`.
pub open spec fn overwrite(buffer: Seq<u8>, at: int, bytes: Seq<u8>) -> Seq<u8> {
    buffer.take(at) + bytes + buffer.skip(at + bytes.len())
}

/// A buffer being filled from the front.
///
/// Pieces are written one after the other. The first piece that does not fit
/// closes the sheet: nothing of it is written, nor of any piece after it.
#[verifier::ext_equal]
pub struct Sheet {
    pub buffer: Seq<u8>,
    pub at: int,
    pub open: bool,
}

impl Sheet {
    /// Nothing written yet.
    pub open spec fn over(buffer: Seq<u8>) -> Sheet {
        Sheet { buffer, at: 0, open: true }
    }

    /// The next piece.
    pub open spec fn put(self, bytes: Seq<u8>) -> Sheet {
        if self.open && self.at + bytes.len() <= self.buffer.len() {
            Sheet {
                buffer: overwrite(self.buffer, self.at, bytes),
                at: self.at + bytes.len(),
                open: true,
            }
        } else {
            Sheet { open: false, ..self }
        }
    }

    /// The next piece, where it is a length. Up to [`LARGEST_LENGTH`] this is
    /// [`put`](Sheet::put) of the length's bytes; past it four bytes are
    /// demanded, and as much of the five-byte spelling as fits is written.
    pub open spec fn put_length(self, n: nat) -> Sheet {
        let bytes = length_bytes(n);
        let room = self.buffer.len() - self.at;
        if room < length_size(n as int) {
            Sheet { open: false, ..self }
        } else if bytes.len() <= room {
            self.put(bytes)
        } else {
            self.put(bytes.take(room))
        }
    }

    /// The next piece, where it is a property section.
    pub open spec fn put_section(self, section: Seq<u8>) -> Sheet {
        self.put_length(section.len()).put(section)
    }
}

/// Below the limit a length is an ordinary piece.
pub proof fn lemma_put_length(sheet: Sheet, n: nat)
    requires
        n <= LARGEST_LENGTH,
    ensures
        sheet.put_length(n) == sheet.put(length_bytes(n)),
{
    lemma_length_bytes_len(n);
}

/// Below the limit a section whose two halves fit is one piece.
pub proof fn lemma_put_section(sheet: Sheet, section: Seq<u8>)
    requires
        section.len() <= LARGEST_LENGTH,
        0 <= sheet.at,
        sheet.open,
        sheet.at + section_bytes(section).len() <= sheet.buffer.len(),
    ensures
        sheet.put_section(section) == sheet.put(section_bytes(section)),
{
    lemma_put_length(sheet, section.len());
    lemma_puts_join(sheet, length_bytes(section.len()), section);
}

/// Two pieces that fit are one longer piece.
pub proof fn lemma_puts_join(sheet: Sheet, first: Seq<u8>, second: Seq<u8>)
    requires
        sheet.open,
        0 <= sheet.at,
        sheet.at + first.len() + second.len() <= sheet.buffer.len(),
    ensures
        sheet.put(first).put(second) == sheet.put(first + second),
{
    assert(sheet.put(first).put(second) =~= sheet.put(first + second));
}

/// Writing never changes how long the buffer is, nor what is before the
/// position or after the end of what is written.
pub proof fn lemma_put_frame(sheet: Sheet, bytes: Seq<u8>)
    requires
        0 <= sheet.at <= sheet.buffer.len(),
    ensures
        sheet.put(bytes).buffer.len() == sheet.buffer.len(),
        sheet.at <= sheet.put(bytes).at <= sheet.buffer.len(),
        sheet.put(bytes).buffer.take(sheet.at) == sheet.buffer.take(sheet.at),
        sheet.put(bytes).buffer.skip(sheet.put(bytes).at) == sheet.buffer.skip(
            sheet.put(bytes).at,
        ),
{
    let after = sheet.put(bytes);
    assert(after.buffer.take(sheet.at) =~= sheet.buffer.take(sheet.at));
    assert(after.buffer.skip(after.at) =~= sheet.buffer.skip(after.at));
}

/// A piece of a packet's body.
pub enum Piece {
    /// Bytes as they are.
    Bytes(Seq<u8>),
    /// A two-byte count and that many bytes.
    Text(Seq<u8>),
    /// A length and that many bytes.
    Section(Seq<u8>),
}

/// Why a piece could not be written.
#[derive(Debug, Clone, Copy, PartialEq, Eq, Structural)]
pub enum Trouble {
    /// It is longer than its count or length can say.
    TooLong,
    /// There is no room for it.
    NoRoom,
}

/// Writing one piece. A section may have up to `limit` bytes.
pub open spec fn put_piece(sheet: Sheet, piece: Piece, limit: int) -> (Option<Trouble>, Sheet) {
    let (too_long, after) = match piece {
        Piece::Bytes(bytes) => (false, sheet.put(bytes)),
        Piece::Text(text) => (text.len() > u16::MAX, sheet.put(text_bytes(text))),
        Piece::Section(section) => (section.len() > limit, sheet.put_section(section)),
    };
    if too_long {
        (Some(Trouble::TooLong), sheet)
    } else if after.open {
        (None, after)
    } else {
        (Some(Trouble::NoRoom), after)
    }
}

/// Writing pieces one after the other, up to the first that cannot be written.
pub open spec fn fill(sheet: Sheet, pieces: Seq<Piece>, limit: int) -> (Option<Trouble>, Sheet)
    decreases pieces.len(),
{
    if pieces.len() == 0 {
        (None, sheet)
    } else {
        match put_piece(sheet, pieces[0], limit) {
            (None, after) => fill(after, pieces.drop_first(), limit),
            (Some(trouble), after) => (Some(trouble), after),
        }
    }
}

/// The bytes of one piece.
pub open spec fn piece_bytes(piece: Piece) -> Seq<u8> {
    match piece {
        Piece::Bytes(bytes) => bytes,
        Piece::Text(text) => text_bytes(text),
        Piece::Section(section) => section_bytes(section),
    }
}

/// The bytes of all pieces, one after the other.
pub open spec fn joined(pieces: Seq<Piece>) -> Seq<u8>
    decreases pieces.len(),
{
    if pieces.len() == 0 {
        Seq::empty()
    } else {
        piece_bytes(pieces[0]) + joined(pieces.drop_first())
    }
}

/// The bytes of two lists of pieces, one after the other.
pub proof fn lemma_joined_parts(first: Seq<Piece>, second: Seq<Piece>)
    ensures
        joined(first + second) == joined(first) + joined(second),
    decreases first.len(),
{
    if first.len() > 0 {
        assert((first + second).drop_first() =~= first.drop_first() + second);
        lemma_joined_parts(first.drop_first(), second);
        assert(joined(first + second) =~= joined(first) + joined(second));
    } else {
        assert(first + second =~= second);
        assert(joined(first) + joined(second) =~= joined(second));
    }
}

/// The bytes of a single piece.
pub proof fn lemma_joined_one(piece: Piece)
    ensures
        joined(seq![piece]) == piece_bytes(piece),
{
    assert(seq![piece].drop_first() =~= Seq::<Piece>::empty());
    reveal_with_fuel(joined, 2);
    assert(piece_bytes(piece) + Seq::<u8>::empty() =~= piece_bytes(piece));
}

/// No piece is longer than it can say.
pub open spec fn all_sayable(pieces: Seq<Piece>, limit: int) -> bool {
    forall|i: int|
        0 <= i < pieces.len() ==> match #[trigger] pieces[i] {
            Piece::Bytes(_) => true,
            Piece::Text(text) => text.len() <= u16::MAX,
            Piece::Section(section) => section.len() <= limit,
        }
}

/// Two lists of pieces that can be said.
pub proof fn lemma_sayable_parts(first: Seq<Piece>, second: Seq<Piece>, limit: int)
    requires
        all_sayable(first, limit),
        all_sayable(second, limit),
    ensures
        all_sayable(first + second, limit),
{
    let all = first + second;
    assert forall|i: int| 0 <= i < all.len() implies match #[trigger] all[i] {
        Piece::Bytes(_) => true,
        Piece::Text(text) => text.len() <= u16::MAX,
        Piece::Section(section) => section.len() <= limit,
    } by {
        if i < first.len() {
            assert(all[i] == first[i]);
        } else {
            assert(all[i] == second[i - first.len()]);
        }
    }
}

/// Writing two lists of pieces, one after the other.
pub proof fn lemma_fill_parts(sheet: Sheet, first: Seq<Piece>, second: Seq<Piece>, limit: int)
    ensures
        fill(sheet, first + second, limit) == (match fill(sheet, first, limit) {
            (None, after) => fill(after, second, limit),
            (Some(trouble), after) => (Some(trouble), after),
        }),
    decreases first.len(),
{
    if first.len() > 0 {
        assert((first + second).drop_first() =~= first.drop_first() + second);
        if let (None, after) = put_piece(sheet, first[0], limit) {
            lemma_fill_parts(after, first.drop_first(), second, limit);
        }
    } else {
        assert(first + second =~= second);
    }
}

/// Writing a single piece.
pub proof fn lemma_fill_one(sheet: Sheet, piece: Piece, limit: int)
    ensures
        fill(sheet, seq![piece], limit) == put_piece(sheet, piece, limit),
{
    assert(seq![piece].drop_first() =~= Seq::<Piece>::empty());
    reveal_with_fuel(fill, 2);
}

/// **Law.** Pieces that can all be said and that all fit are written whole, one
/// after the other, and nothing else of the buffer is touched.
pub proof fn law_fill_writes_all(sheet: Sheet, pieces: Seq<Piece>, limit: int)
    requires
        sheet.open,
        0 <= sheet.at,
        sheet.at + joined(pieces).len() <= sheet.buffer.len(),
        all_sayable(pieces, limit),
        limit <= LARGEST_LENGTH,
    ensures
        fill(sheet, pieces, limit) == (None::<Trouble>, sheet.put(joined(pieces))),
    decreases pieces.len(),
{
    if pieces.len() > 0 {
        let first = piece_bytes(pieces[0]);
        let rest = pieces.drop_first();
        if let Piece::Section(section) = pieces[0] {
            lemma_put_section(sheet, section);
        }
        assert(all_sayable(rest, limit)) by {
            assert forall|i: int| 0 <= i < rest.len() implies rest[i] == pieces[i + 1] by {}
        }
        law_fill_writes_all(sheet.put(first), rest, limit);
        lemma_puts_join(sheet, first, joined(rest));
    } else {
        assert(sheet.put(Seq::empty()) =~= sheet);
    }
}

/// **Law.** However far writing got, the buffer keeps its length, and what was
/// before the first position or is behind the last one is untouched.
pub proof fn law_fill_frame(sheet: Sheet, pieces: Seq<Piece>, limit: int)
    requires
        0 <= sheet.at <= sheet.buffer.len(),
    ensures
        ({
            let after = fill(sheet, pieces, limit).1;
            &&& after.buffer.len() == sheet.buffer.len()
            &&& sheet.at <= after.at <= after.buffer.len()
            &&& after.buffer.take(sheet.at) == sheet.buffer.take(sheet.at)
            &&& after.buffer.skip(after.at) == sheet.buffer.skip(after.at)
        }),
    decreases pieces.len(),
{
    if pieces.len() > 0 {
        let (trouble, next) = put_piece(sheet, pieces[0], limit);
        lemma_piece_frame(sheet, pieces[0], limit);
        if trouble is None {
            law_fill_frame(next, pieces.drop_first(), limit);
            let after = fill(sheet, pieces, limit).1;
            assert(after.buffer.take(sheet.at) =~= after.buffer.take(next.at).take(sheet.at));
            assert(next.buffer.take(sheet.at) =~= next.buffer.take(next.at).take(sheet.at));
            assert(after.buffer.skip(after.at) =~= next.buffer.skip(after.at));
            assert(next.buffer.skip(after.at) =~= next.buffer.skip(next.at).skip(
                after.at - next.at,
            ));
            assert(sheet.buffer.skip(after.at) =~= sheet.buffer.skip(next.at).skip(
                after.at - next.at,
            ));
        }
    }
}

proof fn lemma_piece_frame(sheet: Sheet, piece: Piece, limit: int)
    requires
        0 <= sheet.at <= sheet.buffer.len(),
    ensures
        ({
            let next = put_piece(sheet, piece, limit).1;
            &&& next.buffer.len() == sheet.buffer.len()
            &&& sheet.at <= next.at <= next.buffer.len()
            &&& next.buffer.take(sheet.at) == sheet.buffer.take(sheet.at)
            &&& next.buffer.skip(next.at) == sheet.buffer.skip(next.at)
        }),
{
    match piece {
        Piece::Bytes(bytes) => lemma_put_frame(sheet, bytes),
        Piece::Text(text) => lemma_put_frame(sheet, text_bytes(text)),
        Piece::Section(section) => {
            let bytes = length_bytes(section.len());
            let room = sheet.buffer.len() - sheet.at;
            let middle = sheet.put_length(section.len());
            lemma_put_frame(sheet, bytes);
            lemma_put_frame(sheet, bytes.take(room));
            lemma_put_frame(middle, section);
            let next = middle.put(section);
            assert(next.buffer.take(sheet.at) =~= next.buffer.take(middle.at).take(sheet.at));
            assert(middle.buffer.take(sheet.at) =~= middle.buffer.take(middle.at).take(sheet.at));
            assert(next.buffer.skip(next.at) =~= middle.buffer.skip(next.at));
            assert(middle.buffer.skip(next.at) =~= middle.buffer.skip(middle.at).skip(
                next.at - middle.at,
            ));
            assert(sheet.buffer.skip(next.at) =~= sheet.buffer.skip(middle.at).skip(
                next.at - middle.at,
            ));
        },
    }
}

// ---------------------------------------------------------------------------
// Executable helpers
// ---------------------------------------------------------------------------

/// Writes `bytes` at `at`, or nothing at all where they do not fit.
pub fn write_at(destination: &mut [u8], at: usize, bytes: &[u8]) -> (fits: bool)
    ensures
        fits == (at + bytes@.len() <= old(destination)@.len()),
        fits ==> final(destination)@ == overwrite(old(destination)@, at as int, bytes@),
        !fits ==> final(destination)@ == old(destination)@,
{
    if at > destination.len() || bytes.len() > destination.len() - at {
        return false;
    }
    copy_in(destination, at, bytes, bytes.len());
    true
}

/// Writes bytes at `at`, where there is room for all `count` of them.
pub(crate) fn copy_in(destination: &mut [u8], at: usize, bytes: &[u8], count: usize)
    requires
        count == bytes@.len(),
        at + count <= old(destination)@.len(),
        at + count <= usize::MAX,
    ensures
        final(destination)@ == overwrite(old(destination)@, at as int, bytes@),
    no_unwind
{
    let ghost before = destination@;
    let mut done: usize = 0;
    while done < count
        invariant
            done <= count,
            count == bytes@.len(),
            at + count <= before.len(),
            at + count <= usize::MAX,
            destination@.len() == before.len(),
            forall|i: int| 0 <= i < before.len() ==> destination@[i] == (if at <= i < at + done {
                bytes@[i - at]
            } else {
                before[i]
            }),
        decreases count - done,
    {
        destination[at + done] = bytes[done];
        done += 1;
    }
    assert(destination@ =~= overwrite(before, at as int, bytes@));
}

/// Writes one byte at `at`, or nothing where there is no such place.
pub fn write_u8(destination: &mut [u8], at: usize, value: u8) -> (fits: bool)
    ensures
        fits == (at < old(destination)@.len()),
        fits ==> final(destination)@ == overwrite(old(destination)@, at as int, seq![value]),
        !fits ==> final(destination)@ == old(destination)@,
{
    let one = [value];
    assert(one@ =~= seq![value]);
    write_at(destination, at, &one)
}

/// A bit of a byte, by its position and by arithmetic.
pub proof fn lemma_bits(byte: u8)
    ensures
        (byte & (1u8 << 0u8) != 0) == (byte % 2 == 1),
        (byte & (1u8 << 1u8) != 0) == (byte / 2 % 2 == 1),
        (byte & (1u8 << 2u8) != 0) == (byte / 4 % 2 == 1),
        (byte & (1u8 << 3u8) != 0) == (byte / 8 % 2 == 1),
        (byte & (1u8 << 4u8) != 0) == (byte / 16 % 2 == 1),
        (byte & (1u8 << 5u8) != 0) == (byte / 32 % 2 == 1),
        (byte & (1u8 << 6u8) != 0) == (byte / 64 % 2 == 1),
        (byte & (1u8 << 7u8) != 0) == (byte / 128 % 2 == 1),
{
    assert((byte & (1u8 << 0u8) != 0) == (byte % 2 == 1) && (byte & (1u8 << 1u8) != 0) == (byte / 2
        % 2 == 1) && (byte & (1u8 << 2u8) != 0) == (byte / 4 % 2 == 1) && (byte & (1u8 << 3u8)
        != 0) == (byte / 8 % 2 == 1) && (byte & (1u8 << 4u8) != 0) == (byte / 16 % 2 == 1) && (byte
        & (1u8 << 5u8) != 0) == (byte / 32 % 2 == 1) && (byte & (1u8 << 6u8) != 0) == (byte / 64 % 2
        == 1) && (byte & (1u8 << 7u8) != 0) == (byte / 128 % 2 == 1)) by (bit_vector);
}

/// Splits a `u16` into its two bytes.
pub fn split_u16(value: u16) -> (bytes: [u8; 2])
    ensures
        bytes@ == u16_bytes(value),
{
    let bytes = [(value / 256) as u8, (value % 256) as u8];
    assert(bytes@ =~= u16_bytes(value));
    bytes
}

/// Splits a `u32` into its four bytes.
pub fn split_u32(value: u32) -> (bytes: [u8; 4])
    ensures
        bytes@ == u32_bytes(value),
{
    let bytes = [
        (value / 16_777_216) as u8,
        (value / 65_536 % 256) as u8,
        (value / 256 % 256) as u8,
        (value % 256) as u8,
    ];
    assert(bytes@ =~= u32_bytes(value));
    bytes
}

/// Joins two bytes into a `u16`.
pub fn join_u16(hi: u8, lo: u8) -> (value: u16)
    ensures
        value == u16_of(hi, lo),
{
    (hi as u16) * 256 + lo as u16
}

/// Joins four bytes into a `u32`.
pub fn join_u32(a: u8, b: u8, c: u8, d: u8) -> (value: u32)
    ensures
        value == u32_of(a, b, c, d),
{
    (a as u32) * 16_777_216 + (b as u32) * 65_536 + (c as u32) * 256 + d as u32
}

} // verus!
