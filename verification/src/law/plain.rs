//! The format in plain words: numbers, texts and lengths by their positions.

use vstd::prelude::*;

use crate::wire;

verus! {

/// The two-byte number at a position.
pub open spec fn number_at(s: Seq<u8>, at: int) -> int {
    s[at] * 256 + s[at + 1]
}

/// The four-byte number at a position.
pub open spec fn long_at(s: Seq<u8>, at: int) -> int {
    number_at(s, at) * 65_536 + number_at(s, at + 2)
}

/// Where a text that begins at a position ends: behind its count and as many
/// bytes as that says.
pub open spec fn text_end(s: Seq<u8>, at: int) -> int {
    at + 2 + number_at(s, at)
}

/// The text that begins at a position.
pub open spec fn text_at(s: Seq<u8>, at: int) -> Seq<u8> {
    s.subrange(at + 2, text_end(s, at))
}

/// Where a length that begins at a position ends: behind the first byte under
/// 128.
pub open spec fn length_end(s: Seq<u8>, at: int) -> int
    decreases s.len() - at,
{
    if at >= s.len() || s[at] < 128 {
        at + 1
    } else {
        length_end(s, at + 1)
    }
}

/// The length that begins at a position: each byte counts 128 times what the one
/// before it does, less the 128 that says that another follows.
pub open spec fn length_at(s: Seq<u8>, at: int) -> int
    decreases s.len() - at,
{
    if at >= s.len() {
        0
    } else if s[at] < 128 {
        s[at] as int
    } else {
        s[at] - 128 + 128 * length_at(s, at + 1)
    }
}

/// Where a section that begins at a position ends.
pub open spec fn section_end(s: Seq<u8>, at: int) -> int {
    length_end(s, at) + length_at(s, at)
}

/// The section that begins at a position.
pub open spec fn section_at(s: Seq<u8>, at: int) -> Seq<u8> {
    s.subrange(length_end(s, at), section_end(s, at))
}

/// How many bytes a length takes: one for every seven bits.
pub open spec fn length_count(n: int) -> int
    decreases n,
{
    if n < 128 {
        1
    } else {
        1 + length_count(n / 128)
    }
}

/// The bit of a byte that counts this much is set.
pub open spec fn bit(byte: u8, weight: int) -> bool {
    byte as int / weight % 2 == 1
}

/// A number in two bytes.
pub proof fn lemma_number(front: Seq<u8>, value: u16, rest: Seq<u8>)
    ensures
        ({
            let s = front + wire::u16_bytes(value) + rest;
            number_at(s, front.len() as int) == value
        }),
{
    let s = front + wire::u16_bytes(value) + rest;
    assert(s[front.len() as int] == wire::u16_bytes(value)[0]);
    assert(s[front.len() as int + 1] == wire::u16_bytes(value)[1]);
}

/// A number in four bytes.
pub proof fn lemma_long(front: Seq<u8>, value: u32, rest: Seq<u8>)
    ensures
        ({
            let s = front + wire::u32_bytes(value) + rest;
            long_at(s, front.len() as int) == value
        }),
{
    let s = front + wire::u32_bytes(value) + rest;
    let at = front.len() as int;
    assert(s[at] == wire::u32_bytes(value)[0]);
    assert(s[at + 1] == wire::u32_bytes(value)[1]);
    assert(s[at + 2] == wire::u32_bytes(value)[2]);
    assert(s[at + 3] == wire::u32_bytes(value)[3]);
}

/// A text.
pub proof fn lemma_text(front: Seq<u8>, text: Seq<u8>, rest: Seq<u8>)
    requires
        text.len() <= 65_535,
    ensures
        ({
            let s = front + wire::text_bytes(text) + rest;
            &&& text_at(s, front.len() as int) == text
            &&& text_end(s, front.len() as int) == front.len() + 2 + text.len()
            &&& wire::text_bytes(text).len() == 2 + text.len()
        }),
{
    let s = front + wire::text_bytes(text) + rest;
    lemma_number(front, text.len() as u16, text + rest);
    assert(s =~= front + wire::u16_bytes(text.len() as u16) + (text + rest));
    assert(text_at(s, front.len() as int) =~= text);
}

/// A length.
pub proof fn lemma_length(front: Seq<u8>, n: nat, rest: Seq<u8>)
    ensures
        ({
            let s = front + wire::length_bytes(n) + rest;
            &&& length_at(s, front.len() as int) == n
            &&& length_end(s, front.len() as int) == front.len() + wire::length_bytes(n).len()
            &&& wire::length_bytes(n).len() == length_count(n as int)
        }),
    decreases n,
{
    let s = front + wire::length_bytes(n) + rest;
    let at = front.len() as int;
    assert(s[at] == wire::length_bytes(n)[0]);
    if n >= 128 {
        let first = seq![(n % 128 + 128) as u8];
        lemma_length(front + first, n / 128, rest);
        assert(s =~= front + first + wire::length_bytes(n / 128) + rest);
        assert(n == n % 128 + 128 * (n / 128));
    }
}

/// A section.
pub proof fn lemma_section(front: Seq<u8>, section: Seq<u8>, rest: Seq<u8>)
    ensures
        ({
            let s = front + wire::section_bytes(section) + rest;
            &&& section_at(s, front.len() as int) == section
            &&& section_end(s, front.len() as int) == front.len() + wire::section_bytes(
                section,
            ).len()
        }),
{
    let s = front + wire::section_bytes(section) + rest;
    lemma_length(front, section.len(), section + rest);
    assert(s =~= front + wire::length_bytes(section.len()) + (section + rest));
    assert(section_at(s, front.len() as int) =~= section);
}

/// **Law.** A number, a text and a length are what their bytes say, most
/// significant byte first, with a count in front, and seven bits at a time.
pub proof fn law_numbers_are_positional(short: u16, long: u32, text: Seq<u8>, n: nat)
    requires
        text.len() <= 65_535,
    ensures
        wire::u16_bytes(short).len() == 2 && number_at(wire::u16_bytes(short), 0) == short,
        wire::u32_bytes(long).len() == 4 && long_at(wire::u32_bytes(long), 0) == long,
        wire::text_bytes(text).len() == 2 + text.len(),
        text_at(wire::text_bytes(text), 0) == text,
        length_at(wire::length_bytes(n), 0) == n,
        length_end(wire::length_bytes(n), 0) == wire::length_bytes(n).len(),
        wire::length_bytes(n).len() == length_count(n as int),
{
    let none = Seq::<u8>::empty();
    lemma_number(none, short, none);
    lemma_long(none, long, none);
    lemma_text(none, text, none);
    lemma_length(none, n, none);
    assert(none + wire::u16_bytes(short) + none =~= wire::u16_bytes(short));
    assert(none + wire::u32_bytes(long) + none =~= wire::u32_bytes(long));
    assert(none + wire::text_bytes(text) + none =~= wire::text_bytes(text));
    assert(none + wire::length_bytes(n) + none =~= wire::length_bytes(n));
}

/// The size that is calculated for a length is the one it takes.
pub proof fn lemma_length_count(n: int)
    requires
        0 <= n <= 268_435_455,
    ensures
        wire::length_size(n) == length_count(n),
{
    reveal_with_fuel(length_count, 5);
}

} // verus!
