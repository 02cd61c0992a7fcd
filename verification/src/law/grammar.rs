//! Property sections, spelled from lists of properties.

use vstd::prelude::*;

use crate::cursor;
use crate::validate;
use crate::wire;

verus! {

/// A property: its identifier, and a value of one of six shapes.
pub enum Prop {
    Byte(u8, u8),
    Two(u8, u16),
    Four(u8, u32),
    Text(u8, Seq<u8>),
    Pair(u8, Seq<u8>, Seq<u8>),
    Length(u8, u32),
}

/// The shape of a value.
#[derive(PartialEq, Eq, Structural)]
pub enum Shape {
    Byte,
    Two,
    Four,
    Text,
    Pair,
    Length,
}

/// The shape that the value of each property of MQTT 5 has.
pub open spec fn shape_of(id: u8) -> Option<Shape> {
    match id {
        0x01 | 0x17 | 0x19 | 0x24 | 0x25 | 0x28 | 0x29 | 0x2A => Some(Shape::Byte),
        0x13 | 0x21 | 0x22 | 0x23 => Some(Shape::Two),
        0x02 | 0x11 | 0x18 | 0x27 => Some(Shape::Four),
        0x03 | 0x08 | 0x09 | 0x12 | 0x15 | 0x16 | 0x1A | 0x1C | 0x1F => Some(Shape::Text),
        0x26 => Some(Shape::Pair),
        0x0B => Some(Shape::Length),
        _ => None,
    }
}

impl Prop {
    /// The identifier.
    pub open spec fn id(self) -> u8 {
        match self {
            Prop::Byte(id, _) => id,
            Prop::Two(id, _) => id,
            Prop::Four(id, _) => id,
            Prop::Text(id, _) => id,
            Prop::Pair(id, _, _) => id,
            Prop::Length(id, _) => id,
        }
    }

    /// The value, where it is a number.
    pub open spec fn number(self) -> int {
        match self {
            Prop::Byte(_, value) => value as int,
            Prop::Two(_, value) => value as int,
            Prop::Four(_, value) => value as int,
            Prop::Length(_, value) => value as int,
            _ => 0,
        }
    }

    /// The value in bytes.
    pub open spec fn value(self) -> Seq<u8> {
        match self {
            Prop::Byte(_, value) => seq![value],
            Prop::Two(_, value) => wire::u16_bytes(value),
            Prop::Four(_, value) => wire::u32_bytes(value),
            Prop::Text(_, text) => wire::text_bytes(text),
            Prop::Pair(_, key, value) => wire::text_bytes(key) + wire::text_bytes(value),
            Prop::Length(_, value) => wire::length_bytes(value as nat),
        }
    }

    /// The value has the shape that belongs to the identifier, and can be said.
    pub open spec fn proper(self) -> bool {
        match self {
            Prop::Byte(id, _) => shape_of(id) == Some(Shape::Byte),
            Prop::Two(id, _) => shape_of(id) == Some(Shape::Two),
            Prop::Four(id, _) => shape_of(id) == Some(Shape::Four),
            Prop::Text(id, text) => shape_of(id) == Some(Shape::Text) && text.len() <= 65_535,
            Prop::Pair(id, key, value) => shape_of(id) == Some(Shape::Pair) && key.len() <= 65_535
                && value.len() <= 65_535,
            Prop::Length(id, value) => shape_of(id) == Some(Shape::Length) && value <= 268_435_455,
        }
    }
}

/// The bytes of a list of properties, one behind the other.
pub open spec fn section(props: Seq<Prop>) -> Seq<u8>
    decreases props.len(),
{
    if props.len() == 0 {
        Seq::empty()
    } else {
        seq![props[0].id()] + props[0].value() + section(props.drop_first())
    }
}

/// Every property has the shape that belongs to it.
pub open spec fn all_proper(props: Seq<Prop>) -> bool {
    forall|i: int| 0 <= i < props.len() ==> (#[trigger] props[i]).proper()
}

/// Every property is one of these.
pub open spec fn each(props: Seq<Prop>, good: spec_fn(Prop) -> bool) -> bool {
    forall|i: int| 0 <= i < props.len() ==> good(#[trigger] props[i])
}

/// No identifier is there twice, but for those that may be.
pub open spec fn no_repeat(props: Seq<Prop>, often: spec_fn(u8) -> bool) -> bool {
    forall|i: int, j: int|
        0 <= i < j < props.len() && (#[trigger] props[i]).id() == (#[trigger] props[j]).id()
            ==> often(props[i].id())
}

/// None has one of these identifiers, but for those that may be there often.
pub open spec fn clear_of(props: Seq<Prop>, seen: Set<u8>, often: spec_fn(u8) -> bool) -> bool {
    forall|i: int|
        0 <= i < props.len() && seen.contains((#[trigger] props[i]).id()) ==> often(props[i].id())
}

/// A property with this identifier is there.
pub open spec fn has(props: Seq<Prop>, id: u8) -> bool {
    exists|i: int| 0 <= i < props.len() && (#[trigger] props[i]).id() == id
}

/// The number that a property with this identifier has, if there is one.
pub open spec fn said(props: Seq<Prop>, id: u8) -> Option<int>
    decreases props.len(),
{
    if props.len() == 0 {
        None
    } else {
        match said(props.drop_first(), id) {
            Some(value) => Some(value),
            None => if props[0].id() == id {
                Some(props[0].number())
            } else {
                None
            },
        }
    }
}

/// These bytes are a section of proper properties.
pub open spec fn spelled(s: Seq<u8>) -> bool {
    exists|props: Seq<Prop>| #[trigger] all_proper(props) && section(props) == s
}

// ---------------------------------------------------------------------------
// Taking the first off
// ---------------------------------------------------------------------------

/// A list is its first and the others.
pub proof fn lemma_each(props: Seq<Prop>, good: spec_fn(Prop) -> bool)
    requires
        props.len() > 0,
    ensures
        each(props, good) == (good(props[0]) && each(props.drop_first(), good)),
{
    let rest = props.drop_first();
    if good(props[0]) && each(rest, good) {
        assert forall|i: int| 0 <= i < props.len() implies good(#[trigger] props[i]) by {
            if i > 0 {
                assert(props[i] == rest[i - 1]);
            }
        }
    }
    if each(props, good) {
        assert forall|i: int| 0 <= i < rest.len() implies good(#[trigger] rest[i]) by {
            assert(rest[i] == props[i + 1]);
        }
    }
}

/// What is proper stays so without its first.
pub proof fn lemma_proper_rest(props: Seq<Prop>)
    requires
        props.len() > 0,
        all_proper(props),
    ensures
        all_proper(props.drop_first()),
        props[0].proper(),
{
    let rest = props.drop_first();
    assert forall|i: int| 0 <= i < rest.len() implies (#[trigger] rest[i]).proper() by {
        assert(rest[i] == props[i + 1]);
    }
}

/// Repeats, with the first taken off.
pub proof fn lemma_repeat(props: Seq<Prop>, seen: Set<u8>, often: spec_fn(u8) -> bool)
    requires
        props.len() > 0,
    ensures
        ({
            let rest = props.drop_first();
            let first = props[0].id();
            (no_repeat(props, often) && clear_of(props, seen, often)) == ((!seen.contains(first)
                || often(first)) && no_repeat(rest, often) && clear_of(
                rest,
                seen.insert(first),
                often,
            ))
        }),
{
    let rest = props.drop_first();
    let first = props[0].id();
    let more = seen.insert(first);
    assert forall|i: int| 0 <= i < rest.len() implies #[trigger] rest[i] == props[i + 1] by {}
    if no_repeat(props, often) && clear_of(props, seen, often) {
        assert forall|i: int, j: int|
            0 <= i < j < rest.len() && (#[trigger] rest[i]).id() == (
            #[trigger] rest[j]).id() implies often(rest[i].id()) by {
            assert(props[i + 1].id() == props[j + 1].id());
        }
        assert forall|i: int|
            0 <= i < rest.len() && more.contains((#[trigger] rest[i]).id()) implies often(
            rest[i].id(),
        ) by {
            assert(props[0].id() == first && props[i + 1] == rest[i]);
        }
    }
    if (!seen.contains(first) || often(first)) && no_repeat(rest, often) && clear_of(
        rest,
        more,
        often,
    ) {
        assert forall|i: int, j: int|
            0 <= i < j < props.len() && (#[trigger] props[i]).id() == (
            #[trigger] props[j]).id() implies often(props[i].id()) by {
            assert(props[j] == rest[j - 1]);
            if i > 0 {
                assert(props[i] == rest[i - 1]);
            }
        }
        assert forall|i: int|
            0 <= i < props.len() && seen.contains((#[trigger] props[i]).id()) implies often(
            props[i].id(),
        ) by {
            if i > 0 {
                assert(props[i] == rest[i - 1]);
            }
        }
    }
}

/// Nothing has been seen before the first.
pub proof fn lemma_clear_at_first(props: Seq<Prop>, often: spec_fn(u8) -> bool)
    ensures
        clear_of(props, Set::empty(), often),
{
}

/// Having a property, with the first taken off.
pub proof fn lemma_has(props: Seq<Prop>, id: u8)
    requires
        props.len() > 0,
    ensures
        has(props, id) == (props[0].id() == id || has(props.drop_first(), id)),
        said(props.drop_first(), id) is Some ==> said(props, id) == said(props.drop_first(), id),
{
    let rest = props.drop_first();
    if has(props, id) && props[0].id() != id {
        let i = choose|i: int| 0 <= i < props.len() && (#[trigger] props[i]).id() == id;
        assert(rest[i - 1] == props[i]);
    }
    if has(rest, id) {
        let i = choose|i: int| 0 <= i < rest.len() && (#[trigger] rest[i]).id() == id;
        assert(props[i + 1] == rest[i]);
    }
}

/// Something is said of a property exactly if it is there.
pub proof fn lemma_said(props: Seq<Prop>, id: u8)
    ensures
        said(props, id) is Some == has(props, id),
        said(props, id) matches Some(value) ==> exists|i: int|
            0 <= i < props.len() && (#[trigger] props[i]).id() == id && props[i].number() == value,
    decreases props.len(),
{
    if props.len() > 0 {
        let rest = props.drop_first();
        lemma_has(props, id);
        lemma_said(rest, id);
        if let Some(value) = said(rest, id) {
            let i = choose|i: int|
                0 <= i < rest.len() && (#[trigger] rest[i]).id() == id && rest[i].number() == value;
            assert(props[i + 1] == rest[i]);
        } else if props[0].id() == id {
            assert(props[0].number() == said(props, id)->0);
        }
    }
}

/// The first property of a section is read as what it is.
pub proof fn lemma_first(props: Seq<Prop>)
    requires
        props.len() > 0,
        all_proper(props),
    ensures
        ({
            let s = section(props);
            let rest = section(props.drop_first());
            let first = props[0];
            &&& s.len() > 0
            &&& s[0] == first.id()
            &&& s.skip(1) == first.value() + rest
            &&& validate::value_of(s[0], s.skip(1)) == Some((first.number() as u32, rest))
            &&& match first {
                Prop::Four(_, value) => wire::take_u32(s.skip(1)) == Some((value, rest)),
                Prop::Text(_, text) => wire::take_text(s.skip(1)) == Some((text, rest)),
                Prop::Pair(_, key, value) => wire::take_pair(s.skip(1)) == Some(
                    ((key, value), rest),
                ),
                Prop::Length(_, value) => wire::take_length(s.skip(1)) == Some((value, rest)),
                _ => true,
            }
        }),
{
    let s = section(props);
    let rest = section(props.drop_first());
    let first = props[0];
    lemma_proper_rest(props);
    assert(s.skip(1) =~= first.value() + rest);
    match first {
        Prop::Byte(_, value) => {
            assert((seq![value] + rest).skip(1) =~= rest);
        },
        Prop::Two(_, value) => {
            wire::law_u16_round_trip(value, rest);
        },
        Prop::Four(_, value) => {
            wire::law_u32_round_trip(value, rest);
        },
        Prop::Text(_, text) => {
            wire::law_text_round_trip(text, rest);
        },
        Prop::Pair(_, key, value) => {
            wire::law_text_round_trip(key, wire::text_bytes(value) + rest);
            wire::law_text_round_trip(value, rest);
            assert(first.value() + rest =~= wire::text_bytes(key) + (wire::text_bytes(value)
                + rest));
        },
        Prop::Length(_, value) => {
            wire::law_take_length_round_trip(value, rest);
        },
    }
}

/// A value that can be read is that of a property.
pub proof fn lemma_back(id: u8, body: Seq<u8>) -> (prop: Prop)
    requires
        validate::value_of(id, body) is Some,
    ensures
        prop.proper(),
        prop.id() == id,
        prop.number() == (validate::value_of(id, body)->0).0,
        body == prop.value() + (validate::value_of(id, body)->0).1,
{
    let rest = (validate::value_of(id, body)->0).1;
    let shape = shape_of(id);
    if shape == Some(Shape::Byte) {
        let prop = Prop::Byte(id, body[0]);
        assert(body =~= prop.value() + rest);
        prop
    } else if shape == Some(Shape::Two) {
        let value = wire::u16_of(body[0], body[1]);
        let prop = Prop::Two(id, value);
        assert(body =~= prop.value() + rest);
        prop
    } else if shape == Some(Shape::Four) {
        let value = wire::u32_of(body[0], body[1], body[2], body[3]);
        let prop = Prop::Four(id, value);
        lemma_four_back(body[0], body[1], body[2], body[3]);
        assert(body =~= prop.value() + rest);
        prop
    } else if shape == Some(Shape::Text) {
        let text = (wire::take_text(body)->0).0;
        let prop = Prop::Text(id, text);
        lemma_text_back(body);
        prop
    } else if shape == Some(Shape::Pair) {
        let key = (wire::take_text(body)->0).0;
        let behind = (wire::take_text(body)->0).1;
        let value = (wire::take_text(behind)->0).0;
        let prop = Prop::Pair(id, key, value);
        lemma_text_back(body);
        lemma_text_back(behind);
        assert(body =~= prop.value() + rest);
        prop
    } else {
        let value = (wire::take_length(body)->0).0;
        let prop = Prop::Length(id, value);
        wire::law_length_has_one_spelling(body, value);
        wire::lemma_read_length_bounds(body);
        assert(body =~= prop.value() + rest);
        prop
    }
}

/// A text that can be read is its count and its bytes.
pub proof fn lemma_text_back(body: Seq<u8>)
    requires
        wire::take_text(body) is Some,
    ensures
        ({
            let (text, rest) = wire::take_text(body)->0;
            text.len() <= 65_535 && body == wire::text_bytes(text) + rest
        }),
{
    let (text, rest) = wire::take_text(body)->0;
    assert(text.len() == wire::u16_of(body[0], body[1]));
    assert(body =~= wire::text_bytes(text) + rest);
}

/// Four bytes come back from the number they say.
proof fn lemma_four_back(a: u8, b: u8, c: u8, d: u8)
    ensures
        wire::u32_bytes(wire::u32_of(a, b, c, d)) == seq![a, b, c, d],
{
    let n = wire::u32_of(a, b, c, d);
    assert(n == a * 16_777_216 + b * 65_536 + c * 256 + d);
    assert(n / 16_777_216 == a);
    assert(n / 65_536 == a * 256 + b);
    assert(n / 256 == a * 65_536 + b * 256 + c);
}

/// A section whose first value can be read, and whose rest is spelled, is
/// spelled.
pub proof fn lemma_spelled_on(s: Seq<u8>)
    requires
        s.len() > 0,
        validate::value_of(s[0], s.skip(1)) is Some,
        spelled((validate::value_of(s[0], s.skip(1))->0).1),
    ensures
        spelled(s),
{
    let rest = (validate::value_of(s[0], s.skip(1))->0).1;
    let others = choose|props: Seq<Prop>| #[trigger] all_proper(props) && section(props) == rest;
    let first = lemma_back(s[0], s.skip(1));
    let props = seq![first] + others;
    assert forall|i: int| 0 <= i < props.len() implies (#[trigger] props[i]).proper() by {
        if i > 0 {
            assert(props[i] == others[i - 1]);
        }
    }
    assert(props.drop_first() =~= others);
    assert(props[0] == first);
    assert(section(props) == seq![first.id()] + first.value() + rest);
    assert(s =~= seq![s[0]] + s.skip(1));
    assert(section(props) =~= seq![s[0]] + (first.value() + rest));
    assert(all_proper(props));
}

/// An empty section is spelled.
pub proof fn lemma_spelled_empty(s: Seq<u8>)
    requires
        s.len() == 0,
    ensures
        spelled(s),
{
    let props = Seq::<Prop>::empty();
    assert(section(props) =~= s);
    assert(all_proper(props));
}

/// **Law.** The shape of the value of each property is that of MQTT 5, and no
/// other identifiers are known.
pub proof fn law_shapes(id: u8)
    ensures
        shape_of(id) is Some == cursor::layout(id) is Some,
        shape_of(id) == Some(Shape::Byte) ==> cursor::layout(id) == Some(cursor::Width::Byte),
        shape_of(id) == Some(Shape::Two) ==> cursor::layout(id) == Some(cursor::Width::TwoBytes),
        shape_of(id) == Some(Shape::Four) ==> cursor::layout(id) == Some(cursor::Width::FourBytes),
        shape_of(id) == Some(Shape::Text) ==> cursor::layout(id) == Some(cursor::Width::String),
        shape_of(id) == Some(Shape::Pair) ==> cursor::layout(id) == Some(cursor::Width::Pair),
        shape_of(id) == Some(Shape::Length) ==> cursor::layout(id) == Some(cursor::Width::Variable),
{
}

} // verus!
