//! The buffer an outgoing property section is written into.
//!
//! A client adds properties one at a time, in any order. The builder keeps the
//! bytes and remembers what has been added, because every property but the user
//! property may be added once.

use vstd::prelude::*;

use crate::connack::field;
use crate::cursor;
use crate::header;
use crate::header::{encode_length, packet, REMAINING_LENGTH_INVALID};
use crate::validate;
use crate::validate::id;
use crate::wire;

verus! {

/// Why a builder could not be made.
#[derive(Debug, Clone, Copy, PartialEq, Eq, Structural)]
pub enum BuilderError {
    /// The buffer is empty.
    Empty,
    /// A section filling the buffer could not be given a length.
    TooLong,
}

/// Why a property could not be added.
#[derive(Debug, Clone, Copy, PartialEq, Eq, Structural)]
pub enum AddError {
    /// It was added before, the packet may not carry it, or its value is longer
    /// or larger than can be said.
    BadParameter,
    /// There is no room for it.
    NoMemory,
}

/// A section under construction.
#[derive(Debug)]
pub struct PropertyBuilder<'a> {
    buffer: &'a mut [u8],
    at: usize,
    fields: u32,
}

/// A section under construction, as values.
#[verifier::ext_equal]
pub struct BuilderModel {
    /// What has been written.
    pub section: Seq<u8>,
    /// The bytes of the buffer behind it.
    pub spare: Seq<u8>,
    /// Which properties have been added, by bit.
    pub fields: u32,
}

/// A packet of this kind may carry the property.
pub open spec fn may_carry(packet_type: u8, id: u8) -> bool {
    if packet_type == packet::CONNECT {
        validate::connect_allows(id)
    } else if packet_type == packet::PUBLISH {
        validate::outgoing_publish_allows(id)
    } else if packet_type == packet::PUBACK || packet_type == packet::PUBREC || packet_type
        == packet::PUBREL || packet_type == packet::PUBCOMP {
        id == id::REASON_STRING || id == id::USER_PROPERTY
    } else if packet_type == packet::SUBSCRIBE {
        id == id::SUBSCRIPTION_ID || id == id::USER_PROPERTY
    } else if packet_type == packet::UNSUBSCRIBE {
        id == id::USER_PROPERTY
    } else if packet_type == packet::DISCONNECT {
        id == id::SESSION_EXPIRY || id == id::REASON_STRING || id == id::USER_PROPERTY
    } else {
        false
    }
}

impl BuilderModel {
    /// How much can be written in all.
    pub open spec fn capacity(self) -> nat {
        self.section.len() + self.spare.len()
    }

    /// Adding the property `id` with this value: the answer, and the builder
    /// after.
    pub open spec fn adding(
        self,
        id: u8,
        bit: u32,
        value: Seq<u8>,
        sayable: bool,
        packet_type: Option<u8>,
    ) -> (Result<(), AddError>, BuilderModel) {
        if (bit != field::USER_PROP && self.fields & (1u32 << bit) != 0) || (
        packet_type matches Some(kind) && !may_carry(kind, id)) || !sayable {
            (Err(AddError::BadParameter), self)
        } else if 1 + value.len() > self.spare.len() {
            (Err(AddError::NoMemory), self)
        } else {
            (
                Ok(()),
                BuilderModel {
                    section: self.section + seq![id] + value,
                    spare: self.spare.skip(1 + value.len() as int),
                    fields: self.fields | (1u32 << bit),
                },
            )
        }
    }
}

impl<'a> View for PropertyBuilder<'a> {
    type V = BuilderModel;

    closed spec fn view(&self) -> BuilderModel {
        BuilderModel {
            section: self.buffer@.take(self.at as int),
            spare: self.buffer@.skip(self.at as int),
            fields: self.fields,
        }
    }
}

impl<'a> PropertyBuilder<'a> {
    /// What is written fits the buffer, and the buffer can be given a length.
    #[verifier::type_invariant]
    spec fn within(&self) -> bool {
        self.at <= self.buffer@.len() && 0 < self.buffer@.len() < REMAINING_LENGTH_INVALID
    }

    /// A builder over a buffer.
    ///
    /// # Errors
    ///
    /// [`BuilderError::Empty`] for an empty buffer, [`BuilderError::TooLong`]
    /// for one whose section could not be given a length.
    pub fn new(buffer: &'a mut [u8]) -> (builder: Result<Self, BuilderError>)
        ensures
            builder is Err ==> final(buffer)@ == old(buffer)@,
            old(buffer)@.len() == 0 ==> builder is Err && builder->Err_0 == BuilderError::Empty,
            old(buffer)@.len() >= REMAINING_LENGTH_INVALID ==> builder is Err && builder->Err_0
                == BuilderError::TooLong,
            0 < old(buffer)@.len() < REMAINING_LENGTH_INVALID ==> builder is Ok && (
            builder->Ok_0)@ == (BuilderModel {
                section: Seq::empty(),
                spare: old(buffer)@,
                fields: 0,
            }),
    {
        if buffer.len() == 0 {
            return Err(BuilderError::Empty);
        }
        if buffer.len() >= REMAINING_LENGTH_INVALID as usize {
            return Err(BuilderError::TooLong);
        }
        Ok(PropertyBuilder { buffer, at: 0, fields: 0 })
    }

    /// How many bytes have been written: the section's property length.
    #[must_use]
    pub fn len(&self) -> (length: usize)
        ensures
            length == self@.section.len(),
    {
        proof {
            use_type_invariant(self);
        }
        self.at
    }

    /// Has nothing been written yet?
    #[must_use]
    pub fn is_empty(&self) -> (empty: bool)
        ensures
            empty == (self@.section.len() == 0),
    {
        proof {
            use_type_invariant(self);
        }
        self.at == 0
    }

    /// How much can be written in all.
    #[must_use]
    pub fn capacity(&self) -> (room: usize)
        ensures
            room == self@.capacity(),
    {
        proof {
            use_type_invariant(self);
        }
        self.buffer.len()
    }

    /// Which properties have been added, by [`field`] bit.
    #[must_use]
    pub fn fields(&self) -> (bits: u32)
        ensures
            bits == self@.fields,
    {
        self.fields
    }

    /// The section so far.
    #[must_use]
    pub fn section(&self) -> (section: &[u8])
        ensures
            section@ == self@.section,
    {
        proof {
            use_type_invariant(self);
        }
        let section = vstd::slice::slice_subrange(&*self.buffer, 0, self.at);
        assert(section@ =~= self.buffer@.take(self.at as int));
        section
    }

    /// May the property be added?
    fn addable(&self, id: u8, bit: u32, packet_type: Option<u8>) -> (allowed: bool)
        requires
            bit < 32,
        ensures
            allowed == !((bit != field::USER_PROP && self@.fields & (1u32 << bit) != 0) || (
            packet_type matches Some(kind) && !may_carry(kind, id))),
    {
        if bit != field::USER_PROP && self.fields & (1u32 << bit) != 0 {
            return false;
        }
        match packet_type {
            Some(kind) => packet_may_carry(kind, id),
            None => true,
        }
    }

    /// Writes bytes behind the section, where there is room for them.
    fn append(&mut self, bytes: &[u8])
        requires
            bytes@.len() <= old(self)@.spare.len(),
        ensures
            final(self)@ == (BuilderModel {
                section: old(self)@.section + bytes@,
                spare: old(self)@.spare.skip(bytes@.len() as int),
                ..old(self)@
            }),
    {
        proof {
            use_type_invariant(&*self);
        }
        let count: usize = bytes.len();
        assert(self.buffer@.len() < REMAINING_LENGTH_INVALID);
        wire::copy_in(self.buffer, self.at, bytes, count);
        self.at = self.at + count;
        assert(self@.section =~= old(self)@.section + bytes@);
        assert(self@.spare =~= old(self)@.spare.skip(count as int));
    }

    /// Remembers that a property was added.
    fn note(&mut self, bit: u32)
        requires
            bit < 32,
        ensures
            final(self)@ == (BuilderModel {
                fields: old(self)@.fields | (1u32 << bit),
                ..old(self)@
            }),
    {
        proof {
            use_type_invariant(&*self);
        }
        self.fields = self.fields | (1u32 << bit);
    }

    /// How many more bytes can be written.
    fn room(&self) -> (room: usize)
        ensures
            room == self@.spare.len(),
    {
        proof {
            use_type_invariant(self);
        }
        self.buffer.len() - self.at
    }

    /// Adds a property whose value has this many bytes at most four.
    fn add_short(&mut self, id: u8, bit: u32, value: &[u8], packet_type: Option<u8>) -> (result:
        Result<(), AddError>)
        requires
            bit < 32,
            value@.len() <= 4,
        ensures
            (result, final(self)@) == old(self)@.adding(id, bit, value@, true, packet_type),
    {
        let ghost before = self@;
        if !self.addable(id, bit, packet_type) {
            return Err(AddError::BadParameter);
        }
        if 1 + value.len() > self.room() {
            return Err(AddError::NoMemory);
        }
        self.append(&[id]);
        self.append(value);
        self.note(bit);
        assert(self@.section =~= before.section + seq![id] + value@);
        assert(self@.spare =~= before.spare.skip(1 + value@.len() as int));
        Ok(())
    }

    /// Adds a property whose value is a string.
    fn add_text(&mut self, id: u8, bit: u32, text: &[u8], packet_type: Option<u8>) -> (result:
        Result<(), AddError>)
        requires
            bit < 32,
        ensures
            (result, final(self)@) == old(self)@.adding(
                id,
                bit,
                wire::text_bytes(text@),
                text@.len() <= u16::MAX,
                packet_type,
            ),
    {
        let ghost before = self@;
        if !self.addable(id, bit, packet_type) || text.len() > u16::MAX as usize {
            return Err(AddError::BadParameter);
        }
        if 3 + text.len() > self.room() {
            return Err(AddError::NoMemory);
        }
        let count = wire::split_u16(text.len() as u16);
        self.append(&[id]);
        self.append(&count);
        self.append(text);
        self.note(bit);
        assert(self@.section =~= before.section + seq![id] + wire::text_bytes(text@));
        assert(self@.spare =~= before.spare.skip(1 + wire::text_bytes(text@).len() as int));
        Ok(())
    }

    /// Adds a Session Expiry Interval.
    ///
    /// With a packet type, a property that such a packet may not carry is
    /// refused.
    ///
    /// # Errors
    ///
    /// [`AddError::BadParameter`] if it was added before or the packet may not
    /// carry it, [`AddError::NoMemory`] if there is no room. A refusal changes
    /// nothing.
    pub fn session_expiry(&mut self, seconds: u32, packet_type: Option<u8>) -> (result: Result<
        (),
        AddError,
    >)
        ensures
            (result, final(self)@) == old(self)@.adding(
                id::SESSION_EXPIRY,
                field::SESSION_EXPIRY_INTERVAL,
                wire::u32_bytes(seconds),
                true,
                packet_type,
            ),
    {
        let value = wire::split_u32(seconds);
        self.add_short(id::SESSION_EXPIRY, field::SESSION_EXPIRY_INTERVAL, &value, packet_type)
    }

    /// Adds a Receive Maximum.
    ///
    /// # Errors
    ///
    /// As [`session_expiry`](Self::session_expiry).
    pub fn receive_max(&mut self, messages: u16, packet_type: Option<u8>) -> (result: Result<
        (),
        AddError,
    >)
        ensures
            (result, final(self)@) == old(self)@.adding(
                id::RECEIVE_MAX,
                field::RECEIVE_MAXIMUM,
                wire::u16_bytes(messages),
                true,
                packet_type,
            ),
    {
        let value = wire::split_u16(messages);
        self.add_short(id::RECEIVE_MAX, field::RECEIVE_MAXIMUM, &value, packet_type)
    }

    /// Adds a Topic Alias.
    ///
    /// # Errors
    ///
    /// As [`session_expiry`](Self::session_expiry).
    pub fn topic_alias(&mut self, alias: u16, packet_type: Option<u8>) -> (result: Result<
        (),
        AddError,
    >)
        ensures
            (result, final(self)@) == old(self)@.adding(
                id::TOPIC_ALIAS,
                field::TOPIC_ALIAS,
                wire::u16_bytes(alias),
                true,
                packet_type,
            ),
    {
        let value = wire::split_u16(alias);
        self.add_short(id::TOPIC_ALIAS, field::TOPIC_ALIAS, &value, packet_type)
    }

    /// Adds a Payload Format Indicator: text, or bytes.
    ///
    /// # Errors
    ///
    /// As [`session_expiry`](Self::session_expiry).
    pub fn payload_format(&mut self, text: bool, packet_type: Option<u8>) -> (result: Result<
        (),
        AddError,
    >)
        ensures
            (result, final(self)@) == old(self)@.adding(
                id::PAYLOAD_FORMAT,
                field::PAYLOAD_FORMAT_INDICATOR,
                seq![if text {
                    1u8
                } else {
                    0u8
                }],
                true,
                packet_type,
            ),
    {
        let value = [if text {
            1u8
        } else {
            0u8
        }];
        assert(value@ =~= seq![if text {
            1u8
        } else {
            0u8
        }]);
        self.add_short(id::PAYLOAD_FORMAT, field::PAYLOAD_FORMAT_INDICATOR, &value, packet_type)
    }

    /// Adds a Reason String.
    ///
    /// # Errors
    ///
    /// As [`session_expiry`](Self::session_expiry), and
    /// [`AddError::BadParameter`] for a string too long for its count.
    pub fn reason_string(&mut self, reason: &[u8], packet_type: Option<u8>) -> (result: Result<
        (),
        AddError,
    >)
        ensures
            (result, final(self)@) == old(self)@.adding(
                id::REASON_STRING,
                field::REASON_STRING,
                wire::text_bytes(reason@),
                reason@.len() <= u16::MAX,
                packet_type,
            ),
    {
        self.add_text(id::REASON_STRING, field::REASON_STRING, reason, packet_type)
    }

    /// Adds a Content Type.
    ///
    /// # Errors
    ///
    /// As [`reason_string`](Self::reason_string).
    pub fn content_type(&mut self, content: &[u8], packet_type: Option<u8>) -> (result: Result<
        (),
        AddError,
    >)
        ensures
            (result, final(self)@) == old(self)@.adding(
                id::CONTENT_TYPE,
                field::CONTENT_TYPE,
                wire::text_bytes(content@),
                content@.len() <= u16::MAX,
                packet_type,
            ),
    {
        self.add_text(id::CONTENT_TYPE, field::CONTENT_TYPE, content, packet_type)
    }

    /// Adds a user property, which may be added more than once.
    ///
    /// # Errors
    ///
    /// As [`reason_string`](Self::reason_string), for either string.
    pub fn user_property(&mut self, key: &[u8], value: &[u8], packet_type: Option<u8>) -> (result:
        Result<(), AddError>)
        ensures
            (result, final(self)@) == old(self)@.adding(
                id::USER_PROPERTY,
                field::USER_PROP,
                wire::text_bytes(key@) + wire::text_bytes(value@),
                key@.len() <= u16::MAX && value@.len() <= u16::MAX,
                packet_type,
            ),
    {
        let ghost before = self@;
        if !self.addable(id::USER_PROPERTY, field::USER_PROP, packet_type) || key.len()
            > u16::MAX as usize || value.len() > u16::MAX as usize {
            return Err(AddError::BadParameter);
        }
        if 5 + key.len() + value.len() > self.room() {
            return Err(AddError::NoMemory);
        }
        let key_count = wire::split_u16(key.len() as u16);
        let value_count = wire::split_u16(value.len() as u16);
        self.append(&[id::USER_PROPERTY]);
        self.append(&key_count);
        self.append(key);
        self.append(&value_count);
        self.append(value);
        self.note(field::USER_PROP);
        assert(self@.section =~= before.section + seq![id::USER_PROPERTY] + (wire::text_bytes(key@)
            + wire::text_bytes(value@)));
        assert(self@.spare =~= before.spare.skip(
            1 + (wire::text_bytes(key@) + wire::text_bytes(value@)).len() as int,
        ));
        Ok(())
    }

    /// Adds a Subscription Identifier.
    ///
    /// # Errors
    ///
    /// As [`session_expiry`](Self::session_expiry), and
    /// [`AddError::BadParameter`] for an identifier that no variable-length
    /// integer can say.
    pub fn subscription_id(&mut self, value: u32, packet_type: Option<u8>) -> (result: Result<
        (),
        AddError,
    >)
        ensures
            (result, final(self)@) == old(self)@.adding(
                id::SUBSCRIPTION_ID,
                field::SUBSCRIPTION_ID,
                wire::length_bytes(value as nat),
                value <= header::MAX_REMAINING_LENGTH,
                packet_type,
            ),
    {
        if value > header::MAX_REMAINING_LENGTH {
            return Err(AddError::BadParameter);
        }
        let mut spelled = [0u8; 4];
        let size = encode_length(&mut spelled, value);
        let bytes = vstd::slice::slice_subrange(&spelled, 0, size);
        proof {
            wire::lemma_length_bytes_len(value as nat);
        }
        self.add_short(id::SUBSCRIPTION_ID, field::SUBSCRIPTION_ID, bytes, packet_type)
    }
}

/// May a packet of this kind carry the property?
fn packet_may_carry(packet_type: u8, id: u8) -> (allowed: bool)
    ensures
        allowed == may_carry(packet_type, id),
{
    match packet_type {
        packet::CONNECT => match id {
            id::SESSION_EXPIRY
            | id::RECEIVE_MAX
            | id::MAX_PACKET_SIZE
            | id::TOPIC_ALIAS_MAX
            | id::REQUEST_RESPONSE
            | id::REQUEST_PROBLEM
            | id::AUTH_METHOD
            | id::AUTH_DATA
            | id::USER_PROPERTY => true,
            _ => false,
        },
        packet::PUBLISH => match id {
            id::PAYLOAD_FORMAT
            | id::MESSAGE_EXPIRY
            | id::CONTENT_TYPE
            | id::RESPONSE_TOPIC
            | id::CORRELATION_DATA
            | id::TOPIC_ALIAS
            | id::USER_PROPERTY => true,
            _ => false,
        },
        packet::PUBACK | packet::PUBREC | packet::PUBREL | packet::PUBCOMP => id
            == id::REASON_STRING || id == id::USER_PROPERTY,
        packet::SUBSCRIBE => id == id::SUBSCRIPTION_ID || id == id::USER_PROPERTY,
        packet::UNSUBSCRIBE => id == id::USER_PROPERTY,
        packet::DISCONNECT => id == id::SESSION_EXPIRY || id == id::REASON_STRING || id
            == id::USER_PROPERTY,
        _ => false,
    }
}

/// **Law.** What the builder writes, the cursor reads back: behind any section,
/// each shape of property is taken whole, and the walk ends exactly at the end.
pub proof fn law_cursor_reads_what_builder_writes(
    section: Seq<u8>,
    id: u8,
    short: u8,
    middle: u16,
    long: u32,
    text: Seq<u8>,
    key: Seq<u8>,
)
    requires
        text.len() <= u16::MAX,
        key.len() <= u16::MAX,
    ensures
        ({
            let at = section.len() as int;
            let with = |value: Seq<u8>| section + seq![id] + value;
            let byte = with(seq![short]);
            let two = with(wire::u16_bytes(middle));
            let four = with(wire::u32_bytes(long));
            let string = with(wire::text_bytes(text));
            let pair = with(wire::text_bytes(key) + wire::text_bytes(text));
            let length = with(wire::length_bytes(long as nat));
            &&& cursor::taking(byte, at, id, wire::take_u8(byte.skip(at + 1))) == (
                Ok::<u8, cursor::CursorError>(short),
                byte.len() as int,
            )
            &&& cursor::taking(two, at, id, wire::take_u16(two.skip(at + 1))) == (
                Ok::<u16, cursor::CursorError>(middle),
                two.len() as int,
            )
            &&& cursor::taking(four, at, id, wire::take_u32(four.skip(at + 1))) == (
                Ok::<u32, cursor::CursorError>(long),
                four.len() as int,
            )
            &&& cursor::taking(string, at, id, wire::take_text(string.skip(at + 1))) == (
                Ok::<Seq<u8>, cursor::CursorError>(text),
                string.len() as int,
            )
            &&& cursor::taking(pair, at, id, wire::take_pair(pair.skip(at + 1))) == (
                Ok::<(Seq<u8>, Seq<u8>), cursor::CursorError>((key, text)),
                pair.len() as int,
            )
            &&& long <= header::MAX_REMAINING_LENGTH ==> cursor::taking(
                length,
                at,
                id,
                wire::take_length(length.skip(at + 1)),
            ) == (Ok::<u32, cursor::CursorError>(long), length.len() as int)
        }),
{
    let at = section.len() as int;
    let none = Seq::<u8>::empty();
    let texts = wire::text_bytes(key) + wire::text_bytes(text);
    assert forall|value: Seq<u8>| #[trigger] (section + seq![id] + value).skip(at + 1) == value + none by {
        assert((section + seq![id] + value).skip(at + 1) =~= value + none);
    }
    assert((seq![short] + none).skip(1) =~= none);
    wire::law_u16_round_trip(middle, none);
    wire::law_u32_round_trip(long, none);
    wire::law_text_round_trip(text, none);
    wire::law_text_round_trip(key, wire::text_bytes(text));
    assert(texts + none =~= wire::text_bytes(key) + wire::text_bytes(text));
    assert(wire::text_bytes(text) + none =~= wire::text_bytes(text));
    if long <= header::MAX_REMAINING_LENGTH {
        wire::law_take_length_round_trip(long, none);
    }
    wire::lemma_length_bytes_len(long as nat);
}

/// **Law.** A property is added once: a second one of its kind is refused, but
/// for user properties. A refusal changes nothing.
pub proof fn law_adds_once(
    builder: BuilderModel,
    id: u8,
    bit: u32,
    first: Seq<u8>,
    second: Seq<u8>,
    sayable: bool,
    packet_type: Option<u8>,
)
    requires
        bit < 32,
        bit != field::USER_PROP,
        builder.adding(id, bit, first, true, packet_type).0 is Ok,
    ensures
        ({
            let once = builder.adding(id, bit, first, true, packet_type).1;
            once.adding(id, bit, second, sayable, packet_type) == (
                Err::<(), AddError>(AddError::BadParameter),
                once,
            )
        }),
{
    let fields = builder.fields;
    assert((fields | (1u32 << bit)) & (1u32 << bit) != 0) by (bit_vector)
        requires
            bit < 32,
    ;
}

} // verus!
