//! Which property sections are accepted, stated over lists of properties.

use vstd::prelude::*;

use crate::ack;
use crate::connack;
use crate::connack::ServerSettings;
use crate::context;
use crate::context::ConnectionProperties;
use crate::disconnect;
use crate::disconnect::DisconnectError;
use crate::law::grammar;
use crate::law::grammar::Prop;
use crate::publish;
use crate::validate;
use crate::validate::{ConnectValidation, ValidateError};

verus! {

/// Only a user property may be there more than once.
pub open spec fn user_often() -> spec_fn(u8) -> bool {
    |id: u8| id == 0x26
}

/// A subscription identifier and a user property may be there more than once.
pub open spec fn message_often() -> spec_fn(u8) -> bool {
    |id: u8| id == 0x0B || id == 0x26
}

/// Everything but a topic alias may be there more than once.
pub open spec fn alias_once() -> spec_fn(u8) -> bool {
    |id: u8| id != 0x23
}

/// The four limits of a client may be there once, everything else more often.
pub open spec fn limits_once() -> spec_fn(u8) -> bool {
    |id: u8| id != 0x11 && id != 0x21 && id != 0x27 && id != 0x22
}

/// A list of properties, each of them one of these, and none there more often
/// than it may be.
pub open spec fn legal(
    props: Seq<Prop>,
    good: spec_fn(Prop) -> bool,
    often: spec_fn(u8) -> bool,
) -> bool {
    grammar::each(props, good) && grammar::no_repeat(props, often)
}

/// The same, behind properties that were seen before.
pub open spec fn legal_behind(
    props: Seq<Prop>,
    seen: Set<u8>,
    good: spec_fn(Prop) -> bool,
    often: spec_fn(u8) -> bool,
) -> bool {
    legal(props, good, often) && grammar::clear_of(props, seen, often)
}

/// The first of a legal list, and the others.
proof fn lemma_legal(
    props: Seq<Prop>,
    seen: Set<u8>,
    good: spec_fn(Prop) -> bool,
    often: spec_fn(u8) -> bool,
)
    ensures
        props.len() == 0 ==> legal_behind(props, seen, good, often),
        props.len() > 0 ==> legal_behind(props, seen, good, often) == (good(props[0]) && (
        !seen.contains(props[0].id()) || often(props[0].id())) && legal_behind(
            props.drop_first(),
            seen.insert(props[0].id()),
            good,
            often,
        )),
        legal_behind(props, Set::empty(), good, often) == legal(props, good, often),
        often(props[0].id()) && props.len() > 0 ==> legal_behind(
            props.drop_first(),
            seen.insert(props[0].id()),
            good,
            often,
        ) == legal_behind(props.drop_first(), seen, good, often),
{
    grammar::lemma_clear_at_first(props, often);
    if props.len() > 0 {
        grammar::lemma_each(props, good);
        grammar::lemma_repeat(props, seen, often);
    }
}

/// What a legal list has said once, it says no more.
proof fn lemma_said_once(
    props: Seq<Prop>,
    seen: Set<u8>,
    often: spec_fn(u8) -> bool,
    id: u8,
)
    requires
        grammar::clear_of(props, seen, often),
        seen.contains(id),
        !often(id),
    ensures
        !grammar::has(props, id),
        grammar::said(props, id) is None,
{
    grammar::lemma_said(props, id);
}

// ---------------------------------------------------------------------------
// Incoming PUBLISH
// ---------------------------------------------------------------------------

/// What a message may carry: a payload format of 0 or 1, a message expiry, a
/// content type, a response topic, correlation data, subscription identifiers,
/// a topic alias that is neither 0 nor above the limit, and user properties.
pub open spec fn in_message(alias_max: u16) -> spec_fn(Prop) -> bool {
    |p: Prop|
        match p.id() {
            0x01 => p.number() <= 1,
            0x02 | 0x03 | 0x08 | 0x09 | 0x0B | 0x26 => true,
            0x23 => 0 < p.number() <= alias_max,
            _ => false,
        }
}

proof fn lemma_message(props: Seq<Prop>, seen: Set<u8>, alias: u32, alias_max: u16)
    requires
        grammar::all_proper(props),
    ensures
        ({
            let end = publish::publish_walk(grammar::section(props), seen, alias);
            (end is Some && end->0 <= alias_max) == (legal_behind(
                props,
                seen,
                in_message(alias_max),
                message_often(),
            ) && (!grammar::has(props, 0x23) ==> alias <= alias_max))
        }),
    decreases props.len(),
{
    lemma_legal(props, seen, in_message(alias_max), message_often());
    if props.len() > 0 {
        let first = props[0];
        grammar::lemma_first(props);
        grammar::lemma_proper_rest(props);
        grammar::lemma_has(props, 0x23);
        let next = if first.id() == 0x23 {
            first.number() as u32
        } else {
            alias
        };
        lemma_message(props.drop_first(), seen.insert(first.id()), next, alias_max);
        if first.id() == 0x23 && legal_behind(
            props.drop_first(),
            seen.insert(first.id()),
            in_message(alias_max),
            message_often(),
        ) {
            lemma_said_once(props.drop_first(), seen.insert(first.id()), message_often(), 0x23);
        }
    }
}

proof fn lemma_message_spelled(s: Seq<u8>, seen: Set<u8>, alias: u32)
    requires
        publish::publish_walk(s, seen, alias) is Some,
    ensures
        grammar::spelled(s),
    decreases s.len(),
{
    if s.len() == 0 {
        grammar::lemma_spelled_empty(s);
    } else {
        publish::lemma_publish_step(s[0], s.skip(1), seen);
        let (value, rest) = publish::publish_step(s[0], s.skip(1), seen)->0;
        let next = if s[0] == 0x23 {
            value
        } else {
            alias
        };
        lemma_message_spelled(rest, seen.insert(s[0]), next);
        grammar::lemma_spelled_on(s);
    }
}

/// **Law.** The properties of an incoming PUBLISH are accepted exactly if each
/// is one that a message may carry, with a value that it may have, and only
/// subscription identifiers and user properties are there more than once.
/// Bytes that spell no properties are refused.
pub proof fn law_message_properties(props: Seq<Prop>, s: Seq<u8>, alias_max: u16)
    requires
        grammar::all_proper(props),
    ensures
        publish::publish_properties_ok(grammar::section(props), alias_max) == legal(
            props,
            in_message(alias_max),
            message_often(),
        ),
        publish::publish_properties_ok(s, alias_max) ==> grammar::spelled(s),
{
    lemma_message(props, Set::empty(), 0, alias_max);
    lemma_legal(props, Set::empty(), in_message(alias_max), message_often());
    if publish::publish_properties_ok(s, alias_max) {
        lemma_message_spelled(s, Set::empty(), 0);
    }
}

// ---------------------------------------------------------------------------
// CONNECT and its will
// ---------------------------------------------------------------------------

/// What a CONNECT may carry: a session expiry, a receive maximum and a maximum
/// packet size that are not 0, a topic alias maximum, two requests of 0 or 1,
/// an authentication method and its data, and user properties.
pub open spec fn in_connect() -> spec_fn(Prop) -> bool {
    |p: Prop|
        match p.id() {
            0x11 | 0x22 | 0x15 | 0x16 | 0x26 => true,
            0x21 | 0x27 => p.number() != 0,
            0x19 | 0x17 => p.number() <= 1,
            _ => false,
        }
}

proof fn lemma_connect(props: Seq<Prop>, seen: Set<u8>, found: ConnectValidation)
    requires
        grammar::all_proper(props),
    ensures
        ({
            let (result, end) = validate::connect_check(grammar::section(props), seen, found);
            let fits = legal_behind(props, seen, in_connect(), user_often());
            let data = seen.contains(0x16) || grammar::has(props, 0x16);
            let method = seen.contains(0x15) || grammar::has(props, 0x15);
            &&& result is Ok <==> fits && (data ==> method)
            &&& result == Err::<(), _>(ValidateError::BadParameter) <==> fits && data && !method
            &&& fits ==> end.max_packet_size == (match grammar::said(props, 0x27) {
                Some(value) => Some(value as u32),
                None => found.max_packet_size,
            })
            &&& fits ==> end.request_problem_info == (match grammar::said(props, 0x17) {
                Some(value) => value == 1,
                None => found.request_problem_info,
            })
        }),
    decreases props.len(),
{
    lemma_legal(props, seen, in_connect(), user_often());
    if props.len() > 0 {
        let first = props[0];
        grammar::lemma_first(props);
        grammar::lemma_proper_rest(props);
        grammar::lemma_has(props, 0x15);
        grammar::lemma_has(props, 0x16);
        grammar::lemma_has(props, 0x17);
        grammar::lemma_has(props, 0x27);
        let next = validate::connect_found(found, first.id(), first.number() as u32);
        lemma_connect(props.drop_first(), seen.insert(first.id()), next);
        if legal_behind(
            props.drop_first(),
            seen.insert(first.id()),
            in_connect(),
            user_often(),
        ) && first.id() != 0x26 {
            lemma_said_once(
                props.drop_first(),
                seen.insert(first.id()),
                user_often(),
                first.id(),
            );
        }
    }
}

proof fn lemma_connect_spelled(s: Seq<u8>, seen: Set<u8>, found: ConnectValidation)
    requires
        validate::connect_check(s, seen, found).0 is Ok,
    ensures
        grammar::spelled(s),
    decreases s.len(),
{
    if s.len() == 0 {
        grammar::lemma_spelled_empty(s);
    } else {
        validate::lemma_value_of(s[0], s.skip(1));
        let (value, rest) = validate::value_of(s[0], s.skip(1))->0;
        lemma_connect_spelled(
            rest,
            seen.insert(s[0]),
            validate::connect_found(found, s[0], value),
        );
        grammar::lemma_spelled_on(s);
    }
}

/// **Law.** The properties of a CONNECT are in order exactly if each is one that
/// a CONNECT may carry, with a value that it may have, only user properties are
/// there more than once, and authentication data comes with a method. What the
/// check tells of the packet size and of problem information is what the
/// properties say, and what was known before where they say nothing. Bytes that
/// spell no properties are refused.
pub proof fn law_connect_properties(props: Seq<Prop>, s: Seq<u8>, found: ConnectValidation)
    requires
        grammar::all_proper(props),
    ensures
        ({
            let (result, end) = validate::connect_check(
                grammar::section(props),
                Set::empty(),
                found,
            );
            let fits = legal(props, in_connect(), user_often());
            let bare = grammar::has(props, 0x16) && !grammar::has(props, 0x15);
            &&& result is Ok <==> fits && !bare
            &&& result == Err::<(), _>(ValidateError::BadParameter) <==> fits && bare
            &&& result is Ok ==> end.max_packet_size == (match grammar::said(props, 0x27) {
                Some(value) => Some(value as u32),
                None => found.max_packet_size,
            })
            &&& result is Ok ==> end.request_problem_info == (match grammar::said(props, 0x17) {
                Some(value) => value == 1,
                None => found.request_problem_info,
            })
        }),
        validate::connect_check(s, Set::empty(), found).0 is Ok ==> grammar::spelled(s),
{
    lemma_connect(props, Set::empty(), found);
    lemma_legal(props, Set::empty(), in_connect(), user_often());
    if validate::connect_check(s, Set::empty(), found).0 is Ok {
        lemma_connect_spelled(s, Set::empty(), found);
    }
}

/// What a will may carry.
pub open spec fn in_will() -> spec_fn(Prop) -> bool {
    |p: Prop|
        match p.id() {
            0x18 | 0x02 | 0x03 | 0x08 | 0x09 | 0x26 => true,
            0x01 => p.number() <= 1,
            _ => false,
        }
}

proof fn lemma_will(props: Seq<Prop>, seen: Set<u8>)
    requires
        grammar::all_proper(props),
    ensures
        validate::will_properties_ok(grammar::section(props), seen) == legal_behind(
            props,
            seen,
            in_will(),
            user_often(),
        ),
    decreases props.len(),
{
    lemma_legal(props, seen, in_will(), user_often());
    if props.len() > 0 {
        grammar::lemma_first(props);
        grammar::lemma_proper_rest(props);
        lemma_will(props.drop_first(), seen.insert(props[0].id()));
    }
}

proof fn lemma_will_spelled(s: Seq<u8>, seen: Set<u8>)
    requires
        validate::will_properties_ok(s, seen),
    ensures
        grammar::spelled(s),
    decreases s.len(),
{
    if s.len() == 0 {
        grammar::lemma_spelled_empty(s);
    } else {
        validate::lemma_value_of(s[0], s.skip(1));
        lemma_will_spelled((validate::value_of(s[0], s.skip(1))->0).1, seen.insert(s[0]));
        grammar::lemma_spelled_on(s);
    }
}

/// **Law.** The properties of a will are in order exactly if each is a will
/// delay, a payload format of 0 or 1, a message expiry, a content type, a
/// response topic, correlation data or a user property, and only user
/// properties are there more than once.
pub proof fn law_will_properties(props: Seq<Prop>, s: Seq<u8>)
    requires
        grammar::all_proper(props),
    ensures
        validate::will_properties_ok(grammar::section(props), Set::empty()) == legal(
            props,
            in_will(),
            user_often(),
        ),
        validate::will_properties_ok(s, Set::empty()) ==> grammar::spelled(s),
{
    lemma_will(props, Set::empty());
    lemma_legal(props, Set::empty(), in_will(), user_often());
    if validate::will_properties_ok(s, Set::empty()) {
        lemma_will_spelled(s, Set::empty());
    }
}

// ---------------------------------------------------------------------------
// Outgoing SUBSCRIBE, UNSUBSCRIBE and PUBLISH
// ---------------------------------------------------------------------------

/// What a SUBSCRIBE may carry: a subscription identifier that is not 0, where
/// the broker has them, and user properties.
pub open spec fn in_subscribe(available: bool) -> spec_fn(Prop) -> bool {
    |p: Prop|
        match p.id() {
            0x0B => available && p.number() != 0,
            0x26 => true,
            _ => false,
        }
}

/// The identifiers that a flag stands for.
pub open spec fn flagged(flag: bool, id: u8) -> Set<u8> {
    if flag {
        set![id]
    } else {
        Set::empty()
    }
}

/// A list behind one flagged identifier, with its first taken off.
proof fn lemma_flagged(props: Seq<Prop>, flag: bool, id: u8, good: spec_fn(Prop) -> bool)
    requires
        props.len() > 0,
        id != 0x26,
        props[0].id() == id || props[0].id() == 0x26,
    ensures
        legal_behind(props, flagged(flag, id), good, user_often()) == (good(props[0])
            && if props[0].id() == id {
            !flag && legal_behind(props.drop_first(), flagged(true, id), good, user_often())
        } else {
            legal_behind(props.drop_first(), flagged(flag, id), good, user_often())
        }),
{
    lemma_legal(props, flagged(flag, id), good, user_often());
    assert(flagged(false, id).insert(id) =~= flagged(true, id));
}

proof fn lemma_subscribe(props: Seq<Prop>, seen: bool, available: bool)
    requires
        grammar::all_proper(props),
    ensures
        validate::subscribe_check(grammar::section(props), seen, available) is Ok == legal_behind(
            props,
            flagged(seen, 0x0B),
            in_subscribe(available),
            user_often(),
        ),
        validate::subscribe_check(grammar::section(props), seen, available) is Err
            ==> validate::subscribe_check(grammar::section(props), seen, available) == Err::<
            (),
            ValidateError,
        >(ValidateError::BadParameter),
    decreases props.len(),
{
    lemma_legal(props, flagged(seen, 0x0B), in_subscribe(available), user_often());
    if props.len() > 0 {
        let first = props[0];
        grammar::lemma_first(props);
        grammar::lemma_proper_rest(props);
        if first.id() == 0x0B || first.id() == 0x26 {
            lemma_flagged(props, seen, 0x0B, in_subscribe(available));
            lemma_subscribe(props.drop_first(), seen || first.id() == 0x0B, available);
        }
    }
}

proof fn lemma_subscribe_spelled(s: Seq<u8>, seen: bool, available: bool)
    requires
        validate::subscribe_check(s, seen, available) is Ok,
    ensures
        grammar::spelled(s),
    decreases s.len(),
{
    if s.len() == 0 {
        grammar::lemma_spelled_empty(s);
    } else {
        validate::lemma_value_of(s[0], s.skip(1));
        let rest = (validate::value_of(s[0], s.skip(1))->0).1;
        lemma_subscribe_spelled(rest, seen || s[0] == 0x0B, available);
        grammar::lemma_spelled_on(s);
    }
}

/// **Law.** The properties of a SUBSCRIBE are in order exactly if they are user
/// properties and at most one subscription identifier, which is not 0 and which
/// the broker supports.
pub proof fn law_subscribe_properties(props: Seq<Prop>, s: Seq<u8>, available: bool)
    requires
        grammar::all_proper(props),
    ensures
        validate::subscribe_check(grammar::section(props), false, available) is Ok == legal(
            props,
            in_subscribe(available),
            user_often(),
        ),
        validate::subscribe_check(s, false, available) is Ok ==> grammar::spelled(s),
        validate::subscribe_check(grammar::section(props), false, available) is Err
            ==> validate::subscribe_check(grammar::section(props), false, available) == Err::<
            (),
            ValidateError,
        >(ValidateError::BadParameter),
{
    lemma_subscribe(props, false, available);
    lemma_legal(props, Set::empty(), in_subscribe(available), user_often());
    if validate::subscribe_check(s, false, available) is Ok {
        lemma_subscribe_spelled(s, false, available);
    }
}

/// User properties, and nothing else.
pub open spec fn only_user() -> spec_fn(Prop) -> bool {
    |p: Prop| p.id() == 0x26
}

/// **Law.** The properties of an UNSUBSCRIBE are in order exactly if all are
/// user properties.
pub proof fn law_unsubscribe_properties(props: Seq<Prop>, s: Seq<u8>)
    requires
        grammar::all_proper(props),
    ensures
        validate::unsubscribe_check(grammar::section(props)) is Ok == grammar::each(
            props,
            only_user(),
        ),
        validate::unsubscribe_check(s) is Ok ==> grammar::spelled(s),
        validate::unsubscribe_check(grammar::section(props)) is Err ==> validate::unsubscribe_check(
            grammar::section(props),
        ) == Err::<(), ValidateError>(ValidateError::BadParameter),
    decreases props.len(), s.len(),
{
    if props.len() > 0 {
        grammar::lemma_first(props);
        grammar::lemma_proper_rest(props);
        grammar::lemma_each(props, only_user());
        law_unsubscribe_properties(props.drop_first(), Seq::empty());
    }
    if validate::unsubscribe_check(s) is Ok {
        if s.len() == 0 {
            grammar::lemma_spelled_empty(s);
        } else {
            validate::lemma_value_of(s[0], s.skip(1));
            law_unsubscribe_properties(props, (validate::value_of(s[0], s.skip(1))->0).1);
            grammar::lemma_spelled_on(s);
        }
    }
}

/// What a message that is sent may carry: no subscription identifier, and a
/// topic alias no larger than the broker's maximum.
pub open spec fn in_sent_message(alias_max: u16) -> spec_fn(Prop) -> bool {
    |p: Prop|
        match p.id() {
            0x01 | 0x02 | 0x03 | 0x08 | 0x09 | 0x26 => true,
            0x23 => p.number() <= alias_max,
            _ => false,
        }
}

proof fn lemma_sent(props: Seq<Prop>, seen: bool, alias: Option<u16>, alias_max: u16)
    requires
        grammar::all_proper(props),
    ensures
        ({
            let (result, end) = validate::publish_check(
                grammar::section(props),
                seen,
                alias,
                alias_max,
            );
            let fits = legal_behind(
                props,
                flagged(seen, 0x23),
                in_sent_message(alias_max),
                alias_once(),
            );
            &&& result is Ok == fits
            &&& grammar::each(props, in_sent_message(alias_max)) && !fits ==> result == Err::<
                (),
                ValidateError,
            >(ValidateError::BadResponse)
            &&& grammar::no_repeat(props, alias_once()) && grammar::clear_of(
                props,
                flagged(seen, 0x23),
                alias_once(),
            ) && !fits ==> result == Err::<(), ValidateError>(ValidateError::BadParameter)
            &&& fits ==> end == (match grammar::said(props, 0x23) {
                Some(value) => Some(value as u16),
                None => alias,
            })
        }),
    decreases props.len(),
{
    lemma_legal(props, flagged(seen, 0x23), in_sent_message(alias_max), alias_once());
    if props.len() > 0 {
        let first = props[0];
        let rest = props.drop_first();
        grammar::lemma_first(props);
        grammar::lemma_proper_rest(props);
        grammar::lemma_has(props, 0x23);
        assert(flagged(false, 0x23).insert(0x23) =~= flagged(true, 0x23));
        assert(flagged(true, 0x23).insert(0x23) =~= flagged(true, 0x23));
        grammar::lemma_each(props, in_sent_message(alias_max));
        grammar::lemma_repeat(props, flagged(seen, 0x23), alias_once());
        if first.id() == 0x23 {
            lemma_sent(rest, true, Some(first.number() as u16), alias_max);
            if legal_behind(rest, flagged(true, 0x23), in_sent_message(alias_max), alias_once()) {
                lemma_said_once(rest, flagged(true, 0x23), alias_once(), 0x23);
            }
        } else {
            lemma_sent(rest, seen, alias, alias_max);
        }
    }
}

proof fn lemma_sent_spelled(s: Seq<u8>, seen: bool, alias: Option<u16>, alias_max: u16)
    requires
        validate::publish_check(s, seen, alias, alias_max).0 is Ok,
    ensures
        grammar::spelled(s),
    decreases s.len(),
{
    if s.len() == 0 {
        grammar::lemma_spelled_empty(s);
    } else {
        validate::lemma_value_of(s[0], s.skip(1));
        let (value, rest) = validate::value_of(s[0], s.skip(1))->0;
        if s[0] == 0x23 {
            lemma_sent_spelled(rest, true, Some(value as u16), alias_max);
        } else {
            lemma_sent_spelled(rest, seen, alias, alias_max);
        }
        grammar::lemma_spelled_on(s);
    }
}

/// **Law.** The properties of a PUBLISH to be sent are in order exactly if each
/// is one that such a message may carry and there is at most one topic alias,
/// which is within the broker's maximum. The alias handed over is that one. A
/// second alias is a bad response, everything else a bad parameter.
pub proof fn law_sent_message_properties(
    props: Seq<Prop>,
    s: Seq<u8>,
    alias: Option<u16>,
    alias_max: u16,
)
    requires
        grammar::all_proper(props),
    ensures
        ({
            let (result, end) = validate::publish_check(
                grammar::section(props),
                false,
                alias,
                alias_max,
            );
            &&& result is Ok == legal(props, in_sent_message(alias_max), alias_once())
            &&& grammar::each(props, in_sent_message(alias_max)) && result is Err ==> result == Err::<
                (),
                ValidateError,
            >(ValidateError::BadResponse)
            &&& grammar::no_repeat(props, alias_once()) && result is Err ==> result == Err::<
                (),
                ValidateError,
            >(ValidateError::BadParameter)
            &&& result is Ok ==> end == (match grammar::said(props, 0x23) {
                Some(value) => Some(value as u16),
                None => alias,
            })
        }),
        validate::publish_check(s, false, alias, alias_max).0 is Ok ==> grammar::spelled(s),
{
    lemma_sent(props, false, alias, alias_max);
    grammar::lemma_clear_at_first(props, alias_once());
    lemma_legal(props, Set::empty(), in_sent_message(alias_max), alias_once());
    if validate::publish_check(s, false, alias, alias_max).0 is Ok {
        lemma_sent_spelled(s, false, alias, alias_max);
    }
}

// ---------------------------------------------------------------------------
// Acknowledgements
// ---------------------------------------------------------------------------

/// What an acknowledgement may carry: a reason string and user properties.
pub open spec fn in_ack() -> spec_fn(Prop) -> bool {
    |p: Prop| p.id() == 0x1F || p.id() == 0x26
}

proof fn lemma_ack(props: Seq<Prop>, seen: bool)
    requires
        grammar::all_proper(props),
    ensures
        ack::ack_properties_ok(grammar::section(props), seen) == legal_behind(
            props,
            flagged(seen, 0x1F),
            in_ack(),
            user_often(),
        ),
        validate::publish_ack_check(grammar::section(props), seen) is Ok == legal_behind(
            props,
            flagged(seen, 0x1F),
            in_ack(),
            user_often(),
        ),
    decreases props.len(),
{
    lemma_legal(props, flagged(seen, 0x1F), in_ack(), user_often());
    if props.len() > 0 {
        let first = props[0];
        grammar::lemma_first(props);
        grammar::lemma_proper_rest(props);
        if first.id() == 0x1F || first.id() == 0x26 {
            lemma_flagged(props, seen, 0x1F, in_ack());
            lemma_ack(props.drop_first(), seen || first.id() == 0x1F);
        }
    }
}

proof fn lemma_ack_spelled(s: Seq<u8>, seen: bool)
    requires
        ack::ack_properties_ok(s, seen) || validate::publish_ack_check(s, seen) is Ok,
    ensures
        grammar::spelled(s),
    decreases s.len(),
{
    if s.len() == 0 {
        grammar::lemma_spelled_empty(s);
    } else {
        validate::lemma_value_of(s[0], s.skip(1));
        let rest = (validate::value_of(s[0], s.skip(1))->0).1;
        lemma_ack_spelled(rest, seen || s[0] == 0x1F);
        grammar::lemma_spelled_on(s);
    }
}

/// **Law.** The properties of an acknowledgement, one that arrives as well as
/// one to be sent, are in order exactly if they are user properties and at most
/// one reason string.
pub proof fn law_ack_properties(props: Seq<Prop>, s: Seq<u8>)
    requires
        grammar::all_proper(props),
    ensures
        ack::ack_properties_ok(grammar::section(props), false) == legal(
            props,
            in_ack(),
            user_often(),
        ),
        validate::publish_ack_check(grammar::section(props), false) is Ok == legal(
            props,
            in_ack(),
            user_often(),
        ),
        ack::ack_properties_ok(s, false) ==> grammar::spelled(s),
        validate::publish_ack_check(s, false) is Ok ==> grammar::spelled(s),
{
    lemma_ack(props, false);
    lemma_legal(props, Set::empty(), in_ack(), user_often());
    if ack::ack_properties_ok(s, false) || validate::publish_ack_check(s, false) is Ok {
        lemma_ack_spelled(s, false);
    }
}

// ---------------------------------------------------------------------------
// DISCONNECT
// ---------------------------------------------------------------------------

/// What a DISCONNECT that arrives may carry: a reason string, a server
/// reference and user properties.
pub open spec fn in_disconnect() -> spec_fn(Prop) -> bool {
    |p: Prop| p.id() == 0x1F || p.id() == 0x1C || p.id() == 0x26
}

proof fn lemma_disconnect(props: Seq<Prop>, reason: bool, reference: bool)
    requires
        grammar::all_proper(props),
    ensures
        disconnect::incoming_properties_ok(grammar::section(props), reason, reference)
            == legal_behind(
            props,
            flagged(reason, 0x1F).union(flagged(reference, 0x1C)),
            in_disconnect(),
            user_often(),
        ),
    decreases props.len(),
{
    let seen = flagged(reason, 0x1F).union(flagged(reference, 0x1C));
    lemma_legal(props, seen, in_disconnect(), user_often());
    if props.len() > 0 {
        let first = props[0];
        grammar::lemma_first(props);
        grammar::lemma_proper_rest(props);
        let next_reason = reason || first.id() == 0x1F;
        let next_reference = reference || first.id() == 0x1C;
        if first.id() == 0x1F || first.id() == 0x1C {
            assert(seen.insert(first.id()) =~= flagged(next_reason, 0x1F).union(
                flagged(next_reference, 0x1C),
            ));
        }
        lemma_disconnect(props.drop_first(), next_reason, next_reference);
    }
}

proof fn lemma_disconnect_spelled(s: Seq<u8>, reason: bool, reference: bool)
    requires
        disconnect::incoming_properties_ok(s, reason, reference),
    ensures
        grammar::spelled(s),
    decreases s.len(),
{
    if s.len() == 0 {
        grammar::lemma_spelled_empty(s);
    } else {
        validate::lemma_value_of(s[0], s.skip(1));
        let rest = (validate::value_of(s[0], s.skip(1))->0).1;
        lemma_disconnect_spelled(rest, reason || s[0] == 0x1F, reference || s[0] == 0x1C);
        grammar::lemma_spelled_on(s);
    }
}

/// **Law.** The properties of a DISCONNECT that arrives are in order exactly if
/// they are user properties, at most one reason string and at most one server
/// reference.
pub proof fn law_disconnect_properties(props: Seq<Prop>, s: Seq<u8>)
    requires
        grammar::all_proper(props),
    ensures
        disconnect::incoming_properties_ok(grammar::section(props), false, false) == legal(
            props,
            in_disconnect(),
            user_often(),
        ),
        disconnect::incoming_properties_ok(s, false, false) ==> grammar::spelled(s),
{
    lemma_disconnect(props, false, false);
    assert(flagged(false, 0x1F).union(flagged(false, 0x1C)) =~= Set::empty());
    lemma_legal(props, Set::empty(), in_disconnect(), user_often());
    if disconnect::incoming_properties_ok(s, false, false) {
        lemma_disconnect_spelled(s, false, false);
    }
}

/// What a DISCONNECT to be sent may carry: a session expiry, which must be 0 if
/// that of the CONNECT was, reason strings and user properties.
pub open spec fn in_sent_disconnect(expiry: u32) -> spec_fn(Prop) -> bool {
    |p: Prop|
        match p.id() {
            0x11 => expiry == 0 ==> p.number() == 0,
            0x1F | 0x26 => true,
            _ => false,
        }
}

/// **Law.** The properties of a DISCONNECT to be sent are in order exactly if
/// each is a reason string, a user property or a session expiry, the last of
/// which cannot be given to a session that was opened without one.
pub proof fn law_sent_disconnect_properties(props: Seq<Prop>, s: Seq<u8>, expiry: u32)
    requires
        grammar::all_proper(props),
    ensures
        disconnect::outgoing_check(grammar::section(props), expiry) is Ok == grammar::each(
            props,
            in_sent_disconnect(expiry),
        ),
        disconnect::outgoing_check(s, expiry) is Ok ==> grammar::spelled(s),
        disconnect::outgoing_check(grammar::section(props), expiry) is Err
            ==> disconnect::outgoing_check(grammar::section(props), expiry) == Err::<(), _>(
            DisconnectError::BadParameter,
        ),
    decreases props.len(), s.len(),
{
    if props.len() > 0 {
        grammar::lemma_first(props);
        grammar::lemma_proper_rest(props);
        grammar::lemma_each(props, in_sent_disconnect(expiry));
        law_sent_disconnect_properties(props.drop_first(), Seq::empty(), expiry);
    }
    if disconnect::outgoing_check(s, expiry) is Ok {
        if s.len() == 0 {
            grammar::lemma_spelled_empty(s);
        } else {
            validate::lemma_value_of(s[0], s.skip(1));
            let rest = (validate::value_of(s[0], s.skip(1))->0).1;
            law_sent_disconnect_properties(props, rest, expiry);
            grammar::lemma_spelled_on(s);
        }
    }
}

/// **Law.** A property whose value is not all there is a bad response, wherever
/// a property is looked for by its identifier.
pub proof fn law_cut_off_is_bad_response(s: Seq<u8>, available: bool, alias_max: u16, expiry: u32)
    requires
        s.len() > 0,
        validate::value_of(s[0], s.skip(1)) is None,
    ensures
        s[0] == 0x0B || s[0] == 0x26 ==> validate::subscribe_check(s, false, available) == Err::<
            (),
            ValidateError,
        >(ValidateError::BadResponse),
        s[0] == 0x26 ==> validate::unsubscribe_check(s) == Err::<(), ValidateError>(
            ValidateError::BadResponse,
        ),
        s[0] == 0x1F || s[0] == 0x26 ==> validate::publish_ack_check(s, false) == Err::<
            (),
            ValidateError,
        >(ValidateError::BadResponse),
        s[0] == 0x23 || s[0] == 0x26 || s[0] == 0x01 ==> validate::publish_check(
            s,
            false,
            None,
            alias_max,
        ).0 == Err::<(), ValidateError>(ValidateError::BadResponse),
        s[0] == 0x11 || s[0] == 0x1F || s[0] == 0x26 ==> disconnect::outgoing_check(s, expiry)
            == Err::<(), DisconnectError>(DisconnectError::BadResponse),
{
}

// ---------------------------------------------------------------------------
// The limits that a CONNECT announces
// ---------------------------------------------------------------------------

/// What a CONNECT may carry, whatever the values.
pub open spec fn of_connect() -> spec_fn(Prop) -> bool {
    |p: Prop|
        match p.id() {
            0x11 | 0x21 | 0x27 | 0x22 | 0x19 | 0x17 | 0x15 | 0x16 | 0x26 => true,
            _ => false,
        }
}

/// What is said, or what holds where nothing is.
pub open spec fn said_or(props: Seq<Prop>, id: u8, held: int) -> int {
    match grammar::said(props, id) {
        Some(value) => value,
        None => held,
    }
}

proof fn lemma_announced(props: Seq<Prop>, seen: Set<u8>, held: ConnectionProperties)
    requires
        grammar::all_proper(props),
    ensures
        ({
            let (result, after) = context::context_check(grammar::section(props), seen, held);
            let fits = legal_behind(props, seen, of_connect(), limits_once());
            &&& result is Ok == fits
            &&& fits ==> {
                &&& after.session_expiry == said_or(props, 0x11, held.session_expiry as int)
                &&& after.client.receive_max == said_or(
                    props,
                    0x21,
                    held.client.receive_max as int,
                )
                &&& after.client.max_packet_size == said_or(
                    props,
                    0x27,
                    held.client.max_packet_size as int,
                )
                &&& after.client.topic_alias_max == said_or(
                    props,
                    0x22,
                    held.client.topic_alias_max as int,
                )
                &&& after.client.request_response_info == held.client.request_response_info
                &&& after.client.request_problem_info == held.client.request_problem_info
                &&& after.server == held.server
            }
        }),
    decreases props.len(),
{
    lemma_legal(props, seen, of_connect(), limits_once());
    if props.len() > 0 {
        let first = props[0];
        let rest = props.drop_first();
        grammar::lemma_first(props);
        grammar::lemma_proper_rest(props);
        let next = context::with_property(held, first.id(), first.number() as u32);
        lemma_announced(rest, seen.insert(first.id()), next);
        if legal_behind(rest, seen.insert(first.id()), of_connect(), limits_once())
            && !limits_once()(first.id()) {
            lemma_said_once(rest, seen.insert(first.id()), limits_once(), first.id());
        }
    }
}

/// **Law.** Taking over the properties of a CONNECT succeeds exactly if each is
/// one that a CONNECT may carry and none of the four limits is there twice.
/// Then the session expiry, the receive maximum, the maximum packet size and
/// the topic alias maximum of this client are those that the properties say,
/// each stays as it was where they say nothing, and nothing else changes.
pub proof fn law_announced_limits(props: Seq<Prop>, held: ConnectionProperties)
    requires
        grammar::all_proper(props),
    ensures
        ({
            let (result, after) = context::context_check(
                grammar::section(props),
                Set::empty(),
                held,
            );
            &&& result is Ok == legal(props, of_connect(), limits_once())
            &&& result is Ok ==> {
                &&& after.session_expiry == said_or(props, 0x11, held.session_expiry as int)
                &&& after.client.receive_max == said_or(
                    props,
                    0x21,
                    held.client.receive_max as int,
                )
                &&& after.client.max_packet_size == said_or(
                    props,
                    0x27,
                    held.client.max_packet_size as int,
                )
                &&& after.client.topic_alias_max == said_or(
                    props,
                    0x22,
                    held.client.topic_alias_max as int,
                )
                &&& after.client.request_response_info == held.client.request_response_info
                &&& after.client.request_problem_info == held.client.request_problem_info
                &&& after.server == held.server
            }
        }),
{
    lemma_announced(props, Set::empty(), held);
    lemma_legal(props, Set::empty(), of_connect(), limits_once());
}

// ---------------------------------------------------------------------------
// CONNACK
// ---------------------------------------------------------------------------

/// What a CONNACK may carry. Two limits are not 0, five flags are 0 or 1, and
/// response information comes only if it was asked for.
pub open spec fn in_connack(asked: bool) -> spec_fn(Prop) -> bool {
    |p: Prop|
        match p.id() {
            0x11 | 0x12 | 0x13 | 0x15 | 0x16 | 0x1C | 0x1F | 0x22 | 0x26 => true,
            0x21 | 0x27 => p.number() != 0,
            0x24 | 0x25 | 0x28 | 0x29 | 0x2A => p.number() <= 1,
            0x1A => asked,
            _ => false,
        }
}

/// The bit that tells of each property of a CONNACK that it is present.
pub open spec fn place(id: u8) -> u32 {
    match id {
        0x11 => 2,
        0x21 => 3,
        0x27 => 4,
        0x22 => 5,
        0x15 => 9,
        0x16 => 10,
        0x1F => 17,
        0x12 => 19,
        0x13 => 20,
        0x1A => 21,
        0x1C => 22,
        0x24 => 23,
        0x25 => 24,
        0x28 => 25,
        0x29 => 26,
        0x2A => 27,
        0x26 => 28,
        _ => 31,
    }
}

/// The settings of a broker, by the properties that make them.
pub open spec fn setting(server: ServerSettings, id: u8) -> int {
    match id {
        0x11 => server.session_expiry as int,
        0x21 => server.receive_max as int,
        0x24 => server.max_qos as int,
        0x25 => server.retain_available as int,
        0x27 => server.max_packet_size as int,
        0x22 => server.topic_alias_max as int,
        0x28 => server.wildcard_available as int,
        0x29 => server.subscription_id_available as int,
        0x2A => server.shared_available as int,
        0x13 => server.keep_alive as int,
        _ => 0,
    }
}

/// The properties that make a setting.
pub open spec fn sets(id: u8) -> bool {
    match id {
        0x11 | 0x21 | 0x24 | 0x25 | 0x27 | 0x22 | 0x28 | 0x29 | 0x2A | 0x13 => true,
        _ => false,
    }
}

/// The bitmap tells of exactly these properties that they are present.
pub open spec fn tells(fields: u32, seen: Set<u8>) -> bool {
    forall|id: u8|
        place(id) != 31 ==> (#[trigger] seen.contains(id) <==> fields & (1u32 << place(id)) != 0)
}

proof fn lemma_bit(fields: u32, a: u32, b: u32)
    requires
        a < 32,
        b < 32,
    ensures
        (fields | (1u32 << a)) & (1u32 << b) != 0 <==> (a == b || fields & (1u32 << b) != 0),
{
    assert((fields | (1u32 << a)) & (1u32 << b) != 0 <==> (a == b || fields & (1u32 << b) != 0))
        by (bit_vector)
        requires
            a < 32,
            b < 32,
    ;
}

proof fn lemma_tells(fields: u32, seen: Set<u8>, id: u8)
    requires
        tells(fields, seen),
        place(id) != 31,
    ensures
        tells(fields | (1u32 << place(id)), seen.insert(id)),
{
    assert forall|other: u8| place(other) != 31 implies (#[trigger] seen.insert(id).contains(other)
        <==> (fields | (1u32 << place(id))) & (1u32 << place(other)) != 0) by {
        lemma_bit(fields, place(id), place(other));
        assert(place(id) == place(other) ==> id == other);
        assert(seen.contains(other) <==> fields & (1u32 << place(other)) != 0);
    }
}

proof fn lemma_connack(
    props: Seq<Prop>,
    seen: Set<u8>,
    server: ServerSettings,
    fields: u32,
    asked: bool,
    id: u8,
)
    requires
        grammar::all_proper(props),
        tells(fields, seen),
    ensures
        ({
            let end = connack::connack_walk(grammar::section(props), server, fields, asked);
            let fits = legal_behind(props, seen, in_connack(asked), user_often());
            &&& end is Some == fits
            &&& fits ==> {
                &&& sets(id) ==> setting((end->0).0, id) == said_or(
                    props,
                    id,
                    setting(server, id),
                )
                &&& place(id) != 31 ==> ((end->0).1 & (1u32 << place(id)) != 0 <==> (
                seen.contains(id) || grammar::has(props, id)))
            }
        }),
    decreases props.len(),
{
    lemma_legal(props, seen, in_connack(asked), user_often());
    if props.len() > 0 {
        let first = props[0];
        let rest = props.drop_first();
        grammar::lemma_first(props);
        grammar::lemma_proper_rest(props);
        grammar::lemma_has(props, id);
        lemma_place(first.id());
        if place(first.id()) != 31 {
            lemma_tells(fields, seen, first.id());
            assert(seen.contains(first.id()) <==> fields & (1u32 << place(first.id())) != 0);
            let next = connack::with_setting(server, first.id(), first.number() as u32);
            lemma_connack(
                rest,
                seen.insert(first.id()),
                next,
                fields | (1u32 << place(first.id())),
                asked,
                id,
            );
            if legal_behind(rest, seen.insert(first.id()), in_connack(asked), user_often())
                && first.id() != 0x26 {
                lemma_said_once(rest, seen.insert(first.id()), user_often(), first.id());
            }
        }
    } else {
        assert(seen.contains(id) == seen.contains(id));
    }
}

proof fn lemma_place(id: u8)
    ensures
        place(id) < 32,
        connack::connack_bit(id) == if place(id) == 31 {
            None
        } else {
            Some(place(id))
        },
{
}

proof fn lemma_connack_spelled(s: Seq<u8>, server: ServerSettings, fields: u32, asked: bool)
    requires
        connack::connack_walk(s, server, fields, asked) is Some,
    ensures
        grammar::spelled(s),
    decreases s.len(),
{
    if s.len() == 0 {
        grammar::lemma_spelled_empty(s);
    } else {
        connack::lemma_connack_step(s[0], s.skip(1), fields, asked);
        let (value, bit, rest) = connack::connack_step(s[0], s.skip(1), fields, asked)->0;
        lemma_connack_spelled(
            rest,
            connack::with_setting(server, s[0], value),
            fields | (1u32 << bit),
            asked,
        );
        grammar::lemma_spelled_on(s);
    }
}

/// **Law.** The properties of a CONNACK are accepted exactly if each is one that
/// a CONNACK may carry, with a value that it may have, and only user properties
/// are there more than once. Then every setting is what the property of its
/// name says, 0 where it is not there, and the bit of every property tells
/// whether it is there.
pub proof fn law_connack_properties(props: Seq<Prop>, s: Seq<u8>, asked: bool, id: u8)
    requires
        grammar::all_proper(props),
    ensures
        ({
            let end = connack::connack_walk(
                grammar::section(props),
                connack::no_settings(),
                0,
                asked,
            );
            &&& end is Some == legal(props, in_connack(asked), user_often())
            &&& end is Some && sets(id) ==> setting((end->0).0, id) == said_or(props, id, 0)
            &&& end is Some && place(id) != 31 ==> ((end->0).1 & (1u32 << place(id)) != 0
                <==> grammar::has(props, id))
        }),
        connack::connack_walk(s, connack::no_settings(), 0, asked) is Some ==> grammar::spelled(s),
{
    assert forall|id: u8| place(id) != 31 implies (#[trigger] Set::<u8>::empty().contains(id)
        <==> 0u32 & (1u32 << place(id)) != 0) by {
        let bit: u32 = 1u32 << place(id);
        assert(0u32 & bit == 0) by (bit_vector);
    }
    lemma_connack(props, Set::empty(), connack::no_settings(), 0, asked, id);
    lemma_legal(props, Set::empty(), in_connack(asked), user_often());
    if connack::connack_walk(s, connack::no_settings(), 0, asked) is Some {
        lemma_connack_spelled(s, connack::no_settings(), 0, asked);
    }
}

} // verus!
