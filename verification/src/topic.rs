//! Topic filters, and the names of things.
//!
//! A filter is compared with a topic one byte at a time. A `+` that begins a
//! level stands for one level, a `#` that ends the filter for all the rest; in
//! any other place both are ordinary characters. Two answers follow from the
//! comparison being one pass: a filter that ends in `+` after an earlier `+`
//! does not match an empty last level, and one that ends in `/#` after a `+`
//! does not match where the topic ends with the `+`.

use vstd::prelude::*;

use crate::ack::{AckError, PacketInfo, PacketModel};
use crate::header::{packet, variable_length_encoded_size, REMAINING_LENGTH_INVALID};
use crate::property::decode_variable_length;
use crate::wire;

verus! {

/// Why a comparison was refused.
#[derive(Debug, Clone, Copy, PartialEq, Eq, Structural)]
pub enum TopicError {
    /// An empty topic or filter, or one too long to be sent.
    BadParameter,
}

/// `/`
pub const SLASH: u8 = 0x2F;

/// `+`
pub const PLUS: u8 = 0x2B;

/// `#`
pub const HASH: u8 = 0x23;

/// `$`
pub const DOLLAR: u8 = 0x24;

// ---------------------------------------------------------------------------
// When a filter matches
// ---------------------------------------------------------------------------

/// The first `/` from `i` on; the length of the topic if there is none.
pub open spec fn next_slash(topic: Seq<u8>, i: int) -> int
    decreases topic.len() - i,
{
    if i >= topic.len() {
        topic.len() as int
    } else if topic[i] == SLASH {
        i
    } else {
        next_slash(topic, i + 1)
    }
}

/// A level of the filter begins at `j`.
pub open spec fn begins_level(filter: Seq<u8>, j: int) -> bool {
    j == 0 || filter[j - 1] == SLASH
}

/// What is left of the filter from `j` on, where the topic ends with the
/// character at `j`, matches nothing more: `/#` behind it, or a `/` there with
/// one wildcard behind it.
pub open spec fn ends_in_wildcard(filter: Seq<u8>, j: int) -> bool {
    ||| j == filter.len() - 3 && filter[j + 1] == SLASH && filter[j + 2] == HASH
    ||| j == filter.len() - 2 && filter[j] == SLASH && (filter[j + 1] == PLUS || filter[j + 1]
        == HASH)
}

/// The filter from `j` on matches the topic from `i` on.
pub open spec fn follows(topic: Seq<u8>, filter: Seq<u8>, i: int, j: int) -> bool
    decreases filter.len() - j,
{
    if i >= topic.len() || j >= filter.len() {
        i == topic.len() && j == filter.len()
    } else if topic[i] == filter[j] {
        (i == topic.len() - 1 && ends_in_wildcard(filter, j)) || follows(
            topic,
            filter,
            i + 1,
            j + 1,
        )
    } else if filter[j] == PLUS && begins_level(filter, j) {
        let end = next_slash(topic, i);
        if end < topic.len() {
            j + 1 < filter.len() && filter[j + 1] == SLASH && follows(
                topic,
                filter,
                end + 1,
                j + 2,
            )
        } else {
            j + 1 == filter.len()
        }
    } else {
        filter[j] == HASH && j == filter.len() - 1 && begins_level(filter, j)
    }
}

/// A topic that begins with `$` is hidden from a filter that begins with a
/// wildcard.
pub open spec fn hidden(topic: Seq<u8>, filter: Seq<u8>) -> bool {
    topic[0] == DOLLAR && (filter[0] == PLUS || filter[0] == HASH)
}

/// Comparing a topic with a filter.
pub open spec fn topic_matches(topic: Seq<u8>, filter: Seq<u8>) -> Result<bool, TopicError> {
    if topic.len() == 0 || filter.len() == 0 || topic.len() > u16::MAX || filter.len()
        > u16::MAX {
        Err(TopicError::BadParameter)
    } else {
        Ok(!hidden(topic, filter) && follows(topic, filter, 0, 0))
    }
}

proof fn lemma_next_slash(topic: Seq<u8>, i: int)
    requires
        0 <= i <= topic.len(),
    ensures
        i <= next_slash(topic, i) <= topic.len(),
    decreases topic.len() - i,
{
    if i < topic.len() && topic[i] != SLASH {
        lemma_next_slash(topic, i + 1);
    }
}

proof fn lemma_follows_itself(text: Seq<u8>, i: int)
    requires
        0 <= i <= text.len(),
    ensures
        follows(text, text, i, i),
    decreases text.len() - i,
{
    if i < text.len() {
        lemma_follows_itself(text, i + 1);
    }
}

/// **Law.** A filter that is the topic, byte for byte, matches it: comparing
/// the two first, as a shortcut, never changes an answer.
pub proof fn law_exact_match(text: Seq<u8>)
    requires
        0 < text.len() <= u16::MAX,
    ensures
        topic_matches(text, text) == Ok::<bool, TopicError>(true),
{
    lemma_follows_itself(text, 0);
}

/// **Law.** A topic that begins with `$` matches no filter that begins with a
/// wildcard.
pub proof fn law_dollar_topics_hide(topic: Seq<u8>, filter: Seq<u8>)
    requires
        0 < topic.len() <= u16::MAX,
        0 < filter.len() <= u16::MAX,
        topic[0] == DOLLAR,
        filter[0] == PLUS || filter[0] == HASH,
    ensures
        topic_matches(topic, filter) == Ok::<bool, TopicError>(false),
{
}

/// **Law.** `#` alone matches every topic that is not hidden from it and does
/// not itself begin with `#`.
pub proof fn law_hash_matches_all(topic: Seq<u8>)
    requires
        0 < topic.len() <= u16::MAX,
        topic[0] != DOLLAR,
        topic[0] != HASH,
    ensures
        topic_matches(topic, seq![HASH]) == Ok::<bool, TopicError>(true),
{
}

// ---------------------------------------------------------------------------
// Comparing
// ---------------------------------------------------------------------------

/// Does the filter match the topic?
///
/// # Errors
///
/// [`TopicError::BadParameter`] if either is empty or too long to be sent.
pub fn matches(topic: &[u8], filter: &[u8]) -> (answer: Result<bool, TopicError>)
    ensures
        answer == topic_matches(topic@, filter@),
{
    if topic.len() == 0 || filter.len() == 0 {
        return Err(TopicError::BadParameter);
    }
    if topic.len() > u16::MAX as usize || filter.len() > u16::MAX as usize {
        return Err(TopicError::BadParameter);
    }
    if same_bytes(topic, filter) {
        proof {
            law_exact_match(topic@);
        }
        return Ok(true);
    }
    let filter_starts_with_wildcard = filter[0] == PLUS || filter[0] == HASH;
    if topic[0] == DOLLAR && filter_starts_with_wildcard {
        return Ok(false);
    }
    Ok(match_filter(topic, filter))
}

/// Are the two the same, byte for byte?
fn same_bytes(one: &[u8], other: &[u8]) -> (same: bool)
    ensures
        same == (one@ == other@),
{
    if one.len() != other.len() {
        return false;
    }
    let mut index: usize = 0;
    while index < one.len()
        invariant
            one@.len() == other@.len(),
            index <= one@.len(),
            forall|i: int| 0 <= i < index ==> one@[i] == other@[i],
        decreases one@.len() - index,
    {
        if one[index] != other[index] {
            return false;
        }
        index += 1;
    }
    assert(one@ =~= other@);
    true
}

/// Does what is left of the filter match nothing more?
fn match_end_wildcards(filter: &[u8], at: usize) -> (found: bool)
    requires
        at < filter@.len(),
    ensures
        found == ends_in_wildcard(filter@, at as int),
{
    let after: usize = filter.len() - at - 1;
    if after == 2 && filter[at + 1] == SLASH && filter[at + 2] == HASH {
        return true;
    }
    after == 1 && filter[at] == SLASH && (filter[at + 1] == PLUS || filter[at + 1] == HASH)
}

/// What a wildcard in the filter leads to.
pub enum Step {
    /// The answer.
    Stop(bool),
    /// Go on behind these two positions.
    Skip(usize, usize),
}

/// Compares where topic and filter differ: only a wildcard can match there.
fn match_wildcards(topic: &[u8], filter: &[u8], name_index: usize, filter_index: usize) -> (step:
    Step)
    requires
        name_index < topic@.len(),
        filter_index < filter@.len(),
        topic@[name_index as int] != filter@[filter_index as int],
    ensures
        match step {
            Step::Stop(answer) => answer == follows(
                topic@,
                filter@,
                name_index as int,
                filter_index as int,
            ),
            Step::Skip(name, at) => {
                &&& name < topic@.len()
                &&& filter_index <= at < filter@.len()
                &&& follows(topic@, filter@, name_index as int, filter_index as int) == follows(
                    topic@,
                    filter@,
                    name + 1,
                    at + 1,
                )
            },
        },
{
    let here: u8 = filter[filter_index];
    let valid_here = filter_index == 0 || filter[filter_index - 1] == SLASH;
    let last = filter_index == filter.len() - 1;
    if here == PLUS && valid_here {
        let mut name: usize = name_index;
        let mut next_level_in_topic = false;
        while name < topic.len() && !next_level_in_topic
            invariant
                name_index <= name <= topic@.len(),
                next_slash(topic@, name_index as int) == next_slash(topic@, name as int),
                next_level_in_topic ==> name < topic@.len() && topic@[name as int] == SLASH,
            decreases topic@.len() - name, if next_level_in_topic {
                0int
            } else {
                1
            },
        {
            if topic[name] == SLASH {
                next_level_in_topic = true;
            } else {
                name += 1;
            }
        }
        let next_level_in_filter = !last && filter[filter_index + 1] == SLASH;
        if next_level_in_topic && !next_level_in_filter {
            return Step::Stop(false);
        }
        if next_level_in_topic {
            return Step::Skip(name, filter_index + 1);
        }
        // The level is the last of the topic: it must be the last of the filter.
        return Step::Skip(topic.len() - 1, filter_index);
    }
    Step::Stop(here == HASH && last && valid_here)
}

/// Compares a topic with a filter, with no regard to what the topic begins
/// with.
#[must_use]
pub fn match_filter(topic: &[u8], filter: &[u8]) -> (matched: bool)
    ensures
        matched == follows(topic@, filter@, 0, 0),
{
    let mut name_index: usize = 0;
    let mut filter_index: usize = 0;
    while name_index < topic.len() && filter_index < filter.len()
        invariant
            name_index <= topic@.len(),
            filter_index <= filter@.len(),
            follows(topic@, filter@, 0, 0) == follows(
                topic@,
                filter@,
                name_index as int,
                filter_index as int,
            ),
        decreases filter@.len() - filter_index,
    {
        if topic[name_index] == filter[filter_index] {
            if name_index == topic.len() - 1 && match_end_wildcards(filter, filter_index) {
                return true;
            }
        } else {
            match match_wildcards(topic, filter, name_index, filter_index) {
                Step::Stop(answer) => return answer,
                Step::Skip(name, at) => {
                    name_index = name;
                    filter_index = at;
                },
            }
        }
        name_index += 1;
        filter_index += 1;
    }
    name_index == topic.len() && filter_index == filter.len()
}

// ---------------------------------------------------------------------------
// Status codes
// ---------------------------------------------------------------------------

/// The reason codes of a SUBACK or an UNSUBACK: everything behind its
/// identifier and its properties.
pub open spec fn status_codes_of(packet: PacketModel, expected: u8) -> Result<Seq<u8>, AckError> {
    if packet.packet_type != expected || packet.claimed < 4 || packet.claimed
        >= REMAINING_LENGTH_INVALID || packet.data.len() < 2 {
        Err(AckError::BadParameter)
    } else {
        match wire::take_length(packet.data.skip(2)) {
            Some((n, rest)) => if n <= rest.len() {
                Ok(rest.skip(n as int))
            } else {
                Err(AckError::BadResponse)
            },
            None => Err(AckError::BadResponse),
        }
    }
}

/// The reason codes of a SUBACK, one for each topic filter.
///
/// # Errors
///
/// [`AckError::BadParameter`] if the packet is not a SUBACK or its length
/// cannot be one; [`AckError::BadResponse`] if its properties are malformed.
pub fn suback_status_codes<'a>(packet: &PacketInfo<'a>) -> (codes: Result<&'a [u8], AckError>)
    ensures
        wire::viewed(codes) == status_codes_of(packet@, packet::SUBACK),
{
    status_codes(packet, packet::SUBACK)
}

/// The reason codes of an UNSUBACK, one for each topic filter.
///
/// # Errors
///
/// As [`suback_status_codes`].
pub fn unsuback_status_codes<'a>(packet: &PacketInfo<'a>) -> (codes: Result<&'a [u8], AckError>)
    ensures
        wire::viewed(codes) == status_codes_of(packet@, packet::UNSUBACK),
{
    status_codes(packet, packet::UNSUBACK)
}

fn status_codes<'a>(packet: &PacketInfo<'a>, expected: u8) -> (codes: Result<&'a [u8], AckError>)
    ensures
        wire::viewed(codes) == status_codes_of(packet@, expected),
{
    if packet.packet_type != expected {
        return Err(AckError::BadParameter);
    }
    if packet.remaining_length < 4 || packet.remaining_length >= REMAINING_LENGTH_INVALID {
        return Err(AckError::BadParameter);
    }
    let data = packet.remaining_data;
    if data.len() < 2 {
        return Err(AckError::BadParameter);
    }
    let after_id = vstd::slice::slice_subrange(data, 2, data.len());
    assert(after_id@ =~= data@.skip(2));
    let value = match decode_variable_length(after_id) {
        Ok(value) => value,
        Err(_) => return Err(AckError::BadResponse),
    };
    proof {
        wire::lemma_read_length_bounds(after_id@);
    }
    let width: usize = variable_length_encoded_size(value) as usize;
    if value as usize > after_id.len() - width {
        return Err(AckError::BadResponse);
    }
    let skip: usize = width + value as usize;
    let codes = vstd::slice::slice_subrange(after_id, skip, after_id.len());
    assert(codes@ =~= after_id@.skip(width as int).skip(value as int));
    Ok(codes)
}

// ---------------------------------------------------------------------------
// Names
// ---------------------------------------------------------------------------

/// The name of a status. No name belongs to 12.
pub open spec fn status_text(code: u8) -> Seq<char> {
    match code {
        0 => "MQTTSuccess"@,
        1 => "MQTTBadParameter"@,
        2 => "MQTTNoMemory"@,
        3 => "MQTTSendFailed"@,
        4 => "MQTTRecvFailed"@,
        5 => "MQTTBadResponse"@,
        6 => "MQTTServerRefused"@,
        7 => "MQTTNoDataAvailable"@,
        8 => "MQTTIllegalState"@,
        9 => "MQTTStateCollision"@,
        10 => "MQTTKeepAliveTimeout"@,
        11 => "MQTTNeedMoreBytes"@,
        13 => "MQTTStatusConnected"@,
        14 => "MQTTStatusNotConnected"@,
        15 => "MQTTStatusDisconnectPending"@,
        16 => "MQTTPublishStoreFailed"@,
        17 => "MQTTPublishRetrieveFailed"@,
        _ => "Invalid MQTT Status code"@,
    }
}

/// The name of a status.
#[must_use]
pub fn status_name(code: u8) -> (name: &'static str)
    ensures
        name@ == status_text(code),
{
    match code {
        0 => "MQTTSuccess",
        1 => "MQTTBadParameter",
        2 => "MQTTNoMemory",
        3 => "MQTTSendFailed",
        4 => "MQTTRecvFailed",
        5 => "MQTTBadResponse",
        6 => "MQTTServerRefused",
        7 => "MQTTNoDataAvailable",
        8 => "MQTTIllegalState",
        9 => "MQTTStateCollision",
        10 => "MQTTKeepAliveTimeout",
        11 => "MQTTNeedMoreBytes",
        13 => "MQTTStatusConnected",
        14 => "MQTTStatusNotConnected",
        15 => "MQTTStatusDisconnectPending",
        16 => "MQTTPublishStoreFailed",
        17 => "MQTTPublishRetrieveFailed",
        _ => "Invalid MQTT Status code",
    }
}

/// The name of a packet, by its first byte. A PUBLISH goes by its high nibble,
/// because the low one is data; every other packet by the whole byte.
pub open spec fn packet_text(packet_type: u8) -> Seq<char> {
    if packet_type / 16 == packet::PUBLISH / 16 {
        "PUBLISH"@
    } else if packet_type == packet::CONNECT {
        "CONNECT"@
    } else if packet_type == packet::CONNACK {
        "CONNACK"@
    } else if packet_type == packet::PUBACK {
        "PUBACK"@
    } else if packet_type == packet::PUBREC {
        "PUBREC"@
    } else if packet_type == packet::PUBREL {
        "PUBREL"@
    } else if packet_type == packet::PUBCOMP {
        "PUBCOMP"@
    } else if packet_type == packet::SUBSCRIBE {
        "SUBSCRIBE"@
    } else if packet_type == packet::SUBACK {
        "SUBACK"@
    } else if packet_type == packet::UNSUBSCRIBE {
        "UNSUBSCRIBE"@
    } else if packet_type == packet::UNSUBACK {
        "UNSUBACK"@
    } else if packet_type == packet::PINGREQ {
        "PINGREQ"@
    } else if packet_type == packet::PINGRESP {
        "PINGRESP"@
    } else if packet_type == packet::DISCONNECT {
        "DISCONNECT"@
    } else if packet_type == packet::AUTH {
        "AUTH"@
    } else {
        "UNKNOWN"@
    }
}

/// The name of a packet, by its first byte.
#[must_use]
pub fn packet_type_name(packet_type: u8) -> (name: &'static str)
    ensures
        name@ == packet_text(packet_type),
{
    if packet_type / 16 == packet::PUBLISH / 16 {
        return "PUBLISH";
    }
    match packet_type {
        packet::CONNECT => "CONNECT",
        packet::CONNACK => "CONNACK",
        packet::PUBACK => "PUBACK",
        packet::PUBREC => "PUBREC",
        packet::PUBREL => "PUBREL",
        packet::PUBCOMP => "PUBCOMP",
        packet::SUBSCRIBE => "SUBSCRIBE",
        packet::SUBACK => "SUBACK",
        packet::UNSUBSCRIBE => "UNSUBSCRIBE",
        packet::UNSUBACK => "UNSUBACK",
        packet::PINGREQ => "PINGREQ",
        packet::PINGRESP => "PINGRESP",
        packet::DISCONNECT => "DISCONNECT",
        packet::AUTH => "AUTH",
        _ => "UNKNOWN",
    }
}

} // verus!
