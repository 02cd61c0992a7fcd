//! The protocol core of an MQTT 5 client.
//!
//! The modules stand in layers, each resting on those above it:
//!
//! * [`wire`], [`header`], [`property`], [`cursor`] and [`builder`]: how
//!   numbers, texts, lengths and properties are spelled in bytes.
//! * [`size`], [`writer`], [`connect`], [`outbound`], [`outpublish`] and
//!   [`disconnect`]: what goes out, how long it is and what bytes it is.
//! * [`ack`], [`connack`], [`publish`], [`validate`], [`context`] and
//!   [`topic`]: what comes in, and which of it is accepted.
//! * [`state`]: how far each publish has come.
//! * [`reader`], [`client`], [`session`] and [`loop_`]: the client itself,
//!   over a transport, a clock, a store and a handler of the application's own.
//! * [`law`]: what holds of all of these together, in words of its own.
//!
//! What a packet is stands in spec functions over sequences of bytes. What the
//! client does stands in relations between the moments before and after a call,
//! where a moment is the client's state with everything that has gone over the
//! transport and every tick that the clock has given.

use vstd::prelude::*;

pub mod wire;
pub mod header;
pub mod property;
pub mod cursor;
pub mod builder;

pub mod size;
pub mod writer;
pub mod connect;
pub mod outbound;
pub mod outpublish;
pub mod disconnect;

pub mod ack;
pub mod connack;
pub mod publish;
pub mod validate;
pub mod context;
pub mod topic;

pub mod state;

pub mod reader;
pub mod client;
pub mod session;
pub mod loop_;

pub mod law;

pub use ack::{
    deserialize_ack, AckError, AckInfo, Limits, PacketInfo, PINGRESP_REMAINING_LENGTH, PUBREL,
};
pub use connack::{
    deserialize_connack, ClientSettings, ConnAck, ConnAckError, ServerSettings,
    CONNACK_MINIMUM_SIZE, SESSION_PRESENT_MASK,
};
pub use connect::{
    connect_packet_size, serialize_connect, Connect, ConnectError, ConnectSize, Will,
    CONNECT_HEADER_SIZE,
};
pub use disconnect::{
    deserialize_disconnect, disconnect_packet_size, reason_code_allowed, serialize_disconnect,
    validate_outgoing_properties, Disconnect, DisconnectError, DisconnectSize,
};
pub use header::{
    encode_variable_length, incoming_packet_valid, process_incoming_packet_type_and_length,
    variable_length_encoded_size, HeaderError, PacketHeader, MAX_REMAINING_LENGTH,
    REMAINING_LENGTH_INVALID,
};
pub use property::{decode_variable_length, encode_string, PropertyError, PropertyReader};
pub use publish::{deserialize_publish, PublishError, PublishInfo};
pub use size::{
    ack_packet_size, list_packet_size, subscribe_packet_size, unsubscribe_packet_size, ListPacket,
    PacketSize, SizeError, PINGREQ_PACKET_SIZE,
};
pub use state::{
    calculate_state_ack, calculate_state_publish, AckType, Cursor, Operation, PublishRecords,
    PublishState, QoS, Record, StateError, PACKET_ID_INVALID,
};
pub use writer::{
    serialize_ack_fixed, serialize_connect_fixed_header, serialize_disconnect_fixed,
    serialize_subscribe_header, serialize_unsubscribe_header, ConnectInfo, WillInfo, PINGREQ,
    VERSION_5,
};

verus! {

/// The version of this crate, for manifests and logs.
pub const VERSION: &'static str = "0.1.0";

} // verus!
