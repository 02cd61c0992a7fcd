use rusty_rtos_mqtt_core::ack::{AckError, Limits, PacketInfo, deserialize_ack};
use rusty_rtos_mqtt_core::builder::{AddError, BuilderError, PropertyBuilder};
use rusty_rtos_mqtt_core::client::{MqttContext, incoming_key};
use rusty_rtos_mqtt_core::context::{ConnectionProperties, update_with_connect_props};
use rusty_rtos_mqtt_core::cursor::PropertyCursor;
use rusty_rtos_mqtt_core::disconnect::{
    deserialize_disconnect, disconnect_packet_size, serialize_disconnect,
};
use rusty_rtos_mqtt_core::header::{
    HeaderError, packet, process_incoming_packet_type_and_length,
};
use rusty_rtos_mqtt_core::outbound::{RetainHandling, Subscription, subscription_options};
use rusty_rtos_mqtt_core::publish::deserialize_publish;
use rusty_rtos_mqtt_core::reader::{ReadError, Recv, Sent, Transport, read_header};
use rusty_rtos_mqtt_core::state::{
    AckType, Cursor, Operation, PublishRecords, PublishState, QoS, Record, StateError,
};
use rusty_rtos_mqtt_core::topic;
use rusty_rtos_mqtt_core::validate::{ConnectValidation, validate_connect_properties};
use rusty_rtos_mqtt_core::writer::serialize_ack_fixed;

struct Bytes<'b> {
    left: &'b [u8],
}

impl Transport for Bytes<'_> {
    fn send(&mut self, _bytes: &[u8]) -> Sent {
        Sent::Failed
    }

    fn recv(&mut self, into: &mut [u8]) -> Recv {
        let count = into.len().min(self.left.len());
        into[..count].copy_from_slice(&self.left[..count]);
        self.left = &self.left[count..];
        if count == 0 { Recv::Nothing } else { Recv::Bytes(count) }
    }
}

#[test]
fn a_header_is_read_alike_from_a_buffer_and_from_a_transport() {
    for bytes in [
        &[0x40u8, 0x02][..],
        &[0x32, 0x80, 0x01],
        &[0xD0, 0x00],
        &[0x30, 0xFF, 0xFF, 0xFF, 0x7F],
    ] {
        let from_buffer = process_incoming_packet_type_and_length(bytes, bytes.len()).unwrap();
        let from_transport = read_header(&mut Bytes { left: bytes }).unwrap();
        assert_eq!(from_buffer.packet_type, from_transport.packet_type);
        assert_eq!(from_buffer.remaining_length, from_transport.remaining_length);
        assert_eq!(from_buffer.header_length, from_transport.header_length);
    }
}

#[test]
fn only_a_buffer_waits_for_the_rest_of_a_length() {
    let bytes = [0x30, 0x80];
    assert_eq!(
        process_incoming_packet_type_and_length(&bytes, 2),
        Err(HeaderError::NeedMoreBytes)
    );
    assert_eq!(read_header(&mut Bytes { left: &bytes }), Err(ReadError::BadResponse));
}

#[test]
fn more_bytes_change_only_the_answer_to_read_more() {
    for bytes in [&[0x40u8, 0x02, 0, 1][..], &[0x40, 0x80, 0x00, 0x00], &[0x10, 0x02, 0, 0]] {
        let mut settled = None;
        for available in 1..=bytes.len() {
            let answer = process_incoming_packet_type_and_length(bytes, available);
            if let Some(before) = settled {
                assert_eq!(answer, before);
            } else if answer != Err(HeaderError::NeedMoreBytes) {
                settled = Some(answer);
            }
        }
        assert!(settled.is_some());
    }
}

#[test]
fn a_disconnect_is_read_back_as_it_was_written() {
    let properties = [0x1F, 0x00, 0x02, b'o', b'k'];
    let size = disconnect_packet_size(Some(0x81), 5, 100).unwrap();
    let mut out = [0u8; 9];
    assert_eq!(size.packet_size, 9);
    assert_eq!(
        serialize_disconnect(&mut out, Some(0x81), &properties, size.remaining_length),
        Ok(9)
    );
    assert_eq!(out, [0xE0, 0x07, 0x81, 0x05, 0x1F, 0x00, 0x02, b'o', b'k']);
    let header = process_incoming_packet_type_and_length(&out, 9).unwrap();
    let info = PacketInfo {
        packet_type: header.packet_type,
        remaining_length: header.remaining_length,
        remaining_data: &out[header.header_length..],
    };
    let read = deserialize_disconnect(&info, 100).unwrap();
    assert_eq!((read.reason_code, read.properties), (Some(0x81), &properties[..]));
}

#[test]
fn what_the_validator_accepts_is_taken_over() {
    let section = [
        0x11, 0, 0, 0, 9, 0x21, 0, 7, 0x27, 0, 0, 1, 0, 0x22, 0, 3, 0x19, 1, 0x17, 1,
    ];
    let mut found = ConnectValidation::default();
    assert_eq!(validate_connect_properties(&section, &mut found), Ok(()));
    assert_eq!((found.request_problem_info, found.max_packet_size), (true, Some(256)));
    let mut properties = ConnectionProperties::new();
    assert_eq!(update_with_connect_props(&section, &mut properties), Ok(()));
    assert_eq!(properties.session_expiry, 9);
    assert_eq!((properties.client.receive_max, properties.client.max_packet_size), (7, 256));
    assert_eq!(properties.client.topic_alias_max, 3);
    assert!(!properties.client.request_response_info);
    assert!(properties.client.request_problem_info);
}

#[test]
fn a_hash_matches_everything_that_does_not_hide() {
    for name in [&b"a"[..], b"a/b/c", b"/", b"+", b"a/#"] {
        assert_eq!(topic::matches(name, b"#"), Ok(true));
    }
    assert_eq!(topic::matches(b"$SYS/x", b"#"), Ok(false));
    assert_eq!(topic::matches(b"$SYS/x", b"+/x"), Ok(false));
    assert_eq!(topic::matches(b"$SYS/x", b"$SYS/#"), Ok(true));
}

#[test]
fn what_is_added_goes_last_and_is_sent_again_in_order() {
    let mut outgoing = [Record::default(); 3];
    let mut incoming = [Record::default(); 1];
    let mut records = PublishRecords::new(&mut outgoing, &mut incoming);
    let mut cursor = Cursor::new();
    assert_eq!(records.publish_to_resend(&mut cursor), None);
    assert_eq!(records.pubrel_to_resend(&mut Cursor::new()), None);
    for packet_id in [7, 5, 9] {
        assert_eq!(records.reserve(packet_id, QoS::AtLeastOnce), Ok(()));
        assert!(records.update_publish(packet_id, Operation::Send, QoS::AtLeastOnce).is_ok());
    }
    assert!(records.update_ack(7, AckType::PubAck, Operation::Receive).is_ok());
    assert_eq!(records.reserve(4, QoS::ExactlyOnce), Ok(()));
    assert!(records.update_publish(4, Operation::Send, QoS::ExactlyOnce).is_ok());
    let mut cursor = Cursor::new();
    let mut found = Vec::new();
    let mut at = cursor.position();
    while let Some(packet_id) = records.publish_to_resend(&mut cursor) {
        assert!(cursor.position() > at);
        at = cursor.position();
        found.push(packet_id);
    }
    assert_eq!(found, [5, 9, 4]);
}

#[test]
fn the_other_direction_and_unknown_ids_are_left_alone() {
    let mut outgoing = [Record::default(); 1];
    let mut incoming = [Record::default(); 1];
    let mut records = PublishRecords::new(&mut outgoing, &mut incoming);
    assert!(records.update_publish(3, Operation::Receive, QoS::ExactlyOnce).is_ok());
    let before = records.incoming()[0];
    assert_eq!(
        records.update_ack(4, AckType::PubRel, Operation::Receive),
        Err(StateError::BadResponse)
    );
    assert_eq!(records.incoming()[0], before);
    assert_eq!(records.outgoing()[0], Record::default());
    assert_eq!(
        records.update_publish(3, Operation::Receive, QoS::ExactlyOnce),
        Err(StateError::StateCollision)
    );
    assert_eq!(records.incoming()[0], before);
}

#[test]
fn an_acknowledgement_shows_no_byte_that_did_not_arrive() {
    let limits = Limits { max_packet_size: 100, request_problem_info: true };
    let short = PacketInfo {
        packet_type: packet::PUBACK,
        remaining_length: 8,
        remaining_data: &[0, 1, 0x10],
    };
    assert_eq!(deserialize_ack(&short, &limits), Err(AckError::BadResponse));
}

#[test]
fn the_parts_of_a_publish_add_up() {
    let body = [0, 1, b't', 0, 9, 2, 0x01, 0x01, b'x', b'y', b'z'];
    let info = PacketInfo {
        packet_type: 0x32,
        remaining_length: 11,
        remaining_data: &body,
    };
    let read = deserialize_publish(&info, 100, 0).unwrap();
    assert_eq!((read.topic_name.len(), read.properties.len(), read.payload.len()), (1, 2, 3));
    assert_eq!(2 + 1 + 2 + 1 + 2 + 3, body.len());
}

#[test]
fn the_fixed_part_is_written_whole_or_not_at_all() {
    for room in 0..8 {
        let mut out = vec![0xAAu8; room];
        let written = serialize_ack_fixed(&mut out, packet::PUBCOMP, 0x0102, 3, 0x92);
        if room < 5 {
            assert_eq!(written, 0);
            assert!(out.iter().all(|byte| *byte == 0xAA));
        } else {
            assert_eq!(written, 5);
            assert_eq!(out[..5], [0x70, 0x03, 0x01, 0x02, 0x92]);
            assert!(out[5..].iter().all(|byte| *byte == 0xAA));
        }
    }
}

#[test]
fn every_choice_of_options_has_a_byte_of_its_own() {
    let mut seen = Vec::new();
    for qos in [QoS::AtMostOnce, QoS::AtLeastOnce, QoS::ExactlyOnce] {
        for retain_handling in [
            RetainHandling::OnSubscribe,
            RetainHandling::OnSubscribeIfNew,
            RetainHandling::Never,
        ] {
            for flags in 0..4 {
                let byte = subscription_options(&Subscription {
                    topic_filter: b"a",
                    qos,
                    no_local: flags & 1 != 0,
                    retain_as_published: flags & 2 != 0,
                    retain_handling,
                });
                assert_eq!(byte & 0xC0, 0);
                assert!(!seen.contains(&byte));
                seen.push(byte);
            }
        }
    }
    assert_eq!(seen.len(), 36);
}

#[test]
fn numbers_come_back_from_a_section_as_they_went_in() {
    for (small, large) in [(0u16, 0u32), (1, 0x0102_0304), (65_535, u32::MAX)] {
        let mut buffer = [0u8; 8];
        let mut builder = PropertyBuilder::new(&mut buffer).unwrap();
        assert_eq!(builder.receive_max(small, None), Ok(()));
        assert_eq!(builder.session_expiry(large, None), Ok(()));
        let section = builder.section().to_vec();
        let mut cursor = PropertyCursor::new(&section);
        assert_eq!(cursor.receive_max(), Ok(small));
        assert_eq!(cursor.session_expiry(), Ok(large));
        assert!(cursor.is_empty());
    }
}

#[test]
fn packet_ids_come_round_without_a_repeat() {
    let mut network = [0u8; 4];
    let mut context = MqttContext::new(&mut network);
    let first = context.next_packet_id();
    let mut seen = vec![false; 65_536];
    seen[usize::from(first)] = true;
    for _ in 1..65_535 {
        let next = context.next_packet_id();
        assert!(next != 0 && !seen[usize::from(next)]);
        seen[usize::from(next)] = true;
    }
    assert_eq!(context.next_packet_id(), first);
    assert!((1..=65_535u16).all(|id| incoming_key(id) > 65_535));
}

#[test]
fn what_was_sent_is_found_by_one_scan_whatever_its_state() {
    let mut outgoing = [Record::default(); 4];
    let mut incoming = [Record::default(); 2];
    let mut records = PublishRecords::new(&mut outgoing, &mut incoming);
    let steps: [(u16, QoS, &[(AckType, Operation)]); 4] = [
        (1, QoS::AtLeastOnce, &[]),
        (2, QoS::ExactlyOnce, &[]),
        (3, QoS::ExactlyOnce, &[(AckType::PubRec, Operation::Receive)]),
        (
            4,
            QoS::ExactlyOnce,
            &[(AckType::PubRec, Operation::Receive), (AckType::PubRel, Operation::Send)],
        ),
    ];
    for (packet_id, qos, acks) in steps {
        assert_eq!(records.reserve(packet_id, qos), Ok(()));
        assert!(records.update_publish(packet_id, Operation::Send, qos).is_ok());
        for (ack, op) in acks {
            assert!(records.update_ack(packet_id, *ack, *op).is_ok());
        }
    }
    assert!(records.update_publish(8, Operation::Receive, QoS::ExactlyOnce).is_ok());
    assert!(records.update_publish(9, Operation::Receive, QoS::AtLeastOnce).is_ok());
    let states: Vec<PublishState> = records.outgoing().iter().map(|r| r.state).collect();
    assert_eq!(
        states,
        [
            PublishState::PubAckPending,
            PublishState::PubRecPending,
            PublishState::PubRelSend,
            PublishState::PubCompPending,
        ]
    );
    let mut publishes = Vec::new();
    let mut cursor = Cursor::new();
    while let Some(packet_id) = records.publish_to_resend(&mut cursor) {
        publishes.push(packet_id);
    }
    let mut pubrels = Vec::new();
    let mut cursor = Cursor::new();
    while let Some(packet_id) = records.pubrel_to_resend(&mut cursor) {
        pubrels.push(packet_id);
    }
    assert_eq!((publishes, pubrels), (vec![1, 2], vec![3, 4]));
}

#[test]
fn a_builder_touches_only_what_it_writes() {
    let mut empty: [u8; 0] = [];
    assert!(matches!(PropertyBuilder::new(&mut empty), Err(BuilderError::Empty)));
    let mut buffer = [0xAAu8; 6];
    let mut builder = PropertyBuilder::new(&mut buffer).unwrap();
    assert_eq!((builder.capacity(), builder.len()), (6, 0));
    assert_eq!(builder.receive_max(0x0102, None), Ok(()));
    assert_eq!(builder.session_expiry(1, None), Err(AddError::NoMemory));
    assert_eq!((builder.capacity(), builder.len()), (6, 3));
    assert_eq!(buffer, [0x21, 0x01, 0x02, 0xAA, 0xAA, 0xAA]);
}

#[test]
fn the_common_names_stand_at_the_root() {
    let mut out = [0u8; 4];
    let written = rusty_rtos_mqtt_core::encode_variable_length(&mut out, 300);
    assert_eq!(&out[..written], [0xAC, 0x02]);
    assert_eq!(rusty_rtos_mqtt_core::decode_variable_length(&out[..written]), Ok(300));
    assert_eq!(rusty_rtos_mqtt_core::PINGREQ, [0xC0, 0x00]);
    assert_eq!(rusty_rtos_mqtt_core::VERSION_5, 5);
    assert_eq!(rusty_rtos_mqtt_core::VERSION, "0.1.0");
}
