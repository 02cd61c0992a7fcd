use rusty_rtos_mqtt_core::ack::{AckError, Limits, PacketInfo, deserialize_ack};
use rusty_rtos_mqtt_core::builder::{AddError, BuilderError, PropertyBuilder};
use rusty_rtos_mqtt_core::client::{ClientError, MqttContext, Subscription as ClientSubscription};
use rusty_rtos_mqtt_core::client::{ConnectionStatus, RetainHandling as ClientRetain};
use rusty_rtos_mqtt_core::connack::ConnAckError;
use rusty_rtos_mqtt_core::connect::ConnectError;
use rusty_rtos_mqtt_core::cursor::{CursorError, PropertyCursor};
use rusty_rtos_mqtt_core::disconnect::DisconnectError;
use rusty_rtos_mqtt_core::header::{
    HeaderError, PacketHeader, encode_variable_length, incoming_packet_valid, packet,
    packet_size_of, process_incoming_packet_type_and_length, variable_length_encoded_size,
};
use rusty_rtos_mqtt_core::outbound::{
    OutboundError, RetainHandling, Subscription, serialize_ack, serialize_subscribe,
    serialize_unsubscribe,
};
use rusty_rtos_mqtt_core::outpublish::{
    OutgoingError, OutgoingPublish, publish_packet_size, serialize_publish, update_duplicate_flag,
};
use rusty_rtos_mqtt_core::property::{
    PropertyError, PropertyReader, decode_variable_length, encode_string,
};
use rusty_rtos_mqtt_core::publish::{PublishError, deserialize_publish};
use rusty_rtos_mqtt_core::reader::ReadError;
use rusty_rtos_mqtt_core::size::{SizeError, ack_packet_size, subscribe_packet_size};
use rusty_rtos_mqtt_core::state::{
    AckType, Operation, PublishRecords, PublishState, QoS, Record, StateError,
};
use rusty_rtos_mqtt_core::topic::{suback_status_codes, unsuback_status_codes};
use rusty_rtos_mqtt_core::validate::ValidateError;
use rusty_rtos_mqtt_core::writer::{serialize_ack_fixed, serialize_subscribe_header};

#[test]
fn a_length_takes_one_to_four_bytes() {
    for (length, bytes) in [
        (0u32, &[0x00u8][..]),
        (127, &[0x7F]),
        (128, &[0x80, 0x01]),
        (16_383, &[0xFF, 0x7F]),
        (16_384, &[0x80, 0x80, 0x01]),
        (2_097_151, &[0xFF, 0xFF, 0x7F]),
        (2_097_152, &[0x80, 0x80, 0x80, 0x01]),
        (268_435_455, &[0xFF, 0xFF, 0xFF, 0x7F]),
    ] {
        let mut field = [0xAAu8; 5];
        let written = encode_variable_length(&mut field, length);
        assert_eq!(&field[..written], bytes);
        assert!(field[written..].iter().all(|byte| *byte == 0xAA));
        assert_eq!(variable_length_encoded_size(length) as usize, bytes.len());
        assert_eq!(packet_size_of(length) as usize, 1 + bytes.len() + length as usize);
        assert_eq!(decode_variable_length(bytes), Ok(length));
        let mut header = vec![0x40];
        header.extend_from_slice(bytes);
        assert_eq!(
            process_incoming_packet_type_and_length(&header, header.len()),
            Ok(PacketHeader {
                packet_type: 0x40,
                remaining_length: length,
                header_length: 1 + bytes.len(),
            })
        );
    }
    let mut small = [0xAAu8; 1];
    assert_eq!(encode_variable_length(&mut small, 128), 0);
    assert_eq!(small, [0xAA]);
}

#[test]
fn a_header_has_one_spelling_and_may_wait() {
    for (bytes, available, expected) in [
        (&[0x40u8, 0x80, 0x00][..], 3, HeaderError::BadResponse),
        (&[0x40, 0xFF, 0xFF, 0xFF, 0xFF], 5, HeaderError::BadResponse),
        (&[0x10, 0x00], 2, HeaderError::BadResponse),
        (&[0x60, 0x02], 2, HeaderError::BadResponse),
        (&[0x40], 1, HeaderError::NeedMoreBytes),
        (&[0x40, 0x80], 2, HeaderError::NeedMoreBytes),
        (&[0x40, 0x80], 9, HeaderError::NeedMoreBytes),
        (&[0x40, 0x02], 0, HeaderError::NoDataAvailable),
        (&[], 4, HeaderError::NoDataAvailable),
    ] {
        assert_eq!(
            process_incoming_packet_type_and_length(bytes, available),
            Err(expected)
        );
    }
    assert!(decode_variable_length(&[0x80, 0x00]).is_err());
    assert_eq!((0..=255u8).filter(|kind| incoming_packet_valid(*kind)).count(), 168);
}

#[test]
fn a_property_reader_is_bounded() {
    let bytes = [0x00, 0x05, b'h', b'i'];
    let mut reader = PropertyReader::new(&bytes, 4);
    let mut used = false;
    assert_eq!(reader.utf8(&mut used), Err(PropertyError::BadResponse));
    assert_eq!((reader.position(), reader.remaining()), (2, 2));
    let mut reader = PropertyReader::new(&bytes, 4);
    assert_eq!(reader.u16(&mut false), Ok(5));
    assert_eq!(reader.u8(&mut true), Err(PropertyError::BadResponse));
    assert_eq!(reader.u32(&mut false), Err(PropertyError::BadResponse));
    assert_eq!(reader.u16(&mut false), Ok(0x6869));
    assert_eq!(reader.remaining(), 0);
}

#[test]
fn a_text_is_a_count_and_its_bytes() {
    let mut out = [0u8; 6];
    assert_eq!(encode_string(&mut out, Some(b"hey"), 3), 5);
    assert_eq!(out, [0x00, 0x03, b'h', b'e', b'y', 0x00]);
}

#[test]
fn the_writers_write_exact_bytes() {
    let mut out = [0u8; 16];
    assert_eq!(serialize_ack_fixed(&mut out, packet::PUBACK, 0x1234, 4, 0x10), 5);
    assert_eq!(out[..5], [0x40, 0x04, 0x12, 0x34, 0x10]);
    let mut out = [0u8; 16];
    assert_eq!(serialize_subscribe_header(&mut out, 200, 7), 5);
    assert_eq!(out[..5], [0x82, 0xC8, 0x01, 0x00, 0x07]);

    let list = [Subscription {
        topic_filter: b"a/b",
        qos: QoS::AtLeastOnce,
        no_local: true,
        retain_as_published: false,
        retain_handling: RetainHandling::Never,
    }];
    let size = subscribe_packet_size(&[3], 0, 100).unwrap();
    assert_eq!((size.remaining_length, size.packet_size), (9, 11));
    let mut out = [0u8; 16];
    let written = serialize_subscribe(&mut out, &list, &[], 7, size.remaining_length);
    assert_eq!(written, Ok(11));
    assert_eq!(
        out[..11],
        [0x82, 0x09, 0x00, 0x07, 0x00, 0x00, 0x03, b'a', b'/', b'b', 0x25]
    );
    let mut out = [0u8; 16];
    assert_eq!(serialize_unsubscribe(&mut out, &list, &[], 7, 8), Ok(10));
    assert_eq!(out[..10], [0xA2, 0x08, 0x00, 0x07, 0x00, 0x00, 0x03, b'a', b'/', b'b']);
    assert_eq!(
        serialize_unsubscribe(&mut [0u8; 4], &list, &[], 7, 8),
        Err(OutboundError::NoMemory)
    );
    assert_eq!(
        serialize_subscribe(&mut out, &[], &[], 7, 8),
        Err(OutboundError::BadParameter)
    );
}

#[test]
fn a_publish_is_written_and_read_back() {
    let publish = OutgoingPublish {
        qos: QoS::ExactlyOnce,
        dup: true,
        retain: true,
        topic_name: b"t/1",
        properties: &[0x01, 0x01],
        payload: b"hello",
    };
    let size = publish_packet_size(&publish, 100).unwrap();
    let mut out = vec![0u8; size.packet_size as usize];
    assert_eq!(
        serialize_publish(&mut out, &publish, 9, size.remaining_length),
        Ok(size.packet_size as usize)
    );
    let header = process_incoming_packet_type_and_length(&out, out.len()).unwrap();
    let info = PacketInfo {
        packet_type: header.packet_type,
        remaining_length: header.remaining_length,
        remaining_data: &out[header.header_length..],
    };
    let read = deserialize_publish(&info, 100, 0).unwrap();
    assert_eq!((read.qos, read.dup, read.retain), (QoS::ExactlyOnce, true, true));
    assert_eq!((read.packet_id, read.topic_name), (Some(9), &b"t/1"[..]));
    assert_eq!((read.properties, read.payload), (&[0x01u8, 0x01][..], &b"hello"[..]));
    assert_eq!(deserialize_publish(&info, 5, 0), Err(PublishError::BadResponse));
    let wrong = PacketInfo { packet_type: 0x40, ..info };
    assert_eq!(deserialize_publish(&wrong, 100, 0), Err(PublishError::BadParameter));
    assert_eq!(publish_packet_size(&publish, 0), Err(OutgoingError::BadParameter));
    assert_eq!(
        serialize_publish(&mut [0u8; 3], &publish, 9, size.remaining_length),
        Err(OutgoingError::NoMemory)
    );
    let mut byte = 0x32;
    assert_eq!(update_duplicate_flag(&mut byte, true), Ok(()));
    assert_eq!(byte, 0x3A);
    assert_eq!(update_duplicate_flag(&mut byte, false), Ok(()));
    assert_eq!(byte, 0x32);
}

#[test]
fn an_acknowledgement_is_written_and_read_back() {
    let mut out = [0u8; 16];
    let written =
        serialize_ack(&mut out, packet::PUBREC, 3, Some(0x97), &[0x26, 0, 1, b'k', 0, 1, b'v'])
            .unwrap();
    let limits = Limits { max_packet_size: 100, request_problem_info: true };
    let info = PacketInfo {
        packet_type: out[0],
        remaining_length: out[1] as u32,
        remaining_data: &out[2..written],
    };
    let read = deserialize_ack(&info, &limits).unwrap();
    assert_eq!((read.packet_id, read.reason_codes), (Some(3), &[0x97u8][..]));
    assert_eq!(read.properties, [0x26, 0, 1, b'k', 0, 1, b'v']);
    let zero = Limits { max_packet_size: 0, ..limits };
    assert_eq!(deserialize_ack(&info, &zero), Err(AckError::BadParameter));
    let unasked = Limits { request_problem_info: false, ..limits };
    assert_eq!(deserialize_ack(&info, &unasked), Err(AckError::BadResponse));
    assert_eq!(ack_packet_size(0, 0), Err(SizeError::BadParameter));
    assert_eq!(ack_packet_size(100, 7).unwrap().packet_size as usize, written);
}

#[test]
fn a_builder_adds_a_property_once() {
    assert!(matches!(PropertyBuilder::new(&mut []), Err(BuilderError::Empty)));
    let mut buffer = [0u8; 8];
    let mut builder = PropertyBuilder::new(&mut buffer).unwrap();
    assert_eq!(builder.session_expiry(1, Some(packet::CONNECT)), Ok(()));
    assert_eq!(
        builder.session_expiry(2, Some(packet::CONNECT)),
        Err(AddError::BadParameter)
    );
    assert_eq!(
        builder.topic_alias(1, Some(packet::CONNECT)),
        Err(AddError::BadParameter)
    );
    assert_eq!(builder.user_property(b"k", b"v", None), Err(AddError::NoMemory));
    assert_eq!(builder.receive_max(2, Some(packet::CONNECT)), Ok(()));
    assert_eq!(builder.section(), [0x11, 0, 0, 0, 1, 0x21, 0, 2]);
    let section = builder.section().to_vec();
    let mut cursor = PropertyCursor::new(&section);
    assert_eq!(cursor.receive_max(), Err(CursorError::BadParameter));
    assert_eq!(cursor.session_expiry(), Ok(1));
    assert_eq!(cursor.receive_max(), Ok(2));
    assert_eq!(cursor.receive_max(), Err(CursorError::EndOfProperties));
    let mut short = PropertyCursor::new(&section[..7]);
    short.skip().unwrap();
    assert_eq!(short.receive_max(), Err(CursorError::BadResponse));
}

#[test]
fn the_records_refuse_what_does_not_belong() {
    let mut outgoing = [Record::default(); 2];
    let mut incoming = [Record::default(); 1];
    let mut records = PublishRecords::new(&mut outgoing, &mut incoming);
    assert_eq!(records.reserve(0, QoS::AtLeastOnce), Err(StateError::BadParameter));
    assert_eq!(records.reserve(1, QoS::AtLeastOnce), Ok(()));
    assert_eq!(records.reserve(1, QoS::AtLeastOnce), Err(StateError::StateCollision));
    assert_eq!(records.reserve(2, QoS::ExactlyOnce), Ok(()));
    assert_eq!(records.reserve(3, QoS::AtLeastOnce), Err(StateError::NoMemory));
    assert_eq!(
        records.update_ack(1, AckType::PubAck, Operation::Receive),
        Err(StateError::IllegalState)
    );
    assert_eq!(
        records.update_ack(9, AckType::PubAck, Operation::Receive),
        Err(StateError::BadResponse)
    );
    assert_eq!(
        records.update_publish(1, Operation::Send, QoS::AtLeastOnce),
        Ok(PublishState::PubAckPending)
    );
    assert_eq!(
        records.update_ack(1, AckType::PubAck, Operation::Receive),
        Ok(PublishState::PublishDone)
    );
    assert_eq!(records.outgoing()[0], Record::default());
    for (state, step) in [
        (PublishState::PubRecPending, None),
        (PublishState::PubRelSend, Some((AckType::PubRec, Operation::Receive))),
        (PublishState::PubCompPending, Some((AckType::PubRel, Operation::Send))),
        (PublishState::PublishDone, Some((AckType::PubComp, Operation::Receive))),
    ] {
        let reached = match step {
            None => records.update_publish(2, Operation::Send, QoS::ExactlyOnce),
            Some((ack, op)) => records.update_ack(2, ack, op),
        };
        assert_eq!(reached, Ok(state));
    }
    assert!(records.outgoing().iter().all(|record| *record == Record::default()));
    for (state, step) in [
        (PublishState::PubRecSend, None),
        (PublishState::PubRelPending, Some((AckType::PubRec, Operation::Send))),
        (PublishState::PubCompSend, Some((AckType::PubRel, Operation::Receive))),
        (PublishState::PublishDone, Some((AckType::PubComp, Operation::Send))),
    ] {
        let reached = match step {
            None => records.update_publish(5, Operation::Receive, QoS::ExactlyOnce),
            Some((ack, op)) => records.update_ack(5, ack, op),
        };
        assert_eq!(reached, Ok(state));
    }
    assert_eq!(
        records.update_publish(6, Operation::Receive, QoS::AtLeastOnce),
        Ok(PublishState::PubAckSend)
    );
    assert_eq!(
        records.update_publish(6, Operation::Receive, QoS::AtLeastOnce),
        Err(StateError::StateCollision)
    );
    assert_eq!(
        records.update_ack(6, AckType::PubAck, Operation::Send),
        Ok(PublishState::PublishDone)
    );
}

#[test]
fn the_status_codes_of_a_list_are_found() {
    let info = PacketInfo {
        packet_type: packet::SUBACK,
        remaining_length: 5,
        remaining_data: &[0x00, 0x01, 0x00, 0x02, 0x80],
    };
    assert_eq!(suback_status_codes(&info), Ok(&[0x02u8, 0x80][..]));
    assert!(unsuback_status_codes(&info).is_err());
}

#[test]
fn every_error_has_a_meaning_for_the_client() {
    assert_eq!(ClientError::from(ValidateError::BadResponse), ClientError::BadParameter);
    assert_eq!(ClientError::from(HeaderError::NeedMoreBytes), ClientError::NeedMoreBytes);
    assert_eq!(ClientError::from(HeaderError::NoDataAvailable), ClientError::NoDataAvailable);
    assert_eq!(ClientError::from(ReadError::RecvFailed), ClientError::RecvFailed);
    assert_eq!(ClientError::from(ReadError::NoDataAvailable), ClientError::RecvFailed);
    assert_eq!(ClientError::from(ReadError::BadResponse), ClientError::BadResponse);
    assert_eq!(ClientError::from(PublishError::BadResponse), ClientError::BadResponse);
    assert_eq!(ClientError::from(AckError::BadParameter), ClientError::BadParameter);
    assert_eq!(ClientError::from(ConnAckError::BadResponse), ClientError::BadResponse);
    assert_eq!(ClientError::from(ConnectError::NoMemory), ClientError::NoMemory);
    assert_eq!(ClientError::from(DisconnectError::NoMemory), ClientError::NoMemory);
}

#[test]
fn nothing_goes_on_the_wire_without_a_connection() {
    let mut network = [0u8; 16];
    let mut context = MqttContext::new(&mut network);
    context.enable_qos(1, 1, 0);
    let list = [ClientSubscription {
        topic_filter: b"a",
        qos: QoS::ExactlyOnce,
        no_local: false,
        retain_as_published: false,
        retain_handling: ClientRetain::OnSubscribe,
    }];
    for (status, expected) in [
        (ConnectionStatus::NotConnected, Err(ClientError::NotConnected)),
        (ConnectionStatus::DisconnectPending, Err(ClientError::DisconnectPending)),
        (ConnectionStatus::Connected, Ok(())),
    ] {
        context.connect_status = status;
        assert_eq!(context.subscribe(&list, 1, None), expected);
        assert_eq!(context.unsubscribe(&list, 1), expected);
        assert_eq!(context.publish(QoS::AtLeastOnce, 1, b"a", b""), expected);
        assert_eq!(
            context.publish(QoS::AtLeastOnce, 0, b"a", b""),
            Err(ClientError::BadParameter)
        );
        assert_eq!(
            context.publish(QoS::AtMostOnce, 0, b"", b""),
            Err(ClientError::BadParameter)
        );
        assert_eq!(
            context.subscribe(&list, 1, Some(&[0x0B, 0x00])),
            Err(ClientError::BadParameter)
        );
    }
    assert_eq!(context.validate_publish(QoS::AtMostOnce, 0, 65_536, 0), Err(ClientError::BadParameter));
    assert_eq!(
        context.validate_publish(QoS::AtMostOnce, 0, 1, 268_435_456),
        Err(ClientError::BadParameter)
    );
    assert_eq!(context.validate_publish(QoS::AtMostOnce, 0, 65_535, 268_435_455), Ok(()));
}

#[test]
fn a_topic_that_does_not_fit_is_not_a_malformed_body() {
    let read = |packet_type: u8, remaining_length: u32, remaining_data: &[u8]| {
        let info = PacketInfo { packet_type, remaining_length, remaining_data };
        deserialize_publish(&info, 100, 0).map(|publish| publish.topic_name.len())
    };
    let overrun = [0x00, 0x7F, b'a', b'/', b'b', 0x00];
    assert_eq!(read(0x30, 6, &overrun), Err(PublishError::BadParameter));
    assert_eq!(read(0x32, 6, &overrun), Err(PublishError::BadParameter));
    // One byte too long, just fitting with nothing behind it, and fitting.
    assert_eq!(read(0x30, 4, &[0, 3, b'a', b'b']), Err(PublishError::BadParameter));
    assert_eq!(read(0x30, 4, &[0, 2, b'a', b'b']), Err(PublishError::BadResponse));
    assert_eq!(read(0x30, 4, &[0, 1, b'a', 0]), Ok(1));
    // A topic that fits where the identifier behind it does not.
    assert_eq!(read(0x32, 6, &[0, 3, b'a', b'b', b'c', 0]), Err(PublishError::BadResponse));
    // Under the floor, or shorter than claimed.
    assert_eq!(read(0x30, 3, &[0, 9, b'a']), Err(PublishError::BadResponse));
    assert_eq!(read(0x32, 5, &[0, 9, b'a', 0, 1]), Err(PublishError::BadResponse));
    assert_eq!(read(0x30, 8, &overrun), Err(PublishError::BadResponse));
}
