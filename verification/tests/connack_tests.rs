use rusty_rtos_mqtt_core::ack::PacketInfo;
use rusty_rtos_mqtt_core::connack::{CONNACK_MINIMUM_SIZE, ClientSettings, ConnAckError, ServerSettings, connack_reason_code_valid, deserialize_connack, field};
use rusty_rtos_mqtt_core::header::packet;
use rusty_rtos_mqtt_core::property::decode_variable_length;

fn client() -> ClientSettings {
    ClientSettings {
        max_packet_size: 1024,
        request_response_info: true,
    }
}

fn info(body: &[u8]) -> PacketInfo<'_> {
    PacketInfo {
        packet_type: packet::CONNACK,
        remaining_length: u32::try_from(body.len()).unwrap(),
        remaining_data: body,
    }
}

#[test]
fn the_minimum_connack_is_a_success_with_no_properties() {
    let connack = deserialize_connack(&info(&[0x00, 0x00, 0x00]), &client()).unwrap();

    assert!(!connack.session_present);
    assert_eq!(connack.reason_code, 0);
    assert!(!connack.refused());
    assert_eq!(connack.fields_present, 0);
    assert!(connack.properties.is_empty());
    assert_eq!(connack.server, ServerSettings::default());
}

#[test]
fn a_refused_connection_still_carries_its_reason_string() {
    let body = [0x00, 0x87, 0x07, 0x1F, 0x00, 0x04, b'n', b'o', b'p', b'e'];
    let connack = deserialize_connack(&info(&body), &client()).unwrap();

    assert!(connack.refused());
    assert_eq!(connack.reason_code, 0x87);
    assert_eq!(connack.fields_present, 1 << field::REASON_STRING);
    assert_eq!(connack.properties, &body[3..]);
}

#[test]
fn a_resumed_session_cannot_come_with_a_refusal() {
    assert_eq!(
        deserialize_connack(&info(&[0x01, 0x87, 0x00]), &client()),
        Err(ConnAckError::BadResponse)
    );

    assert!(deserialize_connack(&info(&[0x01, 0x00, 0x00]), &client()).is_ok());
    assert!(deserialize_connack(&info(&[0x00, 0x87, 0x00]), &client()).is_ok());
}

#[test]
fn the_reserved_flag_bits_must_all_be_clear() {
    for bit in 1..8u8 {
        let body = [1_u8 << bit, 0x00, 0x00];
        assert_eq!(
            deserialize_connack(&info(&body), &client()),
            Err(ConnAckError::BadResponse),
            "reserved flag bit {bit} was accepted"
        );
    }
}

#[test]
fn a_zero_limit_is_a_protocol_error_not_a_limit() {
    assert_eq!(
        deserialize_connack(&info(&[0x00, 0x00, 0x03, 0x21, 0x00, 0x00]), &client()),
        Err(ConnAckError::BadResponse)
    );
    let ok = deserialize_connack(&info(&[0x00, 0x00, 0x03, 0x21, 0x00, 0x01]), &client())
        .expect("a receive maximum of one");
    assert_eq!(ok.server.receive_max, 1);

    assert_eq!(
        deserialize_connack(
            &info(&[0x00, 0x00, 0x05, 0x27, 0x00, 0x00, 0x00, 0x00]),
            &client()
        ),
        Err(ConnAckError::BadResponse)
    );
}

#[test]
fn maximum_qos_two_is_spelled_by_saying_nothing() {
    let absent = deserialize_connack(&info(&[0x00, 0x00, 0x00]), &client()).unwrap();
    assert_eq!(absent.server.max_qos, 0);
    assert_eq!(absent.fields_present & (1 << field::MAX_QOS), 0);

    let one = deserialize_connack(&info(&[0x00, 0x00, 0x02, 0x24, 0x01]), &client()).unwrap();
    assert_eq!(one.server.max_qos, 1);
    assert_ne!(one.fields_present & (1 << field::MAX_QOS), 0);

    assert_eq!(
        deserialize_connack(&info(&[0x00, 0x00, 0x02, 0x24, 0x02]), &client()),
        Err(ConnAckError::BadResponse)
    );
}

#[test]
fn the_three_byte_minimum_is_stated_not_load_bearing() {
    for length in 0..CONNACK_MINIMUM_SIZE as usize {
        let body = vec![0x00_u8; length];
        assert_eq!(
            deserialize_connack(&info(&body), &client()),
            Err(ConnAckError::BadResponse),
            "a {length}-byte CONNACK was accepted"
        );
    }

    assert!(
        decode_variable_length(&[]).is_err(),
        "an empty buffer now decodes to a property length, so the three-byte              minimum has become load-bearing and this test is the only thing              that was watching it"
    );

    assert!(deserialize_connack(&info(&[0x00, 0x00, 0x00]), &client()).is_ok());
}

#[test]
fn the_reason_code_table_is_the_specification() {
    const SPEC: [u8; 22] = [
        0x00, 0x80, 0x81, 0x82, 0x83, 0x84, 0x85, 0x86, 0x87, 0x88, 0x89, 0x8A, 0x8C, 0x90,
        0x95, 0x97, 0x99, 0x9A, 0x9B, 0x9C, 0x9D, 0x9F,
    ];

    for code in 0..=255u8 {
        assert_eq!(connack_reason_code_valid(code),
            SPEC.contains(&code));
    }
}
