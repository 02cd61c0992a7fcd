use rusty_rtos_mqtt_core::ack::{AckError, Limits, PUBREL, PacketInfo, bounded, deserialize_ack, read_suback_status, validate_ack_reason_code};
use rusty_rtos_mqtt_core::header::{packet, variable_length_encoded_size};

fn limits() -> Limits {
    Limits {
        max_packet_size: 1024,
        request_problem_info: true,
    }
}

fn info<'a>(packet_type: u8, body: &'a [u8]) -> PacketInfo<'a> {
    PacketInfo {
        packet_type,
        remaining_length: u32::try_from(body.len()).unwrap(),
        remaining_data: body,
    }
}

#[test]
fn a_pubrel_needs_its_reserved_bit() {
    let body = [0x00, 0x2A];

    assert!(deserialize_ack(&info(PUBREL, &body), &limits()).is_ok());
    assert_eq!(
        deserialize_ack(&info(packet::PUBREL_NIBBLE, &body), &limits()),
        Err(AckError::BadResponse),
        "0x60 is a PUBREL with its reserved bit clear and must not be read as one"
    );
}

#[test]
fn a_claim_larger_than_the_buffer_is_refused() {
    let body = [0x00, 0x2A, 0x00];

    for claimed in 4u32..64 {
        let packet = PacketInfo {
            packet_type: packet::PUBACK,
            remaining_length: claimed,
            remaining_data: &body,
        };

        assert_eq!(
            deserialize_ack(&packet, &limits()),
            Err(AckError::BadResponse),
            "a claim of {claimed} bytes over a {}-byte buffer was accepted",
            body.len()
        );
    }
}

#[test]
fn the_two_reason_code_tables_diverge_from_the_specification() {
    assert_eq!(read_suback_status(&[0x11]), Err(AckError::BadResponse));

    assert_eq!(read_suback_status(&[0x02]), Ok(()));

    assert_eq!(validate_ack_reason_code(0x92), Ok(()));
}

#[test]
fn a_two_byte_ack_is_a_success_with_nothing_in_it() {
    let ack = deserialize_ack(&info(packet::PUBACK, &[0x12, 0x34]), &limits()).unwrap();

    assert_eq!(ack.packet_id, Some(0x1234));
    assert!(ack.reason_codes.is_empty());
    assert!(ack.properties.is_empty());
}

#[test]
fn the_sub_ack_bound_is_the_slice_bound_restated() {
    for length in 0usize..24 {
        let after_id = vec![0u8; length];

        for property_length in 0u32..32 {
            let encoded = variable_length_encoded_size(property_length);

            let claimed = property_length.saturating_add(encoded).saturating_add(2);
            let available = u32::try_from(after_id.len()).unwrap().saturating_add(2);
            let bound_refuses = claimed > available;

            let slice_refuses = bounded(&after_id, encoded as usize, property_length).is_err();

            assert_eq!(bound_refuses, slice_refuses);
        }
    }
}

#[test]
fn a_pingresp_must_be_empty() {
    assert!(deserialize_ack(&info(packet::PINGRESP, &[]), &limits()).is_ok());
    assert_eq!(
        deserialize_ack(&info(packet::PINGRESP, &[0x00]), &limits()),
        Err(AckError::BadResponse)
    );
}
