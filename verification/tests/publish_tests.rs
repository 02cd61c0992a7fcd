use rusty_rtos_mqtt_core::ack::PacketInfo;
use rusty_rtos_mqtt_core::header::variable_length_encoded_size;
use rusty_rtos_mqtt_core::publish::{PublishError, PublishInfo, deserialize_publish};
use rusty_rtos_mqtt_core::state::QoS;

fn info(packet_type: u8, body: &[u8]) -> PacketInfo<'_> {
    PacketInfo {
        packet_type,
        remaining_length: u32::try_from(body.len()).unwrap(),
        remaining_data: body,
    }
}

fn read(packet_type: u8, body: &[u8]) -> Result<PublishInfo<'_>, PublishError> {
    deserialize_publish(&info(packet_type, body), 1024, 10)
}

#[test]
fn the_payload_length_can_never_underflow() {
    for qos_bits in [0x00u8, 0x02, 0x04] {
        for topic_len in 0..6usize {
            for prop_len in 0..6usize {
                for extra in 0..6usize {
                    let qos0 = qos_bits == 0;
                    let mut body = Vec::new();
                    body.extend_from_slice(&(topic_len as u16).to_be_bytes());
                    body.extend(std::iter::repeat_n(b't', topic_len));

                    if !qos0 {
                        body.extend_from_slice(&42u16.to_be_bytes());
                    }

                    body.push(u8::try_from(prop_len).unwrap());
                    body.extend(std::iter::repeat_n(0x00, prop_len));
                    body.extend(std::iter::repeat_n(b'p', extra));

                    if let Ok(publish) = read(0x30 | qos_bits, &body) {
                        assert!(
                            publish.payload.len() <= body.len(),
                            "a payload of {} bytes came out of a {}-byte body \
                             (qos bits {qos_bits:#04x}, topic {topic_len}, \
                             properties {prop_len}, extra {extra})",
                            publish.payload.len(),
                            body.len()
                        );
                    }
                }
            }
        }
    }
}

#[test]
fn the_remaining_length_floors_are_the_slice_bounds_restated() {
    const SECTIONS: [&[u8]; 3] = [
        &[],
        &[0x01, 0x01],
        &[0x02, 0x00, 0x00, 0x0E, 0x10],
    ];

    let mut under_the_floor = 0usize;
    let mut accepted = 0usize;

    for qos_bits in [0x00u8, 0x02, 0x04] {
        let qos_cost: u32 = if qos_bits == 0 { 0 } else { 2 };

        for topic_len in 0..5u32 {
            for section in SECTIONS {
                for payload_len in 0..4u32 {
                    let prop_len = u32::try_from(section.len()).unwrap();
                    let mut body = Vec::new();
                    body.extend_from_slice(&u16::try_from(topic_len).unwrap().to_be_bytes());
                    body.extend(core::iter::repeat_n(b't', topic_len as usize));

                    if qos_bits != 0 {
                        body.extend_from_slice(&42u16.to_be_bytes());
                    }

                    body.push(u8::try_from(prop_len).unwrap());
                    body.extend_from_slice(section);
                    body.extend(core::iter::repeat_n(b'p', payload_len as usize));

                    for claimed in 0..(body.len() as u32 + 4) {
                        let packet = PacketInfo {
                            packet_type: 0x30 | qos_bits,
                            remaining_length: claimed,
                            remaining_data: &body,
                        };
                        let result = deserialize_publish(&packet, 1024, 10);

                        let floor = topic_len + 2 + prop_len + 1 + qos_cost;

                        if claimed < floor {
                            under_the_floor += 1;
                            assert!(
                                result.is_err(),
                                "claimed {claimed} is under the floor {floor}                                      (qos bits {qos_bits:#04x}, topic {topic_len},                                      properties {prop_len}) and was accepted"
                            );
                        }

                        if let Ok(publish) = result {
                            accepted += 1;

                            let encoded = variable_length_encoded_size(
                                u32::try_from(publish.properties.len()).unwrap(),
                            );
                            let parts = 2
                                + publish.topic_name.len()
                                + if publish.packet_id.is_some() { 2 } else { 0 }
                                + encoded as usize
                                + publish.properties.len()
                                + publish.payload.len();

                            assert_eq!(
                                parts,
                                claimed as usize,
                                "the parts of an accepted PUBLISH do not add up                                      to its remaining length: topic {}, properties                                      {}, payload {}, claimed {claimed}",
                                publish.topic_name.len(),
                                publish.properties.len(),
                                publish.payload.len()
                            );

                            assert!(
                                claimed as usize <= body.len(),
                                "a claim of {claimed} over a {}-byte body was                                      accepted -- the over-claim guarantee is gone",
                                body.len()
                            );
                        }
                    }
                }
            }
        }
    }

    assert!(
        under_the_floor >= 100,
        "only {under_the_floor} shapes are under the floor"
    );
    assert!(accepted >= 100, "only {accepted} shapes are accepted");
}

#[test]
fn qos_three_is_refused_and_every_other_nibble_is_not() {
    let body = [0x00, 0x01, b'a', 0x00, b'h', b'i'];

    for nibble in 0..16u8 {
        let qos3 = (nibble & 0b0110) == 0b0110;
        let result = read(0x30 | nibble, &body);

        if qos3 {
            assert_eq!(
                result,
                Err(PublishError::BadResponse),
                "nibble {nibble:#x} claims QoS 3 and was accepted"
            );
        }
    }
}

#[test]
fn the_three_flags_are_read_separately() {
    let body = [0x00, 0x01, b'a', 0x00, b'h', b'i'];

    let plain = read(0x30, &body).unwrap();
    assert!(!plain.dup && !plain.retain && plain.qos == QoS::AtMostOnce);

    let retained = read(0x31, &body).unwrap();
    assert!(!retained.dup && retained.retain);

    let duplicate = read(0x38, &body).unwrap();
    assert!(duplicate.dup && !duplicate.retain);

    let both = read(0x39, &body).unwrap();
    assert!(both.dup && both.retain);
}

#[test]
fn two_protocol_errors_are_reproduced_rather_than_fixed() {
    let no_alias = read(0x30, &[0x00, 0x00, 0x00, b'p']).expect("an empty topic name");
    assert!(no_alias.topic_name.is_empty());
    assert_eq!(no_alias.payload, b"p");

    let zero_id = read(0x30, &[0x00, 0x01, b'a', 0x02, 0x0B, 0x00])
        .expect("a zero subscription identifier");
    assert_eq!(zero_id.properties, &[0x0B, 0x00]);

    assert_eq!(
        read(0x30, &[0x00, 0x01, b'a', 0x03, 0x0B, 0x80, 0x00]),
        Err(PublishError::BadResponse)
    );
}

#[test]
fn a_topic_alias_is_bounded_by_what_the_client_announced() {
    let body = |alias: u16| {
        let mut v = vec![0x00, 0x01, b'a', 0x03, 0x23];
        v.extend_from_slice(&alias.to_be_bytes());
        v
    };

    for alias in 1..=10u16 {
        assert!(read(0x30, &body(alias)).is_ok(), "alias {alias} refused");
    }

    assert_eq!(read(0x30, &body(11)), Err(PublishError::BadResponse));
    assert_eq!(read(0x30, &body(0)), Err(PublishError::BadResponse));

    assert_eq!(
        deserialize_publish(&info(0x30, &body(1)), 1024, 0),
        Err(PublishError::BadResponse)
    );
}

#[test]
fn properties_are_followed_by_the_payload_not_by_the_end() {
    let publish = read(0x30, &[0x00, 0x01, b'a', 0x02, 0x01, 0x01, b'h', b'i']).unwrap();

    assert_eq!(publish.properties, &[0x01, 0x01]);
    assert_eq!(publish.payload, b"hi");
}
