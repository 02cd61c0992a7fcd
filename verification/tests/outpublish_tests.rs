use rusty_rtos_mqtt_core::outpublish::{OutgoingError, OutgoingPublish, publish_packet_size, serialize_publish, serialize_publish_header, serialize_publish_header_without_topic, update_duplicate_flag};
use rusty_rtos_mqtt_core::state::QoS;

fn publish<'a>(qos: QoS, payload: &'a [u8]) -> OutgoingPublish<'a> {
    OutgoingPublish {
        qos,
        dup: false,
        retain: false,
        topic_name: b"a/b",
        payload,
        properties: &[],
    }
}

#[test]
fn the_three_serializers_are_prefixes_of_each_other() {
    let mut shapes = 0usize;

    for qos in [QoS::AtMostOnce, QoS::AtLeastOnce, QoS::ExactlyOnce] {
        for retain in [false, true] {
            for payload in [&b""[..], b"hello", b"a longer payload here"] {
                for properties in [&[][..], &[0x01, 0x01]] {
                    let packet_id = if qos == QoS::AtMostOnce { 0 } else { 42 };
                    let out = OutgoingPublish {
                        retain,
                        properties,
                        ..publish(qos, payload)
                    };

                    let size = publish_packet_size(&out, 1024).unwrap();

                    let mut long = [0xCCu8; 128];
                    let n_long =
                        serialize_publish(&mut long, &out, packet_id, size.remaining_length)
                            .unwrap();
                    assert_eq!(n_long as u32, size.packet_size);

                    let mut middle = [0xCCu8; 128];
                    let n_middle = serialize_publish_header(
                        &mut middle,
                        &out,
                        packet_id,
                        size.remaining_length,
                    )
                    .unwrap();

                    let mut short = [0xCCu8; 128];
                    let n_short = serialize_publish_header_without_topic(
                        &mut short,
                        &out,
                        size.remaining_length,
                    )
                    .unwrap();

                    assert!(n_short <= n_middle && n_middle <= n_long);
                    assert_eq!(
                        &short[..n_short],
                        &middle[..n_short],
                        "the short header is not a prefix of the middle one"
                    );
                    assert_eq!(
                        &middle[..n_middle],
                        &long[..n_middle],
                        "the middle header is not a prefix of the whole packet"
                    );

                    assert_eq!(n_middle + payload.len(), n_long);

                    shapes += 1;
                }
            }
        }
    }

    assert_eq!(shapes, 3 * 2 * 3 * 2);
}

#[test]
fn the_loose_serializer_refuses_what_the_strict_ones_do_not() {
    let out = publish(QoS::AtLeastOnce, b"hello");
    let size = publish_packet_size(&out, 1024).unwrap();
    let mut buffer = [0xCCu8; 64];

    assert_eq!(
        serialize_publish(&mut buffer, &out, 0, size.remaining_length),
        Err(OutgoingError::BadParameter)
    );
    assert_eq!(
        serialize_publish_header(&mut buffer, &out, 0, size.remaining_length),
        Err(OutgoingError::BadParameter)
    );
    assert!(
        serialize_publish_header_without_topic(&mut buffer, &out, size.remaining_length)
            .is_ok()
    );

    let empty = OutgoingPublish {
        topic_name: &[],
        ..publish(QoS::AtMostOnce, b"hello")
    };
    let size = publish_packet_size(&empty, 1024).unwrap();

    assert_eq!(
        serialize_publish(&mut buffer, &empty, 0, size.remaining_length),
        Err(OutgoingError::BadParameter)
    );
    assert!(
        serialize_publish_header_without_topic(&mut buffer, &empty, size.remaining_length)
            .is_ok()
    );
}

#[test]
fn the_two_directions_disagree_about_an_empty_topic() {
    let empty = OutgoingPublish {
        topic_name: &[],
        ..publish(QoS::AtMostOnce, b"p")
    };
    let size = publish_packet_size(&empty, 1024).unwrap();
    let mut buffer = [0xCCu8; 64];

    assert_eq!(
        serialize_publish(&mut buffer, &empty, 0, size.remaining_length),
        Err(OutgoingError::BadParameter),
        "the writing side now accepts an empty topic"
    );

    let incoming = rusty_rtos_mqtt_core::publish::deserialize_publish(
        &rusty_rtos_mqtt_core::ack::PacketInfo {
            packet_type: 0x30,
            remaining_length: 4,
            remaining_data: &[0x00, 0x00, 0x00, b'p'],
        },
        1024,
        10,
    );
    assert!(
        incoming.is_ok(),
        "the reading side now refuses an empty topic too, so the two halves \
         agree and this test is recording something that is no longer true"
    );
}

#[test]
fn the_duplicate_flag_patch_takes_only_publish_headers() {
    let (mut accepted, mut refused) = (0usize, 0usize);

    for value in 0..=255u8 {
        let mut header = value;

        if update_duplicate_flag(&mut header, true).is_ok() {
            accepted += 1;
            assert_eq!(
                header,
                value | 0x08,
                "the wrong bit was set on {value:#04x}"
            );
            assert_eq!(value & 0xF0, 0x30);
        } else {
            refused += 1;
            assert_eq!(header, value, "a refused header was modified");
        }
    }

    assert_eq!(accepted, 16);
    assert_eq!(refused, 240);

    for value in 0x30..=0x3Fu8 {
        let mut header = value;
        update_duplicate_flag(&mut header, false).unwrap();
        assert_eq!(header, value & !0x08);
    }
}
