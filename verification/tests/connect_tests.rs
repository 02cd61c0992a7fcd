use rusty_rtos_mqtt_core::connect::{CONNECT_HEADER_SIZE, Connect, ConnectError, PROTOCOL_PREAMBLE, Will, connect_packet_size, serialize_connect, within_remaining_length};
use rusty_rtos_mqtt_core::header::MAX_REMAINING_LENGTH;
use rusty_rtos_mqtt_core::state::QoS;
use rusty_rtos_mqtt_core::writer::{ConnectInfo, WillInfo};

fn plain<'a>(client_identifier: &'a [u8]) -> Connect<'a> {
    Connect {
        info: ConnectInfo {
            clean_session: true,
            keep_alive_seconds: 60,
            username: None,
            password: None,
        },
        client_identifier,
        properties: &[],
        will: None,
    }
}

#[test]
fn a_client_id_may_not_begin_with_nul() {
    assert_eq!(
        connect_packet_size(&plain(&[0x00, b'b', b'c'])),
        Err(ConnectError::BadParameter)
    );

    assert!(connect_packet_size(&plain(&[b'a', 0x00, b'c'])).is_ok());
    assert!(connect_packet_size(&plain(&[b'a', b'b', 0x00])).is_ok());

    assert!(connect_packet_size(&plain(&[])).is_ok());
}

#[test]
fn the_remaining_length_limit_is_an_exact_boundary() {
    let overhead = CONNECT_HEADER_SIZE + 1 + 2 + 2;
    assert_eq!(overhead, 15);

    assert!(within_remaining_length(MAX_REMAINING_LENGTH));
    assert!(!within_remaining_length(MAX_REMAINING_LENGTH + 1));
    assert!(within_remaining_length(MAX_REMAINING_LENGTH - 1));

    assert_eq!(
        rusty_rtos_mqtt_core::disconnect::disconnect_packet_size(Some(0x00), MAX_REMAINING_LENGTH, u32::MAX),
        Err(rusty_rtos_mqtt_core::disconnect::DisconnectError::BadParameter),
        "the DISCONNECT calculator now accepts a property length the \
         CONNECT's would too -- the two used to disagree, and one of them \
         has changed"
    );
}

#[test]
fn connect_the_buffer_check_is_the_slice_bounds_restated() {
    let connect = Connect {
        info: ConnectInfo {
            clean_session: true,
            keep_alive_seconds: 60,
            username: Some(b"u"),
            password: Some(b"pw"),
        },
        client_identifier: b"id",
        properties: &[0x11, 0, 0, 0, 1],
        will: Some(Will {
            info: WillInfo {
                qos: QoS::AtLeastOnce,
                retain: true,
            },
            topic_name: b"w/t",
            payload: b"bye",
            properties: &[],
        }),
    };

    let size = connect_packet_size(&connect).unwrap();
    let (mut refused, mut accepted) = (0usize, 0usize);

    for buffer_size in 0..(size.packet_size as usize + 3) {
        let mut out = vec![0xCCu8; buffer_size];
        let result = serialize_connect(&mut out, &connect, size.remaining_length);

        if buffer_size < size.packet_size as usize {
            refused += 1;
            assert_eq!(
                result,
                Err(ConnectError::NoMemory),
                "a {buffer_size}-byte buffer took a {}-byte packet",
                size.packet_size
            );
        } else {
            accepted += 1;
            assert_eq!(result, Ok(size.packet_size as usize));
            assert!(
                out[size.packet_size as usize..].iter().all(|&b| b == 0xCC),
                "a byte past the reported packet size was written"
            );
        }
    }

    assert!(refused >= 20, "only {refused} buffers are too small");
    assert!(accepted >= 3, "only {accepted} buffers are big enough");
}

#[test]
fn the_size_and_the_serializer_agree() {
    let sections: [&[u8]; 3] = [&[], &[0x11, 0, 0, 0, 1], &[0x21, 0x00, 0x14]];
    let optional: [Option<&[u8]>; 3] = [None, Some(&[]), Some(b"user")];

    let mut shapes = 0usize;

    for username in optional {
        for password in optional {
            for properties in sections {
                for will_properties in sections {
                    for will_qos in [None, Some(QoS::AtMostOnce), Some(QoS::ExactlyOnce)] {
                        let will = will_qos.map(|qos| Will {
                            info: WillInfo { qos, retain: true },
                            topic_name: b"w/t",
                            payload: b"bye",
                            properties: will_properties,
                        });

                        let connect = Connect {
                            info: ConnectInfo {
                                clean_session: true,
                                keep_alive_seconds: 60,
                                username,
                                password,
                            },
                            client_identifier: b"id",
                            properties,
                            will,
                        };

                        let size = connect_packet_size(&connect).expect("a small connect");
                        let mut out = vec![0xCCu8; size.packet_size as usize + 4];
                        let written =
                            serialize_connect(&mut out, &connect, size.remaining_length)
                                .expect("room");

                        assert_eq!(
                            written as u32, size.packet_size,
                            "the calculator said {} bytes and the serializer laid down \
                             {written}",
                            size.packet_size
                        );

                        assert!(
                            out[written..].iter().all(|&b| b == 0xCC),
                            "a byte past the packet was written"
                        );

                        assert_eq!(&out[2..9], &PROTOCOL_PREAMBLE);

                        shapes += 1;
                    }
                }
            }
        }
    }

    assert_eq!(shapes, 3 * 3 * 3 * 3 * 3, "the shape space shrank");
}

#[test]
fn the_flags_byte_and_the_payload_agree() {
    for username in [None, Some(&b"u"[..])] {
        for password in [None, Some(&b"pw"[..])] {
            for will in [None, Some(QoS::AtLeastOnce)] {
                let connect = Connect {
                    info: ConnectInfo {
                        clean_session: true,
                        keep_alive_seconds: 60,
                        username,
                        password,
                    },
                    client_identifier: b"id",
                    properties: &[],
                    will: will.map(|qos| Will {
                        info: WillInfo { qos, retain: false },
                        topic_name: b"w/t",
                        payload: b"bye",
                        properties: &[],
                    }),
                };

                let size = connect_packet_size(&connect).unwrap();
                let mut out = vec![0xCCu8; 64];
                serialize_connect(&mut out, &connect, size.remaining_length).unwrap();

                let flags = out[9];

                assert_eq!(
                    flags & 0x80 != 0,
                    username.is_some(),
                    "the user name bit disagrees with the payload"
                );
                assert_eq!(
                    flags & 0x40 != 0,
                    password.is_some(),
                    "the password bit disagrees with the payload"
                );
                assert_eq!(
                    flags & 0x04 != 0,
                    will.is_some(),
                    "the will bit disagrees with the payload"
                );

                let expected = 10
                    + 1
                    + 4
                    + username.map_or(0, |u| u.len() + 2)
                    + password.map_or(0, |p| p.len() + 2)
                    + will.map_or(0, |_| 1 + 5 + 5);

                assert_eq!(size.remaining_length as usize, expected);
            }
        }
    }
}
