use rusty_rtos_mqtt_core::ack::PacketInfo;
use rusty_rtos_mqtt_core::disconnect::{Disconnect, DisconnectError, deserialize_disconnect, disconnect_packet_size, reason_code_allowed, serialize_disconnect, validate_outgoing_properties};

fn read(body: &[u8]) -> Result<Disconnect<'_>, DisconnectError> {
    deserialize_disconnect(
        &PacketInfo {
            packet_type: 0xE0,
            remaining_length: u32::try_from(body.len()).unwrap(),
            remaining_data: body,
        },
        1024,
    )
}

#[test]
fn the_two_directions_have_different_tables_and_one_is_short() {
    const CLIENT: [u8; 14] = [
        0x00, 0x04, 0x80, 0x81, 0x82, 0x83, 0x90, 0x93, 0x94, 0x95, 0x96, 0x97, 0x98, 0x99,
    ];
    const SERVER: [u8; 29] = [
        0x00, 0x80, 0x81, 0x82, 0x83, 0x87, 0x89, 0x8B, 0x8C, 0x8D, 0x8E, 0x8F, 0x90, 0x93,
        0x94, 0x95, 0x96, 0x97, 0x98, 0x99, 0x9A, 0x9B, 0x9C, 0x9D, 0x9E, 0x9F, 0xA0, 0xA1,
        0xA2,
    ];

    for code in 0..=255u8 {
        assert_eq!(reason_code_allowed(code, false),
            CLIENT.contains(&code));

        let expected = SERVER.contains(&code) && code != 0x9F;
        assert_eq!(reason_code_allowed(code, true),
            expected);
    }

    assert!(!reason_code_allowed(0x9F, true));
}

#[test]
fn a_bare_disconnect_is_three_bytes_by_coincidence() {
    let size = disconnect_packet_size(None, 0, 1024).expect("a bare disconnect");
    assert_eq!(size.remaining_length, 1);
    assert_eq!(size.packet_size, 3);

    let mut out = [0xCCu8; 8];
    let written = serialize_disconnect(&mut out, None, &[], size.remaining_length).unwrap();

    assert_eq!(written, 3);
    assert_eq!(&out[..3], &[0xE0, 0x01, 0x00]);

    let read_back = read(&out[2..3]).expect("our own bare disconnect");
    assert_eq!(read_back.reason_code, Some(0x00));
    assert!(read_back.properties.is_empty());
}

#[test]
fn the_size_and_the_writer_agree() {
    let properties: [&[u8]; 3] = [&[], &[0x1F, 0x00, 0x01, b'x'], &[0x11, 0, 0, 0x0E, 0x10]];

    for reason in [None, Some(0x00), Some(0x80), Some(0x99)] {
        for props in properties {
            if reason.is_none() && !props.is_empty() {
                continue;
            }

            let length = u32::try_from(props.len()).unwrap();
            let Ok(size) = disconnect_packet_size(reason, length, 1024) else {
                continue;
            };

            let mut out = [0xCCu8; 64];
            let written =
                serialize_disconnect(&mut out, reason, props, size.remaining_length).unwrap();

            assert_eq!(
                written as u32, size.packet_size,
                "the calculator said {} bytes and the writer laid down {written}",
                size.packet_size
            );
        }
    }
}

#[test]
fn disconnect_the_buffer_check_is_the_slice_bounds_restated() {
    let cases: [(Option<u8>, &[u8]); 4] = [
        (None, &[]),
        (Some(0x00), &[]),
        (Some(0x80), &[0x1F, 0x00, 0x01, b'x']),
        (Some(0x00), &[0x26, 0x00, 0x01, b'k', 0x00, 0x01, b'v']),
    ];

    let mut refused = 0usize;
    let mut accepted = 0usize;

    for (reason, props) in cases {
        let length = u32::try_from(props.len()).unwrap();
        let size = disconnect_packet_size(reason, length, 1024).unwrap();

        for buffer_size in 0..(size.packet_size as usize + 3) {
            let mut out = vec![0xCCu8; buffer_size];
            let result = serialize_disconnect(&mut out, reason, props, size.remaining_length);

            if buffer_size < size.packet_size as usize {
                refused += 1;
                assert_eq!(
                    result,
                    Err(DisconnectError::NoMemory),
                    "a {buffer_size}-byte buffer took a {}-byte packet",
                    size.packet_size
                );
            } else {
                accepted += 1;
                assert_eq!(
                    result,
                    Ok(size.packet_size as usize),
                    "a {buffer_size}-byte buffer refused a {}-byte packet",
                    size.packet_size
                );

                assert!(
                    out[size.packet_size as usize..].iter().all(|&b| b == 0xCC),
                    "a byte past the reported packet size was written"
                );
            }
        }
    }

    assert!(refused >= 10, "only {refused} buffers are too small");
    assert!(accepted >= 8, "only {accepted} buffers are big enough");
}

#[test]
fn a_body_less_disconnect_is_read_but_never_written() {
    let empty = read(&[]).expect("an empty disconnect");
    assert_eq!(empty.reason_code, None);
    assert!(empty.properties.is_empty());

    for reason in [None, Some(0x00)] {
        let size = disconnect_packet_size(reason, 0, 1024).unwrap();
        assert!(size.remaining_length >= 1);
    }
}

#[test]
fn each_direction_refuses_the_other_direction_s_property() {
    let incoming = read(&[0x00, 0x06, 0x1C, 0x00, 0x03, b'a', b'.', b'b']);
    assert!(incoming.is_ok());

    assert_eq!(
        validate_outgoing_properties(3600, &[0x1C, 0x00, 0x03, b'a', b'.', b'b']),
        Err(DisconnectError::BadParameter)
    );

    assert!(validate_outgoing_properties(3600, &[0x11, 0x00, 0x00, 0x0E, 0x10]).is_ok());

    assert_eq!(
        read(&[0x00, 0x06, 0x11, 0x00, 0x00, 0x0E, 0x10]),
        Err(DisconnectError::BadResponse)
    );
}
