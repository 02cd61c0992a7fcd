use rusty_rtos_mqtt_core::state::QoS;
use rusty_rtos_mqtt_core::writer::{ConnectInfo, WillInfo, connect_flag, serialize_connect_fixed_header};

#[test]
fn the_two_will_qos_encodings_coincide() {
    assert_eq!(
        connect_flag::WILL_QOS2,
        connect_flag::WILL_QOS1 + 1,
        "the will-QoS bits are no longer adjacent, so a shifted-number \
         encoding is no longer equivalent to two flags"
    );

    for (qos, number) in [
        (QoS::AtMostOnce, 0u8),
        (QoS::AtLeastOnce, 1),
        (QoS::ExactlyOnce, 2),
    ] {
        let two_flags = match qos {
            QoS::AtLeastOnce => 1 << connect_flag::WILL_QOS1,
            QoS::ExactlyOnce => 1 << connect_flag::WILL_QOS2,
            QoS::AtMostOnce => 0,
        };
        let shifted = number << connect_flag::WILL_QOS1;

        assert_eq!(two_flags, shifted, "the two encodings differ at {qos:?}");
    }
}

#[test]
fn the_reserved_connect_bit_is_never_set() {
    for clean in [false, true] {
        for will in [
            None,
            Some(&WillInfo {
                qos: QoS::ExactlyOnce,
                retain: true,
            }),
        ] {
            let connect = ConnectInfo {
                clean_session: clean,
                keep_alive_seconds: 1,
                username: Some(b"u"),
                password: Some(b"p"),
            };
            let mut out = [0u8; 32];
            let n = serialize_connect_fixed_header(&mut out, &connect, will, 10);
            let flags = out[n - 3];

            assert_eq!(
                flags & 1,
                0,
                "the reserved bit is set in {flags:08b} -- a broker must \
                 reject this packet"
            );
        }
    }
}
