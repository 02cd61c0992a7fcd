use rusty_rtos_mqtt_core::topic::{TopicError, match_filter, packet_type_name, status_name};

#[test]
fn a_trailing_plus_loses_the_empty_last_level_after_an_earlier_plus() {
    assert_eq!(rusty_rtos_mqtt_core::topic::matches(b"sport/", b"sport/+"), Ok(true));
    assert_eq!(rusty_rtos_mqtt_core::topic::matches(b"a/", b"a/+"), Ok(true));

    assert_eq!(
        rusty_rtos_mqtt_core::topic::matches(b"a/", b"+/+"),
        Ok(false),
        "the matcher now handles an empty last level after a wildcard"
    );
    assert_eq!(rusty_rtos_mqtt_core::topic::matches(b"/", b"+/+"), Ok(false));
    assert_eq!(rusty_rtos_mqtt_core::topic::matches(b"//", b"+/+/+"), Ok(false));
    assert_eq!(rusty_rtos_mqtt_core::topic::matches(b"a//", b"a/+/+"), Ok(false));

    assert_eq!(rusty_rtos_mqtt_core::topic::matches(b"/a", b"+/+"), Ok(true));
    assert_eq!(rusty_rtos_mqtt_core::topic::matches(b"a/b", b"+/+"), Ok(true));
    assert_eq!(rusty_rtos_mqtt_core::topic::matches(b"/finance", b"+/+"), Ok(true));
}

#[test]
fn the_exact_match_shortcut_never_changes_an_answer() {
    let alphabet = *b"a/+#$";
    let mut checked = 0usize;

    for length in 1..=4usize {
        let total = alphabet.len().pow(length as u32);

        for i in 0..total {
            let mut value = i;
            let mut word = vec![0u8; length];

            for position in 0..length {
                word[length - 1 - position] = alphabet[value % alphabet.len()];
                value /= alphabet.len();
            }

            assert_eq!(
                rusty_rtos_mqtt_core::topic::matches(&word, &word),
                Ok(true),
                "{:?} does not match itself",
                String::from_utf8_lossy(&word)
            );

            assert!(
                match_filter(&word, &word),
                "{:?} needs the shortcut to match itself",
                String::from_utf8_lossy(&word)
            );

            checked += 1;
        }
    }

    assert_eq!(checked, 5 + 25 + 125 + 625);
}

#[test]
fn a_dollar_topic_hides_from_a_leading_wildcard() {
    assert_eq!(rusty_rtos_mqtt_core::topic::matches(b"$SYS/broker", b"#"), Ok(false));
    assert_eq!(rusty_rtos_mqtt_core::topic::matches(b"$SYS/broker", b"+/broker"), Ok(false));

    assert_eq!(rusty_rtos_mqtt_core::topic::matches(b"$SYS/broker", b"$SYS/#"), Ok(true));
    assert_eq!(rusty_rtos_mqtt_core::topic::matches(b"$SYS/broker", b"$SYS/+"), Ok(true));

    assert_eq!(rusty_rtos_mqtt_core::topic::matches(b"a$b", b"#"), Ok(true));
}

#[test]
fn a_wildcard_out_of_position_is_an_ordinary_character() {
    assert_eq!(rusty_rtos_mqtt_core::topic::matches(b"sport+", b"sport+"), Ok(true));
    assert_eq!(rusty_rtos_mqtt_core::topic::matches(b"sportx", b"sport+"), Ok(false));
    assert_eq!(rusty_rtos_mqtt_core::topic::matches(b"sport#", b"sport#"), Ok(true));
    assert_eq!(rusty_rtos_mqtt_core::topic::matches(b"sportx", b"sport#"), Ok(false));
    assert_eq!(rusty_rtos_mqtt_core::topic::matches(b"a/b", b"a+/b"), Ok(false));
    assert_eq!(rusty_rtos_mqtt_core::topic::matches(b"a/b", b"+a/b"), Ok(false));

    assert_eq!(rusty_rtos_mqtt_core::topic::matches(b"a/b", b"#/b"), Ok(false));
    assert_eq!(rusty_rtos_mqtt_core::topic::matches(b"a/b", b"a/#/b"), Ok(false));
}

#[test]
fn an_empty_side_is_refused_rather_than_unmatched() {
    assert_eq!(rusty_rtos_mqtt_core::topic::matches(b"", b"a"), Err(TopicError::BadParameter));
    assert_eq!(rusty_rtos_mqtt_core::topic::matches(b"a", b""), Err(TopicError::BadParameter));
    assert_eq!(rusty_rtos_mqtt_core::topic::matches(b"", b""), Err(TopicError::BadParameter));

    let huge = vec![b'a'; 65_536];
    assert_eq!(rusty_rtos_mqtt_core::topic::matches(&huge, b"a"), Err(TopicError::BadParameter));
    assert_eq!(rusty_rtos_mqtt_core::topic::matches(b"a", &huge), Err(TopicError::BadParameter));

    let big = vec![b'a'; 65_535];
    assert_eq!(rusty_rtos_mqtt_core::topic::matches(&big, b"#"), Ok(true));
}

#[test]
fn the_status_table_has_a_hole_where_end_of_properties_should_be() {
    assert_eq!(status_name(11), "MQTTNeedMoreBytes");
    assert_eq!(status_name(12),
        "Invalid MQTT Status code");
    assert_eq!(status_name(13), "MQTTStatusConnected");
    assert_eq!(status_name(17), "MQTTPublishRetrieveFailed");
    assert_eq!(status_name(18), "Invalid MQTT Status code");
}

#[test]
fn publish_is_named_by_its_nibble_and_the_rest_by_their_whole_byte() {
    for flags in 0..=0x0Fu8 {
        assert_eq!(
            packet_type_name(0x30 | flags),
            "PUBLISH",
            "a PUBLISH with flags {flags:#x} lost its name"
        );
    }

    assert_eq!(packet_type_name(0x60), "UNKNOWN");
    assert_eq!(packet_type_name(0x62), "PUBREL");
    assert_eq!(packet_type_name(0x80), "UNKNOWN");
    assert_eq!(packet_type_name(0x82), "SUBSCRIBE");
    assert_eq!(packet_type_name(0xA0), "UNKNOWN");
    assert_eq!(packet_type_name(0xA2), "UNSUBSCRIBE");

    assert!(!rusty_rtos_mqtt_core::header::incoming_packet_valid(0x60));
    assert!(rusty_rtos_mqtt_core::header::incoming_packet_valid(0x62));
}
