use rusty_rtos_mqtt_core::outpublish::OutgoingPublish;
use rusty_rtos_mqtt_core::state::QoS;
use rusty_rtos_mqtt_core::validate::{ConnectValidation, ValidateError, validate_connect_properties, validate_publish_ack_properties, validate_publish_params, validate_publish_properties, validate_subscribe_properties, validate_unsubscribe_properties, validate_will_properties};

fn the_reader_accepts(section: &[u8]) -> bool {
    let mut body = vec![0x00, 0x01, b'a', u8::try_from(section.len()).unwrap()];
    body.extend_from_slice(section);

    let packet = rusty_rtos_mqtt_core::ack::PacketInfo {
        packet_type: 0x30,
        remaining_length: u32::try_from(body.len()).unwrap(),
        remaining_data: &body,
    };

    rusty_rtos_mqtt_core::publish::deserialize_publish(&packet, 1024, 10).is_ok()
}

fn publish(section: &[u8]) -> Result<Option<u16>, ValidateError> {
    let mut alias = None;
    validate_publish_properties(10, section, &mut alias)?;
    Ok(alias)
}

#[test]
fn the_publish_validator_is_laxer_than_the_publish_reader() {
    assert_eq!(publish(&[0x23, 0x00, 0x00]), Ok(Some(0)));
    assert!(
        !the_reader_accepts(&[0x23, 0x00, 0x00]),
        "the reader now accepts a zero Topic Alias too"
    );

    assert_eq!(publish(&[0x01, 0x02]), Ok(None));
    assert!(
        !the_reader_accepts(&[0x01, 0x02]),
        "the reader now accepts a Payload Format above 1 too"
    );

    assert_eq!(publish(&[0x01, 0x01, 0x01, 0x00]), Ok(None));
    assert_eq!(
        publish(&[0x03, 0x00, 0x01, b't', 0x03, 0x00, 0x01, b't']),
        Ok(None)
    );
    assert_eq!(
        publish(&[0x23, 0x00, 0x05, 0x23, 0x00, 0x06]),
        Err(ValidateError::BadResponse),
        "the Topic Alias is the one property this table deduplicates"
    );

    assert_eq!(
        validate_will_properties(&[0x01, 0x02]),
        Err(ValidateError::BadResponse)
    );
    assert_eq!(
        validate_will_properties(&[0x01, 0x01, 0x01, 0x00]),
        Err(ValidateError::BadResponse)
    );
    assert_eq!(
        validate_publish_ack_properties(&[0x1F, 0x00, 0x01, b'x', 0x1F, 0x00, 0x01, b'x']),
        Err(ValidateError::BadResponse)
    );
}

#[test]
fn a_zero_subscription_id_is_refused_going_out_and_accepted_coming_in() {
    assert_eq!(
        validate_subscribe_properties(true, &[0x0B, 0x00]),
        Err(ValidateError::BadParameter)
    );
    assert!(
        the_reader_accepts(&[0x0B, 0x00]),
        "the reader now refuses a zero subscription identifier too"
    );
}

#[test]
fn authentication_data_needs_a_method_in_either_order() {
    let mut found = ConnectValidation::default();

    assert_eq!(
        validate_connect_properties(&[0x16, 0x00, 0x01, b'd'], &mut found),
        Err(ValidateError::BadParameter)
    );

    assert!(
        validate_connect_properties(
            &[0x15, 0x00, 0x01, b'x', 0x16, 0x00, 0x01, b'd'],
            &mut found
        )
        .is_ok()
    );
    assert!(
        validate_connect_properties(
            &[0x16, 0x00, 0x01, b'd', 0x15, 0x00, 0x01, b'x'],
            &mut found
        )
        .is_ok()
    );
}

#[test]
fn what_the_connect_validator_leaves_behind() {
    let mut found = ConnectValidation {
        request_problem_info: true,
        max_packet_size: Some(7),
    };

    assert!(validate_connect_properties(&[], &mut found).is_ok());
    assert!(!found.request_problem_info);
    assert_eq!(found.max_packet_size, Some(7));

    let mut found = ConnectValidation::default();
    assert!(validate_connect_properties(&[0x17, 0x01], &mut found).is_ok());
    assert!(found.request_problem_info, "0x17 0x01 means true");
    assert_eq!(found.max_packet_size, None);

    let mut found = ConnectValidation::default();
    assert_eq!(
        validate_connect_properties(&[0x27, 0x00, 0x01, 0x00, 0x00, 0xFE], &mut found),
        Err(ValidateError::BadResponse)
    );
    assert_eq!(found.max_packet_size, Some(65_536));
}

#[test]
fn the_topic_alias_is_written_before_it_is_checked() {
    let mut alias = None;

    assert_eq!(
        validate_publish_properties(10, &[0x23, 0x00, 0x0B], &mut alias),
        Err(ValidateError::BadParameter)
    );
    assert_eq!(alias, Some(11), "the refused value is left behind");

    let mut alias = None;
    assert!(validate_publish_properties(10, &[0x23, 0x00, 0x0A], &mut alias).is_ok());
    assert_eq!(alias, Some(10));
}

#[test]
fn a_tables_own_refusals_and_its_decoders_are_different_statuses() {
    assert_eq!(
        validate_subscribe_properties(true, &[0x0B, 0xFF]),
        Err(ValidateError::BadResponse),
        "a malformed identifier is the DECODER's refusal"
    );
    assert_eq!(
        validate_subscribe_properties(false, &[0x0B, 0x07]),
        Err(ValidateError::BadParameter),
        "an unwelcome identifier is the TABLE's refusal"
    );
    assert_eq!(
        validate_publish_ack_properties(&[0x1F, 0x00, 0x09, b'x']),
        Err(ValidateError::BadResponse)
    );
    assert_eq!(
        validate_publish_ack_properties(&[0x11, 0x00, 0x00, 0x0E, 0x10]),
        Err(ValidateError::BadParameter)
    );
}

#[test]
fn a_qos_above_the_maximum_is_only_refused_at_zero() {
    let publish = |qos| OutgoingPublish {
        qos,
        dup: false,
        retain: false,
        topic_name: b"a",
        payload: b"",
        properties: b"",
    };

    for qos in [QoS::AtLeastOnce, QoS::ExactlyOnce] {
        assert_eq!(
            validate_publish_params(&publish(qos), 1, 0, 0, 1024),
            Err(ValidateError::BadParameter)
        );
    }

    assert_eq!(
        validate_publish_params(&publish(QoS::ExactlyOnce), 1, 1, 0, 1024),
        Ok(()),
        "the library now refuses a QoS above the announced maximum"
    );
}

#[test]
fn an_empty_topic_needs_an_alias_going_out_and_not_coming_in() {
    let empty = OutgoingPublish {
        qos: QoS::AtMostOnce,
        dup: false,
        retain: false,
        topic_name: b"",
        payload: b"",
        properties: b"",
    };

    assert_eq!(
        validate_publish_params(&empty, 1, 2, 0, 1024),
        Err(ValidateError::BadParameter)
    );
    assert_eq!(
        validate_publish_params(&empty, 1, 2, 1, 1024),
        Ok(()),
        "an alias makes the empty topic name legal"
    );

    let mut body = vec![0x00, 0x00, 0x00, 0x70];
    let packet = rusty_rtos_mqtt_core::ack::PacketInfo {
        packet_type: 0x30,
        remaining_length: u32::try_from(body.len()).unwrap(),
        remaining_data: &mut body,
    };
    assert!(
        rusty_rtos_mqtt_core::publish::deserialize_publish(&packet, 1024, 10).is_ok(),
        "the reader now refuses an empty topic name with no alias"
    );
}

#[test]
fn unsubscribe_takes_one_property_and_no_other() {
    assert!(validate_unsubscribe_properties(&[]).is_ok());
    assert!(
        validate_unsubscribe_properties(&[0x26, 0x00, 0x01, b'k', 0x00, 0x01, b'v']).is_ok()
    );

    assert_eq!(
        validate_unsubscribe_properties(&[0x1F, 0x00, 0x01, b'x']),
        Err(ValidateError::BadParameter)
    );
    assert!(validate_publish_ack_properties(&[0x1F, 0x00, 0x01, b'x']).is_ok());
}
