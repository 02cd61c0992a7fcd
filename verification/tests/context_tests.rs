use rusty_rtos_mqtt_core::context::{ConnectionProperties, ContextError, MAX_PACKET_SIZE, update_with_connect_props};
use rusty_rtos_mqtt_core::header::REMAINING_LENGTH_INVALID;
use rusty_rtos_mqtt_core::validate::{ConnectValidation, ValidateError, validate_connect_properties};

#[test]
fn the_context_filler_stores_what_the_validator_refuses() {
    for (name, section) in [
        ("a zero Receive Maximum", &[0x21, 0x00, 0x00][..]),
        (
            "a zero Maximum Packet Size",
            &[0x27, 0x00, 0x00, 0x00, 0x00][..],
        ),
        ("Request Problem Information of 2", &[0x17, 0x02][..]),
        (
            "authentication data with no method",
            &[0x16, 0x00, 0x01, b'd'][..],
        ),
    ] {
        let mut found = ConnectValidation::default();
        assert!(
            validate_connect_properties(section, &mut found).is_err(),
            "the validator now accepts {name}"
        );

        let mut context = ConnectionProperties::new();
        assert_eq!(
            update_with_connect_props(section, &mut context),
            Ok(()),
            "the context filler now refuses {name} too"
        );
    }

    let mut context = ConnectionProperties::new();
    update_with_connect_props(&[0x21, 0x00, 0x00], &mut context).unwrap();
    assert_eq!(context.client.receive_max, 0);

    let mut context = ConnectionProperties::new();
    update_with_connect_props(&[0x27, 0x00, 0x00, 0x00, 0x00], &mut context).unwrap();
    assert_eq!(
        context.client.max_packet_size, 0,
        "a zero here refuses every packet this client could send"
    );
}

#[test]
fn four_of_the_nine_are_deduplicated_and_five_are_not() {
    let mut context = ConnectionProperties::new();

    for repeated in [
        &[0x11, 0, 0, 0x0E, 0x10, 0x11, 0, 0, 0x0E, 0x10][..],
        &[0x21, 0x00, 0x14, 0x21, 0x00, 0x15][..],
    ] {
        assert_eq!(
            update_with_connect_props(repeated, &mut context),
            Err(ContextError::BadResponse)
        );
    }

    for repeated in [
        &[0x17, 0x00, 0x17, 0x01][..],
        &[0x19, 0x00, 0x19, 0x01][..],
        &[0x15, 0x00, 0x01, b'x', 0x15, 0x00, 0x01, b'y'][..],
    ] {
        assert_eq!(
            update_with_connect_props(repeated, &mut context),
            Ok(()),
            "this one is guarded now"
        );
    }
}

#[test]
fn a_fresh_context_is_a_legal_session_not_an_empty_one() {
    let fresh = ConnectionProperties::new();

    assert_eq!(fresh, ConnectionProperties::default());
    assert_eq!(fresh.client.receive_max, 65_535);
    assert_eq!(fresh.client.max_packet_size, MAX_PACKET_SIZE);
    assert!(fresh.client.request_problem_info, "MQTT's default is true");
    assert_eq!(fresh.server.max_qos, 2, "an absent Maximum QoS means 2");
    assert_eq!(fresh.server.retain_available, 1);
    assert_eq!(fresh.server.keep_alive, 65_535);
    assert_eq!(fresh.session_expiry, 0);

    assert_eq!(MAX_PACKET_SIZE, REMAINING_LENGTH_INVALID + 4);
}

#[test]
fn a_foreign_identifier_gets_a_different_status_from_each_walk() {
    let will_delay = &[0x18, 0x00, 0x00, 0x00, 0x0A];

    let mut context = ConnectionProperties::new();
    assert_eq!(
        update_with_connect_props(will_delay, &mut context),
        Err(ContextError::BadParameter)
    );

    let mut found = ConnectValidation::default();
    assert_eq!(
        validate_connect_properties(will_delay, &mut found),
        Err(ValidateError::BadResponse)
    );
}
