use rusty_rtos_mqtt_core::connack::property as server;
use rusty_rtos_mqtt_core::builder::PropertyBuilder;
use rusty_rtos_mqtt_core::cursor::{CursorError, PropertyCursor, width_of};
use rusty_rtos_mqtt_core::validate::id as client;

#[test]
fn no_budget_error_can_read_past_the_section() {
    let full = [
        client::SESSION_EXPIRY,
        0x00,
        0x00,
        0x0E,
        0x10,
        client::REASON_STRING,
        0x00,
        0x02,
        b'h',
        b'i',
        client::USER_PROPERTY,
        0x00,
        0x01,
        b'k',
        0x00,
        0x01,
        b'v',
        client::SUBSCRIPTION_ID,
        0x81,
        0x01,
        server::MAX_QOS,
        0x01,
    ];

    for cut in 0..=full.len() {
        let section = &full[..cut];

        for start in 0..=full.len() {
            let mut cursor = PropertyCursor::new(section);
            cursor.seek(start);

            for _ in 0..4 {
                let before = cursor.position();

                let outcomes = [
                    cursor.clone().session_expiry().map(|_| ()),
                    cursor.clone().reason_string().map(|_| ()),
                    cursor.clone().user_property().map(|_| ()),
                    cursor.clone().subscription_id().map(|_| ()),
                    cursor.clone().max_qos().map(|_| ()),
                    cursor.next_type().map(|_| ()),
                ];

                for outcome in outcomes {
                    let _ = outcome;
                }

                assert_eq!(
                    cursor.position(),
                    before,
                    "a peek or a clone moved the cursor"
                );

                let stepped = cursor.skip();

                assert!(
                    cursor.position() <= section.len().max(start),
                    "the cursor reached {} in a {}-byte section",
                    cursor.position(),
                    section.len()
                );

                if stepped.is_err() {
                    assert_eq!(cursor.position(), before, "a refused skip moved the cursor");
                    break;
                }

                assert!(
                    cursor.position() > before,
                    "a successful skip did not advance"
                );
            }
        }
    }
}

#[test]
fn the_two_tables_accept_the_same_alphabet() {
    let mut known = 0usize;

    for id in 0..=255u8 {
        let section = [id, 0x00, 0x02, b'a', b'b', 0x00, 0x02, b'c', b'd'];
        let cursor = PropertyCursor::new(&section);
        let mut skipper = PropertyCursor::new(&section);

        let accepted = cursor.next_type().is_ok();
        let skippable = skipper.skip().is_ok();

        assert_eq!(
            accepted, skippable,
            "the two tables disagree about {id:#04x}"
        );
        assert_eq!(accepted, width_of(id).is_some());

        if accepted {
            known += 1;
        }
    }

    assert_eq!(known, 27, "MQTT 5 defines 27 property identifiers");
}

#[test]
fn every_getter_accepts_exactly_one_identifier() {
    for id in 0..=255u8 {
        let section = [id, 0x00, 0x02, b'a', b'b', 0x00, 0x02, b'c', b'd'];

        let mut hits = 0usize;
        let mut cursor = PropertyCursor::new(&section);

        cursor.seek(0);
        if cursor.session_expiry().is_ok() {
            hits += 1;
        }
        cursor.seek(0);
        if cursor.receive_max().is_ok() {
            hits += 1;
        }
        cursor.seek(0);
        if cursor.max_qos().is_ok() {
            hits += 1;
        }
        cursor.seek(0);
        if cursor.retain_available().is_ok() {
            hits += 1;
        }
        cursor.seek(0);
        if cursor.max_packet_size().is_ok() {
            hits += 1;
        }
        cursor.seek(0);
        if cursor.assigned_client_id().is_ok() {
            hits += 1;
        }
        cursor.seek(0);
        if cursor.topic_alias_max().is_ok() {
            hits += 1;
        }
        cursor.seek(0);
        if cursor.reason_string().is_ok() {
            hits += 1;
        }
        cursor.seek(0);
        if cursor.wildcard_available().is_ok() {
            hits += 1;
        }
        cursor.seek(0);
        if cursor.subscription_id_available().is_ok() {
            hits += 1;
        }
        cursor.seek(0);
        if cursor.shared_sub_available().is_ok() {
            hits += 1;
        }
        cursor.seek(0);
        if cursor.server_keep_alive().is_ok() {
            hits += 1;
        }
        cursor.seek(0);
        if cursor.response_info().is_ok() {
            hits += 1;
        }
        cursor.seek(0);
        if cursor.server_reference().is_ok() {
            hits += 1;
        }
        cursor.seek(0);
        if cursor.auth_method().is_ok() {
            hits += 1;
        }
        cursor.seek(0);
        if cursor.auth_data().is_ok() {
            hits += 1;
        }
        cursor.seek(0);
        if cursor.payload_format().is_ok() {
            hits += 1;
        }
        cursor.seek(0);
        if cursor.message_expiry().is_ok() {
            hits += 1;
        }
        cursor.seek(0);
        if cursor.topic_alias().is_ok() {
            hits += 1;
        }
        cursor.seek(0);
        if cursor.response_topic().is_ok() {
            hits += 1;
        }
        cursor.seek(0);
        if cursor.correlation_data().is_ok() {
            hits += 1;
        }
        cursor.seek(0);
        if cursor.content_type().is_ok() {
            hits += 1;
        }

        cursor.seek(0);
        if cursor.user_property().is_ok() {
            hits += 1;
        }

        cursor.seek(0);
        if cursor.subscription_id().is_ok() {
            hits += 1;
        }

        assert!(
            hits <= 1,
            "{hits} getters accept {id:#04x}, so two are wired to one constant"
        );
    }
}

#[test]
fn what_the_builder_writes_the_cursor_reads_back() {

    let mut bytes = [0u8; 64];
    let mut builder = PropertyBuilder::new(&mut bytes).unwrap();

    builder.session_expiry(3600, None).unwrap();
    builder.receive_max(20, None).unwrap();
    builder.reason_string(b"hi", None).unwrap();
    builder.user_property(b"k", b"v", None).unwrap();
    builder.subscription_id(300, None).unwrap();

    let section = builder.section().to_vec();
    let mut cursor = PropertyCursor::new(&section);

    assert_eq!(cursor.session_expiry(), Ok(3600));
    assert_eq!(cursor.receive_max(), Ok(20));
    assert_eq!(cursor.reason_string(), Ok(&b"hi"[..]));
    assert_eq!(cursor.user_property(), Ok((&b"k"[..], &b"v"[..])));
    assert_eq!(cursor.subscription_id(), Ok(300));

    assert!(cursor.is_empty(), "the walk should end exactly at the end");
    assert_eq!(cursor.next_type(), Err(CursorError::EndOfProperties));
}

#[test]
fn a_skip_lands_on_the_next_identifier_whatever_the_width() {

    let mut bytes = [0u8; 96];
    let mut builder = PropertyBuilder::new(&mut bytes).unwrap();

    builder.payload_format(true, None).unwrap();
    builder.topic_alias(7, None).unwrap();
    builder.session_expiry(30, None).unwrap();
    builder.content_type(b"text", None).unwrap();
    builder.user_property(b"k", b"v", None).unwrap();
    builder.subscription_id(300, None).unwrap();
    builder.reason_string(b"end", None).unwrap();

    let section = builder.section().to_vec();
    let mut cursor = PropertyCursor::new(&section);

    for _ in 0..6 {
        assert!(cursor.next_type().is_ok());
        assert_eq!(cursor.skip(), Ok(()));
    }

    assert_eq!(cursor.reason_string(), Ok(&b"end"[..]));
    assert!(cursor.is_empty());
}

#[test]
fn running_out_is_its_own_answer() {
    let section = [server::MAX_QOS, 0x01];
    let mut cursor = PropertyCursor::new(&section);

    assert_eq!(cursor.max_qos(), Ok(1));
    assert_eq!(cursor.max_qos(), Err(CursorError::EndOfProperties));
    assert_eq!(cursor.skip(), Err(CursorError::EndOfProperties));
    assert_eq!(cursor.next_type(), Err(CursorError::EndOfProperties));

    cursor.seek(99);
    assert_eq!(cursor.max_qos(), Err(CursorError::EndOfProperties));
    assert_eq!(cursor.position(), 99, "a refusal must not move the cursor");
}

#[test]
fn a_refusal_does_not_move_the_cursor() {
    let section = [client::RECEIVE_MAX, 0x00, 0x14];
    let mut cursor = PropertyCursor::new(&section);

    assert_eq!(cursor.session_expiry(), Err(CursorError::BadParameter));
    assert_eq!(cursor.position(), 0);

    let truncated = [client::SESSION_EXPIRY, 0x00, 0x00];
    let mut cursor = PropertyCursor::new(&truncated);

    assert_eq!(cursor.session_expiry(), Err(CursorError::BadResponse));
    assert_eq!(cursor.position(), 0);
}
