use rusty_rtos_mqtt_core::client::{ClientError, MqttContext, RetainHandling, Subscription, SubscriptionType};
use rusty_rtos_mqtt_core::state::QoS;

fn context(buffer: &mut [u8]) -> MqttContext<'_> {
    let mut client = MqttContext::new(buffer);
    client.enable_qos(4, 4, 0);
    client
}

fn plain(filter: &[u8]) -> Subscription<'_> {
    Subscription {
        topic_filter: filter,
        qos: QoS::AtMostOnce,
        no_local: false,
        retain_as_published: false,
        retain_handling: RetainHandling::OnSubscribe,
    }
}

#[test]
fn only_the_last_subscription_decides() {
    let mut buffer = [0u8; 64];
    let client = context(&mut buffer);

    let good = plain(b"a/b");
    let bad = plain(b"");

    assert_eq!(
        client.validate_subscriptions(&[bad], 1, SubscriptionType::Subscribe),
        Err(ClientError::BadParameter)
    );

    assert_eq!(
        client.validate_subscriptions(&[good, bad], 1, SubscriptionType::Subscribe),
        Err(ClientError::BadParameter)
    );

    assert_eq!(
        client.validate_subscriptions(&[bad, good], 1, SubscriptionType::Subscribe),
        Ok(()),
        "the list validator now reports the whole list"
    );

    let malformed = plain(b"$share//a/b");
    assert_eq!(
        client.validate_subscriptions(&[malformed], 1, SubscriptionType::Subscribe),
        Err(ClientError::BadParameter)
    );
    assert_eq!(
        client.validate_subscriptions(&[malformed, good], 1, SubscriptionType::Subscribe),
        Ok(())
    );
}

#[test]
fn the_qos_loop_reports_the_whole_list_and_the_other_does_not() {
    let mut buffer = [0u8; 64];
    let mut client = MqttContext::new(&mut buffer);
    client.enable_qos(4, 0, 0);

    let mut qos1 = plain(b"a/b");
    qos1.qos = QoS::AtLeastOnce;
    let good = plain(b"a/b");

    for list in [[qos1, good], [good, qos1]] {
        assert_eq!(
            client.validate_subscriptions(&list, 1, SubscriptionType::Subscribe),
            Err(ClientError::BadParameter),
            "the QoS loop stopped reporting the whole list"
        );
    }
}

#[test]
fn an_unsubscribe_checks_only_the_filter() {
    let mut buffer = [0u8; 64];
    let client = context(&mut buffer);

    let malformed = plain(b"$share//a/b");

    assert_eq!(
        client.validate_subscriptions(&[malformed], 1, SubscriptionType::Subscribe),
        Err(ClientError::BadParameter)
    );
    assert_eq!(
        client.validate_subscriptions(&[malformed], 1, SubscriptionType::Unsubscribe),
        Ok(())
    );

    assert_eq!(
        client.validate_subscriptions(&[plain(b"")], 1, SubscriptionType::Unsubscribe),
        Err(ClientError::BadParameter)
    );
}

#[test]
fn a_packet_identifier_wraps_to_one_and_never_to_zero() {
    let mut buffer = [0u8; 16];
    let mut client = MqttContext::new(&mut buffer);

    assert_eq!(client.next_packet_id(), 1);
    assert_eq!(client.next_packet_id(), 2);

    let mut seen_zero = false;
    for _ in 0..70_000u32 {
        if client.next_packet_id() == 0 {
            seen_zero = true;
        }
    }

    assert!(!seen_zero, "zero is not a legal packet identifier");
}

#[test]
fn a_shared_subscription_needs_a_name_and_a_filter_after_it() {
    let mut buffer = [0u8; 64];
    let client = context(&mut buffer);

    let check = |filter: &[u8]| {
        client.validate_subscriptions(&[plain(filter)], 1, SubscriptionType::Subscribe)
    };

    assert_eq!(check(b"$share/g/a/b"), Ok(()));

    assert_eq!(check(b"$share//a/b"), Err(ClientError::BadParameter));
    assert_eq!(check(b"$share/g/"), Err(ClientError::BadParameter));
    assert_eq!(check(b"$share/g#/a/b"), Err(ClientError::BadParameter));
    assert_eq!(check(b"$share/g"), Err(ClientError::BadParameter));

    assert_eq!(check(b"$share/"), Ok(()));

    let mut local = plain(b"$share/g/a/b");
    local.no_local = true;
    assert_eq!(
        client.validate_subscriptions(&[local], 1, SubscriptionType::Subscribe),
        Err(ClientError::BadParameter)
    );
}

#[test]
fn a_wildcard_past_the_filters_length_is_not_in_the_filter() {
    let mut buffer = [0u8; 64];
    let mut client = context(&mut buffer);
    client.properties.server.wildcard_available = 0;

    let whole = b"abc#";
    let filter = &whole[..3];

    assert_eq!(
        client.validate_subscriptions(&[plain(filter)], 1, SubscriptionType::Subscribe),
        Ok(()),
        "a wildcard outside the filter is not in the filter"
    );

    assert_eq!(
        client.validate_subscriptions(&[plain(b"a/#")], 1, SubscriptionType::Subscribe),
        Err(ClientError::BadParameter)
    );
}
