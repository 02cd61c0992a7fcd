use rusty_rtos_mqtt_core::header::packet;
use rusty_rtos_mqtt_core::outbound::{OutboundError, RetainHandling, Subscription, ack_reason_code_allowed, option, serialize_ack, serialize_pingreq, serialize_subscribe, subscription_options};
use rusty_rtos_mqtt_core::state::QoS;

fn filter(topic: &[u8]) -> Subscription<'_> {
    Subscription {
        topic_filter: topic,
        qos: QoS::AtMostOnce,
        no_local: false,
        retain_as_published: false,
        retain_handling: RetainHandling::OnSubscribe,
    }
}

#[test]
fn the_two_halves_disagree_about_ack_reason_codes() {
    assert!(!ack_reason_code_allowed(packet::PUBACK, 0x92));
    assert!(!ack_reason_code_allowed(packet::PUBREC, 0x92));
    assert!(ack_reason_code_allowed(rusty_rtos_mqtt_core::ack::PUBREL, 0x92));
    assert!(ack_reason_code_allowed(packet::PUBCOMP, 0x92));

    assert!(ack_reason_code_allowed(packet::PUBACK, 0x10));
    assert!(!ack_reason_code_allowed(rusty_rtos_mqtt_core::ack::PUBREL, 0x10));

    let read = |packet_type: u8, code: u8| {
        rusty_rtos_mqtt_core::ack::deserialize_ack(
            &rusty_rtos_mqtt_core::ack::PacketInfo {
                packet_type,
                remaining_length: 3,
                remaining_data: &[0x00, 0x2A, code],
            },
            &rusty_rtos_mqtt_core::ack::Limits {
                max_packet_size: 1024,
                request_problem_info: true,
            },
        )
        .is_ok()
    };

    assert!(read(packet::PUBACK, 0x92));
    assert!(
        read(rusty_rtos_mqtt_core::ack::PUBREL, 0x10),
        "the reading side now refuses 0x10 in a PUBREL"
    );
}

#[test]
fn the_options_byte_packs_five_decisions_into_six_bits() {
    let mut seen = std::collections::BTreeSet::new();

    for qos in [QoS::AtMostOnce, QoS::AtLeastOnce, QoS::ExactlyOnce] {
        for no_local in [false, true] {
            for retain_as_published in [false, true] {
                for retain_handling in [
                    RetainHandling::OnSubscribe,
                    RetainHandling::OnSubscribeIfNew,
                    RetainHandling::Never,
                ] {
                    let subscription = Subscription {
                        qos,
                        no_local,
                        retain_as_published,
                        retain_handling,
                        ..filter(b"f")
                    };
                    let byte = subscription_options(&subscription);

                    assert_eq!(byte & 0x03, qos as u8, "the QoS bits are wrong");
                    assert_eq!((byte >> option::NO_LOCAL) & 1, u8::from(no_local));
                    assert_eq!(
                        (byte >> option::RETAIN_AS_PUBLISHED) & 1,
                        u8::from(retain_as_published)
                    );
                    assert_eq!(byte & 0xC0, 0, "a reserved bit is set");

                    seen.insert(byte);
                }
            }
        }
    }

    assert_eq!(seen.len(), 36, "two combinations produced the same byte");
}

#[test]
fn a_small_ack_buffer_answers_two_ways() {
    let mut tiny = [0xCCu8; 3];
    assert_eq!(
        serialize_ack(&mut tiny, packet::PUBACK, 42, None, &[]),
        Err(OutboundError::NoMemory)
    );

    let mut four = [0xCCu8; 4];
    assert_eq!(
        serialize_ack(&mut four, packet::PUBACK, 42, None, &[]),
        Ok(4)
    );

    let mut four = [0xCCu8; 4];
    assert_eq!(serialize_ack(&mut four, packet::PUBACK, 42, Some(0x00), &[]),
        Err(OutboundError::BadParameter));
}

#[test]
fn a_pingreq_is_two_fixed_bytes() {
    let mut out = [0xCCu8; 4];
    assert_eq!(serialize_pingreq(&mut out), Ok(2));
    assert_eq!(&out[..2], &[0xC0, 0x00]);
    assert_eq!(out[2], 0xCC, "a byte past the packet was written");

    let mut one = [0xCCu8; 1];
    assert_eq!(serialize_pingreq(&mut one), Err(OutboundError::NoMemory));
}

#[test]
fn the_buffer_is_checked_before_the_filters() {
    let bad = [filter(&[])];
    let mut tiny = [0xCCu8; 2];

    assert_eq!(
        serialize_subscribe(&mut tiny, &bad, &[], 1, 9),
        Err(OutboundError::NoMemory),
        "the filter check now runs first"
    );

    let mut roomy = [0xCCu8; 64];
    assert_eq!(
        serialize_subscribe(&mut roomy, &bad, &[], 1, 9),
        Err(OutboundError::BadParameter)
    );
}
