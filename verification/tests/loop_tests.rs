use rusty_rtos_mqtt_core::client::{ClientError, MqttContext};
use rusty_rtos_mqtt_core::header::packet;
use rusty_rtos_mqtt_core::loop_::{PACKET_RX_TIMEOUT_MS, validate_publish_ack_reason_code};
use rusty_rtos_mqtt_core::state::PublishState;

#[test]
fn three_poisons_are_dead_because_the_state_owes_nothing() {
    for state in [
        PublishState::Null,
        PublishState::PublishDone,
        PublishState::PubAckPending,
        PublishState::PubRecPending,
        PublishState::PubCompPending,
        PublishState::PubRelPending,
    ] {
        assert_eq!(
            MqttContext::ack_type_to_send(state),
            0,
            "{state:?} must owe no acknowledgement"
        );
    }

    for (state, expected) in [
        (PublishState::PubAckSend, packet::PUBACK),
        (PublishState::PubRecSend, packet::PUBREC),
        (PublishState::PubRelSend, packet::PUBREL),
        (PublishState::PubCompSend, packet::PUBCOMP),
    ] {
        assert_eq!(MqttContext::ack_type_to_send(state), expected);
    }

    const { assert!(PACKET_RX_TIMEOUT_MS > 0) };
}

#[test]
fn a_reason_code_belongs_to_one_half_of_the_handshake() {
    for packet_type in [
        packet::PUBACK,
        packet::PUBREC,
        packet::PUBREL,
        packet::PUBCOMP,
    ] {
        assert_eq!(
            validate_publish_ack_reason_code(Some(0), packet_type),
            Ok(())
        );
    }

    for code in [0x10, 0x80, 0x83, 0x87, 0x90, 0x91, 0x97, 0x99] {
        assert_eq!(
            validate_publish_ack_reason_code(Some(code), packet::PUBACK),
            Ok(())
        );
        assert_eq!(
            validate_publish_ack_reason_code(Some(code), packet::PUBREC),
            Ok(())
        );
        assert_eq!(
            validate_publish_ack_reason_code(Some(code), packet::PUBREL),
            Err(ClientError::BadParameter)
        );
    }

    assert_eq!(
        validate_publish_ack_reason_code(Some(0x92), packet::PUBREL),
        Ok(())
    );
    assert_eq!(
        validate_publish_ack_reason_code(Some(0x92), packet::PUBACK),
        Err(ClientError::BadParameter)
    );

    assert_eq!(
        validate_publish_ack_reason_code(None, packet::PUBACK),
        Err(ClientError::BadParameter)
    );
}
