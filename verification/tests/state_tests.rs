use rusty_rtos_mqtt_core::state::{AckType, Operation, PublishState, QoS, calculate_state_ack, validate_transition_ack, validate_transition_publish};

const STATES: [PublishState; 11] = [
    PublishState::Null,
    PublishState::PublishSend,
    PublishState::PubAckSend,
    PublishState::PubRecSend,
    PublishState::PubRelSend,
    PublishState::PubCompSend,
    PublishState::PubAckPending,
    PublishState::PubRecPending,
    PublishState::PubRelPending,
    PublishState::PubCompPending,
    PublishState::PublishDone,
];

const ACKS: [AckType; 4] = [
    AckType::PubAck,
    AckType::PubRec,
    AckType::PubRel,
    AckType::PubComp,
];

const OPS: [Operation; 2] = [Operation::Send, Operation::Receive];
const QOSES: [QoS; 3] = [QoS::AtMostOnce, QoS::AtLeastOnce, QoS::ExactlyOnce];

#[test]
fn a_legal_self_transition_never_lands_on_a_deleting_state() {
    let mut legal_self_transitions = 0usize;

    for ack in ACKS {
        for op in OPS {
            for qos in QOSES {
                let new = calculate_state_ack(ack, op, qos);

                for current in STATES {
                    if current != new {
                        continue;
                    }

                    if !validate_transition_ack(current, new) {
                        continue;
                    }

                    legal_self_transitions += 1;

                    assert!(
                        !matches!(new, PublishState::PublishDone | PublishState::PubRelSend),
                        "a legal self-transition onto {new:?} would DELETE the \
                         record, so the `current != new` guard is load-bearing \
                         after all and this test is the wrong shape"
                    );
                }
            }
        }
    }

    assert!(
        legal_self_transitions > 0,
        "no legal self-transition was reachable at all — the sweep is \
         testing nothing, and the reconnect paths it stands for are untested"
    );
}

#[test]
fn every_reconnect_recovery_path_is_present() {
    for state in [
        PublishState::PubRelPending,
        PublishState::PubCompSend,
        PublishState::PubCompPending,
    ] {
        assert!(
            validate_transition_ack(state, state),
            "{state:?} can no longer transition to itself — a reconnect \
             recovery path has been removed"
        );
    }

    for (state, qos) in [
        (PublishState::PubAckPending, QoS::AtLeastOnce),
        (PublishState::PubRecPending, QoS::ExactlyOnce),
    ] {
        assert!(
            validate_transition_publish(state, state, Operation::Send, qos),
            "{state:?} can no longer be resent"
        );
    }
}
