use rusty_rtos_mqtt_core::client::{
    ClientError, Clock, ConnectionStatus, MqttContext, SendOutcome, Store, elapsed_ms, incoming_key,
};
use rusty_rtos_mqtt_core::connect::{Connect, Will, connect_packet_size, serialize_connect};
use rusty_rtos_mqtt_core::reader::{Recv, Sent, Transport};
use rusty_rtos_mqtt_core::session::{ReadOutcome, ack_from_packet_type, apply_connack};
use rusty_rtos_mqtt_core::connack::{ConnAck, ServerSettings, field};
use rusty_rtos_mqtt_core::context::ConnectionProperties;
use rusty_rtos_mqtt_core::state::{AckType, Operation, PublishState, QoS, Record};
use rusty_rtos_mqtt_core::writer::{ConnectInfo, WillInfo};
use std::collections::{HashMap, VecDeque};

/// What a scripted transport does when it is asked.
#[derive(Clone)]
enum Step {
    Bytes(Vec<u8>),
    Nothing,
    Fail,
}

struct Wire {
    steps: VecDeque<Step>,
    asked: usize,
    sent: Vec<u8>,
    offers: usize,
    per_send: usize,
    fail_after: Option<usize>,
}

impl Wire {
    fn new(steps: &[Step]) -> Self {
        Wire {
            steps: steps.iter().cloned().collect(),
            asked: 0,
            sent: Vec::new(),
            offers: 0,
            per_send: usize::MAX,
            fail_after: None,
        }
    }
}

impl Transport for Wire {
    fn recv(&mut self, into: &mut [u8]) -> Recv {
        self.asked += 1;
        match self.steps.pop_front() {
            None | Some(Step::Nothing) => Recv::Nothing,
            Some(Step::Fail) => Recv::Failed,
            Some(Step::Bytes(mut bytes)) => {
                let count = bytes.len().min(into.len());
                into[..count].copy_from_slice(&bytes[..count]);
                let rest = bytes.split_off(count);
                if !rest.is_empty() {
                    self.steps.push_front(Step::Bytes(rest));
                }
                Recv::Bytes(count)
            }
        }
    }

    fn send(&mut self, bytes: &[u8]) -> Sent {
        self.offers += 1;
        if let Some(limit) = self.fail_after {
            if self.sent.len() >= limit {
                return Sent::Failed;
            }
        }
        let count = bytes.len().min(self.per_send);
        self.sent.extend_from_slice(&bytes[..count]);
        if count == 0 { Sent::Nothing } else { Sent::Bytes(count) }
    }
}

struct Ticking {
    now: u32,
    step: u32,
}

impl Clock for Ticking {
    fn now_ms(&mut self) -> u32 {
        self.now = self.now.wrapping_add(self.step);
        self.now
    }
}

#[derive(Default)]
struct Shelf {
    kept: HashMap<u32, Vec<u8>>,
    cleared: Vec<u32>,
    full: bool,
}

impl Store for Shelf {
    fn store(&mut self, key: u32, parts: &[&[u8]]) -> bool {
        if self.full {
            return false;
        }
        self.kept.insert(key, parts.concat());
        true
    }

    fn retrieve(&self, key: u32) -> Option<&[u8]> {
        self.kept.get(&key).map(|packet| packet.as_slice())
    }

    fn clear(&mut self, key: u32) {
        self.kept.remove(&key);
        self.cleared.push(key);
    }
}

fn plain() -> Connect<'static> {
    Connect {
        info: ConnectInfo {
            clean_session: true,
            keep_alive_seconds: 60,
            username: None,
            password: None,
        },
        client_identifier: b"c",
        properties: &[],
        will: None,
    }
}

fn connack(body: &[u8]) -> Step {
    let mut packet = vec![0x20, body.len() as u8];
    packet.extend_from_slice(body);
    Step::Bytes(packet)
}

fn open(
    context: &mut MqttContext<'_>,
    wire: &mut Wire,
    store: Option<&mut Shelf>,
    connect: &Connect<'_>,
    timeout_ms: u32,
    session_present: &mut bool,
) -> Result<(), ClientError> {
    let mut clock = Ticking { now: 0, step: 1 };
    context.connect(wire, &mut clock, store, connect, timeout_ms, session_present)
}

#[test]
fn a_connect_without_properties_announces_the_network_buffer() {
    let mut network = [0u8; 64];
    let mut context = MqttContext::new(&mut network);
    let mut wire = Wire::new(&[connack(&[0, 0, 0])]);
    let mut present = true;
    assert_eq!(open(&mut context, &mut wire, None, &plain(), 0, &mut present), Ok(()));
    assert_eq!(
        wire.sent,
        [
            0x10, 0x13, 0x00, 0x04, b'M', b'Q', b'T', b'T', 0x05, 0x02, 0x00, 0x3C, 0x05, 0x27,
            0x00, 0x00, 0x00, 0x40, 0x00, 0x01, b'c'
        ]
    );
    assert_eq!(context.status(), ConnectionStatus::Connected);
    assert!(!present);
    assert_eq!(context.properties.client.max_packet_size, 64);
    assert_eq!(context.properties.server.keep_alive, 60);
}

#[test]
fn a_connect_in_parts_is_the_connect_in_one_buffer() {
    let connect = Connect {
        info: ConnectInfo {
            clean_session: false,
            keep_alive_seconds: 300,
            username: Some(b"user"),
            password: Some(b""),
        },
        client_identifier: b"client",
        properties: &[0x21, 0x00, 0x05],
        will: Some(Will {
            info: WillInfo { qos: QoS::AtLeastOnce, retain: true },
            topic_name: b"w/t",
            payload: b"bye",
            properties: &[0x01, 0x01],
        }),
    };
    let size = connect_packet_size(&connect).unwrap();
    let mut expected = vec![0u8; size.packet_size as usize];
    serialize_connect(&mut expected, &connect, size.remaining_length).unwrap();

    let mut network = [0u8; 64];
    let mut context = MqttContext::new(&mut network);
    let mut wire = Wire::new(&[connack(&[0, 0, 0])]);
    wire.per_send = 3;
    let mut present = false;
    assert_eq!(open(&mut context, &mut wire, None, &connect, 0, &mut present), Ok(()));
    assert_eq!(wire.sent, expected);
    assert_eq!(context.properties.client.receive_max, 5);
}

#[test]
fn a_connect_is_refused_before_anything_is_sent() {
    let bad_will = Connect {
        will: Some(Will {
            info: WillInfo { qos: QoS::AtMostOnce, retain: false },
            topic_name: b"w",
            payload: b"",
            properties: &[0x21, 0x00, 0x05],
        }),
        ..plain()
    };
    let too_large = Connect { properties: &[0x27, 0x00, 0x00, 0x01, 0x00], ..plain() };
    let zero_limit = Connect { properties: &[0x21, 0x00, 0x00], ..plain() };
    let nul = Connect { client_identifier: b"\0", ..plain() };
    for connect in [bad_will, too_large, zero_limit, nul] {
        let mut network = [0u8; 64];
        let mut context = MqttContext::new(&mut network);
        let mut wire = Wire::new(&[]);
        let mut present = false;
        assert_eq!(
            open(&mut context, &mut wire, None, &connect, 0, &mut present),
            Err(ClientError::BadParameter)
        );
        assert_eq!((wire.offers, wire.asked), (0, 0));
    }
}

#[test]
fn a_connection_is_opened_once() {
    for (status, error) in [
        (ConnectionStatus::Connected, ClientError::StatusConnected),
        (ConnectionStatus::DisconnectPending, ClientError::DisconnectPending),
    ] {
        let mut network = [0u8; 64];
        let mut context = MqttContext::new(&mut network);
        context.connect_status = status;
        let mut wire = Wire::new(&[]);
        let mut present = false;
        assert_eq!(
            open(&mut context, &mut wire, None, &plain(), 0, &mut present),
            Err(error)
        );
        assert_eq!(wire.offers, 0);
        assert_eq!(context.status(), status);
    }
}

#[test]
fn a_connack_decides() {
    for (steps, clean, expected) in [
        (vec![connack(&[0, 0x87, 0])], true, ClientError::ServerRefused),
        (vec![connack(&[1, 0, 0])], true, ClientError::BadResponse),
        (vec![connack(&[2, 0, 0])], true, ClientError::BadResponse),
        (vec![Step::Bytes(vec![0xD0, 0x00])], true, ClientError::BadResponse),
        (vec![Step::Bytes(vec![0x10])], true, ClientError::BadResponse),
        (vec![Step::Fail], true, ClientError::RecvFailed),
        (vec![Step::Bytes(vec![0x20, 0x03, 0x00])], true, ClientError::RecvFailed),
        (vec![Step::Bytes(vec![0x20, 0x7F])], true, ClientError::RecvFailed),
        (vec![], true, ClientError::RecvFailed),
    ] {
        let mut network = [0u8; 64];
        let mut context = MqttContext::new(&mut network);
        let mut wire = Wire::new(&steps);
        let mut present = false;
        let connect = Connect {
            info: ConnectInfo { clean_session: clean, ..plain().info },
            ..plain()
        };
        assert_eq!(
            open(&mut context, &mut wire, None, &connect, 0, &mut present),
            Err(expected)
        );
        assert_ne!(context.status(), ConnectionStatus::Connected);
    }
}

#[test]
fn a_silent_broker_is_asked_a_fixed_number_of_times_without_a_timeout() {
    let mut network = [0u8; 64];
    let mut context = MqttContext::new(&mut network);
    let mut wire = Wire::new(&[]);
    let mut present = false;
    assert_eq!(
        open(&mut context, &mut wire, None, &plain(), 0, &mut present),
        Err(ClientError::RecvFailed)
    );
    assert_eq!(wire.asked, 6);
}

#[test]
fn a_silent_broker_is_asked_until_the_timeout() {
    let mut network = [0u8; 64];
    let mut context = MqttContext::new(&mut network);
    let mut wire = Wire::new(&[]);
    let mut clock = Ticking { now: 0, step: 10 };
    let mut present = false;
    let result = context.connect(
        &mut wire,
        &mut clock,
        None::<&mut Shelf>,
        &plain(),
        35,
        &mut present,
    );
    assert_eq!(result, Err(ClientError::RecvFailed));
    assert_eq!(wire.asked, 4);
}

#[test]
fn a_late_connack_is_still_a_connack() {
    let mut network = [0u8; 64];
    let mut context = MqttContext::new(&mut network);
    let mut wire = Wire::new(&[
        Step::Nothing,
        Step::Nothing,
        Step::Bytes(vec![0x20]),
        Step::Bytes(vec![0x03]),
        Step::Bytes(vec![0x00]),
        Step::Nothing,
        Step::Bytes(vec![0x00, 0x00]),
    ]);
    let mut present = true;
    assert_eq!(open(&mut context, &mut wire, None, &plain(), 0, &mut present), Ok(()));
    assert!(!present);
}

#[test]
fn the_limits_of_a_connack_are_taken_over() {
    let mut network = [0u8; 64];
    let mut context = MqttContext::new(&mut network);
    let body = [0x00, 0x00, 0x08, 0x21, 0x00, 0x02, 0x24, 0x01, 0x13, 0x00, 0x0A];
    let mut wire = Wire::new(&[connack(&body)]);
    let mut present = false;
    assert_eq!(open(&mut context, &mut wire, None, &plain(), 0, &mut present), Ok(()));
    assert_eq!(context.properties.server.receive_max, 2);
    assert_eq!(context.properties.server.max_qos, 1);
    assert_eq!(context.properties.server.keep_alive, 10);
    assert_eq!(context.properties.server.retain_available, 1);
}

#[test]
fn a_connack_that_says_nothing_changes_nothing() {
    let mut properties = ConnectionProperties::new();
    let before = properties;
    let silent = ConnAck {
        session_present: false,
        reason_code: 0,
        server: ServerSettings::default(),
        fields_present: 0,
        properties: &[],
    };
    apply_connack(&mut properties, &silent);
    assert_eq!(properties, before);
    let zero_alias = ConnAck { fields_present: 1 << field::MAX_QOS, ..silent };
    apply_connack(&mut properties, &zero_alias);
    assert_eq!(properties.server.max_qos, 0);
    assert_eq!(properties.server.receive_max, before.server.receive_max);
}

/// Puts a publish and a PUBREL in flight.
fn in_flight(context: &mut MqttContext<'_>) {
    let records = context.records_mut().unwrap();
    records.reserve(7, QoS::AtLeastOnce).unwrap();
    records.update_publish(7, Operation::Send, QoS::AtLeastOnce).unwrap();
    records.reserve(9, QoS::ExactlyOnce).unwrap();
    records.update_publish(9, Operation::Send, QoS::ExactlyOnce).unwrap();
    records.update_ack(9, AckType::PubRec, Operation::Receive).unwrap();
}

fn kept() -> Connect<'static> {
    Connect {
        info: ConnectInfo { clean_session: false, ..plain().info },
        properties: &[0x21, 0x00, 0x08],
        ..plain()
    }
}

#[test]
fn a_kept_session_sends_pubrels_before_publishes() {
    let mut network = [0u8; 64];
    let mut outgoing = [Record::default(); 4];
    let mut incoming = [Record::default(); 4];
    let mut room = [0u8; 16];
    let mut context = MqttContext::new(&mut network);
    context.attach_records(&mut outgoing, &mut incoming, &mut room);
    in_flight(&mut context);
    let mut shelf = Shelf::default();
    shelf.kept.insert(7, vec![0x3A, 0x01]);
    shelf.kept.insert(incoming_key(9), vec![0x62, 0x02, 0x00, 0x09]);
    let mut wire = Wire::new(&[connack(&[1, 0, 0])]);
    let mut present = false;
    assert_eq!(
        open(&mut context, &mut wire, Some(&mut shelf), &kept(), 0, &mut present),
        Ok(())
    );
    assert!(present);
    assert!(wire.sent.ends_with(&[0x62, 0x02, 0x00, 0x09, 0x3A, 0x01]));
    assert!(shelf.cleared.is_empty());
    assert_eq!(context.status(), ConnectionStatus::Connected);
}

#[test]
fn a_kept_session_without_a_store_makes_its_pubrels_anew() {
    let mut network = [0u8; 64];
    let mut outgoing = [Record::default(); 4];
    let mut incoming = [Record::default(); 4];
    let mut context = MqttContext::new(&mut network);
    context.attach_records(&mut outgoing, &mut incoming, &mut []);
    in_flight(&mut context);
    let mut wire = Wire::new(&[connack(&[1, 0, 0])]);
    let mut present = false;
    assert_eq!(open(&mut context, &mut wire, None, &kept(), 0, &mut present), Ok(()));
    assert!(wire.sent.ends_with(&[0x62, 0x02, 0x00, 0x09]));
    let records = context.records_mut().unwrap();
    assert!(records.outgoing().iter().any(|record| record.packet_id == 9
        && record.state == PublishState::PubCompPending));
}

#[test]
fn a_missing_packet_gives_the_session_up() {
    let mut network = [0u8; 64];
    let mut outgoing = [Record::default(); 4];
    let mut incoming = [Record::default(); 4];
    let mut context = MqttContext::new(&mut network);
    context.attach_records(&mut outgoing, &mut incoming, &mut []);
    in_flight(&mut context);
    let mut shelf = Shelf::default();
    let mut wire = Wire::new(&[connack(&[1, 0, 0])]);
    let mut present = false;
    assert_eq!(
        open(&mut context, &mut wire, Some(&mut shelf), &kept(), 0, &mut present),
        Err(ClientError::PublishRetrieveFailed)
    );
    assert_eq!(context.status(), ConnectionStatus::DisconnectPending);
}

#[test]
fn a_fresh_session_forgets_the_old_one() {
    let mut network = [0xFFu8; 64];
    let mut outgoing = [Record::default(); 4];
    let mut incoming = [Record::default(); 4];
    let mut context = MqttContext::new(&mut network);
    context.attach_records(&mut outgoing, &mut incoming, &mut []);
    in_flight(&mut context);
    let mut shelf = Shelf::default();
    shelf.kept.insert(7, vec![0x3A]);
    shelf.kept.insert(incoming_key(9), vec![0x62]);
    let mut wire = Wire::new(&[connack(&[0, 0, 0])]);
    let mut present = false;
    assert_eq!(
        open(&mut context, &mut wire, Some(&mut shelf), &kept(), 0, &mut present),
        Ok(())
    );
    assert_eq!(shelf.cleared, [7]);
    assert!(shelf.kept.contains_key(&incoming_key(9)));
    let records = context.records_mut().unwrap();
    assert!(records.outgoing().iter().all(|record| *record == Record::default()));
}

#[test]
fn no_more_records_are_used_than_both_sides_allow() {
    let mut network = [0u8; 64];
    let mut outgoing = [Record::default(); 4];
    let mut incoming = [Record::default(); 4];
    let mut context = MqttContext::new(&mut network);
    context.attach_records(&mut outgoing, &mut incoming, &mut []);
    let mut wire = Wire::new(&[connack(&[0x00, 0x00, 0x03, 0x21, 0x00, 0x01])]);
    let mut present = false;
    let connect = Connect { properties: &[0x21, 0x00, 0x02], ..plain() };
    assert_eq!(open(&mut context, &mut wire, None, &connect, 0, &mut present), Ok(()));
    let records = context.records_mut().unwrap();
    assert_eq!((records.outgoing().len(), records.incoming().len()), (1, 2));
}

#[test]
fn a_transport_that_fails_in_the_middle_of_a_connect_fails_it() {
    let mut network = [0u8; 64];
    let mut context = MqttContext::new(&mut network);
    let mut wire = Wire::new(&[connack(&[0, 0, 0])]);
    wire.per_send = 4;
    wire.fail_after = Some(8);
    let mut present = false;
    assert_eq!(
        open(&mut context, &mut wire, None, &plain(), 0, &mut present),
        Err(ClientError::SendFailed)
    );
    assert_eq!(context.status(), ConnectionStatus::NotConnected);
}

#[test]
fn bytes_that_dribble_in_are_waited_for() {
    let mut network = [0u8; 8];
    let mut context = MqttContext::new(&mut network);
    let mut wire = Wire::new(&[
        Step::Bytes(vec![1]),
        Step::Nothing,
        Step::Bytes(vec![2]),
        Step::Nothing,
        Step::Bytes(vec![3]),
    ]);
    let mut clock = Ticking { now: u32::MAX - 10, step: 4 };
    assert_eq!(context.recv_exact(&mut wire, &mut clock, 3), ReadOutcome::Bytes(3));
}

#[test]
fn bytes_that_do_not_come_are_given_up() {
    let mut network = [0u8; 8];
    let mut context = MqttContext::new(&mut network);
    let mut wire = Wire::new(&[Step::Bytes(vec![1])]);
    let mut clock = Ticking { now: 0, step: 4 };
    assert_eq!(context.recv_exact(&mut wire, &mut clock, 3), ReadOutcome::Bytes(1));
    assert_eq!(wire.asked, 4);
    assert_eq!(context.recv_exact(&mut wire, &mut clock, 9), ReadOutcome::Failed);
    assert_eq!(wire.asked, 4);
    context.connect_status = ConnectionStatus::Connected;
    let mut broken = Wire::new(&[Step::Fail]);
    assert_eq!(context.recv_exact(&mut broken, &mut clock, 1), ReadOutcome::Failed);
    assert_eq!(context.status(), ConnectionStatus::DisconnectPending);
}

#[test]
fn bytes_are_offered_until_they_are_taken() {
    let mut network = [0u8; 8];
    let mut context = MqttContext::new(&mut network);
    let mut clock = Ticking { now: 0, step: 1 };
    let mut wire = Wire::new(&[]);
    wire.per_send = 2;
    assert_eq!(
        context.send_buffer(&mut wire, &mut clock, &[1, 2, 3, 4, 5]),
        SendOutcome::Sent(5)
    );
    assert_eq!((wire.sent.as_slice(), wire.offers), (&[1, 2, 3, 4, 5][..], 3));

    let mut parts: [&[u8]; 3] = [&[1, 2], &[], &[3, 4, 5]];
    let mut wire = Wire::new(&[]);
    wire.per_send = 2;
    assert_eq!(
        context.send_vectors(&mut wire, &mut clock, &mut parts),
        SendOutcome::Sent(5)
    );
    assert_eq!(wire.sent, [1, 2, 3, 4, 5]);
    assert!(parts.iter().all(|part| part.is_empty()));
}

#[test]
fn bytes_that_are_not_taken_are_given_up() {
    let mut network = [0u8; 8];
    let mut context = MqttContext::new(&mut network);
    context.connect_status = ConnectionStatus::Connected;
    let mut clock = Ticking { now: 0, step: 5_000 };
    let mut wire = Wire::new(&[]);
    wire.per_send = 0;
    assert_eq!(context.send_buffer(&mut wire, &mut clock, &[1]), SendOutcome::Sent(0));
    assert_eq!(wire.offers, 4);
    assert_eq!(context.status(), ConnectionStatus::Connected);
    wire.fail_after = Some(0);
    assert_eq!(context.send_buffer(&mut wire, &mut clock, &[1]), SendOutcome::Failed);
    assert_eq!(context.status(), ConnectionStatus::DisconnectPending);
}

#[test]
fn a_ping_and_a_disconnect_are_a_few_bytes() {
    let mut network = [0u8; 8];
    let mut context = MqttContext::new(&mut network);
    let mut clock = Ticking { now: 0, step: 1 };
    let mut wire = Wire::new(&[]);
    assert_eq!(context.ping(&mut wire, &mut clock), Err(ClientError::NotConnected));
    assert_eq!(
        context.disconnect(&mut wire, &mut clock, Some(0), &[]),
        Err(ClientError::NotConnected)
    );
    assert!(wire.sent.is_empty());
    context.connect_status = ConnectionStatus::Connected;
    assert_eq!(context.ping(&mut wire, &mut clock), Ok(()));
    assert_eq!(wire.sent, [0xC0, 0x00]);
    assert_eq!(
        context.disconnect(&mut wire, &mut clock, Some(0x05), &[]),
        Err(ClientError::BadParameter)
    );
    assert_eq!(
        context.disconnect(&mut wire, &mut clock, Some(0x04), &[0x26]),
        Err(ClientError::BadResponse)
    );
    assert_eq!(
        context.disconnect(&mut wire, &mut clock, Some(0x04), &[0x1F, 0x00, 0x01, b'x']),
        Ok(())
    );
    assert_eq!(wire.sent[2..], [0xE0, 0x06, 0x04, 0x04, 0x1F, 0x00, 0x01, b'x']);
    assert_eq!(context.status(), ConnectionStatus::NotConnected);
}

#[test]
fn an_acknowledgement_is_what_its_state_asks_for() {
    let mut network = [0u8; 8];
    let mut context = MqttContext::new(&mut network);
    let mut clock = Ticking { now: 0, step: 1 };
    let mut wire = Wire::new(&[]);
    assert_eq!(
        context.send_publish_acks(&mut wire, &mut clock, 1, PublishState::PubRelPending),
        Ok(())
    );
    assert_eq!(
        context.send_publish_acks(&mut wire, &mut clock, 0, PublishState::PubAckSend),
        Err(ClientError::BadParameter)
    );
    assert_eq!(
        context.send_publish_acks(&mut wire, &mut clock, 1, PublishState::PubAckSend),
        Err(ClientError::NotConnected)
    );
    context.connect_status = ConnectionStatus::Connected;
    for (state, first) in [
        (PublishState::PubAckSend, 0x40),
        (PublishState::PubRecSend, 0x50),
        (PublishState::PubRelSend, 0x62),
        (PublishState::PubCompSend, 0x70),
    ] {
        let mut wire = Wire::new(&[]);
        assert_eq!(context.send_publish_acks(&mut wire, &mut clock, 0x1234, state), Ok(()));
        assert_eq!(wire.sent, [first, 0x02, 0x12, 0x34]);
        assert_eq!(MqttContext::ack_type_to_send(state), first);
        assert!(ack_from_packet_type(first).is_some());
    }
    assert_eq!(ack_from_packet_type(0x60), None);
}

#[test]
fn time_wraps_and_keys_are_apart() {
    assert_eq!(elapsed_ms(5, 2), 3);
    assert_eq!(elapsed_ms(2, u32::MAX), 3);
    assert_eq!(incoming_key(0), 0x1_0000);
    assert_eq!(incoming_key(u16::MAX), 0x1_FFFF);
}
