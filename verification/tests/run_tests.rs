use rusty_rtos_mqtt_core::client::{
    AckReply, ClientError, Clock, ConnectionStatus, Event, EventHandler, MqttContext, Store,
    incoming_key,
};
use rusty_rtos_mqtt_core::loop_::KeepAlive;
use rusty_rtos_mqtt_core::reader::{Recv, Sent, Transport};
use rusty_rtos_mqtt_core::state::{Operation, QoS, Record, StateError};
use std::collections::{HashMap, VecDeque};

struct Wire {
    steps: VecDeque<Vec<u8>>,
    broken: bool,
    sent: Vec<u8>,
    gathers: Vec<usize>,
    deaf: bool,
}

impl Wire {
    fn new(steps: &[&[u8]]) -> Self {
        Wire {
            steps: steps.iter().map(|step| step.to_vec()).collect(),
            broken: false,
            sent: Vec::new(),
            gathers: Vec::new(),
            deaf: false,
        }
    }
}

impl Transport for Wire {
    fn recv(&mut self, into: &mut [u8]) -> Recv {
        if self.broken {
            return Recv::Failed;
        }
        match self.steps.pop_front() {
            None => Recv::Nothing,
            Some(bytes) => {
                into[..bytes.len()].copy_from_slice(&bytes);
                Recv::Bytes(bytes.len())
            }
        }
    }

    fn send(&mut self, bytes: &[u8]) -> Sent {
        if self.deaf {
            return Sent::Failed;
        }
        self.sent.extend_from_slice(bytes);
        Sent::Bytes(bytes.len())
    }

    fn writev(&mut self, parts: &[&[u8]]) -> Sent {
        self.gathers.push(parts.len());
        let whole = parts.concat();
        self.send(&whole)
    }
}

struct Watch(u32);

impl Clock for Watch {
    fn now_ms(&mut self) -> u32 {
        self.0
    }
}

#[derive(Default)]
struct Shelf {
    kept: HashMap<u32, Vec<u8>>,
    cleared: Vec<u32>,
    full: bool,
}

impl Store for Shelf {
    fn store(&mut self, key: u32, parts: &[&[u8]]) -> bool {
        if !self.full {
            self.kept.insert(key, parts.concat());
        }
        !self.full
    }

    fn retrieve(&self, key: u32) -> Option<&[u8]> {
        self.kept.get(&key).map(|packet| packet.as_slice())
    }

    fn clear(&mut self, key: u32) {
        self.kept.remove(&key);
        self.cleared.push(key);
    }
}

#[derive(Default)]
struct Ear {
    heard: Vec<(u8, u16, Vec<u8>, Vec<u8>)>,
    payloads: Vec<Vec<u8>>,
    wanted: Vec<bool>,
    refuse: bool,
    code: Option<u8>,
    properties: Vec<u8>,
    overfull: bool,
}

impl EventHandler for Ear {
    fn on_event(&mut self, event: &Event<'_>, reply: &mut AckReply<'_>) -> bool {
        self.heard.push((
            event.packet_type,
            event.packet_id,
            event.reason_codes.to_vec(),
            event.properties.to_vec(),
        ));
        if let Some(publish) = event.publish {
            self.payloads.push(publish.payload.to_vec());
        }
        self.wanted.push(reply.wants_reply);
        if reply.wants_reply {
            reply.reason_code = self.code;
            reply.properties[..self.properties.len()].copy_from_slice(&self.properties);
            reply.used = self.properties.len();
        }
        if self.overfull {
            reply.used = 268_435_456;
        }
        !self.refuse
    }
}

struct Bench {
    network: [u8; 64],
    outgoing: [Record; 4],
    incoming: [Record; 4],
    room: [u8; 16],
}

impl Bench {
    fn new() -> Self {
        Bench {
            network: [0; 64],
            outgoing: [Record::default(); 4],
            incoming: [Record::default(); 4],
            room: [0; 16],
        }
    }

    fn context(&mut self) -> MqttContext<'_> {
        let mut context = MqttContext::new(&mut self.network);
        context.attach_records(&mut self.outgoing, &mut self.incoming, &mut self.room);
        context.connect_status = ConnectionStatus::Connected;
        context.properties.client.max_packet_size = 64;
        context
    }
}

fn turn(
    context: &mut MqttContext<'_>,
    wire: &mut Wire,
    shelf: Option<&mut Shelf>,
    ear: &mut Ear,
) -> Result<(), ClientError> {
    context.process_loop(wire, &mut Watch(0), shelf, ear)
}

const QOS1: &[u8] = &[0x32, 0x07, 0x00, 0x01, b't', 0x00, 0x05, 0x00, b'x'];
const QOS2: &[u8] = &[0x34, 0x07, 0x00, 0x01, b't', 0x00, 0x05, 0x00, b'x'];
const QOS0: &[u8] = &[0x30, 0x05, 0x00, 0x01, b't', 0x00, b'y'];

#[test]
fn a_publish_is_told_and_acknowledged() {
    let mut bench = Bench::new();
    let mut context = bench.context();
    let mut wire = Wire::new(&[QOS1]);
    let mut ear = Ear::default();
    assert_eq!(turn(&mut context, &mut wire, None, &mut ear), Ok(()));
    assert_eq!(ear.heard, [(0x32, 5, vec![], vec![])]);
    assert_eq!(ear.payloads, [b"x".to_vec()]);
    assert_eq!(ear.wanted, [true]);
    assert_eq!(wire.sent, [0x40, 0x02, 0x00, 0x05]);
    let records = context.records_mut().unwrap();
    assert!(records.incoming().iter().all(|record| *record == Record::default()));
}

#[test]
fn two_packets_in_one_read_are_both_handled() {
    let mut bench = Bench::new();
    let mut context = bench.context();
    let both = [QOS0, QOS1].concat();
    let mut wire = Wire::new(&[&both]);
    let mut ear = Ear::default();
    assert_eq!(turn(&mut context, &mut wire, None, &mut ear), Ok(()));
    assert_eq!(ear.payloads, [b"y".to_vec(), b"x".to_vec()]);
    assert_eq!(ear.wanted, [false, true]);
}

#[test]
fn a_packet_in_pieces_is_put_together() {
    let mut bench = Bench::new();
    let mut context = bench.context();
    let both = [QOS0, QOS1].concat();
    let mut wire = Wire::new(&[&both[..1], &both[1..4], &both[4..9], &both[9..]]);
    let mut ear = Ear::default();
    for _ in 0..3 {
        assert_eq!(
            turn(&mut context, &mut wire, None, &mut ear),
            Err(ClientError::NeedMoreBytes)
        );
    }
    assert_eq!(ear.payloads, [b"y".to_vec()]);
    assert_eq!(turn(&mut context, &mut wire, None, &mut ear), Ok(()));
    assert_eq!(ear.payloads, [b"y".to_vec(), b"x".to_vec()]);
}

#[test]
fn silence_is_no_error() {
    let mut bench = Bench::new();
    let mut context = bench.context();
    let mut wire = Wire::new(&[]);
    let mut ear = Ear::default();
    assert_eq!(turn(&mut context, &mut wire, None, &mut ear), Ok(()));
    assert_eq!(
        context.receive_loop(&mut wire, &mut Watch(0), None::<&mut Shelf>, &mut ear),
        Ok(())
    );
    assert!(ear.heard.is_empty() && wire.sent.is_empty());
}

#[test]
fn a_broken_transport_is_given_up() {
    let mut bench = Bench::new();
    let mut context = bench.context();
    let mut wire = Wire::new(&[]);
    wire.broken = true;
    let mut ear = Ear::default();
    assert_eq!(
        turn(&mut context, &mut wire, None, &mut ear),
        Err(ClientError::RecvFailed)
    );
    assert_eq!(context.status(), ConnectionStatus::DisconnectPending);
}

#[test]
fn a_packet_that_cannot_fit_is_refused() {
    let mut bench = Bench::new();
    let mut context = bench.context();
    let mut wire = Wire::new(&[&[0x30, 0x7F]]);
    let mut ear = Ear::default();
    assert_eq!(
        turn(&mut context, &mut wire, None, &mut ear),
        Err(ClientError::RecvFailed)
    );
    let mut bench = Bench::new();
    let mut context = bench.context();
    let mut wire = Wire::new(&[&[0x10, 0x00]]);
    assert_eq!(
        turn(&mut context, &mut wire, None, &mut ear),
        Err(ClientError::BadResponse)
    );
}

#[test]
fn a_duplicate_is_acknowledged_but_told_once() {
    let mut bench = Bench::new();
    let mut context = bench.context();
    let mut wire = Wire::new(&[QOS2, QOS2]);
    let mut ear = Ear::default();
    let mut shelf = Shelf::default();
    assert_eq!(turn(&mut context, &mut wire, Some(&mut shelf), &mut ear), Ok(()));
    assert_eq!(
        shelf.kept.get(&incoming_key(5)),
        Some(&vec![0x50, 0x02, 0x00, 0x05])
    );
    assert_eq!(turn(&mut context, &mut wire, Some(&mut shelf), &mut ear), Ok(()));
    assert_eq!(ear.heard.len(), 1);
    assert_eq!(wire.sent, [0x50, 0x02, 0x00, 0x05, 0x50, 0x02, 0x00, 0x05]);
}

#[test]
fn a_message_received_exactly_once_runs_through_its_handshake() {
    let mut bench = Bench::new();
    let mut context = bench.context();
    let mut wire = Wire::new(&[QOS2, &[0x62, 0x02, 0x00, 0x05]]);
    let mut ear = Ear::default();
    let mut shelf = Shelf::default();
    assert_eq!(turn(&mut context, &mut wire, Some(&mut shelf), &mut ear), Ok(()));
    assert_eq!(turn(&mut context, &mut wire, Some(&mut shelf), &mut ear), Ok(()));
    assert_eq!(wire.sent, [0x50, 0x02, 0x00, 0x05, 0x70, 0x02, 0x00, 0x05]);
    assert_eq!(shelf.cleared, [incoming_key(5)]);
    assert!(shelf.kept.is_empty());
    assert_eq!(ear.wanted, [true, true]);
    let records = context.records_mut().unwrap();
    assert!(records.incoming().iter().all(|record| *record == Record::default()));
}

#[test]
fn a_message_sent_exactly_once_runs_through_its_handshake() {
    let mut bench = Bench::new();
    let mut context = bench.context();
    let records = context.records_mut().unwrap();
    records.reserve(3, QoS::ExactlyOnce).unwrap();
    records.update_publish(3, Operation::Send, QoS::ExactlyOnce).unwrap();
    let mut wire = Wire::new(&[&[0x50, 0x02, 0x00, 0x03], &[0x70, 0x02, 0x00, 0x03]]);
    let mut ear = Ear::default();
    let mut shelf = Shelf::default();
    shelf.kept.insert(3, vec![0x34]);
    assert_eq!(turn(&mut context, &mut wire, Some(&mut shelf), &mut ear), Ok(()));
    assert_eq!(wire.sent, [0x62, 0x02, 0x00, 0x03]);
    assert!(!shelf.kept.contains_key(&3));
    assert!(shelf.kept.contains_key(&incoming_key(3)));
    assert_eq!(turn(&mut context, &mut wire, Some(&mut shelf), &mut ear), Ok(()));
    assert!(shelf.kept.is_empty());
    assert_eq!(ear.wanted, [true, false]);
    let records = context.records_mut().unwrap();
    assert!(records.outgoing().iter().all(|record| *record == Record::default()));
}

#[test]
fn an_acknowledgement_of_nothing_is_refused() {
    let mut bench = Bench::new();
    let mut context = bench.context();
    let mut wire = Wire::new(&[&[0x40, 0x02, 0x00, 0x03]]);
    let mut ear = Ear::default();
    assert_eq!(
        turn(&mut context, &mut wire, None, &mut ear),
        Err(ClientError::State(StateError::BadResponse))
    );
    assert!(ear.heard.is_empty());
}

#[test]
fn a_refused_event_is_not_acknowledged() {
    let mut bench = Bench::new();
    let mut context = bench.context();
    let mut wire = Wire::new(&[QOS1]);
    let mut ear = Ear { refuse: true, ..Ear::default() };
    assert_eq!(
        turn(&mut context, &mut wire, None, &mut ear),
        Err(ClientError::EventCallbackFailed)
    );
    assert!(wire.sent.is_empty());
}

#[test]
fn a_reply_goes_into_the_acknowledgement() {
    let mut bench = Bench::new();
    let mut context = bench.context();
    let mut wire = Wire::new(&[QOS1]);
    let mut ear = Ear { code: Some(0x10), ..Ear::default() };
    assert_eq!(turn(&mut context, &mut wire, None, &mut ear), Ok(()));
    assert_eq!(wire.sent, [0x40, 0x04, 0x00, 0x05, 0x10, 0x00]);
    assert_eq!(wire.gathers, [2]);

    let mut bench = Bench::new();
    let mut context = bench.context();
    let mut wire = Wire::new(&[QOS2]);
    let mut shelf = Shelf::default();
    let mut ear = Ear {
        code: Some(0x80),
        properties: vec![0x1F, 0x00, 0x01, b'n'],
        ..Ear::default()
    };
    assert_eq!(turn(&mut context, &mut wire, Some(&mut shelf), &mut ear), Ok(()));
    let expected = [0x50, 0x08, 0x00, 0x05, 0x80, 0x04, 0x1F, 0x00, 0x01, b'n'];
    assert_eq!(wire.sent, expected);
    assert_eq!(wire.gathers, [3]);
    assert_eq!(shelf.kept.get(&incoming_key(5)), Some(&expected.to_vec()));
}

#[test]
fn a_reply_that_may_not_be_sent_is_refused() {
    for ear in [
        Ear { properties: vec![0x1F, 0x00, 0x01, b'n'], ..Ear::default() },
        Ear { code: Some(0x92), ..Ear::default() },
        Ear { code: Some(0x00), properties: vec![0x21, 0x00, 0x01], ..Ear::default() },
    ] {
        let mut ear = ear;
        let mut bench = Bench::new();
        let mut context = bench.context();
        let mut wire = Wire::new(&[QOS1]);
        assert_eq!(
            turn(&mut context, &mut wire, None, &mut ear),
            Err(ClientError::BadParameter)
        );
        assert!(wire.sent.is_empty());
    }
    let mut bench = Bench::new();
    let mut context = bench.context();
    let mut wire = Wire::new(&[QOS1]);
    let mut ear = Ear { overfull: true, ..Ear::default() };
    assert_eq!(
        turn(&mut context, &mut wire, None, &mut ear),
        Err(ClientError::SendFailed)
    );
}

#[test]
fn an_acknowledgement_that_cannot_be_stored_or_sent_is_an_error() {
    let mut bench = Bench::new();
    let mut context = bench.context();
    let mut wire = Wire::new(&[QOS2]);
    let mut ear = Ear::default();
    let mut shelf = Shelf { full: true, ..Shelf::default() };
    assert_eq!(
        turn(&mut context, &mut wire, Some(&mut shelf), &mut ear),
        Err(ClientError::PublishStoreFailed)
    );
    assert!(wire.sent.is_empty());

    let mut bench = Bench::new();
    let mut context = bench.context();
    let mut wire = Wire::new(&[QOS1]);
    wire.deaf = true;
    assert_eq!(
        turn(&mut context, &mut wire, None, &mut ear),
        Err(ClientError::SendFailed)
    );
    assert_eq!(context.status(), ConnectionStatus::DisconnectPending);

    let mut bench = Bench::new();
    let mut context = bench.context();
    context.properties.server.max_packet_size = 3;
    let mut wire = Wire::new(&[QOS1]);
    assert_eq!(
        turn(&mut context, &mut wire, None, &mut ear),
        Err(ClientError::BadParameter)
    );
}

#[test]
fn a_client_without_records_takes_only_the_lowest_quality() {
    let mut network = [0u8; 64];
    let mut context = MqttContext::new(&mut network);
    context.connect_status = ConnectionStatus::Connected;
    context.properties.client.max_packet_size = 64;
    let mut wire = Wire::new(&[QOS0, QOS1]);
    let mut ear = Ear::default();
    assert_eq!(turn(&mut context, &mut wire, None, &mut ear), Ok(()));
    assert_eq!(
        turn(&mut context, &mut wire, None, &mut ear),
        Err(ClientError::RecvFailed)
    );
    assert_eq!(ear.heard.len(), 1);
}

#[test]
fn a_pingresp_is_told_only_where_the_application_pings() {
    let mut bench = Bench::new();
    let mut context = bench.context();
    let mut wire = Wire::new(&[&[0xD0, 0x00], &[0xD0, 0x00]]);
    let mut ear = Ear::default();
    assert_eq!(turn(&mut context, &mut wire, None, &mut ear), Ok(()));
    assert!(ear.heard.is_empty());
    assert_eq!(
        context.receive_loop(&mut wire, &mut Watch(0), None::<&mut Shelf>, &mut ear),
        Ok(())
    );
    assert_eq!(ear.heard, [(0xD0, 0, vec![], vec![])]);
}

#[test]
fn a_suback_is_told_with_its_codes() {
    let mut bench = Bench::new();
    let mut context = bench.context();
    let mut wire = Wire::new(&[
        &[0x90, 0x05, 0x00, 0x07, 0x00, 0x01, 0x80],
        &[0xB0, 0x04, 0x00, 0x08, 0x00, 0x00],
        &[0x20, 0x03, 0x00, 0x00, 0x00],
    ]);
    let mut ear = Ear::default();
    assert_eq!(turn(&mut context, &mut wire, None, &mut ear), Ok(()));
    assert_eq!(turn(&mut context, &mut wire, None, &mut ear), Ok(()));
    assert_eq!(
        ear.heard,
        [(0x90, 7, vec![0x01, 0x80], vec![]), (0xB0, 8, vec![0x00], vec![])]
    );
    assert_eq!(
        turn(&mut context, &mut wire, None, &mut ear),
        Err(ClientError::BadResponse)
    );
}

#[test]
fn a_disconnect_ends_the_connection() {
    let mut bench = Bench::new();
    let mut context = bench.context();
    let mut wire = Wire::new(&[&[0xE0, 0x02, 0x8B, 0x00]]);
    let mut ear = Ear::default();
    assert_eq!(turn(&mut context, &mut wire, None, &mut ear), Ok(()));
    assert_eq!(ear.heard, [(0xE0, 0, vec![0x8B], vec![])]);
    assert_eq!(context.status(), ConnectionStatus::NotConnected);

    let mut bench = Bench::new();
    let mut context = bench.context();
    let mut wire = Wire::new(&[&[0xE0, 0x01, 0x04]]);
    let mut ear = Ear::default();
    assert_eq!(
        turn(&mut context, &mut wire, None, &mut ear),
        Err(ClientError::NotConnected)
    );
    assert!(ear.heard.is_empty());
    assert_eq!(wire.sent, [0xE0, 0x02, 0x81, 0x00]);
    assert_eq!(context.status(), ConnectionStatus::NotConnected);

    let mut bench = Bench::new();
    let mut context = bench.context();
    let mut wire = Wire::new(&[&[0xE0, 0x00]]);
    let mut ear = Ear { refuse: true, ..Ear::default() };
    assert_eq!(
        turn(&mut context, &mut wire, None, &mut ear),
        Err(ClientError::EventCallbackFailed)
    );
    assert_eq!(ear.heard, [(0xE0, 0, vec![], vec![])]);
    assert_eq!(context.status(), ConnectionStatus::NotConnected);
}

#[test]
fn an_idle_connection_is_pinged_and_a_silent_broker_given_up() {
    let mut bench = Bench::new();
    let mut context = bench.context();
    let mut ear = Ear::default();
    assert_eq!(context.keep_alive_due(29_999), KeepAlive::Nothing);
    assert_eq!(context.keep_alive_due(30_000), KeepAlive::Ping);
    let mut wire = Wire::new(&[]);
    let none = None::<&mut Shelf>;
    assert_eq!(context.process_loop(&mut wire, &mut Watch(30_000), none, &mut ear), Ok(()));
    assert_eq!(wire.sent, [0xC0, 0x00]);
    let none = None::<&mut Shelf>;
    assert_eq!(context.process_loop(&mut wire, &mut Watch(35_000), none, &mut ear), Ok(()));
    assert_eq!(wire.sent, [0xC0, 0x00]);
    assert_eq!(context.keep_alive_due(35_001), KeepAlive::TimedOut);
    let none = None::<&mut Shelf>;
    assert_eq!(
        context.process_loop(&mut wire, &mut Watch(35_001), none, &mut ear),
        Err(ClientError::KeepAliveTimeout)
    );
    let none = None::<&mut Shelf>;
    assert_eq!(context.receive_loop(&mut wire, &mut Watch(99_000), none, &mut ear), Ok(()));
    assert_eq!(wire.sent, [0xC0, 0x00]);
}

#[test]
fn a_busy_connection_is_not_pinged() {
    let mut bench = Bench::new();
    let mut context = bench.context();
    let mut wire = Wire::new(&[QOS0]);
    let mut ear = Ear::default();
    let none = None::<&mut Shelf>;
    assert_eq!(context.process_loop(&mut wire, &mut Watch(60_000), none, &mut ear), Ok(()));
    assert!(wire.sent.is_empty());
}
