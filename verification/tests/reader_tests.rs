use rusty_rtos_mqtt_core::header::REMAINING_LENGTH_INVALID;
use rusty_rtos_mqtt_core::reader::{ReadError, Received, Recv, Sent, Transport, read_header};

struct Script {
    steps: Vec<Received>,
    at: usize,
    calls: usize,
}

impl Script {
    fn new(steps: &[Received]) -> Self {
        Self {
            steps: steps.to_vec(),
            at: 0,
            calls: 0,
        }
    }
}

impl Transport for Script {
    fn send(&mut self, _bytes: &[u8]) -> Sent {
        panic!("a reader unit test asked the transport to send");
    }

    fn recv(&mut self, into: &mut [u8]) -> Recv {
        self.calls += 1;
        let step = self.steps.get(self.at).copied();
        self.at += 1;

        match step.unwrap_or(Received::Failed) {
            Received::Byte(value) => match into.first_mut() {
                Some(slot) => {
                    *slot = value;
                    Recv::Bytes(1)
                }
                None => Recv::Bytes(0),
            },
            Received::Nothing => Recv::Nothing,
            Received::Failed => Recv::Failed,
        }
    }
}

fn bytes(values: &[u8]) -> Vec<Received> {
    values.iter().map(|&b| Received::Byte(b)).collect()
}

#[test]
fn a_bad_type_stops_after_one_call() {
    let mut good = Script::new(&bytes(&[0x40, 0x02]));
    assert!(read_header(&mut good).is_ok());
    assert_eq!(good.calls, 2);

    let mut bad = Script::new(&bytes(&[0x10, 0x02]));
    assert_eq!(read_header(&mut bad), Err(ReadError::BadResponse));
    assert_eq!(
        bad.calls, 1,
        "the length was read before the type was checked"
    );
}

#[test]
fn nothing_and_failed_are_one_status_past_the_first_byte() {
    let mut nothing = Script::new(&[Received::Nothing]);
    assert_eq!(read_header(&mut nothing), Err(ReadError::NoDataAvailable));

    let mut failed = Script::new(&[Received::Failed]);
    assert_eq!(read_header(&mut failed), Err(ReadError::RecvFailed));

    let mut late_nothing = Script::new(&[Received::Byte(0x30), Received::Nothing]);
    assert_eq!(read_header(&mut late_nothing), Err(ReadError::BadResponse));

    let mut late_failed = Script::new(&[Received::Byte(0x30), Received::Failed]);
    assert_eq!(read_header(&mut late_failed), Err(ReadError::BadResponse));
}

#[test]
fn a_fifth_length_byte_is_never_asked_for() {
    let mut script = Script::new(&bytes(&[0x30, 0xFF, 0xFF, 0xFF, 0xFF, 0x7F]));
    assert_eq!(read_header(&mut script), Err(ReadError::BadResponse));
    assert_eq!(
        script.calls, 5,
        "the reader asked for a fifth length byte before giving up"
    );
}

#[test]
fn the_out_of_range_check_cannot_fire() {
    let largest = 0x7Fu32 + (0x7F << 7) + (0x7F << 14) + (0x7F << 21);
    assert_eq!(largest, 268_435_455);
    assert_eq!(largest, REMAINING_LENGTH_INVALID - 1);

    let mut script = Script::new(&bytes(&[0x30, 0xFF, 0xFF, 0xFF, 0x7F]));
    let header = read_header(&mut script).expect("the largest legal length");
    assert_eq!(header.remaining_length, largest);
    assert_eq!(script.calls, 5);
}

#[test]
fn the_header_length_counts_the_type_byte() {
    for (script, expected_length, expected_header) in [
        (bytes(&[0x30, 0x00]), 0u32, 2usize),
        (bytes(&[0x30, 0x7F]), 127, 2),
        (bytes(&[0x30, 0x80, 0x01]), 128, 3),
        (bytes(&[0x30, 0xFF, 0xFF, 0x7F]), 2_097_151, 4),
        (bytes(&[0x30, 0xFF, 0xFF, 0xFF, 0x7F]), 268_435_455, 5),
    ] {
        let mut transport = Script::new(&script);
        let header = read_header(&mut transport).expect("a valid header");

        assert_eq!(header.remaining_length, expected_length);
        assert_eq!(header.header_length, expected_header);
        assert_eq!(transport.calls, expected_header);
    }
}
