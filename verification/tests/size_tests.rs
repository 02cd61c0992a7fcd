use rusty_rtos_mqtt_core::header::MAX_REMAINING_LENGTH;
use rusty_rtos_mqtt_core::size::{PINGREQ_PACKET_SIZE, SizeError, ack_packet_size, subscribe_packet_size, unsubscribe_packet_size};

#[test]
fn a_refusal_hands_the_caller_nothing() {
    let refused = subscribe_packet_size(&[5], 0, 12);
    assert_eq!(refused, Err(SizeError::BadParameter));

    let allowed = subscribe_packet_size(&[5], 0, 13).expect("13 bytes fit in 13");
    assert_eq!(allowed.packet_size, 13);
    assert_eq!(allowed.remaining_length, 11);
}

#[test]
fn subscribe_costs_one_byte_per_filter_more() {
    for filters in [&[5usize][..], &[5, 10], &[5, 10, 20], &[0, 0, 0, 0]] {
        let sub = subscribe_packet_size(filters, 0, 1_000_000).expect("a small list");
        let unsub = unsubscribe_packet_size(filters, 0, 1_000_000).expect("a small list");

        assert_eq!(
            sub.remaining_length - unsub.remaining_length,
            filters.len() as u32,
            "the options byte is not being counted once per filter"
        );
    }
}

#[test]
fn the_in_loop_check_is_subsumed_by_saturating_arithmetic() {
    let filters = [65_535usize; 256];

    let refused = subscribe_packet_size(&filters, 268_000_000, u32::MAX);
    assert_eq!(refused, Err(SizeError::BadParameter));

    let huge = subscribe_packet_size(&[65_535; 8], MAX_REMAINING_LENGTH, u32::MAX);
    assert_eq!(
        huge,
        Err(SizeError::BadParameter),
        "an over-large list was accepted -- the arithmetic may have wrapped"
    );
}

#[test]
fn a_zero_maximum_is_refused_either_way() {
    let smallest = subscribe_packet_size(&[0], 0, u32::MAX).expect("the smallest list");
    assert!(
        smallest.packet_size >= 4,
        "a list packet can now be smaller than four bytes, so a zero \
         maximum may no longer be refused by the size check alone"
    );

    assert_eq!(
        subscribe_packet_size(&[0], 0, 0),
        Err(SizeError::BadParameter)
    );
    assert_eq!(ack_packet_size(0, 0), Err(SizeError::BadParameter));
}

#[test]
fn a_pingreq_is_always_two_bytes() {
    assert_eq!(PINGREQ_PACKET_SIZE, 2);
}
