use rusty_rtos_mqtt_core::header::REMAINING_LENGTH_INVALID;
use rusty_rtos_mqtt_core::property::{PropertyError, PropertyReader, decode_variable_length};

#[test]
fn the_in_loop_range_check_cannot_fire() {
    let max: u64 = [1u64, 128, 16_384, 2_097_152].iter().map(|m| 127 * m).sum();

    assert_eq!(
        max, 268_435_455,
        "four bytes of seven bits no longer reach this"
    );
    assert_eq!(
        max + 1,
        u64::from(REMAINING_LENGTH_INVALID),
        "the largest four-byte value is no longer exactly one below the              invalid value, so the in-loop check may now be reachable and the              comment beside it is wrong"
    );

    assert_eq!(
        decode_variable_length(&[0xFF, 0xFF, 0xFF, 0x7F]),
        Ok(268_435_455)
    );
}

#[test]
fn a_property_may_appear_only_once() {
    let bytes = [0x01u8, 0x02, 0x03, 0x04];
    let mut reader = PropertyReader::new(&bytes, 4);
    let mut used = false;

    assert_eq!(reader.u8(&mut used), Ok(0x01));
    assert!(used, "a successful read must mark the property as seen");
    assert_eq!(
        reader.u8(&mut used),
        Err(PropertyError::BadResponse),
        "a repeated property was accepted"
    );
}
