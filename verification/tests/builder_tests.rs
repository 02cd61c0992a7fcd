use rusty_rtos_mqtt_core::builder::{BuilderError, PropertyBuilder};
use rusty_rtos_mqtt_core::header::REMAINING_LENGTH_INVALID;

#[test]
fn the_bound_is_the_first_illegal_remaining_length() {
    assert_eq!(REMAINING_LENGTH_INVALID, 268_435_456);
    assert_eq!(
        REMAINING_LENGTH_INVALID - 1,
        268_435_455,
        "the largest legal remaining length is no longer one below the bound"
    );

    assert!(usize::try_from(REMAINING_LENGTH_INVALID).is_ok());
}

#[test]
fn a_new_builder_is_empty_and_its_length_is_the_section_length() {
    let mut bytes = [0u8; 8];
    let builder = PropertyBuilder::new(&mut bytes).unwrap();

    assert_eq!(builder.len(), 0);
    assert!(builder.is_empty());
    assert_eq!(builder.capacity(), 8);
    assert_eq!(builder.fields(), 0);
    assert_eq!(builder.section(), &[] as &[u8]);
}

#[test]
fn an_empty_buffer_is_refused() {
    let mut nothing: [u8; 0] = [];
    assert_eq!(
        PropertyBuilder::new(&mut nothing).map(|b| b.capacity()),
        Err(BuilderError::Empty)
    );
}
