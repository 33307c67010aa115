use mem_hog::driver::{CommandKind, DEFAULT_AMOUNT, DriverState, classify};
use mem_hog::parse::{ParseError, parse_input};

#[test]
fn fresh_driver_state() {
    let st = DriverState::new();
    assert_eq!(st.accumulator_size(), 0);
    assert_eq!(st.current_amount(), DEFAULT_AMOUNT);
    assert_eq!(st.current_amount(), 5_000_000);
    assert_eq!(st.distinct_values(), 0);
    assert_eq!(st.total_keys(), 0);
}

#[test]
fn classify_maps_every_code() {
    assert_eq!(classify(0), CommandKind::Exit);
    assert_eq!(classify(1), CommandKind::FillLight);
    assert_eq!(classify(2), CommandKind::FillIter);
    assert_eq!(classify(3), CommandKind::FillConsume);
    assert_eq!(classify(4), CommandKind::Trim);
    assert_eq!(classify(5), CommandKind::Clear);
    assert_eq!(classify(6), CommandKind::Reset);
    assert_eq!(classify(7), CommandKind::Reconfigure);
    assert_eq!(classify(8), CommandKind::Invalid);
    assert_eq!(classify(99), CommandKind::Invalid);
}

#[test]
fn reconfigured_amount_governs_the_next_accumulate() {
    let mut st = DriverState::new();
    st.set_amount(1000);
    assert_eq!(st.current_amount(), 1000);
    st.accumulate_light();
    assert_eq!(st.accumulator_size(), 1000);
    st.set_amount(250);
    st.accumulate_iter();
    assert_eq!(st.accumulator_size(), 1250);
    st.set_amount(50);
    st.accumulate_consume();
    assert_eq!(st.accumulator_size(), 1300);
}

#[test]
fn size_counter_counts_requests_not_stored_keys() {
    let mut st = DriverState::new();
    st.set_amount(400);
    st.accumulate_light();
    st.accumulate_light();
    assert_eq!(st.accumulator_size(), 800);
    assert!(st.total_keys() <= 800);
}

#[test]
fn clear_and_reset_zero_the_state_in_either_order() {
    let mut a = DriverState::new();
    a.set_amount(300);
    a.accumulate_light();
    a.clear();
    a.reset();
    let mut b = DriverState::new();
    b.set_amount(300);
    b.accumulate_light();
    b.reset();
    b.clear();
    assert_eq!(a.accumulator_size(), 0);
    assert_eq!(b.accumulator_size(), 0);
    assert_eq!(a.distinct_values(), 0);
    assert_eq!(b.distinct_values(), 0);
    assert_eq!(a.current_amount(), 300);
    assert_eq!(b.current_amount(), 300);
}

#[test]
fn end_to_end_scenario() {
    let mut st = DriverState::new();
    // Command 7: reconfigure the amount to 1000.
    assert_eq!(classify(parse_input(b"7").unwrap()), CommandKind::Reconfigure);
    st.set_amount(parse_input(b"1000").unwrap());
    // Command 1: accumulate with the light strategy.
    assert_eq!(classify(parse_input(b"1").unwrap()), CommandKind::FillLight);
    st.accumulate_light();
    assert_eq!(st.accumulator_size(), 1000);
    assert!(st.distinct_values() >= 1);
    assert!(st.distinct_values() <= 1000);
    assert!(st.total_keys() >= st.distinct_values());
    // Command 5: clear.
    assert_eq!(classify(parse_input(b"5").unwrap()), CommandKind::Clear);
    st.clear();
    assert_eq!(st.accumulator_size(), 0);
    assert_eq!(st.distinct_values(), 0);
    // Command 0: exit.
    assert_eq!(classify(parse_input(b"0").unwrap()), CommandKind::Exit);
}

#[test]
fn invalid_input_leaves_the_state_unchanged() {
    let mut st = DriverState::new();
    st.set_amount(10);
    st.accumulate_light();
    let size = st.accumulator_size();
    let values = st.distinct_values();
    // Non-integer text: the parse fails and no command runs.
    assert_eq!(parse_input(b"not a number"), Err(ParseError::InvalidChar));
    assert_eq!(st.accumulator_size(), size);
    assert_eq!(st.distinct_values(), values);
    // An unrecognized code: classified as invalid and no command runs.
    assert_eq!(classify(parse_input(b"42").unwrap()), CommandKind::Invalid);
    assert_eq!(st.accumulator_size(), size);
    assert_eq!(st.distinct_values(), values);
}
