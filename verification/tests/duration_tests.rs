use causm::duration::parse_duration_to_ms;

#[test]
fn durations_in_each_unit() {
    assert_eq!(parse_duration_to_ms("250ms"), 250);
    assert_eq!(parse_duration_to_ms(" 2s "), 2000);
    assert_eq!(parse_duration_to_ms("1500us"), 1);
    assert_eq!(parse_duration_to_ms("3000000ns"), 3);
    assert_eq!(parse_duration_to_ms("42"), 42);
    assert_eq!(parse_duration_to_ms("+7ms"), 7);
}

#[test]
fn durations_that_cannot_be_read_are_zero() {
    assert_eq!(parse_duration_to_ms("abc"), 0);
    assert_eq!(parse_duration_to_ms("ms"), 0);
    assert_eq!(parse_duration_to_ms("-5ms"), 0);
    assert_eq!(parse_duration_to_ms("18446744073709551616"), 0);
    assert_eq!(parse_duration_to_ms(""), 0);
}

#[test]
fn repeated_suffixes_are_all_removed() {
    assert_eq!(parse_duration_to_ms("5msms"), 5);
    assert_eq!(parse_duration_to_ms("\t9ss\n"), 9000);
}
