use memory_tracker::status::{parse_status_memory_kb, ReadError};

#[test]
fn finds_the_resident_memory_line() {
    let content = b"Name:\tcat\nVmPeak:\t 9000 kB\nVmRSS:\t 123 kB\nThreads:\t1\n";
    assert_eq!(parse_status_memory_kb(content), Ok(123));
}

#[test]
fn missing_field_is_malformed() {
    let content = b"Name:\tcat\nVmPeak:\t 9000 kB\nThreads:\t1\n";
    assert_eq!(parse_status_memory_kb(content), Err(ReadError::MalformedStatusData));
}

#[test]
fn empty_content_is_malformed() {
    assert_eq!(parse_status_memory_kb(b""), Err(ReadError::MalformedStatusData));
}

#[test]
fn non_numeric_value_is_malformed() {
    let content = b"VmRSS:\t abc kB\n";
    assert_eq!(parse_status_memory_kb(content), Err(ReadError::MalformedStatusData));
}

#[test]
fn value_too_large_for_64_bits_is_malformed() {
    let content = b"VmRSS:\t 99999999999999999999 kB\n";
    assert_eq!(parse_status_memory_kb(content), Err(ReadError::MalformedStatusData));
}

#[test]
fn largest_value_still_parses() {
    let content = b"VmRSS: 18446744073709551615 kB\n";
    assert_eq!(parse_status_memory_kb(content), Ok(u64::MAX));
}

#[test]
fn a_leading_plus_sign_is_accepted() {
    // mirrors how the standard unsigned parser treats "+5"
    let content = b"VmRSS: +5 kB\n";
    assert_eq!(parse_status_memory_kb(content), Ok(5));
}

#[test]
fn a_bare_label_line_is_passed_over() {
    let content = b"VmRSS:\nVmRSS:\t 77 kB\n";
    assert_eq!(parse_status_memory_kb(content), Ok(77));
}

#[test]
fn the_first_matching_line_wins() {
    let content = b"VmRSS:\t 11 kB\nVmRSS:\t 22 kB\n";
    assert_eq!(parse_status_memory_kb(content), Ok(11));
}

#[test]
fn the_label_must_start_the_line() {
    let content = b"  VmRSS:\t 11 kB\n";
    assert_eq!(parse_status_memory_kb(content), Err(ReadError::MalformedStatusData));
}

#[test]
fn no_trailing_newline_is_needed() {
    let content = b"VmRSS:\t 42 kB";
    assert_eq!(parse_status_memory_kb(content), Ok(42));
}

#[test]
fn a_zero_reading_is_a_value_not_an_error() {
    let content = b"VmRSS:\t 0 kB\n";
    assert_eq!(parse_status_memory_kb(content), Ok(0));
}
