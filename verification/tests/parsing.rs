use temperature_publication::digits::{parse_u32, parse_u64};
use temperature_publication::parse::{extract, parse, error_message, CommandError, SampleRequest};

#[test]
fn parses_plain_command() {
    let r = parse(b"measure:3,500");
    assert_eq!(r, Ok(SampleRequest { count: 3, interval_ms: 500 }));
}

#[test]
fn missing_field_is_malformed() {
    let r = parse(b"measure:3");
    assert_eq!(r, Err(CommandError::MalformedShape(b"measure:3".to_vec())));
}

#[test]
fn non_numeric_count_is_invalid_count() {
    let r = parse(b"measure:x,500");
    assert_eq!(r, Err(CommandError::InvalidCount(b"x".to_vec())));
}

#[test]
fn non_numeric_interval_is_invalid_interval() {
    let r = parse(b"measure:3,abc");
    assert_eq!(r, Err(CommandError::InvalidInterval(b"abc".to_vec())));
}

#[test]
fn payload_without_marker_is_malformed() {
    let r = parse(b"hello world");
    assert_eq!(r, Err(CommandError::MalformedShape(b"hello world".to_vec())));
}

#[test]
fn marker_is_found_inside_framing() {
    let r = parse(b"{\"msg\": \"measure:2,250\"} trailing");
    assert_eq!(r, Ok(SampleRequest { count: 2, interval_ms: 250 }));
}

#[test]
fn extraction_stops_at_quote() {
    let r = extract(b"x measure:1,2\"y,z");
    assert_eq!(r, Some(b"measure:1,2".to_vec()));
}

#[test]
fn extraction_without_quote_runs_to_end() {
    let r = extract(b"noise measure:7,8");
    assert_eq!(r, Some(b"measure:7,8".to_vec()));
}

#[test]
fn extraction_fails_without_marker() {
    assert_eq!(extract(b"measur:3,500"), None);
}

#[test]
fn three_fields_are_malformed() {
    let r = parse(b"measure:1,2,3");
    assert_eq!(r, Err(CommandError::MalformedShape(b"measure:1,2,3".to_vec())));
}

#[test]
fn empty_count_is_invalid_count() {
    let r = parse(b"measure:,5");
    assert_eq!(r, Err(CommandError::InvalidCount(b"".to_vec())));
}

#[test]
fn empty_interval_is_invalid_interval() {
    let r = parse(b"measure:5,");
    assert_eq!(r, Err(CommandError::InvalidInterval(b"".to_vec())));
}

#[test]
fn count_at_u32_max_parses() {
    let r = parse(b"measure:4294967295,1");
    assert_eq!(r, Ok(SampleRequest { count: u32::MAX, interval_ms: 1 }));
}

#[test]
fn count_above_u32_max_is_invalid_count() {
    let r = parse(b"measure:4294967296,1");
    assert_eq!(r, Err(CommandError::InvalidCount(b"4294967296".to_vec())));
}

#[test]
fn interval_at_u64_max_parses() {
    let r = parse(b"measure:1,18446744073709551615");
    assert_eq!(r, Ok(SampleRequest { count: 1, interval_ms: u64::MAX }));
}

#[test]
fn interval_above_u64_max_is_invalid_interval() {
    let r = parse(b"measure:1,18446744073709551616");
    assert_eq!(
        r,
        Err(CommandError::InvalidInterval(b"18446744073709551616".to_vec()))
    );
}

#[test]
fn signed_count_is_rejected() {
    let r = parse(b"measure:+3,500");
    assert_eq!(r, Err(CommandError::InvalidCount(b"+3".to_vec())));
}

#[test]
fn zero_count_parses() {
    let r = parse(b"measure:0,500");
    assert_eq!(r, Ok(SampleRequest { count: 0, interval_ms: 500 }));
}

#[test]
fn malformed_diagnostic_echoes_payload() {
    let msg = error_message(&CommandError::MalformedShape(b"measure:9".to_vec()));
    assert_eq!(msg, b"Invalid command: measure:9".to_vec());
}

#[test]
fn invalid_count_diagnostic_echoes_field() {
    let msg = error_message(&CommandError::InvalidCount(b"x".to_vec()));
    assert_eq!(msg, b"Invalid number of measurements: x".to_vec());
}

#[test]
fn invalid_interval_diagnostic_echoes_field() {
    let msg = error_message(&CommandError::InvalidInterval(b"abc".to_vec()));
    assert_eq!(msg, b"Invalid interval: abc".to_vec());
}

#[test]
fn leading_zeroes_are_accepted() {
    let r = parse(b"measure:007,0500");
    assert_eq!(r, Ok(SampleRequest { count: 7, interval_ms: 500 }));
}

#[test]
fn digits_parse_exactly() {
    assert_eq!(parse_u32(b"042"), Some(42));
    assert_eq!(parse_u32(b""), None);
    assert_eq!(parse_u32(b"12 3"), None);
    assert_eq!(parse_u64(b"18446744073709551615"), Some(u64::MAX));
    assert_eq!(parse_u64(b"18446744073709551616"), None);
}
