use temperature_publication::record::{format_record, SampleRecord};

#[test]
fn record_renders_all_three_fields() {
    let rec = SampleRecord { remaining: 2, temperature_tenths: -123, uptime_ms: 45678 };
    assert_eq!(format_record(&rec), b"2,-12.3,45678".to_vec());
}

#[test]
fn zero_record_renders() {
    let rec = SampleRecord { remaining: 0, temperature_tenths: 0, uptime_ms: 0 };
    assert_eq!(format_record(&rec), b"0,0.0,0".to_vec());
}

#[test]
fn positive_temperature_has_one_decimal() {
    let rec = SampleRecord { remaining: 10, temperature_tenths: 987, uptime_ms: 123456789 };
    assert_eq!(format_record(&rec), b"10,98.7,123456789".to_vec());
}

#[test]
fn small_negative_temperature_keeps_sign() {
    let rec = SampleRecord { remaining: 1, temperature_tenths: -5, uptime_ms: 42 };
    assert_eq!(format_record(&rec), b"1,-0.5,42".to_vec());
}

#[test]
fn whole_degrees_render_a_zero_tenth() {
    let rec = SampleRecord { remaining: 3, temperature_tenths: -30, uptime_ms: 9 };
    assert_eq!(format_record(&rec), b"3,-3.0,9".to_vec());
}

#[test]
fn large_uptime_renders_fully() {
    let rec = SampleRecord { remaining: 4294967295, temperature_tenths: 1, uptime_ms: u64::MAX };
    assert_eq!(
        format_record(&rec),
        b"4294967295,0.1,18446744073709551615".to_vec()
    );
}
