use temperature_publication::convert::CalibrationCurve;
use temperature_publication::listener::{
    after_emit, on_payload, run_burst, sample_record, start_burst, ListenerState,
};
use temperature_publication::parse::SampleRequest;

fn reference_curve() -> CalibrationCurve {
    CalibrationCurve { raw_a: 2616, temp_a_tenths: -500, raw_b: 1558, temp_b_tenths: 500 }
}

#[test]
fn full_burst_counts_down_to_zero() {
    let c = reference_curve();
    let req = SampleRequest { count: 3, interval_ms: 10 };
    let raws = vec![2616i64, 2087, 1558];
    let uptimes = vec![100u64, 200, 300];
    let oks = vec![true, true, true];
    let (records, completed) = run_burst(&c, &req, &raws, &uptimes, &oks);
    assert!(completed);
    assert_eq!(records.len(), 3);
    let remaining: Vec<u32> = records.iter().map(|r| r.remaining).collect();
    assert_eq!(remaining, vec![2, 1, 0]);
    let temps: Vec<i64> = records.iter().map(|r| r.temperature_tenths).collect();
    assert_eq!(temps, vec![-500, 0, 500]);
    let ups: Vec<u64> = records.iter().map(|r| r.uptime_ms).collect();
    assert_eq!(ups, vec![100, 200, 300]);
}

#[test]
fn zero_count_burst_produces_no_records() {
    let c = reference_curve();
    let req = SampleRequest { count: 0, interval_ms: 10 };
    let (records, completed) = run_burst(&c, &req, &vec![], &vec![], &vec![]);
    assert!(completed);
    assert!(records.is_empty());
}

#[test]
fn failed_emit_aborts_the_burst() {
    let c = reference_curve();
    let req = SampleRequest { count: 5, interval_ms: 10 };
    let raws = vec![2616i64; 5];
    let uptimes = vec![7u64; 5];
    let oks = vec![true, false, true, true, true];
    let (records, completed) = run_burst(&c, &req, &raws, &uptimes, &oks);
    assert!(!completed);
    assert_eq!(records.len(), 2);
    let remaining: Vec<u32> = records.iter().map(|r| r.remaining).collect();
    assert_eq!(remaining, vec![4, 3]);
}

#[test]
fn busy_listener_defers_new_commands() {
    let idle = ListenerState::Idle;
    let (busy, msg) = on_payload(&idle, b"measure:2,5");
    assert_eq!(busy, ListenerState::Sampling { pending: 2, interval_ms: 5 });
    assert_eq!(msg, None);
    // A second command arrives before the burst completes: nothing happens.
    let (still_busy, msg2) = on_payload(&busy, b"measure:9,9");
    assert_eq!(still_busy, busy);
    assert_eq!(msg2, None);
}

#[test]
fn non_command_payload_is_ignored_silently() {
    let (state, msg) = on_payload(&ListenerState::Idle, b"link established");
    assert_eq!(state, ListenerState::Idle);
    assert_eq!(msg, None);
}

#[test]
fn bad_count_yields_diagnostic_and_idle() {
    let (state, msg) = on_payload(&ListenerState::Idle, b"measure:x,5");
    assert_eq!(state, ListenerState::Idle);
    assert_eq!(msg, Some(b"Invalid number of measurements: x".to_vec()));
}

#[test]
fn bad_shape_yields_diagnostic_and_idle() {
    let (state, msg) = on_payload(&ListenerState::Idle, b"measure:5");
    assert_eq!(state, ListenerState::Idle);
    assert_eq!(msg, Some(b"Invalid command: measure:5".to_vec()));
}

#[test]
fn zero_count_command_finishes_immediately() {
    let (state, msg) = on_payload(&ListenerState::Idle, b"measure:0,500");
    assert_eq!(state, ListenerState::Idle);
    assert_eq!(msg, None);
}

#[test]
fn stepping_a_two_sample_burst_by_hand() {
    let c = reference_curve();
    let state = start_burst(&SampleRequest { count: 2, interval_ms: 30 });
    assert_eq!(state, ListenerState::Sampling { pending: 2, interval_ms: 30 });

    let (rec1, wire1) = sample_record(&state, &c, 2087, 1000);
    assert_eq!(rec1.remaining, 1);
    assert_eq!(wire1, b"1,0.0,1000".to_vec());
    let state = after_emit(&state, true);
    assert_eq!(state, ListenerState::Sampling { pending: 1, interval_ms: 30 });

    let (rec2, wire2) = sample_record(&state, &c, 1558, 1030);
    assert_eq!(rec2.remaining, 0);
    assert_eq!(wire2, b"0,50.0,1030".to_vec());
    let state = after_emit(&state, true);
    assert_eq!(state, ListenerState::Idle);
}

#[test]
fn emit_failure_returns_to_idle() {
    let busy = ListenerState::Sampling { pending: 5, interval_ms: 1 };
    assert_eq!(after_emit(&busy, false), ListenerState::Idle);
}

#[test]
fn zero_count_start_is_idle() {
    let s = start_burst(&SampleRequest { count: 0, interval_ms: 99 });
    assert_eq!(s, ListenerState::Idle);
}
