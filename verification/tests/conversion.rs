use temperature_publication::convert::{convert, CalibrationCurve};

// The calibration of the reference deployment: 2616 mV reads as -50.0
// degrees and 1558 mV as 50.0 degrees.
fn reference_curve() -> CalibrationCurve {
    CalibrationCurve { raw_a: 2616, temp_a_tenths: -500, raw_b: 1558, temp_b_tenths: 500 }
}

#[test]
fn reference_points_round_trip() {
    let c = reference_curve();
    assert_eq!(convert(&c, 2616), -500);
    assert_eq!(convert(&c, 1558), 500);
}

#[test]
fn midpoint_reads_zero() {
    let c = reference_curve();
    assert_eq!(convert(&c, 2087), 0);
}

#[test]
fn interpolated_value_matches_hand_computation() {
    // (2500 - 2616) mV over a slope of -10.58 mV per degree, from -50.0
    // degrees: -39.04 degrees, rounded to tenths.
    let c = reference_curve();
    assert_eq!(convert(&c, 2500), -390);
}

#[test]
fn falling_curve_is_monotonically_decreasing_on_samples() {
    let c = reference_curve();
    let mut previous = convert(&c, 1000);
    for raw in [1200i64, 1558, 1900, 2087, 2300, 2616, 3000] {
        let t = convert(&c, raw);
        assert!(t <= previous, "temperature rose with the raw reading");
        previous = t;
    }
}

#[test]
fn rising_curve_interpolates() {
    let c = CalibrationCurve { raw_a: 0, temp_a_tenths: 0, raw_b: 100, temp_b_tenths: 1000 };
    assert_eq!(convert(&c, 50), 500);
    assert_eq!(convert(&c, 101), 1010);
}

#[test]
fn conversion_rounds_to_nearest_tenth() {
    let c = CalibrationCurve { raw_a: 0, temp_a_tenths: 0, raw_b: 3, temp_b_tenths: 10 };
    // Exact values 10/3 and 20/3 of a tenth.
    assert_eq!(convert(&c, 1), 3);
    assert_eq!(convert(&c, 2), 7);
}

#[test]
fn halves_round_up() {
    let c = CalibrationCurve { raw_a: 0, temp_a_tenths: 0, raw_b: 4, temp_b_tenths: 10 };
    // Exact values 2.5 and -2.5 tenths.
    assert_eq!(convert(&c, 1), 3);
    assert_eq!(convert(&c, -1), -2);
}

#[test]
fn extrapolation_beyond_references_works() {
    let c = reference_curve();
    // 500 mV below the cold reference: 50 degrees above it.
    assert_eq!(convert(&c, 2616 + 1058), -1500);
}

#[test]
fn degenerate_curve_is_rejected() {
    let c = CalibrationCurve { raw_a: 7, temp_a_tenths: 0, raw_b: 7, temp_b_tenths: 10 };
    assert!(!c.check_wf());
    assert!(reference_curve().check_wf());
}
