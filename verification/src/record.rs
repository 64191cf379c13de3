//! Outbound telemetry records and their wire rendering.
//!
//! A record is written as `<remaining>,<temperature>,<uptime_ms>`, the
//! temperature with exactly one decimal digit (tenths of a degree).

use vstd::prelude::*;
use crate::digits::{dec_digits, push_decimal_u64, DIGIT_ZERO};

verus! {

/// ASCII `','`, the wire field separator.
pub const COMMA: u8 = 44;

/// ASCII `'-'`.
pub const MINUS: u8 = 45;

/// ASCII `'.'`.
pub const DOT: u8 = 46;

/// One telemetry sample: how many samples are still to come after this one,
/// the converted temperature in tenths of a degree, and the device uptime
/// when the sample was taken.
pub struct SampleRecord {
    pub remaining: u32,
    pub temperature_tenths: i64,
    pub uptime_ms: u64,
}

/// A temperature in tenths of a degree, written with one decimal digit:
/// sign, whole degrees, `'.'`, tenths digit.
pub open spec fn temp_tenths_bytes(t: int) -> Seq<u8> {
    let m = if t < 0 { -t } else { t };
    let unsigned = dec_digits((m / 10) as nat) + seq![DOT] + seq![(DIGIT_ZERO + m % 10) as u8];
    if t < 0 {
        seq![MINUS] + unsigned
    } else {
        unsigned
    }
}

/// The wire form of a record: `<remaining>,<temperature>,<uptime_ms>`.
pub open spec fn record_bytes(r: SampleRecord) -> Seq<u8> {
    dec_digits(r.remaining as nat) + seq![COMMA] + temp_tenths_bytes(r.temperature_tenths as int)
        + seq![COMMA] + dec_digits(r.uptime_ms as nat)
}

/// Appends a temperature in tenths of a degree with one decimal digit.
fn push_temp_tenths(out: &mut Vec<u8>, t: i64)
    requires
        t != i64::MIN,
    ensures
        final(out)@ == old(out)@ + temp_tenths_bytes(t as int),
{
    let m: u64 = if t < 0 {
        out.push(MINUS);
        (-t) as u64
    } else {
        t as u64
    };
    push_decimal_u64(out, m / 10);
    out.push(DOT);
    out.push(DIGIT_ZERO + (m % 10) as u8);
    assert(out@ =~= old(out)@ + temp_tenths_bytes(t as int));
}

/// Renders a record for the wire: `<remaining>,<temperature>,<uptime_ms>`,
/// temperature with one decimal digit.
pub fn format_record(rec: &SampleRecord) -> (out: Vec<u8>)
    requires
        rec.temperature_tenths != i64::MIN,
    ensures
        out@ == record_bytes(*rec),
{
    let mut out: Vec<u8> = Vec::new();
    push_decimal_u64(&mut out, rec.remaining as u64);
    out.push(COMMA);
    push_temp_tenths(&mut out, rec.temperature_tenths);
    out.push(COMMA);
    push_decimal_u64(&mut out, rec.uptime_ms);
    assert(out@ =~= record_bytes(*rec));
    out
}

} // verus!
