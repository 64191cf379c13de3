//! Command-driven temperature telemetry core.
//!
//! A remotely commanded sampling agent: inbound text commands are parsed
//! into bounded sampling requests, each request drives a countdown burst of
//! sensor samples, and every sample is converted through a two-point linear
//! calibration and rendered as a wire record.  Everything here is pure
//! computation over plain values; the surrounding process supplies the
//! transport, the sensor and the clock.

pub mod convert;
pub mod digits;
pub mod listener;
pub mod parse;
pub mod record;
