//! The command listener and the sampling loop it drives.
//!
//! The listener is a two-state machine: `Idle`, waiting for the next
//! transport event, and `Sampling`, while a burst of samples is being taken
//! and published.  The surrounding process performs the waiting, the sensor
//! reads, the publishing and the pauses; every decision — when a burst
//! starts, what each record holds, when the burst ends or aborts — is taken
//! here.
//!
//! A request for zero samples produces no records: the burst ends before
//! the first sample is taken.

use vstd::prelude::*;
use crate::convert::{convert, convert_spec, raw_in_range, CalibrationCurve};
use crate::parse::{
    error_bytes, error_message, extract, extract_spec, parse_extracted_spec, parse_fields,
    CommandErrorModel, SampleRequest,
};
use crate::record::{format_record, record_bytes, SampleRecord};

verus! {

/// What the listener is doing: waiting for a command, or working through a
/// burst with `pending` samples still to take, pausing `interval_ms`
/// between consecutive samples.
#[derive(PartialEq, Eq, Structural, Debug, Clone, Copy)]
pub enum ListenerState {
    Idle,
    Sampling { pending: u32, interval_ms: u64 },
}

/// How many samples are still to take (zero when idle).
pub open spec fn pending_of(s: ListenerState) -> u32 {
    match s {
        ListenerState::Idle => 0,
        ListenerState::Sampling { pending, .. } => pending,
    }
}

impl ListenerState {
    /// A sampling state always has at least one sample left to take; the
    /// burst returns to `Idle` rather than lingering at zero.
    pub open spec fn wf(self) -> bool {
        self is Sampling ==> pending_of(self) >= 1
    }

    /// Whether a burst is in progress.
    pub fn is_sampling(&self) -> (r: bool)
        ensures
            r == (*self is Sampling),
    {
        match self {
            ListenerState::Idle => false,
            ListenerState::Sampling { .. } => true,
        }
    }
}

/// The state a freshly parsed request puts the listener in: a request for
/// zero samples is already finished; any other starts a burst.
pub open spec fn start_burst_spec(req: SampleRequest) -> ListenerState {
    if req.count == 0 {
        ListenerState::Idle
    } else {
        ListenerState::Sampling { pending: req.count, interval_ms: req.interval_ms }
    }
}

/// Begins the burst a request asks for.
pub fn start_burst(req: &SampleRequest) -> (s: ListenerState)
    ensures
        s == start_burst_spec(*req),
        s.wf(),
{
    if req.count == 0 {
        ListenerState::Idle
    } else {
        ListenerState::Sampling { pending: req.count, interval_ms: req.interval_ms }
    }
}

/// The state after one sample was emitted: the burst aborts on a failed
/// emit, finishes when the emitted sample was the last, and otherwise
/// counts down by one.
pub open spec fn after_emit_spec(state: ListenerState, emit_ok: bool) -> ListenerState
    recommends
        state is Sampling,
{
    match state {
        ListenerState::Idle => ListenerState::Idle,
        ListenerState::Sampling { pending, interval_ms } => {
            if !emit_ok || pending <= 1 {
                ListenerState::Idle
            } else {
                ListenerState::Sampling { pending: (pending - 1) as u32, interval_ms }
            }
        },
    }
}

/// Advances the burst after an emit attempt.  The caller pauses for the
/// burst interval exactly when the returned state is still `Sampling`: a
/// pause separates consecutive samples and never follows the last.
pub fn after_emit(state: &ListenerState, emit_ok: bool) -> (next: ListenerState)
    requires
        *state is Sampling,
    ensures
        next == after_emit_spec(*state, emit_ok),
        next.wf(),
{
    match state {
        ListenerState::Idle => ListenerState::Idle,
        ListenerState::Sampling { pending, interval_ms } => {
            if !emit_ok || *pending <= 1 {
                ListenerState::Idle
            } else {
                ListenerState::Sampling { pending: *pending - 1, interval_ms: *interval_ms }
            }
        },
    }
}

/// Takes one sample: converts the raw reading and builds the record to
/// emit, with its wire rendering.  The countdown field is the number of
/// samples still to come after this one.
pub fn sample_record(state: &ListenerState, curve: &CalibrationCurve, raw: i64, uptime_ms: u64) -> (r:
    (SampleRecord, Vec<u8>))
    requires
        *state is Sampling,
        state.wf(),
        curve.wf(),
        raw_in_range(raw as int),
    ensures
        r.0.remaining == pending_of(*state) - 1,
        r.0.temperature_tenths == convert_spec(*curve, raw as int),
        r.0.uptime_ms == uptime_ms,
        r.1@ == record_bytes(r.0),
{
    let pending = match state {
        ListenerState::Idle => 1,
        ListenerState::Sampling { pending, .. } => *pending,
    };
    let temperature_tenths = convert(curve, raw);
    let rec = SampleRecord { remaining: pending - 1, temperature_tenths, uptime_ms };
    let wire = format_record(&rec);
    (rec, wire)
}

/// What the listener does with an inbound payload.  Events that arrive
/// while a burst is in progress are left untouched (the transport holds
/// them until the listener is idle again).  When idle: a payload without
/// the command marker is silently ignored; a command that fails to parse
/// leaves the listener idle and yields a diagnostic to publish; a parsed
/// request starts its burst.
pub open spec fn on_payload_spec(state: ListenerState, payload: Seq<u8>) -> (ListenerState, Option<
    Seq<u8>,
>) {
    if !(state is Idle) {
        (state, None)
    } else {
        match extract_spec(payload) {
            None => (ListenerState::Idle, None),
            Some(cmd) => match parse_extracted_spec(cmd) {
                Ok(req) => (start_burst_spec(req), None),
                Err(e) => (ListenerState::Idle, Some(error_bytes(e))),
            },
        }
    }
}

/// Reacts to an inbound payload: the next state, and the diagnostic to
/// publish if the payload was a command that failed to parse.
pub fn on_payload(state: &ListenerState, payload: &[u8]) -> (r: (ListenerState, Option<Vec<u8>>))
    requires
        state.wf(),
    ensures
        r.0 == on_payload_spec(*state, payload@).0,
        r.0.wf(),
        match r.1 {
            Some(m) => on_payload_spec(*state, payload@).1 == Some(m@),
            None => on_payload_spec(*state, payload@).1 is None,
        },
{
    match state {
        ListenerState::Sampling { .. } => (*state, None),
        ListenerState::Idle => {
            match extract(payload) {
                None => (ListenerState::Idle, None),
                Some(cmd) => {
                    proof {
                        crate::parse::lemma_extracted_marker(payload@, cmd@);
                    }
                    match parse_fields(&cmd) {
                        Ok(req) => (start_burst(&req), None),
                        Err(e) => (ListenerState::Idle, Some(error_message(&e))),
                    }
                },
            }
        },
    }
}

/// The records a burst produces from sample `k` on, given the raw readings
/// and uptimes the collaborators hand back and the outcome of each emit:
/// each sample yields one record counting down; a failed emit ends the
/// burst with its own record as the last.
pub open spec fn burst_records_from(
    curve: CalibrationCurve,
    count: nat,
    k: nat,
    raws: Seq<i64>,
    uptimes: Seq<u64>,
    emit_oks: Seq<bool>,
) -> Seq<SampleRecord>
    recommends
        curve.wf(),
        count <= raws.len(),
        count <= uptimes.len(),
        count <= emit_oks.len(),
        count <= u32::MAX,
        k <= count,
    decreases count - k,
{
    if k >= count {
        Seq::empty()
    } else {
        let rec = SampleRecord {
            remaining: (count - 1 - k) as u32,
            temperature_tenths: convert_spec(curve, raws[k as int] as int) as i64,
            uptime_ms: uptimes[k as int],
        };
        if emit_oks[k as int] {
            seq![rec] + burst_records_from(curve, count, k + 1, raws, uptimes, emit_oks)
        } else {
            seq![rec]
        }
    }
}

/// The records a whole burst of `count` samples produces.
pub open spec fn burst_records(
    curve: CalibrationCurve,
    count: nat,
    raws: Seq<i64>,
    uptimes: Seq<u64>,
    emit_oks: Seq<bool>,
) -> Seq<SampleRecord> {
    burst_records_from(curve, count, 0, raws, uptimes, emit_oks)
}

/// Whether the burst runs to completion from sample `k` on: no emit among
/// the remaining samples fails.
pub open spec fn burst_completes_from(count: nat, k: nat, emit_oks: Seq<bool>) -> bool
    recommends
        count <= emit_oks.len(),
        k <= count,
    decreases count - k,
{
    if k >= count {
        true
    } else if !emit_oks[k as int] {
        false
    } else {
        burst_completes_from(count, k + 1, emit_oks)
    }
}

/// Whether a whole burst of `count` samples runs to completion.
pub open spec fn burst_completes(count: nat, emit_oks: Seq<bool>) -> bool {
    burst_completes_from(count, 0, emit_oks)
}

/// The sampling loop, over collaborators replaced by values: the raw
/// reading and uptime each sample would observe, and the outcome of each
/// emit.  Drives the same steps the surrounding process drives — begin the
/// burst, take and render a sample, advance past its emit — and returns
/// every record the burst produced and whether it ran to completion.
pub fn run_burst(
    curve: &CalibrationCurve,
    req: &SampleRequest,
    raws: &Vec<i64>,
    uptimes: &Vec<u64>,
    emit_oks: &Vec<bool>,
) -> (r: (Vec<SampleRecord>, bool))
    requires
        curve.wf(),
        req.count <= raws@.len(),
        req.count <= uptimes@.len(),
        req.count <= emit_oks@.len(),
        forall|k: int| 0 <= k < raws@.len() ==> raw_in_range(#[trigger] raws@[k] as int),
    ensures
        r.0@ == burst_records(*curve, req.count as nat, raws@, uptimes@, emit_oks@),
        r.1 == burst_completes(req.count as nat, emit_oks@),
{
    let count = req.count;
    let mut state = start_burst(req);
    let mut out: Vec<SampleRecord> = Vec::new();
    let mut completed = true;
    let mut k: usize = 0;
    while state.is_sampling()
        invariant
            curve.wf(),
            count == req.count,
            count <= raws@.len(),
            count <= uptimes@.len(),
            count <= emit_oks@.len(),
            forall|j: int| 0 <= j < raws@.len() ==> raw_in_range(#[trigger] raws@[j] as int),
            0 <= k <= count,
            state.wf(),
            state is Sampling ==> k < count && pending_of(state) == count - k,
            state is Sampling ==> completed && out@ + burst_records_from(
                *curve,
                count as nat,
                k as nat,
                raws@,
                uptimes@,
                emit_oks@,
            ) == burst_records(*curve, count as nat, raws@, uptimes@, emit_oks@),
            state is Sampling ==> burst_completes(count as nat, emit_oks@)
                == burst_completes_from(count as nat, k as nat, emit_oks@),
            !(state is Sampling) ==> out@ == burst_records(
                *curve,
                count as nat,
                raws@,
                uptimes@,
                emit_oks@,
            ),
            !(state is Sampling) ==> completed == burst_completes(count as nat, emit_oks@),
        decreases count - k,
    {
        let raw = raws[k];
        let up = uptimes[k];
        let ok = emit_oks[k];
        let (rec, _wire) = sample_record(&state, curve, raw, up);
        out.push(rec);
        if !ok {
            completed = false;
        }
        proof {
            let ghost full = burst_records(*curve, count as nat, raws@, uptimes@, emit_oks@);
            let ghost here = burst_records_from(
                *curve,
                count as nat,
                k as nat,
                raws@,
                uptimes@,
                emit_oks@,
            );
            let ghost rest = burst_records_from(
                *curve,
                count as nat,
                k as nat + 1,
                raws@,
                uptimes@,
                emit_oks@,
            );
            if emit_oks@[k as int] {
                assert(here == seq![rec] + rest);
                assert(out@ + rest =~= full);
            } else {
                assert(here == seq![rec]);
                assert(out@ =~= full);
            }
        }
        state = after_emit(&state, ok);
        k = k + 1;
    }
    (out, completed)
}

/// A full burst: when every emit succeeds, a request for `count` samples
/// produces exactly `count` records, whose countdown fields run
/// `count - 1`, `count - 2`, ..., `0` in that order; each record carries
/// its reading converted through the curve and its own uptime stamp.
pub proof fn lemma_full_burst(
    curve: CalibrationCurve,
    count: nat,
    raws: Seq<i64>,
    uptimes: Seq<u64>,
    emit_oks: Seq<bool>,
)
    requires
        count <= raws.len(),
        count <= uptimes.len(),
        count <= emit_oks.len(),
        count <= u32::MAX,
        forall|k: int| 0 <= k < count ==> emit_oks[k],
    ensures
        burst_records(curve, count, raws, uptimes, emit_oks).len() == count,
        forall|j: int| 0 <= j < count ==> #[trigger] burst_records(
            curve,
            count,
            raws,
            uptimes,
            emit_oks,
        )[j] == (SampleRecord {
            remaining: (count - 1 - j) as u32,
            temperature_tenths: convert_spec(curve, raws[j] as int) as i64,
            uptime_ms: uptimes[j],
        }),
        burst_completes(count, emit_oks),
{
    lemma_burst_from_all_ok(curve, count, 0, raws, uptimes, emit_oks);
}

/// A burst over zero samples: no record is produced at all.
pub proof fn lemma_zero_count_burst(
    curve: CalibrationCurve,
    raws: Seq<i64>,
    uptimes: Seq<u64>,
    emit_oks: Seq<bool>,
)
    ensures
        burst_records(curve, 0, raws, uptimes, emit_oks) == Seq::<SampleRecord>::empty(),
        burst_completes(0, emit_oks),
{
}

/// Helper for the burst laws: the records from sample `k` on, while every
/// emit up to the first failure (if any) succeeds.
proof fn lemma_burst_from_all_ok(
    curve: CalibrationCurve,
    count: nat,
    k: nat,
    raws: Seq<i64>,
    uptimes: Seq<u64>,
    emit_oks: Seq<bool>,
)
    requires
        k <= count <= raws.len(),
        count <= uptimes.len(),
        count <= emit_oks.len(),
        count <= u32::MAX,
        forall|j: int| k <= j < count ==> emit_oks[j],
    ensures
        burst_records_from(curve, count, k, raws, uptimes, emit_oks).len() == count - k,
        forall|j: int| 0 <= j < count - k ==> #[trigger] burst_records_from(
            curve,
            count,
            k,
            raws,
            uptimes,
            emit_oks,
        )[j] == (SampleRecord {
            remaining: (count - 1 - k - j) as u32,
            temperature_tenths: convert_spec(curve, raws[k + j] as int) as i64,
            uptime_ms: uptimes[k + j],
        }),
        burst_completes_from(count, k, emit_oks),
    decreases count - k,
{
    if k < count {
        lemma_burst_from_all_ok(curve, count, k + 1, raws, uptimes, emit_oks);
    }
}

/// An aborted burst: when the emit of sample `f` is the first to fail,
/// the burst produces exactly the records of samples `0` to `f` — the
/// record whose emit failed is the last one built, no later sample is
/// attempted — and the burst does not complete.
pub proof fn lemma_aborted_burst(
    curve: CalibrationCurve,
    count: nat,
    raws: Seq<i64>,
    uptimes: Seq<u64>,
    emit_oks: Seq<bool>,
    f: int,
)
    requires
        count <= raws.len(),
        count <= uptimes.len(),
        count <= emit_oks.len(),
        count <= u32::MAX,
        0 <= f < count,
        !emit_oks[f],
        forall|k: int| 0 <= k < f ==> emit_oks[k],
    ensures
        burst_records(curve, count, raws, uptimes, emit_oks).len() == f + 1,
        forall|j: int| 0 <= j <= f ==> #[trigger] burst_records(
            curve,
            count,
            raws,
            uptimes,
            emit_oks,
        )[j] == (SampleRecord {
            remaining: (count - 1 - j) as u32,
            temperature_tenths: convert_spec(curve, raws[j] as int) as i64,
            uptime_ms: uptimes[j],
        }),
        !burst_completes(count, emit_oks),
{
    lemma_burst_from_first_failure(curve, count, 0, raws, uptimes, emit_oks, f);
}

/// Helper for the abort law, by induction from sample `k` on.
proof fn lemma_burst_from_first_failure(
    curve: CalibrationCurve,
    count: nat,
    k: nat,
    raws: Seq<i64>,
    uptimes: Seq<u64>,
    emit_oks: Seq<bool>,
    f: int,
)
    requires
        k <= count <= raws.len(),
        count <= uptimes.len(),
        count <= emit_oks.len(),
        count <= u32::MAX,
        k <= f < count,
        !emit_oks[f],
        forall|j: int| k <= j < f ==> emit_oks[j],
    ensures
        burst_records_from(curve, count, k, raws, uptimes, emit_oks).len() == f + 1 - k,
        forall|j: int| 0 <= j < f + 1 - k ==> #[trigger] burst_records_from(
            curve,
            count,
            k,
            raws,
            uptimes,
            emit_oks,
        )[j] == (SampleRecord {
            remaining: (count - 1 - k - j) as u32,
            temperature_tenths: convert_spec(curve, raws[k + j] as int) as i64,
            uptime_ms: uptimes[k + j],
        }),
        !burst_completes_from(count, k, emit_oks),
    decreases count - k,
{
    if k < f {
        lemma_burst_from_first_failure(curve, count, k + 1, raws, uptimes, emit_oks, f);
    }
}

/// The listener never starts a second sampling loop while one is in
/// progress: a payload arriving mid-burst leaves the state exactly as it
/// was and triggers nothing; it is taken up only once the listener is idle
/// again.
pub proof fn lemma_busy_listener_defers(state: ListenerState, payload: Seq<u8>)
    requires
        state is Sampling,
    ensures
        on_payload_spec(state, payload).0 == state,
        on_payload_spec(state, payload).1 is None,
{
}

} // verus!
