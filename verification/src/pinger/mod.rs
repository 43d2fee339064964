//! Per-target polling worker: the state machine of one probe loop.
//!
//! A worker owns one target. Each iteration it takes a pending configuration
//! update if one is waiting, performs one probe (done by the surrounding
//! process), debounces the observed state against the last known one, emits
//! the facts to persist, and computes the sleep that keeps the start-to-start
//! period at the configured interval.

use vstd::prelude::*;

use crate::db::TargetIterObject;
use crate::db::TargetState;
use crate::db::TargetView;
use crate::pinger::http::PingResponse;

pub mod http;

verus! {

/// The state one probe attempt shows: the classified response, a timeout
/// for an attempt that did not land in time, and a down target for any
/// other failure of the attempt.
pub open spec fn observed_state(o: Option<PingResponse>) -> TargetState {
    match o {
        Some(PingResponse::Up(_)) => TargetState::Up,
        Some(PingResponse::Down(_)) => TargetState::Down,
        Some(PingResponse::Timeout) => TargetState::Timeout,
        None => TargetState::Down,
    }
}

/// The probe record one attempt appends to the store: success flag, and
/// latency and status where the attempt got an answer.
#[derive(Clone, Copy, Debug, PartialEq, Eq, Structural)]
pub struct ProbeRecord {
    pub up: bool,
    pub response_time: Option<u64>,
    pub status: Option<u16>,
}

/// The record an outcome yields. A record is appended on every iteration,
/// success or failure.
pub open spec fn spec_record_of(o: Option<PingResponse>) -> ProbeRecord {
    match o {
        Some(PingResponse::Up((l, s))) => ProbeRecord {
            up: true,
            response_time: Some(l),
            status: Some(s),
        },
        Some(PingResponse::Down((l, s))) => ProbeRecord {
            up: false,
            response_time: Some(l),
            status: Some(s),
        },
        Some(PingResponse::Timeout) => ProbeRecord { up: false, response_time: None, status: None },
        None => ProbeRecord { up: false, response_time: None, status: None },
    }
}

/// The debounced state write an outcome yields: the observed state exactly
/// when it differs from the last known one, else nothing.
pub open spec fn spec_state_write(current: TargetState, o: Option<PingResponse>) -> Option<
    TargetState,
> {
    if observed_state(o) != current {
        Some(observed_state(o))
    } else {
        None
    }
}

/// What one worker iteration asks the surrounding process to persist: first
/// the state write, if any, then the probe record.
pub struct ProbeDecision {
    pub state_write: Option<TargetState>,
    pub record: ProbeRecord,
}

/// The state a worker carries across iterations: its active configuration
/// and the last state it knows the store to hold.
pub struct WorkerState {
    pub target: TargetIterObject,
    pub current_state: TargetState,
}

impl WorkerState {
    /// A worker as spawned for a target: the last known state starts from
    /// the state the enumeration carried.
    pub fn new(target: TargetIterObject) -> (w: WorkerState)
        ensures
            w.target == target,
            w.current_state == target.target_state,
    {
        let current_state = target.target_state;
        WorkerState { target, current_state }
    }

    /// Replace the active configuration with a pending update and re-derive
    /// the last known state from it. This is the only way a worker's
    /// configuration changes.
    pub fn apply_update(&mut self, target: TargetIterObject)
        ensures
            final(self).target == target,
            final(self).current_state == target.target_state,
    {
        self.current_state = target.target_state;
        self.target = target;
    }

    /// Take one probe outcome into account: the last known state becomes the
    /// observed one, and the decision carries the debounced state write and
    /// the unconditional probe record.
    pub fn observe_outcome(&mut self, outcome: Option<PingResponse>) -> (d: ProbeDecision)
        ensures
            final(self).target == old(self).target,
            final(self).current_state == observed_state(outcome),
            d.state_write == spec_state_write(old(self).current_state, outcome),
            d.record == spec_record_of(outcome),
    {
        let observed = match outcome {
            Some(PingResponse::Up(_)) => TargetState::Up,
            Some(PingResponse::Down(_)) => TargetState::Down,
            Some(PingResponse::Timeout) => TargetState::Timeout,
            None => TargetState::Down,
        };
        let record = match outcome {
            Some(PingResponse::Up((l, s))) => ProbeRecord {
                up: true,
                response_time: Some(l),
                status: Some(s),
            },
            Some(PingResponse::Down((l, s))) => ProbeRecord {
                up: false,
                response_time: Some(l),
                status: Some(s),
            },
            Some(PingResponse::Timeout) => ProbeRecord {
                up: false,
                response_time: None,
                status: None,
            },
            None => ProbeRecord { up: false, response_time: None, status: None },
        };
        let state_write = if observed != self.current_state {
            Some(observed)
        } else {
            None
        };
        self.current_state = observed;
        ProbeDecision { state_write, record }
    }
}

/// Whether a target's protocol tag names a prober this process has. The set
/// is closed; a tag outside it is fatal to the target's worker.
pub open spec fn spec_supported_ping_type(t: TargetView) -> bool {
    t.ping_type == "HTTP"@
}

/// Check a target's protocol tag against the closed set of probers.
pub fn supported_ping_type(t: &TargetIterObject) -> (r: bool)
    ensures
        r == spec_supported_ping_type(t@),
{
    let expected = String::from_str("HTTP");
    t.target_ping_type == expected
}

/// The self-correcting sleep: what remains of the interval after a probe
/// took `elapsed_ms`, and nothing — never a negative — once the probe alone
/// exceeded the interval.
pub open spec fn spec_sleep_ms(interval_secs: u32, elapsed_ms: u64) -> u64 {
    if elapsed_ms >= interval_secs * 1000 {
        0u64
    } else {
        (interval_secs * 1000 - elapsed_ms) as u64
    }
}

/// Compute the sleep that closes one iteration, so the start-to-start
/// period trends toward the configured interval.
pub fn compute_sleep(interval_secs: u32, elapsed_ms: u64) -> (r: u64)
    ensures
        r == spec_sleep_ms(interval_secs, elapsed_ms),
{
    let interval_ms: u64 = interval_secs as u64 * 1000;
    if elapsed_ms >= interval_ms {
        0
    } else {
        interval_ms - elapsed_ms
    }
}

/// The state writes a run of consecutive outcomes yields, each debounced
/// against the state left by the one before it.
pub open spec fn spec_write_trace(
    current: TargetState,
    outcomes: Seq<Option<PingResponse>>,
) -> Seq<Option<TargetState>>
    decreases outcomes.len(),
{
    if outcomes.len() == 0 {
        Seq::empty()
    } else {
        seq![spec_state_write(current, outcomes[0])] + spec_write_trace(
            observed_state(outcomes[0]),
            outcomes.drop_first(),
        )
    }
}

/// Debouncing: a run of outcomes that all classify to one state writes that
/// state to the store at most once — on the first outcome, and only when it
/// differs from the state known before the run — while every outcome still
/// yields its probe record.
pub proof fn lemma_state_transitions_debounced(
    current: TargetState,
    outcomes: Seq<Option<PingResponse>>,
    c: TargetState,
)
    requires
        outcomes.len() > 0,
        forall|i: int| 0 <= i < outcomes.len() ==> observed_state(#[trigger] outcomes[i]) == c,
    ensures
        spec_write_trace(current, outcomes).len() == outcomes.len(),
        spec_write_trace(current, outcomes)[0] == (if c != current {
            Some(c)
        } else {
            None::<TargetState>
        }),
        forall|i: int|
            1 <= i < outcomes.len() ==> spec_write_trace(current, outcomes)[i]
                == None::<TargetState>,
    decreases outcomes.len(),
{
    let rest = outcomes.drop_first();
    if rest.len() == 0 {
        assert(spec_write_trace(observed_state(outcomes[0]), rest) =~= Seq::empty());
    } else {
        assert(forall|i: int| 0 <= i < rest.len() ==> rest[i] == outcomes[i + 1]);
        lemma_state_transitions_debounced(c, rest, c);
        assert(forall|i: int|
            1 <= i < outcomes.len() ==> spec_write_trace(current, outcomes)[i] == spec_write_trace(
                c,
                rest,
            )[i - 1]);
    }
}

} // verus!
