//! Domain model of the monitored targets as the backing store presents them.
//!
//! The store keeps one row per target and encodes the last-known state as a
//! one-byte code. The encoding is isolated here: everything else works on the
//! closed `TargetState` variant.

use vstd::prelude::*;

verus! {

/// Last-known state of a target.
#[derive(Clone, Copy, Debug, PartialEq, Eq, Structural)]
pub enum TargetState {
    Unknown,
    Up,
    Down,
    Timeout,
}

impl TargetState {
    /// The one-byte code under which the store persists this state.
    pub open spec fn spec_code(self) -> i8 {
        match self {
            TargetState::Unknown => 0,
            TargetState::Up => 1,
            TargetState::Down => 2,
            TargetState::Timeout => 3,
        }
    }

    /// Encode the state for the store boundary.
    pub fn code(self) -> (r: i8)
        ensures
            r == self.spec_code(),
    {
        match self {
            TargetState::Unknown => 0,
            TargetState::Up => 1,
            TargetState::Down => 2,
            TargetState::Timeout => 3,
        }
    }

    /// Decode a state code read from the store; any code outside the closed
    /// set is a malformed row.
    pub fn from_code(c: i8) -> (r: Option<TargetState>)
        ensures
            r == spec_state_from_code(c),
    {
        match c {
            0 => Some(TargetState::Unknown),
            1 => Some(TargetState::Up),
            2 => Some(TargetState::Down),
            3 => Some(TargetState::Timeout),
            _ => None,
        }
    }
}

/// What `TargetState::from_code` returns for each code.
pub open spec fn spec_state_from_code(c: i8) -> Option<TargetState> {
    if c == 0 {
        Some(TargetState::Unknown)
    } else if c == 1 {
        Some(TargetState::Up)
    } else if c == 2 {
        Some(TargetState::Down)
    } else if c == 3 {
        Some(TargetState::Timeout)
    } else {
        None
    }
}

/// Encoding then decoding a state gives the state back, so the store
/// round-trips every value of the closed set.
pub proof fn lemma_state_code_roundtrip(s: TargetState)
    ensures
        spec_state_from_code(s.spec_code()) == Some(s),
{
}

/// One target row as enumerated from the store: the endpoint to monitor,
/// whether polling is wanted, its cadence, and its protocol-specific
/// metadata blob (opaque here, interpreted by the matching prober).
///
/// The identifier is the 128-bit value of the row key and is stable across
/// reconciliation cycles.
#[derive(Clone, Debug)]
pub struct TargetIterObject {
    pub target_id: u128,
    pub target_enabled: bool,
    pub target_name: String,
    pub target_address: String,
    pub target_ping_type: String,
    pub target_interval: u32,
    pub target_state: TargetState,
    pub target_metadata: String,
}

/// Mathematical view of a target row.
pub struct TargetView {
    pub id: u128,
    pub enabled: bool,
    pub name: Seq<char>,
    pub address: Seq<char>,
    pub ping_type: Seq<char>,
    pub interval: u32,
    pub state: TargetState,
    pub metadata: Seq<char>,
}

impl View for TargetIterObject {
    type V = TargetView;

    open spec fn view(&self) -> TargetView {
        TargetView {
            id: self.target_id,
            enabled: self.target_enabled,
            name: self.target_name@,
            address: self.target_address@,
            ping_type: self.target_ping_type@,
            interval: self.target_interval,
            state: self.target_state,
            metadata: self.target_metadata@,
        }
    }
}

} // verus!
