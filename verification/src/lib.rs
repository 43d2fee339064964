//! Core of an uptime monitoring probe runner.
//!
//! The library holds the verified logic of the system: the target model and
//! its content fingerprint, the reconciliation registry that diffs the
//! desired set of targets against the running worker pool, the per-target
//! worker state machine with debounced state transitions and self-correcting
//! cadence, the HTTP probe configuration checks, and the startup
//! configuration values. The surrounding process (store access, network
//! probes, task spawning) drives these functions and performs the actions
//! they decide on.

pub mod config;
pub mod db;
pub mod dispatch;
pub mod pinger;
