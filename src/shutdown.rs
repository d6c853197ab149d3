//! Graceful-shutdown settings and outcomes of the HTTP front end.

use vstd::prelude::*;

verus! {

#[derive(Debug, Clone, Copy, PartialEq, Eq)]
pub struct ShutdownConfig {
    pub timeout_secs: u64,
    pub wait_for_jobs: bool,
    pub ws_drain_ms: u64,
}

impl Default for ShutdownConfig {
    fn default() -> (r: ShutdownConfig)
        ensures
            r == (ShutdownConfig { timeout_secs: 30, wait_for_jobs: true, ws_drain_ms: 1000 }),
    {
        ShutdownConfig { timeout_secs: 30, wait_for_jobs: true, ws_drain_ms: 1000 }
    }
}

impl ShutdownConfig {
    /// A short timeout that does not wait for running jobs.
    pub fn quick() -> (r: ShutdownConfig)
        ensures
            r == (ShutdownConfig { timeout_secs: 5, wait_for_jobs: false, ws_drain_ms: 100 }),
    {
        ShutdownConfig { timeout_secs: 5, wait_for_jobs: false, ws_drain_ms: 100 }
    }

    /// The defaults with another timeout.
    pub fn with_timeout(timeout_secs: u64) -> (r: ShutdownConfig)
        ensures
            r == (ShutdownConfig { timeout_secs, wait_for_jobs: true, ws_drain_ms: 1000 }),
    {
        ShutdownConfig { timeout_secs, ..ShutdownConfig::default() }
    }
}

#[derive(Debug, Clone, PartialEq, Eq)]
pub enum ShutdownResult {
    Success,
    Timeout { pending_jobs: usize },
    Error(String),
}

impl ShutdownResult {
    pub fn is_success(&self) -> (r: bool)
        ensures
            r == (self is Success),
    {
        matches!(self, ShutdownResult::Success)
    }

    /// The jobs still running when the timeout struck.
    pub fn pending_jobs(&self) -> (r: Option<usize>)
        ensures
            r == match self {
                ShutdownResult::Timeout { pending_jobs } => Some(*pending_jobs),
                _ => None,
            },
    {
        match self {
            ShutdownResult::Timeout { pending_jobs } => Some(*pending_jobs),
            _ => None,
        }
    }
}

#[derive(Debug, Clone, Copy, PartialEq, Eq, Structural)]
pub enum ShutdownSignal {
    Graceful,
    Immediate,
}

/// One step of a graceful shutdown: the jobs still pending and whether the
/// timeout has passed decide whether to finish or to wait and poll again.
pub fn shutdown_step(config: &ShutdownConfig, pending: usize, timed_out: bool) -> (r: Option<ShutdownResult>)
    ensures
        !config.wait_for_jobs || pending == 0 ==> r == Some(ShutdownResult::Success),
        config.wait_for_jobs && pending > 0 && timed_out ==> r == Some(
            ShutdownResult::Timeout { pending_jobs: pending },
        ),
        config.wait_for_jobs && pending > 0 && !timed_out ==> r is None,
{
    if !config.wait_for_jobs || pending == 0 {
        Some(ShutdownResult::Success)
    } else if timed_out {
        Some(ShutdownResult::Timeout { pending_jobs: pending })
    } else {
        None
    }
}

} // verus!
