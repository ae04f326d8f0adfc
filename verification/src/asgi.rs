//! The fallback application supervisor's decisions: when the readiness probe
//! gives up and how a shutdown escalates. Spawning the server, probing it
//! over HTTP, and signalling the process are the binary's business; it feeds
//! each observation in and performs whatever action comes back.

use vstd::prelude::*;

use crate::config::{AsgiConfig, AsgiMode};
use crate::errors::AppError;
use crate::ids::{spec_dec_digits, u64_to_string};

verus! {

/// How many times the readiness probe tries before giving up.
pub const READY_PROBE_ATTEMPTS: u32 = 30;

/// The pause between readiness probes, in milliseconds.
pub const READY_PROBE_DELAY_MS: u64 = 500;

/// How long a graceful shutdown is allowed before force-killing, in seconds.
pub const SHUTDOWN_GRACE_SECS: u64 = 10;

/// What to do after one readiness probe.
#[derive(Clone, Copy, Debug, PartialEq, Eq, Structural)]
pub enum ProbeDecision {
    /// The server answered — any response, even an error, means it listens.
    Ready,
    /// No answer yet; probe again after the given pause.
    RetryAfterMs(u64),
    /// The attempt budget is spent; the start has failed.
    GiveUp,
}

/// Decide after the readiness probe's `attempt`-th try (counted from one):
/// any response makes the server ready; otherwise the probe retries on a
/// fixed pause until the budget of attempts is spent.
pub fn readiness_decision(attempt: u32, responded: bool) -> (r: ProbeDecision)
    ensures
        responded ==> r == ProbeDecision::Ready,
        !responded && attempt < READY_PROBE_ATTEMPTS ==> r == ProbeDecision::RetryAfterMs(
            READY_PROBE_DELAY_MS,
        ),
        !responded && attempt >= READY_PROBE_ATTEMPTS ==> r == ProbeDecision::GiveUp,
{
    if responded {
        ProbeDecision::Ready
    } else if attempt < READY_PROBE_ATTEMPTS {
        ProbeDecision::RetryAfterMs(READY_PROBE_DELAY_MS)
    } else {
        ProbeDecision::GiveUp
    }
}

/// What to do while waiting for a terminated child to exit.
#[derive(Clone, Copy, Debug, PartialEq, Eq, Structural)]
pub enum ShutdownDecision {
    /// The child has exited; the shutdown is complete.
    Done,
    /// Still within the grace period; check again after a short pause.
    WaitAndRecheck,
    /// The grace period is spent; force-kill the child.
    ForceKill,
}

/// Decide during a graceful shutdown, given whether the child has exited and
/// how long the wait has run: wait out the grace period, then escalate.
pub fn shutdown_decision(exited: bool, elapsed_secs: u64) -> (r: ShutdownDecision)
    ensures
        exited ==> r == ShutdownDecision::Done,
        !exited && elapsed_secs < SHUTDOWN_GRACE_SECS ==> r == ShutdownDecision::WaitAndRecheck,
        !exited && elapsed_secs >= SHUTDOWN_GRACE_SECS ==> r == ShutdownDecision::ForceKill,
{
    if exited {
        ShutdownDecision::Done
    } else if elapsed_secs < SHUTDOWN_GRACE_SECS {
        ShutdownDecision::WaitAndRecheck
    } else {
        ShutdownDecision::ForceKill
    }
}

/// The base URL unmatched requests are forwarded to: the locally managed
/// server in mounted mode, the configured service in proxy mode. Proxy mode
/// without a service URL is a configuration fault.
pub fn asgi_target_base(config: &AsgiConfig) -> (r: Result<String, AppError>)
    ensures
        match r {
            Ok(base) => match config.mode {
                AsgiMode::Mounted => base@ == "http://127.0.0.1:"@ + spec_dec_digits(
                    config.port as int,
                ),
                AsgiMode::Proxy => (config.service_url matches Some(u) && base@ == u@),
            },
            Err(e) => {
                &&& config.mode == AsgiMode::Proxy
                &&& config.service_url is None
                &&& (e matches AppError::AsgiConfigError(d) && d@
                    == "service_url required for proxy mode"@)
            },
        },
{
    match config.mode {
        AsgiMode::Mounted => {
            let base = String::from_str("http://127.0.0.1:").concat(
                u64_to_string(config.port as u64).as_str(),
            );
            Ok(base)
        },
        AsgiMode::Proxy => match &config.service_url {
            Some(u) => Ok(u.clone()),
            None => Err(
                AppError::AsgiConfigError(
                    String::from_str("service_url required for proxy mode"),
                ),
            ),
        },
    }
}

} // verus!
