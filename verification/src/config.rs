//! The immutable per-run configuration shared by every probe task, and the
//! derivation of the inter-launch delay from a connections-per-second bound.
use vstd::prelude::*;

verus! {

/// Default maximum number of probe launches per second.
pub const DEFAULT_CONNECTIONS_PER_SECOND: u64 = 30;

/// Default per-request timeout, in seconds.
pub const DEFAULT_TIMEOUT_SECS: u64 = 5;

/// A flag value that cannot drive a run.
#[derive(PartialEq, Eq, Structural, Clone, Copy, Debug)]
pub enum ConfigError {
    /// The connections-per-second bound was zero: no launch cadence exists.
    ZeroRate,
    /// The worker pool was sized to zero: no probe could ever run.
    ZeroCores,
}

/// Immutable configuration, created once at startup and then only read.
pub struct RunConfig {
    /// URL probed through each proxy.
    pub target: String,
    /// Per-request timeout, in seconds.
    pub timeout_secs: u64,
    /// Pause between consecutive task launches, in milliseconds.
    pub delay_ms: u64,
    /// Worker pool size.
    pub cores: usize,
}

impl RunConfig {
    /// A configuration that can drive a run: at least one worker, and a
    /// delay that a division of one second by a positive rate can produce.
    pub open spec fn wf(self) -> bool {
        &&& self.cores >= 1
        &&& self.delay_ms <= 1000
    }

    /// Builds the run configuration. The inter-launch delay is one second
    /// divided by the connections-per-second bound; a zero rate or an empty
    /// worker pool is rejected.
    pub fn new(target: String, cps: u64, cores: usize, timeout_secs: u64) -> (r: Result<
        RunConfig,
        ConfigError,
    >)
        ensures
            r is Ok <==> cps >= 1 && cores >= 1,
            cps == 0 ==> r == Err::<RunConfig, ConfigError>(ConfigError::ZeroRate),
            cps >= 1 && cores == 0 ==> r == Err::<RunConfig, ConfigError>(ConfigError::ZeroCores),
            r matches Ok(c) ==> {
                &&& c.target@ == target@
                &&& c.timeout_secs == timeout_secs
                &&& c.delay_ms == 1000u64 / cps
                &&& c.cores == cores
                &&& c.wf()
            },
    {
        if cps == 0 {
            Err(ConfigError::ZeroRate)
        } else if cores == 0 {
            Err(ConfigError::ZeroCores)
        } else {
            Ok(RunConfig { target, timeout_secs, delay_ms: 1000 / cps, cores })
        }
    }
}

/// Relies on num_cpus::get: the number of logical processing units,
/// documented to be at least 1 whatever the machine reports.
#[verifier::external_body]
fn detected_cores() -> (n: usize)
    ensures
        n >= 1,
{
    num_cpus::get()
}

/// The worker pool size: the requested count where one was given, the
/// machine's processor count otherwise.
pub fn effective_cores(requested: Option<usize>) -> (n: usize)
    ensures
        match requested {
            Some(c) => n == c,
            None => n >= 1,
        },
{
    match requested {
        Some(c) => c,
        None => detected_cores(),
    }
}

} // verus!
