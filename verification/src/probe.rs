//! The outcome of a single connectivity probe, and the decision it drives.
use vstd::prelude::*;

verus! {

/// What one probe through one proxy came to.
#[derive(PartialEq, Eq, Structural, Clone, Copy, Debug)]
pub enum ProbeOutcome {
    /// A response of any status arrived within the timeout.
    Reachable,
    /// The request failed or timed out: connection, DNS, TLS and timeout
    /// failures are not told apart.
    Unreachable,
    /// The probe could not even be configured: the client layer rejected
    /// the proxy address itself.
    SetupRejected,
}

/// Only a proxy whose probe reached the target is recorded. A rejected
/// setup counts as a failed proxy, not as a program error, and is never
/// recorded.
pub fn should_record(outcome: ProbeOutcome) -> (record: bool)
    ensures
        record <==> outcome == ProbeOutcome::Reachable,
{
    match outcome {
        ProbeOutcome::Reachable => true,
        ProbeOutcome::Unreachable => false,
        ProbeOutcome::SetupRejected => false,
    }
}

} // verus!
