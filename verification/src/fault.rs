//! The faults of a run and how far each of them reaches.

use vstd::prelude::*;

verus! {

/// What can go wrong in a run.
#[derive(Clone, Copy, Debug, PartialEq, Eq, Structural)]
pub enum Fault {
    /// The description of the API could not be read or understood.
    Startup,
    /// One input record could not be decoded.
    RecordDecode,
    /// The comparison engine failed on a well-formed record.
    Comparison,
    /// A result could not be handed over or written.
    Delivery,
    /// A unit of work ended without reporting its outcome.
    Worker,
}

/// How one half of the pipeline, or the whole run, ended.
pub type Outcome = Result<(), Fault>;

/// Exit status of a run that ended cleanly.
pub const EXIT_CLEAN: i32 = 0;

/// Exit status of a run that never started streaming.
pub const EXIT_STARTUP: i32 = 1;

/// Exit status of a run that a fault stopped while it was streaming.
pub const EXIT_ABORTED: i32 = 101;

impl Fault {
    /// Whether the fault ends the run. A record that cannot be decoded is
    /// skipped; every other fault is fatal.
    pub open spec fn fatal(self) -> bool {
        self != Fault::RecordDecode
    }

    /// Whether the fault ends the run.
    pub fn is_fatal(&self) -> (fatal: bool)
        ensures
            fatal == self.fatal(),
    {
        match self {
            Fault::RecordDecode => false,
            _ => true,
        }
    }
}

/// The fatal fault that an outcome carries, if any.
pub open spec fn escalation(outcome: Outcome) -> Option<Fault> {
    match outcome {
        Err(fault) if fault.fatal() => Some(fault),
        _ => None,
    }
}

/// The fatal fault that an outcome carries, if any: a fault that is recovered
/// where it occurs never reaches further.
pub fn escalated(outcome: Outcome) -> (fault: Option<Fault>)
    ensures
        fault == escalation(outcome),
{
    match outcome {
        Err(fault) => if fault.is_fatal() {
            Some(fault)
        } else {
            None
        },
        Ok(()) => None,
    }
}

/// The outcome of a task that has ended, from what it left behind: its own
/// outcome if it reported one, and a worker fault if it ended without.
pub open spec fn outcome_of(reported: Option<Outcome>) -> Outcome {
    match reported {
        Some(outcome) => outcome,
        None => Err(Fault::Worker),
    }
}

/// The outcome of a task that has ended: a task that ended without reporting
/// an outcome has failed, with a worker fault.
pub fn task_outcome(reported: Option<Outcome>) -> (outcome: Outcome)
    ensures
        outcome == outcome_of(reported),
{
    match reported {
        Some(outcome) => outcome,
        None => Err(Fault::Worker),
    }
}

/// The exit status for the outcome of a run.
pub open spec fn exit_status(outcome: Outcome) -> i32 {
    match escalation(outcome) {
        None => EXIT_CLEAN,
        Some(Fault::Startup) => EXIT_STARTUP,
        Some(_) => EXIT_ABORTED,
    }
}

/// The exit status for the outcome of a run: zero exactly where no fatal fault
/// occurred.
pub fn exit_code(outcome: Outcome) -> (code: i32)
    ensures
        code == exit_status(outcome),
        code == 0 <==> escalation(outcome) is None,
{
    match escalated(outcome) {
        None => EXIT_CLEAN,
        Some(Fault::Startup) => EXIT_STARTUP,
        Some(_) => EXIT_ABORTED,
    }
}

} // verus!
