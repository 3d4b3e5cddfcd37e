//! The shutdown coordinator: the two halves of the pipeline, the dispatcher
//! and the sink, end as one run.

use crate::fault::{escalated, escalation, Fault, Outcome};
use vstd::prelude::*;

verus! {

/// One of the two halves of the pipeline.
#[derive(Clone, Copy, Debug, PartialEq, Eq, Structural)]
pub enum Half {
    /// The half that takes records and starts their units of work.
    Dispatcher,
    /// The half that writes the results.
    Sink,
}

/// The coordinator's state as a value.
pub struct CoordinatorView {
    /// Whether the dispatcher has ended.
    pub dispatcher_done: bool,
    /// Whether the sink has ended.
    pub sink_done: bool,
    /// The first fatal fault with which a half ended.
    pub failure: Option<Fault>,
}

impl CoordinatorView {
    /// The state while both halves run.
    pub open spec fn initial() -> Self {
        CoordinatorView { dispatcher_done: false, sink_done: false, failure: None }
    }

    /// The state after `half` has ended with `outcome`.
    pub open spec fn report(self, half: Half, outcome: Outcome) -> Self {
        CoordinatorView {
            dispatcher_done: self.dispatcher_done || half == Half::Dispatcher,
            sink_done: self.sink_done || half == Half::Sink,
            failure: if self.failure is Some {
                self.failure
            } else {
                escalation(outcome)
            },
        }
    }

    /// How the run has ended, if it has: with the first fatal fault as soon as
    /// one half has ended with one, and cleanly once both halves have ended
    /// without.
    pub open spec fn verdict(self) -> Option<Outcome> {
        if let Some(fault) = self.failure {
            Some(Err(fault))
        } else if self.dispatcher_done && self.sink_done {
            Some(Ok(()))
        } else {
            None
        }
    }
}

/// The outcome of a run whose halves ended with the given outcomes, the
/// dispatcher reporting first.
pub open spec fn joined(dispatcher: Outcome, sink: Outcome) -> Outcome {
    match escalation(dispatcher) {
        Some(fault) => Err(fault),
        None => match escalation(sink) {
            Some(fault) => Err(fault),
            None => Ok(()),
        },
    }
}

/// Waits for both halves of the pipeline and decides how the run has ended.
pub struct Coordinator {
    dispatcher_done: bool,
    sink_done: bool,
    failure: Option<Fault>,
}

impl View for Coordinator {
    type V = CoordinatorView;

    closed spec fn view(&self) -> CoordinatorView {
        CoordinatorView {
            dispatcher_done: self.dispatcher_done,
            sink_done: self.sink_done,
            failure: self.failure,
        }
    }
}

impl Coordinator {
    /// A coordinator whose halves both run.
    pub fn new() -> (coordinator: Self)
        ensures
            coordinator@ == CoordinatorView::initial(),
    {
        Coordinator { dispatcher_done: false, sink_done: false, failure: None }
    }

    /// Records that `half` has ended with `outcome`.
    pub fn report(&mut self, half: Half, outcome: Outcome)
        ensures
            final(self)@ == old(self)@.report(half, outcome),
    {
        match half {
            Half::Dispatcher => {
                self.dispatcher_done = true;
            },
            Half::Sink => {
                self.sink_done = true;
            },
        }
        if self.failure.is_none() {
            self.failure = escalated(outcome);
        }
    }

    /// How the run has ended, or `None` while it has not.
    pub fn verdict(&self) -> (verdict: Option<Outcome>)
        ensures
            verdict == self@.verdict(),
    {
        if let Some(fault) = self.failure {
            Some(Err(fault))
        } else if self.dispatcher_done && self.sink_done {
            Some(Ok(()))
        } else {
            None
        }
    }
}

/// The outcome of a run from the outcomes of its two halves: clean exactly
/// where neither half ended with a fatal fault.
pub fn join(dispatcher: Outcome, sink: Outcome) -> (outcome: Outcome)
    ensures
        outcome == joined(dispatcher, sink),
        outcome is Ok <==> escalation(dispatcher) is None && escalation(sink) is None,
{
    let mut coordinator = Coordinator::new();
    coordinator.report(Half::Dispatcher, dispatcher);
    coordinator.report(Half::Sink, sink);
    match coordinator.verdict() {
        Some(outcome) => outcome,
        None => Ok(()),
    }
}

/// Both halves or none: the run has no verdict while no half has failed and
/// one of them still runs; it fails as soon as one half ends with a fatal
/// fault; and once both halves have ended, in either order, it is clean
/// exactly if neither ended with a fatal fault.
pub proof fn theorem_both_halves(half: Half, first: Outcome, second: Outcome)
    ensures
        ({
            let other = if half == Half::Dispatcher {
                Half::Sink
            } else {
                Half::Dispatcher
            };
            let one = CoordinatorView::initial().report(half, first);
            let both = one.report(other, second);
            &&& CoordinatorView::initial().verdict() is None
            &&& escalation(first) is None ==> one.verdict() is None
            &&& escalation(first) matches Some(fault) ==> one.verdict() == Some(
                Err::<(), Fault>(fault),
            ) && both.verdict() == one.verdict()
            &&& both.verdict() is Some
            &&& both.verdict()->0 is Ok <==> escalation(first) is None && escalation(second)
                is None
        }),
{
}

} // verus!
