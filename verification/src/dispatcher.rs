//! The dispatcher: which record may start, when to wait, and when the
//! producing half of the pipeline is done.

use crate::fault::{escalated, escalation, Fault, Outcome};
use vstd::prelude::*;

verus! {

/// What the dispatcher asks of its driver next.
#[derive(Clone, Copy, Debug, PartialEq, Eq)]
pub enum Step {
    /// Take the next record from the input and start its unit of work.
    Pull,
    /// Wait for a unit of work to finish.
    Wait,
    /// Close the sending side of the result channel and report the outcome.
    Close(Outcome),
}

/// The dispatcher's state as a value.
pub struct DispatcherView {
    /// The concurrency budget.
    pub budget: nat,
    /// Units of work that have started and not yet finished.
    pub active: nat,
    /// Whether the input has ended.
    pub input_done: bool,
    /// The first fatal fault that a unit of work reported.
    pub failure: Option<Fault>,
}

impl DispatcherView {
    /// The states that a dispatcher can be in.
    pub open spec fn wf(self) -> bool {
        &&& 1 <= self.budget
        &&& self.active <= self.budget
        &&& self.failure matches Some(fault) ==> fault.fatal()
    }

    /// The state before any record was taken.
    pub open spec fn initial(budget: nat) -> Self {
        DispatcherView { budget, active: 0, input_done: false, failure: None }
    }

    /// What the driver has to do in this state.
    pub open spec fn next_step(self) -> Step {
        if let Some(fault) = self.failure {
            Step::Close(Err(fault))
        } else if !self.input_done && self.active < self.budget {
            Step::Pull
        } else if self.active > 0 {
            Step::Wait
        } else {
            Step::Close(Ok(()))
        }
    }

    /// Whether a unit of work may start.
    pub open spec fn can_start(self) -> bool {
        self.next_step() == Step::Pull
    }

    /// The state after a unit of work has started.
    pub open spec fn start(self) -> Self {
        DispatcherView { active: self.active + 1, ..self }
    }

    /// The state after a unit of work has finished with the given outcome.
    pub open spec fn finish(self, outcome: Outcome) -> Self {
        DispatcherView {
            active: (self.active - 1) as nat,
            failure: if self.failure is Some {
                self.failure
            } else {
                escalation(outcome)
            },
            ..self
        }
    }

    /// The state after the input has ended.
    pub open spec fn end_input(self) -> Self {
        DispatcherView { input_done: true, ..self }
    }
}

/// Bounds the comparisons that run at the same time, and decides when the
/// producing half of the pipeline is done.
pub struct Dispatcher {
    budget: usize,
    active: usize,
    input_done: bool,
    failure: Option<Fault>,
}

impl View for Dispatcher {
    type V = DispatcherView;

    closed spec fn view(&self) -> DispatcherView {
        DispatcherView {
            budget: self.budget as nat,
            active: self.active as nat,
            input_done: self.input_done,
            failure: self.failure,
        }
    }
}

impl Dispatcher {
    #[verifier::type_invariant]
    spec fn inv(self) -> bool {
        self@.wf()
    }

    /// A dispatcher for the given concurrency budget, with no record taken yet.
    pub fn new(budget: usize) -> (dispatcher: Self)
        requires
            budget >= 1,
        ensures
            dispatcher@ == DispatcherView::initial(budget as nat),
    {
        Dispatcher { budget, active: 0, input_done: false, failure: None }
    }

    /// The concurrency budget.
    pub fn budget(&self) -> (budget: usize)
        ensures
            budget == self@.budget,
    {
        self.budget
    }

    /// The number of units of work that have started and not yet finished.
    pub fn active(&self) -> (active: usize)
        ensures
            active == self@.active,
            self@.wf(),
    {
        proof {
            use_type_invariant(self);
        }
        self.active
    }

    /// Whether the input has ended.
    pub fn input_done(&self) -> (done: bool)
        ensures
            done == self@.input_done,
    {
        self.input_done
    }

    /// The first fatal fault that a unit of work reported, if any.
    pub fn failure(&self) -> (failure: Option<Fault>)
        ensures
            failure == self@.failure,
    {
        self.failure
    }

    /// What the driver has to do next.
    pub fn next_step(&self) -> (step: Step)
        ensures
            step == self@.next_step(),
    {
        if let Some(fault) = self.failure {
            Step::Close(Err(fault))
        } else if !self.input_done && self.active < self.budget {
            Step::Pull
        } else if self.active > 0 {
            Step::Wait
        } else {
            Step::Close(Ok(()))
        }
    }

    /// Takes a slot for the unit of work of a record that was just pulled.
    /// Nothing changes, and `false` is returned, where no unit of work may
    /// start: every slot is taken, the input has ended, or a fatal fault was
    /// reported.
    pub fn start_work(&mut self) -> (started: bool)
        ensures
            started == old(self)@.can_start(),
            final(self)@ == if started {
                old(self)@.start()
            } else {
                old(self)@
            },
            final(self)@.wf(),
    {
        proof {
            use_type_invariant(&*self);
        }
        if self.failure.is_none() && !self.input_done && self.active < self.budget {
            self.active = self.active + 1;
            true
        } else {
            false
        }
    }

    /// Releases the slot of a unit of work that finished with the given
    /// outcome. The first fatal fault is kept; a fault that is not fatal only
    /// frees the slot. Nothing changes, and `false` is returned, where no unit
    /// of work is active.
    pub fn finish_work(&mut self, outcome: Outcome) -> (released: bool)
        ensures
            released == (old(self)@.active > 0),
            final(self)@ == if released {
                old(self)@.finish(outcome)
            } else {
                old(self)@
            },
            final(self)@.wf(),
    {
        proof {
            use_type_invariant(&*self);
        }
        if self.active > 0 {
            self.active = self.active - 1;
            if self.failure.is_none() {
                self.failure = escalated(outcome);
            }
            true
        } else {
            false
        }
    }

    /// Records that the input has ended: no further record will be pulled.
    pub fn end_of_input(&mut self)
        ensures
            final(self)@ == old(self)@.end_input(),
            final(self)@.wf(),
    {
        proof {
            use_type_invariant(&*self);
        }
        self.input_done = true;
    }
}

/// What a driver can report to the dispatcher.
pub enum Event {
    /// A record was pulled and its unit of work is to start.
    Started,
    /// A unit of work has finished with this outcome.
    Finished(Outcome),
    /// The input has ended.
    InputEnded,
}

impl DispatcherView {
    /// The state after the driver has reported `event`. A start that is not
    /// allowed, and an end of work where none is active, change nothing.
    pub open spec fn on(self, event: Event) -> Self {
        match event {
            Event::Started => if self.can_start() {
                self.start()
            } else {
                self
            },
            Event::Finished(outcome) => if self.active > 0 {
                self.finish(outcome)
            } else {
                self
            },
            Event::InputEnded => self.end_input(),
        }
    }

    /// The state after the driver has reported the events, one after the
    /// other.
    pub open spec fn on_all(self, events: Seq<Event>) -> Self
        decreases events.len(),
    {
        if events.len() == 0 {
            self
        } else {
            self.on_all(events.drop_last()).on(events.last())
        }
    }
}

/// Concurrency bound, faults included: whatever a driver reports, and in
/// whatever order, no more units of work are active than the budget allows.
/// The budget never changes, input that has ended stays ended, and the first
/// fatal fault stays the one that the dispatcher reports.
pub proof fn theorem_within_budget(start: DispatcherView, events: Seq<Event>)
    requires
        start.wf(),
    ensures
        start.on_all(events).wf(),
        start.on_all(events).active <= start.budget,
        start.on_all(events).budget == start.budget,
        start.input_done ==> start.on_all(events).input_done,
        start.failure is Some ==> start.on_all(events).failure == start.failure,
    decreases events.len(),
{
    if events.len() > 0 {
        theorem_within_budget(start, events.drop_last());
    }
}

/// Escalation: a unit of work that finishes with a fatal fault makes the
/// dispatcher ask to close with a fault, and nothing that is reported
/// afterwards changes that. A unit that finishes cleanly, or with a fault
/// that is not fatal, changes nothing about the failure that the dispatcher
/// holds.
pub proof fn theorem_fatal_fault_closes(
    start: DispatcherView,
    outcome: Outcome,
    events: Seq<Event>,
)
    requires
        start.wf(),
        start.active > 0,
    ensures
        escalation(outcome) matches Some(fault) ==> start.finish(outcome).on_all(
            events,
        ).next_step() == Step::Close(
            Err(
                if start.failure is Some {
                    start.failure->0
                } else {
                    fault
                },
            ),
        ),
        escalation(outcome) is None ==> start.finish(outcome).failure == start.failure,
{
    theorem_within_budget(start.finish(outcome), events);
}

} // verus!
