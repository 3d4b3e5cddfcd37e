//! A whole run of the pipeline as a transition system, and what holds of
//! every run whatever the order in which its parts take their steps.
//!
//! The state puts the parts side by side: the dispatcher, the units of work
//! of the records taken so far, the result channel, the sink, what the sink
//! has written, and the coordinator. A move is one step of one part, as that
//! part's own contract describes it. The input stands for what decoding and
//! comparison make of each record.

use crate::channel::ChannelView;
use crate::coordinator::{CoordinatorView, Half};
use crate::dispatcher::DispatcherView;
use crate::fault::{escalation, Fault, Outcome};
use crate::sink::{after_write, poll_of, SinkStep};
use crate::worker::{WorkStep, WorkView};
use vstd::multiset::Multiset;
use vstd::prelude::*;

verus! {

/// What decoding and comparing one record of the input come to.
pub enum RecordView<T> {
    /// The record cannot be decoded.
    Undecodable,
    /// The record decodes, and its findings come to these items.
    Items(Seq<T>),
    /// The record decodes, and the comparison engine fails on it.
    Failed,
}

/// The unit of work of a record that was taken.
pub enum UnitView<T> {
    /// The unit has not yet reported its outcome.
    Active(WorkView<T>),
    /// The unit has reported this outcome and has given its slot back.
    Finished(Outcome),
}

/// One step of one part of the pipeline.
pub enum Move {
    /// The dispatcher takes the next record and starts its unit of work.
    Pull,
    /// The dispatcher asks for a record and learns that the input has ended.
    EndInput,
    /// The unit of work of the record with this index takes a step.
    Advance(int),
    /// The dispatcher closes the sending side of the channel.
    Close,
    /// The sink takes a step. Where it takes an item out, the item is
    /// written; the flag says whether the write succeeds.
    Poll(bool),
}

/// The state of a run.
pub struct RunView<T> {
    /// What decoding and comparison make of each record of the input.
    pub input: Seq<RecordView<T>>,
    /// The units of work of the records taken so far, in the order of the
    /// records.
    pub units: Seq<UnitView<T>>,
    /// The dispatcher.
    pub dispatcher: DispatcherView,
    /// The result channel.
    pub channel: ChannelView<T>,
    /// The outcome with which the sink has stopped, if it has.
    pub sink: Option<Outcome>,
    /// The items that were written, in the order in which they were written.
    pub written: Seq<T>,
    /// The coordinator.
    pub coordinator: CoordinatorView,
}

/// The items that a record contributes to the output.
pub open spec fn items_of<T>(record: RecordView<T>) -> Seq<T> {
    match record {
        RecordView::Items(items) => items,
        _ => Seq::empty(),
    }
}

/// The unit of work with which a record starts.
pub open spec fn work_for<T>(record: RecordView<T>) -> WorkView<T> {
    match record {
        RecordView::Undecodable => WorkView::skipped(),
        RecordView::Items(items) => WorkView::sending(items),
        RecordView::Failed => WorkView::failed(Fault::Comparison),
    }
}

/// The outcome that the unit of work of a record is to report.
pub open spec fn expected<T>(record: RecordView<T>) -> Outcome {
    match record {
        RecordView::Undecodable => Err(Fault::RecordDecode),
        RecordView::Items(_) => Ok(()),
        RecordView::Failed => Err(Fault::Comparison),
    }
}

/// The items that a unit of work has still to send.
pub open spec fn pending_of<T>(unit: UnitView<T>) -> Seq<T> {
    match unit {
        UnitView::Active(work) => work.pending,
        UnitView::Finished(_) => Seq::empty(),
    }
}

/// The number of units of work that are active.
pub open spec fn active_count<T>(units: Seq<UnitView<T>>) -> nat
    decreases units.len(),
{
    if units.len() == 0 {
        0
    } else {
        active_count(units.drop_last()) + if units.last() is Active {
            1nat
        } else {
            0nat
        }
    }
}

/// All items that the units of work have still to send.
pub open spec fn pending_total<T>(units: Seq<UnitView<T>>) -> Multiset<T>
    decreases units.len(),
{
    if units.len() == 0 {
        Multiset::empty()
    } else {
        pending_total(units.drop_last()).add(pending_of(units.last()).to_multiset())
    }
}

/// All items that the records contribute, in no order.
pub open spec fn produced<T>(input: Seq<RecordView<T>>) -> Multiset<T>
    decreases input.len(),
{
    if input.len() == 0 {
        Multiset::empty()
    } else {
        produced(input.drop_last()).add(items_of(input.last()).to_multiset())
    }
}

/// The sum, over the records that decode, of the number of items of each.
pub open spec fn produced_count<T>(input: Seq<RecordView<T>>) -> nat
    decreases input.len(),
{
    if input.len() == 0 {
        0
    } else {
        produced_count(input.drop_last()) + items_of(input.last()).len()
    }
}

impl<T> RunView<T> {
    /// The state before the first move.
    pub open spec fn initial(input: Seq<RecordView<T>>, budget: nat, capacity: nat) -> Self {
        RunView {
            input,
            units: Seq::empty(),
            dispatcher: DispatcherView::initial(budget),
            channel: ChannelView::empty(capacity),
            sink: None,
            written: Seq::empty(),
            coordinator: CoordinatorView::initial(),
        }
    }

    /// Whether the move can be made in this state. A step that would change
    /// nothing, of a unit that is blocked or of a sink that has to wait, is
    /// no move.
    pub open spec fn enabled(self, m: Move) -> bool {
        match m {
            Move::Pull => self.dispatcher.can_start() && self.units.len() < self.input.len(),
            Move::EndInput => self.dispatcher.can_start() && self.units.len() == self.input.len(),
            Move::Advance(i) => {
                &&& 0 <= i < self.units.len()
                &&& self.units[i] matches UnitView::Active(work)
                &&& work.advance(self.channel).2 != WorkStep::Blocked
            },
            Move::Close => self.dispatcher.next_step() is Close && !self.channel.closed,
            Move::Poll(_) => !self.coordinator.sink_done && !(poll_of(
                self.sink,
                self.channel,
            ).2 is Suspend),
        }
    }

    /// The state after the move.
    pub open spec fn step(self, m: Move) -> Self {
        match m {
            Move::Pull => RunView {
                dispatcher: self.dispatcher.start(),
                units: self.units.push(
                    UnitView::Active(work_for(self.input[self.units.len() as int])),
                ),
                ..self
            },
            Move::EndInput => RunView { dispatcher: self.dispatcher.end_input(), ..self },
            Move::Advance(i) => {
                let (work, channel, step) = self.units[i]->Active_0.advance(self.channel);
                match step {
                    WorkStep::Sent => RunView {
                        units: self.units.update(i, UnitView::Active(work)),
                        channel,
                        ..self
                    },
                    WorkStep::Blocked => self,
                    WorkStep::Done(outcome) => RunView {
                        units: self.units.update(i, UnitView::Finished(outcome)),
                        dispatcher: self.dispatcher.finish(outcome),
                        ..self
                    },
                }
            },
            Move::Close => RunView {
                channel: self.channel.close(),
                coordinator: self.coordinator.report(
                    Half::Dispatcher,
                    self.dispatcher.next_step()->Close_0,
                ),
                ..self
            },
            Move::Poll(written) => {
                let (sink, channel, step) = poll_of(self.sink, self.channel);
                match step {
                    SinkStep::Write(item) => RunView {
                        sink: after_write(sink, written),
                        channel,
                        written: if written {
                            self.written.push(item)
                        } else {
                            self.written
                        },
                        ..self
                    },
                    SinkStep::Suspend => self,
                    SinkStep::Finish(outcome) => RunView {
                        sink,
                        channel,
                        coordinator: self.coordinator.report(Half::Sink, outcome),
                        ..self
                    },
                }
            },
        }
    }

    /// Whether the moves can be made one after the other, starting here.
    pub open spec fn admits(self, moves: Seq<Move>) -> bool
        decreases moves.len(),
    {
        if moves.len() == 0 {
            true
        } else {
            self.admits(moves.drop_last()) && self.after(moves.drop_last()).enabled(moves.last())
        }
    }

    /// The state after the moves were made one after the other, starting here.
    pub open spec fn after(self, moves: Seq<Move>) -> Self
        decreases moves.len(),
    {
        if moves.len() == 0 {
            self
        } else {
            self.after(moves.drop_last()).step(moves.last())
        }
    }

    /// How the run has ended, if it has.
    pub open spec fn verdict(self) -> Option<Outcome> {
        self.coordinator.verdict()
    }

    /// Whether the run has ended.
    pub open spec fn finished(self) -> bool {
        self.verdict() is Some
    }

    /// Whether no fatal fault has occurred so far: no unit of work has
    /// reported one, and no write has failed.
    pub open spec fn clean(self) -> bool {
        self.dispatcher.failure is None && !(self.sink matches Some(Err(_)))
    }

    /// The items that the pipeline holds or has written: those written,
    /// those queued in the channel, and those still with their units of work.
    pub open spec fn held(self) -> Multiset<T> {
        self.written.to_multiset().add(self.channel.queue.to_multiset()).add(
            pending_total(self.units),
        )
    }

    /// The items of the records taken so far.
    pub open spec fn taken(self) -> Multiset<T> {
        produced(self.input.take(self.units.len() as int))
    }

    /// Whether each item of the records taken so far is in exactly one
    /// place: written, queued in the channel, or still with its unit of work.
    pub open spec fn conserved(self) -> bool {
        self.held() == self.taken()
    }

    /// What holds in every state of a run.
    pub open spec fn inv(self) -> bool {
        &&& self.dispatcher.wf()
        &&& self.channel.wf()
        &&& self.units.len() <= self.input.len()
        &&& self.dispatcher.input_done ==> self.units.len() == self.input.len()
        &&& active_count(self.units) == self.dispatcher.active
        &&& forall|i: int|
            0 <= i < self.units.len() ==> match #[trigger] self.units[i] {
                UnitView::Active(work) => work.outcome == expected(self.input[i]),
                UnitView::Finished(outcome) => self.dispatcher.failure is None ==> outcome
                    == expected(self.input[i]) && escalation(outcome) is None,
            }
        &&& self.channel.closed == self.coordinator.dispatcher_done
        &&& self.channel.closed && self.dispatcher.failure is None ==> self.dispatcher.input_done
            && self.dispatcher.active == 0
        &&& self.coordinator.sink_done ==> self.sink is Some
        &&& self.sink == Some(Ok::<(), Fault>(())) ==> self.channel.drained()
        &&& self.sink matches Some(Err(fault)) ==> fault.fatal()
        &&& self.coordinator.failure is None ==> {
            &&& self.coordinator.dispatcher_done ==> self.dispatcher.failure is None
            &&& self.coordinator.sink_done ==> self.sink == Some(Ok::<(), Fault>(()))
        }
        &&& self.held().subset_of(self.taken())
        &&& self.clean() ==> self.conserved()
    }
}

/// Whether nothing in the run fails fatally: the comparison engine fails on
/// no record, and no write fails.
pub open spec fn fault_free<T>(input: Seq<RecordView<T>>, moves: Seq<Move>) -> bool {
    &&& forall|i: int| 0 <= i < input.len() ==> !(#[trigger] input[i] is Failed)
    &&& forall|k: int| 0 <= k < moves.len() ==> #[trigger] moves[k] != Move::Poll(false)
}

/// There is one clean outcome.
proof fn lemma_one_clean_outcome(outcome: Outcome)
    requires
        outcome is Ok,
    ensures
        outcome == Ok::<(), Fault>(()),
{
    match outcome {
        Ok(nothing) => {
            assert(nothing == ());
        },
        Err(_) => {},
    }
}

/// An empty sequence holds no item.
proof fn lemma_nothing<T>(items: Seq<T>)
    requires
        items.len() == 0,
    ensures
        items.to_multiset() =~= Multiset::empty(),
{
    vstd::seq_lib::to_multiset_len(items);
    vstd::multiset::lemma_multiset_empty_len(items.to_multiset());
}

/// A sequence holds its first item and what follows it.
proof fn lemma_first_and_rest<T>(items: Seq<T>)
    requires
        items.len() > 0,
    ensures
        items.to_multiset() =~= items.drop_first().to_multiset().insert(items.first()),
{
    assert(items.drop_first().insert(0, items.first()) =~= items);
    vstd::seq_lib::to_multiset_insert(items.drop_first(), 0, items.first());
}

/// Replacing one unit of work changes the number of active units by that
/// unit alone.
proof fn lemma_active_update<T>(units: Seq<UnitView<T>>, i: int, unit: UnitView<T>)
    requires
        0 <= i < units.len(),
    ensures
        active_count(units.update(i, unit)) + (if units[i] is Active {
            1nat
        } else {
            0nat
        }) == active_count(units) + (if unit is Active {
            1nat
        } else {
            0nat
        }),
    decreases units.len(),
{
    let updated = units.update(i, unit);
    if i == units.len() - 1 {
        assert(updated.drop_last() =~= units.drop_last());
    } else {
        assert(updated.drop_last() =~= units.drop_last().update(i, unit));
        lemma_active_update(units.drop_last(), i, unit);
    }
}

/// Replacing one unit of work changes the pending items by that unit's alone.
proof fn lemma_pending_update<T>(units: Seq<UnitView<T>>, i: int, unit: UnitView<T>)
    requires
        0 <= i < units.len(),
    ensures
        pending_total(units.update(i, unit)).add(pending_of(units[i]).to_multiset())
            =~= pending_total(units).add(pending_of(unit).to_multiset()),
    decreases units.len(),
{
    broadcast use vstd::multiset::group_multiset_axioms;

    let updated = units.update(i, unit);
    let rest = pending_total(units.drop_last());
    assert(pending_total(units) == rest.add(pending_of(units.last()).to_multiset()));
    assert(pending_total(updated) == pending_total(updated.drop_last()).add(
        pending_of(updated.last()).to_multiset(),
    ));
    if i == units.len() - 1 {
        assert(updated.drop_last() =~= units.drop_last());
    } else {
        assert(updated.drop_last() =~= units.drop_last().update(i, unit));
        lemma_pending_update(units.drop_last(), i, unit);
        let changed = pending_total(units.drop_last().update(i, unit));
        let gone = pending_of(units[i]).to_multiset();
        let come = pending_of(unit).to_multiset();
        let last = pending_of(units.last()).to_multiset();
        assert(changed.add(gone) =~= rest.add(come));
        assert(changed.add(last).add(gone) =~= changed.add(gone).add(last));
        assert(rest.add(last).add(come) =~= rest.add(come).add(last));
    }
}

/// An active unit of work is counted.
pub proof fn lemma_active_at<T>(units: Seq<UnitView<T>>, i: int)
    requires
        0 <= i < units.len(),
        units[i] is Active,
    ensures
        active_count(units) >= 1,
    decreases units.len(),
{
    if i < units.len() - 1 {
        lemma_active_at(units.drop_last(), i);
    }
}

/// Where no unit of work is active, every unit has finished and nothing is
/// pending.
pub proof fn lemma_idle<T>(units: Seq<UnitView<T>>)
    requires
        active_count(units) == 0,
    ensures
        forall|i: int| 0 <= i < units.len() ==> #[trigger] units[i] is Finished,
        pending_total(units) =~= Multiset::empty(),
    decreases units.len(),
{
    if units.len() > 0 {
        lemma_idle(units.drop_last());
        assert forall|i: int| 0 <= i < units.len() implies #[trigger] units[i] is Finished by {
            if i < units.len() - 1 {
                assert(units.drop_last()[i] is Finished);
            }
        }
        lemma_nothing(pending_of(units.last()));
    }
}

/// The number of items that the records contribute is the sum of their counts.
pub proof fn lemma_produced_len<T>(input: Seq<RecordView<T>>)
    ensures
        produced(input).len() == produced_count(input),
    decreases input.len(),
{
    broadcast use vstd::seq_lib::to_multiset_len;

    if input.len() > 0 {
        lemma_produced_len(input.drop_last());
    }
}

proof fn lemma_pull_keeps_inv<T>(run: RunView<T>)
    requires
        run.inv(),
        run.enabled(Move::Pull),
    ensures
        run.step(Move::Pull).inv(),
{
    broadcast use vstd::multiset::group_multiset_axioms;

    let next = run.step(Move::Pull);
    let n = run.units.len() as int;
    assert(next.units.drop_last() =~= run.units);
    assert(run.input.take(n + 1).drop_last() =~= run.input.take(n));
    assert(pending_of(next.units.last()) =~= items_of(run.input[n]));
    assert(pending_total(next.units) =~= pending_total(run.units).add(
        items_of(run.input[n]).to_multiset(),
    ));
    assert(produced(run.input.take(n + 1)) =~= produced(run.input.take(n)).add(
        items_of(run.input[n]).to_multiset(),
    ));
    assert(next.held() =~= run.held().add(items_of(run.input[n]).to_multiset()));
    assert(next.taken() =~= run.taken().add(items_of(run.input[n]).to_multiset()));
}

proof fn lemma_advance_keeps_inv<T>(run: RunView<T>, i: int)
    requires
        run.inv(),
        run.enabled(Move::Advance(i)),
    ensures
        run.step(Move::Advance(i)).inv(),
{
    broadcast use vstd::multiset::group_multiset_axioms;

    let next = run.step(Move::Advance(i));
    let work = run.units[i]->Active_0;
    let (after, channel, step) = work.advance(run.channel);
    lemma_active_at(run.units, i);
    match step {
        WorkStep::Sent => {
            let item = work.pending.first();
            let unit = UnitView::Active(after);
            assert(next.units == run.units.update(i, unit));
            lemma_active_update(run.units, i, unit);
            lemma_pending_update(run.units, i, unit);
            lemma_first_and_rest(work.pending);
            vstd::seq_lib::to_multiset_build(run.channel.queue, item);
            assert(pending_of(run.units[i]).to_multiset() =~= pending_of(unit).to_multiset().insert(
                item,
            ));
            assert(next.channel.queue.to_multiset() =~= run.channel.queue.to_multiset().insert(
                item,
            ));
            let gone = pending_of(run.units[i]).to_multiset();
            let come = pending_of(unit).to_multiset();
            assert forall|v: T|
                pending_total(next.units).insert(item).count(v) == pending_total(run.units).count(
                    v,
                ) by {
                assert(pending_total(next.units).add(gone).count(v) == pending_total(
                    run.units,
                ).add(come).count(v));
            }
            assert(pending_total(next.units).insert(item) =~= pending_total(run.units));
            assert(next.held() =~= run.held());
        },
        WorkStep::Blocked => {},
        WorkStep::Done(outcome) => {
            let unit = UnitView::<T>::Finished(outcome);
            assert(next.units == run.units.update(i, unit));
            lemma_active_update(run.units, i, unit);
            lemma_pending_update(run.units, i, unit);
            lemma_nothing(pending_of(unit));
            let gone = pending_of(run.units[i]).to_multiset();
            let come = pending_of(unit).to_multiset();
            assert forall|v: T|
                pending_total(next.units).count(v) + gone.count(v) == pending_total(
                    run.units,
                ).count(v) by {
                assert(pending_total(next.units).add(gone).count(v) == pending_total(
                    run.units,
                ).add(come).count(v));
            }
            assert(next.held().add(gone) =~= run.held());
            if next.clean() {
                lemma_nothing(work.pending);
                assert(next.held() =~= run.held());
            }
        },
    }
}

proof fn lemma_poll_keeps_inv<T>(run: RunView<T>, written: bool)
    requires
        run.inv(),
        run.enabled(Move::Poll(written)),
    ensures
        run.step(Move::Poll(written)).inv(),
{
    broadcast use vstd::seq_lib::to_multiset_build;
    broadcast use vstd::multiset::group_multiset_axioms;

    let next = run.step(Move::Poll(written));
    let (sink, channel, step) = poll_of(run.sink, run.channel);
    match step {
        SinkStep::Write(item) => {
            lemma_first_and_rest(run.channel.queue);
            if written {
                assert(next.held() =~= run.held());
            } else {
                assert(next.held().insert(item) =~= run.held());
            }
        },
        SinkStep::Suspend => {},
        SinkStep::Finish(outcome) => {
            if outcome is Ok {
                lemma_one_clean_outcome(outcome);
            }
        },
    }
}

/// Every move that can be made keeps what holds in every state of a run.
pub proof fn lemma_step_keeps_inv<T>(run: RunView<T>, m: Move)
    requires
        run.inv(),
        run.enabled(m),
    ensures
        run.step(m).inv(),
{
    match m {
        Move::Pull => lemma_pull_keeps_inv(run),
        Move::EndInput => {},
        Move::Advance(i) => lemma_advance_keeps_inv(run, i),
        Move::Close => {},
        Move::Poll(written) => lemma_poll_keeps_inv(run, written),
    }
}

/// What holds in every state of a run holds after any moves that can be made
/// from the start.
pub proof fn lemma_runs_keep_inv<T>(
    input: Seq<RecordView<T>>,
    budget: nat,
    capacity: nat,
    moves: Seq<Move>,
)
    requires
        budget >= 1,
        capacity >= 1,
        RunView::initial(input, budget, capacity).admits(moves),
    ensures
        RunView::initial(input, budget, capacity).after(moves).inv(),
        RunView::initial(input, budget, capacity).after(moves).input == input,
        RunView::initial(input, budget, capacity).after(moves).dispatcher.budget == budget,
        RunView::initial(input, budget, capacity).after(moves).channel.capacity == capacity,
    decreases moves.len(),
{
    let start = RunView::initial(input, budget, capacity);
    if moves.len() == 0 {
        assert(start.input.take(0) =~= Seq::empty());
        lemma_nothing(start.written);
        lemma_nothing(start.channel.queue);
        assert(start.held() =~= start.taken());
    } else {
        lemma_runs_keep_inv(input, budget, capacity, moves.drop_last());
        lemma_step_keeps_inv(start.after(moves.drop_last()), moves.last());
    }
}

/// A run in which nothing fails fatally stays clean: the dispatcher holds no
/// failure, the sink has not stopped with a fault, and the coordinator has
/// seen none.
pub proof fn lemma_fault_free_runs_stay_clean<T>(
    input: Seq<RecordView<T>>,
    budget: nat,
    capacity: nat,
    moves: Seq<Move>,
)
    requires
        budget >= 1,
        capacity >= 1,
        RunView::initial(input, budget, capacity).admits(moves),
        fault_free(input, moves),
    ensures
        RunView::initial(input, budget, capacity).after(moves).clean(),
        RunView::initial(input, budget, capacity).after(moves).coordinator.failure is None,
    decreases moves.len(),
{
    let start = RunView::initial(input, budget, capacity);
    if moves.len() > 0 {
        let before = start.after(moves.drop_last());
        assert(fault_free(input, moves.drop_last())) by {
            assert forall|k: int| 0 <= k < moves.drop_last().len() implies #[trigger] moves.drop_last()[k]
                != Move::Poll(false) by {
                assert(moves[k] != Move::Poll(false));
            }
        }
        lemma_fault_free_runs_stay_clean(input, budget, capacity, moves.drop_last());
        lemma_runs_keep_inv(input, budget, capacity, moves.drop_last());
        assert(moves[moves.len() - 1] != Move::Poll(false));
        match moves.last() {
            Move::Advance(i) => {
                lemma_active_at(before.units, i);
                assert(!(input[i] is Failed));
            },
            _ => {},
        }
    }
}

} // verus!
