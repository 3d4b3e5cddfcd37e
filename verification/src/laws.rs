//! What every run of the pipeline guarantees, whatever the order in which
//! its parts take their steps.

use crate::dispatcher::Step;
use crate::fault::{Fault, Outcome};
use crate::record::{envelope_of, envelopes_of, Envelope, FindingView};
use crate::run::{
    active_count, expected, fault_free, items_of, lemma_active_at, lemma_fault_free_runs_stay_clean,
    lemma_idle, lemma_produced_len, lemma_runs_keep_inv, produced, produced_count, Move,
    RecordView, RunView, UnitView,
};
use crate::worker::{ComparedView, WorkStep};
use vstd::prelude::*;

verus! {

/// Pass-through: a record has one envelope for each of its findings, in the
/// order of the findings, and each envelope carries the record's tags, tag
/// for tag.
pub proof fn theorem_tags_pass_through(findings: Seq<FindingView>, tags: Seq<Seq<char>>)
    ensures
        envelopes_of(findings, tags).len() == findings.len(),
        forall|i: int|
            0 <= i < findings.len() ==> {
                &&& (#[trigger] envelopes_of(findings, tags)[i]).finding == findings[i]
                &&& envelopes_of(findings, tags)[i].tags == tags
            },
{
}

/// The fingerprints of a record's envelopes.
pub open spec fn fingerprints(envelopes: Seq<Envelope<FindingView>>) -> Seq<Seq<char>> {
    envelopes.map_values(|envelope: Envelope<FindingView>| envelope.fingerprint)
}

/// Determinism of fingerprints: the fingerprints of a record's envelopes are
/// those of its findings, in order. They do not depend on the record's tags,
/// so the same findings give the same fingerprints whichever record they were
/// found in and however often they are put into envelopes.
pub proof fn theorem_fingerprints_follow_findings(
    findings: Seq<FindingView>,
    tags: Seq<Seq<char>>,
    other_tags: Seq<Seq<char>>,
)
    ensures
        fingerprints(envelopes_of(findings, tags)) == findings.map_values(
            |finding: FindingView| finding.fingerprint,
        ),
        fingerprints(envelopes_of(findings, tags)) == fingerprints(
            envelopes_of(findings, other_tags),
        ),
{
    assert(fingerprints(envelopes_of(findings, tags)) =~= findings.map_values(
        |finding: FindingView| finding.fingerprint,
    ));
    assert(fingerprints(envelopes_of(findings, other_tags)) =~= findings.map_values(
        |finding: FindingView| finding.fingerprint,
    ));
}

/// The input of a run, from what decoding and comparing each record came
/// to: a record that was compared contributes the envelopes of its findings.
pub open spec fn sealed(records: Seq<ComparedView>) -> Seq<RecordView<Envelope<FindingView>>> {
    records.map_values(
        |record: ComparedView|
            match record {
                ComparedView::Undecodable => RecordView::Undecodable,
                ComparedView::Findings(findings, tags) => RecordView::Items(
                    envelopes_of(findings, tags),
                ),
                ComparedView::Failed => RecordView::Failed,
            },
    )
}

/// Whether the envelope is that of finding `j` of record `i`, with that
/// record's tags.
pub open spec fn comes_from(
    envelope: Envelope<FindingView>,
    records: Seq<ComparedView>,
    i: int,
    j: int,
) -> bool {
    &&& 0 <= i < records.len()
    &&& records[i] matches ComparedView::Findings(findings, tags)
    &&& 0 <= j < findings.len()
    &&& envelope == envelope_of(findings[j], tags)
}

/// An item that the records contribute is an item of one of them.
proof fn lemma_produced_by_a_record<T>(input: Seq<RecordView<T>>, item: T) -> (i: int)
    requires
        produced(input).count(item) > 0,
    ensures
        0 <= i < input.len(),
        items_of(input[i]).contains(item),
    decreases input.len(),
{
    broadcast use vstd::multiset::group_multiset_axioms;

    if input.len() == 0 {
        0
    } else if items_of(input.last()).to_multiset().count(item) > 0 {
        items_of(input.last()).to_multiset_ensures();
        input.len() - 1
    } else {
        lemma_produced_by_a_record(input.drop_last(), item)
    }
}

/// Pass-through over a whole run: whatever has been written at any point of
/// any run, faults or none, is the envelope of one finding of one record of
/// the input, and carries the tags of that record unchanged. No line is made
/// up, and none is written more often than its record holds it.
pub proof fn theorem_written_comes_from_a_record(
    records: Seq<ComparedView>,
    budget: nat,
    capacity: nat,
    moves: Seq<Move>,
    k: int,
)
    requires
        budget >= 1,
        capacity >= 1,
        RunView::initial(sealed(records), budget, capacity).admits(moves),
        0 <= k < RunView::initial(sealed(records), budget, capacity).after(moves).written.len(),
    ensures
        exists|i: int, j: int| #[trigger]
            comes_from(
                RunView::initial(sealed(records), budget, capacity).after(moves).written[k],
                records,
                i,
                j,
            ),
        RunView::initial(sealed(records), budget, capacity).after(
            moves,
        ).written.to_multiset().subset_of(produced(sealed(records))),
{
    broadcast use vstd::multiset::group_multiset_axioms;

    let input = sealed(records);
    let run = RunView::initial(input, budget, capacity).after(moves);
    let envelope = run.written[k];
    lemma_runs_keep_inv(input, budget, capacity, moves);
    lemma_taken_is_produced(input, run.units.len() as int);
    run.written.to_multiset_ensures();
    assert(run.written.contains(envelope));
    assert(run.written.to_multiset().count(envelope) > 0);
    assert(run.held().count(envelope) > 0);
    let taken = input.take(run.units.len() as int);
    assert(produced(taken).count(envelope) > 0);
    let i = lemma_produced_by_a_record(taken, envelope);
    assert(taken[i] == input[i]);
    let j = choose|j: int|
        0 <= j < items_of(input[i]).len() && items_of(input[i])[j] == envelope;
    assert(comes_from(envelope, records, i, j));
}

/// The records taken so far contribute no item that the whole input does
/// not, and no more items than the whole input does.
proof fn lemma_taken_is_produced<T>(input: Seq<RecordView<T>>, n: int)
    requires
        0 <= n <= input.len(),
    ensures
        produced(input.take(n)).subset_of(produced(input)),
        produced_count(input.take(n)) <= produced_count(input),
    decreases input.len() - n,
{
    broadcast use vstd::multiset::group_multiset_axioms;

    if n < input.len() {
        assert(input.take(n + 1).drop_last() =~= input.take(n));
        lemma_taken_is_produced(input, n + 1);
    } else {
        assert(input.take(n) =~= input);
    }
}

/// The number of records that cannot be decoded.
pub open spec fn undecodable<T>(input: Seq<RecordView<T>>) -> nat
    decreases input.len(),
{
    if input.len() == 0 {
        0
    } else {
        undecodable(input.drop_last()) + if input.last() is Undecodable {
            1nat
        } else {
            0nat
        }
    }
}

/// The number of units of work that have finished with the given outcome.
pub open spec fn finished_with<T>(units: Seq<UnitView<T>>, outcome: Outcome) -> nat
    decreases units.len(),
{
    if units.len() == 0 {
        0
    } else {
        finished_with(units.drop_last(), outcome) + if units.last() == UnitView::<T>::Finished(
            outcome,
        ) {
            1nat
        } else {
            0nat
        }
    }
}

/// Concurrency bound: at no point of any run, faults or none, are more units
/// of work active than the concurrency budget allows, and at no point does
/// the channel hold more than its capacity.
pub proof fn theorem_concurrency_bound<T>(
    input: Seq<RecordView<T>>,
    budget: nat,
    capacity: nat,
    moves: Seq<Move>,
)
    requires
        budget >= 1,
        capacity >= 1,
        RunView::initial(input, budget, capacity).admits(moves),
    ensures
        active_count(RunView::initial(input, budget, capacity).after(moves).units) <= budget,
        RunView::initial(input, budget, capacity).after(moves).dispatcher.active <= budget,
        RunView::initial(input, budget, capacity).after(moves).channel.queue.len() <= capacity,
{
    lemma_runs_keep_inv(input, budget, capacity, moves);
}

/// Nothing is lost on the way: at every point of a run at which no fatal
/// fault has occurred, each item of the records taken so far is in exactly
/// one place. It is written, or it is queued in the channel, or its unit of
/// work has still to send it.
pub proof fn theorem_nothing_lost<T>(
    input: Seq<RecordView<T>>,
    budget: nat,
    capacity: nat,
    moves: Seq<Move>,
)
    requires
        budget >= 1,
        capacity >= 1,
        RunView::initial(input, budget, capacity).admits(moves),
        RunView::initial(input, budget, capacity).after(moves).clean(),
    ensures
        RunView::initial(input, budget, capacity).after(moves).held() == RunView::initial(
            input,
            budget,
            capacity,
        ).after(moves).taken(),
{
    lemma_runs_keep_inv(input, budget, capacity, moves);
}

/// Conservation, and no silent loss: a run that ends with a clean verdict has
/// written, item for item, what the records of the input contribute, and the
/// number of items written is the sum of the numbers of items of the records
/// that decode. The comparison engine has failed on no record. So whenever
/// an item is missing from the output, the run has ended with a fault.
pub proof fn theorem_conservation<T>(
    input: Seq<RecordView<T>>,
    budget: nat,
    capacity: nat,
    moves: Seq<Move>,
)
    requires
        budget >= 1,
        capacity >= 1,
        RunView::initial(input, budget, capacity).admits(moves),
        RunView::initial(input, budget, capacity).after(moves).verdict() == Some(
            Ok::<(), Fault>(()),
        ),
    ensures
        RunView::initial(input, budget, capacity).after(moves).written.to_multiset() == produced(
            input,
        ),
        RunView::initial(input, budget, capacity).after(moves).written.len() == produced_count(
            input,
        ),
        forall|i: int| 0 <= i < input.len() ==> !(#[trigger] input[i] is Failed),
{
    broadcast use vstd::multiset::group_multiset_axioms;

    let run = RunView::initial(input, budget, capacity).after(moves);
    lemma_runs_keep_inv(input, budget, capacity, moves);
    lemma_idle(run.units);
    assert(input.take(input.len() as int) =~= input);
    vstd::seq_lib::to_multiset_len(run.channel.queue);
    vstd::multiset::lemma_multiset_empty_len(run.channel.queue.to_multiset());
    assert(run.written.to_multiset() =~= run.held());
    lemma_produced_len(input);
    vstd::seq_lib::to_multiset_len(run.written);
    assert forall|i: int| 0 <= i < input.len() implies !(#[trigger] input[i] is Failed) by {
        assert(run.units[i] is Finished);
    }
}

/// No loss under backpressure: two runs on the same input that end cleanly
/// end with the same items written, however their steps were ordered and
/// whatever budget and channel capacity each of them had. A consumer that is
/// slow delays the items; it does not change which items arrive, nor how
/// many.
pub proof fn theorem_schedule_does_not_matter<T>(
    input: Seq<RecordView<T>>,
    budget: nat,
    capacity: nat,
    moves: Seq<Move>,
    other_budget: nat,
    other_capacity: nat,
    other_moves: Seq<Move>,
)
    requires
        budget >= 1,
        capacity >= 1,
        other_budget >= 1,
        other_capacity >= 1,
        RunView::initial(input, budget, capacity).admits(moves),
        RunView::initial(input, budget, capacity).after(moves).verdict() == Some(
            Ok::<(), Fault>(()),
        ),
        RunView::initial(input, other_budget, other_capacity).admits(other_moves),
        RunView::initial(input, other_budget, other_capacity).after(other_moves).verdict() == Some(
            Ok::<(), Fault>(()),
        ),
    ensures
        RunView::initial(input, budget, capacity).after(moves).written.to_multiset()
            == RunView::initial(input, other_budget, other_capacity).after(
            other_moves,
        ).written.to_multiset(),
        RunView::initial(input, budget, capacity).after(moves).written.len() == RunView::initial(
            input,
            other_budget,
            other_capacity,
        ).after(other_moves).written.len(),
{
    theorem_conservation(input, budget, capacity, moves);
    theorem_conservation(input, other_budget, other_capacity, other_moves);
}

/// Where every unit of work has finished with the outcome that its record
/// calls for, and the engine has failed on no record, as many units were
/// skipped as there are records that cannot be decoded, and all others
/// completed.
proof fn lemma_outcomes_counted<T>(input: Seq<RecordView<T>>, units: Seq<UnitView<T>>)
    requires
        units.len() == input.len(),
        forall|i: int|
            0 <= i < units.len() ==> #[trigger] units[i] == UnitView::<T>::Finished(
                expected(input[i]),
            ),
        forall|i: int| 0 <= i < input.len() ==> !(#[trigger] input[i] is Failed),
    ensures
        finished_with(units, Err(Fault::RecordDecode)) == undecodable(input),
        finished_with(units, Ok(())) + undecodable(input) == input.len(),
    decreases units.len(),
{
    if units.len() > 0 {
        assert(units.drop_last().len() == input.drop_last().len());
        assert forall|i: int| 0 <= i < units.drop_last().len() implies #[trigger] units.drop_last()[i]
            == UnitView::<T>::Finished(expected(input.drop_last()[i])) by {
            assert(units[i] == UnitView::<T>::Finished(expected(input[i])));
        }
        assert forall|i: int| 0 <= i < input.drop_last().len() implies !(
        #[trigger] input.drop_last()[i] is Failed) by {
            assert(!(input[i] is Failed));
        }
        lemma_outcomes_counted(input.drop_last(), units.drop_last());
        assert(units.last() == UnitView::<T>::Finished(expected(input.last())));
        assert(!(input[input.len() - 1] is Failed));
    }
}

/// Resilience: a record that cannot be decoded costs that record and nothing
/// else. Where the comparison engine fails on no record and no write fails,
/// a run that has ended has ended cleanly, however many records could not be
/// decoded. Every record was taken; the unit of work of each record that
/// decodes has completed, and that of each record that does not was skipped.
/// So of `n` records of which `k` cannot be decoded, `n - k` were processed
/// and `k` were skipped.
pub proof fn theorem_resilience<T>(
    input: Seq<RecordView<T>>,
    budget: nat,
    capacity: nat,
    moves: Seq<Move>,
)
    requires
        budget >= 1,
        capacity >= 1,
        RunView::initial(input, budget, capacity).admits(moves),
        fault_free(input, moves),
        RunView::initial(input, budget, capacity).after(moves).finished(),
    ensures
        ({
            let run = RunView::initial(input, budget, capacity).after(moves);
            &&& run.verdict() == Some(Ok::<(), Fault>(()))
            &&& run.dispatcher.next_step() == Step::Close(Ok(()))
            &&& run.sink == Some(Ok::<(), Fault>(()))
            &&& run.units.len() == input.len()
            &&& forall|i: int|
                0 <= i < input.len() ==> #[trigger] run.units[i] == UnitView::<T>::Finished(
                    expected(input[i]),
                )
            &&& finished_with(run.units, Err(Fault::RecordDecode)) == undecodable(input)
            &&& finished_with(run.units, Ok(())) + undecodable(input) == input.len()
        }),
{
    let run = RunView::initial(input, budget, capacity).after(moves);
    lemma_runs_keep_inv(input, budget, capacity, moves);
    lemma_fault_free_runs_stay_clean(input, budget, capacity, moves);
    lemma_idle(run.units);
    assert forall|i: int| 0 <= i < input.len() implies #[trigger] run.units[i] == UnitView::<
        T,
    >::Finished(expected(input[i])) by {
        assert(run.units[i] is Finished);
    }
    lemma_outcomes_counted(input, run.units);
}

/// Where a unit of work is active, one can be named.
proof fn lemma_find_active<T>(units: Seq<UnitView<T>>) -> (i: int)
    requires
        active_count(units) > 0,
    ensures
        0 <= i < units.len(),
        units[i] is Active,
    decreases units.len(),
{
    if units.last() is Active {
        units.len() - 1
    } else {
        lemma_find_active(units.drop_last())
    }
}

/// Progress: where the comparison engine fails on no record and no write
/// fails, a run that has not ended is never stuck. Some part of the pipeline
/// can take a step, however full the channel is and however far the sink
/// lags behind.
pub proof fn theorem_progress<T>(
    input: Seq<RecordView<T>>,
    budget: nat,
    capacity: nat,
    moves: Seq<Move>,
)
    requires
        budget >= 1,
        capacity >= 1,
        RunView::initial(input, budget, capacity).admits(moves),
        fault_free(input, moves),
        !RunView::initial(input, budget, capacity).after(moves).finished(),
    ensures
        exists|m: Move|
            m != Move::Poll(false) && RunView::initial(input, budget, capacity).after(
                moves,
            ).enabled(m),
{
    let run = RunView::initial(input, budget, capacity).after(moves);
    lemma_runs_keep_inv(input, budget, capacity, moves);
    lemma_fault_free_runs_stay_clean(input, budget, capacity, moves);
    if run.channel.queue.len() > 0 {
        assert(run.enabled(Move::Poll(true)));
    } else if run.dispatcher.active > 0 {
        let i = lemma_find_active(run.units);
        assert(run.enabled(Move::Advance(i)));
    } else if !run.dispatcher.input_done {
        if run.units.len() < run.input.len() {
            assert(run.enabled(Move::Pull));
        } else {
            assert(run.enabled(Move::EndInput));
        }
    } else if !run.channel.closed {
        assert(run.enabled(Move::Close));
    } else {
        assert(run.enabled(Move::Poll(true)));
    }
}

/// The moves that the units of work have still to make: one for each item
/// that a unit sends, one for the sink to write it, and one for the unit to
/// report its outcome.
pub open spec fn moves_owed<T>(units: Seq<UnitView<T>>) -> nat
    decreases units.len(),
{
    if units.len() == 0 {
        0
    } else {
        moves_owed(units.drop_last()) + match units.last() {
            UnitView::Active(work) => 1 + 2 * work.pending.len(),
            UnitView::Finished(_) => 0,
        }
    }
}

/// The number of moves after which a run in which nothing fails ends.
pub open spec fn moves_left<T>(run: RunView<T>) -> int {
    2 * (run.input.len() - run.units.len()) + 2 * (produced_count(run.input) - produced_count(
        run.input.take(run.units.len() as int),
    )) + moves_owed(run.units) + run.channel.queue.len() + (if run.dispatcher.input_done {
        0int
    } else {
        1int
    }) + (if run.channel.closed {
        0int
    } else {
        1int
    }) + (if run.coordinator.sink_done {
        0int
    } else {
        1int
    })
}

/// Replacing one unit of work changes the moves owed by that unit's alone.
proof fn lemma_owed_update<T>(units: Seq<UnitView<T>>, i: int, unit: UnitView<T>)
    requires
        0 <= i < units.len(),
    ensures
        moves_owed(units.update(i, unit)) + moves_owed(seq![units[i]]) == moves_owed(units)
            + moves_owed(seq![unit]),
    decreases units.len(),
{
    let updated = units.update(i, unit);
    assert(seq![units[i]].drop_last() =~= Seq::empty());
    assert(seq![unit].drop_last() =~= Seq::empty());
    assert(moves_owed(seq![units[i]].drop_last()) == 0);
    assert(moves_owed(seq![unit].drop_last()) == 0);
    if i == units.len() - 1 {
        assert(updated.drop_last() =~= units.drop_last());
    } else {
        assert(updated.drop_last() =~= units.drop_last().update(i, unit));
        lemma_owed_update(units.drop_last(), i, unit);
    }
}

/// Where no unit of work is active, the units owe no move.
proof fn lemma_idle_owes_nothing<T>(units: Seq<UnitView<T>>)
    requires
        active_count(units) == 0,
    ensures
        moves_owed(units) == 0,
    decreases units.len(),
{
    if units.len() > 0 {
        lemma_idle_owes_nothing(units.drop_last());
    }
}

/// Where nothing has failed, every move but a failing write brings the end
/// of the run one move nearer.
proof fn lemma_move_counts<T>(run: RunView<T>, m: Move)
    requires
        run.inv(),
        run.clean(),
        run.enabled(m),
        m != Move::Poll(false),
    ensures
        moves_left(run.step(m)) == moves_left(run) - 1,
{
    let next = run.step(m);
    let n = run.units.len() as int;
    match m {
        Move::Pull => {
            assert(next.units.drop_last() =~= run.units);
            assert(run.input.take(n + 1).drop_last() =~= run.input.take(n));
        },
        Move::EndInput => {},
        Move::Advance(i) => {
            let work = run.units[i]->Active_0;
            let (after, channel, step) = work.advance(run.channel);
            lemma_owed_update(run.units, i, next.units[i]);
            assert(seq![run.units[i]].drop_last() =~= Seq::empty());
            assert(seq![next.units[i]].drop_last() =~= Seq::empty());
            assert(moves_owed(seq![run.units[i]].drop_last()) == 0);
            assert(moves_owed(seq![next.units[i]].drop_last()) == 0);
            match step {
                WorkStep::Sent => {
                    assert(next.units == run.units.update(i, UnitView::Active(after)));
                },
                WorkStep::Blocked => {},
                WorkStep::Done(outcome) => {
                    lemma_active_at(run.units, i);
                    assert(next.units == run.units.update(i, UnitView::Finished(outcome)));
                },
            }
        },
        Move::Close => {},
        Move::Poll(_) => {},
    }
}

/// The moves made and the moves left add up to the length of the run.
proof fn lemma_moves_add_up<T>(
    input: Seq<RecordView<T>>,
    budget: nat,
    capacity: nat,
    moves: Seq<Move>,
)
    requires
        budget >= 1,
        capacity >= 1,
        RunView::initial(input, budget, capacity).admits(moves),
        fault_free(input, moves),
    ensures
        moves.len() + moves_left(RunView::initial(input, budget, capacity).after(moves)) == 2
            * input.len() + 2 * produced_count(input) + 3,
    decreases moves.len(),
{
    let start = RunView::initial(input, budget, capacity);
    if moves.len() == 0 {
        assert(input.take(0) =~= Seq::empty());
    } else {
        assert(fault_free(input, moves.drop_last())) by {
            assert forall|k: int| 0 <= k < moves.drop_last().len() implies #[trigger] moves.drop_last()[k]
                != Move::Poll(false) by {
                assert(moves[k] != Move::Poll(false));
            }
        }
        assert(moves[moves.len() - 1] != Move::Poll(false));
        lemma_moves_add_up(input, budget, capacity, moves.drop_last());
        lemma_runs_keep_inv(input, budget, capacity, moves.drop_last());
        lemma_fault_free_runs_stay_clean(input, budget, capacity, moves.drop_last());
        lemma_move_counts(start.after(moves.drop_last()), moves.last());
    }
}

/// Termination: where the comparison engine fails on no record and no write
/// fails, a run of `n` records that contribute `k` items in all ends after
/// exactly `2 * n + 2 * k + 3` moves, in whatever order they are made. After
/// fewer moves it has not ended, and no more can be made.
pub proof fn theorem_run_length<T>(
    input: Seq<RecordView<T>>,
    budget: nat,
    capacity: nat,
    moves: Seq<Move>,
)
    requires
        budget >= 1,
        capacity >= 1,
        RunView::initial(input, budget, capacity).admits(moves),
        fault_free(input, moves),
    ensures
        moves.len() <= 2 * input.len() + 2 * produced_count(input) + 3,
        RunView::initial(input, budget, capacity).after(moves).finished() <==> moves.len() == 2
            * input.len() + 2 * produced_count(input) + 3,
{
    let run = RunView::initial(input, budget, capacity).after(moves);
    lemma_runs_keep_inv(input, budget, capacity, moves);
    lemma_fault_free_runs_stay_clean(input, budget, capacity, moves);
    lemma_moves_add_up(input, budget, capacity, moves);
    lemma_taken_is_produced(input, run.units.len() as int);
    if run.finished() {
        lemma_idle_owes_nothing(run.units);
        assert(input.take(input.len() as int) =~= input);
    }
}

/// Escalation over a whole run: a run never ends cleanly after a fatal
/// fault. Once a unit of work has reported a fatal fault, or a write has
/// failed, the verdict of the run, when it has one, is a fault.
pub proof fn theorem_faults_surface<T>(
    input: Seq<RecordView<T>>,
    budget: nat,
    capacity: nat,
    moves: Seq<Move>,
)
    requires
        budget >= 1,
        capacity >= 1,
        RunView::initial(input, budget, capacity).admits(moves),
        !RunView::initial(input, budget, capacity).after(moves).clean(),
    ensures
        RunView::initial(input, budget, capacity).after(moves).verdict() != Some(
            Ok::<(), Fault>(()),
        ),
{
    lemma_runs_keep_inv(input, budget, capacity, moves);
}

} // verus!
