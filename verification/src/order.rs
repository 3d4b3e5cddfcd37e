//! Order within a record: the items of one record are written in the order
//! in which its unit of work had them, whatever else is written in between.
//!
//! To follow an item through a run, each item is paired with the index of the
//! record that it belongs to. The pipeline never looks at the index.

use crate::fault::Fault;
use crate::run::{
    items_of, lemma_active_at, lemma_idle, lemma_runs_keep_inv, pending_of, Move, RecordView,
    RunView,
};
use crate::worker::WorkStep;
use vstd::prelude::*;

verus! {

/// Whether each item of the input is paired with the index of its record.
pub open spec fn labelled<T>(input: Seq<RecordView<(int, T)>>) -> bool {
    forall|i: int, j: int|
        0 <= i < input.len() && 0 <= j < items_of(input[i]).len() ==> (#[trigger] items_of(
            input[i],
        )[j]).0 == i
}

/// Those of the items that belong to record `i`, in the order in which they
/// stand.
pub open spec fn of_record<T>(items: Seq<(int, T)>, i: int) -> Seq<(int, T)>
    decreases items.len(),
{
    if items.len() == 0 {
        Seq::empty()
    } else if items.last().0 == i {
        of_record(items.drop_last(), i).push(items.last())
    } else {
        of_record(items.drop_last(), i)
    }
}

/// The items of record `i` that have left its unit of work, in the order in
/// which they left: first those written, then those queued.
pub open spec fn sent_of<T>(run: RunView<(int, T)>, i: int) -> Seq<(int, T)> {
    of_record(run.written + run.channel.queue, i)
}

/// The items that the unit of work of record `i` has still to send.
pub open spec fn unsent_of<T>(run: RunView<(int, T)>, i: int) -> Seq<(int, T)> {
    if i < run.units.len() {
        pending_of(run.units[i])
    } else {
        Seq::empty()
    }
}

/// What holds of the order of items in every state of a run in which no
/// fatal fault has occurred: for each record that was taken, the items that
/// have left its unit of work, followed by those that have not, are the
/// record's items in their order; and of a record that was not taken, no item
/// is anywhere.
pub open spec fn ordered<T>(run: RunView<(int, T)>) -> bool {
    forall|i: int|
        0 <= i < run.input.len() ==> #[trigger] sent_of(run, i) + unsent_of(run, i) == if i
            < run.units.len() {
            items_of(run.input[i])
        } else {
            Seq::empty()
        }
}

/// Adding an item at the end adds it to its own record's items and to no
/// other's.
proof fn lemma_of_record_push<T>(items: Seq<(int, T)>, item: (int, T), i: int)
    ensures
        of_record(items.push(item), i) == if item.0 == i {
            of_record(items, i).push(item)
        } else {
            of_record(items, i)
        },
{
    assert(items.push(item).drop_last() =~= items);
}

proof fn lemma_pull_keeps_order<T>(run: RunView<(int, T)>)
    requires
        run.inv(),
        ordered(run),
        run.enabled(Move::Pull),
    ensures
        ordered(run.step(Move::Pull)),
{
    let next = run.step(Move::Pull);
    let n = run.units.len() as int;
    assert forall|i: int| 0 <= i < next.input.len() implies #[trigger] sent_of(next, i)
        + unsent_of(next, i) == if i < next.units.len() {
        items_of(next.input[i])
    } else {
        Seq::empty()
    } by {
        assert(sent_of(run, i) + unsent_of(run, i) == if i < run.units.len() {
            items_of(run.input[i])
        } else {
            Seq::empty()
        });
        if i == n {
            assert(sent_of(run, i) =~= Seq::empty());
            assert(unsent_of(next, i) =~= items_of(run.input[n]));
            assert(sent_of(next, i) + unsent_of(next, i) =~= items_of(run.input[n]));
        }
    }
}

proof fn lemma_advance_keeps_order<T>(run: RunView<(int, T)>, k: int)
    requires
        run.inv(),
        ordered(run),
        labelled(run.input),
        run.enabled(Move::Advance(k)),
        run.step(Move::Advance(k)).clean(),
    ensures
        ordered(run.step(Move::Advance(k))),
{
    let next = run.step(Move::Advance(k));
    let work = run.units[k]->Active_0;
    let (after, channel, step) = work.advance(run.channel);
    lemma_active_at(run.units, k);
    assert forall|i: int| 0 <= i < next.input.len() implies #[trigger] sent_of(next, i)
        + unsent_of(next, i) == if i < next.units.len() {
        items_of(next.input[i])
    } else {
        Seq::empty()
    } by {
        assert(sent_of(run, i) + unsent_of(run, i) == if i < run.units.len() {
            items_of(run.input[i])
        } else {
            Seq::empty()
        });
        match step {
            WorkStep::Sent => {
                let item = work.pending.first();
                let before = sent_of(run, k);
                assert(sent_of(run, k) + unsent_of(run, k) == items_of(run.input[k]));
                assert(items_of(run.input[k])[before.len() as int] == item);
                assert(item.0 == k);
                assert(next.written + next.channel.queue =~= (run.written
                    + run.channel.queue).push(item));
                lemma_of_record_push(run.written + run.channel.queue, item, i);
                if i == k {
                    assert(sent_of(next, i) + unsent_of(next, i) =~= sent_of(run, i) + unsent_of(
                        run,
                        i,
                    ));
                }
            },
            WorkStep::Blocked => {},
            WorkStep::Done(outcome) => {
                if i == k {
                    assert(unsent_of(next, i) =~= unsent_of(run, i));
                }
            },
        }
    }
}

proof fn lemma_poll_keeps_order<T>(run: RunView<(int, T)>, written: bool)
    requires
        run.inv(),
        ordered(run),
        run.enabled(Move::Poll(written)),
        run.step(Move::Poll(written)).clean(),
    ensures
        ordered(run.step(Move::Poll(written))),
{
    let next = run.step(Move::Poll(written));
    assert(next.written + next.channel.queue =~= run.written + run.channel.queue);
    assert forall|i: int| 0 <= i < next.input.len() implies #[trigger] sent_of(next, i)
        + unsent_of(next, i) == if i < next.units.len() {
        items_of(next.input[i])
    } else {
        Seq::empty()
    } by {
        assert(sent_of(run, i) + unsent_of(run, i) == if i < run.units.len() {
            items_of(run.input[i])
        } else {
            Seq::empty()
        });
    }
}

/// A run in which a fatal fault has occurred stays such a run.
proof fn lemma_faults_stay<T>(run: RunView<T>, m: Move)
    requires
        run.inv(),
        run.enabled(m),
        run.step(m).clean(),
    ensures
        run.clean(),
{
}

/// The order of items holds after any moves that can be made from the start,
/// as long as no fatal fault has occurred.
proof fn lemma_runs_keep_order<T>(
    input: Seq<RecordView<(int, T)>>,
    budget: nat,
    capacity: nat,
    moves: Seq<Move>,
)
    requires
        budget >= 1,
        capacity >= 1,
        labelled(input),
        RunView::initial(input, budget, capacity).admits(moves),
        RunView::initial(input, budget, capacity).after(moves).clean(),
    ensures
        ordered(RunView::initial(input, budget, capacity).after(moves)),
    decreases moves.len(),
{
    let start = RunView::initial(input, budget, capacity);
    if moves.len() == 0 {
        assert(start.written + start.channel.queue =~= Seq::empty());
        assert forall|i: int| 0 <= i < start.input.len() implies #[trigger] sent_of(start, i)
            + unsent_of(start, i) == Seq::<(int, T)>::empty() by {
            assert(sent_of(start, i) + unsent_of(start, i) =~= Seq::<(int, T)>::empty());
        }
    } else {
        let before = start.after(moves.drop_last());
        lemma_runs_keep_inv(input, budget, capacity, moves.drop_last());
        lemma_faults_stay(before, moves.last());
        lemma_runs_keep_order(input, budget, capacity, moves.drop_last());
        match moves.last() {
            Move::Pull => lemma_pull_keeps_order(before),
            Move::Advance(k) => lemma_advance_keeps_order(before, k),
            Move::Poll(written) => lemma_poll_keeps_order(before, written),
            _ => {
                let next = before.step(moves.last());
                assert forall|i: int| 0 <= i < next.input.len() implies #[trigger] sent_of(next, i)
                    + unsent_of(next, i) == if i < next.units.len() {
                    items_of(next.input[i])
                } else {
                    Seq::empty()
                } by {
                    assert(sent_of(before, i) + unsent_of(before, i) == if i < before.units.len() {
                        items_of(before.input[i])
                    } else {
                        Seq::empty()
                    });
                }
            },
        }
    }
}

/// Order within a record, at every point of a run at which no fatal fault
/// has occurred: the items of a record that have left its unit of work are
/// the first of the record's items, in their order, however the items of
/// other records lie between them.
pub proof fn theorem_order_so_far<T>(
    input: Seq<RecordView<(int, T)>>,
    budget: nat,
    capacity: nat,
    moves: Seq<Move>,
    i: int,
)
    requires
        budget >= 1,
        capacity >= 1,
        labelled(input),
        RunView::initial(input, budget, capacity).admits(moves),
        RunView::initial(input, budget, capacity).after(moves).clean(),
        0 <= i < input.len(),
    ensures
        ({
            let run = RunView::initial(input, budget, capacity).after(moves);
            let sent = sent_of(run, i);
            &&& sent.len() <= items_of(input[i]).len()
            &&& sent == items_of(input[i]).take(sent.len() as int)
        }),
{
    let run = RunView::initial(input, budget, capacity).after(moves);
    lemma_runs_keep_order(input, budget, capacity, moves);
    lemma_runs_keep_inv(input, budget, capacity, moves);
    let sent = sent_of(run, i);
    assert(sent + unsent_of(run, i) == if i < run.units.len() {
        items_of(run.input[i])
    } else {
        Seq::empty()
    });
    assert(sent =~= (sent + unsent_of(run, i)).take(sent.len() as int));
}

/// Order within a record, at the end of a run that ends cleanly: what was
/// written, with the items of all other records left out, is the record's
/// items in their order.
pub proof fn theorem_record_order<T>(
    input: Seq<RecordView<(int, T)>>,
    budget: nat,
    capacity: nat,
    moves: Seq<Move>,
)
    requires
        budget >= 1,
        capacity >= 1,
        labelled(input),
        RunView::initial(input, budget, capacity).admits(moves),
        RunView::initial(input, budget, capacity).after(moves).verdict() == Some(
            Ok::<(), Fault>(()),
        ),
    ensures
        forall|i: int|
            0 <= i < input.len() ==> #[trigger] of_record(
                RunView::initial(input, budget, capacity).after(moves).written,
                i,
            ) == items_of(input[i]),
{
    let run = RunView::initial(input, budget, capacity).after(moves);
    lemma_runs_keep_inv(input, budget, capacity, moves);
    lemma_runs_keep_order(input, budget, capacity, moves);
    lemma_idle(run.units);
    assert(run.written + run.channel.queue =~= run.written);
    assert forall|i: int| 0 <= i < input.len() implies #[trigger] of_record(run.written, i)
        == items_of(input[i]) by {
        assert(sent_of(run, i) + unsent_of(run, i) == items_of(run.input[i]));
        assert(run.units[i] is Finished);
        assert(sent_of(run, i) + unsent_of(run, i) =~= sent_of(run, i));
    }
}

} // verus!
