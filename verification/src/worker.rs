//! The unit of work of one record: what the comparison found goes into the
//! result channel, item by item and in order.

use crate::channel::{ChannelView, ResultChannel};
use crate::fault::{Fault, Outcome};
use crate::record::{
    envelopes, envelopes_of, tag_texts, Envelope, Finding, FindingView, ResultContainer, Tags,
};
use std::collections::VecDeque;
use vstd::prelude::*;

verus! {

/// What one step of a unit of work came to.
#[derive(Clone, Copy, Debug, PartialEq, Eq)]
pub enum WorkStep {
    /// The channel took the next item.
    Sent,
    /// Every slot of the channel is taken: the unit has to wait and try again.
    Blocked,
    /// The unit of work is done, with this outcome.
    Done(Outcome),
}

/// A unit of work as a value.
pub struct WorkView<T> {
    /// The items that are still to be sent, the next one first.
    pub pending: Seq<T>,
    /// The outcome that the unit reports once nothing is left to send.
    pub outcome: Outcome,
}

impl<T> WorkView<T> {
    /// The unit of work of a record that could not be decoded: nothing is
    /// sent, and the fault does not reach beyond the record.
    pub open spec fn skipped() -> Self {
        WorkView { pending: Seq::empty(), outcome: Err(Fault::RecordDecode) }
    }

    /// The unit of work that has the given items to send.
    pub open spec fn sending(items: Seq<T>) -> Self {
        WorkView { pending: items, outcome: Ok(()) }
    }

    /// The unit of work that failed before it had anything to send.
    pub open spec fn failed(fault: Fault) -> Self {
        WorkView { pending: Seq::empty(), outcome: Err(fault) }
    }

    /// What one step does to the unit of work and to the channel, and what it
    /// comes to.
    pub open spec fn advance(self, channel: ChannelView<T>) -> (Self, ChannelView<T>, WorkStep) {
        if self.pending.len() == 0 {
            (self, channel, WorkStep::Done(self.outcome))
        } else if channel.closed {
            (
                WorkView { outcome: Err(Fault::Delivery), ..self },
                channel,
                WorkStep::Done(Err(Fault::Delivery)),
            )
        } else if channel.full() {
            (self, channel, WorkStep::Blocked)
        } else {
            (
                WorkView { pending: self.pending.drop_first(), ..self },
                channel.enqueue(self.pending.first()),
                WorkStep::Sent,
            )
        }
    }
}

/// The unit of work of one record.
pub struct UnitOfWork<T> {
    pending: VecDeque<T>,
    outcome: Outcome,
}

impl<T> View for UnitOfWork<T> {
    type V = WorkView<T>;

    closed spec fn view(&self) -> WorkView<T> {
        WorkView { pending: self.pending@, outcome: self.outcome }
    }
}

impl<T> UnitOfWork<T> {
    /// The unit of work of a record that could not be decoded.
    pub fn skipped() -> (work: Self)
        ensures
            work@ == WorkView::<T>::skipped(),
    {
        UnitOfWork { pending: VecDeque::new(), outcome: Err(Fault::RecordDecode) }
    }

    /// The unit of work that sends the given items, the first one first.
    pub fn sending(items: Vec<T>) -> (work: Self)
        ensures
            work@ == WorkView::sending(items@),
    {
        let ghost all = items@;
        let mut pending: VecDeque<T> = VecDeque::new();
        for item in iter: items
            invariant
                iter.seq() == all,
                pending@ == all.take(iter.index() as int),
        {
            pending.push_back(item);
            assert(all.take(iter.index() + 1) == all.take(iter.index() as int).push(
                all[iter.index() as int],
            ));
        }
        assert(pending@ == all);
        UnitOfWork { pending, outcome: Ok(()) }
    }

    /// The unit of work that failed before it had anything to send.
    pub fn failed(fault: Fault) -> (work: Self)
        ensures
            work@ == WorkView::<T>::failed(fault),
    {
        UnitOfWork { pending: VecDeque::new(), outcome: Err(fault) }
    }

    /// The number of items that are still to be sent.
    pub fn remaining(&self) -> (remaining: usize)
        ensures
            remaining == self@.pending.len(),
    {
        self.pending.len()
    }

    /// Takes one step. With nothing left to send, the unit is done and
    /// reports its outcome. Otherwise the next item is offered to the
    /// channel: an open channel with a free slot takes it; a full one leaves
    /// the unit waiting, with the item kept; a closed one ends the unit with a
    /// delivery fault.
    pub fn advance(&mut self, channel: &mut ResultChannel<T>) -> (step: WorkStep)
        ensures
            (final(self)@, final(channel)@, step) == old(self)@.advance(old(channel)@),
    {
        if self.pending.len() == 0 {
            WorkStep::Done(self.outcome)
        } else if channel.is_closed() {
            self.outcome = Err(Fault::Delivery);
            WorkStep::Done(Err(Fault::Delivery))
        } else if channel.is_full() {
            WorkStep::Blocked
        } else {
            match self.pending.pop_front() {
                Some(item) => {
                    let sent = channel.try_send(item);
                    assert(sent is Ok);
                    WorkStep::Sent
                },
                None => WorkStep::Done(self.outcome),
            }
        }
    }
}

/// What decoding and comparing one record came to.
#[derive(Clone, Debug, PartialEq, Eq)]
pub enum Compared {
    /// The record could not be decoded, so no comparison was made.
    Undecodable,
    /// The comparison gave these findings, for a record with these tags.
    Findings(Vec<Finding>, Tags),
    /// The comparison engine failed.
    Failed,
}

/// The mathematical value of a `Compared`.
pub enum ComparedView {
    /// The record could not be decoded.
    Undecodable,
    /// The comparison gave these findings, for a record with these tags.
    Findings(Seq<FindingView>, Seq<Seq<char>>),
    /// The comparison engine failed.
    Failed,
}

impl View for Compared {
    type V = ComparedView;

    open spec fn view(&self) -> ComparedView {
        match self {
            Compared::Undecodable => ComparedView::Undecodable,
            Compared::Findings(findings, tags) => ComparedView::Findings(
                findings.deep_view(),
                tag_texts(tags@),
            ),
            Compared::Failed => ComparedView::Failed,
        }
    }
}

/// The envelopes of a sequence of items.
pub open spec fn envelope_views(items: Seq<ResultContainer<Finding>>) -> Seq<
    Envelope<FindingView>,
> {
    items.map_values(|sealed: ResultContainer<Finding>| sealed@)
}

/// The unit of work of a record. A record that could not be decoded is
/// skipped. A record that was compared sends each finding in its envelope, in
/// the order of the findings. A failure of the comparison engine is a
/// comparison fault, which is fatal.
pub fn unit_of_work(compared: Compared) -> (work: UnitOfWork<ResultContainer<Finding>>)
    ensures
        match compared@ {
            ComparedView::Undecodable => work@ == WorkView::<ResultContainer<Finding>>::skipped(),
            ComparedView::Findings(findings, tags) => {
                &&& work@ == WorkView::sending(work@.pending)
                &&& envelope_views(work@.pending) == envelopes_of(findings, tags)
            },
            ComparedView::Failed => work@ == WorkView::<ResultContainer<Finding>>::failed(
                Fault::Comparison,
            ),
        },
{
    match compared {
        Compared::Undecodable => UnitOfWork::skipped(),
        Compared::Findings(findings, tags) => {
            let sealed = envelopes(findings, &tags);
            assert(envelope_views(sealed@) =~= sealed.deep_view());
            UnitOfWork::sending(sealed)
        },
        Compared::Failed => UnitOfWork::failed(Fault::Comparison),
    }
}

} // verus!
