//! The sink: the one consumer of the result channel.

use crate::channel::{ChannelView, RecvError, ResultChannel};
use crate::fault::{Fault, Outcome};
use vstd::prelude::*;

verus! {

/// What the sink asks of its driver next.
#[derive(Debug, PartialEq, Eq)]
pub enum SinkStep<T> {
    /// Write this item, as one line, and report whether that worked.
    Write(T),
    /// Nothing is queued and more may come: wait for the channel.
    Suspend,
    /// The sink is done, with this outcome.
    Finish(Outcome),
}

/// What one poll of the sink does to the sink and to the channel, and what it
/// asks of the driver. `stopped` is the outcome with which the sink has
/// stopped, if it has.
pub open spec fn poll_of<T>(stopped: Option<Outcome>, channel: ChannelView<T>) -> (
    Option<Outcome>,
    ChannelView<T>,
    SinkStep<T>,
) {
    if let Some(outcome) = stopped {
        (stopped, channel, SinkStep::Finish(outcome))
    } else if channel.queue.len() > 0 {
        (None, channel.dequeue(), SinkStep::Write(channel.queue.first()))
    } else if channel.closed {
        (Some(Ok(())), channel, SinkStep::Finish(Ok(())))
    } else {
        (None, channel, SinkStep::Suspend)
    }
}

/// The outcome with which the sink has stopped, if any, once a write has
/// ended: a write that fails stops the sink with a delivery fault.
pub open spec fn after_write(stopped: Option<Outcome>, written: bool) -> Option<Outcome> {
    if stopped is None && !written {
        Some(Err(Fault::Delivery))
    } else {
        stopped
    }
}

/// Drains the result channel until it is closed and empty, and stops at the
/// first write that fails.
pub struct Sink {
    stopped: Option<Outcome>,
}

impl View for Sink {
    type V = Option<Outcome>;

    closed spec fn view(&self) -> Option<Outcome> {
        self.stopped
    }
}

impl Sink {
    /// A sink that has not stopped.
    pub fn new() -> (sink: Self)
        ensures
            sink@ is None,
    {
        Sink { stopped: None }
    }

    /// The outcome with which the sink has stopped, if it has.
    pub fn stopped(&self) -> (stopped: Option<Outcome>)
        ensures
            stopped == self@,
    {
        self.stopped
    }

    /// Takes the next decision. A sink that has stopped leaves the channel
    /// alone and reports its outcome again. Otherwise the oldest queued item
    /// is taken out to be written; where nothing is queued, the sink finishes
    /// cleanly if the channel is closed and waits if it is not.
    pub fn poll<T>(&mut self, channel: &mut ResultChannel<T>) -> (step: SinkStep<T>)
        ensures
            (final(self)@, final(channel)@, step) == poll_of(old(self)@, old(channel)@),
    {
        if let Some(outcome) = self.stopped {
            SinkStep::Finish(outcome)
        } else {
            match channel.try_recv() {
                Ok(item) => SinkStep::Write(item),
                Err(RecvError::Empty) => SinkStep::Suspend,
                Err(RecvError::Closed) => {
                    self.stopped = Some(Ok(()));
                    SinkStep::Finish(Ok(()))
                },
            }
        }
    }

    /// Records how the write of the item that was last taken out has ended.
    pub fn write_finished(&mut self, written: bool)
        ensures
            final(self)@ == after_write(old(self)@, written),
    {
        if self.stopped.is_none() && !written {
            self.stopped = Some(Err(Fault::Delivery));
        }
    }
}

} // verus!
