//! The result channel: a bounded first-in, first-out hand-off from the units
//! of work to the one writer.

use std::collections::VecDeque;
use vstd::prelude::*;

verus! {

/// Why the channel did not take an item. The item comes back in either case:
/// the channel never drops one.
#[derive(Debug, PartialEq, Eq)]
pub enum SendError<T> {
    /// Every slot is taken: the sender has to wait and offer the item again.
    Full(T),
    /// The channel is closed: no item will be taken any more.
    Closed(T),
}

/// Why the channel handed no item out.
#[derive(Clone, Copy, Debug, PartialEq, Eq, Structural)]
pub enum RecvError {
    /// Nothing is queued now, but more may come: the receiver has to wait.
    Empty,
    /// The channel is closed and everything that it took was handed out.
    Closed,
}

/// The channel's state as a value.
pub struct ChannelView<T> {
    /// The items that were taken and not yet handed out, oldest first.
    pub queue: Seq<T>,
    /// The number of items that the channel holds at most.
    pub capacity: nat,
    /// Whether the sending side was closed.
    pub closed: bool,
}

impl<T> ChannelView<T> {
    /// The states that a channel can be in.
    pub open spec fn wf(self) -> bool {
        1 <= self.capacity && self.queue.len() <= self.capacity
    }

    /// An open channel that holds nothing.
    pub open spec fn empty(capacity: nat) -> Self {
        ChannelView { queue: Seq::empty(), capacity, closed: false }
    }

    /// Whether every slot is taken.
    pub open spec fn full(self) -> bool {
        self.queue.len() >= self.capacity
    }

    /// Whether the channel takes an item now.
    pub open spec fn accepts(self) -> bool {
        !self.closed && !self.full()
    }

    /// The state after the channel took `item`.
    pub open spec fn enqueue(self, item: T) -> Self {
        ChannelView { queue: self.queue.push(item), ..self }
    }

    /// The state after the channel handed its oldest item out.
    pub open spec fn dequeue(self) -> Self {
        ChannelView { queue: self.queue.drop_first(), ..self }
    }

    /// The state after the sending side was closed.
    pub open spec fn close(self) -> Self {
        ChannelView { closed: true, ..self }
    }

    /// Whether the channel is closed and has handed out all that it took.
    pub open spec fn drained(self) -> bool {
        self.closed && self.queue.len() == 0
    }
}

/// A bounded queue between many senders and one receiver. It takes an item
/// only while a slot is free, hands items out in the order in which it took
/// them, and once closed takes no more.
pub struct ResultChannel<T> {
    queue: VecDeque<T>,
    capacity: usize,
    closed: bool,
}

impl<T> View for ResultChannel<T> {
    type V = ChannelView<T>;

    closed spec fn view(&self) -> ChannelView<T> {
        ChannelView { queue: self.queue@, capacity: self.capacity as nat, closed: self.closed }
    }
}

impl<T> ResultChannel<T> {
    #[verifier::type_invariant]
    spec fn inv(self) -> bool {
        self@.wf()
    }

    /// An open, empty channel with `capacity` slots.
    pub fn new(capacity: usize) -> (channel: Self)
        requires
            capacity >= 1,
        ensures
            channel@ == ChannelView::<T>::empty(capacity as nat),
            channel@.wf(),
    {
        ResultChannel { queue: VecDeque::new(), capacity, closed: false }
    }

    /// The number of slots.
    pub fn capacity(&self) -> (capacity: usize)
        ensures
            capacity == self@.capacity,
    {
        self.capacity
    }

    /// The number of items that are queued.
    pub fn len(&self) -> (len: usize)
        ensures
            len == self@.queue.len(),
            self@.wf(),
    {
        proof {
            use_type_invariant(self);
        }
        self.queue.len()
    }

    /// Whether nothing is queued.
    pub fn is_empty(&self) -> (empty: bool)
        ensures
            empty == (self@.queue.len() == 0),
    {
        self.queue.len() == 0
    }

    /// Whether every slot is taken.
    pub fn is_full(&self) -> (full: bool)
        ensures
            full == self@.full(),
    {
        self.queue.len() >= self.capacity
    }

    /// Whether the sending side was closed.
    pub fn is_closed(&self) -> (closed: bool)
        ensures
            closed == self@.closed,
    {
        self.closed
    }

    /// Offers an item to the channel. The channel takes it, behind all that
    /// it holds, if it is open and a slot is free. Otherwise the channel
    /// stays as it is and the item comes back with the reason.
    pub fn try_send(&mut self, item: T) -> (sent: Result<(), SendError<T>>)
        ensures
            final(self)@.wf(),
            match sent {
                Ok(()) => old(self)@.accepts() && final(self)@ == old(self)@.enqueue(item),
                Err(SendError::Closed(back)) => old(self)@.closed && back == item && final(self)@
                    == old(self)@,
                Err(SendError::Full(back)) => !old(self)@.closed && old(self)@.full() && back
                    == item && final(self)@ == old(self)@,
            },
    {
        proof {
            use_type_invariant(&*self);
        }
        if self.closed {
            Err(SendError::Closed(item))
        } else if self.queue.len() >= self.capacity {
            Err(SendError::Full(item))
        } else {
            let mut queue = VecDeque::new();
            std::mem::swap(&mut queue, &mut self.queue);
            queue.push_back(item);
            self.queue = queue;
            Ok(())
        }
    }

    /// Asks the channel for its oldest item. Where nothing is queued the
    /// channel stays as it is, and the error says whether more may come.
    pub fn try_recv(&mut self) -> (received: Result<T, RecvError>)
        ensures
            final(self)@.wf(),
            match received {
                Ok(item) => old(self)@.queue.len() > 0 && item == old(self)@.queue.first()
                    && final(self)@ == old(self)@.dequeue(),
                Err(RecvError::Empty) => old(self)@.queue.len() == 0 && !old(self)@.closed
                    && final(self)@ == old(self)@,
                Err(RecvError::Closed) => old(self)@.drained() && final(self)@ == old(self)@,
            },
    {
        proof {
            use_type_invariant(&*self);
        }
        let mut queue = VecDeque::new();
        std::mem::swap(&mut queue, &mut self.queue);
        let oldest = queue.pop_front();
        self.queue = queue;
        match oldest {
            Some(item) => Ok(item),
            None => if self.closed {
                Err(RecvError::Closed)
            } else {
                Err(RecvError::Empty)
            },
        }
    }

    /// Closes the sending side. What is queued stays and can still be
    /// received.
    pub fn close(&mut self)
        ensures
            final(self)@ == old(self)@.close(),
            final(self)@.wf(),
    {
        proof {
            use_type_invariant(&*self);
        }
        self.closed = true;
    }
}

/// One use of the channel.
pub enum ChannelUse<T> {
    /// A sender offers this item.
    Offer(T),
    /// The receiver asks for an item.
    Take,
    /// The sending side is closed.
    Close,
}

impl<T> ChannelView<T> {
    /// The state after one use. An offer that the channel does not accept,
    /// and a request that finds nothing queued, change nothing.
    pub open spec fn used(self, how: ChannelUse<T>) -> Self {
        match how {
            ChannelUse::Offer(item) => if self.accepts() {
                self.enqueue(item)
            } else {
                self
            },
            ChannelUse::Take => if self.queue.len() > 0 {
                self.dequeue()
            } else {
                self
            },
            ChannelUse::Close => self.close(),
        }
    }

    /// The state after the uses, one after the other.
    pub open spec fn used_all(self, uses: Seq<ChannelUse<T>>) -> Self
        decreases uses.len(),
    {
        if uses.len() == 0 {
            self
        } else {
            self.used_all(uses.drop_last()).used(uses.last())
        }
    }

    /// The items that the channel accepted in the course of the uses, in the
    /// order in which it accepted them.
    pub open spec fn accepted(self, uses: Seq<ChannelUse<T>>) -> Seq<T>
        decreases uses.len(),
    {
        if uses.len() == 0 {
            Seq::empty()
        } else {
            let before = self.used_all(uses.drop_last());
            match uses.last() {
                ChannelUse::Offer(item) if before.accepts() => self.accepted(
                    uses.drop_last(),
                ).push(item),
                _ => self.accepted(uses.drop_last()),
            }
        }
    }

    /// The items that the channel handed out in the course of the uses, in
    /// the order in which it handed them out.
    pub open spec fn delivered(self, uses: Seq<ChannelUse<T>>) -> Seq<T>
        decreases uses.len(),
    {
        if uses.len() == 0 {
            Seq::empty()
        } else {
            let before = self.used_all(uses.drop_last());
            match uses.last() {
                ChannelUse::Take if before.queue.len() > 0 => self.delivered(
                    uses.drop_last(),
                ).push(before.queue.first()),
                _ => self.delivered(uses.drop_last()),
            }
        }
    }
}

/// First in, first out, and nothing lost: however the channel is used, what
/// it has handed out, followed by what it holds, is what it held at first
/// followed by what it has accepted since, in that order. It never holds
/// more than its capacity, and once closed it stays closed and accepts
/// nothing.
pub proof fn theorem_first_in_first_out<T>(channel: ChannelView<T>, uses: Seq<ChannelUse<T>>)
    requires
        channel.wf(),
    ensures
        channel.used_all(uses).wf(),
        channel.used_all(uses).capacity == channel.capacity,
        channel.closed ==> channel.used_all(uses).closed && channel.accepted(uses).len() == 0,
        channel.delivered(uses) + channel.used_all(uses).queue == channel.queue + channel.accepted(
            uses,
        ),
    decreases uses.len(),
{
    if uses.len() == 0 {
        assert(channel.delivered(uses) + channel.queue =~= channel.queue + channel.accepted(uses));
    } else {
        theorem_first_in_first_out(channel, uses.drop_last());
        let before = channel.used_all(uses.drop_last());
        let handed = channel.delivered(uses.drop_last());
        let taken = channel.accepted(uses.drop_last());
        assert(handed + before.queue == channel.queue + taken);
        match uses.last() {
            ChannelUse::Offer(item) => {
                if before.accepts() {
                    assert(handed + before.queue.push(item) =~= (handed + before.queue).push(
                        item,
                    ));
                    assert(channel.queue + taken.push(item) =~= (channel.queue + taken).push(
                        item,
                    ));
                }
            },
            ChannelUse::Take => {
                if before.queue.len() > 0 {
                    assert(handed.push(before.queue.first()) + before.queue.drop_first() =~= handed
                        + before.queue);
                }
            },
            ChannelUse::Close => {},
        }
    }
}

} // verus!
