//! The event channel: an unbounded first-in, first-out queue from the one
//! producer to whichever request currently holds the receiving end.
//!
//! The channel here never blocks. Where a blocking receive would wait, it
//! reports that nothing is there; waiting is left to the caller.

use std::collections::VecDeque;
use vstd::prelude::*;
use crate::event::{Delivery, DeliveryView, EventStreamResult, StreamItem};

verus! {

/// The event channel with both of its ends.
pub struct EventChannel {
    queue: VecDeque<EventStreamResult>,
    closed: bool,
}

/// The mathematical value of an [`EventChannel`].
pub ghost struct ChannelView {
    /// The items sent and not yet received, oldest first.
    pub queue: Seq<StreamItem>,
    /// Whether the producer is gone.
    pub closed: bool,
}

/// The values of a sequence of stream items, in the same order.
pub open spec fn items(results: Seq<EventStreamResult>) -> Seq<StreamItem> {
    results.map_values(|r: EventStreamResult| r@)
}

/// An open channel with nothing queued.
pub open spec fn empty_channel() -> ChannelView {
    ChannelView { queue: Seq::empty(), closed: false }
}

/// The channel after an attempt to send `item`: an open channel queues it
/// behind everything else, a closed one stays as it is.
pub open spec fn after_send(channel: ChannelView, item: StreamItem) -> ChannelView {
    if channel.closed {
        channel
    } else {
        ChannelView { queue: channel.queue.push(item), closed: false }
    }
}

/// The channel after its producer has gone: what is queued stays queued.
pub open spec fn after_close(channel: ChannelView) -> ChannelView {
    ChannelView { queue: channel.queue, closed: true }
}

/// What one receive yields and what it leaves behind. The oldest item comes
/// first. A channel with nothing queued yields `Closed` if its producer is
/// gone, and otherwise nothing: there a blocking receive would wait.
pub open spec fn received(channel: ChannelView) -> (Option<DeliveryView>, ChannelView) {
    if channel.queue.len() > 0 {
        (
            Some(DeliveryView::Item(channel.queue.first())),
            ChannelView { queue: channel.queue.drop_first(), closed: channel.closed },
        )
    } else if channel.closed {
        (Some(DeliveryView::Closed), channel)
    } else {
        (None, channel)
    }
}

/// The value of what a receive returned.
pub open spec fn delivery_view(delivery: Option<Delivery>) -> Option<DeliveryView> {
    match delivery {
        Some(d) => Some(d@),
        None => None,
    }
}

impl View for EventChannel {
    type V = ChannelView;

    closed spec fn view(&self) -> ChannelView {
        ChannelView { queue: items(self.queue@), closed: self.closed }
    }
}

impl EventChannel {
    /// Makes an open channel with nothing queued.
    pub fn new() -> (channel: EventChannel)
        ensures
            channel@ == empty_channel(),
    {
        let channel = EventChannel { queue: VecDeque::new(), closed: false };
        assert(channel@.queue =~= Seq::empty());
        channel
    }

    /// Queues `item` behind everything sent before. Never waits. A closed
    /// channel takes nothing and hands the item back.
    pub fn send(&mut self, item: EventStreamResult) -> (sent: Result<(), EventStreamResult>)
        ensures
            final(self)@ == after_send(old(self)@, item@),
            sent == if old(self)@.closed {
                Err::<(), EventStreamResult>(item)
            } else {
                Ok::<(), EventStreamResult>(())
            },
    {
        if self.closed {
            return Err(item);
        }
        let ghost before = self.queue@;
        self.queue.push_back(item);
        assert(items(before.push(item)) =~= items(before).push(item@));
        Ok(())
    }

    /// Marks the producer as gone. What is queued can still be received.
    pub fn close(&mut self)
        ensures
            final(self)@ == after_close(old(self)@),
    {
        self.closed = true;
    }

    /// Takes the oldest queued item, if there is one. Never waits: `None`
    /// says that a blocking receive would wait here.
    pub fn receive(&mut self) -> (delivery: Option<Delivery>)
        ensures
            (delivery_view(delivery), final(self)@) == received(old(self)@),
    {
        let ghost before = self.queue@;
        match self.queue.pop_front() {
            Some(item) => {
                assert(items(before).drop_first() =~= items(before.subrange(
                    1,
                    before.len() as int,
                )));
                Some(Delivery::Item(item))
            },
            None => {
                if self.closed {
                    Some(Delivery::Closed)
                } else {
                    None
                }
            },
        }
    }

    /// The number of items sent and not yet received.
    pub fn len(&self) -> (n: usize)
        ensures
            n == self@.queue.len(),
    {
        self.queue.len()
    }

    /// Whether the producer is gone.
    pub fn is_closed(&self) -> (closed: bool)
        ensures
            closed == self@.closed,
    {
        self.closed
    }
}

} // verus!
