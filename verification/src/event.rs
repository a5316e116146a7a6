//! What travels through the event channel.

use vstd::prelude::*;
use crate::body::texts;

verus! {

/// One change notification: the paths touched by one batch of changes, in
/// the order in which the watcher gave them.
#[derive(Debug, Clone, PartialEq, Eq)]
pub struct ChangeEvent {
    pub paths: Vec<String>,
}

impl View for ChangeEvent {
    type V = Seq<Seq<char>>;

    /// The texts of the paths, in order.
    open spec fn view(&self) -> Seq<Seq<char>> {
        texts(self.paths@)
    }
}

/// One item of the event stream: a change, or an error of the watcher that
/// does not end the stream.
#[derive(Debug, Clone, PartialEq, Eq)]
pub enum EventStreamResult {
    Change(ChangeEvent),
    TransientError(String),
}

/// The mathematical value of an [`EventStreamResult`].
pub ghost enum StreamItem {
    Change(Seq<Seq<char>>),
    TransientError(Seq<char>),
}

impl View for EventStreamResult {
    type V = StreamItem;

    open spec fn view(&self) -> StreamItem {
        match self {
            EventStreamResult::Change(event) => StreamItem::Change(event@),
            EventStreamResult::TransientError(message) => StreamItem::TransientError(message@),
        }
    }
}

/// What one receive on the channel hands to the waiting request: the oldest
/// queued item, or the news that the producer is gone and nothing is left.
#[derive(Debug, Clone, PartialEq, Eq)]
pub enum Delivery {
    Item(EventStreamResult),
    Closed,
}

/// The mathematical value of a [`Delivery`].
pub ghost enum DeliveryView {
    Item(StreamItem),
    Closed,
}

impl View for Delivery {
    type V = DeliveryView;

    open spec fn view(&self) -> DeliveryView {
        match self {
            Delivery::Item(item) => DeliveryView::Item(item@),
            Delivery::Closed => DeliveryView::Closed,
        }
    }
}

} // verus!
