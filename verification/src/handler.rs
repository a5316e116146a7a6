//! The decision of the long-poll handler after each receive.

use vstd::prelude::*;
use crate::body::{comma_joined, join_paths};
use crate::event::{Delivery, DeliveryView, EventStreamResult, StreamItem};
use crate::reply::{channel_closed_reply, ok_reply, HttpReply, ReplyView};

verus! {

/// What a request that holds the channel does with one delivery.
#[derive(Debug, Clone, PartialEq, Eq)]
pub enum PollAction {
    /// Answer the request with this reply and give up the channel.
    Respond(HttpReply),
    /// Keep the channel and receive again. The text is the diagnostic of the
    /// transient error that was received, for the caller's log.
    Retry(String),
}

/// The mathematical value of a [`PollAction`].
pub ghost enum PollActionView {
    Respond(ReplyView),
    Retry(Seq<char>),
}

impl View for PollAction {
    type V = PollActionView;

    open spec fn view(&self) -> PollActionView {
        match self {
            PollAction::Respond(reply) => PollActionView::Respond(reply@),
            PollAction::Retry(diagnostic) => PollActionView::Retry(diagnostic@),
        }
    }
}

/// The handler's rule. A change is answered with status 200 and its paths
/// joined by commas. A transient error is never answered: the request stays
/// blocked and receives again. A closed channel is answered with status 500.
pub open spec fn action_for(delivery: DeliveryView) -> PollActionView {
    match delivery {
        DeliveryView::Item(StreamItem::Change(paths)) => PollActionView::Respond(
            ok_reply(comma_joined(paths)),
        ),
        DeliveryView::Item(StreamItem::TransientError(message)) => PollActionView::Retry(message),
        DeliveryView::Closed => PollActionView::Respond(channel_closed_reply()),
    }
}

/// Decides what the request that received `delivery` does next.
pub fn on_delivery(delivery: Delivery) -> (action: PollAction)
    ensures
        action@ == action_for(delivery@),
{
    match delivery {
        Delivery::Item(EventStreamResult::Change(event)) => {
            PollAction::Respond(HttpReply::ok(join_paths(&event.paths)))
        },
        Delivery::Item(EventStreamResult::TransientError(message)) => PollAction::Retry(message),
        Delivery::Closed => PollAction::Respond(HttpReply::channel_closed()),
    }
}

} // verus!
