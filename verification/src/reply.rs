//! HTTP replies as plain values: a status code and a text body.

use vstd::prelude::*;
use vstd::string::*;

verus! {

/// Status of a reply that carries what was asked for.
pub const STATUS_OK: u16 = 200;

/// Status of the reply to a poll whose channel has lost its producer.
pub const STATUS_INTERNAL_SERVER_ERROR: u16 = 500;

/// The reply to one HTTP request.
#[derive(Debug, Clone, PartialEq, Eq)]
pub struct HttpReply {
    pub status: u16,
    pub body: String,
}

/// The mathematical value of an [`HttpReply`].
pub ghost struct ReplyView {
    pub status: u16,
    pub body: Seq<char>,
}

impl View for HttpReply {
    type V = ReplyView;

    open spec fn view(&self) -> ReplyView {
        ReplyView { status: self.status, body: self.body@ }
    }
}

/// The reply with status 200 and the given body.
pub open spec fn ok_reply(body: Seq<char>) -> ReplyView {
    ReplyView { status: 200, body }
}

/// The body of every health reply: `It works!`.
pub open spec fn health_body() -> Seq<char> {
    "It works!"@
}

/// The body of the reply to a poll whose channel is closed: `event channel closed`.
pub open spec fn channel_closed_body() -> Seq<char> {
    "event channel closed"@
}

/// The reply to a poll whose channel is closed: status 500 and a fixed body.
pub open spec fn channel_closed_reply() -> ReplyView {
    ReplyView { status: 500, body: channel_closed_body() }
}

impl HttpReply {
    /// A reply with status 200 and the given body.
    pub fn ok(body: String) -> (reply: HttpReply)
        ensures
            reply@ == ok_reply(body@),
    {
        HttpReply { status: STATUS_OK, body }
    }

    /// The reply to a poll that can never be answered with a change, because
    /// the producer of the channel is gone.
    pub fn channel_closed() -> (reply: HttpReply)
        ensures
            reply@ == channel_closed_reply(),
    {
        HttpReply {
            status: STATUS_INTERNAL_SERVER_ERROR,
            body: String::from_str("event channel closed"),
        }
    }
}

/// Reports liveness. Takes no state: the reply is the same whatever the
/// watcher and the pending polls are doing.
pub fn health() -> (reply: HttpReply)
    ensures
        reply@ == ok_reply(health_body()),
{
    HttpReply { status: STATUS_OK, body: String::from_str("It works!") }
}

} // verus!
