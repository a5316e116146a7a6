//! One long-poll request served from the event channel.

use vstd::prelude::*;
use crate::body::{comma_joined, texts};
use crate::channel::{received, ChannelView, EventChannel};
use crate::event::StreamItem;
use crate::handler::{action_for, on_delivery, PollAction};
use crate::reply::{channel_closed_reply, ok_reply, HttpReply, ReplyView};

verus! {

/// How far one request got with what the channel held.
#[derive(Debug, Clone, PartialEq, Eq)]
pub enum PollOutcome {
    /// The request is answered.
    Resolved(HttpReply),
    /// The request is still blocked on the channel: nothing queued could
    /// answer it, and the producer is still there.
    Pending,
}

/// The mathematical value of a [`PollOutcome`].
pub ghost enum PollOutcomeView {
    Resolved(ReplyView),
    Pending,
}

impl View for PollOutcome {
    type V = PollOutcomeView;

    open spec fn view(&self) -> PollOutcomeView {
        match self {
            PollOutcome::Resolved(reply) => PollOutcomeView::Resolved(reply@),
            PollOutcome::Pending => PollOutcomeView::Pending,
        }
    }
}

/// What one request did: how far it got, and the diagnostics of the
/// transient errors that it received and retried on the way, oldest first.
#[derive(Debug, Clone, PartialEq, Eq)]
pub struct PollReport {
    pub outcome: PollOutcome,
    pub diagnostics: Vec<String>,
}

/// The mathematical value of a [`PollReport`].
pub ghost struct PollReportView {
    pub outcome: PollOutcomeView,
    pub diagnostics: Seq<Seq<char>>,
}

impl View for PollReport {
    type V = PollReportView;

    open spec fn view(&self) -> PollReportView {
        PollReportView { outcome: self.outcome@, diagnostics: texts(self.diagnostics@) }
    }
}

/// The number of transient errors queued in front of the first change, or
/// the length of the queue if it holds no change.
pub open spec fn leading_errors(queue: Seq<StreamItem>) -> nat
    decreases queue.len(),
{
    if queue.len() == 0 || queue.first() is Change {
        0
    } else {
        1 + leading_errors(queue.drop_first())
    }
}

/// The diagnostic of a transient error.
pub open spec fn diagnostic_of(item: StreamItem) -> Seq<char> {
    match item {
        StreamItem::TransientError(message) => message,
        StreamItem::Change(_) => Seq::empty(),
    }
}

/// The diagnostics of a run of transient errors, in the same order.
pub open spec fn diagnostics_of(errors: Seq<StreamItem>) -> Seq<Seq<char>> {
    errors.map_values(|item: StreamItem| diagnostic_of(item))
}

/// The paths of a change.
pub open spec fn paths_of(item: StreamItem) -> Seq<Seq<char>> {
    match item {
        StreamItem::Change(paths) => paths,
        StreamItem::TransientError(_) => Seq::empty(),
    }
}

/// One request served from `channel`: its report, and the channel it leaves.
///
/// The request receives in queue order. It retries on every transient error
/// in front of the first change and is answered by that change, which it
/// takes out together with the errors before it; everything behind stays
/// queued. With no change queued it uses up all the errors, and is then
/// answered with status 500 if the producer is gone and stays pending if not.
pub open spec fn polled(channel: ChannelView) -> (PollReportView, ChannelView) {
    let errors = leading_errors(channel.queue) as int;
    if errors < channel.queue.len() {
        (
            PollReportView {
                outcome: PollOutcomeView::Resolved(
                    ok_reply(comma_joined(paths_of(channel.queue[errors]))),
                ),
                diagnostics: diagnostics_of(channel.queue.take(errors)),
            },
            ChannelView { queue: channel.queue.skip(errors + 1), closed: channel.closed },
        )
    } else {
        (
            PollReportView {
                outcome: if channel.closed {
                    PollOutcomeView::Resolved(channel_closed_reply())
                } else {
                    PollOutcomeView::Pending
                },
                diagnostics: diagnostics_of(channel.queue),
            },
            ChannelView { queue: Seq::empty(), closed: channel.closed },
        )
    }
}

/// `leading_errors` said without recursion: it is the one position, at most
/// the length of the queue, with only transient errors before it and a change
/// at it, if it is inside the queue.
pub proof fn lemma_leading_errors(queue: Seq<StreamItem>)
    ensures
        leading_errors(queue) <= queue.len(),
        forall|j: int| 0 <= j < leading_errors(queue) ==> queue[j] is TransientError,
        leading_errors(queue) < queue.len() ==> queue[leading_errors(queue) as int] is Change,
    decreases queue.len(),
{
    if queue.len() == 0 || queue.first() is Change {
    } else {
        let rest = queue.drop_first();
        lemma_leading_errors(rest);
        assert forall|j: int| 0 <= j < leading_errors(queue) implies queue[j] is TransientError by {
            if j > 0 {
                assert(queue[j] == rest[j - 1]);
            }
        }
        assert(leading_errors(rest) < rest.len() ==> queue[leading_errors(queue) as int]
            == rest[leading_errors(rest) as int]);
    }
}

/// A position with a change at it and only transient errors before it is
/// the number of leading errors.
pub proof fn lemma_first_change_is_leading_errors(queue: Seq<StreamItem>, at: int)
    requires
        0 <= at < queue.len(),
        queue[at] is Change,
        forall|j: int| 0 <= j < at ==> queue[j] is TransientError,
    ensures
        leading_errors(queue) == at,
{
    lemma_leading_errors(queue);
    let k = leading_errors(queue) as int;
    if k < at {
        assert(queue[k] is TransientError);
    } else if k > at {
        assert(queue[at] is TransientError);
    }
}

/// A request that receives a transient error goes on as a request on the
/// rest of the queue would, with that error's diagnostic in front of its own.
proof fn lemma_polled_after_error(channel: ChannelView)
    requires
        channel.queue.len() > 0,
        channel.queue.first() is TransientError,
    ensures
        polled(channel).1 == polled(received(channel).1).1,
        polled(channel).0.outcome == polled(received(channel).1).0.outcome,
        polled(channel).0.diagnostics == seq![diagnostic_of(channel.queue.first())] + polled(
            received(channel).1,
        ).0.diagnostics,
{
    let queue = channel.queue;
    let rest = queue.drop_first();
    let k = leading_errors(rest) as int;
    lemma_leading_errors(rest);
    assert(leading_errors(queue) == k + 1);
    if k < rest.len() {
        assert(queue[k + 1] == rest[k]);
        assert(queue.skip(k + 2) =~= rest.skip(k + 1));
        assert(diagnostics_of(queue.take(k + 1)) =~= seq![diagnostic_of(queue.first())]
            + diagnostics_of(rest.take(k)));
    } else {
        assert(diagnostics_of(queue) =~= seq![diagnostic_of(queue.first())] + diagnostics_of(
            rest,
        ));
    }
}

/// A request that receives anything but a transient error is done with that
/// one receive, and has no diagnostics of its own.
proof fn lemma_polled_at_rest(channel: ChannelView)
    requires
        channel.queue.len() > 0 ==> channel.queue.first() is Change,
    ensures
        polled(channel).1 == received(channel).1,
        polled(channel).0.diagnostics == Seq::<Seq<char>>::empty(),
        polled(channel).0.outcome == match received(channel).0 {
            Some(delivery) => PollOutcomeView::Resolved(action_for(delivery)->Respond_0),
            None => PollOutcomeView::Pending,
        },
{
    let queue = channel.queue;
    if queue.len() > 0 {
        assert(queue.skip(1) =~= queue.drop_first());
        assert(diagnostics_of(queue.take(0)) =~= Seq::empty());
    } else {
        assert(queue =~= Seq::empty());
        assert(diagnostics_of(queue) =~= Seq::empty());
    }
}

/// Serves one long-poll request from what the channel holds now.
///
/// The caller holds the channel for the whole call. Where the outcome is
/// `Pending`, the request is still blocked: the caller waits until the
/// producer has sent or gone, and calls again.
pub fn poll_file_change(channel: &mut EventChannel) -> (report: PollReport)
    ensures
        (report@, final(channel)@) == polled(old(channel)@),
{
    let ghost start = channel@;
    let mut diagnostics: Vec<String> = Vec::new();
    assert(texts(diagnostics@) =~= Seq::empty());
    loop
        invariant
            start == old(channel)@,
            polled(start).1 == polled(channel@).1,
            polled(start).0.outcome == polled(channel@).0.outcome,
            polled(start).0.diagnostics == texts(diagnostics@) + polled(channel@).0.diagnostics,
        decreases channel@.queue.len(),
    {
        let ghost before = channel@;
        let ghost retried = diagnostics@;
        match channel.receive() {
            None => {
                proof {
                    lemma_polled_at_rest(before);
                    assert(texts(retried) + Seq::<Seq<char>>::empty() =~= texts(retried));
                }
                return PollReport { outcome: PollOutcome::Pending, diagnostics };
            },
            Some(delivery) => {
                match on_delivery(delivery) {
                    PollAction::Respond(reply) => {
                        proof {
                            lemma_polled_at_rest(before);
                            assert(texts(retried) + Seq::<Seq<char>>::empty() =~= texts(retried));
                        }
                        return PollReport { outcome: PollOutcome::Resolved(reply), diagnostics };
                    },
                    PollAction::Retry(diagnostic) => {
                        proof {
                            lemma_polled_after_error(before);
                        }
                        diagnostics.push(diagnostic);
                        assert(texts(diagnostics@) =~= texts(retried) + seq![
                            diagnostic_of(before.queue.first()),
                        ]);
                    },
                }
            },
        }
    }
}

} // verus!
