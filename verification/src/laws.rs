//! What holds of every run of the bridge: requests served one after another
//! from one channel.
//!
//! The lock that guards the receiving end lets one request at a time receive,
//! and a request keeps the lock until it has answered. So whatever the threads
//! do, the requests are served in some order, one after another. The laws
//! below speak of such runs.

use vstd::prelude::*;
use crate::body::comma_joined;
use crate::channel::{after_send, empty_channel, ChannelView};
use crate::event::StreamItem;
use crate::poll::{
    diagnostics_of, leading_errors, lemma_first_change_is_leading_errors, lemma_leading_errors,
    paths_of, polled, PollOutcomeView, PollReportView,
};
use crate::reply::{channel_closed_reply, ok_reply, ReplyView};

verus! {

/// The channel after each of `sent` was sent on it, first to last.
pub open spec fn after_sends(channel: ChannelView, sent: Seq<StreamItem>) -> ChannelView
    decreases sent.len(),
{
    if sent.len() == 0 {
        channel
    } else {
        after_send(after_sends(channel, sent.drop_last()), sent.last())
    }
}

/// The channel after `served` requests were served from it, one after another.
pub open spec fn after_polls(channel: ChannelView, served: nat) -> ChannelView
    decreases served,
{
    if served == 0 {
        channel
    } else {
        polled(after_polls(channel, (served - 1) as nat)).1
    }
}

/// The report of the request that is served after `earlier` others.
pub open spec fn report_of(channel: ChannelView, earlier: nat) -> PollReportView {
    polled(after_polls(channel, earlier)).0
}

/// The stream items that carry the given change events, in the same order.
pub open spec fn changes(events: Seq<Seq<Seq<char>>>) -> Seq<StreamItem> {
    events.map_values(|paths: Seq<Seq<char>>| StreamItem::Change(paths))
}

/// The stream items that carry the given diagnostics, in the same order.
pub open spec fn transient_errors(diagnostics: Seq<Seq<char>>) -> Seq<StreamItem> {
    diagnostics.map_values(|message: Seq<char>| StreamItem::TransientError(message))
}

/// The paths of the changes in a queue, in queue order, with the transient
/// errors left out.
pub open spec fn changes_in(queue: Seq<StreamItem>) -> Seq<Seq<Seq<char>>> {
    queue.filter(|item: StreamItem| item is Change).map_values(|item: StreamItem| paths_of(item))
}

/// The place of `request` in the order in which the requests got the lock.
pub open spec fn turn_of(order: Seq<nat>, request: nat) -> nat {
    order.index_of(request) as nat
}

/// One step of a run of the bridge.
pub ghost enum BridgeStep {
    /// The watcher sends an item.
    Produce(StreamItem),
    /// The request that holds the channel is served from what is queued. A
    /// request that stays pending is served again by a later step.
    Serve,
}

/// The channel after a run of steps, first to last.
pub open spec fn channel_after(channel: ChannelView, steps: Seq<BridgeStep>) -> ChannelView
    decreases steps.len(),
{
    if steps.len() == 0 {
        channel
    } else {
        let before = channel_after(channel, steps.drop_last());
        match steps.last() {
            BridgeStep::Produce(item) => after_send(before, item),
            BridgeStep::Serve => polled(before).1,
        }
    }
}

/// The replies given in a run of steps, in the order in which they were given.
pub open spec fn replies_in(channel: ChannelView, steps: Seq<BridgeStep>) -> Seq<ReplyView>
    decreases steps.len(),
{
    if steps.len() == 0 {
        Seq::empty()
    } else {
        let earlier = replies_in(channel, steps.drop_last());
        match steps.last() {
            BridgeStep::Produce(_) => earlier,
            BridgeStep::Serve => match polled(
                channel_after(channel, steps.drop_last()),
            ).0.outcome {
                PollOutcomeView::Resolved(reply) => earlier.push(reply),
                PollOutcomeView::Pending => earlier,
            },
        }
    }
}

/// The items that the watcher sent in a run of steps, in the order sent.
pub open spec fn produced_in(steps: Seq<BridgeStep>) -> Seq<StreamItem>
    decreases steps.len(),
{
    if steps.len() == 0 {
        Seq::empty()
    } else {
        let earlier = produced_in(steps.drop_last());
        match steps.last() {
            BridgeStep::Produce(item) => earlier.push(item),
            BridgeStep::Serve => earlier,
        }
    }
}

/// The replies that answer the given change events, one each, in the same order.
pub open spec fn answers_to(events: Seq<Seq<Seq<char>>>) -> Seq<ReplyView> {
    events.map_values(|paths: Seq<Seq<char>>| ok_reply(comma_joined(paths)))
}

/// An open channel holds exactly what was sent on it and not yet received.
pub proof fn lemma_sends_queue_in_order(channel: ChannelView, sent: Seq<StreamItem>)
    requires
        !channel.closed,
    ensures
        after_sends(channel, sent) == (ChannelView {
            queue: channel.queue + sent,
            closed: false,
        }),
    decreases sent.len(),
{
    if sent.len() == 0 {
        assert(channel.queue + sent =~= channel.queue);
    } else {
        lemma_sends_queue_in_order(channel, sent.drop_last());
        assert((channel.queue + sent.drop_last()).push(sent.last()) =~= channel.queue + sent);
    }
}

/// The changes in a queue are those of its first item followed by those in
/// the rest.
proof fn lemma_changes_in_unfold(queue: Seq<StreamItem>)
    requires
        queue.len() > 0,
    ensures
        queue.first() is Change ==> changes_in(queue) == seq![paths_of(queue.first())]
            + changes_in(queue.drop_first()),
        queue.first() is TransientError ==> changes_in(queue) == changes_in(queue.drop_first()),
{
    let is_change = |item: StreamItem| item is Change;
    let head = seq![queue.first()];
    let tail = queue.drop_first();
    assert(queue =~= head + tail);
    Seq::filter_distributes_over_add(head, tail, is_change);
    assert(head.filter(is_change) =~= if queue.first() is Change {
        head
    } else {
        Seq::empty()
    }) by {
        reveal_with_fuel(Seq::filter, 2);
        assert(head.drop_last() =~= Seq::empty());
    }
    if queue.first() is Change {
        assert(changes_in(queue) =~= seq![paths_of(queue.first())] + changes_in(tail));
    } else {
        assert(head.filter(is_change) + tail.filter(is_change) =~= tail.filter(is_change));
    }
}

/// The changes in two queues put end to end are those of the first followed
/// by those of the second.
proof fn lemma_changes_in_concat(front: Seq<StreamItem>, back: Seq<StreamItem>)
    ensures
        changes_in(front + back) == changes_in(front) + changes_in(back),
{
    let is_change = |item: StreamItem| item is Change;
    Seq::filter_distributes_over_add(front, back, is_change);
    assert(changes_in(front + back) =~= changes_in(front) + changes_in(back));
}

/// A queue without items holds no change.
proof fn lemma_changes_in_empty(queue: Seq<StreamItem>)
    requires
        queue.len() == 0,
    ensures
        changes_in(queue) == Seq::<Seq<Seq<char>>>::empty(),
{
    reveal_with_fuel(Seq::filter, 1);
    assert(changes_in(queue) =~= Seq::empty());
}

/// One request takes the first change of the queue and no other: it is
/// answered by that change, and the changes behind it stay queued in their
/// order. With no change queued it leaves none, and is answered with status
/// 500 if the producer is gone and stays pending if not.
pub proof fn lemma_request_takes_first_change(channel: ChannelView)
    ensures
        polled(channel).1.closed == channel.closed,
        changes_in(channel.queue).len() > 0 ==> {
            &&& polled(channel).0.outcome == PollOutcomeView::Resolved(
                ok_reply(comma_joined(changes_in(channel.queue).first())),
            )
            &&& changes_in(polled(channel).1.queue) == changes_in(channel.queue).drop_first()
        },
        changes_in(channel.queue).len() == 0 ==> {
            &&& polled(channel).0.outcome == if channel.closed {
                PollOutcomeView::Resolved(channel_closed_reply())
            } else {
                PollOutcomeView::Pending
            }
            &&& polled(channel).1.queue == Seq::<StreamItem>::empty()
        },
    decreases channel.queue.len(),
{
    let queue = channel.queue;
    if queue.len() == 0 {
        lemma_changes_in_empty(queue);
    } else {
        lemma_changes_in_unfold(queue);
        let tail = queue.drop_first();
        if queue.first() is Change {
            assert(queue.skip(1) =~= tail);
            assert((seq![paths_of(queue.first())] + changes_in(tail)).drop_first() =~= changes_in(
                tail,
            ));
        } else {
            let rest = ChannelView { queue: tail, closed: channel.closed };
            lemma_request_takes_first_change(rest);
            lemma_leading_errors(tail);
            let k = leading_errors(tail) as int;
            if k < tail.len() {
                assert(queue[k + 1] == tail[k]);
                assert(queue.skip(k + 2) =~= tail.skip(k as int + 1));
            }
        }
    }
}

/// Requests served one after another take the changes of the queue one
/// each, in queue order: the request served after `earlier` others is
/// answered by change number `earlier`, and after it exactly the changes
/// behind that one are still queued.
pub proof fn lemma_requests_take_changes_in_order(channel: ChannelView, earlier: nat)
    requires
        earlier < changes_in(channel.queue).len(),
    ensures
        report_of(channel, earlier).outcome == PollOutcomeView::Resolved(
            ok_reply(comma_joined(changes_in(channel.queue)[earlier as int])),
        ),
        changes_in(after_polls(channel, earlier).queue) == changes_in(channel.queue).skip(
            earlier as int,
        ),
        changes_in(after_polls(channel, earlier + 1).queue) == changes_in(channel.queue).skip(
            earlier as int + 1,
        ),
    decreases earlier,
{
    let all = changes_in(channel.queue);
    if earlier == 0 {
        assert(all.skip(0) =~= all);
    } else {
        lemma_requests_take_changes_in_order(channel, (earlier - 1) as nat);
    }
    let now = after_polls(channel, earlier);
    assert(changes_in(now.queue) == all.skip(earlier as int));
    lemma_request_takes_first_change(now);
    assert(all.skip(earlier as int).drop_first() =~= all.skip(earlier as int + 1));
}

/// Change events that the watcher produces while as many requests are
/// outstanding resolve those requests one each, in production order: request
/// number `k` is answered with status 200 and the joined paths of event
/// number `k`, it meets no transient error, and after it the channel holds
/// exactly the events behind number `k`. So no event reaches two requests,
/// and after the last request nothing is left.
pub proof fn law_requests_resolve_in_production_order(events: Seq<Seq<Seq<char>>>)
    ensures
        forall|k: nat|
            k < events.len() ==> {
                &&& #[trigger] report_of(after_sends(empty_channel(), changes(events)), k)
                    == (PollReportView {
                    outcome: PollOutcomeView::Resolved(ok_reply(comma_joined(events[k as int]))),
                    diagnostics: Seq::empty(),
                })
                &&& after_polls(after_sends(empty_channel(), changes(events)), k + 1)
                    == (ChannelView { queue: changes(events.skip(k as int + 1)), closed: false })
            },
        after_polls(after_sends(empty_channel(), changes(events)), events.len())
            == empty_channel(),
{
    let channel = after_sends(empty_channel(), changes(events));
    lemma_sends_queue_in_order(empty_channel(), changes(events));
    assert(Seq::<StreamItem>::empty() + changes(events) =~= changes(events));
    assert(events.skip(0) =~= events);
    assert forall|k: nat| k < events.len() implies {
        &&& #[trigger] report_of(channel, k) == (PollReportView {
            outcome: PollOutcomeView::Resolved(ok_reply(comma_joined(events[k as int]))),
            diagnostics: Seq::empty(),
        })
        &&& after_polls(channel, k + 1) == (ChannelView {
            queue: changes(events.skip(k as int + 1)),
            closed: false,
        })
    } by {
        lemma_change_events_resolve_in_order(events, k);
    }
    if events.len() > 0 {
        let last = (events.len() - 1) as nat;
        assert(report_of(channel, last).diagnostics == Seq::<Seq<char>>::empty());
        assert(changes(events.skip(last as int + 1)) =~= Seq::empty());
    }
}

/// The step of `law_requests_resolve_in_production_order` for one request.
proof fn lemma_change_events_resolve_in_order(events: Seq<Seq<Seq<char>>>, k: nat)
    requires
        k < events.len(),
    ensures
        after_polls(ChannelView { queue: changes(events), closed: false }, k) == (ChannelView {
            queue: changes(events.skip(k as int)),
            closed: false,
        }),
        report_of(ChannelView { queue: changes(events), closed: false }, k) == (PollReportView {
            outcome: PollOutcomeView::Resolved(ok_reply(comma_joined(events[k as int]))),
            diagnostics: Seq::empty(),
        }),
        after_polls(ChannelView { queue: changes(events), closed: false }, k + 1)
            == (ChannelView { queue: changes(events.skip(k as int + 1)), closed: false }),
    decreases k,
{
    if k == 0 {
        assert(events.skip(0) =~= events);
    } else {
        lemma_change_events_resolve_in_order(events, (k - 1) as nat);
    }
    let queue = changes(events.skip(k as int));
    assert(queue.first() == StreamItem::Change(events[k as int]));
    assert(queue.skip(1) =~= changes(events.skip(k as int + 1)));
    assert(diagnostics_of(queue.take(0)) =~= Seq::empty());
}

/// A transient error in the channel ends no request. A request that finds
/// transient errors in front of a change retries on each of them and is
/// answered by the change alone: status 200, and a body made of the
/// change's paths and nothing else. What was queued behind the change stays.
pub proof fn law_transient_errors_are_retried(
    diagnostics: Seq<Seq<char>>,
    paths: Seq<Seq<char>>,
    behind: Seq<StreamItem>,
    closed: bool,
)
    ensures
        polled(
            ChannelView {
                queue: transient_errors(diagnostics) + seq![StreamItem::Change(paths)] + behind,
                closed,
            },
        ) == (
            PollReportView {
                outcome: PollOutcomeView::Resolved(ok_reply(comma_joined(paths))),
                diagnostics,
            },
            ChannelView { queue: behind, closed },
        ),
{
    let queue = transient_errors(diagnostics) + seq![StreamItem::Change(paths)] + behind;
    let at = diagnostics.len() as int;
    lemma_first_change_is_leading_errors(queue, at);
    assert(queue.skip(at + 1) =~= behind);
    assert(diagnostics_of(queue.take(at)) =~= diagnostics);
}

/// A request made before any change stays pending until a change is sent.
/// While the open channel holds no change the request is not answered, and
/// it leaves the channel empty. The first change sent after that answers it.
pub proof fn law_request_pends_until_a_change(channel: ChannelView, paths: Seq<Seq<char>>)
    requires
        !channel.closed,
        forall|i: int| 0 <= i < channel.queue.len() ==> channel.queue[i] is TransientError,
    ensures
        polled(channel).0.outcome == PollOutcomeView::Pending,
        polled(channel).1 == empty_channel(),
        polled(after_send(polled(channel).1, StreamItem::Change(paths))).0.outcome
            == PollOutcomeView::Resolved(ok_reply(comma_joined(paths))),
        polled(after_send(polled(channel).1, StreamItem::Change(paths))).1 == empty_channel(),
{
    lemma_leading_errors(channel.queue);
    let k = leading_errors(channel.queue) as int;
    if k < channel.queue.len() {
        assert(channel.queue[k] is TransientError);
    }
    let woken = after_send(empty_channel(), StreamItem::Change(paths));
    assert(woken.queue.first() == StreamItem::Change(paths));
    assert(woken.queue.skip(1) =~= Seq::empty());
}

/// In every run of an open channel, whatever the order in which the watcher
/// sends and the requests are served, each change answers exactly one
/// request, in production order. The replies given so far, followed by the
/// answers to the changes still queued, are the answers to all changes that
/// were queued at the start or sent since, in that order. So no change is
/// dropped, none answers twice, and no transient error is ever answered.
pub proof fn law_each_change_answers_one_request(channel: ChannelView, steps: Seq<BridgeStep>)
    requires
        !channel.closed,
    ensures
        !channel_after(channel, steps).closed,
        replies_in(channel, steps) + answers_to(changes_in(channel_after(channel, steps).queue))
            == answers_to(changes_in(channel.queue + produced_in(steps))),
    decreases steps.len(),
{
    if steps.len() == 0 {
        assert(channel.queue + produced_in(steps) =~= channel.queue);
        assert(replies_in(channel, steps) + answers_to(changes_in(channel.queue)) =~= answers_to(
            changes_in(channel.queue),
        ));
    } else {
        let earlier = steps.drop_last();
        law_each_change_answers_one_request(channel, earlier);
        let before = channel_after(channel, earlier);
        let queued = changes_in(before.queue);
        let all = changes_in(channel.queue + produced_in(earlier));
        match steps.last() {
            BridgeStep::Produce(item) => {
                let one = seq![item];
                assert(before.queue.push(item) =~= before.queue + one);
                assert(channel.queue + produced_in(steps) =~= (channel.queue + produced_in(
                    earlier,
                )) + one);
                lemma_changes_in_concat(before.queue, one);
                lemma_changes_in_concat(channel.queue + produced_in(earlier), one);
                assert(answers_to(queued + changes_in(one)) =~= answers_to(queued) + answers_to(
                    changes_in(one),
                ));
                assert(answers_to(all + changes_in(one)) =~= answers_to(all) + answers_to(
                    changes_in(one),
                ));
                assert(replies_in(channel, earlier) + (answers_to(queued) + answers_to(
                    changes_in(one),
                )) =~= (replies_in(channel, earlier) + answers_to(queued)) + answers_to(
                    changes_in(one),
                ));
            },
            BridgeStep::Serve => {
                lemma_request_takes_first_change(before);
                assert(channel.queue + produced_in(steps) =~= channel.queue + produced_in(
                    earlier,
                ));
                if queued.len() > 0 {
                    assert(replies_in(channel, earlier).push(
                        ok_reply(comma_joined(queued.first())),
                    ) + answers_to(queued.drop_first()) =~= replies_in(channel, earlier)
                        + answers_to(queued));
                } else {
                    lemma_changes_in_empty(Seq::empty());
                    assert(answers_to(queued) =~= answers_to(Seq::empty()));
                }
            },
        }
    }
}

/// Requests that race for the channel each resolve once, one per change.
/// Let `order` name the requests in the order in which they got the lock,
/// each once, and let the channel hold at least as many changes as there are
/// requests. Then every request is answered with status 200 by the change
/// whose number is the request's turn, two requests never share a change,
/// and the changes that no request took are all still queued.
pub proof fn law_racing_requests_take_one_change_each(channel: ChannelView, order: Seq<nat>)
    requires
        order.no_duplicates(),
        order.len() <= changes_in(channel.queue).len(),
    ensures
        forall|request: nat| #[trigger]
            order.contains(request) ==> {
                &&& turn_of(order, request) < order.len()
                &&& order[turn_of(order, request) as int] == request
                &&& report_of(channel, turn_of(order, request)).outcome
                    == PollOutcomeView::Resolved(
                    ok_reply(
                        comma_joined(changes_in(channel.queue)[turn_of(order, request) as int]),
                    ),
                )
            },
        forall|one: nat, other: nat|
            order.contains(one) && order.contains(other) && one != other ==> #[trigger] turn_of(
                order,
                one,
            ) != #[trigger] turn_of(order, other),
        changes_in(after_polls(channel, order.len()).queue) == changes_in(channel.queue).skip(
            order.len() as int,
        ),
{
    assert forall|request: nat| #[trigger] order.contains(request) implies {
        &&& turn_of(order, request) < order.len()
        &&& order[turn_of(order, request) as int] == request
        &&& report_of(channel, turn_of(order, request)).outcome == PollOutcomeView::Resolved(
            ok_reply(comma_joined(changes_in(channel.queue)[turn_of(order, request) as int])),
        )
    } by {
        let turn = order.index_of(request);
        assert(0 <= turn < order.len() && order[turn] == request);
        lemma_requests_take_changes_in_order(channel, turn as nat);
    }
    assert forall|one: nat, other: nat|
        order.contains(one) && order.contains(other) && one != other implies #[trigger] turn_of(
        order,
        one,
    ) != #[trigger] turn_of(order, other) by {
        let first = order.index_of(one);
        let second = order.index_of(other);
        assert(order[first] == one && order[second] == other);
    }
    if order.len() == 0 {
        assert(changes_in(channel.queue).skip(0) =~= changes_in(channel.queue));
    } else {
        lemma_requests_take_changes_in_order(channel, (order.len() - 1) as nat);
    }
}

} // verus!
