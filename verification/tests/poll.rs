use watch_bridge::channel::EventChannel;
use watch_bridge::event::{ChangeEvent, Delivery, EventStreamResult};
use watch_bridge::poll::{poll_file_change, PollOutcome, PollReport};
use watch_bridge::reply::{health, HttpReply};

fn change(paths: &[&str]) -> EventStreamResult {
    EventStreamResult::Change(ChangeEvent {
        paths: paths.iter().map(|p| p.to_string()).collect(),
    })
}

fn transient(message: &str) -> EventStreamResult {
    EventStreamResult::TransientError(message.to_string())
}

fn ok(body: &str) -> PollOutcome {
    PollOutcome::Resolved(HttpReply {
        status: 200,
        body: body.to_string(),
    })
}

fn channel_with(items: Vec<EventStreamResult>) -> EventChannel {
    let mut channel = EventChannel::new();
    for item in items {
        assert_eq!(channel.send(item), Ok(()));
    }
    channel
}

#[test]
fn one_batch_of_two_paths_answers_the_poll() {
    let mut channel = channel_with(vec![change(&["/a/b.txt", "/a/c.txt"])]);
    let report = poll_file_change(&mut channel);
    assert_eq!(
        report,
        PollReport {
            outcome: ok("/a/b.txt,/a/c.txt"),
            diagnostics: Vec::new(),
        }
    );
    assert_eq!(channel.len(), 0);
}

#[test]
fn n_events_resolve_n_requests_in_production_order() {
    let produced = ["/e/0", "/e/1", "/e/2", "/e/3", "/e/4"];
    let mut channel = channel_with(produced.iter().map(|p| change(&[*p])).collect());
    for (k, path) in produced.iter().enumerate() {
        let report = poll_file_change(&mut channel);
        assert_eq!(report.outcome, ok(path));
        assert!(report.diagnostics.is_empty());
        assert_eq!(channel.len(), produced.len() - k - 1);
    }
    assert_eq!(poll_file_change(&mut channel).outcome, PollOutcome::Pending);
}

#[test]
fn events_produced_between_requests_resolve_them_in_order() {
    let mut channel = EventChannel::new();
    assert_eq!(channel.send(change(&["/first"])), Ok(()));
    assert_eq!(poll_file_change(&mut channel).outcome, ok("/first"));
    assert_eq!(channel.send(change(&["/second"])), Ok(()));
    assert_eq!(channel.send(change(&["/third"])), Ok(()));
    assert_eq!(poll_file_change(&mut channel).outcome, ok("/second"));
    assert_eq!(poll_file_change(&mut channel).outcome, ok("/third"));
}

#[test]
fn a_request_before_any_change_stays_pending() {
    let mut channel = EventChannel::new();
    for _ in 0..3 {
        let report = poll_file_change(&mut channel);
        assert_eq!(report.outcome, PollOutcome::Pending);
        assert!(report.diagnostics.is_empty());
    }
    assert_eq!(channel.send(change(&["/changed"])), Ok(()));
    assert_eq!(poll_file_change(&mut channel).outcome, ok("/changed"));
}

#[test]
fn a_transient_error_does_not_end_the_request() {
    let mut channel = channel_with(vec![transient("watch failed"), change(&["/a"])]);
    let report = poll_file_change(&mut channel);
    assert_eq!(report.outcome, ok("/a"));
    assert_eq!(report.diagnostics, vec!["watch failed".to_string()]);
    match report.outcome {
        PollOutcome::Resolved(reply) => assert!(!reply.body.contains("watch failed")),
        PollOutcome::Pending => panic!("the change should have answered the request"),
    }
    assert_eq!(channel.len(), 0);
}

#[test]
fn a_request_pending_on_errors_is_resolved_by_the_next_change() {
    let mut channel = channel_with(vec![transient("one"), transient("two")]);
    let report = poll_file_change(&mut channel);
    assert_eq!(report.outcome, PollOutcome::Pending);
    assert_eq!(
        report.diagnostics,
        vec!["one".to_string(), "two".to_string()]
    );
    assert_eq!(channel.len(), 0);
    assert_eq!(channel.send(transient("three")), Ok(()));
    assert_eq!(channel.send(change(&["/late"])), Ok(()));
    let report = poll_file_change(&mut channel);
    assert_eq!(report.outcome, ok("/late"));
    assert_eq!(report.diagnostics, vec!["three".to_string()]);
}

#[test]
fn what_is_queued_behind_the_change_stays_queued() {
    let mut channel = channel_with(vec![
        transient("e1"),
        change(&["/x"]),
        transient("e2"),
        change(&["/y"]),
    ]);
    assert_eq!(poll_file_change(&mut channel).outcome, ok("/x"));
    assert_eq!(channel.len(), 2);
    assert_eq!(channel.receive(), Some(Delivery::Item(transient("e2"))));
    assert_eq!(channel.receive(), Some(Delivery::Item(change(&["/y"]))));
}

#[test]
fn three_racing_requests_each_get_a_distinct_event() {
    let mut channel = channel_with(vec![
        change(&["/r/0"]),
        transient("hiccup"),
        change(&["/r/1"]),
        change(&["/r/2"]),
    ]);
    // The callers get the lock in some order; here caller 2, then 0, then 1.
    let order = [2usize, 0, 1];
    let mut bodies: Vec<Option<String>> = vec![None, None, None];
    for caller in order {
        match poll_file_change(&mut channel).outcome {
            PollOutcome::Resolved(reply) => {
                assert_eq!(reply.status, 200);
                assert!(bodies[caller].is_none());
                bodies[caller] = Some(reply.body);
            }
            PollOutcome::Pending => panic!("caller {} was left pending", caller),
        }
    }
    assert_eq!(bodies[2].as_deref(), Some("/r/0"));
    assert_eq!(bodies[0].as_deref(), Some("/r/1"));
    assert_eq!(bodies[1].as_deref(), Some("/r/2"));
    assert_eq!(channel.len(), 0);
}

#[test]
fn more_requests_than_events_leave_the_rest_pending() {
    let mut channel = channel_with(vec![change(&["/only"])]);
    assert_eq!(poll_file_change(&mut channel).outcome, ok("/only"));
    assert_eq!(poll_file_change(&mut channel).outcome, PollOutcome::Pending);
    assert_eq!(poll_file_change(&mut channel).outcome, PollOutcome::Pending);
}

#[test]
fn a_closed_and_drained_channel_answers_500() {
    let mut channel = channel_with(vec![transient("last words")]);
    channel.close();
    let report = poll_file_change(&mut channel);
    assert_eq!(
        report.outcome,
        PollOutcome::Resolved(HttpReply {
            status: 500,
            body: "event channel closed".to_string(),
        })
    );
    assert_eq!(report.diagnostics, vec!["last words".to_string()]);
    assert_eq!(
        poll_file_change(&mut channel).outcome,
        PollOutcome::Resolved(HttpReply::channel_closed())
    );
}

#[test]
fn a_closed_channel_still_answers_with_queued_changes_first() {
    let mut channel = channel_with(vec![change(&["/a"]), change(&["/b"])]);
    channel.close();
    assert_eq!(poll_file_change(&mut channel).outcome, ok("/a"));
    assert_eq!(poll_file_change(&mut channel).outcome, ok("/b"));
    assert_eq!(
        poll_file_change(&mut channel).outcome,
        PollOutcome::Resolved(HttpReply::channel_closed())
    );
}

#[test]
fn health_does_not_depend_on_pending_polls() {
    let mut channel = EventChannel::new();
    let before = health();
    assert_eq!(poll_file_change(&mut channel).outcome, PollOutcome::Pending);
    assert_eq!(health(), before);
    assert_eq!(channel.send(transient("broken")), Ok(()));
    assert_eq!(poll_file_change(&mut channel).outcome, PollOutcome::Pending);
    assert_eq!(health(), before);
    channel.close();
    assert_eq!(
        health(),
        HttpReply {
            status: 200,
            body: "It works!".to_string(),
        }
    );
}
