use watch_bridge::channel::EventChannel;
use watch_bridge::event::{ChangeEvent, Delivery, EventStreamResult};

fn change(paths: &[&str]) -> EventStreamResult {
    EventStreamResult::Change(ChangeEvent {
        paths: paths.iter().map(|p| p.to_string()).collect(),
    })
}

fn transient(message: &str) -> EventStreamResult {
    EventStreamResult::TransientError(message.to_string())
}

#[test]
fn a_new_channel_is_open_and_empty() {
    let mut channel = EventChannel::new();
    assert_eq!(channel.len(), 0);
    assert!(!channel.is_closed());
    assert_eq!(channel.receive(), None);
}

#[test]
fn items_are_received_in_the_order_sent() {
    let mut channel = EventChannel::new();
    assert_eq!(channel.send(change(&["/1"])), Ok(()));
    assert_eq!(channel.send(transient("e")), Ok(()));
    assert_eq!(channel.send(change(&["/2", "/3"])), Ok(()));
    assert_eq!(channel.len(), 3);
    assert_eq!(channel.receive(), Some(Delivery::Item(change(&["/1"]))));
    assert_eq!(channel.receive(), Some(Delivery::Item(transient("e"))));
    assert_eq!(
        channel.receive(),
        Some(Delivery::Item(change(&["/2", "/3"])))
    );
    assert_eq!(channel.receive(), None);
    assert_eq!(channel.len(), 0);
}

#[test]
fn each_item_is_received_once() {
    let mut channel = EventChannel::new();
    assert_eq!(channel.send(change(&["/once"])), Ok(()));
    assert_eq!(channel.receive(), Some(Delivery::Item(change(&["/once"]))));
    assert_eq!(channel.receive(), None);
    assert_eq!(channel.receive(), None);
}

#[test]
fn send_buffers_without_a_receiver_waiting() {
    let mut channel = EventChannel::new();
    for i in 0..1000 {
        assert_eq!(channel.send(transient(&format!("{}", i))), Ok(()));
    }
    assert_eq!(channel.len(), 1000);
    assert_eq!(channel.receive(), Some(Delivery::Item(transient("0"))));
    assert_eq!(channel.len(), 999);
}

#[test]
fn a_closed_channel_refuses_to_send_and_hands_the_item_back() {
    let mut channel = EventChannel::new();
    channel.close();
    assert!(channel.is_closed());
    assert_eq!(channel.send(change(&["/late"])), Err(change(&["/late"])));
    assert_eq!(channel.len(), 0);
}

#[test]
fn a_closed_channel_still_delivers_what_was_queued() {
    let mut channel = EventChannel::new();
    assert_eq!(channel.send(change(&["/early"])), Ok(()));
    channel.close();
    assert_eq!(channel.len(), 1);
    assert_eq!(
        channel.receive(),
        Some(Delivery::Item(change(&["/early"])))
    );
    assert_eq!(channel.receive(), Some(Delivery::Closed));
    assert_eq!(channel.receive(), Some(Delivery::Closed));
    assert!(channel.is_closed());
}

#[test]
fn closing_twice_changes_nothing() {
    let mut channel = EventChannel::new();
    assert_eq!(channel.send(transient("x")), Ok(()));
    channel.close();
    channel.close();
    assert!(channel.is_closed());
    assert_eq!(channel.len(), 1);
}
