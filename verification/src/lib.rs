//! A bridge between a filesystem watcher and HTTP long-polling.
//!
//! A watcher produces change events into a single channel. Each long-poll
//! request takes the channel for itself, waits for the next change, and
//! answers with the changed paths joined by commas. This crate holds the
//! rules of that bridge as verified functions over plain values; threads,
//! sockets and the watcher itself belong to the program built around it.

pub mod body;
pub mod channel;
pub mod event;
pub mod handler;
pub mod laws;
pub mod poll;
pub mod reply;
pub mod startup;
