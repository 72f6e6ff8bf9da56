//! Collection and live distribution of container log events.
//!
//! The crate holds the decision logic of a small log pipeline: the event
//! model and its wire encoding, the watcher manager and the per-container
//! log tailer of the collecting side, the forwarder that submits events one
//! at a time, and the bounded store with its broadcast distributor on the
//! receiving side. Every function is stated over a mathematical model and
//! proved against it; tasks, sockets and clocks stay with the caller.

pub mod event;
pub mod forwarder;
pub mod registry;
pub mod store;
pub mod tailer;
pub mod timestamp;
pub mod unicorn;
pub mod watcher;
pub mod web;
pub mod wire;
