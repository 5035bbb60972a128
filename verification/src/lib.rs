//! A small state-reporting library: subsystems of a process report their
//! operational state (`Idle`, `Valid`, or `Error`) through rate-limited
//! client handles into a single queue, and a background forwarder emits
//! each update, encoded as a self-describing JSON datagram, over a local
//! datagram socket.
//!
//! This crate holds the verified core: the data model, the suppression
//! (rate-limiting) rule of the client, and the wire codec together with
//! its round-trip guarantee. The socket, the channel, and the background
//! task are ordinary async plumbing supplied by an embedding.

pub mod codec;
pub mod error;
pub mod state;
pub mod state_tracker;
pub mod state_tracker_client;
pub mod state_tracking_config;
pub mod tracked_data;
