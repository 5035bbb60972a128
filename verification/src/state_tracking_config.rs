//! Startup configuration for the reporting pipeline.

use vstd::prelude::*;

verus! {

/// The three externally supplied values: where the forwarder binds its
/// outbound datagram socket, where the receiving collector listens, and the
/// minimum number of seconds between two non-error reports from one client.
/// Loaded once at startup and never mutated.
#[derive(Clone, Debug)]
pub struct StateTrackingConfig {
    pub state_output_sender_path: String,
    pub state_output_receiver_path: String,
    pub state_sender_interval_in_seconds: u64,
}

} // verus!
