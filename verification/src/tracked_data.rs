//! The envelope a reporter publishes: who reported, what state, and when.

use vstd::prelude::*;

use crate::state::{State, StateView};

verus! {

/// A wall-clock instant as whole seconds since the Unix epoch plus a
/// sub-second remainder in nanoseconds.
#[derive(Clone, Copy, Debug, PartialEq, Eq, Structural)]
pub struct Timestamp {
    pub secs: u64,
    pub nanos: u32,
}

impl Timestamp {
    /// The nanosecond field is a remainder below one second.
    pub open spec fn wf(self) -> bool {
        self.nanos < 1_000_000_000
    }

    pub fn new(secs: u64, nanos: u32) -> (t: Timestamp)
        requires
            nanos < 1_000_000_000,
        ensures
            t == (Timestamp { secs, nanos }),
            t.wf(),
    {
        Timestamp { secs, nanos }
    }
}

/// Relies on `std::time::SystemTime::now` and
/// `SystemTime::duration_since(UNIX_EPOCH)`: the clock value depends on the
/// machine, so nothing is stated beyond well-formedness, which holds because
/// `Duration::subsec_nanos` is documented to return less than one billion.
/// A clock before the epoch is reported as the epoch itself.
#[verifier::external_body]
pub fn current_timestamp() -> (t: Timestamp)
    ensures
        t.wf(),
{
    match std::time::SystemTime::now().duration_since(std::time::UNIX_EPOCH) {
        Ok(elapsed) => Timestamp { secs: elapsed.as_secs(), nanos: elapsed.subsec_nanos() },
        Err(_) => Timestamp { secs: 0, nanos: 0 },
    }
}

/// One published update: the reporter's identifier, its state, and the
/// capture time. Immutable once constructed; the forwarder consumes it
/// exactly once (encoded, then dropped).
#[derive(Clone, Debug)]
pub struct TrackedData {
    pub id: String,
    pub state: State,
    pub timestamp: Timestamp,
}

/// Mathematical image of a `TrackedData`.
pub struct TrackedDataView {
    pub id: Seq<char>,
    pub state: StateView,
    pub timestamp: Timestamp,
}

impl View for TrackedData {
    type V = TrackedDataView;

    open spec fn view(&self) -> TrackedDataView {
        TrackedDataView { id: self.id@, state: self.state@, timestamp: self.timestamp }
    }
}

impl TrackedData {
    pub fn new(id: String, state: State, timestamp: Timestamp) -> (d: TrackedData)
        ensures
            d@.id == id@,
            d@.state == state@,
            d@.timestamp == timestamp,
    {
        TrackedData { id, state, timestamp }
    }
}

/// Builds the envelope for `state` under the identifier `id`, capturing the
/// current wall-clock time as the timestamp.
pub fn generate_state_tracking_data(id: &str, state: State) -> (d: TrackedData)
    ensures
        d@.id == id@,
        d@.state == state@,
        d@.timestamp.wf(),
{
    let timestamp = current_timestamp();
    TrackedData::new(id.to_owned(), state, timestamp)
}

} // verus!
