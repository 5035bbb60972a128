//! The per-reporter handle: decides which reports pass the rate limiter and
//! builds the envelope for those that do.
//!
//! The handle itself holds no channel: an embedding enqueues the envelope
//! this module hands out and, on a successful enqueue, calls `record_sent`
//! so the suppression window restarts. The decision logic — which calls are
//! suppressed, which must go out — is all here and all verified.

use vstd::prelude::*;

use crate::state::State;
use crate::tracked_data::{generate_state_tracking_data, TrackedData};

verus! {

/// A reporter's handle. `latest_update` is the time (in seconds on the
/// caller's monotonic clock) of the last report that was actually enqueued,
/// or `None` while nothing has been enqueued yet; suppressed reports never
/// advance it.
#[derive(Clone, Debug)]
pub struct StateTrackerClient {
    pub id: String,
    pub latest_update: Option<u64>,
    pub update_interval_in_seconds: u64,
}

impl StateTrackerClient {
    /// A non-error report at `now` is suppressed exactly when a report was
    /// already enqueued and less than the configured interval has elapsed
    /// since. Error reports are never suppressed.
    pub open spec fn spec_suppresses(self, state: State, now: u64) -> bool {
        &&& !state.is_error()
        &&& match self.latest_update {
            Some(last) => last <= now < last + self.update_interval_in_seconds,
            None => false,
        }
    }

    /// The handle after one `send_state`/`record_sent` round at time `now`
    /// in which every non-suppressed report is accepted by the queue (the
    /// queue is open): a suppressed call leaves the handle unchanged, an
    /// enqueued one restarts the window at `now`.
    pub open spec fn spec_after_report(self, state: State, now: u64) -> StateTrackerClient {
        if self.spec_suppresses(state, now) {
            self
        } else {
            StateTrackerClient { latest_update: Some(now), ..self }
        }
    }

    pub fn new(id: String, update_interval_in_seconds: u64) -> (c: StateTrackerClient)
        ensures
            c.id@ == id@,
            c.latest_update is None,
            c.update_interval_in_seconds == update_interval_in_seconds,
    {
        StateTrackerClient { id, latest_update: None, update_interval_in_seconds }
    }

    /// Replaces the identifier for subsequent reports; envelopes already
    /// handed out keep the name they were built with.
    pub fn set_id(&mut self, id: String)
        ensures
            final(self).id@ == id@,
            final(self).latest_update == old(self).latest_update,
            final(self).update_interval_in_seconds == old(self).update_interval_in_seconds,
    {
        self.id = id;
    }

    /// Applies the suppression rule to `state` at time `now_seconds`:
    /// returns `None` — a successful no-op — when the report is suppressed,
    /// and otherwise the envelope to enqueue, stamped with the current
    /// wall-clock time. The caller reports `now_seconds` back through
    /// `record_sent` once the envelope was actually accepted by the queue.
    pub fn send_state(&self, state: State, now_seconds: u64) -> (r: Option<TrackedData>)
        ensures
            r is None <==> self.spec_suppresses(state, now_seconds),
            match r {
                Some(d) => {
                    &&& d@.id == self.id@
                    &&& d@.state == state@
                    &&& d@.timestamp.wf()
                },
                None => true,
            },
    {
        let suppressed = !state.is_error() && match self.latest_update {
            Some(last) => {
                now_seconds >= last && now_seconds - last < self.update_interval_in_seconds
            },
            None => false,
        };
        if suppressed {
            None
        } else {
            Some(generate_state_tracking_data(self.id.as_str(), state))
        }
    }

    /// Restarts the suppression window: to be called exactly when an
    /// envelope handed out by `send_state` was accepted by the queue.
    pub fn record_sent(&mut self, now_seconds: u64)
        ensures
            final(self).latest_update == Some(now_seconds),
            final(self).id@ == old(self).id@,
            final(self).update_interval_in_seconds == old(self).update_interval_in_seconds,
    {
        self.latest_update = Some(now_seconds);
    }
}

/// The handle after a sequence of reports, each a state with the time it was
/// made, under an open queue (`spec_after_report` applied left to right).
pub open spec fn run_reports(c: StateTrackerClient, reports: Seq<(State, u64)>) -> StateTrackerClient
    decreases reports.len(),
{
    if reports.len() == 0 {
        c
    } else {
        run_reports(c.spec_after_report(reports[0].0, reports[0].1), reports.skip(1))
    }
}

/// How many reports of a sequence are actually enqueued, under an open queue.
pub open spec fn count_enqueued(c: StateTrackerClient, reports: Seq<(State, u64)>) -> nat
    decreases reports.len(),
{
    if reports.len() == 0 {
        0
    } else {
        (if c.spec_suppresses(reports[0].0, reports[0].1) { 0nat } else { 1nat })
            + count_enqueued(c.spec_after_report(reports[0].0, reports[0].1), reports.skip(1))
    }
}

/// Every report of the sequence falls inside the suppression window that is
/// open when it is made, so none is enqueued and the handle never changes.
proof fn lemma_all_suppressed(c: StateTrackerClient, reports: Seq<(State, u64)>)
    requires
        forall|i: int| 0 <= i < reports.len() ==> c.spec_suppresses(#[trigger] reports[i].0, reports[i].1),
    ensures
        count_enqueued(c, reports) == 0,
        run_reports(c, reports) == c,
    decreases reports.len(),
{
    if reports.len() > 0 {
        assert(c.spec_suppresses(reports[0].0, reports[0].1));
        assert(forall|i: int| 0 <= i < reports.skip(1).len()
            ==> reports.skip(1)[i] == reports[i + 1]);
        lemma_all_suppressed(c, reports.skip(1));
    }
}

/// Law: among any run of non-error reports made within one suppression
/// window of each other — times nondecreasing, the whole run spanning less
/// than the configured interval — at most the first that passes the limiter
/// is enqueued; every later call of the run is a no-op.
pub proof fn lemma_rate_limit_window(c: StateTrackerClient, reports: Seq<(State, u64)>)
    requires
        reports.len() > 0,
        forall|i: int| 0 <= i < reports.len() ==> !(#[trigger] reports[i].0).is_error(),
        forall|i: int, j: int| 0 <= i <= j < reports.len()
            ==> (#[trigger] reports[i].1) <= (#[trigger] reports[j].1),
        reports.last().1 - reports.first().1 < c.update_interval_in_seconds,
    ensures
        count_enqueued(c, reports) <= 1,
    decreases reports.len(),
{
    let first = reports[0];
    let rest = reports.skip(1);
    assert(forall|i: int| 0 <= i < rest.len() ==> rest[i] == reports[i + 1]);
    if c.spec_suppresses(first.0, first.1) {
        if rest.len() > 0 {
            assert(rest.last() == reports.last());
            lemma_rate_limit_window(c, rest);
        }
    } else {
        let c2 = StateTrackerClient { latest_update: Some(first.1), ..c };
        assert(c.spec_after_report(first.0, first.1) == c2);
        assert forall|i: int| 0 <= i < rest.len()
            implies c2.spec_suppresses(#[trigger] rest[i].0, rest[i].1) by {
            assert(rest[i] == reports[i + 1]);
            assert(first.1 <= rest[i].1);
            assert(rest[i].1 <= reports.last().1);
        }
        lemma_all_suppressed(c2, rest);
    }
}

/// Law: an error report is never suppressed — whatever the timing, it is
/// enqueued, and the enqueue restarts the suppression window at its time —
/// while a suppressed call leaves the handle exactly as it was.
pub proof fn lemma_error_never_suppressed(c: StateTrackerClient, state: State, now: u64)
    requires
        state.is_error(),
    ensures
        !c.spec_suppresses(state, now),
        c.spec_after_report(state, now).latest_update == Some(now),
{
}

} // verus!
