//! The operational state a reporting subsystem can announce.

use vstd::prelude::*;

verus! {

/// The condition a reporter is in: healthy but quiet (`Idle`), healthy and
/// working (`Valid`), or failed with a human-readable cause (`Error`).
#[derive(Clone, Debug)]
pub enum State {
    Idle,
    Valid,
    Error(String),
}

/// Mathematical image of a `State`: the error message as a sequence of
/// characters instead of a heap-allocated string.
pub enum StateView {
    Idle,
    Valid,
    Error(Seq<char>),
}

impl View for State {
    type V = StateView;

    open spec fn view(&self) -> StateView {
        match self {
            State::Idle => StateView::Idle,
            State::Valid => StateView::Valid,
            State::Error(message) => StateView::Error(message@),
        }
    }
}

impl State {
    pub open spec fn spec_is_error(&self) -> bool {
        self@ is Error
    }

    /// True exactly on the `Error` variant; the rate limiter never
    /// suppresses states for which this holds.
    #[verifier::when_used_as_spec(spec_is_error)]
    pub fn is_error(&self) -> (r: bool)
        ensures
            r == self.spec_is_error(),
    {
        matches!(self, State::Error(_))
    }
}

impl PartialEq for State {
    /// Two states are equal when they carry the same variant and, for
    /// errors, the same message.
    fn eq(&self, other: &State) -> (r: bool) {
        match (self, other) {
            (State::Idle, State::Idle) => true,
            (State::Valid, State::Valid) => true,
            (State::Error(a), State::Error(b)) => *a == *b,
            _ => false,
        }
    }
}

impl vstd::std_specs::cmp::PartialEqSpecImpl for State {
    open spec fn obeys_eq_spec() -> bool {
        true
    }

    open spec fn eq_spec(&self, other: &State) -> bool {
        self@ == other@
    }
}

} // verus!
