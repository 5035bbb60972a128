use state_tracker::state::State;
use state_tracker::state_tracker_client::StateTrackerClient;

#[test]
fn avoids_spamming_idle_and_active_states() {
    let client = StateTrackerClient::new(String::from("ID"), 5);
    let mut client = client;

    // The first report passes the limiter and restarts the window.
    let first = client.send_state(State::Valid, 0);
    assert!(first.is_some());
    client.record_sent(0);

    // Within the window, repeated healthy states are no-ops.
    assert!(client.send_state(State::Valid, 0).is_none());
    assert!(client.send_state(State::Idle, 2).is_none());
    assert!(client.send_state(State::Valid, 4).is_none());

    // Once the interval has elapsed, a healthy state passes again.
    assert!(client.send_state(State::Idle, 5).is_some());
}

#[test]
fn error_state_is_instantly_set() {
    let mut client = StateTrackerClient::new(String::from("ID"), 5);

    let first = client.send_state(State::Valid, 0).expect("should have received a state");
    assert_eq!(first.id, "ID");
    client.record_sent(0);

    // Still inside the window, but an error must go out immediately.
    let data = client
        .send_state(State::Error(String::from("TEST_ERROR")), 0)
        .expect("should have received an error state");
    assert_eq!(data.id, "ID");
    assert_eq!(data.state, State::Error(String::from("TEST_ERROR")));
}

#[test]
fn suppressed_calls_do_not_restart_the_window() {
    let mut client = StateTrackerClient::new(String::from("a"), 10);
    assert!(client.send_state(State::Idle, 0).is_some());
    client.record_sent(0);

    // Suppressed at t=9; nothing recorded, so t=10 passes (measured from 0).
    assert!(client.send_state(State::Idle, 9).is_none());
    assert!(client.send_state(State::Idle, 10).is_some());
}

#[test]
fn error_sends_restart_the_window() {
    // The scenario with min_interval_seconds = 5: Idle at t=0 delivered,
    // Valid at t=2 suppressed, Error at t=2 delivered (restarting the
    // window), Idle at t=3 suppressed, and Idle at t=6 still suppressed
    // because only four seconds have passed since the error went out.
    let mut client = StateTrackerClient::new(String::from("svc"), 5);

    let idle = client.send_state(State::Idle, 0);
    assert!(idle.is_some());
    client.record_sent(0);

    assert!(client.send_state(State::Valid, 2).is_none());

    let error = client.send_state(State::Error(String::from("disk full")), 2);
    assert!(error.is_some());
    client.record_sent(2);

    assert!(client.send_state(State::Idle, 3).is_none());
    assert!(client.send_state(State::Idle, 6).is_none());

    // Five seconds after the error send, healthy states pass again.
    assert!(client.send_state(State::Idle, 7).is_some());
}

#[test]
fn fresh_client_reports_immediately() {
    let client = StateTrackerClient::new(String::from("boot"), 60);
    let data = client.send_state(State::Idle, 0).expect("first report goes out");
    assert_eq!(data.id, "boot");
    assert_eq!(data.state, State::Idle);
}

#[test]
fn rename_applies_to_subsequent_reports() {
    let mut client = StateTrackerClient::new(String::from("default"), 5);
    client.set_id(String::from("renamed"));
    let data = client.send_state(State::Valid, 0).expect("should pass");
    assert_eq!(data.id, "renamed");
}
