use state_tracker::codec::{deserialize_tracked_data, serialize_tracked_data};
use state_tracker::error::{Error, ErrorKind};
use state_tracker::state::State;
use state_tracker::state_tracker::{emit_in_order, forward_payload};
use state_tracker::state_tracker_client::StateTrackerClient;
use state_tracker::state_tracking_config::StateTrackingConfig;
use state_tracker::tracked_data::{generate_state_tracking_data, Timestamp, TrackedData};

#[test]
fn correct_output_retrieved() {
    // One update through the forwarder's encoding and back through a
    // conformant receiver's decoding.
    let data = TrackedData::new(String::from("test_id"), State::Idle, Timestamp::new(11, 22));
    let payload = forward_payload(&data);
    let received = deserialize_tracked_data(payload.as_str()).expect("failed to send data");
    assert_eq!(received.id, "test_id");
    assert_eq!(received.state, State::Idle);
}

#[test]
fn forwarder_preserves_interleaved_order() {
    // Clients A and B interleave as A1, B1, A2; the receiver must observe
    // the datagrams in that same relative order.
    let mut a = StateTrackerClient::new(String::from("A"), 0);
    let mut b = StateTrackerClient::new(String::from("B"), 0);

    let a1 = a.send_state(State::Idle, 0).expect("A1 passes");
    a.record_sent(0);
    let b1 = b.send_state(State::Valid, 0).expect("B1 passes");
    b.record_sent(0);
    let a2 = a
        .send_state(State::Error(String::from("late")), 1)
        .expect("A2 passes");
    a.record_sent(1);

    let queue = vec![a1, b1, a2];
    let payloads = emit_in_order(&queue);

    assert_eq!(payloads.len(), 3);
    let d0 = deserialize_tracked_data(payloads[0].as_str()).unwrap();
    let d1 = deserialize_tracked_data(payloads[1].as_str()).unwrap();
    let d2 = deserialize_tracked_data(payloads[2].as_str()).unwrap();
    assert_eq!(d0.id, "A");
    assert_eq!(d0.state, State::Idle);
    assert_eq!(d1.id, "B");
    assert_eq!(d1.state, State::Valid);
    assert_eq!(d2.id, "A");
    assert_eq!(d2.state, State::Error(String::from("late")));
}

#[test]
fn drain_emits_every_enqueued_update() {
    // Everything enqueued before the queue closed is still emitted, in order.
    let queue = vec![
        TrackedData::new(String::from("one"), State::Idle, Timestamp::new(1, 0)),
        TrackedData::new(String::from("two"), State::Valid, Timestamp::new(2, 0)),
        TrackedData::new(
            String::from("three"),
            State::Error(String::from("last words")),
            Timestamp::new(3, 0),
        ),
    ];
    let payloads = emit_in_order(&queue);
    assert_eq!(payloads.len(), queue.len());
    for (payload, update) in payloads.iter().zip(queue.iter()) {
        assert_eq!(payload, &serialize_tracked_data(update));
    }
}

#[test]
fn drain_of_empty_queue_emits_nothing() {
    let queue: Vec<TrackedData> = Vec::new();
    let payloads = emit_in_order(&queue);
    assert!(payloads.is_empty());
}

#[test]
fn generated_data_carries_id_and_state() {
    let data = generate_state_tracking_data("sub", State::Valid);
    assert_eq!(data.id, "sub");
    assert_eq!(data.state, State::Valid);
    assert!(data.timestamp.nanos < 1_000_000_000);
}

#[test]
fn state_is_error_only_on_errors() {
    assert!(!State::Idle.is_error());
    assert!(!State::Valid.is_error());
    assert!(State::Error(String::from("x")).is_error());
}

#[test]
fn state_equality_compares_variant_and_message() {
    assert_eq!(State::Idle, State::Idle);
    assert_ne!(State::Idle, State::Valid);
    assert_eq!(
        State::Error(String::from("a")),
        State::Error(String::from("a"))
    );
    assert_ne!(
        State::Error(String::from("a")),
        State::Error(String::from("b"))
    );
    assert_ne!(State::Error(String::from("a")), State::Idle);
}

#[test]
fn error_carries_kind_and_message() {
    let error = Error::new(ErrorKind::InternalFailure, String::from("queue closed"));
    assert_eq!(error.kind, ErrorKind::InternalFailure);
    assert_eq!(error.message(), "queue closed");
}

#[test]
fn config_holds_its_three_values() {
    let config = StateTrackingConfig {
        state_output_sender_path: String::from("/tmp/out.sock"),
        state_output_receiver_path: String::from("/tmp/in.sock"),
        state_sender_interval_in_seconds: 5,
    };
    assert_eq!(config.state_output_sender_path, "/tmp/out.sock");
    assert_eq!(config.state_output_receiver_path, "/tmp/in.sock");
    assert_eq!(config.state_sender_interval_in_seconds, 5);
}
