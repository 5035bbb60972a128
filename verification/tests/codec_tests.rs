use state_tracker::codec::{deserialize_tracked_data, serialize_tracked_data};
use state_tracker::state::State;
use state_tracker::tracked_data::{Timestamp, TrackedData};

#[test]
fn encodes_idle_exactly() {
    let data = TrackedData::new(
        String::from("worker"),
        State::Idle,
        Timestamp::new(12, 500_000_000),
    );
    let payload = serialize_tracked_data(&data);
    assert_eq!(
        payload,
        "{\"id\":\"worker\",\"state\":{\"tag\":\"Idle\"},\"timestamp\":{\"secs\":12,\"nanos\":500000000}}"
    );
}

#[test]
fn encodes_valid_exactly() {
    let data = TrackedData::new(String::from("db"), State::Valid, Timestamp::new(0, 0));
    let payload = serialize_tracked_data(&data);
    assert_eq!(
        payload,
        "{\"id\":\"db\",\"state\":{\"tag\":\"Valid\"},\"timestamp\":{\"secs\":0,\"nanos\":0}}"
    );
}

#[test]
fn encodes_error_exactly() {
    let data = TrackedData::new(
        String::from("disk"),
        State::Error(String::from("disk full")),
        Timestamp::new(1700000000, 1),
    );
    let payload = serialize_tracked_data(&data);
    assert_eq!(
        payload,
        "{\"id\":\"disk\",\"state\":{\"tag\":\"Error\",\"message\":\"disk full\"},\"timestamp\":{\"secs\":1700000000,\"nanos\":1}}"
    );
}

#[test]
fn escapes_quotes_and_backslashes() {
    let data = TrackedData::new(
        String::from("we\"ird\\id"),
        State::Error(String::from("path \"C:\\tmp\" missing")),
        Timestamp::new(3, 4),
    );
    let payload = serialize_tracked_data(&data);
    assert_eq!(
        payload,
        "{\"id\":\"we\\\"ird\\\\id\",\"state\":{\"tag\":\"Error\",\"message\":\"path \\\"C:\\\\tmp\\\" missing\"},\"timestamp\":{\"secs\":3,\"nanos\":4}}"
    );
}

#[test]
fn round_trip_idle() {
    let data = TrackedData::new(
        String::from("test_id"),
        State::Idle,
        Timestamp::new(42, 7),
    );
    let payload = serialize_tracked_data(&data);
    let back = deserialize_tracked_data(payload.as_str()).expect("should decode");
    assert_eq!(back.id, "test_id");
    assert_eq!(back.state, State::Idle);
    assert_eq!(back.timestamp, Timestamp::new(42, 7));
}

#[test]
fn round_trip_valid() {
    let data = TrackedData::new(
        String::from("cache"),
        State::Valid,
        Timestamp::new(u64::MAX, 999_999_999),
    );
    let payload = serialize_tracked_data(&data);
    let back = deserialize_tracked_data(payload.as_str()).expect("should decode");
    assert_eq!(back.id, "cache");
    assert_eq!(back.state, State::Valid);
    assert_eq!(back.timestamp.secs, u64::MAX);
    assert_eq!(back.timestamp.nanos, 999_999_999);
}

#[test]
fn round_trip_error_with_escapes() {
    let data = TrackedData::new(
        String::from("a\\b\"c"),
        State::Error(String::from("broke: \"\\\" twice")),
        Timestamp::new(5, 6),
    );
    let payload = serialize_tracked_data(&data);
    let back = deserialize_tracked_data(payload.as_str()).expect("should decode");
    assert_eq!(back.id, "a\\b\"c");
    assert_eq!(back.state, State::Error(String::from("broke: \"\\\" twice")));
    assert_eq!(back.timestamp, Timestamp::new(5, 6));
}

#[test]
fn round_trip_unicode_id() {
    let data = TrackedData::new(
        String::from("wörk€r-ßtate"),
        State::Error(String::from("üñïçödé message")),
        Timestamp::new(9, 10),
    );
    let payload = serialize_tracked_data(&data);
    let back = deserialize_tracked_data(payload.as_str()).expect("should decode");
    assert_eq!(back.id, "wörk€r-ßtate");
    assert_eq!(back.state, State::Error(String::from("üñïçödé message")));
}

#[test]
fn decode_rejects_garbage() {
    assert!(deserialize_tracked_data("not json at all").is_none());
    assert!(deserialize_tracked_data("").is_none());
    assert!(deserialize_tracked_data("{\"id\":\"x\"}").is_none());
}

#[test]
fn decode_rejects_truncated_payload() {
    let data = TrackedData::new(String::from("x"), State::Idle, Timestamp::new(1, 2));
    let payload = serialize_tracked_data(&data);
    let truncated = &payload[..payload.len() - 1];
    assert!(deserialize_tracked_data(truncated).is_none());
}

#[test]
fn decode_rejects_trailing_data() {
    let data = TrackedData::new(String::from("x"), State::Idle, Timestamp::new(1, 2));
    let mut payload = serialize_tracked_data(&data);
    payload.push(' ');
    assert!(deserialize_tracked_data(payload.as_str()).is_none());
}

#[test]
fn decode_rejects_unknown_tag() {
    let payload = "{\"id\":\"x\",\"state\":{\"tag\":\"Broken\"},\"timestamp\":{\"secs\":1,\"nanos\":2}}";
    assert!(deserialize_tracked_data(payload).is_none());
}

#[test]
fn decode_rejects_nanos_out_of_range() {
    let payload = "{\"id\":\"x\",\"state\":{\"tag\":\"Idle\"},\"timestamp\":{\"secs\":1,\"nanos\":4294967296}}";
    assert!(deserialize_tracked_data(payload).is_none());
}

#[test]
fn decode_rejects_secs_overflowing_u64() {
    let payload = "{\"id\":\"x\",\"state\":{\"tag\":\"Idle\"},\"timestamp\":{\"secs\":18446744073709551616,\"nanos\":0}}";
    assert!(deserialize_tracked_data(payload).is_none());
}

#[test]
fn decode_accepts_largest_secs() {
    let payload = "{\"id\":\"x\",\"state\":{\"tag\":\"Idle\"},\"timestamp\":{\"secs\":18446744073709551615,\"nanos\":0}}";
    let back = deserialize_tracked_data(payload).expect("should decode");
    assert_eq!(back.timestamp.secs, u64::MAX);
}

#[test]
fn wire_format_is_plain_json() {
    let data = TrackedData::new(
        String::from("test_id"),
        State::Error(String::from("disk \"full\"\\again")),
        Timestamp::new(77, 88),
    );
    let payload = serialize_tracked_data(&data);
    let value: serde_json::Value = serde_json::from_str(payload.as_str()).expect("valid JSON");
    assert_eq!(value.get("id").unwrap().as_str().unwrap(), "test_id");
    let state = value.get("state").unwrap();
    assert_eq!(state.get("tag").unwrap().as_str().unwrap(), "Error");
    assert_eq!(
        state.get("message").unwrap().as_str().unwrap(),
        "disk \"full\"\\again"
    );
    let timestamp = value.get("timestamp").unwrap();
    assert_eq!(timestamp.get("secs").unwrap().as_u64().unwrap(), 77);
    assert_eq!(timestamp.get("nanos").unwrap().as_u64().unwrap(), 88);
}
