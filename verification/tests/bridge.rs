use arrpc::bridge::{BridgeState, MAX_CLIENT_QUEUE};
use arrpc::json::Json;

fn json(text: &str) -> Json {
    Json::parse(text).unwrap()
}

#[test]
fn removes_cached_activity_when_socket_clears_it() {
    let mut state = BridgeState::new();
    let active = json(r#"{"socketId": "1", "activity": {"name": "Example"}}"#);

    state.update(&active);
    assert_eq!(state.replayable(), vec![active]);

    state.update(&json(r#"{"socketId": "1", "activity": null}"#));

    assert!(state.replayable().is_empty());
}

#[test]
fn null_activity_for_unknown_socket_does_not_grow_state() {
    let mut state = BridgeState::new();

    for id in 0..1000 {
        state.update(&json(&format!(r#"{{"socketId": "{id}", "activity": null}}"#)));
    }

    assert!(state.replayable().is_empty());
}

#[test]
fn a_later_message_replaces_the_earlier_one_of_its_socket() {
    let mut state = BridgeState::new();
    let first = json(r#"{"socketId": "1", "activity": {"name": "A"}}"#);
    let other = json(r#"{"socketId": "2", "activity": {"name": "B"}}"#);
    let second = json(r#"{"socketId": "1", "activity": {"name": "C"}}"#);
    state.update(&first);
    state.update(&other);
    state.update(&second);

    let replay = state.replayable();
    assert_eq!(replay.len(), 2);
    assert!(replay.contains(&second));
    assert!(replay.contains(&other));
    assert!(!replay.contains(&first));
}

#[test]
fn a_message_without_a_socket_is_not_remembered() {
    let mut state = BridgeState::new();
    state.update(&json(r#"{"activity": {"name": "A"}}"#));
    state.update(&json(r#"{"socketId": 7, "activity": {"name": "A"}}"#));
    assert!(state.replayable().is_empty());
}

#[test]
fn a_message_without_an_activity_is_remembered() {
    let mut state = BridgeState::new();
    let msg = json(r#"{"socketId": "1"}"#);
    state.update(&msg);
    assert_eq!(state.replayable(), vec![msg]);
}

#[test]
fn publishing_prints_the_message_and_replays_the_state() {
    let mut state = BridgeState::new();
    let msg = json(r#"{"socketId": "1", "pid": 3, "activity": {"name": "A\"é"}}"#);
    let published = state.publish(&msg).unwrap();
    assert_eq!(
        published.payload,
        "{\"activity\":{\"name\":\"A\\\"é\"},\"pid\":3,\"socketId\":\"1\"}"
    );
    assert_eq!(published.replay, vec![json(&published.payload)]);
}

#[test]
fn a_new_client_is_welcomed_with_what_is_remembered() {
    let mut state = BridgeState::new();
    assert_eq!(state.welcome().unwrap(), Some(Vec::new()));
    state.update(&json(r#"{"socketId": "1", "activity": {}}"#));
    assert_eq!(
        state.welcome().unwrap(),
        Some(vec!["{\"activity\":{},\"socketId\":\"1\"}".to_owned()])
    );
}

#[test]
fn a_new_client_is_turned_away_when_its_queue_would_overflow() {
    let mut state = BridgeState::new();
    for id in 0..MAX_CLIENT_QUEUE {
        state.update(&json(&format!(r#"{{"socketId": "{id}", "activity": {{}}}}"#)));
    }
    assert_eq!(state.welcome().unwrap().unwrap().len(), 64);
    state.update(&json(r#"{"socketId": "more", "activity": {}}"#));
    assert!(state.welcome().unwrap().is_none());
}
