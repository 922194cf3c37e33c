use arrpc::json::Json;
use arrpc::state_file::{
    current_state_file_name, first_recent, is_available_state_path, recent_state, select_state_file_name,
    state_activity_from_message, state_file_name, StateFile,
};

fn json(text: &str) -> Json {
    Json::parse(text).unwrap()
}

#[test]
fn state_activity_uses_arrpc_bun_shape() {
    let activity = state_activity_from_message(&json(
        r#"{
            "socketId": "42",
            "pid": 10,
            "activity": {
                "name": "Example",
                "application_id": "123",
                "timestamps": { "start": 1700000000000 }
            }
        }"#,
    ))
    .unwrap();

    assert_eq!(activity.socket_id, "42");
    assert_eq!(activity.name, "Example");
    assert_eq!(activity.application_id, "123");
    assert_eq!(activity.pid, 10);
    assert_eq!(activity.start_time, Some(1_700_000_000_000));
}

#[test]
fn state_file_records_server_metadata() {
    let mut state = StateFile::create_in("/tmp/arrpc-state-0".to_owned(), "test".to_owned());
    state.set_server("bridge", "127.0.0.1".to_owned(), 1337);
    state.set_server("websocket", "127.0.0.1".to_owned(), 6463);
    state.set_ipc_server("discord-ipc-0".to_owned());
    state.set_server("other", "127.0.0.1".to_owned(), 1);

    let content = state.current_content(&Vec::new());

    assert_eq!(state.path(), "/tmp/arrpc-state-0");
    assert_eq!(content.app_version, "test");
    assert!(content.timestamp > 1_600_000_000_000);
    assert!(content.activities.is_empty());
    let bridge = content.servers.bridge.unwrap();
    assert_eq!((bridge.host.as_str(), bridge.port), ("127.0.0.1", 1337));
    assert_eq!(content.servers.websocket.unwrap().port, 6463);
    assert_eq!(content.servers.ipc.unwrap().socket_path, "discord-ipc-0");
}

#[test]
fn activities_without_details_get_defaults() {
    let activity =
        state_activity_from_message(&json(r#"{"socketId": "1", "activity": {"name": 5}}"#)).unwrap();
    assert_eq!(activity.name, "Unknown");
    assert_eq!(activity.application_id, "");
    assert_eq!(activity.pid, 0);
    assert_eq!(activity.start_time, None);
    assert!(state_activity_from_message(&json(r#"{"socketId": "1", "activity": null}"#)).is_none());
    assert!(state_activity_from_message(&json(r#"{"socketId": "1"}"#)).is_none());
    assert!(state_activity_from_message(&json(r#"{"activity": {}}"#)).is_none());
}

#[test]
fn the_content_tells_of_the_activities_in_order() {
    let state = StateFile::create_in("x".to_owned(), "1.2.3".to_owned());
    let messages = vec![
        json(r#"{"socketId": "b", "activity": {}}"#),
        json(r#"{"socketId": "gone", "activity": null}"#),
        json(r#"{"socketId": "a", "activity": {}}"#),
    ];
    let content = state.content(77, &messages);
    assert_eq!(content.timestamp, 77);
    let ids: Vec<&str> =
        content.activities.iter().map(|activity| activity.socket_id.as_str()).collect();
    assert_eq!(ids, vec!["b", "a"]);
    assert!(content.servers.bridge.is_none());
}

#[test]
fn files_are_taken_over_when_nobody_keeps_them_up() {
    let now = 1_000_000;
    let free = |raw| is_available_state_path(raw, now);
    assert!(free(None));
    assert!(free(Some("{")));
    assert!(free(Some("{}")));
    assert!(free(Some(r#"{"timestamp": "x"}"#)));
    assert!(!free(Some(r#"{"timestamp": 990000}"#)));
    assert!(free(Some(r#"{"timestamp": 989999}"#)));
    assert!(!free(Some(r#"{"timestamp": 2000000}"#)));
}

#[test]
fn the_first_free_file_is_chosen() {
    let busy = || Some(r#"{"timestamp": 1000000}"#.to_owned());
    let mut files = vec![busy(), busy(), None, busy()];
    assert_eq!(select_state_file_name(&files, 1_000_000, 5), "arrpc-state-2");
    files[2] = busy();
    assert_eq!(select_state_file_name(&files, 1_000_000, 5), "arrpc-state-4");
    let all: Vec<Option<String>> = (0..10).map(|_| busy()).collect();
    assert_eq!(select_state_file_name(&all, 1_000_000, 4711), "arrpc-state-4711");
    assert_eq!(current_state_file_name(&all, 4711), "arrpc-state-0");
    assert_eq!(state_file_name(0), "arrpc-state-0");
}

#[test]
fn recent_states_are_younger_than_ten_seconds() {
    assert!(recent_state(10_000, 1));
    assert!(!recent_state(10_000, 0));
    assert!(recent_state(0, u64::MAX));
}

#[test]
fn the_first_recent_state_is_taken() {
    assert_eq!(first_recent(20_000, &vec![0, 10_000, 10_001, 19_999]), Some(2));
    assert_eq!(first_recent(20_000, &vec![30_000, 19_999]), Some(0));
    assert_eq!(first_recent(20_000, &vec![0, 10_000]), None);
    assert_eq!(first_recent(20_000, &Vec::new()), None);
}
