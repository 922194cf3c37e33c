use arrpc::cli::{
    active_payload_from_state, activity_lines, bridge_unreachable, bridge_url, check_fixes_files,
    current_entries,
    database_bytes, database_dir, database_to_check, database_update_lines,
    display_detected_games, fetched_entries, fixes_fetch_failed, fixes_to_check,
    fixes_step, fixes_update_lines, format_duration,
    format_elapsed, list_database, low_ms, now_ms, read_json_array, read_json_value,
    state_activity_from_bridge_message, update_database, update_fixes, update_size_line,
    BridgeActivities, CliDetectableApp,
    CliDetectableExecutable, DatabaseError, FixesStep,
};
use arrpc::config::RuntimeConfig;
use arrpc::json::Json;
use arrpc::state_file::StateActivity;

fn json(text: &str) -> Json {
    Json::parse(text).unwrap()
}

fn array(text: &str) -> Vec<Json> {
    read_json_array(text).unwrap()
}

#[test]
fn duration_format_matches_cli_style() {
    let now = now_ms();
    assert_eq!(format_duration(now.saturating_sub(5_000)), "5s");
    assert_eq!(format_duration(now.saturating_sub(65_000)), "1m 5s");
}

#[test]
fn bridge_message_maps_to_detected_activity() {
    let activity = state_activity_from_bridge_message(&json(
        r#"{
            "socketId": "abc",
            "pid": 42,
            "activity": {
                "name": "Example",
                "application_id": "123",
                "timestamps": { "start": 1700000000000 }
            }
        }"#,
    ))
    .unwrap();

    assert_eq!(activity.socket_id, "abc");
    assert_eq!(activity.name, "Example");
    assert_eq!(activity.application_id, "123");
    assert_eq!(activity.pid, 42);
}

#[test]
fn elapsed_time_is_given_in_two_units() {
    assert_eq!(format_elapsed(999, 0), "0s");
    assert_eq!(format_elapsed(59_999, 0), "59s");
    assert_eq!(format_elapsed(60_000, 0), "1m 0s");
    assert_eq!(format_elapsed(3_599_000, 0), "59m 59s");
    assert_eq!(format_elapsed(3_600_000, 0), "1h 0m");
    assert_eq!(format_elapsed(90_061_000, 0), "25h 1m");
    assert_eq!(format_elapsed(5, 1_000_000), "0s");
}

#[test]
fn the_clock_shows_the_present() {
    assert!(now_ms() > 1_600_000_000_000);
}

#[test]
fn times_are_cut_to_64_bits() {
    assert_eq!(low_ms(1_700_000_000_000), 1_700_000_000_000);
    assert_eq!(low_ms(u64::MAX as u128), u64::MAX);
    assert_eq!(low_ms(u64::MAX as u128 + 6), 5);
}

fn activity(start_time: Option<u64>) -> StateActivity {
    StateActivity {
        socket_id: "s".to_owned(),
        name: "Game".to_owned(),
        application_id: "9".to_owned(),
        pid: 4,
        start_time,
    }
}

#[test]
fn detected_games_are_listed() {
    assert_eq!(
        display_detected_games(&Vec::new()),
        vec!["Currently detected games:", "  No games currently detected."]
    );
    assert_eq!(
        display_detected_games(&vec![activity(None)]),
        vec![
            "Currently detected games:",
            "  1. Game",
            "     App ID: 9",
            "     PID: 4",
            "     Socket: s",
            "",
        ]
    );
    assert_eq!(
        activity_lines(12, &activity(Some(1_000)), 8_000),
        vec![
            "  12. Game",
            "     App ID: 9",
            "     PID: 4",
            "     Socket: s",
            "     Duration: 7s",
            "",
        ]
    );
}

#[test]
fn the_news_of_the_bridge_are_collected() {
    let mut activities = BridgeActivities::new();
    for text in [
        r#"{"socketId": "1", "activity": {"name": "A"}}"#,
        r#"{"socketId": "2", "activity": {"name": "B"}}"#,
        r#"{"socketId": "1", "activity": {"name": "C"}}"#,
        r#"{"socketId": "2", "activity": null}"#,
        r#"{"socketId": "3", "activity": {}}"#,
        r#"{"socketId": "3"}"#,
        r#"{"activity": {}}"#,
    ] {
        activities.on_text(text).unwrap();
    }
    assert!(activities.on_text("{").is_err());
    let list = activities.into_list();
    assert_eq!(list.len(), 1);
    assert_eq!(list[0].socket_id, "1");
    assert_eq!(list[0].name, "C");
}

#[test]
fn payloads_are_active_with_an_activity() {
    assert!(active_payload_from_state(&json(r#"{"activity": {}}"#)));
    assert!(active_payload_from_state(&json(r#"{"activity": false}"#)));
    assert!(!active_payload_from_state(&json(r#"{"activity": null}"#)));
    assert!(!active_payload_from_state(&json("{}")));
}

#[test]
fn files_may_begin_with_byte_order_marks() {
    assert_eq!(read_json_value("\u{feff}\u{feff}[1]").unwrap(), json("[1]"));
    assert!(read_json_value("\u{feff}").is_err());
    assert_eq!(array("\u{feff}[1, 2]").len(), 2);
    assert!(array("{}").is_empty());
    assert!(read_json_array("x").is_err());
}

#[test]
fn bundled_files_stand_in_for_missing_ones() {
    assert_eq!(fixes_to_check(Some("{}"), "[1]"), json("{}"));
    assert_eq!(fixes_to_check(Some("x"), "[1]"), json("[1]"));
    assert_eq!(fixes_to_check(None, "x"), json("[]"));
    assert_eq!(database_to_check(Some("{}"), "[1]"), Vec::<Json>::new());
    assert_eq!(database_to_check(None, "[1]"), array("[1]"));
    assert_eq!(database_to_check(None, "x"), Vec::<Json>::new());
    assert_eq!(current_entries(Some("[1]")), array("[1]"));
    assert_eq!(current_entries(Some("x")), Vec::<Json>::new());
    assert_eq!(current_entries(None), Vec::<Json>::new());
}

#[test]
fn fetched_databases_must_be_arrays() {
    assert_eq!(fetched_entries(b"[{}]").unwrap().len(), 1);
    assert!(matches!(fetched_entries(b"{}"), Err(DatabaseError::NotAnArray)));
    assert!(matches!(fetched_entries(b"{"), Err(DatabaseError::Json(_))));
}

#[test]
fn databases_are_written_on_several_lines() {
    let entries = array(r#"[{"id": "1", "n": [true]}]"#);
    let bytes = database_bytes(&entries).unwrap();
    assert_eq!(
        String::from_utf8(bytes.clone()).unwrap(),
        "[\n  {\n    \"id\": \"1\",\n    \"n\": [\n      true\n    ]\n  }\n]"
    );
    assert_eq!(fetched_entries(&bytes).unwrap(), entries);
}

#[test]
fn updates_are_reported() {
    let current = array(r#"[{"name": "a"}, {"name": "gone"}]"#);
    let updated = array(
        r#"[{"name": "a"}, {"name": "b"}, {"name": 5}, {"name": "c"}, {"name": "d"},
            {"name": "e"}, {"name": "f"}]"#,
    );
    assert_eq!(
        database_update_lines(&current, &updated),
        vec!["Updated detectable.json", "  2 -> 7 games (+5)", "  New games: b, c, d, e, f"]
    );
    let more = array(
        r#"[{"name": "1"}, {"name": "2"}, {"name": "3"}, {"name": "4"}, {"name": "5"},
            {"name": "6"}, {"name": "7"}]"#,
    );
    assert_eq!(
        database_update_lines(&Vec::new(), &more)[2..],
        ["  New games: 1, 2, 3, 4, 5".to_owned(), "  ... and more".to_owned()]
    );
    assert_eq!(
        database_update_lines(&current, &current),
        vec!["Updated detectable.json", "  2 -> 2 games (+0)"]
    );
    assert_eq!(
        fixes_update_lines(&array(r#"[{"id": "1"}, {}, {}]"#), &array(r#"[{"id": "2"}]"#)),
        vec!["Updated detectable_fixes.json", "  3 -> 1 entries (-2)", "  New fixes: 2"]
    );
    assert_eq!(update_size_line(10, 9, "games"), "  10 -> 9 games (-1)");
}

fn listed(id: &str, platforms: Option<&[Option<&str>]>) -> CliDetectableApp {
    CliDetectableApp {
        id: id.to_owned(),
        name: format!("Game {id}"),
        executables: platforms.map(|list| {
            list.iter()
                .map(|os| CliDetectableExecutable { os: os.map(str::to_owned) })
                .collect()
        }),
    }
}

#[test]
fn the_database_is_counted_by_platform() {
    let mut apps = vec![
        listed("1", Some(&[Some("win32"), None, Some("win32")])),
        listed("2", Some(&[Some("linux")])),
        listed("3", Some(&[Some("darwin")])),
        listed("4", Some(&[Some("win32"), Some("linux")])),
        listed("5", Some(&[])),
        listed("6", Some(&[Some("plan9")])),
        listed("7", None),
    ];
    assert_eq!(
        list_database(&apps),
        vec![
            "Total games in database: 7",
            "Games by platform:",
            "  Windows:        1",
            "  Linux:          1",
            "  macOS:          1",
            "  Multi-platform: 2",
            "",
            "Example games:",
            "  1. Game 1 (1)",
            "  2. Game 2 (2)",
            "  3. Game 3 (3)",
            "  4. Game 4 (4)",
            "  5. Game 5 (5)",
            "  6. Game 6 (6)",
            "  7. Game 7 (7)",
        ]
    );
    for id in 8..20 {
        apps.push(listed(&id.to_string(), None));
    }
    let lines = list_database(&apps);
    assert_eq!(lines.len(), 18);
    assert_eq!(lines[17], "  10. Game 10 (10)");
}

#[test]
fn the_bridge_is_reached_at_its_ports() {
    assert_eq!(bridge_url("localhost", 1337), "ws://localhost:1337");
    assert_eq!(
        bridge_unreachable(Some("connection timed out")),
        "Could not connect to arrpc bridge: connection timed out"
    );
    assert_eq!(bridge_unreachable(None), "Could not connect to arrpc bridge.");
}

#[test]
fn the_database_has_its_directory() {
    let config = RuntimeConfig::parse(Vec::new(), Vec::new()).unwrap();
    assert_eq!(database_dir(&config), "assets");
    let vars = vec![("ARRPC_DATA_DIR".to_owned(), "/data".to_owned())];
    assert_eq!(database_dir(&RuntimeConfig::parse(vars, Vec::new()).unwrap()), "/data");
}

#[test]
fn updates_go_from_text_to_text() {
    let update = update_database(Some("\u{feff}[{\"name\": \"a\"}]"), b"[{\"name\":\"b\"}]").unwrap();
    assert_eq!(update.bytes, b"[\n  {\n    \"name\": \"b\"\n  }\n]".to_vec());
    assert_eq!(
        update.lines,
        vec!["Updated detectable.json", "  1 -> 1 games (+0)", "  New games: b"]
    );
    assert!(matches!(update_database(None, b"{}"), Err(DatabaseError::NotAnArray)));
    let update = update_fixes(None, b"[{\"id\":\"7\"}]").unwrap();
    assert_eq!(
        update.lines,
        vec!["Updated detectable_fixes.json", "  0 -> 1 entries (+1)", "  New fixes: 7"]
    );
    assert!(matches!(update_fixes(Some("[]"), b"x"), Err(DatabaseError::Json(_))));
    assert_eq!(
        fixes_fetch_failed("timeout"),
        "Failed to fetch detectable_fixes.json: timeout"
    );
}

#[test]
fn fixes_that_cannot_be_fetched_are_kept() {
    match fixes_step(Some("[]"), Err("timeout".to_owned())).unwrap() {
        FixesStep::Keep { failure, notice } => {
            assert_eq!(failure, "Failed to fetch detectable_fixes.json: timeout");
            assert_eq!(notice, "Keeping existing detectable_fixes.json");
        }
        FixesStep::Write(update) => panic!("{update:?}"),
    }
    match fixes_step(Some("[]"), Ok(b"[{\"id\":\"7\"}]")).unwrap() {
        FixesStep::Write(update) => {
            let expected = update_fixes(Some("[]"), b"[{\"id\":\"7\"}]").unwrap();
            assert_eq!(update.bytes, expected.bytes);
            assert_eq!(
                update.lines,
                vec!["Updated detectable_fixes.json", "  0 -> 1 entries (+1)", "  New fixes: 7"]
            );
        }
        step => panic!("{step:?}"),
    }
    assert!(matches!(fixes_step(None, Ok(b"{}")), Err(DatabaseError::NotAnArray)));
    assert!(matches!(fixes_step(None, Ok(b"x")), Err(DatabaseError::Json(_))));
}

#[test]
fn fixes_are_checked_against_the_database() {
    let report = check_fixes_files(Some("[{\"id\": \"1\"}]"), "[]", None, "[{\"id\": \"1\"}]");
    assert!(report.errors.is_empty());
    assert_eq!(report.notices, vec!["Entry 0: Patches existing game (ID: 1)"]);
    let report = check_fixes_files(Some("{}"), "[]", None, "[]");
    assert_eq!(report.errors.len(), 1);
    let report = check_fixes_files(Some("not json"), "[5]", Some("[]"), "[]");
    assert_eq!(report.errors[0].message, "Entry must be an object");
}
