use arrpc::fixes::{
    validate_fix_entry, validate_fix_executable, validate_fixes, validation_error_lines,
    ValidationError,
};
use arrpc::json::Json;

fn json(text: &str) -> Json {
    Json::parse(text).unwrap()
}

fn pairs(errors: &[ValidationError]) -> Vec<(&str, &str)> {
    errors
        .iter()
        .map(|error| (error.path.as_str(), error.message.as_str()))
        .collect()
}

#[test]
fn validate_fix_entry_rejects_bad_platform() {
    let mut errors = Vec::new();
    let ids = Vec::new();

    validate_fix_entry(
        0,
        &json(
            r#"{
                "id": "custom",
                "executables": [
                    { "name": "game.exe", "os": "plan9" }
                ]
            }"#,
        ),
        &ids,
        &mut errors,
    );

    assert_eq!(errors.len(), 1);
    assert_eq!(errors[0].path, "[0].executables[0].os");
}

#[test]
fn validate_fix_entry_accepts_minimal_patch() {
    let mut errors = Vec::new();
    let ids = vec!["123".to_owned()];

    validate_fix_entry(
        0,
        &json(
            r#"{
                "id": "123",
                "executables": [
                    { "name": "game.exe", "os": "win32", "is_launcher": false }
                ]
            }"#,
        ),
        &ids,
        &mut errors,
    );

    assert!(errors.is_empty());
}

#[test]
fn entries_without_an_id_are_refused() {
    let ids = Vec::new();
    let mut errors = Vec::new();
    for (index, text) in ["5", "{}", r#"{"id": 5}"#, r#"{"id": "a", "executables": {}}"#]
        .iter()
        .enumerate()
    {
        assert!(validate_fix_entry(index, &json(text), &ids, &mut errors).is_empty());
    }
    assert_eq!(
        pairs(&errors),
        vec![
            ("[0]", "Entry must be an object"),
            ("[1]", "Missing required field: id"),
            ("[2].id", "Must be a string"),
            ("[3].executables", "Must be an array"),
        ]
    );
}

#[test]
fn every_field_of_an_entry_is_checked() {
    let mut errors = Vec::new();
    let entry = json(
        r#"{"id": "a", "name": 1, "hook": 1, "overlay": "x", "overlay_warn": null,
            "overlay_compatibility_hook": [], "icon_hash": {}, "aliases": ["a", 1, null],
            "themes": "x", "overlay_methods": "x"}"#,
    );
    validate_fix_entry(12, &entry, &Vec::new(), &mut errors);
    assert_eq!(
        pairs(&errors),
        vec![
            ("[12].name", "Must be a string"),
            ("[12].hook", "Must be a boolean"),
            ("[12].overlay", "Must be a boolean"),
            ("[12].overlay_warn", "Must be a boolean"),
            ("[12].overlay_compatibility_hook", "Must be a boolean"),
            ("[12].icon_hash", "Must be a string"),
            ("[12].aliases[1]", "Must be a string"),
            ("[12].aliases[2]", "Must be a string"),
            ("[12].themes", "Must be an array"),
            ("[12].overlay_methods", "Must be a number or null"),
        ]
    );
    let mut errors = Vec::new();
    let entry = json(r#"{"id": "a", "overlay_methods": null, "aliases": [], "themes": []}"#);
    validate_fix_entry(0, &entry, &Vec::new(), &mut errors);
    assert!(errors.is_empty());
}

#[test]
fn every_field_of_an_executable_is_checked() {
    let check = |text: &str| {
        let mut errors = Vec::new();
        validate_fix_executable("p", &json(text), &mut errors);
        errors
    };
    assert_eq!(pairs(&check("[]")), vec![("p", "Must be an object")]);
    assert_eq!(pairs(&check("{}")), vec![("p.name", "Missing required field: name")]);
    assert_eq!(pairs(&check(r#"{"name": " \t"}"#)), vec![("p.name", "Cannot be empty")]);
    assert_eq!(
        pairs(&check(r#"{"name": 1, "is_launcher": 1, "arguments": 1, "os": 1}"#)),
        vec![
            ("p.name", "Must be a string"),
            ("p.is_launcher", "Must be a boolean"),
            ("p.arguments", "Must be a string"),
            ("p.os", "Must be a string"),
        ]
    );
    assert_eq!(
        pairs(&check(r#"{"name": "x", "os": "Win32"}"#)),
        vec![("p.os", "Must be one of: win32, linux, darwin")]
    );
    assert!(check(r#"{"name": "x", "os": "darwin", "arguments": "-a"}"#).is_empty());
}

#[test]
fn a_valid_file_is_described_entry_by_entry() {
    let db = vec![json(r#"{"id": "1"}"#), json(r#"{"name": "no id"}"#)];
    let report = validate_fixes(
        &json(r#"[{"id": "1"}, {"id": "2", "name": "Two"}, {"id": "3"}]"#),
        &db,
    );
    assert!(report.errors.is_empty());
    assert_eq!(
        report.notices,
        vec![
            "Entry 0: Patches existing game (ID: 1)",
            "Entry 1: Adds new game (ID: 2)",
            "Entry 2: Adds new game (ID: 3)",
            "Warning: New game without 'name' field will use \"Custom Game\"",
        ]
    );
}

#[test]
fn nothing_is_said_of_entries_after_an_error() {
    let report = validate_fixes(&json(r#"[{"id": "1"}, {}, {"id": "3"}]"#), &Vec::new());
    assert_eq!(pairs(&report.errors), vec![("[1]", "Missing required field: id")]);
    assert_eq!(report.notices.len(), 2);
    assert_eq!(
        validation_error_lines(&report.errors),
        vec!["Validation failed with errors:", "  [1]: Missing required field: id"]
    );
}

#[test]
fn the_root_must_be_an_array() {
    let report = validate_fixes(&json("{}"), &Vec::new());
    assert_eq!(
        pairs(&report.errors),
        vec![("detectable_fixes.json", "Root must be an array")]
    );
    assert!(report.notices.is_empty());
}
