use arrpc::ignore_list::{IgnoreList, IgnoreListError};

#[test]
fn ignore_list_matches_id_executable_and_name() {
    let list = IgnoreList {
        entries: ["123", "game.exe", "example"]
            .into_iter()
            .map(str::to_owned)
            .collect(),
    };

    assert!(list.should_ignore("123", "other.exe", "Other"));
    assert!(list.should_ignore("456", "C:/Games/game.exe", "Other"));
    assert!(list.should_ignore("456", "other.exe", "Example Game"));
    assert!(!list.should_ignore("456", "other.exe", "Other"));
}

#[test]
fn an_empty_list_ignores_nothing() {
    let list = IgnoreList::default();
    assert!(!list.should_ignore("123", "game.exe", ""));
}

#[test]
fn entries_are_read_in_lower_case_and_without_white_space() {
    let list = IgnoreList::from_text(r#"["  ÄPFEL Game\t", 5, null, "456"]"#).unwrap();
    assert_eq!(list.entries, vec!["äpfel game".to_owned(), "456".to_owned()]);
    assert!(list.should_ignore(" 456 ", "x", "nothing"));
    assert!(list.should_ignore("1", "x", "Äpfel Game II"));
    assert!(list.should_ignore("1", "x", "game"));
    assert!(list.should_ignore("1", "/opt/a\\Äpfel Game", "zzz"));
    assert!(!list.should_ignore("1", "x", "zzz"));
}

#[test]
fn a_list_that_is_no_array_is_refused() {
    assert!(matches!(
        IgnoreList::from_text(r#"{"a": 1}"#),
        Err(IgnoreListError::NotAnArray)
    ));
    assert!(matches!(
        IgnoreList::from_text("["),
        Err(IgnoreListError::Json(_))
    ));
}

#[test]
fn values_are_normalized() {
    assert_eq!(IgnoreList::normalize(" \u{a0}Game.EXE\n"), "game.exe");
}

#[test]
fn normalized_names_are_compared_as_they_are() {
    let list = IgnoreList { entries: vec!["abc".to_owned()] };
    assert!(list.has_entry_for("abc", "", "zzz"));
    assert!(list.has_entry_for("1", "abc", "zzz"));
    assert!(list.has_entry_for("1", "2", "xabcx"));
    assert!(list.has_entry_for("1", "2", "b"));
    assert!(list.has_entry_for("1", "2", ""));
    assert!(!list.has_entry_for("ABC", "x/abc", "ABC"));
}
