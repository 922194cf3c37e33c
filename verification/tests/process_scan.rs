use arrpc::cli::now_ms;
use arrpc::detect::{
    args_contain_string, custom_game_name, detect_app, lowered_path_candidates,
    merge_detectable_fixes, non_empty_name, path_candidates, runs_contain, DetectableApp, DetectableExecutable, ProcessInfo,
};
use arrpc::ignore_list::IgnoreList;
use arrpc::json::Json;
use arrpc::process_scan::{ProcessScanner, ProcessScannerOptions};
use arrpc::steam::SteamLookup;

fn executable(name: &str, is_launcher: bool, arguments: Option<&str>) -> DetectableExecutable {
    DetectableExecutable {
        name: name.to_owned(),
        is_launcher,
        arguments: arguments.map(str::to_owned),
    }
}

fn app(id: &str, name: &str, executables: Vec<DetectableExecutable>) -> DetectableApp {
    DetectableApp {
        id: id.to_owned(),
        name: name.to_owned(),
        aliases: None,
        executables: Some(executables),
    }
}

fn process(pid: u32, path: &str, args: &[&str]) -> ProcessInfo {
    ProcessInfo {
        pid,
        path: path.to_owned(),
        args: args.iter().map(|arg| arg.to_string()).collect(),
    }
}

fn strings(list: &[&str]) -> Vec<String> {
    list.iter().map(|text| text.to_string()).collect()
}

#[test]
fn candidates_include_suffix_paths_and_64_bit_variants() {
    let candidates = path_candidates("C:\\Games\\Example64\\game_x64.exe");

    assert!(candidates.contains(&"game_x64.exe".to_owned()));
    assert!(candidates.contains(&"game_.exe".to_owned()));
    assert!(candidates.contains(&"games/example64/game_x64.exe".to_owned()));
}

#[test]
fn candidates_come_in_their_order() {
    assert_eq!(
        path_candidates("A\\B64"),
        strings(&["b64", "a/b64", "b", "b64", "b64", "b64", "a/b", "a/b64", "a/b64", "a/b64"])
    );
    assert_eq!(
        path_candidates("g.x64_64"),
        strings(&["g.x64_64", "g.x_", "g_64", "g._64", "g.x64"])
    );
    assert_eq!(path_candidates(""), strings(&["", "", "", "", ""]));
}

#[test]
fn detection_matches_executable_and_required_arguments() {
    let apps = vec![DetectableApp {
        id: "1".to_owned(),
        name: "Example".to_owned(),
        aliases: None,
        executables: Some(vec![DetectableExecutable {
            name: "game.exe".to_owned(),
            is_launcher: false,
            arguments: Some("--rpc".to_owned()),
        }]),
    }];

    let process = ProcessInfo {
        pid: 10,
        path: "C:/Games/game.exe".to_owned(),
        args: vec!["--rpc".to_owned()],
    };

    let app = detect_app(&apps, &process).expect("app should be detected");
    assert_eq!(app.name, "Example");
}

#[test]
fn custom_fixes_merge_executables_into_existing_app() {
    let mut apps = vec![DetectableApp {
        id: "1".to_owned(),
        name: "Example".to_owned(),
        aliases: None,
        executables: None,
    }];
    merge_detectable_fixes(
        &mut apps,
        vec![DetectableApp {
            id: "1".to_owned(),
            name: String::new(),
            aliases: None,
            executables: Some(vec![DetectableExecutable {
                name: "fixed.exe".to_owned(),
                is_launcher: false,
                arguments: None,
            }]),
        }],
    );

    assert_eq!(apps.len(), 1);
    assert_eq!(apps[0].executables.as_ref().unwrap()[0].name, "fixed.exe");
}

#[test]
fn fixes_rename_extend_and_add() {
    let mut apps = vec![app("1", "Old", vec![executable("a", false, None)])];
    let mut rename = app("1", "New", vec![executable("b", true, None)]);
    rename.aliases = Some(strings(&["Alias"]));
    merge_detectable_fixes(
        &mut apps,
        vec![
            rename,
            app("2", "Custom Game", Vec::new()),
            app("2", "Second", Vec::new()),
            app("1", "Custom Game", Vec::new()),
        ],
    );
    assert_eq!(apps.len(), 2);
    assert_eq!(apps[0].name, "New");
    assert_eq!(apps[0].aliases, Some(strings(&["Alias"])));
    let names: Vec<&str> = apps[0]
        .executables
        .as_ref()
        .unwrap()
        .iter()
        .map(|executable| executable.name.as_str())
        .collect();
    assert_eq!(names, vec!["a", "b"]);
    assert_eq!(apps[1].id, "2");
    assert_eq!(apps[1].name, "Second");
}

#[test]
fn only_names_of_their_own_count() {
    assert_eq!(custom_game_name(), "Custom Game");
    assert_eq!(non_empty_name(""), None);
    assert_eq!(non_empty_name("Custom Game"), None);
    assert_eq!(non_empty_name("custom game"), Some("custom game"));
}

#[test]
fn detection_matches_launcher_executables() {
    let apps = vec![DetectableApp {
        id: "1".to_owned(),
        name: "Example".to_owned(),
        aliases: None,
        executables: Some(vec![DetectableExecutable {
            name: "launcher.exe".to_owned(),
            is_launcher: true,
            arguments: None,
        }]),
    }];

    let process = ProcessInfo {
        pid: 10,
        path: "C:/Games/launcher.exe".to_owned(),
        args: Vec::new(),
    };

    let app = detect_app(&apps, &process).expect("launcher should be detected");
    assert_eq!(app.name, "Example");
}

#[test]
fn detection_falls_back_to_loose_argument_matching() {
    let apps = vec![DetectableApp {
        id: "1".to_owned(),
        name: "Example".to_owned(),
        aliases: None,
        executables: Some(vec![DetectableExecutable {
            name: "game.exe".to_owned(),
            is_launcher: false,
            arguments: Some("--required".to_owned()),
        }]),
    }];

    let process = ProcessInfo {
        pid: 10,
        path: "C:/Games/game.exe".to_owned(),
        args: Vec::new(),
    };

    let app = detect_app(&apps, &process).expect("loose pass should detect");
    assert_eq!(app.name, "Example");
}

#[test]
fn exact_executable_still_requires_arguments() {
    let apps = vec![DetectableApp {
        id: "1".to_owned(),
        name: "Example".to_owned(),
        aliases: None,
        executables: Some(vec![DetectableExecutable {
            name: ">game.exe".to_owned(),
            is_launcher: false,
            arguments: Some("--required".to_owned()),
        }]),
    }];

    let process = ProcessInfo {
        pid: 10,
        path: "C:/Games/game.exe".to_owned(),
        args: Vec::new(),
    };

    assert!(detect_app(&apps, &process).is_none());
}

#[test]
fn an_exact_name_is_the_file_name() {
    let apps = vec![app("1", "Example", vec![executable(">game.exe", false, None)])];
    assert!(detect_app(&apps, &process(1, "/opt/Game.exe", &[])).is_some());
    assert!(detect_app(&apps, &process(1, "/opt/game64.exe", &[])).is_none());
    let apps = vec![app("1", "Example", vec![executable("opt/game.exe", false, None)])];
    assert!(detect_app(&apps, &process(1, "/opt/game64.exe", &[])).is_some());
}

#[test]
fn the_first_application_wins_and_markers_name_it() {
    let apps = vec![
        app("1", "First", vec![executable("game.exe", true, None)]),
        app("2", "Second", vec![executable("game.exe", false, None)]),
        app("3", "Marked GAME", Vec::new()),
    ];
    assert_eq!(detect_app(&apps, &process(1, "game.exe", &[])).unwrap().id, "1");
    assert_eq!(
        detect_app(&apps, &process(1, "/steam/Marked Game.app_name", &[])).unwrap().id,
        "3"
    );
    assert!(detect_app(&apps, &process(1, "other.exe", &[])).is_none());
}

#[test]
fn arguments_are_looked_for_in_runs_of_five() {
    let args = strings(&["-A", "b", "c", "d", "e", "f"]);
    assert!(args_contain_string(&args, "-a"));
    assert!(args_contain_string(&args, "-a B c D e"));
    assert!(!args_contain_string(&args, "-a b c d e f"));
    assert!(args_contain_string(&args, "b c d e f"));
    assert!(!args_contain_string(&args, "a  b"));
    assert!(args_contain_string(&args, ""));
    assert!(!args_contain_string(&Vec::new(), ""));
}

#[test]
fn steam_lookup_resolves_process_to_app_name_marker() {
    let lookup = SteamLookup {
        installs: vec![(
            "C:/Steam/steamapps/common/Game".to_owned(),
            "Game".to_owned(),
        )],
    };
    let process = ProcessInfo {
        pid: 42,
        path: "C:/Steam/steamapps/common/Game/bin/game.exe".to_owned(),
        args: Vec::new(),
    };

    let resolved = lookup.resolve(&process).unwrap();
    assert_eq!(
        resolved.path,
        "C:/Steam/steamapps/common/Game/Game.app_name"
    );
}

fn scanner() -> ProcessScanner {
    let apps = vec![
        app("10", "Ten", vec![executable("ten.exe", false, None)]),
        app("20", "Twenty", vec![executable("twenty.exe", false, None)]),
        app("30", "Thirty", Vec::new()),
    ];
    let lookup = SteamLookup {
        installs: vec![("/steam/Thirty".to_owned(), "Thirty".to_owned())],
    };
    ProcessScanner::new(apps, lookup)
}

fn message(text: &str) -> Json {
    Json::parse(text).unwrap()
}

#[test]
fn a_scan_tells_of_found_and_lost_games() {
    let mut scanner = scanner();
    let mut seen = Vec::new();
    let found = scanner.observe(&process(5, "/x/ten.exe", &[]), 1000, &mut seen).unwrap();
    assert_eq!(
        found,
        message(
            r#"{"activity": {"application_id": "10", "name": "Ten",
                "timestamps": {"start": 1000}}, "pid": 5, "socketId": "10"}"#
        )
    );
    assert!(scanner.observe(&process(6, "/x/other", &[]), 1000, &mut seen).is_none());
    let again = scanner.observe(&process(7, "/x/ten.exe", &[]), 2000, &mut seen).unwrap();
    assert_eq!(
        again,
        message(
            r#"{"activity": {"application_id": "10", "name": "Ten",
                "timestamps": {"start": 1000}}, "pid": 7, "socketId": "10"}"#
        )
    );
    assert!(scanner.forget_lost(&seen).is_empty());
    let lost = scanner.forget_lost(&Vec::new());
    assert_eq!(
        lost,
        vec![message(r#"{"activity": null, "pid": 7, "socketId": "10"}"#)]
    );
    assert!(scanner.forget_lost(&Vec::new()).is_empty());
}

#[test]
fn scans_follow_each_other() {
    let mut scanner = scanner();
    let first = scanner.scan(&vec![
        process(1, "ten.exe", &[]),
        process(2, "/steam/thirty/bin/x", &[]),
        process(3, "nothing", &[]),
    ]);
    assert_eq!(first.len(), 2);
    assert_eq!(first[0].get_str("socketId"), Some("10"));
    assert_eq!(first[1].get_str("socketId"), Some("30"));
    let start = |json: &Json| {
        json.get("activity").unwrap().get("timestamps").unwrap().get_u64("start").unwrap()
    };
    assert!(start(&first[0]) > 1_600_000_000_000);

    let second = scanner.scan(&vec![process(4, "twenty.exe", &[]), process(1, "ten.exe", &[])]);
    assert_eq!(second.len(), 3);
    assert_eq!(second[0].get_str("socketId"), Some("20"));
    assert_eq!(start(&second[1]), start(&first[0]));
    assert_eq!(
        second[2],
        message(r#"{"activity": null, "pid": 2, "socketId": "30"}"#)
    );

    let third = scanner.scan(&Vec::new());
    assert_eq!(third.len(), 2);
    assert!(third.iter().all(|json| json.get("activity") == Some(&Json::Null)));
    assert!(scanner.scan(&Vec::new()).is_empty());
}

#[test]
fn games_keep_their_start_until_they_are_lost() {
    let mut scanner = scanner();
    let game = |json: &Json| {
        let activity = json.get("activity").unwrap();
        (
            activity.get_str("name").unwrap().to_owned(),
            activity.get("timestamps").unwrap().get_u64("start").unwrap(),
        )
    };
    let first = scanner.scan(&vec![process(1, "ten.exe", &[])]);
    while now_ms() <= game(&first[0]).1 {}
    let second = scanner.scan(&vec![process(2, "ten.exe", &[])]);
    assert_eq!(game(&second[0]), game(&first[0]));
    assert_eq!(second[0].get_u64("pid"), Some(2));

    let lost = scanner.scan(&vec![process(3, "other", &[])]);
    assert_eq!(
        lost,
        vec![message(r#"{"activity": null, "pid": 2, "socketId": "10"}"#)]
    );
    let again = scanner.scan(&vec![process(2, "ten.exe", &[])]);
    assert_eq!(game(&again[0]).0, "Ten");
    assert!(game(&again[0]).1 > game(&first[0]).1);
}

#[test]
fn a_failed_listing_changes_nothing() {
    let mut scanner = scanner();
    let first = scanner.scan_once::<&str>(Ok(vec![process(1, "ten.exe", &[])])).unwrap();
    assert_eq!(first.len(), 1);
    assert_eq!(scanner.scan_once(Err("no processes")).unwrap_err(), "no processes");
    let second = scanner.scan_once::<&str>(Ok(vec![process(1, "ten.exe", &[])])).unwrap();
    assert_eq!(second, first);
    let lost = scanner.scan_once::<&str>(Ok(Vec::new())).unwrap();
    assert_eq!(
        lost,
        vec![message(r#"{"activity": null, "pid": 1, "socketId": "10"}"#)]
    );
}

#[test]
fn ignored_games_are_passed_over() {
    let options = ProcessScannerOptions {
        ignore_list: IgnoreList::from_text(r#"["ten.exe"]"#).unwrap(),
        steam_enabled: false,
        ..ProcessScannerOptions::default()
    };
    let apps = vec![
        app("10", "Ten", vec![executable("ten.exe", false, None)]),
        app("30", "Thirty", Vec::new()),
    ];
    let lookup = SteamLookup {
        installs: vec![("/steam/Thirty".to_owned(), "Thirty".to_owned())],
    };
    let mut scanner = ProcessScanner::with_options(apps, lookup, options);
    let messages =
        scanner.scan(&vec![process(1, "/a/Ten.exe", &[]), process(2, "/steam/Thirty/x", &[])]);
    assert!(messages.is_empty());
}

#[test]
fn default_options_scan_everything() {
    let options = ProcessScannerOptions::default();
    assert!(options.data_dir.is_none());
    assert!(options.ignore_list.entries.is_empty());
    assert!(options.steam_enabled);
}

#[test]
fn names_in_lower_case_are_taken_as_they_are() {
    assert_eq!(lowered_path_candidates("A\\b")[..2], strings(&["b", "A/b"]));
    assert_ne!(lowered_path_candidates("A"), path_candidates("A"));
    assert!(runs_contain(&strings(&["A", "b"]), "A b"));
    assert!(!runs_contain(&strings(&["A", "b"]), "a b"));
    assert!(args_contain_string(&strings(&["Ä", "b"]), "ä B"));
}
