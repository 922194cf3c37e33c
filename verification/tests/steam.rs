use arrpc::detect::ProcessInfo;
use arrpc::steam::{
    is_manifest_name, is_steam_runtime_path, normalize_steam_path, parse_appmanifest,
    parse_libraryfolders_vdf, parse_vdf_pair, SteamLookup,
};

fn pair(line: &str, key: &str) -> Option<String> {
    let chars: Vec<char> = line.chars().collect();
    parse_vdf_pair(&chars, key)
}

#[test]
fn pairs_are_read_from_their_lines() {
    assert_eq!(pair("\t\"name\"\t\t\"A Game\"  ", "name"), Some("A Game".to_owned()));
    assert_eq!(pair("\"name\" \"\"", "name"), Some(String::new()));
    assert_eq!(pair("\"name\" \"a\" \"b\"", "name"), Some("a".to_owned()));
    assert_eq!(pair("\"name\" \"open", "name"), None);
    assert_eq!(pair("\"name\" bare", "name"), None);
    assert_eq!(pair("name \"a\"", "name"), None);
    assert_eq!(pair("\"names\" \"a\"", "name"), None);
}

#[test]
fn libraries_are_listed_with_single_backslashes() {
    let content = "\"libraryfolders\"\r\n{\r\n\t\"0\"\r\n\t{\r\n\t\t\"path\"\t\t\
                   \"C:\\\\Program Files\\\\Steam\"\r\n\t}\r\n\t\"path\" \"/home/x\"\n}";
    assert_eq!(
        parse_libraryfolders_vdf(content),
        vec!["C:\\Program Files\\Steam".to_owned(), "/home/x".to_owned()]
    );
    assert!(parse_libraryfolders_vdf("").is_empty());
}

#[test]
fn manifests_have_a_name_and_a_directory() {
    let content = "\"AppState\"\n{\n \"installdir\" \"Dir\"\n \"name\" \"One\"\n \"name\" \"Two\"\n}";
    assert_eq!(
        parse_appmanifest(content),
        Some(("One".to_owned(), "Dir".to_owned()))
    );
    assert_eq!(parse_appmanifest("\"name\" \"One\""), None);
    assert_eq!(parse_appmanifest("\"installdir\" \"One\""), None);
    assert!(is_manifest_name("appmanifest_440.acf"));
    assert!(!is_manifest_name("appmanifest_440.acf.bak"));
    assert!(!is_manifest_name("x_appmanifest_440.acf"));
}

#[test]
fn paths_are_compared_without_drive_and_case() {
    assert_eq!(normalize_steam_path("C:\\Steam\\Game"), "/steam/game");
    assert_eq!(normalize_steam_path("c:"), "c:");
    assert_eq!(normalize_steam_path("/A:b"), "/a:b");
    assert_eq!(normalize_steam_path("É:x"), "é:x");
}

#[test]
fn runtimes_are_recognised() {
    assert!(is_steam_runtime_path("/steamlinuxruntime_sniper/x"));
    assert!(is_steam_runtime_path("/common/proton 9/proton"));
    assert!(is_steam_runtime_path("/pressure-vessel/bin"));
    assert!(is_steam_runtime_path("/steam-runtime/x"));
    assert!(is_steam_runtime_path("/compatibilitytools.d/ge"));
    assert!(!is_steam_runtime_path("/steam/common/game"));
}

#[test]
fn processes_of_games_are_resolved() {
    let lookup = SteamLookup {
        installs: vec![
            ("D:\\Games\\One".to_owned(), "The One".to_owned()),
            ("/home/x/Two".to_owned(), "Two".to_owned()),
        ],
    };
    let process = |path: &str| ProcessInfo {
        pid: 3,
        path: path.to_owned(),
        args: vec!["-x".to_owned()],
    };
    let game = lookup.resolve(&process("/games/one/bin.exe")).unwrap();
    assert_eq!(game.path, "D:\\Games\\One/The One.app_name");
    assert_eq!(game.pid, 3);
    assert_eq!(game.args, vec!["-x".to_owned()]);
    assert!(lookup.resolve(&process("/home/x/three")).is_none());
    assert!(lookup.resolve(&process("/home/x/Two/Proton/run")).is_none());
    assert!(SteamLookup::default().resolve(&process("/home/x/Two")).is_none());
}
