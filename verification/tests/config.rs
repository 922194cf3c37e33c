use arrpc::config::{bridge_ports, parse_port, websocket_ports, ConfigError, RunMode, RuntimeConfig};

fn no_vars() -> Vec<(String, String)> {
    Vec::new()
}

fn args(list: &[&str]) -> Vec<String> {
    list.iter().map(|arg| arg.to_string()).collect()
}

#[test]
fn config_accepts_arrpc_bun_environment_surface() {
    let config = RuntimeConfig::parse(
        vec![
            ("ARRPC_NO_BRIDGE".to_owned(), "1".to_owned()),
            ("ARRPC_NO_STEAM".to_owned(), "1".to_owned()),
            ("ARRPC_STATE_FILE".to_owned(), "1".to_owned()),
            ("ARRPC_BRIDGE_HOST".to_owned(), "0.0.0.0".to_owned()),
            ("ARRPC_BRIDGE_PORT".to_owned(), "1444".to_owned()),
            ("ARRPC_WEBSOCKET_HOST".to_owned(), "localhost".to_owned()),
            ("ARRPC_DATA_DIR".to_owned(), "/tmp/arrpc".to_owned()),
            (
                "ARRPC_IGNORE_LIST_FILE".to_owned(),
                "/tmp/ignore.json".to_owned(),
            ),
        ],
        vec![
            "arrpc".to_owned(),
            "--list-detected".to_owned(),
            "validate-fixes".to_owned(),
        ],
    )
    .unwrap();

    assert!(!config.bridge_enabled);
    assert!(!config.steam_enabled);
    assert!(config.state_file_enabled);
    assert_eq!(config.bridge_host, "0.0.0.0");
    assert_eq!(config.bridge_ports, vec![1444]);
    assert_eq!(config.websocket_host, "localhost");
    assert!(config.data_dir.is_some());
    assert!(config.ignore_list_file.is_some());
    assert!(config.list_detected);
    assert!(config.validate_fixes);
}

#[test]
fn defaults_without_environment_and_arguments() {
    let config = RuntimeConfig::parse(no_vars(), args(&["arrpc"])).unwrap();
    assert!(!config.debug);
    assert!(config.bridge_enabled);
    assert!(config.steam_enabled);
    assert!(config.process_scanning_enabled);
    assert!(!config.state_file_enabled);
    assert!(!config.parent_monitor_enabled);
    assert_eq!(config.bridge_host, "127.0.0.1");
    assert_eq!(config.websocket_host, "127.0.0.1");
    assert_eq!(config.bridge_ports, bridge_ports());
    assert_eq!(config.websocket_ports, websocket_ports());
    assert_eq!(config.data_dir, None);
    assert_eq!(config.mode(), RunMode::Serve);
}

#[test]
fn default_ports_cover_both_ranges() {
    let bridge = bridge_ports();
    assert_eq!(bridge.len(), 11 + 21);
    assert_eq!(bridge[0], 1337);
    assert_eq!(bridge[10], 1347);
    assert_eq!(bridge[11], 60000);
    assert_eq!(bridge[31], 60020);
    let websocket = websocket_ports();
    assert_eq!(websocket.len(), 10 + 21);
    assert_eq!(websocket[0], 6463);
    assert_eq!(websocket[9], 6472);
    assert_eq!(websocket[10], 60100);
    assert_eq!(websocket[30], 60120);
}

#[test]
fn a_bridge_port_that_is_no_port_is_refused() {
    let vars = vec![("ARRPC_BRIDGE_PORT".to_owned(), "65536".to_owned())];
    let error = RuntimeConfig::parse(vars, Vec::new()).unwrap_err();
    assert_eq!(error.message(), "invalid ARRPC_BRIDGE_PORT: 65536");
    assert!(matches!(error, ConfigError::InvalidPort { .. }));
}

#[test]
fn ports_are_parsed_as_unsigned_numbers() {
    assert_eq!(parse_port("P", "+80").unwrap(), 80);
    assert_eq!(parse_port("P", "00065535").unwrap(), 65535);
    assert!(parse_port("P", "").is_err());
    assert!(parse_port("P", "+").is_err());
    assert!(parse_port("P", "-1").is_err());
    assert!(parse_port("P", " 80").is_err());
}

#[test]
fn tools_are_chosen_in_their_order() {
    let mode = |list: &[&str]| RuntimeConfig::parse(no_vars(), args(list)).unwrap().mode();
    assert_eq!(mode(&["--list-detected", "--list-database"]), RunMode::ListDatabase);
    assert_eq!(mode(&["update-db", "--list-detected"]), RunMode::ListDetected);
    assert_eq!(mode(&["validate-fixes", "--update-db"]), RunMode::UpdateDatabase);
    assert_eq!(mode(&["--validate-fixes"]), RunMode::ValidateFixes);
}

#[test]
fn switches_work_by_variable_and_by_argument() {
    let config = RuntimeConfig::parse(no_vars(), args(&["-d", "--no-process-scanning"])).unwrap();
    assert!(config.debug);
    assert!(!config.process_scanning_enabled);
    let vars = vec![
        ("ARRPC_DEBUG".to_owned(), String::new()),
        ("ARRPC_NO_PROCESS_SCANNING".to_owned(), "0".to_owned()),
        ("ARRPC_PARENT_MONITOR".to_owned(), "1".to_owned()),
    ];
    let config = RuntimeConfig::parse(vars, Vec::new()).unwrap();
    assert!(config.debug);
    assert!(!config.process_scanning_enabled);
    assert!(config.parent_monitor_enabled);
}

#[test]
fn options_come_before_variables() {
    let vars = || {
        vec![
            ("ARRPC_BRIDGE_PORT".to_owned(), "1".to_owned()),
            ("ARRPC_DATA_DIR".to_owned(), "/env".to_owned()),
        ]
    };
    let config = RuntimeConfig::parse(
        vars(),
        args(&["arrpc", "--bridge-port", "1444", "--data-dir=/a=b"]),
    )
    .unwrap();
    assert_eq!(config.bridge_ports, vec![1444]);
    assert_eq!(config.data_dir, Some("/a=b".to_owned()));
    let config = RuntimeConfig::parse(
        vars(),
        args(&["--bridge-port=5", "--bridge-port", "6", "--data-dir"]),
    )
    .unwrap();
    assert_eq!(config.bridge_ports, vec![6]);
    assert_eq!(config.data_dir, Some("/env".to_owned()));
    let error = RuntimeConfig::parse(vars(), args(&["--bridge-port", "x"])).unwrap_err();
    assert_eq!(error.message(), "invalid --bridge-port: x");
}
