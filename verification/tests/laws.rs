use arrpc::bridge::BridgeState;
use arrpc::cli::BridgeActivities;
use arrpc::detect::{DetectableApp, DetectableExecutable, ProcessInfo};
use arrpc::ignore_list::IgnoreList;
use arrpc::ipc::{read_packet, IpcAction, IpcConnection, IpcOpcode, IpcPacket};
use arrpc::json::Json;
use arrpc::process_scan::ProcessScanner;
use arrpc::rpc::{DefaultRpcActionHandler, RpcSession};
use arrpc::state_file::{is_available_state_path, recent_state};
use arrpc::steam::SteamLookup;

fn json(text: &str) -> Json {
    Json::parse(text).unwrap()
}

fn session() -> RpcSession<DefaultRpcActionHandler> {
    RpcSession::new("5".to_owned(), "123".to_owned(), Some("Known".to_owned()))
}

fn set_activity() -> Json {
    json(
        r#"{"cmd": "SET_ACTIVITY", "args": {"pid": 9, "activity": {"details": "x"}}, "nonce": "n"}"#,
    )
}

fn app(id: &str, executable: &str) -> DetectableApp {
    DetectableApp {
        id: id.to_owned(),
        name: format!("Game {id}"),
        aliases: None,
        executables: Some(vec![DetectableExecutable {
            name: executable.to_owned(),
            is_launcher: false,
            arguments: None,
        }]),
    }
}

fn process(pid: u32, path: &str) -> ProcessInfo {
    ProcessInfo { pid, path: path.to_owned(), args: Vec::new() }
}

fn listed(activities: BridgeActivities) -> Vec<(String, String, String, u64)> {
    let mut list: Vec<_> = activities
        .into_list()
        .into_iter()
        .map(|activity| {
            (activity.socket_id, activity.name, activity.application_id, activity.pid)
        })
        .collect();
    list.sort();
    list
}

#[test]
fn known_commands_are_answered_once_with_their_nonce() {
    for cmd in [
        "CONNECTIONS_CALLBACK",
        "SET_ACTIVITY",
        "INVITE_BROWSER",
        "GUILD_TEMPLATE_BROWSER",
        "DEEP_LINK",
    ] {
        let effects =
            session().handle_payload(&json(&format!(r#"{{"cmd": "{cmd}", "nonce": "n1"}}"#)));
        assert_eq!(effects.replies.len(), 1);
        assert_eq!(effects.replies[0].get_str("cmd"), Some(cmd));
        assert_eq!(effects.replies[0].get_str("nonce"), Some("n1"));
        assert_eq!(effects.activity.is_some(), cmd == "SET_ACTIVITY");
    }
}

#[test]
fn an_activity_is_remembered_until_its_client_has_gone() {
    let mut session = session();
    let mut bridge = BridgeState::new();
    bridge.update(&json(r#"{"socketId": "other", "activity": {}}"#));
    let news = session.handle_payload(&set_activity()).activity.unwrap();
    bridge.update(&news);
    assert_eq!(bridge.replayable().len(), 2);
    assert!(bridge.replayable().contains(&news));

    bridge.update(&session.close_activity());
    assert_eq!(
        bridge.replayable(),
        vec![json(r#"{"socketId": "other", "activity": {}}"#)]
    );
}

#[test]
fn an_activity_is_listed_under_its_socket() {
    let news = session().handle_payload(&set_activity()).activity.unwrap();
    let mut activities = BridgeActivities::new();
    activities.on_message(&news);
    assert_eq!(
        listed(activities),
        vec![("5".to_owned(), "Known".to_owned(), "123".to_owned(), 9)]
    );
}

#[test]
fn clients_know_what_the_bridge_knows() {
    let messages = [
        r#"{"socketId": "a", "pid": 1, "activity": {"name": "A"}}"#,
        r#"{"socketId": "b", "pid": 2, "activity": {"name": "B"}}"#,
        r#"{"socketId": "a", "activity": null}"#,
        r#"{"socketId": "c"}"#,
        r#"{"socketId": "b", "pid": 3, "activity": {"name": "B"}}"#,
    ];
    let mut bridge = BridgeState::new();
    let mut early = BridgeActivities::new();
    for text in messages {
        let published = bridge.publish(&json(text)).unwrap();
        early.on_text(&published.payload).unwrap();
    }
    let mut late = BridgeActivities::new();
    for text in bridge.welcome().unwrap().unwrap() {
        late.on_text(&text).unwrap();
    }
    let expected = vec![("b".to_owned(), "B".to_owned(), String::new(), 3)];
    assert_eq!(listed(early), expected);
    assert_eq!(listed(late), expected);
}

#[test]
fn the_bridge_follows_the_scans() {
    let apps = vec![app("1", "one"), app("2", "two")];
    let mut scanner = ProcessScanner::new(apps, SteamLookup::default());
    let mut bridge = BridgeState::new();
    bridge.update(&json(r#"{"socketId": "client", "activity": {}}"#));
    let mut shown = |processes: Vec<ProcessInfo>| {
        for message in scanner.scan(&processes) {
            bridge.update(&message);
        }
        let mut list: Vec<(String, Option<u64>)> = bridge
            .replayable()
            .iter()
            .map(|msg| (msg.get_str("socketId").unwrap().to_owned(), msg.get_u64("pid")))
            .collect();
        list.sort();
        list
    };
    let entry = |id: &str, pid: Option<u64>| (id.to_owned(), pid);
    assert_eq!(
        shown(vec![process(4, "one"), process(5, "two"), process(6, "one")]),
        vec![entry("1", Some(6)), entry("2", Some(5)), entry("client", None)]
    );
    assert_eq!(
        shown(vec![process(7, "two")]),
        vec![entry("2", Some(7)), entry("client", None)]
    );
    assert_eq!(shown(Vec::new()), vec![entry("client", None)]);
}

#[test]
fn scans_do_not_overlap() {
    let mut scanner = ProcessScanner::new(Vec::new(), SteamLookup::default());
    assert!(scanner.begin_scan());
    assert!(!scanner.begin_scan());
    scanner.end_scan();
    assert!(scanner.begin_scan());
}

#[test]
fn local_sockets_and_websockets_agree() {
    let mut connection = IpcConnection::new("5".to_owned());
    connection.open_session("123".to_owned(), Some("Known".to_owned())).unwrap();
    let mut websocket = session();
    for payload in [set_activity(), json(r#"{"cmd": "DEEP_LINK"}"#), json("{}")] {
        let text = websocket.handle_text(&payload.print().unwrap()).unwrap();
        let packet = IpcPacket { opcode: IpcOpcode::Frame, data: payload };
        match connection.on_packet(&packet).unwrap() {
            IpcAction::Reply { packets, activity } => {
                let replies: Vec<String> = packets
                    .iter()
                    .map(|packet| read_packet(packet).unwrap().unwrap().0.data.print().unwrap())
                    .collect();
                assert_eq!(replies, text.replies);
                assert_eq!(activity, text.activity);
            }
            other => panic!("{other:?}"),
        }
    }
    assert_eq!(connection.close_activity(), Some(websocket.close_activity()));
}

#[test]
fn more_entries_ignore_more_games() {
    let short = IgnoreList::from_text(r#"["one"]"#).unwrap();
    let long = IgnoreList::from_text(r#"["one", "two"]"#).unwrap();
    assert!(short.should_ignore("9", "x", "One"));
    assert!(long.should_ignore("9", "x", "One"));
    assert!(!short.should_ignore("9", "x", "Two"));
    assert!(long.should_ignore("9", "x", "Two"));
}

#[test]
fn a_state_that_is_kept_up_is_not_taken_over() {
    for age in [0, 5_000, 9_999] {
        let now = 1_000_000;
        let raw = format!(r#"{{"timestamp": {}}}"#, now - age);
        assert!(recent_state(now, now - age));
        assert!(!is_available_state_path(Some(&raw), now as u128));
    }
}
