use arrpc::app_name::{app_name_by_id, app_name_url, AppName, NameCache, NameStep};
use arrpc::json::Json;
use arrpc::rpc::{parse_query, rpc_ready_payload, validate_rpc_request, DefaultRpcActionHandler, RpcSession};

fn json(text: &str) -> Json {
    Json::parse(text).unwrap()
}

fn session(socket_id: &str) -> RpcSession<DefaultRpcActionHandler> {
    RpcSession::new(socket_id.to_owned(), "123".to_owned(), None)
}

fn field<'a>(value: &'a Json, path: &[&str]) -> &'a Json {
    path.iter().fold(value, |value, key| value.get(key).unwrap())
}

fn item(value: &Json, index: usize) -> &Json {
    &value.as_array().unwrap()[index]
}

#[test]
fn set_activity_translates_buttons_and_second_timestamps() {
    let mut socket = session("7");

    let effects = socket.handle_payload(&json(
        r#"{
            "cmd": "SET_ACTIVITY",
            "args": {
                "pid": 42,
                "activity": {
                    "name": "Game",
                    "instance": true,
                    "timestamps": { "start": 1710000000 },
                    "buttons": [
                        { "label": "Site", "url": "https://example.com" }
                    ]
                }
            },
            "nonce": "abc"
        }"#,
    ));

    let activity = effects.activity.unwrap();
    assert_eq!(field(&activity, &["socketId"]).as_str(), Some("7"));
    assert_eq!(field(&activity, &["pid"]).as_u64(), Some(42));
    assert_eq!(
        field(&activity, &["activity", "application_id"]).as_str(),
        Some("123")
    );
    assert_eq!(field(&activity, &["activity", "flags"]).as_u64(), Some(1));
    assert_eq!(
        field(&activity, &["activity", "timestamps", "start"]).as_i64(),
        Some(1_710_000_000_000i64)
    );
    assert_eq!(
        item(field(&activity, &["activity", "metadata", "button_urls"]), 0).as_str(),
        Some("https://example.com")
    );
    assert_eq!(
        item(field(&activity, &["activity", "buttons"]), 0).as_str(),
        Some("Site")
    );
    assert_eq!(field(&effects.replies[0], &["data", "name"]).as_str(), Some(""));
}

#[test]
fn null_activity_clears_bridge_state_for_socket() {
    let mut socket = session("9");

    let effects = socket.handle_payload(&json(
        r#"{
            "cmd": "SET_ACTIVITY",
            "args": { "pid": 42, "activity": null },
            "nonce": "clear"
        }"#,
    ));

    assert_eq!(field(&effects.activity.unwrap(), &["activity"]), &Json::Null);
    assert_eq!(field(&effects.replies[0], &["data"]), &Json::Null);
}

#[test]
fn invite_browser_acknowledges_code() {
    let mut socket = session("10");

    let effects = socket.handle_payload(&json(
        r#"{ "cmd": "INVITE_BROWSER", "args": { "code": "abc123" }, "nonce": "invite" }"#,
    ));

    assert_eq!(field(&effects.replies[0], &["cmd"]).as_str(), Some("INVITE_BROWSER"));
    assert_eq!(field(&effects.replies[0], &["data", "code"]).as_str(), Some("abc123"));
    assert_eq!(field(&effects.replies[0], &["evt"]), &Json::Null);
    assert_eq!(field(&effects.replies[0], &["nonce"]).as_str(), Some("invite"));
}

#[test]
fn guild_template_browser_acknowledges_code() {
    let mut socket = session("11");

    let effects = socket.handle_payload(&json(
        r#"{
            "cmd": "GUILD_TEMPLATE_BROWSER",
            "args": { "code": "template123" },
            "nonce": "template"
        }"#,
    ));

    assert_eq!(
        field(&effects.replies[0], &["cmd"]).as_str(),
        Some("GUILD_TEMPLATE_BROWSER")
    );
    assert_eq!(field(&effects.replies[0], &["data", "code"]).as_str(), Some("template123"));
    assert_eq!(field(&effects.replies[0], &["evt"]), &Json::Null);
    assert_eq!(field(&effects.replies[0], &["nonce"]).as_str(), Some("template"));
}

#[test]
fn deep_link_acknowledges_success() {
    let mut socket = session("12");

    let effects = socket.handle_payload(&json(
        r#"{
            "cmd": "DEEP_LINK",
            "args": { "params": "discord://example" },
            "nonce": "link"
        }"#,
    ));

    assert_eq!(field(&effects.replies[0], &["cmd"]).as_str(), Some("DEEP_LINK"));
    assert_eq!(field(&effects.replies[0], &["data"]), &Json::Null);
    assert_eq!(field(&effects.replies[0], &["evt"]), &Json::Null);
    assert_eq!(field(&effects.replies[0], &["nonce"]).as_str(), Some("link"));
}

#[test]
fn app_name_lookup_uses_detectable_database() {
    let database = || {
        vec![
            AppName { id: "356869127241072640".to_owned(), name: "League of Legends".to_owned() },
            AppName { id: "2".to_owned(), name: "Second".to_owned() },
            AppName { id: "2".to_owned(), name: "Third".to_owned() },
        ]
    };
    let app = database().into_iter().next().unwrap();

    assert_eq!(app_name_by_id(&database(), &app.id), Some(app.name));
    assert_eq!(app_name_by_id(&database(), "2"), Some("Second".to_owned()));
    assert_eq!(app_name_by_id(&database(), "3"), None);
}

#[test]
fn names_are_asked_for_once() {
    let database = vec![AppName { id: "1".to_owned(), name: "One".to_owned() }];
    let mut cache = NameCache::new();
    assert!(matches!(
        cache.resolve_app_name_by_id(&database, "1"),
        NameStep::Known(Some(name)) if name == "One"
    ));
    assert!(matches!(
        cache.resolve_app_name_by_id(&database, "7"),
        NameStep::Fetch(url) if url == "https://discord.com/api/v10/applications/7/rpc"
    ));
    cache.store("7", Some("Seven".to_owned()));
    cache.store("8", None);
    assert!(matches!(
        cache.resolve_app_name_by_id(&database, "7"),
        NameStep::Known(Some(name)) if name == "Seven"
    ));
    assert!(matches!(
        cache.resolve_app_name_by_id(&database, "8"),
        NameStep::Known(None)
    ));
    assert_eq!(app_name_url("a b"), "https://discord.com/api/v10/applications/a b/rpc");
}

#[test]
fn unknown_commands_are_passed_over() {
    let mut socket = session("1");
    for text in [r#"{"cmd": "NOPE"}"#, r#"{"cmd": 5}"#, "{}", "[]", "null"] {
        let effects = socket.handle_payload(&json(text));
        assert!(effects.replies.is_empty());
        assert!(effects.activity.is_none());
    }
}

#[test]
fn connections_callback_is_answered_with_an_error() {
    let mut socket = session("1");
    let effects = socket.handle_payload(&json(r#"{"cmd": "CONNECTIONS_CALLBACK", "nonce": 7}"#));
    assert_eq!(effects.replies.len(), 1);
    assert_eq!(
        effects.replies[0],
        json(r#"{"cmd":"CONNECTIONS_CALLBACK","data":{"code":1000},"evt":"ERROR","nonce":7}"#)
    );
    assert!(effects.activity.is_none());
}

#[test]
fn a_missing_code_is_acknowledged_as_null() {
    let mut socket = session("1");
    let effects = socket.handle_payload(&json(r#"{"cmd": "INVITE_BROWSER"}"#));
    assert_eq!(
        effects.replies[0],
        json(r#"{"cmd":"INVITE_BROWSER","data":{"code":null},"evt":null,"nonce":null}"#)
    );
}

#[test]
fn timestamps_in_milliseconds_are_left_alone() {
    let mut socket = session("1");
    let effects = socket.handle_payload(&json(
        r#"{"cmd": "SET_ACTIVITY", "args": {"activity": {"timestamps":
            {"start": 10000000000, "end": 9999999999, "other": "x", "half": 1.5, "below": -3}}}}"#,
    ));
    let activity = effects.activity.unwrap();
    let timestamps = field(&activity, &["activity", "timestamps"]);
    assert_eq!(timestamps.get_u64("start"), Some(10_000_000_000));
    assert_eq!(timestamps.get_u64("end"), Some(9_999_999_999_000));
    assert_eq!(timestamps.get_str("other"), Some("x"));
    assert_eq!(timestamps.get("half").unwrap().as_i64(), None);
    assert_eq!(timestamps.get("below").unwrap().as_i64(), Some(-3000));
}

#[test]
fn what_the_client_says_comes_before_what_the_server_knows() {
    let mut socket = RpcSession::new("1".to_owned(), "123".to_owned(), Some("Known".to_owned()));
    let effects = socket.handle_payload(&json(
        r#"{"cmd": "SET_ACTIVITY", "args": {"activity": {"name": "Mine", "type": 3, "flags": 9}}}"#,
    ));
    let news = effects.activity.unwrap();
    let published = field(&news, &["activity"]);
    assert_eq!(published.get_str("name"), Some("Mine"));
    assert_eq!(published.get_u64("type"), Some(3));
    assert_eq!(published.get_u64("flags"), Some(9));
    assert_eq!(published.get_str("application_id"), Some("123"));
    assert_eq!(published.get("metadata"), Some(&json("{}")));
    let confirmed = field(&effects.replies[0], &["data"]);
    assert_eq!(confirmed.get_str("name"), Some("Known"));
    assert_eq!(confirmed.get_u64("type"), Some(0));
    assert_eq!(confirmed.get_u64("flags"), Some(9));
}

#[test]
fn an_activity_that_is_no_object_is_published_empty() {
    let mut socket = session("1");
    let effects = socket.handle_payload(&json(
        r#"{"cmd": "SET_ACTIVITY", "args": {"pid": 4, "activity": "text"}}"#,
    ));
    assert_eq!(
        effects.activity.unwrap().print().unwrap(),
        "{\"activity\":{\"application_id\":\"123\",\"flags\":0,\"metadata\":{},\"name\":\"\",\
         \"type\":0},\"pid\":4,\"socketId\":\"1\"}"
    );
}

#[test]
fn a_session_ends_with_its_last_process() {
    let mut socket = session("5");
    assert_eq!(
        socket.close_activity(),
        json(r#"{"activity": null, "pid": null, "socketId": "5"}"#)
    );
    socket.handle_payload(&json(
        r#"{"cmd": "SET_ACTIVITY", "args": {"pid": 4, "activity": {}}}"#,
    ));
    socket.handle_payload(&json(r#"{"cmd": "SET_ACTIVITY", "args": {"activity": {}}}"#));
    socket.handle_payload(&json(
        r#"{"cmd": "SET_ACTIVITY", "args": {"pid": 6, "activity": null}}"#,
    ));
    assert_eq!(
        socket.close_activity(),
        json(r#"{"activity": null, "pid": 4, "socketId": "5"}"#)
    );
    socket.handle_payload(&json(
        r#"{"cmd": "SET_ACTIVITY", "args": {"pid": 7, "activity": {}}}"#,
    ));
    socket.handle_payload(&json(
        r#"{"cmd": "SET_ACTIVITY", "args": {"pid": null, "activity": {}}}"#,
    ));
    socket.handle_payload(&json(r#"{"cmd": "SET_ACTIVITY", "args": {"pid": 8}}"#));
    socket.handle_payload(&json(r#"{"cmd": "DEEP_LINK", "args": {"pid": 9, "activity": {}}}"#));
    assert_eq!(
        socket.close_activity(),
        json(r#"{"activity": null, "pid": 7, "socketId": "5"}"#)
    );
}

#[test]
fn text_messages_are_answered_in_text() {
    let mut socket = session("5");
    let effects = socket.handle_text(r#"{"cmd": "DEEP_LINK", "nonce": "ü"}"#).unwrap();
    assert_eq!(
        effects.replies,
        vec!["{\"cmd\":\"DEEP_LINK\",\"data\":null,\"evt\":null,\"nonce\":\"ü\"}".to_owned()]
    );
    assert!(socket.handle_text("{").is_err());
}

#[test]
fn the_greeting_presents_the_server() {
    let ready = rpc_ready_payload();
    assert_eq!(ready.get_str("cmd"), Some("DISPATCH"));
    assert_eq!(ready.get_str("evt"), Some("READY"));
    assert_eq!(
        field(&ready, &["data", "config"]).print().unwrap(),
        r#"{"api_endpoint":"//discord.com/api","cdn_host":"cdn.discordapp.com","environment":"production"}"#
    );
    assert_eq!(field(&ready, &["data", "user", "username"]).as_str(), Some("arrpc"));
    assert_eq!(field(&ready, &["data", "v"]).as_u64(), Some(1));
}

#[test]
fn requests_are_accepted_by_origin_version_and_encoding() {
    let accept = |origin, query| validate_rpc_request(origin, query);
    assert_eq!(accept(None, "").unwrap(), "");
    assert_eq!(
        accept(Some("https://ptb.discord.com"), "v=1&encoding=json&client_id=42").unwrap(),
        "42"
    );
    assert_eq!(accept(None, "client_id=1&&client_id=2=3&x").unwrap(), "2=3");
    assert_eq!(
        accept(Some("https://example.com"), "v=1").unwrap_err(),
        "disallowed origin: https://example.com"
    );
    assert_eq!(accept(None, "v=2").unwrap_err(), "unsupported version requested: 2");
    assert_eq!(accept(None, "v=256").unwrap_err(), "unsupported version requested");
    assert_eq!(accept(None, "v").unwrap_err(), "unsupported version requested");
    assert_eq!(
        accept(None, "encoding=etf").unwrap_err(),
        "unsupported encoding requested: etf"
    );
}

#[test]
fn queries_are_cut_at_the_first_equals_sign() {
    assert_eq!(
        parse_query("a=b=c&&d&=e"),
        vec![
            ("a".to_owned(), "b=c".to_owned()),
            ("d".to_owned(), String::new()),
            (String::new(), "e".to_owned()),
        ]
    );
}
