use arrpc::ipc::{
    encode_packet, read_packet, validate_handshake, IpcAction, IpcConnection, IpcError, IpcOpcode,
    IpcPacket,
};
use arrpc::json::Json;

fn json(text: &str) -> Json {
    Json::parse(text).unwrap()
}

fn packet(opcode: IpcOpcode, text: &str) -> IpcPacket {
    IpcPacket { opcode, data: json(text) }
}

fn decode(bytes: &[u8]) -> IpcPacket {
    let (packet, taken) = read_packet(bytes).unwrap().unwrap();
    assert_eq!(taken, bytes.len());
    packet
}

#[test]
fn handshake_requires_client_id() {
    assert!(validate_handshake(&json(r#"{ "v": 1 }"#)).is_err());
    assert_eq!(
        validate_handshake(&json(r#"{ "v": 1, "client_id": "123" }"#)).unwrap(),
        "123"
    );
}

#[test]
fn packet_round_trip_preserves_opcode_and_json() {
    let payload = json(r#"{ "cmd": "PING", "nonce": "abc" }"#);

    let bytes = encode_packet(IpcOpcode::Ping, &payload).unwrap();
    let (packet, taken) = read_packet(&bytes).unwrap().unwrap();

    assert_eq!(taken, bytes.len());
    assert_eq!(packet.opcode, IpcOpcode::Ping);
    assert_eq!(packet.data, payload);
}

#[test]
fn packets_follow_each_other_in_a_stream() {
    let mut stream = encode_packet(IpcOpcode::Frame, &json(r#"{"a":1}"#)).unwrap();
    let first = stream.len();
    stream.extend(encode_packet(IpcOpcode::Close, &json("[]")).unwrap());
    let (packet, taken) = read_packet(&stream).unwrap().unwrap();
    assert_eq!(taken, first);
    assert_eq!(packet.data, json(r#"{"a":1}"#));
    assert_eq!(decode(&stream[taken..]).opcode, IpcOpcode::Close);
}

#[test]
fn packets_have_little_endian_headers() {
    let bytes = encode_packet(IpcOpcode::Pong, &json(r#"{"a":1}"#)).unwrap();
    assert_eq!(bytes, b"\x04\0\0\0\x07\0\0\0{\"a\":1}".to_vec());
}

#[test]
fn handshakes_are_refused_with_their_reason() {
    let reason = |text: &str| validate_handshake(&json(text)).unwrap_err().message();
    assert_eq!(
        reason(r#"{"v": 2, "client_id": "1"}"#),
        "unsupported version requested: 2"
    );
    assert_eq!(reason(r#"{"client_id": ""}"#), "client id required");
    assert_eq!(reason(r#"{"client_id": 5}"#), "client id required");
    assert_eq!(validate_handshake(&json(r#"{"v": "2", "client_id": "7"}"#)).unwrap(), "7");
}

#[test]
fn broken_packets_are_refused() {
    assert!(read_packet(b"\x01\0\0").unwrap().is_none());
    let error = read_packet(b"\x05\0\0\0\0\0\0\0").unwrap_err();
    assert_eq!(error.message(), "invalid IPC opcode 5");
    let error = read_packet(b"\xff\xff\xff\xff\0\0\0\0").unwrap_err();
    assert_eq!(error.message(), "invalid IPC opcode -1");
    let error = read_packet(b"\x01\0\0\0\x01\0\0\x01").unwrap_err();
    assert_eq!(error.message(), "IPC packet too large: 16777217 bytes");
    assert!(matches!(
        read_packet(b"\x01\0\0\0\x02\0\0\0{"),
        Err(IpcError::Truncated)
    ));
    assert!(matches!(
        read_packet(b"\x01\0\0\0\x01\0\0\0{"),
        Err(IpcError::Json(_))
    ));
}

#[test]
fn a_body_that_is_too_long_is_not_written() {
    let data = Json::Text("x".repeat(16_777_215));
    let error = encode_packet(IpcOpcode::Frame, &data).unwrap_err();
    assert_eq!(error.message(), "IPC packet too large: 16777217 bytes");
    let data = Json::Text("x".repeat(16_777_214));
    assert_eq!(encode_packet(IpcOpcode::Frame, &data).unwrap().len(), 8 + 16_777_216);
}

#[test]
fn opcodes_have_their_numbers() {
    let all = [
        IpcOpcode::Handshake,
        IpcOpcode::Frame,
        IpcOpcode::Close,
        IpcOpcode::Ping,
        IpcOpcode::Pong,
    ];
    for (number, opcode) in all.into_iter().enumerate() {
        assert_eq!(opcode.number(), number as u32);
        assert_eq!(IpcOpcode::try_from(number as i32).unwrap(), opcode);
    }
    assert!(IpcOpcode::try_from(-1).is_err());
}

#[test]
fn a_ping_is_answered_with_its_own_data() {
    let mut connection = IpcConnection::new("3".to_owned());
    let action = connection.on_packet(&packet(IpcOpcode::Ping, r#"{"n": [1]}"#)).unwrap();
    match action {
        IpcAction::Reply { packets, activity } => {
            assert!(activity.is_none());
            assert_eq!(packets.len(), 1);
            let answer = decode(&packets[0]);
            assert_eq!(answer.opcode, IpcOpcode::Pong);
            assert_eq!(answer.data, json(r#"{"n": [1]}"#));
        }
        other => panic!("{other:?}"),
    }
}

#[test]
fn a_pong_is_not_answered_and_a_close_ends() {
    let mut connection = IpcConnection::new("3".to_owned());
    let action = connection.on_packet(&packet(IpcOpcode::Pong, "null")).unwrap();
    assert!(matches!(action, IpcAction::Reply { packets, activity: None } if packets.is_empty()));
    let action = connection.on_packet(&packet(IpcOpcode::Close, "null")).unwrap();
    assert!(matches!(action, IpcAction::End { packets } if packets.is_empty()));
    assert!(connection.close_activity().is_none());
}

#[test]
fn a_frame_before_the_handshake_ends_the_connection() {
    let mut connection = IpcConnection::new("3".to_owned());
    let action = connection
        .on_packet(&packet(IpcOpcode::Frame, r#"{"cmd": "DEEP_LINK"}"#))
        .unwrap();
    match action {
        IpcAction::End { packets } => {
            let close = decode(&packets[0]);
            assert_eq!(close.opcode, IpcOpcode::Close);
            assert_eq!(close.data, json(r#"{"code": 1003, "message": "need to handshake first"}"#));
        }
        other => panic!("{other:?}"),
    }
}

#[test]
fn a_connection_goes_from_handshake_to_close() {
    let mut connection = IpcConnection::new("3".to_owned());
    let action = connection
        .on_packet(&packet(IpcOpcode::Handshake, r#"{"v": 1, "client_id": "123"}"#))
        .unwrap();
    let client_id = match action {
        IpcAction::Resolve(id) => id,
        other => panic!("{other:?}"),
    };
    assert_eq!(client_id, "123");
    let ready = decode(&connection.open_session(client_id, Some("Game".to_owned())).unwrap());
    assert_eq!(ready.opcode, IpcOpcode::Frame);
    assert_eq!(ready.data.get_str("evt"), Some("READY"));

    let action = connection
        .on_packet(&packet(
            IpcOpcode::Frame,
            r#"{"cmd": "SET_ACTIVITY", "args": {"pid": 8, "activity": {}}, "nonce": "n"}"#,
        ))
        .unwrap();
    match action {
        IpcAction::Reply { packets, activity } => {
            assert_eq!(decode(&packets[0]).data.get_str("nonce"), Some("n"));
            assert_eq!(activity.unwrap().get_str("socketId"), Some("3"));
        }
        other => panic!("{other:?}"),
    }
    assert_eq!(
        connection.close_activity().unwrap(),
        json(r#"{"activity": null, "pid": 8, "socketId": "3"}"#)
    );
    assert_eq!(
        connection.end().unwrap(),
        json(r#"{"activity": null, "pid": 8, "socketId": "3"}"#)
    );
    assert!(connection.end().is_none());
    assert!(connection.close_activity().is_none());
    assert_eq!(connection.socket_id, "3");
}

#[test]
fn an_answer_that_is_too_long_tells_its_length() {
    let mut connection = IpcConnection::new("3".to_owned());
    let ping = IpcPacket {
        opcode: IpcOpcode::Ping,
        data: Json::Text("x".repeat(16_777_300)),
    };
    let error = connection.on_packet(&ping).unwrap_err();
    assert_eq!(error.message(), "IPC packet too large: 16777302 bytes");
}

#[test]
fn a_refused_handshake_is_an_error() {
    let mut connection = IpcConnection::new("3".to_owned());
    let error = connection.on_packet(&packet(IpcOpcode::Handshake, "{}")).unwrap_err();
    assert!(matches!(error, IpcError::ClientIdRequired));
    let error = connection
        .on_packet(&packet(IpcOpcode::Handshake, r#"{"v": 3}"#))
        .unwrap_err();
    assert!(matches!(error, IpcError::UnsupportedVersion(3)));
}
