//! The IPC transport: packets of bytes, and what a connection does with them.
use vstd::prelude::*;

use crate::bridge::{after_message, closing_clears_the_socket};
use crate::json::{
    field, integer, items_model, json_model, parsed_bytes, printed_bytes, printed_text,
    survives, text_field, u64_field, Json, JsonError, JsonModel, JsonObject, NumberModel,
};
use crate::rpc::{
    after_payload, close_message, opt_json, payload_effects, printed_texts, ready_message,
    rpc_ready_payload, DefaultRpcActionHandler, RpcSession, SessionModel, TextEffects,
};
use crate::text::{decimal, decimal_text, opt_text, signed_decimal, signed_text, texts};

verus! {

/// How long the body of a packet may be.
pub const MAX_PACKET_SIZE: u32 = 16_777_216;

/// How long the header of a packet is.
pub const HEADER_SIZE: usize = 8;

/// What a packet is for.
#[derive(Debug, Clone, Copy, PartialEq, Eq, Structural)]
pub enum IpcOpcode {
    Handshake,
    Frame,
    Close,
    Ping,
    Pong,
}

/// A packet.
#[derive(Debug)]
pub struct IpcPacket {
    pub opcode: IpcOpcode,
    pub data: Json,
}

/// Why a packet could not be read, written or carried out.
#[derive(Debug)]
pub enum IpcError {
    InvalidOpcode(i32),
    PacketTooLarge(usize),
    Truncated,
    Json(JsonError),
    UnsupportedVersion(u64),
    ClientIdRequired,
}

/// The number that stands for an opcode.
pub open spec fn opcode_number(opcode: IpcOpcode) -> int {
    match opcode {
        IpcOpcode::Handshake => 0,
        IpcOpcode::Frame => 1,
        IpcOpcode::Close => 2,
        IpcOpcode::Ping => 3,
        IpcOpcode::Pong => 4,
    }
}

/// The opcode that a number stands for, if it does.
pub open spec fn opcode_of(number: int) -> Option<IpcOpcode> {
    if number == 0 {
        Some(IpcOpcode::Handshake)
    } else if number == 1 {
        Some(IpcOpcode::Frame)
    } else if number == 2 {
        Some(IpcOpcode::Close)
    } else if number == 3 {
        Some(IpcOpcode::Ping)
    } else if number == 4 {
        Some(IpcOpcode::Pong)
    } else {
        None
    }
}

impl IpcOpcode {
    /// The opcode that `value` stands for.
    pub fn try_from(value: i32) -> (r: Result<IpcOpcode, IpcError>)
        ensures
            match opcode_of(value as int) {
                Some(opcode) => r == Ok::<IpcOpcode, IpcError>(opcode),
                None => r == Err::<IpcOpcode, IpcError>(IpcError::InvalidOpcode(value)),
            },
    {
        match value {
            0 => Ok(IpcOpcode::Handshake),
            1 => Ok(IpcOpcode::Frame),
            2 => Ok(IpcOpcode::Close),
            3 => Ok(IpcOpcode::Ping),
            4 => Ok(IpcOpcode::Pong),
            _ => Err(IpcError::InvalidOpcode(value)),
        }
    }

    /// The number that stands for the opcode.
    pub fn number(self) -> (r: u32)
        ensures
            r == opcode_number(self),
    {
        match self {
            IpcOpcode::Handshake => 0,
            IpcOpcode::Frame => 1,
            IpcOpcode::Close => 2,
            IpcOpcode::Ping => 3,
            IpcOpcode::Pong => 4,
        }
    }
}

/// An opcode is the one that its number stands for.
pub proof fn opcodes_round_trip(opcode: IpcOpcode)
    ensures
        opcode_of(opcode_number(opcode)) == Some(opcode),
{
}

// ---------------------------------------------------------------------------
// Bytes
// ---------------------------------------------------------------------------
/// The four bytes of a number, the lowest first.
pub open spec fn le_bytes(n: int) -> Seq<u8> {
    seq![
        (n % 256) as u8,
        (n / 256 % 256) as u8,
        (n / 65536 % 256) as u8,
        (n / 16777216 % 256) as u8,
    ]
}

/// The number that the four bytes at `at` spell, the lowest first.
pub open spec fn le_value(bytes: Seq<u8>, at: int) -> int {
    bytes[at] + 256 * bytes[at + 1] + 65536 * bytes[at + 2] + 16777216 * bytes[at + 3]
}

/// The signed number with the same 32 bits.
pub open spec fn as_signed(n: int) -> int {
    if n < 2147483648 {
        n
    } else {
        n - 4294967296
    }
}

proof fn lemma_le_round_trip(n: int, rest: Seq<u8>)
    requires
        0 <= n < 4294967296,
    ensures
        le_value(le_bytes(n) + rest, 0) == n,
{
    let all = le_bytes(n) + rest;
    assert(all[0] == (n % 256) as u8);
    assert(all[1] == (n / 256 % 256) as u8);
    assert(all[2] == (n / 65536 % 256) as u8);
    assert(all[3] == (n / 16777216 % 256) as u8);
    assert(n == n % 256 + 256 * (n / 256 % 256) + 65536 * (n / 65536 % 256) + 16777216 * (n
        / 16777216 % 256)) by (nonlinear_arith)
        requires
            0 <= n < 4294967296,
    ;
}

/// A packet as bytes: the opcode, the length of the body, the body.
pub open spec fn framed(opcode: IpcOpcode, body: Seq<u8>) -> Seq<u8> {
    le_bytes(opcode_number(opcode)) + le_bytes(body.len() as int) + body
}

/// A packet as bytes, where its body is not too long.
pub open spec fn encoded(opcode: IpcOpcode, data: JsonModel) -> Option<Seq<u8>> {
    if printed_bytes(data).len() <= MAX_PACKET_SIZE {
        Some(framed(opcode, printed_bytes(data)))
    } else {
        None
    }
}

fn push_le(bytes: &mut Vec<u8>, n: u32)
    ensures
        final(bytes)@ == old(bytes)@ + le_bytes(n as int),
{
    let ghost before = bytes@;
    bytes.push((n % 256) as u8);
    bytes.push((n / 256 % 256) as u8);
    bytes.push((n / 65536 % 256) as u8);
    bytes.push((n / 16777216 % 256) as u8);
    assert(bytes@ =~= before + le_bytes(n as int));
}

fn read_le(bytes: &[u8], at: usize) -> (r: u32)
    requires
        at + 4 <= bytes@.len(),
    ensures
        r == le_value(bytes@, at as int),
{
    bytes[at] as u32 + 256 * bytes[at + 1] as u32 + 65536 * bytes[at + 2] as u32 + 16777216
        * bytes[at + 3] as u32
}

/// The outcome of reading the first packet of a stream: nothing where the
/// stream ends before a header, else the packet and how many bytes it took.
pub open spec fn is_read_outcome(
    stream: Seq<u8>,
    r: Result<Option<(IpcPacket, usize)>, IpcError>,
) -> bool {
    if stream.len() < HEADER_SIZE {
        r matches Ok(None)
    } else {
        let number = as_signed(le_value(stream, 0));
        let length = le_value(stream, 4);
        match opcode_of(number) {
            None => r matches Err(IpcError::InvalidOpcode(n)) && n == number,
            Some(opcode) => if length > MAX_PACKET_SIZE {
                r matches Err(IpcError::PacketTooLarge(n)) && n == length
            } else if stream.len() < HEADER_SIZE + length {
                r matches Err(IpcError::Truncated)
            } else {
                match parsed_bytes(stream.subrange(HEADER_SIZE as int, HEADER_SIZE + length)) {
                    None => r matches Err(IpcError::Json(_)),
                    Some(data) => r matches Ok(Some((packet, taken))) && packet.opcode == opcode
                        && packet.data@ == data && taken == HEADER_SIZE + length,
                }
            },
        }
    }
}

/// The outcome of reading is this packet, which took `taken` bytes.
pub open spec fn is_packet_read(
    r: Result<Option<(IpcPacket, usize)>, IpcError>,
    opcode: IpcOpcode,
    data: JsonModel,
    taken: nat,
) -> bool {
    r matches Ok(Some((packet, n))) && packet.opcode == opcode && packet.data@ == data && n == taken
}

proof fn lemma_read_back(
    opcode: IpcOpcode,
    data: JsonModel,
    rest: Seq<u8>,
    r: Result<Option<(IpcPacket, usize)>, IpcError>,
)
    requires
        parsed_bytes(printed_bytes(data)) == Some(data),
        printed_bytes(data).len() <= MAX_PACKET_SIZE,
        is_read_outcome(framed(opcode, printed_bytes(data)) + rest, r),
    ensures
        is_packet_read(r, opcode, data, framed(opcode, printed_bytes(data)).len()),
{
    let body = printed_bytes(data);
    let stream = framed(opcode, body) + rest;
    let tail = le_bytes(body.len() as int) + (body + rest);
    lemma_le_round_trip(opcode_number(opcode), tail);
    lemma_le_round_trip(body.len() as int, body + rest);
    assert(stream =~= le_bytes(opcode_number(opcode)) + tail);
    assert(forall|i: int| 0 <= i < 4 ==> stream[4 + i] == tail[i]);
    assert(le_value(stream, 4) == le_value(tail, 0));
    assert(stream.subrange(HEADER_SIZE as int, HEADER_SIZE + body.len()) =~= body);
}

/// Writes a packet.
///
/// Reading a stream that begins with the packet gives it back and takes exactly
/// its bytes, so that what follows is read next. This holds of data without
/// floating point numbers that is not nested too deeply for the parser.
pub fn encode_packet(opcode: IpcOpcode, data: &Json) -> (r: Result<Vec<u8>, IpcError>)
    ensures
        match encoded(opcode, data@) {
            Some(bytes) => r matches Ok(b) && b@ == bytes,
            None => r matches Err(IpcError::PacketTooLarge(size)) && size == printed_bytes(
                data@,
            ).len(),
        },
        survives(data@) ==> (r matches Ok(b) ==> (forall|
            rest: Seq<u8>,
            read: Result<Option<(IpcPacket, usize)>, IpcError>,
        | #[trigger]
            is_read_outcome(b@ + rest, read) ==> is_packet_read(
                read,
                opcode,
                data@,
                b@.len(),
            ))),
{
    let body = match data.print_bytes() {
        Ok(body) => body,
        Err(error) => {
            return Err(IpcError::Json(error));
        },
    };
    if body.len() > MAX_PACKET_SIZE as usize {
        return Err(IpcError::PacketTooLarge(body.len()));
    }
    let mut bytes: Vec<u8> = Vec::new();
    push_le(&mut bytes, opcode.number());
    push_le(&mut bytes, body.len() as u32);
    let mut i: usize = 0;
    let ghost header = bytes@;
    while i < body.len()
        invariant
            i <= body@.len(),
            bytes@ == header + body@.take(i as int),
        decreases body@.len() - i,
    {
        bytes.push(body[i]);
        i += 1;
    }
    assert(body@.take(i as int) =~= body@);
    assert(bytes@ =~= framed(opcode, body@));
    proof {
        if survives(data@) {
            assert forall|rest: Seq<u8>, read: Result<Option<(IpcPacket, usize)>, IpcError>| #[trigger]
                is_read_outcome(bytes@ + rest, read) implies is_packet_read(
                read,
                opcode,
                data@,
                bytes@.len(),
            ) by {
                lemma_read_back(opcode, data@, rest, read);
            }
        }
    }
    Ok(bytes)
}

/// The data of a packet that closes a connection.
pub open spec fn close_data(code: int, message: Seq<char>) -> JsonModel {
    JsonModel::Object(map!["code"@ => integer(code), "message"@ => JsonModel::Text(message)])
}

/// Writes a packet that closes a connection.
pub fn encode_close(code: u16, message: &str) -> (r: Result<Vec<u8>, IpcError>)
    ensures
        match encoded(IpcOpcode::Close, close_data(code as int, message@)) {
            Some(bytes) => r matches Ok(b) && b@ == bytes,
            None => r matches Err(IpcError::PacketTooLarge(size)) && size == printed_bytes(
                close_data(code as int, message@),
            ).len(),
        },
{
    let data = Json::Object(
        JsonObject::new().with("code", Json::unsigned(code as u64)).with(
            "message",
            Json::text(message),
        ),
    );
    encode_packet(IpcOpcode::Close, &data)
}

/// The outcome of reading a header: the opcode and the length of the body.
pub open spec fn is_header_outcome(
    header: Seq<u8>,
    r: Result<(IpcOpcode, u32), IpcError>,
) -> bool {
    let number = as_signed(le_value(header, 0));
    let length = le_value(header, 4);
    match opcode_of(number) {
        None => r matches Err(IpcError::InvalidOpcode(n)) && n == number,
        Some(opcode) => if length > MAX_PACKET_SIZE {
            r matches Err(IpcError::PacketTooLarge(n)) && n == length
        } else {
            r matches Ok((o, n)) && o == opcode && n == length
        },
    }
}

/// Reads the header of a packet.
pub fn decode_header(header: &[u8]) -> (r: Result<(IpcOpcode, u32), IpcError>)
    requires
        header@.len() >= HEADER_SIZE,
    ensures
        is_header_outcome(header@, r),
{
    let raw: u32 = read_le(header, 0);
    let number: i32 = if raw < 2147483648 {
        raw as i32
    } else {
        (raw as i64 - 4294967296) as i32
    };
    let opcode = match IpcOpcode::try_from(number) {
        Ok(opcode) => opcode,
        Err(error) => {
            return Err(error);
        },
    };
    let length: u32 = read_le(header, 4);
    if length > MAX_PACKET_SIZE {
        return Err(IpcError::PacketTooLarge(length as usize));
    }
    Ok((opcode, length))
}

/// Reads the body of a packet.
pub fn decode_body(opcode: IpcOpcode, body: &[u8]) -> (r: Result<IpcPacket, IpcError>)
    ensures
        match parsed_bytes(body@) {
            Some(data) => r matches Ok(packet) && packet.opcode == opcode && packet.data@ == data,
            None => r matches Err(IpcError::Json(_)),
        },
{
    match Json::parse_bytes(body) {
        Ok(data) => Ok(IpcPacket { opcode, data }),
        Err(error) => Err(IpcError::Json(error)),
    }
}

/// Reads the first packet of a stream.
pub fn read_packet(stream: &[u8]) -> (r: Result<Option<(IpcPacket, usize)>, IpcError>)
    ensures
        is_read_outcome(stream@, r),
{
    if stream.len() < HEADER_SIZE {
        return Ok(None);
    }
    let (opcode, length) = match decode_header(stream) {
        Ok(header) => header,
        Err(error) => {
            return Err(error);
        },
    };
    let size: usize = length as usize;
    if stream.len() - HEADER_SIZE < size {
        return Err(IpcError::Truncated);
    }
    let end: usize = HEADER_SIZE + size;
    match decode_body(opcode, &stream[HEADER_SIZE..end]) {
        Ok(packet) => Ok(Some((packet, end))),
        Err(error) => Err(error),
    }
}

// ---------------------------------------------------------------------------
// Connections
// ---------------------------------------------------------------------------
/// The outcome of a handshake: the id of the client. The version is 1 where
/// none is given, and an empty id counts as none.
pub open spec fn is_handshake_outcome(data: JsonModel, r: Result<String, IpcError>) -> bool {
    let version = match u64_field(data, "v"@) {
        Some(v) => v,
        None => 1,
    };
    if version != 1 {
        r matches Err(IpcError::UnsupportedVersion(v)) && v == version
    } else {
        match text_field(data, "client_id"@) {
            Some(id) => if id.len() > 0 {
                r matches Ok(s) && s@ == id
            } else {
                r matches Err(IpcError::ClientIdRequired)
            },
            None => r matches Err(IpcError::ClientIdRequired),
        }
    }
}

/// Decides on a handshake.
pub fn validate_handshake(data: &Json) -> (r: Result<String, IpcError>)
    ensures
        is_handshake_outcome(data@, r),
{
    let version: u64 = match data.get_u64("v") {
        Some(version) => version,
        None => 1,
    };
    if version != 1 {
        return Err(IpcError::UnsupportedVersion(version));
    }
    match data.get_str("client_id") {
        Some(id) => if id.is_empty() {
            Err(IpcError::ClientIdRequired)
        } else {
            Ok(id.to_string())
        },
        None => Err(IpcError::ClientIdRequired),
    }
}

/// A connection: its id, and its session once it has shaken hands.
#[derive(Debug)]
pub struct IpcConnection {
    pub socket_id: String,
    pub session: Option<RpcSession<DefaultRpcActionHandler>>,
}

/// What to do next for a connection.
#[derive(Debug)]
pub enum IpcAction {
    /// Look up the name of this application, then go on with
    /// [`IpcConnection::open_session`].
    Resolve(String),
    /// Write the packets, tell the bridge the news, then read on.
    Reply { packets: Vec<Vec<u8>>, activity: Option<Json> },
    /// Write the packets and end the connection.
    End { packets: Vec<Vec<u8>> },
}

/// The bytes of each packet.
pub open spec fn packet_bytes(packets: Seq<Vec<u8>>) -> Seq<Seq<u8>> {
    packets.map_values(|packet: Vec<u8>| packet@)
}

/// What the session of a connection knows.
pub open spec fn session_model(session: Option<RpcSession<DefaultRpcActionHandler>>) -> Option<
    SessionModel,
> {
    match session {
        Some(s) => Some(s@),
        None => None,
    }
}

/// All of `values` can be written as packets.
pub open spec fn all_fit(opcode: IpcOpcode, values: Seq<JsonModel>) -> bool {
    forall|i: int| 0 <= i < values.len() ==> encoded(opcode, #[trigger] values[i]) is Some
}

/// The packets of `values`.
pub open spec fn packets_of(opcode: IpcOpcode, values: Seq<JsonModel>) -> Seq<Seq<u8>> {
    values.map_values(|value: JsonModel| encoded(opcode, value)->0)
}

/// `packets` are those of `values`.
pub open spec fn are_packets(
    packets: Seq<Vec<u8>>,
    opcode: IpcOpcode,
    values: Seq<JsonModel>,
) -> bool {
    all_fit(opcode, values) && packet_bytes(packets) == packets_of(opcode, values)
}

/// The first of `values` that cannot be written as a packet is that at `i`.
pub open spec fn is_first_too_large(opcode: IpcOpcode, values: Seq<JsonModel>, i: int) -> bool {
    &&& 0 <= i < values.len()
    &&& encoded(opcode, values[i]) is None
    &&& forall|j: int| 0 <= j < i ==> encoded(opcode, #[trigger] values[j]) is Some
}

/// `error` tells the length of the first of `values` that cannot be written.
pub open spec fn is_size_error(
    error: IpcError,
    opcode: IpcOpcode,
    values: Seq<JsonModel>,
) -> bool {
    error matches IpcError::PacketTooLarge(size) && exists|i: int| #[trigger]
        is_first_too_large(opcode, values, i) && size == printed_bytes(values[i]).len()
}

/// The data of the packet that ends a connection without a handshake.
pub open spec fn handshake_missing() -> JsonModel {
    close_data(1003, "need to handshake first"@)
}

/// The outcome of a packet on a connection whose session is `session`.
pub open spec fn is_packet_outcome(
    session: Option<SessionModel>,
    opcode: IpcOpcode,
    data: JsonModel,
    r: Result<IpcAction, IpcError>,
) -> bool {
    match opcode {
        IpcOpcode::Handshake => match r {
            Ok(IpcAction::Resolve(id)) => is_handshake_outcome(
                data,
                Ok::<String, IpcError>(id),
            ),
            Ok(_) => false,
            Err(error) => is_handshake_outcome(data, Err::<String, IpcError>(error)),
        },
        IpcOpcode::Ping => is_reply_outcome(IpcOpcode::Pong, seq![data], None, r),
        IpcOpcode::Pong => is_reply_outcome(IpcOpcode::Pong, Seq::empty(), None, r),
        IpcOpcode::Close => r matches Ok(IpcAction::End { packets }) && packets@.len() == 0,
        IpcOpcode::Frame => match session {
            None => if all_fit(IpcOpcode::Close, seq![handshake_missing()]) {
                r matches Ok(IpcAction::End { packets }) && are_packets(
                    packets@,
                    IpcOpcode::Close,
                    seq![handshake_missing()],
                )
            } else {
                r matches Err(error) && is_size_error(
                    error,
                    IpcOpcode::Close,
                    seq![handshake_missing()],
                )
            },
            Some(s) => {
                let effects = payload_effects(s, DefaultRpcActionHandler, data);
                is_reply_outcome(IpcOpcode::Frame, effects.replies, effects.activity, r)
            },
        },
    }
}

/// The outcome of answering with `replies`: they are written and the bridge is
/// told, unless one of them is too long.
pub open spec fn is_reply_outcome(
    opcode: IpcOpcode,
    replies: Seq<JsonModel>,
    news: Option<JsonModel>,
    r: Result<IpcAction, IpcError>,
) -> bool {
    if all_fit(opcode, replies) {
        r matches Ok(IpcAction::Reply { packets, activity }) && are_packets(
            packets@,
            opcode,
            replies,
        ) && opt_json(activity) == news
    } else {
        r matches Err(error) && is_size_error(error, opcode, replies)
    }
}

/// The session after a packet: only a frame can change it.
pub open spec fn after_packet(
    session: Option<SessionModel>,
    opcode: IpcOpcode,
    data: JsonModel,
) -> Option<SessionModel> {
    match session {
        Some(s) if opcode == IpcOpcode::Frame => Some(after_payload(s, data)),
        _ => session,
    }
}

/// What the bridge is told when a connection ends: that its activity is cleared,
/// where it had a session.
pub open spec fn end_message(session: Option<SessionModel>) -> Option<JsonModel> {
    match session {
        Some(session) => Some(close_message(session)),
        None => None,
    }
}

fn encode_all(opcode: IpcOpcode, values: &Vec<Json>) -> (r: Result<Vec<Vec<u8>>, IpcError>)
    ensures
        if all_fit(opcode, items_model(values@)) {
            r matches Ok(packets) && are_packets(packets@, opcode, items_model(values@))
        } else {
            r matches Err(error) && is_size_error(error, opcode, items_model(values@))
        },
{
    let ghost models = items_model(values@);
    let mut packets: Vec<Vec<u8>> = Vec::new();
    let mut i: usize = 0;
    while i < values.len()
        invariant
            models == items_model(values@),
            i <= values@.len(),
            packets@.len() == i,
            forall|j: int|
                0 <= j < i ==> encoded(opcode, #[trigger] models[j]) == Some(packets@[j]@),
        decreases values@.len() - i,
    {
        assert(models[i as int] == json_model(values@[i as int]));
        match encode_packet(opcode, &values[i]) {
            Ok(packet) => packets.push(packet),
            Err(error) => {
                assert(is_first_too_large(opcode, models, i as int));
                return Err(error);
            },
        }
        i += 1;
    }
    assert(packet_bytes(packets@) =~= packets_of(opcode, models));
    Ok(packets)
}

impl IpcConnection {
    /// A connection that has not shaken hands.
    pub fn new(socket_id: String) -> (r: IpcConnection)
        ensures
            r.socket_id == socket_id,
            r.session is None,
    {
        IpcConnection { socket_id, session: None }
    }

    /// Carries out a packet.
    pub fn on_packet(&mut self, packet: &IpcPacket) -> (r: Result<IpcAction, IpcError>)
        ensures
            final(self).socket_id == old(self).socket_id,
            session_model(final(self).session) == after_packet(
                session_model(old(self).session),
                packet.opcode,
                packet.data@,
            ),
            is_packet_outcome(
                session_model(old(self).session),
                packet.opcode,
                packet.data@,
                r,
            ),
    {
        match packet.opcode {
            IpcOpcode::Handshake => match validate_handshake(&packet.data) {
                Ok(client_id) => Ok(IpcAction::Resolve(client_id)),
                Err(error) => Err(error),
            },
            IpcOpcode::Ping => {
                let mut values: Vec<Json> = Vec::new();
                values.push(packet.data.clone());
                assert(items_model(values@) =~= seq![packet.data@]);
                match encode_all(IpcOpcode::Pong, &values) {
                    Ok(packets) => Ok(IpcAction::Reply { packets, activity: None }),
                    Err(error) => Err(error),
                }
            },
            IpcOpcode::Pong => {
                let packets: Vec<Vec<u8>> = Vec::new();
                assert(packet_bytes(packets@) =~= packets_of(IpcOpcode::Pong, Seq::empty()));
                Ok(IpcAction::Reply { packets, activity: None })
            },
            IpcOpcode::Close => Ok(IpcAction::End { packets: Vec::new() }),
            IpcOpcode::Frame => match &mut self.session {
                None => match encode_close(1003, "need to handshake first") {
                    Ok(bytes) => {
                        let mut packets: Vec<Vec<u8>> = Vec::new();
                        packets.push(bytes);
                        assert(packet_bytes(packets@) =~= packets_of(
                            IpcOpcode::Close,
                            seq![handshake_missing()],
                        ));
                        Ok(IpcAction::End { packets })
                    },
                    Err(error) => {
                        assert(is_first_too_large(
                            IpcOpcode::Close,
                            seq![handshake_missing()],
                            0,
                        ));
                        Err(error)
                    },
                },
                Some(session) => {
                    let effects = session.handle_payload(&packet.data);
                    match encode_all(IpcOpcode::Frame, &effects.replies) {
                        Ok(packets) => Ok(
                            IpcAction::Reply { packets, activity: effects.activity },
                        ),
                        Err(error) => Err(error),
                    }
                },
            },
        }
    }

    /// Opens the session of a client that has shaken hands, and writes the
    /// packet that greets it.
    pub fn open_session(&mut self, client_id: String, client_name: Option<String>) -> (r: Result<
        Vec<u8>,
        IpcError,
    >)
        ensures
            final(self).socket_id == old(self).socket_id,
            session_model(final(self).session) == Some(
                SessionModel {
                    socket_id: old(self).socket_id@,
                    client_id: client_id@,
                    client_name: opt_text(client_name),
                    last_pid: None,
                },
            ),
            match encoded(IpcOpcode::Frame, ready_message()) {
                Some(bytes) => r matches Ok(b) && b@ == bytes,
                None => r matches Err(IpcError::PacketTooLarge(size)) && size == printed_bytes(
                    ready_message(),
                ).len(),
            },
    {
        self.session = Some(RpcSession::new(self.socket_id.clone(), client_id, client_name));
        encode_packet(IpcOpcode::Frame, &rpc_ready_payload())
    }

    /// What the bridge is to be told when the connection ends.
    pub fn close_activity(&self) -> (r: Option<Json>)
        ensures
            opt_json(r) == end_message(session_model(self.session)),
    {
        match &self.session {
            Some(session) => Some(session.close_activity()),
            None => None,
        }
    }

    /// Ends the connection, however that came about, and returns what the bridge
    /// is to be told. The session is over, so that a second end tells nothing.
    pub fn end(&mut self) -> (r: Option<Json>)
        ensures
            final(self).socket_id == old(self).socket_id,
            final(self).session is None,
            opt_json(r) == end_message(session_model(old(self).session)),
    {
        let activity = self.close_activity();
        self.session = None;
        activity
    }
}

impl IpcError {
    /// The error in words, up to the words of the JSON parser.
    pub fn message(&self) -> (r: String)
        ensures
            r@ == match *self {
                IpcError::InvalidOpcode(n) => "invalid IPC opcode "@ + signed_decimal(n as int),
                IpcError::PacketTooLarge(n) => "IPC packet too large: "@ + decimal(n as nat)
                    + " bytes"@,
                IpcError::Truncated => "IPC packet ends early"@,
                IpcError::Json(_) => "IPC packet is not JSON"@,
                IpcError::UnsupportedVersion(v) => "unsupported version requested: "@ + decimal(
                    v as nat,
                ),
                IpcError::ClientIdRequired => "client id required"@,
            },
    {
        match self {
            IpcError::InvalidOpcode(n) => {
                let mut out = "invalid IPC opcode ".to_string();
                out.append(signed_text(*n as i64).as_str());
                out
            },
            IpcError::PacketTooLarge(n) => {
                let mut out = "IPC packet too large: ".to_string();
                out.append(decimal_text(*n as u64).as_str());
                out.append(" bytes");
                out
            },
            IpcError::Truncated => "IPC packet ends early".to_string(),
            IpcError::Json(_) => "IPC packet is not JSON".to_string(),
            IpcError::UnsupportedVersion(v) => {
                let mut out = "unsupported version requested: ".to_string();
                out.append(decimal_text(*v).as_str());
                out
            },
            IpcError::ClientIdRequired => "client id required".to_string(),
        }
    }
}

/// A command leads to the same over a local socket as over a websocket: the same
/// values are written as replies, in the same order, and the bridge is told the
/// same news.
pub proof fn transports_agree(
    session: SessionModel,
    payload: JsonModel,
    action: IpcAction,
    effects: TextEffects,
)
    requires
        is_packet_outcome(Some(session), IpcOpcode::Frame, payload, Ok::<_, IpcError>(action)),
        effects.stands_for(payload_effects(session, DefaultRpcActionHandler, payload)),
    ensures
        ({
            let values = payload_effects(session, DefaultRpcActionHandler, payload).replies;
            &&& action matches IpcAction::Reply { packets, activity }
            &&& packets@.len() == values.len() && effects.replies@.len() == values.len()
            &&& forall|i: int|
                0 <= i < values.len() ==> encoded(IpcOpcode::Frame, #[trigger] values[i]) == Some(
                    packets@[i]@,
                ) && effects.replies@[i]@ == printed_text(values[i])
            &&& opt_json(activity) == opt_json(effects.activity)
        }),
{
    let values = payload_effects(session, DefaultRpcActionHandler, payload).replies;
    assert(texts(effects.replies@).len() == printed_texts(values).len());
    if let IpcAction::Reply { packets, activity } = action {
        assert(packet_bytes(packets@).len() == packets_of(IpcOpcode::Frame, values).len());
        assert forall|i: int| 0 <= i < values.len() implies encoded(
            IpcOpcode::Frame,
            #[trigger] values[i],
        ) == Some(packets@[i]@) && effects.replies@[i]@ == printed_text(values[i]) by {
            assert(packet_bytes(packets@)[i] == packets_of(IpcOpcode::Frame, values)[i]);
            assert(texts(effects.replies@)[i] == printed_texts(values)[i]);
        }
    }
}

/// A connection that ends clears the activity of its socket, and where it had no
/// session the bridge is told nothing.
pub proof fn ending_clears_the_socket(
    session: Option<SessionModel>,
    bridge: Map<Seq<char>, JsonModel>,
)
    ensures
        end_message(session) is Some <==> session is Some,
        session matches Some(s) ==> after_message(bridge, end_message(session)->0)
            == bridge.remove(s.socket_id),
{
    if let Some(s) = session {
        closing_clears_the_socket(bridge, s);
    }
}

/// Nothing but a frame reaches the session, and without a session nothing
/// reaches the bridge.
pub proof fn no_news_without_session(
    opcode: IpcOpcode,
    data: JsonModel,
    action: IpcAction,
)
    requires
        is_packet_outcome(None, opcode, data, Ok::<_, IpcError>(action)),
    ensures
        action matches IpcAction::Reply { packets, activity } ==> activity is None,
        after_packet(None, opcode, data) is None,
{
}

/// A packet begins with the number of its opcode and the length of its body, four
/// bytes each with the lowest first, and the body follows.
pub proof fn packets_begin_with_opcode_and_length(opcode: IpcOpcode, body: Seq<u8>)
    requires
        body.len() < 4294967296,
    ensures
        ({
            let packet = framed(opcode, body);
            let number = packet[0] + 256 * packet[1] + 65536 * packet[2] + 16777216 * packet[3];
            let length = packet[4] + 256 * packet[5] + 65536 * packet[6] + 16777216 * packet[7];
            &&& packet.len() == 8 + body.len()
            &&& packet.skip(8) == body
            &&& length == body.len()
            &&& opcode == IpcOpcode::Handshake <==> number == 0
            &&& opcode == IpcOpcode::Frame <==> number == 1
            &&& opcode == IpcOpcode::Close <==> number == 2
            &&& opcode == IpcOpcode::Ping <==> number == 3
            &&& opcode == IpcOpcode::Pong <==> number == 4
        }),
{
    let packet = framed(opcode, body);
    let tail = le_bytes(body.len() as int) + body;
    assert(packet =~= le_bytes(opcode_number(opcode)) + tail);
    lemma_le_round_trip(opcode_number(opcode), tail);
    lemma_le_round_trip(body.len() as int, body);
    assert(forall|i: int| 0 <= i < 4 ==> packet[4 + i] == tail[i]);
    assert(packet.skip(8) =~= body);
}

/// A body of at most sixteen mebibytes can be written, and no longer one.
pub proof fn bodies_have_a_greatest_length(opcode: IpcOpcode, data: JsonModel)
    ensures
        encoded(opcode, data) is Some <==> printed_bytes(data).len() <= 16 * 1024 * 1024,
        encoded(opcode, data) is Some ==> encoded(opcode, data)->0 == framed(
            opcode,
            printed_bytes(data),
        ),
{
}

/// A stream is read packet by packet. One with fewer than eight bytes has none, a
/// number that no opcode has is refused, as is a length beyond the greatest, a
/// body that is not all there, and one that is no JSON; anything else is a packet
/// and takes its own bytes.
pub proof fn streams_are_read_by_packets(
    stream: Seq<u8>,
    r: Result<Option<(IpcPacket, usize)>, IpcError>,
)
    requires
        is_read_outcome(stream, r),
    ensures
        ({
            let number = stream[0] + 256 * stream[1] + 65536 * stream[2] + 16777216 * stream[3];
            let length = stream[4] + 256 * stream[5] + 65536 * stream[6] + 16777216 * stream[7];
            let body = stream.subrange(8, 8 + length);
            &&& stream.len() < 8 <==> (r matches Ok(None))
            &&& stream.len() >= 8 && number > 4 <==> (r matches Err(IpcError::InvalidOpcode(_)))
            &&& stream.len() >= 8 && 4 < number < 2147483648 ==> r
                == Err::<Option<(IpcPacket, usize)>, IpcError>(
                IpcError::InvalidOpcode(number as i32),
            )
            &&& stream.len() >= 8 && number <= 4 && length > 16777216 <==> (r matches Err(
                IpcError::PacketTooLarge(_),
            ))
            &&& (r matches Err(IpcError::PacketTooLarge(size)) ==> size == length)
            &&& stream.len() >= 8 && number <= 4 && length <= 16777216 && stream.len() < 8 + length
                <==> (r matches Err(IpcError::Truncated))
            &&& stream.len() >= 8 && number <= 4 && length <= 16777216 && stream.len() >= 8 + length
                && parsed_bytes(body) is None <==> (r matches Err(IpcError::Json(_)))
            &&& stream.len() >= 8 && number <= 4 && length <= 16777216 && stream.len() >= 8 + length
                && parsed_bytes(body) is Some ==> {
                &&& r matches Ok(Some((packet, taken)))
                &&& taken == 8 + length
                &&& parsed_bytes(body) == Some(packet.data@)
                &&& number == 0 ==> packet.opcode == IpcOpcode::Handshake
                &&& number == 1 ==> packet.opcode == IpcOpcode::Frame
                &&& number == 2 ==> packet.opcode == IpcOpcode::Close
                &&& number == 3 ==> packet.opcode == IpcOpcode::Ping
                &&& number == 4 ==> packet.opcode == IpcOpcode::Pong
            }
        }),
{
    assert(le_value(stream, 0) == stream[0] + 256 * stream[1] + 65536 * stream[2] + 16777216
        * stream[3]);
    assert(le_value(stream, 4) == stream[4] + 256 * stream[5] + 65536 * stream[6] + 16777216
        * stream[7]);
}

/// A handshake is accepted with the id of the client where it asks for the version
/// one, or for none, and the id is a text that is not empty. Another version is
/// refused with its number, and a missing id is refused.
pub proof fn handshakes_need_version_and_id(data: JsonModel, r: Result<String, IpcError>)
    requires
        is_handshake_outcome(data, r),
    ensures
        ({
            let version = u64_field(data, "v"@);
            let id = text_field(data, "client_id"@);
            let known = version is None || version == Some(1u64);
            &&& known && id is Some && id->0.len() > 0 <==> r is Ok
            &&& r is Ok ==> Some(r->Ok_0@) == id
            &&& !known <==> (r matches Err(IpcError::UnsupportedVersion(_)))
            &&& (r matches Err(IpcError::UnsupportedVersion(v)) ==> version == Some(v))
            &&& known && (id is None || id->0.len() == 0) <==> (r matches Err(
                IpcError::ClientIdRequired,
            ))
        }),
{
}

/// What a packet leads to goes by its opcode: a handshake is looked up, a ping is
/// answered with its own data as a pong, a pong leads to nothing, and a close ends
/// the connection.
pub proof fn packets_are_carried_out_by_opcode(
    session: Option<SessionModel>,
    opcode: IpcOpcode,
    data: JsonModel,
    r: Result<IpcAction, IpcError>,
)
    requires
        is_packet_outcome(session, opcode, data, r),
    ensures
        opcode == IpcOpcode::Handshake ==> (r matches Ok(action) ==> action is Resolve),
        opcode == IpcOpcode::Handshake ==> (r matches Ok(IpcAction::Resolve(id)) ==> Some(id@)
            == text_field(data, "client_id"@)),
        opcode == IpcOpcode::Ping && printed_bytes(data).len() <= MAX_PACKET_SIZE ==> {
            &&& r matches Ok(IpcAction::Reply { packets, activity })
            &&& activity is None
            &&& packets@.len() == 1
            &&& packets@[0]@ == framed(IpcOpcode::Pong, printed_bytes(data))
        },
        opcode == IpcOpcode::Pong ==> {
            &&& r matches Ok(IpcAction::Reply { packets, activity })
            &&& activity is None
            &&& packets@.len() == 0
        },
        opcode == IpcOpcode::Close ==> {
            &&& r matches Ok(IpcAction::End { packets })
            &&& packets@.len() == 0
        },
{
    if opcode == IpcOpcode::Ping && printed_bytes(data).len() <= MAX_PACKET_SIZE {
        let values = seq![data];
        assert(all_fit(IpcOpcode::Pong, values));
        assert(packets_of(IpcOpcode::Pong, values).len() == 1);
        assert(packets_of(IpcOpcode::Pong, values)[0] == framed(
            IpcOpcode::Pong,
            printed_bytes(data),
        ));
        if let Ok(IpcAction::Reply { packets, activity }) = r {
            assert(packet_bytes(packets@).len() == 1);
            assert(packet_bytes(packets@)[0] == packets@[0]@);
        }
    } else if opcode == IpcOpcode::Pong {
        assert(all_fit(IpcOpcode::Pong, Seq::empty()));
        if let Ok(IpcAction::Reply { packets, activity }) = r {
            assert(packet_bytes(packets@).len() == packets_of(
                IpcOpcode::Pong,
                Seq::empty(),
            ).len());
        }
    }
}

/// A frame before the handshake ends the connection with one packet that closes
/// it, with the code 1003 and the reason.
pub proof fn frames_need_a_handshake(data: JsonModel, r: Result<IpcAction, IpcError>)
    requires
        is_packet_outcome(None, IpcOpcode::Frame, data, r),
        r is Ok,
    ensures
        r matches Ok(IpcAction::End { packets }) && packets@.len() == 1 && packets@[0]@ == framed(
            IpcOpcode::Close,
            printed_bytes(handshake_missing()),
        ),
        field(handshake_missing(), "code"@) == Some(JsonModel::Number(NumberModel::Integer(1003))),
        text_field(handshake_missing(), "message"@) == Some("need to handshake first"@),
{
    reveal_strlit("code");
    reveal_strlit("message");
    assert("code"@.len() != "message"@.len());
    let values = seq![handshake_missing()];
    if let Ok(IpcAction::End { packets }) = r {
        assert(packet_bytes(packets@).len() == packets_of(IpcOpcode::Close, values).len());
        assert(packet_bytes(packets@)[0] == packets@[0]@);
        assert(encoded(IpcOpcode::Close, values[0]) is Some);
        assert(packets_of(IpcOpcode::Close, values)[0] == encoded(
            IpcOpcode::Close,
            handshake_missing(),
        )->0);
    }
}

/// A frame of a client that has shaken hands leads to what its payload leads to:
/// its replies are written as frames and its news go to the bridge.
pub proof fn frames_carry_commands(
    session: SessionModel,
    data: JsonModel,
    r: Result<IpcAction, IpcError>,
)
    requires
        is_packet_outcome(Some(session), IpcOpcode::Frame, data, r),
        r is Ok,
    ensures
        ({
            let effects = payload_effects(session, DefaultRpcActionHandler, data);
            &&& r matches Ok(IpcAction::Reply { packets, activity })
            &&& opt_json(activity) == effects.activity
            &&& packets@.len() == effects.replies.len()
            &&& forall|i: int|
                0 <= i < packets@.len() ==> (#[trigger] packets@[i])@ == framed(
                    IpcOpcode::Frame,
                    printed_bytes(effects.replies[i]),
                )
        }),
{
    let values = payload_effects(session, DefaultRpcActionHandler, data).replies;
    if let Ok(IpcAction::Reply { packets, activity }) = r {
        assert(packet_bytes(packets@).len() == packets_of(IpcOpcode::Frame, values).len());
        assert forall|i: int| 0 <= i < packets@.len() implies (#[trigger] packets@[i])@ == framed(
            IpcOpcode::Frame,
            printed_bytes(values[i]),
        ) by {
            assert(packet_bytes(packets@)[i] == packets@[i]@);
            assert(encoded(IpcOpcode::Frame, values[i]) is Some);
            assert(packets_of(IpcOpcode::Frame, values)[i] == encoded(
                IpcOpcode::Frame,
                values[i],
            )->0);
        }
    }
}

/// Only a frame of a client that has shaken hands changes its session, and it
/// changes it as its payload does.
pub proof fn only_frames_change_sessions(
    session: SessionModel,
    opcode: IpcOpcode,
    data: JsonModel,
)
    ensures
        after_packet(None, opcode, data) is None,
        opcode == IpcOpcode::Frame ==> after_packet(Some(session), opcode, data) == Some(
            after_payload(session, data),
        ),
        opcode != IpcOpcode::Frame ==> after_packet(Some(session), opcode, data) == Some(session),
{
}

} // verus!
