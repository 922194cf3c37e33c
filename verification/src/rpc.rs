//! The RPC protocol: who may connect, and what a client's commands answer and
//! publish.
use vstd::prelude::*;

use crate::json::{
    entries_model, field, field_or_null, i64_of, integer, items_model,
    json_model, parsed_text, printed_text, text_field, Json, JsonError, JsonModel, JsonNumber,
    JsonObject, NumberModel,
};
use crate::text::{
    char_seqs, chars_of, contains, decimal, decimal_text, find, find_last, first_index,
    last_value, lemma_first_index, numbers_are_read_back, occurs_at, opt_str, opt_text,
    parse_unsigned, parsed_unsigned, pieces_follow_each_other, same_text, split_chars, split_on,
    string_of, texts,
};

verus! {

// ---------------------------------------------------------------------------
// Messages
// ---------------------------------------------------------------------------
/// The reply to the command `cmd`.
pub open spec fn reply_message(
    cmd: Seq<char>,
    data: JsonModel,
    evt: JsonModel,
    nonce: JsonModel,
) -> JsonModel {
    JsonModel::Object(map!["cmd"@ => JsonModel::Text(cmd), "data"@ => data, "evt"@ => evt, "nonce"@ => nonce])
}

/// What the bridge is told of the activity of one socket.
pub open spec fn activity_message(
    activity: JsonModel,
    pid: JsonModel,
    socket_id: Seq<char>,
) -> JsonModel {
    JsonModel::Object(
        map!["activity"@ => activity, "pid"@ => pid, "socketId"@ => JsonModel::Text(socket_id)],
    )
}

/// The message tells of this socket and this activity.
pub proof fn lemma_activity_message(activity: JsonModel, pid: JsonModel, socket_id: Seq<char>)
    ensures
        text_field(activity_message(activity, pid, socket_id), "socketId"@) == Some(socket_id),
        field(activity_message(activity, pid, socket_id), "activity"@) == Some(activity),
        field(activity_message(activity, pid, socket_id), "pid"@) == Some(pid),
{
    reveal_strlit("activity");
    reveal_strlit("pid");
    reveal_strlit("socketId");
    assert("activity"@[0] != "socketId"@[0]);
}

fn reply(cmd: &str, data: Json, evt: Json, nonce: Json) -> (r: Json)
    ensures
        r@ == reply_message(cmd@, data@, evt@, nonce@),
{
    Json::Object(
        JsonObject::new().with("cmd", Json::text(cmd)).with("data", data).with("evt", evt).with(
            "nonce",
            nonce,
        ),
    )
}

/// The message that tells the bridge of the activity of one socket.
pub fn activity_payload(activity: Json, pid: Json, socket_id: &str) -> (r: Json)
    ensures
        r@ == activity_message(activity@, pid@, socket_id@),
{
    Json::Object(
        JsonObject::new().with("activity", activity).with("pid", pid).with(
            "socketId",
            Json::text(socket_id),
        ),
    )
}

/// The user that the server presents itself as.
pub open spec fn ready_user() -> JsonModel {
    JsonModel::Object(
        map![
            "id"@ => JsonModel::Text("1045800378228281345"@),
            "username"@ => JsonModel::Text("arrpc"@),
            "discriminator"@ => JsonModel::Text("0"@),
            "global_name"@ => JsonModel::Text("arRPC"@),
            "avatar"@ => JsonModel::Text("cfefa4d9839fb4bdf030f91c2a13e95c"@),
            "avatar_decoration_data"@ => JsonModel::Null,
            "bot"@ => JsonModel::Bool(false),
            "flags"@ => integer(0),
            "premium_type"@ => integer(0),
        ],
    )
}

/// The message that greets a client.
pub open spec fn ready_message() -> JsonModel {
    reply_message(
        "DISPATCH"@,
        JsonModel::Object(
            map![
                "v"@ => integer(1),
                "config"@ => JsonModel::Object(
                    map![
                        "cdn_host"@ => JsonModel::Text("cdn.discordapp.com"@),
                        "api_endpoint"@ => JsonModel::Text("//discord.com/api"@),
                        "environment"@ => JsonModel::Text("production"@),
                    ],
                ),
                "user"@ => ready_user(),
            ],
        ),
        JsonModel::Text("READY"@),
        JsonModel::Null,
    )
}

/// The message that greets a client.
pub fn rpc_ready_payload() -> (r: Json)
    ensures
        r@ == ready_message(),
{
    let user = JsonObject::new().with("id", Json::text("1045800378228281345")).with(
        "username",
        Json::text("arrpc"),
    ).with("discriminator", Json::text("0")).with("global_name", Json::text("arRPC")).with(
        "avatar",
        Json::text("cfefa4d9839fb4bdf030f91c2a13e95c"),
    ).with("avatar_decoration_data", Json::Null).with("bot", Json::Bool(false)).with(
        "flags",
        Json::unsigned(0),
    ).with("premium_type", Json::unsigned(0));
    let config = JsonObject::new().with("cdn_host", Json::text("cdn.discordapp.com")).with(
        "api_endpoint",
        Json::text("//discord.com/api"),
    ).with("environment", Json::text("production"));
    let data = JsonObject::new().with("v", Json::unsigned(1)).with(
        "config",
        Json::Object(config),
    ).with("user", Json::Object(user));
    reply("DISPATCH", Json::Object(data), Json::text("READY"), Json::Null)
}

// ---------------------------------------------------------------------------
// Effects and actions
// ---------------------------------------------------------------------------
/// What a command leads to: replies to the client, and news for the bridge.
#[derive(Debug)]
pub struct RpcEffects {
    pub replies: Vec<Json>,
    pub activity: Option<Json>,
}

/// What [`RpcEffects`] stand for.
pub struct EffectsModel {
    pub replies: Seq<JsonModel>,
    pub activity: Option<JsonModel>,
}

/// What an optional value stands for.
pub open spec fn opt_json(json: Option<Json>) -> Option<JsonModel> {
    match json {
        Some(value) => Some(value@),
        None => None,
    }
}

impl View for RpcEffects {
    type V = EffectsModel;

    open spec fn view(&self) -> EffectsModel {
        EffectsModel { replies: items_model(self.replies@), activity: opt_json(self.activity) }
    }
}

/// One reply and no news.
pub open spec fn only_reply(message: JsonModel) -> EffectsModel {
    EffectsModel { replies: seq![message], activity: None }
}

/// Neither replies nor news.
pub open spec fn no_effects() -> EffectsModel {
    EffectsModel { replies: Seq::empty(), activity: None }
}

impl RpcEffects {
    fn of(message: Json, activity: Option<Json>) -> (r: RpcEffects)
        ensures
            r@ == (EffectsModel { replies: seq![message@], activity: opt_json(activity) }),
    {
        let mut replies: Vec<Json> = Vec::new();
        replies.push(message);
        assert(items_model(replies@) =~= seq![message@]);
        RpcEffects { replies, activity }
    }

    fn none() -> (r: RpcEffects)
        ensures
            r@ == no_effects(),
    {
        let replies: Vec<Json> = Vec::new();
        assert(items_model(replies@) =~= Seq::<JsonModel>::empty());
        RpcEffects { replies, activity: None }
    }
}

/// What the host does on the commands that ask for something outside the protocol.
pub trait RpcActionHandler {
    /// What [`RpcActionHandler::invite_browser`] leads to.
    spec fn invite_effects(&self, code: JsonModel, nonce: JsonModel) -> EffectsModel;

    /// What [`RpcActionHandler::guild_template_browser`] leads to.
    spec fn template_effects(&self, code: JsonModel, nonce: JsonModel) -> EffectsModel;

    /// What [`RpcActionHandler::deep_link`] leads to.
    spec fn link_effects(&self, nonce: JsonModel) -> EffectsModel;

    fn invite_browser(&self, code: Json, nonce: Json) -> (r: RpcEffects)
        ensures
            r@ == self.invite_effects(code@, nonce@),
    ;

    fn guild_template_browser(&self, code: Json, nonce: Json) -> (r: RpcEffects)
        ensures
            r@ == self.template_effects(code@, nonce@),
    ;

    fn deep_link(&self, nonce: Json) -> (r: RpcEffects)
        ensures
            r@ == self.link_effects(nonce@),
    ;
}

/// The handler that acknowledges every request and does nothing else.
#[derive(Debug)]
pub struct DefaultRpcActionHandler;

/// The acknowledgement of `cmd` with the code it was given.
pub open spec fn code_ack(cmd: Seq<char>, code: JsonModel, nonce: JsonModel) -> EffectsModel {
    only_reply(
        reply_message(
            cmd,
            JsonModel::Object(map!["code"@ => code]),
            JsonModel::Null,
            nonce,
        ),
    )
}

fn ack_code(cmd: &str, code: Json, nonce: Json) -> (r: RpcEffects)
    ensures
        r@ == code_ack(cmd@, code@, nonce@),
{
    let data = Json::Object(JsonObject::new().with("code", code));
    RpcEffects::of(reply(cmd, data, Json::Null, nonce), None)
}

impl RpcActionHandler for DefaultRpcActionHandler {
    open spec fn invite_effects(&self, code: JsonModel, nonce: JsonModel) -> EffectsModel {
        code_ack("INVITE_BROWSER"@, code, nonce)
    }

    open spec fn template_effects(&self, code: JsonModel, nonce: JsonModel) -> EffectsModel {
        code_ack("GUILD_TEMPLATE_BROWSER"@, code, nonce)
    }

    open spec fn link_effects(&self, nonce: JsonModel) -> EffectsModel {
        only_reply(reply_message("DEEP_LINK"@, JsonModel::Null, JsonModel::Null, nonce))
    }

    fn invite_browser(&self, code: Json, nonce: Json) -> (r: RpcEffects) {
        ack_code("INVITE_BROWSER", code, nonce)
    }

    fn guild_template_browser(&self, code: Json, nonce: Json) -> (r: RpcEffects) {
        ack_code("GUILD_TEMPLATE_BROWSER", code, nonce)
    }

    fn deep_link(&self, nonce: Json) -> (r: RpcEffects) {
        RpcEffects::of(reply("DEEP_LINK", Json::Null, Json::Null, nonce), None)
    }
}

// ---------------------------------------------------------------------------
// Activities
// ---------------------------------------------------------------------------
/// Timestamps below this bound count seconds; the others count milliseconds.
pub const SECONDS_BOUND: i64 = 10_000_000_000;

/// A timestamp in milliseconds. The product wraps around where it leaves 64 bits.
pub open spec fn in_milliseconds(value: JsonModel) -> JsonModel {
    match i64_of(value) {
        Some(t) if t < SECONDS_BOUND => integer(t.wrapping_mul(1000) as int),
        _ => value,
    }
}

/// An activity with its timestamps in milliseconds.
pub open spec fn with_millisecond_timestamps(activity: Map<Seq<char>, JsonModel>) -> Map<
    Seq<char>,
    JsonModel,
> {
    if activity.contains_key("timestamps"@) && activity["timestamps"@] is Object {
        activity.insert(
            "timestamps"@,
            JsonModel::Object(
                activity["timestamps"@]->Object_0.map_values(|v: JsonModel| in_milliseconds(v)),
            ),
        )
    } else {
        activity
    }
}

/// The values of the field `key` in those of `items` that have it, in order.
pub open spec fn collected(items: Seq<JsonModel>, key: Seq<char>) -> Seq<JsonModel>
    decreases items.len(),
{
    if items.len() == 0 {
        Seq::empty()
    } else {
        let before = collected(items.drop_last(), key);
        match field(items.last(), key) {
            Some(value) => before.push(value),
            None => before,
        }
    }
}

/// The buttons of an activity, where they are an array.
pub open spec fn buttons_of(activity: Map<Seq<char>, JsonModel>) -> Option<Seq<JsonModel>> {
    if activity.contains_key("buttons"@) && activity["buttons"@] is Array {
        Some(activity["buttons"@]->Array_0)
    } else {
        None
    }
}

/// The metadata of an activity: the addresses of its buttons.
pub open spec fn activity_metadata(activity: Map<Seq<char>, JsonModel>) -> JsonModel {
    match buttons_of(activity) {
        Some(buttons) => JsonModel::Object(
            map!["button_urls"@ => JsonModel::Array(collected(buttons, "url"@))],
        ),
        None => JsonModel::Object(Map::empty()),
    }
}

/// The labels of the buttons of an activity.
pub open spec fn button_labels(activity: Map<Seq<char>, JsonModel>) -> Option<JsonModel> {
    match buttons_of(activity) {
        Some(buttons) => Some(JsonModel::Array(collected(buttons, "label"@))),
        None => None,
    }
}

/// `json` in milliseconds.
fn scale_timestamp(json: &Json) -> (r: Json)
    ensures
        r@ == in_milliseconds(json@),
{
    match json.as_i64() {
        Some(t) => if t < SECONDS_BOUND {
            Json::Number(JsonNumber::Signed(t.wrapping_mul(1000)))
        } else {
            json.clone()
        },
        None => json.clone(),
    }
}

fn scale_timestamps(timestamps: &JsonObject) -> (r: JsonObject)
    ensures
        r@ == timestamps@.map_values(|v: JsonModel| in_milliseconds(v)),
{
    let ghost scale = |v: JsonModel| in_milliseconds(v);
    let mut out: Vec<(String, Json)> = Vec::new();
    let mut i: usize = 0;
    assert(entries_model(out@) =~= entries_model(timestamps.entries@.take(0)).map_values(scale));
    while i < timestamps.entries.len()
        invariant
            scale == (|v: JsonModel| in_milliseconds(v)),
            i <= timestamps.entries@.len(),
            entries_model(out@) == entries_model(timestamps.entries@.take(i as int)).map_values(
                scale,
            ),
        decreases timestamps.entries@.len() - i,
    {
        let ghost before = out@;
        out.push((timestamps.entries[i].0.clone(), scale_timestamp(&timestamps.entries[i].1)));
        assert(out@.drop_last() =~= before);
        assert(timestamps.entries@.take(i + 1).drop_last() =~= timestamps.entries@.take(i as int));
        assert(entries_model(out@) =~= entries_model(timestamps.entries@.take(i + 1)).map_values(
            scale,
        ));
        i += 1;
    }
    assert(timestamps.entries@.take(i as int) =~= timestamps.entries@);
    JsonObject { entries: out }
}

fn normalize_timestamps(activity: &mut JsonObject)
    ensures
        final(activity)@ == with_millisecond_timestamps(old(activity)@),
{
    let scaled = match activity.get("timestamps") {
        Some(Json::Object(timestamps)) => Some(scale_timestamps(timestamps)),
        _ => None,
    };
    if let Some(timestamps) = scaled {
        activity.insert("timestamps", Json::Object(timestamps));
    }
}

fn collect_values(items: &Vec<Json>, key: &str) -> (r: Vec<Json>)
    ensures
        items_model(r@) == collected(items_model(items@), key@),
{
    let mut out: Vec<Json> = Vec::new();
    let mut i: usize = 0;
    assert(items_model(out@) =~= collected(items_model(items@.take(0)), key@));
    while i < items.len()
        invariant
            i <= items@.len(),
            items_model(out@) == collected(items_model(items@.take(i as int)), key@),
        decreases items@.len() - i,
    {
        assert(items_model(items@.take(i + 1)).drop_last() =~= items_model(items@.take(i as int)));
        assert(items_model(items@.take(i + 1)).last() == json_model(items@[i as int]));
        if let Some(value) = items[i].get(key) {
            let ghost before = out@;
            out.push(value.clone());
            assert(items_model(out@) =~= items_model(before).push(value@));
        }
        i += 1;
    }
    assert(items@.take(i as int) =~= items@);
    out
}

fn build_metadata(activity: &JsonObject) -> (r: Json)
    ensures
        r@ == activity_metadata(activity@),
{
    match activity.get("buttons") {
        Some(Json::Array(buttons)) => Json::Object(
            JsonObject::new().with("button_urls", Json::Array(collect_values(buttons, "url"))),
        ),
        _ => Json::Object(JsonObject::new()),
    }
}

fn build_button_labels(activity: &JsonObject) -> (r: Option<Json>)
    ensures
        opt_json(r) == button_labels(activity@),
{
    match activity.get("buttons") {
        Some(Json::Array(buttons)) => Some(Json::Array(collect_values(buttons, "label"))),
        _ => None,
    }
}

// ---------------------------------------------------------------------------
// Sessions
// ---------------------------------------------------------------------------
/// One client of the server.
#[derive(Debug)]
pub struct RpcSession<A: RpcActionHandler> {
    pub socket_id: String,
    pub client_id: String,
    pub client_name: Option<String>,
    pub last_pid: Option<Json>,
    pub actions: A,
}

/// What a session knows.
pub struct SessionModel {
    pub socket_id: Seq<char>,
    pub client_id: Seq<char>,
    pub client_name: Option<Seq<char>>,
    pub last_pid: Option<JsonModel>,
}

impl<A: RpcActionHandler> View for RpcSession<A> {
    type V = SessionModel;

    open spec fn view(&self) -> SessionModel {
        SessionModel {
            socket_id: self.socket_id@,
            client_id: self.client_id@,
            client_name: opt_text(self.client_name),
            last_pid: opt_json(self.last_pid),
        }
    }
}

/// The name of the client's application, empty where it is not known.
pub open spec fn shown_name(session: SessionModel) -> JsonModel {
    JsonModel::Text(
        match session.client_name {
            Some(name) => name,
            None => Seq::empty(),
        },
    )
}

/// The fields of an activity as the server works on them.
pub open spec fn activity_fields(activity: JsonModel) -> Map<Seq<char>, JsonModel> {
    match activity {
        JsonModel::Object(map) => with_millisecond_timestamps(map),
        _ => with_millisecond_timestamps(Map::empty()),
    }
}

/// Whether an activity says that it is an instance.
pub open spec fn is_instance(activity: Map<Seq<char>, JsonModel>) -> bool {
    activity.contains_key("instance"@) && activity["instance"@] == JsonModel::Bool(true)
}

/// The activity that the bridge is given: what the client said of it over what
/// the server knows, and labels in place of buttons.
pub open spec fn published_activity(
    session: SessionModel,
    activity: Map<Seq<char>, JsonModel>,
) -> JsonModel {
    let known = map![
        "application_id"@ => JsonModel::Text(session.client_id),
        "type"@ => integer(0),
        "name"@ => shown_name(session),
        "metadata"@ => activity_metadata(activity),
        "flags"@ => integer(if is_instance(activity) { 1 } else { 0 }),
    ];
    let merged = known.union_prefer_right(activity);
    JsonModel::Object(
        match button_labels(activity) {
            Some(labels) => merged.insert("buttons"@, labels),
            None => merged,
        },
    )
}

/// The activity that the client is told of: what it said, with the name and
/// the id that the server knows.
pub open spec fn confirmed_activity(
    session: SessionModel,
    activity: Map<Seq<char>, JsonModel>,
) -> JsonModel {
    JsonModel::Object(
        activity.insert("name"@, shown_name(session)).insert(
            "application_id"@,
            JsonModel::Text(session.client_id),
        ).insert("type"@, integer(0)),
    )
}

/// What the command `SET_ACTIVITY` leads to.
pub open spec fn set_activity_effects(
    session: SessionModel,
    args: JsonModel,
    nonce: JsonModel,
) -> EffectsModel {
    let activity = field_or_null(args, "activity"@);
    let pid = field_or_null(args, "pid"@);
    if activity is Null {
        EffectsModel {
            replies: seq![
                reply_message("SET_ACTIVITY"@, JsonModel::Null, JsonModel::Null, nonce),
            ],
            activity: Some(activity_message(JsonModel::Null, pid, session.socket_id)),
        }
    } else {
        let fields = activity_fields(activity);
        EffectsModel {
            replies: seq![
                reply_message(
                    "SET_ACTIVITY"@,
                    confirmed_activity(session, fields),
                    JsonModel::Null,
                    nonce,
                ),
            ],
            activity: Some(
                activity_message(published_activity(session, fields), pid, session.socket_id),
            ),
        }
    }
}

/// The session after the command `SET_ACTIVITY`: it remembers the process of
/// the last activity that named one.
pub open spec fn after_set_activity(session: SessionModel, args: JsonModel) -> SessionModel {
    let pid = field_or_null(args, "pid"@);
    if field_or_null(args, "activity"@) is Null || pid is Null {
        session
    } else {
        SessionModel { last_pid: Some(pid), ..session }
    }
}

/// The command of a payload, empty where it has none.
pub open spec fn command_of(payload: JsonModel) -> Seq<char> {
    match text_field(payload, "cmd"@) {
        Some(cmd) => cmd,
        None => Seq::empty(),
    }
}

/// The arguments of a payload, an empty object where it has none.
pub open spec fn args_of(payload: JsonModel) -> JsonModel {
    match field(payload, "args"@) {
        Some(args) => args,
        None => JsonModel::Object(Map::empty()),
    }
}

/// What a payload leads to.
pub open spec fn payload_effects<A: RpcActionHandler>(
    session: SessionModel,
    actions: A,
    payload: JsonModel,
) -> EffectsModel {
    let cmd = command_of(payload);
    let args = args_of(payload);
    let nonce = field_or_null(payload, "nonce"@);
    if cmd == "CONNECTIONS_CALLBACK"@ {
        only_reply(
            reply_message(
                cmd,
                JsonModel::Object(map!["code"@ => integer(1000)]),
                JsonModel::Text("ERROR"@),
                nonce,
            ),
        )
    } else if cmd == "SET_ACTIVITY"@ {
        set_activity_effects(session, args, nonce)
    } else if cmd == "INVITE_BROWSER"@ {
        actions.invite_effects(field_or_null(args, "code"@), nonce)
    } else if cmd == "GUILD_TEMPLATE_BROWSER"@ {
        actions.template_effects(field_or_null(args, "code"@), nonce)
    } else if cmd == "DEEP_LINK"@ {
        actions.link_effects(nonce)
    } else {
        no_effects()
    }
}

/// The session after a payload: only `SET_ACTIVITY` changes it.
pub open spec fn after_payload(session: SessionModel, payload: JsonModel) -> SessionModel {
    let cmd = command_of(payload);
    if cmd == "SET_ACTIVITY"@ && cmd != "CONNECTIONS_CALLBACK"@ {
        after_set_activity(session, args_of(payload))
    } else {
        session
    }
}

/// What the bridge is told when the client has gone.
pub open spec fn close_message(session: SessionModel) -> JsonModel {
    activity_message(
        JsonModel::Null,
        match session.last_pid {
            Some(pid) => pid,
            None => JsonModel::Null,
        },
        session.socket_id,
    )
}

/// [`RpcEffects`] with the replies as text.
#[derive(Debug)]
pub struct TextEffects {
    pub replies: Vec<String>,
    pub activity: Option<Json>,
}

/// What is written for each of `values`.
pub open spec fn printed_texts(values: Seq<JsonModel>) -> Seq<Seq<char>> {
    values.map_values(|value: JsonModel| printed_text(value))
}

impl TextEffects {
    /// The replies are those of `effects` as text, and the news are the same.
    pub open spec fn stands_for(self, effects: EffectsModel) -> bool {
        &&& texts(self.replies@) == printed_texts(effects.replies)
        &&& opt_json(self.activity) == effects.activity
    }
}

impl RpcSession<DefaultRpcActionHandler> {
    /// A session whose requests to the host are acknowledged and nothing more.
    pub fn new(socket_id: String, client_id: String, client_name: Option<String>) -> (r: Self)
        ensures
            r@ == (SessionModel {
                socket_id: socket_id@,
                client_id: client_id@,
                client_name: opt_text(client_name),
                last_pid: None,
            }),
    {
        RpcSession::with_actions_and_name(socket_id, client_id, client_name, DefaultRpcActionHandler)
    }
}

impl<A: RpcActionHandler> RpcSession<A> {
    /// A session whose requests to the host go to `actions`.
    pub fn with_actions_and_name(
        socket_id: String,
        client_id: String,
        client_name: Option<String>,
        actions: A,
    ) -> (r: Self)
        ensures
            r@ == (SessionModel {
                socket_id: socket_id@,
                client_id: client_id@,
                client_name: opt_text(client_name),
                last_pid: None,
            }),
            r.actions == actions,
    {
        RpcSession { socket_id, client_id, client_name, last_pid: None, actions }
    }

    fn name_value(&self) -> (r: Json)
        ensures
            r@ == shown_name(self@),
    {
        match &self.client_name {
            Some(name) => Json::Text(name.clone()),
            None => Json::Text(String::new()),
        }
    }

    fn handle_set_activity(&mut self, args: &Json, nonce: Json) -> (r: RpcEffects)
        ensures
            r@ == set_activity_effects(old(self)@, args@, nonce@),
            final(self)@ == after_set_activity(old(self)@, args@),
            final(self).actions == old(self).actions,
    {
        let activity = args.get_or_null("activity");
        let pid = args.get_or_null("pid");
        if activity.is_null() {
            let news = activity_payload(Json::Null, pid, self.socket_id.as_str());
            return RpcEffects::of(
                reply("SET_ACTIVITY", Json::Null, Json::Null, nonce),
                Some(news),
            );
        }
        if !pid.is_null() {
            self.last_pid = Some(pid.clone());
        }
        let mut fields = match activity {
            Json::Object(object) => object,
            _ => JsonObject::new(),
        };
        normalize_timestamps(&mut fields);

        let metadata = build_metadata(&fields);
        let labels = build_button_labels(&fields);
        let instance = match fields.get("instance") {
            Some(Json::Bool(b)) => *b,
            _ => false,
        };
        let flags: u64 = if instance {
            1
        } else {
            0
        };
        let mut published = JsonObject::new().with(
            "application_id",
            Json::Text(self.client_id.clone()),
        ).with("type", Json::unsigned(0)).with("name", self.name_value()).with(
            "metadata",
            metadata,
        ).with("flags", Json::unsigned(flags));
        published.extend(&fields);
        if let Some(labels) = labels {
            published.insert("buttons", labels);
        }
        let confirmed = fields.with("name", self.name_value()).with(
            "application_id",
            Json::Text(self.client_id.clone()),
        ).with("type", Json::unsigned(0));

        let news = activity_payload(Json::Object(published), pid, self.socket_id.as_str());
        RpcEffects::of(
            reply("SET_ACTIVITY", Json::Object(confirmed), Json::Null, nonce),
            Some(news),
        )
    }

    /// Carries out a payload of the client.
    pub fn handle_payload(&mut self, payload: &Json) -> (r: RpcEffects)
        ensures
            r@ == payload_effects(old(self)@, old(self).actions, payload@),
            final(self)@ == after_payload(old(self)@, payload@),
            final(self).actions == old(self).actions,
    {
        let cmd: String = match payload.get_str("cmd") {
            Some(cmd) => cmd.to_string(),
            None => String::new(),
        };
        let args = match payload.get("args") {
            Some(args) => args.clone(),
            None => Json::Object(JsonObject::new()),
        };
        let nonce = payload.get_or_null("nonce");
        if same_text(cmd.as_str(), "CONNECTIONS_CALLBACK") {
            let data = Json::Object(JsonObject::new().with("code", Json::unsigned(1000)));
            RpcEffects::of(reply(cmd.as_str(), data, Json::text("ERROR"), nonce), None)
        } else if same_text(cmd.as_str(), "SET_ACTIVITY") {
            self.handle_set_activity(&args, nonce)
        } else if same_text(cmd.as_str(), "INVITE_BROWSER") {
            self.actions.invite_browser(args.get_or_null("code"), nonce)
        } else if same_text(cmd.as_str(), "GUILD_TEMPLATE_BROWSER") {
            self.actions.guild_template_browser(args.get_or_null("code"), nonce)
        } else if same_text(cmd.as_str(), "DEEP_LINK") {
            self.actions.deep_link(nonce)
        } else {
            RpcEffects::none()
        }
    }

    /// Carries out a text message of the client, and writes the replies as text.
    pub fn handle_text(&mut self, text: &str) -> (r: Result<TextEffects, JsonError>)
        ensures
            final(self).actions == old(self).actions,
            match parsed_text(text@) {
                Some(payload) => {
                    &&& r matches Ok(effects) && effects.stands_for(
                        payload_effects(old(self)@, old(self).actions, payload),
                    )
                    &&& final(self)@ == after_payload(old(self)@, payload)
                },
                None => r matches Err(JsonError::Malformed(_)) && final(self)@ == old(self)@,
            },
    {
        let payload = match Json::parse(text) {
            Ok(payload) => payload,
            Err(error) => {
                return Err(error);
            },
        };
        let effects = self.handle_payload(&payload);
        let mut replies: Vec<String> = Vec::new();
        let mut i: usize = 0;
        while i < effects.replies.len()
            invariant
                i <= effects.replies@.len(),
                replies@.len() == i,
                forall|j: int|
                    0 <= j < i ==> (#[trigger] replies@[j])@ == printed_text(
                        json_model(effects.replies@[j]),
                    ),
            decreases effects.replies@.len() - i,
        {
            match effects.replies[i].print() {
                Ok(reply) => replies.push(reply),
                Err(error) => {
                    return Err(error);
                },
            }
            i += 1;
        }
        assert(texts(replies@) =~= printed_texts(items_model(effects.replies@)));
        Ok(TextEffects { replies, activity: effects.activity })
    }

    /// What the bridge is told when the client has gone.
    pub fn close_activity(&self) -> (r: Json)
        ensures
            r@ == close_message(self@),
    {
        let pid = match &self.last_pid {
            Some(pid) => pid.clone(),
            None => Json::Null,
        };
        activity_payload(Json::Null, pid, self.socket_id.as_str())
    }
}

// ---------------------------------------------------------------------------
// Connecting
// ---------------------------------------------------------------------------
/// The origins of pages that may connect.
pub open spec fn is_allowed_origin(origin: Seq<char>) -> bool {
    origin == "https://discord.com"@ || origin == "https://ptb.discord.com"@ || origin
        == "https://canary.discord.com"@
}

/// A piece of a query as a key and a value: cut at the first equals sign, or
/// all key without one.
pub open spec fn query_pair(piece: Seq<char>) -> (Seq<char>, Seq<char>) {
    match first_index(piece, seq!['=']) {
        Some(i) => (piece.take(i), piece.skip(i + 1)),
        None => (piece, Seq::empty()),
    }
}

/// The value of `key` among the pieces of a query: the last one where it
/// occurs twice. Empty pieces do not count.
pub open spec fn value_in(pieces: Seq<Seq<char>>, key: Seq<char>) -> Option<Seq<char>>
    decreases pieces.len(),
{
    if pieces.len() == 0 {
        None
    } else if pieces.last().len() > 0 && query_pair(pieces.last()).0 == key {
        Some(query_pair(pieces.last()).1)
    } else {
        value_in(pieces.drop_last(), key)
    }
}

/// The value of `key` in a query.
pub open spec fn query_value(query: Seq<char>, key: Seq<char>) -> Option<Seq<char>> {
    value_in(split_on(query, '&'), key)
}

/// `value`, or `default` where there is none.
pub open spec fn value_or(value: Option<Seq<char>>, default: Seq<char>) -> Seq<char> {
    match value {
        Some(text) => text,
        None => default,
    }
}

/// The client id of a request that is accepted, or why it is refused.
pub open spec fn request_outcome(origin: Option<Seq<char>>, query: Seq<char>) -> Result<
    Seq<char>,
    Seq<char>,
> {
    let encoding = value_or(query_value(query, "encoding"@), "json"@);
    if origin is Some && !is_allowed_origin(origin->0) {
        Err("disallowed origin: "@ + origin->0)
    } else {
        match parsed_unsigned(value_or(query_value(query, "v"@), "1"@), u8::MAX as nat) {
            None => Err("unsupported version requested"@),
            Some(version) => if version != 1 {
                Err("unsupported version requested: "@ + decimal(version))
            } else if encoding != "json"@ {
                Err("unsupported encoding requested: "@ + encoding)
            } else {
                Ok(value_or(query_value(query, "client_id"@), Seq::empty()))
            },
        }
    }
}

/// The keys and values of a query.
pub fn parse_query(query: &str) -> (r: Vec<(String, String)>)
    ensures
        forall|key: Seq<char>| #[trigger] last_value(r@, key) == query_value(query@, key),
{
    let pieces = split_chars(chars_of(query).as_slice(), '&');
    let mut pairs: Vec<(String, String)> = Vec::new();
    let mut equals: Vec<char> = Vec::new();
    equals.push('=');
    assert(equals@ =~= seq!['=']);
    let mut i: usize = 0;
    assert(char_seqs(pieces@.take(0)) =~= Seq::<Seq<char>>::empty());
    while i < pieces.len()
        invariant
            i <= pieces@.len(),
            equals@ == seq!['='],
            forall|key: Seq<char>| #[trigger]
                last_value(pairs@, key) == value_in(char_seqs(pieces@.take(i as int)), key),
        decreases pieces@.len() - i,
    {
        let ghost before = pairs@;
        assert(char_seqs(pieces@.take(i + 1)).drop_last() =~= char_seqs(pieces@.take(i as int)));
        let piece = pieces[i].as_slice();
        assert(char_seqs(pieces@.take(i + 1)).last() == piece@);
        if piece.len() > 0 {
            match find(piece, equals.as_slice()) {
                Some(at) => {
                    assert(piece@.take(at as int) =~= piece@.subrange(0, at as int));
                    assert(piece@.skip(at + 1) =~= piece@.subrange(at + 1, piece@.len() as int));
                    pairs.push((string_of(&piece[0..at]), string_of(&piece[at + 1..piece.len()])));
                },
                None => {
                    pairs.push((string_of(piece), String::new()));
                },
            }
            assert(pairs@.drop_last() =~= before);
            assert((pairs@.last().0@, pairs@.last().1@) == query_pair(piece@));
        }
        assert forall|key: Seq<char>| #[trigger] last_value(pairs@, key) == value_in(
            char_seqs(pieces@.take(i + 1)),
            key,
        ) by {
            assert(last_value(before, key) == value_in(char_seqs(pieces@.take(i as int)), key));
        }
        i += 1;
    }
    assert(pieces@.take(i as int) =~= pieces@);
    pairs
}

/// Decides on a request to connect, by its origin and its query: the id of the
/// client, or why it is refused.
pub fn validate_rpc_request(origin: Option<&str>, query: &str) -> (r: Result<String, String>)
    ensures
        match r {
            Ok(id) => request_outcome(opt_str(origin), query@) == Ok::<Seq<char>, Seq<char>>(id@),
            Err(message) => request_outcome(opt_str(origin), query@) == Err::<Seq<char>, Seq<char>>(
                message@,
            ),
        },
{
    if let Some(origin) = origin {
        if !(same_text(origin, "https://discord.com") || same_text(
            origin,
            "https://ptb.discord.com",
        ) || same_text(origin, "https://canary.discord.com")) {
            let mut message = "disallowed origin: ".to_string();
            message.append(origin);
            return Err(message);
        }
    }
    let params = parse_query(query);
    let version_text = match find_last(&params, "v") {
        Some(value) => value,
        None => "1".to_string(),
    };
    match parse_unsigned(chars_of(version_text.as_str()).as_slice(), u8::MAX as u64) {
        None => {
            return Err("unsupported version requested".to_string());
        },
        Some(version) => {
            if version != 1 {
                let mut message = "unsupported version requested: ".to_string();
                message.append(decimal_text(version).as_str());
                return Err(message);
            }
        },
    }
    let encoding = match find_last(&params, "encoding") {
        Some(value) => value,
        None => "json".to_string(),
    };
    if !same_text(encoding.as_str(), "json") {
        let mut message = "unsupported encoding requested: ".to_string();
        message.append(encoding.as_str());
        return Err(message);
    }
    match find_last(&params, "client_id") {
        Some(value) => Ok(value),
        None => Ok(String::new()),
    }
}

// ---------------------------------------------------------------------------
// Laws
// ---------------------------------------------------------------------------
/// `cmd` is a command that the server knows.
pub open spec fn is_command(cmd: Seq<char>) -> bool {
    cmd == "CONNECTIONS_CALLBACK"@ || cmd == "SET_ACTIVITY"@ || cmd == "INVITE_BROWSER"@ || cmd
        == "GUILD_TEMPLATE_BROWSER"@ || cmd == "DEEP_LINK"@
}

/// A command that the server does not know leads to nothing and changes nothing.
pub proof fn unknown_commands_do_nothing<A: RpcActionHandler>(
    session: SessionModel,
    actions: A,
    payload: JsonModel,
)
    requires
        !is_command(command_of(payload)),
    ensures
        payload_effects(session, actions, payload) == no_effects(),
        after_payload(session, payload) == session,
{
}

proof fn lemma_reply(cmd: Seq<char>, data: JsonModel, evt: JsonModel, nonce: JsonModel)
    ensures
        text_field(reply_message(cmd, data, evt, nonce), "cmd"@) == Some(cmd),
        field(reply_message(cmd, data, evt, nonce), "data"@) == Some(data),
        field(reply_message(cmd, data, evt, nonce), "evt"@) == Some(evt),
        field(reply_message(cmd, data, evt, nonce), "nonce"@) == Some(nonce),
{
    reveal_strlit("cmd");
    reveal_strlit("data");
    reveal_strlit("evt");
    reveal_strlit("nonce");
    assert("cmd"@[0] != "evt"@[0]);
    assert("data"@.len() != "evt"@.len() && "data"@.len() != "nonce"@.len());
}

/// A command that the server knows is answered once, under its own name and
/// with the nonce of the client.
pub proof fn commands_are_answered_once(session: SessionModel, payload: JsonModel)
    requires
        is_command(command_of(payload)),
    ensures
        ({
            let effects = payload_effects(session, DefaultRpcActionHandler, payload);
            &&& effects.replies.len() == 1
            &&& text_field(effects.replies[0], "cmd"@) == Some(command_of(payload))
            &&& field(effects.replies[0], "nonce"@) == Some(field_or_null(payload, "nonce"@))
        }),
{
    let effects = payload_effects(session, DefaultRpcActionHandler, payload);
    let message = effects.replies[0];
    let cmd = command_of(payload);
    let nonce = field_or_null(payload, "nonce"@);
    let args = args_of(payload);
    let activity = field_or_null(args, "activity"@);
    lemma_reply(
        cmd,
        JsonModel::Object(map!["code"@ => integer(1000)]),
        JsonModel::Text("ERROR"@),
        nonce,
    );
    lemma_reply(cmd, JsonModel::Null, JsonModel::Null, nonce);
    lemma_reply(cmd, confirmed_activity(session, activity_fields(activity)), JsonModel::Null, nonce);
    lemma_reply(
        cmd,
        JsonModel::Object(map!["code"@ => field_or_null(args, "code"@)]),
        JsonModel::Null,
        nonce,
    );
}

/// The bridge hears of a payload if and only if it sets an activity, and then
/// of the socket of the session.
pub proof fn only_activities_reach_the_bridge(session: SessionModel, payload: JsonModel)
    ensures
        ({
            let news = payload_effects(session, DefaultRpcActionHandler, payload).activity;
            &&& news is Some <==> command_of(payload) == "SET_ACTIVITY"@
            &&& news is Some ==> text_field(news->0, "socketId"@) == Some(session.socket_id)
        }),
{
    reveal_strlit("CONNECTIONS_CALLBACK");
    reveal_strlit("SET_ACTIVITY");
    assert("CONNECTIONS_CALLBACK"@.len() != "SET_ACTIVITY"@.len());
    let args = args_of(payload);
    let activity = field_or_null(args, "activity"@);
    let pid = field_or_null(args, "pid"@);
    lemma_activity_message(JsonModel::Null, pid, session.socket_id);
    lemma_activity_message(
        published_activity(session, activity_fields(activity)),
        pid,
        session.socket_id,
    );
}

/// A timestamp in seconds becomes the same time in milliseconds, one in
/// milliseconds stays as it is.
pub proof fn timestamps_are_in_milliseconds(t: int)
    requires
        i64::MIN <= t * 1000,
        t <= i64::MAX,
    ensures
        t < SECONDS_BOUND ==> in_milliseconds(integer(t)) == integer(t * 1000),
        t >= SECONDS_BOUND ==> in_milliseconds(integer(t)) == integer(t),
{
}

/// What the client says of its activity is published, but for its buttons,
/// which become labels.
pub proof fn client_fields_are_published(
    session: SessionModel,
    activity: Map<Seq<char>, JsonModel>,
    key: Seq<char>,
)
    requires
        activity.contains_key(key),
        key != "buttons"@,
    ensures
        field(published_activity(session, activity), key) == Some(activity[key]),
{
}

/// An activity is published for the application of the client, unless the
/// client names another.
pub proof fn published_for_the_client(
    session: SessionModel,
    activity: Map<Seq<char>, JsonModel>,
)
    requires
        !activity.contains_key("application_id"@),
    ensures
        text_field(published_activity(session, activity), "application_id"@) == Some(
            session.client_id,
        ),
{
    reveal_strlit("application_id");
    reveal_strlit("type");
    reveal_strlit("name");
    reveal_strlit("metadata");
    reveal_strlit("flags");
    reveal_strlit("buttons");
    assert("application_id"@.len() != "type"@.len());
    assert("application_id"@.len() != "name"@.len());
    assert("application_id"@.len() != "metadata"@.len());
    assert("application_id"@.len() != "flags"@.len());
    assert("application_id"@.len() != "buttons"@.len());
}

/// The client is told the id and the name that the server knows, whatever it
/// has said itself.
pub proof fn confirmed_with_known_name(
    session: SessionModel,
    activity: Map<Seq<char>, JsonModel>,
)
    ensures
        text_field(confirmed_activity(session, activity), "application_id"@) == Some(
            session.client_id,
        ),
        field(confirmed_activity(session, activity), "name"@) == Some(shown_name(session)),
        field(confirmed_activity(session, activity), "type"@) == Some(integer(0)),
{
    reveal_strlit("application_id");
    reveal_strlit("type");
    reveal_strlit("name");
    assert("type"@[0] != "name"@[0]);
}

/// The process that a session is to remember by a payload: that of an activity
/// that is set with one. A missing or null activity names none, and neither
/// does a missing or null process.
pub open spec fn named_process(payload: JsonModel) -> Option<JsonModel> {
    let pid = field_or_null(args_of(payload), "pid"@);
    if command_of(payload) == "SET_ACTIVITY"@ && !(field_or_null(
        args_of(payload),
        "activity"@,
    ) is Null) && !(pid is Null) {
        Some(pid)
    } else {
        None
    }
}

/// The session after several payloads.
pub open spec fn after_payloads(session: SessionModel, payloads: Seq<JsonModel>) -> SessionModel
    decreases payloads.len(),
{
    if payloads.len() == 0 {
        session
    } else {
        after_payload(after_payloads(session, payloads.drop_last()), payloads.last())
    }
}

/// The process that the last of `payloads` to name one has named.
pub open spec fn last_named_process(payloads: Seq<JsonModel>) -> Option<JsonModel>
    decreases payloads.len(),
{
    if payloads.len() == 0 {
        None
    } else {
        match named_process(payloads.last()) {
            Some(pid) => Some(pid),
            None => last_named_process(payloads.drop_last()),
        }
    }
}

/// A payload changes nothing of a session but the process that it remembers,
/// and that only where it names one. When the client has gone, the bridge is
/// told to clear this socket, with the process that is remembered or, where
/// there is none, with null.
pub proof fn sessions_end_with_their_process(session: SessionModel, payload: JsonModel)
    ensures
        ({
            let after = after_payload(session, payload);
            let last_pid = match named_process(payload) {
                Some(pid) => Some(pid),
                None => session.last_pid,
            };
            let message = close_message(after);
            &&& after == SessionModel { last_pid, ..session }
            &&& field(message, "activity"@) == Some(JsonModel::Null)
            &&& field(message, "pid"@) == Some(
                match last_pid {
                    Some(pid) => pid,
                    None => JsonModel::Null,
                },
            )
            &&& text_field(message, "socketId"@) == Some(session.socket_id)
        }),
{
    reveal_strlit("CONNECTIONS_CALLBACK");
    reveal_strlit("SET_ACTIVITY");
    assert("CONNECTIONS_CALLBACK"@.len() != "SET_ACTIVITY"@.len());
    let after = after_payload(session, payload);
    lemma_activity_message(
        JsonModel::Null,
        match after.last_pid {
            Some(pid) => pid,
            None => JsonModel::Null,
        },
        session.socket_id,
    );
}

/// Whatever its client sends, a session keeps its socket and its client, and
/// ends with the process that was named last.
pub proof fn sessions_end_with_the_last_process(session: SessionModel, payloads: Seq<JsonModel>)
    ensures
        ({
            let last_pid = match last_named_process(payloads) {
                Some(pid) => Some(pid),
                None => session.last_pid,
            };
            &&& after_payloads(session, payloads) == SessionModel { last_pid, ..session }
            &&& close_message(after_payloads(session, payloads)) == activity_message(
                JsonModel::Null,
                match last_pid {
                    Some(pid) => pid,
                    None => JsonModel::Null,
                },
                session.socket_id,
            )
        }),
    decreases payloads.len(),
{
    if payloads.len() > 0 {
        let rest = payloads.drop_last();
        sessions_end_with_the_last_process(session, rest);
        sessions_end_with_their_process(after_payloads(session, rest), payloads.last());
    }
}

// ---------------------------------------------------------------------------
// Laws of the command that sets an activity
// ---------------------------------------------------------------------------
/// A payload that sets the activity `activity`, which is an object.
pub open spec fn sets_activity(payload: JsonModel, activity: Map<Seq<char>, JsonModel>) -> bool {
    &&& text_field(payload, "cmd"@) == Some("SET_ACTIVITY"@)
    &&& field(payload, "args"@) is Some
    &&& field(field(payload, "args"@)->0, "activity"@) == Some(JsonModel::Object(activity))
}

/// The activity that the bridge is told of on a payload.
pub open spec fn told_activity(session: SessionModel, payload: JsonModel) -> JsonModel {
    field_or_null(
        payload_effects(session, DefaultRpcActionHandler, payload).activity->0,
        "activity"@,
    )
}

/// The data of the answer to a payload.
pub open spec fn answered_data(session: SessionModel, payload: JsonModel) -> JsonModel {
    field_or_null(
        payload_effects(session, DefaultRpcActionHandler, payload).replies[0],
        "data"@,
    )
}

proof fn lemma_commands()
    ensures
        "CONNECTIONS_CALLBACK"@ != "SET_ACTIVITY"@,
        "CONNECTIONS_CALLBACK"@ != "INVITE_BROWSER"@,
        "CONNECTIONS_CALLBACK"@ != "GUILD_TEMPLATE_BROWSER"@,
        "CONNECTIONS_CALLBACK"@ != "DEEP_LINK"@,
        "SET_ACTIVITY"@ != "INVITE_BROWSER"@,
        "SET_ACTIVITY"@ != "GUILD_TEMPLATE_BROWSER"@,
        "SET_ACTIVITY"@ != "DEEP_LINK"@,
        "INVITE_BROWSER"@ != "GUILD_TEMPLATE_BROWSER"@,
        "INVITE_BROWSER"@ != "DEEP_LINK"@,
        "GUILD_TEMPLATE_BROWSER"@ != "DEEP_LINK"@,
        "CONNECTIONS_CALLBACK"@.len() > 0,
        "SET_ACTIVITY"@.len() > 0,
        "INVITE_BROWSER"@.len() > 0,
        "GUILD_TEMPLATE_BROWSER"@.len() > 0,
        "DEEP_LINK"@.len() > 0,
{
    reveal_strlit("CONNECTIONS_CALLBACK");
    reveal_strlit("SET_ACTIVITY");
    reveal_strlit("INVITE_BROWSER");
    reveal_strlit("GUILD_TEMPLATE_BROWSER");
    reveal_strlit("DEEP_LINK");
    assert("CONNECTIONS_CALLBACK"@.len() == 20);
    assert("SET_ACTIVITY"@.len() == 12);
    assert("INVITE_BROWSER"@.len() == 14);
    assert("GUILD_TEMPLATE_BROWSER"@.len() == 22);
    assert("DEEP_LINK"@.len() == 9);
}

proof fn lemma_activity_keys()
    ensures
        "buttons"@ != "metadata"@,
        "buttons"@ != "flags"@,
        "buttons"@ != "type"@,
        "buttons"@ != "name"@,
        "buttons"@ != "application_id"@,
        "buttons"@ != "timestamps"@,
        "metadata"@ != "flags"@,
        "metadata"@ != "type"@,
        "metadata"@ != "name"@,
        "metadata"@ != "application_id"@,
        "metadata"@ != "timestamps"@,
        "flags"@ != "type"@,
        "flags"@ != "name"@,
        "flags"@ != "application_id"@,
        "flags"@ != "timestamps"@,
        "type"@ != "name"@,
        "type"@ != "application_id"@,
        "type"@ != "timestamps"@,
        "name"@ != "application_id"@,
        "name"@ != "timestamps"@,
        "application_id"@ != "timestamps"@,
        "instance"@ != "timestamps"@,
        "instance"@ != "buttons"@,
        "instance"@ != "flags"@,
{
    reveal_strlit("buttons");
    reveal_strlit("metadata");
    reveal_strlit("flags");
    reveal_strlit("type");
    reveal_strlit("name");
    reveal_strlit("application_id");
    reveal_strlit("timestamps");
    reveal_strlit("instance");
    assert("buttons"@.len() == 7);
    assert("metadata"@.len() == 8);
    assert("flags"@.len() == 5);
    assert("type"@.len() == 4);
    assert("name"@.len() == 4);
    assert("type"@[0] != "name"@[0]);
    assert("application_id"@.len() == 14);
    assert("timestamps"@.len() == 10);
    assert("instance"@.len() == 8);
}

proof fn lemma_set_activity(
    session: SessionModel,
    payload: JsonModel,
    activity: Map<Seq<char>, JsonModel>,
)
    requires
        sets_activity(payload, activity),
    ensures
        told_activity(session, payload) == published_activity(
            session,
            with_millisecond_timestamps(activity),
        ),
        answered_data(session, payload) == confirmed_activity(
            session,
            with_millisecond_timestamps(activity),
        ),
        payload_effects(session, DefaultRpcActionHandler, payload).activity is Some,
        payload_effects(session, DefaultRpcActionHandler, payload).replies.len() == 1,
{
    lemma_commands();
    let args = args_of(payload);
    let fields = activity_fields(field_or_null(args, "activity"@));
    lemma_activity_message(
        published_activity(session, fields),
        field_or_null(args, "pid"@),
        session.socket_id,
    );
    lemma_reply(
        "SET_ACTIVITY"@,
        confirmed_activity(session, fields),
        JsonModel::Null,
        field_or_null(payload, "nonce"@),
    );
}

/// The values of a field are collected from all items that have it, in their
/// order.
pub proof fn values_are_collected_in_order(
    first: Seq<JsonModel>,
    item: JsonModel,
    rest: Seq<JsonModel>,
    key: Seq<char>,
)
    ensures
        collected(Seq::empty(), key) == Seq::<JsonModel>::empty(),
        collected(seq![item], key) == (match field(item, key) {
            Some(value) => seq![value],
            None => Seq::empty(),
        }),
        collected(first + rest, key) == collected(first, key) + collected(rest, key),
    decreases rest.len(),
{
    let one = seq![item];
    assert(one.drop_last() =~= Seq::empty());
    assert(collected(one.drop_last(), key) =~= Seq::empty());
    assert(collected(one, key) =~= (match field(item, key) {
        Some(value) => seq![value],
        None => Seq::empty(),
    }));
    let all = first + rest;
    if rest.len() == 0 {
        assert(all =~= first);
        assert(collected(first, key) + collected(rest, key) =~= collected(first, key));
    } else {
        values_are_collected_in_order(first, item, rest.drop_last(), key);
        assert(all.drop_last() =~= first + rest.drop_last());
        assert(all.last() == rest.last());
        assert(collected(all, key) =~= collected(first, key) + collected(rest, key));
    }
}

proof fn lemma_collects_all(items: Seq<JsonModel>, key: Seq<char>)
    requires
        forall|i: int| 0 <= i < items.len() ==> field(#[trigger] items[i], key) is Some,
    ensures
        collected(items, key).len() == items.len(),
        forall|i: int|
            0 <= i < items.len() ==> #[trigger] collected(items, key)[i] == field(items[i], key)->0,
    decreases items.len(),
{
    if items.len() > 0 {
        let rest = items.drop_last();
        assert forall|i: int| 0 <= i < rest.len() implies field(#[trigger] rest[i], key) is Some by {
            assert(rest[i] == items[i]);
        }
        lemma_collects_all(rest, key);
        assert(field(items[items.len() - 1], key) is Some);
        assert forall|i: int| 0 <= i < items.len() implies #[trigger] collected(items, key)[i]
            == field(items[i], key)->0 by {
            if i < rest.len() {
                assert(collected(items, key)[i] == collected(rest, key)[i]);
            }
        }
    }
}

/// Where each button of an activity has a label and a url, the published activity
/// has the labels of all of them for its buttons, and their urls in its metadata,
/// in the order of the buttons. Metadata that the client sets itself stays.
pub proof fn all_buttons_are_published(
    session: SessionModel,
    payload: JsonModel,
    activity: Map<Seq<char>, JsonModel>,
    buttons: Seq<JsonModel>,
)
    requires
        sets_activity(payload, activity),
        activity.contains_key("buttons"@),
        activity["buttons"@] == JsonModel::Array(buttons),
        forall|i: int|
            0 <= i < buttons.len() ==> field(#[trigger] buttons[i], "label"@) is Some && field(
                buttons[i],
                "url"@,
            ) is Some,
    ensures
        ({
            let told = told_activity(session, payload);
            let labels = field_or_null(told, "buttons"@);
            let urls = field_or_null(field_or_null(told, "metadata"@), "button_urls"@);
            &&& labels is Array && labels->Array_0.len() == buttons.len()
            &&& forall|i: int|
                0 <= i < buttons.len() ==> Some(#[trigger] labels->Array_0[i]) == field(
                    buttons[i],
                    "label"@,
                )
            &&& !activity.contains_key("metadata"@) ==> urls is Array && urls->Array_0.len()
                == buttons.len()
            &&& !activity.contains_key("metadata"@) ==> forall|i: int|
                0 <= i < buttons.len() ==> Some(#[trigger] urls->Array_0[i]) == field(
                    buttons[i],
                    "url"@,
                )
            &&& activity.contains_key("metadata"@) ==> field(told, "metadata"@) == Some(
                activity["metadata"@],
            )
        }),
{
    lemma_set_activity(session, payload, activity);
    lemma_activity_keys();
    lemma_collects_all(buttons, "label"@);
    lemma_collects_all(buttons, "url"@);
    let fields = with_millisecond_timestamps(activity);
    assert(buttons_of(fields) == Some(buttons));
}

/// An activity without a list of buttons is published without labels and, unless
/// the client sets metadata itself, with empty metadata.
pub proof fn without_buttons_none_are_published(
    session: SessionModel,
    payload: JsonModel,
    activity: Map<Seq<char>, JsonModel>,
)
    requires
        sets_activity(payload, activity),
        !activity.contains_key("buttons"@) || !(activity["buttons"@] is Array),
    ensures
        ({
            let told = told_activity(session, payload);
            &&& field(told, "buttons"@) == (if activity.contains_key("buttons"@) {
                Some(activity["buttons"@])
            } else {
                None
            })
            &&& !activity.contains_key("metadata"@) ==> field(told, "metadata"@) == Some(
                JsonModel::Object(Map::empty()),
            )
        }),
{
    lemma_set_activity(session, payload, activity);
    lemma_activity_keys();
    let fields = with_millisecond_timestamps(activity);
    assert(buttons_of(fields) is None);
}

/// Whatever else the client says of its activity is published as it says it.
pub proof fn other_fields_are_published_as_they_are(
    session: SessionModel,
    payload: JsonModel,
    activity: Map<Seq<char>, JsonModel>,
    key: Seq<char>,
)
    requires
        sets_activity(payload, activity),
        activity.contains_key(key),
        key != "buttons"@,
        key != "timestamps"@ || !(activity[key] is Object),
    ensures
        field(told_activity(session, payload), key) == Some(activity[key]),
{
    lemma_set_activity(session, payload, activity);
}

/// What the client does not say of its activity is published as the server knows
/// it: the id and the name of its application, the kind zero, and as flags whether
/// it is an instance. Nothing else is added.
pub proof fn the_server_adds_what_it_knows(
    session: SessionModel,
    payload: JsonModel,
    activity: Map<Seq<char>, JsonModel>,
    key: Seq<char>,
)
    requires
        sets_activity(payload, activity),
        !activity.contains_key(key),
    ensures
        ({
            let told = field(told_activity(session, payload), key);
            &&& key == "application_id"@ ==> told == Some(JsonModel::Text(session.client_id))
            &&& key == "name"@ ==> told == Some(
                JsonModel::Text(
                    if session.client_name is Some {
                        session.client_name->0
                    } else {
                        Seq::empty()
                    },
                ),
            )
            &&& key == "type"@ ==> told == Some(JsonModel::Number(NumberModel::Integer(0)))
            &&& key == "flags"@ ==> told == Some(
                JsonModel::Number(
                    NumberModel::Integer(
                        if activity.contains_key("instance"@) && activity["instance"@]
                            == JsonModel::Bool(true) {
                            1
                        } else {
                            0
                        },
                    ),
                ),
            )
            &&& key != "application_id"@ && key != "name"@ && key != "type"@ && key != "flags"@
                && key != "metadata"@ ==> told is None
        }),
{
    lemma_set_activity(session, payload, activity);
    lemma_activity_keys();
    let fields = with_millisecond_timestamps(activity);
    assert(is_instance(fields) == (activity.contains_key("instance"@) && activity["instance"@]
        == JsonModel::Bool(true)));
    assert(!fields.contains_key(key));
}

/// Each timestamp that counts seconds is published and confirmed in milliseconds,
/// and what counts milliseconds already or is no integer stays as it is.
pub proof fn timestamps_are_told_in_milliseconds(
    session: SessionModel,
    payload: JsonModel,
    activity: Map<Seq<char>, JsonModel>,
    timestamps: Map<Seq<char>, JsonModel>,
    key: Seq<char>,
)
    requires
        sets_activity(payload, activity),
        activity.contains_key("timestamps"@),
        activity["timestamps"@] == JsonModel::Object(timestamps),
        timestamps.contains_key(key),
    ensures
        ({
            let value = timestamps[key];
            let told = field(
                field_or_null(told_activity(session, payload), "timestamps"@),
                key,
            );
            let answered = field(
                field_or_null(answered_data(session, payload), "timestamps"@),
                key,
            );
            &&& told == answered
            &&& value matches JsonModel::Number(NumberModel::Integer(t)) ==> -9223372036854775
                <= t < 10000000000 ==> told == Some(
                JsonModel::Number(NumberModel::Integer(t * 1000)),
            )
            &&& value matches JsonModel::Number(NumberModel::Integer(t)) ==> t >= 10000000000
                ==> told == Some(value)
            &&& !(value matches JsonModel::Number(NumberModel::Integer(_))) ==> told == Some(value)
        }),
{
    lemma_set_activity(session, payload, activity);
    lemma_activity_keys();
    if let JsonModel::Number(NumberModel::Integer(t)) = timestamps[key] {
        if -9223372036854775 <= t < 10000000000 {
            timestamps_are_in_milliseconds(t);
        }
    }
}

/// The client is answered with what it said of its activity, but with the name and
/// the id that the server knows and the kind zero.
pub proof fn activities_are_confirmed(
    session: SessionModel,
    payload: JsonModel,
    activity: Map<Seq<char>, JsonModel>,
    key: Seq<char>,
)
    requires
        sets_activity(payload, activity),
        key != "timestamps"@ || !activity.contains_key(key) || !(activity[key] is Object),
    ensures
        ({
            let answered = field(answered_data(session, payload), key);
            if key == "application_id"@ {
                answered == Some(JsonModel::Text(session.client_id))
            } else if key == "name"@ {
                answered == Some(
                    JsonModel::Text(
                        if session.client_name is Some {
                            session.client_name->0
                        } else {
                            Seq::empty()
                        },
                    ),
                )
            } else if key == "type"@ {
                answered == Some(JsonModel::Number(NumberModel::Integer(0)))
            } else if activity.contains_key(key) {
                answered == Some(activity[key])
            } else {
                answered is None
            }
        }),
{
    lemma_set_activity(session, payload, activity);
    lemma_activity_keys();
}

/// A command that sets an activity tells the bridge of this socket and of the
/// process that the client names, and is answered once, under its name, without
/// an event and with the nonce of the client. Where the activity is missing or
/// null, the bridge is told to clear it and the answer has no data.
pub proof fn set_activity_tells_and_answers(session: SessionModel, payload: JsonModel)
    requires
        text_field(payload, "cmd"@) == Some("SET_ACTIVITY"@),
    ensures
        ({
            let effects = payload_effects(session, DefaultRpcActionHandler, payload);
            let args = field_or_null(payload, "args"@);
            let news = effects.activity;
            &&& news is Some
            &&& text_field(news->0, "socketId"@) == Some(session.socket_id)
            &&& field(news->0, "pid"@) == Some(field_or_null(args, "pid"@))
            &&& effects.replies.len() == 1
            &&& text_field(effects.replies[0], "cmd"@) == Some("SET_ACTIVITY"@)
            &&& field(effects.replies[0], "evt"@) == Some(JsonModel::Null)
            &&& field(effects.replies[0], "nonce"@) == Some(field_or_null(payload, "nonce"@))
            &&& field_or_null(args, "activity"@) is Null ==> field(news->0, "activity"@) == Some(
                JsonModel::Null,
            ) && field(effects.replies[0], "data"@) == Some(JsonModel::Null)
            &&& !(field_or_null(args, "activity"@) is Null) ==> field_or_null(
                news->0,
                "activity"@,
            ) is Object && field_or_null(effects.replies[0], "data"@) is Object
        }),
{
    lemma_commands();
    let args = args_of(payload);
    let pid = field_or_null(args, "pid"@);
    let nonce = field_or_null(payload, "nonce"@);
    let fields = activity_fields(field_or_null(args, "activity"@));
    lemma_activity_message(JsonModel::Null, pid, session.socket_id);
    lemma_activity_message(published_activity(session, fields), pid, session.socket_id);
    lemma_reply("SET_ACTIVITY"@, JsonModel::Null, JsonModel::Null, nonce);
    lemma_reply("SET_ACTIVITY"@, confirmed_activity(session, fields), JsonModel::Null, nonce);
}

/// An activity that is no object counts as one without fields.
pub proof fn other_activities_count_as_empty(
    session: SessionModel,
    payload: JsonModel,
    empty: JsonModel,
)
    requires
        text_field(payload, "cmd"@) == Some("SET_ACTIVITY"@),
        !(field_or_null(args_of(payload), "activity"@) is Null),
        !(field_or_null(args_of(payload), "activity"@) is Object),
        sets_activity(empty, Map::empty()),
    ensures
        told_activity(session, payload) == told_activity(session, empty),
        answered_data(session, payload) == answered_data(session, empty),
{
    lemma_commands();
    lemma_set_activity(session, empty, Map::empty());
    let fields = activity_fields(field_or_null(args_of(payload), "activity"@));
    lemma_activity_message(
        published_activity(session, fields),
        field_or_null(args_of(payload), "pid"@),
        session.socket_id,
    );
    lemma_reply(
        "SET_ACTIVITY"@,
        confirmed_activity(session, fields),
        JsonModel::Null,
        field_or_null(payload, "nonce"@),
    );
}

// ---------------------------------------------------------------------------
// Laws of the other commands
// ---------------------------------------------------------------------------
/// The commands that open something are acknowledged with the code that they were
/// given, a link without data, and the callback with an error; none of them tells
/// the bridge anything.
pub proof fn other_commands_are_acknowledged(session: SessionModel, payload: JsonModel)
    ensures
        ({
            let effects = payload_effects(session, DefaultRpcActionHandler, payload);
            let reply = effects.replies[0];
            let cmd = text_field(payload, "cmd"@);
            let code = field_or_null(field_or_null(payload, "args"@), "code"@);
            &&& cmd == Some("CONNECTIONS_CALLBACK"@) ==> {
                &&& field(reply, "evt"@) == Some(JsonModel::Text("ERROR"@))
                &&& field(field_or_null(reply, "data"@), "code"@) == Some(
                    JsonModel::Number(NumberModel::Integer(1000)),
                )
            }
            &&& cmd == Some("INVITE_BROWSER"@) || cmd == Some("GUILD_TEMPLATE_BROWSER"@) ==> {
                &&& field(reply, "evt"@) == Some(JsonModel::Null)
                &&& field(field_or_null(reply, "data"@), "code"@) == Some(code)
            }
            &&& cmd == Some("DEEP_LINK"@) ==> {
                &&& field(reply, "evt"@) == Some(JsonModel::Null)
                &&& field(reply, "data"@) == Some(JsonModel::Null)
            }
            &&& cmd == Some("CONNECTIONS_CALLBACK"@) || cmd == Some("INVITE_BROWSER"@) || cmd
                == Some("GUILD_TEMPLATE_BROWSER"@) || cmd == Some("DEEP_LINK"@) ==> {
                &&& effects.replies.len() == 1
                &&& text_field(reply, "cmd"@) == cmd
                &&& field(reply, "nonce"@) == Some(field_or_null(payload, "nonce"@))
                &&& effects.activity is None
            }
        }),
{
    lemma_commands();
    let cmd = command_of(payload);
    let nonce = field_or_null(payload, "nonce"@);
    let code = field_or_null(args_of(payload), "code"@);
    lemma_reply(
        cmd,
        JsonModel::Object(map!["code"@ => integer(1000)]),
        JsonModel::Text("ERROR"@),
        nonce,
    );
    lemma_reply(cmd, JsonModel::Null, JsonModel::Null, nonce);
    lemma_reply(cmd, JsonModel::Object(map!["code"@ => code]), JsonModel::Null, nonce);
}

/// The requests to the host go to its handler, with the code and the nonce of the
/// client.
pub proof fn requests_go_to_the_handler<A: RpcActionHandler>(
    session: SessionModel,
    actions: A,
    payload: JsonModel,
)
    ensures
        ({
            let effects = payload_effects(session, actions, payload);
            let cmd = text_field(payload, "cmd"@);
            let code = field_or_null(field_or_null(payload, "args"@), "code"@);
            let nonce = field_or_null(payload, "nonce"@);
            &&& cmd == Some("INVITE_BROWSER"@) ==> effects == actions.invite_effects(code, nonce)
            &&& cmd == Some("GUILD_TEMPLATE_BROWSER"@) ==> effects == actions.template_effects(
                code,
                nonce,
            )
            &&& cmd == Some("DEEP_LINK"@) ==> effects == actions.link_effects(nonce)
        }),
{
    lemma_commands();
}

/// What is none of the five commands leads to nothing.
pub proof fn only_five_commands_lead_to_something<A: RpcActionHandler>(
    session: SessionModel,
    actions: A,
    payload: JsonModel,
)
    requires
        text_field(payload, "cmd"@) != Some("CONNECTIONS_CALLBACK"@),
        text_field(payload, "cmd"@) != Some("SET_ACTIVITY"@),
        text_field(payload, "cmd"@) != Some("INVITE_BROWSER"@),
        text_field(payload, "cmd"@) != Some("GUILD_TEMPLATE_BROWSER"@),
        text_field(payload, "cmd"@) != Some("DEEP_LINK"@),
    ensures
        payload_effects(session, actions, payload).replies.len() == 0,
        payload_effects(session, actions, payload).activity is None,
        after_payload(session, payload) == session,
{
    lemma_commands();
}

/// A session remembers the process of an activity that is set with one, and keeps
/// the one that it remembers on everything else.
pub proof fn set_activities_are_remembered_by_process(session: SessionModel, payload: JsonModel)
    ensures
        ({
            let args = field_or_null(payload, "args"@);
            let pid = field_or_null(args, "pid"@);
            after_payload(session, payload).last_pid == (if text_field(payload, "cmd"@) == Some(
                "SET_ACTIVITY"@,
            ) && !(field_or_null(args, "activity"@) is Null) && !(pid is Null) {
                Some(pid)
            } else {
                session.last_pid
            })
        }),
{
    lemma_commands();
}

/// The greeting is a dispatched event without a nonce that gives the version, the
/// hosts and the user that the server presents itself as.
pub proof fn the_greeting_presents_the_server(key: Seq<char>)
    ensures
        ({
            let ready = ready_message();
            let data = field_or_null(ready, "data"@);
            let config = field_or_null(data, "config"@);
            let user = field(field_or_null(data, "user"@), key);
            &&& text_field(ready, "cmd"@) == Some("DISPATCH"@)
            &&& text_field(ready, "evt"@) == Some("READY"@)
            &&& field(ready, "nonce"@) == Some(JsonModel::Null)
            &&& field(data, "v"@) == Some(JsonModel::Number(NumberModel::Integer(1)))
            &&& text_field(config, "cdn_host"@) == Some("cdn.discordapp.com"@)
            &&& text_field(config, "api_endpoint"@) == Some("//discord.com/api"@)
            &&& text_field(config, "environment"@) == Some("production"@)
            &&& key == "id"@ ==> user == Some(JsonModel::Text("1045800378228281345"@))
            &&& key == "username"@ ==> user == Some(JsonModel::Text("arrpc"@))
            &&& key == "discriminator"@ ==> user == Some(JsonModel::Text("0"@))
            &&& key == "global_name"@ ==> user == Some(JsonModel::Text("arRPC"@))
            &&& key == "avatar"@ ==> user == Some(
                JsonModel::Text("cfefa4d9839fb4bdf030f91c2a13e95c"@),
            )
            &&& key == "avatar_decoration_data"@ ==> user == Some(JsonModel::Null)
            &&& key == "bot"@ ==> user == Some(JsonModel::Bool(false))
            &&& key == "flags"@ || key == "premium_type"@ ==> user == Some(
                JsonModel::Number(NumberModel::Integer(0)),
            )
        }),
{
    reveal_strlit("v");
    reveal_strlit("config");
    reveal_strlit("user");
    assert("v"@.len() == 1);
    assert("config"@.len() == 6);
    assert("user"@.len() == 4);
    reveal_strlit("cdn_host");
    reveal_strlit("api_endpoint");
    reveal_strlit("environment");
    assert("cdn_host"@.len() == 8);
    assert("api_endpoint"@.len() == 12);
    assert("environment"@.len() == 11);
    reveal_strlit("id");
    reveal_strlit("username");
    reveal_strlit("discriminator");
    reveal_strlit("global_name");
    reveal_strlit("avatar");
    reveal_strlit("avatar_decoration_data");
    reveal_strlit("bot");
    reveal_strlit("flags");
    reveal_strlit("premium_type");
    assert("id"@.len() == 2);
    assert("username"@.len() == 8);
    assert("discriminator"@.len() == 13);
    assert("global_name"@.len() == 11);
    assert("avatar"@.len() == 6);
    assert("avatar_decoration_data"@.len() == 22);
    assert("bot"@.len() == 3);
    assert("flags"@.len() == 5);
    assert("premium_type"@.len() == 12);
    let data = JsonModel::Object(
        map![
            "v"@ => integer(1),
            "config"@ => JsonModel::Object(
                map![
                    "cdn_host"@ => JsonModel::Text("cdn.discordapp.com"@),
                    "api_endpoint"@ => JsonModel::Text("//discord.com/api"@),
                    "environment"@ => JsonModel::Text("production"@),
                ],
            ),
            "user"@ => ready_user(),
        ],
    );
    lemma_reply("DISPATCH"@, data, JsonModel::Text("READY"@), JsonModel::Null);
}

// ---------------------------------------------------------------------------
// Laws of requests to connect
// ---------------------------------------------------------------------------
/// The value of `key` in a query, where it has one, and else `default`.
pub open spec fn asked_for(query: Seq<char>, key: Seq<char>, default: Seq<char>) -> Seq<char> {
    if query_value(query, key) is Some {
        query_value(query, key)->0
    } else {
        default
    }
}

/// A page of the stable, the test or the canary client, and a client that is no
/// page, is accepted where it asks for the version one, or for none, and for the
/// encoding json, or for none. It is accepted under the id in its query.
pub proof fn known_origins_are_accepted(origin: Option<Seq<char>>, query: Seq<char>)
    requires
        origin is None || origin == Some("https://discord.com"@) || origin == Some(
            "https://ptb.discord.com"@,
        ) || origin == Some("https://canary.discord.com"@),
        parsed_unsigned(asked_for(query, "v"@, "1"@), 255) == Some(1nat),
        asked_for(query, "encoding"@, "json"@) == "json"@,
    ensures
        request_outcome(origin, query) == Ok::<Seq<char>, Seq<char>>(
            asked_for(query, "client_id"@, Seq::empty()),
        ),
{
}

/// A query that names neither version nor encoding asks for the version one and
/// for json.
pub proof fn plain_queries_are_accepted(origin: Option<Seq<char>>, query: Seq<char>)
    requires
        origin is None || origin == Some("https://discord.com"@) || origin == Some(
            "https://ptb.discord.com"@,
        ) || origin == Some("https://canary.discord.com"@),
        query_value(query, "v"@) is None || query_value(query, "v"@) == Some("1"@),
        query_value(query, "encoding"@) is None || query_value(query, "encoding"@) == Some(
            "json"@,
        ),
    ensures
        request_outcome(origin, query) == Ok::<Seq<char>, Seq<char>>(
            asked_for(query, "client_id"@, Seq::empty()),
        ),
{
    reveal_strlit("1");
    assert("1"@ =~= decimal(1));
    numbers_are_read_back(1, 255);
    known_origins_are_accepted(origin, query);
}

/// A page of any other origin is refused, whatever it asks for, and told its
/// origin.
pub proof fn other_origins_are_refused(origin: Seq<char>, query: Seq<char>)
    requires
        origin != "https://discord.com"@,
        origin != "https://ptb.discord.com"@,
        origin != "https://canary.discord.com"@,
    ensures
        request_outcome(Some(origin), query) == Err::<Seq<char>, Seq<char>>(
            "disallowed origin: "@ + origin,
        ),
{
}

/// A client that asks for another version, or for none that can be read, or for
/// another encoding is refused, and told what it asked for.
pub proof fn other_versions_and_encodings_are_refused(
    origin: Option<Seq<char>>,
    query: Seq<char>,
    version: nat,
)
    requires
        origin is None || origin == Some("https://discord.com"@) || origin == Some(
            "https://ptb.discord.com"@,
        ) || origin == Some("https://canary.discord.com"@),
    ensures
        ({
            let asked = parsed_unsigned(asked_for(query, "v"@, "1"@), 255);
            let encoding = asked_for(query, "encoding"@, "json"@);
            let outcome = request_outcome(origin, query);
            &&& asked is None ==> outcome == Err::<Seq<char>, Seq<char>>(
                "unsupported version requested"@,
            )
            &&& asked == Some(version) && version != 1 ==> outcome == Err::<Seq<char>, Seq<char>>(
                "unsupported version requested: "@ + decimal(version),
            )
            &&& asked == Some(1nat) && encoding != "json"@ ==> outcome == Err::<
                Seq<char>,
                Seq<char>,
            >("unsupported encoding requested: "@ + encoding)
        }),
{
}

/// A query is read piece by piece: its last piece decides on the key before its
/// first equals sign, with what follows as the value, and on nothing else. A piece
/// without an equals sign is a key with an empty value, and an empty piece is
/// nothing.
pub proof fn the_last_piece_decides_on_its_key(
    query: Seq<char>,
    key: Seq<char>,
    value: Seq<char>,
    other: Seq<char>,
)
    requires
        !key.contains('='),
        !key.contains('&'),
        !value.contains('&'),
    ensures
        query_value(query + seq!['&'] + (key + seq!['='] + value), key) == Some(value),
        query_value(key + seq!['='] + value, key) == Some(value),
        other != key ==> query_value(query + seq!['&'] + (key + seq!['='] + value), other)
            == query_value(query, other),
        other != key ==> query_value(key + seq!['='] + value, other) is None,
        key.len() > 0 ==> query_value(query + seq!['&'] + key, key) == Some(Seq::<char>::empty()),
        other != key ==> query_value(query + seq!['&'] + key, other) == query_value(query, other),
        query_value(query + seq!['&'], other) == query_value(query, other),
        query_value(Seq::empty(), other) is None,
{
    let piece = key + seq!['='] + value;
    assert(!piece.contains('&')) by {
        if piece.contains('&') {
            let j = choose|j: int| 0 <= j < piece.len() && piece[j] == '&';
            if j < key.len() {
                assert(key[j] == '&');
            } else if j > key.len() {
                assert(value[j - key.len() - 1] == '&');
            }
        }
    }
    lemma_query_pair(key, value);
    pieces_follow_each_other(piece, piece, '&');
    lemma_last_piece_decides(query, piece, key);
    lemma_last_piece_decides(query, piece, other);
    pieces_follow_each_other(key, key, '&');
    lemma_last_piece_decides(query, key, key);
    lemma_last_piece_decides(query, key, other);
    let nothing = Seq::<char>::empty();
    assert(!nothing.contains('&'));
    lemma_last_piece_decides(query, nothing, other);
    assert(query + seq!['&'] + nothing =~= query + seq!['&']);
    pieces_follow_each_other(nothing, nothing, '&');
    lemma_single_value(piece, key);
    lemma_single_value(piece, other);
    lemma_single_value(nothing, other);
}

proof fn lemma_query_pair(key: Seq<char>, value: Seq<char>)
    requires
        !key.contains('='),
    ensures
        query_pair(key + seq!['='] + value) == (key, value),
        query_pair(key) == (key, Seq::<char>::empty()),
{
    let piece = key + seq!['='] + value;
    let mark = seq!['='];
    assert(piece.subrange(key.len() as int, key.len() as int + 1) =~= mark);
    assert forall|j: int| j < key.len() implies !occurs_at(piece, mark, j) by {
        if occurs_at(piece, mark, j) {
            assert(piece.subrange(j, j + 1)[0] == piece[j]);
            assert(mark[0] == '=');
            assert(key[j] == '=');
        }
    }
    lemma_first_index(piece, mark, key.len() as int);
    assert(piece.take(key.len() as int) =~= key);
    assert(piece.skip(key.len() as int + 1) =~= value);
    assert forall|j: int| !occurs_at(key, mark, j) by {
        if occurs_at(key, mark, j) {
            assert(key.subrange(j, j + 1)[0] == key[j]);
            assert(mark[0] == '=');
            assert(key[j] == '=');
        }
    }
    assert(!contains(key, mark));
}

proof fn lemma_single_value(piece: Seq<char>, key: Seq<char>)
    requires
        !piece.contains('&'),
    ensures
        query_value(piece, key) == (if piece.len() > 0 && query_pair(piece).0 == key {
            Some(query_pair(piece).1)
        } else {
            None
        }),
{
    pieces_follow_each_other(piece, piece, '&');
    let one = seq![piece];
    assert(one.drop_last() =~= Seq::empty());
    assert(value_in(one.drop_last(), key) is None);
}

proof fn lemma_last_piece_decides(query: Seq<char>, piece: Seq<char>, key: Seq<char>)
    requires
        !piece.contains('&'),
    ensures
        query_value(query + seq!['&'] + piece, key) == (if piece.len() > 0 && query_pair(piece).0
            == key {
            Some(query_pair(piece).1)
        } else {
            query_value(query, key)
        }),
{
    pieces_follow_each_other(query, piece, '&');
    pieces_follow_each_other(piece, piece, '&');
    let all = split_on(query, '&') + seq![piece];
    assert(all.drop_last() =~= split_on(query, '&'));
    assert(all.last() == piece);
}

} // verus!
