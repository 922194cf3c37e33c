//! The state file: where the servers listen and what is being played, for
//! other programs to read.
use vstd::prelude::*;

use crate::clock::now_ms;
use crate::json::{
    field, items_model, json_model, parsed_text, text_field, u64_field, Json, JsonModel,
};
use crate::text::{decimal, decimal_text, opt_str, opt_text, same_text};

verus! {

/// How many numbered state files there may be: their numbers run from 0 to this.
pub const STATE_FILE_MAX_INDEX: u8 = 9;

/// The age in milliseconds from which on a state file is no longer kept up.
pub const STALE_AFTER_MS: u64 = 10_000;

/// A server that listens on a port.
#[derive(Debug)]
pub struct ServerInfo {
    pub host: String,
    pub port: u16,
}

/// A server that listens on a socket file.
#[derive(Debug)]
pub struct IpcServerInfo {
    pub socket_path: String,
}

/// The servers that are known to listen.
#[derive(Debug)]
pub struct StateServers {
    pub bridge: Option<ServerInfo>,
    pub websocket: Option<ServerInfo>,
    pub ipc: Option<IpcServerInfo>,
}

/// What [`StateServers`] stand for.
pub struct ServersModel {
    pub bridge: Option<(Seq<char>, u16)>,
    pub websocket: Option<(Seq<char>, u16)>,
    pub ipc: Option<Seq<char>>,
}

pub open spec fn server_model(server: Option<ServerInfo>) -> Option<(Seq<char>, u16)> {
    match server {
        Some(info) => Some((info.host@, info.port)),
        None => None,
    }
}

impl View for StateServers {
    type V = ServersModel;

    open spec fn view(&self) -> ServersModel {
        ServersModel {
            bridge: server_model(self.bridge),
            websocket: server_model(self.websocket),
            ipc: match self.ipc {
                Some(info) => Some(info.socket_path@),
                None => None,
            },
        }
    }
}

/// One activity that is going on.
#[derive(Debug)]
pub struct StateActivity {
    pub socket_id: String,
    pub name: String,
    pub application_id: String,
    pub pid: u64,
    pub start_time: Option<u64>,
}

/// What a [`StateActivity`] stands for.
pub struct ActivityModel {
    pub socket_id: Seq<char>,
    pub name: Seq<char>,
    pub application_id: Seq<char>,
    pub pid: u64,
    pub start_time: Option<u64>,
}

impl View for StateActivity {
    type V = ActivityModel;

    open spec fn view(&self) -> ActivityModel {
        ActivityModel {
            socket_id: self.socket_id@,
            name: self.name@,
            application_id: self.application_id@,
            pid: self.pid,
            start_time: self.start_time,
        }
    }
}

/// What each of `activities` stands for.
pub open spec fn activities_model(activities: Seq<StateActivity>) -> Seq<ActivityModel> {
    activities.map_values(|a: StateActivity| a@)
}

/// What is written into the state file.
#[derive(Debug)]
pub struct StateFileContent {
    pub app_version: String,
    pub timestamp: u128,
    pub servers: StateServers,
    pub activities: Vec<StateActivity>,
}

/// A state file and what is known for it.
#[derive(Debug)]
pub struct StateFile {
    pub path: String,
    pub app_version: String,
    pub servers: StateServers,
}

// ---------------------------------------------------------------------------
// Activities
// ---------------------------------------------------------------------------
/// The number in `start` of the timestamps of an activity.
pub open spec fn start_of(activity: JsonModel) -> Option<u64> {
    match field(activity, "timestamps"@) {
        Some(timestamps) => u64_field(timestamps, "start"@),
        None => None,
    }
}

/// The activity that a message of the bridge tells of: none where it clears
/// the activity or names no socket.
pub open spec fn message_activity(msg: JsonModel) -> Option<ActivityModel> {
    match (field(msg, "activity"@), text_field(msg, "socketId"@)) {
        (Some(activity), Some(socket_id)) => if activity is Null {
            None
        } else {
            Some(
                ActivityModel {
                    socket_id,
                    name: match text_field(activity, "name"@) {
                        Some(name) => name,
                        None => "Unknown"@,
                    },
                    application_id: match text_field(activity, "application_id"@) {
                        Some(id) => id,
                        None => Seq::empty(),
                    },
                    pid: match u64_field(msg, "pid"@) {
                        Some(pid) => pid,
                        None => 0,
                    },
                    start_time: start_of(activity),
                },
            )
        },
        _ => None,
    }
}

/// The activities that `messages` tell of, in order.
pub open spec fn message_activities(messages: Seq<JsonModel>) -> Seq<ActivityModel>
    decreases messages.len(),
{
    if messages.len() == 0 {
        Seq::empty()
    } else {
        let before = message_activities(messages.drop_last());
        match message_activity(messages.last()) {
            Some(activity) => before.push(activity),
            None => before,
        }
    }
}

/// The activity that a message of the bridge tells of.
pub fn state_activity_from_message(msg: &Json) -> (r: Option<StateActivity>)
    ensures
        match r {
            Some(activity) => message_activity(msg@) == Some(activity@),
            None => message_activity(msg@) is None,
        },
{
    let activity = match msg.get("activity") {
        Some(activity) => activity,
        None => {
            return None;
        },
    };
    if activity.is_null() {
        return None;
    }
    let socket_id = match msg.get_str("socketId") {
        Some(id) => id.to_string(),
        None => {
            return None;
        },
    };
    let name = match activity.get_str("name") {
        Some(name) => name.to_string(),
        None => "Unknown".to_string(),
    };
    let application_id = match activity.get_str("application_id") {
        Some(id) => id.to_string(),
        None => String::new(),
    };
    let pid: u64 = match msg.get_u64("pid") {
        Some(pid) => pid,
        None => 0,
    };
    let start_time = match activity.get("timestamps") {
        Some(timestamps) => timestamps.get_u64("start"),
        None => None,
    };
    Some(StateActivity { socket_id, name, application_id, pid, start_time })
}

// ---------------------------------------------------------------------------
// The file
// ---------------------------------------------------------------------------
/// The servers after one of the type `server_type` was heard of. Other types
/// than these two are passed over.
pub open spec fn with_server(
    servers: ServersModel,
    server_type: Seq<char>,
    host: Seq<char>,
    port: u16,
) -> ServersModel {
    if server_type == "bridge"@ {
        ServersModel { bridge: Some((host, port)), ..servers }
    } else if server_type == "websocket"@ {
        ServersModel { websocket: Some((host, port)), ..servers }
    } else {
        servers
    }
}

fn copy_server(server: &Option<ServerInfo>) -> (r: Option<ServerInfo>)
    ensures
        server_model(r) == server_model(*server),
{
    match server {
        Some(info) => Some(ServerInfo { host: info.host.clone(), port: info.port }),
        None => None,
    }
}

impl StateServers {
    /// No server listens yet.
    pub fn new() -> (r: StateServers)
        ensures
            r@ == (ServersModel { bridge: None, websocket: None, ipc: None }),
    {
        StateServers { bridge: None, websocket: None, ipc: None }
    }

    fn duplicate(&self) -> (r: StateServers)
        ensures
            r@ == self@,
    {
        StateServers {
            bridge: copy_server(&self.bridge),
            websocket: copy_server(&self.websocket),
            ipc: match &self.ipc {
                Some(info) => Some(IpcServerInfo { socket_path: info.socket_path.clone() }),
                None => None,
            },
        }
    }
}

impl StateFile {
    /// A state file at `path`, with no server known.
    pub fn create_in(path: String, app_version: String) -> (r: StateFile)
        ensures
            r.path == path,
            r.app_version == app_version,
            r.servers@ == (ServersModel { bridge: None, websocket: None, ipc: None }),
    {
        StateFile { path, app_version, servers: StateServers::new() }
    }

    /// Where the file is.
    pub fn path(&self) -> (r: &str)
        ensures
            r@ == self.path@,
    {
        self.path.as_str()
    }

    /// Takes note of a server that listens on a port.
    pub fn set_server(&mut self, server_type: &str, host: String, port: u16)
        ensures
            final(self).path == old(self).path,
            final(self).app_version == old(self).app_version,
            final(self).servers@ == with_server(old(self).servers@, server_type@, host@, port),
    {
        let info = ServerInfo { host, port };
        if same_text(server_type, "bridge") {
            self.servers.bridge = Some(info);
        } else if same_text(server_type, "websocket") {
            self.servers.websocket = Some(info);
        }
    }

    /// Takes note of the server that listens on a socket file.
    pub fn set_ipc_server(&mut self, socket_path: String)
        ensures
            final(self).path == old(self).path,
            final(self).app_version == old(self).app_version,
            final(self).servers@ == (ServersModel {
                ipc: Some(socket_path@),
                ..old(self).servers@
            }),
    {
        self.servers.ipc = Some(IpcServerInfo { socket_path });
    }

    /// What is to be written at the time `timestamp`, when the bridge would
    /// replay `messages`.
    pub fn content(&self, timestamp: u128, messages: &Vec<Json>) -> (r: StateFileContent)
        ensures
            r.app_version@ == self.app_version@,
            r.timestamp == timestamp,
            r.servers@ == self.servers@,
            activities_model(r.activities@) == message_activities(items_model(messages@)),
    {
        let mut activities: Vec<StateActivity> = Vec::new();
        let mut i: usize = 0;
        assert(activities_model(activities@) =~= message_activities(
            items_model(messages@.take(0)),
        ));
        while i < messages.len()
            invariant
                i <= messages@.len(),
                activities_model(activities@) == message_activities(
                    items_model(messages@.take(i as int)),
                ),
            decreases messages@.len() - i,
        {
            assert(items_model(messages@.take(i + 1)).drop_last() =~= items_model(
                messages@.take(i as int),
            ));
            assert(items_model(messages@.take(i + 1)).last() == json_model(messages@[i as int]));
            if let Some(activity) = state_activity_from_message(&messages[i]) {
                let ghost before = activities@;
                activities.push(activity);
                assert(activities_model(activities@) =~= activities_model(before).push(activity@));
            }
            i += 1;
        }
        assert(messages@.take(i as int) =~= messages@);
        StateFileContent {
            app_version: self.app_version.clone(),
            timestamp,
            servers: self.servers.duplicate(),
            activities,
        }
    }
}

impl StateFile {
    /// What is to be written now, when the bridge would replay `messages`. The
    /// time is whatever the clock of the machine shows.
    pub fn current_content(&self, messages: &Vec<Json>) -> (r: StateFileContent)
        ensures
            r.app_version@ == self.app_version@,
            r.servers@ == self.servers@,
            activities_model(r.activities@) == message_activities(items_model(messages@)),
    {
        self.content(now_ms(), messages)
    }
}

// ---------------------------------------------------------------------------
// Choosing a file
// ---------------------------------------------------------------------------
/// How long ago `timestamp` was at the time `now`; nothing where it is ahead.
pub open spec fn age(now: int, timestamp: int) -> int {
    if now > timestamp {
        now - timestamp
    } else {
        0
    }
}

/// A file with this content is free to be taken over: it cannot be read, or is
/// no JSON, or has no timestamp, or nobody has kept it up.
pub open spec fn is_free(content: Option<JsonModel>, now: u128) -> bool {
    match content {
        Some(json) => match u64_field(json, "timestamp"@) {
            Some(timestamp) => age(now as int, timestamp as int) > STALE_AFTER_MS,
            None => true,
        },
        None => true,
    }
}

/// What a file holds, if it could be read and holds JSON.
pub open spec fn file_json(raw: Option<Seq<char>>) -> Option<JsonModel> {
    match raw {
        Some(text) => parsed_text(text),
        None => None,
    }
}

/// Whether a file that holds `content` is free to be taken over.
pub fn is_free_content(content: &Json, now: u128) -> (r: bool)
    ensures
        r == is_free(Some(content@), now),
{
    match content.get_u64("timestamp") {
        Some(timestamp) => {
            let written: u128 = timestamp as u128;
            now > written && now - written > STALE_AFTER_MS as u128
        },
        None => true,
    }
}

/// Whether a file is free to be taken over, by its text, which is none where
/// it could not be read.
pub fn is_available_state_path(raw: Option<&str>, now: u128) -> (r: bool)
    ensures
        r == is_free(file_json(opt_str(raw)), now),
{
    match raw {
        Some(text) => match Json::parse(text) {
            Ok(content) => is_free_content(&content, now),
            Err(_) => true,
        },
        None => true,
    }
}

/// The name of the state file with this number.
pub open spec fn state_name(number: nat) -> Seq<char> {
    "arrpc-state-"@ + decimal(number)
}

/// The name of the state file with this number.
pub fn state_file_name(number: u32) -> (r: String)
    ensures
        r@ == state_name(number as nat),
{
    let mut name = "arrpc-state-".to_string();
    name.append(decimal_text(number as u64).as_str());
    name
}

/// The number of the first free file from `from` on, or the id of the process
/// where none of the numbered files is free.
pub open spec fn chosen_number(
    files: Seq<Option<Seq<char>>>,
    now: u128,
    process_id: u32,
    from: nat,
) -> nat
    decreases STATE_FILE_MAX_INDEX + 1 - from,
{
    if from > STATE_FILE_MAX_INDEX {
        process_id as nat
    } else if from >= files.len() || is_free(file_json(files[from as int]), now) {
        from
    } else {
        chosen_number(files, now, process_id, from + 1)
    }
}

/// The texts of files, none for those that could not be read.
pub open spec fn file_texts(files: Seq<Option<String>>) -> Seq<Option<Seq<char>>> {
    files.map_values(|file: Option<String>| opt_text(file))
}

/// Chooses the name of the state file. `files` holds the texts of the numbered
/// files, none for those that could not be read.
pub fn select_state_file_name(files: &Vec<Option<String>>, now: u128, process_id: u32) -> (r:
    String)
    ensures
        r@ == state_name(chosen_number(file_texts(files@), now, process_id, 0)),
{
    let mut number: u8 = 0;
    while number <= STATE_FILE_MAX_INDEX
        invariant
            number <= STATE_FILE_MAX_INDEX + 1,
            chosen_number(file_texts(files@), now, process_id, 0) == chosen_number(
                file_texts(files@),
                now,
                process_id,
                number as nat,
            ),
        decreases STATE_FILE_MAX_INDEX + 1 - number,
    {
        let index: usize = number as usize;
        if index >= files.len() {
            return state_file_name(number as u32);
        }
        let raw: Option<&str> = match &files[index] {
            Some(text) => Some(text.as_str()),
            None => None,
        };
        assert(file_texts(files@)[index as int] == opt_str(raw));
        if is_available_state_path(raw, now) {
            return state_file_name(number as u32);
        }
        number += 1;
    }
    state_file_name(process_id)
}

/// Chooses the name of the state file by the time that the clock of the
/// machine shows.
pub fn current_state_file_name(files: &Vec<Option<String>>, process_id: u32) -> (r: String)
    ensures
        exists|now: u128|
            r@ == state_name(#[trigger] chosen_number(file_texts(files@), now, process_id, 0)),
{
    let now: u128 = now_ms();
    select_state_file_name(files, now, process_id)
}

/// A state file written at `timestamp` is still kept up at the time `now`.
pub open spec fn is_recent(now: u64, timestamp: u64) -> bool {
    age(now as int, timestamp as int) < STALE_AFTER_MS
}

/// Whether a state file written at `timestamp` is still kept up at the time `now`.
pub fn recent_state(now: u64, timestamp: u64) -> (r: bool)
    ensures
        r == is_recent(now, timestamp),
{
    now <= timestamp || now - timestamp < STALE_AFTER_MS
}

/// The first of the state files written at `timestamps` that is still kept up at
/// the time `now`, if there is one.
pub fn first_recent(now: u64, timestamps: &Vec<u64>) -> (r: Option<usize>)
    ensures
        match r {
            Some(i) => i < timestamps@.len() && is_recent(now, timestamps@[i as int]) && forall|
                j: int,
            |
                0 <= j < i ==> !is_recent(now, #[trigger] timestamps@[j]),
            None => forall|j: int|
                0 <= j < timestamps@.len() ==> !is_recent(now, #[trigger] timestamps@[j]),
        },
{
    let mut i: usize = 0;
    while i < timestamps.len()
        invariant
            i <= timestamps@.len(),
            forall|j: int| 0 <= j < i ==> !is_recent(now, #[trigger] timestamps@[j]),
        decreases timestamps@.len() - i,
    {
        if recent_state(now, timestamps[i]) {
            return Some(i);
        }
        i += 1;
    }
    None
}

/// A state file that is still kept up is not taken over.
pub proof fn recent_state_is_not_free(content: JsonModel, now: u64)
    requires
        u64_field(content, "timestamp"@) is Some,
        is_recent(now, u64_field(content, "timestamp"@)->0),
    ensures
        !is_free(Some(content), now as u128),
{
}

/// The file that is chosen is one of the numbered ones, which was free and
/// whose predecessors were not, or else the one named after the process.
pub proof fn chosen_file_is_free(
    files: Seq<Option<Seq<char>>>,
    now: u128,
    process_id: u32,
    from: nat,
)
    requires
        from <= STATE_FILE_MAX_INDEX + 1,
    ensures
        ({
            let number = chosen_number(files, now, process_id, from);
            ||| {
                &&& from <= number <= STATE_FILE_MAX_INDEX
                &&& number < files.len() ==> is_free(file_json(files[number as int]), now)
                &&& forall|i: int|
                    from <= i < number ==> i < files.len() && !is_free(
                        file_json(#[trigger] files[i]),
                        now,
                    )
            }
            ||| {
                &&& number == process_id
                &&& forall|i: int|
                    from <= i <= STATE_FILE_MAX_INDEX ==> i < files.len() && !is_free(
                        file_json(#[trigger] files[i]),
                        now,
                    )
            }
        }),
    decreases STATE_FILE_MAX_INDEX + 1 - from,
{
    if from <= STATE_FILE_MAX_INDEX && from < files.len() && !is_free(
        file_json(files[from as int]),
        now,
    ) {
        chosen_file_is_free(files, now, process_id, from + 1);
    }
}

/// A message with a socket and an activity that is not null is told of under its
/// socket, with the name, the application, the process and the start that it
/// gives, or with what stands for them where it does not. Other messages are not
/// told of.
pub proof fn messages_tell_of_their_activities(msg: JsonModel)
    ensures
        ({
            let activity = field(msg, "activity"@);
            let socket = text_field(msg, "socketId"@);
            let told = message_activity(msg);
            &&& told is Some <==> activity is Some && activity != Some(JsonModel::Null)
                && socket is Some
            &&& told is Some ==> {
                let name = text_field(activity->0, "name"@);
                let id = text_field(activity->0, "application_id"@);
                let pid = u64_field(msg, "pid"@);
                let timestamps = field(activity->0, "timestamps"@);
                &&& Some(told->0.socket_id) == socket
                &&& name is Some ==> told->0.name == name->0
                &&& name is None ==> told->0.name == "Unknown"@
                &&& id is Some ==> told->0.application_id == id->0
                &&& id is None ==> told->0.application_id == Seq::<char>::empty()
                &&& told->0.pid == (if pid is Some {
                    pid->0
                } else {
                    0
                })
                &&& timestamps is Some ==> told->0.start_time == u64_field(
                    timestamps->0,
                    "start"@,
                )
                &&& timestamps is None ==> told->0.start_time is None
            }
        }),
{
}

/// The activities are told of in the order of their messages, each once.
pub proof fn activities_follow_their_messages(
    first: Seq<JsonModel>,
    msg: JsonModel,
    rest: Seq<JsonModel>,
)
    ensures
        message_activities(Seq::empty()) == Seq::<ActivityModel>::empty(),
        message_activities(seq![msg]) == (match message_activity(msg) {
            Some(activity) => seq![activity],
            None => Seq::empty(),
        }),
        message_activities(first + rest) == message_activities(first) + message_activities(rest),
    decreases rest.len(),
{
    let one = seq![msg];
    assert(one.drop_last() =~= Seq::empty());
    assert(message_activities(one.drop_last()) =~= Seq::empty());
    assert(message_activities(one) =~= (match message_activity(msg) {
        Some(activity) => seq![activity],
        None => Seq::empty(),
    }));
    let all = first + rest;
    if rest.len() == 0 {
        assert(all =~= first);
        assert(message_activities(first) + message_activities(rest) =~= message_activities(first));
    } else {
        activities_follow_their_messages(first, msg, rest.drop_last());
        assert(all.drop_last() =~= first + rest.drop_last());
        assert(all.last() == rest.last());
        assert(message_activities(all) =~= message_activities(first) + message_activities(rest));
    }
}

/// A server is noted under its own type and leaves the others as they are; a type
/// that is not known leaves all of them.
pub proof fn servers_are_noted_by_type(
    servers: ServersModel,
    server_type: Seq<char>,
    host: Seq<char>,
    port: u16,
)
    ensures
        ({
            let after = with_server(servers, server_type, host, port);
            &&& after.bridge == (if server_type == "bridge"@ {
                Some((host, port))
            } else {
                servers.bridge
            })
            &&& after.websocket == (if server_type == "websocket"@ {
                Some((host, port))
            } else {
                servers.websocket
            })
            &&& after.ipc == servers.ipc
        }),
{
    reveal_strlit("bridge");
    reveal_strlit("websocket");
    assert("bridge"@.len() != "websocket"@.len());
}

/// A state file is taken over where it cannot be read, holds no JSON or no
/// timestamp, or was written more than ten seconds ago; and only there.
pub proof fn stale_files_are_taken_over(raw: Option<Seq<char>>, now: u128)
    ensures
        raw is None ==> is_free(file_json(raw), now),
        raw is Some && parsed_text(raw->0) is None ==> is_free(file_json(raw), now),
        raw is Some && parsed_text(raw->0) is Some ==> {
            let written = u64_field(parsed_text(raw->0)->0, "timestamp"@);
            &&& written is None ==> is_free(file_json(raw), now)
            &&& written is Some ==> (is_free(file_json(raw), now) <==> now > written->0 + 10000)
        },
{
}

/// A state file is kept up for ten seconds after it was written, or for ever
/// where its timestamp is ahead.
pub proof fn states_are_recent_for_ten_seconds(now: u64, timestamp: u64)
    ensures
        is_recent(now, timestamp) <==> now < timestamp + 10000,
{
}

/// The state file is the first of ten numbered ones that is free, a missing one
/// included, or else the one named after the process.
pub proof fn the_first_free_file_is_taken(
    files: Seq<Option<Seq<char>>>,
    now: u128,
    process_id: u32,
    n: nat,
)
    ensures
        n < 10 && (n < files.len() ==> is_free(file_json(files[n as int]), now)) && (forall|i: int|
            0 <= i < n ==> i < files.len() && !is_free(file_json(#[trigger] files[i]), now))
            ==> chosen_number(files, now, process_id, 0) == n,
        files.len() >= 10 && (forall|i: int|
            0 <= i < 10 ==> !is_free(file_json(#[trigger] files[i]), now)) ==> chosen_number(
            files,
            now,
            process_id,
            0,
        ) == process_id,
        state_name(n) == "arrpc-state-"@ + decimal(n),
{
    if n < 10 && (n < files.len() ==> is_free(file_json(files[n as int]), now)) && (forall|i: int|
        0 <= i < n ==> i < files.len() && !is_free(file_json(#[trigger] files[i]), now)) {
        lemma_chosen(files, now, process_id, 0, n);
    }
    if files.len() >= 10 && (forall|i: int|
        0 <= i < 10 ==> !is_free(file_json(#[trigger] files[i]), now)) {
        lemma_none_chosen(files, now, process_id, 0);
    }
}

proof fn lemma_chosen(
    files: Seq<Option<Seq<char>>>,
    now: u128,
    process_id: u32,
    from: nat,
    n: nat,
)
    requires
        from <= n < 10,
        n < files.len() ==> is_free(file_json(files[n as int]), now),
        forall|i: int|
            0 <= i < n ==> i < files.len() && !is_free(file_json(#[trigger] files[i]), now),
    ensures
        chosen_number(files, now, process_id, from) == n,
    decreases n - from,
{
    if from < n {
        assert(!is_free(file_json(files[from as int]), now));
        lemma_chosen(files, now, process_id, from + 1, n);
    }
}

proof fn lemma_none_chosen(
    files: Seq<Option<Seq<char>>>,
    now: u128,
    process_id: u32,
    from: nat,
)
    requires
        from <= 10 <= files.len(),
        forall|i: int| 0 <= i < 10 ==> !is_free(file_json(#[trigger] files[i]), now),
    ensures
        chosen_number(files, now, process_id, from) == process_id,
    decreases 10 - from,
{
    if from < 10 {
        assert(!is_free(file_json(files[from as int]), now));
        lemma_none_chosen(files, now, process_id, from + 1);
    }
}

} // verus!
