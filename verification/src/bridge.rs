//! The bridge: it remembers the last message of each socket, and hands every
//! message on to the clients that watch.
use vstd::prelude::*;

use crate::json::{
    field, field_or_null, items_model, json_model, parsed_text, printed_text, survives, text_field,
    Json, JsonError, JsonModel,
};
use crate::rpc::{
    activity_fields, args_of, close_message, command_of, lemma_activity_message,
    payload_effects, published_activity, DefaultRpcActionHandler, SessionModel,
};
use crate::text::texts;
use crate::text_map::TextMap;

verus! {

/// How many messages may wait for a client that watches.
pub const MAX_CLIENT_QUEUE: usize = 64;

/// The last message of each socket that has an activity.
#[derive(Debug)]
pub struct BridgeState {
    messages: TextMap<Json>,
}

/// What is to be done with a message: the state file tells of `replay`, and
/// the clients get `payload`.
#[derive(Debug)]
pub struct Published {
    pub replay: Vec<Json>,
    pub payload: String,
}

/// What the bridge remembers after a message: a message without a socket
/// changes nothing, one with the activity null forgets the socket.
pub open spec fn after_message(
    messages: Map<Seq<char>, JsonModel>,
    msg: JsonModel,
) -> Map<Seq<char>, JsonModel> {
    match text_field(msg, "socketId"@) {
        Some(id) => if field(msg, "activity"@) == Some(JsonModel::Null) {
            messages.remove(id)
        } else {
            messages.insert(id, msg)
        },
        None => messages,
    }
}

/// `values` are the messages in `messages`, each once, in some order.
pub open spec fn is_replay(values: Seq<JsonModel>, messages: Map<Seq<char>, JsonModel>) -> bool {
    exists|keys: Seq<Seq<char>>| #[trigger] is_replay_of(values, messages, keys)
}

/// `values` are the messages in `messages` for `keys`, which are all its keys.
pub open spec fn is_replay_of(
    values: Seq<JsonModel>,
    messages: Map<Seq<char>, JsonModel>,
    keys: Seq<Seq<char>>,
) -> bool {
    &&& keys.no_duplicates()
    &&& forall|key: Seq<char>| messages.contains_key(key) <==> keys.contains(key)
    &&& values == keys.map_values(|key: Seq<char>| messages[key])
}

/// `payloads` are what a new client gets first of `messages`: all of them as text,
/// unless they are more than may wait for a client.
pub open spec fn is_welcome(
    messages: Map<Seq<char>, JsonModel>,
    payloads: Option<Seq<Seq<char>>>,
) -> bool {
    exists|values: Seq<JsonModel>| #[trigger]
        is_replay(values, messages) && match payloads {
            Some(texts) => values.len() <= MAX_CLIENT_QUEUE && texts == values.map_values(
                |value: JsonModel| printed_text(value),
            ),
            None => values.len() > MAX_CLIENT_QUEUE,
        }
}

/// The texts that a client gets, where it gets any.
pub open spec fn payloads_model(payloads: Option<Vec<String>>) -> Option<Seq<Seq<char>>> {
    match payloads {
        Some(list) => Some(texts(list@)),
        None => None,
    }
}

impl View for BridgeState {
    type V = Map<Seq<char>, JsonModel>;

    closed spec fn view(&self) -> Map<Seq<char>, JsonModel> {
        self.messages@.map_values(|message: Json| message@)
    }
}

impl BridgeState {
    /// Each socket is remembered once.
    pub closed spec fn wf(&self) -> bool {
        self.messages.wf()
    }

    /// Nothing is remembered.
    pub fn new() -> (r: BridgeState)
        ensures
            r.wf(),
            r@ == Map::<Seq<char>, JsonModel>::empty(),
    {
        let r = BridgeState { messages: TextMap::new() };
        assert(r@ =~= Map::<Seq<char>, JsonModel>::empty());
        r
    }

    /// Takes note of a message.
    pub fn update(&mut self, msg: &Json)
        requires
            old(self).wf(),
        ensures
            final(self).wf(),
            final(self)@ == after_message(old(self)@, msg@),
    {
        let id = match msg.get_str("socketId") {
            Some(id) => id,
            None => {
                return;
            },
        };
        let cleared = match msg.get("activity") {
            Some(activity) => activity.is_null(),
            None => false,
        };
        let ghost before = self@;
        if cleared {
            self.messages.remove(id);
            assert(self@ =~= before.remove(id@));
        } else {
            self.messages.insert(id, msg.clone());
            assert(self@ =~= before.insert(id@, msg@));
        }
    }

    /// The messages that are remembered, each once.
    pub fn replayable(&self) -> (r: Vec<Json>)
        requires
            self.wf(),
        ensures
            is_replay(items_model(r@), self@),
    {
        let keys = self.messages.keys();
        let ghost ids = texts(keys@);
        let mut values: Vec<Json> = Vec::new();
        let mut i: usize = 0;
        while i < keys.len()
            invariant
                i <= keys@.len(),
                self.wf(),
                ids == texts(keys@),
                forall|key: Seq<char>| #[trigger]
                    ids.contains(key) <==> self.messages@.contains_key(key),
                values@.len() == i,
                forall|j: int| 0 <= j < i ==> json_model(values@[j]) == self@[ids[j]],
            decreases keys@.len() - i,
        {
            assert(ids.contains(ids[i as int]));
            if let Some(message) = self.messages.get(keys[i].as_str()) {
                values.push(message.clone());
            }
            i += 1;
        }
        assert(items_model(values@) =~= ids.map_values(|key: Seq<char>| self@[key]));
        assert(is_replay_of(items_model(values@), self@, ids));
        values
    }

    /// Takes note of a message, and prepares it for the clients and the state
    /// file. A client that parses what it gets has the message back, unless it
    /// holds floating point numbers or is nested too deeply for the parser.
    pub fn publish(&mut self, msg: &Json) -> (r: Result<Published, JsonError>)
        requires
            old(self).wf(),
        ensures
            final(self).wf(),
            final(self)@ == after_message(old(self)@, msg@),
            r matches Ok(published) && published.payload@ == printed_text(msg@) && is_replay(
                items_model(published.replay@),
                final(self)@,
            ) && (survives(msg@) ==> parsed_text(published.payload@) == Some(msg@)),
    {
        self.update(msg);
        let replay = self.replayable();
        match msg.print() {
            Ok(payload) => Ok(Published { replay, payload }),
            Err(error) => Err(error),
        }
    }

    /// The messages that a new client gets first; none where they are more than
    /// may wait for a client, so that it is turned away.
    pub fn welcome(&self) -> (r: Result<Option<Vec<String>>, JsonError>)
        requires
            self.wf(),
        ensures
            r is Ok,
            is_welcome(self@, payloads_model(r->Ok_0)),
    {
        let replay = self.replayable();
        let ghost values = items_model(replay@);
        assert(is_replay(values, self@));
        if replay.len() > MAX_CLIENT_QUEUE {
            return Ok(None);
        }
        let mut payloads: Vec<String> = Vec::new();
        let mut i: usize = 0;
        while i < replay.len()
            invariant
                i <= replay@.len(),
                payloads@.len() == i,
                forall|j: int|
                    0 <= j < i ==> (#[trigger] payloads@[j])@ == printed_text(
                        json_model(replay@[j]),
                    ),
            decreases replay@.len() - i,
        {
            match replay[i].print() {
                Ok(payload) => payloads.push(payload),
                Err(error) => {
                    return Err(error);
                },
            }
            i += 1;
        }
        assert(texts(payloads@) =~= values.map_values(|value: JsonModel| printed_text(value)));
        Ok(Some(payloads))
    }
}

// ---------------------------------------------------------------------------
// Laws
// ---------------------------------------------------------------------------
/// Each message is remembered under the socket that it names, and none of them
/// clears an activity.
pub open spec fn is_by_socket(messages: Map<Seq<char>, JsonModel>) -> bool {
    forall|id: Seq<char>| #[trigger]
        messages.contains_key(id) ==> text_field(messages[id], "socketId"@) == Some(id) && field(
            messages[id],
            "activity"@,
        ) != Some(JsonModel::Null)
}

/// Messages stay remembered under their sockets, from the first one on.
pub proof fn messages_stay_by_socket(messages: Map<Seq<char>, JsonModel>, msg: JsonModel)
    ensures
        is_by_socket(Map::empty()),
        is_by_socket(messages) ==> is_by_socket(after_message(messages, msg)),
{
    let after = after_message(messages, msg);
    if is_by_socket(messages) {
        assert forall|id: Seq<char>| #[trigger] after.contains_key(id) implies text_field(
            after[id],
            "socketId"@,
        ) == Some(id) && field(after[id], "activity"@) != Some(JsonModel::Null) by {
            if messages.contains_key(id) {
                assert(text_field(messages[id], "socketId"@) == Some(id));
            }
        }
    }
}

/// When a client has gone, nothing is remembered of its socket, and nothing
/// else is forgotten.
pub proof fn closing_clears_the_socket(
    messages: Map<Seq<char>, JsonModel>,
    session: SessionModel,
)
    ensures
        after_message(messages, close_message(session)) == messages.remove(session.socket_id),
{
    let pid = match session.last_pid {
        Some(pid) => pid,
        None => JsonModel::Null,
    };
    lemma_activity_message(JsonModel::Null, pid, session.socket_id);
}

/// Clearing the activity of a socket that is not remembered changes nothing.
pub proof fn clearing_an_unknown_socket_changes_nothing(
    messages: Map<Seq<char>, JsonModel>,
    msg: JsonModel,
)
    requires
        field(msg, "activity"@) == Some(JsonModel::Null),
        text_field(msg, "socketId"@) is Some,
        !messages.contains_key(text_field(msg, "socketId"@)->0),
    ensures
        after_message(messages, msg) == messages,
{
    assert(messages.remove(text_field(msg, "socketId"@)->0) =~= messages);
}

/// A message is remembered for its own socket alone.
pub proof fn other_sockets_are_left_alone(
    messages: Map<Seq<char>, JsonModel>,
    msg: JsonModel,
    id: Seq<char>,
)
    requires
        text_field(msg, "socketId"@) != Some(id),
    ensures
        after_message(messages, msg).contains_key(id) == messages.contains_key(id),
        messages.contains_key(id) ==> after_message(messages, msg)[id] == messages[id],
{
}

/// What a client sets is remembered for its socket, and is what is replayed,
/// until the client clears it.
pub proof fn activities_are_remembered(
    messages: Map<Seq<char>, JsonModel>,
    session: SessionModel,
    payload: JsonModel,
)
    requires
        command_of(payload) == "SET_ACTIVITY"@,
    ensures
        ({
            let news = payload_effects(session, DefaultRpcActionHandler, payload).activity;
            let after = after_message(messages, news->0);
            if field_or_null(args_of(payload), "activity"@) is Null {
                after == messages.remove(session.socket_id)
            } else {
                after == messages.insert(session.socket_id, news->0)
            }
        }),
{
    reveal_strlit("CONNECTIONS_CALLBACK");
    reveal_strlit("SET_ACTIVITY");
    assert("CONNECTIONS_CALLBACK"@.len() != "SET_ACTIVITY"@.len());
    let args = args_of(payload);
    let activity = field_or_null(args, "activity"@);
    let pid = field_or_null(args, "pid"@);
    lemma_activity_message(JsonModel::Null, pid, session.socket_id);
    lemma_activity_message(
        published_activity(session, activity_fields(activity)),
        pid,
        session.socket_id,
    );
}

/// A message with a socket takes the place of what was remembered of the socket,
/// or clears it where its activity is null; a message without a socket changes
/// nothing.
pub proof fn messages_replace_or_clear(
    messages: Map<Seq<char>, JsonModel>,
    msg: JsonModel,
    id: Seq<char>,
)
    ensures
        ({
            let after = after_message(messages, msg);
            let socket = text_field(msg, "socketId"@);
            &&& socket is None ==> after == messages
            &&& socket == Some(id) && field(msg, "activity"@) == Some(JsonModel::Null)
                ==> !after.contains_key(id)
            &&& socket == Some(id) && field(msg, "activity"@) != Some(JsonModel::Null)
                ==> after.contains_key(id) && after[id] == msg
            &&& socket != Some(id) ==> after.contains_key(id) == messages.contains_key(id)
                && after[id] == messages[id]
        }),
{
}

/// A replay holds what is remembered of each socket and nothing else, as many
/// messages as there are sockets, and no two of one socket.
pub proof fn replays_hold_each_socket_once(
    values: Seq<JsonModel>,
    messages: Map<Seq<char>, JsonModel>,
    id: Seq<char>,
    i: int,
    j: int,
)
    requires
        is_replay(values, messages),
        is_by_socket(messages),
    ensures
        messages.contains_key(id) ==> values.contains(messages[id]),
        0 <= i < values.len() ==> text_field(values[i], "socketId"@) is Some
            && messages.contains_key(text_field(values[i], "socketId"@)->0)
            && messages[text_field(values[i], "socketId"@)->0] == values[i],
        0 <= i < j < values.len() ==> text_field(values[i], "socketId"@) != text_field(
            values[j],
            "socketId"@,
        ),
{
    let keys = choose|keys: Seq<Seq<char>>| #[trigger] is_replay_of(values, messages, keys);
    if messages.contains_key(id) {
        assert(keys.contains(id));
        let k = choose|k: int| 0 <= k < keys.len() && keys[k] == id;
        assert(values[k] == messages[id]);
    }
    assert forall|k: int| 0 <= k < keys.len() implies messages.contains_key(#[trigger] keys[k])
        && values[k] == messages[keys[k]] && text_field(values[k], "socketId"@) == Some(keys[k]) by {
        assert(keys.contains(keys[k]));
    }
    if 0 <= i < values.len() {
        assert(messages.contains_key(keys[i]));
    }
    if 0 <= i < j < values.len() {
        assert(messages.contains_key(keys[i]));
        assert(messages.contains_key(keys[j]));
        assert(keys[i] != keys[j]);
    }
}

/// A new client gets what is remembered of each socket, one text for each, and is
/// turned away only where there are more than sixty-four of them.
pub proof fn new_clients_get_all_messages(
    messages: Map<Seq<char>, JsonModel>,
    payloads: Option<Seq<Seq<char>>>,
    id: Seq<char>,
)
    requires
        is_welcome(messages, payloads),
        is_by_socket(messages),
        messages.contains_key(id),
    ensures
        payloads is Some ==> payloads->0.contains(printed_text(messages[id])),
        payloads is Some ==> payloads->0.len() <= 64,
        payloads is None ==> exists|values: Seq<JsonModel>| #[trigger]
            is_replay(values, messages) && values.len() > 64,
{
    let values = choose|values: Seq<JsonModel>| #[trigger]
        is_replay(values, messages) && match payloads {
            Some(texts) => values.len() <= MAX_CLIENT_QUEUE && texts == values.map_values(
                |value: JsonModel| printed_text(value),
            ),
            None => values.len() > MAX_CLIENT_QUEUE,
        };
    replays_hold_each_socket_once(values, messages, id, 0, 0);
    if payloads is Some {
        let k = choose|k: int| 0 <= k < values.len() && values[k] == messages[id];
        assert(payloads->0[k] == printed_text(messages[id]));
    }
}

} // verus!
