//! What the command line tools compute and report.
use crate::bridge::{after_message, is_by_socket, is_replay_of};
use crate::clock;
use crate::config::RuntimeConfig;
use crate::fixes::{is_report_on, validate_fixes, FixesReport};
use crate::json::{
    collect_field, copy_values, field, field_texts, items_model, parsed_bytes, parsed_text,
    pretty_bytes, survives, text_field, u64_of, Json, JsonError, JsonModel,
};
use crate::rpc::{
    activity_message, lemma_activity_message, published_activity, shown_name, SessionModel,
};
use crate::state_file::{
    activities_model, message_activity, state_activity_from_message, ActivityModel, StateActivity,
};
use crate::text::{
    decimal, decimal_text, join_strings, joined, list_has, opt_str, opt_text, same_text,
    strip_bom, texts, without_bom,
};
use crate::text_map::TextMap;
use vstd::prelude::*;

verus! {

/// Where the database of detectable applications is published.
pub const DETECTABLE_URL: &'static str = "https://discord.com/api/v9/applications/detectable";

/// Where the corrections to the database are published.
pub const FIXES_URL: &'static str = "https://gist.githubusercontent.com/Creationsss/2f25b7d76259b8fd2f23cf27cd538162/raw/detectable_fixes.json";

/// The directory of the database where none is configured.
pub const DEFAULT_DATA_DIR: &'static str = "assets";

// ---------------------------------------------------------------------------
// Time
// ---------------------------------------------------------------------------
/// The time in milliseconds since 1970, as the clock of the machine shows it.
pub fn now_ms() -> (r: u64) {
    low_ms(clock::now_ms())
}

/// A time in milliseconds in 64 bits; what does not fit is cut off at the top.
pub fn low_ms(ms: u128) -> (r: u64)
    ensures
        r == ms % 0x1_0000_0000_0000_0000,
{
    let low: u64 = #[verifier::truncate] (ms as u64);
    assert(ms as u64 == ms % 0x1_0000_0000_0000_0000) by (bit_vector);
    low
}

/// The time from `start` to `now` in words, in its two largest units.
pub open spec fn elapsed_text(now: u64, start: u64) -> Seq<char> {
    let seconds: nat = if now > start {
        ((now - start) / 1000) as nat
    } else {
        0
    };
    let hours = seconds / 3600;
    let minutes = seconds % 3600 / 60;
    if hours > 0 {
        decimal(hours) + "h "@ + decimal(minutes) + "m"@
    } else if minutes > 0 {
        decimal(minutes) + "m "@ + decimal(seconds % 60) + "s"@
    } else {
        decimal(seconds % 60) + "s"@
    }
}

/// The time from `start` to `now` in words.
pub fn format_elapsed(now: u64, start: u64) -> (r: String)
    ensures
        r@ == elapsed_text(now, start),
{
    let seconds: u64 = if now > start {
        (now - start) / 1000
    } else {
        0
    };
    let hours: u64 = seconds / 3600;
    let minutes: u64 = seconds % 3600 / 60;
    if hours > 0 {
        let mut out = decimal_text(hours);
        out.append("h ");
        out.append(decimal_text(minutes).as_str());
        out.append("m");
        out
    } else if minutes > 0 {
        let mut out = decimal_text(minutes);
        out.append("m ");
        out.append(decimal_text(seconds % 60).as_str());
        out.append("s");
        out
    } else {
        let mut out = decimal_text(seconds % 60);
        out.append("s");
        out
    }
}

/// The time since `start_time` in words.
pub fn format_duration(start_time: u64) -> (r: String)
    ensures
        exists|now: u64| r@ == #[trigger] elapsed_text(now, start_time),
{
    let now: u64 = now_ms();
    format_elapsed(now, start_time)
}

// ---------------------------------------------------------------------------
// The games that are running
// ---------------------------------------------------------------------------
/// The lines that tell of one activity, the `number`th, at the time `now`.
pub open spec fn activity_report(
    number: nat,
    activity: ActivityModel,
    now: u64,
) -> Seq<Seq<char>> {
    seq![
        "  "@ + decimal(number) + ". "@ + activity.name,
        "     App ID: "@ + activity.application_id,
        "     PID: "@ + decimal(activity.pid as nat),
        "     Socket: "@ + activity.socket_id,
    ] + match activity.start_time {
        Some(start) => seq!["     Duration: "@ + elapsed_text(now, start), ""@],
        None => seq![""@],
    }
}

/// The lines that tell of activities, each at its time in `times`.
pub open spec fn activity_reports(
    activities: Seq<ActivityModel>,
    times: Seq<u64>,
) -> Seq<Seq<char>>
    decreases activities.len(),
{
    if activities.len() == 0 {
        Seq::empty()
    } else {
        activity_reports(activities.drop_last(), times.drop_last()) + activity_report(
            activities.len(),
            activities.last(),
            times.last(),
        )
    }
}

/// The report on the games that are running.
pub open spec fn detected_report(
    activities: Seq<ActivityModel>,
    times: Seq<u64>,
) -> Seq<Seq<char>> {
    seq!["Currently detected games:"@] + if activities.len() == 0 {
        seq!["  No games currently detected."@]
    } else {
        activity_reports(activities, times)
    }
}

fn labelled(label: &str, value: &str) -> (r: String)
    ensures
        r@ == label@ + value@,
{
    let mut out = label.to_string();
    out.append(value);
    out
}

/// The lines that tell of one activity, the `number`th, at the time `now`.
pub fn activity_lines(number: usize, activity: &StateActivity, now: u64) -> (r: Vec<String>)
    ensures
        texts(r@) == activity_report(number as nat, activity@, now),
{
    let mut head = labelled("  ", decimal_text(number as u64).as_str());
    head.append(". ");
    head.append(activity.name.as_str());
    let mut lines: Vec<String> = Vec::new();
    lines.push(head);
    lines.push(labelled("     App ID: ", activity.application_id.as_str()));
    lines.push(labelled("     PID: ", decimal_text(activity.pid).as_str()));
    lines.push(labelled("     Socket: ", activity.socket_id.as_str()));
    if let Some(start) = activity.start_time {
        lines.push(labelled("     Duration: ", format_elapsed(now, start).as_str()));
    }
    lines.push("".to_string());
    assert(texts(lines@) =~= activity_report(number as nat, activity@, now));
    lines
}

/// The report on the games that are running. The clock is read for each of them.
pub fn display_detected_games(activities: &Vec<StateActivity>) -> (r: Vec<String>)
    ensures
        exists|times: Seq<u64>|
            times.len() == activities@.len() && texts(r@) == #[trigger] detected_report(
                activities_model(activities@),
                times,
            ),
{
    let ghost models = activities_model(activities@);
    let ghost mut times: Seq<u64> = Seq::empty();
    let mut lines: Vec<String> = Vec::new();
    lines.push("Currently detected games:".to_string());
    assert(texts(lines@) =~= seq!["Currently detected games:"@]);
    if activities.len() == 0 {
        lines.push("  No games currently detected.".to_string());
        assert(texts(lines@) =~= detected_report(models, times));
        return lines;
    }
    let ghost head = texts(lines@);
    let mut i: usize = 0;
    assert(models.take(0) =~= Seq::empty());
    assert(head + Seq::<Seq<char>>::empty() =~= head);
    while i < activities.len()
        invariant
            i <= activities@.len(),
            models == activities_model(activities@),
            times.len() == i,
            texts(lines@) == head + activity_reports(models.take(i as int), times),
        decreases activities@.len() - i,
    {
        let now: u64 = now_ms();
        let ghost earlier = times;
        let ghost before = lines@;
        proof {
            times = earlier.push(now);
            assert(times.drop_last() =~= earlier);
            assert(models.take(i + 1).drop_last() =~= models.take(i as int));
            assert(models.take(i + 1).last() == activities@[i as int]@);
        }
        let mut more = activity_lines(i + 1, &activities[i], now);
        let ghost added = more@;
        lines.append(&mut more);
        assert(texts(lines@) =~= texts(before) + texts(added));
        assert(texts(lines@) =~= head + activity_reports(models.take(i + 1), times));
        i += 1;
    }
    assert(models.take(i as int) =~= models);
    assert(texts(lines@) == detected_report(models, times));
    lines
}

/// The activity that a message of the bridge tells of.
pub fn state_activity_from_bridge_message(value: &Json) -> (r: Option<StateActivity>)
    ensures
        match r {
            Some(activity) => message_activity(value@) == Some(activity@),
            None => message_activity(value@) is None,
        },
{
    state_activity_from_message(value)
}

/// Whether a message tells of an activity, and does not clear one.
pub fn active_payload_from_state(value: &Json) -> (r: bool)
    ensures
        r == (field(value@, "activity"@) is Some && !(field(value@, "activity"@)->0 is Null)),
{
    match value.get("activity") {
        Some(activity) => !activity.is_null(),
        None => false,
    }
}

/// The activities that the bridge has told of, by their sockets.
#[derive(Debug)]
pub struct BridgeActivities {
    activities: TextMap<StateActivity>,
}

impl View for BridgeActivities {
    type V = Map<Seq<char>, ActivityModel>;

    closed spec fn view(&self) -> Map<Seq<char>, ActivityModel> {
        self.activities@.map_values(|activity: StateActivity| activity@)
    }
}

/// The activities after a message: one without an activity takes that of its
/// socket away.
pub open spec fn after_news(
    activities: Map<Seq<char>, ActivityModel>,
    msg: JsonModel,
) -> Map<Seq<char>, ActivityModel> {
    match message_activity(msg) {
        Some(activity) => activities.insert(activity.socket_id, activity),
        None => match text_field(msg, "socketId"@) {
            Some(id) => activities.remove(id),
            None => activities,
        },
    }
}

/// `list` holds the activities of `activities`, each once, in some order.
pub open spec fn is_listing(
    list: Seq<ActivityModel>,
    activities: Map<Seq<char>, ActivityModel>,
) -> bool {
    exists|keys: Seq<Seq<char>>| #[trigger]
        keys.no_duplicates() && (forall|key: Seq<char>| #[trigger]
            keys.contains(key) <==> activities.contains_key(key)) && list == keys.map_values(
            |key: Seq<char>| activities[key],
        )
}

impl BridgeActivities {
    /// Each socket has one activity.
    pub closed spec fn wf(&self) -> bool {
        self.activities.wf()
    }

    /// Nothing has been heard yet.
    pub fn new() -> (r: BridgeActivities)
        ensures
            r.wf(),
            r@ == Map::<Seq<char>, ActivityModel>::empty(),
    {
        let r = BridgeActivities { activities: TextMap::new() };
        assert(r@ =~= Map::<Seq<char>, ActivityModel>::empty());
        r
    }

    /// Takes note of a message.
    pub fn on_message(&mut self, msg: &Json)
        requires
            old(self).wf(),
        ensures
            final(self).wf(),
            final(self)@ == after_news(old(self)@, msg@),
    {
        let ghost before = self@;
        match state_activity_from_bridge_message(msg) {
            Some(activity) => {
                let id = activity.socket_id.clone();
                self.activities.insert(id.as_str(), activity);
                assert(self@ =~= before.insert(activity@.socket_id, activity@));
            },
            None => if let Some(id) = msg.get_str("socketId") {
                self.activities.remove(id);
                assert(self@ =~= before.remove(id@));
            },
        }
    }

    /// Takes note of a message that has come as text.
    pub fn on_text(&mut self, text: &str) -> (r: Result<(), JsonError>)
        requires
            old(self).wf(),
        ensures
            final(self).wf(),
            match parsed_text(text@) {
                Some(msg) => r is Ok && final(self)@ == after_news(old(self)@, msg),
                None => r is Err && final(self)@ == old(self)@,
            },
    {
        match Json::parse(text) {
            Ok(msg) => {
                self.on_message(&msg);
                Ok(())
            },
            Err(error) => Err(error),
        }
    }

    /// The activities, each once.
    pub fn into_list(self) -> (r: Vec<StateActivity>)
        requires
            self.wf(),
        ensures
            is_listing(activities_model(r@), self@),
    {
        let ghost all = self@;
        let keys = self.activities.keys();
        let ghost ids = texts(keys@);
        let mut rest = self.activities;
        let mut list: Vec<StateActivity> = Vec::new();
        let mut i: usize = 0;
        assert forall|k: int| 0 <= k < ids.len() implies rest@.contains_key(#[trigger] ids[k])
            && rest@[ids[k]]@ == all[ids[k]] by {
            assert(ids.contains(ids[k]));
        }
        while i < keys.len()
            invariant
                i <= keys@.len(),
                ids == texts(keys@),
                ids.no_duplicates(),
                rest.wf(),
                forall|k: int|
                    i <= k < ids.len() ==> rest@.contains_key(#[trigger] ids[k])
                        && rest@[ids[k]]@ == all[ids[k]],
                list@.len() == i,
                forall|k: int| 0 <= k < i ==> (#[trigger] list@[k])@ == all[ids[k]],
            decreases keys@.len() - i,
        {
            let ghost id = ids[i as int];
            let ghost before = rest@;
            if let Some(activity) = rest.remove(keys[i].as_str()) {
                list.push(activity);
            }
            assert forall|k: int| i + 1 <= k < ids.len() implies rest@.contains_key(
                #[trigger] ids[k],
            ) && rest@[ids[k]]@ == all[ids[k]] by {
                assert(ids[k] != id);
                assert(before.contains_key(ids[k]));
            }
            i += 1;
        }
        assert(activities_model(list@) =~= ids.map_values(|key: Seq<char>| all[key]));
        assert(is_listing(activities_model(list@), all));
        list
    }
}

// ---------------------------------------------------------------------------
// The files of the database
// ---------------------------------------------------------------------------
/// The directory of the database.
pub fn database_dir(config: &RuntimeConfig) -> (r: String)
    ensures
        r@ == match opt_text(config.data_dir) {
            Some(dir) => dir,
            None => DEFAULT_DATA_DIR@,
        },
{
    match &config.data_dir {
        Some(dir) => dir.clone(),
        None => DEFAULT_DATA_DIR.to_string(),
    }
}

/// The value in the text of a file, which may begin with byte order marks.
pub open spec fn file_value(raw: Seq<char>) -> Option<JsonModel> {
    parsed_text(without_bom(raw))
}

/// The items of an array, and none of anything else.
pub open spec fn items_or_none(value: JsonModel) -> Seq<JsonModel> {
    match value {
        JsonModel::Array(items) => items,
        _ => Seq::empty(),
    }
}

/// The value in the text of a file, where it could be read and is JSON.
pub open spec fn value_in_file(raw: Option<Seq<char>>) -> Option<JsonModel> {
    match raw {
        Some(text) => file_value(text),
        None => None,
    }
}

/// Reads the value in the text of a file.
pub fn read_json_value(raw: &str) -> (r: Result<Json, JsonError>)
    ensures
        match file_value(raw@) {
            Some(value) => r matches Ok(json) && json@ == value,
            None => r matches Err(JsonError::Malformed(_)),
        },
{
    Json::parse(strip_bom(raw).as_str())
}

fn into_items(value: Json) -> (r: Vec<Json>)
    ensures
        items_model(r@) == items_or_none(value@),
{
    match value {
        Json::Array(items) => items,
        _ => {
            let none: Vec<Json> = Vec::new();
            assert(items_model(none@) =~= Seq::empty());
            none
        },
    }
}

/// Reads the items of the array in the text of a file; there are none where it
/// is no array.
pub fn read_json_array(raw: &str) -> (r: Result<Vec<Json>, JsonError>)
    ensures
        match file_value(raw@) {
            Some(value) => r matches Ok(items) && items_model(items@) == items_or_none(value),
            None => r matches Err(JsonError::Malformed(_)),
        },
{
    match read_json_value(raw) {
        Ok(value) => Ok(into_items(value)),
        Err(error) => Err(error),
    }
}

/// The entries of a file of the database, as far as it could be read.
pub fn current_entries(raw: Option<&str>) -> (r: Vec<Json>)
    ensures
        items_model(r@) == entries_before(opt_str(raw)),
{
    let none: Vec<Json> = Vec::new();
    assert(items_model(none@) =~= Seq::empty());
    match raw {
        Some(text) => match read_json_array(text) {
            Ok(items) => items,
            Err(_) => none,
        },
        None => none,
    }
}

/// The corrections to check: those of the file or, where it could not be read
/// or is no JSON, those that the program has with it.
pub fn fixes_to_check(raw: Option<&str>, bundled: &str) -> (r: Json)
    ensures
        r@ == checked_fixes(opt_str(raw), bundled@),
{
    if let Some(text) = raw {
        if let Ok(value) = read_json_value(text) {
            return value;
        }
    }
    match read_json_value(bundled) {
        Ok(value) => value,
        Err(_) => {
            let none: Vec<Json> = Vec::new();
            assert(items_model(none@) =~= Seq::empty());
            Json::Array(none)
        },
    }
}

/// The database to check against: that of the file or, where it could not be
/// read or is no JSON, the one that the program has with it.
pub fn database_to_check(raw: Option<&str>, bundled: &str) -> (r: Vec<Json>)
    ensures
        items_model(r@) == checked_database(opt_str(raw), bundled@),
{
    if let Some(text) = raw {
        if let Ok(items) = read_json_array(text) {
            return items;
        }
    }
    current_entries(Some(bundled))
}

/// Why what was fetched is no database.
#[derive(Debug)]
pub enum DatabaseError {
    Json(JsonError),
    NotAnArray,
}

/// The entries of a database.
pub fn entries_of(value: Json) -> (r: Result<Vec<Json>, DatabaseError>)
    ensures
        match value@ {
            JsonModel::Array(items) => r matches Ok(v) && items_model(v@) == items,
            _ => r matches Err(DatabaseError::NotAnArray),
        },
{
    match value {
        Json::Array(items) => Ok(items),
        _ => Err(DatabaseError::NotAnArray),
    }
}

/// The entries of a database that was fetched.
pub fn fetched_entries(body: &[u8]) -> (r: Result<Vec<Json>, DatabaseError>)
    ensures
        match parsed_bytes(body@) {
            Some(JsonModel::Array(items)) => r matches Ok(v) && items_model(v@) == items,
            Some(_) => r matches Err(DatabaseError::NotAnArray),
            None => r matches Err(DatabaseError::Json(_)),
        },
{
    match Json::parse_bytes(body) {
        Ok(value) => entries_of(value),
        Err(error) => Err(DatabaseError::Json(error)),
    }
}

/// What is written into a file of the database. Reading it gives the entries
/// back, unless they hold floating point numbers or are nested too deeply for
/// the parser.
pub fn database_bytes(entries: &Vec<Json>) -> (r: Result<Vec<u8>, JsonError>)
    ensures
        r is Ok,
        r->Ok_0@ == pretty_bytes(JsonModel::Array(items_model(entries@))),
        survives(JsonModel::Array(items_model(entries@))) ==> parsed_bytes(r->Ok_0@) == Some(
            JsonModel::Array(items_model(entries@)),
        ),
{
    Json::Array(copy_values(entries)).print_pretty()
}

// ---------------------------------------------------------------------------
// Updates of the database
// ---------------------------------------------------------------------------
/// The line that compares the sizes of two versions.
pub open spec fn size_line(current: nat, updated: nat, noun: Seq<char>) -> Seq<char> {
    "  "@ + decimal(current) + " -> "@ + decimal(updated) + " "@ + noun + " ("@ + (if updated
        >= current {
        "+"@ + decimal((updated - current) as nat)
    } else {
        "-"@ + decimal((current - updated) as nat)
    }) + ")"@
}

/// The line that compares the sizes of two versions.
pub fn update_size_line(current: usize, updated: usize, noun: &str) -> (r: String)
    ensures
        r@ == size_line(current as nat, updated as nat, noun@),
{
    let change = if updated >= current {
        labelled("+", decimal_text((updated - current) as u64).as_str())
    } else {
        labelled("-", decimal_text((current - updated) as u64).as_str())
    };
    let mut out = labelled("  ", decimal_text(current as u64).as_str());
    out.append(" -> ");
    out.append(decimal_text(updated as u64).as_str());
    out.append(" ");
    out.append(noun);
    out.append(" (");
    out.append(change.as_str());
    out.append(")");
    out
}

/// The texts among `updated` that `current` does not have, in order.
pub open spec fn new_texts(
    current: Seq<Seq<char>>,
    updated: Seq<Seq<char>>,
) -> Seq<Seq<char>>
    decreases updated.len(),
{
    if updated.len() == 0 {
        Seq::empty()
    } else {
        let before = new_texts(current, updated.drop_last());
        if current.contains(updated.last()) {
            before
        } else {
            before.push(updated.last())
        }
    }
}

fn find_new(current: &Vec<Json>, updated: &Vec<Json>, key: &str) -> (r: Vec<String>)
    ensures
        texts(r@) == new_texts(
            field_texts(items_model(current@), key@),
            field_texts(items_model(updated@), key@),
        ),
{
    let known = collect_field(current, key);
    let all = collect_field(updated, key);
    let ghost old_texts = texts(known@);
    let ghost list = texts(all@);
    let mut out: Vec<String> = Vec::new();
    let mut i: usize = 0;
    assert(list.take(0) =~= Seq::empty());
    assert(texts(out@) =~= Seq::empty());
    while i < all.len()
        invariant
            i <= all@.len(),
            list == texts(all@),
            old_texts == texts(known@),
            texts(out@) == new_texts(old_texts, list.take(i as int)),
        decreases all@.len() - i,
    {
        assert(list.take(i + 1).drop_last() =~= list.take(i as int));
        assert(list.take(i + 1).last() == all@[i as int]@);
        if !list_has(&known, all[i].as_str()) {
            let ghost before = out@;
            out.push(all[i].clone());
            assert(texts(out@) =~= texts(before).push(all@[i as int]@));
        }
        i += 1;
    }
    assert(list.take(i as int) =~= list);
    out
}

/// How many new names are shown.
pub const SHOWN_NAMES: usize = 5;

/// The report on the new names of an update: the first few of them.
pub open spec fn names_report(names: Seq<Seq<char>>, label: Seq<char>) -> Seq<Seq<char>> {
    let shown = if names.len() > SHOWN_NAMES {
        names.take(SHOWN_NAMES as int)
    } else {
        names
    };
    let line = "  "@ + label + ": "@ + joined(shown, ", "@);
    if names.len() == 0 {
        Seq::empty()
    } else if names.len() > SHOWN_NAMES {
        seq![line, "  ... and more"@]
    } else {
        seq![line]
    }
}

/// The report on the entries of `updated` with new names.
pub fn new_names_lines(current: &Vec<Json>, updated: &Vec<Json>, label: &str) -> (r: Vec<String>)
    ensures
        texts(r@) == names_report(
            new_texts(
                field_texts(items_model(current@), "name"@),
                field_texts(items_model(updated@), "name"@),
            ),
            label@,
        ),
{
    let names = find_new(current, updated, "name");
    let ghost all = texts(names@);
    let mut lines: Vec<String> = Vec::new();
    if names.len() == 0 {
        assert(texts(lines@) =~= Seq::empty());
        return lines;
    }
    let shown: usize = if names.len() > SHOWN_NAMES {
        SHOWN_NAMES
    } else {
        names.len()
    };
    let head = &names.as_slice()[0..shown];
    assert(texts(head@) =~= all.take(shown as int));
    assert(names@.len() <= SHOWN_NAMES ==> all.take(shown as int) =~= all);
    let mut line = labelled("  ", label);
    line.append(": ");
    line.append(join_strings(head, ", ").as_str());
    let ghost text = line@;
    lines.push(line);
    assert(texts(lines@) =~= seq![text]);
    if names.len() > SHOWN_NAMES {
        lines.push("  ... and more".to_string());
        assert(texts(lines@) =~= seq![text, "  ... and more"@]);
    }
    lines
}

/// The report on the new ids of an update.
pub open spec fn ids_report(ids: Seq<Seq<char>>, label: Seq<char>) -> Seq<Seq<char>> {
    if ids.len() == 0 {
        Seq::empty()
    } else {
        seq!["  "@ + label + ": "@ + joined(ids, ", "@)]
    }
}

/// The report on the entries of `updated` with new ids.
pub fn new_ids_lines(current: &Vec<Json>, updated: &Vec<Json>, label: &str) -> (r: Vec<String>)
    ensures
        texts(r@) == ids_report(
            new_texts(
                field_texts(items_model(current@), "id"@),
                field_texts(items_model(updated@), "id"@),
            ),
            label@,
        ),
{
    let ids = find_new(current, updated, "id");
    let mut lines: Vec<String> = Vec::new();
    if ids.len() > 0 {
        let mut line = labelled("  ", label);
        line.append(": ");
        line.append(join_strings(ids.as_slice(), ", ").as_str());
        let ghost text = line@;
        lines.push(line);
        assert(texts(lines@) =~= seq![text]);
    } else {
        assert(texts(lines@) =~= Seq::empty());
    }
    lines
}

/// The report on an update of the database.
pub fn database_update_lines(current: &Vec<Json>, updated: &Vec<Json>) -> (r: Vec<String>)
    ensures
        texts(r@) == database_update_report(items_model(current@), items_model(updated@)),
{
    let size = update_size_line(current.len(), updated.len(), "games");
    let ghost text = size@;
    let mut names = new_names_lines(current, updated, "New games");
    let ghost report = texts(names@);
    let mut lines: Vec<String> = Vec::new();
    lines.push("Updated detectable.json".to_string());
    lines.push(size);
    lines.append(&mut names);
    assert(texts(lines@) =~= seq!["Updated detectable.json"@, text] + report);
    lines
}

/// The report on an update of the corrections.
pub fn fixes_update_lines(current: &Vec<Json>, updated: &Vec<Json>) -> (r: Vec<String>)
    ensures
        texts(r@) == fixes_update_report(items_model(current@), items_model(updated@)),
{
    let size = update_size_line(current.len(), updated.len(), "entries");
    let ghost text = size@;
    let mut ids = new_ids_lines(current, updated, "New fixes");
    let ghost report = texts(ids@);
    let mut lines: Vec<String> = Vec::new();
    lines.push("Updated detectable_fixes.json".to_string());
    lines.push(size);
    lines.append(&mut ids);
    assert(texts(lines@) =~= seq!["Updated detectable_fixes.json"@, text] + report);
    lines
}

/// A file of the database after an update: what is written into it, and the
/// report on what has changed.
#[derive(Debug)]
pub struct DatabaseUpdate {
    pub bytes: Vec<u8>,
    pub lines: Vec<String>,
}

/// The report on an update from `current` to `updated` of the database.
pub open spec fn database_update_report(
    current: Seq<JsonModel>,
    updated: Seq<JsonModel>,
) -> Seq<Seq<char>> {
    seq!["Updated detectable.json"@, size_line(current.len(), updated.len(), "games"@)]
        + names_report(
        new_texts(field_texts(current, "name"@), field_texts(updated, "name"@)),
        "New games"@,
    )
}

/// The report on an update from `current` to `updated` of the corrections.
pub open spec fn fixes_update_report(
    current: Seq<JsonModel>,
    updated: Seq<JsonModel>,
) -> Seq<Seq<char>> {
    seq!["Updated detectable_fixes.json"@, size_line(current.len(), updated.len(), "entries"@)]
        + ids_report(
        new_texts(field_texts(current, "id"@), field_texts(updated, "id"@)),
        "New fixes"@,
    )
}

/// The entries that a file had before an update, as far as it could be read.
pub open spec fn entries_before(raw: Option<Seq<char>>) -> Seq<JsonModel> {
    match value_in_file(raw) {
        Some(value) => items_or_none(value),
        None => Seq::empty(),
    }
}

/// `r` is the update to what was fetched as `body`, with this report on it.
pub open spec fn is_update(
    r: Result<DatabaseUpdate, DatabaseError>,
    body: Seq<u8>,
    report: spec_fn(Seq<JsonModel>) -> Seq<Seq<char>>,
) -> bool {
    match parsed_bytes(body) {
        Some(JsonModel::Array(items)) => r matches Ok(update) && update.bytes@ == pretty_bytes(
            JsonModel::Array(items),
        ) && texts(update.lines@) == report(items),
        Some(_) => r matches Err(DatabaseError::NotAnArray),
        None => r matches Err(DatabaseError::Json(_)),
    }
}

/// Updates the database from `current`, the text of its file, to what was
/// fetched as `body`.
pub fn update_database(current: Option<&str>, body: &[u8]) -> (r: Result<
    DatabaseUpdate,
    DatabaseError,
>)
    ensures
        is_update(
            r,
            body@,
            |items: Seq<JsonModel>|
                database_update_report(entries_before(opt_str(current)), items),
        ),
{
    match fetched_entries(body) {
        Ok(updated) => match database_bytes(&updated) {
            Ok(bytes) => {
                let before = current_entries(current);
                let lines = database_update_lines(&before, &updated);
                Ok(DatabaseUpdate { bytes, lines })
            },
            Err(error) => Err(DatabaseError::Json(error)),
        },
        Err(error) => Err(error),
    }
}

/// Updates the corrections from `current`, the text of their file, to what was
/// fetched as `body`.
pub fn update_fixes(current: Option<&str>, body: &[u8]) -> (r: Result<
    DatabaseUpdate,
    DatabaseError,
>)
    ensures
        is_update(
            r,
            body@,
            |items: Seq<JsonModel>| fixes_update_report(entries_before(opt_str(current)), items),
        ),
{
    match fetched_entries(body) {
        Ok(updated) => match database_bytes(&updated) {
            Ok(bytes) => {
                let before = current_entries(current);
                let lines = fixes_update_lines(&before, &updated);
                Ok(DatabaseUpdate { bytes, lines })
            },
            Err(error) => Err(DatabaseError::Json(error)),
        },
        Err(error) => Err(error),
    }
}

/// What is said where the corrections could not be fetched, and why not.
pub fn fixes_fetch_failed(error: &str) -> (r: String)
    ensures
        r@ == "Failed to fetch detectable_fixes.json: "@ + error@,
{
    labelled("Failed to fetch detectable_fixes.json: ", error)
}

/// What is to be done about the corrections once they have been asked for.
#[derive(Debug)]
pub enum FixesStep {
    /// Keep the file as it is, report the failure and give notice of it.
    Keep { failure: String, notice: String },
    /// Write the update into the file.
    Write(DatabaseUpdate),
}

/// `r` is what is to be done about the corrections, of which `current` is the text
/// of their file, when `fetched` has come back for them.
pub open spec fn is_fixes_step(
    current: Option<Seq<char>>,
    fetched: Result<Seq<u8>, Seq<char>>,
    r: Result<FixesStep, DatabaseError>,
) -> bool {
    match fetched {
        Ok(body) => {
            let report = |items: Seq<JsonModel>|
                fixes_update_report(entries_before(current), items);
            match r {
                Ok(FixesStep::Write(update)) => is_update(Ok(update), body, report),
                Ok(FixesStep::Keep { failure, notice }) => false,
                Err(error) => is_update(Err(error), body, report),
            }
        },
        Err(error) => {
            &&& r matches Ok(FixesStep::Keep { failure, notice })
            &&& failure@ == "Failed to fetch detectable_fixes.json: "@ + error
            &&& notice@ == "Keeping existing detectable_fixes.json"@
        },
    }
}

/// What came back for a request: the bytes, or why there are none.
pub open spec fn fetched_model(fetched: Result<&[u8], String>) -> Result<Seq<u8>, Seq<char>> {
    match fetched {
        Ok(body) => Ok(body@),
        Err(error) => Err(error@),
    }
}

/// What is to be done about the corrections, of which `current` is the text of
/// their file, when `fetched` has come back for them: where they could not be
/// fetched the file is kept, and what is no array of entries is an error.
pub fn fixes_step(current: Option<&str>, fetched: Result<&[u8], String>) -> (r: Result<
    FixesStep,
    DatabaseError,
>)
    ensures
        is_fixes_step(opt_str(current), fetched_model(fetched), r),
{
    match fetched {
        Ok(body) => match update_fixes(current, body) {
            Ok(update) => Ok(FixesStep::Write(update)),
            Err(error) => Err(error),
        },
        Err(error) => Ok(
            FixesStep::Keep {
                failure: fixes_fetch_failed(error.as_str()),
                notice: "Keeping existing detectable_fixes.json".to_string(),
            },
        ),
    }
}

// ---------------------------------------------------------------------------
// The check of the corrections
// ---------------------------------------------------------------------------
/// The value in the text of a file or, where it could not be read or is no
/// JSON, in the text that the program has with it.
pub open spec fn file_or_bundled(raw: Option<Seq<char>>, bundled: Seq<char>) -> Option<JsonModel> {
    match value_in_file(raw) {
        Some(value) => Some(value),
        None => file_value(bundled),
    }
}

/// The corrections that are checked.
pub open spec fn checked_fixes(raw: Option<Seq<char>>, bundled: Seq<char>) -> JsonModel {
    match file_or_bundled(raw, bundled) {
        Some(value) => value,
        None => JsonModel::Array(Seq::empty()),
    }
}

/// The database that corrections are checked against.
pub open spec fn checked_database(
    raw: Option<Seq<char>>,
    bundled: Seq<char>,
) -> Seq<JsonModel> {
    match file_or_bundled(raw, bundled) {
        Some(value) => items_or_none(value),
        None => Seq::empty(),
    }
}

/// Checks the file of corrections against the file of the database; the texts
/// that the program has with it stand in for files that cannot be used.
pub fn check_fixes_files(
    fixes: Option<&str>,
    bundled_fixes: &str,
    database: Option<&str>,
    bundled_database: &str,
) -> (r: FixesReport)
    ensures
        is_report_on(
            r,
            checked_fixes(opt_str(fixes), bundled_fixes@),
            checked_database(opt_str(database), bundled_database@),
        ),
{
    let value = fixes_to_check(fixes, bundled_fixes);
    let db = database_to_check(database, bundled_database);
    validate_fixes(&value, &db)
}

// ---------------------------------------------------------------------------
// The contents of the database
// ---------------------------------------------------------------------------
/// An application of the database, as far as it is listed.
#[derive(Debug)]
pub struct CliDetectableApp {
    pub id: String,
    pub name: String,
    pub executables: Option<Vec<CliDetectableExecutable>>,
}

/// A program of an application: the platform that it is for.
#[derive(Debug)]
pub struct CliDetectableExecutable {
    pub os: Option<String>,
}

pub struct ListedModel {
    pub id: Seq<char>,
    pub name: Seq<char>,
    pub platforms: Option<Seq<Option<Seq<char>>>>,
}

/// The platform of each program.
pub open spec fn platforms_model(
    executables: Seq<CliDetectableExecutable>,
) -> Seq<Option<Seq<char>>> {
    executables.map_values(|executable: CliDetectableExecutable| opt_text(executable.os))
}

impl View for CliDetectableApp {
    type V = ListedModel;

    open spec fn view(&self) -> ListedModel {
        ListedModel {
            id: self.id@,
            name: self.name@,
            platforms: match self.executables {
                Some(executables) => Some(platforms_model(executables@)),
                None => None,
            },
        }
    }
}

/// What each application stands for.
pub open spec fn listed_model(apps: Seq<CliDetectableApp>) -> Seq<ListedModel> {
    apps.map_values(|app: CliDetectableApp| app@)
}

/// What an application is counted as: the one platform of its programs,
/// several (or none at all), or a platform that is not counted.
#[derive(Debug, Clone, Copy, PartialEq, Eq, Structural)]
pub enum PlatformGroup {
    Windows,
    Linux,
    MacOs,
    Several,
    Other,
}

/// `os` is the one platform that `platforms` name.
pub open spec fn is_only_platform(platforms: Seq<Option<Seq<char>>>, os: Seq<char>) -> bool {
    &&& platforms.contains(Some(os))
    &&& forall|i: int|
        0 <= i < platforms.len() && (#[trigger] platforms[i]) is Some ==> platforms[i] == Some(os)
}

/// What programs for these platforms are counted as.
pub open spec fn group_of(platforms: Seq<Option<Seq<char>>>) -> PlatformGroup {
    if is_only_platform(platforms, "win32"@) {
        PlatformGroup::Windows
    } else if is_only_platform(platforms, "linux"@) {
        PlatformGroup::Linux
    } else if is_only_platform(platforms, "darwin"@) {
        PlatformGroup::MacOs
    } else if exists|os: Seq<char>| #[trigger] is_only_platform(platforms, os) {
        PlatformGroup::Other
    } else {
        PlatformGroup::Several
    }
}

/// How many applications are counted as `group`; those without programs are not counted.
pub open spec fn count_of(apps: Seq<ListedModel>, group: PlatformGroup) -> nat
    decreases apps.len(),
{
    if apps.len() == 0 {
        0
    } else {
        let before = count_of(apps.drop_last(), group);
        match apps.last().platforms {
            Some(platforms) if group_of(platforms) == group => before + 1,
            _ => before,
        }
    }
}

/// How many applications are shown as examples.
pub const SHOWN_APPS: usize = 10;

/// The line of the example `index`.
pub open spec fn example_line(index: int, app: ListedModel) -> Seq<char> {
    "  "@ + decimal((index + 1) as nat) + ". "@ + app.name + " ("@ + app.id + ")"@
}

/// The lines of the first `count` applications.
pub open spec fn example_lines(apps: Seq<ListedModel>, count: nat) -> Seq<Seq<char>> {
    Seq::new(count, |i: int| example_line(i, apps[i]))
}

/// The report on the contents of the database.
pub open spec fn database_report(apps: Seq<ListedModel>) -> Seq<Seq<char>> {
    seq![
        "Total games in database: "@ + decimal(apps.len()),
        "Games by platform:"@,
        "  Windows:        "@ + decimal(count_of(apps, PlatformGroup::Windows)),
        "  Linux:          "@ + decimal(count_of(apps, PlatformGroup::Linux)),
        "  macOS:          "@ + decimal(count_of(apps, PlatformGroup::MacOs)),
        "  Multi-platform: "@ + decimal(count_of(apps, PlatformGroup::Several)),
        ""@,
        "Example games:"@,
    ] + example_lines(
        apps,
        if apps.len() > SHOWN_APPS {
            SHOWN_APPS as nat
        } else {
            apps.len()
        },
    )
}

fn platform_group(executables: &Vec<CliDetectableExecutable>) -> (r: PlatformGroup)
    ensures
        r == group_of(platforms_model(executables@)),
{
    let ghost platforms = platforms_model(executables@);
    let mut only: Option<String> = None;
    let mut i: usize = 0;
    while i < executables.len()
        invariant
            i <= executables@.len(),
            platforms == platforms_model(executables@),
            match only {
                Some(os) => platforms.contains(Some(os@)) && forall|j: int|
                    0 <= j < i && (#[trigger] platforms[j]) is Some ==> platforms[j] == Some(
                        os@,
                    ),
                None => forall|j: int| 0 <= j < i ==> (#[trigger] platforms[j]) is None,
            },
        decreases executables@.len() - i,
    {
        assert(platforms[i as int] == opt_text(executables@[i as int].os));
        if let Some(os) = &executables[i].os {
            match &only {
                Some(first) => if !same_text(first.as_str(), os.as_str()) {
                    assert forall|one: Seq<char>| !(#[trigger] is_only_platform(
                        platforms,
                        one,
                    )) by {
                        let k = choose|k: int|
                            0 <= k < platforms.len() && platforms[k] == Some(first@);
                        assert(platforms[k] is Some);
                    }
                    return PlatformGroup::Several;
                },
                None => {
                    only = Some(os.clone());
                },
            }
        }
        i += 1;
    }
    match &only {
        Some(os) => {
            assert(is_only_platform(platforms, os@));
            assert forall|one: Seq<char>| #[trigger]
                is_only_platform(platforms, one) implies one == os@ by {
                let k = choose|k: int| 0 <= k < platforms.len() && platforms[k] == Some(one);
                assert(platforms[k] is Some);
            }
            if same_text(os.as_str(), "win32") {
                PlatformGroup::Windows
            } else if same_text(os.as_str(), "linux") {
                PlatformGroup::Linux
            } else if same_text(os.as_str(), "darwin") {
                PlatformGroup::MacOs
            } else {
                PlatformGroup::Other
            }
        },
        None => {
            assert forall|one: Seq<char>| !(#[trigger] is_only_platform(platforms, one)) by {
                if platforms.contains(Some(one)) {
                    let k = choose|k: int| 0 <= k < platforms.len() && platforms[k] == Some(one);
                    assert(platforms[k] is Some);
                }
            }
            PlatformGroup::Several
        },
    }
}

fn count_group(apps: &Vec<CliDetectableApp>, group: PlatformGroup) -> (r: usize)
    ensures
        r == count_of(listed_model(apps@), group),
{
    let ghost models = listed_model(apps@);
    let mut count: usize = 0;
    let mut i: usize = 0;
    assert(models.take(0) =~= Seq::empty());
    while i < apps.len()
        invariant
            i <= apps@.len(),
            models == listed_model(apps@),
            count <= i,
            count == count_of(models.take(i as int), group),
        decreases apps@.len() - i,
    {
        assert(models.take(i + 1).drop_last() =~= models.take(i as int));
        assert(models.take(i + 1).last() == apps@[i as int]@);
        if let Some(executables) = &apps[i].executables {
            if platform_group(executables) == group {
                count += 1;
            }
        }
        i += 1;
    }
    assert(models.take(i as int) =~= models);
    count
}

/// The report on the contents of the database.
pub fn list_database(apps: &Vec<CliDetectableApp>) -> (r: Vec<String>)
    ensures
        texts(r@) == database_report(listed_model(apps@)),
{
    let ghost models = listed_model(apps@);
    let windows: usize = count_group(apps, PlatformGroup::Windows);
    let linux: usize = count_group(apps, PlatformGroup::Linux);
    let macos: usize = count_group(apps, PlatformGroup::MacOs);
    let several: usize = count_group(apps, PlatformGroup::Several);
    let mut lines: Vec<String> = Vec::new();
    lines.push(labelled("Total games in database: ", decimal_text(apps.len() as u64).as_str()));
    lines.push("Games by platform:".to_string());
    lines.push(labelled("  Windows:        ", decimal_text(windows as u64).as_str()));
    lines.push(labelled("  Linux:          ", decimal_text(linux as u64).as_str()));
    lines.push(labelled("  macOS:          ", decimal_text(macos as u64).as_str()));
    lines.push(labelled("  Multi-platform: ", decimal_text(several as u64).as_str()));
    lines.push("".to_string());
    lines.push("Example games:".to_string());
    let ghost head = texts(lines@);
    let mut i: usize = 0;
    while i < apps.len() && i < SHOWN_APPS
        invariant
            i <= apps@.len(),
            i <= SHOWN_APPS,
            models == listed_model(apps@),
            texts(lines@) == head + example_lines(models, i as nat),
        decreases apps@.len() - i,
    {
        let mut line = labelled("  ", decimal_text((i + 1) as u64).as_str());
        line.append(". ");
        line.append(apps[i].name.as_str());
        line.append(" (");
        line.append(apps[i].id.as_str());
        line.append(")");
        let ghost before = lines@;
        let ghost text = line@;
        assert(text == example_line(i as int, models[i as int]));
        lines.push(line);
        assert(texts(lines@) =~= texts(before).push(text));
        assert(texts(lines@) =~= head + example_lines(models, (i + 1) as nat));
        i += 1;
    }
    assert(texts(lines@) =~= database_report(models));
    lines
}

// ---------------------------------------------------------------------------
// The bridge, seen from a client
// ---------------------------------------------------------------------------
/// The address of the bridge.
pub fn bridge_url(host: &str, port: u16) -> (r: String)
    ensures
        r@ == "ws://"@ + host@ + ":"@ + decimal(port as nat),
{
    let mut url = labelled("ws://", host);
    url.append(":");
    url.append(decimal_text(port as u64).as_str());
    url
}

/// What is said where no port of the bridge could be reached, and why the last
/// one could not.
pub fn bridge_unreachable(last_error: Option<&str>) -> (r: String)
    ensures
        r@ == match opt_str(last_error) {
            Some(error) => "Could not connect to arrpc bridge: "@ + error,
            None => "Could not connect to arrpc bridge."@,
        },
{
    match last_error {
        Some(error) => labelled("Could not connect to arrpc bridge: ", error),
        None => "Could not connect to arrpc bridge.".to_string(),
    }
}

// ---------------------------------------------------------------------------
// Laws
// ---------------------------------------------------------------------------
/// The activities that the messages of the bridge tell of, by their sockets.
pub open spec fn activities_of(messages: Map<Seq<char>, JsonModel>) -> Map<
    Seq<char>,
    ActivityModel,
> {
    Map::new(
        |id: Seq<char>| messages.contains_key(id) && message_activity(messages[id]) is Some,
        |id: Seq<char>| message_activity(messages[id])->0,
    )
}

/// The activities after several messages.
pub open spec fn after_all_news(
    activities: Map<Seq<char>, ActivityModel>,
    values: Seq<JsonModel>,
) -> Map<Seq<char>, ActivityModel>
    decreases values.len(),
{
    if values.len() == 0 {
        activities
    } else {
        after_news(after_all_news(activities, values.drop_last()), values.last())
    }
}

/// A client that has heard all of the bridge's messages knows the same
/// activities as the bridge, and still does after one more message.
pub proof fn clients_stay_in_step(messages: Map<Seq<char>, JsonModel>, msg: JsonModel)
    requires
        is_by_socket(messages),
    ensures
        after_news(activities_of(messages), msg) == activities_of(after_message(messages, msg)),
{
    assert(after_news(activities_of(messages), msg) =~= activities_of(
        after_message(messages, msg),
    ));
}

/// A new client knows the same activities as the bridge once it has heard the
/// messages that are replayed to it, in whatever order they come.
pub proof fn replay_tells_all(
    messages: Map<Seq<char>, JsonModel>,
    values: Seq<JsonModel>,
    keys: Seq<Seq<char>>,
)
    requires
        is_by_socket(messages),
        is_replay_of(values, messages, keys),
    ensures
        after_all_news(Map::empty(), values) == activities_of(messages),
{
    lemma_replayed(messages, values, keys, values.len() as int);
    assert(values.take(values.len() as int) =~= values);
    assert(keys.take(values.len() as int) =~= keys);
    assert(after_all_news(Map::empty(), values) =~= activities_of(messages));
}

proof fn lemma_replayed(
    messages: Map<Seq<char>, JsonModel>,
    values: Seq<JsonModel>,
    keys: Seq<Seq<char>>,
    count: int,
)
    requires
        is_by_socket(messages),
        is_replay_of(values, messages, keys),
        0 <= count <= values.len(),
    ensures
        after_all_news(Map::empty(), values.take(count)) == activities_of(messages).restrict(
            keys.take(count).to_set(),
        ),
    decreases count,
{
    let known = after_all_news(Map::empty(), values.take(count));
    let told = activities_of(messages).restrict(keys.take(count).to_set());
    if count == 0 {
        assert(known =~= told);
    } else {
        lemma_replayed(messages, values, keys, count - 1);
        let earlier = keys.take(count - 1);
        let now = keys.take(count);
        let key = keys[count - 1];
        assert(values.take(count).drop_last() =~= values.take(count - 1));
        assert(values[count - 1] == messages[key]);
        assert(keys.contains(key));
        assert(messages.contains_key(key));
        assert(!earlier.contains(key)) by {
            assert forall|j: int| 0 <= j < count - 1 implies earlier[j] != key by {
                assert(keys[j] != keys[count - 1]);
            }
        }
        assert forall|id: Seq<char>| #[trigger]
            now.contains(id) <==> earlier.contains(id) || id == key by {
            if earlier.contains(id) {
                let j = choose|j: int|
                    0 <= j < earlier.len() && earlier[j] == id;
                assert(now[j] == id);
            }
            if id == key {
                assert(now[count - 1] == id);
            }
            if now.contains(id) && id != key {
                let j = choose|j: int| 0 <= j < now.len() && now[j] == id;
                assert(earlier[j] == id);
            }
        }
        assert forall|id: Seq<char>| #[trigger]
            known.contains_key(id) <==> told.contains_key(id) by {
            assert(now.contains(id) <==> earlier.contains(id) || id
                == key);
        }
        assert(known =~= told);
    }
}

/// What a client sets is listed under its socket, with the process that it
/// names and, unless it names others itself, with its own id and name.
pub proof fn activities_are_listed(
    session: SessionModel,
    activity: Map<Seq<char>, JsonModel>,
    pid: JsonModel,
)
    ensures
        ({
            let msg = activity_message(
                published_activity(session, activity),
                pid,
                session.socket_id,
            );
            &&& message_activity(msg) matches Some(listed)
            &&& listed.socket_id == session.socket_id
            &&& listed.pid == match u64_of(pid) {
                Some(n) => n,
                None => 0,
            }
            &&& !activity.contains_key("application_id"@) ==> listed.application_id
                == session.client_id
            &&& !activity.contains_key("name"@) ==> JsonModel::Text(listed.name) == shown_name(
                session,
            )
        }),
{
    lemma_activity_message(published_activity(session, activity), pid, session.socket_id);
    reveal_strlit("application_id");
    reveal_strlit("type");
    reveal_strlit("name");
    reveal_strlit("metadata");
    reveal_strlit("flags");
    reveal_strlit("buttons");
    assert("application_id"@.len() != "type"@.len());
    assert("application_id"@.len() != "name"@.len());
    assert("application_id"@.len() != "metadata"@.len());
    assert("application_id"@.len() != "flags"@.len());
    assert("application_id"@.len() != "buttons"@.len());
    assert("name"@[0] != "type"@[0]);
    assert("name"@.len() != "metadata"@.len());
    assert("name"@.len() != "flags"@.len());
    assert("name"@.len() != "buttons"@.len());
}

/// Each application with programs is counted once, under one of the groups.
pub proof fn groups_count_each_app_once(apps: Seq<ListedModel>)
    ensures
        count_of(apps, PlatformGroup::Windows) + count_of(apps, PlatformGroup::Linux) + count_of(
            apps,
            PlatformGroup::MacOs,
        ) + count_of(apps, PlatformGroup::Several) + count_of(apps, PlatformGroup::Other)
            == apps.filter(|app: ListedModel| app.platforms is Some).len(),
    decreases apps.len(),
{
    reveal(Seq::filter);
    if apps.len() > 0 {
        groups_count_each_app_once(apps.drop_last());
    }
}

/// A time is told in its two largest units: hours and minutes, minutes and
/// seconds, or seconds alone; parts of a second do not count, and a start that is
/// ahead counts as none.
pub proof fn times_are_told_in_two_units(
    now: u64,
    start: u64,
    hours: nat,
    minutes: nat,
    seconds: nat,
    rest: nat,
)
    requires
        minutes < 60,
        seconds < 60,
        rest < 1000,
        now == start + (hours * 3600 + minutes * 60 + seconds) * 1000 + rest,
    ensures
        hours > 0 ==> elapsed_text(now, start) == decimal(hours) + "h "@ + decimal(minutes) + "m"@,
        hours == 0 && minutes > 0 ==> elapsed_text(now, start) == decimal(minutes) + "m "@
            + decimal(seconds) + "s"@,
        hours == 0 && minutes == 0 ==> elapsed_text(now, start) == decimal(seconds) + "s"@,
{
    let total = hours * 3600 + minutes * 60 + seconds;
    let spent = (now - start) as nat;
    assert(spent / 1000 == total);
    assert(total / 3600 == hours);
    assert(total % 3600 == minutes * 60 + seconds);
    assert((minutes * 60 + seconds) / 60 == minutes);
    assert(total % 60 == seconds);
}

/// A start that is not behind counts as no time.
pub proof fn starts_ahead_count_as_none(now: u64, start: u64)
    requires
        now <= start,
    ensures
        elapsed_text(now, start) == decimal(0) + "s"@,
{
}

/// An activity is told of by its number and its name, its application, its
/// process and its socket, by how long it goes on where that is known, and an
/// empty line.
pub proof fn activities_are_told_of_line_by_line(number: nat, activity: ActivityModel, now: u64)
    ensures
        ({
            let lines = activity_report(number, activity, now);
            &&& lines[0] == "  "@ + decimal(number) + ". "@ + activity.name
            &&& lines[1] == "     App ID: "@ + activity.application_id
            &&& lines[2] == "     PID: "@ + decimal(activity.pid as nat)
            &&& lines[3] == "     Socket: "@ + activity.socket_id
            &&& activity.start_time is None ==> lines.len() == 5
            &&& activity.start_time is Some ==> lines.len() == 6 && lines[4] == "     Duration: "@
                + elapsed_text(now, activity.start_time->0)
            &&& lines.last() == ""@
        }),
{
}

/// The games are told of in their order and numbered from one, below a line that
/// says so; without games that is said.
pub proof fn games_are_numbered_in_their_order(
    activities: Seq<ActivityModel>,
    times: Seq<u64>,
    activity: ActivityModel,
    now: u64,
)
    requires
        activities.len() == times.len(),
    ensures
        detected_report(Seq::empty(), Seq::empty()) == seq![
            "Currently detected games:"@,
            "  No games currently detected."@,
        ],
        detected_report(activities.push(activity), times.push(now)) == seq![
            "Currently detected games:"@,
        ] + activity_reports(activities, times) + activity_report(
            activities.len() + 1,
            activity,
            now,
        ),
        activities.len() > 0 ==> detected_report(activities, times) == seq![
            "Currently detected games:"@,
        ] + activity_reports(activities, times),
        activity_reports(Seq::empty(), Seq::empty()) == Seq::<Seq<char>>::empty(),
{
    assert(activities.push(activity).drop_last() =~= activities);
    assert(times.push(now).drop_last() =~= times);
    assert(detected_report(activities.push(activity), times.push(now)) =~= seq![
        "Currently detected games:"@,
    ] + activity_reports(activities, times) + activity_report(
        activities.len() + 1,
        activity,
        now,
    ));
    assert(detected_report(Seq::empty(), Seq::empty()) =~= seq![
        "Currently detected games:"@,
        "  No games currently detected."@,
    ]);
}

/// News with an activity put it under its socket, news with none or with null take
/// away what the socket had, and news without a socket change nothing.
pub proof fn news_change_their_socket_alone(
    activities: Map<Seq<char>, ActivityModel>,
    msg: JsonModel,
    id: Seq<char>,
)
    ensures
        ({
            let after = after_news(activities, msg);
            let socket = text_field(msg, "socketId"@);
            let activity = field(msg, "activity"@);
            &&& socket is None ==> after == activities
            &&& socket is Some && activity is Some && activity != Some(JsonModel::Null)
                ==> after.contains_key(socket->0) && Some(after[socket->0]) == message_activity(msg)
            &&& socket is Some && (activity is None || activity == Some(JsonModel::Null))
                ==> !after.contains_key(socket->0)
            &&& socket != Some(id) ==> after.contains_key(id) == activities.contains_key(id)
                && after[id] == activities[id]
        }),
{
}

/// The sizes before and after an update are told with their difference and its
/// sign.
pub proof fn sizes_are_told_with_their_difference(current: nat, more: nat, noun: Seq<char>)
    ensures
        size_line(current, current + more, noun) == "  "@ + decimal(current) + " -> "@ + decimal(
            current + more,
        ) + " "@ + noun + " ("@ + ("+"@ + decimal(more)) + ")"@,
        more > 0 ==> size_line(current + more, current, noun) == "  "@ + decimal(current + more)
            + " -> "@ + decimal(current) + " "@ + noun + " ("@ + ("-"@ + decimal(more)) + ")"@,
{
}

/// What is new in an update is what the earlier version does not have, in the
/// order of the update.
pub proof fn new_texts_are_those_not_there_before(
    current: Seq<Seq<char>>,
    first: Seq<Seq<char>>,
    text: Seq<char>,
    rest: Seq<Seq<char>>,
)
    ensures
        new_texts(current, Seq::empty()) == Seq::<Seq<char>>::empty(),
        new_texts(current, seq![text]) == (if exists|i: int|
            0 <= i < current.len() && current[i] == text {
            Seq::empty()
        } else {
            seq![text]
        }),
        new_texts(current, first + rest) == new_texts(current, first) + new_texts(current, rest),
    decreases rest.len(),
{
    let one = seq![text];
    assert(one.drop_last() =~= Seq::empty());
    assert(new_texts(current, one.drop_last()) =~= Seq::empty());
    assert(new_texts(current, one) =~= (if current.contains(text) {
        Seq::empty()
    } else {
        seq![text]
    }));
    let all = first + rest;
    if rest.len() == 0 {
        assert(all =~= first);
        assert(new_texts(current, first) + new_texts(current, rest) =~= new_texts(current, first));
    } else {
        new_texts_are_those_not_there_before(current, first, text, rest.drop_last());
        assert(all.drop_last() =~= first + rest.drop_last());
        assert(all.last() == rest.last());
        assert(new_texts(current, all) =~= new_texts(current, first) + new_texts(current, rest));
    }
}

/// Up to five new names are told in one line, with commas between them. Of more
/// the first five are told, and that there are more. Of none nothing is told.
pub proof fn the_first_new_names_are_told(names: Seq<Seq<char>>, label: Seq<char>)
    ensures
        names.len() == 0 ==> names_report(names, label).len() == 0,
        0 < names.len() <= 5 ==> names_report(names, label) == seq![
            "  "@ + label + ": "@ + joined(names, ", "@),
        ],
        names.len() > 5 ==> names_report(names, label) == seq![
            "  "@ + label + ": "@ + joined(names.take(5), ", "@),
            "  ... and more"@,
        ],
{
}

/// All new ids are told in one line, with commas between them, and of none nothing
/// is told.
pub proof fn all_new_ids_are_told(ids: Seq<Seq<char>>, label: Seq<char>)
    ensures
        ids.len() == 0 ==> ids_report(ids, label).len() == 0,
        ids.len() > 0 ==> ids_report(ids, label) == seq![
            "  "@ + label + ": "@ + joined(ids, ", "@),
        ],
{
}

/// The report on an update tells which file it is, the sizes before and after, and
/// what is new: of the database the names, of the corrections the ids.
pub proof fn updates_are_told_of(current: Seq<JsonModel>, updated: Seq<JsonModel>)
    ensures
        ({
            let report = database_update_report(current, updated);
            let names = new_texts(field_texts(current, "name"@), field_texts(updated, "name"@));
            &&& report[0] == "Updated detectable.json"@
            &&& report[1] == size_line(current.len(), updated.len(), "games"@)
            &&& report.skip(2) == names_report(names, "New games"@)
        }),
        ({
            let report = fixes_update_report(current, updated);
            let ids = new_texts(field_texts(current, "id"@), field_texts(updated, "id"@));
            &&& report[0] == "Updated detectable_fixes.json"@
            &&& report[1] == size_line(current.len(), updated.len(), "entries"@)
            &&& report.skip(2) == ids_report(ids, "New fixes"@)
        }),
{
    let names = new_texts(field_texts(current, "name"@), field_texts(updated, "name"@));
    let ids = new_texts(field_texts(current, "id"@), field_texts(updated, "id"@));
    assert(database_update_report(current, updated).skip(2) =~= names_report(names, "New games"@));
    assert(fixes_update_report(current, updated).skip(2) =~= ids_report(ids, "New fixes"@));
}

/// What is fetched is written as it came where it is a list, and reported on. What
/// is no list or no JSON is an error and nothing is written.
pub proof fn only_lists_are_written(
    r: Result<DatabaseUpdate, DatabaseError>,
    body: Seq<u8>,
    report: spec_fn(Seq<JsonModel>) -> Seq<Seq<char>>,
)
    requires
        is_update(r, body, report),
    ensures
        r is Ok <==> parsed_bytes(body) is Some && parsed_bytes(body)->0 is Array,
        r is Ok ==> r->Ok_0.bytes@ == pretty_bytes(parsed_bytes(body)->0) && texts(
            r->Ok_0.lines@,
        ) == report(parsed_bytes(body)->0->Array_0),
        parsed_bytes(body) is None <==> (r matches Err(DatabaseError::Json(_))),
        parsed_bytes(body) is Some && !(parsed_bytes(body)->0 is Array) <==> (r matches Err(
            DatabaseError::NotAnArray,
        )),
{
}

/// The file of the corrections is kept where they could not be fetched, with the
/// reason told, and is written where a list came back. Anything else is an error.
pub proof fn corrections_are_kept_or_written(
    current: Option<Seq<char>>,
    fetched: Result<Seq<u8>, Seq<char>>,
    r: Result<FixesStep, DatabaseError>,
)
    requires
        is_fixes_step(current, fetched, r),
    ensures
        fetched is Err <==> r is Ok && r->Ok_0 is Keep,
        fetched is Err ==> r->Ok_0->failure@ == "Failed to fetch detectable_fixes.json: "@
            + fetched->Err_0 && r->Ok_0->notice@ == "Keeping existing detectable_fixes.json"@,
        fetched is Ok ==> {
            let value = parsed_bytes(fetched->Ok_0);
            &&& r is Ok <==> value is Some && value->0 is Array
            &&& r is Ok ==> r->Ok_0 is Write && r->Ok_0->Write_0.bytes@ == pretty_bytes(value->0)
                && texts(r->Ok_0->Write_0.lines@) == fixes_update_report(
                entries_before(current),
                value->0->Array_0,
            )
        },
{
}

/// A file is read behind its byte order marks. What cannot be read, is no JSON or
/// is no list has no entries.
pub proof fn files_are_read_as_lists(raw: Seq<char>)
    ensures
        entries_before(None) == Seq::<JsonModel>::empty(),
        parsed_text(without_bom(raw)) is None ==> entries_before(Some(raw)).len() == 0,
        parsed_text(without_bom(raw)) is Some && parsed_text(without_bom(raw))->0 is Array
            ==> entries_before(Some(raw)) == parsed_text(without_bom(raw))->0->Array_0,
        parsed_text(without_bom(raw)) is Some && !(parsed_text(without_bom(raw))->0 is Array)
            ==> entries_before(Some(raw)).len() == 0,
{
}

/// The corrections and the database that are checked are those of their files, and
/// those that the program has with it where a file cannot be read or is no JSON.
pub proof fn bundled_files_stand_in(raw: Option<Seq<char>>, bundled: Seq<char>)
    ensures
        ({
            let own = if raw is Some {
                parsed_text(without_bom(raw->0))
            } else {
                None
            };
            let value = if own is Some {
                own
            } else {
                parsed_text(without_bom(bundled))
            };
            &&& value is Some ==> checked_fixes(raw, bundled) == value->0
            &&& value is None ==> checked_fixes(raw, bundled) == JsonModel::Array(Seq::empty())
            &&& value is Some && value->0 is Array ==> checked_database(raw, bundled)
                == value->0->Array_0
            &&& value is None || !(value->0 is Array) ==> checked_database(raw, bundled).len() == 0
        }),
{
}

/// An application counts for a platform where all of its programs that name one
/// name that one; where they name several, or none does, it counts for several.
pub proof fn applications_count_for_their_platform(
    platforms: Seq<Option<Seq<char>>>,
    i: int,
    j: int,
)
    ensures
        0 <= i < platforms.len() && platforms[i] is Some && (forall|k: int|
            0 <= k < platforms.len() && (#[trigger] platforms[k]) is Some ==> platforms[k]
                == platforms[i]) ==> {
            let group = group_of(platforms);
            &&& platforms[i]->0 == "win32"@ ==> group == PlatformGroup::Windows
            &&& platforms[i]->0 == "linux"@ ==> group == PlatformGroup::Linux
            &&& platforms[i]->0 == "darwin"@ ==> group == PlatformGroup::MacOs
            &&& platforms[i]->0 != "win32"@ && platforms[i]->0 != "linux"@ && platforms[i]->0
                != "darwin"@ ==> group == PlatformGroup::Other
        },
        0 <= i < platforms.len() && 0 <= j < platforms.len() && platforms[i] is Some
            && platforms[j] is Some && platforms[i] != platforms[j] ==> group_of(platforms)
            == PlatformGroup::Several,
        (forall|k: int| 0 <= k < platforms.len() ==> (#[trigger] platforms[k]) is None)
            ==> group_of(platforms) == PlatformGroup::Several,
{
    reveal_strlit("win32");
    reveal_strlit("linux");
    reveal_strlit("darwin");
    assert("win32"@[0] != "linux"@[0]);
    assert("darwin"@.len() != "linux"@.len());
    assert("darwin"@.len() != "win32"@.len());
    if 0 <= i < platforms.len() && platforms[i] is Some {
        assert(platforms.contains(Some(platforms[i]->0)));
        if forall|k: int|
            0 <= k < platforms.len() && (#[trigger] platforms[k]) is Some ==> platforms[k]
                == platforms[i] {
            assert(is_only_platform(platforms, platforms[i]->0));
            assert forall|os: Seq<char>| #[trigger] is_only_platform(platforms, os) implies os
                == platforms[i]->0 by {
                assert(platforms[i] == Some(os));
            }
        }
    }
    if 0 <= i < platforms.len() && 0 <= j < platforms.len() && platforms[i] is Some && platforms[j]
        is Some && platforms[i] != platforms[j] {
        assert forall|os: Seq<char>| !#[trigger] is_only_platform(platforms, os) by {
            if is_only_platform(platforms, os) {
                assert(platforms[i] == Some(os));
                assert(platforms[j] == Some(os));
            }
        }
    }
    if forall|k: int| 0 <= k < platforms.len() ==> (#[trigger] platforms[k]) is None {
        assert forall|os: Seq<char>| !#[trigger] is_only_platform(platforms, os) by {
            if is_only_platform(platforms, os) {
                let k = choose|k: int| 0 <= k < platforms.len() && platforms[k] == Some(os);
                assert(platforms[k] is None);
            }
        }
    }
}

/// Each application counts once for the group of its platforms, and one without
/// programs not at all.
pub proof fn each_application_counts_once(
    first: Seq<ListedModel>,
    app: ListedModel,
    rest: Seq<ListedModel>,
    group: PlatformGroup,
)
    ensures
        count_of(Seq::empty(), group) == 0,
        count_of(seq![app], group) == (if app.platforms is Some && group_of(app.platforms->0)
            == group {
            1nat
        } else {
            0
        }),
        count_of(first + rest, group) == count_of(first, group) + count_of(rest, group),
    decreases rest.len(),
{
    let one = seq![app];
    assert(one.drop_last() =~= Seq::empty());
    assert(count_of(one.drop_last(), group) == 0);
    let all = first + rest;
    if rest.len() == 0 {
        assert(all =~= first);
    } else {
        each_application_counts_once(first, app, rest.drop_last(), group);
        assert(all.drop_last() =~= first + rest.drop_last());
        assert(all.last() == rest.last());
    }
}

/// The report on the database tells how many games there are, how many of them
/// for each platform, and the first ten of them with their ids.
pub proof fn the_database_is_told_of(apps: Seq<ListedModel>, i: int)
    ensures
        ({
            let report = database_report(apps);
            let shown = if apps.len() > 10 {
                10
            } else {
                apps.len() as int
            };
            &&& report.len() == 8 + shown
            &&& report[0] == "Total games in database: "@ + decimal(apps.len())
            &&& report[2] == "  Windows:        "@ + decimal(
                count_of(apps, PlatformGroup::Windows),
            )
            &&& report[3] == "  Linux:          "@ + decimal(count_of(apps, PlatformGroup::Linux))
            &&& report[4] == "  macOS:          "@ + decimal(count_of(apps, PlatformGroup::MacOs))
            &&& report[5] == "  Multi-platform: "@ + decimal(
                count_of(apps, PlatformGroup::Several),
            )
            &&& 0 <= i < shown ==> report[8 + i] == "  "@ + decimal((i + 1) as nat) + ". "@
                + apps[i].name + " ("@ + apps[i].id + ")"@
        }),
{
}

} // verus!
