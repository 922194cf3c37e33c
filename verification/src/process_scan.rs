//! Games that are found by their processes.
use crate::bridge::after_message;
use crate::clock::now_ms;
use crate::detect::{
    apps_model, detect_app, detected, is_app_of, processes_model, the_first_application_is_found,
    AppModel, DetectableApp, ProcessInfo, ProcessModel,
};
use crate::ignore_list::{
    entries_hide_games_by_id, entries_hide_games_by_name, is_ignored, IgnoreList,
};
use crate::json::{
    field, field_or_null, integer, items_model, json_model, text_field, Json, JsonModel, JsonObject,
};
use crate::rpc::{activity_message, activity_payload, lemma_activity_message};
use crate::steam::{as_game, SteamLookup};
use crate::text::{contains, list_has, lowercase, texts, trimmed};
use crate::text_map::TextMap;
use vstd::prelude::*;

verus! {

/// A game that is running.
#[derive(Debug)]
pub struct ActiveProcess {
    pub name: String,
    pub pid: u32,
    pub started_at: u64,
}

pub struct ActiveModel {
    pub name: Seq<char>,
    pub pid: u32,
    pub started_at: u64,
}

impl View for ActiveProcess {
    type V = ActiveModel;

    open spec fn view(&self) -> ActiveModel {
        ActiveModel { name: self.name@, pid: self.pid, started_at: self.started_at }
    }
}

/// What a scan goes by: the database, the games to pass over, and the games
/// that Steam has installed.
pub struct RulesModel {
    pub apps: Seq<AppModel>,
    pub ignored: Set<Seq<char>>,
    pub installs: Seq<(Seq<char>, Seq<char>)>,
}

/// A scan under way: the running games by their application ids, the ids of
/// those seen in this scan, and what the bridge is to be told.
pub struct ScanModel {
    pub active: Map<Seq<char>, ActiveModel>,
    pub seen: Set<Seq<char>>,
    pub messages: Seq<JsonModel>,
}

/// How a scanner is set up.
#[derive(Debug)]
pub struct ProcessScannerOptions {
    pub data_dir: Option<String>,
    pub ignore_list: IgnoreList,
    pub steam_enabled: bool,
}

impl Default for ProcessScannerOptions {
    fn default() -> (r: ProcessScannerOptions)
        ensures
            r.data_dir is None,
            r.ignore_list@ == Set::<Seq<char>>::empty(),
            r.steam_enabled,
    {
        ProcessScannerOptions {
            data_dir: None,
            ignore_list: IgnoreList::empty(),
            steam_enabled: true,
        }
    }
}

/// Finds running games, and remembers them from one scan to the next.
#[derive(Debug)]
pub struct ProcessScanner {
    apps: Vec<DetectableApp>,
    ignore_list: IgnoreList,
    steam_lookup: SteamLookup,
    active: TextMap<ActiveProcess>,
    scanning: bool,
}

// ---------------------------------------------------------------------------
// What a scan does
// ---------------------------------------------------------------------------
/// `process`, or the process of the game that Steam runs it for.
pub open spec fn resolved(
    installs: Seq<(Seq<char>, Seq<char>)>,
    process: ProcessModel,
) -> ProcessModel {
    match as_game(installs, process) {
        Some(game) => game,
        None => process,
    }
}

/// The application of `process`, unless it is to be passed over.
pub open spec fn found_app(rules: RulesModel, process: ProcessModel) -> Option<AppModel> {
    let game = resolved(rules.installs, process);
    match detected(rules.apps, game, 0) {
        Some(i) => if is_ignored(
            rules.ignored,
            rules.apps[i].id,
            game.path,
            rules.apps[i].name,
        ) {
            None
        } else {
            Some(rules.apps[i])
        },
        None => None,
    }
}

/// What the bridge is told of a running game.
pub open spec fn found_message(id: Seq<char>, game: ActiveModel) -> JsonModel {
    activity_message(
        JsonModel::Object(
            map![
                "application_id"@ => JsonModel::Text(id),
                "name"@ => JsonModel::Text(game.name),
                "timestamps"@ => JsonModel::Object(
                    map!["start"@ => integer(game.started_at as int)],
                ),
            ],
        ),
        integer(game.pid as int),
        id,
    )
}

/// What the bridge is told of a game that runs no more.
pub open spec fn lost_message(id: Seq<char>, game: ActiveModel) -> JsonModel {
    activity_message(JsonModel::Null, integer(game.pid as int), id)
}

/// The entry of `app` in the running games when a process of it is found: one
/// that is there already keeps its name and the time of its start.
pub open spec fn entry_of(
    active: Map<Seq<char>, ActiveModel>,
    app: AppModel,
    pid: u32,
    now: u64,
) -> ActiveModel {
    if active.contains_key(app.id) {
        ActiveModel { pid, ..active[app.id] }
    } else {
        ActiveModel { name: app.name, pid, started_at: now }
    }
}

/// A scan after one more process, found at the time `now`.
pub open spec fn after_process(
    rules: RulesModel,
    scan: ScanModel,
    process: ProcessModel,
    now: u64,
) -> ScanModel {
    match found_app(rules, process) {
        Some(app) => {
            let entry = entry_of(scan.active, app, process.pid, now);
            ScanModel {
                active: scan.active.insert(app.id, entry),
                seen: scan.seen.insert(app.id),
                messages: scan.messages.push(found_message(app.id, entry)),
            }
        },
        None => scan,
    }
}

/// A scan with these games running of which nothing has been seen yet.
pub open spec fn fresh_scan(active: Map<Seq<char>, ActiveModel>) -> ScanModel {
    ScanModel { active, seen: Set::empty(), messages: Seq::empty() }
}

/// A scan of `processes`, each of them found at its time in `times`.
pub open spec fn after_processes(
    rules: RulesModel,
    scan: ScanModel,
    processes: Seq<ProcessModel>,
    times: Seq<u64>,
) -> ScanModel
    decreases processes.len(),
{
    if processes.len() == 0 {
        scan
    } else {
        after_process(
            rules,
            after_processes(rules, scan, processes.drop_last(), times.drop_last()),
            processes.last(),
            times.last(),
        )
    }
}

/// `lost` are the running games that a scan has not seen, each once.
pub open spec fn are_lost(scan: ScanModel, lost: Seq<Seq<char>>) -> bool {
    &&& lost.no_duplicates()
    &&& forall|id: Seq<char>| #[trigger]
        lost.contains(id) <==> scan.active.contains_key(id) && !scan.seen.contains(id)
}

/// What the bridge is told of the games that are lost.
pub open spec fn lost_messages(scan: ScanModel, lost: Seq<Seq<char>>) -> Seq<JsonModel> {
    lost.map_values(|id: Seq<char>| lost_message(id, scan.active[id]))
}

/// The games that run on after a scan: those that it has seen.
pub open spec fn still_active(scan: ScanModel) -> Map<Seq<char>, ActiveModel> {
    scan.active.restrict(scan.seen)
}

/// `messages` tell of the running games that a scan has seen and then, in some
/// order, of those that are lost.
pub open spec fn tells_of(messages: Seq<JsonModel>, scan: ScanModel) -> bool {
    exists|lost: Seq<Seq<char>>| #[trigger]
        are_lost(scan, lost) && messages == scan.messages + lost_messages(scan, lost)
}

/// A scan of `processes`, each found at its time in `times`, with the games
/// running before it and after it and what it tells the bridge.
pub open spec fn scans_at(
    rules: RulesModel,
    before: Map<Seq<char>, ActiveModel>,
    processes: Seq<ProcessModel>,
    times: Seq<u64>,
    messages: Seq<JsonModel>,
    after: Map<Seq<char>, ActiveModel>,
) -> bool {
    let scan = after_processes(rules, fresh_scan(before), processes, times);
    &&& times.len() == processes.len()
    &&& after == still_active(scan)
    &&& tells_of(messages, scan)
}

/// A scan of `processes`, at whatever times they were found.
pub open spec fn scans(
    rules: RulesModel,
    before: Map<Seq<char>, ActiveModel>,
    processes: Seq<ProcessModel>,
    messages: Seq<JsonModel>,
    after: Map<Seq<char>, ActiveModel>,
) -> bool {
    exists|times: Seq<u64>| scans_at(rules, before, processes, times, messages, after)
}

fn found_payload(id: &str, name: &str, started_at: u64, pid: u32) -> (r: Json)
    ensures
        r@ == found_message(id@, ActiveModel { name: name@, pid, started_at }),
{
    let activity = JsonObject::new().with("application_id", Json::text(id)).with(
        "name",
        Json::text(name),
    ).with(
        "timestamps",
        Json::Object(JsonObject::new().with("start", Json::unsigned(started_at))),
    );
    activity_payload(Json::Object(activity), Json::unsigned(pid as u64), id)
}

impl ProcessScanner {
    /// What the scanner goes by.
    pub closed spec fn rules(&self) -> RulesModel {
        RulesModel {
            apps: apps_model(self.apps@),
            ignored: self.ignore_list@,
            installs: self.steam_lookup@,
        }
    }

    /// The running games.
    pub closed spec fn active(&self) -> Map<Seq<char>, ActiveModel> {
        self.active@.map_values(|game: ActiveProcess| game@)
    }

    /// A scan is under way.
    pub closed spec fn is_scanning(&self) -> bool {
        self.scanning
    }

    /// Each running game is remembered once.
    pub closed spec fn wf(&self) -> bool {
        self.active.wf()
    }

    /// A scanner with the default options.
    pub fn new(apps: Vec<DetectableApp>, steam_lookup: SteamLookup) -> (r: ProcessScanner)
        ensures
            r.wf(),
            r.rules().apps == apps_model(apps@),
            r.rules().ignored == Set::<Seq<char>>::empty(),
            r.rules().installs == steam_lookup@,
            r.active() == Map::<Seq<char>, ActiveModel>::empty(),
            !r.is_scanning(),
    {
        ProcessScanner::with_options(apps, steam_lookup, ProcessScannerOptions::default())
    }

    /// A scanner that goes by `apps` and, where the options have it so, by the
    /// games that Steam has installed.
    pub fn with_options(
        apps: Vec<DetectableApp>,
        steam_lookup: SteamLookup,
        options: ProcessScannerOptions,
    ) -> (r: ProcessScanner)
        ensures
            r.wf(),
            r.rules() == (RulesModel {
                apps: apps_model(apps@),
                ignored: options.ignore_list@,
                installs: if options.steam_enabled {
                    steam_lookup@
                } else {
                    Seq::empty()
                },
            }),
            r.active() == Map::<Seq<char>, ActiveModel>::empty(),
            !r.is_scanning(),
    {
        let scanner = ProcessScanner {
            apps,
            ignore_list: options.ignore_list,
            steam_lookup: if options.steam_enabled {
                steam_lookup
            } else {
                SteamLookup::default()
            },
            active: TextMap::new(),
            scanning: false,
        };
        assert(scanner.active() =~= Map::<Seq<char>, ActiveModel>::empty());
        scanner
    }

    /// Begins a scan, unless one is under way: two scans never overlap.
    pub fn begin_scan(&mut self) -> (r: bool)
        requires
            old(self).wf(),
        ensures
            r == !old(self).is_scanning(),
            final(self).is_scanning(),
            final(self).wf(),
            final(self).rules() == old(self).rules(),
            final(self).active() == old(self).active(),
    {
        let begun = !self.scanning;
        self.scanning = true;
        begun
    }

    /// Ends the scan that is under way.
    pub fn end_scan(&mut self)
        requires
            old(self).wf(),
        ensures
            !final(self).is_scanning(),
            final(self).wf(),
            final(self).rules() == old(self).rules(),
            final(self).active() == old(self).active(),
    {
        self.scanning = false;
    }

    /// Takes note of one process, found at the time `now`; `seen` collects the
    /// ids of the games. Returns what the bridge is to be told.
    pub fn observe(&mut self, process: &ProcessInfo, now: u64, seen: &mut Vec<String>) -> (r:
        Option<Json>)
        requires
            old(self).wf(),
        ensures
            final(self).wf(),
            final(self).rules() == old(self).rules(),
            final(self).is_scanning() == old(self).is_scanning(),
            ({
                let before = ScanModel {
                    active: old(self).active(),
                    seen: texts(old(seen)@).to_set(),
                    messages: Seq::empty(),
                };
                let after = after_process(old(self).rules(), before, process@, now);
                &&& final(self).active() == after.active
                &&& texts(final(seen)@).to_set() == after.seen
                &&& match r {
                    Some(message) => after.messages == seq![message@],
                    None => after.messages == Seq::<JsonModel>::empty(),
                }
            }),
    {
        let ghost rules = self.rules();
        let ghost active = self.active();
        let resolved_process = self.steam_lookup.resolve(process);
        let game: &ProcessInfo = match &resolved_process {
            Some(game) => game,
            None => process,
        };
        assert(game@ == resolved(rules.installs, process@));
        assert(game@.pid == process@.pid);
        let (id, app_name) = match detect_app(&self.apps, game) {
            Some(app) => {
                assert(app@ == rules.apps[detected(rules.apps, game@, 0)->0]);
                if self.ignore_list.should_ignore(
                    app.id.as_str(),
                    game.path.as_str(),
                    app.name.as_str(),
                ) {
                    return None;
                }
                (app.id.clone(), app.name.clone())
            },
            None => {
                return None;
            },
        };
        let ghost app = found_app(rules, process@)->0;
        assert(found_app(rules, process@) is Some && app.id == id@ && app.name == app_name@);
        let ghost before = texts(seen@);
        seen.push(id.clone());
        assert(texts(seen@) =~= before.push(id@));
        assert(texts(seen@).to_set() =~= before.to_set().insert(id@)) by {
            assert forall|s: Seq<char>| #[trigger]
                before.to_set().insert(id@).contains(s) implies texts(seen@).contains(s) by {
                if s == id@ {
                    assert(texts(seen@)[before.len() as int] == s);
                } else {
                    let j = choose|j: int| 0 <= j < before.len() && before[j] == s;
                    assert(texts(seen@)[j] == s);
                }
            }
        }
        let (name, started_at) = match self.active.get(id.as_str()) {
            Some(game) => (game.name.clone(), game.started_at),
            None => (app_name, now),
        };
        let message = found_payload(id.as_str(), name.as_str(), started_at, process.pid);
        self.active.insert(
            id.as_str(),
            ActiveProcess { name, pid: process.pid, started_at },
        );
        assert(self.active() =~= active.insert(
            id@,
            entry_of(active, app, process@.pid, now),
        ));
        assert(Seq::<JsonModel>::empty().push(message@) =~= seq![message@]);
        Some(message)
    }

    /// Forgets the games that are not among `seen`. Returns what the bridge is
    /// to be told of them.
    pub fn forget_lost(&mut self, seen: &Vec<String>) -> (r: Vec<Json>)
        requires
            old(self).wf(),
        ensures
            final(self).wf(),
            final(self).rules() == old(self).rules(),
            final(self).is_scanning() == old(self).is_scanning(),
            ({
                let scan = ScanModel {
                    active: old(self).active(),
                    seen: texts(seen@).to_set(),
                    messages: Seq::empty(),
                };
                &&& final(self).active() == still_active(scan)
                &&& tells_of(items_model(r@), scan)
            }),
    {
        let ghost scan = ScanModel {
            active: self.active(),
            seen: texts(seen@).to_set(),
            messages: Seq::empty(),
        };
        let ghost rules = self.rules();
        let ghost scanning = self.is_scanning();
        let keys = self.active.keys();
        let ghost ids = texts(keys@);
        let mut messages: Vec<Json> = Vec::new();
        let ghost mut lost: Seq<Seq<char>> = Seq::empty();
        let mut i: usize = 0;
        while i < keys.len()
            invariant
                i <= keys@.len(),
                ids == texts(keys@),
                ids.no_duplicates(),
                forall|id: Seq<char>| #[trigger]
                    ids.contains(id) <==> scan.active.contains_key(id),
                scan.seen == texts(seen@).to_set(),
                self.wf(),
                self.rules() == rules,
                self.is_scanning() == scanning,
                forall|id: Seq<char>| #[trigger]
                    lost.contains(id) <==> ids.take(i as int).contains(id) && !scan.seen.contains(
                        id,
                    ),
                lost.no_duplicates(),
                forall|id: Seq<char>| #[trigger]
                    self.active().contains_key(id) <==> scan.active.contains_key(id)
                        && !lost.contains(id),
                forall|id: Seq<char>| #[trigger]
                    self.active().contains_key(id) ==> self.active()[id] == scan.active[id],
                items_model(messages@) == lost_messages(scan, lost),
            decreases keys@.len() - i,
        {
            let ghost id = ids[i as int];
            assert(ids.take(i + 1) =~= ids.take(i as int).push(id));
            assert(ids.contains(id));
            assert(!ids.take(i as int).contains(id)) by {
                assert forall|j: int| 0 <= j < i implies ids.take(i as int)[j] != id by {
                    assert(ids[j] != ids[i as int]);
                }
            }
            assert forall|s: Seq<char>| #[trigger]
                ids.take(i + 1).contains(s) <==> ids.take(i as int).contains(s) || s == id by {
                if ids.take(i as int).contains(s) {
                    let j = choose|j: int|
                        0 <= j < ids.take(i as int).len() && ids.take(i as int)[j] == s;
                    assert(ids.take(i + 1)[j] == s);
                }
                if s == id {
                    assert(ids.take(i + 1)[i as int] == s);
                }
            }
            if !list_has(seen, keys[i].as_str()) {
                let ghost earlier = lost;
                let ghost active = self.active();
                assert(active.contains_key(id));
                if let Some(game) = self.active.remove(keys[i].as_str()) {
                    let ghost told = messages@;
                    assert(active[id] == game@);
                    messages.push(
                        activity_payload(
                            Json::Null,
                            Json::unsigned(game.pid as u64),
                            keys[i].as_str(),
                        ),
                    );
                    proof {
                        lost = earlier.push(id);
                    }
                    assert(items_model(messages@) =~= items_model(told).push(
                        json_model(messages@.last()),
                    ));
                    assert(lost_messages(scan, lost) =~= lost_messages(scan, earlier).push(
                        lost_message(id, scan.active[id]),
                    ));
                }
                assert(self.active() =~= active.remove(id));
                assert forall|s: Seq<char>| #[trigger]
                    lost.contains(s) <==> earlier.contains(s) || s == id by {
                    if earlier.contains(s) {
                        let j = choose|j: int| 0 <= j < earlier.len() && earlier[j] == s;
                        assert(lost[j] == s);
                    }
                    if s == id {
                        assert(lost[earlier.len() as int] == s);
                    }
                }
                assert(!earlier.contains(id));
            }
            i += 1;
        }
        assert(ids.take(i as int) =~= ids);
        assert(self.active() =~= still_active(scan));
        assert(are_lost(scan, lost));
        assert(items_model(messages@) =~= scan.messages + lost_messages(scan, lost));
        messages
    }

    /// Scans the running processes. Returns what the bridge is to be told, in
    /// this order: each process of a game, and then the games that run no more.
    pub fn scan(&mut self, processes: &Vec<ProcessInfo>) -> (r: Vec<Json>)
        requires
            old(self).wf(),
        ensures
            final(self).wf(),
            final(self).rules() == old(self).rules(),
            final(self).is_scanning() == old(self).is_scanning(),
            scans(
                old(self).rules(),
                old(self).active(),
                processes_model(processes@),
                items_model(r@),
                final(self).active(),
            ),
    {
        let ghost rules = self.rules();
        let ghost scanning = self.is_scanning();
        let ghost start = fresh_scan(self.active());
        let ghost models = processes_model(processes@);
        let ghost mut times: Seq<u64> = Seq::empty();
        let mut seen: Vec<String> = Vec::new();
        let mut messages: Vec<Json> = Vec::new();
        let mut i: usize = 0;
        assert(texts(seen@).to_set() =~= Set::empty());
        assert(items_model(messages@) =~= Seq::empty());
        assert(models.take(0) =~= Seq::empty());
        while i < processes.len()
            invariant
                i <= processes@.len(),
                models == processes_model(processes@),
                times.len() == i,
                self.wf(),
                self.rules() == rules,
                self.is_scanning() == scanning,
                (ScanModel {
                    active: self.active(),
                    seen: texts(seen@).to_set(),
                    messages: items_model(messages@),
                }) == after_processes(rules, start, models.take(i as int), times),
            decreases processes@.len() - i,
        {
            let now: u64 = #[verifier::truncate] (now_ms() as u64);
            let ghost earlier = times;
            let ghost told = messages@;
            proof {
                times = earlier.push(now);
                assert(times.drop_last() =~= earlier);
                assert(models.take(i + 1).drop_last() =~= models.take(i as int));
                assert(models.take(i + 1).last() == processes@[i as int]@);
            }
            let ghost process = processes@[i as int]@;
            let ghost quiet = ScanModel {
                active: self.active(),
                seen: texts(seen@).to_set(),
                messages: Seq::empty(),
            };
            let ghost after = after_process(rules, quiet, process, now);
            match self.observe(&processes[i], now, &mut seen) {
                Some(message) => {
                    messages.push(message);
                    assert(items_model(messages@) =~= items_model(told).push(message@));
                    assert(after.messages[0] == message@);
                    assert(after.messages.len() == 1);
                },
                None => {
                    assert(after.messages.len() == 0);
                },
            }
            i += 1;
        }
        assert(models.take(i as int) =~= models);
        let ghost scan = after_processes(rules, start, models, times);
        let lost = self.forget_lost(&seen);
        let ghost found = items_model(messages@);
        let ghost rest = items_model(lost@);
        let mut all = messages;
        let mut more = lost;
        all.append(&mut more);
        assert(items_model(all@) =~= found + rest);
        proof {
            let quiet = ScanModel { messages: Seq::empty(), ..scan };
            let ids = choose|ids: Seq<Seq<char>>| #[trigger]
                are_lost(quiet, ids) && rest == quiet.messages + lost_messages(quiet, ids);
            assert(are_lost(scan, ids));
            assert(lost_messages(scan, ids) =~= rest);
            assert(tells_of(items_model(all@), scan));
            assert(scans_at(
                rules,
                start.active,
                models,
                times,
                items_model(all@),
                self.active(),
            ));
        }
        all
    }

    /// Scans the processes that were listed, or hands on why they could not be:
    /// then nothing is told, and the running games stay as they are.
    pub fn scan_once<E>(&mut self, listed: Result<Vec<ProcessInfo>, E>) -> (r: Result<
        Vec<Json>,
        E,
    >)
        requires
            old(self).wf(),
        ensures
            final(self).wf(),
            final(self).rules() == old(self).rules(),
            final(self).is_scanning() == old(self).is_scanning(),
            match listed {
                Ok(processes) => r matches Ok(messages) && scans(
                    old(self).rules(),
                    old(self).active(),
                    processes_model(processes@),
                    items_model(messages@),
                    final(self).active(),
                ),
                Err(error) => r == Err::<Vec<Json>, E>(error) && final(self).active() == old(
                    self,
                ).active(),
            },
    {
        match listed {
            Ok(processes) => Ok(self.scan(&processes)),
            Err(error) => Err(error),
        }
    }
}

// ---------------------------------------------------------------------------
// Laws
// ---------------------------------------------------------------------------
/// What the bridge remembers after several messages.
pub open spec fn after_messages(
    bridge: Map<Seq<char>, JsonModel>,
    messages: Seq<JsonModel>,
) -> Map<Seq<char>, JsonModel>
    decreases messages.len(),
{
    if messages.len() == 0 {
        bridge
    } else {
        after_message(after_messages(bridge, messages.drop_last()), messages.last())
    }
}

/// A scan leaves exactly the games running that it has seen.
pub proof fn only_seen_games_run_on(
    rules: RulesModel,
    active: Map<Seq<char>, ActiveModel>,
    processes: Seq<ProcessModel>,
    times: Seq<u64>,
)
    ensures
        ({
            let scan = after_processes(rules, fresh_scan(active), processes, times);
            still_active(scan).dom() == scan.seen
        }),
    decreases processes.len(),
{
    lemma_seen_are_active(rules, active, processes, times);
    let scan = after_processes(rules, fresh_scan(active), processes, times);
    assert(still_active(scan).dom() =~= scan.seen);
}

proof fn lemma_seen_are_active(
    rules: RulesModel,
    active: Map<Seq<char>, ActiveModel>,
    processes: Seq<ProcessModel>,
    times: Seq<u64>,
)
    ensures
        ({
            let scan = after_processes(rules, fresh_scan(active), processes, times);
            forall|id: Seq<char>| #[trigger]
                scan.seen.contains(id) ==> scan.active.contains_key(id)
        }),
    decreases processes.len(),
{
    if processes.len() > 0 {
        let rest = processes.drop_last();
        lemma_seen_are_active(rules, active, rest, times.drop_last());
        let before = after_processes(rules, fresh_scan(active), rest, times.drop_last());
        let scan = after_processes(rules, fresh_scan(active), processes, times);
        assert forall|id: Seq<char>| #[trigger] scan.seen.contains(id) implies
            scan.active.contains_key(id) by {
            assert(before.seen.contains(id) ==> before.active.contains_key(id));
        }
    }
}

/// A game that is running keeps its name and the time of its start, whatever
/// processes of it are found.
pub proof fn running_games_keep_their_start(
    rules: RulesModel,
    active: Map<Seq<char>, ActiveModel>,
    processes: Seq<ProcessModel>,
    times: Seq<u64>,
    id: Seq<char>,
)
    requires
        active.contains_key(id),
    ensures
        ({
            let after = after_processes(rules, fresh_scan(active), processes, times).active;
            &&& after.contains_key(id)
            &&& after[id].name == active[id].name
            &&& after[id].started_at == active[id].started_at
        }),
    decreases processes.len(),
{
    if processes.len() > 0 {
        running_games_keep_their_start(
            rules,
            active,
            processes.drop_last(),
            times.drop_last(),
            id,
        );
    }
}

proof fn lemma_found_message(
    id: Seq<char>,
    game: ActiveModel,
    other_id: Seq<char>,
    other: ActiveModel,
)
    ensures
        found_message(id, game) == found_message(other_id, other) ==> id == other_id && game
            == other,
        found_message(id, game) != lost_message(other_id, other),
{
    lemma_found_fields(id, game);
    lemma_found_fields(other_id, other);
    lemma_activity_message(JsonModel::Null, integer(other.pid as int), other_id);
}

/// The fields of what the bridge is told of a running game.
proof fn lemma_found_fields(id: Seq<char>, game: ActiveModel)
    ensures
        ({
            let message = found_message(id, game);
            let activity = field_or_null(message, "activity"@);
            &&& text_field(message, "socketId"@) == Some(id)
            &&& field(message, "pid"@) == Some(integer(game.pid as int))
            &&& field(message, "activity"@) == Some(activity)
            &&& !(activity is Null)
            &&& text_field(activity, "name"@) == Some(game.name)
            &&& field(field_or_null(activity, "timestamps"@), "start"@) == Some(
                integer(game.started_at as int),
            )
        }),
{
    let activity = JsonModel::Object(
        map![
            "application_id"@ => JsonModel::Text(id),
            "name"@ => JsonModel::Text(game.name),
            "timestamps"@ => JsonModel::Object(
                map!["start"@ => integer(game.started_at as int)],
            ),
        ],
    );
    lemma_activity_message(activity, integer(game.pid as int), id);
    reveal_strlit("application_id");
    reveal_strlit("name");
    reveal_strlit("timestamps");
    assert("name"@.len() != "timestamps"@.len());
    assert("name"@.len() != "application_id"@.len());
}

proof fn lemma_told_as_running(
    rules: RulesModel,
    active: Map<Seq<char>, ActiveModel>,
    processes: Seq<ProcessModel>,
    times: Seq<u64>,
    id: Seq<char>,
    game: ActiveModel,
)
    requires
        after_processes(rules, fresh_scan(active), processes, times).messages.contains(
            found_message(id, game),
        ),
    ensures
        ({
            let scan = after_processes(rules, fresh_scan(active), processes, times);
            &&& scan.seen.contains(id)
            &&& scan.active.contains_key(id)
            &&& scan.active[id].name == game.name
            &&& scan.active[id].started_at == game.started_at
        }),
    decreases processes.len(),
{
    let scan = after_processes(rules, fresh_scan(active), processes, times);
    if processes.len() > 0 {
        let rest = processes.drop_last();
        let before = after_processes(rules, fresh_scan(active), rest, times.drop_last());
        let i = choose|i: int|
            0 <= i < scan.messages.len() && scan.messages[i] == found_message(id, game);
        match found_app(rules, processes.last()) {
            Some(app) => {
                let entry = entry_of(before.active, app, processes.last().pid, times.last());
                if i == before.messages.len() {
                    lemma_found_message(id, game, app.id, entry);
                } else {
                    assert(before.messages[i] == found_message(id, game));
                    lemma_told_as_running(rules, active, rest, times.drop_last(), id, game);
                }
            },
            None => {
                lemma_told_as_running(rules, active, rest, times.drop_last(), id, game);
            },
        }
    }
}

/// What is told of a running game is told by the scan, not of a game it lost.
proof fn lemma_told_of_running(
    messages: Seq<JsonModel>,
    scan: ScanModel,
    id: Seq<char>,
    game: ActiveModel,
)
    requires
        tells_of(messages, scan),
        messages.contains(found_message(id, game)),
    ensures
        scan.messages.contains(found_message(id, game)),
{
    let lost = choose|lost: Seq<Seq<char>>| #[trigger]
        are_lost(scan, lost) && messages == scan.messages + lost_messages(scan, lost);
    let i = choose|i: int| 0 <= i < messages.len() && messages[i] == found_message(id, game);
    if i < scan.messages.len() {
        assert(scan.messages[i] == found_message(id, game));
    } else {
        let other = lost[i - scan.messages.len()];
        assert(messages[i] == lost_message(other, scan.active[other]));
        lemma_found_message(id, game, other, scan.active[other]);
    }
}

/// A game that one scan told of and that the next tells of again has the same
/// name and the same time of its start in both, whatever process it was found
/// by, and keeps them.
pub proof fn games_keep_their_start(
    rules: RulesModel,
    before: Map<Seq<char>, ActiveModel>,
    first_processes: Seq<ProcessModel>,
    first_messages: Seq<JsonModel>,
    between: Map<Seq<char>, ActiveModel>,
    second_processes: Seq<ProcessModel>,
    second_messages: Seq<JsonModel>,
    after: Map<Seq<char>, ActiveModel>,
    id: Seq<char>,
    first: ActiveModel,
    second: ActiveModel,
)
    requires
        scans(rules, before, first_processes, first_messages, between),
        scans(rules, between, second_processes, second_messages, after),
        first_messages.contains(found_message(id, first)),
        second_messages.contains(found_message(id, second)),
    ensures
        second.name == first.name,
        second.started_at == first.started_at,
        after.contains_key(id),
        after[id].name == first.name,
        after[id].started_at == first.started_at,
{
    let first_times = choose|times: Seq<u64>|
        scans_at(rules, before, first_processes, times, first_messages, between);
    let second_times = choose|times: Seq<u64>|
        scans_at(rules, between, second_processes, times, second_messages, after);
    let first_scan = after_processes(rules, fresh_scan(before), first_processes, first_times);
    let second_scan = after_processes(
        rules,
        fresh_scan(between),
        second_processes,
        second_times,
    );
    lemma_told_of_running(first_messages, first_scan, id, first);
    lemma_told_as_running(rules, before, first_processes, first_times, id, first);
    lemma_told_of_running(second_messages, second_scan, id, second);
    lemma_told_as_running(rules, between, second_processes, second_times, id, second);
    running_games_keep_their_start(rules, between, second_processes, second_times, id);
}

/// `process` belongs to the application `id`, which is not passed over.
pub open spec fn is_found_as(rules: RulesModel, process: ProcessModel, id: Seq<char>) -> bool {
    found_app(rules, process) matches Some(app) && app.id == id
}

/// The first of `processes` that belongs to the application `id` is that at `k`.
pub open spec fn is_first_found(
    rules: RulesModel,
    processes: Seq<ProcessModel>,
    id: Seq<char>,
    k: int,
) -> bool {
    &&& 0 <= k < processes.len()
    &&& is_found_as(rules, processes[k], id)
    &&& forall|j: int| 0 <= j < k ==> !is_found_as(rules, #[trigger] processes[j], id)
}

proof fn lemma_first_found(
    rules: RulesModel,
    active: Map<Seq<char>, ActiveModel>,
    processes: Seq<ProcessModel>,
    times: Seq<u64>,
    id: Seq<char>,
) -> (k: int)
    requires
        times.len() == processes.len(),
        !active.contains_key(id),
    ensures
        ({
            let scan = after_processes(rules, fresh_scan(active), processes, times);
            if scan.seen.contains(id) {
                &&& is_first_found(rules, processes, id, k)
                &&& scan.active.contains_key(id)
                &&& scan.active[id].name == found_app(rules, processes[k])->0.name
                &&& scan.active[id].started_at == times[k]
            } else {
                &&& !scan.active.contains_key(id)
                &&& forall|j: int|
                    0 <= j < processes.len() ==> !is_found_as(rules, #[trigger] processes[j], id)
            }
        }),
    decreases processes.len(),
{
    if processes.len() > 0 {
        let rest = processes.drop_last();
        let before = after_processes(rules, fresh_scan(active), rest, times.drop_last());
        let k = lemma_first_found(rules, active, rest, times.drop_last(), id);
        if before.seen.contains(id) {
            assert(rest[k] == processes[k]);
            assert forall|j: int| 0 <= j < k implies !is_found_as(
                rules,
                #[trigger] processes[j],
                id,
            ) by {
                assert(rest[j] == processes[j]);
            }
            k
        } else {
            assert forall|j: int| 0 <= j < processes.len() - 1 implies !is_found_as(
                rules,
                #[trigger] processes[j],
                id,
            ) by {
                assert(rest[j] == processes[j]);
            }
            processes.len() - 1
        }
    } else {
        0
    }
}

/// A game that was not running starts when the first process of it is found,
/// under the name that the database has for it.
pub proof fn new_games_start_when_found(
    rules: RulesModel,
    before: Map<Seq<char>, ActiveModel>,
    processes: Seq<ProcessModel>,
    times: Seq<u64>,
    messages: Seq<JsonModel>,
    after: Map<Seq<char>, ActiveModel>,
    id: Seq<char>,
    game: ActiveModel,
) -> (k: int)
    requires
        scans_at(rules, before, processes, times, messages, after),
        !before.contains_key(id),
        messages.contains(found_message(id, game)),
    ensures
        is_first_found(rules, processes, id, k),
        game.name == found_app(rules, processes[k])->0.name,
        game.started_at == times[k],
{
    let scan = after_processes(rules, fresh_scan(before), processes, times);
    lemma_told_of_running(messages, scan, id, game);
    lemma_told_as_running(rules, before, processes, times, id, game);
    lemma_first_found(rules, before, processes, times, id)
}

/// A game that one scan told of as lost and that the next tells of again starts
/// anew, when the first process of it is found.
pub proof fn lost_games_start_anew(
    rules: RulesModel,
    before: Map<Seq<char>, ActiveModel>,
    first_processes: Seq<ProcessModel>,
    first_messages: Seq<JsonModel>,
    between: Map<Seq<char>, ActiveModel>,
    second_processes: Seq<ProcessModel>,
    second_times: Seq<u64>,
    second_messages: Seq<JsonModel>,
    after: Map<Seq<char>, ActiveModel>,
    id: Seq<char>,
    lost: ActiveModel,
    game: ActiveModel,
) -> (k: int)
    requires
        scans(rules, before, first_processes, first_messages, between),
        scans_at(rules, between, second_processes, second_times, second_messages, after),
        first_messages.contains(lost_message(id, lost)),
        second_messages.contains(found_message(id, game)),
    ensures
        !between.contains_key(id),
        is_first_found(rules, second_processes, id, k),
        game.name == found_app(rules, second_processes[k])->0.name,
        game.started_at == second_times[k],
{
    let times = choose|times: Seq<u64>|
        scans_at(rules, before, first_processes, times, first_messages, between);
    lemma_told_as_lost(rules, before, first_processes, times, first_messages, id, lost);
    new_games_start_when_found(
        rules,
        between,
        second_processes,
        second_times,
        second_messages,
        after,
        id,
        game,
    )
}

proof fn lemma_only_running_are_found(
    rules: RulesModel,
    active: Map<Seq<char>, ActiveModel>,
    processes: Seq<ProcessModel>,
    times: Seq<u64>,
    i: int,
) -> (found: (Seq<char>, ActiveModel))
    requires
        0 <= i < after_processes(rules, fresh_scan(active), processes, times).messages.len(),
    ensures
        after_processes(rules, fresh_scan(active), processes, times).messages[i]
            == found_message(found.0, found.1),
    decreases processes.len(),
{
    if processes.len() == 0 {
        (Seq::empty(), ActiveModel { name: Seq::empty(), pid: 0, started_at: 0 })
    } else {
        let rest = processes.drop_last();
        let before = after_processes(rules, fresh_scan(active), rest, times.drop_last());
        if i < before.messages.len() {
            lemma_only_running_are_found(rules, active, rest, times.drop_last(), i)
        } else {
            let app = found_app(rules, processes.last())->0;
            (app.id, entry_of(before.active, app, processes.last().pid, times.last()))
        }
    }
}

proof fn lemma_told_as_lost(
    rules: RulesModel,
    active: Map<Seq<char>, ActiveModel>,
    processes: Seq<ProcessModel>,
    times: Seq<u64>,
    messages: Seq<JsonModel>,
    id: Seq<char>,
    lost: ActiveModel,
)
    requires
        tells_of(messages, after_processes(rules, fresh_scan(active), processes, times)),
        messages.contains(lost_message(id, lost)),
    ensures
        !after_processes(rules, fresh_scan(active), processes, times).seen.contains(id),
{
    let scan = after_processes(rules, fresh_scan(active), processes, times);
    let ids = choose|ids: Seq<Seq<char>>| #[trigger]
        are_lost(scan, ids) && messages == scan.messages + lost_messages(scan, ids);
    let i = choose|i: int| 0 <= i < messages.len() && messages[i] == lost_message(id, lost);
    if i < scan.messages.len() {
        let found = lemma_only_running_are_found(rules, active, processes, times, i);
        lemma_found_message(found.0, found.1, id, lost);
    } else {
        let other = ids[i - scan.messages.len()];
        assert(messages[i] == lost_message(other, scan.active[other]));
        lemma_activity_message(JsonModel::Null, integer(lost.pid as int), id);
        lemma_activity_message(JsonModel::Null, integer(scan.active[other].pid as int), other);
        assert(ids.contains(other));
    }
}

/// A scan finds nothing where no process belongs to an application, and then
/// all games that were running are lost.
pub proof fn without_games_all_are_lost(
    rules: RulesModel,
    active: Map<Seq<char>, ActiveModel>,
    processes: Seq<ProcessModel>,
    times: Seq<u64>,
)
    requires
        forall|i: int|
            0 <= i < processes.len() ==> found_app(rules, #[trigger] processes[i]) is None,
    ensures
        after_processes(rules, fresh_scan(active), processes, times) == fresh_scan(active),
        still_active(fresh_scan(active)) == Map::<Seq<char>, ActiveModel>::empty(),
    decreases processes.len(),
{
    if processes.len() > 0 {
        let rest = processes.drop_last();
        assert forall|i: int| 0 <= i < rest.len() implies found_app(
            rules,
            #[trigger] rest[i],
        ) is None by {
            assert(rest[i] == processes[i]);
        }
        without_games_all_are_lost(rules, active, rest, times.drop_last());
        assert(found_app(rules, processes[processes.len() - 1]) is None);
    }
    assert(still_active(fresh_scan(active)) =~= Map::<Seq<char>, ActiveModel>::empty());
}

proof fn lemma_found_on_bridge(
    rules: RulesModel,
    active: Map<Seq<char>, ActiveModel>,
    processes: Seq<ProcessModel>,
    times: Seq<u64>,
    bridge: Map<Seq<char>, JsonModel>,
    id: Seq<char>,
)
    ensures
        ({
            let scan = after_processes(rules, fresh_scan(active), processes, times);
            let after = after_messages(bridge, scan.messages);
            if scan.seen.contains(id) {
                after.contains_key(id) && after[id] == found_message(id, scan.active[id])
            } else {
                after.contains_key(id) == bridge.contains_key(id) && after[id] == bridge[id]
                    && scan.active.contains_key(id) == active.contains_key(id)
            }
        }),
    decreases processes.len(),
{
    if processes.len() > 0 {
        let rest = processes.drop_last();
        lemma_found_on_bridge(rules, active, rest, times.drop_last(), bridge, id);
        let scan = after_processes(rules, fresh_scan(active), rest, times.drop_last());
        match found_app(rules, processes.last()) {
            Some(app) => {
                let entry = entry_of(scan.active, app, processes.last().pid, times.last());
                let message = found_message(app.id, entry);
                assert(scan.messages.push(message).drop_last() =~= scan.messages);
                let activity = JsonModel::Object(
                    map![
                        "application_id"@ => JsonModel::Text(app.id),
                        "name"@ => JsonModel::Text(entry.name),
                        "timestamps"@ => JsonModel::Object(
                            map!["start"@ => integer(entry.started_at as int)],
                        ),
                    ],
                );
                lemma_activity_message(activity, integer(entry.pid as int), app.id);
            },
            None => {},
        }
    }
}

proof fn lemma_lost_on_bridge(
    scan: ScanModel,
    lost: Seq<Seq<char>>,
    bridge: Map<Seq<char>, JsonModel>,
    found: Seq<JsonModel>,
    id: Seq<char>,
)
    ensures
        ({
            let before = after_messages(bridge, found);
            let after = after_messages(bridge, found + lost_messages(scan, lost));
            if lost.contains(id) {
                !after.contains_key(id)
            } else {
                after.contains_key(id) == before.contains_key(id) && after[id] == before[id]
            }
        }),
    decreases lost.len(),
{
    let messages = lost_messages(scan, lost);
    if lost.len() == 0 {
        assert(found + messages =~= found);
    } else {
        let rest = lost.drop_last();
        lemma_lost_on_bridge(scan, rest, bridge, found, id);
        assert((found + messages).drop_last() =~= found + lost_messages(scan, rest));
        assert((found + messages).last() == lost_message(lost.last(), scan.active[lost.last()]));
        lemma_activity_message(
            JsonModel::Null,
            integer(scan.active[lost.last()].pid as int),
            lost.last(),
        );
        assert(lost.contains(lost.last()));
        assert(rest.contains(id) ==> lost.contains(id)) by {
            if rest.contains(id) {
                let j = choose|j: int| 0 <= j < rest.len() && rest[j] == id;
                assert(lost[j] == id);
            }
        }
        assert(lost.contains(id) && id != lost.last() ==> rest.contains(id)) by {
            if lost.contains(id) && id != lost.last() {
                let j = choose|j: int| 0 <= j < lost.len() && lost[j] == id;
                assert(rest[j] == id);
            }
        }
    }
}

/// Once the bridge has been told of a scan, it shows each game that runs on, by
/// its latest process, shows none of those that are lost, and shows everything
/// else as before.
pub proof fn bridge_follows_scan(
    rules: RulesModel,
    active: Map<Seq<char>, ActiveModel>,
    processes: Seq<ProcessModel>,
    times: Seq<u64>,
    messages: Seq<JsonModel>,
    bridge: Map<Seq<char>, JsonModel>,
    id: Seq<char>,
)
    requires
        tells_of(messages, after_processes(rules, fresh_scan(active), processes, times)),
    ensures
        ({
            let scan = after_processes(rules, fresh_scan(active), processes, times);
            let now = still_active(scan);
            let after = after_messages(bridge, messages);
            if now.contains_key(id) {
                after.contains_key(id) && after[id] == found_message(id, now[id])
            } else if active.contains_key(id) {
                !after.contains_key(id)
            } else {
                after.contains_key(id) == bridge.contains_key(id) && after[id] == bridge[id]
            }
        }),
{
    let scan = after_processes(rules, fresh_scan(active), processes, times);
    let lost = choose|lost: Seq<Seq<char>>| #[trigger]
        are_lost(scan, lost) && messages == scan.messages + lost_messages(scan, lost);
    lemma_seen_are_active(rules, active, processes, times);
    lemma_found_on_bridge(rules, active, processes, times, bridge, id);
    lemma_lost_on_bridge(scan, lost, bridge, scan.messages, id);
    assert(lost.contains(id) <==> scan.active.contains_key(id) && !scan.seen.contains(id));
}

/// The process that a scan looks at: that of the installed game which Steam runs
/// it for, where there is one.
pub open spec fn looked_at(rules: RulesModel, process: ProcessModel) -> ProcessModel {
    match as_game(rules.installs, process) {
        Some(game) => game,
        None => process,
    }
}

/// A process is found for an application if and only if that is the first one in
/// the database that the process belongs to and the ignore list names neither its
/// id nor its program nor its name.
pub proof fn processes_are_found_unless_ignored(rules: RulesModel, process: ProcessModel, n: int)
    requires
        0 <= n < rules.apps.len(),
        is_app_of(rules.apps[n], looked_at(rules, process)),
        forall|j: int|
            0 <= j < n ==> !is_app_of(#[trigger] rules.apps[j], looked_at(rules, process)),
    ensures
        found_app(rules, process) == (if is_ignored(
            rules.ignored,
            rules.apps[n].id,
            looked_at(rules, process).path,
            rules.apps[n].name,
        ) {
            None
        } else {
            Some(rules.apps[n])
        }),
{
    the_first_application_is_found(rules.apps, looked_at(rules, process));
    let i = detected(rules.apps, looked_at(rules, process), 0)->0;
    assert(is_app_of(rules.apps[i], looked_at(rules, process)));
    if i < n {
        assert(!is_app_of(rules.apps[i], looked_at(rules, process)));
    }
}

/// A process that belongs to no application is not found.
pub proof fn other_processes_are_not_found(rules: RulesModel, process: ProcessModel)
    requires
        forall|j: int|
            0 <= j < rules.apps.len() ==> !is_app_of(
                #[trigger] rules.apps[j],
                looked_at(rules, process),
            ),
    ensures
        found_app(rules, process) is None,
{
    the_first_application_is_found(rules.apps, looked_at(rules, process));
}

/// What is found is an application of the database that the process belongs to,
/// and one that is not passed over.
pub proof fn found_applications_own_their_processes(rules: RulesModel, process: ProcessModel)
    requires
        found_app(rules, process) is Some,
    ensures
        ({
            let app = found_app(rules, process)->0;
            &&& rules.apps.contains(app)
            &&& is_app_of(app, looked_at(rules, process))
            &&& !is_ignored(rules.ignored, app.id, looked_at(rules, process).path, app.name)
        }),
{
    the_first_application_is_found(rules.apps, looked_at(rules, process));
    let i = detected(rules.apps, looked_at(rules, process), 0)->0;
    assert(rules.apps[i] == found_app(rules, process)->0);
}

proof fn lemma_seen_are_found(
    rules: RulesModel,
    active: Map<Seq<char>, ActiveModel>,
    processes: Seq<ProcessModel>,
    times: Seq<u64>,
    id: Seq<char>,
)
    ensures
        after_processes(rules, fresh_scan(active), processes, times).seen.contains(id)
            <==> exists|k: int|
            0 <= k < processes.len() && is_found_as(rules, #[trigger] processes[k], id),
    decreases processes.len(),
{
    if processes.len() > 0 {
        let rest = processes.drop_last();
        lemma_seen_are_found(rules, active, rest, times.drop_last(), id);
        let before = after_processes(rules, fresh_scan(active), rest, times.drop_last());
        if before.seen.contains(id) {
            let k = choose|k: int|
                0 <= k < rest.len() && is_found_as(rules, #[trigger] rest[k], id);
            assert(is_found_as(rules, processes[k], id));
        }
        if is_found_as(rules, processes.last(), id) {
            assert(is_found_as(rules, processes[processes.len() - 1], id));
        }
        if exists|k: int|
            0 <= k < processes.len() && is_found_as(rules, #[trigger] processes[k], id) {
            let k = choose|k: int|
                0 <= k < processes.len() && is_found_as(rules, #[trigger] processes[k], id);
            if k < rest.len() {
                assert(is_found_as(rules, rest[k], id));
            }
        }
    }
}

/// A game runs after a scan if and only if a process of it was found.
pub proof fn games_run_where_a_process_is_found(
    rules: RulesModel,
    before: Map<Seq<char>, ActiveModel>,
    processes: Seq<ProcessModel>,
    messages: Seq<JsonModel>,
    after: Map<Seq<char>, ActiveModel>,
    id: Seq<char>,
)
    requires
        scans(rules, before, processes, messages, after),
    ensures
        after.contains_key(id) <==> exists|k: int|
            0 <= k < processes.len() && is_found_as(rules, #[trigger] processes[k], id),
{
    let times = choose|times: Seq<u64>|
        scans_at(rules, before, processes, times, messages, after);
    lemma_seen_are_found(rules, before, processes, times, id);
    only_seen_games_run_on(rules, before, processes, times);
    let scan = after_processes(rules, fresh_scan(before), processes, times);
    assert(still_active(scan).dom().contains(id) <==> scan.seen.contains(id));
}

/// Games with an entry of the ignore list in their names, or whose names stand in
/// an entry, are told of by no scan and do not run on after one.
pub proof fn scans_pass_over_ignored_names(
    rules: RulesModel,
    before: Map<Seq<char>, ActiveModel>,
    processes: Seq<ProcessModel>,
    messages: Seq<JsonModel>,
    after: Map<Seq<char>, ActiveModel>,
    id: Seq<char>,
    entry: Seq<char>,
    i: int,
)
    requires
        scans(rules, before, processes, messages, after),
        rules.ignored.contains(entry),
        forall|n: int|
            0 <= n < rules.apps.len() && (#[trigger] rules.apps[n]).id == id ==> contains(
                lowercase(trimmed(rules.apps[n].name)),
                entry,
            ) || contains(entry, lowercase(trimmed(rules.apps[n].name))),
        0 <= i < messages.len(),
    ensures
        !after.contains_key(id),
        text_field(messages[i], "socketId"@) == Some(id) ==> field(messages[i], "activity"@)
            == Some(JsonModel::Null),
{
    assert forall|k: int| 0 <= k < processes.len() implies !is_found_as(
        rules,
        #[trigger] processes[k],
        id,
    ) by {
        if is_found_as(rules, processes[k], id) {
            found_applications_own_their_processes(rules, processes[k]);
            let app = found_app(rules, processes[k])->0;
            let n = choose|n: int| 0 <= n < rules.apps.len() && rules.apps[n] == app;
            assert(rules.apps[n].id == id);
            entries_hide_games_by_name(
                rules.ignored,
                entry,
                app.id,
                looked_at(rules, processes[k]).path,
                app.name,
            );
        }
    }
    games_run_where_a_process_is_found(rules, before, processes, messages, after, id);
    unseen_games_are_only_told_as_lost(rules, before, processes, messages, after, id, i);
}

/// Applications whose ids are in the ignore list are told of by no scan and do
/// not run on after one.
pub proof fn scans_pass_over_ignored_ids(
    rules: RulesModel,
    before: Map<Seq<char>, ActiveModel>,
    processes: Seq<ProcessModel>,
    messages: Seq<JsonModel>,
    after: Map<Seq<char>, ActiveModel>,
    id: Seq<char>,
    i: int,
)
    requires
        scans(rules, before, processes, messages, after),
        rules.ignored.contains(lowercase(trimmed(id))),
        0 <= i < messages.len(),
    ensures
        !after.contains_key(id),
        text_field(messages[i], "socketId"@) == Some(id) ==> field(messages[i], "activity"@)
            == Some(JsonModel::Null),
{
    assert forall|k: int| 0 <= k < processes.len() implies !is_found_as(
        rules,
        #[trigger] processes[k],
        id,
    ) by {
        if is_found_as(rules, processes[k], id) {
            found_applications_own_their_processes(rules, processes[k]);
            let app = found_app(rules, processes[k])->0;
            entries_hide_games_by_id(
                rules.ignored,
                app.id,
                looked_at(rules, processes[k]).path,
                app.name,
            );
        }
    }
    games_run_where_a_process_is_found(rules, before, processes, messages, after, id);
    unseen_games_are_only_told_as_lost(rules, before, processes, messages, after, id, i);
}

/// Of a game without a process that is found, a scan tells nothing but that it is
/// lost.
pub proof fn unseen_games_are_only_told_as_lost(
    rules: RulesModel,
    before: Map<Seq<char>, ActiveModel>,
    processes: Seq<ProcessModel>,
    messages: Seq<JsonModel>,
    after: Map<Seq<char>, ActiveModel>,
    id: Seq<char>,
    i: int,
)
    requires
        scans(rules, before, processes, messages, after),
        !after.contains_key(id),
        0 <= i < messages.len(),
    ensures
        text_field(messages[i], "socketId"@) == Some(id) ==> field(messages[i], "activity"@)
            == Some(JsonModel::Null),
{
    let times = choose|times: Seq<u64>|
        scans_at(rules, before, processes, times, messages, after);
    let scan = after_processes(rules, fresh_scan(before), processes, times);
    let lost = choose|lost: Seq<Seq<char>>| #[trigger]
        are_lost(scan, lost) && messages == scan.messages + lost_messages(scan, lost);
    if i < scan.messages.len() {
        let found = lemma_only_running_are_found(rules, before, processes, times, i);
        assert(scan.messages.contains(found_message(found.0, found.1)));
        lemma_told_as_running(rules, before, processes, times, found.0, found.1);
        lemma_found_fields(found.0, found.1);
        assert(still_active(scan).contains_key(found.0));
    } else {
        let other = lost[i - scan.messages.len()];
        assert(messages[i] == lost_message(other, scan.active[other]));
        lemma_activity_message(JsonModel::Null, integer(scan.active[other].pid as int), other);
    }
}

/// A message tells of a game that runs: its socket and its application are the
/// id, its process, its name and the time of its start are those of the game.
pub proof fn found_messages_tell_of_the_game(id: Seq<char>, game: ActiveModel)
    ensures
        ({
            let message = found_message(id, game);
            let activity = field_or_null(message, "activity"@);
            &&& text_field(message, "socketId"@) == Some(id)
            &&& field(message, "pid"@) == Some(integer(game.pid as int))
            &&& text_field(activity, "application_id"@) == Some(id)
            &&& text_field(activity, "name"@) == Some(game.name)
            &&& field(field_or_null(activity, "timestamps"@), "start"@) == Some(
                integer(game.started_at as int),
            )
        }),
{
    lemma_found_fields(id, game);
    let activity = JsonModel::Object(
        map![
            "application_id"@ => JsonModel::Text(id),
            "name"@ => JsonModel::Text(game.name),
            "timestamps"@ => JsonModel::Object(
                map!["start"@ => integer(game.started_at as int)],
            ),
        ],
    );
    lemma_activity_message(activity, integer(game.pid as int), id);
    reveal_strlit("application_id");
    reveal_strlit("name");
    reveal_strlit("timestamps");
    assert("application_id"@.len() != "timestamps"@.len());
    assert("name"@.len() != "application_id"@.len());
}

/// A message tells of a game that is lost: its socket is the id, its process that
/// of the game, and its activity is null.
pub proof fn lost_messages_clear_the_game(id: Seq<char>, game: ActiveModel)
    ensures
        text_field(lost_message(id, game), "socketId"@) == Some(id),
        field(lost_message(id, game), "pid"@) == Some(integer(game.pid as int)),
        field(lost_message(id, game), "activity"@) == Some(JsonModel::Null),
{
    lemma_activity_message(JsonModel::Null, integer(game.pid as int), id);
}

/// A scan goes through the processes one after the other.
pub proof fn scans_go_on(
    rules: RulesModel,
    scan: ScanModel,
    first: Seq<ProcessModel>,
    first_times: Seq<u64>,
    rest: Seq<ProcessModel>,
    rest_times: Seq<u64>,
)
    requires
        first.len() == first_times.len(),
        rest.len() == rest_times.len(),
    ensures
        after_processes(rules, scan, Seq::empty(), Seq::empty()) == scan,
        after_processes(rules, scan, first + rest, first_times + rest_times) == after_processes(
            rules,
            after_processes(rules, scan, first, first_times),
            rest,
            rest_times,
        ),
    decreases rest.len(),
{
    let all = first + rest;
    let times = first_times + rest_times;
    if rest.len() == 0 {
        assert(all =~= first);
        assert(times =~= first_times);
    } else {
        scans_go_on(
            rules,
            scan,
            first,
            first_times,
            rest.drop_last(),
            rest_times.drop_last(),
        );
        assert(all.drop_last() =~= first + rest.drop_last());
        assert(times.drop_last() =~= first_times + rest_times.drop_last());
    }
}

/// A process that is found is told of by one message more. The game is running
/// and seen, with this process; it keeps its name and the time of its start where
/// it was running, and else has the name in the database and starts now. No other
/// game changes. A process that is not found changes nothing.
pub proof fn each_found_process_is_told(
    rules: RulesModel,
    scan: ScanModel,
    process: ProcessModel,
    now: u64,
)
    ensures
        ({
            let after = after_processes(rules, scan, seq![process], seq![now]);
            match found_app(rules, process) {
                Some(app) => {
                    let game = after.active[app.id];
                    &&& after.seen == scan.seen.insert(app.id)
                    &&& after.active == scan.active.insert(app.id, game)
                    &&& after.messages == scan.messages.push(found_message(app.id, game))
                    &&& game.pid == process.pid
                    &&& scan.active.contains_key(app.id) ==> game.name == scan.active[app.id].name
                        && game.started_at == scan.active[app.id].started_at
                    &&& !scan.active.contains_key(app.id) ==> game.name == app.name
                        && game.started_at == now
                },
                None => after == scan,
            }
        }),
{
    let one = seq![process];
    let times = seq![now];
    assert(one.drop_last() =~= Seq::empty());
    assert(times.drop_last() =~= Seq::empty());
    assert(after_processes(rules, scan, one.drop_last(), times.drop_last()) == scan);
}

/// A game that was running and of which no process is found is told of as lost,
/// once, and no other game is.
pub proof fn lost_games_are_told_once(
    rules: RulesModel,
    before: Map<Seq<char>, ActiveModel>,
    processes: Seq<ProcessModel>,
    times: Seq<u64>,
    messages: Seq<JsonModel>,
    after: Map<Seq<char>, ActiveModel>,
    id: Seq<char>,
)
    requires
        scans_at(rules, before, processes, times, messages, after),
    ensures
        ({
            let told = after_processes(rules, fresh_scan(before), processes, times).messages;
            &&& told.len() <= messages.len() && messages.take(told.len() as int) == told
            &&& before.contains_key(id) && !after.contains_key(id) <==> exists|i: int|
                told.len() <= i < messages.len() && #[trigger] messages[i] == lost_message(
                    id,
                    before[id],
                )
            &&& forall|i: int, j: int|
                told.len() <= i < j < messages.len() ==> text_field(
                    #[trigger] messages[i],
                    "socketId"@,
                ) != text_field(#[trigger] messages[j], "socketId"@)
        }),
{
    let scan = after_processes(rules, fresh_scan(before), processes, times);
    let told = scan.messages;
    let lost = choose|lost: Seq<Seq<char>>| #[trigger]
        are_lost(scan, lost) && messages == scan.messages + lost_messages(scan, lost);
    assert(messages.take(told.len() as int) =~= told);
    lemma_seen_are_active(rules, before, processes, times);
    assert(still_active(scan).contains_key(id) <==> scan.seen.contains(id)) by {
        only_seen_games_run_on(rules, before, processes, times);
        assert(still_active(scan).dom().contains(id) <==> scan.seen.contains(id));
    }
    assert forall|k: int| 0 <= k < lost.len() implies scan.active[#[trigger] lost[k]]
        == before[lost[k]] && before.contains_key(lost[k]) && !scan.seen.contains(lost[k]) by {
        assert(lost.contains(lost[k]));
        lemma_unseen_stay(rules, before, processes, times, lost[k]);
    }
    assert forall|i: int| told.len() <= i < messages.len() implies #[trigger] messages[i]
        == lost_message(lost[i - told.len()], before[lost[i - told.len()]]) by {
        assert(lost_messages(scan, lost)[i - told.len()] == messages[i]);
        assert(scan.active[lost[i - told.len()]] == before[lost[i - told.len()]]);
    }
    if before.contains_key(id) && !after.contains_key(id) {
        lemma_unseen_stay(rules, before, processes, times, id);
        assert(lost.contains(id));
        let k = choose|k: int| 0 <= k < lost.len() && lost[k] == id;
        assert(messages[told.len() + k] == lost_message(id, before[id]));
    }
    if exists|i: int|
        told.len() <= i < messages.len() && #[trigger] messages[i] == lost_message(id, before[id]) {
        let i = choose|i: int|
            told.len() <= i < messages.len() && #[trigger] messages[i] == lost_message(
                id,
                before[id],
            );
        let other = lost[i - told.len()];
        lost_messages_clear_the_game(id, before[id]);
        lost_messages_clear_the_game(other, before[other]);
        assert(other == id);
    }
    assert forall|i: int, j: int| told.len() <= i < j < messages.len() implies text_field(
        #[trigger] messages[i],
        "socketId"@,
    ) != text_field(#[trigger] messages[j], "socketId"@) by {
        let one = lost[i - told.len()];
        let other = lost[j - told.len()];
        lost_messages_clear_the_game(one, before[one]);
        lost_messages_clear_the_game(other, before[other]);
        assert(one != other);
    }
}

proof fn lemma_unseen_stay(
    rules: RulesModel,
    active: Map<Seq<char>, ActiveModel>,
    processes: Seq<ProcessModel>,
    times: Seq<u64>,
    id: Seq<char>,
)
    ensures
        ({
            let scan = after_processes(rules, fresh_scan(active), processes, times);
            !scan.seen.contains(id) ==> scan.active.contains_key(id) == active.contains_key(id)
                && scan.active[id] == active[id]
        }),
    decreases processes.len(),
{
    if processes.len() > 0 {
        lemma_unseen_stay(rules, active, processes.drop_last(), times.drop_last(), id);
    }
}

} // verus!
