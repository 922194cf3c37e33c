//! Which application a process belongs to, by the database of detectable
//! applications.
use crate::text::{
    char_seqs, chars_of, contains, join_strings, joined, lemma_split_not_empty, list_has, lower,
    lowercase, opt_text, parts_are_joined_in_order, pieces_follow_each_other,
    pieces_give_the_text_back, replaced, replacing_a_character_changes_it_everywhere, same_text,
    split_chars, split_on, starts_with, string_of, text_contains, text_replace, text_starts_with,
    texts,
};
use vstd::prelude::*;

verus! {

/// The name of an application that has none of its own.
pub const CUSTOM_GAME: &'static str = "Custom Game";

/// The longest run of arguments in which a required argument is looked for.
pub const MAX_RUN: usize = 5;

/// A program by which an application is recognised. A name that begins with
/// `>` must be the file name of the program.
#[derive(Debug)]
pub struct DetectableExecutable {
    pub name: String,
    pub is_launcher: bool,
    pub arguments: Option<String>,
}

/// An application of the database.
#[derive(Debug)]
pub struct DetectableApp {
    pub id: String,
    pub name: String,
    pub aliases: Option<Vec<String>>,
    pub executables: Option<Vec<DetectableExecutable>>,
}

/// A process: its id, the path of its program, and its arguments.
#[derive(Debug)]
pub struct ProcessInfo {
    pub pid: u32,
    pub path: String,
    pub args: Vec<String>,
}

// ---------------------------------------------------------------------------
// The models
// ---------------------------------------------------------------------------
pub struct ExecutableModel {
    pub name: Seq<char>,
    pub is_launcher: bool,
    pub arguments: Option<Seq<char>>,
}

pub struct AppModel {
    pub id: Seq<char>,
    pub name: Seq<char>,
    pub aliases: Option<Seq<Seq<char>>>,
    pub executables: Option<Seq<ExecutableModel>>,
}

pub struct ProcessModel {
    pub pid: u32,
    pub path: Seq<char>,
    pub args: Seq<Seq<char>>,
}

impl View for DetectableExecutable {
    type V = ExecutableModel;

    open spec fn view(&self) -> ExecutableModel {
        ExecutableModel {
            name: self.name@,
            is_launcher: self.is_launcher,
            arguments: opt_text(self.arguments),
        }
    }
}

/// What each executable stands for.
pub open spec fn executables_model(executables: Seq<DetectableExecutable>) -> Seq<
    ExecutableModel,
> {
    executables.map_values(|executable: DetectableExecutable| executable@)
}

impl View for DetectableApp {
    type V = AppModel;

    open spec fn view(&self) -> AppModel {
        AppModel {
            id: self.id@,
            name: self.name@,
            aliases: match self.aliases {
                Some(aliases) => Some(texts(aliases@)),
                None => None,
            },
            executables: match self.executables {
                Some(executables) => Some(executables_model(executables@)),
                None => None,
            },
        }
    }
}

/// What each application stands for.
pub open spec fn apps_model(apps: Seq<DetectableApp>) -> Seq<AppModel> {
    apps.map_values(|app: DetectableApp| app@)
}

impl View for ProcessInfo {
    type V = ProcessModel;

    open spec fn view(&self) -> ProcessModel {
        ProcessModel { pid: self.pid, path: self.path@, args: texts(self.args@) }
    }
}

/// What each process stands for.
pub open spec fn processes_model(processes: Seq<ProcessInfo>) -> Seq<ProcessModel> {
    processes.map_values(|process: ProcessInfo| process@)
}

// ---------------------------------------------------------------------------
// The names by which a path is looked up
// ---------------------------------------------------------------------------
/// The tails of a path, the file name first and the whole path last.
pub open spec fn path_tails(parts: Seq<Seq<char>>) -> Seq<Seq<char>> {
    Seq::new(parts.len(), |i: int| joined(parts.skip(parts.len() - 1 - i), "/"@))
}

/// A tail without the marks of a 64 bit program.
pub open spec fn plain_variants(tail: Seq<char>) -> Seq<Seq<char>> {
    seq![
        replaced(tail, "64"@, ""@),
        replaced(tail, ".x64"@, ""@),
        replaced(tail, "x64"@, ""@),
        replaced(tail, "_64"@, ""@),
    ]
}

/// The variants of each tail, in the order of the tails.
pub open spec fn all_variants(tails: Seq<Seq<char>>) -> Seq<Seq<char>>
    decreases tails.len(),
{
    if tails.len() == 0 {
        Seq::empty()
    } else {
        all_variants(tails.drop_last()) + plain_variants(tails.last())
    }
}

/// A path with `/` between its parts.
pub open spec fn unified_path(path: Seq<char>) -> Seq<char> {
    replaced(path, "\\"@, "/"@)
}

/// The names by which the program at a path in lower case is looked up.
pub open spec fn lowered_candidates(path: Seq<char>) -> Seq<Seq<char>> {
    let tails = path_tails(split_on(unified_path(path), '/'));
    tails + all_variants(tails)
}

/// The names by which the program at `path` is looked up.
pub open spec fn candidates_of(path: Seq<char>) -> Seq<Seq<char>> {
    lowered_candidates(lowercase(path))
}

/// The names by which the program at `path` is looked up.
pub fn path_candidates(path: &str) -> (r: Vec<String>)
    ensures
        texts(r@) == candidates_of(path@),
        r@.len() > 0,
{
    lowered_path_candidates(lower(path).as_str())
}

/// The names by which the program at a path in lower case is looked up.
pub fn lowered_path_candidates(path: &str) -> (r: Vec<String>)
    ensures
        texts(r@) == lowered_candidates(path@),
        r@.len() > 0,
{
    proof {
        reveal_strlit("\\");
        reveal_strlit("64");
        reveal_strlit(".x64");
        reveal_strlit("x64");
        reveal_strlit("_64");
    }
    let normalized = text_replace(path, "\\", "/");
    let pieces = split_chars(chars_of(normalized.as_str()).as_slice(), '/');
    let mut parts: Vec<String> = Vec::new();
    let mut i: usize = 0;
    while i < pieces.len()
        invariant
            i <= pieces@.len(),
            parts@.len() == i,
            forall|j: int| 0 <= j < i ==> parts@[j]@ == pieces@[j]@,
        decreases pieces@.len() - i,
    {
        parts.push(string_of(pieces[i].as_slice()));
        i += 1;
    }
    let ghost split = split_on(unified_path(path@), '/');
    assert(texts(parts@) =~= split) by {
        assert(split == char_seqs(pieces@));
    }
    let count: usize = parts.len();
    let mut candidates: Vec<String> = Vec::new();
    let mut len: usize = 0;
    while len < count
        invariant
            len <= count,
            count == parts@.len(),
            texts(parts@) == split,
            candidates@.len() == len,
            forall|j: int| 0 <= j < len ==> (#[trigger] candidates@[j])@ == path_tails(split)[j],
        decreases count - len,
    {
        let tail = join_strings(&parts.as_slice()[count - 1 - len..count], "/");
        assert(texts(parts@.subrange(count - 1 - len, count as int)) =~= split.skip(
            split.len() - 1 - len,
        ));
        candidates.push(tail);
        len += 1;
    }
    let ghost tails = path_tails(split);
    assert(texts(candidates@) =~= tails);
    let mut k: usize = 0;
    assert(tails.take(0) =~= Seq::empty());
    assert(tails + all_variants(tails.take(0)) =~= tails);
    while k < count
        invariant
            k <= count,
            count == tails.len(),
            count <= candidates@.len(),
            texts(candidates@) == tails + all_variants(tails.take(k as int)),
            "64"@.len() > 0,
            ".x64"@.len() > 0,
            "x64"@.len() > 0,
            "_64"@.len() > 0,
        decreases count - k,
    {
        let ghost before = texts(candidates@);
        assert(before[k as int] == tails[k as int]);
        let tail = candidates[k].clone();
        candidates.push(text_replace(tail.as_str(), "64", ""));
        candidates.push(text_replace(tail.as_str(), ".x64", ""));
        candidates.push(text_replace(tail.as_str(), "x64", ""));
        candidates.push(text_replace(tail.as_str(), "_64", ""));
        assert(tails.take(k + 1).drop_last() =~= tails.take(k as int));
        assert(texts(candidates@) =~= before + plain_variants(tail@));
        assert(texts(candidates@) =~= tails + all_variants(tails.take(k + 1)));
        k += 1;
    }
    assert(tails.take(count as int) =~= tails);
    candidates
}

// ---------------------------------------------------------------------------
// Matching
// ---------------------------------------------------------------------------
/// The arguments in lower case.
pub open spec fn lowered(args: Seq<Seq<char>>) -> Seq<Seq<char>> {
    args.map_values(|arg: Seq<char>| lowercase(arg))
}

/// The arguments from `start` on, `count` of them, with spaces between them.
pub open spec fn run_of(args: Seq<Seq<char>>, start: int, count: int) -> Seq<char> {
    joined(args.subrange(start, start + count), " "@)
}

/// `target` stands in the run of `count` arguments from `start` on.
pub open spec fn run_has(
    args: Seq<Seq<char>>,
    start: int,
    count: int,
    target: Seq<char>,
) -> bool {
    &&& 0 <= start
    &&& 1 <= count <= MAX_RUN
    &&& start + count <= args.len()
    &&& contains(run_of(args, start, count), target)
}

/// `target` stands in an argument, or in a few that follow each other with a
/// space between them.
pub open spec fn runs_have(args: Seq<Seq<char>>, target: Seq<char>) -> bool {
    exists|start: int, count: int| run_has(args, start, count, target)
}

/// `target` stands in the arguments; the case of letters does not count.
pub open spec fn args_have(args: Seq<Seq<char>>, target: Seq<char>) -> bool {
    runs_have(lowered(args), lowercase(target))
}

/// Whether `target` stands in the arguments; the case of letters does not count.
pub fn args_contain_string(args: &Vec<String>, target: &str) -> (r: bool)
    ensures
        r == args_have(texts(args@), target@),
{
    let mut lowered_args: Vec<String> = Vec::new();
    let mut i: usize = 0;
    while i < args.len()
        invariant
            i <= args@.len(),
            lowered_args@.len() == i,
            forall|j: int|
                0 <= j < i ==> (#[trigger] lowered_args@[j])@ == lowercase(args@[j]@),
        decreases args@.len() - i,
    {
        lowered_args.push(lower(args[i].as_str()));
        i += 1;
    }
    assert(texts(lowered_args@) =~= lowered(texts(args@)));
    runs_contain(&lowered_args, lower(target).as_str())
}

/// Whether `target` stands in an argument, or in a few that follow each other
/// with a space between them.
pub fn runs_contain(args: &Vec<String>, target: &str) -> (r: bool)
    ensures
        r == runs_have(texts(args@), target@),
{
    let ghost list = texts(args@);
    let len: usize = args.len();
    proof {
        reveal_strlit(" ");
    }
    let mut start: usize = 0;
    while start < len
        invariant
            start <= len,
            len == args@.len(),
            list == texts(args@),
            " "@.len() == 1,
            " "@[0] == ' ',
            forall|s: int, n: int| s < start ==> !run_has(list, s, n, target@),
        decreases len - start,
    {
        let mut combined = args[start].clone();
        let mut count: usize = 1;
        assert(list.subrange(start as int, start + 1) =~= seq![list[start as int]]);
        if text_contains(combined.as_str(), target) {
            assert(run_has(list, start as int, 1, target@));
            return true;
        }
        while count < MAX_RUN && count < len - start
            invariant
                start < len,
                len == args@.len(),
                list == texts(args@),
                " "@.len() == 1,
                " "@[0] == ' ',
                1 <= count <= MAX_RUN,
                count <= len - start,
                combined@ == run_of(list, start as int, count as int),
                forall|n: int| n <= count ==> !run_has(list, start as int, n, target@),
            decreases MAX_RUN - count,
        {
            let ghost run = list.subrange(start as int, start + count + 1);
            assert(run.drop_last() =~= list.subrange(start as int, start + count));
            assert(run.last() == list[start + count]);
            let ghost before = combined@;
            combined.push(' ');
            combined.append(args[start + count].as_str());
            assert(combined@ =~= before + " "@ + list[start + count]);
            count += 1;
            if text_contains(combined.as_str(), target) {
                assert(run_has(list, start as int, count as int, target@));
                return true;
            }
        }
        start += 1;
    }
    false
}

/// The first candidate is the marker of an application of this name.
pub open spec fn is_marked(name: Seq<char>, candidates: Seq<Seq<char>>) -> bool {
    candidates.len() > 0 && candidates[0] == lowercase(name) + ".app_name"@
}

/// Whether the first candidate is the marker of an application of this name.
pub fn matches_app_name_marker(app_name: &str, candidates: &Vec<String>) -> (r: bool)
    ensures
        r == is_marked(app_name@, texts(candidates@)),
{
    if candidates.len() == 0 {
        return false;
    }
    let mut marker = lower(app_name);
    marker.append(".app_name");
    same_text(candidates[0].as_str(), marker.as_str())
}

/// `executable` must be the file name of the program.
pub open spec fn is_exact(executable: ExecutableModel) -> bool {
    starts_with(executable.name, ">"@)
}

/// The name of `executable` is one of the candidates.
pub open spec fn is_named(executable: ExecutableModel, candidates: Seq<Seq<char>>) -> bool {
    if is_exact(executable) {
        candidates.len() > 0 && candidates[0] == executable.name.skip(1)
    } else {
        candidates.contains(executable.name)
    }
}

/// `executable` is the program of the candidates. Its arguments must be there
/// under strict matching, and always where the file name must be exact.
pub open spec fn is_program(
    executable: ExecutableModel,
    candidates: Seq<Seq<char>>,
    args: Seq<Seq<char>>,
    launcher: bool,
    strict: bool,
) -> bool {
    &&& executable.is_launcher == launcher
    &&& is_named(executable, candidates)
    &&& match executable.arguments {
        Some(arguments) => (strict || is_exact(executable)) ==> args_have(args, arguments),
        None => true,
    }
}

/// Whether `exe` is the program of the candidates.
pub fn matches_executable(
    exe: &DetectableExecutable,
    candidates: &Vec<String>,
    args: &Vec<String>,
    check_launcher: bool,
    strict_args: bool,
) -> (r: bool)
    ensures
        r == is_program(exe@, texts(candidates@), texts(args@), check_launcher, strict_args),
{
    if exe.is_launcher != check_launcher {
        return false;
    }
    let ghost names = texts(candidates@);
    proof {
        reveal_strlit(">");
    }
    let exact_match = text_starts_with(exe.name.as_str(), ">");
    let name_matches = if candidates.len() == 0 {
        assert(!names.contains(exe@.name));
        false
    } else if exact_match {
        let name = chars_of(exe.name.as_str());
        let exact = string_of(&name.as_slice()[1..name.len()]);
        assert(exact@ =~= exe@.name.skip(1));
        same_text(candidates[0].as_str(), exact.as_str())
    } else {
        list_has(candidates, exe.name.as_str())
    };
    if !name_matches {
        return false;
    }
    match &exe.arguments {
        Some(arguments) => if strict_args || exact_match {
            args_contain_string(args, arguments.as_str())
        } else {
            true
        },
        None => true,
    }
}

/// Some executable is the program of the candidates.
pub open spec fn has_program(
    executables: Seq<ExecutableModel>,
    candidates: Seq<Seq<char>>,
    args: Seq<Seq<char>>,
    launcher: bool,
    strict: bool,
) -> bool {
    exists|i: int|
        0 <= i < executables.len() && is_program(
            #[trigger] executables[i],
            candidates,
            args,
            launcher,
            strict,
        )
}

fn any_matches(
    executables: &Vec<DetectableExecutable>,
    candidates: &Vec<String>,
    args: &Vec<String>,
    check_launcher: bool,
    strict_args: bool,
) -> (r: bool)
    ensures
        r == has_program(
            executables_model(executables@),
            texts(candidates@),
            texts(args@),
            check_launcher,
            strict_args,
        ),
{
    let ghost models = executables_model(executables@);
    let mut i: usize = 0;
    while i < executables.len()
        invariant
            i <= executables@.len(),
            models == executables_model(executables@),
            forall|j: int|
                0 <= j < i ==> !is_program(
                    #[trigger] models[j],
                    texts(candidates@),
                    texts(args@),
                    check_launcher,
                    strict_args,
                ),
        decreases executables@.len() - i,
    {
        assert(models[i as int] == executables@[i as int]@);
        if matches_executable(&executables[i], candidates, args, check_launcher, strict_args) {
            return true;
        }
        i += 1;
    }
    false
}

/// `app` is the application of a program with these candidates and arguments:
/// it is marked as such, or one of its executables is the program, with its
/// arguments or, failing that, without them.
pub open spec fn is_app(
    app: AppModel,
    candidates: Seq<Seq<char>>,
    args: Seq<Seq<char>>,
) -> bool {
    ||| is_marked(app.name, candidates)
    ||| app.executables matches Some(executables) && (has_program(
        executables,
        candidates,
        args,
        false,
        true,
    ) || has_program(executables, candidates, args, true, true) || has_program(
        executables,
        candidates,
        args,
        false,
        false,
    ) || has_program(executables, candidates, args, true, false))
}

/// `app` is the application of `process`.
pub open spec fn is_app_of(app: AppModel, process: ProcessModel) -> bool {
    is_app(app, candidates_of(process.path), process.args)
}

/// The first application of `process` from `from` on.
pub open spec fn detected(apps: Seq<AppModel>, process: ProcessModel, from: int) -> Option<int>
    decreases apps.len() - from,
{
    if from >= apps.len() {
        None
    } else if is_app_of(apps[from], process) {
        Some(from)
    } else {
        detected(apps, process, from + 1)
    }
}

/// The first application of the database that `process` belongs to.
pub fn detect_app<'a>(apps: &'a Vec<DetectableApp>, process: &ProcessInfo) -> (r: Option<
    &'a DetectableApp,
>)
    ensures
        match detected(apps_model(apps@), process@, 0) {
            Some(i) => r is Some && 0 <= i < apps@.len() && *r->0 == apps@[i],
            None => r is None,
        },
{
    let candidates = path_candidates(process.path.as_str());
    let ghost models = apps_model(apps@);
    let mut i: usize = 0;
    while i < apps.len()
        invariant
            i <= apps@.len(),
            models == apps_model(apps@),
            texts(candidates@) == candidates_of(process@.path),
            detected(models, process@, 0) == detected(models, process@, i as int),
        decreases apps@.len() - i,
    {
        let app = &apps[i];
        assert(models[i as int] == app@);
        if matches_app_name_marker(app.name.as_str(), &candidates) {
            return Some(app);
        }
        if let Some(executables) = &app.executables {
            if any_matches(executables, &candidates, &process.args, false, true) || any_matches(
                executables,
                &candidates,
                &process.args,
                true,
                true,
            ) || any_matches(executables, &candidates, &process.args, false, false)
                || any_matches(executables, &candidates, &process.args, true, false) {
                return Some(app);
            }
        }
        i += 1;
    }
    None
}

// ---------------------------------------------------------------------------
// Corrections to the database
// ---------------------------------------------------------------------------
/// The name of an application that has none of its own.
pub fn custom_game_name() -> (r: String)
    ensures
        r@ == CUSTOM_GAME@,
{
    CUSTOM_GAME.to_string()
}

/// `name` is a name of its own.
pub open spec fn is_own_name(name: Seq<char>) -> bool {
    name.len() > 0 && name != CUSTOM_GAME@
}

/// `name`, where it is a name of its own.
pub fn non_empty_name(name: &str) -> (r: Option<&str>)
    ensures
        match r {
            Some(own) => is_own_name(name@) && own@ == name@,
            None => !is_own_name(name@),
        },
{
    if name.is_empty() || same_text(name, CUSTOM_GAME) {
        None
    } else {
        Some(name)
    }
}

/// `app` corrected by `fix`: a name of its own and a list of aliases replace
/// those of `app`, and executables are added to its own.
pub open spec fn patched(app: AppModel, fix: AppModel) -> AppModel {
    AppModel {
        id: app.id,
        name: if is_own_name(fix.name) {
            fix.name
        } else {
            app.name
        },
        aliases: if fix.aliases is Some {
            fix.aliases
        } else {
            app.aliases
        },
        executables: match fix.executables {
            Some(more) => match app.executables {
                Some(executables) => Some(executables + more),
                None => Some(more),
            },
            None => app.executables,
        },
    }
}

/// The first application with this id from `from` on.
pub open spec fn index_of_id(apps: Seq<AppModel>, id: Seq<char>, from: int) -> Option<int>
    decreases apps.len() - from,
{
    if from >= apps.len() {
        None
    } else if apps[from].id == id {
        Some(from)
    } else {
        index_of_id(apps, id, from + 1)
    }
}

/// `apps` after one correction: the application with its id is corrected, and
/// without one `fix` is added.
pub open spec fn after_fix(apps: Seq<AppModel>, fix: AppModel) -> Seq<AppModel> {
    match index_of_id(apps, fix.id, 0) {
        Some(i) => apps.update(i, patched(apps[i], fix)),
        None => apps.push(fix),
    }
}

/// `apps` after all corrections, in their order.
pub open spec fn after_fixes(apps: Seq<AppModel>, fixes: Seq<AppModel>) -> Seq<AppModel>
    decreases fixes.len(),
{
    if fixes.len() == 0 {
        apps
    } else {
        after_fix(after_fixes(apps, fixes.drop_last()), fixes.last())
    }
}

fn patch_app(app: &mut DetectableApp, fix: DetectableApp)
    ensures
        final(app)@ == patched(old(app)@, fix@),
{
    if let Some(name) = non_empty_name(fix.name.as_str()) {
        app.name = name.to_string();
    }
    if let Some(aliases) = fix.aliases {
        app.aliases = Some(aliases);
    }
    if let Some(executables) = fix.executables {
        let mut more = executables;
        let mut all: Vec<DetectableExecutable> = match app.executables.take() {
            Some(own) => own,
            None => Vec::new(),
        };
        let ghost own = all@;
        let ghost added = more@;
        all.append(&mut more);
        assert(executables_model(all@) =~= executables_model(own) + executables_model(added));
        assert(executables_model(Seq::empty()) + executables_model(added) =~= executables_model(
            added,
        ));
        app.executables = Some(all);
    }
}

fn find_app(apps: &Vec<DetectableApp>, id: &str) -> (r: Option<usize>)
    ensures
        match index_of_id(apps_model(apps@), id@, 0) {
            Some(i) => r is Some && r->0 == i && r->0 < apps@.len(),
            None => r is None,
        },
{
    let ghost models = apps_model(apps@);
    let mut i: usize = 0;
    while i < apps.len()
        invariant
            i <= apps@.len(),
            models == apps_model(apps@),
            index_of_id(models, id@, 0) == index_of_id(models, id@, i as int),
        decreases apps@.len() - i,
    {
        assert(models[i as int] == apps@[i as int]@);
        if same_text(apps[i].id.as_str(), id) {
            return Some(i);
        }
        i += 1;
    }
    None
}

fn merge_fix(apps: &mut Vec<DetectableApp>, fix: DetectableApp)
    ensures
        apps_model(final(apps)@) == after_fix(apps_model(old(apps)@), fix@),
{
    let ghost models = apps_model(apps@);
    let ghost model = fix@;
    match find_app(apps, fix.id.as_str()) {
        Some(i) => {
            patch_app(&mut apps[i], fix);
            assert(apps_model(apps@) =~= models.update(
                i as int,
                patched(models[i as int], model),
            ));
        },
        None => {
            apps.push(fix);
            assert(apps_model(apps@) =~= models.push(model));
        },
    }
}

/// Applies corrections to the database, in their order.
pub fn merge_detectable_fixes(apps: &mut Vec<DetectableApp>, fixes: Vec<DetectableApp>)
    ensures
        apps_model(final(apps)@) == after_fixes(apps_model(old(apps)@), apps_model(fixes@)),
{
    let ghost start = apps_model(apps@);
    let ghost models = apps_model(fixes@);
    assert(models.take(0) =~= Seq::empty());
    for fix in iter: fixes
        invariant
            iter.seq() == fixes@,
            models == apps_model(fixes@),
            apps_model(apps@) == after_fixes(start, models.take(iter.index())),
    {
        assert(models.take(iter.index() + 1).drop_last() =~= models.take(iter.index()));
        assert(models.take(iter.index() + 1).last() == fix@);
        merge_fix(apps, fix);
    }
    assert(models.take(models.len() as int) =~= models);
}

// ---------------------------------------------------------------------------
// Laws
// ---------------------------------------------------------------------------
proof fn lemma_index_of_id(apps: Seq<AppModel>, id: Seq<char>, from: int)
    requires
        0 <= from,
    ensures
        match index_of_id(apps, id, from) {
            Some(i) => from <= i < apps.len() && apps[i].id == id && forall|j: int|
                from <= j < i ==> apps[j].id != id,
            None => forall|j: int| from <= j < apps.len() ==> apps[j].id != id,
        },
    decreases apps.len() - from,
{
    if from < apps.len() && apps[from].id != id {
        lemma_index_of_id(apps, id, from + 1);
    }
}

/// Corrections take no application away and do not reorder the database: each
/// application keeps its place and its id.
pub proof fn fixes_keep_ids_in_place(apps: Seq<AppModel>, fixes: Seq<AppModel>)
    ensures
        apps.len() <= after_fixes(apps, fixes).len(),
        forall|i: int|
            0 <= i < apps.len() ==> #[trigger] after_fixes(apps, fixes)[i].id == apps[i].id,
    decreases fixes.len(),
{
    if fixes.len() > 0 {
        fixes_keep_ids_in_place(apps, fixes.drop_last());
        lemma_index_of_id(after_fixes(apps, fixes.drop_last()), fixes.last().id, 0);
    }
}

/// After the corrections there is an application for each of them.
pub proof fn fixes_have_their_apps(apps: Seq<AppModel>, fixes: Seq<AppModel>, k: int)
    requires
        0 <= k < fixes.len(),
    ensures
        exists|i: int|
            0 <= i < after_fixes(apps, fixes).len() && #[trigger] after_fixes(apps, fixes)[i].id
                == fixes[k].id,
    decreases fixes.len(),
{
    let before = after_fixes(apps, fixes.drop_last());
    let after = after_fixes(apps, fixes);
    lemma_index_of_id(before, fixes.last().id, 0);
    if k == fixes.len() - 1 {
        match index_of_id(before, fixes.last().id, 0) {
            Some(i) => assert(after[i].id == fixes[k].id),
            None => assert(after[before.len() as int].id == fixes[k].id),
        }
    } else {
        fixes_have_their_apps(apps, fixes.drop_last(), k);
        let i = choose|i: int| 0 <= i < before.len() && before[i].id == fixes[k].id;
        assert(after[i].id == fixes[k].id);
    }
}

/// Where no two applications share an id, none do after the corrections, even
/// where two corrections are for one application.
pub proof fn fixes_keep_ids_distinct(apps: Seq<AppModel>, fixes: Seq<AppModel>)
    requires
        forall|i: int, j: int| 0 <= i < j < apps.len() ==> apps[i].id != apps[j].id,
    ensures
        forall|i: int, j: int|
            0 <= i < j < after_fixes(apps, fixes).len() ==> after_fixes(apps, fixes)[i].id
                != after_fixes(apps, fixes)[j].id,
    decreases fixes.len(),
{
    if fixes.len() > 0 {
        fixes_keep_ids_distinct(apps, fixes.drop_last());
        lemma_index_of_id(after_fixes(apps, fixes.drop_last()), fixes.last().id, 0);
    }
}

/// The executables of an application, none where it lists none.
pub open spec fn executables_of(app: AppModel) -> Seq<ExecutableModel> {
    match app.executables {
        Some(executables) => executables,
        None => Seq::empty(),
    }
}

/// A corrected application has the programs of both: those that it had before,
/// and those of the correction.
pub proof fn fixes_add_programs(
    app: AppModel,
    fix: AppModel,
    candidates: Seq<Seq<char>>,
    args: Seq<Seq<char>>,
    launcher: bool,
    strict: bool,
)
    ensures
        has_program(executables_of(patched(app, fix)), candidates, args, launcher, strict) <==> (
        has_program(executables_of(app), candidates, args, launcher, strict) || has_program(
            executables_of(fix),
            candidates,
            args,
            launcher,
            strict,
        )),
{
    let own = executables_of(app);
    let more = executables_of(fix);
    let all = executables_of(patched(app, fix));
    assert(all =~= own + more);
    if has_program(own, candidates, args, launcher, strict) {
        let i = choose|i: int|
            0 <= i < own.len() && is_program(#[trigger] own[i], candidates, args, launcher, strict);
        assert(all[i] == own[i]);
    }
    if has_program(more, candidates, args, launcher, strict) {
        let i = choose|i: int|
            0 <= i < more.len() && is_program(
                #[trigger] more[i],
                candidates,
                args,
                launcher,
                strict,
            );
        assert(all[own.len() + i] == more[i]);
    }
    if has_program(all, candidates, args, launcher, strict) {
        let i = choose|i: int|
            0 <= i < all.len() && is_program(#[trigger] all[i], candidates, args, launcher, strict);
        if i < own.len() {
            assert(own[i] == all[i]);
        } else {
            assert(more[i - own.len()] == all[i]);
        }
    }
}

/// Strict matching finds no application that loose matching does not find: an
/// application is that of a process if and only if it is marked as such or one
/// of its executables, launcher or not, matches loosely.
pub proof fn loose_matching_decides(
    app: AppModel,
    candidates: Seq<Seq<char>>,
    args: Seq<Seq<char>>,
)
    ensures
        is_app(app, candidates, args) <==> {
            ||| is_marked(app.name, candidates)
            ||| app.executables matches Some(executables) && exists|i: int|
                0 <= i < executables.len() && is_program(
                    #[trigger] executables[i],
                    candidates,
                    args,
                    executables[i].is_launcher,
                    false,
                )
        },
{
    if let Some(executables) = app.executables {
        assert forall|i: int, launcher: bool, strict: bool|
            0 <= i < executables.len() && #[trigger] is_program(
                executables[i],
                candidates,
                args,
                launcher,
                strict,
            ) implies is_program(
            executables[i],
            candidates,
            args,
            executables[i].is_launcher,
            false,
        ) by {}
        if exists|i: int|
            0 <= i < executables.len() && is_program(
                #[trigger] executables[i],
                candidates,
                args,
                executables[i].is_launcher,
                false,
            ) {
            let i = choose|i: int|
                0 <= i < executables.len() && is_program(
                    #[trigger] executables[i],
                    candidates,
                    args,
                    executables[i].is_launcher,
                    false,
                );
            assert(has_program(executables, candidates, args, executables[i].is_launcher, false));
        }
    }
}

/// The file name of a program, in lower case, is its first candidate, and the
/// whole path is one of them too.
pub proof fn file_name_comes_first(path: Seq<char>)
    ensures
        ({
            let parts = split_on(unified_path(lowercase(path)), '/');
            &&& candidates_of(path).len() == 5 * parts.len()
            &&& parts.len() > 0
            &&& candidates_of(path)[0] == parts.last()
            &&& candidates_of(path)[parts.len() - 1] == joined(parts, "/"@)
        }),
{
    let parts = split_on(unified_path(lowercase(path)), '/');
    lemma_split_not_empty(unified_path(lowercase(path)), '/');
    lemma_variant_count(path_tails(parts));
    assert(parts.skip(parts.len() - 1) =~= seq![parts.last()]);
    assert(parts.skip(0) =~= parts);
}

proof fn lemma_last_piece(head: Seq<char>, tail: Seq<char>, sep: char)
    requires
        !tail.contains(sep),
    ensures
        split_on(head.push(sep) + tail, sep).last() == tail,
    decreases tail.len(),
{
    let whole = head.push(sep) + tail;
    if tail.len() == 0 {
        assert(whole =~= head.push(sep));
        assert(tail =~= Seq::empty());
    } else {
        let rest = tail.drop_last();
        assert forall|c: char| #[trigger] rest.contains(c) implies tail.contains(c) by {
            let j = choose|j: int| 0 <= j < rest.len() && rest[j] == c;
            assert(tail[j] == c);
        }
        assert(tail.contains(tail.last()));
        lemma_last_piece(head, rest, sep);
        assert(whole.drop_last() =~= head.push(sep) + rest);
        lemma_split_not_empty(whole.drop_last(), sep);
        assert(rest.push(tail.last()) =~= tail);
    }
}

/// A process whose path ends, in lower case, in the marker of an application
/// belongs to it, whatever programs the application lists.
pub proof fn marked_processes_belong_to_the_app(
    app: AppModel,
    process: ProcessModel,
    dir: Seq<char>,
)
    requires
        unified_path(lowercase(process.path)) == dir.push('/') + (lowercase(app.name)
            + ".app_name"@),
        !(lowercase(app.name) + ".app_name"@).contains('/'),
    ensures
        is_app_of(app, process),
{
    lemma_last_piece(dir, lowercase(app.name) + ".app_name"@, '/');
    file_name_comes_first(process.path);
}

proof fn lemma_variant_count(tails: Seq<Seq<char>>)
    ensures
        all_variants(tails).len() == 4 * tails.len(),
    decreases tails.len(),
{
    if tails.len() > 0 {
        lemma_variant_count(tails.drop_last());
    }
}

/// `required` stands, whatever the case of its letters, in the `count` arguments
/// from `start` on with one space between each two of them, one to five of them.
pub open spec fn stands_in_arguments(
    args: Seq<Seq<char>>,
    required: Seq<char>,
    start: int,
    count: int,
) -> bool {
    &&& 0 <= start && 1 <= count <= 5 && start + count <= args.len()
    &&& contains(
        joined(Seq::new(count as nat, |k: int| lowercase(args[start + k])), seq![' ']),
        lowercase(required),
    )
}

/// A required argument is there if and only if it stands in an argument or in a
/// few that follow each other.
pub proof fn arguments_are_looked_for_in_runs(args: Seq<Seq<char>>, required: Seq<char>)
    ensures
        args_have(args, required) <==> exists|start: int, count: int|
            stands_in_arguments(args, required, start, count),
{
    reveal_strlit(" ");
    assert(" "@ =~= seq![' ']);
    assert forall|start: int, count: int| #[trigger]
        stands_in_arguments(args, required, start, count) <==> run_has(
            lowered(args),
            start,
            count,
            lowercase(required),
        ) by {
        if 0 <= start && 1 <= count <= 5 && start + count <= args.len() {
            assert(lowered(args).subrange(start, start + count) =~= Seq::new(
                count as nat,
                |k: int| lowercase(args[start + k]),
            ));
        }
    }
    if args_have(args, required) {
        let (start, count) = choose|start: int, count: int|
            run_has(lowered(args), start, count, lowercase(required));
        assert(stands_in_arguments(args, required, start, count));
    }
    if exists|start: int, count: int| stands_in_arguments(args, required, start, count) {
        let (start, count) = choose|start: int, count: int|
            stands_in_arguments(args, required, start, count);
        assert(run_has(lowered(args), start, count, lowercase(required)));
    }
}

/// A required argument that stands in a single argument of the process is there,
/// and so is one that two neighbours spell with a space between them.
pub proof fn single_and_neighbouring_arguments_count(
    args: Seq<Seq<char>>,
    required: Seq<char>,
    i: int,
)
    requires
        0 <= i < args.len(),
    ensures
        contains(lowercase(args[i]), lowercase(required)) ==> args_have(args, required),
        i + 1 < args.len() && contains(
            lowercase(args[i]) + seq![' '] + lowercase(args[i + 1]),
            lowercase(required),
        ) ==> args_have(args, required),
{
    arguments_are_looked_for_in_runs(args, required);
    let one = Seq::new(1, |k: int| lowercase(args[i + k]));
    assert(joined(one, seq![' ']) =~= lowercase(args[i]));
    if contains(lowercase(args[i]), lowercase(required)) {
        assert(stands_in_arguments(args, required, i, 1));
    }
    if i + 1 < args.len() {
        let two = Seq::new(2, |k: int| lowercase(args[i + k]));
        assert(two.drop_last() =~= one);
        assert(joined(two, seq![' ']) =~= lowercase(args[i]) + seq![' '] + lowercase(args[i + 1]));
        if contains(
            lowercase(args[i]) + seq![' '] + lowercase(args[i + 1]),
            lowercase(required),
        ) {
            assert(stands_in_arguments(args, required, i, 2));
        }
    }
}

/// An executable whose name begins with `>` is the program if and only if the
/// rest of its name is the first candidate, and its arguments, where it lists
/// any, are among those of the process.
pub proof fn exact_executables_match_name_and_arguments(
    executable: ExecutableModel,
    name: Seq<char>,
    candidates: Seq<Seq<char>>,
    args: Seq<Seq<char>>,
    launcher: bool,
    strict: bool,
)
    requires
        executable.name == seq!['>'] + name,
        candidates.len() > 0,
    ensures
        is_program(executable, candidates, args, launcher, strict) <==> {
            &&& executable.is_launcher == launcher
            &&& candidates[0] == name
            &&& executable.arguments matches Some(required) ==> exists|start: int, count: int|
                stands_in_arguments(args, required, start, count)
        },
{
    reveal_strlit(">");
    assert(">"@ =~= seq!['>']);
    assert(executable.name.subrange(0, 1) =~= seq!['>']);
    assert(executable.name.skip(1) =~= name);
    if let Some(required) = executable.arguments {
        arguments_are_looked_for_in_runs(args, required);
    }
}

/// An executable whose name does not begin with `>` is the program if and only if
/// its name is one of the candidates and, under strict matching, its arguments,
/// where it lists any, are among those of the process.
pub proof fn other_executables_match_any_candidate(
    executable: ExecutableModel,
    candidates: Seq<Seq<char>>,
    args: Seq<Seq<char>>,
    launcher: bool,
    strict: bool,
)
    requires
        executable.name.len() == 0 || executable.name[0] != '>',
    ensures
        is_program(executable, candidates, args, launcher, strict) <==> {
            &&& executable.is_launcher == launcher
            &&& exists|k: int| 0 <= k < candidates.len() && candidates[k] == executable.name
            &&& executable.arguments matches Some(required) ==> strict ==> exists|
                start: int,
                count: int,
            |
                stands_in_arguments(args, required, start, count)
        },
{
    reveal_strlit(">");
    if executable.name.len() > 0 {
        assert(executable.name.subrange(0, 1)[0] == executable.name[0]);
    }
    if let Some(required) = executable.arguments {
        arguments_are_looked_for_in_runs(args, required);
    }
}

/// `executable` recognises a program with these candidates and arguments, be it
/// a launcher or not: by its exact file name and its arguments where its name
/// begins with `>`, and else by any of the candidates.
pub open spec fn recognises(
    executable: ExecutableModel,
    candidates: Seq<Seq<char>>,
    args: Seq<Seq<char>>,
) -> bool {
    if executable.name.len() > 0 && executable.name[0] == '>' {
        &&& candidates[0] == executable.name.skip(1)
        &&& executable.arguments matches Some(required) ==> exists|start: int, count: int|
            stands_in_arguments(args, required, start, count)
    } else {
        candidates.contains(executable.name)
    }
}

/// A process belongs to an application if and only if its file name is the
/// marker with the name of the application, or one of the executables that the
/// application lists recognises it.
pub proof fn applications_are_recognised_by_their_executables(app: AppModel, process: ProcessModel)
    ensures
        is_app_of(app, process) <==> {
            let candidates = candidates_of(process.path);
            ||| candidates[0] == lowercase(app.name) + ".app_name"@
            ||| app.executables matches Some(executables) && exists|i: int|
                0 <= i < executables.len() && recognises(
                    #[trigger] executables[i],
                    candidates,
                    process.args,
                )
        },
{
    let candidates = candidates_of(process.path);
    file_name_comes_first(process.path);
    loose_matching_decides(app, candidates, process.args);
    if let Some(executables) = app.executables {
        assert forall|i: int| 0 <= i < executables.len() implies recognises(
            #[trigger] executables[i],
            candidates,
            process.args,
        ) == is_program(
            executables[i],
            candidates,
            process.args,
            executables[i].is_launcher,
            false,
        ) by {
            let executable = executables[i];
            if executable.name.len() > 0 && executable.name[0] == '>' {
                assert(executable.name =~= seq!['>'] + executable.name.skip(1));
                exact_executables_match_name_and_arguments(
                    executable,
                    executable.name.skip(1),
                    candidates,
                    process.args,
                    executable.is_launcher,
                    false,
                );
            } else {
                other_executables_match_any_candidate(
                    executable,
                    candidates,
                    process.args,
                    executable.is_launcher,
                    false,
                );
            }
        }
    }
}

/// The application that is found is the first in the database that the process
/// belongs to, and one is found if there is any.
pub proof fn the_first_application_is_found(apps: Seq<AppModel>, process: ProcessModel)
    ensures
        match detected(apps, process, 0) {
            Some(i) => 0 <= i < apps.len() && is_app_of(apps[i], process) && forall|j: int|
                0 <= j < i ==> !is_app_of(#[trigger] apps[j], process),
            None => forall|j: int| 0 <= j < apps.len() ==> !is_app_of(#[trigger] apps[j], process),
        },
{
    lemma_detected(apps, process, 0);
}

proof fn lemma_detected(apps: Seq<AppModel>, process: ProcessModel, from: int)
    requires
        0 <= from,
    ensures
        match detected(apps, process, from) {
            Some(i) => from <= i < apps.len() && is_app_of(apps[i], process) && forall|j: int|
                from <= j < i ==> !is_app_of(#[trigger] apps[j], process),
            None => forall|j: int|
                from <= j < apps.len() ==> !is_app_of(#[trigger] apps[j], process),
        },
    decreases apps.len() - from,
{
    if from < apps.len() && !is_app_of(apps[from], process) {
        lemma_detected(apps, process, from + 1);
    }
}

/// An application that lists an executable with an exact name is found for every
/// process with that file name and the required arguments, unless an application
/// before it is found.
pub proof fn exact_programs_are_detected(
    apps: Seq<AppModel>,
    process: ProcessModel,
    n: int,
    e: int,
    name: Seq<char>,
    start: int,
    count: int,
)
    requires
        0 <= n < apps.len(),
        forall|j: int| 0 <= j < n ==> !is_app_of(#[trigger] apps[j], process),
        apps[n].executables is Some,
        0 <= e < apps[n].executables->0.len(),
        apps[n].executables->0[e].name == seq!['>'] + name,
        candidates_of(process.path)[0] == name,
        apps[n].executables->0[e].arguments matches Some(required) ==> stands_in_arguments(
            process.args,
            required,
            start,
            count,
        ),
    ensures
        detected(apps, process, 0) == Some(n),
{
    let executable = apps[n].executables->0[e];
    assert(executable.name[0] == '>');
    assert(executable.name.skip(1) =~= name);
    assert(recognises(apps[n].executables->0[e], candidates_of(process.path), process.args));
    applications_are_recognised_by_their_executables(apps[n], process);
    the_first_application_is_found(apps, process);
}

/// A path in lower case with `/` for every `\`.
pub open spec fn slashed(path: Seq<char>) -> Seq<char> {
    lowercase(path).map_values(
        |c: char|
            if c == '\\' {
                '/'
            } else {
                c
            },
    )
}

/// `tail` is all of a path, or what follows one of its slashes.
pub open spec fn is_tail(path: Seq<char>, tail: Seq<char>) -> bool {
    ||| path == tail
    ||| exists|dir: Seq<char>| path == #[trigger] (dir + seq!['/'] + tail)
}

/// `name` is `tail`, or what is left of it without one of the marks of a 64 bit
/// program.
pub open spec fn is_form_of(name: Seq<char>, tail: Seq<char>) -> bool {
    ||| name == tail
    ||| name == replaced(tail, seq!['6', '4'], Seq::empty())
    ||| name == replaced(tail, seq!['.', 'x', '6', '4'], Seq::empty())
    ||| name == replaced(tail, seq!['x', '6', '4'], Seq::empty())
    ||| name == replaced(tail, seq!['_', '6', '4'], Seq::empty())
}

proof fn lemma_unified(path: Seq<char>)
    ensures
        unified_path(lowercase(path)) == slashed(path),
{
    reveal_strlit("\\");
    reveal_strlit("/");
    assert("\\"@ =~= seq!['\\']);
    assert("/"@ =~= seq!['/']);
    replacing_a_character_changes_it_everywhere(lowercase(path), '\\', '/');
    assert(unified_path(lowercase(path)) =~= slashed(path));
}

proof fn lemma_tails(path: Seq<char>, tail: Seq<char>)
    ensures
        path_tails(split_on(path, '/')).contains(tail) <==> is_tail(path, tail),
{
    reveal_strlit("/");
    assert("/"@ =~= seq!['/']);
    let parts = split_on(path, '/');
    let tails = path_tails(parts);
    let n = parts.len();
    pieces_give_the_text_back(path, '/');
    if tails.contains(tail) {
        let i = choose|i: int| 0 <= i < tails.len() && tails[i] == tail;
        let k = n - 1 - i;
        assert(tail == joined(parts.skip(k), seq!['/']));
        if k == 0 {
            assert(parts.skip(0) =~= parts);
        } else {
            parts_are_joined_in_order(parts.take(k), parts.skip(k), seq!['/']);
            assert(parts.take(k) + parts.skip(k) =~= parts);
            assert(path == joined(parts.take(k), seq!['/']) + seq!['/'] + tail);
        }
    }
    if is_tail(path, tail) {
        if path == tail {
            assert(parts.skip(0) =~= parts);
            assert(tails[n - 1] == tail);
        } else {
            let dir = choose|dir: Seq<char>| path == #[trigger] (dir + seq!['/'] + tail);
            pieces_follow_each_other(dir, tail, '/');
            pieces_give_the_text_back(tail, '/');
            pieces_give_the_text_back(dir, '/');
            let k = split_on(dir, '/').len();
            assert(parts.skip(k as int) =~= split_on(tail, '/'));
            assert(tails[n - 1 - k] == tail);
        }
    }
}

proof fn lemma_variants(tails: Seq<Seq<char>>, name: Seq<char>)
    ensures
        all_variants(tails).contains(name) <==> exists|i: int|
            0 <= i < tails.len() && plain_variants(#[trigger] tails[i]).contains(name),
    decreases tails.len(),
{
    let all = all_variants(tails);
    if tails.len() > 0 {
        let rest = tails.drop_last();
        let before = all_variants(rest);
        let own = plain_variants(tails.last());
        lemma_variants(rest, name);
        if all.contains(name) {
            let k = choose|k: int| 0 <= k < all.len() && all[k] == name;
            if k < before.len() {
                assert(before[k] == name);
                let i = choose|i: int|
                    0 <= i < rest.len() && plain_variants(#[trigger] rest[i]).contains(name);
                assert(tails[i] == rest[i]);
            } else {
                assert(own[k - before.len()] == name);
                assert(plain_variants(tails[tails.len() - 1]).contains(name));
            }
        }
        if exists|i: int|
            0 <= i < tails.len() && plain_variants(#[trigger] tails[i]).contains(name) {
            let i = choose|i: int|
                0 <= i < tails.len() && plain_variants(#[trigger] tails[i]).contains(name);
            if i < rest.len() {
                assert(rest[i] == tails[i]);
                let k = choose|k: int| 0 <= k < before.len() && before[k] == name;
                assert(all[k] == name);
            } else {
                let k = choose|k: int| 0 <= k < own.len() && own[k] == name;
                assert(all[before.len() + k] == name);
            }
        }
    }
}

proof fn lemma_plain_variants(tail: Seq<char>, name: Seq<char>)
    ensures
        is_form_of(name, tail) <==> name == tail || plain_variants(tail).contains(name),
{
    reveal_strlit("64");
    reveal_strlit(".x64");
    reveal_strlit("x64");
    reveal_strlit("_64");
    reveal_strlit("");
    assert("64"@ =~= seq!['6', '4']);
    assert(".x64"@ =~= seq!['.', 'x', '6', '4']);
    assert("x64"@ =~= seq!['x', '6', '4']);
    assert("_64"@ =~= seq!['_', '6', '4']);
    assert(""@ =~= Seq::<char>::empty());
    let forms = plain_variants(tail);
    assert(forms[0] == replaced(tail, seq!['6', '4'], Seq::empty()));
    assert(forms[1] == replaced(tail, seq!['.', 'x', '6', '4'], Seq::empty()));
    assert(forms[2] == replaced(tail, seq!['x', '6', '4'], Seq::empty()));
    assert(forms[3] == replaced(tail, seq!['_', '6', '4'], Seq::empty()));
    if forms.contains(name) {
        let k = choose|k: int| 0 <= k < forms.len() && forms[k] == name;
        assert(k == 0 || k == 1 || k == 2 || k == 3);
    }
}

/// A program is looked up by each tail of its path, the whole path among them,
/// in lower case and with slashes throughout, and by each tail without the marks
/// of a 64 bit program; and by nothing else.
pub proof fn programs_are_looked_up_by_tails(path: Seq<char>, name: Seq<char>)
    ensures
        candidates_of(path).contains(name) <==> exists|tail: Seq<char>| #[trigger]
            is_tail(slashed(path), tail) && is_form_of(name, tail),
{
    lemma_unified(path);
    let parts = split_on(slashed(path), '/');
    let tails = path_tails(parts);
    let more = all_variants(tails);
    let all = candidates_of(path);
    assert(all == tails + more);
    lemma_variants(tails, name);
    if all.contains(name) {
        let k = choose|k: int| 0 <= k < all.len() && all[k] == name;
        if k < tails.len() {
            assert(tails[k] == name);
            lemma_tails(slashed(path), name);
            lemma_plain_variants(name, name);
            assert(is_tail(slashed(path), name) && is_form_of(name, name));
        } else {
            assert(more[k - tails.len()] == name);
            let i = choose|i: int|
                0 <= i < tails.len() && plain_variants(#[trigger] tails[i]).contains(name);
            lemma_tails(slashed(path), tails[i]);
            lemma_plain_variants(tails[i], name);
            assert(tails.contains(tails[i]));
            assert(is_tail(slashed(path), tails[i]) && is_form_of(name, tails[i]));
        }
    }
    if exists|tail: Seq<char>| #[trigger]
        is_tail(slashed(path), tail) && is_form_of(name, tail) {
        let tail = choose|tail: Seq<char>| #[trigger]
            is_tail(slashed(path), tail) && is_form_of(name, tail);
        lemma_tails(slashed(path), tail);
        lemma_plain_variants(tail, name);
        let i = choose|i: int| 0 <= i < tails.len() && tails[i] == tail;
        if name == tail {
            assert(all[i] == name);
        } else {
            assert(plain_variants(tails[i]).contains(name));
            let k = choose|k: int| 0 <= k < more.len() && more[k] == name;
            assert(all[tails.len() + k] == name);
        }
    }
}

/// The first candidate is the file name: what follows the last slash or
/// backslash of the path in lower case.
pub proof fn the_first_candidate_is_the_file_name(path: Seq<char>, dir: Seq<char>, name: Seq<char>)
    requires
        !name.contains('/'),
        slashed(path) == name || slashed(path) == dir + seq!['/'] + name,
    ensures
        candidates_of(path).len() > 0,
        candidates_of(path)[0] == name,
{
    lemma_unified(path);
    file_name_comes_first(path);
    if slashed(path) == name {
        pieces_follow_each_other(name, name, '/');
    } else {
        pieces_follow_each_other(dir, name, '/');
        pieces_follow_each_other(name, name, '/');
        let all = split_on(dir, '/') + seq![name];
        assert(all.last() == name);
    }
}

/// A correction gives an application its name where that is not empty and not
/// the placeholder, its aliases where it lists any, and its executables behind
/// those that were there; the id stays.
pub proof fn corrections_name_and_extend(app: AppModel, fix: AppModel)
    ensures
        ({
            let after = patched(app, fix);
            &&& after.id == app.id
            &&& fix.name.len() > 0 && fix.name != "Custom Game"@ ==> after.name == fix.name
            &&& fix.name.len() == 0 || fix.name == "Custom Game"@ ==> after.name == app.name
            &&& after.aliases == (if fix.aliases is Some {
                fix.aliases
            } else {
                app.aliases
            })
            &&& executables_of(after) == executables_of(app) + executables_of(fix)
            &&& after.executables is Some <==> app.executables is Some || fix.executables is Some
        }),
{
    assert(executables_of(patched(app, fix)) =~= executables_of(app) + executables_of(fix));
}

/// One correction changes the first application with its id and no other. Where
/// there is none, the correction itself becomes the last application.
pub proof fn a_correction_changes_its_application_alone(apps: Seq<AppModel>, fix: AppModel, n: int)
    ensures
        (forall|j: int| 0 <= j < apps.len() ==> (#[trigger] apps[j]).id != fix.id)
            ==> after_fixes(apps, seq![fix]) == apps.push(fix),
        0 <= n < apps.len() && apps[n].id == fix.id && (forall|j: int|
            0 <= j < n ==> (#[trigger] apps[j]).id != fix.id) ==> {
            let after = after_fixes(apps, seq![fix]);
            &&& after.len() == apps.len()
            &&& after[n] == patched(apps[n], fix)
            &&& forall|j: int| 0 <= j < apps.len() && j != n ==> #[trigger] after[j] == apps[j]
        },
{
    let one = seq![fix];
    assert(one.drop_last() =~= Seq::empty());
    assert(one.last() == fix);
    assert(after_fixes(apps, one.drop_last()) == apps);
    assert(after_fixes(apps, one) == after_fix(apps, fix));
    lemma_index_of_id(apps, fix.id, 0);
    match index_of_id(apps, fix.id, 0) {
        Some(i) => {
            assert(apps[i].id == fix.id);
            if 0 <= n < apps.len() && apps[n].id == fix.id && (forall|j: int|
                0 <= j < n ==> (#[trigger] apps[j]).id != fix.id) {
                assert(i == n) by {
                    if i < n {
                        assert(apps[i].id != fix.id);
                    }
                }
            }
        },
        None => {},
    }
}

/// Corrections are applied one after the other: those of a longer list are those
/// of its beginning and then those of the rest.
pub proof fn corrections_follow_each_other(
    apps: Seq<AppModel>,
    first: Seq<AppModel>,
    rest: Seq<AppModel>,
)
    ensures
        after_fixes(apps, Seq::empty()) == apps,
        after_fixes(apps, first + rest) == after_fixes(after_fixes(apps, first), rest),
    decreases rest.len(),
{
    let all = first + rest;
    if rest.len() == 0 {
        assert(all =~= first);
    } else {
        corrections_follow_each_other(apps, first, rest.drop_last());
        assert(all.drop_last() =~= first + rest.drop_last());
        assert(all.last() == rest.last());
    }
}

} // verus!
