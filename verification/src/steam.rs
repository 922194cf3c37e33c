//! The games that Steam has installed, and the processes that run from their
//! directories.
use crate::detect::{ProcessInfo, ProcessModel};
use crate::text::{
    char_seqs, chars_of, contains, copy_strings, ends_with, find, first_index,
    first_place_is_found, is_at, lemma_first_index, lines_of, lower, lowercase, occurs_at,
    opt_text, replaced, replacing_a_character_changes_it_everywhere, split_lines, starts_with,
    string_of, text_contains, text_ends_with, text_replace, text_starts_with, texts,
    texts_stand_in_what_surrounds_them, trim_chars, trimmed, trimming_takes_white_space_away,
    whitespace,
};
use vstd::prelude::*;

verus! {

// ---------------------------------------------------------------------------
// Steam's own files
// ---------------------------------------------------------------------------
/// A key in the quotation marks that it has in a file of Steam's.
pub open spec fn quoted(key: Seq<char>) -> Seq<char> {
    "\""@ + key + "\""@
}

/// The value of `key` in a line of the form `"key" "value"`.
pub open spec fn vdf_value(line: Seq<char>, key: Seq<char>) -> Option<Seq<char>> {
    let pair = trimmed(line);
    let rest = trimmed(pair.skip(quoted(key).len() as int));
    if starts_with(pair, quoted(key)) && starts_with(rest, "\""@) {
        let value = rest.skip(1);
        match first_index(value, "\""@) {
            Some(end) => Some(value.take(end)),
            None => None,
        }
    } else {
        None
    }
}

/// The value of `key` in a line of the form `"key" "value"`.
pub fn parse_vdf_pair(line: &[char], key: &str) -> (r: Option<String>)
    ensures
        opt_text(r) == vdf_value(line@, key@),
{
    proof {
        reveal_strlit("\"");
    }
    let pair = trim_chars(line);
    let mut prefix = "\"".to_string();
    prefix.append(key);
    prefix.append("\"");
    let prefix = chars_of(prefix.as_str());
    assert(prefix@ =~= quoted(key@));
    if !is_at(pair, prefix.as_slice(), 0) {
        return None;
    }
    let ghost tail = pair@.skip(prefix@.len() as int);
    assert(tail =~= pair@.subrange(prefix@.len() as int, pair@.len() as int));
    let rest = trim_chars(&pair[prefix.len()..pair.len()]);
    let mark = chars_of("\"");
    if !is_at(rest, mark.as_slice(), 0) {
        return None;
    }
    let value = &rest[1..rest.len()];
    assert(value@ =~= rest@.skip(1));
    match find(value, mark.as_slice()) {
        Some(end) => {
            assert(value@.take(end as int) =~= value@.subrange(0, end as int));
            Some(string_of(&value[0..end]))
        },
        None => None,
    }
}

/// The paths in `lines`, with their doubled backslashes made single.
pub open spec fn library_paths(lines: Seq<Seq<char>>) -> Seq<Seq<char>>
    decreases lines.len(),
{
    if lines.len() == 0 {
        Seq::empty()
    } else {
        let before = library_paths(lines.drop_last());
        match vdf_value(lines.last(), "path"@) {
            Some(path) => before.push(replaced(path, "\\\\"@, "\\"@)),
            None => before,
        }
    }
}

/// The directories of the libraries that `libraryfolders.vdf` lists.
pub fn parse_libraryfolders_vdf(content: &str) -> (r: Vec<String>)
    ensures
        texts(r@) == library_paths(lines_of(content@)),
{
    proof {
        reveal_strlit("\\\\");
    }
    let lines = split_lines(chars_of(content).as_slice());
    let ghost all = char_seqs(lines@);
    let mut paths: Vec<String> = Vec::new();
    let mut i: usize = 0;
    assert(texts(paths@) =~= library_paths(all.take(0)));
    while i < lines.len()
        invariant
            i <= lines@.len(),
            all == char_seqs(lines@),
            "\\\\"@.len() > 0,
            texts(paths@) == library_paths(all.take(i as int)),
        decreases lines@.len() - i,
    {
        assert(all.take(i + 1).drop_last() =~= all.take(i as int));
        assert(all.take(i + 1).last() == lines@[i as int]@);
        if let Some(path) = parse_vdf_pair(lines[i].as_slice(), "path") {
            let ghost before = paths@;
            let single = text_replace(path.as_str(), "\\\\", "\\");
            paths.push(single);
            assert(texts(paths@) =~= texts(before).push(single@));
        }
        i += 1;
    }
    assert(all.take(i as int) =~= all);
    paths
}

/// The value of `key` in the first line that has one, from `from` on.
pub open spec fn first_value(lines: Seq<Seq<char>>, key: Seq<char>, from: int) -> Option<Seq<char>>
    decreases lines.len() - from,
{
    if from >= lines.len() {
        None
    } else if vdf_value(lines[from], key) is Some {
        vdf_value(lines[from], key)
    } else {
        first_value(lines, key, from + 1)
    }
}

fn find_value(lines: &Vec<Vec<char>>, key: &str) -> (r: Option<String>)
    ensures
        opt_text(r) == first_value(char_seqs(lines@), key@, 0),
{
    let ghost all = char_seqs(lines@);
    let mut i: usize = 0;
    while i < lines.len()
        invariant
            i <= lines@.len(),
            all == char_seqs(lines@),
            first_value(all, key@, 0) == first_value(all, key@, i as int),
        decreases lines@.len() - i,
    {
        assert(all[i as int] == lines@[i as int]@);
        if let Some(value) = parse_vdf_pair(lines[i].as_slice(), key) {
            return Some(value);
        }
        i += 1;
    }
    None
}

/// The name and the directory of a game in the lines of its manifest.
pub open spec fn manifest_of(lines: Seq<Seq<char>>) -> Option<(Seq<char>, Seq<char>)> {
    match (first_value(lines, "name"@, 0), first_value(lines, "installdir"@, 0)) {
        (Some(name), Some(dir)) => Some((name, dir)),
        _ => None,
    }
}

/// The name and the directory of a game, from its manifest.
pub fn parse_appmanifest(content: &str) -> (r: Option<(String, String)>)
    ensures
        match manifest_of(lines_of(content@)) {
            Some((name, dir)) => r matches Some((n, d)) && n@ == name && d@ == dir,
            None => r is None,
        },
{
    let lines = split_lines(chars_of(content).as_slice());
    match find_value(&lines, "name") {
        Some(name) => match find_value(&lines, "installdir") {
            Some(install_dir) => Some((name, install_dir)),
            None => None,
        },
        None => None,
    }
}

/// `file_name` is that of a game's manifest.
pub open spec fn is_manifest(file_name: Seq<char>) -> bool {
    starts_with(file_name, "appmanifest_"@) && ends_with(file_name, ".acf"@)
}

/// Whether `file_name` is that of a game's manifest.
pub fn is_manifest_name(file_name: &str) -> (r: bool)
    ensures
        r == is_manifest(file_name@),
{
    text_starts_with(file_name, "appmanifest_") && text_ends_with(file_name, ".acf")
}

// ---------------------------------------------------------------------------
// Processes
// ---------------------------------------------------------------------------
/// A path without the letter of its drive.
pub open spec fn without_drive(path: Seq<char>) -> Seq<char> {
    if path.len() > 2 && path[0] as u32 <= 127 && path[1] == ':' {
        path.skip(2)
    } else {
        path
    }
}

/// A path as paths are compared: `/` between the parts, no drive, lower case.
pub open spec fn comparable_path(path: Seq<char>) -> Seq<char> {
    lowercase(without_drive(replaced(path, "\\"@, "/"@)))
}

/// A path as paths are compared.
pub fn normalize_steam_path(path: &str) -> (r: String)
    ensures
        r@ == comparable_path(path@),
{
    proof {
        reveal_strlit("\\");
    }
    let unified = text_replace(path, "\\", "/");
    let chars = chars_of(unified.as_str());
    if chars.len() > 2 && chars[0] as u32 <= 127 && chars[1] == ':' {
        let rest = string_of(&chars.as_slice()[2..chars.len()]);
        assert(rest@ =~= unified@.skip(2));
        lower(rest.as_str())
    } else {
        lower(unified.as_str())
    }
}

/// `path` is that of a tool with which Steam runs games.
pub open spec fn is_runtime(path: Seq<char>) -> bool {
    ||| contains(path, "steamlinuxruntime"@)
    ||| contains(path, "proton"@)
    ||| contains(path, "pressure-vessel"@)
    ||| contains(path, "steam-runtime"@)
    ||| contains(path, "compatibilitytools.d"@)
}

/// Whether `path` is that of a tool with which Steam runs games.
pub fn is_steam_runtime_path(path: &str) -> (r: bool)
    ensures
        r == is_runtime(path@),
{
    text_contains(path, "steamlinuxruntime") || text_contains(path, "proton") || text_contains(
        path,
        "pressure-vessel",
    ) || text_contains(path, "steam-runtime") || text_contains(path, "compatibilitytools.d")
}

/// The directories of the installed games, each with the name of its game.
#[derive(Debug)]
pub struct SteamLookup {
    pub installs: Vec<(String, String)>,
}

/// The directory and the name of each game.
pub open spec fn installs_model(installs: Seq<(String, String)>) -> Seq<(Seq<char>, Seq<char>)> {
    installs.map_values(|install: (String, String)| (install.0@, install.1@))
}

impl View for SteamLookup {
    type V = Seq<(Seq<char>, Seq<char>)>;

    open spec fn view(&self) -> Seq<(Seq<char>, Seq<char>)> {
        installs_model(self.installs@)
    }
}

/// The first game from `from` on in whose directory `path` lies, by the
/// beginning of the two paths.
pub open spec fn game_at(
    installs: Seq<(Seq<char>, Seq<char>)>,
    path: Seq<char>,
    from: int,
) -> Option<int>
    decreases installs.len() - from,
{
    if from >= installs.len() {
        None
    } else if starts_with(comparable_path(path), comparable_path(installs[from].0)) {
        Some(from)
    } else {
        game_at(installs, path, from + 1)
    }
}

/// `process` as a process of the installed game that it belongs to: its path
/// is the marker that names the game.
pub open spec fn as_game(
    installs: Seq<(Seq<char>, Seq<char>)>,
    process: ProcessModel,
) -> Option<ProcessModel> {
    if is_runtime(comparable_path(process.path)) {
        None
    } else {
        match game_at(installs, process.path, 0) {
            Some(i) => Some(
                ProcessModel {
                    path: installs[i].0 + "/"@ + installs[i].1 + ".app_name"@,
                    ..process
                },
            ),
            None => None,
        }
    }
}

impl Default for SteamLookup {
    fn default() -> (r: SteamLookup)
        ensures
            r@ == Seq::<(Seq<char>, Seq<char>)>::empty(),
    {
        let installs: Vec<(String, String)> = Vec::new();
        assert(installs_model(installs@) =~= Seq::empty());
        SteamLookup { installs }
    }
}

impl SteamLookup {
    /// `process` as a process of the installed game that it belongs to.
    pub fn resolve(&self, process: &ProcessInfo) -> (r: Option<ProcessInfo>)
        ensures
            match as_game(self@, process@) {
                Some(game) => r matches Some(p) && p@ == game,
                None => r is None,
            },
    {
        if self.installs.len() == 0 {
            return None;
        }
        let path = normalize_steam_path(process.path.as_str());
        if is_steam_runtime_path(path.as_str()) {
            return None;
        }
        let ghost games = self@;
        let mut i: usize = 0;
        while i < self.installs.len()
            invariant
                i <= self.installs@.len(),
                games == installs_model(self.installs@),
                path@ == comparable_path(process@.path),
                !is_runtime(path@),
                game_at(games, process@.path, 0) == game_at(games, process@.path, i as int),
            decreases self.installs@.len() - i,
        {
            let install = &self.installs[i];
            assert(games[i as int] == (install.0@, install.1@));
            let dir = normalize_steam_path(install.0.as_str());
            if text_starts_with(path.as_str(), dir.as_str()) {
                let mut marker = install.0.clone();
                marker.append("/");
                marker.append(install.1.as_str());
                marker.append(".app_name");
                return Some(
                    ProcessInfo {
                        pid: process.pid,
                        path: marker,
                        args: copy_strings(&process.args),
                    },
                );
            }
            i += 1;
        }
        None
    }
}

/// A process keeps its id and its arguments where it is taken for one of a game.
pub proof fn games_keep_pid_and_arguments(
    installs: Seq<(Seq<char>, Seq<char>)>,
    process: ProcessModel,
)
    ensures
        as_game(installs, process) matches Some(game) ==> game.pid == process.pid && game.args
            == process.args,
{
}

// ---------------------------------------------------------------------------
// Laws
// ---------------------------------------------------------------------------
/// A path is compared in lower case, with `/` for every `\`, and without the
/// letter and the colon of a drive where more follows them.
pub proof fn paths_are_compared_without_case_and_drive(path: Seq<char>)
    ensures
        ({
            let slashed = path.map_values(
                |c: char|
                    if c == '\\' {
                        '/'
                    } else {
                        c
                    },
            );
            comparable_path(path) == lowercase(
                if path.len() > 2 && path[0] as u32 <= 127 && path[1] == ':' {
                    slashed.skip(2)
                } else {
                    slashed
                },
            )
        }),
{
    reveal_strlit("\\");
    reveal_strlit("/");
    assert("\\"@ =~= seq!['\\']);
    assert("/"@ =~= seq!['/']);
    replacing_a_character_changes_it_everywhere(path, '\\', '/');
}

/// A tool with which Steam runs games is known by any of five names in its path.
pub proof fn runtimes_are_known_by_their_names(path: Seq<char>)
    ensures
        contains(path, "steamlinuxruntime"@) ==> is_runtime(path),
        contains(path, "proton"@) ==> is_runtime(path),
        contains(path, "pressure-vessel"@) ==> is_runtime(path),
        contains(path, "steam-runtime"@) ==> is_runtime(path),
        contains(path, "compatibilitytools.d"@) ==> is_runtime(path),
        is_runtime(path) ==> contains(path, "steamlinuxruntime"@) || contains(path, "proton"@)
            || contains(path, "pressure-vessel"@) || contains(path, "steam-runtime"@) || contains(
            path,
            "compatibilitytools.d"@,
        ),
{
}

/// The path of the program begins with the directory of a game, both as paths
/// are compared.
pub open spec fn lies_in(path: Seq<char>, directory: Seq<char>) -> bool {
    let program = comparable_path(path);
    let dir = comparable_path(directory);
    dir.len() <= program.len() && program.take(dir.len() as int) == dir
}

/// A process that is not a tool of Steam's is taken for one of the first game in
/// whose directory its program lies, wherever that game stands in the list, and
/// its path becomes the directory and the name of that game. It is taken for
/// none only where it lies in no directory.
pub proof fn processes_belong_to_the_first_game_they_lie_in(
    installs: Seq<(Seq<char>, Seq<char>)>,
    process: ProcessModel,
    n: int,
)
    requires
        !is_runtime(comparable_path(process.path)),
    ensures
        as_game(installs, process) is None <==> forall|i: int|
            0 <= i < installs.len() ==> !lies_in(process.path, (#[trigger] installs[i]).0),
        0 <= n < installs.len() && lies_in(process.path, installs[n].0) && (forall|i: int|
            0 <= i < n ==> !lies_in(process.path, (#[trigger] installs[i]).0)) ==> {
            let game = as_game(installs, process);
            &&& game is Some
            &&& game->0.path == installs[n].0 + seq!['/'] + installs[n].1 + ".app_name"@
            &&& game->0.pid == process.pid
            &&& game->0.args == process.args
        },
{
    reveal_strlit("/");
    assert("/"@ =~= seq!['/']);
    lemma_game_at(installs, process.path, 0);
    match game_at(installs, process.path, 0) {
        Some(i) => {
            assert(lies_in(process.path, installs[i].0));
            if 0 <= n < installs.len() && lies_in(process.path, installs[n].0) && (forall|i: int|
                0 <= i < n ==> !lies_in(process.path, (#[trigger] installs[i]).0)) {
                assert(i == n) by {
                    if i < n {
                        assert(!lies_in(process.path, installs[i].0));
                    }
                }
            }
        },
        None => {},
    }
}

/// A tool of Steam's is taken for no game.
pub proof fn runtimes_are_no_games(
    installs: Seq<(Seq<char>, Seq<char>)>,
    process: ProcessModel,
)
    requires
        is_runtime(comparable_path(process.path)),
    ensures
        as_game(installs, process) is None,
{
}

proof fn lemma_game_at(installs: Seq<(Seq<char>, Seq<char>)>, path: Seq<char>, from: int)
    requires
        0 <= from,
    ensures
        match game_at(installs, path, from) {
            Some(i) => from <= i < installs.len() && lies_in(path, installs[i].0) && forall|j: int|
                from <= j < i ==> !lies_in(path, (#[trigger] installs[j]).0),
            None => forall|j: int|
                from <= j < installs.len() ==> !lies_in(path, (#[trigger] installs[j]).0),
        },
    decreases installs.len() - from,
{
    if from < installs.len() {
        let program = comparable_path(path);
        let dir = comparable_path(installs[from].0);
        assert(starts_with(program, dir) == lies_in(path, installs[from].0)) by {
            if dir.len() <= program.len() {
                assert(program.subrange(0, dir.len() as int) =~= program.take(dir.len() as int));
            }
        }
        if !lies_in(path, installs[from].0) {
            lemma_game_at(installs, path, from + 1);
        }
    }
}

/// All of `s` is white space.
pub open spec fn is_blank(s: Seq<char>) -> bool {
    forall|i: int| 0 <= i < s.len() ==> whitespace(#[trigger] s[i])
}

/// A line that holds a key and a value, each in quotation marks, gives the value
/// for the key, whatever white space stands before and between them and whatever
/// follows.
pub proof fn pairs_give_their_values(
    before: Seq<char>,
    key: Seq<char>,
    between: Seq<char>,
    value: Seq<char>,
    after: Seq<char>,
)
    requires
        is_blank(before),
        is_blank(between),
        !value.contains('"'),
    ensures
        vdf_value(
            before + seq!['"'] + key + seq!['"'] + between + seq!['"'] + value + seq!['"'] + after,
            key,
        ) == Some(value),
{
    reveal_strlit("\"");
    assert("\""@ =~= seq!['"']);
    assert(!whitespace('"'));
    let head = seq!['"'] + key + seq!['"'];
    let mid = seq!['"'] + value + seq!['"'];
    let line = before + seq!['"'] + key + seq!['"'] + between + seq!['"'] + value + seq!['"']
        + after;
    assert(line =~= before + (head + between + mid) + after);
    assert(quoted(key) =~= head);
    let left = lemma_trim_keeps(before, head + between + mid, after);
    let pair = trimmed(line);
    assert(pair == head + between + mid + left);
    assert(pair.subrange(0, head.len() as int) =~= head);
    assert(pair.skip(head.len() as int) =~= between + mid + left);
    let end = lemma_trim_keeps(between, mid, left);
    let rest = trimmed(between + mid + left);
    assert(rest == mid + end);
    assert(rest.subrange(0, 1) =~= seq!['"']);
    let tail = rest.skip(1);
    assert(tail =~= value + seq!['"'] + end);
    let mark = seq!['"'];
    assert(tail.subrange(value.len() as int, value.len() as int + 1) =~= mark);
    assert forall|j: int| j < value.len() implies !occurs_at(tail, mark, j) by {
        if occurs_at(tail, mark, j) {
            assert(tail.subrange(j, j + 1)[0] == tail[j]);
            assert(mark[0] == '"');
            assert(value[j] == '"');
        }
    }
    lemma_first_index(tail, mark, value.len() as int);
    assert(tail.take(value.len() as int) =~= value);
}

/// Trimming keeps a text that begins and ends with something visible, and of
/// what follows it a beginning.
proof fn lemma_trim_keeps(before: Seq<char>, s: Seq<char>, after: Seq<char>) -> (left: Seq<char>)
    requires
        is_blank(before),
        s.len() > 0,
        !whitespace(s[0]),
        !whitespace(s.last()),
    ensures
        trimmed(before + s + after) == s + left,
{
    let all = before + s + after;
    let at = trimming_takes_white_space_away(all);
    assert(all[before.len() as int] == s[0]);
    assert(all[before.len() + s.len() - 1] == s.last());
    assert(at.0 <= before.len() && before.len() + s.len() <= at.1);
    assert(trimmed(all)[0] == all[at.0]);
    assert(at.0 == before.len());
    let left = all.subrange((before.len() + s.len()) as int, at.1);
    assert(trimmed(all) =~= s + left);
    left
}

/// A value is given only by a line that begins, behind white space, with its key
/// in quotation marks, and it is what stands between two quotation marks
/// behind that.
pub proof fn values_come_from_pairs(line: Seq<char>, key: Seq<char>)
    requires
        vdf_value(line, key) is Some,
    ensures
        starts_with(trimmed(line), seq!['"'] + key + seq!['"']),
        !vdf_value(line, key)->0.contains('"'),
        contains(
            trimmed(line).skip((key.len() + 2) as int),
            seq!['"'] + vdf_value(line, key)->0 + seq!['"'],
        ),
{
    reveal_strlit("\"");
    let mark = seq!['"'];
    assert("\""@ =~= mark);
    let pair = trimmed(line);
    assert(quoted(key) =~= mark + key + mark);
    let tail = pair.skip((key.len() + 2) as int);
    let rest = trimmed(tail);
    let value = rest.skip(1);
    first_place_is_found(value, mark);
    let end = first_index(value, mark)->0;
    let found = value.take(end);
    if found.contains('"') {
        let j = choose|j: int| 0 <= j < found.len() && found[j] == '"';
        assert(value.subrange(j, j + mark.len()) =~= mark);
    }
    let whole = mark + found + mark;
    let at = trimming_takes_white_space_away(tail);
    assert(rest.subrange(0, 1) =~= mark);
    assert(rest[0] == rest.subrange(0, 1)[0]);
    assert(value.subrange(end, end + 1)[0] == value[end]);
    assert(tail.subrange(at.0, at.0 + whole.len()) =~= whole) by {
        assert forall|k: int| 0 <= k < whole.len() implies tail[at.0 + k] == whole[k] by {
            assert(rest[k] == tail[at.0 + k]);
            if k == 0 {
            } else if k < whole.len() - 1 {
                assert(found[k - 1] == value[k - 1]);
                assert(value[k - 1] == rest[k]);
            } else {
                assert(value[end] == rest[end + 1]);
            }
        }
    }
    assert(occurs_at(tail, whole, at.0));
}

/// Each line with a path gives a library, in the order of the lines, with single
/// backslashes for doubled ones, and other lines give none.
pub proof fn each_path_gives_a_library(
    first: Seq<Seq<char>>,
    line: Seq<char>,
    rest: Seq<Seq<char>>,
)
    ensures
        library_paths(first + rest) == library_paths(first) + library_paths(rest),
        library_paths(Seq::empty()) == Seq::<Seq<char>>::empty(),
        library_paths(seq![line]) == (match vdf_value(line, seq!['p', 'a', 't', 'h']) {
            Some(path) => seq![replaced(path, seq!['\\', '\\'], seq!['\\'])],
            None => Seq::empty(),
        }),
    decreases rest.len(),
{
    reveal_strlit("path");
    reveal_strlit("\\\\");
    reveal_strlit("\\");
    assert("path"@ =~= seq!['p', 'a', 't', 'h']);
    assert("\\\\"@ =~= seq!['\\', '\\']);
    assert("\\"@ =~= seq!['\\']);
    let one = seq![line];
    assert(one.drop_last() =~= Seq::empty());
    assert(library_paths(one.drop_last()) =~= Seq::empty());
    assert(library_paths(one) =~= (match vdf_value(line, seq!['p', 'a', 't', 'h']) {
        Some(path) => seq![replaced(path, seq!['\\', '\\'], seq!['\\'])],
        None => Seq::empty(),
    }));
    let all = first + rest;
    if rest.len() == 0 {
        assert(all =~= first);
        assert(library_paths(first) + library_paths(rest) =~= library_paths(first));
    } else {
        each_path_gives_a_library(first, line, rest.drop_last());
        assert(all.drop_last() =~= first + rest.drop_last());
        assert(all.last() == rest.last());
        assert(library_paths(all) =~= library_paths(first) + library_paths(rest));
    }
}

/// The value of a key is that of the first line that gives one.
pub proof fn the_first_value_counts(lines: Seq<Seq<char>>, key: Seq<char>)
    ensures
        match first_value(lines, key, 0) {
            Some(value) => exists|i: int|
                0 <= i < lines.len() && vdf_value(#[trigger] lines[i], key) == Some(value) && (
                forall|j: int| 0 <= j < i ==> vdf_value(#[trigger] lines[j], key) is None),
            None => forall|j: int|
                0 <= j < lines.len() ==> vdf_value(#[trigger] lines[j], key) is None,
        },
{
    let i = lemma_first_value(lines, key, 0);
    if first_value(lines, key, 0) is Some {
        assert(vdf_value(lines[i], key) == first_value(lines, key, 0));
    }
}

/// The first of `lines` from `from` on that gives a value for `key` is that at `i`.
spec fn is_first_value(lines: Seq<Seq<char>>, key: Seq<char>, from: int, i: int) -> bool {
    &&& from <= i < lines.len()
    &&& vdf_value(lines[i], key) is Some
    &&& forall|j: int| from <= j < i ==> vdf_value(#[trigger] lines[j], key) is None
}

proof fn lemma_first_value(lines: Seq<Seq<char>>, key: Seq<char>, from: int) -> (i: int)
    requires
        0 <= from,
    ensures
        match first_value(lines, key, from) {
            Some(value) => is_first_value(lines, key, from, i) && vdf_value(lines[i], key) == Some(
                value,
            ),
            None => forall|j: int|
                from <= j < lines.len() ==> vdf_value(#[trigger] lines[j], key) is None,
        },
    decreases lines.len() - from,
{
    if from < lines.len() && vdf_value(lines[from], key) is None {
        let i = lemma_first_value(lines, key, from + 1);
        if first_value(lines, key, from) is Some {
            assert forall|j: int| from <= j < i implies vdf_value(
                #[trigger] lines[j],
                key,
            ) is None by {
                if j > from {
                    assert(vdf_value(lines[j], key) is None);
                }
            }
        }
        i
    } else {
        from
    }
}

/// A manifest gives a game where it gives a name and a directory, and then both of
/// them.
pub proof fn manifests_give_name_and_directory(lines: Seq<Seq<char>>)
    ensures
        ({
            let name = first_value(lines, seq!['n', 'a', 'm', 'e'], 0);
            let dir = first_value(
                lines,
                seq!['i', 'n', 's', 't', 'a', 'l', 'l', 'd', 'i', 'r'],
                0,
            );
            &&& manifest_of(lines) is Some <==> name is Some && dir is Some
            &&& manifest_of(lines) is Some ==> manifest_of(lines)->0 == (name->0, dir->0)
        }),
{
    reveal_strlit("name");
    reveal_strlit("installdir");
    assert("name"@ =~= seq!['n', 'a', 'm', 'e']);
    assert("installdir"@ =~= seq!['i', 'n', 's', 't', 'a', 'l', 'l', 'd', 'i', 'r']);
}

/// A manifest is named after its game between a fixed beginning and ending.
pub proof fn manifests_have_their_names(file_name: Seq<char>, id: Seq<char>)
    ensures
        is_manifest("appmanifest_"@ + id + ".acf"@),
        is_manifest(file_name) ==> starts_with(file_name, "appmanifest_"@) && ends_with(
            file_name,
            ".acf"@,
        ),
{
    texts_stand_in_what_surrounds_them(Seq::empty(), "appmanifest_"@, id + ".acf"@);
    texts_stand_in_what_surrounds_them("appmanifest_"@ + id, ".acf"@, Seq::empty());
    assert("appmanifest_"@ + (id + ".acf"@) =~= "appmanifest_"@ + id + ".acf"@);
}

} // verus!
