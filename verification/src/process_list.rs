//! The processes of a machine, as its operating system reports them.
//!
//! What the system reports is text or bytes; here it becomes
//! [`ProcessInfo`](crate::detect::ProcessInfo) values.
use crate::detect::{processes_model, ProcessInfo, ProcessModel};
use crate::json::{items_model, parsed_bytes, Json, JsonError, JsonModel};
use crate::text::{
    chars_of, contains, copy_chars, decimal, last_index, lemma_last_index, lossy_text, lower,
    lowercase, numbers_are_read_back, occurs_at, opt_str, opt_text, parse_unsigned,
    parsed_unsigned, rfind, same_text, split_words, string_of,
    surrounding_white_space_does_not_count, text_contains, texts, trim_chars, trimmed,
    utf8_lossy, white_space_parts_words, whitespace, words,
};
use vstd::prelude::*;

verus! {

// ---------------------------------------------------------------------------
// Windows
// ---------------------------------------------------------------------------
/// A process as PowerShell reports it.
#[derive(Debug)]
pub struct WindowsProcessRecord {
    pub process_id: Option<u32>,
    pub executable_path: Option<String>,
    pub command_line: Option<String>,
}

pub struct RecordModel {
    pub process_id: Option<u32>,
    pub executable_path: Option<Seq<char>>,
    pub command_line: Option<Seq<char>>,
}

impl View for WindowsProcessRecord {
    type V = RecordModel;

    open spec fn view(&self) -> RecordModel {
        RecordModel {
            process_id: self.process_id,
            executable_path: opt_text(self.executable_path),
            command_line: opt_text(self.command_line),
        }
    }
}

/// What each record stands for.
pub open spec fn records_model(records: Seq<WindowsProcessRecord>) -> Seq<RecordModel> {
    records.map_values(|record: WindowsProcessRecord| record@)
}

/// Why the report of PowerShell could not be read.
#[derive(Debug)]
pub enum ProcessListError {
    Json(JsonError),
    UnexpectedShape,
}

impl ProcessListError {
    /// The error in words, up to the words of the JSON parser.
    pub fn message(&self) -> (r: String)
        ensures
            r@ == match *self {
                ProcessListError::Json(_) => "PowerShell process list is not JSON"@,
                ProcessListError::UnexpectedShape => "unexpected PowerShell process JSON shape"@,
            },
    {
        match self {
            ProcessListError::Json(_) => "PowerShell process list is not JSON".to_string(),
            ProcessListError::UnexpectedShape => {
                "unexpected PowerShell process JSON shape".to_string()
            },
        }
    }
}

/// The records in the report of PowerShell: an array of them, a single one, or
/// nothing at all. A report of another shape has none.
pub open spec fn records_in(report: JsonModel) -> Option<Seq<JsonModel>> {
    match report {
        JsonModel::Array(values) => Some(values),
        JsonModel::Object(_) => Some(seq![report]),
        JsonModel::Null => Some(Seq::empty()),
        _ => None,
    }
}

/// The records in the report of PowerShell.
pub fn report_values(report: Json) -> (r: Option<Vec<Json>>)
    ensures
        match records_in(report@) {
            Some(values) => r matches Some(v) && items_model(v@) == values,
            None => r is None,
        },
{
    let mut values: Vec<Json> = Vec::new();
    match report {
        Json::Array(values) => Some(values),
        Json::Object(object) => {
            values.push(Json::Object(object));
            assert(items_model(values@) =~= seq![report@]);
            Some(values)
        },
        Json::Null => {
            assert(items_model(values@) =~= Seq::empty());
            Some(values)
        },
        _ => None,
    }
}

/// The records in the report of PowerShell, which is JSON.
pub fn windows_record_values(raw: &[u8]) -> (r: Result<Vec<Json>, ProcessListError>)
    ensures
        match parsed_bytes(raw@) {
            Some(report) => match records_in(report) {
                Some(values) => r matches Ok(v) && items_model(v@) == values,
                None => r matches Err(ProcessListError::UnexpectedShape),
            },
            None => r matches Err(ProcessListError::Json(_)),
        },
{
    match Json::parse_bytes(raw) {
        Ok(report) => match report_values(report) {
            Some(values) => Ok(values),
            None => Err(ProcessListError::UnexpectedShape),
        },
        Err(error) => Err(ProcessListError::Json(error)),
    }
}

/// How many times `c` stands at the beginning of `s`.
pub open spec fn leading(s: Seq<char>, c: char) -> nat
    decreases s.len(),
{
    if s.len() > 0 && s[0] == c {
        1 + leading(s.skip(1), c)
    } else {
        0
    }
}

/// A text begins with no more characters than it has.
pub proof fn lemma_leading_bound(s: Seq<char>, c: char)
    ensures
        leading(s, c) <= s.len(),
    decreases s.len(),
{
    if s.len() > 0 && s[0] == c {
        lemma_leading_bound(s.skip(1), c);
    }
}

/// `n` backslashes.
pub open spec fn backslashes(n: nat) -> Seq<char> {
    Seq::new(n, |i: int| '\\')
}

/// The argument that is complete at a space.
pub open spec fn completed(current: Seq<char>) -> Seq<Seq<char>> {
    if current.len() > 0 {
        seq![current]
    } else {
        Seq::empty()
    }
}

/// The arguments in the rest `s` of a command line, when `current` has been
/// read of the argument at hand. Spaces and tabs part arguments, but for those
/// within quotation marks. Backslashes count in pairs before a quotation mark,
/// where an odd one makes the mark a character of the argument.
pub open spec fn windows_args(s: Seq<char>, current: Seq<char>, in_quotes: bool) -> Seq<Seq<char>>
    decreases s.len(),
{
    if s.len() == 0 {
        completed(current)
    } else if s[0] == '"' {
        windows_args(s.skip(1), current, !in_quotes)
    } else if (s[0] == ' ' || s[0] == '\t') && !in_quotes {
        completed(current) + windows_args(s.skip(1), Seq::empty(), in_quotes)
    } else if s[0] == '\\' {
        proof {
            lemma_leading_bound(s, '\\');
        }
        let count = leading(s, '\\');
        let rest = s.skip(count as int);
        if rest.len() == 0 || rest[0] != '"' {
            windows_args(rest, current + backslashes(count), in_quotes)
        } else if count % 2 == 0 {
            windows_args(rest.skip(1), current + backslashes(count / 2), !in_quotes)
        } else {
            windows_args(
                rest.skip(1),
                (current + backslashes(count / 2)).push('"'),
                in_quotes,
            )
        }
    } else {
        windows_args(s.skip(1), current.push(s[0]), in_quotes)
    }
}

proof fn lemma_leading(s: Seq<char>, c: char, n: int)
    requires
        0 <= n <= s.len(),
        forall|i: int| 0 <= i < n ==> s[i] == c,
        n < s.len() ==> s[n] != c,
    ensures
        leading(s, c) == n,
    decreases n,
{
    if n > 0 {
        assert forall|i: int| 0 <= i < n - 1 implies s.skip(1)[i] == c by {
            assert(s[i + 1] == c);
        }
        lemma_leading(s.skip(1), c, n - 1);
    }
}

fn push_backslashes(current: &mut Vec<char>, count: usize)
    ensures
        final(current)@ == old(current)@ + backslashes(count as nat),
{
    let ghost start = current@;
    let mut i: usize = 0;
    while i < count
        invariant
            i <= count,
            current@ == start + backslashes(i as nat),
        decreases count - i,
    {
        current.push('\\');
        assert(current@ =~= start + backslashes((i + 1) as nat));
        i += 1;
    }
}

/// The arguments in a command line.
pub fn parse_windows_command_line(command_line: &str) -> (r: Vec<String>)
    ensures
        texts(r@) == windows_args(command_line@, Seq::empty(), false),
{
    let chars = chars_of(command_line);
    let ghost all = command_line@;
    let ghost goal = windows_args(all, Seq::empty(), false);
    let len: usize = chars.len();
    let mut args: Vec<String> = Vec::new();
    let mut current: Vec<char> = Vec::new();
    let mut in_quotes = false;
    let mut i: usize = 0;
    assert(all.skip(0) =~= all);
    assert(texts(args@) + goal =~= goal);
    while i < len
        invariant
            chars@ == all,
            len == all.len(),
            i <= len,
            texts(args@) + windows_args(all.skip(i as int), current@, in_quotes) == goal,
        decreases len - i,
    {
        let c = chars[i];
        let ghost rest = all.skip(i as int);
        let ghost read = current@;
        let ghost before = texts(args@);
        assert(rest[0] == c);
        assert(rest.skip(1) =~= all.skip(i + 1));
        if c == '"' {
            in_quotes = !in_quotes;
            i += 1;
        } else if (c == ' ' || c == '\t') && !in_quotes {
            if current.len() > 0 {
                args.push(string_of(current.as_slice()));
                current = Vec::new();
                assert(texts(args@) =~= before.push(read));
            }
            assert(texts(args@) =~= before + completed(read));
            assert(current@ =~= Seq::empty());
            assert(before + (completed(read) + windows_args(all.skip(i + 1), current@, in_quotes))
                =~= before + completed(read) + windows_args(all.skip(i + 1), current@, in_quotes));
            i += 1;
        } else if c == '\\' {
            let mut count: usize = 1;
            while count < len - i && chars[i + count] == '\\'
                invariant
                    chars@ == all,
                    len == all.len(),
                    i < len,
                    1 <= count <= len - i,
                    rest == all.skip(i as int),
                    forall|k: int| 0 <= k < count ==> rest[k] == '\\',
                decreases len - i - count,
            {
                count += 1;
            }
            proof {
                lemma_leading(rest, '\\', count as int);
            }
            assert(rest.skip(count as int) =~= all.skip(i + count));
            if count < len - i && chars[i + count] == '"' {
                assert(rest.skip(count as int)[0] == '"');
                assert(rest.skip(count as int).skip(1) =~= all.skip(i + count + 1));
                push_backslashes(&mut current, count / 2);
                if count % 2 == 0 {
                    in_quotes = !in_quotes;
                } else {
                    current.push('"');
                }
                i += count + 1;
            } else {
                push_backslashes(&mut current, count);
                i += count;
            }
        } else {
            current.push(c);
            i += 1;
        }
    }
    let ghost read = current@;
    let ghost before = texts(args@);
    if current.len() > 0 {
        args.push(string_of(current.as_slice()));
        assert(texts(args@) =~= before.push(read));
    }
    assert(texts(args@) =~= before + completed(read));
    args
}

/// The programs of the system itself, which are no games.
pub open spec fn system_executables() -> Seq<Seq<char>> {
    seq![
        "system"@,
        "registry"@,
        "smss.exe"@,
        "csrss.exe"@,
        "wininit.exe"@,
        "services.exe"@,
        "lsass.exe"@,
        "svchost.exe"@,
        "dwm.exe"@,
        "conhost.exe"@,
        "taskhost.exe"@,
        "winlogon.exe"@,
        "fontdrvhost.exe"@,
        "sihost.exe"@,
        "ctfmon.exe"@,
        "taskhostw.exe"@,
        "runtimebroker.exe"@,
        "searchindexer.exe"@,
        "searchprotocolhost.exe"@,
    ]
}

/// The characters of each string slice.
pub open spec fn str_texts(names: Seq<&'static str>) -> Seq<Seq<char>> {
    names.map_values(|name: &'static str| name@)
}

fn system_names() -> (r: Vec<&'static str>)
    ensures
        str_texts(r@) == system_executables(),
{
    let names = vec![
        "system",
        "registry",
        "smss.exe",
        "csrss.exe",
        "wininit.exe",
        "services.exe",
        "lsass.exe",
        "svchost.exe",
        "dwm.exe",
        "conhost.exe",
        "taskhost.exe",
        "winlogon.exe",
        "fontdrvhost.exe",
        "sihost.exe",
        "ctfmon.exe",
        "taskhostw.exe",
        "runtimebroker.exe",
        "searchindexer.exe",
        "searchprotocolhost.exe",
    ];
    assert(str_texts(names@) =~= system_executables());
    names
}

/// Whether one of `names` is `s`.
fn is_one_of(s: &str, names: &Vec<&'static str>) -> (r: bool)
    ensures
        r == str_texts(names@).contains(s@),
{
    let mut i: usize = 0;
    while i < names.len()
        invariant
            i <= names@.len(),
            forall|j: int| 0 <= j < i ==> str_texts(names@)[j] != s@,
        decreases names@.len() - i,
    {
        if same_text(names[i], s) {
            assert(str_texts(names@)[i as int] == s@);
            return true;
        }
        i += 1;
    }
    false
}

/// Whether `name`, in lower case, is that of a program of the system itself.
pub fn is_system_executable(name: &str) -> (r: bool)
    ensures
        r == system_executables().contains(name@),
{
    is_one_of(name, &system_names())
}

/// `c` parts the components of a path, on one machine or another.
pub open spec fn may_separate(c: char) -> bool {
    c == '/' || c == '\\'
}

/// `name` stands for a directory: the one that is meant already, or the one
/// that holds it.
pub open spec fn is_dots(name: Seq<char>) -> bool {
    name == seq!['.'] || name == seq!['.', '.']
}

/// `path` begins with two separators, as the path of a share or a device does.
pub open spec fn begins_doubly(path: Seq<char>) -> bool {
    path.len() > 1 && may_separate(path[0]) && may_separate(path[1])
}

/// `name` stands at `i` in `path` as its last component. It begins at the start
/// or behind `/`, or else, on a machine where `\` separates too, behind that or
/// behind the letter and the colon of a drive. Behind it there is nothing, or a
/// separator with nothing but separators and single dots to follow.
pub open spec fn is_last_part(path: Seq<char>, name: Seq<char>, i: int) -> bool {
    let end = i + name.len();
    &&& occurs_at(path, name, i)
    &&& name.len() > 0
    &&& !is_dots(name)
    &&& begins_doubly(path) || !name.contains('/')
    &&& i == 0 || path[i - 1] == '/' || (!name.contains('\\') && (path[i - 1] == '\\' || (i == 2
        && path[1] == ':')))
    &&& end < path.len() ==> may_separate(path[end])
    &&& forall|j: int| end <= j < path.len() ==> may_separate(#[trigger] path[j]) || path[j] == '.'
    &&& forall|j: int, k: int|
        end <= j && k == j + 1 && k < path.len() ==> #[trigger] path[j] != '.' || #[trigger] path[k]
            != '.'
}

/// `name` is the last component of `path`, on one machine or another.
pub open spec fn is_file_name(path: Seq<char>, name: Seq<char>) -> bool {
    exists|i: int| is_last_part(path, name, i)
}

/// `path` is a bare name: no machine sees a separator or a drive in it, and it
/// does not stand for a directory.
pub open spec fn is_bare_name(path: Seq<char>) -> bool {
    path.len() > 0 && !is_dots(path) && !path.contains('/') && !path.contains('\\')
        && !path.contains(':')
}

/// `path` ends in a file name on every machine: it does not begin as the path of
/// a share or a device does, and ends in no separator, dot or colon.
pub open spec fn has_file_name(path: Seq<char>) -> bool {
    &&& path.len() > 0
    &&& !begins_doubly(path)
    &&& !may_separate(path.last()) && path.last() != '.' && path.last() != ':'
}

/// `std::path::Path::file_name`: the last component of `path`, where that names
/// something. There is one where the path ends in it on every machine, and it is
/// the whole path where that is a bare name. Components are separated by `/` on
/// Unix, and by `/` or `\` on Windows, where a path may also begin with a drive,
/// a share or a device. It is left open which of the two this machine is.
#[verifier::external_body]
pub(crate) fn executable_name(path: &str) -> (r: Option<String>)
    ensures
        r is Some ==> is_file_name(path@, r->0@),
        has_file_name(path@) ==> r is Some,
        is_bare_name(path@) ==> r is Some && r->0@ == path@,
{
    match std::path::Path::new(path).file_name() {
        Some(name) => match name.to_str() {
            Some(text) => Some(text.to_owned()),
            None => None,
        },
        None => None,
    }
}

/// The process of a record whose program has the file name `name`: none without
/// an id or a path, and none for a program of the system.
pub open spec fn windows_process_of(
    record: RecordModel,
    name: Option<Seq<char>>,
) -> Option<ProcessModel> {
    match (record.process_id, record.executable_path) {
        (Some(pid), Some(path)) => if path.len() == 0 || (name is Some
            && system_executables().contains(lowercase(name->0))) {
            None
        } else {
            Some(
                ProcessModel {
                    pid,
                    path,
                    args: match record.command_line {
                        Some(line) => windows_args(line, Seq::empty(), false),
                        None => Seq::empty(),
                    },
                },
            )
        },
        _ => None,
    }
}

/// The process of a record whose program has the file name `name`.
pub fn windows_process(record: &WindowsProcessRecord, name: Option<&str>) -> (r: Option<
    ProcessInfo,
>)
    ensures
        match windows_process_of(record@, opt_str(name)) {
            Some(process) => r matches Some(p) && p@ == process,
            None => r is None,
        },
{
    let pid: u32 = match record.process_id {
        Some(pid) => pid,
        None => {
            return None;
        },
    };
    let path = match &record.executable_path {
        Some(path) => path,
        None => {
            return None;
        },
    };
    if path.as_str().is_empty() {
        return None;
    }
    if let Some(name) = name {
        if is_system_executable(lower(name).as_str()) {
            return None;
        }
    }
    let args = match &record.command_line {
        Some(line) => parse_windows_command_line(line.as_str()),
        None => Vec::new(),
    };
    assert(record@.command_line is None ==> texts(args@) =~= Seq::empty());
    Some(ProcessInfo { pid, path: path.clone(), args })
}

/// The processes of the records, whose programs have these file names.
pub open spec fn windows_processes_of(
    records: Seq<RecordModel>,
    names: Seq<Option<Seq<char>>>,
) -> Seq<ProcessModel>
    decreases records.len(),
{
    if records.len() == 0 {
        Seq::empty()
    } else {
        let before = windows_processes_of(records.drop_last(), names.drop_last());
        match windows_process_of(records.last(), names.last()) {
            Some(process) => before.push(process),
            None => before,
        }
    }
}

/// `name` may be the file name of the program at `path`: it is the last
/// component on one machine or another, there is one where every machine sees
/// one, and it is the whole path where that is a bare name.
pub open spec fn is_name_in(name: Option<Seq<char>>, path: Option<Seq<char>>) -> bool {
    &&& name matches Some(n) ==> path is Some && is_file_name(path->0, n)
    &&& path matches Some(p) ==> has_file_name(p) ==> name is Some
    &&& path matches Some(p) ==> is_bare_name(p) ==> name == Some(p)
}

/// The processes in the report of PowerShell, in its order. Of the file names of
/// their programs the machine decides only where its separators and the
/// beginnings of its paths do.
pub fn parse_windows_processes(records: &Vec<WindowsProcessRecord>) -> (r: Vec<ProcessInfo>)
    ensures
        exists|names: Seq<Option<Seq<char>>>|
            names.len() == records@.len() && (forall|i: int|
                0 <= i < names.len() ==> is_name_in(
                    #[trigger] names[i],
                    records_model(records@)[i].executable_path,
                )) && processes_model(r@) == #[trigger] windows_processes_of(
                records_model(records@),
                names,
            ),
{
    let ghost models = records_model(records@);
    let ghost mut names: Seq<Option<Seq<char>>> = Seq::empty();
    let mut processes: Vec<ProcessInfo> = Vec::new();
    let mut i: usize = 0;
    assert(models.take(0) =~= Seq::empty());
    assert(processes_model(processes@) =~= Seq::empty());
    while i < records.len()
        invariant
            i <= records@.len(),
            models == records_model(records@),
            names.len() == i,
            forall|j: int|
                0 <= j < names.len() ==> is_name_in(
                    #[trigger] names[j],
                    models[j].executable_path,
                ),
            processes_model(processes@) == windows_processes_of(models.take(i as int), names),
        decreases records@.len() - i,
    {
        let name = match &records[i].executable_path {
            Some(path) => executable_name(path.as_str()),
            None => None,
        };
        let ghost earlier = names;
        let ghost before = processes@;
        proof {
            assert(models[i as int] == records@[i as int]@);
            names = earlier.push(opt_text(name));
            assert(names.drop_last() =~= earlier);
            assert(models.take(i + 1).drop_last() =~= models.take(i as int));
            assert(models.take(i + 1).last() == models[i as int]);
        }
        let name_text: Option<&str> = match &name {
            Some(name) => Some(name.as_str()),
            None => None,
        };
        if let Some(process) = windows_process(&records[i], name_text) {
            processes.push(process);
            assert(processes_model(processes@) =~= processes_model(before).push(process@));
        }
        i += 1;
    }
    assert(models.take(i as int) =~= models);
    processes
}

/// A program is listed where its path does not end in the name of a program of
/// the system, whatever the names of its directories.
pub proof fn other_programs_are_listed(record: RecordModel, name: Option<Seq<char>>)
    requires
        record.process_id is Some,
        record.executable_path is Some,
        record.executable_path->0.len() > 0,
        is_name_in(name, record.executable_path),
        forall|n: Seq<char>| #[trigger]
            is_file_name(record.executable_path->0, n) ==> !system_executables().contains(
                lowercase(n),
            ),
    ensures
        windows_process_of(record, name) is Some,
        windows_process_of(record, name)->0.pid == record.process_id->0,
        windows_process_of(record, name)->0.path == record.executable_path->0,
{
}

/// All machines agree on the file name of a path without `\` and `:` that ends
/// in one.
pub proof fn machines_agree_on_plain_paths(
    path: Seq<char>,
    name: Option<Seq<char>>,
    other: Option<Seq<char>>,
)
    requires
        has_file_name(path),
        !path.contains('\\'),
        !path.contains(':'),
        is_name_in(name, Some(path)),
        is_name_in(other, Some(path)),
    ensures
        name is Some,
        name == other,
{
    let i = choose|i: int| is_last_part(path, name->0, i);
    let k = choose|k: int| is_last_part(path, other->0, k);
    lemma_ends_path(path, name->0, i);
    lemma_ends_path(path, other->0, k);
    if i < k {
        assert(name->0[k - 1 - i] == path[k - 1]);
    } else if k < i {
        assert(other->0[i - 1 - k] == path[i - 1]);
    }
}

proof fn lemma_ends_path(path: Seq<char>, name: Seq<char>, i: int)
    requires
        has_file_name(path),
        !path.contains('\\'),
        !path.contains(':'),
        is_last_part(path, name, i),
    ensures
        0 <= i,
        i + name.len() == path.len(),
        name == path.subrange(i, path.len() as int),
        !name.contains('/'),
        i == 0 || path[i - 1] == '/',
{
    if i + name.len() < path.len() {
        assert(may_separate(path[path.len() - 1]) || path[path.len() - 1] == '.');
    }
    assert(i > 0 ==> path.contains(path[i - 1]));
    assert(path.len() > 1 ==> path.contains(path[1]));
}

// ---------------------------------------------------------------------------
// Linux
// ---------------------------------------------------------------------------
/// The arguments ended by a zero byte so far, and the one not yet ended.
pub open spec fn arguments_state(raw: Seq<u8>) -> (Seq<Seq<char>>, Seq<u8>)
    decreases raw.len(),
{
    if raw.len() == 0 {
        (Seq::empty(), Seq::empty())
    } else {
        let (done, current) = arguments_state(raw.drop_last());
        if raw.last() != 0 {
            (done, current.push(raw.last()))
        } else if current.len() > 0 {
            (done.push(lossy_text(current)), Seq::empty())
        } else {
            (done, current)
        }
    }
}

/// The arguments in a command line of `/proc`, between its zero bytes; empty
/// ones are left out.
pub open spec fn linux_args(raw: Seq<u8>) -> Seq<Seq<char>> {
    let (done, current) = arguments_state(raw);
    if current.len() > 0 {
        done.push(lossy_text(current))
    } else {
        done
    }
}

fn split_arguments(raw: &[u8]) -> (r: Vec<String>)
    ensures
        texts(r@) == linux_args(raw@),
{
    let mut done: Vec<String> = Vec::new();
    let mut current: Vec<u8> = Vec::new();
    let mut i: usize = 0;
    assert(texts(done@) =~= Seq::<Seq<char>>::empty());
    while i < raw.len()
        invariant
            i <= raw@.len(),
            (texts(done@), current@) == arguments_state(raw@.take(i as int)),
        decreases raw@.len() - i,
    {
        assert(raw@.take(i + 1).drop_last() =~= raw@.take(i as int));
        if raw[i] != 0 {
            current.push(raw[i]);
        } else if current.len() > 0 {
            let ghost before = done@;
            done.push(utf8_lossy(current.as_slice()));
            assert(texts(done@) =~= texts(before).push(lossy_text(current@)));
            current = Vec::new();
        }
        i += 1;
    }
    assert(raw@.take(raw@.len() as int) =~= raw@);
    if current.len() > 0 {
        let ghost before = done@;
        done.push(utf8_lossy(current.as_slice()));
        assert(texts(done@) =~= texts(before).push(lossy_text(current@)));
    }
    done
}

/// What a line of `/proc/<pid>/stat` has behind the name of the program.
pub open spec fn after_name(stat: Seq<char>) -> Option<Seq<char>> {
    match last_index(stat, ") "@) {
        Some(i) => Some(stat.skip(i + 2)),
        None => None,
    }
}

fn skip_name(stat: &str) -> (r: Option<Vec<char>>)
    ensures
        match after_name(stat@) {
            Some(rest) => r matches Some(v) && v@ == rest,
            None => r is None,
        },
{
    proof {
        reveal_strlit(") ");
    }
    let chars = chars_of(stat);
    let mark = chars_of(") ");
    match rfind(chars.as_slice(), mark.as_slice()) {
        Some(i) => {
            let len: usize = chars.len();
            let rest = &chars.as_slice()[i + 2..len];
            assert(rest@ =~= stat@.skip(i + 2));
            Some(copy_chars(rest))
        },
        None => None,
    }
}

/// The process is stopped, by a signal or by a debugger.
pub open spec fn is_stopped(stat: Seq<char>) -> bool {
    match after_name(stat) {
        Some(rest) => rest.len() > 0 && (rest[0] == 'T' || rest[0] == 't'),
        None => false,
    }
}

/// Whether the process is stopped.
pub fn process_is_stopped(stat: &str) -> (r: bool)
    ensures
        r == is_stopped(stat@),
{
    match skip_name(stat) {
        Some(rest) => rest.len() > 0 && (rest[0] == 'T' || rest[0] == 't'),
        None => false,
    }
}

/// The number in the second field behind the name of the program, and 0 without one.
pub open spec fn parent_in_stat(stat: Seq<char>) -> nat {
    match after_name(stat) {
        Some(rest) => if words(rest).len() > 1 {
            match parsed_unsigned(words(rest)[1], u32::MAX as nat) {
                Some(pid) => pid,
                None => 0,
            }
        } else {
            0
        },
        None => 0,
    }
}

/// The id of the parent, from the process's own line of `/proc/self/stat`.
pub fn parent_pid_from_stat(stat: &str) -> (r: u32)
    ensures
        r == parent_in_stat(stat@),
{
    match skip_name(stat) {
        Some(rest) => {
            let fields = split_words(rest.as_slice());
            if fields.len() > 1 {
                assert(texts(fields@)[1] == fields@[1]@);
                match parse_unsigned(chars_of(fields[1].as_str()).as_slice(), u32::MAX as u64) {
                    Some(pid) => pid as u32,
                    None => 0,
                }
            } else {
                0
            }
        },
        None => 0,
    }
}

/// The number that a command has printed, and 0 where it is none.
pub open spec fn printed_pid(output: Seq<char>) -> nat {
    match parsed_unsigned(trimmed(output), u32::MAX as nat) {
        Some(pid) => pid,
        None => 0,
    }
}

/// The id of the parent, from what a command has printed.
pub fn parent_pid_from_output(output: &[u8]) -> (r: u32)
    ensures
        r == printed_pid(lossy_text(output@)),
{
    let text = chars_of(utf8_lossy(output).as_str());
    match parse_unsigned(trim_chars(text.as_slice()), u32::MAX as u64) {
        Some(pid) => pid as u32,
        None => 0,
    }
}

/// `path` is that of Wine, and not of the program that it runs.
pub open spec fn is_wine_host(path: Seq<char>) -> bool {
    contains(path, "/wine"@) || contains(path, "/wine64"@)
}

/// Whether `path` is that of Wine, and not of the program that it runs.
pub fn is_wine_host_path(path: &str) -> (r: bool)
    ensures
        r == is_wine_host(path@),
{
    text_contains(path, "/wine") || text_contains(path, "/wine64")
}

/// What the programs are called that watch over games.
pub open spec fn anti_cheat_executables() -> Seq<Seq<char>> {
    seq![
        "easyanticheat"@,
        "eac_launcher"@,
        "easyanticheat_eos"@,
        "battleye"@,
        "beclient"@,
        "nprotect"@,
        "xigncode"@,
        "gameguard"@,
        "vanguard"@,
        "anticheattoolkit"@,
    ]
}

fn anti_cheat_names() -> (r: Vec<&'static str>)
    ensures
        str_texts(r@) == anti_cheat_executables(),
{
    let names = vec![
        "easyanticheat",
        "eac_launcher",
        "easyanticheat_eos",
        "battleye",
        "beclient",
        "nprotect",
        "xigncode",
        "gameguard",
        "vanguard",
        "anticheattoolkit",
    ];
    assert(str_texts(names@) =~= anti_cheat_executables());
    names
}

/// The path or the command line, both in lower case, names a program that
/// watches over games.
pub open spec fn names_anti_cheat(path: Seq<char>, command_line: Seq<char>) -> bool {
    exists|i: int|
        0 <= i < anti_cheat_executables().len() && (contains(
            path,
            #[trigger] anti_cheat_executables()[i],
        ) || contains(command_line, anti_cheat_executables()[i]))
}

/// The path or the command line names a program that watches over games.
pub open spec fn is_anti_cheat(path: Seq<char>, command_line: Seq<char>) -> bool {
    names_anti_cheat(lowercase(path), lowercase(command_line))
}

/// Whether the path or the command line names a program that watches over games.
pub fn is_anti_cheat_process(path: &str, command_line: &str) -> (r: bool)
    ensures
        r == is_anti_cheat(path@, command_line@),
{
    lowered_is_anti_cheat(lower(path).as_str(), lower(command_line).as_str())
}

/// Whether the path or the command line, both in lower case, names a program
/// that watches over games.
pub fn lowered_is_anti_cheat(path: &str, command_line: &str) -> (r: bool)
    ensures
        r == names_anti_cheat(path@, command_line@),
{
    let names = anti_cheat_names();
    let ghost list = anti_cheat_executables();
    let mut i: usize = 0;
    while i < names.len()
        invariant
            i <= names@.len(),
            list == anti_cheat_executables(),
            list == str_texts(names@),
            forall|j: int|
                0 <= j < i ==> !contains(path@, #[trigger] list[j]) && !contains(
                    command_line@,
                    list[j],
                ),
        decreases names@.len() - i,
    {
        assert(list[i as int] == names@[i as int]@);
        if text_contains(path, names[i]) || text_contains(command_line, names[i]) {
            return true;
        }
        i += 1;
    }
    false
}

/// The id in the name of a directory of `/proc`.
pub fn linux_pid(file_name: &str) -> (r: Option<u32>)
    ensures
        match parsed_unsigned(file_name@, u32::MAX as nat) {
            Some(pid) => r matches Some(p) && p == pid,
            None => r is None,
        },
{
    match parse_unsigned(chars_of(file_name).as_slice(), u32::MAX as u64) {
        Some(pid) => Some(pid as u32),
        None => None,
    }
}

/// The path of the program: what `exe` links to, unless it is deleted or is
/// Wine, and otherwise the first argument.
pub open spec fn linux_path(first: Seq<char>, exe: Option<Seq<char>>) -> Seq<char> {
    match exe {
        Some(link) => if contains(link, "(deleted)"@) || is_wine_host(link) {
            first
        } else {
            link
        },
        None => first,
    }
}

/// The process with these arguments, this command line, this line of `stat`
/// and this link to its program, where they could be read: none without
/// arguments, none where it is stopped, and none that watches over games.
pub open spec fn process_of_args(
    pid: u32,
    args: Seq<Seq<char>>,
    command_line: Seq<char>,
    stat: Option<Seq<char>>,
    exe: Option<Seq<char>>,
) -> Option<ProcessModel> {
    let path = linux_path(args[0], exe);
    if args.len() == 0 || (stat is Some && is_stopped(stat->0)) || is_anti_cheat(
        path,
        command_line,
    ) {
        None
    } else {
        Some(ProcessModel { pid, path, args: args.skip(1) })
    }
}

/// The process of a directory of `/proc` with this command line, this line of
/// `stat` and this link to its program.
pub open spec fn linux_process_of(
    pid: u32,
    raw: Seq<u8>,
    stat: Option<Seq<char>>,
    exe: Option<Seq<char>>,
) -> Option<ProcessModel> {
    process_of_args(pid, linux_args(raw), lossy_text(raw), stat, exe)
}

/// The process of a directory of `/proc`.
pub fn linux_process(pid: u32, raw: &[u8], stat: Option<&str>, exe: Option<&str>) -> (r: Option<
    ProcessInfo,
>)
    ensures
        match linux_process_of(pid, raw@, opt_str(stat), opt_str(exe)) {
            Some(process) => r matches Some(p) && p@ == process,
            None => r is None,
        },
{
    linux_process_from_args(pid, split_arguments(raw), utf8_lossy(raw).as_str(), stat, exe)
}

/// The process with these arguments and this command line.
pub fn linux_process_from_args(
    pid: u32,
    args: Vec<String>,
    command_line: &str,
    stat: Option<&str>,
    exe: Option<&str>,
) -> (r: Option<ProcessInfo>)
    ensures
        match process_of_args(pid, texts(args@), command_line@, opt_str(stat), opt_str(exe)) {
            Some(process) => r matches Some(p) && p@ == process,
            None => r is None,
        },
{
    if let Some(stat) = stat {
        if process_is_stopped(stat) {
            return None;
        }
    }
    let mut rest = args;
    if rest.len() == 0 {
        return None;
    }
    let ghost all = texts(rest@);
    let first = rest.remove(0);
    assert(first@ == all[0]);
    assert(texts(rest@) =~= all.skip(1));
    let path = match exe {
        Some(link) => if text_contains(link, "(deleted)") || is_wine_host_path(link) {
            first
        } else {
            link.to_string()
        },
        None => first,
    };
    if is_anti_cheat_process(path.as_str(), command_line) {
        return None;
    }
    Some(ProcessInfo { pid, path, args: rest })
}

// ---------------------------------------------------------------------------
// Laws
// ---------------------------------------------------------------------------
/// None of `args` is empty.
pub open spec fn none_empty(args: Seq<Seq<char>>) -> bool {
    forall|i: int| 0 <= i < args.len() ==> (#[trigger] args[i]).len() > 0
}

/// No argument of a command line of Windows is empty.
pub proof fn windows_arguments_are_not_empty(s: Seq<char>, current: Seq<char>, in_quotes: bool)
    ensures
        none_empty(windows_args(s, current, in_quotes)),
    decreases s.len(),
{
    let args = windows_args(s, current, in_quotes);
    if s.len() == 0 {
        assert(args == completed(current));
    } else if s[0] == '"' {
        windows_arguments_are_not_empty(s.skip(1), current, !in_quotes);
    } else if (s[0] == ' ' || s[0] == '\t') && !in_quotes {
        windows_arguments_are_not_empty(s.skip(1), Seq::empty(), in_quotes);
        let head = completed(current);
        let tail = windows_args(s.skip(1), Seq::empty(), in_quotes);
        assert(args == head + tail);
        assert forall|i: int| 0 <= i < args.len() implies (#[trigger] args[i]).len() > 0 by {
            if i < head.len() {
                assert(args[i] == head[i]);
            } else {
                assert(args[i] == tail[i - head.len()]);
            }
        }
    } else if s[0] == '\\' {
        lemma_leading_bound(s, '\\');
        let count = leading(s, '\\');
        let rest = s.skip(count as int);
        let half = current + backslashes(count / 2);
        if rest.len() == 0 || rest[0] != '"' {
            windows_arguments_are_not_empty(rest, current + backslashes(count), in_quotes);
            assert(args == windows_args(rest, current + backslashes(count), in_quotes));
        } else if count % 2 == 0 {
            windows_arguments_are_not_empty(rest.skip(1), half, !in_quotes);
            assert(args == windows_args(rest.skip(1), half, !in_quotes));
        } else {
            windows_arguments_are_not_empty(rest.skip(1), half.push('"'), in_quotes);
            assert(args == windows_args(rest.skip(1), half.push('"'), in_quotes));
        }
    } else {
        windows_arguments_are_not_empty(s.skip(1), current.push(s[0]), in_quotes);
    }
}

/// A process of Linux keeps its id, and has all arguments of its command line
/// but the first.
pub proof fn linux_processes_keep_their_arguments(
    pid: u32,
    raw: Seq<u8>,
    stat: Option<Seq<char>>,
    exe: Option<Seq<char>>,
)
    ensures
        linux_process_of(pid, raw, stat, exe) matches Some(process) ==> process.pid == pid
            && linux_args(raw).len() == process.args.len() + 1 && linux_args(raw).skip(1)
            == process.args,
{
}

// ---------------------------------------------------------------------------
// Laws of command lines on Windows
// ---------------------------------------------------------------------------
/// `s` has none of the characters that part or quote arguments.
pub open spec fn is_unquoted(s: Seq<char>) -> bool {
    !s.contains('"') && !s.contains(' ') && !s.contains('\t')
}

proof fn lemma_leading_run(s: Seq<char>, n: nat)
    requires
        n <= s.len(),
        forall|i: int| 0 <= i < n ==> #[trigger] s[i] == '\\',
        n < s.len() ==> s[n as int] != '\\',
    ensures
        leading(s, '\\') == n,
    decreases n,
{
    if n > 0 {
        assert forall|i: int| 0 <= i < n - 1 implies #[trigger] s.skip(1)[i] == '\\' by {
            assert(s[i + 1] == '\\');
        }
        assert(s[0] == '\\');
        lemma_leading_run(s.skip(1), (n - 1) as nat);
    }
}

proof fn lemma_leading_is_run(s: Seq<char>)
    ensures
        leading(s, '\\') <= s.len(),
        forall|i: int| 0 <= i < leading(s, '\\') ==> #[trigger] s[i] == '\\',
        leading(s, '\\') < s.len() ==> s[leading(s, '\\') as int] != '\\',
    decreases s.len(),
{
    if s.len() > 0 && s[0] == '\\' {
        lemma_leading_is_run(s.skip(1));
        let n = leading(s.skip(1), '\\');
        assert forall|i: int| 0 <= i < n + 1 implies #[trigger] s[i] == '\\' by {
            if i > 0 {
                assert(s.skip(1)[i - 1] == s[i]);
            }
        }
        if n + 1 < s.len() {
            assert(s.skip(1)[n as int] == s[n as int + 1]);
        }
    }
}

/// Characters that neither part nor quote are read into the argument at hand as
/// they are, backslashes included, and within quotation marks spaces and tabs too.
pub proof fn plain_characters_are_taken_as_they_are(
    w: Seq<char>,
    tail: Seq<char>,
    current: Seq<char>,
    in_quotes: bool,
)
    requires
        !w.contains('"'),
        !in_quotes ==> !w.contains(' ') && !w.contains('\t'),
        tail.len() > 0 ==> tail[0] != '\\',
        tail.len() > 0 && tail[0] == '"' ==> w.len() == 0 || w.last() != '\\',
    ensures
        windows_args(w + tail, current, in_quotes) == windows_args(tail, current + w, in_quotes),
    decreases w.len(),
{
    let s = w + tail;
    if w.len() == 0 {
        assert(s =~= tail);
        assert(current + w =~= current);
    } else if w[0] == '\\' {
        lemma_leading_is_run(s);
        let n = leading(s, '\\');
        assert(s[0] == '\\');
        assert(n >= 1);
        assert(n <= w.len()) by {
            if n > w.len() {
                assert(s[w.len() as int] == '\\');
            }
        }
        let more = w.skip(n as int);
        assert(s.skip(n as int) =~= more + tail);
        if more.len() > 0 {
            assert(w.contains(w[n as int]));
            assert(more[0] == w[n as int]);
            assert(more.last() == w.last());
        } else if tail.len() > 0 {
            assert(w.last() == s[w.len() - 1]);
        }
        assert forall|c: char| #[trigger] more.contains(c) implies w.contains(c) by {
            let j = choose|j: int| 0 <= j < more.len() && more[j] == c;
            assert(w[j + n] == c);
        }
        plain_characters_are_taken_as_they_are(more, tail, current + backslashes(n), in_quotes);
        assert forall|i: int| 0 <= i < n implies #[trigger] w[i] == '\\' by {
            assert(s[i] == w[i]);
        }
        assert(current + backslashes(n) + more =~= current + w);
    } else {
        let more = w.skip(1);
        assert(w.contains(w[0]));
        assert(s.skip(1) =~= more + tail);
        assert forall|c: char| #[trigger] more.contains(c) implies w.contains(c) by {
            let j = choose|j: int| 0 <= j < more.len() && more[j] == c;
            assert(w[j + 1] == c);
        }
        if more.len() > 0 {
            assert(more.last() == w.last());
        }
        plain_characters_are_taken_as_they_are(more, tail, current.push(w[0]), in_quotes);
        assert(current.push(w[0]) + more =~= current + w);
    }
}

/// A space or a tab ends an argument, and the rest of the line is cut like a line
/// of its own. An argument without quotation marks is taken as it is, with its
/// backslashes; spaces and tabs alone are no arguments.
pub proof fn spaces_end_arguments(word: Seq<char>, space: char, rest: Seq<char>)
    requires
        is_unquoted(word),
        space == ' ' || space == '\t',
    ensures
        windows_args(word + seq![space] + rest, Seq::empty(), false) == (if word.len() > 0 {
            seq![word]
        } else {
            Seq::empty()
        }) + windows_args(rest, Seq::empty(), false),
        windows_args(word, Seq::empty(), false) == (if word.len() > 0 {
            seq![word]
        } else {
            Seq::empty()
        }),
{
    let nothing = Seq::<char>::empty();
    let tail = seq![space] + rest;
    assert(word + seq![space] + rest =~= word + tail);
    plain_characters_are_taken_as_they_are(word, tail, nothing, false);
    assert(nothing + word =~= word);
    assert(tail.skip(1) =~= rest);
    plain_characters_are_taken_as_they_are(word, nothing, nothing, false);
    assert(word + nothing =~= word);
}

/// A space or a tab outside of quotation marks ends whatever has been read of an
/// argument, and a quotation mark is not part of it.
pub proof fn marks_are_not_part_of_arguments(space: char, rest: Seq<char>, current: Seq<char>)
    requires
        space == ' ' || space == '\t',
    ensures
        windows_args(seq![space] + rest, current, false) == (if current.len() > 0 {
            seq![current]
        } else {
            Seq::empty()
        }) + windows_args(rest, Seq::empty(), false),
        windows_args(seq!['"'] + rest, current, false) == windows_args(rest, current, true),
        windows_args(seq!['"'] + rest, current, true) == windows_args(rest, current, false),
{
    assert((seq![space] + rest).skip(1) =~= rest);
    assert((seq!['"'] + rest).skip(1) =~= rest);
}

/// What stands between quotation marks is one argument with its spaces, and where
/// nothing stands there it is none.
pub proof fn quotation_marks_keep_spaces(text: Seq<char>, space: char, rest: Seq<char>)
    requires
        !text.contains('"'),
        text.len() > 0 ==> text.last() != '\\',
        space == ' ' || space == '\t',
    ensures
        windows_args(
            seq!['"'] + text + seq!['"'] + seq![space] + rest,
            Seq::empty(),
            false,
        ) == (if text.len() > 0 {
            seq![text]
        } else {
            Seq::empty()
        }) + windows_args(rest, Seq::empty(), false),
{
    let nothing = Seq::<char>::empty();
    let line = seq!['"'] + text + seq!['"'] + seq![space] + rest;
    let tail = seq!['"'] + (seq![space] + rest);
    assert(line.skip(1) =~= text + tail);
    plain_characters_are_taken_as_they_are(text, tail, nothing, true);
    assert(nothing + text =~= text);
    let behind = seq![space] + rest;
    assert(tail.skip(1) =~= behind);
    assert(behind.skip(1) =~= rest);
    assert(windows_args(line, nothing, false) == windows_args(line.skip(1), nothing, true));
    assert(windows_args(tail, text, true) == windows_args(behind, text, false));
    assert(windows_args(behind, text, false) == completed(text) + windows_args(
        rest,
        nothing,
        false,
    ));
}

/// Before a quotation mark two backslashes stand for one, and one that is left
/// over makes the mark a character of the argument.
pub proof fn backslashes_count_in_pairs_before_a_mark(
    n: nat,
    rest: Seq<char>,
    current: Seq<char>,
    in_quotes: bool,
)
    ensures
        windows_args(Seq::new(2 * n, |i: int| '\\') + seq!['"'] + rest, current, in_quotes)
            == windows_args(rest, current + Seq::new(n, |i: int| '\\'), !in_quotes),
        windows_args(Seq::new(2 * n + 1, |i: int| '\\') + seq!['"'] + rest, current, in_quotes)
            == windows_args(
            rest,
            current + Seq::new(n, |i: int| '\\') + seq!['"'],
            in_quotes,
        ),
{
    let even = Seq::new(2 * n, |i: int| '\\') + seq!['"'] + rest;
    let odd = Seq::new(2 * n + 1, |i: int| '\\') + seq!['"'] + rest;
    assert(backslashes(n) =~= Seq::new(n, |i: int| '\\'));
    lemma_leading_run(even, 2 * n);
    lemma_leading_run(odd, 2 * n + 1);
    assert(odd[0] == '\\');
    assert(odd.skip((2 * n + 1) as int) =~= seq!['"'] + rest);
    assert((seq!['"'] + rest).skip(1) =~= rest);
    assert((2 * n + 1) / 2 == n);
    assert((2 * n + 1) % 2 == 1);
    assert((current + backslashes(n)).push('"') =~= current + Seq::new(n, |i: int| '\\')
        + seq!['"']);
    if n == 0 {
        assert(even.skip(1) =~= rest);
        assert(current + Seq::new(n, |i: int| '\\') =~= current);
    } else {
        assert(even[0] == '\\');
        assert(even.skip((2 * n) as int) =~= seq!['"'] + rest);
        assert((2 * n) / 2 == n);
        assert((2 * n) % 2 == 0);
    }
}

// ---------------------------------------------------------------------------
// Laws of processes on Windows
// ---------------------------------------------------------------------------
/// The programs of the system are these and no others.
pub proof fn system_programs_are_known_by_name(name: Seq<char>)
    ensures
        system_executables().contains(name) <==> name == "system"@ || name == "registry"@ || name
            == "smss.exe"@ || name == "csrss.exe"@ || name == "wininit.exe"@ || name
            == "services.exe"@ || name == "lsass.exe"@ || name == "svchost.exe"@ || name
            == "dwm.exe"@ || name == "conhost.exe"@ || name == "taskhost.exe"@ || name
            == "winlogon.exe"@ || name == "fontdrvhost.exe"@ || name == "sihost.exe"@ || name
            == "ctfmon.exe"@ || name == "taskhostw.exe"@ || name == "runtimebroker.exe"@ || name
            == "searchindexer.exe"@ || name == "searchprotocolhost.exe"@,
{
    let all = system_executables();
    assert(all.len() == 19);
    assert(all[0] == "system"@);
    assert(all[1] == "registry"@);
    assert(all[2] == "smss.exe"@);
    assert(all[3] == "csrss.exe"@);
    assert(all[4] == "wininit.exe"@);
    assert(all[5] == "services.exe"@);
    assert(all[6] == "lsass.exe"@);
    assert(all[7] == "svchost.exe"@);
    assert(all[8] == "dwm.exe"@);
    assert(all[9] == "conhost.exe"@);
    assert(all[10] == "taskhost.exe"@);
    assert(all[11] == "winlogon.exe"@);
    assert(all[12] == "fontdrvhost.exe"@);
    assert(all[13] == "sihost.exe"@);
    assert(all[14] == "ctfmon.exe"@);
    assert(all[15] == "taskhostw.exe"@);
    assert(all[16] == "runtimebroker.exe"@);
    assert(all[17] == "searchindexer.exe"@);
    assert(all[18] == "searchprotocolhost.exe"@);
}

/// A record with an id and a path gives a process with that id, that path and the
/// arguments of its command line, unless its program is one of the system, in
/// whatever case. A record without an id or a path gives none.
pub proof fn records_give_processes(record: RecordModel, name: Option<Seq<char>>)
    ensures
        ({
            let process = windows_process_of(record, name);
            &&& record.process_id is None || record.executable_path is None ==> process is None
            &&& record.executable_path == Some(Seq::<char>::empty()) ==> process is None
            &&& name is Some && system_executables().contains(lowercase(name->0)) ==> process is None
            &&& record.process_id is Some && record.executable_path is Some
                && record.executable_path->0.len() > 0 && (name is None
                || !system_executables().contains(lowercase(name->0))) ==> {
                &&& process is Some
                &&& process->0.pid == record.process_id->0
                &&& process->0.path == record.executable_path->0
                &&& record.command_line is None ==> process->0.args.len() == 0
                &&& record.command_line is Some ==> process->0.args == windows_args(
                    record.command_line->0,
                    Seq::empty(),
                    false,
                )
            }
        }),
{
}

/// The processes stand in the order of their records, one for each record that
/// gives one.
pub proof fn processes_follow_their_records(
    first: Seq<RecordModel>,
    first_names: Seq<Option<Seq<char>>>,
    record: RecordModel,
    name: Option<Seq<char>>,
    rest: Seq<RecordModel>,
    rest_names: Seq<Option<Seq<char>>>,
)
    requires
        first.len() == first_names.len(),
        rest.len() == rest_names.len(),
    ensures
        windows_processes_of(Seq::empty(), Seq::empty()) == Seq::<ProcessModel>::empty(),
        windows_processes_of(seq![record], seq![name]) == (match windows_process_of(record, name) {
            Some(process) => seq![process],
            None => Seq::empty(),
        }),
        windows_processes_of(first + rest, first_names + rest_names) == windows_processes_of(
            first,
            first_names,
        ) + windows_processes_of(rest, rest_names),
    decreases rest.len(),
{
    let one = seq![record];
    let names = seq![name];
    assert(one.drop_last() =~= Seq::empty());
    assert(names.drop_last() =~= Seq::empty());
    assert(windows_processes_of(one.drop_last(), names.drop_last()) =~= Seq::empty());
    assert(windows_processes_of(one, names) =~= (match windows_process_of(record, name) {
        Some(process) => seq![process],
        None => Seq::empty(),
    }));
    let all = first + rest;
    let all_names = first_names + rest_names;
    if rest.len() == 0 {
        assert(all =~= first);
        assert(all_names =~= first_names);
        assert(windows_processes_of(first, first_names) + windows_processes_of(rest, rest_names)
            =~= windows_processes_of(first, first_names));
    } else {
        processes_follow_their_records(
            first,
            first_names,
            record,
            name,
            rest.drop_last(),
            rest_names.drop_last(),
        );
        assert(all.drop_last() =~= first + rest.drop_last());
        assert(all_names.drop_last() =~= first_names + rest_names.drop_last());
        assert(windows_processes_of(all, all_names) =~= windows_processes_of(first, first_names)
            + windows_processes_of(rest, rest_names));
    }
}

/// A report is a list of records, a single record, or nothing.
pub proof fn reports_have_three_shapes(report: JsonModel)
    ensures
        report is Array ==> records_in(report) == Some(report->Array_0),
        report is Object ==> records_in(report) == Some(seq![report]),
        report is Null ==> records_in(report) == Some(Seq::<JsonModel>::empty()),
        report is Bool || report is Number || report is Text ==> records_in(report) is None,
{
}

// ---------------------------------------------------------------------------
// Laws of processes on Linux
// ---------------------------------------------------------------------------
/// Zero bytes part the arguments of a process, and nothing else does; empty ones
/// are left out.
pub proof fn zero_bytes_part_arguments(a: Seq<u8>, b: Seq<u8>)
    ensures
        linux_args(a + seq![0u8] + b) == linux_args(a) + linux_args(b),
        a.len() == 0 ==> linux_args(a) == Seq::<Seq<char>>::empty(),
        a.len() > 0 && !a.contains(0u8) ==> linux_args(a) == seq![lossy_text(a)],
{
    lemma_arguments_state(a, b);
    assert(linux_args(a + seq![0u8] + b) =~= linux_args(a) + linux_args(b));
    assert(a.len() == 0 ==> linux_args(a) =~= Seq::empty());
    if a.len() > 0 && !a.contains(0u8) {
        lemma_one_argument(a);
        assert(linux_args(a) =~= seq![lossy_text(a)]);
    }
}

proof fn lemma_one_argument(a: Seq<u8>)
    requires
        !a.contains(0u8),
    ensures
        arguments_state(a) == (Seq::<Seq<char>>::empty(), a),
    decreases a.len(),
{
    if a.len() == 0 {
        assert(a =~= Seq::empty());
    } else {
        let rest = a.drop_last();
        assert forall|c: u8| #[trigger] rest.contains(c) implies a.contains(c) by {
            let j = choose|j: int| 0 <= j < rest.len() && rest[j] == c;
            assert(a[j] == c);
        }
        assert(a.contains(a.last()));
        lemma_one_argument(rest);
        assert(rest.push(a.last()) =~= a);
    }
}

proof fn lemma_arguments_state(a: Seq<u8>, b: Seq<u8>)
    ensures
        arguments_state(a + seq![0u8] + b).0 =~= linux_args(a) + arguments_state(b).0,
        arguments_state(a + seq![0u8] + b).1 == arguments_state(b).1,
    decreases b.len(),
{
    let all = a + seq![0u8] + b;
    if b.len() == 0 {
        assert(all.drop_last() =~= a);
    } else {
        lemma_arguments_state(a, b.drop_last());
        assert(all.drop_last() =~= a + seq![0u8] + b.drop_last());
        assert(all.last() == b.last());
    }
}

/// The line of a process is read from behind the last closing bracket and space,
/// so that the name of the program cannot mislead. A process is stopped where the
/// letter that follows is T, in either case, and without such a line it is not.
pub proof fn the_state_follows_the_name(head: Seq<char>, rest: Seq<char>, stat: Seq<char>)
    requires
        !contains(rest, seq![')', ' ']),
    ensures
        after_name(head + seq![')', ' '] + rest) == Some(rest),
        is_stopped(head + seq![')', ' '] + rest) <==> rest.len() > 0 && (rest[0] == 'T' || rest[0]
            == 't'),
        !contains(stat, seq![')', ' ']) ==> after_name(stat) is None && !is_stopped(stat)
            && parent_in_stat(stat) == 0,
{
    reveal_strlit(") ");
    let mark = seq![')', ' '];
    assert(") "@ =~= mark);
    let all = head + mark + rest;
    let at = head.len() as int;
    assert(all.subrange(at, at + 2) =~= mark);
    assert forall|j: int| j > at implies !occurs_at(all, mark, j) by {
        if occurs_at(all, mark, j) {
            assert(all.subrange(j, j + 2)[0] == all[j]);
            assert(mark[0] == ')');
            assert(all[at + 1] == ' ');
            assert(j >= at + 2);
            assert(rest.subrange(j - at - 2, j - at) =~= all.subrange(j, j + 2));
            assert(occurs_at(rest, mark, j - at - 2));
        }
    }
    lemma_last_index(all, mark, at);
    assert(all.skip(at + 2) =~= rest);
}

/// The parent of a process is the number in the second field behind its name.
pub proof fn the_parent_is_the_second_field(
    head: Seq<char>,
    state: Seq<char>,
    parent: nat,
    more: Seq<char>,
)
    requires
        state.len() > 0,
        forall|i: int| 0 <= i < state.len() ==> !whitespace(#[trigger] state[i]),
        !contains(state + seq![' '] + decimal(parent) + seq![' '] + more, seq![')', ' ']),
    ensures
        parent_in_stat(
            head + seq![')', ' '] + (state + seq![' '] + decimal(parent) + seq![' '] + more),
        ) == (if parent <= u32::MAX {
            parent
        } else {
            0
        }),
{
    let number = decimal(parent);
    let rest = state + seq![' '] + number + seq![' '] + more;
    the_state_follows_the_name(head, rest, Seq::empty());
    numbers_are_read_back(parent, u32::MAX as nat);
    assert forall|i: int| 0 <= i < number.len() implies !whitespace(#[trigger] number[i]) by {
        assert('0' <= number[i] <= '9');
    }
    assert(rest =~= state + seq![' '] + (number + seq![' '] + more));
    white_space_parts_words(state, ' ', number + seq![' '] + more);
    white_space_parts_words(number, ' ', more);
    assert(words(rest) =~= seq![state] + (seq![number] + words(more)));
    assert(words(rest)[1] == number);
}

/// The number that a command prints is read whatever white space stands around
/// it, and what is no number counts as zero.
pub proof fn printed_numbers_are_read(
    before: Seq<char>,
    n: nat,
    after: Seq<char>,
    other: Seq<char>,
)
    requires
        forall|i: int| 0 <= i < before.len() ==> whitespace(#[trigger] before[i]),
        forall|i: int| 0 <= i < after.len() ==> whitespace(#[trigger] after[i]),
    ensures
        printed_pid(before + decimal(n) + after) == (if n <= u32::MAX {
            n
        } else {
            0
        }),
        parsed_unsigned(trimmed(other), u32::MAX as nat) is None ==> printed_pid(other) == 0,
{
    numbers_are_read_back(n, u32::MAX as nat);
    let number = decimal(n);
    assert('0' <= number[0] <= '9');
    assert('0' <= number[number.len() - 1] <= '9');
    surrounding_white_space_does_not_count(before, number, after);
}

/// The program of a process is what its link says, unless the link tells of a
/// deleted file or of Wine, or cannot be read: then it is the first argument.
pub proof fn links_tell_of_programs(first: Seq<char>, link: Seq<char>)
    ensures
        linux_path(first, None) == first,
        contains(link, "(deleted)"@) ==> linux_path(first, Some(link)) == first,
        contains(link, "/wine"@) ==> linux_path(first, Some(link)) == first,
        contains(link, "/wine64"@) ==> linux_path(first, Some(link)) == first,
        !contains(link, "(deleted)"@) && !contains(link, "/wine"@) && !contains(link, "/wine64"@)
            ==> linux_path(first, Some(link)) == link,
{
}

/// A program that watches over games is known by any of ten names, in whatever
/// case, in its path or in its command line.
pub proof fn watching_programs_are_known_by_name(path: Seq<char>, command_line: Seq<char>)
    ensures
        is_anti_cheat(path, command_line) <==> {
            let (p, c) = (lowercase(path), lowercase(command_line));
            ||| contains(p, "easyanticheat"@) || contains(c, "easyanticheat"@)
            ||| contains(p, "eac_launcher"@) || contains(c, "eac_launcher"@)
            ||| contains(p, "easyanticheat_eos"@) || contains(c, "easyanticheat_eos"@)
            ||| contains(p, "battleye"@) || contains(c, "battleye"@)
            ||| contains(p, "beclient"@) || contains(c, "beclient"@)
            ||| contains(p, "nprotect"@) || contains(c, "nprotect"@)
            ||| contains(p, "xigncode"@) || contains(c, "xigncode"@)
            ||| contains(p, "gameguard"@) || contains(c, "gameguard"@)
            ||| contains(p, "vanguard"@) || contains(c, "vanguard"@)
            ||| contains(p, "anticheattoolkit"@) || contains(c, "anticheattoolkit"@)
        },
{
    let all = anti_cheat_executables();
    assert(all.len() == 10);
    assert(all[0] == "easyanticheat"@);
    assert(all[1] == "eac_launcher"@);
    assert(all[2] == "easyanticheat_eos"@);
    assert(all[3] == "battleye"@);
    assert(all[4] == "beclient"@);
    assert(all[5] == "nprotect"@);
    assert(all[6] == "xigncode"@);
    assert(all[7] == "gameguard"@);
    assert(all[8] == "vanguard"@);
    assert(all[9] == "anticheattoolkit"@);
}

/// A process with arguments that is neither stopped nor watches over games is
/// listed under its id, with its program and with the arguments behind the first;
/// no other process is.
pub proof fn running_programs_are_listed(
    pid: u32,
    raw: Seq<u8>,
    stat: Option<Seq<char>>,
    exe: Option<Seq<char>>,
)
    ensures
        ({
            let args = linux_args(raw);
            let path = linux_path(args[0], exe);
            let process = linux_process_of(pid, raw, stat, exe);
            &&& process is Some <==> args.len() > 0 && !(stat is Some && is_stopped(stat->0))
                && !is_anti_cheat(path, lossy_text(raw))
            &&& process is Some ==> {
                &&& process->0.pid == pid
                &&& process->0.path == path
                &&& process->0.args.len() == args.len() - 1
                &&& forall|i: int|
                    0 <= i < args.len() - 1 ==> #[trigger] process->0.args[i] == args[i + 1]
            }
        }),
{
}

} // verus!
