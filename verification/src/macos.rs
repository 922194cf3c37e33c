//! The processes of macOS, as `ps` prints them.
//!
//! A command line is cut behind `.app` or `.exe`, which are looked for in its
//! lower case form. The place is counted in bytes of UTF-8, and lower case may
//! take more or fewer of them: then the place may fall within a character.
use crate::detect::{processes_model, ProcessInfo, ProcessModel};
use crate::text::{
    char_seqs, chars_of, contains, decimal, ends_with, find, first_at, first_index,
    is_ascii_text, is_at, is_space, lemma_first_index, lines_of, lossy_text, lower, lowercase,
    numbers_are_read_back, occurs_at, opt_str, parse_unsigned, parsed_unsigned, split_lines,
    split_words, starts_with, string_of, text_ends_with, text_starts_with, texts, trim_chars,
    trim_start_chars, trimmed, trimmed_start, utf8_lossy, whitespace, words,
};
use vstd::prelude::*;

verus! {

// ---------------------------------------------------------------------------
// Places in bytes
// ---------------------------------------------------------------------------
/// How many bytes `c` takes in UTF-8.
pub open spec fn utf8_len(c: char) -> nat {
    if c as u32 <= 0x7f {
        1
    } else if c as u32 <= 0x7ff {
        2
    } else if c as u32 <= 0xffff {
        3
    } else {
        4
    }
}

/// How many bytes the first `i` characters of `s` take.
pub open spec fn byte_offset(s: Seq<char>, i: int) -> nat
    decreases i,
{
    if i <= 0 {
        0
    } else {
        byte_offset(s, i - 1) + utf8_len(s[i - 1])
    }
}

/// The character from `from` on that begins at this byte; the end of `s`
/// counts as one.
pub open spec fn char_at(s: Seq<char>, from: int, offset: nat) -> Option<int>
    decreases s.len() - from,
{
    if byte_offset(s, from) == offset {
        Some(from)
    } else if from >= s.len() {
        None
    } else {
        char_at(s, from + 1, offset)
    }
}

/// The character of `line` at the byte where `mark` ends in `lowered`, where
/// `mark` takes one byte for each of its characters.
pub open spec fn place_behind(line: Seq<char>, lowered: Seq<char>, mark: Seq<char>) -> Option<int> {
    match first_index(lowered, mark) {
        Some(i) => char_at(line, 0, byte_offset(lowered, i) + mark.len()),
        None => None,
    }
}

fn utf8_size(c: char) -> (r: u128)
    ensures
        r == utf8_len(c),
{
    let code: u32 = c as u32;
    if code <= 0x7f {
        1
    } else if code <= 0x7ff {
        2
    } else if code <= 0xffff {
        3
    } else {
        4
    }
}

fn offset_of(s: &[char], i: usize) -> (r: u128)
    requires
        i <= s@.len(),
    ensures
        r == byte_offset(s@, i as int),
        r <= 4 * i,
{
    let mut offset: u128 = 0;
    let mut k: usize = 0;
    while k < i
        invariant
            k <= i <= s@.len(),
            offset == byte_offset(s@, k as int),
            offset <= 4 * k,
        decreases i - k,
    {
        offset = offset + utf8_size(s[k]);
        k += 1;
    }
    offset
}

fn index_at(s: &[char], offset: u128) -> (r: Option<usize>)
    ensures
        match char_at(s@, 0, offset as nat) {
            Some(i) => r matches Some(k) && k == i && k <= s@.len(),
            None => r is None,
        },
{
    let mut k: usize = 0;
    let mut at: u128 = 0;
    loop
        invariant
            k <= s@.len(),
            at == byte_offset(s@, k as int),
            at <= 4 * k,
            char_at(s@, 0, offset as nat) == char_at(s@, k as int, offset as nat),
        decreases s@.len() - k,
    {
        if at == offset {
            return Some(k);
        }
        if k == s.len() {
            return None;
        }
        at = at + utf8_size(s[k]);
        k += 1;
    }
}

fn index_behind(line: &[char], lowered: &[char], mark: &[char]) -> (r: Option<usize>)
    requires
        contains(lowered@, mark@),
    ensures
        match place_behind(line@, lowered@, mark@) {
            Some(i) => r matches Some(k) && k == i && k <= line@.len(),
            None => r is None,
        },
{
    match find(lowered, mark) {
        Some(i) => index_at(line, offset_of(lowered, i) + mark.len() as u128),
        None => None,
    }
}

// ---------------------------------------------------------------------------
// Command lines
// ---------------------------------------------------------------------------
/// A command line in two: the path of the program, and its arguments.
pub struct CommandModel {
    pub path: Seq<char>,
    pub args: Seq<Seq<char>>,
}

/// Behind the space at `i` an option begins, or the line ends.
pub open spec fn is_end_of_path(line: Seq<char>, i: int) -> bool {
    let next = trimmed_start(line.skip(i));
    line[i] == ' ' && (next.len() == 0 || next[0] == '-' || next[0] == '+')
}

/// Where the path of a program ends that may hold spaces, from `from` on.
pub open spec fn end_of_path(line: Seq<char>, from: int) -> int
    decreases line.len() - from,
{
    if from >= line.len() {
        line.len() as int
    } else if is_end_of_path(line, from) {
        from
    } else {
        end_of_path(line, from + 1)
    }
}

/// Where the arguments begin in a command line whose application ends at `end`.
pub open spec fn start_of_args(line: Seq<char>, end: int) -> int {
    if starts_with(line.skip(end), "/Contents/MacOS/"@) {
        end_of_path(line, end + "/Contents/MacOS/"@.len())
    } else {
        end
    }
}

/// The path of an application that `bundle` stands for: those that Parallels
/// has put into `parallels_dir` stand for programs of Windows.
pub open spec fn application_path(bundle: Seq<char>, parallels_dir: Option<Seq<char>>) -> Seq<char> {
    match parallels_dir {
        Some(dir) => if !starts_with(bundle, dir) {
            bundle
        } else if ends_with(bundle, ".exe.app"@) {
            bundle.take(bundle.len() - 4)
        } else {
            bundle + "_name"@
        },
        None => bundle,
    }
}

/// The last colon or backslash among the first `end` characters of `s`.
pub open spec fn last_mark(s: Seq<char>, end: int) -> Option<int>
    decreases end,
{
    if end <= 0 {
        None
    } else if s[end - 1] == ':' || s[end - 1] == '\\' {
        Some(end - 1)
    } else {
        last_mark(s, end - 1)
    }
}

/// The drive before the colon at the last mark of `s` takes one byte.
pub open spec fn has_plain_drive(s: Seq<char>) -> bool {
    match last_mark(s, s.len() as int) {
        Some(i) => s[i] == ':' && i > 0 ==> utf8_len(s[i - 1]) == 1,
        None => true,
    }
}

/// The path of a program of Windows that ends where `before` ends: from the
/// drive on, or from behind the last backslash.
pub open spec fn windows_path(before: Seq<char>) -> Seq<char> {
    match last_mark(before, before.len() as int) {
        Some(i) => if before[i] != ':' {
            before.skip(i + 1)
        } else if i > 0 {
            before.skip(i - 1)
        } else {
            before
        },
        None => before,
    }
}

/// The command line can be cut, by its lower case form `lowered`, without
/// falling within a character.
pub open spec fn can_be_cut(line: Seq<char>, lowered: Seq<char>) -> bool {
    if contains(lowered, ".app"@) {
        place_behind(line, lowered, ".app"@) is Some
    } else if contains(lowered, ".exe"@) {
        match place_behind(line, lowered, ".exe"@) {
            Some(end) => has_plain_drive(line.take(end)),
            None => false,
        }
    } else {
        true
    }
}

/// The command of words that are parted by white space.
pub open spec fn command_of_words(parts: Seq<Seq<char>>) -> CommandModel {
    if parts.len() == 0 {
        CommandModel { path: Seq::empty(), args: Seq::empty() }
    } else {
        CommandModel { path: parts[0], args: parts.skip(1) }
    }
}

/// The program and the arguments of a command line with the lower case form `lowered`.
pub open spec fn command_of(
    line: Seq<char>,
    lowered: Seq<char>,
    parallels_dir: Option<Seq<char>>,
) -> CommandModel {
    if contains(lowered, ".app"@) {
        let end = place_behind(line, lowered, ".app"@)->0;
        CommandModel {
            path: application_path(line.take(end), parallels_dir),
            args: words(trimmed(line.skip(start_of_args(line, end)))),
        }
    } else if contains(lowered, ".exe"@) && contains(
        windows_path(line.take(place_behind(line, lowered, ".exe"@)->0)),
        "\\"@,
    ) {
        let end = place_behind(line, lowered, ".exe"@)->0;
        CommandModel {
            path: windows_path(line.take(end)),
            args: words(trimmed(line.skip(end))),
        }
    } else {
        command_of_words(words(line))
    }
}

fn find_end_of_path(line: &[char], from: usize) -> (r: usize)
    requires
        from <= line@.len(),
    ensures
        r == end_of_path(line@, from as int),
        from <= r <= line@.len(),
{
    let mut i: usize = from;
    while i < line.len()
        invariant
            from <= i <= line@.len(),
            end_of_path(line@, from as int) == end_of_path(line@, i as int),
        decreases line@.len() - i,
    {
        if line[i] == ' ' {
            assert(line@.subrange(i as int, line@.len() as int) =~= line@.skip(i as int));
            let next = trim_start_chars(&line[i..line.len()]);
            if next.len() == 0 || next[0] == '-' || next[0] == '+' {
                return i;
            }
        }
        i += 1;
    }
    i
}

fn find_last_mark(s: &[char]) -> (r: Option<usize>)
    ensures
        match last_mark(s@, s@.len() as int) {
            Some(i) => r matches Some(k) && k == i && k < s@.len() && (s@[i] == ':' || s@[i]
                == '\\'),
            None => r is None,
        },
{
    let mut i: usize = s.len();
    while i > 0
        invariant
            i <= s@.len(),
            last_mark(s@, s@.len() as int) == last_mark(s@, i as int),
        decreases i,
    {
        if s[i - 1] == ':' || s[i - 1] == '\\' {
            return Some(i - 1);
        }
        i -= 1;
    }
    None
}

/// Cuts off the path of a program of Windows, which ends where `before` ends.
fn cut_windows_path(before: &[char]) -> (r: &[char])
    ensures
        r@ == windows_path(before@),
{
    let len: usize = before.len();
    match find_last_mark(before) {
        Some(i) => if before[i] != ':' {
            assert(before@.subrange(i + 1, len as int) =~= before@.skip(i + 1));
            &before[i + 1..len]
        } else if i > 0 {
            assert(before@.subrange(i - 1, len as int) =~= before@.skip(i - 1));
            &before[i - 1..len]
        } else {
            before
        },
        None => before,
    }
}

/// The program of Windows in a command line, and what follows it; none where
/// its path would hold no backslash.
pub fn split_windows_exe_from_command(command_line: &str, lowered: &str) -> (r: Option<
    (String, String),
>)
    requires
        contains(lowered@, ".exe"@) ==> place_behind(command_line@, lowered@, ".exe"@) is Some
            && has_plain_drive(
            command_line@.take(place_behind(command_line@, lowered@, ".exe"@)->0),
        ),
    ensures
        ({
            let end = place_behind(command_line@, lowered@, ".exe"@)->0;
            let path = windows_path(command_line@.take(end));
            if contains(lowered@, ".exe"@) && contains(path, "\\"@) {
                r matches Some((p, rest)) && p@ == path && rest@ == command_line@.skip(end)
            } else {
                r is None
            }
        }),
{
    let line = chars_of(command_line);
    let low = chars_of(lowered);
    let mark = chars_of(".exe");
    if find(low.as_slice(), mark.as_slice()).is_none() {
        return None;
    }
    match index_behind(line.as_slice(), low.as_slice(), mark.as_slice()) {
        Some(end) => {
            let before = &line.as_slice()[0..end];
            assert(before@ =~= command_line@.take(end as int));
            let path = cut_windows_path(before);
            if find(path, chars_of("\\").as_slice()).is_none() {
                return None;
            }
            let rest = &line.as_slice()[end..line.len()];
            assert(rest@ =~= command_line@.skip(end as int));
            Some((string_of(path), string_of(rest)))
        },
        None => None,
    }
}

/// The words of `value`.
pub fn split_shellish(value: &str) -> (r: Vec<String>)
    ensures
        texts(r@) == words(value@),
{
    split_words(chars_of(value).as_slice())
}

/// The program and the arguments of a command line with the lower case form
/// `lowered`, which it can be cut by.
pub fn cut_command_line(command_line: &str, lowered: &str, parallels_dir: Option<&str>) -> (r: (
    String,
    Vec<String>,
))
    requires
        can_be_cut(command_line@, lowered@),
    ensures
        r.0@ == command_of(command_line@, lowered@, opt_str(parallels_dir)).path,
        texts(r.1@) == command_of(command_line@, lowered@, opt_str(parallels_dir)).args,
{
    let line = chars_of(command_line);
    let low = chars_of(lowered);
    let len: usize = line.len();
    let app_mark = chars_of(".app");
    proof {
        reveal_strlit("/Contents/MacOS/");
        reveal_strlit(".exe.app");
    }
    if find(low.as_slice(), app_mark.as_slice()).is_some() {
        if let Some(end) = index_behind(line.as_slice(), low.as_slice(), app_mark.as_slice()) {
            let contents = chars_of("/Contents/MacOS/");
            let tail = &line.as_slice()[end..len];
            assert(tail@ =~= command_line@.skip(end as int));
            let args_start: usize = if is_at(tail, contents.as_slice(), 0) {
                find_end_of_path(line.as_slice(), end + contents.len())
            } else {
                end
            };
            assert(args_start == start_of_args(command_line@, end as int));
            let rest = &line.as_slice()[args_start..len];
            assert(rest@ =~= command_line@.skip(args_start as int));
            let args = split_words(trim_chars(rest));
            let bundle = &line.as_slice()[0..end];
            assert(bundle@ =~= command_line@.take(end as int));
            let mut path = string_of(bundle);
            if let Some(dir) = parallels_dir {
                if text_starts_with(path.as_str(), dir) {
                    if text_ends_with(path.as_str(), ".exe.app") {
                        let kept = &bundle[0..bundle.len() - 4];
                        assert(kept@ =~= bundle@.take(bundle@.len() - 4));
                        path = string_of(kept);
                    } else {
                        path.append("_name");
                    }
                }
            }
            return (path, args);
        }
    }
    match split_windows_exe_from_command(command_line, lowered) {
        Some((path, rest)) => {
            let tail = chars_of(rest.as_str());
            (path, split_words(trim_chars(tail.as_slice())))
        },
        None => {
            let mut parts = split_shellish(command_line);
            let ghost all = texts(parts@);
            if parts.len() == 0 {
                assert(texts(parts@) =~= Seq::empty());
                (String::new(), parts)
            } else {
                let path = parts.remove(0);
                assert(path@ == all[0]);
                assert(texts(parts@) =~= all.skip(1));
                (path, parts)
            }
        },
    }
}

/// Whether the command line can be cut by `lowered`.
fn fits(line: &[char], lowered: &[char]) -> (r: bool)
    ensures
        r == can_be_cut(line@, lowered@),
{
    let app_mark = chars_of(".app");
    if find(lowered, app_mark.as_slice()).is_some() {
        return index_behind(line, lowered, app_mark.as_slice()).is_some();
    }
    let exe_mark = chars_of(".exe");
    if find(lowered, exe_mark.as_slice()).is_none() {
        return true;
    }
    match index_behind(line, lowered, exe_mark.as_slice()) {
        Some(end) => {
            let before = &line[0..end];
            assert(before@ =~= line@.take(end as int));
            match find_last_mark(before) {
                Some(i) => before[i] != ':' || i == 0 || utf8_size(before[i - 1]) == 1,
                None => true,
            }
        },
        None => false,
    }
}

/// The program and the arguments of a command line; none where it cannot be cut.
pub fn parse_macos_command_line(command_line: &str, parallels_dir: Option<&str>) -> (r: Option<
    (String, Vec<String>),
>)
    ensures
        if can_be_cut(command_line@, lowercase(command_line@)) {
            let command = command_of(
                command_line@,
                lowercase(command_line@),
                opt_str(parallels_dir),
            );
            r matches Some((path, args)) && path@ == command.path && texts(args@) == command.args
        } else {
            r is None
        },
{
    let lowered = lower(command_line);
    if !fits(chars_of(command_line).as_slice(), chars_of(lowered.as_str()).as_slice()) {
        return None;
    }
    Some(cut_command_line(command_line, lowered.as_str(), parallels_dir))
}

// ---------------------------------------------------------------------------
// The report of `ps`
// ---------------------------------------------------------------------------
/// The first white space from `from` on.
pub open spec fn first_space(s: Seq<char>, from: int) -> Option<int>
    decreases s.len() - from,
{
    if from >= s.len() {
        None
    } else if whitespace(s[from]) {
        Some(from)
    } else {
        first_space(s, from + 1)
    }
}

/// The id and the command line in a line of the report: none where the line is
/// no such pair, and none for what the system runs without a program.
pub open spec fn ps_pair(line: Seq<char>) -> Option<(nat, Seq<char>)> {
    let text = trimmed_start(line);
    match first_space(text, 0) {
        Some(i) => {
            let command = trimmed_start(text.skip(i + 1));
            match parsed_unsigned(text.take(i), u32::MAX as nat) {
                Some(pid) => if command.len() == 0 || command[0] == '[' || command[0] == '<' {
                    None
                } else {
                    Some((pid, command))
                },
                None => None,
            }
        },
        None => None,
    }
}

/// The processes in these lines of the report; none where a command line cannot be cut.
pub open spec fn ps_processes(
    lines: Seq<Seq<char>>,
    parallels_dir: Option<Seq<char>>,
) -> Option<Seq<ProcessModel>>
    decreases lines.len(),
{
    if lines.len() == 0 {
        Some(Seq::empty())
    } else {
        match (ps_processes(lines.drop_last(), parallels_dir), ps_pair(lines.last())) {
            (None, _) => None,
            (Some(before), None) => Some(before),
            (Some(before), Some((pid, line))) => {
                let command = command_of(line, lowercase(line), parallels_dir);
                if !can_be_cut(line, lowercase(line)) {
                    None
                } else if command.path.len() == 0 {
                    Some(before)
                } else {
                    Some(
                        before.push(
                            ProcessModel {
                                pid: pid as u32,
                                path: command.path,
                                args: command.args,
                            },
                        ),
                    )
                }
            },
        }
    }
}

fn find_space(s: &[char]) -> (r: Option<usize>)
    ensures
        match first_space(s@, 0) {
            Some(i) => r matches Some(k) && k == i && k < s@.len(),
            None => r is None,
        },
{
    let mut i: usize = 0;
    while i < s.len()
        invariant
            i <= s@.len(),
            first_space(s@, 0) == first_space(s@, i as int),
        decreases s@.len() - i,
    {
        if is_space(s[i]) {
            return Some(i);
        }
        i += 1;
    }
    None
}

fn parse_ps_line(line: &[char]) -> (r: Option<(u32, String)>)
    ensures
        match ps_pair(line@) {
            Some((pid, command)) => r matches Some((p, c)) && p == pid && c@ == command,
            None => r is None,
        },
{
    let text = trim_start_chars(line);
    let len: usize = text.len();
    match find_space(text) {
        Some(i) => {
            let pid_text = &text[0..i];
            assert(pid_text@ =~= text@.take(i as int));
            let rest = &text[i + 1..len];
            assert(rest@ =~= text@.skip(i + 1));
            match parse_unsigned(pid_text, u32::MAX as u64) {
                Some(pid) => {
                    let command = trim_start_chars(rest);
                    if command.len() == 0 || command[0] == '[' || command[0] == '<' {
                        None
                    } else {
                        Some((pid as u32, string_of(command)))
                    }
                },
                None => None,
            }
        },
        None => None,
    }
}

proof fn lemma_no_processes(lines: Seq<Seq<char>>, parallels_dir: Option<Seq<char>>, i: int)
    requires
        0 <= i <= lines.len(),
        ps_processes(lines.take(i), parallels_dir) is None,
    ensures
        ps_processes(lines, parallels_dir) is None,
    decreases lines.len() - i,
{
    if i < lines.len() {
        assert(lines.take(i + 1).drop_last() =~= lines.take(i));
        lemma_no_processes(lines, parallels_dir, i + 1);
    } else {
        assert(lines.take(i) =~= lines);
    }
}

/// The processes in the report of `ps`, which has an id and a command line in
/// each line; none where a command line cannot be cut.
pub fn parse_ps_output(stdout: &[u8], parallels_dir: Option<&str>) -> (r: Option<
    Vec<ProcessInfo>,
>)
    ensures
        match ps_processes(lines_of(lossy_text(stdout@)), opt_str(parallels_dir)) {
            Some(processes) => r matches Some(v) && processes_model(v@) == processes,
            None => r is None,
        },
{
    let text = utf8_lossy(stdout);
    let lines = split_lines(chars_of(text.as_str()).as_slice());
    let ghost all = char_seqs(lines@);
    let ghost dir = opt_str(parallels_dir);
    let mut processes: Vec<ProcessInfo> = Vec::new();
    let mut i: usize = 0;
    assert(all.take(0) =~= Seq::empty());
    assert(processes_model(processes@) =~= Seq::empty());
    while i < lines.len()
        invariant
            i <= lines@.len(),
            all == char_seqs(lines@),
            all == lines_of(lossy_text(stdout@)),
            dir == opt_str(parallels_dir),
            ps_processes(all.take(i as int), dir) == Some(processes_model(processes@)),
        decreases lines@.len() - i,
    {
        assert(all.take(i + 1).drop_last() =~= all.take(i as int));
        assert(all.take(i + 1).last() == lines@[i as int]@);
        let ghost before = processes@;
        if let Some((pid, command_line)) = parse_ps_line(lines[i].as_slice()) {
            match parse_macos_command_line(command_line.as_str(), parallels_dir) {
                Some((path, args)) => {
                    if !path.as_str().is_empty() {
                        let process = ProcessInfo { pid, path, args };
                        processes.push(process);
                        assert(processes_model(processes@) =~= processes_model(before).push(
                            process@,
                        ));
                    }
                },
                None => {
                    proof {
                        lemma_no_processes(all, dir, i + 1);
                    }
                    return None;
                },
            }
        }
        i += 1;
    }
    assert(all.take(i as int) =~= all);
    Some(processes)
}

// ---------------------------------------------------------------------------
// Laws
// ---------------------------------------------------------------------------
proof fn lemma_ascii_offset(s: Seq<char>, i: int)
    requires
        is_ascii_text(s),
        0 <= i <= s.len(),
    ensures
        byte_offset(s, i) == i,
    decreases i,
{
    if i > 0 {
        lemma_ascii_offset(s, i - 1);
        assert(s[i - 1] as u32 <= 127);
    }
}

proof fn lemma_ascii_char(s: Seq<char>, from: int, offset: nat)
    requires
        is_ascii_text(s),
        0 <= from <= offset <= s.len(),
    ensures
        char_at(s, from, offset) == Some(offset as int),
    decreases offset - from,
{
    lemma_ascii_offset(s, from);
    if from < offset {
        lemma_ascii_char(s, from + 1, offset);
    }
}

proof fn lemma_place_behind(line: Seq<char>, lowered: Seq<char>, mark: Seq<char>, i: int)
    requires
        is_ascii_text(line),
        is_ascii_text(lowered),
        line.len() == lowered.len(),
        first_at(lowered, mark, i),
    ensures
        place_behind(line, lowered, mark) == Some(i + mark.len()),
{
    lemma_first_index(lowered, mark, i);
    lemma_ascii_offset(lowered, i);
    lemma_ascii_char(line, 0, (i + mark.len()) as nat);
}

/// The lower case form of a line in ASCII, character by character.
pub open spec fn is_lower_form(line: Seq<char>, lowered: Seq<char>) -> bool {
    &&& is_ascii_text(line)
    &&& is_ascii_text(lowered)
    &&& line.len() == lowered.len()
}

/// The command line of an application is cut behind its first `.app`, in whatever
/// case: what stands before is the path, and the words behind are the arguments.
/// Where the program within the bundle follows, the arguments begin behind that.
pub proof fn applications_end_at_their_bundle(line: Seq<char>, lowered: Seq<char>, i: int)
    requires
        is_lower_form(line, lowered),
        first_at(lowered, ".app"@, i),
    ensures
        ({
            let command = command_of(line, lowered, None);
            let end = i + 4;
            &&& can_be_cut(line, lowered)
            &&& command.path == line.take(end)
            &&& !starts_with(line.skip(end), "/Contents/MacOS/"@) ==> command.args == words(
                trimmed(line.skip(end)),
            )
            &&& starts_with(line.skip(end), "/Contents/MacOS/"@) ==> command.args == words(
                trimmed(line.skip(end_of_path(line, end + 16))),
            )
        }),
{
    reveal_strlit(".app");
    reveal_strlit("/Contents/MacOS/");
    assert(".app"@.len() == 4);
    assert("/Contents/MacOS/"@.len() == 16);
    lemma_place_behind(line, lowered, ".app"@, i);
}

/// The program within a bundle ends at the first space behind which there is
/// nothing, or an option that begins with a minus or a plus sign; without one it
/// ends with the line.
pub proof fn programs_end_before_options(line: Seq<char>, from: int)
    requires
        0 <= from <= line.len(),
    ensures
        ({
            let end = end_of_path(line, from);
            &&& from <= end <= line.len()
            &&& end < line.len() ==> line[end] == ' ' && is_option_or_end(line.skip(end))
            &&& forall|j: int|
                from <= j < end ==> #[trigger] line[j] != ' ' || !is_option_or_end(line.skip(j))
        }),
    decreases line.len() - from,
{
    if from < line.len() && !is_end_of_path(line, from) {
        programs_end_before_options(line, from + 1);
    }
}

/// Behind its white space `s` has nothing more, or begins with an option.
pub open spec fn is_option_or_end(s: Seq<char>) -> bool {
    let next = trimmed_start(s);
    next.len() == 0 || next[0] == '-' || next[0] == '+'
}

/// An application that Parallels has put into its directory stands for a program
/// of Windows: by its name without `.app` where that ends in `.exe`, and else by
/// its path with the mark of a name. Other applications stand for themselves.
pub proof fn parallels_applications_stand_for_programs(bundle: Seq<char>, dir: Seq<char>)
    ensures
        application_path(bundle, None) == bundle,
        !starts_with(bundle, dir) ==> application_path(bundle, Some(dir)) == bundle,
        starts_with(bundle, dir) && ends_with(bundle, ".exe.app"@) ==> application_path(
            bundle,
            Some(dir),
        ) + ".app"@ == bundle,
        starts_with(bundle, dir) && !ends_with(bundle, ".exe.app"@) ==> application_path(
            bundle,
            Some(dir),
        ) == bundle + "_name"@,
{
    reveal_strlit(".exe.app");
    reveal_strlit(".app");
    if starts_with(bundle, dir) && ends_with(bundle, ".exe.app"@) {
        let whole = ".exe.app"@;
        let at = bundle.len() - whole.len();
        assert forall|k: int| 0 <= k < 4 implies bundle[at + 4 + k] == ".app"@[k] by {
            assert(bundle.subrange(at, at + whole.len())[4 + k] == bundle[at + 4 + k]);
            assert(whole[4 + k] == ".app"@[k]);
        }
        assert(bundle.take(bundle.len() - 4) + ".app"@ =~= bundle);
    }
}

/// The directory of Parallels changes the path of an application and no argument.
pub proof fn parallels_changes_paths_alone(
    line: Seq<char>,
    lowered: Seq<char>,
    dir: Option<Seq<char>>,
)
    ensures
        command_of(line, lowered, dir).args == command_of(line, lowered, None).args,
        contains(lowered, ".app"@) ==> command_of(line, lowered, dir).path == application_path(
            command_of(line, lowered, None).path,
            dir,
        ),
        !contains(lowered, ".app"@) ==> command_of(line, lowered, dir).path == command_of(
            line,
            lowered,
            None,
        ).path,
{
}

proof fn lemma_last_mark(s: Seq<char>, end: int)
    requires
        0 <= end <= s.len(),
    ensures
        match last_mark(s, end) {
            Some(i) => 0 <= i < end && (s[i] == ':' || s[i] == '\\') && forall|j: int|
                i < j < end ==> #[trigger] s[j] != ':' && s[j] != '\\',
            None => forall|j: int| 0 <= j < end ==> #[trigger] s[j] != ':' && s[j] != '\\',
        },
    decreases end,
{
    if end > 0 && s[end - 1] != ':' && s[end - 1] != '\\' {
        lemma_last_mark(s, end - 1);
    }
}

/// A program of Windows is cut out of a command line from its drive on, or from
/// behind the last backslash, whichever comes last; without either it is all.
pub proof fn windows_programs_begin_at_their_drive(
    before: Seq<char>,
    drive: char,
    name: Seq<char>,
)
    requires
        !name.contains(':'),
        !name.contains('\\'),
    ensures
        windows_path(name) == name,
        windows_path(before + seq!['\\'] + name) == name,
        windows_path(before + seq![drive] + seq![':'] + name) == seq![drive] + seq![':'] + name,
{
    assert forall|j: int| 0 <= j < name.len() implies #[trigger] name[j] != ':' && name[j]
        != '\\' by {
        assert(name.contains(name[j]));
    }
    lemma_last_mark(name, name.len() as int);
    let slashed = before + seq!['\\'] + name;
    lemma_last_mark(slashed, slashed.len() as int);
    assert(slashed[before.len() as int] == '\\');
    assert forall|j: int| before.len() < j < slashed.len() implies #[trigger] slashed[j] != ':'
        && slashed[j] != '\\' by {
        assert(slashed[j] == name[j - before.len() - 1]);
    }
    assert(last_mark(slashed, slashed.len() as int) == Some(before.len() as int));
    assert(slashed.skip(before.len() as int + 1) =~= name);
    let driven = before + seq![drive] + seq![':'] + name;
    let at = before.len() as int + 1;
    lemma_last_mark(driven, driven.len() as int);
    assert(driven[at] == ':');
    assert forall|j: int| at < j < driven.len() implies #[trigger] driven[j] != ':' && driven[j]
        != '\\' by {
        assert(driven[j] == name[j - at - 1]);
    }
    assert(last_mark(driven, driven.len() as int) == Some(at));
    assert(driven.skip(at - 1) =~= seq![drive] + seq![':'] + name);
}

/// The command line of a program of Windows is cut behind its first `.exe`, in
/// whatever case, where a backslash stands in the path that is cut out.
pub proof fn windows_programs_end_at_exe(
    line: Seq<char>,
    lowered: Seq<char>,
    dir: Option<Seq<char>>,
    i: int,
)
    requires
        is_lower_form(line, lowered),
        !contains(lowered, ".app"@),
        first_at(lowered, ".exe"@, i),
        contains(windows_path(line.take(i + 4)), seq!['\\']),
    ensures
        command_of(line, lowered, dir).path == windows_path(line.take(i + 4)),
        command_of(line, lowered, dir).args == words(trimmed(line.skip(i + 4))),
{
    reveal_strlit(".exe");
    reveal_strlit("\\");
    assert("\\"@ =~= seq!['\\']);
    assert(".exe"@.len() == 4);
    lemma_place_behind(line, lowered, ".exe"@, i);
    assert(occurs_at(lowered, ".exe"@, i));
}

/// Any other command line is cut into its words: the first is the program, the
/// others are its arguments.
pub proof fn other_command_lines_are_words(
    line: Seq<char>,
    lowered: Seq<char>,
    dir: Option<Seq<char>>,
)
    requires
        !contains(lowered, ".app"@),
        !contains(lowered, ".exe"@),
    ensures
        ({
            let command = command_of(line, lowered, dir);
            let parts = words(line);
            &&& can_be_cut(line, lowered)
            &&& parts.len() == 0 ==> command.path.len() == 0 && command.args.len() == 0
            &&& parts.len() > 0 ==> seq![command.path] + command.args == parts
        }),
{
    let parts = words(line);
    if parts.len() > 0 {
        assert(seq![parts[0]] + parts.skip(1) =~= parts);
    }
}

proof fn lemma_first_space(s: Seq<char>, from: int, i: int)
    requires
        0 <= from <= i < s.len(),
        whitespace(s[i]),
        forall|j: int| from <= j < i ==> !whitespace(#[trigger] s[j]),
    ensures
        first_space(s, from) == Some(i),
    decreases i - from,
{
    if from < i {
        assert(!whitespace(s[from]));
        lemma_first_space(s, from + 1, i);
    }
}

proof fn lemma_skips_blank(before: Seq<char>, s: Seq<char>)
    requires
        forall|i: int| 0 <= i < before.len() ==> whitespace(#[trigger] before[i]),
        s.len() > 0 ==> !whitespace(s[0]),
    ensures
        trimmed_start(before + s) == s,
    decreases before.len(),
{
    let all = before + s;
    if before.len() == 0 {
        assert(all =~= s);
    } else {
        let rest = before.skip(1);
        assert(whitespace(before[0]));
        assert(all[0] == before[0]);
        assert forall|i: int| 0 <= i < rest.len() implies whitespace(#[trigger] rest[i]) by {
            assert(rest[i] == before[i + 1]);
        }
        lemma_skips_blank(rest, s);
        assert(all.skip(1) =~= rest + s);
    }
}

/// A line of the report gives the number at its beginning and the command behind
/// it, whatever white space stands before and between them. What the system runs
/// without a program, in brackets, gives nothing, and neither does a line without
/// a command.
pub proof fn lines_give_number_and_command(
    before: Seq<char>,
    pid: nat,
    space: char,
    between: Seq<char>,
    command: Seq<char>,
)
    requires
        forall|i: int| 0 <= i < before.len() ==> whitespace(#[trigger] before[i]),
        forall|i: int| 0 <= i < between.len() ==> whitespace(#[trigger] between[i]),
        whitespace(space),
        command.len() > 0 ==> !whitespace(command[0]),
    ensures
        ps_pair(before + decimal(pid) + seq![space] + between + command) == (if pid <= u32::MAX
            && command.len() > 0 && command[0] != '[' && command[0] != '<' {
            Some((pid, command))
        } else {
            None
        }),
{
    let number = decimal(pid);
    numbers_are_read_back(pid, u32::MAX as nat);
    assert('0' <= number[0] <= '9');
    let text = number + seq![space] + between + command;
    assert(before + decimal(pid) + seq![space] + between + command =~= before + text);
    assert(text[0] == number[0]);
    lemma_skips_blank(before, text);
    assert forall|j: int| 0 <= j < number.len() implies !whitespace(#[trigger] text[j]) by {
        assert('0' <= number[j] <= '9');
        assert(text[j] == number[j]);
    }
    assert(text[number.len() as int] == space);
    lemma_first_space(text, 0, number.len() as int);
    assert(text.take(number.len() as int) =~= number);
    assert(text.skip(number.len() as int + 1) =~= between + command);
    lemma_skips_blank(between, command);
}

/// The report is read line by line: each line that gives a number and a command
/// with a program gives a process, in the order of the lines, and the report as a
/// whole is given up where one of the commands cannot be cut.
pub proof fn each_line_gives_a_process(
    first: Seq<Seq<char>>,
    line: Seq<char>,
    rest: Seq<Seq<char>>,
    dir: Option<Seq<char>>,
)
    ensures
        ps_processes(Seq::empty(), dir) == Some(Seq::<ProcessModel>::empty()),
        ps_processes(first + rest, dir) == (match (
            ps_processes(first, dir),
            ps_processes(rest, dir),
        ) {
            (Some(a), Some(b)) => Some(a + b),
            _ => None,
        }),
        ps_pair(line) is None ==> ps_processes(seq![line], dir) == Some(
            Seq::<ProcessModel>::empty(),
        ),
        ps_pair(line) is Some ==> {
            let (pid, text) = ps_pair(line)->0;
            let command = command_of(text, lowercase(text), dir);
            let found = ps_processes(seq![line], dir);
            &&& found is Some <==> can_be_cut(text, lowercase(text))
            &&& found is Some && command.path.len() == 0 ==> found->0.len() == 0
            &&& found is Some && command.path.len() > 0 ==> found->0.len() == 1 && found->0[0].pid
                == pid as u32 && found->0[0].path == command.path && found->0[0].args
                == command.args
        },
    decreases rest.len(),
{
    let one = seq![line];
    assert(one.drop_last() =~= Seq::empty());
    assert(ps_processes(one.drop_last(), dir) == Some(Seq::<ProcessModel>::empty()));
    let all = first + rest;
    if rest.len() == 0 {
        assert(all =~= first);
        if let Some(a) = ps_processes(first, dir) {
            assert(a + Seq::<ProcessModel>::empty() =~= a);
        }
    } else {
        each_line_gives_a_process(first, line, rest.drop_last(), dir);
        assert(all.drop_last() =~= first + rest.drop_last());
        assert(all.last() == rest.last());
        if let (Some(a), Some(b)) = (
            ps_processes(first, dir),
            ps_processes(rest.drop_last(), dir),
        ) {
            if let Some(c) = ps_processes(rest, dir) {
                assert(ps_processes(all, dir)->0 =~= a + c);
            }
        }
    }
}

} // verus!
