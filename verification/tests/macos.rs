use arrpc::macos::{
    cut_command_line, parse_macos_command_line, parse_ps_output, split_shellish,
    split_windows_exe_from_command,
};

fn strings(list: &[&str]) -> Vec<String> {
    list.iter().map(|text| text.to_string()).collect()
}

fn parse(line: &str, dir: Option<&str>) -> (String, Vec<String>) {
    parse_macos_command_line(line, dir).unwrap()
}

#[test]
fn applications_are_cut_behind_their_bundle() {
    assert_eq!(
        parse("/Applications/My Game.app/Contents/MacOS/My Game -fast x", None),
        ("/Applications/My Game.app".to_owned(), strings(&["-fast", "x"]))
    );
    assert_eq!(
        parse("/Applications/Game.APP/Contents/MacOS/run file", None),
        ("/Applications/Game.APP".to_owned(), strings(&[]))
    );
    assert_eq!(
        parse("/A/G.app/Contents/MacOS/run +x  -y ", None),
        ("/A/G.app".to_owned(), strings(&["+x", "-y"]))
    );
    assert_eq!(
        parse("/A/G.app --flag", None),
        ("/A/G.app".to_owned(), strings(&["--flag"]))
    );
}

#[test]
fn parallels_applications_stand_for_windows_programs() {
    let dir = Some("/Users/x/Applications (Parallels)");
    assert_eq!(
        parse("/Users/x/Applications (Parallels)/w/game.exe.app", dir).0,
        "/Users/x/Applications (Parallels)/w/game.exe"
    );
    assert_eq!(
        parse("/Users/x/Applications (Parallels)/w/Game.app", dir).0,
        "/Users/x/Applications (Parallels)/w/Game.app_name"
    );
    assert_eq!(parse("/Applications/game.exe.app", dir).0, "/Applications/game.exe.app");
}

#[test]
fn other_command_lines_are_cut_at_white_space() {
    assert_eq!(parse("  /bin/sh -c  x", None), ("/bin/sh".to_owned(), strings(&["-c", "x"])));
    assert_eq!(parse("   ", None), (String::new(), strings(&[])));
    assert_eq!(
        parse(r"C:\Games\run.exe -x", None),
        (r"C:\Games\run.exe".to_owned(), strings(&["-x"]))
    );
    assert_eq!(split_shellish(" a\tb "), strings(&["a", "b"]));
}

#[test]
fn windows_programs_are_cut_from_their_last_mark() {
    let line = r"x \:run.exe -a";
    assert_eq!(
        split_windows_exe_from_command(line, line),
        Some((r"\:run.exe".to_owned(), " -a".to_owned()))
    );
    assert_eq!(parse(line, None), (r"\:run.exe".to_owned(), strings(&["-a"])));
    assert_eq!(split_windows_exe_from_command("c:run.exe", "c:run.exe"), None);
    assert_eq!(split_windows_exe_from_command("plain", "plain"), None);
}

#[test]
fn a_place_within_a_character_is_noticed() {
    // U+0130 takes two bytes, its lower case form three.
    assert!(parse_macos_command_line("\u{130}.app", None).is_none());
    assert!(parse_macos_command_line("\u{130}.appé", None).is_none());
    assert_eq!(
        parse("\u{130}.app xyz", None),
        ("\u{130}.app ".to_owned(), strings(&["xyz"]))
    );
    assert!(parse_macos_command_line("e:é.exe", None).is_some());
    assert!(parse_macos_command_line("é:e.exe", None).is_none());
}

#[test]
fn the_lower_case_form_decides_on_the_cut() {
    assert_eq!(
        cut_command_line("abcdefgh", "xx.app", None),
        ("abcdef".to_owned(), strings(&["gh"]))
    );
}

#[test]
fn ps_lists_one_process_a_line() {
    let report = b"    1 /sbin/launchd\n  20\t/A/G.app/Contents/MacOS/G -x\r\n\
                   x /bin/no\n 30\n 31 [kernel]\n 32 <defunct>\n33   \n  40 /bin/sh";
    let processes = parse_ps_output(report, None).unwrap();
    let list: Vec<(u32, &str)> = processes
        .iter()
        .map(|process| (process.pid, process.path.as_str()))
        .collect();
    assert_eq!(list, vec![(1, "/sbin/launchd"), (20, "/A/G.app"), (40, "/bin/sh")]);
    assert_eq!(processes[1].args, strings(&["-x"]));
    assert!(parse_ps_output("5 \u{130}.app".as_bytes(), None).is_none());
    assert!(parse_ps_output(b"", None).unwrap().is_empty());
}
