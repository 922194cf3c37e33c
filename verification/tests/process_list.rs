use arrpc::json::Json;
use arrpc::process_list::{
    is_anti_cheat_process, is_system_executable, is_wine_host_path, linux_pid, linux_process,
    linux_process_from_args, lowered_is_anti_cheat, parent_pid_from_output,
    parent_pid_from_stat, parse_windows_command_line, parse_windows_processes,
    process_is_stopped, report_values, windows_process, windows_record_values, ProcessListError,
    WindowsProcessRecord,
};

fn record(pid: Option<u32>, path: Option<&str>, line: Option<&str>) -> WindowsProcessRecord {
    WindowsProcessRecord {
        process_id: pid,
        executable_path: path.map(str::to_owned),
        command_line: line.map(str::to_owned),
    }
}

fn strings(list: &[&str]) -> Vec<String> {
    list.iter().map(|text| text.to_string()).collect()
}

#[test]
fn parses_windows_powershell_process_json() {
    let values = windows_record_values(
        br#"[{"ProcessId":10,"ExecutablePath":"C:\\Games\\game.exe","CommandLine":"\"C:\\Games\\game.exe\" --rpc"},{"ProcessId":11,"ExecutablePath":null,"CommandLine":null}]"#,
    )
    .unwrap();
    let records: Vec<WindowsProcessRecord> = values
        .iter()
        .map(|value| WindowsProcessRecord {
            process_id: value.get_u64("ProcessId").map(|pid| pid as u32),
            executable_path: value.get_str("ExecutablePath").map(str::to_owned),
            command_line: value.get_str("CommandLine").map(str::to_owned),
        })
        .collect();
    let processes = parse_windows_processes(&records);

    assert_eq!(processes.len(), 1);
    assert_eq!(processes[0].pid, 10);
    assert_eq!(processes[0].path, "C:\\Games\\game.exe");
    assert!(processes[0].args.iter().any(|arg| arg == "--rpc"));
}

#[test]
fn the_report_of_powershell_has_three_shapes() {
    assert_eq!(windows_record_values(b"[{}, {}]").unwrap().len(), 2);
    assert_eq!(windows_record_values(b"{\"a\": 1}").unwrap().len(), 1);
    assert!(windows_record_values(b"null").unwrap().is_empty());
    let error = windows_record_values(b"5").unwrap_err();
    assert!(matches!(error, ProcessListError::UnexpectedShape));
    assert_eq!(error.message(), "unexpected PowerShell process JSON shape");
    let error = windows_record_values(b"").unwrap_err();
    assert!(matches!(error, ProcessListError::Json(_)));
    assert_eq!(error.message(), "PowerShell process list is not JSON");
}

#[test]
fn records_of_the_system_are_passed_over() {
    let game = record(Some(1), Some("C:\\x\\game.exe"), Some("game.exe \"a b\""));
    let process = windows_process(&game, Some("game.exe")).unwrap();
    assert_eq!(process.args, strings(&["game.exe", "a b"]));
    assert!(windows_process(&game, Some("SvcHost.EXE")).is_none());
    assert!(windows_process(&game, None).is_some());
    assert!(windows_process(&record(None, Some("x"), None), None).is_none());
    assert!(windows_process(&record(Some(1), None, None), None).is_none());
    assert!(windows_process(&record(Some(1), Some(""), None), None).is_none());
    assert!(windows_process(&record(Some(1), Some("x"), None), None).unwrap().args.is_empty());
}

#[test]
fn file_names_decide_on_the_system() {
    let records = vec![
        record(Some(1), Some("/windows/dwm.exe"), None),
        record(Some(2), Some("/games/dwm.exe.game"), None),
        record(Some(3), Some("/games/.."), None),
    ];
    let processes = parse_windows_processes(&records);
    let pids: Vec<u32> = processes.iter().map(|process| process.pid).collect();
    assert_eq!(pids, vec![2, 3]);
}

#[test]
fn a_bare_name_is_its_own_file_name() {
    let records = vec![
        record(Some(1), Some("svchost.exe"), None),
        record(Some(2), Some("DWM.EXE"), None),
        record(Some(3), Some("game.exe"), None),
        record(Some(4), Some("."), None),
    ];
    let processes = parse_windows_processes(&records);
    let pids: Vec<u32> = processes.iter().map(|process| process.pid).collect();
    assert_eq!(pids, vec![3, 4]);
}

#[test]
fn directories_do_not_make_a_program_one_of_the_system() {
    let records = vec![
        record(Some(1), Some("D:/games/ecosystem/play.exe"), None),
        record(Some(2), Some("D:\\games\\ecosystem\\play.exe"), None),
        record(Some(3), Some("/svchost.exe/play.exe"), None),
        record(Some(4), Some("/dwm.exe/system/mysvchost.exe"), None),
        record(Some(5), Some("/games/svchost.exe"), None),
        record(Some(6), Some("/games/svchost.exe/./"), None),
        record(Some(7), Some("/games/svchost.exe/.."), None),
    ];
    let processes = parse_windows_processes(&records);
    let pids: Vec<u32> = processes.iter().map(|process| process.pid).collect();
    assert_eq!(pids, vec![1, 2, 3, 4, 7]);
}

#[test]
fn windows_command_lines_are_cut_as_windows_does() {
    let cut = parse_windows_command_line;
    assert_eq!(cut(""), strings(&[]));
    assert_eq!(cut("  a \t b  "), strings(&["a", "b"]));
    assert_eq!(cut("\"a b\"c d"), strings(&["a bc", "d"]));
    assert_eq!(cut("\"\" x"), strings(&["x"]));
    assert_eq!(cut(r"C:\a\b c"), strings(&[r"C:\a\b", "c"]));
    assert_eq!(cut(r#"a\"b"#), strings(&["a\"b"]));
    assert_eq!(cut(r#"a\\"b c"d"#), strings(&[r"a\b cd"]));
    assert_eq!(cut(r#"a\\\"b c"#), strings(&["a\\\"b", "c"]));
    assert_eq!(cut(r#""a\\" b"#), strings(&[r"a\", "b"]));
    assert_eq!(cut(r"x\\"), strings(&[r"x\\"]));
}

#[test]
fn linux_processes_come_from_proc() {
    let process = linux_process(9, b"/bin/game\0\0-x\0a b\0", None, None).unwrap();
    assert_eq!(process.pid, 9);
    assert_eq!(process.path, "/bin/game");
    assert_eq!(process.args, strings(&["-x", "a b"]));
    let process = linux_process(9, b"game", Some("9 (g) S 1"), Some("/opt/game")).unwrap();
    assert_eq!(process.path, "/opt/game");
    assert!(process.args.is_empty());
    let process = linux_process(9, b"C:\\g\xff.exe\0", None, Some("/usr/bin/wine64")).unwrap();
    assert_eq!(process.path, "C:\\g\u{fffd}.exe");
    let process = linux_process(9, b"g\0", None, Some("/opt/g (deleted)")).unwrap();
    assert_eq!(process.path, "g");
    assert!(linux_process(9, b"", None, None).is_none());
    assert!(linux_process(9, b"\0\0", None, None).is_none());
    assert!(linux_process(9, b"game\0", Some("9 (g) T 1"), None).is_none());
    assert!(linux_process(9, b"game\0--BattlEye\0", None, None).is_none());
    assert!(linux_process(9, b"game\0", None, Some("/opt/EAC_Launcher")).is_none());
}

#[test]
fn directories_of_proc_are_told_by_their_numbers() {
    assert_eq!(linux_pid("4294967295"), Some(u32::MAX));
    assert_eq!(linux_pid("4294967296"), None);
    assert_eq!(linux_pid("self"), None);
    assert_eq!(linux_pid(""), None);
}

#[test]
fn stopped_processes_are_told_by_their_state() {
    assert!(process_is_stopped("1 (a) b) T 0"));
    assert!(process_is_stopped("1 (a) t"));
    assert!(!process_is_stopped("1 (T) S 0"));
    assert!(!process_is_stopped("1 (a) "));
    assert!(!process_is_stopped("T"));
}

#[test]
fn wine_and_anti_cheat_are_recognised() {
    assert!(is_wine_host_path("/usr/lib/wine/wine64-preloader"));
    assert!(!is_wine_host_path("wine/game"));
    assert!(is_anti_cheat_process("/x/EasyAntiCheat_EOS", ""));
    assert!(is_anti_cheat_process("", "-vanguard"));
    assert!(!is_anti_cheat_process("/x/game", "--play"));
}

#[test]
fn the_parent_is_read_from_stat_and_from_commands() {
    assert_eq!(parent_pid_from_stat("10 (a b) c) S 77 10 10"), 77);
    assert_eq!(parent_pid_from_stat("10 (a) S"), 0);
    assert_eq!(parent_pid_from_stat("10 (a) S x"), 0);
    assert_eq!(parent_pid_from_stat(""), 0);
    assert_eq!(parent_pid_from_output(b"  812\r\n"), 812);
    assert_eq!(parent_pid_from_output(b"\xff"), 0);
}

#[test]
fn decisions_are_made_on_given_texts() {
    assert!(is_system_executable("svchost.exe"));
    assert!(!is_system_executable("SVCHOST.exe"));
    assert!(lowered_is_anti_cheat("", "x battleye y"));
    assert!(!lowered_is_anti_cheat("BattlEye", ""));
    let process =
        linux_process_from_args(3, strings(&["a", "b"]), "a b", None, Some("/x")).unwrap();
    assert_eq!(process.path, "/x");
    assert_eq!(process.args, strings(&["b"]));
    assert!(linux_process_from_args(3, strings(&["a"]), "GameGuard", None, None).is_none());
    assert!(linux_process_from_args(3, Vec::new(), "", None, None).is_none());
    assert!(report_values(Json::Bool(true)).is_none());
    assert_eq!(report_values(Json::Null), Some(Vec::new()));
}
