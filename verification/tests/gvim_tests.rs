use panty::gvim::{
    escape_str_in_command, escape_str_in_expression, find_instances, find_instances_without_panty,
    find_str, new_servernames, parse_server_list, parse_window_id, pick_fresh_names, remote_args,
    send_files_args, spawn_args, window_id_args, SendFileOptions, ServerProbe, WidScan, WidStep,
    WindowProbe, STOCKED_WINDOW_ROLE, SUMMONED_WINDOW_ROLE,
};

fn strings(v: &[&str]) -> Vec<String> {
    v.iter().map(|s| s.to_string()).collect()
}

#[test]
fn test_escape_str() {
    assert_eq!(escape_str_in_command("hoge"), "hoge");
    assert_eq!(escape_str_in_command("ho#ge"), r"ho\#ge");
    assert_eq!(escape_str_in_command(r"ho\ge"), r"ho\\ge");
}

#[test]
fn escape_in_command_also_escapes_bars() {
    assert_eq!(escape_str_in_command("a|b"), r"a\|b");
}

#[test]
fn escape_in_expression_doubles_quotes() {
    assert_eq!(escape_str_in_expression("it's"), "it''s");
    assert_eq!(escape_str_in_expression("plain"), "plain");
    assert_eq!(escape_str_in_expression("''"), "''''");
}

#[test]
fn roles_are_fixed() {
    assert_eq!(STOCKED_WINDOW_ROLE, "STOCKING");
    assert_eq!(SUMMONED_WINDOW_ROLE, "PANTY");
}

#[test]
fn remote_args_send_keys_then_expressions() {
    let keys = strings(&["<Esc>", ":w<CR>"]);
    let exprs = strings(&["1+1"]);
    assert_eq!(
        remote_args("GVIM", &keys, &exprs).unwrap(),
        strings(&["--servername", "GVIM", "--remote-send", "<Esc>", "--remote-send", ":w<CR>", "--remote-expr", "1+1"])
    );
    assert_eq!(remote_args("GVIM", &[], &exprs).unwrap(), strings(&["--servername", "GVIM", "--remote-expr", "1+1"]));
}

#[test]
fn remote_args_of_nothing_is_none() {
    assert!(remote_args("GVIM", &[], &[]).is_none());
}

#[test]
fn spawn_args_start_a_stocked_gvim() {
    assert_eq!(
        spawn_args("PANTY-1"),
        strings(&["--nofork", "--echo-wid", "--role=STOCKING", "-iconic", "--servername", "PANTY-1"])
    );
}

#[test]
fn window_id_is_asked_and_read() {
    assert_eq!(window_id_args("X"), strings(&["--servername", "X", "--remote-expr", "v:windowid"]));
    assert_eq!(parse_window_id("62914563\n"), Some(62914563));
    assert_eq!(parse_window_id(" 7 "), Some(7));
    assert_eq!(parse_window_id("E247: no registered server\n"), None);
    assert_eq!(parse_window_id(""), None);
}

#[test]
fn window_id_roundtrip_on_values() {
    for w in [0u64, 1, 4194311, u64::MAX] {
        assert_eq!(parse_window_id(&format!("{}\n", w)), Some(w));
    }
}

#[test]
fn server_list_is_read_line_by_line() {
    assert_eq!(parse_server_list("GVIM\nPANTY-1\n"), strings(&["GVIM", "PANTY-1"]));
    assert_eq!(parse_server_list(""), Vec::<String>::new());
}

fn options<'a>(
    change_directory: bool,
    envs: &'a [(String, String)],
    files: &'a [&'a str],
    tab: bool,
) -> SendFileOptions<'a> {
    SendFileOptions { change_directory, envs, files, servername: "S", tab, working_directory: "/tmp/it's #1" }
}

#[test]
fn send_files_without_files_or_cd_does_nothing() {
    assert!(send_files_args(&options(false, &[], &[], false)).is_none());
}

#[test]
fn send_files_without_files_changes_directory() {
    let envs = vec![("A".to_string(), "x'y".to_string())];
    assert_eq!(
        send_files_args(&options(true, &envs, &[], false)).unwrap(),
        strings(&["--servername", "S", "--remote-expr", "execute('cd /tmp/it''s #1')", "--remote-expr", "0+setenv('A', 'x''y')"])
    );
}

#[test]
fn send_files_opens_the_files_last() {
    let files = ["a.txt", "b.txt"];
    assert_eq!(
        send_files_args(&options(true, &[], &files, true)).unwrap(),
        strings(&["--servername", "S", "--remote-tab", r"+cd /tmp/it's \#1", "a.txt", "b.txt"])
    );
    assert_eq!(
        send_files_args(&options(false, &[], &files, false)).unwrap(),
        strings(&["--servername", "S", "--remote", "a.txt", "b.txt"])
    );
}

#[test]
fn send_files_sets_variables_ten_at_a_time() {
    let envs: Vec<(String, String)> = (0..12).map(|i| (format!("K{}", i), format!("{}", i))).collect();
    let files = ["f"];
    let args = send_files_args(&options(false, &envs, &files, false)).unwrap();
    let first: String = (0..10).map(|i| format!("+setenv('K{}', '{}')", i, i)).collect();
    assert_eq!(args.len(), 2 + 4 + 2);
    assert_eq!(args[2], "--remote-expr");
    assert_eq!(args[3], format!("0{}", first));
    assert_eq!(args[4], "--remote-expr");
    assert_eq!(args[5], "0+setenv('K10', '10')+setenv('K11', '11')");
    assert_eq!(args[6], "--remote");
    assert_eq!(args[7], "f");
}

#[test]
fn find_str_finds_the_first_occurrence() {
    assert_eq!(find_str("xx WID: 1 WID: 2", "WID: "), Some(3));
    assert_eq!(find_str("none", "WID: "), None);
    assert_eq!(find_str("", ""), Some(0));
}

#[test]
fn wid_scan_reads_until_the_marker() {
    let mut scan = WidScan::new();
    assert!(matches!(scan.feed(Some("starting\n".to_string())), WidStep::ReadLine));
    assert!(matches!(scan.feed(Some("WID: 4194311\n".to_string())), WidStep::Found(4194311)));
}

#[test]
fn wid_scan_gives_up_at_the_end_of_output() {
    let mut scan = WidScan::new();
    assert!(matches!(scan.feed(None), WidStep::NotFound));
    let mut scan = WidScan::new();
    assert!(matches!(scan.feed(Some(String::new())), WidStep::NotFound));
}

#[test]
fn wid_scan_reports_a_bad_number() {
    let mut scan = WidScan::new();
    assert!(matches!(scan.feed(Some("WID: oops\n".to_string())), WidStep::Malformed));
}

#[test]
fn wid_scan_stops_after_three_hundred_lines() {
    let mut scan = WidScan::new();
    for _ in 0..299 {
        assert!(matches!(scan.feed(Some("noise\n".to_string())), WidStep::ReadLine));
    }
    assert!(matches!(scan.feed(Some("noise\n".to_string())), WidStep::NotFound));
    assert!(matches!(scan.feed(Some("WID: 1\n".to_string())), WidStep::NotFound));
}

fn window(window: u64, visible: bool, class: Option<&str>, servername: Option<&str>, title: Option<&str>) -> WindowProbe {
    WindowProbe {
        window,
        visible,
        class: class.map(|s| s.to_string()),
        servername: servername.map(|s| s.to_string()),
        title: title.map(|s| s.to_string()),
    }
}

#[test]
fn find_instances_keeps_collector_gvims() {
    let probes = vec![
        window(0, true, Some("Gvim"), Some("Z"), Some("z")),
        window(1, true, Some("Gvim"), Some("A"), Some("a")),
        window(2, false, Some("Gvim"), Some("B"), Some("b")),
        window(3, true, Some("XTerm"), Some("C"), Some("c")),
        window(4, true, Some("Gvim"), None, Some("d")),
        window(5, true, Some("Gvim"), Some("E"), None),
        window(6, true, Some("Gvim"), Some("F"), Some("f")),
    ];
    let found = find_instances(true, &probes);
    let got: Vec<(u64, &str, &str)> = found.iter().map(|i| (i.window, i.servername.as_str(), i.title.as_str())).collect();
    assert_eq!(got, vec![(1, "A", "a"), (6, "F", "f")]);
    let hidden = find_instances(false, &probes);
    assert_eq!(hidden.len(), 1);
    assert_eq!(hidden[0].servername, "B");
}

#[test]
fn find_instances_without_panty_keeps_answering_servers() {
    let probes = vec![
        ServerProbe { servername: "A".to_string(), window: Some(1), visible: true, panty: false, title: Some("a".to_string()) },
        ServerProbe { servername: "B".to_string(), window: None, visible: true, panty: false, title: Some("b".to_string()) },
        ServerProbe { servername: "C".to_string(), window: Some(3), visible: false, panty: true, title: Some("c".to_string()) },
        ServerProbe { servername: "D".to_string(), window: Some(4), visible: true, panty: true, title: None },
    ];
    let found = find_instances_without_panty(true, &probes);
    assert_eq!(found.len(), 1);
    assert_eq!(found[0].servername, "A");
    assert_eq!(found[0].window, 1);
}

#[test]
fn pick_fresh_names_skips_taken_and_repeated_names() {
    let existing = strings(&["GVIM", "PANTY-1"]);
    let candidates = strings(&["PANTY-1", "PANTY-2", "PANTY-2", "GVIM", "PANTY-3", "PANTY-4"]);
    assert_eq!(pick_fresh_names(2, &existing, &candidates), strings(&["PANTY-2", "PANTY-3"]));
    assert_eq!(pick_fresh_names(0, &existing, &candidates), strings(&["PANTY-2"]));
    assert_eq!(pick_fresh_names(9, &existing, &candidates), strings(&["PANTY-2", "PANTY-3", "PANTY-4"]));
}

#[test]
fn new_servernames_are_fresh_and_distinct() {
    let existing = strings(&["GVIM"]);
    let names = new_servernames(5, &existing);
    assert_eq!(names.len(), 5);
    for (i, n) in names.iter().enumerate() {
        assert!(n.starts_with("PANTY-"));
        assert!(!existing.contains(n));
        assert!(!names[i + 1..].contains(n));
    }
    assert_eq!(new_servernames(0, &existing).len(), 1);
}

#[test]
fn echoed_window_id_is_found_on_the_first_line() {
    for w in [0u64, 12, 62914563] {
        let mut scan = WidScan::new();
        match scan.feed(Some(format!("WID: {}\n", w))) {
            WidStep::Found(found) => assert_eq!(found, w),
            _ => panic!("expected the window id"),
        }
    }
}

#[test]
fn escapes_leave_plain_text_and_compose() {
    assert_eq!(escape_str_in_command("plain text"), "plain text");
    assert_eq!(escape_str_in_command(r"a\b|c#d"), r"a\\b\|c\#d");
    let (a, b) = ("x#", "|y");
    assert_eq!(escape_str_in_command(&format!("{}{}", a, b)), format!("{}{}", escape_str_in_command(a), escape_str_in_command(b)));
    assert_eq!(escape_str_in_expression("no quotes"), "no quotes");
}
