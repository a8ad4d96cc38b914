use battery_sipjuice::app_power::{
    app_group_name, basename, clean_title, cpu_delta, group_ticks, infer_webkit_app_name,
    normalize_app_group_name, parse_cmdline, read_proc_ticks, read_total_ticks, sample_span,
    significant,
};

#[test]
fn command_line_parts_are_split_at_zero_bytes() {
    let args = parse_cmdline(b"/usr/bin/code\0--flag\0\0tail\0");
    assert_eq!(args, vec!["/usr/bin/code", "--flag", "tail"]);
    let args = parse_cmdline(b"a\0\xff\xfe\0b");
    assert_eq!(args, vec!["a", "b"]);
    assert!(parse_cmdline(b"").is_empty());
}

#[test]
fn program_names() {
    assert_eq!(basename("/usr/lib/firefox/firefox --new-window").as_deref(), Some("firefox"));
    assert_eq!(basename("gnome-shell").as_deref(), Some("gnome-shell"));
    assert_eq!(basename("/usr/bin/..").as_deref(), None);
    assert_eq!(basename("").as_deref(), None);
}

#[test]
fn titles_are_cleaned() {
    assert_eq!(clean_title("[kworker/0:1]"), "0:1");
    assert_eq!(clean_title("C:\\Apps\\tool.exe --x"), "tool.exe");
    assert_eq!(clean_title("[[ksoftirqd]]"), "ksoftirqd");
    assert_eq!(clean_title("   "), "   ");
}

#[test]
fn known_helpers_are_grouped_with_their_application() {
    let none: Vec<String> = Vec::new();
    assert_eq!(normalize_app_group_name("chrome_crashpad_handler", &none, None), "Code");
    assert_eq!(normalize_app_group_name(" Battery-SipJuice ", &none, None), "Battery SipJuice");
    let shell = vec!["gjs".to_string(), "/usr/share/gnome-shell/x".to_string()];
    assert_eq!(normalize_app_group_name("gjs", &shell, None), "GNOME Shell");
    assert_eq!(normalize_app_group_name("gjs", &none, None), "gjs");
    let ours = vec!["WebKitWebProcess".to_string(), "--battery-sipjuice".to_string()];
    assert_eq!(infer_webkit_app_name(&ours).as_deref(), Some("Battery SipJuice"));
    assert_eq!(normalize_app_group_name("WebKitWebProcess", &ours, None), "Battery SipJuice");
    assert_eq!(normalize_app_group_name("WebKitWebProcess", &none, Some("epiphany")), "epiphany");
    assert_eq!(normalize_app_group_name("webkitwebproces", &none, None), "WebKitWebProcess");
}

#[test]
fn group_name_of_a_process() {
    assert_eq!(app_group_name(42, Some(b"/usr/bin/code\0.".to_vec()), None), "Code");
    assert_eq!(app_group_name(42, None, Some(" bash \n".to_string())), "bash");
    assert_eq!(app_group_name(42, None, Some("  ".to_string())), "pid");
    assert_eq!(app_group_name(-7, Some(Vec::new()), None), "pid");
}

#[test]
fn cpu_time_of_a_process() {
    let stat = "1234 (my (odd) name) S 1 2 3 4 5 6 7 8 9 10 250 50 0 0";
    assert_eq!(read_proc_ticks(stat), Some(300));
    assert_eq!(read_proc_ticks("1234 no paren"), None);
    assert_eq!(read_proc_ticks("1 (x) S 1 2"), None);
    let total = "cpu  10 20 30 40 50 60 70 80 90 100\ncpu0 1 1 1 1\n";
    assert_eq!(read_total_ticks(total), Some(360));
    assert_eq!(read_total_ticks(""), None);
    assert_eq!(read_total_ticks("cpu 1 x 2\r\n"), Some(3));
}

#[test]
fn deltas_and_buckets() {
    let prev = vec![(1, 100u64), (2, 50)];
    assert_eq!(cpu_delta(&prev, 1, 130), 30);
    assert_eq!(cpu_delta(&prev, 2, 40), 0);
    assert_eq!(cpu_delta(&prev, 3, 40), 40);
    let b = group_ticks(&[("A".to_string(), 10), ("B".to_string(), 5), ("A".to_string(), 7)]);
    assert_eq!(b.len(), 2);
    assert_eq!(b[0].name, "A");
    assert_eq!(b[0].ticks, 17);
    assert_eq!(b[0].process_count, 2);
    assert_eq!(b[1].name, "B");
    assert!(significant(1, 200));
    assert!(!significant(1, 201));
    assert_eq!(sample_span(100, 1_000, 160, 31_000), Some((60, 30_000)));
    assert_eq!(sample_span(100, 1_000, 100, 31_000), None);
}

#[test]
fn basename_takes_the_last_path_component() {
    assert_eq!(basename("/opt//tools/bin/ --flag").as_deref(), Some("bin"));
    assert_eq!(basename("/usr/bin/./").as_deref(), Some("bin"));
    assert_eq!(basename("./helper").as_deref(), Some("helper"));
    assert_eq!(basename("/").as_deref(), None);
    assert_eq!(basename(".").as_deref(), None);
}
