use rust_proxy::cli::{
    console_step, help_text, history_rows_ok, ConsoleAction, find_request_file, history_entries, history_row, history_rows, page_step_fits_exec,
    parse_line, read_command, refused_page_arg, request_action, request_file_path, table_header, Command, Config,
    History, RequestAction,
};

fn strings(v: &[&str]) -> Vec<String> {
    v.iter().map(|s| s.to_string()).collect()
}

#[test]
fn new_config_starts_at_first_page() {
    let c = Config::new();
    assert_eq!(c.history().start(), 0);
    assert_eq!(c.history().end(), 10);
    let h = History::new();
    assert_eq!((h.start(), h.end()), (0, 10));
}

#[test]
fn read_command_trims_and_dispatches() {
    let (c, l) = read_command("  history page +\n");
    assert_eq!(c, Command::History);
    assert_eq!(l, "history page +");
    assert_eq!(read_command("help\n").0, Command::Help);
    assert_eq!(read_command("request 1 scan").0, Command::Request);
    assert_eq!(read_command("requestx").0, Command::Other);
    assert_eq!(read_command("").0, Command::Other);
    assert_eq!(read_command("\t\r\n").1, "");
    assert_eq!(read_command("help\tme").0, Command::Other);
}

#[test]
fn page_plus_and_minus() {
    let mut c = Config::new();
    assert_eq!(parse_line("history page +", &mut c), (10, 20, false));
    assert_eq!(parse_line("history page +", &mut c), (20, 30, false));
    assert_eq!(parse_line("history page -", &mut c), (10, 20, false));
    assert_eq!(parse_line("history page -", &mut c), (0, 10, false));
    assert_eq!(parse_line("history page -", &mut c), (0, 10, false));
    assert_eq!(c.history().start(), 0);
}

#[test]
fn page_number_moves_window() {
    let mut c = Config::new();
    assert_eq!(parse_line("history page 3", &mut c), (20, 30, false));
    assert_eq!(table_header(&c)[3], "page: 3");
    assert_eq!(parse_line("history page 0", &mut c), (-10, 0, false));
    assert_eq!(parse_line("history page -2", &mut c), (-30, -20, false));
    assert_eq!(parse_line("history page +", &mut c), (-20, -10, false));
    assert_eq!(parse_line("history page -", &mut c), (0, 10, false));
}

#[test]
fn page_bad_number_keeps_window() {
    let mut c = Config::new();
    parse_line("history page 5", &mut c);
    assert_eq!(parse_line("history page abc", &mut c), (40, 50, false));
    assert_eq!(parse_line("history page  ", &mut c), (40, 50, false));
}

#[test]
fn erase_and_other_lines() {
    let mut c = Config::new();
    assert_eq!(parse_line("history erase", &mut c), (0, 10, true));
    assert_eq!(parse_line("history", &mut c), (0, 10, false));
    assert_eq!(parse_line("history erase now", &mut c), (0, 10, false));
    assert_eq!(parse_line("history foo bar", &mut c), (0, 10, false));
}

#[test]
fn page_step_fits_checks_overflow() {
    let c = Config::new();
    assert!(page_step_fits_exec("history page 214748364", &c));
    assert!(!page_step_fits_exec("history page 214748365", &c));
    assert!(page_step_fits_exec("history page -214748363", &c));
    assert!(!page_step_fits_exec("history page -214748364", &c));
    assert!(page_step_fits_exec("history page +", &c));
    assert!(page_step_fits_exec("history page x", &c));
    let mut c = Config::new();
    parse_line("history page 214748364", &mut c);
    assert_eq!(c.history().end(), 2147483640);
    assert!(!page_step_fits_exec("history page +", &c));
}

#[test]
fn table_header_first_page() {
    let c = Config::new();
    assert_eq!(table_header(&c), strings(&["Id", "Method", "Url", "page: 1"]));
}

#[test]
fn request_actions() {
    assert!(matches!(request_action("request"), RequestAction::Usage));
    assert!(matches!(request_action("request 12"), RequestAction::Show(ref id) if id == "12"));
    assert!(matches!(request_action("request 12 scan"), RequestAction::Scan(ref id) if id == "12"));
    assert!(matches!(request_action("request 12 send"), RequestAction::Send(ref id) if id == "12"));
    assert!(matches!(request_action("request 12 send x"), RequestAction::Show(ref id) if id == "12"));
    assert!(matches!(request_action("request 12 other"), RequestAction::Show(_)));
}

#[test]
fn find_request_file_by_prefix() {
    let names = strings(&["abc|||GET|||h|||1", "abd|||GET|||h|||2", "abc2|||GET|||h|||3"]);
    assert_eq!(find_request_file(&names, "abc"), Some(0));
    assert_eq!(find_request_file(&names, "abd"), Some(1));
    assert_eq!(find_request_file(&names, "ab"), Some(0));
    assert_eq!(find_request_file(&names, "x"), None);
    assert_eq!(find_request_file(&names, ""), Some(0));
    assert_eq!(find_request_file(&Vec::new(), "a"), None);
}

#[test]
fn request_file_path_under_requests() {
    assert_eq!(request_file_path("a|||b"), "./requests/a|||b");
}

#[test]
fn history_entries_window() {
    let names: Vec<String> = (0..15).map(|i| format!("id{}|||GET|||h|||{}", i, i)).collect();
    let e = history_entries(&names, 0, 10);
    assert_eq!(e.len(), 11);
    assert_eq!(e[0], strings(&["id0", "GET", "h", "0"]));
    assert_eq!(e[10][0], "id10");
    let e = history_entries(&names, 10, 20);
    assert_eq!(e.len(), 5);
    assert_eq!(e[0][0], "id10");
}

#[test]
fn history_entries_skip_short_names() {
    let names = strings(&["bad", "a|||GET|||h|||1", "b|||x", "c|||GET|||h|||2|||extra"]);
    let e = history_entries(&names, 0, 10);
    assert_eq!(e, vec![strings(&["a", "GET", "h", "1"]), strings(&["c", "GET", "h", "2"])]);
    // before the window, short names are counted
    let e = history_entries(&names, 1, 11);
    assert_eq!(e, vec![strings(&["a", "GET", "h", "1"]), strings(&["c", "GET", "h", "2"])]);
    let e = history_entries(&names, 2, 12);
    assert_eq!(e, vec![strings(&["c", "GET", "h", "2"])]);
}

#[test]
fn history_entries_negative_window() {
    let names = strings(&["a|||GET|||h|||1", "b|||GET|||h|||2"]);
    assert_eq!(history_entries(&names, -20, -10).len(), 1);
    assert_eq!(history_entries(&names, -10, 0).len(), 1);
}

#[test]
fn history_row_formats_date() {
    let row = history_row(&strings(&["id", "GET", "example.com", "0"])).unwrap();
    assert_eq!(row, strings(&["id", "GET", "example.com", "Thu, 1 Jan 1970 00:00:00 +0000"]));
    let row = history_row(&strings(&["id", "GET", "h", "1700000000000"])).unwrap();
    assert_eq!(row[3], "Tue, 14 Nov 2023 22:13:20 +0000");
}

#[test]
fn history_row_refuses_bad_time() {
    assert!(history_row(&strings(&["id", "GET", "h", "abc"])).is_none());
    assert!(history_row(&strings(&["id", "GET", "h", "253402300800000"])).is_none());
    assert!(history_row(&strings(&["id", "GET", "h", "-62167219200001"])).is_none());
    assert!(history_row(&strings(&["id", "GET", "h"])).is_none());
    assert!(history_row(&strings(&["id", "GET", "h", "-62167219200000"])).is_some());
}

#[test]
fn history_rows_all_or_none() {
    let names = strings(&["a|||GET|||h|||0", "b|||POST|||h|||1000"]);
    assert!(history_rows_ok(&names, 0, 10));
    let rows = history_rows(&names, 0, 10);
    assert_eq!(rows.len(), 2);
    assert_eq!(rows[1][3], "Thu, 1 Jan 1970 00:00:01 +0000");
    let names = strings(&["a|||GET|||h|||0", "b|||POST|||h|||x"]);
    assert!(!history_rows_ok(&names, 0, 10));
    assert!(history_rows_ok(&names, 0, 0));
}

#[test]
fn console_carries_the_window() {
    let mut c = Config::new();
    assert!(matches!(console_step(&mut c, "help\n"), ConsoleAction::Help));
    assert!(matches!(
        console_step(&mut c, "history page +\n"),
        ConsoleAction::History { start: 10, end: 20, erase: false }
    ));
    assert!(matches!(console_step(&mut c, "request 1 scan\n"), ConsoleAction::Request(ref l) if l == "request 1 scan"));
    assert!(matches!(console_step(&mut c, "nothing\n"), ConsoleAction::Nothing));
    assert_eq!((c.history().start(), c.history().end()), (10, 20));
    assert!(matches!(
        console_step(&mut c, "  history page +"),
        ConsoleAction::History { start: 20, end: 30, erase: false }
    ));
    assert!(matches!(
        console_step(&mut c, "history erase"),
        ConsoleAction::History { start: 20, end: 30, erase: true }
    ));
}

#[test]
fn help_lists_commands() {
    let h = help_text();
    for c in ["help", "history", "history page +/-/int", "history erase", "request <id>", "request <id> send", "request <id> scan"] {
        assert!(h.contains(c));
    }
}

#[test]
fn refused_page_argument_is_reported() {
    let mut c = Config::new();
    assert_eq!(refused_page_arg("history page abc", &c), Some(("abc".to_string(), 1)));
    parse_line("history page 3", &mut c);
    assert_eq!(refused_page_arg("history page x1", &c), Some(("x1".to_string(), 3)));
    assert_eq!(refused_page_arg("history page 5", &c), None);
    assert_eq!(refused_page_arg("history page +", &c), None);
    assert_eq!(refused_page_arg("history page -", &c), None);
    assert_eq!(refused_page_arg("history page", &c), None);
    assert_eq!(refused_page_arg("history erase", &c), None);
    assert_eq!(refused_page_arg("history page 99999999999", &c), Some(("99999999999".to_string(), 3)));
    assert_eq!(parse_line("history page x1", &mut c), (20, 30, false));
}
