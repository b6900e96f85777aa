use glorious_auto_polling_rate::config::{
    join_path, load_from, parse_process_list, process_list_path, protocol_path, rates,
    settings_file_text, settings_path, CommandTable, Config, Method, Parsed, Protocol, Settings,
    DEFAULT_PROCESS_LIST, SETTINGS_HEADER,
};

fn table(entries: &[(&str, &[u8])]) -> CommandTable {
    let mut t = CommandTable::new();
    for (k, v) in entries {
        t.insert(k.to_string(), v.to_vec());
    }
    t
}

fn config_with(commands: CommandTable) -> Config {
    let mut c = Config::default();
    c.protocol.commands = commands;
    c
}

#[test]
fn default_settings_values() {
    let s = Settings::default();
    assert_eq!(s.active_rate, 4000);
    assert_eq!(s.inactive_rate, 500);
    assert!(s.notifications);
    assert_eq!(s.poll_interval_ms, 2000);
    assert_eq!(Method::default(), Method::Feature);
}

#[test]
fn default_protocol_is_the_d2_pro_4k() {
    let p = Protocol::default();
    assert_eq!(p.vid, 0x258A);
    assert_eq!(p.pid, 0x2036);
    assert_eq!(p.usage_page, 0xFFFF);
    assert_eq!(p.usage, 0);
    assert_eq!(p.method, Method::Feature);
    assert_eq!(p.report_length, 0);
    assert_eq!(p.commands.len(), 6);
}

#[test]
fn default_protocol_offers_the_standard_rates() {
    let c = Config::default();
    assert_eq!(c.available_rates(), vec![125, 250, 500, 1000, 2000, 4000]);
    assert_eq!(rates(), vec![125, 250, 500, 1000, 2000, 4000]);
}

#[test]
fn builtin_commands_match_the_protocol_document() {
    let c = Config::default();
    let codes: [(u32, u8); 6] =
        [(125, 0x08), (250, 0x04), (500, 0x02), (1000, 0x01), (2000, 0x20), (4000, 0x40)];
    for (rate, code) in codes {
        let expected = [0x00, 0x00, 0x00, 0x02, 0x03, 0x01, 0x0A, 0x01, code, code];
        assert_eq!(c.command_for(rate), Some(&expected[..]));
    }
    assert_eq!(c.command_for(8000), None);
    assert_eq!(c.command_for(0), None);
}

#[test]
fn every_rate_with_a_command_is_offered() {
    let c = config_with(table(&[("1000", &[1, 2]), ("250", &[3]), ("500", &[])]));
    assert_eq!(c.available_rates(), vec![250, 1000]);
    assert!(c.command_for(1000).is_some());
    assert!(c.command_for(250).is_some());
    assert_eq!(c.command_for(500), None);
}

#[test]
fn keys_not_written_as_the_rate_are_not_offered() {
    let c = config_with(table(&[("+1000", &[1])]));
    assert_eq!(c.available_rates(), Vec::<u32>::new());
    assert_eq!(c.command_for(1000), None);
    let c = config_with(table(&[("01000", &[1]), ("1000", &[2])]));
    assert_eq!(c.available_rates(), vec![1000]);
    assert_eq!(c.command_for(1000), Some(&[2u8][..]));
    let c = config_with(table(&[("500", &[5]), ("0500", &[6])]));
    assert_eq!(c.available_rates(), vec![500]);
    assert_eq!(c.command_for(500), Some(&[5u8][..]));
}

#[test]
fn a_table_without_commands_offers_no_rates() {
    let c = config_with(CommandTable::new());
    assert_eq!(c.available_rates(), Vec::<u32>::new());
    assert_eq!(c.command_for(125), None);
    let c = config_with(table(&[("1000", &[]), ("fast", &[1]), ("-5", &[1]), ("4294967296", &[1])]));
    assert_eq!(c.available_rates(), Vec::<u32>::new());
    assert_eq!(c.command_for(1000), None);
}

#[test]
fn the_menu_only_offers_rates_it_has_commands_for() {
    let tables = [
        table(&[("1000", &[1]), ("0500", &[1]), ("250", &[]), ("8000", &[8]), ("x", &[1])]),
        table(&[("4000", &[4]), ("125", &[1]), ("2000", &[2])]),
        CommandTable::new(),
    ];
    for t in tables {
        let c = config_with(t);
        let offered = c.available_rates();
        for r in &offered {
            assert!(c.command_for(*r).is_some());
        }
        for w in offered.windows(2) {
            assert!(w[0] < w[1]);
        }
        for r in [0u32, 125, 250, 500, 1000, 2000, 4000, 8000] {
            assert_eq!(offered.contains(&r), c.command_for(r).is_some());
        }
    }
}

#[test]
fn available_rates_are_sorted() {
    let c = config_with(table(&[("8000", &[1]), ("4294967295", &[1]), ("0", &[1]), ("125", &[1])]));
    assert_eq!(c.available_rates(), vec![0, 125, 8000, 4294967295]);
}

#[test]
fn insert_replaces_an_existing_key() {
    let mut t = table(&[("1000", &[1]), ("500", &[2])]);
    t.insert("1000".to_string(), vec![9, 9]);
    assert_eq!(t.len(), 2);
    let (k, v) = t.entry(0);
    assert_eq!(k, "1000");
    assert_eq!(v, &vec![9, 9]);
    assert_eq!(t.get(&"500".to_string()), Some(&vec![2]));
    assert_eq!(t.get(&"250".to_string()), None);
    let copy = t.clone();
    assert_eq!(copy.len(), 2);
    assert_eq!(copy.get(&"1000".to_string()), Some(&vec![9, 9]));
}

#[test]
fn default_process_list_parses() {
    assert_eq!(parse_process_list(DEFAULT_PROCESS_LIST), vec!["cs2.exe", "valorant.exe", "overwatch.exe"]);
}

#[test]
fn process_list_trims_lowercases_and_skips_comments() {
    let text = "  CS2.EXE \r\n# comment\n\n   # indented comment\n\tValorant.exe\u{3000}\nlast";
    assert_eq!(parse_process_list(text), vec!["cs2.exe", "valorant.exe", "last"]);
    assert_eq!(parse_process_list(""), Vec::<String>::new());
    assert_eq!(parse_process_list("\n\n"), Vec::<String>::new());
    assert_eq!(parse_process_list("a#b\r"), vec!["a#b"]);
    assert_eq!(parse_process_list("ÄBC.exe"), vec!["Äbc.exe"]);
}

#[test]
fn paths_join_like_windows() {
    assert_eq!(join_path("C:\\Tools", "x.cfg"), "C:\\Tools\\x.cfg");
    assert_eq!(join_path("C:\\", "x.cfg"), "C:\\x.cfg");
    assert_eq!(join_path("C:", "x.cfg"), "C:x.cfg");
    assert_eq!(join_path("", "x.cfg"), "x.cfg");
    assert_eq!(join_path("a/", "x.cfg"), "a/x.cfg");
    assert_eq!(join_path(".", "x.cfg"), ".\\x.cfg");
    assert_eq!(process_list_path("D:\\G"), "D:\\G\\processlist.cfg");
    assert_eq!(settings_path("D:\\G"), "D:\\G\\settings.toml");
    assert_eq!(protocol_path("D:\\G"), "D:\\G\\protocol.toml");
}

#[test]
fn settings_file_has_the_header() {
    let text = settings_file_text("active_rate = 4000\n");
    assert_eq!(
        text,
        "# Written by the tray menu. Set these from the tray icon rather than\n# by hand. The programs to watch live in processlist.cfg.\n\nactive_rate = 4000\n"
    );
    assert!(text.starts_with(SETTINGS_HEADER));
}

#[test]
fn load_substitutes_defaults_and_reports_problems() {
    let (c, problems) = load_from(
        Parsed::Invalid("bad key".to_string()),
        Err("access is denied".to_string()),
        Parsed::Invalid("expected a table".to_string()),
    );
    assert_eq!(c.settings, Settings::default());
    assert!(c.programs.is_empty());
    assert_eq!(c.protocol.vid, 0x258A);
    assert_eq!(
        problems,
        vec![
            "settings.toml is not valid: bad key".to_string(),
            "processlist.cfg could not be read: access is denied".to_string(),
            "protocol.toml is not valid: expected a table".to_string()
        ]
    );
}

#[test]
fn unreadable_files_are_reported() {
    let (c, problems) = load_from(
        Parsed::Unreadable("stream did not contain valid UTF-8".to_string()),
        Ok("a.exe".to_string()),
        Parsed::Unreadable("in use".to_string()),
    );
    assert_eq!(c.settings, Settings::default());
    assert_eq!(c.programs, vec!["a.exe"]);
    assert_eq!(c.protocol.pid, 0x2036);
    assert_eq!(
        problems,
        vec![
            "settings.toml could not be read: stream did not contain valid UTF-8".to_string(),
            "protocol.toml could not be read: in use".to_string()
        ]
    );
}

#[test]
fn load_takes_what_the_files_gave() {
    let s = Settings { active_rate: 1000, inactive_rate: 125, notifications: false, poll_interval_ms: 500 };
    let mut p = Protocol::default();
    p.pid = 0x2035;
    let (c, problems) = load_from(Parsed::Valid(s), Ok("A.exe\n".to_string()), Parsed::Valid(p));
    assert!(problems.is_empty());
    assert_eq!(c.settings, s);
    assert_eq!(c.programs, vec!["a.exe"]);
    assert_eq!(c.protocol.pid, 0x2035);
    let (c, problems) = load_from(Parsed::Absent, Ok(String::new()), Parsed::Absent);
    assert!(problems.is_empty());
    assert_eq!(c.settings, Settings::default());
    assert!(c.programs.is_empty());
}

#[test]
fn a_parsed_list_written_back_parses_the_same() {
    for text in ["  CS2.EXE \r\n# c\n\nValorant.exe\r\n", "", "\n\n", "a#b\r", "ÄBC.exe\nx"] {
        let names = parse_process_list(text);
        assert_eq!(parse_process_list(&names.join("\n")), names);
    }
}
