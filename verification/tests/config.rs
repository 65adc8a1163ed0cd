use baan::config::{
    config_from_entries, default_config_path, line_number_at, load_config, parse_config_file,
    parse_error, read_config_file, unknown_settings, unknown_settings_in, ConfigValue, Scalar,
    Settings,
};
use baan::error::BaanError;
use baan::process::Timeout;

// ---- default_config_path: XDG resolution --------------------------

#[test]
fn default_config_path_prefers_xdg_config_home() {
    let path = default_config_path(Some(b"/tmp/custom-xdg"), Some(b"/home/tester"));
    assert_eq!(path, b"/tmp/custom-xdg/baan/baan.toml");
}

#[test]
fn default_config_path_falls_back_to_home_config() {
    let path = default_config_path(Some(b""), Some(b"/home/tester"));
    assert_eq!(path, b"/home/tester/.config/baan/baan.toml");
}

#[test]
fn default_config_path_ignores_empty_xdg_and_home() {
    // An empty `HOME` is treated as unset; the home directory then comes from
    // the passwd database, so the config still resolves under that home.
    let path = default_config_path(Some(b""), Some(b"/root"));
    assert!(path.ends_with(b".config/baan/baan.toml"), "got {path:?}");
    assert!(path.starts_with(b"/"), "expected absolute path, got {path:?}");
}

#[test]
fn nested_array_in_trigger_errors() {
    let content = r#"cmd = ["echo", ["a", "b"]]"#;
    let err = parse_config_file(content).unwrap_err();
    match err {
        BaanError::ParseConfigFile { detail, .. } => {
            assert!(detail.contains("array or table"));
            assert!(detail.contains("cmd"));
        }
        _ => panic!("Expected ParseConfigFile error"),
    }
}

#[test]
fn nested_table_in_trigger_errors() {
    let content = r#"cmd = ["echo", { a = 1 }]"#;
    let err = parse_config_file(content).unwrap_err();
    match err {
        BaanError::ParseConfigFile { detail, .. } => {
            assert!(detail.contains("array or table"));
        }
        _ => panic!("Expected ParseConfigFile error"),
    }
}

#[test]
fn integer_and_bool_array_elements_stringified() {
    // Unquoted scalars are valid TOML and should convert cleanly,
    // without going through Display-formatted TOML syntax.
    let content = r#"cmd = ["echo", 42, true, 3.5]"#;
    let (_, map) = parse_config_file(content).unwrap();
    assert_eq!(map.get("cmd").unwrap(), &vec!["echo", "42", "true", "3.5"]);
}

#[test]
fn default_settings_timeout_is_15_secs() {
    let (settings, _) = parse_config_file("[baan]\n").unwrap();
    assert_eq!(settings.command_timeout, Timeout::from_secs(15));
}

#[test]
fn command_timeout_secs_parsed_from_baan_table() {
    let (settings, _) = parse_config_file("[baan]\ncommand_timeout_secs = 30\n").unwrap();
    assert_eq!(settings.command_timeout, Timeout::from_secs(30));
}

#[test]
fn command_timeout_secs_rejects_non_positive_integer() {
    for bad in [
        "command_timeout_secs = 0",
        "command_timeout_secs = -1",
        "command_timeout_secs = \"30\"",
    ] {
        let err = parse_config_file(&format!("[baan]\n{bad}")).unwrap_err();
        match err {
            BaanError::ParseConfigFile { detail, .. } => {
                assert!(detail.contains("command_timeout_secs"), "got {detail}");
            }
            _ => panic!("Expected ParseConfigFile error"),
        }
    }
}

#[test]
fn parse_error_reports_line_number() {
    let content = "greet = [\"hi\"\ncmd = [\"missing bracket\"\n";
    let err = parse_config_file(content).unwrap_err();
    match err {
        BaanError::ParseConfigFile { line, .. } => {
            assert!(line > 0, "expected a non-zero line number, got {line}");
        }
        _ => panic!("Expected ParseConfigFile error"),
    }
}

// ---- values and complaints ---------------------------------------------------

fn complaint(content: &str) -> String {
    match parse_config_file(content).unwrap_err() {
        BaanError::ParseConfigFile { line, detail } => {
            assert_eq!(line, 0);
            detail
        }
        other => panic!("expected a complaint, got {other:?}"),
    }
}

#[test]
fn scalars_become_plain_text() {
    let content = "a = \"x y\"\nb = -7\nc = false\nd = 1979-05-27T07:32:00Z\ne = 6.0\nf = []\n";
    let (_, triggers) = parse_config_file(content).unwrap();
    let get = |name: &str| triggers.get(name).unwrap().clone();
    assert_eq!(get("a"), ["x y"]);
    assert_eq!(get("b"), ["-7"]);
    assert_eq!(get("c"), ["false"]);
    assert_eq!(get("d"), ["1979-05-27T07:32:00Z"]);
    assert_eq!(get("e"), ["6"]);
    assert!(get("f").is_empty());
    assert!(triggers.get("g").is_none());
}

#[test]
fn triggers_come_from_the_root_and_from_their_table() {
    let content = "hi = [\"echo\", \"hi\"]\n[triggers]\n\" bye \" = \"bye\"\n";
    let (settings, triggers) = parse_config_file(content).unwrap();
    assert_eq!(settings, Settings::default());
    assert_eq!(triggers.get("hi").unwrap(), &["echo", "hi"]);
    assert_eq!(triggers.get("bye").unwrap(), &["bye"]);
}

#[test]
fn complaints_name_what_is_wrong() {
    assert_eq!(complaint("baan = 1"), "[baan] must be a table");
    assert_eq!(complaint("triggers = []"), "[triggers] must be a table");
    assert_eq!(complaint("\"  \" = 1"), "Empty trigger key is not allowed");
    assert_eq!(
        complaint("cmd = [[1]]"),
        "trigger 'cmd' has a command argument that is an array or table; only strings, numbers, \
         booleans, and datetimes are allowed"
    );
    assert_eq!(
        complaint("[x]\na = 1"),
        "trigger 'x' has a command argument that is an array or table; only strings, numbers, \
         booleans, and datetimes are allowed"
    );
    assert_eq!(
        complaint("a = 1\n[triggers]\na = 2"),
        "Duplicate trigger 'a'"
    );
    assert_eq!(
        complaint("[baan]\nflush_delay_ms = -1"),
        "flush_delay_ms must be a non-negative integer"
    );
    assert_eq!(
        complaint("[baan]\nclipboard_read_delay_ms = \"1\""),
        "clipboard_read_delay_ms must be an integer"
    );
    assert_eq!(
        complaint("[baan]\nclipboard_write_delay_ms = 1.5"),
        "clipboard_write_delay_ms must be an integer"
    );
    assert_eq!(
        complaint("[baan]\ncommand_timeout_secs = 0"),
        "command_timeout_secs must be a positive integer"
    );
}

#[test]
fn triggers_that_differ_only_by_letter_case_are_duplicates() {
    assert_eq!(complaint("greet = 1\nGREET = 2"), "Duplicate trigger 'greet'");
    assert_eq!(
        complaint("[triggers]\nHi = 1\nhI = 2"),
        "Duplicate trigger 'hI'"
    );
}

#[test]
fn settings_are_read_and_unknown_ones_ignored() {
    let content = "[baan]\nflush_delay_ms = 1\nclipboard_read_delay_ms = 0\n\
                   clipboard_write_delay_ms = 3\ncommand_timeout_secs = 4\nother = \"x\"\n";
    let (settings, _) = parse_config_file(content).unwrap();
    assert_eq!(
        settings,
        Settings {
            flush_delay_ms: 1,
            clipboard_read_delay_ms: 0,
            clipboard_write_delay_ms: 3,
            command_timeout: Timeout::from_secs(4),
        }
    );
}

#[test]
fn reserved_keys_make_no_triggers() {
    let (_, triggers) = parse_config_file("[baan]\n[triggers]\nbaan = \"x\"\n").unwrap();
    assert_eq!(triggers.get("baan").unwrap(), &["x"]);
    assert!(triggers.get("triggers").is_none());
    let (_, triggers) = parse_config_file("[baan]\nother = 1\n").unwrap();
    assert!(triggers.get("baan").is_none());
}

#[test]
fn entries_are_taken_in_order() {
    let entries = [
        (
            "b".to_string(),
            ConfigValue::Array(vec![Some(Scalar::Integer(1)), None]),
        ),
        ("baan".to_string(), ConfigValue::Scalar(Scalar::Boolean(true))),
    ];
    match config_from_entries(&entries) {
        Err(BaanError::ParseConfigFile { detail, .. }) => assert!(detail.contains("trigger 'b'")),
        other => panic!("expected a complaint, got {other:?}"),
    }
    let entries = [
        (
            "triggers".to_string(),
            ConfigValue::Table(vec![(
                "t".to_string(),
                ConfigValue::Scalar(Scalar::Float("1.5".to_string())),
            )]),
        ),
        (
            "d".to_string(),
            ConfigValue::Scalar(Scalar::Datetime("1979-05-27".to_string())),
        ),
    ];
    let (_, triggers) = config_from_entries(&entries).unwrap();
    assert_eq!(triggers.get("t").unwrap(), &["1.5"]);
    assert_eq!(triggers.get("d").unwrap(), &["1979-05-27"]);
}

#[test]
fn text_that_is_not_toml_is_reported_with_its_line() {
    match parse_config_file("a = 1\nb = \n").unwrap_err() {
        BaanError::ParseConfigFile { line, detail } => {
            assert_eq!(line, 2);
            assert!(detail.starts_with("TOML parse error: "), "{detail}");
            assert!(detail.len() > "TOML parse error: ".len());
        }
        other => panic!("expected a complaint, got {other:?}"),
    }
    assert_eq!(line_number_at("a\nb\nc", 0), 1);
    assert_eq!(line_number_at("a\nb\nc", 2), 2);
    assert_eq!(line_number_at("a\nb\nc", 99), 3);
    assert_eq!(line_number_at("", 5), 1);
    assert_eq!(
        parse_error("x", None, "odd").message(),
        "Invalid trigger line: 0, detail: TOML parse error: odd"
    );
}

#[test]
fn files_that_cannot_be_read_are_reported() {
    let missing = || std::io::Error::new(std::io::ErrorKind::NotFound, "no file");
    let error = load_config("/etc/baan.toml", Err(missing())).unwrap_err();
    assert_eq!(error.message(), "Error opening '/etc/baan.toml': no file");
    assert!(read_config_file("x", Err(missing())).is_err());
    assert_eq!(read_config_file("x", Ok("a".to_string())).unwrap(), "a");
    let (_, triggers) = load_config("x", Ok("a = \"b\"".to_string())).unwrap();
    assert_eq!(triggers.get("a").unwrap(), &["b"]);
}

#[test]
fn without_a_home_the_path_is_at_the_root() {
    assert_eq!(default_config_path(None, None), b"/baan.toml");
    assert_eq!(
        default_config_path(Some(b"/x/"), None),
        b"/x/baan/baan.toml"
    );
}

// ---- unknown settings ---------------------------------------------

#[test]
fn unknown_settings_are_named_in_order() {
    let content = "[baan]\nzeta = 1\nflush_delay_ms = 5\nalpha = \"x\"\n\n[triggers]\nnow = \"date\"\n";
    assert_eq!(unknown_settings(content), vec!["alpha", "zeta"]);
    let (settings, _) = parse_config_file(content).unwrap();
    assert_eq!(settings.flush_delay_ms, 5);
    let known = "[baan]\nflush_delay_ms = 1\nclipboard_read_delay_ms = 1\nclipboard_write_delay_ms = 1\ncommand_timeout_secs = 1\n";
    assert!(unknown_settings(known).is_empty());
    for other in ["", "now = \"date\"", "baan = 1", "not toml"] {
        assert!(unknown_settings(other).is_empty(), "{other}");
    }
}

#[test]
fn unknown_settings_come_from_the_settings_table() {
    let member = |name: &str| (name.to_string(), ConfigValue::Scalar(Scalar::Integer(1)));
    let entries = vec![
        ("triggers".to_string(), ConfigValue::Table(vec![member("a")])),
        (
            "baan".to_string(),
            ConfigValue::Table(vec![member("b"), member("command_timeout_secs"), member("c")]),
        ),
    ];
    assert_eq!(unknown_settings_in(&entries), vec!["b", "c"]);
    assert!(unknown_settings_in(&entries[..1]).is_empty());
}
