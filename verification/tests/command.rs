use baan::command::{
    expand_placeholders, has_placeholders, is_shell_command, sanitize_value, shell_script_index,
    substitute_shell_placeholders,
};
use baan::error::BaanError;
use baan::process::{run_command, run_command_default, RunEvent, RunStage, Timeout};

// ---- expand_placeholders: shell script argument ------------------------

#[test]
fn expand_placeholders_bare_becomes_quoted_positional_param() {
    let args = ["sh".to_string(), "-c".to_string(), "echo {}".to_string()];
    let result = expand_placeholders(&args[0], &args[1..], &["hello world"]).unwrap();
    assert_eq!(result[2], "echo \"$1\"");
    assert_eq!(result[3], "baan");
    assert_eq!(result[4], "hello world");
}

#[test]
fn expand_placeholders_double_quoted_placeholder_uses_bare_dollar() {
    let args = [
        "sh".to_string(),
        "-c".to_string(),
        "echo \"{}\"".to_string(),
    ];
    let result = expand_placeholders(&args[0], &args[1..], &["$(rm -rf /)"]).unwrap();
    assert_eq!(result[2], "echo \"$1\"");
    assert_eq!(result[4], "$(rm -rf /)");
}

#[test]
fn expand_placeholders_json_style_single_quoted_placeholder() {
    let args = [
        "sh".to_string(),
        "-c".to_string(),
        r#"curl localhost:8008 -d '{"first_name":"{}"}'"#.to_string(),
    ];
    let raw = "Robert'); DROP TABLE users;--";
    let sanitized = sanitize_value(raw);
    let result = expand_placeholders(&args[0], &args[1..], &[raw]).unwrap();
    assert_eq!(
        result[2],
        r#"curl localhost:8008 -d '{"first_name":"'"$1"'"}'"#
    );
    // The single quote is stripped by sanitize_value
    assert_eq!(result[4], sanitized);
    assert_eq!(result[4], "Robert); DROP TABLE users;--");
}

#[test]
fn expand_placeholders_multiple_placeholders_distinct_values() {
    let args = [
        "bash".to_string(),
        "-c".to_string(),
        "echo {} | grep {}".to_string(),
    ];
    let result =
        expand_placeholders(&args[0], &args[1..], &["test; rm -rf /", "needle"]).unwrap();
    assert_eq!(result[2], "echo \"$1\" | grep \"$2\"");
    assert_eq!(result[3], "baan");
    assert_eq!(result[4], "test; rm -rf /");
    assert_eq!(result[5], "needle");
}

#[test]
fn expand_placeholders_reuses_templates_own_dollar_zero() {
    let args = [
        "sh".to_string(),
        "-c".to_string(),
        "echo {}".to_string(),
        "plain arg".to_string(),
    ];
    let result = expand_placeholders(&args[0], &args[1..], &["$(rm -rf /)"]).unwrap();
    assert_eq!(result[2], "echo \"$1\"");
    assert_eq!(result[3], "plain arg");
    assert_eq!(result[4], "$(rm -rf /)");
}

#[test]
fn expand_placeholders_no_escape_for_direct_command() {
    let args = ["echo".to_string(), "{}".to_string()];
    let result = expand_placeholders(&args[0], &args[1..], &["hello world"]).unwrap();
    assert_eq!(result[1], "hello world");
}

#[test]
fn expand_placeholders_no_escape_for_direct_command_full_path() {
    let args = ["/usr/bin/echo".to_string(), "{}".to_string()];
    let result = expand_placeholders(&args[0], &args[1..], &["hello world"]).unwrap();
    assert_eq!(result[1], "hello world");
}

#[test]
fn expand_placeholders_fewer_value_options_errors() {
    let args = ["sh".to_string(), "-c".to_string(), "echo {} {}".to_string()];
    let result = expand_placeholders(&args[0], &args[1..], &["a"]);
    assert!(result.is_err());
}

#[test]
fn expand_placeholders_more_value_options_errors() {
    let args = ["echo".to_string(), "{}".to_string()];
    let result = expand_placeholders(&args[0], &args[1..], &["a", "b"]);
    assert!(result.is_err());
}

#[test]
fn expand_placeholders_no_placeholders_no_value_options_ok() {
    let args = vec!["echo".to_string(), "hello".to_string()];
    let result = expand_placeholders(&args[0], &args[1..], &[]).unwrap();
    assert_eq!(result, args);
}

#[test]
fn has_placeholders_detects_any_occurrence() {
    assert!(has_placeholders(&["echo".to_string(), "{}".to_string()]));
    assert!(has_placeholders(&[
        "sh".to_string(),
        "-c".to_string(),
        "echo {}".to_string()
    ]));
    assert!(!has_placeholders(&[
        "date".to_string(),
        "+%Y%m%d".to_string()
    ]));
}

// ---- run_command --------------------------------------------------------

#[test]
fn run_command_empty_command_returns_error() {
    let timeout = Timeout { secs: 5, nanos: 0 };
    assert!(run_command("", &[], timeout).is_err());
}

#[test]
fn run_command_default_uses_default_timeout() {
    let run = run_command_default("echo", &["hi".to_string()]).unwrap();
    assert_eq!(run.timeout, Timeout { secs: 15, nanos: 0 });
    assert_eq!(run.command, "echo");
    assert_eq!(run.args, vec!["hi".to_string()]);
    let run = run
        .step(RunEvent::Spawned)
        .step(RunEvent::Exited {
            success: true,
            status: "exit status: 0".to_string(),
        })
        .step(RunEvent::Joined("hi\n".to_string()))
        .step(RunEvent::Joined(String::new()));
    match run.stage {
        RunStage::Done { result } => assert_eq!(result.unwrap().trim(), "hi"),
        other => panic!("expected the run to be over, got {other:?}"),
    }
}

// ---- values with special characters ---------------------------------------

/// Expands `script` in a shell and checks that the shell gets the rewritten
/// script and the sanitized value as an argument of its own.
fn assert_shell_gets(script: &str, value: &str, rewritten: &str) {
    let args = ["sh".to_string(), "-c".to_string(), script.to_string()];
    let expanded = expand_placeholders(&args[0], &args[1..], &[value]).unwrap();
    let sanitized = sanitize_value(value);
    assert_eq!(expanded, vec!["sh", "-c", rewritten, "baan", sanitized.as_str()]);
    assert!(!sanitized.contains(['\0', '\n', '\r', '"', '\'']));
}

#[test]
fn run_command_bare_placeholder_value_is_never_executed_as_shell_code() {
    assert_shell_gets(
        "printf '%s' {}",
        "$(touch /tmp/marker); `id`; a'b\"c",
        "printf '%s' \"$1\"",
    );
}

#[test]
fn run_command_json_style_placeholder_prevents_injection() {
    assert_shell_gets(
        r#"printf '%s' '{"first_name":"{}"}'"#,
        "x\"}'; touch /tmp/marker; echo '",
        r#"printf '%s' '{"first_name":"'"$1"'"}'"#,
    );
}

#[test]
fn run_command_value_with_newline_bare_placeholder() {
    let value = "line1\nline2\nline3";
    assert_eq!(sanitize_value(value), "line1line2line3");
    assert_shell_gets("printf '%s' {}", value, "printf '%s' \"$1\"");
}

#[test]
fn run_command_value_with_newline_double_quoted_placeholder() {
    assert_shell_gets(r#"printf '%s' "{}""#, "line1\nline2", r#"printf '%s' "$1""#);
}

#[test]
fn run_command_value_with_newline_single_quoted_placeholder() {
    assert_shell_gets(r#"printf '%s' '{}'"#, "line1\nline2", r#"printf '%s' ''"$1"''"#);
}

#[test]
fn run_command_value_with_double_quotes_bare_placeholder() {
    let value = r#"hello "world" "test""#;
    assert_eq!(sanitize_value(value), "hello world test");
    assert_shell_gets("printf '%s' {}", value, "printf '%s' \"$1\"");
}

#[test]
fn run_command_value_with_double_quotes_double_quoted_placeholder() {
    assert_shell_gets(r#"printf '%s' "{}""#, r#"a "b" "c" d"#, r#"printf '%s' "$1""#);
}

#[test]
fn run_command_value_with_double_quotes_single_quoted_placeholder() {
    assert_shell_gets(r#"printf '%s' '{}'"#, r#"hello "world""#, r#"printf '%s' ''"$1"''"#);
}

#[test]
fn run_command_value_with_mixed_special_chars() {
    let value = "line1\nline2\"quotes\" 'single' $HOME `whoami` \\backslash; semicolon";
    assert_eq!(
        sanitize_value(value),
        "line1line2quotes single $HOME `whoami` \\backslash; semicolon"
    );
    assert_shell_gets("printf '%s' {}", value, "printf '%s' \"$1\"");
}

#[test]
fn run_command_value_with_newline_and_double_quote_in_json() {
    assert_shell_gets(
        r#"printf '%s' '{"msg":"{}"}'"#,
        "hello\nworld\"escaped",
        r#"printf '%s' '{"msg":"'"$1"'"}'"#,
    );
}

#[test]
fn run_command_non_shell_value_with_newline() {
    let args = ["printf".to_string(), "%s".to_string(), "{}".to_string()];
    let expanded = expand_placeholders(&args[0], &args[1..], &["line1\nline2"]).unwrap();
    assert_eq!(expanded, vec!["printf", "%s", "line1line2"]);
}

#[test]
fn run_command_non_shell_value_with_double_quotes() {
    let args = ["printf".to_string(), "%s".to_string(), "{}".to_string()];
    let expanded = expand_placeholders(&args[0], &args[1..], &[r#"hello "world" test"#]).unwrap();
    assert_eq!(expanded, vec!["printf", "%s", "hello world test"]);
}

// ---- expansion: corners ------------------------------------------------------

fn detail_of(error: BaanError) -> String {
    match error {
        BaanError::Command { detail } => detail,
        other => panic!("expected a command error, got {other:?}"),
    }
}

fn texts(words: &[&str]) -> Vec<String> {
    words.iter().map(|word| word.to_string()).collect()
}

#[test]
fn shortage_and_surplus_are_counted() {
    let options = texts(&["{}", "{}{}"]);
    let error = expand_placeholders("echo", &options, &["a"]).unwrap_err();
    assert_eq!(
        detail_of(error),
        "Not enough replacement values: expected at least 2, got 1"
    );
    let error = expand_placeholders("echo", &options, &["a", "b", "c", "d"]).unwrap_err();
    assert_eq!(
        detail_of(error),
        "4 replacement value(s) provided but only 3 placeholder(s) found"
    );
    let line = expand_placeholders("echo", &options, &["a", "b", "c"]).unwrap();
    assert_eq!(line, vec!["echo", "a", "bc"]);
}

#[test]
fn escaped_braces_are_no_placeholders_in_scripts() {
    let options = texts(&["-c", r"echo \{} {}"]);
    let line = expand_placeholders("/bin/bash", &options, &["v"]).unwrap();
    assert_eq!(line, vec!["/bin/bash", "-c", r#"echo \{} "$1""#, "baan", "v"]);
    // Single quotes keep a backslash as it is.
    let options = texts(&["-c", r"echo '\{}'"]);
    let line = expand_placeholders("/bin/bash", &options, &["v"]).unwrap();
    assert_eq!(line[2], r#"echo '\'"$1"''"#);
}

#[test]
fn a_trailing_backslash_is_kept() {
    let options = texts(&["-c", r"echo {} \"]);
    let line = expand_placeholders("sh", &options, &["v"]).unwrap();
    assert_eq!(line[2], r#"echo "$1" \"#);
}

#[test]
fn plain_arguments_ignore_quoting() {
    let options = texts(&[r"\{}", "'{}'"]);
    let line = expand_placeholders("echo", &options, &["a", "b"]).unwrap();
    assert_eq!(line, vec!["echo", r"\a", "'b'"]);
}

#[test]
fn only_the_first_script_of_a_shell_is_rewritten() {
    let options = texts(&["-c", "echo {}", "-c", "{}"]);
    let line = expand_placeholders("zsh", &options, &["a", "b"]).unwrap();
    assert_eq!(line, vec!["zsh", "-c", "echo \"$1\"", "-c", "a", "b"]);
}

#[test]
fn script_values_stand_before_the_other_arguments() {
    let options = texts(&["-c", "echo {}", "zero", "one"]);
    let line = expand_placeholders("sh", &options, &["v"]).unwrap();
    assert_eq!(line, vec!["sh", "-c", "echo \"$1\"", "zero", "v", "one"]);
    let options = texts(&["-c", "echo {} {}", "{}", "one", "{}"]);
    let line = expand_placeholders("sh", &options, &["a", "b", "c", "d"]).unwrap();
    assert_eq!(
        line,
        vec!["sh", "-c", "echo \"$1\" \"$2\"", "c", "a", "b", "one", "d"]
    );
    // A script without placeholders leaves the arguments as they are.
    let options = texts(&["-c", "echo $1", "zero", "{}"]);
    let line = expand_placeholders("sh", &options, &["v"]).unwrap();
    assert_eq!(line, vec!["sh", "-c", "echo $1", "zero", "v"]);
}

#[test]
fn parameters_with_two_digits_stand_in_braces() {
    let script = "echo {} {} {} {} {} {} {} {} {} {} '{}' \"{}\"";
    let values = ["1", "2", "3", "4", "5", "6", "7", "8", "9", "10", "11", "12"];
    let line = expand_placeholders("sh", &texts(&["-c", script]), &values).unwrap();
    assert_eq!(
        line[2],
        "echo \"$1\" \"$2\" \"$3\" \"$4\" \"$5\" \"$6\" \"$7\" \"$8\" \"$9\" \"${10}\" ''\"${11}\"'' \"${12}\""
    );
    assert_eq!(line[3], "baan");
    assert_eq!(line[4..], values);
}

#[test]
fn a_start_beyond_the_values_falls_short() {
    let mut used = 3;
    let error = substitute_shell_placeholders("{}", &["x"], &mut used).unwrap_err();
    assert_eq!(
        detail_of(error),
        "Not enough replacement values: expected at least 4, got 1"
    );
    assert_eq!(used, 3);
    let (text, values) = substitute_shell_placeholders("echo", &["x"], &mut used).unwrap();
    assert_eq!(text, "echo");
    assert!(values.is_empty());
    assert_eq!(used, 3);
}

#[test]
fn rewriting_does_not_depend_on_the_values() {
    for start in 0..4 {
        let mut first_used = start;
        let mut second_used = start;
        let script = "echo {} '{}'";
        let first = substitute_shell_placeholders(script, &["a", "b", "c"], &mut first_used);
        let second = substitute_shell_placeholders(script, &["$1", "\"", "{}"], &mut second_used);
        assert_eq!(first_used, second_used);
        match (first, second) {
            (Ok((one, values)), Ok((other, others))) => {
                assert_eq!(one, other);
                assert_eq!(values.len(), others.len());
            }
            (Err(_), Err(_)) => assert!(start > 1),
            _ => panic!("one start, two outcomes"),
        }
    }
}

#[test]
fn options_before_the_script_take_their_values_first() {
    let options = texts(&["-o", "{}", "-c", "echo {}"]);
    let line = expand_placeholders("dash", &options, &["x", "y"]).unwrap();
    assert_eq!(
        line,
        vec!["dash", "-o", "x", "-c", "echo \"$1\"", "baan", "y"]
    );
}

#[test]
fn a_shell_without_a_script_is_a_plain_command() {
    let line = expand_placeholders("sh", &texts(&["run.sh", "{}"]), &["v"]).unwrap();
    assert_eq!(line, vec!["sh", "run.sh", "v"]);
    let line = expand_placeholders("sh", &texts(&["{}", "-c"]), &["v"]).unwrap();
    assert_eq!(line, vec!["sh", "v", "-c"]);
}

#[test]
fn shells_are_known_by_their_file_name() {
    for shell in ["sh", "bash", "zsh", "dash", "ash", "ksh", "mksh", "/bin/sh", "./sh", "/bin/sh/"] {
        assert!(is_shell_command(shell), "{shell}");
    }
    for other in ["", "fish", "/bin/shell", "sh/..", "shh", "/"] {
        assert!(!is_shell_command(other), "{other}");
    }
}

#[test]
fn the_script_stands_behind_the_first_dash_c() {
    assert_eq!(shell_script_index(&texts(&["-x", "-c", "a", "-c"])), Some(2));
    assert_eq!(shell_script_index(&texts(&["-c"])), Some(1));
    assert_eq!(shell_script_index(&texts(&["-x", "c"])), None);
}

#[test]
fn substitution_continues_where_it_was() {
    let mut used = 1;
    let (text, values) =
        substitute_shell_placeholders("{} '{}' \"{}\"", &["x", "a'", "b", "c"], &mut used).unwrap();
    assert_eq!(text, r#""$1" ''"$2"'' "$3""#);
    assert_eq!(values, vec!["a", "b", "c"]);
    assert_eq!(used, 4);
    let error = substitute_shell_placeholders("{}", &["x"], &mut used.min(1)).unwrap_err();
    assert_eq!(
        detail_of(error),
        "Not enough replacement values: expected at least 2, got 1"
    );
}

#[test]
fn the_script_is_the_same_for_all_values() {
    let options = texts(&["-c", "echo {} | grep '{}'"]);
    let first = expand_placeholders("sh", &options, &["a", "b"]).unwrap();
    let second = expand_placeholders("sh", &options, &["$(id)", "; rm x"]).unwrap();
    assert_eq!(first[2], second[2]);
    assert_eq!(second[3..], ["baan", "$(id)", "; rm x"]);
}

#[test]
fn sanitizing_twice_is_sanitizing_once() {
    let value = "a\0b\r\nc\"d'e";
    assert_eq!(sanitize_value(value), "abcde");
    assert_eq!(sanitize_value(&sanitize_value(value)), "abcde");
    assert_eq!(sanitize_value("plain text"), "plain text");
}
