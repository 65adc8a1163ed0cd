use baan::engine::{
    infer_clipboard_target, infer_target_from_tag_name, intercept_clipboard_trigger,
    lookup_trigger, next_keyboard_event, parse_tag, reader_step, resolve_clipboard_command,
    resolve_tag_expansion, ClipboardTagError, CommandResult, CopyOutcome, KeyAction,
    KeyboardReaderMessage, KeyboardState, NextKeyboardEvent, ReaderStep, Received, TagCommand,
    TargetKind,
};
use baan::error::BaanError;
use baan::event::InputEvent;
use baan::keycode::{
    get_key_from_char, KEY_BACKSPACE, KEY_C, KEY_ENTER, KEY_LEFTCTRL, KEY_LEFTSHIFT, KEY_RIGHTCTRL,
    KEY_RIGHTSHIFT,
};
use baan::triggers::TriggerCommands;

// ---- parse_tag ----------------------------------------------------

#[test]
fn parse_tag_basic() {
    assert_eq!(
        parse_tag("greet:?world", ":?"),
        Some(("greet", Some("world")))
    );
}

#[test]
fn parse_tag_no_separator() {
    assert_eq!(parse_tag("greet world", ":?"), None);
}

#[test]
fn parse_tag_empty_tag_rejected() {
    assert_eq!(parse_tag(":?world", ":?"), None);
}

#[test]
fn parse_tag_empty_input() {
    assert_eq!(parse_tag("", ":?"), None);
}

#[test]
fn parse_tag_empty_arg_is_none() {
    assert_eq!(parse_tag("greet:?", ":?"), Some(("greet", None)));
}

#[test]
fn parse_tag_only_first_separator_used() {
    assert_eq!(
        parse_tag("greet:?a:?b", ":?"),
        Some(("greet", Some("a:?b")))
    );
}

#[test]
fn parse_tag_separator_within_arg_only() {
    // Separator appears only after a valid tag boundary once.
    assert_eq!(
        parse_tag("cmd:?run:?now", ":?"),
        Some(("cmd", Some("run:?now")))
    );
}

// ---- resolve_clipboard_command -------------------------------------

fn triggers(pairs: &[(&str, &[&str])]) -> TriggerCommands {
    let mut commands = TriggerCommands::new();
    for (k, v) in pairs {
        let command = v.iter().map(|s| s.to_string()).collect();
        assert!(commands.insert(k.to_string(), command));
    }
    commands
}

#[test]
fn resolve_clipboard_command_no_tag() {
    let commands = triggers(&[]);
    let result = resolve_clipboard_command(&commands, "no separator here");
    assert_eq!(result, Err(ClipboardTagError::NoTag));
}

#[test]
fn resolve_clipboard_command_unknown_tag() {
    let commands = triggers(&[("known", &["echo", "{}"])]);
    let result = resolve_clipboard_command(&commands, "unknown:?arg");
    assert!(matches!(result, Err(ClipboardTagError::UnknownTag { .. })));
}

#[test]
fn resolve_clipboard_command_empty_command_treated_as_unknown() {
    let commands = triggers(&[("empty", &[])]);
    let result = resolve_clipboard_command(&commands, "empty:?arg");
    assert!(matches!(result, Err(ClipboardTagError::UnknownTag { .. })));
}

#[test]
fn resolve_clipboard_command_trims_tag_name() {
    let commands = triggers(&[("greet", &["echo", "{}"])]);
    // parse_tag doesn't trim, but lookup does via tag_name.trim().
    let result = resolve_clipboard_command(&commands, " greet :?world");
    // tag_name here is " greet " (up to separator), trimmed to "greet"
    assert!(result.is_ok());
}

#[test]
fn resolve_clipboard_command_expands_successfully() {
    let commands = triggers(&[("greet", &["echo", "{}"])]);
    let result = resolve_clipboard_command(&commands, "greet:?world").unwrap();
    assert_eq!(result, vec!["echo", "world"]);
}

#[test]
fn resolve_clipboard_command_no_arg_skips_expansion() {
    let commands = triggers(&[("date", &["date", "+%Y%m%d"])]);
    let result = resolve_clipboard_command(&commands, "date:?").unwrap();
    assert_eq!(result, vec!["date", "+%Y%m%d"]);
}

#[test]
fn resolve_clipboard_command_no_arg_with_placeholder_errors() {
    let commands = triggers(&[("greet", &["echo", "{}"])]);
    let result: std::prelude::v1::Result<Vec<String>, ClipboardTagError> =
        resolve_clipboard_command(&commands, "greet:?");
    assert!(matches!(
        result,
        Err(ClipboardTagError::ExpansionFailed { .. })
    ));
}

#[test]
fn resolve_clipboard_command_expansion_failure_on_mismatch() {
    // Two placeholders, only one replacement available -> should error,
    // not silently drop or duplicate.
    let commands = triggers(&[("dup", &["echo", "{}", "{}"])]);
    let result: std::prelude::v1::Result<Vec<String>, ClipboardTagError> =
        resolve_clipboard_command(&commands, "dup:?value");
    assert!(matches!(
        result,
        Err(ClipboardTagError::ExpansionFailed { .. })
    ));
}

// ---- resolve_tag_expansion ------------------------------------------

#[test]
fn resolve_tag_expansion_no_content_returns_command_unchanged() {
    let command = vec!["date".to_string(), "+%s".to_string()];
    let result = resolve_tag_expansion(&command[0], &command[1..], None).unwrap();
    assert_eq!(result, command);
}

#[test]
fn resolve_tag_expansion_with_content_substitutes() {
    let command = ["echo".to_string(), "{}".to_string()];
    let result = resolve_tag_expansion(&command[0], &command[1..], Some("hello")).unwrap();
    assert_eq!(result, vec!["echo", "hello"]);
}

#[test]
fn resolve_tag_expansion_mismatch_errors() {
    let command = ["echo".to_string(), "{} {}".to_string()];
    let result = resolve_tag_expansion(&command[0], &command[1..], Some("only-one"));
    assert!(result.is_err());
}

// ---- infer_target_from_tag_name --------------------------------------

#[test]
fn uppercase_tag_name_targets_terminal() {
    assert_eq!(infer_target_from_tag_name("HI"), TargetKind::Terminal);
    assert_eq!(infer_target_from_tag_name("BASE64"), TargetKind::Terminal);
    assert_eq!(infer_target_from_tag_name("MY-TAG"), TargetKind::Terminal);
    assert_eq!(infer_target_from_tag_name("HI_2"), TargetKind::Terminal);
}

#[test]
fn any_lowercase_letter_targets_gui() {
    assert_eq!(infer_target_from_tag_name("hi"), TargetKind::Gui);
    assert_eq!(infer_target_from_tag_name("base64"), TargetKind::Gui);
    assert_eq!(infer_target_from_tag_name("my-tag"), TargetKind::Gui);
    // Mixed case counts as GUI too — only *no* lowercase means terminal.
    assert_eq!(infer_target_from_tag_name("Hello"), TargetKind::Gui);
    assert_eq!(infer_target_from_tag_name("HIi"), TargetKind::Gui);
}

// ---- infer_clipboard_target -------------------------------------------

#[test]
fn ctrl_shift_c_always_targets_terminal() {
    // The Ctrl+Shift+C gesture is the terminal copy shortcut regardless of
    // what (or whether) a tag is on the clipboard.
    assert_eq!(
        infer_clipboard_target(true, "name:?arg"),
        TargetKind::Terminal
    );
    assert_eq!(
        infer_clipboard_target(true, "NAME:?arg"),
        TargetKind::Terminal
    );
    assert_eq!(
        infer_clipboard_target(true, "no tag here"),
        TargetKind::Terminal
    );
}

#[test]
fn uppercase_name_targets_terminal_without_shift() {
    // Plain Ctrl+C with an all-caps tag name also implies terminal.
    assert_eq!(
        infer_clipboard_target(false, "NAME:?arg"),
        TargetKind::Terminal
    );
    assert_eq!(
        infer_clipboard_target(false, "BASE64:?x"),
        TargetKind::Terminal
    );
}

#[test]
fn lowercase_name_targets_gui_without_shift() {
    assert_eq!(infer_clipboard_target(false, "name:?arg"), TargetKind::Gui);
    assert_eq!(infer_clipboard_target(false, "nAmE:?arg"), TargetKind::Gui);
    // No tag at all → nothing to target; defaults to GUI.
    assert_eq!(
        infer_clipboard_target(false, "random text"),
        TargetKind::Gui
    );
}

// ---- lookup_trigger ---------------------------------------------------

#[test]
fn lookup_trigger_matches_case_insensitively() {
    let commands = triggers(&[("greet", &["echo", "{}"])]);
    let expected = vec!["echo".to_string(), "{}".to_string()];
    assert_eq!(lookup_trigger(&commands, "greet").unwrap(), &expected);
    assert_eq!(lookup_trigger(&commands, "GREET").unwrap(), &expected);
    assert_eq!(lookup_trigger(&commands, "GrEeT").unwrap(), &expected);
    assert!(lookup_trigger(&commands, "nope").is_none());
}

#[test]
fn resolve_clipboard_command_matches_uppercase_tag() {
    let commands = triggers(&[("greet", &["echo", "{}"])]);
    let result = resolve_clipboard_command(&commands, "GREET:?world").unwrap();
    assert_eq!(result, vec!["echo", "world"]);
}

// ---- copied text ---------------------------------------------------------------

#[test]
fn copied_tags_lead_to_commands() {
    let commands = triggers(&[("greet", &["echo", "{}"]), ("NOW", &["date"])]);
    let copied = |shifted: bool, text: &str| {
        intercept_clipboard_trigger(shifted, Ok(text.to_string()), &commands)
    };
    match copied(false, "greet:?wörld") {
        CopyOutcome::Run(command) => {
            assert_eq!(command.line, vec!["echo", "wörld"]);
            assert_eq!(command.target, TargetKind::Gui);
            assert_eq!(command.trigger_len, 12);
            match command.result("out".to_string()) {
                CommandResult::SetClipboard { output, target, trigger_len } => {
                    assert_eq!((output.as_str(), target, trigger_len), ("out", TargetKind::Gui, 12));
                }
                other => panic!("expected a clipboard result, got {other:?}"),
            }
        }
        other => panic!("expected a command, got {other:?}"),
    }
    match copied(true, "now:?") {
        CopyOutcome::Run(command) => {
            assert_eq!(command.line, vec!["date"]);
            assert_eq!(command.target, TargetKind::Terminal);
        }
        other => panic!("expected a command, got {other:?}"),
    }
    assert!(matches!(copied(false, " \n "), CopyOutcome::Blank));
    assert!(matches!(
        copied(false, "text"),
        CopyOutcome::Unresolved(ClipboardTagError::NoTag)
    ));
    assert!(matches!(
        intercept_clipboard_trigger(false, Err("no text".to_string()), &commands),
        CopyOutcome::Unreadable
    ));
}

#[test]
fn resolution_errors_carry_their_details() {
    let commands = triggers(&[("two", &["echo", "{}", "{}"]), ("one", &["{}"])]);
    assert_eq!(
        resolve_clipboard_command(&commands, " two :?x"),
        Err(ClipboardTagError::ExpansionFailed {
            tag_name: " two ".to_string(),
            detail: "Command error: Not enough replacement values: expected at least 2, got 1"
                .to_string(),
        })
    );
    assert_eq!(
        resolve_clipboard_command(&commands, "one:?"),
        Err(ClipboardTagError::ExpansionFailed {
            tag_name: "one".to_string(),
            detail: "Command requires an argument but none was provided".to_string(),
        })
    );
    assert_eq!(
        resolve_clipboard_command(&commands, "three:?x"),
        Err(ClipboardTagError::UnknownTag { tag_name: "three".to_string() })
    );
    assert_eq!(parse_tag("abc", ""), None);
    assert_eq!(parse_tag("é::x", "::"), Some(("é", Some("x"))));
}

// ---- typed text ------------------------------------------------------------------

fn event(code: u32, value: i32) -> InputEvent {
    InputEvent::key_event(code, value)
}

/// Types a text on the keyboard, with shift as needed, and returns the command
/// that the last character runs, if any. Nothing may run before that.
fn type_text(
    state: &mut KeyboardState,
    text: &str,
    commands: &TriggerCommands,
) -> Option<TagCommand> {
    let mut run = None;
    for c in text.chars() {
        assert!(run.is_none());
        let key = get_key_from_char(c).unwrap();
        let shift = event(KEY_LEFTSHIFT, key.is_shifted as i32);
        assert!(matches!(state.handle_event(&shift, commands), KeyAction::Nothing));
        match state.handle_event(&event(key.keycode, 1), commands) {
            KeyAction::Nothing => {}
            KeyAction::RunTag(command) => run = Some(command),
            other => panic!("unexpected {other:?}"),
        }
        let release = event(key.keycode, 0);
        assert!(matches!(state.handle_event(&release, commands), KeyAction::Nothing));
    }
    run
}

#[test]
fn typed_tags_run_their_commands() {
    let commands = triggers(&[("greet", &["echo", "-n", "{}"]), ("empty", &[])]);
    let mut state = KeyboardState::new();
    let command = type_text(&mut state, "so <greet>you</greet>", &commands).unwrap();
    assert_eq!(command.tag_name, "greet");
    assert_eq!(command.content.as_deref(), Some("you"));
    assert_eq!(command.tag_text, "<greet>you</greet>");
    assert_eq!(command.target, TargetKind::Gui);
    assert_eq!(command.line().unwrap(), vec!["echo", "-n", "you"]);
    match command.result("hi".to_string()) {
        CommandResult::ReplaceTag { tag_text, output, target } => {
            assert_eq!(tag_text, "<greet>you</greet>");
            assert_eq!((output.as_str(), target), ("hi", TargetKind::Gui));
        }
        other => panic!("expected a replacement, got {other:?}"),
    }
    let command = type_text(&mut state, "< GREET />", &commands).unwrap();
    assert_eq!(command.tag_name, "GREET");
    assert_eq!(command.tag_text, "< GREET />");
    assert_eq!(command.target, TargetKind::Terminal);
    assert_eq!(command.line().unwrap(), vec!["echo", "-n", "{}"]);
    assert!(type_text(&mut state, "<other/>", &commands).is_none());
    assert!(type_text(&mut state, "<empty/>", &commands).is_none());
}

#[test]
fn backspace_takes_back_a_typed_character() {
    let commands = triggers(&[("hi", &["echo"])]);
    let mut state = KeyboardState::new();
    assert!(type_text(&mut state, "<hix", &commands).is_none());
    let backspace = event(KEY_BACKSPACE, 1);
    assert!(matches!(state.handle_event(&backspace, &commands), KeyAction::Nothing));
    assert!(type_text(&mut state, "/>", &commands).is_some());
}

#[test]
fn other_keys_forget_what_was_typed() {
    let commands = triggers(&[("hi", &["echo"])]);
    let mut state = KeyboardState::new();
    assert!(type_text(&mut state, "<hi", &commands).is_none());
    assert!(matches!(
        state.handle_event(&event(KEY_ENTER, 1), &commands),
        KeyAction::Nothing
    ));
    assert!(type_text(&mut state, "/>", &commands).is_none());
}

#[test]
fn only_presses_reach_the_parser() {
    let commands = triggers(&[("hi", &["echo"])]);
    let mut state = KeyboardState::new();
    assert!(type_text(&mut state, "<hi", &commands).is_none());
    for ignored in [
        event(KEY_ENTER, 0),
        event(KEY_ENTER, 2),
        event(KEY_RIGHTCTRL, 1),
        event(KEY_RIGHTCTRL, 0),
        event(KEY_RIGHTSHIFT, 1),
        InputEvent::sync_event(),
    ] {
        assert!(matches!(state.handle_event(&ignored, &commands), KeyAction::Nothing));
    }
    assert!(type_text(&mut state, "/>", &commands).is_some());
}

#[test]
fn copy_gestures_are_intercepted() {
    let commands = triggers(&[]);
    let mut state = KeyboardState::new();
    assert!(matches!(
        state.handle_event(&event(KEY_C, 1), &commands),
        KeyAction::Nothing
    ));
    state.handle_event(&event(KEY_LEFTCTRL, 1), &commands);
    assert!(matches!(
        state.handle_event(&event(KEY_C, 1), &commands),
        KeyAction::CopyGesture { is_shifted: false }
    ));
    assert!(matches!(
        state.handle_event(&event(KEY_C, 2), &commands),
        KeyAction::Nothing
    ));
    state.handle_event(&event(KEY_LEFTSHIFT, 1), &commands);
    assert!(matches!(
        state.handle_event(&event(KEY_C, 1), &commands),
        KeyAction::CopyGesture { is_shifted: true }
    ));
    state.handle_event(&event(KEY_LEFTCTRL, 0), &commands);
    assert!(matches!(
        state.handle_event(&event(KEY_C, 1), &commands),
        KeyAction::Nothing
    ));
}

// ---- the keyboard reader -----------------------------------------------------

#[test]
fn the_reader_forwards_events_and_stops_on_errors() {
    let ev = event(KEY_C, 1);
    match reader_step(Ok(Some(ev))) {
        ReaderStep::Forward(KeyboardReaderMessage::Event(forwarded)) => assert_eq!(forwarded, ev),
        other => panic!("expected the event, got {other:?}"),
    }
    assert!(matches!(reader_step(Ok(None)), ReaderStep::Retry));
    match reader_step(Err(BaanError::Uid)) {
        ReaderStep::Stop(KeyboardReaderMessage::Error(text)) => {
            assert_eq!(text, "Error getting current user's UID");
        }
        other => panic!("expected the end, got {other:?}"),
    }
}

#[test]
fn the_loop_stops_when_the_reader_does() {
    let ev = event(KEY_C, 1);
    assert_eq!(
        next_keyboard_event(&Received::Message(KeyboardReaderMessage::Event(ev))),
        NextKeyboardEvent::Event(ev)
    );
    let error = KeyboardReaderMessage::Error("gone".to_string());
    assert_eq!(
        next_keyboard_event(&Received::Message(error)),
        NextKeyboardEvent::Stop
    );
    assert_eq!(next_keyboard_event(&Received::Timeout), NextKeyboardEvent::Pending);
    assert_eq!(next_keyboard_event(&Received::Disconnected), NextKeyboardEvent::Stop);
}
