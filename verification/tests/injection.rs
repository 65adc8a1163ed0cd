use baan::clipboard::ClipboardOps;
use baan::config::Settings;
use baan::device::KeyInjector;
use baan::engine::{CommandResult, TargetKind};
use baan::error::{BaanError, Result};
use baan::injection::{
    apply_command_result, handle_replace_tag, handle_set_clipboard, inject_replacement, Action, Failure,
    Injection, Outcome,
};
use baan::process::Timeout;
use std::cell::RefCell;

/// Applies an injection to its end, without the pauses.
fn apply<C: ClipboardOps, V: KeyInjector>(
    mut injection: Injection,
    clipboard: &mut C,
    injector: &mut V,
) -> Injection {
    while injection.run(clipboard, injector).is_some() {}
    injection
}

// ---- Fakes for ClipboardOps / KeyInjector ----------------------------

#[derive(Default)]
struct FakeClipboard {
    text: Option<String>,
    get_fails: bool,
    set_fails: bool,
    history: Vec<String>,
}

impl FakeClipboard {
    fn with_text(text: &str) -> Self {
        Self {
            text: Some(text.to_string()),
            ..Default::default()
        }
    }
}

impl ClipboardOps for FakeClipboard {
    fn get_text(&mut self) -> std::result::Result<String, String> {
        if self.get_fails {
            return Err("simulated get failure".to_string());
        }
        self.text.clone().ok_or_else(|| "empty".to_string())
    }
    fn set_text(&mut self, text: &str) -> std::result::Result<(), String> {
        if self.set_fails {
            return Err("simulated set failure".to_string());
        }
        self.text = Some(text.to_string());
        self.history.push(text.to_string());
        Ok(())
    }
}

#[derive(Default)]
struct FakeKeyInjector {
    calls: Vec<String>,
    fail_on: Option<&'static str>,
}

impl FakeKeyInjector {
    fn failing_at(call: &'static str) -> Self {
        Self {
            fail_on: Some(call),
            ..Default::default()
        }
    }

    fn maybe_fail(&mut self, name: &str) -> Result<()> {
        self.calls.push(name.to_string());
        if self.fail_on == Some(name) {
            return Err(BaanError::Write {
                detail: "simulated failure".to_string(),
                source: std::io::Error::other("boom"),
            });
        }
        Ok(())
    }
}

impl KeyInjector for FakeKeyInjector {
    fn select_line(&mut self) -> Result<()> {
        self.maybe_fail("select_line")
    }
    fn send_ctrl_c(&mut self) -> Result<()> {
        self.maybe_fail("send_ctrl_c")
    }
    fn send_ctrl_shift_c(&mut self) -> Result<()> {
        self.maybe_fail("send_ctrl_shift_c")
    }
    fn send_ctrl_v(&mut self) -> Result<()> {
        self.maybe_fail("send_ctrl_v")
    }
    fn send_ctrl_shift_v(&mut self) -> Result<()> {
        self.maybe_fail("send_ctrl_shift_v")
    }
    fn send_string(&mut self, _s: &str) -> Result<()> {
        self.maybe_fail("send_string")
    }
    fn position_at_tag(&mut self, _pos: usize, _len: usize) -> Result<()> {
        self.maybe_fail("position_at_tag")
    }
    fn send_backspace(&mut self, n: usize) -> Result<()> {
        self.calls.push(format!("send_backspace({n})"));
        if self.fail_on == Some("send_backspace") {
            return Err(BaanError::Write {
                detail: "simulated failure".to_string(),
                source: std::io::Error::other("boom"),
            });
        }
        Ok(())
    }
}

fn test_settings() -> Settings {
    Settings {
        flush_delay_ms: 0,
        clipboard_read_delay_ms: 0,
        clipboard_write_delay_ms: 0,
        command_timeout: Timeout::from_secs(15),
    }
}

// ---- handle_set_clipboard --------------------------------------------

#[test]
fn handle_set_clipboard_trims_and_pastes() {
    let mut clipboard = FakeClipboard::default();
    let mut injector = FakeKeyInjector::default();
    let settings = test_settings();

    let injection = handle_set_clipboard("result\n\n".to_string(), TargetKind::Gui, 9, &settings);
    apply(injection, &mut clipboard, &mut injector);

    assert_eq!(clipboard.history.as_slice(), ["result"]);
    // GUI target ignores trigger_len — no backspace is sent.
    assert_eq!(injector.calls.as_slice(), ["send_ctrl_v"]);
}

#[test]
fn handle_set_clipboard_does_not_paste_if_set_fails() {
    let mut clipboard = FakeClipboard {
        set_fails: true,
        ..Default::default()
    };
    let mut injector = FakeKeyInjector::default();
    let settings = test_settings();

    let injection = handle_set_clipboard("result".to_string(), TargetKind::Gui, 9, &settings);
    apply(injection, &mut clipboard, &mut injector);

    assert!(
        injector.calls.is_empty(),
        "must not paste after a failed clipboard write"
    );
}

// ---- inject_replacement ----------------------------------------------

#[test]
fn inject_replacement_ascii_types_directly() {
    let mut clipboard = FakeClipboard::default();
    let mut injector = FakeKeyInjector::default();
    let settings = test_settings();

    let injection = inject_replacement("hello world", TargetKind::Gui, &settings);
    let used_clipboard = apply(injection, &mut clipboard, &mut injector)
        .replacement_result()
        .unwrap();

    assert!(!used_clipboard);
    assert_eq!(injector.calls.as_slice(), ["send_string"]);
    assert!(
        clipboard.history.is_empty(),
        "ASCII path must not touch the clipboard"
    );
}

#[test]
fn inject_replacement_non_ascii_uses_clipboard() {
    let mut clipboard = FakeClipboard::default();
    let mut injector = FakeKeyInjector::default();
    let settings = test_settings();

    let injection = inject_replacement("héllo", TargetKind::Gui, &settings);
    let used_clipboard = apply(injection, &mut clipboard, &mut injector)
        .replacement_result()
        .unwrap();

    assert!(used_clipboard);
    assert_eq!(clipboard.history.as_slice(), ["héllo"]);
    assert_eq!(injector.calls.as_slice(), ["send_ctrl_v"]);
}

#[test]
fn inject_replacement_propagates_send_string_failure() {
    let mut clipboard = FakeClipboard::default();
    let mut injector = FakeKeyInjector::failing_at("send_string");
    let settings = test_settings();

    let injection = inject_replacement("plain text", TargetKind::Gui, &settings);
    let result = apply(injection, &mut clipboard, &mut injector).replacement_result();
    assert!(result.is_err());
}

// ---- handle_replace_tag ------------------------------------------------

#[test]
fn handle_replace_tag_full_happy_path_restores_old_clipboard() {
    let mut clipboard = FakeClipboard::with_text("old clipboard content");
    let mut injector = FakeKeyInjector::default();
    let settings = test_settings();

    // After Ctrl+C the fake clipboard would contain the copied line;
    // simulate that by pre-seeding what get_text() returns at that
    // point via a clipboard whose content already looks like a line
    // containing the tag.
    clipboard.text = Some("prefix {{tag}} suffix".to_string());

    let injection = handle_replace_tag("{{tag}}".to_string(), "REPLACED".to_string(), TargetKind::Gui, &settings);
    apply(injection, &mut clipboard, &mut injector);

    assert_eq!(
        injector.calls.as_slice(),
        [
            "select_line",
            "send_ctrl_c",
            "position_at_tag",
            "send_string"
        ]
    );
}

#[test]
fn handle_replace_tag_aborts_if_tag_not_found_in_line() {
    let mut clipboard = FakeClipboard::with_text("this line has no tag");
    let mut injector = FakeKeyInjector::default();
    let settings = test_settings();

    let injection = handle_replace_tag("{{missing}}".to_string(), "REPLACED".to_string(), TargetKind::Gui, &settings);
    apply(injection, &mut clipboard, &mut injector);

    // Should have selected/copied the line to look for the tag, but
    // never attempted to position the cursor or type anything.
    assert_eq!(injector.calls.as_slice(), ["select_line", "send_ctrl_c"]);
}

#[test]
fn handle_replace_tag_aborts_cleanly_if_select_line_fails() {
    let mut clipboard = FakeClipboard::with_text("prefix {{tag}} suffix");
    let mut injector = FakeKeyInjector::failing_at("select_line");
    let settings = test_settings();

    let injection = handle_replace_tag("{{tag}}".to_string(), "REPLACED".to_string(), TargetKind::Gui, &settings);
    apply(injection, &mut clipboard, &mut injector);

    assert_eq!(injector.calls.as_slice(), ["select_line"]);
}

#[test]
fn handle_replace_tag_computes_char_offsets_not_byte_offsets() {
    // "héllo " has a 2-byte 'é', so byte offset != char offset for
    // anything after it. position_at_tag must receive char counts.
    let mut clipboard = FakeClipboard::with_text("héllo {{tag}}");
    let injector = RefCell::new(FakeKeyInjector::default());

    struct RecordingInjector<'a>(&'a RefCell<FakeKeyInjector>);
    impl<'a> KeyInjector for RecordingInjector<'a> {
        fn select_line(&mut self) -> Result<()> {
            self.0.borrow_mut().select_line()
        }
        fn send_ctrl_c(&mut self) -> Result<()> {
            self.0.borrow_mut().send_ctrl_c()
        }
        fn send_ctrl_shift_c(&mut self) -> Result<()> {
            self.0.borrow_mut().send_ctrl_shift_c()
        }
        fn send_ctrl_v(&mut self) -> Result<()> {
            self.0.borrow_mut().send_ctrl_v()
        }
        fn send_ctrl_shift_v(&mut self) -> Result<()> {
            self.0.borrow_mut().send_ctrl_shift_v()
        }
        fn send_string(&mut self, s: &str) -> Result<()> {
            self.0.borrow_mut().send_string(s)
        }
        fn position_at_tag(&mut self, pos: usize, len: usize) -> Result<()> {
            // "héllo " is 6 chars before the tag.
            assert_eq!(pos, 6);
            assert_eq!(len, "{{tag}}".chars().count());
            self.0.borrow_mut().position_at_tag(pos, len)
        }
        fn send_backspace(&mut self, n: usize) -> Result<()> {
            self.0.borrow_mut().send_backspace(n)
        }
    }

    let settings = test_settings();
    let mut rec = RecordingInjector(&injector);
    let injection = handle_replace_tag("{{tag}}".to_string(), "x".to_string(), TargetKind::Gui, &settings);
    apply(injection, &mut clipboard, &mut rec);
}

// ---- handle_set_clipboard: terminal target -----------------------------

#[test]
fn handle_set_clipboard_terminal_backspaces_trigger_then_pastes() {
    let mut clipboard = FakeClipboard::default();
    let mut injector = FakeKeyInjector::default();
    let settings = test_settings();

    // "name:?arg" is 9 characters of trigger text left on the line.
    let injection = handle_set_clipboard("result".to_string(), TargetKind::Terminal, 9, &settings);
    apply(injection, &mut clipboard, &mut injector);

    assert_eq!(clipboard.history.as_slice(), ["result"]);
    // Trigger text deleted first, then pasted with the terminal shortcut.
    assert_eq!(
        injector.calls.as_slice(),
        ["send_backspace(9)", "send_ctrl_shift_v"]
    );
}

#[test]
fn handle_set_clipboard_terminal_backspace_failure_still_pastes() {
    let mut clipboard = FakeClipboard::default();
    let mut injector = FakeKeyInjector::failing_at("send_backspace");
    let settings = test_settings();

    let injection = handle_set_clipboard("result".to_string(), TargetKind::Terminal, 9, &settings);
    apply(injection, &mut clipboard, &mut injector);

    // Backspace failure is logged but doesn't block the paste — the
    // output is on the clipboard either way.
    assert_eq!(clipboard.history.as_slice(), ["result"]);
    assert_eq!(
        injector.calls.as_slice(),
        ["send_backspace(9)", "send_ctrl_shift_v"]
    );
}

// ---- inject_replacement: terminal target --------------------------------

#[test]
fn inject_replacement_ascii_terminal_types_directly() {
    let mut clipboard = FakeClipboard::default();
    let mut injector = FakeKeyInjector::default();
    let settings = test_settings();

    let injection = inject_replacement("hi", TargetKind::Terminal, &settings);
    let used = apply(injection, &mut clipboard, &mut injector)
        .replacement_result()
        .unwrap();

    assert!(!used);
    assert_eq!(injector.calls.as_slice(), ["send_string"]);
    assert!(clipboard.history.is_empty());
}

#[test]
fn inject_replacement_non_ascii_terminal_pastes_with_ctrl_shift_v() {
    let mut clipboard = FakeClipboard::default();
    let mut injector = FakeKeyInjector::default();
    let settings = test_settings();

    let injection = inject_replacement("héllo", TargetKind::Terminal, &settings);
    let used = apply(injection, &mut clipboard, &mut injector)
        .replacement_result()
        .unwrap();

    assert!(used);
    assert_eq!(clipboard.history.as_slice(), ["héllo"]);
    assert_eq!(injector.calls.as_slice(), ["send_ctrl_shift_v"]);
}

// ---- handle_replace_tag: terminal target --------------------------------

#[test]
fn handle_replace_tag_terminal_ascii_backspaces_then_types() {
    let mut clipboard = FakeClipboard::default();
    let mut injector = FakeKeyInjector::default();
    let settings = test_settings();

    let injection = handle_replace_tag("<HI/>".to_string(), "Hello World!".to_string(), TargetKind::Terminal, &settings);
    apply(injection, &mut clipboard, &mut injector);

    // No Home/End, no select/copy: the 5-char tag is deleted with plain
    // backspaces and the ASCII output is typed directly.
    assert_eq!(
        injector.calls.as_slice(),
        ["send_backspace(5)", "send_string"]
    );
    assert!(
        clipboard.history.is_empty(),
        "ASCII terminal path must not touch the clipboard"
    );
}

#[test]
fn handle_replace_tag_terminal_non_ascii_pastes_and_restores_clipboard() {
    let mut clipboard = FakeClipboard::with_text("old clipboard");
    let mut injector = FakeKeyInjector::default();
    let settings = test_settings();

    let injection = handle_replace_tag("<HI/>".to_string(), "héllo".to_string(), TargetKind::Terminal, &settings);
    apply(injection, &mut clipboard, &mut injector);

    assert_eq!(
        injector.calls.as_slice(),
        ["send_backspace(5)", "send_ctrl_shift_v"]
    );
    // Replacement written, then the old value restored.
    assert_eq!(clipboard.history.as_slice(), ["héllo", "old clipboard"]);
}

#[test]
fn handle_replace_tag_terminal_aborts_if_backspace_fails() {
    let mut clipboard = FakeClipboard::with_text("prefix <HI/> suffix");
    let mut injector = FakeKeyInjector::failing_at("send_backspace");
    let settings = test_settings();

    let injection = handle_replace_tag("<HI/>".to_string(), "out".to_string(), TargetKind::Terminal, &settings);
    apply(injection, &mut clipboard, &mut injector);

    // Stops after the failed deletion; never types or touches the clipboard.
    assert_eq!(injector.calls.as_slice(), ["send_backspace(5)"]);
    assert!(clipboard.history.is_empty());
}

// ---- steps and pauses ------------------------------------------------------

fn slow_settings() -> Settings {
    Settings {
        flush_delay_ms: 1,
        clipboard_read_delay_ms: 2,
        clipboard_write_delay_ms: 3,
        command_timeout: Timeout::from_secs(15),
    }
}

/// Applies an injection and returns its pauses.
fn pauses(injection: &mut Injection, clipboard: &mut FakeClipboard) -> Vec<u64> {
    let mut injector = FakeKeyInjector::default();
    let mut pauses = Vec::new();
    while let Some(ms) = injection.run(clipboard, &mut injector) {
        pauses.push(ms);
    }
    pauses
}

#[test]
fn pauses_come_from_the_settings() {
    let settings = slow_settings();
    let result = CommandResult::ReplaceTag {
        tag_text: "<t/>".to_string(),
        output: "é".to_string(),
        target: TargetKind::Gui,
    };
    let mut injection = apply_command_result(result, &settings);
    let mut clipboard = FakeClipboard::with_text("a <t/> b");
    assert_eq!(pauses(&mut injection, &mut clipboard), vec![1, 50, 2, 3, 3]);
    assert_eq!(clipboard.history, vec!["é", "a <t/> b"]);
    let result = CommandResult::SetClipboard {
        output: "out".to_string(),
        target: TargetKind::Terminal,
        trigger_len: 4,
    };
    let mut injection = apply_command_result(result, &settings);
    assert_eq!(pauses(&mut injection, &mut clipboard), vec![3]);
    assert!(matches!(injection.action(), Action::Finished));
}

#[test]
fn the_tag_is_deleted_where_it_first_stands() {
    let mut injection = handle_replace_tag(
        "<t/>".to_string(),
        "out \n".to_string(),
        TargetKind::Gui,
        &slow_settings(),
    );
    let text = |s: &str| Outcome::Text(s.to_string());
    for outcome in [
        Outcome::Done,
        text("old"),
        Outcome::Done,
        Outcome::Done,
        Outcome::Done,
        Outcome::Done,
        text("né <t/> <t/>"),
    ] {
        injection.step(outcome);
    }
    assert!(matches!(injection.action(), Action::PositionAtTag { pos: 3, len: 4 }));
    injection.step(Outcome::Done);
    assert!(matches!(injection.action(), Action::TypeText(t) if t == "out"));
    injection.step(Outcome::Done);
    assert!(matches!(injection.action(), Action::WriteClipboard(t) if t == "old"));
    injection.step(Outcome::ClipboardFailed("busy".to_string()));
    assert!(matches!(injection.failure(), Some(Failure::Clipboard(t)) if t == "busy"));
}

#[test]
fn an_unreadable_clipboard_is_restored_to_nothing() {
    let mut clipboard = FakeClipboard::default();
    let mut injector = FakeKeyInjector::default();
    let injection = handle_replace_tag(
        "<T/>".to_string(),
        "é".to_string(),
        TargetKind::Terminal,
        &test_settings(),
    );
    let injection = apply(injection, &mut clipboard, &mut injector);
    assert_eq!(clipboard.history, vec!["é", ""]);
    assert!(injection.failure().is_none());
}

#[test]
fn a_failed_clipboard_write_is_reported() {
    let mut clipboard = FakeClipboard { set_fails: true, ..Default::default() };
    let mut injector = FakeKeyInjector::default();
    let injection = inject_replacement("é", TargetKind::Gui, &test_settings());
    let error = apply(injection, &mut clipboard, &mut injector)
        .replacement_result()
        .unwrap_err();
    assert_eq!(
        error.message(),
        "Error writing: clipboard (non-ASCII replacement) (simulated set failure)"
    );
    assert!(injector.calls.is_empty());
}

#[test]
fn a_missing_tag_ends_the_injection() {
    let mut clipboard = FakeClipboard::with_text("nothing here");
    let mut injector = FakeKeyInjector::default();
    let injection = handle_replace_tag(
        "<t/>".to_string(),
        "x".to_string(),
        TargetKind::Gui,
        &test_settings(),
    );
    let injection = apply(injection, &mut clipboard, &mut injector);
    assert!(matches!(injection.failure(), Some(Failure::TagNotFound)));
    assert!(clipboard.history.is_empty());
}
