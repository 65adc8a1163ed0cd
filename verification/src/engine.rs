//! The keyboard event loop's decisions: what a key event means, which command
//! a tag runs, and where its output goes.
use crate::command::{
    contains_placeholder, expand_placeholders, expansion, has_placeholders, law_command_comes_first,
};
use crate::error::{BaanError, Result};
use crate::event::{key_change, InputEvent};
use crate::keycode::{
    char_of, get_char_from_keycode, is_supported_key_code, key_of, law_characters_round_trip,
    lemma_backspace_types_nothing, lemma_typing_keys, EV_KEY, KEY_BACKSPACE, KEY_C, KEY_LEFTCTRL,
    KEY_LEFTSHIFT, KEY_RIGHTCTRL, KEY_RIGHTSHIFT,
};
use crate::tag::{
    advanced, consumed, element, fed, fresh, law_element_is_parsed, law_remove_char_undoes_consume,
    law_self_closing_tag_is_parsed, lemma_element_prefix, lemma_self_closing_tag_prefix,
    optional_text, reverted, self_closing_tag, ParserView, TagParser, TagState,
};
use crate::text::{
    chars_of, copy_texts, find, first_occurrence, folded, is_ascii_lowercase, is_lower,
    lemma_first_occurrence, occurs_at, texts_view, trim, trimmed,
};
use crate::triggers::{case_distinct, has_name, TriggerCommands};
use vstd::prelude::*;
use vstd::slice::slice_subrange;
use vstd::string::*;

verus! {

/// Which kind of application is the injection target.
///
/// Terminals differ from GUI apps in two ways that matter here: they use
/// Ctrl+Shift+C / Ctrl+Shift+V instead of Ctrl+C / Ctrl+V, and they don't
/// support Home/End-based keyboard selection. The target is inferred from the
/// user's own input (all-caps tag names, the Ctrl+Shift+C gesture) rather
/// than from window detection, which is not reliably available on every
/// compositor.
#[derive(Debug, Clone, Copy, PartialEq, Eq, Structural)]
pub enum TargetKind {
    /// A regular desktop application.
    Gui,
    /// A terminal emulator.
    Terminal,
}

// ---------------------------------------------------------------------------
// Tags in copied text
// ---------------------------------------------------------------------------

/// `input` split at the first `separator`: the tag before it, which is not
/// empty, and the argument behind it, if there is any.
pub open spec fn tag_parts(input: Seq<char>, separator: Seq<char>) -> Option<
    (Seq<char>, Option<Seq<char>>),
> {
    match first_occurrence(input, separator, 0) {
        Some(at) if at > 0 => {
            let arg = input.skip(at + separator.len());
            if arg.len() > 0 {
                Some((input.take(at), Some(arg)))
            } else {
                Some((input.take(at), None))
            }
        },
        _ => None,
    }
}

/// Splits `input` on the first `separator`, returning `(tag, arg)`.
/// Returns `None` when the tag part is empty; `arg` is `None` when the
/// separator is at the very end (e.g. `date:?`).
pub fn parse_tag<'a>(input: &'a str, separator: &str) -> (parts: Option<
    (&'a str, Option<&'a str>),
>)
    ensures
        match (parts, tag_parts(input@, separator@)) {
            (Some((tag, Some(arg))), Some((name, Some(rest)))) => tag@ == name && arg@ == rest,
            (Some((tag, None)), Some((name, None))) => tag@ == name,
            (None, None) => true,
            _ => false,
        },
{
    let chars = chars_of(input);
    let pattern = chars_of(separator);
    proof {
        lemma_first_occurrence(input@, separator@, 0);
    }
    match find(chars.as_slice(), pattern.as_slice(), 0) {
        Some(at) => {
            if at == 0 {
                return None;
            }
            assert(at + pattern.len() <= chars.len());
            let end: usize = at + pattern.len();
            let tag = input.substring_char(0, at);
            assert(tag@ =~= input@.take(at as int));
            if end < chars.len() {
                let arg = input.substring_char(end, chars.len());
                assert(arg@ =~= input@.skip(end as int));
                Some((tag, Some(arg)))
            } else {
                Some((tag, None))
            }
        },
        None => None,
    }
}

// ---------------------------------------------------------------------------
// Triggers
// ---------------------------------------------------------------------------

/// The command of the trigger of this name, whatever its letter case.
pub open spec fn command_for(
    triggers: Map<Seq<char>, Seq<Seq<char>>>,
    name: Seq<char>,
) -> Option<Seq<Seq<char>>> {
    if has_name(triggers, name) {
        let key = choose|key: Seq<char>| #[trigger]
            triggers.dom().contains(key) && folded(key) == folded(name);
        Some(triggers[key])
    } else {
        None
    }
}

/// Case-insensitive lookup of a trigger command.
///
/// No two triggers differ only by letter case, so at most one key can match
/// `name`.
pub fn lookup_trigger<'a>(trigger_commands: &'a TriggerCommands, name: &str) -> (command: Option<
    &'a Vec<String>,
>)
    ensures
        case_distinct(trigger_commands@),
        match command {
            Some(command) => command_for(trigger_commands@, name@) == Some(texts_view(command@)),
            None => command_for(trigger_commands@, name@) is None,
        },
{
    let command = trigger_commands.find(name);
    proof {
        if command is Some {
            let triggers = trigger_commands@;
            let found = choose|key: Seq<char>| #[trigger]
                triggers.dom().contains(key) && folded(key) == folded(name@) && texts_view(
                    command->0@,
                ) == triggers[key];
            let key = choose|key: Seq<char>| #[trigger]
                triggers.dom().contains(key) && folded(key) == folded(name@);
            assert(triggers.dom().contains(found));
            assert(triggers.dom().contains(key));
            assert(found == key);
        }
    }
    command
}

/// The command of the trigger of this name, if it has one to run.
pub open spec fn runnable_command(
    triggers: Map<Seq<char>, Seq<Seq<char>>>,
    name: Seq<char>,
) -> Option<Seq<Seq<char>>> {
    match command_for(triggers, name) {
        Some(command) if command.len() > 0 => Some(command),
        _ => None,
    }
}

/// Whether a name holds no lowercase letters.
pub open spec fn is_all_caps(name: Seq<char>) -> bool {
    forall|i: int| 0 <= i < name.len() ==> !is_lower(#[trigger] name[i])
}

/// The target that a tag's name stands for.
pub open spec fn target_of(name: Seq<char>) -> TargetKind {
    if is_all_caps(name) {
        TargetKind::Terminal
    } else {
        TargetKind::Gui
    }
}

/// Target inferred from a typed tag's name: a name with no lowercase letters
/// (e.g. `<HI/>`, `<BASE64/>`) is the user's signal that they are typing in a
/// terminal.
pub fn infer_target_from_tag_name(tag_name: &str) -> (target: TargetKind)
    ensures
        target == target_of(tag_name@),
{
    let chars = chars_of(tag_name);
    let mut i: usize = 0;
    while i < chars.len()
        invariant
            i <= chars@.len(),
            chars@ == tag_name@,
            forall|j: int| 0 <= j < i ==> !is_lower(#[trigger] chars@[j]),
        decreases chars@.len() - i,
    {
        if is_ascii_lowercase(chars[i]) {
            return TargetKind::Gui;
        }
        i += 1;
    }
    TargetKind::Terminal
}

/// The target of a command in copied text.
pub open spec fn clipboard_target(is_shifted: bool, captured: Seq<char>) -> TargetKind {
    if is_shifted {
        TargetKind::Terminal
    } else {
        match tag_parts(captured, ":?"@) {
            Some((name, _)) => target_of(trimmed(name)),
            None => TargetKind::Gui,
        }
    }
}

/// Target inferred for a clipboard-triggered command: Ctrl+Shift+C is the
/// terminal copy gesture, so a shifted Ctrl+C always means terminal. Without
/// shift, the all-caps tag-name convention applies (e.g. `NAME:?arg`).
pub fn infer_clipboard_target(is_shifted: bool, captured: &str) -> (target: TargetKind)
    ensures
        target == clipboard_target(is_shifted, captured@),
{
    if is_shifted {
        return TargetKind::Terminal;
    }
    match parse_tag(captured, ":?") {
        Some((name, _)) => infer_target_from_tag_name(trim(name)),
        None => TargetKind::Gui,
    }
}

// ---------------------------------------------------------------------------
// Commands
// ---------------------------------------------------------------------------

/// A command line: the command followed by its options.
fn command_line(command: &str, options: &[String]) -> (line: Vec<String>)
    ensures
        texts_view(line@) == seq![command@] + texts_view(options@),
{
    let mut line: Vec<String> = Vec::new();
    line.push(command.to_owned());
    let mut rest = copy_texts(options);
    let ghost tail = texts_view(rest@);
    line.append(&mut rest);
    assert(texts_view(line@) =~= seq![command@] + tail);
    line
}

/// The command line of a tag: with the tag's content in place of the command's
/// placeholder, or as it is configured where the tag has no content.
pub open spec fn tag_line(
    command: Seq<char>,
    options: Seq<Seq<char>>,
    content: Option<Seq<char>>,
) -> std::result::Result<Seq<Seq<char>>, Seq<char>> {
    match content {
        Some(content) => expansion(command, options, seq![content]),
        None => Ok(seq![command] + options),
    }
}

/// Expands `command`'s placeholders with `content` if present. Pure — no
/// threads or process execution.
pub fn resolve_tag_expansion(command: &str, options: &[String], content: Option<&str>) -> (result:
    Result<Vec<String>>)
    ensures
        match tag_line(
            command@,
            texts_view(options@),
            match content {
                Some(content) => Some(content@),
                None => None,
            },
        ) {
            Ok(line) => result matches Ok(out) && texts_view(out@) == line,
            Err(complaint) => result matches Err(BaanError::Command { detail }) && detail@
                == complaint,
        },
{
    match content {
        Some(content) => {
            let values: [&str; 1] = [content];
            assert(crate::text::strs_view(values@) =~= seq![content@]);
            expand_placeholders(command, options, &values)
        },
        None => Ok(command_line(command, options)),
    }
}

/// Reason a clipboard-triggered command couldn't be resolved into a
/// runnable argv.
#[derive(Debug, PartialEq, Eq)]
pub enum ClipboardTagError {
    NoTag,
    UnknownTag { tag_name: String },
    ExpansionFailed { tag_name: String, detail: String },
}

/// Whether `result` is what copied text resolves to.
pub open spec fn is_clipboard_command(
    result: std::result::Result<Vec<String>, ClipboardTagError>,
    triggers: Map<Seq<char>, Seq<Seq<char>>>,
    captured: Seq<char>,
) -> bool {
    match tag_parts(captured, ":?"@) {
        None => result matches Err(ClipboardTagError::NoTag),
        Some((name, arg)) => match runnable_command(triggers, trimmed(name)) {
            None => result matches Err(ClipboardTagError::UnknownTag { tag_name }) && tag_name@
                == name,
            Some(command) => match arg {
                Some(arg) => match expansion(command[0], command.skip(1), seq![arg]) {
                    Ok(line) => result matches Ok(out) && texts_view(out@) == line,
                    Err(complaint) => {
                        &&& result matches Err(
                            ClipboardTagError::ExpansionFailed { tag_name, detail },
                        )
                        &&& tag_name@ == name
                        &&& detail@ == "Command error: "@ + complaint
                    },
                },
                None => if exists|i: int|
                    0 <= i < command.len() && contains_placeholder(#[trigger] command[i]) {
                    &&& result matches Err(ClipboardTagError::ExpansionFailed { tag_name, detail })
                    &&& tag_name@ == name
                    &&& detail@ == "Command requires an argument but none was provided"@
                } else {
                    result matches Ok(out) && texts_view(out@) == command
                },
            },
        },
    }
}

/// Resolves `captured_text` into a runnable argv: parse the tag, look up its
/// trigger, and expand placeholders. Pure — no threads or process execution.
pub fn resolve_clipboard_command(trigger_commands: &TriggerCommands, captured_text: &str) -> (result:
    std::result::Result<Vec<String>, ClipboardTagError>)
    ensures
        is_clipboard_command(result, trigger_commands@, captured_text@),
{
    let (tag_name, arg) = match parse_tag(captured_text, ":?") {
        Some(parts) => parts,
        None => {
            return Err(ClipboardTagError::NoTag);
        },
    };
    let command = match lookup_trigger(trigger_commands, trim(tag_name)) {
        Some(command) => command,
        None => {
            return Err(ClipboardTagError::UnknownTag { tag_name: tag_name.to_owned() });
        },
    };
    if command.len() == 0 {
        return Err(ClipboardTagError::UnknownTag { tag_name: tag_name.to_owned() });
    }
    let ghost words = texts_view(command@);
    match arg {
        Some(arg) => {
            let options = slice_subrange(command.as_slice(), 1, command.len());
            assert(texts_view(options@) =~= words.skip(1));
            assert(words[0] == command@[0]@);
            match resolve_tag_expansion(command[0].as_str(), options, Some(arg)) {
                Ok(line) => Ok(line),
                Err(error) => Err(
                    ClipboardTagError::ExpansionFailed {
                        tag_name: tag_name.to_owned(),
                        detail: error.message(),
                    },
                ),
            }
        },
        None => {
            let required = has_placeholders(command.as_slice());
            proof {
                assert(forall|i: int| 0 <= i < words.len() ==> #[trigger] words[i] == command@[i]@);
                if required {
                    let i = choose|i: int|
                        0 <= i < command@.len() && contains_placeholder(#[trigger] command@[i]@);
                    assert(contains_placeholder(words[i]));
                }
            }
            if required {
                Err(
                    ClipboardTagError::ExpansionFailed {
                        tag_name: tag_name.to_owned(),
                        detail: "Command requires an argument but none was provided".to_owned(),
                    },
                )
            } else {
                Ok(copy_texts(command.as_slice()))
            }
        },
    }
}

// ---------------------------------------------------------------------------
// Results
// ---------------------------------------------------------------------------

/// What came of a command, for the event loop to apply.
#[derive(Debug)]
pub enum CommandResult {
    /// A tag was expanded inside the current line; replace the tag text.
    ReplaceTag { tag_text: String, output: String, target: TargetKind },
    /// A clipboard command finished; put the output on the clipboard and paste.
    /// `trigger_len` is the length (in characters) of the `name:?arg` trigger
    /// text that was captured — needed so terminal targets can backspace it
    /// off the command line before pasting.
    SetClipboard { output: String, target: TargetKind, trigger_len: usize },
}

// ---------------------------------------------------------------------------
// Copy gestures
// ---------------------------------------------------------------------------

/// A command to run for copied text.
#[derive(Debug)]
pub struct ClipboardCommand {
    /// The command line; it is not empty.
    pub line: Vec<String>,
    pub target: TargetKind,
    /// How many characters were copied.
    pub trigger_len: usize,
}

/// What to apply once the command of copied text gave its output.
pub open spec fn copied_result(command: ClipboardCommand, output: String) -> CommandResult {
    CommandResult::SetClipboard {
        output,
        target: command.target,
        trigger_len: command.trigger_len,
    }
}

impl ClipboardCommand {
    /// What to apply once the command gave this output.
    pub fn result(&self, output: String) -> (result: CommandResult)
        ensures
            result == copied_result(*self, output),
    {
        CommandResult::SetClipboard { output, target: self.target, trigger_len: self.trigger_len }
    }
}

/// What a copy gesture comes to.
#[derive(Debug)]
pub enum CopyOutcome {
    /// The clipboard does not hold text.
    Unreadable,
    /// The clipboard holds nothing but white space.
    Blank,
    /// The copied text leads to no command.
    Unresolved(ClipboardTagError),
    /// Run this command in the background.
    Run(ClipboardCommand),
}

/// An expanded command line starts with its command.
proof fn lemma_line_is_not_empty(
    result: std::result::Result<Vec<String>, ClipboardTagError>,
    triggers: Map<Seq<char>, Seq<Seq<char>>>,
    captured: Seq<char>,
)
    requires
        is_clipboard_command(result, triggers, captured),
        result is Ok,
    ensures
        result->Ok_0@.len() > 0,
{
    assert(texts_view(result->Ok_0@).len() == result->Ok_0@.len());
    if let Some((name, Some(arg))) = tag_parts(captured, ":?"@) {
        if let Some(command) = runnable_command(triggers, trimmed(name)) {
            law_command_comes_first(command[0], command.skip(1), seq![arg]);
        }
    }
}

/// Look up the command configured for `captured_text` (via `parse_tag`) and
/// expand its placeholders.
pub fn spawn_clipboard_command(
    trigger_commands: &TriggerCommands,
    captured_text: &str,
    target: TargetKind,
) -> (outcome: std::result::Result<ClipboardCommand, ClipboardTagError>)
    ensures
        match outcome {
            Ok(command) => {
                &&& is_clipboard_command(
                    Ok(command.line),
                    trigger_commands@,
                    captured_text@,
                )
                &&& command.line@.len() > 0
                &&& command.target == target
                &&& command.trigger_len == captured_text@.len()
            },
            Err(error) => is_clipboard_command(Err(error), trigger_commands@, captured_text@),
        },
{
    let resolved = resolve_clipboard_command(trigger_commands, captured_text);
    proof {
        if resolved is Ok {
            lemma_line_is_not_empty(resolved, trigger_commands@, captured_text@);
        }
    }
    match resolved {
        Ok(line) => {
            let trigger_len: usize = chars_of(captured_text).len();
            Ok(ClipboardCommand { line, target, trigger_len })
        },
        Err(error) => Err(error),
    }
}

/// Whether a copy gesture comes to this, given what the clipboard holds.
pub open spec fn is_copy_outcome(
    outcome: CopyOutcome,
    is_shifted: bool,
    captured: std::result::Result<String, String>,
    triggers: Map<Seq<char>, Seq<Seq<char>>>,
) -> bool {
    match captured {
        Err(_) => outcome == CopyOutcome::Unreadable,
        Ok(text) => if trimmed(text@).len() == 0 {
            outcome == CopyOutcome::Blank
        } else {
            match outcome {
                CopyOutcome::Run(command) => {
                    &&& is_clipboard_command(Ok(command.line), triggers, text@)
                    &&& command.line@.len() > 0
                    &&& command.target == clipboard_target(is_shifted, text@)
                    &&& command.trigger_len == text@.len()
                },
                CopyOutcome::Unresolved(error) => is_clipboard_command(
                    Err(error),
                    triggers,
                    text@,
                ),
                _ => false,
            }
        },
    }
}

/// Decides what a copy gesture (Ctrl+C or Ctrl+Shift+C) comes to, given what
/// the clipboard holds once the copy has landed. If it holds a `name:?arg`
/// tag, the trigger's command is to be run in the background.
pub fn intercept_clipboard_trigger(
    is_shifted: bool,
    captured: std::result::Result<String, String>,
    trigger_commands: &TriggerCommands,
) -> (outcome: CopyOutcome)
    ensures
        is_copy_outcome(outcome, is_shifted, captured, trigger_commands@),
{
    match captured {
        Err(_) => CopyOutcome::Unreadable,
        Ok(text) => {
            if trim(text.as_str()).is_empty() {
                return CopyOutcome::Blank;
            }
            let target = infer_clipboard_target(is_shifted, text.as_str());
            match spawn_clipboard_command(trigger_commands, text.as_str(), target) {
                Ok(command) => CopyOutcome::Run(command),
                Err(error) => CopyOutcome::Unresolved(error),
            }
        },
    }
}

// ---------------------------------------------------------------------------
// Typed tags
// ---------------------------------------------------------------------------

/// A command to run for a typed tag.
#[derive(Debug)]
pub struct TagCommand {
    pub tag_name: String,
    pub content: Option<String>,
    pub tag_text: String,
    pub command: String,
    pub options: Vec<String>,
    pub target: TargetKind,
}

/// What a [`TagCommand`] holds.
#[verifier::ext_equal]
pub struct TagCommandView {
    pub tag_name: Seq<char>,
    pub content: Option<Seq<char>>,
    pub tag_text: Seq<char>,
    pub command: Seq<char>,
    pub options: Seq<Seq<char>>,
    pub target: TargetKind,
}

impl View for TagCommand {
    type V = TagCommandView;

    open spec fn view(&self) -> TagCommandView {
        TagCommandView {
            tag_name: self.tag_name@,
            content: optional_text(self.content),
            tag_text: self.tag_text@,
            command: self.command@,
            options: texts_view(self.options@),
            target: self.target,
        }
    }
}

/// What to apply once the command of a tag gave its output.
pub open spec fn tag_result(command: TagCommand, output: String) -> CommandResult {
    CommandResult::ReplaceTag { tag_text: command.tag_text, output, target: command.target }
}

impl TagCommand {
    /// The command line to run: the tag's content, if it has any, in place of
    /// the command's placeholder.
    pub fn line(&self) -> (result: Result<Vec<String>>)
        ensures
            match tag_line(self@.command, self@.options, self@.content) {
                Ok(line) => result matches Ok(out) && texts_view(out@) == line,
                Err(complaint) => result matches Err(BaanError::Command { detail }) && detail@
                    == complaint,
            },
            result matches Ok(out) ==> out@.len() > 0,
    {
        let content = match &self.content {
            Some(content) => Some(content.as_str()),
            None => None,
        };
        let result = resolve_tag_expansion(self.command.as_str(), self.options.as_slice(), content);
        proof {
            if result is Ok {
                assert(texts_view(result->Ok_0@).len() == result->Ok_0@.len());
                if let Some(content) = self@.content {
                    law_command_comes_first(self@.command, self@.options, seq![content]);
                }
            }
        }
        result
    }

    /// What to apply once the command gave this output.
    pub fn result(self, output: String) -> (result: CommandResult)
        ensures
            result == tag_result(self, output),
    {
        CommandResult::ReplaceTag { tag_text: self.tag_text, output, target: self.target }
    }
}

/// The command that a completed tag runs, if its name is a trigger.
pub open spec fn tag_command(
    parser: ParserView,
    triggers: Map<Seq<char>, Seq<Seq<char>>>,
) -> Option<TagCommandView> {
    match parser.state {
        TagState::ClosedTag { tag_name, content } => {
            let name = trimmed(tag_name);
            match runnable_command(triggers, name) {
                Some(command) => Some(
                    TagCommandView {
                        tag_name: name,
                        content,
                        tag_text: parser.text,
                        command: command[0],
                        options: command.skip(1),
                        target: target_of(name),
                    },
                ),
                None => None,
            }
        },
        _ => None,
    }
}

/// The parser once a completed tag has been taken out of it.
pub open spec fn settled(parser: ParserView) -> ParserView {
    if parser.state is ClosedTag {
        fresh()
    } else {
        parser
    }
}

/// An optional command.
pub open spec fn optional_command(command: Option<TagCommand>) -> Option<TagCommandView> {
    match command {
        Some(command) => Some(command@),
        None => None,
    }
}

/// Feeds `c` into the tag parser. If a tag is now complete and matches a
/// configured trigger, hands back its command.
pub fn feed_parser_char(parser: &mut TagParser, c: char, trigger_commands: &TriggerCommands) -> (run:
    Option<TagCommand>)
    requires
        old(parser).wf(),
    ensures
        final(parser).wf(),
        final(parser)@ == settled(consumed(old(parser)@, c)),
        optional_command(run) == tag_command(consumed(old(parser)@, c), trigger_commands@),
{
    parser.consume(c);
    match parser.take() {
        Some((tag_name, content, tag_text)) => {
            let name = trim(tag_name.as_str());
            match lookup_trigger(trigger_commands, name) {
                Some(command) => {
                    if command.len() == 0 {
                        return None;
                    }
                    // The tag's casing tells us the target: all-caps names (e.g. `<HI/>`)
                    // are the user's signal that they are in a terminal.
                    let target = infer_target_from_tag_name(name);
                    let options = slice_subrange(command.as_slice(), 1, command.len());
                    let run = TagCommand {
                        tag_name: name.to_owned(),
                        content,
                        tag_text,
                        command: command[0].clone(),
                        options: copy_texts(options),
                        target,
                    };
                    proof {
                        let words = texts_view(command@);
                        assert(words[0] == command@[0]@);
                        assert(run@.options =~= words.skip(1));
                    }
                    Some(run)
                },
                None => None,
            }
        },
        None => None,
    }
}

// ---------------------------------------------------------------------------
// Key events
// ---------------------------------------------------------------------------

/// What a key event asks for.
#[derive(Debug)]
pub enum KeyAction {
    Nothing,
    /// A copy gesture: look at the clipboard once the copy has landed.
    CopyGesture { is_shifted: bool },
    /// Run this command in the background.
    RunTag(TagCommand),
}

/// What a [`KeyAction`] holds.
#[verifier::ext_equal]
pub enum KeyActionView {
    Nothing,
    CopyGesture { is_shifted: bool },
    RunTag(TagCommandView),
}

impl View for KeyAction {
    type V = KeyActionView;

    open spec fn view(&self) -> KeyActionView {
        match self {
            KeyAction::Nothing => KeyActionView::Nothing,
            KeyAction::CopyGesture { is_shifted } => KeyActionView::CopyGesture {
                is_shifted: *is_shifted,
            },
            KeyAction::RunTag(command) => KeyActionView::RunTag(command@),
        }
    }
}

/// What the event loop knows of the keyboard.
#[derive(Debug)]
pub struct KeyboardState {
    is_shifted: bool,
    is_ctrl: bool,
    parser: TagParser,
}

/// What a [`KeyboardState`] holds.
#[verifier::ext_equal]
pub struct KeyboardView {
    pub is_shifted: bool,
    pub is_ctrl: bool,
    pub parser: ParserView,
}

impl View for KeyboardState {
    type V = KeyboardView;

    closed spec fn view(&self) -> KeyboardView {
        KeyboardView {
            is_shifted: self.is_shifted,
            is_ctrl: self.is_ctrl,
            parser: self.parser@,
        }
    }
}

/// A keyboard of which nothing is known yet.
pub open spec fn idle() -> KeyboardView {
    KeyboardView { is_shifted: false, is_ctrl: false, parser: fresh() }
}

/// Whether a keycode is that of a control key.
pub open spec fn is_ctrl_key(code: u16) -> bool {
    code == KEY_LEFTCTRL || code == KEY_RIGHTCTRL
}

/// Whether a keycode is that of a shift key.
pub open spec fn is_shift_key(code: u16) -> bool {
    code == KEY_LEFTSHIFT || code == KEY_RIGHTSHIFT
}

/// The state after a key press that is no gesture, and what it asks for.
pub open spec fn after_press(
    state: KeyboardView,
    code: u16,
    triggers: Map<Seq<char>, Seq<Seq<char>>>,
) -> (KeyboardView, KeyActionView) {
    let supported = char_of(code as u32, false) is Some || char_of(code as u32, true) is Some;
    match char_of(code as u32, state.is_shifted) {
        Some(c) => {
            let parser = consumed(state.parser, c);
            let next = KeyboardView { parser: settled(parser), ..state };
            match tag_command(parser, triggers) {
                Some(command) => (next, KeyActionView::RunTag(command)),
                None => (next, KeyActionView::Nothing),
            }
        },
        None => if !supported && code == KEY_BACKSPACE {
            (KeyboardView { parser: reverted(state.parser), ..state }, KeyActionView::Nothing)
        } else {
            (KeyboardView { parser: fresh(), ..state }, KeyActionView::Nothing)
        },
    }
}

/// The state after an event, and what it asks for. Values: 0 = release,
/// 1 = press, 2 = repeat.
pub open spec fn after_event(
    state: KeyboardView,
    event: InputEvent,
    triggers: Map<Seq<char>, Seq<Seq<char>>>,
) -> (KeyboardView, KeyActionView) {
    if event.kind != EV_KEY {
        (state, KeyActionView::Nothing)
    } else if is_ctrl_key(event.code) {
        (KeyboardView { is_ctrl: event.value != 0, ..state }, KeyActionView::Nothing)
    } else if is_shift_key(event.code) {
        (KeyboardView { is_shifted: event.value != 0, ..state }, KeyActionView::Nothing)
    } else if state.is_ctrl && event.code == KEY_C && event.value == 1 {
        (state, KeyActionView::CopyGesture { is_shifted: state.is_shifted })
    } else if event.value == 0 || event.value == 2 {
        (state, KeyActionView::Nothing)
    } else {
        after_press(state, event.code, triggers)
    }
}

impl KeyboardState {
    /// The parser is consistent.
    pub closed spec fn wf(&self) -> bool {
        self.parser.wf()
    }

    /// A keyboard of which nothing is known yet.
    pub fn new() -> (state: KeyboardState)
        ensures
            state.wf(),
            state@ == idle(),
    {
        KeyboardState { is_shifted: false, is_ctrl: false, parser: TagParser::default() }
    }

    /// Takes in one event from the keyboard.
    ///
    /// Tracks modifier state, intercepts copy gestures and feeds typed
    /// characters into the tag parser. Ctrl+C is the copy gesture in GUI apps;
    /// Ctrl+Shift+C is the copy gesture in terminals (where plain Ctrl+C means
    /// SIGINT).
    pub fn handle_event(&mut self, event: &InputEvent, trigger_commands: &TriggerCommands) -> (action:
        KeyAction)
        requires
            old(self).wf(),
        ensures
            final(self).wf(),
            (final(self)@, action@) == after_event(old(self)@, *event, trigger_commands@),
    {
        if event.kind != EV_KEY {
            return KeyAction::Nothing;
        }
        let code: u32 = event.code as u32;
        let value: i32 = event.value;

        // ---- Track modifier state -----------------------------------------
        if code == KEY_LEFTCTRL || code == KEY_RIGHTCTRL {
            self.is_ctrl = value != 0;
            return KeyAction::Nothing;
        }
        if code == KEY_LEFTSHIFT || code == KEY_RIGHTSHIFT {
            self.is_shifted = value != 0;
            return KeyAction::Nothing;
        }
        // ---- Intercept copy gestures --------------------------------------

        if self.is_ctrl && code == KEY_C && value == 1 {
            return KeyAction::CopyGesture { is_shifted: self.is_shifted };
        }
        // ---- Normal tag parsing path ---------------------------------------
        // Only key presses (value 1) drive tag parsing.

        if value == 0 || value == 2 {
            return KeyAction::Nothing;
        }
        if !is_supported_key_code(code) {
            if code == KEY_BACKSPACE {
                self.parser.remove_char();
            } else {
                self.parser = TagParser::default();
            }
            return KeyAction::Nothing;
        }
        match get_char_from_keycode(code, self.is_shifted) {
            Some(c) => match feed_parser_char(&mut self.parser, c, trigger_commands) {
                Some(command) => KeyAction::RunTag(command),
                None => KeyAction::Nothing,
            },
            None => {
                self.parser = TagParser::default();
                KeyAction::Nothing
            },
        }
    }
}

// ---------------------------------------------------------------------------
// The keyboard reader
// ---------------------------------------------------------------------------

/// Messages sent from the keyboard reader to the event loop.
#[derive(Debug)]
pub enum KeyboardReaderMessage {
    /// A keyboard event was read successfully.
    Event(InputEvent),
    /// The keyboard read returned an error.
    Error(String),
}

/// What the keyboard reader does after a read.
#[derive(Debug)]
pub enum ReaderStep {
    /// Send the message, then read on.
    Forward(KeyboardReaderMessage),
    /// Check whether to stop, then read on.
    Retry,
    /// Send the message, then stop.
    Stop(KeyboardReaderMessage),
}

/// Whether the keyboard reader does this after a read.
pub open spec fn is_reader_step(read: Result<Option<InputEvent>>, step: ReaderStep) -> bool {
    match read {
        Ok(Some(event)) => step == ReaderStep::Forward(KeyboardReaderMessage::Event(event)),
        Ok(None) => step == ReaderStep::Retry,
        Err(error) => {
            &&& step matches ReaderStep::Stop(KeyboardReaderMessage::Error(text))
            &&& error.cause() is None ==> text@ == error.report(Seq::empty())
            &&& exists|source_text: Seq<char>| text@ == #[trigger] error.report(source_text)
        },
    }
}

/// Decides what the keyboard reader does after a read. A read that a signal
/// interrupted is tried again; an error is the last that is read.
pub fn reader_step(read: Result<Option<InputEvent>>) -> (step: ReaderStep)
    ensures
        is_reader_step(read, step),
{
    match read {
        Ok(Some(event)) => ReaderStep::Forward(KeyboardReaderMessage::Event(event)),
        Ok(None) => ReaderStep::Retry,
        Err(error) => ReaderStep::Stop(KeyboardReaderMessage::Error(error.message())),
    }
}

/// What came of waiting for a message from the keyboard reader.
#[derive(Debug)]
pub enum Received {
    Message(KeyboardReaderMessage),
    /// None came in time.
    Timeout,
    /// The reader is gone.
    Disconnected,
}

/// Outcome of trying to fetch the next keyboard event.
#[derive(Debug, Clone, Copy, PartialEq, Eq, Structural)]
pub enum NextKeyboardEvent {
    /// A key event to process.
    Event(InputEvent),
    /// No event yet; caller should loop back around.
    Pending,
    /// The reader ended (error or disconnect); caller should stop.
    Stop,
}

/// The next keyboard event, given what came from the reader.
pub open spec fn next_event(received: Received) -> NextKeyboardEvent {
    match received {
        Received::Message(KeyboardReaderMessage::Event(event)) => NextKeyboardEvent::Event(event),
        Received::Message(KeyboardReaderMessage::Error(_)) => NextKeyboardEvent::Stop,
        Received::Timeout => NextKeyboardEvent::Pending,
        Received::Disconnected => NextKeyboardEvent::Stop,
    }
}

/// The next keyboard event, given what came from the reader.
pub fn next_keyboard_event(received: &Received) -> (next: NextKeyboardEvent)
    ensures
        next == next_event(*received),
{
    match received {
        Received::Message(KeyboardReaderMessage::Event(event)) => NextKeyboardEvent::Event(*event),
        Received::Message(KeyboardReaderMessage::Error(_)) => NextKeyboardEvent::Stop,
        Received::Timeout => NextKeyboardEvent::Pending,
        Received::Disconnected => NextKeyboardEvent::Stop,
    }
}

// ---------------------------------------------------------------------------
// Laws
// ---------------------------------------------------------------------------

/// Only key presses change what has been typed: other events, modifiers,
/// releases, repeats and copy gestures leave the parser as it is.
pub proof fn law_only_presses_reach_the_parser(
    state: KeyboardView,
    event: InputEvent,
    triggers: Map<Seq<char>, Seq<Seq<char>>>,
)
    requires
        event.kind != EV_KEY || is_ctrl_key(event.code) || is_shift_key(event.code) || event.value
            == 0 || event.value == 2 || (state.is_ctrl && event.code == KEY_C && event.value == 1),
    ensures
        after_event(state, event, triggers).0.parser == state.parser,
        after_event(state, event, triggers).1 !is RunTag,
{
}

/// A key goes down.
pub open spec fn press(code: u32) -> InputEvent {
    key_change(code, 1)
}

/// The codes of the two shift keys.
pub open spec fn is_either_shift(code: u32) -> bool {
    code == 42 || code == 54
}

/// The events of typing a character with one of the shift keys: it goes down or
/// up as the character needs it, then the character's key goes down.
pub open spec fn typing(shift: u32, character: char) -> Seq<InputEvent> {
    let key = key_of(character)->0;
    seq![
        key_change(shift, if key.is_shifted { 1 } else { 0 }),
        press(key.keycode),
    ]
}

/// The events of typing a text, each character with its own shift key.
pub open spec fn typing_all(shifts: Seq<u32>, text: Seq<char>) -> Seq<InputEvent>
    decreases text.len(),
{
    if text.len() == 0 {
        Seq::empty()
    } else {
        typing_all(shifts, text.drop_last()) + typing(shifts[text.len() - 1], text.last())
    }
}

/// Every character of a text is typed with one of the shift keys.
pub open spec fn are_shifts(shifts: Seq<u32>, text: Seq<char>) -> bool {
    forall|i: int| 0 <= i < text.len() ==> is_either_shift(#[trigger] shifts[i])
}

/// Whether a key produces each character of a text.
pub open spec fn is_typable(text: Seq<char>) -> bool {
    forall|i: int| 0 <= i < text.len() ==> (#[trigger] key_of(text[i])) is Some
}

/// The state after several events, and what each of them asks for.
pub open spec fn after_events(
    state: KeyboardView,
    events: Seq<InputEvent>,
    triggers: Map<Seq<char>, Seq<Seq<char>>>,
) -> (KeyboardView, Seq<KeyActionView>)
    decreases events.len(),
{
    if events.len() == 0 {
        (state, Seq::empty())
    } else {
        let (before, actions) = after_events(state, events.drop_last(), triggers);
        let (after, action) = after_event(before, events.last(), triggers);
        (after, actions.push(action))
    }
}

/// Typing a character, with either shift key, feeds it to the parser.
pub proof fn law_typing_feeds_the_parser(
    state: KeyboardView,
    shift: u32,
    character: char,
    triggers: Map<Seq<char>, Seq<Seq<char>>>,
)
    requires
        !state.is_ctrl,
        is_either_shift(shift),
        key_of(character) is Some,
    ensures
        ({
            let (shifted, first) = after_event(state, typing(shift, character)[0], triggers);
            let (after, second) = after_event(shifted, typing(shift, character)[1], triggers);
            let parser = consumed(state.parser, character);
            &&& first == KeyActionView::Nothing
            &&& !after.is_ctrl
            &&& after.parser == settled(parser)
            &&& second == match tag_command(parser, triggers) {
                Some(command) => KeyActionView::RunTag(command),
                None => KeyActionView::Nothing,
            }
        }),
{
    lemma_typing_keys(character);
    law_characters_round_trip(character);
}

/// Pressing Backspace after a key takes back the key's character, unless that
/// completed a tag or made the parser forget everything.
pub proof fn law_backspace_takes_back_a_character(
    state: KeyboardView,
    shift: u32,
    character: char,
    triggers: Map<Seq<char>, Seq<Seq<char>>>,
)
    requires
        !state.is_ctrl,
        is_either_shift(shift),
        key_of(character) is Some,
        advanced(state.parser.state, state.parser.text, character) is Some,
        consumed(state.parser, character).state !is ClosedTag,
    ensures
        ({
            let shifted = after_event(state, typing(shift, character)[0], triggers).0;
            let typed = after_event(shifted, typing(shift, character)[1], triggers).0;
            after_event(typed, press(KEY_BACKSPACE), triggers).0.parser == state.parser
        }),
{
    law_typing_feeds_the_parser(state, shift, character, triggers);
    law_remove_char_undoes_consume(state.parser, character);
    lemma_backspace_types_nothing(true);
    lemma_backspace_types_nothing(false);
}

/// Typing a text that completes a tag with its last character only.
proof fn lemma_typing(
    state: KeyboardView,
    shifts: Seq<u32>,
    text: Seq<char>,
    triggers: Map<Seq<char>, Seq<Seq<char>>>,
)
    requires
        !state.is_ctrl,
        are_shifts(shifts, text),
        is_typable(text),
        forall|n: int|
            1 <= n < text.len() ==> (#[trigger] fed(state.parser, text.take(n))).state !is ClosedTag,
    ensures
        ({
            let (after, actions) = after_events(state, typing_all(shifts, text), triggers);
            let parser = fed(state.parser, text);
            &&& !after.is_ctrl
            &&& after.parser == if text.len() == 0 {
                state.parser
            } else {
                settled(parser)
            }
            &&& actions.len() == 2 * text.len()
            &&& forall|i: int|
                0 <= i < actions.len() - 1 ==> #[trigger] actions[i] == KeyActionView::Nothing
            &&& text.len() > 0 ==> actions.last() == match tag_command(parser, triggers) {
                Some(command) => KeyActionView::RunTag(command),
                None => KeyActionView::Nothing,
            }
        }),
    decreases text.len(),
{
    if text.len() > 0 {
        let rest = text.drop_last();
        assert forall|n: int| 1 <= n < rest.len() implies (#[trigger] fed(
            state.parser,
            rest.take(n),
        )).state !is ClosedTag by {
            assert(rest.take(n) =~= text.take(n));
        }
        assert(is_typable(rest)) by {
            assert forall|i: int| 0 <= i < rest.len() implies (#[trigger] key_of(
                rest[i],
            )) is Some by {
                assert(rest[i] == text[i]);
            }
        }
        assert(are_shifts(shifts, rest)) by {
            assert forall|i: int| 0 <= i < rest.len() implies is_either_shift(
                #[trigger] shifts[i],
            ) by {
                assert(0 <= i < text.len());
            }
        }
        lemma_typing(state, shifts, rest, triggers);
        let shift = shifts[text.len() - 1];
        let c = text.last();
        assert(key_of(text[text.len() - 1]) is Some);
        let (before, actions) = after_events(state, typing_all(shifts, rest), triggers);
        if rest.len() > 0 {
            assert(rest =~= text.take(rest.len() as int));
            assert(fed(state.parser, text.take(rest.len() as int)).state !is ClosedTag);
            assert(tag_command(fed(state.parser, rest), triggers) is None);
        }
        assert(before.parser == fed(state.parser, rest));
        law_typing_feeds_the_parser(before, shift, c, triggers);
        let events = typing_all(shifts, rest) + typing(shift, c);
        let most = events.drop_last();
        assert(most =~= typing_all(shifts, rest).push(typing(shift, c)[0]));
        assert(most.drop_last() =~= typing_all(shifts, rest));
        let (shifted, first) = after_event(before, typing(shift, c)[0], triggers);
        assert(after_events(state, most, triggers) == (shifted, actions.push(first)));
        let (after, second) = after_event(shifted, typing(shift, c)[1], triggers);
        assert(after_events(state, events, triggers) == (after, actions.push(first).push(second)));
    }
}

/// Typing a complete tag whose name is a trigger runs the trigger's command,
/// with the tag's content, when the last character is typed, and nothing
/// before that, whichever shift keys are used.
pub proof fn law_typed_tags_run_their_commands(
    state: KeyboardView,
    shifts: Seq<u32>,
    name: Seq<char>,
    content: Option<Seq<char>>,
    triggers: Map<Seq<char>, Seq<Seq<char>>>,
)
    requires
        !state.is_ctrl,
        state.parser.state is ExpectTagName,
        !name.contains('>'),
        !name.contains('/'),
        content matches Some(content) ==> !content.contains('<'),
        runnable_command(triggers, trimmed(name)) is Some,
        is_typable(
            match content {
                Some(content) => element(name, content),
                None => self_closing_tag(name),
            },
        ),
        are_shifts(
            shifts,
            match content {
                Some(content) => element(name, content),
                None => self_closing_tag(name),
            },
        ),
    ensures
        ({
            let text = match content {
                Some(content) => element(name, content),
                None => self_closing_tag(name),
            };
            let command = runnable_command(triggers, trimmed(name))->0;
            let actions = after_events(state, typing_all(shifts, text), triggers).1;
            &&& actions.len() == 2 * text.len()
            &&& forall|i: int|
                0 <= i < actions.len() - 1 ==> #[trigger] actions[i] == KeyActionView::Nothing
            &&& actions.last() == KeyActionView::RunTag(
                TagCommandView {
                    tag_name: trimmed(name),
                    content,
                    tag_text: text,
                    command: command[0],
                    options: command.skip(1),
                    target: target_of(trimmed(name)),
                },
            )
        }),
{
    match content {
        Some(content) => {
            let text = element(name, content);
            assert forall|n: int| 1 <= n < text.len() implies (#[trigger] fed(
                state.parser,
                text.take(n),
            )).state !is ClosedTag by {
                lemma_element_prefix(state.parser, name, content, n);
            }
            law_element_is_parsed(state.parser, name, content);
            lemma_typing(state, shifts, text, triggers);
        },
        None => {
            let text = self_closing_tag(name);
            assert forall|n: int| 1 <= n < text.len() implies (#[trigger] fed(
                state.parser,
                text.take(n),
            )).state !is ClosedTag by {
                lemma_self_closing_tag_prefix(state.parser, name, n);
            }
            law_self_closing_tag_is_parsed(state.parser, name);
            lemma_typing(state, shifts, text, triggers);
        },
    }
}

/// A trigger is found whatever the letter case of the name that is looked up.
pub proof fn law_lookup_ignores_letter_case(
    triggers: Map<Seq<char>, Seq<Seq<char>>>,
    first: Seq<char>,
    second: Seq<char>,
)
    requires
        folded(first) == folded(second),
    ensures
        command_for(triggers, first) == command_for(triggers, second),
{
    assert(has_name(triggers, first) == has_name(triggers, second));
    assert((|key: Seq<char>| triggers.dom().contains(key) && folded(key) == folded(first)) =~= (
    |key: Seq<char>| triggers.dom().contains(key) && folded(key) == folded(second)));
}

/// A configured trigger is found under its name.
pub proof fn law_configured_triggers_are_found(
    triggers: Map<Seq<char>, Seq<Seq<char>>>,
    key: Seq<char>,
    name: Seq<char>,
)
    requires
        case_distinct(triggers),
        triggers.dom().contains(key),
        folded(key) == folded(name),
    ensures
        command_for(triggers, name) == Some(triggers[key]),
{
    let found = choose|found: Seq<char>| #[trigger]
        triggers.dom().contains(found) && folded(found) == folded(name);
    assert(triggers.dom().contains(found));
}

/// The Ctrl+Shift+C gesture always means a terminal.
pub proof fn law_shifted_copies_target_terminals(captured: Seq<char>)
    ensures
        clipboard_target(true, captured) == TargetKind::Terminal,
{
}

/// A shift key that goes down or repeats sets the shift state and one that
/// goes up clears it, whichever of the two it is. Nothing else changes.
pub proof fn law_either_shift_key_is_followed(
    state: KeyboardView,
    event: InputEvent,
    triggers: Map<Seq<char>, Seq<Seq<char>>>,
)
    requires
        event.kind == 1,
        event.code == 42 || event.code == 54,
    ensures
        ({
            let (after, action) = after_event(state, event, triggers);
            &&& after.is_shifted == (event.value != 0)
            &&& after.is_ctrl == state.is_ctrl
            &&& after.parser == state.parser
            &&& action == KeyActionView::Nothing
        }),
{
}

/// A control key that goes down or repeats sets the control state and one that
/// goes up clears it, whichever of the two it is. Nothing else changes.
pub proof fn law_either_control_key_is_followed(
    state: KeyboardView,
    event: InputEvent,
    triggers: Map<Seq<char>, Seq<Seq<char>>>,
)
    requires
        event.kind == 1,
        event.code == 29 || event.code == 97,
    ensures
        ({
            let (after, action) = after_event(state, event, triggers);
            &&& after.is_ctrl == (event.value != 0)
            &&& after.is_shifted == state.is_shifted
            &&& after.parser == state.parser
            &&& action == KeyActionView::Nothing
        }),
{
}

/// No other key and no other kind of event changes the shift or the control
/// state.
pub proof fn law_other_events_leave_the_modifiers(
    state: KeyboardView,
    event: InputEvent,
    triggers: Map<Seq<char>, Seq<Seq<char>>>,
)
    requires
        event.kind != 1 || (event.code != 42 && event.code != 54 && event.code != 29 && event.code
            != 97),
    ensures
        after_event(state, event, triggers).0.is_shifted == state.is_shifted,
        after_event(state, event, triggers).0.is_ctrl == state.is_ctrl,
{
}

/// Events that are no key events, releases and repeats of keys other than
/// modifiers do nothing at all.
pub proof fn law_releases_and_repeats_do_nothing(
    state: KeyboardView,
    event: InputEvent,
    triggers: Map<Seq<char>, Seq<Seq<char>>>,
)
    requires
        event.kind != 1 || ((event.value == 0 || event.value == 2) && event.code != 42
            && event.code != 54 && event.code != 29 && event.code != 97),
    ensures
        after_event(state, event, triggers) == (state, KeyActionView::Nothing),
{
}

/// A copy gesture is C going down while a control key is held, and nothing else
/// is one. It tells whether a shift key was held, and changes nothing.
pub proof fn law_copy_gestures(
    state: KeyboardView,
    event: InputEvent,
    triggers: Map<Seq<char>, Seq<Seq<char>>>,
)
    ensures
        after_event(state, event, triggers).1 is CopyGesture <==> (event.kind == 1 && event.code
            == 46 && event.value == 1 && state.is_ctrl),
        after_event(state, event, triggers).1 matches KeyActionView::CopyGesture { is_shifted } ==> {
            &&& is_shifted == state.is_shifted
            &&& after_event(state, event, triggers).0 == state
        },
{
}

/// A press of a key that produces a character in the present shift state
/// feeds that character to the parser, whether or not a control key is held,
/// unless it is the copy gesture. A completed tag leaves a parser that has seen
/// nothing.
pub proof fn law_presses_feed_their_character(
    state: KeyboardView,
    event: InputEvent,
    character: char,
    triggers: Map<Seq<char>, Seq<Seq<char>>>,
)
    requires
        event.kind == 1,
        event.value == 1,
        key_of(character) matches Some(key) && key.keycode == event.code && key.is_shifted
            == state.is_shifted,
        !(state.is_ctrl && event.code == 46),
    ensures
        ({
            let (after, action) = after_event(state, event, triggers);
            let parser = consumed(state.parser, character);
            &&& parser.state !is ClosedTag ==> after.parser == parser && action
                == KeyActionView::Nothing
            &&& parser.state is ClosedTag ==> {
                &&& after.parser.state is ExpectTagName
                &&& after.parser.text.len() == 0
                &&& after.parser.history.len() == 0
            }
        }),
{
    lemma_typing_keys(character);
    law_characters_round_trip(character);
}

/// A press of Backspace takes the last character back; a press of any other
/// key that produces no character makes the parser forget everything.
pub proof fn law_presses_without_a_character(
    state: KeyboardView,
    event: InputEvent,
    triggers: Map<Seq<char>, Seq<Seq<char>>>,
)
    requires
        event.kind == 1,
        event.value == 1,
        event.code != 42 && event.code != 54 && event.code != 29 && event.code != 97,
        forall|character: char|
            (#[trigger] key_of(character)) matches Some(key) ==> key.keycode != event.code
                || key.is_shifted != state.is_shifted,
    ensures
        ({
            let (after, action) = after_event(state, event, triggers);
            &&& action !is RunTag
            &&& event.code == 14 ==> after.parser == reverted(state.parser)
            &&& event.code != 14 && !(state.is_ctrl && event.code == 46) ==> after.parser == fresh()
        }),
{
    let code = event.code as u32;
    if let Some(c) = char_of(code, state.is_shifted) {
        crate::keycode::law_keys_round_trip(code, state.is_shifted);
        assert(key_of(c) is Some);
    }
    lemma_backspace_types_nothing(true);
    lemma_backspace_types_nothing(false);
}

/// The target of a tag is a terminal if and only if its name holds none of the
/// letters `a` to `z`.
pub proof fn law_small_letters_mean_a_gui(name: Seq<char>)
    ensures
        target_of(name) == TargetKind::Gui <==> exists|i: int|
            0 <= i < name.len() && 'a' <= #[trigger] name[i] <= 'z',
        target_of(name) == TargetKind::Terminal || target_of(name) == TargetKind::Gui,
{
    if !is_all_caps(name) {
        let i = choose|i: int| 0 <= i < name.len() && is_lower(#[trigger] name[i]);
        assert('a' <= name[i] <= 'z');
    }
    if exists|i: int| 0 <= i < name.len() && 'a' <= #[trigger] name[i] <= 'z' {
        let i = choose|i: int| 0 <= i < name.len() && 'a' <= #[trigger] name[i] <= 'z';
        assert(is_lower(name[i]));
    }
}

/// Whether `:?` stands nowhere in a text.
pub open spec fn has_no_separator(s: Seq<char>) -> bool {
    forall|i: int| 0 <= i < s.len() - 1 && #[trigger] s[i] == ':' ==> s[i + 1] != '?'
}

/// Copied text is split at its first `:?`: what stands before it is the name,
/// what stands behind it the argument, if anything does. Without a `:?`, or
/// with nothing before it, there is no tag.
pub proof fn law_copied_text_is_split_at_the_separator(name: Seq<char>, arg: Seq<char>)
    requires
        has_no_separator(name),
    ensures
        tag_parts(name, ":?"@) is None,
        tag_parts(name + seq![':', '?'] + arg, ":?"@) == if name.len() == 0 {
            None
        } else if arg.len() == 0 {
            Some((name, None))
        } else {
            Some((name, Some(arg)))
        },
{
    reveal_strlit(":?");
    let separator = ":?"@;
    assert(separator =~= seq![':', '?']);
    lemma_first_occurrence(name, separator, 0);
    if let Some(at) = first_occurrence(name, separator, 0) {
        assert(name.subrange(at, at + 2)[0] == ':' && name.subrange(at, at + 2)[1] == '?');
        assert(name[at] == ':' && name[at + 1] == '?');
    }
    let text = name + seq![':', '?'] + arg;
    let here = name.len() as int;
    lemma_first_occurrence(text, separator, 0);
    assert(occurs_at(text, separator, here)) by {
        assert(text.subrange(here, here + 2) =~= separator);
    }
    let at = first_occurrence(text, separator, 0)->0;
    assert(at == here) by {
        if at < here {
            assert(text.subrange(at, at + 2)[0] == ':' && text.subrange(at, at + 2)[1] == '?');
            assert(text[at] == ':' && text[at + 1] == '?');
            assert(name[at] == ':');
            if at + 1 < here {
                assert(name[at + 1] == '?');
            }
        }
    }
    assert(text.take(here) =~= name);
    assert(text.skip(here + 2) =~= arg);
}

/// Copied text with the name of a trigger runs the trigger's command, whatever
/// the letter case and the white space around the name: with the argument in
/// place of its placeholder, or as it is configured where there is neither an
/// argument nor a placeholder.
pub proof fn law_copied_tags_run_their_commands(
    result: std::result::Result<Vec<String>, ClipboardTagError>,
    triggers: Map<Seq<char>, Seq<Seq<char>>>,
    key: Seq<char>,
    name: Seq<char>,
    arg: Seq<char>,
)
    requires
        case_distinct(triggers),
        triggers.dom().contains(key),
        triggers[key].len() > 0,
        folded(key) == folded(trimmed(name)),
        name.len() > 0,
        has_no_separator(name),
        is_clipboard_command(result, triggers, name + seq![':', '?'] + arg),
    ensures
        ({
            let command = triggers[key];
            if arg.len() > 0 {
                match expansion(command[0], command.skip(1), seq![arg]) {
                    Ok(line) => result matches Ok(out) && texts_view(out@) == line,
                    Err(_) => result matches Err(
                        ClipboardTagError::ExpansionFailed { tag_name, .. },
                    ) && tag_name@ == name,
                }
            } else if forall|i: int|
                0 <= i < command.len() ==> crate::command::is_solid(#[trigger] command[i]) {
                result matches Ok(out) && texts_view(out@) == command
            } else {
                result matches Err(ClipboardTagError::ExpansionFailed { tag_name, .. }) && tag_name@
                    == name
            }
        }),
{
    law_copied_text_is_split_at_the_separator(name, arg);
    law_configured_triggers_are_found(triggers, key, trimmed(name));
    let command = triggers[key];
    assert forall|i: int| 0 <= i < command.len() implies contains_placeholder(#[trigger] command[i])
        == !crate::command::is_solid(command[i]) by {
        let word = command[i];
        if contains_placeholder(word) {
            let at = choose|at: int| crate::command::placeholder_at(word, at);
            assert(word[at] == '{');
        }
        if !crate::command::is_solid(word) {
            let at = choose|at: int|
                0 <= at < word.len() - 1 && #[trigger] word[at] == '{' && word[at + 1] == '}';
            assert(crate::command::placeholder_at(word, at));
        }
    }
}

/// Copied text without a tag and copied text whose name is no trigger run
/// nothing; the latter is told with its name.
pub proof fn law_other_copied_text_runs_nothing(
    result: std::result::Result<Vec<String>, ClipboardTagError>,
    triggers: Map<Seq<char>, Seq<Seq<char>>>,
    name: Seq<char>,
    arg: Seq<char>,
)
    requires
        has_no_separator(name),
    ensures
        is_clipboard_command(result, triggers, name) ==> result == Err::<
            Vec<String>,
            ClipboardTagError,
        >(ClipboardTagError::NoTag),
        name.len() > 0 && is_clipboard_command(result, triggers, name + seq![':', '?'] + arg) && (
        forall|key: Seq<char>| #[trigger]
            triggers.dom().contains(key) ==> folded(key) != folded(trimmed(name))) ==> (
        result matches Err(ClipboardTagError::UnknownTag { tag_name }) && tag_name@ == name),
{
    law_copied_text_is_split_at_the_separator(name, arg);
}

/// A copy gesture on text with the name of a trigger runs its command, for a
/// terminal if Shift was held or the name has no small letters, and remembers
/// how many characters were copied. Text that is blank or cannot be read runs
/// nothing.
pub proof fn law_copies_run_their_commands(
    outcome: CopyOutcome,
    is_shifted: bool,
    captured: String,
    reason: String,
    triggers: Map<Seq<char>, Seq<Seq<char>>>,
    name: Seq<char>,
    arg: Seq<char>,
)
    requires
        captured@ == name + seq![':', '?'] + arg,
        name.len() > 0,
        has_no_separator(name),
    ensures
        is_copy_outcome(outcome, is_shifted, Err(reason), triggers) ==> outcome is Unreadable,
        is_copy_outcome(outcome, is_shifted, Ok(captured), triggers) && trimmed(captured@).len() == 0
            ==> outcome is Blank,
        is_copy_outcome(outcome, is_shifted, Ok(captured), triggers) && trimmed(captured@).len() > 0
            ==> match outcome {
            CopyOutcome::Run(command) => {
                &&& is_clipboard_command(Ok(command.line), triggers, captured@)
                &&& command.trigger_len == captured@.len()
                &&& command.target == TargetKind::Terminal <==> is_shifted || forall|i: int|
                    0 <= i < trimmed(name).len() ==> !('a' <= #[trigger] trimmed(name)[i] <= 'z')
            },
            CopyOutcome::Unresolved(error) => is_clipboard_command(
                Err(error),
                triggers,
                captured@,
            ),
            _ => false,
        },
{
    law_copied_text_is_split_at_the_separator(name, arg);
    law_small_letters_mean_a_gui(trimmed(name));
    if exists|i: int| 0 <= i < trimmed(name).len() && 'a' <= #[trigger] trimmed(name)[i] <= 'z' {
        assert(target_of(trimmed(name)) == TargetKind::Gui);
    } else {
        assert(target_of(trimmed(name)) == TargetKind::Terminal);
    }
}

/// The command line of a tag without content is the command as it is
/// configured. That of a tag with content has the content, sanitized, where
/// the placeholder stood; in the script of a shell a reference stands there and
/// the content follows as an argument of its own.
pub proof fn law_tags_fill_their_commands(
    command: Seq<char>,
    options: Seq<Seq<char>>,
    before: Seq<char>,
    content: Seq<char>,
    after: Seq<char>,
)
    requires
        crate::command::is_solid(before),
        crate::command::is_solid(after),
    ensures
        tag_line(command, options, None) == Ok::<Seq<Seq<char>>, Seq<char>>(
            seq![command] + options,
        ),
        !crate::command::is_shell(command) ==> tag_line(
            command,
            seq![before + seq!['{', '}'] + after],
            Some(content),
        ) == Ok::<Seq<Seq<char>>, Seq<char>>(
            seq![command, before + crate::command::sanitized(content) + after],
        ),
        crate::command::is_shell(command) && !before.contains('\\') && !after.contains('\\')
            ==> {
            let line = tag_line(
                command,
                seq!["-c"@, before + seq!['{', '}'] + after],
                Some(content),
            );
            &&& line matches Ok(out)
            &&& out.len() == 5
            &&& out[0] == command
            &&& out[1] == "-c"@
            &&& out[2] == before + crate::command::reference(
                crate::command::context_behind(before),
                1,
            ) + after
            &&& out[3] == "baan"@
            &&& out[4] == crate::command::sanitized(content)
        },
{
    crate::command::law_one_placeholder(command, before, content, after);
}

/// What a command's output is applied to is what the command was run for: the
/// text of its tag, or as many characters as were copied, and its target.
pub proof fn law_results_keep_their_target(
    tag: TagCommand,
    copied: ClipboardCommand,
    text: String,
)
    ensures
        tag_result(tag, text) matches CommandResult::ReplaceTag { tag_text, output, target }
            && tag_text == tag.tag_text && output == text && target == tag.target,
        copied_result(copied, text) matches CommandResult::SetClipboard {
            output,
            target,
            trigger_len,
        } && output == text && target == copied.target && trigger_len == copied.trigger_len,
{
}

/// A trigger runs the whole command that is configured for it, whatever the
/// letter case of its name. A trigger without any words, and a name that is no
/// trigger, run nothing.
pub proof fn law_triggers_run_their_whole_command(
    triggers: Map<Seq<char>, Seq<Seq<char>>>,
    key: Seq<char>,
    name: Seq<char>,
)
    ensures
        case_distinct(triggers) && triggers.dom().contains(key) && folded(key) == folded(name)
            && triggers[key].len() > 0 ==> runnable_command(triggers, name) == Some(triggers[key]),
        case_distinct(triggers) && triggers.dom().contains(key) && folded(key) == folded(name)
            && triggers[key].len() == 0 ==> runnable_command(triggers, name) is None,
        (forall|other: Seq<char>| #[trigger]
            triggers.dom().contains(other) ==> folded(other) != folded(name)) ==> runnable_command(
            triggers,
            name,
        ) is None,
{
    if case_distinct(triggers) && triggers.dom().contains(key) && folded(key) == folded(name) {
        law_configured_triggers_are_found(triggers, key, name);
    }
}

/// A keyboard of which nothing is known has no modifier held and no tag begun.
pub proof fn law_an_idle_keyboard()
    ensures
        !idle().is_shifted,
        !idle().is_ctrl,
        idle().parser.state is ExpectTagName,
        idle().parser.text.len() == 0,
        idle().parser.history.len() == 0,
{
}

/// What is known of a command is what it holds.
pub proof fn law_commands_are_seen_whole(command: TagCommand)
    ensures
        command@.tag_name == command.tag_name@,
        command@.tag_text == command.tag_text@,
        command@.command == command.command@,
        command@.target == command.target,
        command@.options == texts_view(command.options@),
        match command.content {
            Some(content) => command@.content == Some(content@),
            None => command@.content is None,
        },
{
}

/// Every event that is read is forwarded and handled; an interrupted read is
/// tried again; an error is told and ends the reading, and so does the loss of
/// the reader. Waiting in vain handles nothing.
pub proof fn law_every_event_is_handled(
    event: InputEvent,
    error: BaanError,
    step: ReaderStep,
    next: NextKeyboardEvent,
    text: String,
)
    ensures
        is_reader_step(Ok(Some(event)), step) ==> step == ReaderStep::Forward(
            KeyboardReaderMessage::Event(event),
        ),
        is_reader_step(Ok(None), step) ==> step == ReaderStep::Retry,
        is_reader_step(Err(error), step) ==> (step matches ReaderStep::Stop(
            KeyboardReaderMessage::Error(_),
        )),
        next_event(Received::Message(KeyboardReaderMessage::Event(event)))
            == NextKeyboardEvent::Event(event),
        next_event(Received::Message(KeyboardReaderMessage::Error(text)))
            == NextKeyboardEvent::Stop,
        next_event(Received::Timeout) == NextKeyboardEvent::Pending,
        next_event(Received::Disconnected) == NextKeyboardEvent::Stop,
{
}

/// A command is run only for a tag that the event completes and whose name is a
/// trigger: its words are those configured for the trigger, its content and
/// text those of the tag, and its target goes by the letters of the name.
pub proof fn law_commands_that_run_are_configured(
    state: KeyboardView,
    event: InputEvent,
    triggers: Map<Seq<char>, Seq<Seq<char>>>,
)
    ensures
        after_event(state, event, triggers).1 matches KeyActionView::RunTag(command) ==> {
            &&& event.kind == 1 && event.value != 0 && event.value != 2
            &&& char_of(event.code as u32, state.is_shifted) is Some
            &&& exists|key: Seq<char>| #[trigger]
                triggers.dom().contains(key) && folded(key) == folded(command.tag_name)
                    && triggers[key] == seq![command.command] + command.options
            &&& ({
                let c = char_of(event.code as u32, state.is_shifted)->0;
                &&& consumed(state.parser, c).state matches TagState::ClosedTag {
                    tag_name,
                    content,
                }
                &&& command.tag_name == trimmed(tag_name)
                &&& command.content == content
                &&& command.tag_text == consumed(state.parser, c).text
            })
            &&& command.target == TargetKind::Gui <==> exists|i: int|
                0 <= i < command.tag_name.len() && 'a' <= #[trigger] command.tag_name[i] <= 'z'
        },
{
    if let KeyActionView::RunTag(command) = after_event(state, event, triggers).1 {
        law_small_letters_mean_a_gui(command.tag_name);
        let key = choose|key: Seq<char>| #[trigger]
            triggers.dom().contains(key) && folded(key) == folded(command.tag_name);
        assert(triggers.dom().contains(key));
        assert(triggers[key] =~= seq![command.command] + command.options);
    }
}

} // verus!
