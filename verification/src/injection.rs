//! Putting a command's output into the focused application.
//!
//! An [`Injection`] is one command result on its way there: it says what to do
//! next with the clipboard and the virtual keyboard, and takes what came of
//! it. [`Injection::run`] does it, up to the next pause.
use crate::clipboard::{ClipboardExchange, ClipboardOps};
use crate::config::Settings;
use crate::device::{KeyExchange, KeyInjector, KeyRequest};
use crate::engine::{CommandResult, TargetKind};
use crate::error::{BaanError, Result};
use crate::text::{
    chars_of, find, first_occurrence, lemma_first_occurrence, occurs_at, trim_end, trimmed_end,
};
use vstd::prelude::*;
use vstd::string::*;
use vstd::utf8::is_ascii_chars;

verus! {

/// Delay between line-selection steps during injection (milliseconds).
pub const SELECT_STEP_DELAY_MS: u64 = 50;

/// Where an injection stands: what it does next.
#[derive(Debug, Clone, Copy, PartialEq, Eq, Structural)]
pub enum Stage {
    /// Delete the trigger text before the cursor.
    DeleteTrigger,
    /// Put the output on the clipboard.
    PutOutput,
    /// Wait for clipboard ownership to register.
    AwaitOutput,
    /// Paste the output.
    PasteOutput,
    /// Let the application process the last keys.
    Settle,
    /// Save the clipboard so it can be restored.
    SaveClipboard,
    /// Delete the tag before the cursor.
    DeleteTag,
    /// Select the entire current line.
    SelectLine,
    /// Let the selection register.
    AwaitSelection,
    /// Copy the line.
    CopyLine,
    /// Let the copy land.
    AwaitCopy,
    /// Read the line from the clipboard.
    ReadLine,
    /// Delete the tag at this position of the line.
    PositionAtTag(usize),
    /// Type the replacement.
    TypeReplacement,
    /// Put the replacement on the clipboard.
    PutReplacement,
    /// Wait for clipboard ownership to register.
    AwaitReplacement,
    /// Paste the replacement.
    PasteReplacement,
    /// Let the application's paste request be served.
    AwaitPaste,
    /// Restore the saved clipboard.
    Restore,
    /// Nothing: it is over.
    Done,
}

/// What to do about the clipboard once the replacement is in place.
#[derive(Debug)]
pub enum Restore {
    /// Leave it alone.
    Never,
    /// Put this text back if the replacement was pasted from the clipboard.
    IfPasted(String),
    /// Put this text back.
    Always(String),
}

/// What a [`Restore`] holds.
#[verifier::ext_equal]
pub enum RestoreView {
    Never,
    IfPasted(Seq<char>),
    Always(Seq<char>),
}

impl View for Restore {
    type V = RestoreView;

    open spec fn view(&self) -> RestoreView {
        match self {
            Restore::Never => RestoreView::Never,
            Restore::IfPasted(text) => RestoreView::IfPasted(text@),
            Restore::Always(text) => RestoreView::Always(text@),
        }
    }
}

/// What to do next with the clipboard or the virtual keyboard.
#[derive(Debug)]
pub enum Action {
    /// Wait this many milliseconds.
    Pause(u64),
    ReadClipboard,
    WriteClipboard(String),
    /// Press Backspace this many times.
    Backspace(usize),
    SelectLine,
    /// Press the copy shortcut of GUI apps.
    CopySelection,
    /// Delete `len` characters of the line, from position `pos` on.
    PositionAtTag { pos: usize, len: usize },
    TypeText(String),
    /// Press the paste shortcut of the target.
    Paste(TargetKind),
    /// Nothing more.
    Finished,
}

/// What an [`Action`] holds.
#[verifier::ext_equal]
pub enum ActionView {
    Pause(u64),
    ReadClipboard,
    WriteClipboard(Seq<char>),
    Backspace(nat),
    SelectLine,
    CopySelection,
    PositionAtTag { pos: nat, len: nat },
    TypeText(Seq<char>),
    Paste(TargetKind),
    Finished,
}

impl View for Action {
    type V = ActionView;

    open spec fn view(&self) -> ActionView {
        match self {
            Action::Pause(ms) => ActionView::Pause(*ms),
            Action::ReadClipboard => ActionView::ReadClipboard,
            Action::WriteClipboard(text) => ActionView::WriteClipboard(text@),
            Action::Backspace(n) => ActionView::Backspace(*n as nat),
            Action::SelectLine => ActionView::SelectLine,
            Action::CopySelection => ActionView::CopySelection,
            Action::PositionAtTag { pos, len } => ActionView::PositionAtTag {
                pos: *pos as nat,
                len: *len as nat,
            },
            Action::TypeText(text) => ActionView::TypeText(text@),
            Action::Paste(target) => ActionView::Paste(*target),
            Action::Finished => ActionView::Finished,
        }
    }
}

/// What came of an action.
#[derive(Debug)]
pub enum Outcome {
    /// It worked.
    Done,
    /// The clipboard holds this text.
    Text(String),
    /// The virtual keyboard failed.
    DeviceFailed(BaanError),
    /// The clipboard failed, in its own words.
    ClipboardFailed(String),
}

/// Why an injection ended early.
#[derive(Debug)]
pub enum Failure {
    Device(BaanError),
    Clipboard(String),
    /// The tag is not in the current line.
    TagNotFound,
}

/// One command result on its way to the focused application.
#[derive(Debug)]
pub struct Injection {
    /// The output, without white space at its end.
    text: String,
    /// The tag to replace.
    tag_text: String,
    target: TargetKind,
    /// How many characters of trigger text to delete.
    trigger_len: usize,
    settings: Settings,
    stage: Stage,
    restore: Restore,
    used_clipboard: bool,
    failure: Option<Failure>,
}

/// What an [`Injection`] holds.
#[verifier::ext_equal]
pub struct InjectionView {
    pub text: Seq<char>,
    pub tag_text: Seq<char>,
    pub target: TargetKind,
    pub trigger_len: nat,
    pub settings: Settings,
    pub stage: Stage,
    pub restore: RestoreView,
    /// The replacement was pasted from the clipboard.
    pub used_clipboard: bool,
    pub failure: Option<Failure>,
}

impl View for Injection {
    type V = InjectionView;

    closed spec fn view(&self) -> InjectionView {
        InjectionView {
            text: self.text@,
            tag_text: self.tag_text@,
            target: self.target,
            trigger_len: self.trigger_len as nat,
            settings: self.settings,
            stage: self.stage,
            restore: self.restore@,
            used_clipboard: self.used_clipboard,
            failure: self.failure,
        }
    }
}

/// What an injection does next.
pub open spec fn action_of(injection: InjectionView) -> ActionView {
    let settings = injection.settings;
    match injection.stage {
        Stage::DeleteTrigger => ActionView::Backspace(injection.trigger_len),
        Stage::PutOutput => ActionView::WriteClipboard(injection.text),
        Stage::AwaitOutput => ActionView::Pause(settings.clipboard_write_delay_ms),
        Stage::PasteOutput => ActionView::Paste(injection.target),
        Stage::Settle => ActionView::Pause(settings.flush_delay_ms),
        Stage::SaveClipboard => ActionView::ReadClipboard,
        Stage::DeleteTag => ActionView::Backspace(injection.tag_text.len()),
        Stage::SelectLine => ActionView::SelectLine,
        Stage::AwaitSelection => ActionView::Pause(SELECT_STEP_DELAY_MS),
        Stage::CopyLine => ActionView::CopySelection,
        Stage::AwaitCopy => ActionView::Pause(settings.clipboard_read_delay_ms),
        Stage::ReadLine => ActionView::ReadClipboard,
        Stage::PositionAtTag(pos) => ActionView::PositionAtTag {
            pos: pos as nat,
            len: injection.tag_text.len(),
        },
        Stage::TypeReplacement => ActionView::TypeText(injection.text),
        Stage::PutReplacement => ActionView::WriteClipboard(injection.text),
        Stage::AwaitReplacement => ActionView::Pause(settings.clipboard_write_delay_ms),
        Stage::PasteReplacement => ActionView::Paste(injection.target),
        Stage::AwaitPaste => ActionView::Pause(settings.clipboard_write_delay_ms),
        Stage::Restore => match injection.restore {
            RestoreView::Never => ActionView::Finished,
            RestoreView::IfPasted(text) => ActionView::WriteClipboard(text),
            RestoreView::Always(text) => ActionView::WriteClipboard(text),
        },
        Stage::Done => ActionView::Finished,
    }
}

/// The first stage of putting the replacement in place: ASCII is typed, other
/// text goes through the clipboard.
pub open spec fn replacement_stage(text: Seq<char>) -> Stage {
    if is_ascii_chars(text) {
        Stage::TypeReplacement
    } else {
        Stage::PutReplacement
    }
}

/// The stage once the replacement is in place.
pub open spec fn replaced_stage(restore: RestoreView, pasted: bool) -> Stage {
    match restore {
        RestoreView::Never => Stage::Done,
        RestoreView::IfPasted(_) => if pasted {
            Stage::AwaitPaste
        } else {
            Stage::Done
        },
        RestoreView::Always(_) => if pasted {
            Stage::AwaitPaste
        } else {
            Stage::Restore
        },
    }
}

/// The failure that an outcome is.
pub open spec fn failure_of(outcome: Outcome) -> Option<Failure> {
    match outcome {
        Outcome::DeviceFailed(error) => Some(Failure::Device(error)),
        Outcome::ClipboardFailed(text) => Some(Failure::Clipboard(text)),
        _ => None,
    }
}

/// The text that an outcome brings.
pub open spec fn text_in(outcome: Outcome) -> Seq<char> {
    match outcome {
        Outcome::Text(text) => text@,
        _ => Seq::empty(),
    }
}

/// The injection at another stage.
pub open spec fn at(injection: InjectionView, stage: Stage) -> InjectionView {
    InjectionView { stage, ..injection }
}

/// The injection after an outcome that ends it if it is a failure.
pub open spec fn unless_failed(injection: InjectionView, outcome: Outcome, stage: Stage) -> InjectionView {
    if failure_of(outcome) is Some {
        InjectionView { stage: Stage::Done, failure: failure_of(outcome), ..injection }
    } else {
        at(injection, stage)
    }
}

/// The injection once this came of its action.
pub open spec fn stepped(injection: InjectionView, outcome: Outcome) -> InjectionView {
    match injection.stage {
        Stage::DeleteTrigger => at(injection, Stage::PutOutput),
        Stage::PutOutput => unless_failed(injection, outcome, Stage::AwaitOutput),
        Stage::AwaitOutput => at(injection, Stage::PasteOutput),
        Stage::PasteOutput => unless_failed(injection, outcome, Stage::Done),
        Stage::Settle => at(injection, Stage::SaveClipboard),
        Stage::SaveClipboard => match injection.target {
            TargetKind::Terminal => InjectionView {
                stage: Stage::DeleteTag,
                restore: RestoreView::IfPasted(text_in(outcome)),
                ..injection
            },
            TargetKind::Gui => InjectionView {
                stage: Stage::SelectLine,
                restore: RestoreView::Always(text_in(outcome)),
                ..injection
            },
        },
        Stage::DeleteTag => unless_failed(injection, outcome, replacement_stage(injection.text)),
        Stage::SelectLine => unless_failed(injection, outcome, Stage::AwaitSelection),
        Stage::AwaitSelection => at(injection, Stage::CopyLine),
        Stage::CopyLine => unless_failed(injection, outcome, Stage::AwaitCopy),
        Stage::AwaitCopy => at(injection, Stage::ReadLine),
        Stage::ReadLine => if failure_of(outcome) is Some {
            unless_failed(injection, outcome, Stage::Done)
        } else {
            match first_occurrence(text_in(outcome), injection.tag_text, 0) {
                Some(pos) => at(injection, Stage::PositionAtTag(pos as usize)),
                None => InjectionView {
                    stage: Stage::Done,
                    failure: Some(Failure::TagNotFound),
                    ..injection
                },
            }
        },
        Stage::PositionAtTag(_) => unless_failed(
            injection,
            outcome,
            replacement_stage(injection.text),
        ),
        Stage::TypeReplacement => unless_failed(
            injection,
            outcome,
            replaced_stage(injection.restore, false),
        ),
        Stage::PutReplacement => unless_failed(injection, outcome, Stage::AwaitReplacement),
        Stage::AwaitReplacement => at(injection, Stage::PasteReplacement),
        Stage::PasteReplacement => if failure_of(outcome) is Some {
            unless_failed(injection, outcome, Stage::Done)
        } else {
            InjectionView {
                stage: replaced_stage(injection.restore, true),
                used_clipboard: true,
                ..injection
            }
        },
        Stage::AwaitPaste => at(injection, Stage::Restore),
        Stage::Restore => unless_failed(injection, outcome, Stage::Done),
        Stage::Done => injection,
    }
}

/// The number of actions that an injection can still take.
pub open spec fn actions_left(stage: Stage) -> nat {
    match stage {
        Stage::DeleteTrigger => 4,
        Stage::PutOutput => 3,
        Stage::AwaitOutput => 2,
        Stage::PasteOutput => 1,
        Stage::Settle => 14,
        Stage::SaveClipboard => 13,
        Stage::SelectLine => 12,
        Stage::AwaitSelection => 11,
        Stage::CopyLine => 10,
        Stage::AwaitCopy => 9,
        Stage::ReadLine => 8,
        Stage::PositionAtTag(_) => 7,
        Stage::DeleteTag => 7,
        Stage::TypeReplacement => 6,
        Stage::PutReplacement => 6,
        Stage::AwaitReplacement => 5,
        Stage::PasteReplacement => 4,
        Stage::AwaitPaste => 3,
        Stage::Restore => 2,
        Stage::Done => 0,
    }
}

/// An injection that puts output on the clipboard and pastes it.
pub open spec fn set_clipboard_start(
    output: Seq<char>,
    target: TargetKind,
    trigger_len: nat,
    settings: Settings,
) -> InjectionView {
    InjectionView {
        text: trimmed_end(output),
        tag_text: Seq::empty(),
        target,
        trigger_len,
        settings,
        stage: match target {
            TargetKind::Terminal => Stage::DeleteTrigger,
            TargetKind::Gui => Stage::PutOutput,
        },
        restore: RestoreView::Never,
        used_clipboard: false,
        failure: None,
    }
}

/// An injection that puts a replacement in place.
pub open spec fn replacement_start(
    replacement: Seq<char>,
    target: TargetKind,
    settings: Settings,
) -> InjectionView {
    InjectionView {
        text: replacement,
        tag_text: Seq::empty(),
        target,
        trigger_len: 0,
        settings,
        stage: replacement_stage(replacement),
        restore: RestoreView::Never,
        used_clipboard: false,
        failure: None,
    }
}

/// An injection that replaces a tag with output.
pub open spec fn replace_tag_start(
    tag_text: Seq<char>,
    output: Seq<char>,
    target: TargetKind,
    settings: Settings,
) -> InjectionView {
    InjectionView {
        text: trimmed_end(output),
        tag_text,
        target,
        trigger_len: 0,
        settings,
        stage: Stage::Settle,
        restore: RestoreView::Never,
        used_clipboard: false,
        failure: None,
    }
}

/// Applies a `SetClipboard` result: in terminals, first deletes the trigger
/// text (the `name:?arg` the user had on the command line — paste doesn't
/// replace a selection there like it does in GUI apps), then puts `output`
/// on the clipboard and pastes with the shortcut for `target`.
///
/// Failing to delete the trigger text doesn't stop the paste — the output
/// is on the clipboard either way.
pub fn handle_set_clipboard(
    output: String,
    target: TargetKind,
    trigger_len: usize,
    settings: &Settings,
) -> (injection: Injection)
    ensures
        injection@ == set_clipboard_start(output@, target, trigger_len as nat, *settings),
{
    Injection {
        text: trim_end(output.as_str()).to_owned(),
        tag_text: String::new(),
        target,
        trigger_len,
        settings: *settings,
        stage: match target {
            TargetKind::Terminal => Stage::DeleteTrigger,
            TargetKind::Gui => Stage::PutOutput,
        },
        restore: Restore::Never,
        used_clipboard: false,
        failure: None,
    }
}

/// Types `replacement` directly if it's ASCII, otherwise round-trips it
/// through the clipboard (for characters the virtual keyboard can't emit
/// directly) and pastes with the shortcut for `target`.
pub fn inject_replacement(replacement: &str, target: TargetKind, settings: &Settings) -> (injection:
    Injection)
    ensures
        injection@ == replacement_start(replacement@, target, *settings),
{
    let text = replacement.to_owned();
    let stage = if replacement.is_ascii() {
        Stage::TypeReplacement
    } else {
        Stage::PutReplacement
    };
    Injection {
        text,
        tag_text: String::new(),
        target,
        trigger_len: 0,
        settings: *settings,
        stage,
        restore: Restore::Never,
        used_clipboard: false,
        failure: None,
    }
}

/// Replaces `tag_text` on the current line with `output`.
///
/// GUI path: selects and copies the line to locate the tag, moves the
/// cursor to it, deletes it, and types/pastes the replacement — then
/// restores whatever was on the clipboard beforehand.
///
/// Terminal path: terminals can't select/copy a line via keyboard (no
/// Home/End support, Ctrl+C is SIGINT), so instead we rely on the fact that
/// the cursor is directly after the tag when it fired: delete it with plain
/// backspaces and type/paste the replacement.
pub fn handle_replace_tag(
    tag_text: String,
    output: String,
    target: TargetKind,
    settings: &Settings,
) -> (injection: Injection)
    ensures
        injection@ == replace_tag_start(tag_text@, output@, target, *settings),
{
    Injection {
        text: trim_end(output.as_str()).to_owned(),
        tag_text,
        target,
        trigger_len: 0,
        settings: *settings,
        stage: Stage::Settle,
        restore: Restore::Never,
        used_clipboard: false,
        failure: None,
    }
}

/// How a command result is applied.
pub open spec fn applied(result: CommandResult, settings: Settings) -> InjectionView {
    match result {
        CommandResult::SetClipboard { output, target, trigger_len } => set_clipboard_start(
            output@,
            target,
            trigger_len as nat,
            settings,
        ),
        CommandResult::ReplaceTag { tag_text, output, target } => replace_tag_start(
            tag_text@,
            output@,
            target,
            settings,
        ),
    }
}

/// Applies a command result.
pub fn apply_command_result(result: CommandResult, settings: &Settings) -> (injection: Injection)
    ensures
        injection@ == applied(result, *settings),
{
    match result {
        CommandResult::SetClipboard { output, target, trigger_len } => {
            handle_set_clipboard(output, target, trigger_len, settings)
        },
        CommandResult::ReplaceTag { tag_text, output, target } => {
            handle_replace_tag(tag_text, output, target, settings)
        },
    }
}

/// Whether a replacement came to this.
pub open spec fn is_replacement_result(result: Result<bool>, injection: InjectionView) -> bool {
    match injection.failure {
        None => result == Ok::<bool, BaanError>(injection.used_clipboard),
        Some(Failure::Device(error)) => result == Err::<bool, BaanError>(error),
        Some(Failure::Clipboard(text)) => {
            &&& result matches Err(BaanError::Write { detail, source })
            &&& detail@ == "clipboard (non-ASCII replacement)"@
            &&& source == plain_error(text@)
        },
        Some(Failure::TagNotFound) => result == Ok::<bool, BaanError>(false),
    }
}

/// The error of kind `Other` with this message.
pub uninterp spec fn plain_error(message: Seq<char>) -> std::io::Error;

/// Makes an error of kind `Other` with `std::io::Error::other`: a function of
/// the message alone, named `plain_error`.
#[verifier::external_body]
fn other_error(message: String) -> (error: std::io::Error)
    ensures
        error == plain_error(message@),
{
    std::io::Error::other(message)
}

impl Injection {
    /// What to do next.
    pub fn action(&self) -> (action: Action)
        ensures
            action@ == action_of(self@),
    {
        match self.stage {
            Stage::DeleteTrigger => Action::Backspace(self.trigger_len),
            Stage::PutOutput => Action::WriteClipboard(self.text.clone()),
            Stage::AwaitOutput => Action::Pause(self.settings.clipboard_write_delay_ms),
            Stage::PasteOutput => Action::Paste(self.target),
            Stage::Settle => Action::Pause(self.settings.flush_delay_ms),
            Stage::SaveClipboard => Action::ReadClipboard,
            Stage::DeleteTag => Action::Backspace(chars_of(self.tag_text.as_str()).len()),
            Stage::SelectLine => Action::SelectLine,
            Stage::AwaitSelection => Action::Pause(SELECT_STEP_DELAY_MS),
            Stage::CopyLine => Action::CopySelection,
            Stage::AwaitCopy => Action::Pause(self.settings.clipboard_read_delay_ms),
            Stage::ReadLine => Action::ReadClipboard,
            Stage::PositionAtTag(pos) => Action::PositionAtTag {
                pos,
                len: chars_of(self.tag_text.as_str()).len(),
            },
            Stage::TypeReplacement => Action::TypeText(self.text.clone()),
            Stage::PutReplacement => Action::WriteClipboard(self.text.clone()),
            Stage::AwaitReplacement => Action::Pause(self.settings.clipboard_write_delay_ms),
            Stage::PasteReplacement => Action::Paste(self.target),
            Stage::AwaitPaste => Action::Pause(self.settings.clipboard_write_delay_ms),
            Stage::Restore => match &self.restore {
                Restore::Never => Action::Finished,
                Restore::IfPasted(text) => Action::WriteClipboard(text.clone()),
                Restore::Always(text) => Action::WriteClipboard(text.clone()),
            },
            Stage::Done => Action::Finished,
        }
    }

    /// The stage once the tag is gone.
    fn next_replacement_stage(&self) -> (stage: Stage)
        ensures
            stage == replacement_stage(self@.text),
    {
        if self.text.as_str().is_ascii() {
            Stage::TypeReplacement
        } else {
            Stage::PutReplacement
        }
    }

    /// The stage once the replacement is in place.
    fn next_replaced_stage(&self, pasted: bool) -> (stage: Stage)
        ensures
            stage == replaced_stage(self@.restore, pasted),
    {
        match &self.restore {
            Restore::Never => Stage::Done,
            Restore::IfPasted(_) => if pasted {
                Stage::AwaitPaste
            } else {
                Stage::Done
            },
            Restore::Always(_) => if pasted {
                Stage::AwaitPaste
            } else {
                Stage::Restore
            },
        }
    }

    /// Moves on to `stage`, or ends where the outcome is a failure.
    fn move_on(&mut self, outcome: Outcome, stage: Stage) -> (moved: bool)
        ensures
            final(self)@ == unless_failed(old(self)@, outcome, stage),
            moved == failure_of(outcome) is None,
    {
        match outcome {
            Outcome::DeviceFailed(error) => {
                self.stage = Stage::Done;
                self.failure = Some(Failure::Device(error));
                false
            },
            Outcome::ClipboardFailed(text) => {
                self.stage = Stage::Done;
                self.failure = Some(Failure::Clipboard(text));
                false
            },
            Outcome::Done => {
                self.stage = stage;
                true
            },
            Outcome::Text(_) => {
                self.stage = stage;
                true
            },
        }
    }

    /// Remembers what to restore, and goes for the tag.
    fn save(&mut self, outcome: Outcome)
        ensures
            final(self)@ == match old(self)@.target {
                TargetKind::Terminal => InjectionView {
                    stage: Stage::DeleteTag,
                    restore: RestoreView::IfPasted(text_in(outcome)),
                    ..old(self)@
                },
                TargetKind::Gui => InjectionView {
                    stage: Stage::SelectLine,
                    restore: RestoreView::Always(text_in(outcome)),
                    ..old(self)@
                },
            },
    {
        let text = match outcome {
            Outcome::Text(text) => text,
            _ => String::new(),
        };
        assert(text@ =~= text_in(outcome));
        match self.target {
            TargetKind::Terminal => {
                self.stage = Stage::DeleteTag;
                self.restore = Restore::IfPasted(text);
            },
            TargetKind::Gui => {
                self.stage = Stage::SelectLine;
                self.restore = Restore::Always(text);
            },
        }
    }

    /// Looks for the tag in the line. The position counts characters, as
    /// cursor movement does.
    fn locate(&mut self, outcome: Outcome)
        ensures
            final(self)@ == stepped(at(old(self)@, Stage::ReadLine), outcome),
    {
        let line = match &outcome {
            Outcome::Text(text) => chars_of(text.as_str()),
            _ => Vec::new(),
        };
        assert(line@ =~= text_in(outcome));
        let tag = chars_of(self.tag_text.as_str());
        if self.move_on(outcome, Stage::Done) {
            match find(line.as_slice(), tag.as_slice(), 0) {
                Some(pos) => {
                    self.stage = Stage::PositionAtTag(pos);
                },
                None => {
                    self.failure = Some(Failure::TagNotFound);
                },
            }
        }
    }

    /// Takes what came of the action.
    pub fn step(&mut self, outcome: Outcome)
        ensures
            final(self)@ == stepped(old(self)@, outcome),
    {
        match self.stage {
            Stage::DeleteTrigger => {
                self.stage = Stage::PutOutput;
            },
            Stage::PutOutput => {
                self.move_on(outcome, Stage::AwaitOutput);
            },
            Stage::AwaitOutput => {
                self.stage = Stage::PasteOutput;
            },
            Stage::PasteOutput => {
                self.move_on(outcome, Stage::Done);
            },
            Stage::Settle => {
                self.stage = Stage::SaveClipboard;
            },
            Stage::SaveClipboard => self.save(outcome),
            Stage::DeleteTag => {
                let stage = self.next_replacement_stage();
                self.move_on(outcome, stage);
            },
            Stage::SelectLine => {
                self.move_on(outcome, Stage::AwaitSelection);
            },
            Stage::AwaitSelection => {
                self.stage = Stage::CopyLine;
            },
            Stage::CopyLine => {
                self.move_on(outcome, Stage::AwaitCopy);
            },
            Stage::AwaitCopy => {
                self.stage = Stage::ReadLine;
            },
            Stage::ReadLine => self.locate(outcome),
            Stage::PositionAtTag(_) => {
                let stage = self.next_replacement_stage();
                self.move_on(outcome, stage);
            },
            Stage::TypeReplacement => {
                let stage = self.next_replaced_stage(false);
                self.move_on(outcome, stage);
            },
            Stage::PutReplacement => {
                self.move_on(outcome, Stage::AwaitReplacement);
            },
            Stage::AwaitReplacement => {
                self.stage = Stage::PasteReplacement;
            },
            Stage::PasteReplacement => {
                let stage = self.next_replaced_stage(true);
                if self.move_on(outcome, stage) {
                    self.used_clipboard = true;
                }
            },
            Stage::AwaitPaste => {
                self.stage = Stage::Restore;
            },
            Stage::Restore => {
                self.move_on(outcome, Stage::Done);
            },
            Stage::Done => {},
        }
    }

    /// Why the injection ended early, if it did.
    pub fn failure(&self) -> (failure: Option<&Failure>)
        ensures
            match failure {
                Some(failure) => self@.failure == Some(*failure),
                None => self@.failure is None,
            },
    {
        match &self.failure {
            Some(failure) => Some(failure),
            None => None,
        }
    }

    /// What an injection that [`inject_replacement`] began came to: whether the
    /// replacement was pasted from the clipboard, so the caller knows whether
    /// to wait before restoring the previous clipboard contents, or the error
    /// because of which it could not be put in place.
    pub fn replacement_result(self) -> (result: Result<bool>)
        ensures
            is_replacement_result(result, self@),
    {
        match self.failure {
            None => Ok(self.used_clipboard),
            Some(Failure::Device(error)) => Err(error),
            Some(Failure::Clipboard(text)) => Err(
                BaanError::Write {
                    detail: "clipboard (non-ASCII replacement)".to_owned(),
                    source: other_error(text),
                },
            ),
            Some(Failure::TagNotFound) => Ok(false),
        }
    }
}

// ---------------------------------------------------------------------------
// Running
// ---------------------------------------------------------------------------

/// Whether the outcome can come of the action.
pub open spec fn answers(action: ActionView, outcome: Outcome) -> bool {
    match action {
        ActionView::Pause(_) | ActionView::Finished => outcome is Done,
        ActionView::ReadClipboard => outcome is Text || outcome is ClipboardFailed,
        ActionView::WriteClipboard(_) => outcome is Done || outcome is ClipboardFailed,
        _ => outcome is Done || outcome is DeviceFailed,
    }
}

/// The injection after several outcomes.
pub open spec fn after_outcomes(injection: InjectionView, outcomes: Seq<Outcome>) -> InjectionView
    decreases outcomes.len(),
{
    if outcomes.len() == 0 {
        injection
    } else {
        stepped(after_outcomes(injection, outcomes.drop_last()), outcomes.last())
    }
}

/// Whether the outcomes can come of the injection's next actions, none of
/// which is a pause.
pub open spec fn performed(injection: InjectionView, outcomes: Seq<Outcome>) -> bool
    decreases outcomes.len(),
{
    outcomes.len() > 0 ==> {
        let action = action_of(after_outcomes(injection, outcomes.drop_last()));
        &&& performed(injection, outcomes.drop_last())
        &&& action !is Pause
        &&& action !is Finished
        &&& answers(action, outcomes.last())
    }
}

/// The paste shortcut for a target.
pub open spec fn paste_request(target: TargetKind) -> KeyRequest {
    match target {
        TargetKind::Gui => KeyRequest::CtrlV,
        TargetKind::Terminal => KeyRequest::CtrlShiftV,
    }
}

/// What an action asks of the virtual keyboard, if anything.
pub open spec fn key_request(action: ActionView) -> Option<KeyRequest> {
    match action {
        ActionView::Backspace(n) => Some(KeyRequest::Backspace(n)),
        ActionView::SelectLine => Some(KeyRequest::SelectLine),
        ActionView::CopySelection => Some(KeyRequest::CtrlC),
        ActionView::PositionAtTag { pos, len } => Some(KeyRequest::PositionAtTag { pos, len }),
        ActionView::TypeText(text) => Some(KeyRequest::Text(text)),
        ActionView::Paste(target) => Some(paste_request(target)),
        _ => None,
    }
}

/// What an action leaves in the log of the virtual keyboard: what it asked for
/// and the result that the outcome tells of.
pub open spec fn key_exchanges(action: ActionView, outcome: Outcome) -> Seq<KeyExchange> {
    match (key_request(action), outcome) {
        (Some(request), Outcome::Done) => seq![(request, Ok(()))],
        (Some(request), Outcome::DeviceFailed(error)) => seq![(request, Err(error))],
        _ => Seq::empty(),
    }
}

/// What an action leaves in the log of the clipboard: what it asked for and the
/// result that the outcome tells of.
pub open spec fn clipboard_exchanges(action: ActionView, outcome: Outcome) -> Seq<
    ClipboardExchange,
> {
    match (action, outcome) {
        (ActionView::ReadClipboard, Outcome::Text(text)) => seq![ClipboardExchange::Read(Ok(text))],
        (ActionView::ReadClipboard, Outcome::ClipboardFailed(text)) => seq![
            ClipboardExchange::Read(Err(text)),
        ],
        (ActionView::WriteClipboard(written), Outcome::Done) => seq![
            ClipboardExchange::Write(written, Ok(())),
        ],
        (ActionView::WriteClipboard(written), Outcome::ClipboardFailed(text)) => seq![
            ClipboardExchange::Write(written, Err(text)),
        ],
        _ => Seq::empty(),
    }
}

/// What the injection's next actions leave in the log of the virtual keyboard,
/// given what came of each.
pub open spec fn all_key_exchanges(injection: InjectionView, outcomes: Seq<Outcome>) -> Seq<
    KeyExchange,
>
    decreases outcomes.len(),
{
    if outcomes.len() == 0 {
        Seq::empty()
    } else {
        let before = outcomes.drop_last();
        all_key_exchanges(injection, before) + key_exchanges(
            action_of(after_outcomes(injection, before)),
            outcomes.last(),
        )
    }
}

/// What the injection's next actions leave in the log of the clipboard, given
/// what came of each.
pub open spec fn all_clipboard_exchanges(injection: InjectionView, outcomes: Seq<Outcome>) -> Seq<
    ClipboardExchange,
>
    decreases outcomes.len(),
{
    if outcomes.len() == 0 {
        Seq::empty()
    } else {
        let before = outcomes.drop_last();
        all_clipboard_exchanges(injection, before) + clipboard_exchanges(
            action_of(after_outcomes(injection, before)),
            outcomes.last(),
        )
    }
}

/// What came of an operation of the virtual keyboard.
pub open spec fn device_outcome_of(result: Result<()>) -> Outcome {
    match result {
        Ok(_) => Outcome::Done,
        Err(error) => Outcome::DeviceFailed(error),
    }
}

/// What came of reading the clipboard.
pub open spec fn read_outcome_of(result: std::result::Result<String, String>) -> Outcome {
    match result {
        Ok(text) => Outcome::Text(text),
        Err(text) => Outcome::ClipboardFailed(text),
    }
}

/// What came of writing to the clipboard.
pub open spec fn write_outcome_of(result: std::result::Result<(), String>) -> Outcome {
    match result {
        Ok(_) => Outcome::Done,
        Err(text) => Outcome::ClipboardFailed(text),
    }
}

/// There is one way to succeed with nothing to hand back.
proof fn lemma_one_unit<E>(result: std::result::Result<(), E>)
    requires
        result is Ok,
    ensures
        result == Ok::<(), E>(()),
{
    match result {
        Ok(unit) => {
            assert(unit == ());
        },
        Err(_) => {},
    }
}

/// What came of an operation of the virtual keyboard.
fn device_outcome(result: Result<()>) -> (outcome: Outcome)
    ensures
        outcome == device_outcome_of(result),
        outcome is Done ==> result == Ok::<(), BaanError>(()),
{
    proof {
        if result is Ok {
            lemma_one_unit(result);
        }
    }
    match result {
        Ok(()) => Outcome::Done,
        Err(error) => Outcome::DeviceFailed(error),
    }
}

/// What came of reading the clipboard.
fn read_outcome(result: std::result::Result<String, String>) -> (outcome: Outcome)
    ensures
        outcome == read_outcome_of(result),
{
    match result {
        Ok(text) => Outcome::Text(text),
        Err(text) => Outcome::ClipboardFailed(text),
    }
}

/// What came of writing to the clipboard.
fn write_outcome(result: std::result::Result<(), String>) -> (outcome: Outcome)
    ensures
        outcome == write_outcome_of(result),
        outcome is Done ==> result == Ok::<(), String>(()),
{
    proof {
        if result is Ok {
            lemma_one_unit(result);
        }
    }
    match result {
        Ok(()) => Outcome::Done,
        Err(text) => Outcome::ClipboardFailed(text),
    }
}

/// Simulates the paste shortcut for `target`: Ctrl+V in GUI apps, Ctrl+Shift+V
/// in terminals. Hands back what came of it.
pub fn paste_shortcut<V: KeyInjector>(virtual_device: &mut V, target: TargetKind) -> (result:
    Result<()>)
    ensures
        final(virtual_device).log() == old(virtual_device).log().push(
            (paste_request(target), result),
        ),
{
    match target {
        TargetKind::Gui => virtual_device.send_ctrl_v(),
        TargetKind::Terminal => virtual_device.send_ctrl_shift_v(),
    }
}

/// Performs an action. A pause is left to the caller.
fn perform<C: ClipboardOps, V: KeyInjector>(
    action: Action,
    clipboard: &mut C,
    virtual_device: &mut V,
) -> (outcome: Outcome)
    ensures
        answers(action@, outcome),
        final(virtual_device).log() == old(virtual_device).log() + key_exchanges(action@, outcome),
        final(clipboard).log() == old(clipboard).log() + clipboard_exchanges(action@, outcome),
{
    let ghost asked = action@;
    let ghost keys = virtual_device.log();
    let ghost texts = clipboard.log();
    let outcome = match action {
        Action::Pause(_) => Outcome::Done,
        Action::Finished => Outcome::Done,
        Action::ReadClipboard => read_outcome(clipboard.get_text()),
        Action::WriteClipboard(text) => write_outcome(clipboard.set_text(text.as_str())),
        Action::Backspace(n) => device_outcome(virtual_device.send_backspace(n)),
        Action::SelectLine => device_outcome(virtual_device.select_line()),
        Action::CopySelection => device_outcome(virtual_device.send_ctrl_c()),
        Action::PositionAtTag { pos, len } => device_outcome(
            virtual_device.position_at_tag(pos, len),
        ),
        Action::TypeText(text) => device_outcome(virtual_device.send_string(text.as_str())),
        Action::Paste(target) => device_outcome(paste_shortcut(virtual_device, target)),
    };
    assert(virtual_device.log() =~= keys + key_exchanges(asked, outcome));
    assert(clipboard.log() =~= texts + clipboard_exchanges(asked, outcome));
    outcome
}

impl Injection {
    /// Performs the injection's actions up to its next pause. Hands back how
    /// many milliseconds to wait before going on; `None` once it is over.
    ///
    /// The clipboard and the keyboard are asked for exactly what the actions
    /// say, in their order, and the injection goes on with what they answered.
    pub fn run<C: ClipboardOps, V: KeyInjector>(
        &mut self,
        clipboard: &mut C,
        virtual_device: &mut V,
    ) -> (pause: Option<u64>)
        ensures
            exists|outcomes: Seq<Outcome>| #[trigger]
                performed(old(self)@, outcomes) && {
                    let reached = after_outcomes(old(self)@, outcomes);
                    match pause {
                        Some(ms) => action_of(reached) == ActionView::Pause(ms) && final(self)@
                            == stepped(reached, Outcome::Done),
                        None => action_of(reached) == ActionView::Finished && final(self)@
                            == reached,
                    }
                } && final(virtual_device).log() == old(virtual_device).log() + all_key_exchanges(
                    old(self)@,
                    outcomes,
                ) && final(clipboard).log() == old(clipboard).log() + all_clipboard_exchanges(
                    old(self)@,
                    outcomes,
                ),
    {
        let ghost start = self@;
        let ghost mut outcomes: Seq<Outcome> = Seq::empty();
        let ghost keys = virtual_device.log();
        let ghost texts = clipboard.log();
        assert(keys + all_key_exchanges(start, outcomes) =~= keys);
        assert(texts + all_clipboard_exchanges(start, outcomes) =~= texts);
        loop
            invariant
                start == old(self)@,
                keys == old(virtual_device).log(),
                texts == old(clipboard).log(),
                virtual_device.log() == keys + all_key_exchanges(start, outcomes),
                clipboard.log() == texts + all_clipboard_exchanges(start, outcomes),
                performed(start, outcomes),
                self@ == after_outcomes(start, outcomes),
            decreases actions_left(self@.stage),
        {
            let action = self.action();
            match action {
                Action::Pause(ms) => {
                    self.step(Outcome::Done);
                    return Some(ms);
                },
                Action::Finished => {
                    return None;
                },
                _ => {
                    let outcome = perform(action, clipboard, virtual_device);
                    proof {
                        let longer = outcomes.push(outcome);
                        assert(longer.drop_last() =~= outcomes);
                        assert(virtual_device.log() =~= keys + all_key_exchanges(start, longer));
                        assert(clipboard.log() =~= texts + all_clipboard_exchanges(start, longer));
                        law_injections_come_to_an_end(self@, outcome);
                        outcomes = longer;
                    }
                    self.step(outcome);
                },
            }
        }
    }
}

// ---------------------------------------------------------------------------
// Laws
// ---------------------------------------------------------------------------

/// Every outcome brings an injection closer to its end.
pub proof fn law_injections_come_to_an_end(injection: InjectionView, outcome: Outcome)
    requires
        injection.stage != Stage::Done,
    ensures
        actions_left(stepped(injection, outcome).stage) < actions_left(injection.stage),
{
}

/// What came of an action is what the clipboard or the keyboard answered: the
/// outcome is that of the result in the log.
pub proof fn law_outcomes_are_the_logged_results(action: ActionView, outcome: Outcome)
    requires
        answers(action, outcome),
    ensures
        key_request(action) matches Some(request) ==> {
            &&& key_exchanges(action, outcome).len() == 1
            &&& key_exchanges(action, outcome)[0].0 == request
            &&& outcome == device_outcome_of(key_exchanges(action, outcome)[0].1)
        },
        action == ActionView::ReadClipboard ==> {
            &&& clipboard_exchanges(action, outcome).len() == 1
            &&& clipboard_exchanges(action, outcome)[0] matches ClipboardExchange::Read(result)
            &&& outcome == read_outcome_of(result)
        },
        action matches ActionView::WriteClipboard(text) ==> {
            &&& clipboard_exchanges(action, outcome).len() == 1
            &&& clipboard_exchanges(action, outcome)[0] matches ClipboardExchange::Write(
                written,
                result,
            )
            &&& written == text
            &&& outcome == write_outcome_of(result)
        },
        key_exchanges(action, outcome).len() + clipboard_exchanges(action, outcome).len() == if (
        action is Pause || action is Finished) {
            0
        } else {
            1int
        },
{
}

/// The first outcomes account for the first entries of the logs.
proof fn lemma_logs_grow(injection: InjectionView, outcomes: Seq<Outcome>, n: int)
    requires
        0 <= n <= outcomes.len(),
    ensures
        ({
            let keys = all_key_exchanges(injection, outcomes);
            let first_keys = all_key_exchanges(injection, outcomes.take(n));
            let texts = all_clipboard_exchanges(injection, outcomes);
            let first_texts = all_clipboard_exchanges(injection, outcomes.take(n));
            &&& first_keys.len() <= keys.len()
            &&& first_keys == keys.take(first_keys.len() as int)
            &&& first_texts.len() <= texts.len()
            &&& first_texts == texts.take(first_texts.len() as int)
        }),
    decreases outcomes.len(),
{
    if n == outcomes.len() {
        assert(outcomes.take(n) =~= outcomes);
    } else {
        let before = outcomes.drop_last();
        lemma_logs_grow(injection, before, n);
        assert(before.take(n) =~= outcomes.take(n));
        let keys = all_key_exchanges(injection, outcomes);
        let first_keys = all_key_exchanges(injection, outcomes.take(n));
        assert(keys.take(first_keys.len() as int) =~= all_key_exchanges(injection, before).take(
            first_keys.len() as int,
        ));
        let texts = all_clipboard_exchanges(injection, outcomes);
        let first_texts = all_clipboard_exchanges(injection, outcomes.take(n));
        assert(texts.take(first_texts.len() as int) =~= all_clipboard_exchanges(
            injection,
            before,
        ).take(first_texts.len() as int));
    }
}

/// Outcomes that can come of the first actions.
proof fn lemma_performed_first(injection: InjectionView, outcomes: Seq<Outcome>, n: int)
    requires
        0 <= n <= outcomes.len(),
        performed(injection, outcomes),
    ensures
        performed(injection, outcomes.take(n)),
    decreases outcomes.len(),
{
    if n == outcomes.len() {
        assert(outcomes.take(n) =~= outcomes);
    } else {
        lemma_performed_first(injection, outcomes.drop_last(), n);
        assert(outcomes.drop_last().take(n) =~= outcomes.take(n));
    }
}

/// Outcomes that leave the same logs agree as far as both go.
proof fn lemma_logs_agree(
    injection: InjectionView,
    first: Seq<Outcome>,
    second: Seq<Outcome>,
    n: int,
)
    requires
        0 <= n <= first.len(),
        n <= second.len(),
        performed(injection, first),
        performed(injection, second),
        all_key_exchanges(injection, first) == all_key_exchanges(injection, second),
        all_clipboard_exchanges(injection, first) == all_clipboard_exchanges(injection, second),
    ensures
        first.take(n) == second.take(n),
    decreases n,
{
    if n > 0 {
        let k = n - 1;
        lemma_logs_agree(injection, first, second, k);
        lemma_logs_grow(injection, first, n);
        lemma_logs_grow(injection, second, n);
        lemma_performed_first(injection, first, n);
        lemma_performed_first(injection, second, n);
        assert(first.take(n).drop_last() =~= first.take(k));
        assert(second.take(n).drop_last() =~= second.take(k));
        let action = action_of(after_outcomes(injection, first.take(k)));
        let keys = all_key_exchanges(injection, first.take(k)).len() as int;
        let texts = all_clipboard_exchanges(injection, first.take(k)).len() as int;
        law_outcomes_are_the_logged_results(action, first[k]);
        law_outcomes_are_the_logged_results(action, second[k]);
        assert(first.take(n).last() == first[k] && second.take(n).last() == second[k]);
        if key_request(action) is Some {
            let one = all_key_exchanges(injection, first.take(n));
            let other = all_key_exchanges(injection, second.take(n));
            assert(one[keys] == key_exchanges(action, first[k])[0]);
            assert(other[keys] == key_exchanges(action, second[k])[0]);
            assert(one[keys] == all_key_exchanges(injection, first)[keys]);
            assert(other[keys] == all_key_exchanges(injection, second)[keys]);
        } else {
            let one = all_clipboard_exchanges(injection, first.take(n));
            let other = all_clipboard_exchanges(injection, second.take(n));
            assert(one[texts] == clipboard_exchanges(action, first[k])[0]);
            assert(other[texts] == clipboard_exchanges(action, second[k])[0]);
            assert(one[texts] == all_clipboard_exchanges(injection, first)[texts]);
            assert(other[texts] == all_clipboard_exchanges(injection, second)[texts]);
        }
        assert(first[k] == second[k]);
        assert(first.take(n) =~= first.take(k).push(first[k]));
        assert(second.take(n) =~= second.take(k).push(second[k]));
    }
}

/// Every action leaves one entry in the logs.
proof fn lemma_logs_length(injection: InjectionView, outcomes: Seq<Outcome>)
    requires
        performed(injection, outcomes),
    ensures
        outcomes.len() == all_key_exchanges(injection, outcomes).len() + all_clipboard_exchanges(
            injection,
            outcomes,
        ).len(),
    decreases outcomes.len(),
{
    if outcomes.len() > 0 {
        let before = outcomes.drop_last();
        lemma_logs_length(injection, before);
        law_outcomes_are_the_logged_results(
            action_of(after_outcomes(injection, before)),
            outcomes.last(),
        );
    }
}

/// The logs tell all that came of an injection's actions: outcomes that leave
/// the same entries are the same, and lead to the same place.
pub proof fn law_logs_determine_the_outcomes(
    injection: InjectionView,
    first: Seq<Outcome>,
    second: Seq<Outcome>,
)
    requires
        performed(injection, first),
        performed(injection, second),
        all_key_exchanges(injection, first) == all_key_exchanges(injection, second),
        all_clipboard_exchanges(injection, first) == all_clipboard_exchanges(injection, second),
    ensures
        first == second,
        after_outcomes(injection, first) == after_outcomes(injection, second),
{
    lemma_logs_length(injection, first);
    lemma_logs_length(injection, second);
    lemma_logs_agree(injection, first, second, first.len() as int);
    assert(first.take(first.len() as int) =~= first);
    assert(second.take(second.len() as int) =~= second);
}

/// What is injected, where, and for which tag never changes on the way.
pub proof fn law_injections_keep_their_task(injection: InjectionView, outcome: Outcome)
    ensures
        stepped(injection, outcome).text == injection.text,
        stepped(injection, outcome).tag_text == injection.tag_text,
        stepped(injection, outcome).target == injection.target,
        stepped(injection, outcome).trigger_len == injection.trigger_len,
        stepped(injection, outcome).settings == injection.settings,
{
}

/// A failed clipboard write is never followed by a paste: it ends the
/// injection.
pub proof fn law_failed_writes_are_not_pasted(injection: InjectionView, outcome: Outcome)
    requires
        action_of(injection) is WriteClipboard,
        failure_of(outcome) is Some,
    ensures
        stepped(injection, outcome).stage == Stage::Done,
{
}

/// A failure to delete the trigger text makes no difference to what follows.
pub proof fn law_output_is_pasted_even_if_the_trigger_stays(
    injection: InjectionView,
    outcome: Outcome,
)
    requires
        injection.stage == Stage::DeleteTrigger,
    ensures
        stepped(injection, outcome) == stepped(injection, Outcome::Done),
        action_of(stepped(injection, outcome)) == ActionView::WriteClipboard(injection.text),
{
}

/// The stages of replacing a tag with ASCII text in a terminal.
pub open spec fn leaves_clipboard_alone(injection: InjectionView) -> bool {
    &&& injection.target == TargetKind::Terminal
    &&& is_ascii_chars(injection.text)
    &&& injection.restore !is Always
    &&& match injection.stage {
        Stage::Settle
        | Stage::SaveClipboard
        | Stage::DeleteTag
        | Stage::TypeReplacement
        | Stage::Done => true,
        _ => false,
    }
}

/// Replacing a tag with ASCII text in a terminal never writes to the
/// clipboard, whatever comes of its actions.
pub proof fn law_ascii_in_terminals_leaves_the_clipboard_alone(
    tag_text: Seq<char>,
    output: Seq<char>,
    settings: Settings,
    injection: InjectionView,
    outcome: Outcome,
)
    requires
        is_ascii_chars(trimmed_end(output)),
        leaves_clipboard_alone(injection),
    ensures
        leaves_clipboard_alone(
            replace_tag_start(tag_text, output, TargetKind::Terminal, settings),
        ),
        leaves_clipboard_alone(stepped(injection, outcome)),
        action_of(injection) !is WriteClipboard,
{
}

/// What was saved of the clipboard stays saved.
pub proof fn law_saved_clipboard_is_kept(injection: InjectionView, outcome: Outcome)
    requires
        injection.stage != Stage::SaveClipboard,
    ensures
        stepped(injection, outcome).restore == injection.restore,
{
}

/// A replacement that was pasted is followed by a pause and then by the
/// restoring of what the clipboard held before.
pub proof fn law_pasted_replacements_restore_the_clipboard(
    injection: InjectionView,
    outcome: Outcome,
    saved: Seq<char>,
)
    requires
        injection.stage == Stage::PasteReplacement,
        injection.restore == RestoreView::IfPasted(saved) || injection.restore
            == RestoreView::Always(saved),
        failure_of(outcome) is None,
    ensures
        ({
            let waiting = stepped(injection, outcome);
            &&& action_of(waiting) == ActionView::Pause(
                injection.settings.clipboard_write_delay_ms,
            )
            &&& action_of(stepped(waiting, Outcome::Done)) == ActionView::WriteClipboard(saved)
        }),
{
}

/// The cursor goes to the tag: the characters that are deleted from the line
/// are the tag's.
pub proof fn law_deleted_text_is_the_tag(injection: InjectionView, line: String)
    requires
        injection.stage == Stage::ReadLine,
        line@.len() <= usize::MAX,
    ensures
        match action_of(stepped(injection, Outcome::Text(line))) {
            ActionView::PositionAtTag { pos, len } => {
                &&& len == injection.tag_text.len()
                &&& occurs_at(line@, injection.tag_text, pos as int)
                &&& forall|i: int| 0 <= i < pos ==> !occurs_at(line@, injection.tag_text, i)
            },
            action => {
                &&& action == ActionView::Finished
                &&& forall|i: int| 0 <= i ==> !occurs_at(line@, injection.tag_text, i)
            },
        },
{
    lemma_first_occurrence(line@, injection.tag_text, 0);
}

/// Where everything works, replacing a tag with ASCII text in a GUI
/// application finds the tag in the line, deletes it, types the text and
/// restores the clipboard.
pub proof fn law_replacing_a_tag_in_a_gui(
    tag_text: Seq<char>,
    output: Seq<char>,
    settings: Settings,
    saved: String,
    line: String,
    pos: int,
)
    requires
        is_ascii_chars(trimmed_end(output)),
        line@.len() <= usize::MAX,
        first_occurrence(line@, tag_text, 0) == Some(pos),
    ensures
        ({
            let s0 = replace_tag_start(tag_text, output, TargetKind::Gui, settings);
            let s1 = stepped(s0, Outcome::Done);
            let s2 = stepped(s1, Outcome::Text(saved));
            let s3 = stepped(s2, Outcome::Done);
            let s4 = stepped(s3, Outcome::Done);
            let s5 = stepped(s4, Outcome::Done);
            let s6 = stepped(s5, Outcome::Done);
            let s7 = stepped(s6, Outcome::Text(line));
            let s8 = stepped(s7, Outcome::Done);
            let s9 = stepped(s8, Outcome::Done);
            let s10 = stepped(s9, Outcome::Done);
            &&& action_of(s0) == ActionView::Pause(settings.flush_delay_ms)
            &&& action_of(s1) == ActionView::ReadClipboard
            &&& action_of(s2) == ActionView::SelectLine
            &&& action_of(s3) == ActionView::Pause(SELECT_STEP_DELAY_MS)
            &&& action_of(s4) == ActionView::CopySelection
            &&& action_of(s5) == ActionView::Pause(settings.clipboard_read_delay_ms)
            &&& action_of(s6) == ActionView::ReadClipboard
            &&& action_of(s7) == (ActionView::PositionAtTag { pos: pos as nat, len: tag_text.len() })
            &&& action_of(s8) == ActionView::TypeText(trimmed_end(output))
            &&& action_of(s9) == ActionView::WriteClipboard(saved@)
            &&& action_of(s10) == ActionView::Finished
        }),
{
    lemma_first_occurrence(line@, tag_text, 0);
}

/// Where everything works, replacing a tag with text that is not ASCII in a
/// terminal deletes the tag, pastes the text and restores the clipboard.
pub proof fn law_replacing_a_tag_in_a_terminal(
    tag_text: Seq<char>,
    output: Seq<char>,
    settings: Settings,
    saved: String,
)
    requires
        !is_ascii_chars(trimmed_end(output)),
    ensures
        ({
            let s0 = replace_tag_start(tag_text, output, TargetKind::Terminal, settings);
            let s1 = stepped(s0, Outcome::Done);
            let s2 = stepped(s1, Outcome::Text(saved));
            let s3 = stepped(s2, Outcome::Done);
            let s4 = stepped(s3, Outcome::Done);
            let s5 = stepped(s4, Outcome::Done);
            let s6 = stepped(s5, Outcome::Done);
            let s7 = stepped(s6, Outcome::Done);
            let s8 = stepped(s7, Outcome::Done);
            &&& action_of(s0) == ActionView::Pause(settings.flush_delay_ms)
            &&& action_of(s1) == ActionView::ReadClipboard
            &&& action_of(s2) == ActionView::Backspace(tag_text.len())
            &&& action_of(s3) == ActionView::WriteClipboard(trimmed_end(output))
            &&& action_of(s4) == ActionView::Pause(settings.clipboard_write_delay_ms)
            &&& action_of(s5) == ActionView::Paste(TargetKind::Terminal)
            &&& action_of(s6) == ActionView::Pause(settings.clipboard_write_delay_ms)
            &&& action_of(s7) == ActionView::WriteClipboard(saved@)
            &&& action_of(s8) == ActionView::Finished
        }),
{
}

/// Where everything works, the output of a clipboard command is put on the
/// clipboard, without white space at its end, and pasted.
pub proof fn law_clipboard_output_is_pasted(
    output: Seq<char>,
    target: TargetKind,
    trigger_len: nat,
    settings: Settings,
)
    ensures
        ({
            let start = set_clipboard_start(output, target, trigger_len, settings);
            let s0 = if target == TargetKind::Terminal {
                stepped(start, Outcome::Done)
            } else {
                start
            };
            let s1 = stepped(s0, Outcome::Done);
            let s2 = stepped(s1, Outcome::Done);
            let s3 = stepped(s2, Outcome::Done);
            &&& target == TargetKind::Terminal ==> action_of(start) == ActionView::Backspace(
                trigger_len,
            )
            &&& action_of(s0) == ActionView::WriteClipboard(trimmed_end(output))
            &&& action_of(s1) == ActionView::Pause(settings.clipboard_write_delay_ms)
            &&& action_of(s2) == ActionView::Paste(target)
            &&& action_of(s3) == ActionView::Finished
        }),
{
}

/// What an action asks of the keyboard is what it says: the paste shortcut of a
/// GUI application is Ctrl+V, that of a terminal Ctrl+Shift+V, and the copy
/// shortcut is Ctrl+C.
pub proof fn law_actions_ask_for_what_they_say(action: ActionView)
    ensures
        match action {
            ActionView::Backspace(n) => key_request(action) == Some(KeyRequest::Backspace(n)),
            ActionView::SelectLine => key_request(action) == Some(KeyRequest::SelectLine),
            ActionView::CopySelection => key_request(action) == Some(KeyRequest::CtrlC),
            ActionView::PositionAtTag { pos, len } => key_request(action) == Some(
                KeyRequest::PositionAtTag { pos, len },
            ),
            ActionView::TypeText(text) => key_request(action) == Some(KeyRequest::Text(text)),
            ActionView::Paste(TargetKind::Gui) => key_request(action) == Some(KeyRequest::CtrlV),
            ActionView::Paste(TargetKind::Terminal) => key_request(action) == Some(
                KeyRequest::CtrlShiftV,
            ),
            _ => key_request(action) is None,
        },
{
}

/// Where everything works, replacing a tag with ASCII text in a terminal
/// deletes the tag and types the text, and does not write to the clipboard.
pub proof fn law_replacing_a_tag_in_a_terminal_with_ascii(
    tag_text: Seq<char>,
    output: Seq<char>,
    settings: Settings,
    saved: String,
)
    requires
        is_ascii_chars(trimmed_end(output)),
    ensures
        ({
            let s0 = replace_tag_start(tag_text, output, TargetKind::Terminal, settings);
            let s1 = stepped(s0, Outcome::Done);
            let s2 = stepped(s1, Outcome::Text(saved));
            let s3 = stepped(s2, Outcome::Done);
            let s4 = stepped(s3, Outcome::Done);
            &&& action_of(s0) == ActionView::Pause(settings.flush_delay_ms)
            &&& action_of(s1) == ActionView::ReadClipboard
            &&& action_of(s2) == ActionView::Backspace(tag_text.len())
            &&& action_of(s3) == ActionView::TypeText(trimmed_end(output))
            &&& action_of(s4) == ActionView::Finished
            &&& s4.failure is None
            &&& !s4.used_clipboard
        }),
{
}

/// Where everything works, replacing a tag with text that is not ASCII in a GUI
/// application finds the tag in the line, deletes it, pastes the text and
/// restores the clipboard.
pub proof fn law_replacing_a_tag_in_a_gui_by_pasting(
    tag_text: Seq<char>,
    output: Seq<char>,
    settings: Settings,
    saved: String,
    line: String,
    pos: int,
)
    requires
        !is_ascii_chars(trimmed_end(output)),
        line@.len() <= usize::MAX,
        first_occurrence(line@, tag_text, 0) == Some(pos),
    ensures
        ({
            let s0 = replace_tag_start(tag_text, output, TargetKind::Gui, settings);
            let s1 = stepped(s0, Outcome::Done);
            let s2 = stepped(s1, Outcome::Text(saved));
            let s3 = stepped(s2, Outcome::Done);
            let s4 = stepped(s3, Outcome::Done);
            let s5 = stepped(s4, Outcome::Done);
            let s6 = stepped(s5, Outcome::Done);
            let s7 = stepped(s6, Outcome::Text(line));
            let s8 = stepped(s7, Outcome::Done);
            let s9 = stepped(s8, Outcome::Done);
            let s10 = stepped(s9, Outcome::Done);
            let s11 = stepped(s10, Outcome::Done);
            let s12 = stepped(s11, Outcome::Done);
            let s13 = stepped(s12, Outcome::Done);
            &&& action_of(s0) == ActionView::Pause(settings.flush_delay_ms)
            &&& action_of(s1) == ActionView::ReadClipboard
            &&& action_of(s2) == ActionView::SelectLine
            &&& action_of(s3) == ActionView::Pause(50)
            &&& action_of(s4) == ActionView::CopySelection
            &&& action_of(s5) == ActionView::Pause(settings.clipboard_read_delay_ms)
            &&& action_of(s6) == ActionView::ReadClipboard
            &&& action_of(s7) == (ActionView::PositionAtTag { pos: pos as nat, len: tag_text.len() })
            &&& action_of(s8) == ActionView::WriteClipboard(trimmed_end(output))
            &&& action_of(s9) == ActionView::Pause(settings.clipboard_write_delay_ms)
            &&& action_of(s10) == ActionView::Paste(TargetKind::Gui)
            &&& action_of(s11) == ActionView::Pause(settings.clipboard_write_delay_ms)
            &&& action_of(s12) == ActionView::WriteClipboard(saved@)
            &&& action_of(s13) == ActionView::Finished
            &&& s13.failure is None
            &&& s13.used_clipboard
        }),
{
    lemma_first_occurrence(line@, tag_text, 0);
}

/// Where everything works, a replacement of ASCII text is typed as it is, and
/// another one put on the clipboard and pasted. Whether it was pasted is told.
pub proof fn law_replacements_are_put_in_place(
    replacement: Seq<char>,
    target: TargetKind,
    settings: Settings,
)
    ensures
        ({
            let s0 = replacement_start(replacement, target, settings);
            let s1 = stepped(s0, Outcome::Done);
            let s2 = stepped(s1, Outcome::Done);
            let s3 = stepped(s2, Outcome::Done);
            if is_ascii_chars(replacement) {
                &&& action_of(s0) == ActionView::TypeText(replacement)
                &&& action_of(s1) == ActionView::Finished
                &&& !s1.used_clipboard
                &&& s1.failure is None
            } else {
                &&& action_of(s0) == ActionView::WriteClipboard(replacement)
                &&& action_of(s1) == ActionView::Pause(settings.clipboard_write_delay_ms)
                &&& action_of(s2) == ActionView::Paste(target)
                &&& action_of(s3) == ActionView::Finished
                &&& s3.used_clipboard
                &&& s3.failure is None
            }
        }),
{
}

/// What stays the same on the way, and what the stages that were reached mean.
spec fn is_on_the_way(start: InjectionView, injection: InjectionView) -> bool {
    &&& injection.text == start.text
    &&& injection.tag_text == start.tag_text
    &&& injection.target == start.target
    &&& injection.trigger_len == start.trigger_len
    &&& injection.settings == start.settings
    &&& match injection.stage {
        Stage::DeleteTrigger => start.stage == Stage::DeleteTrigger,
        Stage::PutOutput | Stage::AwaitOutput | Stage::PasteOutput => start.stage
            == Stage::DeleteTrigger || start.stage == Stage::PutOutput,
        Stage::Settle | Stage::SaveClipboard => start.stage == Stage::Settle,
        Stage::DeleteTag => start.stage == Stage::Settle && start.target == TargetKind::Terminal,
        Stage::SelectLine
        | Stage::AwaitSelection
        | Stage::CopyLine
        | Stage::AwaitCopy
        | Stage::ReadLine
        | Stage::PositionAtTag(_) => start.stage == Stage::Settle && start.target
            == TargetKind::Gui,
        Stage::TypeReplacement => is_ascii_chars(start.text),
        Stage::PutReplacement | Stage::AwaitReplacement | Stage::PasteReplacement =>
            !is_ascii_chars(start.text),
        _ => true,
    }
}

/// Whether an injection has just begun.
spec fn is_start(start: InjectionView) -> bool {
    match start.stage {
        Stage::DeleteTrigger => start.target == TargetKind::Terminal && start.restore
            == RestoreView::Never,
        Stage::PutOutput => start.target == TargetKind::Gui && start.restore == RestoreView::Never,
        Stage::Settle => start.restore == RestoreView::Never,
        Stage::TypeReplacement => is_ascii_chars(start.text) && start.restore == RestoreView::Never,
        Stage::PutReplacement => !is_ascii_chars(start.text) && start.restore == RestoreView::Never,
        _ => false,
    }
}

/// Whatever comes of its actions, an injection stays on its way.
proof fn lemma_on_the_way(start: InjectionView, outcomes: Seq<Outcome>)
    requires
        is_start(start),
    ensures
        is_on_the_way(start, after_outcomes(start, outcomes)),
    decreases outcomes.len(),
{
    if outcomes.len() > 0 {
        lemma_on_the_way(start, outcomes.drop_last());
    }
}

/// What the clipboard held is what the first read of it gave, and it is kept
/// for as long as the injection lasts.
proof fn lemma_saved(start: InjectionView, outcomes: Seq<Outcome>)
    requires
        is_start(start),
    ensures
        ({
            let injection = after_outcomes(start, outcomes);
            match injection.restore {
                RestoreView::Never => true,
                RestoreView::IfPasted(text) | RestoreView::Always(text) => outcomes.len() >= 2
                    && start.stage == Stage::Settle && text == text_in(outcomes[1]),
            }
        }),
        outcomes.len() == 0 ==> after_outcomes(start, outcomes) == start,
        start.stage == Stage::Settle && outcomes.len() == 1 ==> after_outcomes(start, outcomes).stage
            == Stage::SaveClipboard,
        start.stage == Stage::Settle && outcomes.len() >= 2 ==> after_outcomes(
            start,
            outcomes,
        ).stage != Stage::SaveClipboard && after_outcomes(start, outcomes).stage != Stage::Settle,
    decreases outcomes.len(),
{
    if outcomes.len() > 0 {
        lemma_saved(start, outcomes.drop_last());
        lemma_on_the_way(start, outcomes.drop_last());
    }
}

/// Whatever comes of its actions, replacing a tag types nothing but the output
/// without the white space at its end; writes nothing but that, or what the
/// clipboard held before, to the clipboard; deletes as many characters as the
/// tag has; pastes as its target does; and pauses as the settings say.
pub proof fn law_replacing_a_tag_uses_its_output(
    tag_text: Seq<char>,
    output: Seq<char>,
    target: TargetKind,
    settings: Settings,
    outcomes: Seq<Outcome>,
)
    ensures
        ({
            let start = replace_tag_start(tag_text, output, target, settings);
            match action_of(after_outcomes(start, outcomes)) {
                ActionView::TypeText(text) => text == trimmed_end(output) && is_ascii_chars(text),
                ActionView::WriteClipboard(text) => (text == trimmed_end(output)
                    && !is_ascii_chars(text)) || (outcomes.len() >= 2 && text == text_in(
                    outcomes[1],
                )),
                ActionView::Backspace(n) => n == tag_text.len() && target == TargetKind::Terminal,
                ActionView::PositionAtTag { len, .. } => len == tag_text.len() && target
                    == TargetKind::Gui,
                ActionView::SelectLine | ActionView::CopySelection => target == TargetKind::Gui,
                ActionView::Paste(kind) => kind == target && !is_ascii_chars(trimmed_end(output)),
                ActionView::Pause(ms) => ms == settings.flush_delay_ms || ms == 50 || ms
                    == settings.clipboard_read_delay_ms || ms == settings.clipboard_write_delay_ms,
                ActionView::ReadClipboard | ActionView::Finished => true,
            }
        }),
{
    let start = replace_tag_start(tag_text, output, target, settings);
    lemma_on_the_way(start, outcomes);
    lemma_saved(start, outcomes);
}

/// Whatever comes of its actions, output for the clipboard is what is written
/// there, without the white space at its end; only terminals have the trigger
/// text deleted, all of it; and it is pasted as its target does.
pub proof fn law_clipboard_output_is_used(
    output: Seq<char>,
    target: TargetKind,
    trigger_len: nat,
    settings: Settings,
    outcomes: Seq<Outcome>,
)
    ensures
        ({
            let start = set_clipboard_start(output, target, trigger_len, settings);
            match action_of(after_outcomes(start, outcomes)) {
                ActionView::WriteClipboard(text) => text == trimmed_end(output),
                ActionView::Backspace(n) => n == trigger_len && target == TargetKind::Terminal,
                ActionView::Paste(kind) => kind == target,
                ActionView::Pause(ms) => ms == settings.clipboard_write_delay_ms,
                ActionView::Finished => true,
                _ => false,
            }
        }),
{
    let start = set_clipboard_start(output, target, trigger_len, settings);
    lemma_on_the_way(start, outcomes);
    lemma_clipboard_way(start, outcomes);
}

/// Output for the clipboard goes through its own stages only.
proof fn lemma_clipboard_way(start: InjectionView, outcomes: Seq<Outcome>)
    requires
        start.stage == Stage::DeleteTrigger || start.stage == Stage::PutOutput,
    ensures
        match after_outcomes(start, outcomes).stage {
            Stage::DeleteTrigger
            | Stage::PutOutput
            | Stage::AwaitOutput
            | Stage::PasteOutput
            | Stage::Done => true,
            _ => false,
        },
    decreases outcomes.len(),
{
    if outcomes.len() > 0 {
        lemma_clipboard_way(start, outcomes.drop_last());
    }
}

/// A failure of the keyboard ends an injection and is told, but for one to
/// delete the trigger text. So does a failure of the clipboard, but for one to
/// read it before anything else.
pub proof fn law_failures_end_an_injection(
    injection: InjectionView,
    error: BaanError,
    text: String,
)
    requires
        injection.stage != Stage::DeleteTrigger,
        injection.stage != Stage::SaveClipboard,
    ensures
        match action_of(injection) {
            ActionView::Backspace(_)
            | ActionView::SelectLine
            | ActionView::CopySelection
            | ActionView::PositionAtTag { .. }
            | ActionView::TypeText(_)
            | ActionView::Paste(_) => {
                let after = stepped(injection, Outcome::DeviceFailed(error));
                &&& action_of(after) == ActionView::Finished
                &&& after.failure == Some(Failure::Device(error))
                &&& after.used_clipboard == injection.used_clipboard
            },
            ActionView::ReadClipboard | ActionView::WriteClipboard(_) => {
                let after = stepped(injection, Outcome::ClipboardFailed(text));
                &&& action_of(after) == ActionView::Finished
                &&& after.failure == Some(Failure::Clipboard(text))
                &&& after.used_clipboard == injection.used_clipboard
            },
            _ => true,
        },
{
}

/// An injection fails only by a failure of the clipboard or the keyboard, or
/// because the tag is not in the line.
pub proof fn law_failures_have_a_cause(injection: InjectionView, outcome: Outcome)
    ensures
        stepped(injection, outcome).failure == injection.failure || match outcome {
            Outcome::DeviceFailed(error) => stepped(injection, outcome).failure == Some(
                Failure::Device(error),
            ),
            Outcome::ClipboardFailed(text) => stepped(injection, outcome).failure == Some(
                Failure::Clipboard(text),
            ),
            _ => stepped(injection, outcome).failure == Some(Failure::TagNotFound)
                && action_of(injection) == ActionView::ReadClipboard,
        },
{
}

/// Where the clipboard cannot be read before a tag is replaced, the tag is
/// replaced all the same, and the clipboard is left empty where it would have
/// been restored.
pub proof fn law_an_unreadable_clipboard_stops_nothing(
    tag_text: Seq<char>,
    output: Seq<char>,
    target: TargetKind,
    settings: Settings,
    reason: String,
)
    ensures
        ({
            let s1 = stepped(replace_tag_start(tag_text, output, target, settings), Outcome::Done);
            let s2 = stepped(s1, Outcome::ClipboardFailed(reason));
            &&& s2.failure is None
            &&& action_of(s2) == match target {
                TargetKind::Terminal => ActionView::Backspace(tag_text.len()),
                TargetKind::Gui => ActionView::SelectLine,
            }
            &&& s2.restore == match target {
                TargetKind::Terminal => RestoreView::IfPasted(Seq::empty()),
                TargetKind::Gui => RestoreView::Always(Seq::empty()),
            }
        }),
{
}

/// Output for a tag takes the tag's place, output for copied text goes to the
/// clipboard, each for its own target.
pub proof fn law_results_are_applied(
    tag: String,
    given: String,
    kind: TargetKind,
    len: usize,
    settings: Settings,
)
    ensures
        applied(
            CommandResult::ReplaceTag { tag_text: tag, output: given, target: kind },
            settings,
        ) == replace_tag_start(tag@, given@, kind, settings),
        applied(
            CommandResult::SetClipboard { output: given, target: kind, trigger_len: len },
            settings,
        ) == set_clipboard_start(given@, kind, len as nat, settings),
{
}

/// What a replacement came to: whether it was pasted, or the error of the
/// keyboard or the clipboard because of which it is not in its place.
pub proof fn law_replacements_tell_what_came_of_them(result: Result<bool>, injection: InjectionView)
    requires
        is_replacement_result(result, injection),
    ensures
        injection.failure is None ==> result == Ok::<bool, BaanError>(injection.used_clipboard),
        injection.failure matches Some(Failure::Device(error)) ==> result == Err::<bool, BaanError>(
            error,
        ),
        injection.failure matches Some(Failure::Clipboard(text)) ==> (result matches Err(
            BaanError::Write { source, .. },
        ) && source == plain_error(text@)),
{
}

} // verus!
