//! Virtual and physical keyboards: what to send to them and what they send.
//!
//! What a keyboard has to be sent is a [`KeyScript`]: it hands out one step at
//! a time and takes what came of it. Setting up the virtual keyboard is a
//! [`SetupRun`], and reading a physical one fills an [`EventBuffer`].
use crate::error::{BaanError, Result};
use crate::event::{
    event_from_bytes, key_change, le_bytes, name_field, report_end, setup_bytes, wire_event,
    InputEvent, UinputSetup,
};
use crate::keycode::{
    char_of, get_key_from_char, key_of, law_characters_round_trip, BUS_USB, EV_KEY, KEY_BACKSPACE, KEY_C, KEY_END, KEY_HOME,
    KEY_LEFTCTRL, KEY_LEFTSHIFT, KEY_RIGHT, KEY_V, LINUX_KEYS, UI_DEV_CREATE, UI_DEV_DESTROY,
    UI_DEV_SETUP, UI_SET_EVBIT, UI_SET_KEYBIT,
};
use crate::number::{decimal, decimal_text};
use crate::text::chars_of;
use vstd::prelude::*;
use vstd::string::*;

verus! {

/// An operation asked of a keyboard.
#[verifier::ext_equal]
pub enum KeyRequest {
    SelectLine,
    CtrlC,
    CtrlShiftC,
    CtrlV,
    CtrlShiftV,
    Text(Seq<char>),
    PositionAtTag { pos: nat, len: nat },
    Backspace(nat),
}

/// An operation asked of a keyboard, and what came of it.
pub type KeyExchange = (KeyRequest, Result<()>);

/// Key-injection operations needed by the event loop. Implemented for the
/// virtual keyboard; fakeable in tests.
///
/// Every operation adds itself and its result to the keyboard's log.
pub trait KeyInjector {
    /// The operations asked of the keyboard so far and their results, oldest
    /// first. An implementation that keeps such a log says here where it is;
    /// for one that does not it is some function of the keyboard.
    closed spec fn log(&self) -> Seq<KeyExchange> {
        let log = choose|log: spec_fn(&Self) -> Seq<KeyExchange>| #[trigger] log(self).len() >= 0;
        log(self)
    }

    fn select_line(&mut self) -> (result: Result<()>)
        ensures
            final(self).log() == old(self).log().push((KeyRequest::SelectLine, result)),
    ;

    /// Simulate Ctrl+C (copy).
    fn send_ctrl_c(&mut self) -> (result: Result<()>)
        ensures
            final(self).log() == old(self).log().push((KeyRequest::CtrlC, result)),
    ;

    /// Simulate Ctrl+Shift+C (the copy shortcut in terminals, where plain
    /// Ctrl+C means SIGINT).
    fn send_ctrl_shift_c(&mut self) -> (result: Result<()>)
        ensures
            final(self).log() == old(self).log().push((KeyRequest::CtrlShiftC, result)),
    ;

    /// Simulate Ctrl+V (paste).
    fn send_ctrl_v(&mut self) -> (result: Result<()>)
        ensures
            final(self).log() == old(self).log().push((KeyRequest::CtrlV, result)),
    ;

    /// Simulate Ctrl+Shift+V (the paste shortcut in terminals).
    fn send_ctrl_shift_v(&mut self) -> (result: Result<()>)
        ensures
            final(self).log() == old(self).log().push((KeyRequest::CtrlShiftV, result)),
    ;

    fn send_string(&mut self, s: &str) -> (result: Result<()>)
        ensures
            final(self).log() == old(self).log().push((KeyRequest::Text(s@), result)),
    ;

    fn position_at_tag(&mut self, pos: usize, len: usize) -> (result: Result<()>)
        ensures
            final(self).log() == old(self).log().push(
                (KeyRequest::PositionAtTag { pos: pos as nat, len: len as nat }, result),
            ),
    ;

    /// Press Backspace `n` times, deleting `n` characters before the cursor.
    fn send_backspace(&mut self, n: usize) -> (result: Result<()>)
        ensures
            final(self).log() == old(self).log().push((KeyRequest::Backspace(n as nat), result)),
    ;
}

// ---------------------------------------------------------------------------
// Steps
// ---------------------------------------------------------------------------

/// One step of a script.
#[derive(Debug, Clone, Copy, PartialEq, Eq, Structural)]
pub enum KeyStep {
    /// Write this event to the device.
    Emit(InputEvent),
    /// Pause, giving the receiving application time to process what came
    /// before.
    Pause,
}

/// A step, and when it is taken after a failure.
#[derive(Debug, Clone, Copy, PartialEq, Eq, Structural)]
pub struct KeyOp {
    pub step: KeyStep,
    /// Zero for a step that a failure cancels. Otherwise the step cleans up
    /// after the modifier pressed this many steps earlier, and is taken
    /// whenever that modifier was pressed.
    pub back: u128,
}

/// A step that a failure cancels.
pub open spec fn plain(step: KeyStep) -> KeyOp {
    KeyOp { step, back: 0 }
}

/// A key goes down.
pub open spec fn down(keycode: u32) -> KeyStep {
    KeyStep::Emit(key_change(keycode, 1))
}

/// A key goes up.
pub open spec fn up(keycode: u32) -> KeyStep {
    KeyStep::Emit(key_change(keycode, 0))
}

/// A report ends.
pub open spec fn sync() -> KeyStep {
    KeyStep::Emit(report_end())
}

/// Press and release a key, with a pause after each half so downstream
/// applications reliably observe both edges.
pub open spec fn tap(keycode: u32) -> Seq<KeyOp> {
    seq![
        plain(down(keycode)),
        plain(KeyStep::Pause),
        plain(up(keycode)),
        plain(KeyStep::Pause),
    ]
}

/// Press and release a key at once.
pub open spec fn click(keycode: u32) -> Seq<KeyOp> {
    seq![plain(down(keycode)), plain(up(keycode))]
}

/// A block of steps, `n` times.
pub open spec fn repeated(block: Seq<KeyOp>, n: nat) -> Seq<KeyOp>
    decreases n,
{
    if n == 0 {
        Seq::empty()
    } else {
        repeated(block, (n - 1) as nat) + block
    }
}

/// Hold `modifier` down, do `body`, then release it, whatever came of `body`.
pub open spec fn held(modifier: u32, sync_after: bool, body: Seq<KeyOp>) -> Seq<KeyOp> {
    let at = (body.len() + 2) as u128;
    let start = seq![plain(down(modifier)), plain(KeyStep::Pause)];
    let release = seq![
        KeyOp { step: up(modifier), back: at },
        KeyOp { step: KeyStep::Pause, back: (at + 1) as u128 },
    ];
    let end = if sync_after {
        seq![KeyOp { step: sync(), back: (at + 2) as u128 }]
    } else {
        Seq::empty()
    };
    start + body + release + end
}

/// Type one character.
pub open spec fn typed(character: char) -> Seq<KeyOp> {
    match key_of(character) {
        Some(key) => if key.is_shifted {
            held(KEY_LEFTSHIFT, true, tap(key.keycode))
        } else {
            tap(key.keycode)
        },
        None => Seq::empty(),
    }
}

/// Type the characters of a text up to the first that no key produces.
pub open spec fn typed_text(text: Seq<char>) -> Seq<KeyOp>
    decreases text.len(),
{
    if text.len() == 0 {
        Seq::empty()
    } else if first_untypable(text.drop_last()) is Some {
        typed_text(text.drop_last())
    } else {
        typed_text(text.drop_last()) + typed(text.last())
    }
}

/// The first character of a text that no key produces.
pub open spec fn first_untypable(text: Seq<char>) -> Option<char>
    decreases text.len(),
{
    if text.len() == 0 {
        None
    } else if first_untypable(text.drop_last()) is Some {
        first_untypable(text.drop_last())
    } else if key_of(text.last()) is None {
        Some(text.last())
    } else {
        None
    }
}

/// Type a text; the report ends once all of it is typed.
pub open spec fn string_script(text: Seq<char>) -> Seq<KeyOp> {
    if first_untypable(text) is Some {
        typed_text(text)
    } else {
        typed_text(text).push(plain(sync()))
    }
}

/// Press and release a key, then end the report.
pub open spec fn key_press_script(keycode: u32) -> Seq<KeyOp> {
    click(keycode).push(plain(sync()))
}

/// Press Backspace `n` times.
pub open spec fn backspace_script(n: nat) -> Seq<KeyOp> {
    repeated(click(KEY_BACKSPACE), n).push(plain(sync()))
}

/// Tap a key with Ctrl held down.
pub open spec fn ctrl_script(keycode: u32) -> Seq<KeyOp> {
    held(KEY_LEFTCTRL, true, tap(keycode))
}

/// Tap a key with Ctrl and Shift held down.
pub open spec fn ctrl_shift_script(keycode: u32) -> Seq<KeyOp> {
    held(KEY_LEFTCTRL, true, held(KEY_LEFTSHIFT, true, tap(keycode)))
}

/// Go to a position of the line and delete what stands there.
pub open spec fn position_script(pos: nat, tag_len: nat) -> Seq<KeyOp> {
    tap(KEY_HOME) + repeated(tap(KEY_RIGHT), pos) + held(
        KEY_LEFTSHIFT,
        false,
        repeated(tap(KEY_RIGHT), tag_len),
    ) + tap(KEY_BACKSPACE) + seq![plain(sync())]
}

/// Select the line.
pub open spec fn line_script() -> Seq<KeyOp> {
    tap(KEY_HOME) + held(KEY_LEFTSHIFT, true, tap(KEY_END))
}

/// Whether step `i` is taken, given where the first failure was, if any.
pub open spec fn is_taken(ops: Seq<KeyOp>, failed: Option<int>, i: int) -> bool {
    match failed {
        None => true,
        Some(failed) => i <= failed || (ops[i].back > 0 && i - ops[i].back < failed),
    }
}

/// The first step at or after `from` that is taken; the end if there is none.
pub open spec fn next_taken(ops: Seq<KeyOp>, failed: Option<int>, from: int) -> int
    decreases ops.len() - from,
{
    if from >= ops.len() {
        ops.len() as int
    } else if is_taken(ops, failed, from) {
        from
    } else {
        next_taken(ops, failed, from + 1)
    }
}

/// Where the first failure was, once step `at` came to this.
pub open spec fn failed_after(failed: Option<int>, at: int, result: Result<()>) -> Option<int> {
    match (failed, result) {
        (None, Err(_)) => Some(at),
        _ => failed,
    }
}

/// The first error, once a step came to this.
pub open spec fn error_after(error: Option<BaanError>, result: Result<()>) -> Option<BaanError> {
    match (error, result) {
        (None, Err(first)) => Some(first),
        _ => error,
    }
}

/// Whether a script comes to this, given its first error and the character that
/// cannot be typed.
pub open spec fn is_script_result(
    result: Result<()>,
    error: Option<BaanError>,
    refused: Option<char>,
) -> bool {
    match error {
        Some(error) => result == Err::<(), BaanError>(error),
        None => match refused {
            Some(ch) => result == Err::<(), BaanError>(BaanError::InvalidCharacter { ch }),
            None => result is Ok,
        },
    }
}

// ---------------------------------------------------------------------------
// Building scripts
// ---------------------------------------------------------------------------

/// Appends a key press or release.
fn push_key(ops: &mut Vec<KeyOp>, keycode: u32, value: i32, back: u128)
    requires
        keycode <= u16::MAX,
    ensures
        final(ops)@ == old(ops)@.push(
            KeyOp { step: KeyStep::Emit(key_change(keycode, value)), back },
        ),
{
    ops.push(KeyOp { step: KeyStep::Emit(InputEvent::key_event(keycode, value)), back });
}

/// Appends a pause.
fn push_pause(ops: &mut Vec<KeyOp>, back: u128)
    ensures
        final(ops)@ == old(ops)@.push(KeyOp { step: KeyStep::Pause, back }),
{
    ops.push(KeyOp { step: KeyStep::Pause, back });
}

/// Appends a sync event.
fn push_sync(ops: &mut Vec<KeyOp>, back: u128)
    ensures
        final(ops)@ == old(ops)@.push(KeyOp { step: sync(), back }),
{
    ops.push(KeyOp { step: KeyStep::Emit(InputEvent::sync_event()), back });
}

/// Appends a tap.
fn push_tap(ops: &mut Vec<KeyOp>, keycode: u32)
    requires
        keycode <= u16::MAX,
    ensures
        final(ops)@ == old(ops)@ + tap(keycode),
{
    let ghost start = ops@;
    push_key(ops, keycode, 1, 0);
    push_pause(ops, 0);
    push_key(ops, keycode, 0, 0);
    push_pause(ops, 0);
    assert(ops@ =~= start + tap(keycode));
}

/// Appends `n` taps.
fn push_taps(ops: &mut Vec<KeyOp>, keycode: u32, n: usize)
    requires
        keycode <= u16::MAX,
    ensures
        final(ops)@ == old(ops)@ + repeated(tap(keycode), n as nat),
{
    let ghost start = ops@;
    let mut i: usize = 0;
    assert(ops@ =~= start + repeated(tap(keycode), 0));
    while i < n
        invariant
            i <= n,
            keycode <= u16::MAX,
            ops@ == start + repeated(tap(keycode), i as nat),
        decreases n - i,
    {
        push_tap(ops, keycode);
        assert(ops@ =~= start + repeated(tap(keycode), (i + 1) as nat));
        i += 1;
    }
}

/// Appends `body` with `modifier` held down.
fn push_held(ops: &mut Vec<KeyOp>, modifier: u32, sync_after: bool, body: &[KeyOp])
    requires
        modifier <= u16::MAX,
    ensures
        final(ops)@ == old(ops)@ + held(modifier, sync_after, body@),
{
    let ghost start = ops@;
    push_key(ops, modifier, 1, 0);
    push_pause(ops, 0);
    let ghost before = ops@;
    ops.extend_from_slice(body);
    assert(ops@ =~= before + body@);
    let at: u128 = body.len() as u128 + 2;
    push_key(ops, modifier, 0, at);
    push_pause(ops, at + 1);
    if sync_after {
        push_sync(ops, at + 2);
    }
    assert(ops@ =~= start + held(modifier, sync_after, body@));
}

// ---------------------------------------------------------------------------
// Scripts
// ---------------------------------------------------------------------------

/// What a keyboard has to be sent, and how far that has come.
///
/// After a failure only the steps that release a modifier are taken, so that a
/// failed write partway through a Ctrl/Shift sequence does not leave the
/// modifier permanently stuck down. The first error is the one reported.
#[derive(Debug)]
pub struct KeyScript {
    ops: Vec<KeyOp>,
    refused: Option<char>,
    at: usize,
    failed: Option<usize>,
    error: Option<BaanError>,
}

impl KeyScript {
    /// The steps.
    pub closed spec fn ops(self) -> Seq<KeyOp> {
        self.ops@
    }

    /// The character that cannot be typed, if the script ends with one.
    pub closed spec fn refused(self) -> Option<char> {
        self.refused
    }

    /// Which step is next; the number of steps once all are done.
    pub closed spec fn at(self) -> int {
        self.at as int
    }

    /// Which step failed first, if any.
    pub closed spec fn failed(self) -> Option<int> {
        match self.failed {
            Some(failed) => Some(failed as int),
            None => None,
        }
    }

    /// The first error, if any.
    pub closed spec fn error(self) -> Option<BaanError> {
        self.error
    }

    /// The script stands at a step that is to be taken, or at its end.
    pub open spec fn wf(self) -> bool {
        &&& 0 <= self.at() <= self.ops().len()
        &&& self.at() < self.ops().len() ==> is_taken(self.ops(), self.failed(), self.at())
        &&& self.failed() is Some <==> self.error() is Some
        &&& self.failed() matches Some(failed) ==> 0 <= failed < self.at()
    }

    /// Nothing of the script has been done yet.
    pub open spec fn is_fresh(self) -> bool {
        &&& self.wf()
        &&& self.at() == 0
        &&& self.failed() is None
    }

    /// A script of these steps.
    fn of(ops: Vec<KeyOp>, refused: Option<char>) -> (script: KeyScript)
        ensures
            script.is_fresh(),
            script.ops() == ops@,
            script.refused() == refused,
    {
        KeyScript { ops, refused, at: 0, failed: None, error: None }
    }

    /// The step to take now; `None` once all are done.
    pub fn current(&self) -> (step: Option<KeyStep>)
        requires
            self.wf(),
        ensures
            step == if self.at() < self.ops().len() {
                Some(self.ops()[self.at()].step)
            } else {
                None
            },
    {
        if self.at < self.ops.len() {
            Some(self.ops[self.at].step)
        } else {
            None
        }
    }

    /// Takes what came of the current step and moves on to the next.
    pub fn advance(&mut self, result: Result<()>)
        requires
            old(self).wf(),
            old(self).at() < old(self).ops().len(),
        ensures
            final(self).wf(),
            final(self).ops() == old(self).ops(),
            final(self).refused() == old(self).refused(),
            ({
                let failed = failed_after(old(self).failed(), old(self).at(), result);
                &&& final(self).failed() == failed
                &&& final(self).at() == next_taken(
                    old(self).ops(),
                    failed,
                    old(self).at() + 1,
                )
            }),
            final(self).error() == error_after(old(self).error(), result),
            final(self).at() > old(self).at(),
    {
        if self.failed.is_none() {
            match result {
                Ok(()) => {},
                Err(error) => {
                    self.failed = Some(self.at);
                    self.error = Some(error);
                },
            }
        }
        let ghost ops = self.ops@;
        let ghost failed = self.failed();
        let ghost from = self.at + 1;
        assert(self.at < self.ops.len());
        let mut i: usize = self.at + 1;
        while i < self.ops.len() && !self.takes(i)
            invariant
                i <= self.ops@.len(),
                from <= i,
                ops == self.ops@,
                failed == self.failed(),
                next_taken(ops, failed, from) == next_taken(ops, failed, i as int),
            decreases self.ops@.len() - i,
        {
            i += 1;
        }
        self.at = i;
    }

    /// Whether step `i` is taken.
    fn takes(&self, i: usize) -> (taken: bool)
        requires
            i < self.ops().len(),
        ensures
            taken == is_taken(self.ops(), self.failed(), i as int),
    {
        match self.failed {
            None => true,
            Some(failed) => {
                let back: u128 = self.ops[i].back;
                i <= failed || back > (i - failed) as u128
            },
        }
    }

    /// What came of the script: its first error, else the character that
    /// cannot be typed, if there is one.
    pub fn finish(self) -> (result: Result<()>)
        ensures
            is_script_result(result, self.error(), self.refused()),
    {
        match self.error {
            Some(error) => Err(error),
            None => match self.refused {
                Some(ch) => Err(BaanError::InvalidCharacter { ch }),
                None => Ok(()),
            },
        }
    }

    /// Send a sync event.
    pub fn send_sync() -> (script: KeyScript)
        ensures
            script.is_fresh(),
            script.refused() is None,
            script.ops() == seq![plain(sync())],
    {
        let mut ops: Vec<KeyOp> = Vec::new();
        push_sync(&mut ops, 0);
        assert(ops@ =~= seq![plain(sync())]);
        KeyScript::of(ops, None)
    }

    /// Send a key-down event followed by a key-up event for the given keycode.
    pub fn send_key_press(keycode: u32) -> (script: KeyScript)
        requires
            keycode <= u16::MAX,
        ensures
            script.is_fresh(),
            script.refused() is None,
            script.ops() == key_press_script(keycode),
    {
        let mut ops: Vec<KeyOp> = Vec::new();
        push_key(&mut ops, keycode, 1, 0);
        push_key(&mut ops, keycode, 0, 0);
        push_sync(&mut ops, 0);
        assert(ops@ =~= click(keycode).push(plain(sync())));
        KeyScript::of(ops, None)
    }

    /// Send a key-down event (value=1) for the given keycode.
    pub fn send_key_down(keycode: u32) -> (script: KeyScript)
        requires
            keycode <= u16::MAX,
        ensures
            script.is_fresh(),
            script.refused() is None,
            script.ops() == seq![plain(down(keycode))],
    {
        let mut ops: Vec<KeyOp> = Vec::new();
        push_key(&mut ops, keycode, 1, 0);
        assert(ops@ =~= seq![plain(down(keycode))]);
        KeyScript::of(ops, None)
    }

    /// Send a key-up event (value=0) for the given keycode.
    pub fn send_key_up(keycode: u32) -> (script: KeyScript)
        requires
            keycode <= u16::MAX,
        ensures
            script.is_fresh(),
            script.refused() is None,
            script.ops() == seq![plain(up(keycode))],
    {
        let mut ops: Vec<KeyOp> = Vec::new();
        push_key(&mut ops, keycode, 0, 0);
        assert(ops@ =~= seq![plain(up(keycode))]);
        KeyScript::of(ops, None)
    }

    /// Send `n` backspace key presses.
    pub fn send_backspace(n: usize) -> (script: KeyScript)
        ensures
            script.is_fresh(),
            script.refused() is None,
            script.ops() == backspace_script(n as nat),
    {
        let mut ops: Vec<KeyOp> = Vec::new();
        let mut i: usize = 0;
        while i < n
            invariant
                i <= n,
                ops@ == repeated(click(KEY_BACKSPACE), i as nat),
            decreases n - i,
        {
            push_key(&mut ops, KEY_BACKSPACE, 1, 0);
            push_key(&mut ops, KEY_BACKSPACE, 0, 0);
            assert(ops@ =~= repeated(click(KEY_BACKSPACE), (i + 1) as nat));
            i += 1;
        }
        push_sync(&mut ops, 0);
        KeyScript::of(ops, None)
    }

    /// Tap a key with a modifier held down.
    fn chord(modifier: u32, keycode: u32) -> (script: KeyScript)
        requires
            modifier <= u16::MAX,
            keycode <= u16::MAX,
        ensures
            script.is_fresh(),
            script.refused() is None,
            script.ops() == held(modifier, true, tap(keycode)),
    {
        let mut body: Vec<KeyOp> = Vec::new();
        push_tap(&mut body, keycode);
        assert(body@ =~= tap(keycode));
        let mut ops: Vec<KeyOp> = Vec::new();
        push_held(&mut ops, modifier, true, body.as_slice());
        assert(ops@ =~= held(modifier, true, tap(keycode)));
        KeyScript::of(ops, None)
    }

    /// Tap a key with two modifiers held down, pressed in this order and
    /// released in reverse. The inner modifier syncs, too, so applications
    /// observe the full chord.
    fn double_chord(first: u32, second: u32, keycode: u32) -> (script: KeyScript)
        requires
            first <= u16::MAX,
            second <= u16::MAX,
            keycode <= u16::MAX,
        ensures
            script.is_fresh(),
            script.refused() is None,
            script.ops() == held(first, true, held(second, true, tap(keycode))),
    {
        let mut body: Vec<KeyOp> = Vec::new();
        push_tap(&mut body, keycode);
        assert(body@ =~= tap(keycode));
        let mut inner: Vec<KeyOp> = Vec::new();
        push_held(&mut inner, second, true, body.as_slice());
        assert(inner@ =~= held(second, true, tap(keycode)));
        let mut ops: Vec<KeyOp> = Vec::new();
        push_held(&mut ops, first, true, inner.as_slice());
        assert(ops@ =~= held(first, true, held(second, true, tap(keycode))));
        KeyScript::of(ops, None)
    }

    /// Simulate Ctrl+V (paste).
    pub fn send_ctrl_v() -> (script: KeyScript)
        ensures
            script.is_fresh(),
            script.refused() is None,
            script.ops() == ctrl_script(KEY_V),
    {
        KeyScript::chord(KEY_LEFTCTRL, KEY_V)
    }

    /// Simulate Ctrl+Shift+V (the paste shortcut in terminals).
    pub fn send_ctrl_shift_v() -> (script: KeyScript)
        ensures
            script.is_fresh(),
            script.refused() is None,
            script.ops() == ctrl_shift_script(KEY_V),
    {
        KeyScript::double_chord(KEY_LEFTCTRL, KEY_LEFTSHIFT, KEY_V)
    }

    /// Simulate Ctrl+C (copy).
    pub fn send_ctrl_c() -> (script: KeyScript)
        ensures
            script.is_fresh(),
            script.refused() is None,
            script.ops() == ctrl_script(KEY_C),
    {
        KeyScript::chord(KEY_LEFTCTRL, KEY_C)
    }

    /// Simulate Ctrl+Shift+C (the copy shortcut in terminals, where plain
    /// Ctrl+C means SIGINT).
    pub fn send_ctrl_shift_c() -> (script: KeyScript)
        ensures
            script.is_fresh(),
            script.refused() is None,
            script.ops() == ctrl_shift_script(KEY_C),
    {
        KeyScript::double_chord(KEY_LEFTCTRL, KEY_LEFTSHIFT, KEY_C)
    }

    /// Position the cursor at `pos` in the current line and delete the
    /// `tag_len` characters of the tag.
    ///
    /// This avoids the clipboard by:
    /// 1. Moving cursor to start of line (Home)
    /// 2. Moving right `pos` times to reach the target position
    /// 3. Selecting `tag_len` characters (Shift+Right)
    /// 4. Deleting the selection (Backspace)
    pub fn position_at_tag(pos: usize, tag_len: usize) -> (script: KeyScript)
        ensures
            script.is_fresh(),
            script.refused() is None,
            script.ops() == position_script(pos as nat, tag_len as nat),
    {
        let mut selection: Vec<KeyOp> = Vec::new();
        push_taps(&mut selection, KEY_RIGHT, tag_len);
        assert(selection@ =~= repeated(tap(KEY_RIGHT), tag_len as nat));
        let mut ops: Vec<KeyOp> = Vec::new();
        push_tap(&mut ops, KEY_HOME);
        assert(ops@ =~= tap(KEY_HOME));
        push_taps(&mut ops, KEY_RIGHT, pos);
        push_held(&mut ops, KEY_LEFTSHIFT, false, selection.as_slice());
        push_tap(&mut ops, KEY_BACKSPACE);
        let ghost before = ops@;
        push_sync(&mut ops, 0);
        assert(ops@ =~= before + seq![plain(sync())]);
        KeyScript::of(ops, None)
    }

    /// Select the entire current line (Home, then Shift+End).
    pub fn select_line() -> (script: KeyScript)
        ensures
            script.is_fresh(),
            script.refused() is None,
            script.ops() == line_script(),
    {
        let mut body: Vec<KeyOp> = Vec::new();
        push_tap(&mut body, KEY_END);
        assert(body@ =~= tap(KEY_END));
        let mut ops: Vec<KeyOp> = Vec::new();
        push_tap(&mut ops, KEY_HOME);
        assert(ops@ =~= tap(KEY_HOME));
        push_held(&mut ops, KEY_LEFTSHIFT, true, body.as_slice());
        KeyScript::of(ops, None)
    }

    /// Press the left shift key.
    pub fn send_shift_down() -> (script: KeyScript)
        ensures
            script.is_fresh(),
            script.refused() is None,
            script.ops() == seq![plain(down(KEY_LEFTSHIFT)), plain(KeyStep::Pause)],
    {
        let mut ops: Vec<KeyOp> = Vec::new();
        push_key(&mut ops, KEY_LEFTSHIFT, 1, 0);
        push_pause(&mut ops, 0);
        assert(ops@ =~= seq![plain(down(KEY_LEFTSHIFT)), plain(KeyStep::Pause)]);
        KeyScript::of(ops, None)
    }

    /// Release the left shift key.
    pub fn send_shift_up() -> (script: KeyScript)
        ensures
            script.is_fresh(),
            script.refused() is None,
            script.ops() == seq![
                plain(up(KEY_LEFTSHIFT)),
                plain(sync()),
                plain(KeyStep::Pause),
            ],
    {
        let mut ops: Vec<KeyOp> = Vec::new();
        push_key(&mut ops, KEY_LEFTSHIFT, 0, 0);
        push_sync(&mut ops, 0);
        push_pause(&mut ops, 0);
        assert(ops@ =~= seq![plain(up(KEY_LEFTSHIFT)), plain(sync()), plain(KeyStep::Pause)]);
        KeyScript::of(ops, None)
    }

    /// Send an ASCII string through the virtual keyboard, typing each
    /// character individually via key events (with shift as needed). A
    /// character that no key produces ends the script with an error.
    pub fn send_string(string: &str) -> (script: KeyScript)
        ensures
            script.is_fresh(),
            script.refused() == first_untypable(string@),
            script.ops() == string_script(string@),
    {
        let chars = chars_of(string);
        let mut ops: Vec<KeyOp> = Vec::new();
        let mut i: usize = 0;
        assert(chars@.take(0) =~= Seq::empty());
        while i < chars.len()
            invariant
                i <= chars@.len(),
                chars@ == string@,
                first_untypable(chars@.take(i as int)) is None,
                ops@ == typed_text(chars@.take(i as int)),
            decreases chars@.len() - i,
        {
            let ch = chars[i];
            let ghost before = ops@;
            assert(chars@.take(i + 1).drop_last() =~= chars@.take(i as int));
            match get_key_from_char(ch) {
                Some(key) => {
                    proof {
                        lemma_keycodes_are_short(ch);
                    }
                    if key.is_shifted {
                        let mut body: Vec<KeyOp> = Vec::new();
                        push_tap(&mut body, key.keycode);
                        assert(body@ =~= tap(key.keycode));
                        push_held(&mut ops, KEY_LEFTSHIFT, true, body.as_slice());
                    } else {
                        push_tap(&mut ops, key.keycode);
                    }
                },
                None => {
                    proof {
                        assert(before + typed(ch) =~= before);
                        lemma_untypable_prefix(chars@, i + 1);
                    }
                    return KeyScript::of(ops, Some(ch));
                },
            }
            i += 1;
        }
        assert(chars@.take(i as int) =~= chars@);
        push_sync(&mut ops, 0);
        KeyScript::of(ops, None)
    }
}

/// The keycodes of the table fit in an event.
proof fn lemma_keycodes_are_short(character: char)
    ensures
        key_of(character) matches Some(key) ==> key.keycode <= u16::MAX,
{
    if key_of(character) is Some {
        crate::keycode::law_characters_can_be_typed(character);
        let keycode = key_of(character)->0.keycode;
        let j = choose|j: int| 0 <= j < 55 && #[trigger] LINUX_KEYS@[j] == keycode;
        lemma_registered_keys_are_short(j);
    }
}

/// The registered keycodes fit in an event.
proof fn lemma_registered_keys_are_short(j: int)
    requires
        0 <= j < 55,
    ensures
        LINUX_KEYS@[j] <= u16::MAX,
{
}

/// What follows a character that cannot be typed does not matter.
proof fn lemma_untypable_prefix(text: Seq<char>, n: int)
    requires
        0 <= n <= text.len(),
        first_untypable(text.take(n)) is Some,
    ensures
        first_untypable(text) == first_untypable(text.take(n)),
        typed_text(text) == typed_text(text.take(n)),
    decreases text.len() - n,
{
    if n < text.len() {
        assert(text.take(n + 1).drop_last() =~= text.take(n));
        lemma_untypable_prefix(text, n + 1);
    } else {
        assert(text.take(n) =~= text);
    }
}

/// A modifier that was pressed is always released: wherever in a script it is
/// held, and wherever behind its press the first failure is, the step that
/// releases it is taken.
pub proof fn law_pressed_modifiers_are_released(
    before: Seq<KeyOp>,
    modifier: u32,
    sync_after: bool,
    body: Seq<KeyOp>,
    after: Seq<KeyOp>,
    failed: Option<int>,
)
    requires
        failed matches Some(at) ==> before.len() < at,
        body.len() <= usize::MAX,
    ensures
        ({
            let ops = before + held(modifier, sync_after, body) + after;
            let release = before.len() + 2 + body.len();
            &&& release < ops.len()
            &&& ops[before.len() as int].step == down(modifier)
            &&& ops[release as int].step == up(modifier)
            &&& is_taken(ops, failed, release as int)
        }),
{
    let script = held(modifier, sync_after, body);
    let ops = before + script + after;
    let release = before.len() + 2 + body.len();
    assert(script[2 + body.len() as int] == (KeyOp {
        step: up(modifier),
        back: (body.len() + 2) as u128,
    }));
    assert(ops[release as int] == script[2 + body.len() as int]);
    assert(ops[before.len() as int] == script[0]);
}

/// Without a failure every step is taken, in order.
pub proof fn law_scripts_run_in_order(ops: Seq<KeyOp>, from: int)
    requires
        0 <= from <= ops.len(),
    ensures
        next_taken(ops, None, from) == from,
{
}

// ---------------------------------------------------------------------------
// What an application makes of a script
// ---------------------------------------------------------------------------

/// A key that went down, and whether Shift and Ctrl were held then.
pub struct Stroke {
    pub code: u16,
    pub shift: bool,
    pub ctrl: bool,
}

/// What an application hears of a keyboard: the keys that are down, and the
/// strokes so far.
#[verifier::ext_equal]
pub struct Heard {
    pub down: Set<u16>,
    pub strokes: Seq<Stroke>,
}

/// Nothing has been heard and no key is down.
pub open spec fn silence() -> Heard {
    Heard { down: Set::empty(), strokes: Seq::empty() }
}

/// What is heard after one more step. A key that is up and goes down is a
/// stroke, unless it is Shift (42) or Ctrl (29).
pub open spec fn heard_step(heard: Heard, step: KeyStep) -> Heard {
    match step {
        KeyStep::Pause => heard,
        KeyStep::Emit(event) => if event.kind != 1 {
            heard
        } else if event.value == 0 {
            Heard { down: heard.down.remove(event.code), ..heard }
        } else if heard.down.contains(event.code) {
            heard
        } else if event.code == 42 || event.code == 29 {
            Heard { down: heard.down.insert(event.code), ..heard }
        } else {
            Heard {
                down: heard.down.insert(event.code),
                strokes: heard.strokes.push(
                    Stroke {
                        code: event.code,
                        shift: heard.down.contains(42),
                        ctrl: heard.down.contains(29),
                    },
                ),
            }
        },
    }
}

/// What is heard after all the steps of a script.
pub open spec fn heard_all(heard: Heard, ops: Seq<KeyOp>) -> Heard
    decreases ops.len(),
{
    if ops.len() == 0 {
        heard
    } else {
        heard_step(heard_all(heard, ops.drop_last()), ops.last().step)
    }
}

/// A script of two parts is heard one part after the other.
proof fn lemma_heard_parts(heard: Heard, a: Seq<KeyOp>, b: Seq<KeyOp>)
    ensures
        heard_all(heard, a + b) == heard_all(heard_all(heard, a), b),
    decreases b.len(),
{
    if b.len() == 0 {
        assert(a + b =~= a);
    } else {
        assert((a + b).drop_last() =~= a + b.drop_last());
        lemma_heard_parts(heard, a, b.drop_last());
    }
}

/// One step alone.
proof fn lemma_heard_one(heard: Heard, op: KeyOp)
    ensures
        heard_all(heard, seq![op]) == heard_step(heard, op.step),
{
    assert(seq![op].drop_last() =~= Seq::empty());
    assert(heard_all(heard, seq![op].drop_last()) == heard);
    assert(seq![op].last() == op);
}

/// The stroke of a key while these keys are down.
pub open spec fn stroke(code: u32, down: Set<u16>) -> Stroke {
    Stroke { code: code as u16, shift: down.contains(42), ctrl: down.contains(29) }
}

/// A tap is one stroke, and the key is up again.
proof fn lemma_heard_tap(heard: Heard, code: u32)
    requires
        code <= u16::MAX,
        code != 42 && code != 29,
        !heard.down.contains(code as u16),
    ensures
        heard_all(heard, tap(code)) == (Heard {
            down: heard.down,
            strokes: heard.strokes.push(stroke(code, heard.down)),
        }),
        heard_all(heard, click(code)) == (Heard {
            down: heard.down,
            strokes: heard.strokes.push(stroke(code, heard.down)),
        }),
{
    let pressed = heard_step(heard, down(code));
    let released = heard_step(pressed, up(code));
    assert(released.down =~= heard.down);
    let (a, b) = (plain(down(code)), plain(KeyStep::Pause));
    let (c, d) = (plain(up(code)), plain(KeyStep::Pause));
    assert(tap(code) =~= seq![a] + seq![b] + seq![c] + seq![d]);
    lemma_heard_parts(heard, seq![a] + seq![b] + seq![c], seq![d]);
    lemma_heard_parts(heard, seq![a] + seq![b], seq![c]);
    lemma_heard_parts(heard, seq![a], seq![b]);
    lemma_heard_one(heard, a);
    lemma_heard_one(pressed, b);
    lemma_heard_one(pressed, c);
    lemma_heard_one(released, d);
    assert(click(code) =~= seq![a] + seq![c]);
    lemma_heard_parts(heard, seq![a], seq![c]);
}

/// What is done while a modifier is held is heard with it down, and then it is
/// up again.
proof fn lemma_heard_held(heard: Heard, modifier: u32, sync_after: bool, body: Seq<KeyOp>)
    requires
        modifier == 42 || modifier == 29,
        !heard.down.contains(modifier as u16),
    ensures
        ({
            let inside = heard_all(
                Heard { down: heard.down.insert(modifier as u16), ..heard },
                body,
            );
            heard_all(heard, held(modifier, sync_after, body)) == (Heard {
                down: inside.down.remove(modifier as u16),
                strokes: inside.strokes,
            })
        }),
{
    let at = (body.len() + 2) as u128;
    let a = plain(down(modifier));
    let b = plain(KeyStep::Pause);
    let c = KeyOp { step: up(modifier), back: at };
    let d = KeyOp { step: KeyStep::Pause, back: (at + 1) as u128 };
    let e = KeyOp { step: sync(), back: (at + 2) as u128 };
    let pressed = heard_step(heard, a.step);
    let inside = heard_all(pressed, body);
    let released = heard_step(inside, c.step);
    let start = seq![a] + seq![b];
    lemma_heard_parts(heard, seq![a], seq![b]);
    lemma_heard_one(heard, a);
    lemma_heard_one(pressed, b);
    lemma_heard_parts(heard, start, body);
    lemma_heard_parts(heard, start + body, seq![c]);
    lemma_heard_one(inside, c);
    lemma_heard_parts(heard, start + body + seq![c], seq![d]);
    lemma_heard_one(released, d);
    let most = start + body + seq![c] + seq![d];
    if sync_after {
        lemma_heard_parts(heard, most, seq![e]);
        lemma_heard_one(released, e);
        assert(held(modifier, sync_after, body) =~= most + seq![e]);
    } else {
        assert(held(modifier, sync_after, body) =~= most);
    }
}

/// The last report end is not heard.
proof fn lemma_heard_sync(heard: Heard, ops: Seq<KeyOp>)
    ensures
        heard_all(heard, ops.push(plain(sync()))) == heard_all(heard, ops),
        heard_all(heard, ops + seq![plain(sync())]) == heard_all(heard, ops),
{
    assert(ops.push(plain(sync())).drop_last() =~= ops);
    assert(ops + seq![plain(sync())] =~= ops.push(plain(sync())));
}

/// The same stroke several times.
pub open spec fn strokes_of(stroke: Stroke, n: nat) -> Seq<Stroke> {
    Seq::new(n, |i: int| stroke)
}

/// Taps of one key are as many strokes.
proof fn lemma_heard_repeated(heard: Heard, code: u32, n: nat)
    requires
        code <= u16::MAX,
        code != 42 && code != 29,
        !heard.down.contains(code as u16),
    ensures
        heard_all(heard, repeated(tap(code), n)) == (Heard {
            down: heard.down,
            strokes: heard.strokes + strokes_of(stroke(code, heard.down), n),
        }),
        heard_all(heard, repeated(click(code), n)) == (Heard {
            down: heard.down,
            strokes: heard.strokes + strokes_of(stroke(code, heard.down), n),
        }),
    decreases n,
{
    let one = stroke(code, heard.down);
    if n == 0 {
        assert(heard.strokes + strokes_of(one, n) =~= heard.strokes);
    } else {
        let m = (n - 1) as nat;
        lemma_heard_repeated(heard, code, m);
        lemma_heard_parts(heard, repeated(tap(code), m), tap(code));
        lemma_heard_parts(heard, repeated(click(code), m), click(code));
        lemma_heard_tap(heard_all(heard, repeated(tap(code), m)), code);
        assert((heard.strokes + strokes_of(one, m)).push(one) =~= heard.strokes + strokes_of(
            one,
            n,
        ));
    }
}

/// The strokes that a text is typed with, each with Shift if and only if its
/// character needs it.
spec fn text_strokes(text: Seq<char>) -> Seq<Stroke> {
    Seq::new(
        text.len(),
        |i: int|
            Stroke {
                code: key_of(text[i])->0.keycode as u16,
                shift: key_of(text[i])->0.is_shifted,
                ctrl: false,
            },
    )
}

/// Whether a key produces each character of a text.
pub open spec fn can_be_typed(text: Seq<char>) -> bool {
    forall|i: int| 0 <= i < text.len() ==> (#[trigger] key_of(text[i])) is Some
}

/// A text that can be typed is heard as its strokes.
proof fn lemma_heard_text(text: Seq<char>)
    requires
        can_be_typed(text),
    ensures
        first_untypable(text) is None,
        heard_all(silence(), typed_text(text)) == (Heard {
            down: Set::empty(),
            strokes: text_strokes(text),
        }),
    decreases text.len(),
{
    if text.len() == 0 {
        assert(text_strokes(text) =~= Seq::empty());
    } else {
        let rest = text.drop_last();
        let c = text.last();
        assert forall|i: int| 0 <= i < rest.len() implies (#[trigger] key_of(rest[i])) is Some by {
            assert(key_of(text[i]) is Some);
        }
        assert(key_of(text[text.len() - 1]) is Some);
        lemma_heard_text(rest);
        let before = heard_all(silence(), typed_text(rest));
        let key = key_of(c)->0;
        lemma_keycodes_are_short(c);
        crate::keycode::lemma_typing_keys(c);
        lemma_heard_parts(silence(), typed_text(rest), typed(c));
        if key.is_shifted {
            let shifted = Heard { down: before.down.insert(42), ..before };
            lemma_heard_held(before, KEY_LEFTSHIFT, true, tap(key.keycode));
            lemma_heard_tap(shifted, key.keycode);
            assert(shifted.down.remove(42) =~= Set::empty());
        } else {
            lemma_heard_tap(before, key.keycode);
        }
        assert(text_strokes(text) =~= text_strokes(rest).push(
            Stroke { code: key.keycode as u16, shift: key.is_shifted, ctrl: false },
        ));
    }
}

/// A text that can be typed is read back from its script, character by
/// character: each stroke produces the character with the Shift state it is
/// made in, none is made with Ctrl, and no key stays down.
pub proof fn law_typed_text_is_read_back(text: Seq<char>, i: int)
    requires
        can_be_typed(text),
    ensures
        ({
            let heard = heard_all(silence(), string_script(text));
            &&& heard.down == Set::<u16>::empty()
            &&& heard.strokes.len() == text.len()
            &&& 0 <= i < text.len() ==> {
                &&& char_of(heard.strokes[i].code as u32, heard.strokes[i].shift) == Some(text[i])
                &&& !heard.strokes[i].ctrl
            }
        }),
{
    lemma_heard_text(text);
    lemma_heard_sync(silence(), typed_text(text));
    if 0 <= i < text.len() {
        assert(key_of(text[i]) is Some);
        lemma_keycodes_are_short(text[i]);
        law_characters_round_trip(text[i]);
    }
}

/// A character that no key produces ends the script: what stands before it is
/// typed, nothing of what stands behind it, and it is named.
pub proof fn law_untypable_characters_end_the_script(
    before: Seq<char>,
    character: char,
    after: Seq<char>,
)
    requires
        can_be_typed(before),
        key_of(character) is None,
    ensures
        first_untypable(before + seq![character] + after) == Some(character),
        string_script(before + seq![character] + after) == typed_text(before),
{
    let text = before + seq![character] + after;
    let n = before.len() + 1;
    lemma_heard_text(before);
    assert(text.take(n as int).drop_last() =~= before);
    assert(text.take(n as int).last() == character);
    assert(typed_text(before) + typed(character) =~= typed_text(before));
    lemma_untypable_prefix(text, n as int);
}

/// Ctrl+C and Ctrl+V are one stroke of the key with Ctrl and without Shift.
/// With Shift it is held, too. No key stays down.
pub proof fn law_shortcuts_are_heard(code: u32)
    requires
        code == 46 || code == 47,
    ensures
        heard_all(silence(), ctrl_script(code)) == (Heard {
            down: Set::empty(),
            strokes: seq![Stroke { code: code as u16, shift: false, ctrl: true }],
        }),
        heard_all(silence(), ctrl_shift_script(code)) == (Heard {
            down: Set::empty(),
            strokes: seq![Stroke { code: code as u16, shift: true, ctrl: true }],
        }),
{
    let none = silence();
    let ctrl = Heard { down: none.down.insert(29), ..none };
    let both = Heard { down: ctrl.down.insert(42), ..ctrl };
    lemma_heard_held(none, KEY_LEFTCTRL, true, tap(code));
    lemma_heard_tap(ctrl, code);
    lemma_heard_held(none, KEY_LEFTCTRL, true, held(KEY_LEFTSHIFT, true, tap(code)));
    lemma_heard_held(ctrl, KEY_LEFTSHIFT, true, tap(code));
    lemma_heard_tap(both, code);
    assert(ctrl.down.remove(29) =~= Set::empty());
    assert(both.down.remove(42).remove(29) =~= Set::empty());
    assert(heard_all(none, ctrl_script(code)).strokes =~= seq![
        Stroke { code: code as u16, shift: false, ctrl: true },
    ]);
    assert(heard_all(none, ctrl_shift_script(code)).strokes =~= seq![
        Stroke { code: code as u16, shift: true, ctrl: true },
    ]);
}

/// Pressing a key is one stroke of it; deleting `n` characters is `n` strokes of
/// Backspace (14). Neither holds a modifier, and no key stays down.
pub proof fn law_presses_are_heard(code: u32, n: nat)
    requires
        code <= u16::MAX,
        code != 42 && code != 29,
    ensures
        heard_all(silence(), key_press_script(code)) == (Heard {
            down: Set::empty(),
            strokes: seq![Stroke { code: code as u16, shift: false, ctrl: false }],
        }),
        heard_all(silence(), backspace_script(n)) == (Heard {
            down: Set::empty(),
            strokes: strokes_of(Stroke { code: 14, shift: false, ctrl: false }, n),
        }),
{
    let none = silence();
    lemma_heard_tap(none, code);
    lemma_heard_sync(none, click(code));
    lemma_heard_repeated(none, KEY_BACKSPACE, n);
    lemma_heard_sync(none, repeated(click(KEY_BACKSPACE), n));
    assert(heard_all(none, key_press_script(code)).strokes =~= seq![
        Stroke { code: code as u16, shift: false, ctrl: false },
    ]);
    assert(heard_all(none, backspace_script(n)).strokes =~= strokes_of(
        Stroke { code: 14, shift: false, ctrl: false },
        n,
    ));
}

/// Going to a tag and deleting it is heard as Home (102), Right (106) once for
/// every character before the tag, Right with Shift once for every character of
/// the tag, and Backspace (14). No key stays down.
proof fn lemma_position_is_heard(pos: nat, tag_len: nat)
    ensures
        heard_all(silence(), position_script(pos, tag_len)) == (Heard {
            down: Set::empty(),
            strokes: seq![Stroke { code: 102, shift: false, ctrl: false }] + strokes_of(
                Stroke { code: 106, shift: false, ctrl: false },
                pos,
            ) + strokes_of(Stroke { code: 106, shift: true, ctrl: false }, tag_len) + seq![
                Stroke { code: 14, shift: false, ctrl: false },
            ],
        }),
{
    let none = silence();
    let a = tap(KEY_HOME);
    let b = repeated(tap(KEY_RIGHT), pos);
    let inner = repeated(tap(KEY_RIGHT), tag_len);
    let c = held(KEY_LEFTSHIFT, false, inner);
    let d = tap(KEY_BACKSPACE);
    lemma_heard_tap(none, KEY_HOME);
    let h1 = heard_all(none, a);
    lemma_heard_parts(none, a, b);
    lemma_heard_repeated(h1, KEY_RIGHT, pos);
    let h2 = heard_all(none, a + b);
    lemma_heard_parts(none, a + b, c);
    let shifted = Heard { down: h2.down.insert(42), ..h2 };
    lemma_heard_held(h2, KEY_LEFTSHIFT, false, inner);
    lemma_heard_repeated(shifted, KEY_RIGHT, tag_len);
    assert(shifted.down.remove(42) =~= Set::empty());
    let h3 = heard_all(none, a + b + c);
    lemma_heard_parts(none, a + b + c, d);
    lemma_heard_tap(h3, KEY_BACKSPACE);
    lemma_heard_sync(none, a + b + c + d);
    assert(heard_all(none, position_script(pos, tag_len)).strokes =~= seq![
        Stroke { code: 102, shift: false, ctrl: false },
    ] + strokes_of(Stroke { code: 106, shift: false, ctrl: false }, pos) + strokes_of(
        Stroke { code: 106, shift: true, ctrl: false },
        tag_len,
    ) + seq![Stroke { code: 14, shift: false, ctrl: false }]);
}

/// Selecting a line is heard as Home (102) and End (107) with Shift.
proof fn lemma_line_is_heard()
    ensures
        heard_all(silence(), line_script()) == (Heard {
            down: Set::empty(),
            strokes: seq![
                Stroke { code: 102, shift: false, ctrl: false },
                Stroke { code: 107, shift: true, ctrl: false },
            ],
        }),
{
    let none = silence();
    lemma_heard_tap(none, KEY_HOME);
    let home = heard_all(none, tap(KEY_HOME));
    let shifted = Heard { down: home.down.insert(42), ..home };
    lemma_heard_parts(none, tap(KEY_HOME), held(KEY_LEFTSHIFT, true, tap(KEY_END)));
    lemma_heard_held(home, KEY_LEFTSHIFT, true, tap(KEY_END));
    lemma_heard_tap(shifted, KEY_END);
    assert(shifted.down.remove(42) =~= Set::empty());
    assert(heard_all(none, line_script()).strokes =~= seq![
        Stroke { code: 102, shift: false, ctrl: false },
        Stroke { code: 107, shift: true, ctrl: false },
    ]);
}

/// A line that is edited: what it holds, where the cursor stands, and where the
/// selection began. Nothing is selected where both are the same.
#[verifier::ext_equal]
pub struct EditedLine {
    pub text: Seq<char>,
    pub cursor: int,
    pub anchor: int,
}

impl EditedLine {
    /// Where the selection starts.
    pub open spec fn low(self) -> int {
        if self.cursor < self.anchor {
            self.cursor
        } else {
            self.anchor
        }
    }

    /// Where the selection ends.
    pub open spec fn high(self) -> int {
        if self.cursor < self.anchor {
            self.anchor
        } else {
            self.cursor
        }
    }

    /// The cursor and the selection are inside the line.
    pub open spec fn wf(self) -> bool {
        0 <= self.low() && self.high() <= self.text.len()
    }

    /// The line with the cursor moved, with Shift held or not.
    pub open spec fn moved(self, cursor: int, shift: bool) -> EditedLine {
        EditedLine {
            text: self.text,
            cursor,
            anchor: if shift {
                self.anchor
            } else {
                cursor
            },
        }
    }

    /// The line with a text in the place of the characters from `from` to `to`.
    pub open spec fn replaced(self, from: int, to: int, text: Seq<char>) -> EditedLine {
        EditedLine {
            text: self.text.take(from) + text + self.text.skip(to),
            cursor: from + text.len(),
            anchor: from + text.len(),
        }
    }
}

/// What a stroke does to a line: Home (102), End (107) and Right (106) move the
/// cursor, and select with Shift; Backspace (14) deletes the selection or the
/// character before the cursor; a key that produces a character puts it in the
/// place of the selection. Strokes with Ctrl change nothing.
pub open spec fn edited(line: EditedLine, stroke: Stroke) -> EditedLine {
    if stroke.ctrl {
        line
    } else if stroke.code == 102 {
        line.moved(0, stroke.shift)
    } else if stroke.code == 107 {
        line.moved(line.text.len() as int, stroke.shift)
    } else if stroke.code == 106 {
        if line.cursor != line.anchor && !stroke.shift {
            line.moved(line.high(), false)
        } else if line.cursor < line.text.len() {
            line.moved(line.cursor + 1, stroke.shift)
        } else {
            line.moved(line.cursor, stroke.shift)
        }
    } else if stroke.code == 14 {
        if line.cursor != line.anchor {
            line.replaced(line.low(), line.high(), Seq::empty())
        } else if line.cursor > 0 {
            line.replaced(line.cursor - 1, line.cursor, Seq::empty())
        } else {
            line
        }
    } else {
        match char_of(stroke.code as u32, stroke.shift) {
            Some(c) => line.replaced(line.low(), line.high(), seq![c]),
            None => line,
        }
    }
}

/// What several strokes do to a line.
pub open spec fn edited_all(line: EditedLine, strokes: Seq<Stroke>) -> EditedLine
    decreases strokes.len(),
{
    if strokes.len() == 0 {
        line
    } else {
        edited(edited_all(line, strokes.drop_last()), strokes.last())
    }
}

/// Strokes in two parts edit one part after the other.
proof fn lemma_edited_parts(line: EditedLine, a: Seq<Stroke>, b: Seq<Stroke>)
    ensures
        edited_all(line, a + b) == edited_all(edited_all(line, a), b),
    decreases b.len(),
{
    if b.len() == 0 {
        assert(a + b =~= a);
    } else {
        assert((a + b).drop_last() =~= a + b.drop_last());
        lemma_edited_parts(line, a, b.drop_last());
    }
}

/// One stroke alone.
proof fn lemma_edited_one(line: EditedLine, stroke: Stroke)
    ensures
        edited_all(line, seq![stroke]) == edited(line, stroke),
{
    assert(seq![stroke].drop_last() =~= Seq::empty());
    assert(edited_all(line, seq![stroke].drop_last()) == line);
    assert(seq![stroke].last() == stroke);
}

/// Right moves the cursor by one for every stroke.
proof fn lemma_edited_right(line: EditedLine, shift: bool, n: nat)
    requires
        0 <= line.cursor,
        line.cursor + n <= line.text.len(),
        line.anchor == line.cursor,
    ensures
        edited_all(line, strokes_of(Stroke { code: 106, shift, ctrl: false }, n)) == line.moved(
            line.cursor + n,
            shift,
        ),
    decreases n,
{
    let one = Stroke { code: 106, shift, ctrl: false };
    let strokes = strokes_of(one, n);
    if n == 0 {
        assert(line.moved(line.cursor, shift) =~= line);
    } else {
        let m = (n - 1) as nat;
        lemma_edited_right(line, shift, m);
        assert(strokes.drop_last() =~= strokes_of(one, m));
    }
}

/// Going to a tag and deleting it takes the tag out of its line, wherever the
/// cursor stood and whatever was selected, and leaves the cursor in the tag's
/// place.
pub proof fn law_positioning_deletes_the_tag(
    line: EditedLine,
    before: Seq<char>,
    tag: Seq<char>,
    after: Seq<char>,
)
    requires
        line.text == before + tag + after,
        tag.len() > 0,
    ensures
        edited_all(
            line,
            heard_all(silence(), position_script(before.len(), tag.len())).strokes,
        ) == (EditedLine {
            text: before + after,
            cursor: before.len() as int,
            anchor: before.len() as int,
        }),
{
    let a = seq![Stroke { code: 102, shift: false, ctrl: false }];
    let b = strokes_of(Stroke { code: 106, shift: false, ctrl: false }, before.len());
    let c = strokes_of(Stroke { code: 106, shift: true, ctrl: false }, tag.len());
    let d = seq![Stroke { code: 14, shift: false, ctrl: false }];
    lemma_position_is_heard(before.len(), tag.len());
    lemma_edited_parts(line, a, b);
    lemma_edited_parts(line, a + b, c);
    lemma_edited_parts(line, a + b + c, d);
    lemma_edited_one(line, a[0]);
    let home = edited_all(line, a);
    lemma_edited_right(home, false, before.len());
    let there = edited_all(line, a + b);
    lemma_edited_right(there, true, tag.len());
    let selected = edited_all(line, a + b + c);
    lemma_edited_one(selected, d[0]);
    assert(selected.text.take(before.len() as int) + Seq::empty() + selected.text.skip(
        before.len() as int + tag.len(),
    ) =~= before + after);
}

/// Selecting a line selects all of it and changes nothing in it.
pub proof fn law_selecting_a_line(line: EditedLine)
    ensures
        edited_all(line, heard_all(silence(), line_script()).strokes) == (EditedLine {
            text: line.text,
            cursor: line.text.len() as int,
            anchor: 0,
        }),
        heard_all(silence(), line_script()).down == Set::<u16>::empty(),
{
    lemma_line_is_heard();
    let a = Stroke { code: 102, shift: false, ctrl: false };
    let b = Stroke { code: 107, shift: true, ctrl: false };
    assert(seq![a, b] =~= seq![a] + seq![b]);
    lemma_edited_parts(line, seq![a], seq![b]);
    lemma_edited_one(line, a);
    lemma_edited_one(edited(line, a), b);
}

/// Deleting `n` characters takes away the `n` characters before the cursor.
pub proof fn law_backspaces_delete_before_the_cursor(
    before: Seq<char>,
    deleted: Seq<char>,
    after: Seq<char>,
)
    ensures
        edited_all(
            EditedLine {
                text: before + deleted + after,
                cursor: (before + deleted).len() as int,
                anchor: (before + deleted).len() as int,
            },
            heard_all(silence(), backspace_script(deleted.len())).strokes,
        ) == (EditedLine {
            text: before + after,
            cursor: before.len() as int,
            anchor: before.len() as int,
        }),
    decreases deleted.len(),
{
    let one = Stroke { code: 14, shift: false, ctrl: false };
    let line = EditedLine {
        text: before + deleted + after,
        cursor: (before + deleted).len() as int,
        anchor: (before + deleted).len() as int,
    };
    law_presses_are_heard(KEY_BACKSPACE, deleted.len());
    let strokes = strokes_of(one, deleted.len());
    if deleted.len() == 0 {
        assert(line.text =~= before + after);
        assert(before + deleted =~= before);
    } else {
        let fewer = deleted.drop_last();
        law_presses_are_heard(KEY_BACKSPACE, fewer.len());
        law_backspaces_delete_before_the_cursor(before, fewer, after);
        let shorter = EditedLine {
            text: before + fewer + after,
            cursor: (before + fewer).len() as int,
            anchor: (before + fewer).len() as int,
        };
        assert(edited(line, one) == shorter) by {
            assert(line.text.take(line.cursor - 1) + Seq::empty() + line.text.skip(line.cursor)
                =~= before + fewer + after);
        }
        assert(strokes =~= seq![one] + strokes_of(one, fewer.len()));
        lemma_edited_parts(line, seq![one], strokes_of(one, fewer.len()));
        lemma_edited_one(line, one);
    }
}

/// The keys that move the cursor or delete produce no characters.
proof fn lemma_editing_keys_type_nothing(character: char)
    requires
        key_of(character) is Some,
    ensures
        key_of(character)->0.keycode != 102,
        key_of(character)->0.keycode != 107,
        key_of(character)->0.keycode != 106,
        key_of(character)->0.keycode != 14,
{
    law_characters_round_trip(character);
    crate::keycode::lemma_typing_keys(character);
    crate::keycode::lemma_backspace_types_nothing(key_of(character)->0.is_shifted);
}

/// Typing a text puts it where the cursor stands, in the place of what is
/// selected.
pub proof fn law_typing_puts_the_text_at_the_cursor(line: EditedLine, text: Seq<char>)
    requires
        line.wf(),
        can_be_typed(text),
        text.len() > 0,
    ensures
        edited_all(line, heard_all(silence(), string_script(text)).strokes) == line.replaced(
            line.low(),
            line.high(),
            text,
        ),
{
    lemma_heard_text(text);
    lemma_heard_sync(silence(), typed_text(text));
    lemma_typing_edits(line, text);
}

/// Typing a text, stroke by stroke.
proof fn lemma_typing_edits(line: EditedLine, text: Seq<char>)
    requires
        line.wf(),
        can_be_typed(text),
        text.len() > 0,
    ensures
        edited_all(line, text_strokes(text)) == line.replaced(line.low(), line.high(), text),
    decreases text.len(),
{
    let rest = text.drop_last();
    let c = text.last();
    assert(key_of(text[text.len() - 1]) is Some);
    lemma_keycodes_are_short(c);
    law_characters_round_trip(c);
    lemma_editing_keys_type_nothing(c);
    assert(text_strokes(text).drop_last() =~= text_strokes(rest));
    if rest.len() == 0 {
        assert(edited_all(line, text_strokes(rest)) == line);
        assert(text =~= seq![c]);
    } else {
        assert forall|i: int| 0 <= i < rest.len() implies (#[trigger] key_of(rest[i])) is Some by {
            assert(key_of(text[i]) is Some);
        }
        lemma_typing_edits(line, rest);
        let partly = line.replaced(line.low(), line.high(), rest);
        let at = partly.cursor;
        assert(partly.text.take(at) + seq![c] + partly.text.skip(at) =~= line.text.take(line.low())
            + text + line.text.skip(line.high()));
    }
}

/// Going to a tag, deleting it and typing a text puts the text in the tag's
/// place in the line.
pub proof fn law_typed_text_takes_the_place_of_the_tag(
    line: EditedLine,
    before: Seq<char>,
    tag: Seq<char>,
    after: Seq<char>,
    text: Seq<char>,
)
    requires
        line.text == before + tag + after,
        tag.len() > 0,
        can_be_typed(text),
        text.len() > 0,
    ensures
        edited_all(
            edited_all(
                line,
                heard_all(silence(), position_script(before.len(), tag.len())).strokes,
            ),
            heard_all(silence(), string_script(text)).strokes,
        ).text == before + text + after,
{
    law_positioning_deletes_the_tag(line, before, tag, after);
    let cut = EditedLine {
        text: before + after,
        cursor: before.len() as int,
        anchor: before.len() as int,
    };
    law_typing_puts_the_text_at_the_cursor(cut, text);
    assert(cut.text.take(before.len() as int) + text + cut.text.skip(before.len() as int)
        =~= before + text + after);
}

/// Every key change in a script is followed by a pause.
pub open spec fn is_paced(ops: Seq<KeyOp>) -> bool {
    forall|i: int|
        0 <= i < ops.len() && ((#[trigger] ops[i]).step matches KeyStep::Emit(event) && event.kind
            == 1) ==> i + 1 < ops.len() && ops[i + 1].step == KeyStep::Pause
}

/// Paced scripts one after the other are paced.
proof fn lemma_paced_parts(a: Seq<KeyOp>, b: Seq<KeyOp>)
    requires
        is_paced(a),
        is_paced(b),
    ensures
        is_paced(a + b),
{
    let ops = a + b;
    assert forall|i: int|
        0 <= i < ops.len() && ((#[trigger] ops[i]).step matches KeyStep::Emit(event) && event.kind
            == 1) implies i + 1 < ops.len() && ops[i + 1].step == KeyStep::Pause by {
        if i < a.len() {
            assert(ops[i] == a[i]);
            assert(ops[i + 1] == a[i + 1]);
        } else {
            assert(ops[i] == b[i - a.len()]);
            assert(ops[i + 1] == b[i + 1 - a.len()]);
        }
    }
}

/// Repeated paced scripts are paced.
proof fn lemma_paced_repeated(block: Seq<KeyOp>, n: nat)
    requires
        is_paced(block),
    ensures
        is_paced(repeated(block, n)),
    decreases n,
{
    if n > 0 {
        lemma_paced_repeated(block, (n - 1) as nat);
        lemma_paced_parts(repeated(block, (n - 1) as nat), block);
    }
}

/// A paced script with a modifier held is paced.
proof fn lemma_paced_held(modifier: u32, sync_after: bool, body: Seq<KeyOp>)
    requires
        is_paced(body),
    ensures
        is_paced(held(modifier, sync_after, body)),
{
    let at = (body.len() + 2) as u128;
    let start = seq![plain(down(modifier)), plain(KeyStep::Pause)];
    let release = seq![
        KeyOp { step: up(modifier), back: at },
        KeyOp { step: KeyStep::Pause, back: (at + 1) as u128 },
    ];
    let end = if sync_after {
        seq![KeyOp { step: sync(), back: (at + 2) as u128 }]
    } else {
        Seq::empty()
    };
    lemma_paced_parts(start, body);
    lemma_paced_parts(start + body, release);
    lemma_paced_parts(start + body + release, end);
}

/// Typing is paced.
proof fn lemma_paced_text(text: Seq<char>)
    ensures
        is_paced(typed_text(text)),
    decreases text.len(),
{
    if text.len() > 0 {
        let c = text.last();
        lemma_paced_text(text.drop_last());
        if let Some(key) = key_of(c) {
            lemma_paced_held(KEY_LEFTSHIFT, true, tap(key.keycode));
        }
        lemma_paced_parts(typed_text(text.drop_last()), typed(c));
    }
}

/// Scripts that type, use shortcuts or move the cursor pause after every key
/// change, so that an application observes each of them.
pub proof fn law_scripts_are_paced(text: Seq<char>, code: u32, pos: nat, len: nat)
    ensures
        is_paced(string_script(text)),
        is_paced(ctrl_script(code)),
        is_paced(ctrl_shift_script(code)),
        is_paced(position_script(pos, len)),
        is_paced(line_script()),
{
    let end = seq![plain(sync())];
    lemma_paced_text(text);
    lemma_paced_parts(typed_text(text), end);
    assert(typed_text(text) + end =~= typed_text(text).push(plain(sync())));
    lemma_paced_held(KEY_LEFTCTRL, true, tap(code));
    lemma_paced_held(KEY_LEFTSHIFT, true, tap(code));
    lemma_paced_held(KEY_LEFTCTRL, true, held(KEY_LEFTSHIFT, true, tap(code)));
    let a = tap(KEY_HOME);
    let b = repeated(tap(KEY_RIGHT), pos);
    let inner = repeated(tap(KEY_RIGHT), len);
    let c = held(KEY_LEFTSHIFT, false, inner);
    let d = tap(KEY_BACKSPACE);
    lemma_paced_repeated(tap(KEY_RIGHT), pos);
    lemma_paced_repeated(tap(KEY_RIGHT), len);
    lemma_paced_held(KEY_LEFTSHIFT, false, inner);
    lemma_paced_parts(a, b);
    lemma_paced_parts(a + b, c);
    lemma_paced_parts(a + b + c, d);
    lemma_paced_parts(a + b + c + d, end);
    lemma_paced_held(KEY_LEFTSHIFT, true, tap(KEY_END));
    lemma_paced_parts(a, held(KEY_LEFTSHIFT, true, tap(KEY_END)));
}

/// Whether a script ends with the end of a report.
pub open spec fn ends_a_report(ops: Seq<KeyOp>) -> bool {
    ops.len() > 0 && ops.last().step == KeyStep::Emit(
        InputEvent { tv_sec: 0, tv_usec: 0, kind: 0, code: 0, value: 0 },
    )
}

/// Every script that is done ends a report, without which nothing would reach
/// the application.
pub proof fn law_scripts_end_a_report(text: Seq<char>, code: u32, pos: nat, len: nat)
    requires
        can_be_typed(text),
    ensures
        ends_a_report(string_script(text)),
        ends_a_report(key_press_script(code)),
        ends_a_report(backspace_script(len)),
        ends_a_report(ctrl_script(code)),
        ends_a_report(ctrl_shift_script(code)),
        ends_a_report(position_script(pos, len)),
        ends_a_report(line_script()),
{
    lemma_heard_text(text);
}

/// After a failure a step is taken only if it cleans up after a modifier that
/// was pressed before the failure.
pub proof fn law_failures_cancel_what_follows(ops: Seq<KeyOp>, failed: int, i: int)
    requires
        0 <= failed < i < ops.len(),
    ensures
        is_taken(ops, Some(failed), i) <==> ops[i].back > 0 && i - ops[i].back < failed,
        is_taken(ops, Some(failed), failed),
        is_taken(ops, None, i),
{
}

/// The next step is the first of those that are taken.
pub proof fn law_next_step_is_the_first_taken(ops: Seq<KeyOp>, failed: Option<int>, from: int)
    requires
        0 <= from <= ops.len(),
    ensures
        from <= next_taken(ops, failed, from) <= ops.len(),
        next_taken(ops, failed, from) < ops.len() ==> is_taken(
            ops,
            failed,
            next_taken(ops, failed, from),
        ),
        forall|i: int|
            from <= i < next_taken(ops, failed, from) ==> !#[trigger] is_taken(ops, failed, i),
    decreases ops.len() - from,
{
    if from < ops.len() && !is_taken(ops, failed, from) {
        law_next_step_is_the_first_taken(ops, failed, from + 1);
    }
}

// ---------------------------------------------------------------------------
// Setting up the virtual keyboard
// ---------------------------------------------------------------------------

/// Path to the uinput device.
pub const UINPUT_PATH: &'static str = "/dev/uinput";

/// The virtual keyboard's name.
pub const DEVICE_NAME: &'static str = "baan";

/// The virtual keyboard's vendor.
pub const DEVICE_VENDOR: u16 = 1187;

/// The virtual keyboard's product.
pub const DEVICE_PRODUCT: u16 = 1999;

/// What an ioctl takes.
#[derive(Debug)]
pub enum IoctlArgument {
    /// A number.
    Value(u64),
    /// A pointer to these bytes.
    Bytes(Vec<u8>),
}

/// What it means that an ioctl failed.
#[derive(Debug, Clone, Copy, PartialEq, Eq, Structural)]
pub enum IoctlFailure {
    InitVirtualInput,
    AddKey(u32),
    SetupVirtualDevice,
    CreateVirtualDevice,
    DestroyVirtualDevice,
}

impl IoctlFailure {
    /// The error is the one for this failure, with this detail.
    pub open spec fn is_error(self, error: BaanError, text: Seq<char>) -> bool {
        match self {
            IoctlFailure::InitVirtualInput => error matches BaanError::InitVirtualInput { detail }
                && detail@ == text,
            IoctlFailure::AddKey(code) => error matches BaanError::AddKey { keycode, detail }
                && keycode == code && detail@ == text,
            IoctlFailure::SetupVirtualDevice => error matches BaanError::SetupVirtualDevice {
                detail,
            } && detail@ == text,
            IoctlFailure::CreateVirtualDevice => error matches BaanError::CreateVirtualDevice {
                detail,
            } && detail@ == text,
            IoctlFailure::DestroyVirtualDevice => error matches BaanError::DestroyVirtualDevice {
                detail,
            } && detail@ == text,
        }
    }

    /// The error for this failure.
    pub fn error(self, detail: String) -> (error: BaanError)
        ensures
            error == match self {
                IoctlFailure::InitVirtualInput => BaanError::InitVirtualInput { detail },
                IoctlFailure::AddKey(keycode) => BaanError::AddKey { keycode, detail },
                IoctlFailure::SetupVirtualDevice => BaanError::SetupVirtualDevice { detail },
                IoctlFailure::CreateVirtualDevice => BaanError::CreateVirtualDevice { detail },
                IoctlFailure::DestroyVirtualDevice => BaanError::DestroyVirtualDevice { detail },
            },
    {
        match self {
            IoctlFailure::InitVirtualInput => BaanError::InitVirtualInput { detail },
            IoctlFailure::AddKey(keycode) => BaanError::AddKey { keycode, detail },
            IoctlFailure::SetupVirtualDevice => BaanError::SetupVirtualDevice { detail },
            IoctlFailure::CreateVirtualDevice => BaanError::CreateVirtualDevice { detail },
            IoctlFailure::DestroyVirtualDevice => BaanError::DestroyVirtualDevice { detail },
        }
    }
}

/// One ioctl on the uinput device.
#[derive(Debug)]
pub struct IoctlStep {
    pub request: u64,
    pub argument: IoctlArgument,
    /// What it means if it fails.
    pub failure: IoctlFailure,
    /// What to call it in the report of a failure.
    pub detail: String,
}

impl IoctlStep {
    /// The step is this ioctl on a number.
    pub open spec fn sets(
        self,
        request: u64,
        value: u64,
        failure: IoctlFailure,
        detail: Seq<char>,
    ) -> bool {
        &&& self.request == request
        &&& self.argument == IoctlArgument::Value(value)
        &&& self.failure == failure
        &&& self.detail@ == detail
    }

    /// The error is the one for a failure of this step that the OS reports in
    /// these words.
    pub open spec fn fails_with(self, error: BaanError, os_error: Seq<char>) -> bool {
        self.failure.is_error(error, self.detail@ + ": "@ + os_error)
    }
}

/// The bytes that describe the virtual keyboard to the kernel.
pub open spec fn device_description() -> Seq<u8> {
    le_bytes(BUS_USB as int, 2) + le_bytes(DEVICE_VENDOR as int, 2)
        + le_bytes(DEVICE_PRODUCT as int, 2) + le_bytes(0, 2)
        + name_field(DEVICE_NAME@) + le_bytes(0, 4)
}

/// These are the ioctls that register all required keys and create the virtual
/// keyboard, in order.
pub open spec fn are_setup_steps(steps: Seq<IoctlStep>) -> bool {
    &&& steps.len() == 58
    &&& steps[0].sets(
        UI_SET_EVBIT,
        EV_KEY as u64,
        IoctlFailure::InitVirtualInput,
        "UI_SET_EVBIT(EV_KEY)"@,
    )
    &&& forall|i: int|
        0 <= i < 55 ==> (#[trigger] steps[1 + i]).sets(
            UI_SET_KEYBIT,
            LINUX_KEYS@[i] as u64,
            IoctlFailure::AddKey(LINUX_KEYS@[i]),
            "UI_SET_KEYBIT("@ + decimal(LINUX_KEYS@[i] as nat) + ")"@,
        )
    &&& steps[56].request == UI_DEV_SETUP
    &&& steps[56].argument matches IoctlArgument::Bytes(bytes)
    &&& bytes@ == device_description()
    &&& steps[56].failure == IoctlFailure::SetupVirtualDevice
    &&& steps[56].detail@ == "UI_DEV_SETUP"@
    &&& steps[57].sets(UI_DEV_CREATE, 0, IoctlFailure::CreateVirtualDevice, "UI_DEV_CREATE"@)
}

/// The ioctls that register all required keys and create the virtual
/// keyboard, in order.
pub fn setup_steps() -> (steps: Vec<IoctlStep>)
    ensures
        are_setup_steps(steps@),
{
    let mut steps: Vec<IoctlStep> = Vec::new();
    steps.push(
        IoctlStep {
            request: UI_SET_EVBIT,
            argument: IoctlArgument::Value(EV_KEY as u64),
            failure: IoctlFailure::InitVirtualInput,
            detail: "UI_SET_EVBIT(EV_KEY)".to_owned(),
        },
    );
    let ghost first = steps@[0];
    let mut i: usize = 0;
    while i < 55
        invariant
            i <= 55,
            steps@.len() == i + 1,
            steps@[0] == first,
            forall|j: int|
                0 <= j < i ==> (#[trigger] steps@[1 + j]).sets(
                    UI_SET_KEYBIT,
                    LINUX_KEYS@[j] as u64,
                    IoctlFailure::AddKey(LINUX_KEYS@[j]),
                    "UI_SET_KEYBIT("@ + decimal(LINUX_KEYS@[j] as nat) + ")"@,
                ),
        decreases 55 - i,
    {
        let code: u32 = LINUX_KEYS[i];
        let mut detail = "UI_SET_KEYBIT(".to_owned();
        detail.append(decimal_text(code as u128).as_str());
        detail.append(")");
        steps.push(
            IoctlStep {
                request: UI_SET_KEYBIT,
                argument: IoctlArgument::Value(code as u64),
                failure: IoctlFailure::AddKey(code),
                detail,
            },
        );
        i += 1;
    }
    let setup = UinputSetup::new(DEVICE_NAME, BUS_USB, DEVICE_VENDOR, DEVICE_PRODUCT);
    let bytes = setup_bytes(&setup);
    assert(bytes@ == device_description());
    steps.push(
        IoctlStep {
            request: UI_DEV_SETUP,
            argument: IoctlArgument::Bytes(bytes),
            failure: IoctlFailure::SetupVirtualDevice,
            detail: "UI_DEV_SETUP".to_owned(),
        },
    );
    steps.push(
        IoctlStep {
            request: UI_DEV_CREATE,
            argument: IoctlArgument::Value(0),
            failure: IoctlFailure::CreateVirtualDevice,
            detail: "UI_DEV_CREATE".to_owned(),
        },
    );
    steps
}

/// The ioctl that destroys the virtual keyboard (on shutdown).
pub fn destroy_step() -> (step: IoctlStep)
    ensures
        step.sets(UI_DEV_DESTROY, 0, IoctlFailure::DestroyVirtualDevice, "UI_DEV_DESTROY"@),
{
    IoctlStep {
        request: UI_DEV_DESTROY,
        argument: IoctlArgument::Value(0),
        failure: IoctlFailure::DestroyVirtualDevice,
        detail: "UI_DEV_DESTROY".to_owned(),
    }
}

/// Calls `std::io::Error::last_os_error` and formats what it gives. That is
/// the state of the operating system, so nothing is stated of it.
#[verifier::external_body]
fn last_os_error_text() -> (text: String) {
    format!("{}", std::io::Error::last_os_error())
}

/// Converts an ioctl return value into a `Result`, given the OS's last error
/// in words.
pub fn ioctl_result(
    ret: i32,
    os_error: &str,
    error_kind: impl FnOnce(String) -> BaanError,
    detail: &str,
) -> (result: Result<()>)
    requires
        forall|text: String| call_requires(error_kind, (text,)),
    ensures
        ret >= 0 ==> result is Ok,
        ret < 0 ==> (result matches Err(error) && exists|text: String|
            text@ == detail@ + ": "@ + os_error@ && #[trigger] call_ensures(
                error_kind,
                (text,),
                error,
            )),
{
    if ret < 0 {
        let mut text = detail.to_owned();
        text.append(": ");
        text.append(os_error);
        return Err(error_kind(text));
    }
    Ok(())
}

/// Converts an ioctl return value into a `Result`, attaching the OS's last
/// error when the call failed (indicated by a negative return).
pub fn check_ioctl_result(
    ret: i32,
    error_kind: impl FnOnce(String) -> BaanError,
    detail: &str,
) -> (result: Result<()>)
    requires
        forall|text: String| call_requires(error_kind, (text,)),
    ensures
        ret >= 0 ==> result is Ok,
        ret < 0 ==> (result matches Err(error) && exists|text: String, os_error: Seq<char>|
            text@ == #[trigger] (detail@ + ": "@ + os_error) && #[trigger] call_ensures(
                error_kind,
                (text,),
                error,
            )),
{
    if ret < 0 {
        let os_error = last_os_error_text();
        return ioctl_result(ret, os_error.as_str(), error_kind, detail);
    }
    Ok(())
}

/// What an ioctl returned, and the OS's last error in words after it.
pub struct IoctlReply {
    pub ret: i32,
    pub os_error: Seq<char>,
}

/// None of the ioctls failed.
pub open spec fn none_failed(replies: Seq<IoctlReply>) -> bool {
    forall|i: int| 0 <= i < replies.len() ==> (#[trigger] replies[i]).ret >= 0
}

/// Setting up the virtual keyboard: opening the uinput device, then one ioctl
/// after the other until one fails or all are done.
pub struct SetupRun {
    steps: Vec<IoctlStep>,
    at: usize,
    error: Option<BaanError>,
    opened: Ghost<std::result::Result<(), std::io::Error>>,
    replies: Ghost<Seq<IoctlReply>>,
}

impl SetupRun {
    /// The ioctls of the setup.
    pub closed spec fn steps(self) -> Seq<IoctlStep> {
        self.steps@
    }

    /// What came of opening the device.
    pub closed spec fn opened(self) -> std::result::Result<(), std::io::Error> {
        self.opened@
    }

    /// What the ioctls made so far gave.
    pub closed spec fn replies(self) -> Seq<IoctlReply> {
        self.replies@
    }

    /// Another ioctl is to be made.
    pub open spec fn is_running(self) -> bool {
        &&& self.opened() is Ok
        &&& none_failed(self.replies())
        &&& self.replies().len() < self.steps().len()
    }

    /// No ioctl was made behind one that failed, and the error is that of what
    /// failed.
    pub closed spec fn wf(self) -> bool {
        &&& are_setup_steps(self.steps@)
        &&& self.at <= self.steps@.len()
        &&& match (self.opened@, self.error) {
            (Err(cause), error) => {
                &&& self.replies@.len() == 0
                &&& error matches Some(BaanError::Open { path, source })
                &&& path@ == UINPUT_PATH@
                &&& source == cause
            },
            (Ok(_), None) => self.replies@.len() == self.at && none_failed(self.replies@),
            (Ok(_), Some(error)) => {
                &&& self.replies@.len() == self.at + 1
                &&& self.at < self.steps@.len()
                &&& none_failed(self.replies@.drop_last())
                &&& self.replies@.last().ret < 0
                &&& self.steps@[self.at as int].fails_with(error, self.replies@.last().os_error)
            },
        }
    }

    /// A setup, given what came of opening the device.
    pub fn new(opened: std::result::Result<(), std::io::Error>) -> (run: SetupRun)
        ensures
            run.wf(),
            are_setup_steps(run.steps()),
            run.opened() == opened,
            run.replies() == Seq::<IoctlReply>::empty(),
    {
        let ghost given = opened;
        let error = match opened {
            Ok(()) => None,
            Err(source) => Some(BaanError::Open { path: UINPUT_PATH.to_owned(), source }),
        };
        SetupRun {
            steps: setup_steps(),
            at: 0,
            error,
            opened: Ghost(given),
            replies: Ghost(Seq::empty()),
        }
    }

    /// The ioctl to make now; `None` once one has failed or all are done, or
    /// where the device did not open.
    pub fn current(&self) -> (step: Option<&IoctlStep>)
        requires
            self.wf(),
        ensures
            step == if self.is_running() {
                Some(&self.steps()[self.replies().len() as int])
            } else {
                None
            },
    {
        if self.error.is_none() && self.at < self.steps.len() {
            Some(&self.steps[self.at])
        } else {
            proof {
                if self.opened@ is Ok && self.error is Some {
                    assert(self.replies@[self.at as int].ret < 0);
                }
            }
            None
        }
    }

    /// Takes what the current ioctl returned, and the OS's last error in words.
    pub fn advance(&mut self, ret: i32, os_error: &str)
        requires
            old(self).wf(),
            old(self).is_running(),
        ensures
            final(self).wf(),
            final(self).steps() == old(self).steps(),
            final(self).opened() == old(self).opened(),
            final(self).replies() == old(self).replies().push(
                IoctlReply { ret, os_error: os_error@ },
            ),
    {
        let ghost before = self.replies@;
        proof {
            if self.error is Some {
                assert(self.replies@[self.at as int].ret < 0);
            }
        }
        self.replies = Ghost(before.push(IoctlReply { ret, os_error: os_error@ }));
        assert(self.replies@.drop_last() =~= before);
        if ret < 0 {
            let step = &self.steps[self.at];
            let mut detail = step.detail.clone();
            detail.append(": ");
            detail.append(os_error);
            let error = step.failure.error(detail);
            self.error = Some(error);
        } else {
            assert(self.at < self.steps.len());
            self.at = self.at + 1;
        }
    }

    /// What came of the setup: it succeeds if and only if the device opened and
    /// none of the ioctls failed. Else the error is that of opening the device,
    /// or that of the first ioctl that failed.
    pub fn finish(self) -> (result: Result<()>)
        requires
            self.wf(),
            !self.is_running(),
        ensures
            result is Ok <==> self.opened() is Ok && self.replies().len() == self.steps().len()
                && none_failed(self.replies()),
            self.opened() matches Err(cause) ==> (result matches Err(BaanError::Open {
                path,
                source,
            }) && path@ == UINPUT_PATH@ && source == cause),
            forall|i: int|
                0 <= i < self.replies().len() && (#[trigger] self.replies()[i]).ret < 0
                    && none_failed(self.replies().take(i)) ==> (result matches Err(error)
                    && self.steps()[i].fails_with(error, self.replies()[i].os_error)),
    {
        proof {
            if self.opened@ is Ok && self.error is Some {
                let at = self.at as int;
                assert(self.replies@[at].ret < 0);
                assert forall|i: int| 0 <= i < at implies (#[trigger] self.replies@[i]).ret
                    >= 0 by {
                    assert(self.replies@.drop_last()[i].ret >= 0);
                }
            }
        }
        match self.error {
            Some(error) => Err(error),
            None => Ok(()),
        }
    }
}

/// In every state of a setup at most the last ioctl made has failed: the first
/// failure ends it. None is made where the device did not open.
pub proof fn law_first_failure_ends_the_setup(run: SetupRun)
    requires
        run.wf(),
    ensures
        are_setup_steps(run.steps()),
        run.replies().len() <= run.steps().len(),
        forall|i: int| 0 <= i < run.replies().len() - 1 ==> (#[trigger] run.replies()[i]).ret >= 0,
        run.opened() is Err ==> run.replies().len() == 0,
{
    assert forall|i: int| 0 <= i < run.replies().len() - 1 implies (#[trigger] run.replies()[i]).ret
        >= 0 by {
        assert(run.replies().drop_last()[i].ret == run.replies()[i].ret);
    }
}

/// The setup names the kind of event first, then every key, then describes the
/// device, and creates it last. No key that is recognised is left out.
pub proof fn law_setups_register_every_key(steps: Seq<IoctlStep>, keycode: u32)
    requires
        are_setup_steps(steps),
    ensures
        steps[0].request == 0x4004_5564,
        steps[0].argument == IoctlArgument::Value(1),
        crate::keycode::is_registered(keycode) ==> exists|i: int|
            0 < i < 56 && (#[trigger] steps[i]).request == 0x4004_5565 && steps[i].argument
                == IoctlArgument::Value(keycode as u64),
        steps[56].request == 0x405c_5503,
        steps[57].request == 0x5501,
        steps.len() == 58,
{
    if crate::keycode::is_registered(keycode) {
        let j = choose|j: int| 0 <= j < 55 && #[trigger] LINUX_KEYS@[j] == keycode;
        assert(steps[1 + j].request == UI_SET_KEYBIT);
    }
}

/// Every key that a script presses is registered: those that produce
/// characters, Backspace, Ctrl, Shift, Home, Right and End.
pub proof fn law_script_keys_are_registered(character: char)
    ensures
        key_of(character) matches Some(key) ==> crate::keycode::is_registered(key.keycode),
        crate::keycode::is_registered(14),
        crate::keycode::is_registered(29),
        crate::keycode::is_registered(42),
        crate::keycode::is_registered(102),
        crate::keycode::is_registered(106),
        crate::keycode::is_registered(107),
{
    if key_of(character) is Some {
        crate::keycode::law_characters_can_be_typed(character);
    }
    assert(LINUX_KEYS@[12] == 14);
    assert(LINUX_KEYS@[25] == 29);
    assert(LINUX_KEYS@[50] == 42);
    assert(LINUX_KEYS@[52] == 106);
    assert(LINUX_KEYS@[53] == 102);
    assert(LINUX_KEYS@[54] == 107);
}

/// The virtual keyboard describes itself as a USB device named `baan`.
pub proof fn law_the_device_describes_itself()
    ensures
        device_description().len() == 92,
        device_description().subrange(0, 2) == seq![3u8, 0u8],
        device_description().subrange(2, 4) == seq![163u8, 4u8],
        device_description().subrange(4, 6) == seq![207u8, 7u8],
        device_description().subrange(6, 8) == seq![0u8, 0u8],
        device_description().subrange(8, 88) == name_field("baan"@),
        device_description().subrange(88, 92) == seq![0u8, 0u8, 0u8, 0u8],
{
    crate::event::law_lowest_byte_first(3);
    crate::event::law_lowest_byte_first(1187);
    crate::event::law_lowest_byte_first(1999);
    crate::event::law_lowest_byte_first(0);
    let bytes = device_description();
    assert(bytes.subrange(0, 2) =~= seq![3u8, 0u8]);
    assert(bytes.subrange(2, 4) =~= seq![163u8, 4u8]);
    assert(bytes.subrange(4, 6) =~= seq![207u8, 7u8]);
    assert(bytes.subrange(6, 8) =~= seq![0u8, 0u8]);
    assert(bytes.subrange(8, 88) =~= name_field("baan"@));
    assert(bytes.subrange(88, 92) =~= seq![0u8, 0u8, 0u8, 0u8]);
}

// ---------------------------------------------------------------------------
// Reading a keyboard
// ---------------------------------------------------------------------------

/// What came of a read from the keyboard.
#[derive(Debug)]
pub enum DeviceRead {
    /// These bytes were read; none at the end of the file.
    Bytes(Vec<u8>),
    /// A signal interrupted the read.
    Interrupted,
    /// The read failed.
    Failed(std::io::Error),
}

/// The bytes of an event that have been read so far.
#[derive(Debug)]
pub struct EventBuffer {
    bytes: Vec<u8>,
}

/// The error of kind `UnexpectedEof` with this message.
pub uninterp spec fn end_of_file(message: Seq<char>) -> std::io::Error;

/// Makes an error of kind `UnexpectedEof` with `std::io::Error::new`: a function
/// of the message alone, named `end_of_file`.
#[verifier::external_body]
fn unexpected_end(message: &str) -> (error: std::io::Error)
    ensures
        error == end_of_file(message@),
{
    std::io::Error::new(std::io::ErrorKind::UnexpectedEof, message)
}

/// The first bytes of a vector as an array.
fn event_array(bytes: &[u8]) -> (array: [u8; 24])
    requires
        bytes@.len() == 24,
    ensures
        array@ == bytes@,
{
    let mut array: [u8; 24] = [0u8; 24];
    let mut i: usize = 0;
    while i < 24
        invariant
            i <= 24,
            bytes@.len() == 24,
            forall|j: int| 0 <= j < i ==> #[trigger] array@[j] == bytes@[j],
        decreases 24 - i,
    {
        array[i] = bytes[i];
        i += 1;
    }
    assert(array@ =~= bytes@);
    array
}

impl View for EventBuffer {
    type V = Seq<u8>;

    closed spec fn view(&self) -> Seq<u8> {
        self.bytes@
    }
}

impl EventBuffer {
    /// The buffer holds less than one event.
    pub open spec fn wf(&self) -> bool {
        self@.len() < 24
    }

    /// A buffer without any bytes yet.
    pub fn new() -> (buffer: EventBuffer)
        ensures
            buffer.wf(),
            buffer@ == Seq::<u8>::empty(),
    {
        EventBuffer { bytes: Vec::new() }
    }

    /// How many bytes to ask the keyboard for.
    pub fn wanted(&self) -> (n: usize)
        requires
            self.wf(),
        ensures
            n == 24 - self@.len(),
            n > 0,
    {
        24 - self.bytes.len()
    }

    /// Takes what came of a read from the keyboard at `path`, of no more bytes
    /// than wanted. `None` asks for another read.
    ///
    /// `Some(Ok(None))` means that a signal interrupted the read before any
    /// bytes of the next event arrived. Partial reads are completed even
    /// across interrupts so the 24-byte event stream stays aligned with the
    /// kernel. Once there is a result the buffer is empty again.
    pub fn read(&mut self, path: &str, outcome: DeviceRead) -> (result: Option<
        Result<Option<InputEvent>>,
    >)
        requires
            old(self).wf(),
            outcome matches DeviceRead::Bytes(bytes) ==> old(self)@.len() + bytes@.len() <= 24,
        ensures
            final(self).wf(),
            result is Some ==> final(self)@ == Seq::<u8>::empty(),
            is_event_read(old(self)@, path@, outcome, final(self)@, result),
    {
        match outcome {
            DeviceRead::Bytes(mut bytes) => {
                if bytes.len() == 0 {
                    self.bytes = Vec::new();
                    assert(self@ =~= Seq::<u8>::empty());
                    return Some(
                        Err(
                            BaanError::Read {
                                path: path.to_owned(),
                                source: unexpected_end("unexpected EOF reading input event"),
                            },
                        ),
                    );
                }
                let ghost whole = self@ + bytes@;
                self.bytes.append(&mut bytes);
                assert(self@ =~= whole);
                if self.bytes.len() < 24 {
                    return None;
                }
                let event = event_from_bytes(event_array(self.bytes.as_slice()));
                self.bytes = Vec::new();
                assert(self@ =~= Seq::<u8>::empty());
                Some(Ok(Some(event)))
            },
            DeviceRead::Interrupted => {
                if self.bytes.len() == 0 {
                    assert(self@ =~= Seq::<u8>::empty());
                    Some(Ok(None))
                } else {
                    None
                }
            },
            DeviceRead::Failed(source) => {
                self.bytes = Vec::new();
                assert(self@ =~= Seq::<u8>::empty());
                Some(Err(BaanError::Read { path: path.to_owned(), source }))
            },
        }
    }
}

/// Whether an event is read from the keyboard at `path`: what the buffer holds
/// after a read, and what comes of it.
pub open spec fn is_event_read(
    before: Seq<u8>,
    path: Seq<char>,
    outcome: DeviceRead,
    after: Seq<u8>,
    result: Option<Result<Option<InputEvent>>>,
) -> bool {
    match outcome {
        DeviceRead::Bytes(bytes) => if bytes@.len() == 0 {
            &&& after.len() == 0
            &&& result matches Some(Err(BaanError::Read { path: at, source }))
            &&& at@ == path
            &&& source == end_of_file("unexpected EOF reading input event"@)
        } else if before.len() + bytes@.len() < 24 {
            result is None && after == before + bytes@
        } else {
            &&& after.len() == 0
            &&& result matches Some(Ok(Some(event)))
            &&& event == wire_event(before + bytes@)
        },
        DeviceRead::Interrupted => if before.len() == 0 {
            after.len() == 0 && result matches Some(Ok(None))
        } else {
            result is None && after == before
        },
        DeviceRead::Failed(error) => {
            &&& after.len() == 0
            &&& result matches Some(Err(BaanError::Read { path: at, source }))
            &&& at@ == path
            &&& source == error
        },
    }
}

/// An event that arrives in two reads is the one whose bytes are those of both,
/// also where a signal interrupts in between. The next event starts afresh.
pub proof fn law_events_arrive_whole(
    event: InputEvent,
    first: Vec<u8>,
    second: Vec<u8>,
    path: Seq<char>,
    middle: Seq<u8>,
    kept: Seq<u8>,
    after: Seq<u8>,
    none: Option<Result<Option<InputEvent>>>,
    still: Option<Result<Option<InputEvent>>>,
    result: Option<Result<Option<InputEvent>>>,
)
    requires
        first@ + second@ == crate::event::wire_bytes(event),
        first@.len() > 0,
        second@.len() > 0,
        is_event_read(Seq::empty(), path, DeviceRead::Bytes(first), middle, none),
        is_event_read(middle, path, DeviceRead::Interrupted, kept, still),
        is_event_read(kept, path, DeviceRead::Bytes(second), after, result),
    ensures
        none is None,
        still is None,
        result == Some(Ok::<Option<InputEvent>, BaanError>(Some(event))),
        after.len() == 0,
{
    crate::event::law_events_survive_the_wire(event);
    assert(Seq::<u8>::empty() + first@ =~= first@);
}

/// An event that arrives in one read is the one with those bytes. A signal
/// before it begins is told; the end of the file and a failure are errors that
/// name the device.
pub proof fn law_what_comes_of_a_read(
    event: InputEvent,
    bytes: Vec<u8>,
    error: std::io::Error,
    before: Seq<u8>,
    path: Seq<char>,
    after: Seq<u8>,
    result: Option<Result<Option<InputEvent>>>,
)
    ensures
        bytes@ == crate::event::wire_bytes(event) && is_event_read(
            Seq::empty(),
            path,
            DeviceRead::Bytes(bytes),
            after,
            result,
        ) ==> result == Some(Ok::<Option<InputEvent>, BaanError>(Some(event))),
        is_event_read(Seq::empty(), path, DeviceRead::Interrupted, after, result) ==> result
            == Some(Ok::<Option<InputEvent>, BaanError>(None)),
        bytes@.len() == 0 && is_event_read(before, path, DeviceRead::Bytes(bytes), after, result)
            ==> (result matches Some(Err(BaanError::Read { path: at, .. })) && at@ == path),
        is_event_read(before, path, DeviceRead::Failed(error), after, result) ==> (
        result matches Some(Err(BaanError::Read { path: at, source })) && at@ == path && source
            == error),
        is_event_read(before, path, DeviceRead::Failed(error), after, result) ==> after.len() == 0,
        bytes@.len() > 0 && before.len() + bytes@.len() < 24 && is_event_read(
            before,
            path,
            DeviceRead::Bytes(bytes),
            after,
            result,
        ) ==> result is None && after == before + bytes@,
        before + bytes@ == crate::event::wire_bytes(event) && bytes@.len() > 0 && is_event_read(
            before,
            path,
            DeviceRead::Bytes(bytes),
            after,
            result,
        ) ==> result == Some(Ok::<Option<InputEvent>, BaanError>(Some(event))),
        before.len() > 0 && is_event_read(before, path, DeviceRead::Interrupted, after, result)
            ==> result is None && after == before,
{
    crate::event::law_events_survive_the_wire(event);
    assert(Seq::<u8>::empty() + bytes@ =~= bytes@);
}

/// The first failure of a script is remembered, with its error, and later
/// results change nothing about it.
pub proof fn law_the_first_failure_is_remembered(
    failed: Option<int>,
    error: Option<BaanError>,
    at: int,
    result: Result<()>,
)
    ensures
        result is Ok ==> failed_after(failed, at, result) == failed && error_after(error, result)
            == error,
        failed is Some ==> failed_after(failed, at, result) == failed,
        error is Some ==> error_after(error, result) == error,
        failed is None ==> (result matches Err(first) ==> failed_after(failed, at, result) == Some(
            at,
        )),
        error is None ==> (result matches Err(first) ==> error_after(error, result) == Some(first)),
{
}

/// What comes of a script is its first error; without one it is an error that
/// names the character that cannot be typed, if there is one; without either
/// it succeeds.
pub proof fn law_scripts_report_their_first_error(
    result: Result<()>,
    error: Option<BaanError>,
    refused: Option<char>,
)
    requires
        is_script_result(result, error, refused),
    ensures
        error matches Some(first) ==> result == Err::<(), BaanError>(first),
        error is None && refused is Some ==> (result matches Err(
            BaanError::InvalidCharacter { ch },
        ) && refused == Some(ch)),
        error is None && refused is None ==> result is Ok,
{
}

/// A setup fails with the first ioctl that returns a negative number, and each
/// kind of ioctl has an error of its own, with what it was called and the
/// operating system's words; that of a key names the key.
pub proof fn law_failed_ioctls_are_told_apart(
    step: IoctlStep,
    error: BaanError,
    words: Seq<char>,
    replies: Seq<IoctlReply>,
)
    ensures
        none_failed(replies) <==> forall|i: int|
            0 <= i < replies.len() ==> !((#[trigger] replies[i]).ret < 0),
        step.fails_with(error, words) ==> match step.failure {
            IoctlFailure::InitVirtualInput => error matches BaanError::InitVirtualInput { detail }
                && detail@ == step.detail@ + ": "@ + words,
            IoctlFailure::AddKey(code) => error matches BaanError::AddKey { keycode, detail }
                && keycode == code && detail@ == step.detail@ + ": "@ + words,
            IoctlFailure::SetupVirtualDevice => error matches BaanError::SetupVirtualDevice {
                detail,
            } && detail@ == step.detail@ + ": "@ + words,
            IoctlFailure::CreateVirtualDevice => error matches BaanError::CreateVirtualDevice {
                detail,
            } && detail@ == step.detail@ + ": "@ + words,
            IoctlFailure::DestroyVirtualDevice => error matches BaanError::DestroyVirtualDevice {
                detail,
            } && detail@ == step.detail@ + ": "@ + words,
        },
{
}

/// Everything that follows the release of a modifier that was pressed is done,
/// too: the pause behind it and the end of the report.
pub proof fn law_releases_are_reported(
    before: Seq<KeyOp>,
    modifier: u32,
    body: Seq<KeyOp>,
    after: Seq<KeyOp>,
    failed: Option<int>,
)
    requires
        failed matches Some(at) ==> before.len() < at,
        body.len() <= usize::MAX,
    ensures
        ({
            let ops = before + held(modifier, true, body) + after;
            let end = before.len() + 4 + body.len();
            &&& end < ops.len()
            &&& ops[end as int].step == KeyStep::Emit(
                InputEvent { tv_sec: 0, tv_usec: 0, kind: 0, code: 0, value: 0 },
            )
            &&& is_taken(ops, failed, end as int)
            &&& is_taken(ops, failed, end - 1)
        }),
{
    let script = held(modifier, true, body);
    let ops = before + script + after;
    let end = before.len() + 4 + body.len();
    assert(script.len() == body.len() + 5);
    assert(script[4 + body.len() as int] == (KeyOp { step: sync(), back: (body.len() + 4) as u128 }));
    assert(ops[end as int] == script[4 + body.len() as int]);
    assert(script[3 + body.len() as int].back == (body.len() + 3) as u128);
    assert(ops[end - 1] == script[3 + body.len() as int]);
}

} // verus!
