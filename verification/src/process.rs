//! Running a command: what to do next, and what came of it.
//!
//! A [`CommandRun`] says what to do with the operating system, one action at
//! a time, and takes what came of it. At its end it holds the command's output
//! or the reason why there is none.
use crate::error::{BaanError, Result};
use crate::number::{decimal, decimal_text};
use crate::text::{copy_texts, texts_view, trim, trimmed};
use vstd::prelude::*;
use vstd::string::*;
use vstd::utf8::*;

verus! {

/// Default command timeout in seconds.
pub const DEFAULT_TIMEOUT_SECS: u64 = 15;

/// Cap on captured stdout/stderr size (bytes) to avoid unbounded memory use: 10 MiB.
pub const MAX_OUTPUT_BYTES: usize = 10_485_760;

/// How long a command may run.
#[derive(Clone, Copy, Debug, PartialEq, Eq, Structural)]
pub struct Timeout {
    /// Whole seconds.
    pub secs: u64,
    /// The rest, in nanoseconds.
    pub nanos: u32,
}

impl Timeout {
    /// A timeout of whole seconds.
    pub fn from_secs(secs: u64) -> (timeout: Timeout)
        ensures
            timeout == (Timeout { secs, nanos: 0 }),
    {
        Timeout { secs, nanos: 0 }
    }
}

/// How a command came to its end.
#[derive(Debug)]
pub enum Ending {
    /// It was still running when its time was up, and was killed.
    TimedOut,
    /// It exited; `status` is its exit status in words.
    Exited { success: bool, status: String },
}

/// What to do next with the command.
#[derive(Debug)]
pub enum RunStage {
    /// Start the process, with readers on its stdout and stderr.
    Spawn,
    /// Wait for the process to exit, until its time is up.
    Wait,
    /// Kill the process. Whether that works does not matter.
    Kill,
    /// Wait for the killed process.
    Reap,
    /// Wait for the reader of stdout.
    JoinStdout { ending: Ending },
    /// Wait for the reader of stderr.
    JoinStderr { ending: Ending, stdout: String },
    /// Nothing: this came of it.
    Done { result: Result<String> },
}

/// What came of an action. Texts are the operating system's own words.
#[derive(Debug)]
pub enum RunEvent {
    /// The process was started.
    Spawned,
    /// The process could not be started.
    SpawnFailed(String),
    /// The process exited in time.
    Exited { success: bool, status: String },
    /// The process was still running when its time was up.
    TimedOut,
    /// Waiting failed.
    WaitFailed(String),
    /// The process was killed, or could not be.
    Killed,
    /// The killed process is gone.
    Reaped,
    /// The reader captured this text.
    Joined(String),
    /// The reader could not read.
    JoinFailed(String),
    /// The reader panicked.
    Panicked,
}

/// One run of a command.
#[derive(Debug)]
pub struct CommandRun {
    /// The program.
    pub command: String,
    /// Its arguments.
    pub args: Vec<String>,
    /// How long it may run.
    pub timeout: Timeout,
    /// What to do next.
    pub stage: RunStage,
}

/// Whether the run ended in a command error with this detail.
pub open spec fn failed_with(stage: RunStage, complaint: Seq<char>) -> bool {
    stage matches RunStage::Done { result: Err(BaanError::Command { detail }) } && detail@
        == complaint
}

/// What the run comes to once both readers are done.
pub open spec fn concluded(
    after: RunStage,
    command: Seq<char>,
    timeout_secs: u64,
    ending: Ending,
    stdout: String,
    stderr: Seq<char>,
) -> bool {
    match ending {
        Ending::TimedOut => failed_with(
            after,
            "Command '"@ + command + "' timed out after "@ + decimal(timeout_secs as nat) + "s"@,
        ),
        Ending::Exited { success, status } => if success {
            after == (RunStage::Done { result: Ok(stdout) })
        } else {
            failed_with(
                after,
                "Command '"@ + command + "' exited with "@ + status@ + ": "@ + trimmed(stderr),
            )
        },
    }
}

/// Which stage follows another, given what came of its action. An event that
/// does not belong to the stage changes nothing.
pub open spec fn follows(
    before: RunStage,
    event: RunEvent,
    after: RunStage,
    command: Seq<char>,
    timeout_secs: u64,
) -> bool {
    match (before, event) {
        (RunStage::Spawn, RunEvent::Spawned) => after == RunStage::Wait,
        (RunStage::Spawn, RunEvent::SpawnFailed(reason)) => failed_with(
            after,
            "Failed to run command '"@ + command + "': "@ + reason@,
        ),
        (RunStage::Wait, RunEvent::Exited { success, status }) => after == (RunStage::JoinStdout {
            ending: Ending::Exited { success, status },
        }),
        (RunStage::Wait, RunEvent::TimedOut) => after == RunStage::Kill,
        (RunStage::Wait, RunEvent::WaitFailed(reason)) => failed_with(
            after,
            "Failed to wait on command: "@ + reason@,
        ),
        (RunStage::Kill, RunEvent::Killed) => after == RunStage::Reap,
        (RunStage::Reap, RunEvent::Reaped) => after == (RunStage::JoinStdout {
            ending: Ending::TimedOut,
        }),
        (RunStage::JoinStdout { ending }, RunEvent::Joined(text)) => after
            == (RunStage::JoinStderr { ending, stdout: text }),
        (RunStage::JoinStdout { ending }, RunEvent::JoinFailed(reason)) => failed_with(
            after,
            "Failed to read command output: "@ + reason@,
        ),
        (RunStage::JoinStdout { ending }, RunEvent::Panicked) => failed_with(
            after,
            "stdout reader thread panicked"@,
        ),
        (RunStage::JoinStderr { ending, stdout }, RunEvent::Joined(text)) => concluded(
            after,
            command,
            timeout_secs,
            ending,
            stdout,
            text@,
        ),
        (RunStage::JoinStderr { ending, stdout }, RunEvent::JoinFailed(reason)) => failed_with(
            after,
            "Failed to read command stderr: "@ + reason@,
        ),
        (RunStage::JoinStderr { ending, stdout }, RunEvent::Panicked) => failed_with(
            after,
            "stderr reader thread panicked"@,
        ),
        _ => after == before,
    }
}

/// The stage of a run that failed for the reason `head` followed by `tail`.
fn fail(head: &str, tail: &str) -> (stage: RunStage)
    ensures
        failed_with(stage, head@ + tail@),
{
    let mut detail = head.to_owned();
    detail.append(tail);
    RunStage::Done { result: Err(BaanError::Command { detail }) }
}

/// The last stage, once both readers are done.
fn conclude(
    command: &str,
    timeout: Timeout,
    ending: Ending,
    stdout: String,
    stderr: &str,
) -> (stage: RunStage)
    ensures
        concluded(stage, command@, timeout.secs, ending, stdout, stderr@),
{
    match ending {
        Ending::TimedOut => {
            let mut detail = "Command '".to_owned();
            detail.append(command);
            detail.append("' timed out after ");
            detail.append(decimal_text(timeout.secs as u128).as_str());
            detail.append("s");
            RunStage::Done { result: Err(BaanError::Command { detail }) }
        },
        Ending::Exited { success, status } => if success {
            RunStage::Done { result: Ok(stdout) }
        } else {
            let mut detail = "Command '".to_owned();
            detail.append(command);
            detail.append("' exited with ");
            detail.append(status.as_str());
            detail.append(": ");
            detail.append(trim(stderr));
            RunStage::Done { result: Err(BaanError::Command { detail }) }
        },
    }
}

impl CommandRun {
    /// The run once this came of its action.
    pub fn step(self, event: RunEvent) -> (next: CommandRun)
        ensures
            follows(self.stage, event, next.stage, self.command@, self.timeout.secs),
            next.command == self.command,
            next.args == self.args,
            next.timeout == self.timeout,
    {
        let CommandRun { command, args, timeout, stage } = self;
        let next = match (stage, event) {
            (RunStage::Spawn, RunEvent::Spawned) => RunStage::Wait,
            (RunStage::Spawn, RunEvent::SpawnFailed(reason)) => {
                let mut head = "Failed to run command '".to_owned();
                head.append(command.as_str());
                head.append("': ");
                fail(head.as_str(), reason.as_str())
            },
            (RunStage::Wait, RunEvent::Exited { success, status }) => RunStage::JoinStdout {
                ending: Ending::Exited { success, status },
            },
            (RunStage::Wait, RunEvent::TimedOut) => RunStage::Kill,
            (RunStage::Wait, RunEvent::WaitFailed(reason)) => fail(
                "Failed to wait on command: ",
                reason.as_str(),
            ),
            (RunStage::Kill, RunEvent::Killed) => RunStage::Reap,
            (RunStage::Reap, RunEvent::Reaped) => RunStage::JoinStdout { ending: Ending::TimedOut },
            (RunStage::JoinStdout { ending }, RunEvent::Joined(text)) => RunStage::JoinStderr {
                ending,
                stdout: text,
            },
            (RunStage::JoinStdout { .. }, RunEvent::JoinFailed(reason)) => fail(
                "Failed to read command output: ",
                reason.as_str(),
            ),
            (RunStage::JoinStdout { .. }, RunEvent::Panicked) => RunStage::Done {
                result: Err(
                    BaanError::Command { detail: "stdout reader thread panicked".to_owned() },
                ),
            },
            (RunStage::JoinStderr { ending, stdout }, RunEvent::Joined(text)) => conclude(
                command.as_str(),
                timeout,
                ending,
                stdout,
                text.as_str(),
            ),
            (RunStage::JoinStderr { .. }, RunEvent::JoinFailed(reason)) => fail(
                "Failed to read command stderr: ",
                reason.as_str(),
            ),
            (RunStage::JoinStderr { .. }, RunEvent::Panicked) => RunStage::Done {
                result: Err(
                    BaanError::Command { detail: "stderr reader thread panicked".to_owned() },
                ),
            },
            (stage, _) => stage,
        };
        CommandRun { command, args, timeout, stage: next }
    }
}

/// Whether this is the run of a command with its arguments and a timeout, or
/// the refusal of one without a name.
pub open spec fn is_run_of(
    result: Result<CommandRun>,
    command: Seq<char>,
    args: Seq<Seq<char>>,
    timeout: Timeout,
) -> bool {
    match result {
        Ok(run) => {
            &&& command.len() > 0
            &&& run.command@ == command
            &&& texts_view(run.args@) == args
            &&& run.timeout == timeout
            &&& run.stage == RunStage::Spawn
        },
        Err(error) => {
            &&& command.len() == 0
            &&& error matches BaanError::Command { detail }
            &&& detail@ == "Command name is empty"@
        },
    }
}

/// Run a command with its arguments and a timeout.
///
/// An empty command name is an error before anything is started.
pub fn run_command(command: &str, args: &[String], timeout: Timeout) -> (run: Result<CommandRun>)
    ensures
        is_run_of(run, command@, texts_view(args@), timeout),
{
    if command.is_empty() {
        return Err(BaanError::Command { detail: "Command name is empty".to_owned() });
    }
    Ok(
        CommandRun {
            command: command.to_owned(),
            args: copy_texts(args),
            timeout,
            stage: RunStage::Spawn,
        },
    )
}

/// Convenience wrapper using the default timeout.
pub fn run_command_default(command: &str, args: &[String]) -> (run: Result<CommandRun>)
    ensures
        is_run_of(
            run,
            command@,
            texts_view(args@),
            (Timeout { secs: DEFAULT_TIMEOUT_SECS, nanos: 0 }),
        ),
{
    run_command(command, args, Timeout::from_secs(DEFAULT_TIMEOUT_SECS))
}

// ---------------------------------------------------------------------------
// Captured output
// ---------------------------------------------------------------------------

/// What is kept of a stream: its first bytes, up to the cap.
pub open spec fn capped(stream: Seq<u8>) -> Seq<u8> {
    if stream.len() <= MAX_OUTPUT_BYTES {
        stream
    } else {
        stream.take(MAX_OUTPUT_BYTES as int)
    }
}

/// The text that bytes stand for, with replacement characters where they are
/// not UTF-8.
pub uninterp spec fn lossy_text(bytes: Seq<u8>) -> Seq<char>;

/// Decodes bytes with `String::from_utf8_lossy`, which is a function of the
/// bytes alone and decodes bytes that are UTF-8 to the text they stand for.
/// Which replacement characters stand for other bytes is not stated.
#[verifier::external_body]
fn decode_lossy(bytes: &[u8]) -> (text: String)
    ensures
        text@ == lossy_text(bytes@),
        valid_utf8(bytes@) ==> text@ == decode_utf8(bytes@),
{
    String::from_utf8_lossy(bytes).into_owned()
}

/// What came of reading a child's pipe.
#[derive(Debug)]
pub enum ReadEvent {
    /// These bytes were read.
    Bytes(Vec<u8>),
    /// The pipe is at its end.
    End,
    /// A signal interrupted the read.
    Interrupted,
    /// The pipe could not be read; the text is the operating system's own.
    Failed(String),
}

/// Whether a read leaves a capture so, and what comes of it.
pub open spec fn is_captured(
    before: Seq<u8>,
    event: ReadEvent,
    after: Seq<u8>,
    outcome: Option<std::result::Result<String, String>>,
) -> bool {
    match event {
        ReadEvent::Bytes(chunk) => outcome is None && after == capped(before + chunk@),
        ReadEvent::Interrupted => outcome is None && after == before,
        ReadEvent::End => {
            &&& after == before
            &&& outcome matches Some(Ok(text))
            &&& text@ == lossy_text(before)
            &&& valid_utf8(before) ==> text@ == decode_utf8(before)
        },
        ReadEvent::Failed(reason) => {
            &&& after == before
            &&& outcome matches Some(Err(text))
            &&& text == reason
        },
    }
}

/// The capture of one stream.
///
/// After reaching the cap, the reader continues to drain the pipe (discarding
/// excess data) so the child process never blocks on a full pipe buffer.
/// Without this, a child that produces more than the cap would deadlock: it
/// couldn't write, so it couldn't exit.
#[derive(Debug)]
pub struct Capture {
    buffer: Vec<u8>,
}

impl View for Capture {
    type V = Seq<u8>;

    closed spec fn view(&self) -> Seq<u8> {
        self.buffer@
    }
}

impl Capture {
    /// The capture holds no more than the cap.
    pub closed spec fn wf(&self) -> bool {
        self.buffer@.len() <= MAX_OUTPUT_BYTES
    }

    /// A capture that holds nothing yet.
    pub fn new() -> (capture: Capture)
        ensures
            capture.wf(),
            capture@ == Seq::<u8>::empty(),
    {
        Capture { buffer: Vec::new() }
    }

    /// Takes in what was read: keeps what fits below the cap, drops the rest.
    fn keep(&mut self, chunk: &[u8])
        requires
            old(self).wf(),
        ensures
            final(self).wf(),
            final(self)@ == capped(old(self)@ + chunk@),
    {
        let mut i: usize = 0;
        let ghost start = self.buffer@;
        assert(capped(start + chunk@.take(0)) =~= start);
        while i < chunk.len() && self.buffer.len() < MAX_OUTPUT_BYTES
            invariant
                i <= chunk@.len(),
                start.len() <= MAX_OUTPUT_BYTES,
                self.buffer@.len() <= MAX_OUTPUT_BYTES,
                self.buffer@ == start + chunk@.take(i as int),
            decreases chunk@.len() - i,
        {
            self.buffer.push(chunk[i]);
            assert(chunk@.take(i + 1) =~= chunk@.take(i as int).push(chunk@[i as int]));
            assert(self.buffer@ =~= start + chunk@.take(i + 1));
            i += 1;
        }
        assert(self.buffer@ =~= capped(start + chunk@));
    }

    /// Takes what came of one read. Hands back what the stream came to, once
    /// it is at its end or cannot be read; `None` asks for another read.
    pub fn read(&mut self, event: ReadEvent) -> (outcome: Option<std::result::Result<String, String>>)
        requires
            old(self).wf(),
        ensures
            final(self).wf(),
            is_captured(old(self)@, event, final(self)@, outcome),
    {
        match event {
            ReadEvent::Bytes(chunk) => {
                self.keep(chunk.as_slice());
                None
            },
            ReadEvent::Interrupted => None,
            ReadEvent::End => Some(Ok(decode_lossy(self.buffer.as_slice()))),
            ReadEvent::Failed(reason) => Some(Err(reason)),
        }
    }
}

// ---------------------------------------------------------------------------
// Laws
// ---------------------------------------------------------------------------

/// Reading a stream in pieces keeps what reading it at once would keep: its
/// first bytes.
pub proof fn law_capture_keeps_the_first_bytes(before: Seq<u8>, chunk: Seq<u8>)
    ensures
        capped(capped(before) + chunk) == capped(before + chunk),
{
    assert(capped(capped(before) + chunk) =~= capped(before + chunk));
}

/// A run gives output only if its process exited with success in time, and
/// then exactly what stdout gave.
pub proof fn law_output_means_success(
    before: RunStage,
    event: RunEvent,
    after: RunStage,
    command: Seq<char>,
    timeout_secs: u64,
    output: String,
)
    requires
        follows(before, event, after, command, timeout_secs),
        before !is Done,
        after == (RunStage::Done { result: Ok(output) }),
    ensures
        before matches RunStage::JoinStderr { ending: Ending::Exited { success, .. }, stdout }
            && success && stdout == output,
        event is Joined,
{
}

/// How many actions a run can still ask for.
pub open spec fn actions_left(stage: RunStage) -> nat {
    match stage {
        RunStage::Spawn => 6,
        RunStage::Wait => 5,
        RunStage::Kill => 4,
        RunStage::Reap => 3,
        RunStage::JoinStdout { .. } => 2,
        RunStage::JoinStderr { .. } => 1,
        RunStage::Done { .. } => 0,
    }
}

/// Whether the event can come of the stage's action.
pub open spec fn answers(stage: RunStage, event: RunEvent) -> bool {
    match stage {
        RunStage::Spawn => event is Spawned || event is SpawnFailed,
        RunStage::Wait => event is Exited || event is TimedOut || event is WaitFailed,
        RunStage::Kill => event is Killed,
        RunStage::Reap => event is Reaped,
        RunStage::JoinStdout { .. } => event is Joined || event is JoinFailed || event is Panicked,
        RunStage::JoinStderr { .. } => event is Joined || event is JoinFailed || event is Panicked,
        RunStage::Done { .. } => false,
    }
}

/// Every answer brings a run closer to its end, so it comes to one after six
/// answers at most.
pub proof fn law_runs_come_to_an_end(
    before: RunStage,
    event: RunEvent,
    after: RunStage,
    command: Seq<char>,
    timeout_secs: u64,
)
    requires
        follows(before, event, after, command, timeout_secs),
        answers(before, event),
    ensures
        actions_left(after) < actions_left(before),
{
}

/// The stages of a run whose time was up.
pub open spec fn timed_out(stage: RunStage) -> bool {
    match stage {
        RunStage::Kill | RunStage::Reap => true,
        RunStage::JoinStdout { ending } => ending is TimedOut,
        RunStage::JoinStderr { ending, .. } => ending is TimedOut,
        RunStage::Done { result } => result is Err,
        _ => false,
    }
}

/// A run whose time was up stays so, and ends in an error.
pub proof fn law_timed_out_runs_fail(
    before: RunStage,
    event: RunEvent,
    after: RunStage,
    command: Seq<char>,
    timeout_secs: u64,
)
    requires
        follows(before, event, after, command, timeout_secs),
        timed_out(before) || (before is Wait && event is TimedOut),
    ensures
        timed_out(after),
{
}

/// A command that exits with success gives what its stdout gave, whatever its
/// stderr gave. One that exits without gives an error with its exit status and
/// its stderr, without the white space around that.
pub proof fn law_runs_that_exit(
    success: bool,
    status: String,
    out: String,
    err: String,
    waiting: RunStage,
    exited: RunStage,
    joined: RunStage,
    last: RunStage,
    command: Seq<char>,
    timeout_secs: u64,
)
    requires
        follows(RunStage::Spawn, RunEvent::Spawned, waiting, command, timeout_secs),
        follows(waiting, RunEvent::Exited { success, status }, exited, command, timeout_secs),
        follows(exited, RunEvent::Joined(out), joined, command, timeout_secs),
        follows(joined, RunEvent::Joined(err), last, command, timeout_secs),
    ensures
        success ==> last == (RunStage::Done { result: Ok(out) }),
        !success ==> (last matches RunStage::Done { result: Err(BaanError::Command { detail }) }
            && detail@ == "Command '"@ + command + "' exited with "@ + status@ + ": "@ + trimmed(
            err@,
        )),
{
}

/// A command whose time is up is killed, waited for and read to its end, and
/// gives an error with its time.
pub proof fn law_runs_that_time_out(
    out: String,
    err: String,
    waiting: RunStage,
    late: RunStage,
    killed: RunStage,
    reaped: RunStage,
    joined: RunStage,
    last: RunStage,
    command: Seq<char>,
    timeout_secs: u64,
)
    requires
        follows(RunStage::Spawn, RunEvent::Spawned, waiting, command, timeout_secs),
        follows(waiting, RunEvent::TimedOut, late, command, timeout_secs),
        follows(late, RunEvent::Killed, killed, command, timeout_secs),
        follows(killed, RunEvent::Reaped, reaped, command, timeout_secs),
        follows(reaped, RunEvent::Joined(out), joined, command, timeout_secs),
        follows(joined, RunEvent::Joined(err), last, command, timeout_secs),
    ensures
        late is Kill,
        killed is Reap,
        last matches RunStage::Done { result: Err(BaanError::Command { detail }) } && detail@
            == "Command '"@ + command + "' timed out after "@ + decimal(timeout_secs as nat) + "s"@,
{
}

/// Whatever else goes wrong ends the run with an error in the operating
/// system's words.
pub proof fn law_runs_that_go_wrong(
    before: RunStage,
    reason: String,
    after: RunStage,
    command: Seq<char>,
    timeout_secs: u64,
)
    ensures
        follows(RunStage::Spawn, RunEvent::SpawnFailed(reason), after, command, timeout_secs) ==> (
        after matches RunStage::Done { result: Err(BaanError::Command { detail }) } && detail@
            == "Failed to run command '"@ + command + "': "@ + reason@),
        follows(RunStage::Wait, RunEvent::WaitFailed(reason), after, command, timeout_secs) ==> (
        after matches RunStage::Done { result: Err(BaanError::Command { detail }) } && detail@
            == "Failed to wait on command: "@ + reason@),
        before is JoinStdout && follows(
            before,
            RunEvent::JoinFailed(reason),
            after,
            command,
            timeout_secs,
        ) ==> (after matches RunStage::Done { result: Err(BaanError::Command { detail }) } && detail@
            == "Failed to read command output: "@ + reason@),
        before is JoinStderr && follows(
            before,
            RunEvent::JoinFailed(reason),
            after,
            command,
            timeout_secs,
        ) ==> (after matches RunStage::Done { result: Err(BaanError::Command { detail }) } && detail@
            == "Failed to read command stderr: "@ + reason@),
        (before is JoinStdout || before is JoinStderr) && follows(
            before,
            RunEvent::Panicked,
            after,
            command,
            timeout_secs,
        ) ==> (after matches RunStage::Done { result: Err(BaanError::Command { .. }) }),
{
}

/// Of a stream its first ten mebibytes are kept, and all of a shorter one.
pub proof fn law_captures_keep_ten_mebibytes(stream: Seq<u8>, i: int)
    ensures
        capped(stream).len() == if stream.len() < 10 * 1024 * 1024 {
            stream.len()
        } else {
            10 * 1024 * 1024
        },
        0 <= i < capped(stream).len() ==> capped(stream)[i] == stream[i],
{
}

/// A stream that is read in two pieces comes to the text of both together, cut
/// to what is kept, also where a signal interrupts in between.
pub proof fn law_streams_are_captured_in_pieces(
    first: Vec<u8>,
    second: Vec<u8>,
    one: Seq<u8>,
    same: Seq<u8>,
    two: Seq<u8>,
    last: Seq<u8>,
    a: Option<std::result::Result<String, String>>,
    b: Option<std::result::Result<String, String>>,
    c: Option<std::result::Result<String, String>>,
    end: Option<std::result::Result<String, String>>,
)
    requires
        is_captured(Seq::empty(), ReadEvent::Bytes(first), one, a),
        is_captured(one, ReadEvent::Interrupted, same, b),
        is_captured(same, ReadEvent::Bytes(second), two, c),
        is_captured(two, ReadEvent::End, last, end),
    ensures
        a is None && b is None && c is None,
        end matches Some(Ok(text)) && text@ == lossy_text(capped(first@ + second@)),
        (first@ + second@).len() <= MAX_OUTPUT_BYTES && valid_utf8(first@ + second@) ==> (
        end matches Some(Ok(text)) && text@ == decode_utf8(first@ + second@)),
{
    assert(Seq::<u8>::empty() + first@ =~= first@);
    law_capture_keeps_the_first_bytes(first@, second@);
}

/// A stream that cannot be read comes to the operating system's words.
pub proof fn law_streams_that_cannot_be_read(
    before: Seq<u8>,
    reason: String,
    after: Seq<u8>,
    outcome: Option<std::result::Result<String, String>>,
)
    requires
        is_captured(before, ReadEvent::Failed(reason), after, outcome),
    ensures
        outcome == Some(Err::<String, String>(reason)),
{
}

/// An event that cannot come of what was done changes nothing, and a run that
/// is over stays over.
pub proof fn law_stray_events_change_nothing(
    before: RunStage,
    event: RunEvent,
    after: RunStage,
    command: Seq<char>,
    timeout_secs: u64,
)
    requires
        follows(before, event, after, command, timeout_secs),
    ensures
        before is Done ==> after == before,
        before is Spawn && !(event is Spawned || event is SpawnFailed) ==> after == before,
        before is Wait && !(event is Exited || event is TimedOut || event is WaitFailed) ==> after
            == before,
        before is Kill && !(event is Killed) ==> after == before,
        before is Reap && !(event is Reaped) ==> after == before,
{
}

/// A command with a name is run with all its arguments, beginning with its
/// start, for as long as it is given; one without is refused.
pub proof fn law_commands_are_run_whole(
    result: Result<CommandRun>,
    command: Seq<char>,
    args: Seq<Seq<char>>,
    timeout: Timeout,
)
    requires
        is_run_of(result, command, args, timeout),
    ensures
        result is Ok <==> command.len() > 0,
        result matches Ok(run) ==> {
            &&& run.command@ == command
            &&& run.args@.len() == args.len()
            &&& forall|i: int| 0 <= i < args.len() ==> (#[trigger] run.args@[i])@ == args[i]
            &&& run.timeout == timeout
            &&& run.stage == RunStage::Spawn
        },
{
    if let Ok(run) = result {
        assert(texts_view(run.args@).len() == run.args@.len());
        assert forall|i: int| 0 <= i < args.len() implies (#[trigger] run.args@[i])@ == args[i] by {
            assert(texts_view(run.args@)[i] == run.args@[i]@);
        }
    }
}

} // verus!
