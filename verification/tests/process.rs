use baan::error::BaanError;
use baan::process::{
    run_command, Capture, CommandRun, ReadEvent, RunEvent, RunStage, Timeout, MAX_OUTPUT_BYTES,
};

fn started() -> CommandRun {
    let args = ["-c".to_string(), "sleep 5".to_string()];
    run_command("sh", &args, Timeout { secs: 3, nanos: 200 }).unwrap()
}

fn detail_of(run: CommandRun) -> String {
    match run.stage {
        RunStage::Done {
            result: Err(BaanError::Command { detail }),
        } => detail,
        other => panic!("expected a failed run, got {other:?}"),
    }
}

fn exited(success: bool) -> RunEvent {
    RunEvent::Exited {
        success,
        status: "exit status: 2".to_string(),
    }
}

#[test]
fn an_empty_command_is_refused() {
    match run_command("", &[], Timeout::from_secs(5)) {
        Err(BaanError::Command { detail }) => assert_eq!(detail, "Command name is empty"),
        other => panic!("expected a command error, got {other:?}"),
    }
}

#[test]
fn run_command_timeout_kills_process() {
    let run = started().step(RunEvent::Spawned);
    assert!(matches!(run.stage, RunStage::Wait));
    let run = run.step(RunEvent::TimedOut);
    assert!(matches!(run.stage, RunStage::Kill));
    let run = run.step(RunEvent::Killed);
    assert!(matches!(run.stage, RunStage::Reap));
    let run = run
        .step(RunEvent::Reaped)
        .step(RunEvent::Joined("partial".to_string()))
        .step(RunEvent::Joined(String::new()));
    assert_eq!(detail_of(run), "Command 'sh' timed out after 3s");
}

#[test]
fn reader_errors_come_before_the_timeout() {
    let run = started()
        .step(RunEvent::Spawned)
        .step(RunEvent::TimedOut)
        .step(RunEvent::Killed)
        .step(RunEvent::Reaped)
        .step(RunEvent::JoinFailed("broken".to_string()));
    assert_eq!(detail_of(run), "Failed to read command output: broken");
}

#[test]
fn a_failing_command_reports_its_stderr() {
    let run = started()
        .step(RunEvent::Spawned)
        .step(exited(false))
        .step(RunEvent::Joined("out".to_string()))
        .step(RunEvent::Joined("  no such file\n".to_string()));
    assert_eq!(
        detail_of(run),
        "Command 'sh' exited with exit status: 2: no such file"
    );
}

#[test]
fn every_step_can_fail() {
    let run = started().step(RunEvent::SpawnFailed("not found".to_string()));
    assert_eq!(detail_of(run), "Failed to run command 'sh': not found");
    let run = started()
        .step(RunEvent::Spawned)
        .step(RunEvent::WaitFailed("gone".to_string()));
    assert_eq!(detail_of(run), "Failed to wait on command: gone");
    let run = started()
        .step(RunEvent::Spawned)
        .step(exited(true))
        .step(RunEvent::Panicked);
    assert_eq!(detail_of(run), "stdout reader thread panicked");
    let run = started()
        .step(RunEvent::Spawned)
        .step(exited(true))
        .step(RunEvent::Joined(String::new()))
        .step(RunEvent::Panicked);
    assert_eq!(detail_of(run), "stderr reader thread panicked");
    let run = started()
        .step(RunEvent::Spawned)
        .step(exited(true))
        .step(RunEvent::Joined(String::new()))
        .step(RunEvent::JoinFailed("broken".to_string()));
    assert_eq!(detail_of(run), "Failed to read command stderr: broken");
}

#[test]
fn an_event_out_of_turn_changes_nothing() {
    let run = started().step(RunEvent::Killed).step(RunEvent::TimedOut);
    assert!(matches!(run.stage, RunStage::Spawn));
}

#[test]
fn output_is_what_stdout_gave() {
    let run = started()
        .step(RunEvent::Spawned)
        .step(exited(true))
        .step(RunEvent::Joined(" out\n".to_string()))
        .step(RunEvent::Joined("warning".to_string()));
    match run.stage {
        RunStage::Done { result } => assert_eq!(result.unwrap(), " out\n"),
        other => panic!("expected the run to be over, got {other:?}"),
    }
}

// ---- captured output ---------------------------------------------------------

#[test]
fn run_command_large_output_does_not_deadlock() {
    let mut capture = Capture::new();
    for _ in 0..50000 {
        let line = b"01234567890123456789\n".to_vec();
        assert!(capture.read(ReadEvent::Bytes(line)).is_none());
    }
    let out = capture.read(ReadEvent::End).unwrap().unwrap();
    assert!(out.len() > 100_000);
    assert_eq!(out.len(), 50000 * 21);
}

#[test]
fn output_past_the_cap_is_dropped() {
    let mut capture = Capture::new();
    assert!(capture
        .read(ReadEvent::Bytes(vec![b'a'; MAX_OUTPUT_BYTES - 1]))
        .is_none());
    assert!(capture.read(ReadEvent::Bytes(b"bcd".to_vec())).is_none());
    assert!(capture.read(ReadEvent::Bytes(b"e".to_vec())).is_none());
    let out = capture.read(ReadEvent::End).unwrap().unwrap();
    assert_eq!(out.len(), MAX_OUTPUT_BYTES);
    assert!(out.ends_with("ab"));
}

#[test]
fn interrupted_reads_are_tried_again() {
    let mut capture = Capture::new();
    assert!(capture.read(ReadEvent::Bytes(b"h\xc3".to_vec())).is_none());
    assert!(capture.read(ReadEvent::Interrupted).is_none());
    assert!(capture.read(ReadEvent::Bytes(b"\xa9".to_vec())).is_none());
    assert_eq!(capture.read(ReadEvent::End), Some(Ok("hé".to_string())));
    assert_eq!(
        capture.read(ReadEvent::Failed("broken".to_string())),
        Some(Err("broken".to_string()))
    );
}

#[test]
fn bytes_that_are_no_text_are_replaced() {
    let mut capture = Capture::new();
    assert!(capture.read(ReadEvent::Bytes(b"a\xffb".to_vec())).is_none());
    assert_eq!(
        capture.read(ReadEvent::End),
        Some(Ok("a\u{fffd}b".to_string()))
    );
}
