use baan::device::{
    check_ioctl_result, destroy_step, ioctl_result, setup_steps, DeviceRead, EventBuffer,
    IoctlArgument, IoctlFailure, KeyScript, KeyStep, SetupRun,
};
use baan::error::BaanError;
use baan::event::{event_bytes, event_from_bytes, InputEvent};
use baan::keycode::{EV_KEY, KEY_A, KEY_SPACE, LINUX_KEYS};

#[test]
fn event_bytes_roundtrips_through_event_from_bytes() {
    let ev = InputEvent::key_event(KEY_A, 1);
    let bytes: [u8; 24] = event_bytes(&ev).try_into().unwrap();
    let recovered = event_from_bytes(bytes);
    assert_eq!(event_bytes(&recovered), event_bytes(&ev));
}

#[test]
fn sync_event_serializes_to_expected_wire_bytes() {
    let ev = InputEvent::sync_event();
    let bytes = event_bytes(&ev);
    // tv_sec/tv_usec = 0 (16 zero bytes), then EV_SYN=0, SYN_REPORT=0, value=0.
    assert!(bytes.iter().all(|&b| b == 0));
}

#[test]
fn key_event_serializes_type_code_value_little_endian() {
    let ev = InputEvent::key_event(KEY_SPACE, 1);
    let bytes = event_bytes(&ev);
    // Header (16 bytes) is zero.
    assert!(bytes[0..16].iter().all(|&b| b == 0));
    // type: u16 = EV_KEY.
    assert_eq!(u16::from_le_bytes([bytes[16], bytes[17]]), EV_KEY);
    // code: u16 = KEY_SPACE.
    assert_eq!(u16::from_le_bytes([bytes[18], bytes[19]]), KEY_SPACE as u16);
    // value: i32 = 1.
    assert_eq!(
        i32::from_le_bytes([bytes[20], bytes[21], bytes[22], bytes[23]]),
        1
    );
}

#[test]
fn ioctl_success_returns_ok() {
    let result = check_ioctl_result(0, |d| BaanError::Ioctl { detail: d }, "UI_DEV_CREATE");
    assert!(result.is_ok());
}

#[test]
fn ioctl_failure_returns_error_with_context() {
    let result = check_ioctl_result(-1, |d| BaanError::Ioctl { detail: d }, "UI_SET_EVBIT");
    match result {
        Err(BaanError::Ioctl { detail }) => assert!(detail.contains("UI_SET_EVBIT")),
        other => panic!("expected Ioctl error, got {other:?}"),
    }
}

#[test]
fn event_bytes_length_is_exactly_24() {
    let ev = InputEvent::sync_event();
    assert_eq!(event_bytes(&ev).len(), 24);
}

// ---- scripts -----------------------------------------------------------------

fn failure() -> BaanError {
    BaanError::Write {
        detail: "virtual device".to_string(),
        source: std::io::Error::other("boom"),
    }
}

/// Runs a script whose `fail_at`-th step (counted from 0) fails, and writes
/// down its steps: `+code` and `-code` for keys, `.` for pauses, `|` for syncs.
fn run(mut script: KeyScript, fail_at: Option<usize>) -> (String, Result<(), BaanError>) {
    let mut log = String::new();
    let mut count = 0;
    while let Some(step) = script.current() {
        match step {
            KeyStep::Pause => log.push('.'),
            KeyStep::Emit(event) if event.kind == EV_KEY => {
                log.push(if event.value == 1 { '+' } else { '-' });
                log.push_str(&event.code.to_string());
            }
            KeyStep::Emit(_) => log.push('|'),
        }
        let result = if fail_at == Some(count) { Err(failure()) } else { Ok(()) };
        script.advance(result);
        count += 1;
    }
    (log, script.finish())
}

fn steps(script: KeyScript) -> String {
    let (log, result) = run(script, None);
    assert!(result.is_ok());
    log
}

#[test]
fn scripts_send_their_keys_in_order() {
    assert_eq!(steps(KeyScript::send_sync()), "|");
    assert_eq!(steps(KeyScript::send_key_press(30)), "+30-30|");
    assert_eq!(steps(KeyScript::send_key_down(30)), "+30");
    assert_eq!(steps(KeyScript::send_key_up(30)), "-30");
    assert_eq!(steps(KeyScript::send_backspace(2)), "+14-14+14-14|");
    assert_eq!(steps(KeyScript::send_backspace(0)), "|");
    assert_eq!(steps(KeyScript::send_ctrl_v()), "+29.+47.-47.-29.|");
    assert_eq!(steps(KeyScript::send_ctrl_c()), "+29.+46.-46.-29.|");
    assert_eq!(
        steps(KeyScript::send_ctrl_shift_v()),
        "+29.+42.+47.-47.-42.|-29.|"
    );
    assert_eq!(
        steps(KeyScript::send_ctrl_shift_c()),
        "+29.+42.+46.-46.-42.|-29.|"
    );
    assert_eq!(
        steps(KeyScript::position_at_tag(1, 2)),
        "+102.-102.+106.-106.+42.+106.-106.+106.-106.-42.+14.-14.|"
    );
    assert_eq!(
        steps(KeyScript::select_line()),
        "+102.-102.+42.+107.-107.-42.|"
    );
    assert_eq!(steps(KeyScript::send_shift_down()), "+42.");
    assert_eq!(steps(KeyScript::send_shift_up()), "-42|.");
    assert_eq!(
        steps(KeyScript::send_string("aB")),
        "+30.-30.+42.+48.-48.-42.||"
    );
}

#[test]
fn untypable_characters_end_a_text() {
    let (log, result) = run(KeyScript::send_string("a\nb"), None);
    assert_eq!(log, "+30.-30.");
    assert!(matches!(
        result,
        Err(BaanError::InvalidCharacter { ch: '\n' })
    ));
}

#[test]
fn pressed_modifiers_are_released_after_a_failure() {
    // The tapped key fails: the rest of the tap is dropped, the modifiers go up.
    let (log, result) = run(KeyScript::send_ctrl_shift_v(), Some(4));
    assert_eq!(log, "+29.+42.+47-42.|-29.|");
    assert!(result.is_err());
    // The second modifier fails: only the first was pressed.
    let (log, _) = run(KeyScript::send_ctrl_shift_v(), Some(2));
    assert_eq!(log, "+29.+42-29.|");
    // The first modifier fails: nothing was pressed.
    let (log, _) = run(KeyScript::send_ctrl_shift_v(), Some(0));
    assert_eq!(log, "+29");
    // The release fails: the sync is sent all the same, and nothing after it.
    let (log, _) = run(KeyScript::send_string("Ab"), Some(6));
    assert_eq!(log, "+42.+30.-30.-42.|");
    // Steps behind the modifier are dropped.
    let (log, _) = run(KeyScript::position_at_tag(0, 1), Some(6));
    assert_eq!(log, "+102.-102.+42.+106-42.");
}

#[test]
fn the_first_error_is_reported() {
    let mut script = KeyScript::send_ctrl_c();
    while script.current().is_some() {
        script.advance(Err(BaanError::Ioctl { detail: "first".to_string() }));
    }
    match script.finish() {
        Err(BaanError::Ioctl { detail }) => assert_eq!(detail, "first"),
        other => panic!("expected the first error, got {other:?}"),
    }
}

// ---- setup -------------------------------------------------------------------

#[test]
fn the_virtual_keyboard_is_set_up_in_order() {
    let steps = setup_steps();
    assert_eq!(steps.len(), 58);
    assert_eq!(steps[0].request, 0x40045564);
    assert!(matches!(steps[0].argument, IoctlArgument::Value(1)));
    assert_eq!(steps[0].detail, "UI_SET_EVBIT(EV_KEY)");
    for (step, &code) in steps[1..56].iter().zip(LINUX_KEYS.iter()) {
        assert_eq!(step.request, 0x40045565);
        assert!(matches!(step.argument, IoctlArgument::Value(v) if v == code as u64));
        assert_eq!(step.failure, IoctlFailure::AddKey(code));
        assert_eq!(step.detail, format!("UI_SET_KEYBIT({code})"));
    }
    assert_eq!(steps[56].request, 0x405c5503);
    match &steps[56].argument {
        IoctlArgument::Bytes(bytes) => {
            assert_eq!(bytes.len(), 92);
            assert_eq!(&bytes[..13], b"\x03\x00\xa3\x04\xcf\x07\x00\x00baan\x00");
        }
        other => panic!("expected bytes, got {other:?}"),
    }
    assert_eq!(steps[57].request, 0x5501);
    assert_eq!(steps[57].detail, "UI_DEV_CREATE");
    assert_eq!(destroy_step().request, 0x5502);
}

#[test]
fn failed_ioctls_have_their_errors() {
    let detail = || "d".to_string();
    assert!(matches!(
        IoctlFailure::InitVirtualInput.error(detail()),
        BaanError::InitVirtualInput { .. }
    ));
    assert!(matches!(
        IoctlFailure::AddKey(7).error(detail()),
        BaanError::AddKey { keycode: 7, .. }
    ));
    assert!(matches!(
        IoctlFailure::SetupVirtualDevice.error(detail()),
        BaanError::SetupVirtualDevice { .. }
    ));
    assert!(matches!(
        IoctlFailure::CreateVirtualDevice.error(detail()),
        BaanError::CreateVirtualDevice { .. }
    ));
    assert!(matches!(
        IoctlFailure::DestroyVirtualDevice.error(detail()),
        BaanError::DestroyVirtualDevice { .. }
    ));
    let result = ioctl_result(-1, "no", |d| BaanError::Ioctl { detail: d }, "UI");
    assert_eq!(result.unwrap_err().message(), "Ioctl error: UI: no");
}

/// Runs a setup in which ioctl `failing` fails, and hands back how many ioctls
/// were made and what came of it.
fn set_up(failing: Option<usize>) -> (usize, Result<(), BaanError>) {
    let steps = setup_steps();
    let mut run = SetupRun::new(Ok(()));
    let mut made = 0;
    while let Some(step) = run.current() {
        assert_eq!(step.request, steps[made].request);
        assert_eq!(step.detail, steps[made].detail);
        let ret = if Some(made) == failing { -1 } else { made as i32 };
        run.advance(ret, "no such device");
        made += 1;
    }
    (made, run.finish())
}

#[test]
fn a_setup_makes_all_its_ioctls() {
    let (made, result) = set_up(None);
    assert_eq!(made, 58);
    assert!(result.is_ok());
}

#[test]
fn the_first_failure_ends_a_setup() {
    for failing in 0..58 {
        let (made, result) = set_up(Some(failing));
        assert_eq!(made, failing + 1);
        let error = result.unwrap_err();
        match failing {
            0 => assert!(matches!(&error, BaanError::InitVirtualInput { detail }
                if detail == "UI_SET_EVBIT(EV_KEY): no such device")),
            56 => assert!(matches!(&error, BaanError::SetupVirtualDevice { detail }
                if detail == "UI_DEV_SETUP: no such device")),
            57 => assert!(matches!(&error, BaanError::CreateVirtualDevice { detail }
                if detail == "UI_DEV_CREATE: no such device")),
            _ => {
                let code = LINUX_KEYS[failing - 1];
                assert!(matches!(&error, BaanError::AddKey { keycode, detail }
                    if *keycode == code
                        && *detail == format!("UI_SET_KEYBIT({code}): no such device")));
            }
        }
    }
}

#[test]
fn a_device_that_does_not_open_ends_a_setup() {
    let missing = std::io::Error::new(std::io::ErrorKind::NotFound, "missing");
    let run = SetupRun::new(Err(missing));
    assert!(run.current().is_none());
    match run.finish() {
        Err(BaanError::Open { path, source }) => {
            assert_eq!(path, "/dev/uinput");
            assert_eq!(source.kind(), std::io::ErrorKind::NotFound);
        }
        other => panic!("expected an Open error, got {other:?}"),
    }
}

// ---- reading -----------------------------------------------------------------

#[test]
fn read_event_reads_aligned_event_from_file() {
    let ev = InputEvent::key_event(KEY_A, 1);
    let mut buffer = EventBuffer::new();
    assert_eq!(buffer.wanted(), 24);
    let read = buffer
        .read("event0", DeviceRead::Bytes(event_bytes(&ev)))
        .unwrap()
        .unwrap()
        .expect("expected one event");
    assert_eq!(event_bytes(&read), event_bytes(&ev));
    assert_eq!(buffer.wanted(), 24);
}

#[test]
fn read_event_errors_on_eof_before_full_event() {
    let mut buffer = EventBuffer::new();
    assert!(buffer.read("event", DeviceRead::Bytes(vec![0; 8])).is_none());
    match buffer.read("event", DeviceRead::Bytes(Vec::new())) {
        Some(Err(BaanError::Read { path, source })) => {
            assert_eq!(path, "event");
            assert_eq!(source.kind(), std::io::ErrorKind::UnexpectedEof);
            assert_eq!(source.to_string(), "unexpected EOF reading input event");
        }
        other => panic!("expected a read error, got {other:?}"),
    }
}

#[test]
fn interrupts_keep_the_stream_aligned() {
    let bytes = event_bytes(&InputEvent::key_event(KEY_SPACE, 0));
    let mut buffer = EventBuffer::new();
    assert!(matches!(
        buffer.read("event", DeviceRead::Interrupted),
        Some(Ok(None))
    ));
    assert!(buffer
        .read("event", DeviceRead::Bytes(bytes[..5].to_vec()))
        .is_none());
    assert!(buffer.read("event", DeviceRead::Interrupted).is_none());
    assert_eq!(buffer.wanted(), 19);
    let event = buffer
        .read("event", DeviceRead::Bytes(bytes[5..].to_vec()))
        .unwrap()
        .unwrap()
        .unwrap();
    assert_eq!(event_bytes(&event), bytes);
    let gone = DeviceRead::Failed(std::io::Error::other("gone"));
    match buffer.read("event", gone) {
        Some(Err(error)) => assert_eq!(error.message(), "Error reading from 'event': gone"),
        other => panic!("expected a read error, got {other:?}"),
    }
}
