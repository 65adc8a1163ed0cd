use baan::event::{
    event_bytes, event_from_bytes, setup_bytes, InputEvent, UinputId, UinputSetup,
};
use baan::keycode::{EV_KEY, EV_SYN, KEY_A, KEY_SPACE, SYN_REPORT};

// Composite structs with no padding bytes: a wrong size would desync the
// raw event stream from the kernel.
#[test]
fn input_event_has_expected_kernel_size() {
    assert_eq!(std::mem::size_of::<InputEvent>(), 24);
    // UinputId(8, align 2) + name[80] + ff_effects_max u32(4) = 92, pad to align 4.
    assert_eq!(std::mem::size_of::<UinputSetup>(), 92);
    assert_eq!(std::mem::size_of::<UinputId>(), 8);
}

#[test]
fn key_event_sets_key_fields() {
    let ev = InputEvent::key_event(KEY_A, 1);
    assert_eq!(ev.kind, EV_KEY);
    assert_eq!(ev.code, KEY_A as u16);
    assert_eq!(ev.value, 1);
    assert_eq!(ev.tv_sec, 0);
    assert_eq!(ev.tv_usec, 0);
}

#[test]
fn key_event_release_value_is_kept() {
    let ev = InputEvent::key_event(KEY_SPACE, 0);
    assert_eq!(ev.kind, EV_KEY);
    assert_eq!(ev.code, KEY_SPACE as u16);
    assert_eq!(ev.value, 0);
}

#[test]
fn sync_event_sets_sync_fields() {
    let ev = InputEvent::sync_event();
    assert_eq!(ev.kind, EV_SYN);
    assert_eq!(ev.code, SYN_REPORT as u16);
    assert_eq!(ev.value, 0);
}

#[test]
fn uinput_setup_sets_ids() {
    let setup = UinputSetup::new("baan", 3, 1187, 1999);
    assert_eq!(setup.id.bustype, 3);
    assert_eq!(setup.id.vendor, 1187);
    assert_eq!(setup.id.product, 1999);
    assert_eq!(setup.ff_effects_max, 0);
}

#[test]
fn uinput_setup_short_name_is_padded_and_terminated() {
    let setup = UinputSetup::new("baan", 0, 0, 0);
    assert_eq!(&setup.name[..5], b"baan\0");
    assert!(setup.name[..80].iter().any(|&b| b != 0)); // has data
    assert_eq!(setup.name[4], 0); // null-terminated
}

#[test]
fn uinput_setup_long_name_is_truncated_and_terminated() {
    let long = "x".repeat(200);
    let setup = UinputSetup::new(&long, 0, 0, 0);
    // 79 chars of content then a trailing NUL fill the 80-byte field.
    assert_eq!(setup.name[0], b'x');
    assert_eq!(setup.name[78], b'x');
    assert_eq!(setup.name[79], 0);
}

#[test]
fn uinput_setup_name_field_zero_initialized_after_name() {
    let setup = UinputSetup::new("ab", 0, 0, 0);
    assert_eq!(&setup.name[..3], b"ab\0");
    assert_eq!(setup.name[3], 0);
}

#[test]
fn defaults_are_zero() {
    let ev = InputEvent::default();
    assert_eq!(
        ev,
        InputEvent { tv_sec: 0, tv_usec: 0, kind: 0, code: 0, value: 0 }
    );
    let setup = UinputSetup::default();
    assert_eq!(setup.id, UinputId::default());
    assert!(setup.name.iter().all(|&b| b == 0));
}

#[test]
fn negative_fields_survive_the_wire() {
    let ev = InputEvent {
        tv_sec: -2,
        tv_usec: i64::MIN,
        kind: 0xfffe,
        code: 0x0102,
        value: -1,
    };
    let bytes = event_bytes(&ev);
    assert_eq!(bytes[..8], (-2i64).to_le_bytes());
    assert_eq!(bytes[8..16], i64::MIN.to_le_bytes());
    assert_eq!(bytes[16..20], [0xfe, 0xff, 0x02, 0x01]);
    assert_eq!(bytes[20..], [0xff; 4]);
    let array: [u8; 24] = bytes.try_into().unwrap();
    assert_eq!(event_from_bytes(array), ev);
}

#[test]
fn any_bytes_are_an_event_with_those_bytes() {
    let mut bytes = [0u8; 24];
    for (i, byte) in bytes.iter_mut().enumerate() {
        *byte = (i * 37 + 129) as u8;
    }
    assert_eq!(event_bytes(&event_from_bytes(bytes)), bytes);
}

#[test]
fn setups_have_the_kernel_layout() {
    let setup = UinputSetup::new("é", 3, 1187, 1999);
    let bytes = setup_bytes(&setup);
    assert_eq!(bytes.len(), 92);
    assert_eq!(bytes[..8], [3, 0, 0xa3, 0x04, 0xcf, 0x07, 0, 0]);
    assert_eq!(bytes[8..11], [0xc3, 0xa9, 0]);
    assert!(bytes[11..].iter().all(|&b| b == 0));
}
