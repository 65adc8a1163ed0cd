use baan::keycode::{
    get_char_from_keycode, get_key_from_char, is_supported_key_code, CHAR_KEYCODE_MAP, KEY_1, KEY_5,
    KEY_A, KEY_BACKSPACE, KEY_ENTER, KEY_ESC, KEY_SPACE, LINUX_KEYS,
};

#[test]
fn test_key_from_char_lowercase() {
    let key = get_key_from_char('a').unwrap();
    assert_eq!(key.keycode, KEY_A);
    assert!(!key.is_shifted);
    assert_eq!(key.position, 'a' as usize);
}

#[test]
fn test_key_from_char_uppercase() {
    let key = get_key_from_char('A').unwrap();
    assert_eq!(key.keycode, KEY_A);
    assert!(key.is_shifted);
    assert_eq!(key.position, 'A' as usize);
}

#[test]
fn test_key_from_char_digit() {
    let key = get_key_from_char('5').unwrap();
    assert_eq!(key.keycode, KEY_5);
    assert!(!key.is_shifted);
}

#[test]
fn test_key_from_char_symbol() {
    let key = get_key_from_char('!').unwrap();
    assert_eq!(key.keycode, KEY_1);
    assert!(key.is_shifted);
}

#[test]
fn test_key_from_char_space() {
    let key = get_key_from_char(' ').unwrap();
    assert_eq!(key.keycode, KEY_SPACE);
    assert!(!key.is_shifted);
}

#[test]
fn test_key_from_char_unsupported() {
    assert!(get_key_from_char('\0').is_none());
    assert!(get_key_from_char('\n').is_none());
    assert!(get_key_from_char('\t').is_none());
}

#[test]
fn test_is_supported_key_code() {
    assert!(is_supported_key_code(KEY_A));
    assert!(is_supported_key_code(KEY_SPACE));
    assert!(is_supported_key_code(KEY_1));
    assert!(!is_supported_key_code(KEY_ESC));
    assert!(!is_supported_key_code(KEY_ENTER));
}

#[test]
fn test_char_keycode_roundtrip() {
    // Every entry in the map should round-trip through both tables.
    for &(ch, kc, shifted) in CHAR_KEYCODE_MAP.iter() {
        let key = get_key_from_char(ch).expect("char should be in table");
        assert_eq!(key.keycode, kc, "keycode mismatch for '{ch}'");
        assert_eq!(key.is_shifted, shifted, "shift mismatch for '{ch}'");

        let recovered =
            get_char_from_keycode(kc, shifted).expect("keycode+shift should round-trip");
        assert_eq!(
            recovered, ch,
            "char mismatch for keycode {kc} shifted={shifted}"
        );
    }
}

#[test]
fn characters_outside_the_table_have_no_key() {
    for c in ['\u{1f}', '\u{7f}', 'é', '\u{10ffff}'] {
        assert!(get_key_from_char(c).is_none());
    }
    assert_eq!(get_key_from_char('~').unwrap().position, 126);
}

#[test]
fn keys_lead_back_to_their_characters() {
    for code in 0..1024 {
        for shifted in [false, true] {
            if let Some(c) = get_char_from_keycode(code, shifted) {
                let key = get_key_from_char(c).unwrap();
                assert_eq!((key.keycode, key.is_shifted), (code, shifted));
            }
        }
    }
    assert_eq!(get_char_from_keycode(KEY_A, true), Some('A'));
    assert_eq!(get_char_from_keycode(KEY_BACKSPACE, false), None);
    assert_eq!(get_char_from_keycode(u32::MAX, true), None);
}

#[test]
fn keys_outside_the_table_produce_nothing() {
    // Back (158) is A (30) with the bit of 128 set.
    for code in [158, KEY_A + 128, KEY_SPACE + 128, 240, u32::MAX] {
        assert!(!is_supported_key_code(code), "{code}");
        assert_eq!(get_char_from_keycode(code, false), None, "{code}");
        assert_eq!(get_char_from_keycode(code, true), None, "{code}");
    }
    for code in 0..1024 {
        assert!(!is_supported_key_code(code) || LINUX_KEYS.contains(&code));
    }
}

#[test]
fn every_typing_key_is_registered() {
    for &(_, code, _) in CHAR_KEYCODE_MAP.iter() {
        assert!(LINUX_KEYS.contains(&code));
    }
}
