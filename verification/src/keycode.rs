//! Key codes, and the characters that keys produce.
use vstd::prelude::*;

verus! {

// ---------------------------------------------------------------------------
// Linux input-event-codes constants (from <linux/input-event-codes.h>)
// ---------------------------------------------------------------------------

pub const KEY_ESC: u32 = 1;
pub const KEY_1: u32 = 2;
pub const KEY_2: u32 = 3;
pub const KEY_3: u32 = 4;
pub const KEY_4: u32 = 5;
pub const KEY_5: u32 = 6;
pub const KEY_6: u32 = 7;
pub const KEY_7: u32 = 8;
pub const KEY_8: u32 = 9;
pub const KEY_9: u32 = 10;
pub const KEY_0: u32 = 11;
pub const KEY_MINUS: u32 = 12;
pub const KEY_EQUAL: u32 = 13;
pub const KEY_BACKSPACE: u32 = 14;
pub const KEY_TAB: u32 = 15;
pub const KEY_Q: u32 = 16;
pub const KEY_W: u32 = 17;
pub const KEY_E: u32 = 18;
pub const KEY_R: u32 = 19;
pub const KEY_T: u32 = 20;
pub const KEY_Y: u32 = 21;
pub const KEY_U: u32 = 22;
pub const KEY_I: u32 = 23;
pub const KEY_O: u32 = 24;
pub const KEY_P: u32 = 25;
pub const KEY_LEFTBRACE: u32 = 26;
pub const KEY_RIGHTBRACE: u32 = 27;
pub const KEY_ENTER: u32 = 28;
pub const KEY_LEFTCTRL: u32 = 29;
pub const KEY_RIGHTCTRL: u32 = 97;
pub const KEY_LEFTALT: u32 = 56;
pub const KEY_RIGHTALT: u32 = 100;
pub const KEY_A: u32 = 30;
pub const KEY_S: u32 = 31;
pub const KEY_D: u32 = 32;
pub const KEY_F: u32 = 33;
pub const KEY_G: u32 = 34;
pub const KEY_H: u32 = 35;
pub const KEY_J: u32 = 36;
pub const KEY_K: u32 = 37;
pub const KEY_L: u32 = 38;
pub const KEY_SEMICOLON: u32 = 39;
pub const KEY_APOSTROPHE: u32 = 40;
pub const KEY_GRAVE: u32 = 41;
pub const KEY_LEFTSHIFT: u32 = 42;
pub const KEY_RIGHTSHIFT: u32 = 54;
pub const KEY_BACKSLASH: u32 = 43;
pub const KEY_Z: u32 = 44;
pub const KEY_X: u32 = 45;
pub const KEY_C: u32 = 46;
pub const KEY_V: u32 = 47;
pub const KEY_B: u32 = 48;
pub const KEY_N: u32 = 49;
pub const KEY_M: u32 = 50;
pub const KEY_COMMA: u32 = 51;
pub const KEY_DOT: u32 = 52;
pub const KEY_SLASH: u32 = 53;
pub const KEY_SPACE: u32 = 57;
pub const KEY_HOME: u32 = 102;
pub const KEY_RIGHT: u32 = 106;
pub const KEY_END: u32 = 107;

// Event types
pub const EV_KEY: u16 = 0x01;
pub const EV_SYN: u16 = 0x00;
pub const SYN_REPORT: u32 = 0;
pub const BUS_USB: u16 = 0x03;

// uinput ioctls
pub const UI_SET_EVBIT: u64 = 0x40045564;
pub const UI_SET_KEYBIT: u64 = 0x40045565;
pub const UI_DEV_SETUP: u64 = 0x405c5503;
pub const UI_DEV_CREATE: u64 = 0x5501;
pub const UI_DEV_DESTROY: u64 = 0x5502;

/// Sleep time between key events (microseconds).
pub const SLEEP_TIME_US: u64 = 1000;

/// The set of Linux keycodes that baan recognises.
pub const LINUX_KEYS: [u32; 55] = [
    KEY_1,
    KEY_2,
    KEY_3,
    KEY_4,
    KEY_5,
    KEY_6,
    KEY_7,
    KEY_8,
    KEY_9,
    KEY_0,
    KEY_MINUS,
    KEY_EQUAL,
    KEY_BACKSPACE,
    KEY_Q,
    KEY_W,
    KEY_E,
    KEY_R,
    KEY_T,
    KEY_Y,
    KEY_U,
    KEY_I,
    KEY_O,
    KEY_P,
    KEY_LEFTBRACE,
    KEY_RIGHTBRACE,
    KEY_LEFTCTRL,
    KEY_A,
    KEY_S,
    KEY_D,
    KEY_F,
    KEY_G,
    KEY_H,
    KEY_J,
    KEY_K,
    KEY_L,
    KEY_SEMICOLON,
    KEY_APOSTROPHE,
    KEY_GRAVE,
    KEY_BACKSLASH,
    KEY_Z,
    KEY_X,
    KEY_C,
    KEY_V,
    KEY_B,
    KEY_N,
    KEY_M,
    KEY_COMMA,
    KEY_DOT,
    KEY_SLASH,
    KEY_SPACE,
    KEY_LEFTSHIFT,
    KEY_RIGHTSHIFT,
    KEY_RIGHT,
    KEY_HOME,
    KEY_END,
];

/// `(character, keycode, shift_required)` for every printable ASCII key, in
/// ASCII order. Both lookups go by this one table.
pub const CHAR_KEYCODE_MAP: [(char, u32, bool); 95] = [
    (' ', KEY_SPACE, false),
    ('!', KEY_1, true),
    ('"', KEY_APOSTROPHE, true),
    ('#', KEY_3, true),
    ('$', KEY_4, true),
    ('%', KEY_5, true),
    ('&', KEY_7, true),
    ('\'', KEY_APOSTROPHE, false),
    ('(', KEY_9, true),
    (')', KEY_0, true),
    ('*', KEY_8, true),
    ('+', KEY_EQUAL, true),
    (',', KEY_COMMA, false),
    ('-', KEY_MINUS, false),
    ('.', KEY_DOT, false),
    ('/', KEY_SLASH, false),
    ('0', KEY_0, false),
    ('1', KEY_1, false),
    ('2', KEY_2, false),
    ('3', KEY_3, false),
    ('4', KEY_4, false),
    ('5', KEY_5, false),
    ('6', KEY_6, false),
    ('7', KEY_7, false),
    ('8', KEY_8, false),
    ('9', KEY_9, false),
    (':', KEY_SEMICOLON, true),
    (';', KEY_SEMICOLON, false),
    ('<', KEY_COMMA, true),
    ('=', KEY_EQUAL, false),
    ('>', KEY_DOT, true),
    ('?', KEY_SLASH, true),
    ('@', KEY_2, true),
    ('A', KEY_A, true),
    ('B', KEY_B, true),
    ('C', KEY_C, true),
    ('D', KEY_D, true),
    ('E', KEY_E, true),
    ('F', KEY_F, true),
    ('G', KEY_G, true),
    ('H', KEY_H, true),
    ('I', KEY_I, true),
    ('J', KEY_J, true),
    ('K', KEY_K, true),
    ('L', KEY_L, true),
    ('M', KEY_M, true),
    ('N', KEY_N, true),
    ('O', KEY_O, true),
    ('P', KEY_P, true),
    ('Q', KEY_Q, true),
    ('R', KEY_R, true),
    ('S', KEY_S, true),
    ('T', KEY_T, true),
    ('U', KEY_U, true),
    ('V', KEY_V, true),
    ('W', KEY_W, true),
    ('X', KEY_X, true),
    ('Y', KEY_Y, true),
    ('Z', KEY_Z, true),
    ('[', KEY_LEFTBRACE, false),
    ('\\', KEY_BACKSLASH, false),
    (']', KEY_RIGHTBRACE, false),
    ('^', KEY_6, true),
    ('_', KEY_MINUS, true),
    ('`', KEY_GRAVE, false),
    ('a', KEY_A, false),
    ('b', KEY_B, false),
    ('c', KEY_C, false),
    ('d', KEY_D, false),
    ('e', KEY_E, false),
    ('f', KEY_F, false),
    ('g', KEY_G, false),
    ('h', KEY_H, false),
    ('i', KEY_I, false),
    ('j', KEY_J, false),
    ('k', KEY_K, false),
    ('l', KEY_L, false),
    ('m', KEY_M, false),
    ('n', KEY_N, false),
    ('o', KEY_O, false),
    ('p', KEY_P, false),
    ('q', KEY_Q, false),
    ('r', KEY_R, false),
    ('s', KEY_S, false),
    ('t', KEY_T, false),
    ('u', KEY_U, false),
    ('v', KEY_V, false),
    ('w', KEY_W, false),
    ('x', KEY_X, false),
    ('y', KEY_Y, false),
    ('z', KEY_Z, false),
    ('{', KEY_LEFTBRACE, true),
    ('|', KEY_BACKSLASH, true),
    ('}', KEY_RIGHTBRACE, true),
    ('~', KEY_GRAVE, true),
];

/// A resolved key: its Linux keycode, whether shift must be held, and the
/// character it produces. The `position` is the character's ASCII value, used
/// as the index into a trie node's children array.
#[derive(Debug, Clone, Copy, PartialEq, Eq, Structural)]
pub struct Key {
    /// ASCII value of the character — used as the trie children index.
    pub position: usize,
    pub character: char,
    pub keycode: u32,
    pub is_shifted: bool,
}

/// The key of a character: its entry in the table, which starts with the
/// space character.
pub open spec fn key_of(character: char) -> Option<Key> {
    if ' ' <= character && character <= '~' {
        let (_, keycode, is_shifted) = CHAR_KEYCODE_MAP@[character as int - 32];
        Some(Key { position: character as usize, character, keycode, is_shifted })
    } else {
        None
    }
}

/// Whether table entry `i` is for this (keycode, shift) pair.
pub open spec fn produces(i: int, keycode: u32, is_shifted: bool) -> bool {
    0 <= i < 95 && CHAR_KEYCODE_MAP@[i].1 == keycode && CHAR_KEYCODE_MAP@[i].2 == is_shifted
}

/// The character that a (keycode, shift) pair produces: that of its entry in
/// the table, where it has one. (No two entries are for the same pair.)
pub open spec fn char_of(keycode: u32, is_shifted: bool) -> Option<char> {
    if exists|i: int| produces(i, keycode, is_shifted) {
        Some(CHAR_KEYCODE_MAP@[choose|i: int| produces(i, keycode, is_shifted)].0)
    } else {
        None
    }
}

/// Look up the `Key` for a given ASCII character.
/// Returns `None` if the character has no keycode mapping.
pub fn get_key_from_char(character: char) -> (key: Option<Key>)
    ensures
        key == key_of(character),
{
    if character < ' ' || character > '~' {
        return None;
    }
    let position: usize = character as usize;
    let (_, keycode, is_shifted) = CHAR_KEYCODE_MAP[position - 32];
    Some(Key { position, character, keycode, is_shifted })
}

/// Get the character that a (keycode, shift) pair produces.
pub fn get_char_from_keycode(keycode: u32, is_shifted: bool) -> (character: Option<char>)
    ensures
        character == char_of(keycode, is_shifted),
{
    let mut i: usize = 0;
    while i < 95
        invariant
            i <= 95,
            forall|j: int| j < i ==> !#[trigger] produces(j, keycode, is_shifted),
        decreases 95 - i,
    {
        let (character, entry_code, entry_shifted) = CHAR_KEYCODE_MAP[i];
        if entry_code == keycode && entry_shifted == is_shifted {
            proof {
                assert(produces(i as int, keycode, is_shifted));
                let chosen = choose|j: int| produces(j, keycode, is_shifted);
                law_keys_produce_one_character(i as int, chosen, keycode, is_shifted);
            }
            return Some(character);
        }
        i += 1;
    }
    None
}

/// Returns `true` if the given Linux keycode is one baan recognises
/// (with or without shift).
pub fn is_supported_key_code(code: u32) -> (supported: bool)
    ensures
        supported == (char_of(code, false) is Some || char_of(code, true) is Some),
        supported ==> is_registered(code),
{
    proof {
        if char_of(code, false) is Some {
            law_recognised_keys_are_registered(code, false);
        }
        if char_of(code, true) is Some {
            law_recognised_keys_are_registered(code, true);
        }
    }
    get_char_from_keycode(code, false).is_some() || get_char_from_keycode(code, true).is_some()
}

/// The table is in ASCII order.
pub proof fn law_table_is_in_ascii_order(i: int)
    requires
        0 <= i < 95,
    ensures
        CHAR_KEYCODE_MAP@[i].0 as int == 32 + i,
{
}

/// Where in the table the entry of a key stands.
spec fn entry_of(keycode: u32, is_shifted: bool) -> int {
    if is_shifted {
        match keycode {
            KEY_1 => 1,
            KEY_2 => 32,
            KEY_3 => 3,
            KEY_4 => 4,
            KEY_5 => 5,
            KEY_6 => 62,
            KEY_7 => 6,
            KEY_8 => 10,
            KEY_9 => 8,
            KEY_0 => 9,
            KEY_MINUS => 63,
            KEY_EQUAL => 11,
            KEY_Q => 49,
            KEY_W => 55,
            KEY_E => 37,
            KEY_R => 50,
            KEY_T => 52,
            KEY_Y => 57,
            KEY_U => 53,
            KEY_I => 41,
            KEY_O => 47,
            KEY_P => 48,
            KEY_LEFTBRACE => 91,
            KEY_RIGHTBRACE => 93,
            KEY_A => 33,
            KEY_S => 51,
            KEY_D => 36,
            KEY_F => 38,
            KEY_G => 39,
            KEY_H => 40,
            KEY_J => 42,
            KEY_K => 43,
            KEY_L => 44,
            KEY_SEMICOLON => 26,
            KEY_APOSTROPHE => 2,
            KEY_GRAVE => 94,
            KEY_BACKSLASH => 92,
            KEY_Z => 58,
            KEY_X => 56,
            KEY_C => 35,
            KEY_V => 54,
            KEY_B => 34,
            KEY_N => 46,
            KEY_M => 45,
            KEY_COMMA => 28,
            KEY_DOT => 30,
            KEY_SLASH => 31,
            _ => -1,
        }
    } else {
        match keycode {
            KEY_1 => 17,
            KEY_2 => 18,
            KEY_3 => 19,
            KEY_4 => 20,
            KEY_5 => 21,
            KEY_6 => 22,
            KEY_7 => 23,
            KEY_8 => 24,
            KEY_9 => 25,
            KEY_0 => 16,
            KEY_MINUS => 13,
            KEY_EQUAL => 29,
            KEY_Q => 81,
            KEY_W => 87,
            KEY_E => 69,
            KEY_R => 82,
            KEY_T => 84,
            KEY_Y => 89,
            KEY_U => 85,
            KEY_I => 73,
            KEY_O => 79,
            KEY_P => 80,
            KEY_LEFTBRACE => 59,
            KEY_RIGHTBRACE => 61,
            KEY_A => 65,
            KEY_S => 83,
            KEY_D => 68,
            KEY_F => 70,
            KEY_G => 71,
            KEY_H => 72,
            KEY_J => 74,
            KEY_K => 75,
            KEY_L => 76,
            KEY_SEMICOLON => 27,
            KEY_APOSTROPHE => 7,
            KEY_GRAVE => 64,
            KEY_BACKSLASH => 60,
            KEY_Z => 90,
            KEY_X => 88,
            KEY_C => 67,
            KEY_V => 86,
            KEY_B => 66,
            KEY_N => 78,
            KEY_M => 77,
            KEY_COMMA => 12,
            KEY_DOT => 14,
            KEY_SLASH => 15,
            KEY_SPACE => 0,
            _ => -1,
        }
    }
}

/// Entry `i` stands where `entry_of` says.
proof fn lemma_entry_of(i: int)
    requires
        0 <= i < 95,
    ensures
        entry_of(CHAR_KEYCODE_MAP@[i].1, CHAR_KEYCODE_MAP@[i].2) == i,
{
}

/// No two entries of the table are for the same key.
pub proof fn law_keys_produce_one_character(i: int, j: int, keycode: u32, is_shifted: bool)
    requires
        produces(i, keycode, is_shifted),
        produces(j, keycode, is_shifted),
    ensures
        i == j,
{
    lemma_entry_of(i);
    lemma_entry_of(j);
}

/// The key of a character produces that character.
pub proof fn law_characters_round_trip(character: char)
    requires
        key_of(character) is Some,
    ensures
        char_of(key_of(character)->0.keycode, key_of(character)->0.is_shifted) == Some(character),
{
    let at = character as int - 32;
    let key = key_of(character)->0;
    assert(produces(at, key.keycode, key.is_shifted));
    let chosen = choose|i: int| produces(i, key.keycode, key.is_shifted);
    law_keys_produce_one_character(at, chosen, key.keycode, key.is_shifted);
    law_table_is_in_ascii_order(at);
}

/// The character that a key produces leads back to the key.
pub proof fn law_keys_round_trip(keycode: u32, is_shifted: bool)
    requires
        char_of(keycode, is_shifted) is Some,
    ensures
        key_of(char_of(keycode, is_shifted)->0) matches Some(key) && key.keycode == keycode
            && key.is_shifted == is_shifted,
{
    let i = choose|i: int| produces(i, keycode, is_shifted);
    assert(produces(i, keycode, is_shifted));
    law_table_is_in_ascii_order(i);
}

/// A keycode that produces a character is among the recognised keys.
pub proof fn law_recognised_keys_are_registered(keycode: u32, is_shifted: bool)
    requires
        char_of(keycode, is_shifted) is Some,
    ensures
        is_registered(keycode),
{
    law_keys_round_trip(keycode, is_shifted);
    law_characters_can_be_typed(char_of(keycode, is_shifted)->0);
}

/// Whether the virtual device registers a keycode.
pub open spec fn is_registered(keycode: u32) -> bool {
    exists|j: int| 0 <= j < 55 && #[trigger] LINUX_KEYS@[j] == keycode
}

/// Where among the registered keys a keycode stands.
spec fn registered_at(keycode: u32) -> int {
    match keycode {
        KEY_1 => 0,
        KEY_2 => 1,
        KEY_3 => 2,
        KEY_4 => 3,
        KEY_5 => 4,
        KEY_6 => 5,
        KEY_7 => 6,
        KEY_8 => 7,
        KEY_9 => 8,
        KEY_0 => 9,
        KEY_MINUS => 10,
        KEY_EQUAL => 11,
        KEY_BACKSPACE => 12,
        KEY_Q => 13,
        KEY_W => 14,
        KEY_E => 15,
        KEY_R => 16,
        KEY_T => 17,
        KEY_Y => 18,
        KEY_U => 19,
        KEY_I => 20,
        KEY_O => 21,
        KEY_P => 22,
        KEY_LEFTBRACE => 23,
        KEY_RIGHTBRACE => 24,
        KEY_LEFTCTRL => 25,
        KEY_A => 26,
        KEY_S => 27,
        KEY_D => 28,
        KEY_F => 29,
        KEY_G => 30,
        KEY_H => 31,
        KEY_J => 32,
        KEY_K => 33,
        KEY_L => 34,
        KEY_SEMICOLON => 35,
        KEY_APOSTROPHE => 36,
        KEY_GRAVE => 37,
        KEY_BACKSLASH => 38,
        KEY_Z => 39,
        KEY_X => 40,
        KEY_C => 41,
        KEY_V => 42,
        KEY_B => 43,
        KEY_N => 44,
        KEY_M => 45,
        KEY_COMMA => 46,
        KEY_DOT => 47,
        KEY_SLASH => 48,
        KEY_SPACE => 49,
        KEY_LEFTSHIFT => 50,
        KEY_RIGHTSHIFT => 51,
        KEY_RIGHT => 52,
        KEY_HOME => 53,
        KEY_END => 54,
        _ => -1,
    }
}

/// The key of every character is registered, so every character can be typed.
pub proof fn law_characters_can_be_typed(character: char)
    requires
        key_of(character) is Some,
    ensures
        is_registered(key_of(character)->0.keycode),
{
    let i = character as int - 32;
    let keycode = CHAR_KEYCODE_MAP@[i].1;
    assert(0 <= registered_at(keycode) < 55);
    assert(LINUX_KEYS@[registered_at(keycode)] == keycode);
}

/// Keys that produce characters are no modifiers.
pub proof fn lemma_typing_keys(character: char)
    requires
        key_of(character) is Some,
    ensures
        ({
            let keycode = key_of(character)->0.keycode;
            &&& keycode < 128
            &&& keycode != KEY_LEFTCTRL
            &&& keycode != KEY_RIGHTCTRL
            &&& keycode != KEY_LEFTSHIFT
            &&& keycode != KEY_RIGHTSHIFT
        }),
{
    lemma_entry_of(character as int - 32);
}

/// Backspace produces no character.
pub proof fn lemma_backspace_types_nothing(is_shifted: bool)
    ensures
        char_of(KEY_BACKSPACE, is_shifted) is None,
{
    if char_of(KEY_BACKSPACE, is_shifted) is Some {
        let i = choose|i: int| produces(i, KEY_BACKSPACE, is_shifted);
        assert(produces(i, KEY_BACKSPACE, is_shifted));
        lemma_entry_of(i);
    }
}

// ---------------------------------------------------------------------------
// The layout
// ---------------------------------------------------------------------------

/// The key of a character is named after it, and its position is the
/// character's number. Only the characters from space to tilde have keys.
pub proof fn law_keys_name_their_character(character: char)
    ensures
        key_of(character) is Some <==> 32 <= character as int <= 126,
        key_of(character) matches Some(key) ==> key.character == character && key.position
            == character as int,
{
}

/// The space bar types a space, without Shift only.
pub proof fn law_the_space_bar()
    ensures
        key_of(' ') matches Some(key) && key.keycode == 57 && !key.is_shifted,
        char_of(57, true) is None,
{
    if char_of(57, true) is Some {
        let i = choose|i: int| produces(i, 57, true);
        assert(produces(i, 57, true));
        lemma_entry_of(i);
    }
}

/// The keys of the top row, from 1 on, without and with Shift.
pub proof fn law_the_top_row(i: int)
    requires
        0 <= i < 12,
    ensures
        key_of("1234567890-="@[i]) matches Some(key) && key.keycode == 2 + i && !key.is_shifted,
        key_of("!@#$%^&*()_+"@[i]) matches Some(key) && key.keycode == 2 + i && key.is_shifted,
{
    reveal_strlit("1234567890-=");
    reveal_strlit("!@#$%^&*()_+");
}

/// The keys of the upper row of letters, from Q on, without and with Shift.
pub proof fn law_the_upper_letter_row(i: int)
    requires
        0 <= i < 12,
    ensures
        key_of("qwertyuiop[]"@[i]) matches Some(key) && key.keycode == 16 + i && !key.is_shifted,
        key_of("QWERTYUIOP{}"@[i]) matches Some(key) && key.keycode == 16 + i && key.is_shifted,
{
    reveal_strlit("qwertyuiop[]");
    reveal_strlit("QWERTYUIOP{}");
}

/// The keys of the middle row of letters, from A on, without and with Shift.
pub proof fn law_the_middle_letter_row(i: int)
    requires
        0 <= i < 12,
    ensures
        key_of("asdfghjkl;'`"@[i]) matches Some(key) && key.keycode == 30 + i && !key.is_shifted,
        key_of("ASDFGHJKL:\"~"@[i]) matches Some(key) && key.keycode == 30 + i && key.is_shifted,
{
    reveal_strlit("asdfghjkl;'`");
    reveal_strlit("ASDFGHJKL:\"~");
}

/// The keys of the lower row of letters, from the backslash before Z on,
/// without and with Shift.
pub proof fn law_the_lower_letter_row(i: int)
    requires
        0 <= i < 11,
    ensures
        key_of("\\zxcvbnm,./"@[i]) matches Some(key) && key.keycode == 43 + i && !key.is_shifted,
        key_of("|ZXCVBNM<>?"@[i]) matches Some(key) && key.keycode == 43 + i && key.is_shifted,
{
    reveal_strlit("\\zxcvbnm,./");
    reveal_strlit("|ZXCVBNM<>?");
}

} // verus!
