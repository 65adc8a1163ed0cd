//! Linux input structures (used for reading/writing /dev/input and uinput),
//! and their bytes on the wire.
use crate::keycode::{EV_KEY, EV_SYN, SYN_REPORT};
use vstd::prelude::*;
use vstd::string::*;

verus! {

// ---------------------------------------------------------------------------
// Little-endian integers
// ---------------------------------------------------------------------------

/// The lowest `n` bytes of an integer, lowest first; a negative integer in
/// two's complement.
pub open spec fn le_bytes(value: int, n: nat) -> Seq<u8>
    decreases n,
{
    if n == 0 {
        Seq::empty()
    } else {
        seq![(value % 256) as u8] + le_bytes(value / 256, (n - 1) as nat)
    }
}

/// How many values `n` bytes can hold.
pub open spec fn le_range(n: nat) -> nat
    decreases n,
{
    if n == 0 {
        1
    } else {
        256 * le_range((n - 1) as nat)
    }
}

/// The unsigned integer that bytes stand for, lowest first.
pub open spec fn le_unsigned(bytes: Seq<u8>) -> nat
    decreases bytes.len(),
{
    if bytes.len() == 0 {
        0
    } else {
        bytes[0] as nat + 256 * le_unsigned(bytes.skip(1))
    }
}

/// The signed integer that bytes stand for, lowest first.
pub open spec fn le_signed(bytes: Seq<u8>) -> int {
    let value = le_unsigned(bytes) as int;
    if 2 * value < le_range(bytes.len()) {
        value
    } else {
        value - le_range(bytes.len())
    }
}

/// There are as many bytes as asked for.
proof fn lemma_le_len(value: int, n: nat)
    ensures
        le_bytes(value, n).len() == n,
    decreases n,
{
    if n > 0 {
        lemma_le_len(value / 256, (n - 1) as nat);
    }
}

/// Bytes stand for an integer within their range.
proof fn lemma_le_bound(bytes: Seq<u8>)
    ensures
        le_unsigned(bytes) < le_range(bytes.len()),
    decreases bytes.len(),
{
    if bytes.len() > 0 {
        lemma_le_bound(bytes.skip(1));
    }
}

/// Integers that differ by the whole range have the same bytes.
proof fn lemma_le_wrap(value: int, n: nat)
    ensures
        le_bytes(value + le_range(n), n) == le_bytes(value, n),
    decreases n,
{
    if n > 0 {
        let rest = le_range((n - 1) as nat);
        lemma_le_wrap(value / 256, (n - 1) as nat);
        assert((value + 256 * rest) % 256 == value % 256);
        assert((value + 256 * rest) / 256 == value / 256 + rest);
    }
}

/// Reading back what was written gives the integer, within the range.
proof fn lemma_le_read_back(value: int, n: nat)
    requires
        0 <= value < le_range(n),
    ensures
        le_unsigned(le_bytes(value, n)) == value,
    decreases n,
{
    if n > 0 {
        let rest = le_bytes(value / 256, (n - 1) as nat);
        lemma_le_read_back(value / 256, (n - 1) as nat);
        assert(le_bytes(value, n).skip(1) =~= rest);
    }
}

/// Writing what was read gives the bytes.
proof fn lemma_le_write_back(bytes: Seq<u8>)
    ensures
        le_bytes(le_unsigned(bytes) as int, bytes.len()) == bytes,
    decreases bytes.len(),
{
    if bytes.len() > 0 {
        let rest = bytes.skip(1);
        lemma_le_write_back(rest);
        let value = le_unsigned(bytes) as int;
        assert(value % 256 == bytes[0]);
        assert(value / 256 == le_unsigned(rest));
        assert(seq![bytes[0]] + rest =~= bytes);
    } else {
        assert(bytes =~= Seq::empty());
    }
}

/// The ranges of two, four and eight bytes.
proof fn lemma_le_ranges()
    ensures
        le_range(2) == 0x1_0000,
        le_range(4) == 0x1_0000_0000,
        le_range(8) == 0x1_0000_0000_0000_0000,
{
    reveal_with_fuel(le_range, 9);
}

/// Appends the lowest `n` bytes of `value`.
fn push_le(out: &mut Vec<u8>, value: u64, n: usize)
    ensures
        final(out)@ == old(out)@ + le_bytes(value as int, n as nat),
{
    let ghost start = out@;
    let ghost whole = le_bytes(value as int, n as nat);
    let mut rest: u64 = value;
    let mut left: usize = n;
    assert(out@ + whole =~= start + whole);
    while left > 0
        invariant
            out@ + le_bytes(rest as int, left as nat) == start + whole,
        decreases left,
    {
        let ghost before = out@;
        let byte: u8 = (rest % 256) as u8;
        out.push(byte);
        proof {
            let tail = le_bytes((rest / 256) as int, (left - 1) as nat);
            assert(out@ + tail =~= before + (seq![byte] + tail));
        }
        rest = rest / 256;
        left -= 1;
    }
    assert(out@ =~= start + whole);
}

/// The unsigned integer that the bytes `bytes[from..from + n]` stand for.
fn read_le(bytes: &[u8], from: usize, n: usize) -> (value: u64)
    requires
        n <= 8,
        from + n <= bytes@.len(),
    ensures
        value == le_unsigned(bytes@.subrange(from as int, from + n)),
        value < le_range(n as nat),
    decreases n,
{
    proof {
        lemma_le_bound(bytes@.subrange(from as int, from + n));
        reveal_with_fuel(le_range, 9);
    }
    if n == 0 {
        return 0;
    }
    assert(from < bytes.len());
    let rest: u64 = read_le(bytes, from + 1, n - 1);
    proof {
        assert(bytes@.subrange(from as int, from + n).skip(1) =~= bytes@.subrange(
            from + 1,
            from + n,
        ));
    }
    bytes[from] as u64 + 256 * rest
}

// ---------------------------------------------------------------------------
// Input events
// ---------------------------------------------------------------------------

/// Represents `struct input_event` from `<linux/input.h>`.
#[derive(Debug, Clone, Copy, PartialEq, Eq, Structural)]
pub struct InputEvent {
    pub tv_sec: i64,
    pub tv_usec: i64,
    /// The event's type: `EV_KEY`, `EV_SYN` or another one.
    pub kind: u16,
    pub code: u16,
    pub value: i32,
}

impl Default for InputEvent {
    fn default() -> (event: InputEvent)
        ensures
            event == (InputEvent { tv_sec: 0, tv_usec: 0, kind: 0, code: 0, value: 0 }),
    {
        InputEvent { tv_sec: 0, tv_usec: 0, kind: 0, code: 0, value: 0 }
    }
}

/// The event that key `code` changes to `value`: 1 for down, 0 for up.
pub open spec fn key_change(code: u32, value: i32) -> InputEvent {
    InputEvent { tv_sec: 0, tv_usec: 0, kind: EV_KEY, code: code as u16, value }
}

/// The event that ends a report.
pub open spec fn report_end() -> InputEvent {
    InputEvent { tv_sec: 0, tv_usec: 0, kind: EV_SYN, code: 0, value: 0 }
}

impl InputEvent {
    /// The event that key `code` changes to `value`. Key codes have 16 bits.
    pub fn key_event(code: u32, value: i32) -> (event: InputEvent)
        requires
            code <= u16::MAX,
        ensures
            event == key_change(code, value),
            event.code == code,
    {
        InputEvent { tv_sec: 0, tv_usec: 0, kind: EV_KEY, code: code as u16, value }
    }

    /// The event that ends a report.
    pub fn sync_event() -> (event: InputEvent)
        ensures
            event == report_end(),
            event.code == SYN_REPORT,
    {
        InputEvent { tv_sec: 0, tv_usec: 0, kind: EV_SYN, code: SYN_REPORT as u16, value: 0 }
    }
}

/// An event's bytes on the wire.
pub open spec fn wire_bytes(event: InputEvent) -> Seq<u8> {
    le_bytes(event.tv_sec as int, 8) + le_bytes(event.tv_usec as int, 8) + le_bytes(
        event.kind as int,
        2,
    ) + le_bytes(event.code as int, 2) + le_bytes(event.value as int, 4)
}

/// The event that bytes on the wire stand for.
pub open spec fn wire_event(bytes: Seq<u8>) -> InputEvent {
    InputEvent {
        tv_sec: le_signed(bytes.subrange(0, 8)) as i64,
        tv_usec: le_signed(bytes.subrange(8, 16)) as i64,
        kind: le_unsigned(bytes.subrange(16, 18)) as u16,
        code: le_unsigned(bytes.subrange(18, 20)) as u16,
        value: le_signed(bytes.subrange(20, 24)) as i32,
    }
}

/// A signed integer as the unsigned one with the same eight bytes.
fn unsigned_word(value: i64) -> (word: u64)
    ensures
        le_bytes(word as int, 8) == le_bytes(value as int, 8),
{
    proof {
        lemma_le_ranges();
        lemma_le_wrap(value as int, 8);
    }
    if value >= 0 {
        value as u64
    } else {
        (value as i128 + 0x1_0000_0000_0000_0000) as u64
    }
}

/// A signed integer as the unsigned one with the same four bytes.
fn unsigned_half(value: i32) -> (word: u64)
    ensures
        le_bytes(word as int, 4) == le_bytes(value as int, 4),
{
    proof {
        lemma_le_ranges();
        lemma_le_wrap(value as int, 4);
    }
    if value >= 0 {
        value as u64
    } else {
        (value as i64 + 0x1_0000_0000) as u64
    }
}

/// The signed integer that eight bytes stand for.
fn read_word(bytes: &[u8], from: usize) -> (value: i64)
    requires
        from + 8 <= bytes@.len(),
    ensures
        value == le_signed(bytes@.subrange(from as int, from + 8)),
{
    proof {
        lemma_le_ranges();
    }
    let word: u64 = read_le(bytes, from, 8);
    if word < 0x8000_0000_0000_0000 {
        word as i64
    } else {
        (word as i128 - 0x1_0000_0000_0000_0000) as i64
    }
}

/// The signed integer that four bytes stand for.
fn read_half(bytes: &[u8], from: usize) -> (value: i32)
    requires
        from + 4 <= bytes@.len(),
    ensures
        value == le_signed(bytes@.subrange(from as int, from + 4)),
{
    proof {
        lemma_le_ranges();
    }
    let word: u64 = read_le(bytes, from, 4);
    if word < 0x8000_0000 {
        word as i32
    } else {
        (word as i64 - 0x1_0000_0000) as i32
    }
}

/// The raw wire bytes of an `InputEvent`, for writing to a uinput/evdev device.
pub fn event_bytes(event: &InputEvent) -> (bytes: Vec<u8>)
    ensures
        bytes@ == wire_bytes(*event),
        bytes@.len() == 24,
{
    proof {
        lemma_le_len(event.tv_sec as int, 8);
        lemma_le_len(event.tv_usec as int, 8);
        lemma_le_len(event.kind as int, 2);
        lemma_le_len(event.code as int, 2);
        lemma_le_len(event.value as int, 4);
    }
    let mut bytes: Vec<u8> = Vec::new();
    push_le(&mut bytes, unsigned_word(event.tv_sec), 8);
    push_le(&mut bytes, unsigned_word(event.tv_usec), 8);
    push_le(&mut bytes, event.kind as u64, 2);
    push_le(&mut bytes, event.code as u64, 2);
    push_le(&mut bytes, unsigned_half(event.value), 4);
    assert(bytes@ =~= wire_bytes(*event));
    bytes
}

/// The `InputEvent` that 24 freshly-read bytes stand for.
pub fn event_from_bytes(bytes: [u8; 24]) -> (event: InputEvent)
    ensures
        event == wire_event(bytes@),
{
    proof {
        lemma_le_ranges();
    }
    let raw: &[u8] = &bytes;
    InputEvent {
        tv_sec: read_word(raw, 0),
        tv_usec: read_word(raw, 8),
        kind: read_le(raw, 16, 2) as u16,
        code: read_le(raw, 18, 2) as u16,
        value: read_half(raw, 20),
    }
}

/// Reading back the bytes of a signed integer gives the integer.
proof fn lemma_signed_read_back(value: int, n: nat)
    requires
        -(le_range(n) as int) <= 2 * value < le_range(n),
    ensures
        le_signed(le_bytes(value, n)) == value,
{
    lemma_le_len(value, n);
    if value >= 0 {
        lemma_le_read_back(value, n);
    } else {
        lemma_le_wrap(value, n);
        lemma_le_read_back(value + le_range(n), n);
    }
}

/// Writing the signed integer that bytes stand for gives the bytes.
proof fn lemma_signed_write_back(bytes: Seq<u8>)
    ensures
        le_bytes(le_signed(bytes), bytes.len()) == bytes,
        -(le_range(bytes.len()) as int) <= 2 * le_signed(bytes) < le_range(bytes.len()),
{
    lemma_le_write_back(bytes);
    lemma_le_bound(bytes);
    lemma_le_wrap(le_unsigned(bytes) - le_range(bytes.len()), bytes.len());
}

/// An event that goes over the wire arrives as it was.
pub proof fn law_events_survive_the_wire(event: InputEvent)
    ensures
        wire_bytes(event).len() == 24,
        wire_event(wire_bytes(event)) == event,
{
    lemma_le_ranges();
    let bytes = wire_bytes(event);
    lemma_le_len(event.tv_sec as int, 8);
    lemma_le_len(event.tv_usec as int, 8);
    lemma_le_len(event.kind as int, 2);
    lemma_le_len(event.code as int, 2);
    lemma_le_len(event.value as int, 4);
    assert(bytes.subrange(0, 8) =~= le_bytes(event.tv_sec as int, 8));
    assert(bytes.subrange(8, 16) =~= le_bytes(event.tv_usec as int, 8));
    assert(bytes.subrange(16, 18) =~= le_bytes(event.kind as int, 2));
    assert(bytes.subrange(18, 20) =~= le_bytes(event.code as int, 2));
    assert(bytes.subrange(20, 24) =~= le_bytes(event.value as int, 4));
    lemma_signed_read_back(event.tv_sec as int, 8);
    lemma_signed_read_back(event.tv_usec as int, 8);
    lemma_le_read_back(event.kind as int, 2);
    lemma_le_read_back(event.code as int, 2);
    lemma_signed_read_back(event.value as int, 4);
}

/// Every 24 bytes stand for an event with those bytes, so none is lost or
/// changed by reading it.
pub proof fn law_wire_bytes_are_kept(bytes: Seq<u8>)
    requires
        bytes.len() == 24,
    ensures
        wire_bytes(wire_event(bytes)) == bytes,
{
    lemma_le_ranges();
    lemma_signed_write_back(bytes.subrange(0, 8));
    lemma_signed_write_back(bytes.subrange(8, 16));
    lemma_le_write_back(bytes.subrange(16, 18));
    lemma_le_bound(bytes.subrange(16, 18));
    lemma_le_write_back(bytes.subrange(18, 20));
    lemma_le_bound(bytes.subrange(18, 20));
    lemma_signed_write_back(bytes.subrange(20, 24));
    assert(bytes =~= bytes.subrange(0, 8) + bytes.subrange(8, 16) + bytes.subrange(16, 18)
        + bytes.subrange(18, 20) + bytes.subrange(20, 24));
}

// ---------------------------------------------------------------------------
// Device setup
// ---------------------------------------------------------------------------

/// How a device identifies itself: `struct input_id` from `<linux/input.h>`.
#[derive(Debug, Clone, Copy, PartialEq, Eq, Structural)]
pub struct UinputId {
    pub bustype: u16,
    pub vendor: u16,
    pub product: u16,
    pub version: u16,
}

impl Default for UinputId {
    fn default() -> (id: UinputId)
        ensures
            id == (UinputId { bustype: 0, vendor: 0, product: 0, version: 0 }),
    {
        UinputId { bustype: 0, vendor: 0, product: 0, version: 0 }
    }
}

/// Represents `struct uinput_setup` from `<linux/uinput.h>`.
#[derive(Debug, Clone, Copy)]
pub struct UinputSetup {
    pub id: UinputId,
    pub name: [u8; 80],
    pub ff_effects_max: u32,
}

impl Default for UinputSetup {
    fn default() -> (setup: UinputSetup)
        ensures
            setup.id == (UinputId { bustype: 0, vendor: 0, product: 0, version: 0 }),
            forall|i: int| 0 <= i < 80 ==> #[trigger] setup.name@[i] == 0,
            setup.ff_effects_max == 0,
    {
        UinputSetup {
            id: UinputId { bustype: 0, vendor: 0, product: 0, version: 0 },
            name: [0u8; 80],
            ff_effects_max: 0,
        }
    }
}

/// A device name's field: the name's UTF-8 bytes, cut to 79, then zeros.
pub open spec fn name_field(name: Seq<char>) -> Seq<u8> {
    let bytes = vstd::utf8::encode_utf8(name);
    Seq::new(
        80,
        |i: int|
            if i < bytes.len() && i < 79 {
                bytes[i]
            } else {
                0u8
            },
    )
}

impl UinputSetup {
    /// The setup of a device with this name and identity.
    pub fn new(name: &str, bustype: u16, vendor: u16, product: u16) -> (setup: UinputSetup)
        ensures
            setup.id == (UinputId { bustype, vendor, product, version: 0 }),
            setup.name@ == name_field(name@),
            setup.ff_effects_max == 0,
    {
        let mut field: [u8; 80] = [0u8; 80];
        let bytes = name.as_bytes();
        let mut i: usize = 0;
        while i < bytes.len() && i < 79
            invariant
                i <= bytes@.len(),
                i <= 79,
                bytes@ == vstd::utf8::encode_utf8(name@),
                forall|j: int| 0 <= j < i ==> #[trigger] field@[j] == bytes@[j],
                forall|j: int| i <= j < 80 ==> #[trigger] field@[j] == 0,
            decreases 79 - i,
        {
            field[i] = bytes[i];
            i += 1;
        }
        assert(field@ =~= name_field(name@));
        UinputSetup {
            id: UinputId { bustype, vendor, product, version: 0 },
            name: field,
            ff_effects_max: 0,
        }
    }
}

/// A setup's bytes as the kernel takes them.
pub open spec fn setup_wire_bytes(setup: UinputSetup) -> Seq<u8> {
    le_bytes(setup.id.bustype as int, 2) + le_bytes(setup.id.vendor as int, 2) + le_bytes(
        setup.id.product as int,
        2,
    ) + le_bytes(setup.id.version as int, 2) + setup.name@ + le_bytes(
        setup.ff_effects_max as int,
        4,
    )
}

/// The raw bytes of a `UinputSetup`, for the ioctl that takes it.
pub fn setup_bytes(setup: &UinputSetup) -> (bytes: Vec<u8>)
    ensures
        bytes@ == setup_wire_bytes(*setup),
        bytes@.len() == 92,
{
    proof {
        lemma_le_len(setup.id.bustype as int, 2);
        lemma_le_len(setup.id.vendor as int, 2);
        lemma_le_len(setup.id.product as int, 2);
        lemma_le_len(setup.id.version as int, 2);
        lemma_le_len(setup.ff_effects_max as int, 4);
    }
    let mut bytes: Vec<u8> = Vec::new();
    push_le(&mut bytes, setup.id.bustype as u64, 2);
    push_le(&mut bytes, setup.id.vendor as u64, 2);
    push_le(&mut bytes, setup.id.product as u64, 2);
    push_le(&mut bytes, setup.id.version as u64, 2);
    let name: &[u8] = &setup.name;
    let ghost before = bytes@;
    bytes.extend_from_slice(name);
    assert(bytes@ =~= before + setup.name@);
    push_le(&mut bytes, setup.ff_effects_max as u64, 4);
    assert(bytes@ =~= setup_wire_bytes(*setup));
    bytes
}

// ---------------------------------------------------------------------------
// Laws of the layout
// ---------------------------------------------------------------------------

/// Integers are written lowest byte first.
pub proof fn law_lowest_byte_first(value: int)
    ensures
        le_bytes(value, 2) == seq![(value % 256) as u8, (value / 256 % 256) as u8],
        le_bytes(value, 4) == seq![
            (value % 256) as u8,
            (value / 256 % 256) as u8,
            (value / 256 / 256 % 256) as u8,
            (value / 256 / 256 / 256 % 256) as u8,
        ],
        le_bytes(value, 8) == le_bytes(value, 4) + le_bytes(value / 256 / 256 / 256 / 256, 4),
{
    reveal_with_fuel(le_bytes, 9);
    assert(le_bytes(value, 2) =~= seq![(value % 256) as u8, (value / 256 % 256) as u8]);
    assert(le_bytes(value, 4) =~= seq![
        (value % 256) as u8,
        (value / 256 % 256) as u8,
        (value / 256 / 256 % 256) as u8,
        (value / 256 / 256 / 256 % 256) as u8,
    ]);
    assert(le_bytes(value, 8) =~= le_bytes(value, 4) + le_bytes(
        value / 256 / 256 / 256 / 256,
        4,
    ));
}

/// An event on the wire is its seconds and microseconds in eight bytes each,
/// its kind and code in two each, and its value in four, in this order.
pub proof fn law_events_are_laid_out(event: InputEvent)
    ensures
        wire_bytes(event).len() == 24,
        wire_bytes(event).subrange(0, 8) == le_bytes(event.tv_sec as int, 8),
        wire_bytes(event).subrange(8, 16) == le_bytes(event.tv_usec as int, 8),
        wire_bytes(event).subrange(16, 18) == le_bytes(event.kind as int, 2),
        wire_bytes(event).subrange(18, 20) == le_bytes(event.code as int, 2),
        wire_bytes(event).subrange(20, 24) == le_bytes(event.value as int, 4),
{
    let bytes = wire_bytes(event);
    lemma_le_len(event.tv_sec as int, 8);
    lemma_le_len(event.tv_usec as int, 8);
    lemma_le_len(event.kind as int, 2);
    lemma_le_len(event.code as int, 2);
    lemma_le_len(event.value as int, 4);
    assert(bytes.subrange(0, 8) =~= le_bytes(event.tv_sec as int, 8));
    assert(bytes.subrange(8, 16) =~= le_bytes(event.tv_usec as int, 8));
    assert(bytes.subrange(16, 18) =~= le_bytes(event.kind as int, 2));
    assert(bytes.subrange(18, 20) =~= le_bytes(event.code as int, 2));
    assert(bytes.subrange(20, 24) =~= le_bytes(event.value as int, 4));
}

/// A key's event is of kind 1, with its code and value; the end of a report is
/// all zeros. Neither has a time.
pub proof fn law_events_say_what_they_are(code: u32, value: i32)
    requires
        code <= u16::MAX,
    ensures
        key_change(code, value).kind == 1,
        key_change(code, value).code == code,
        key_change(code, value).value == value,
        key_change(code, value).tv_sec == 0 && key_change(code, value).tv_usec == 0,
        report_end() == (InputEvent { tv_sec: 0, tv_usec: 0, kind: 0, code: 0, value: 0 }),
{
}

/// A setup is the four numbers of its identity in two bytes each, its name's
/// field of 80 bytes, and a last number in four, in this order.
pub proof fn law_setups_are_laid_out(setup: UinputSetup)
    ensures
        setup_wire_bytes(setup).len() == 92,
        setup_wire_bytes(setup).subrange(0, 2) == le_bytes(setup.id.bustype as int, 2),
        setup_wire_bytes(setup).subrange(2, 4) == le_bytes(setup.id.vendor as int, 2),
        setup_wire_bytes(setup).subrange(4, 6) == le_bytes(setup.id.product as int, 2),
        setup_wire_bytes(setup).subrange(6, 8) == le_bytes(setup.id.version as int, 2),
        setup_wire_bytes(setup).subrange(8, 88) == setup.name@,
        setup_wire_bytes(setup).subrange(88, 92) == le_bytes(setup.ff_effects_max as int, 4),
{
    let bytes = setup_wire_bytes(setup);
    lemma_le_len(setup.id.bustype as int, 2);
    lemma_le_len(setup.id.vendor as int, 2);
    lemma_le_len(setup.id.product as int, 2);
    lemma_le_len(setup.id.version as int, 2);
    lemma_le_len(setup.ff_effects_max as int, 4);
    assert(bytes.subrange(0, 2) =~= le_bytes(setup.id.bustype as int, 2));
    assert(bytes.subrange(2, 4) =~= le_bytes(setup.id.vendor as int, 2));
    assert(bytes.subrange(4, 6) =~= le_bytes(setup.id.product as int, 2));
    assert(bytes.subrange(6, 8) =~= le_bytes(setup.id.version as int, 2));
    assert(bytes.subrange(8, 88) =~= setup.name@);
    assert(bytes.subrange(88, 92) =~= le_bytes(setup.ff_effects_max as int, 4));
}

/// A name's field starts with the name's bytes, as many as leave room for the
/// zero at its end, and is filled up with zeros.
pub proof fn law_names_end_with_a_zero(name: Seq<char>, i: int)
    requires
        0 <= i < 80,
    ensures
        name_field(name).len() == 80,
        name_field(name)[79] == 0,
        i < 79 && i < vstd::utf8::encode_utf8(name).len() ==> name_field(name)[i]
            == vstd::utf8::encode_utf8(name)[i],
        i >= vstd::utf8::encode_utf8(name).len() ==> name_field(name)[i] == 0,
{
}

} // verus!
