//! What comes from the input devices: the event records of a keyboard, and the registry text
//! that names the keyboards.

use crate::key::{key_of_code, Key};
use crate::text::{
    begins_with, chars_of, same_chars, split, split_text, starts_with, string_of, strings,
    texts, Sep, Separator,
};
use byteorder::{ByteOrder, LittleEndian};
use vstd::layout::size_of;
use vstd::prelude::*;
use vstd::slice::slice_subrange;

verus! {

/// The type of the events that report a key.
pub const KEY_EV: u16 = 1;

/// The value of a key event that reports a release.
pub const KEY_RELEASE: i32 = 0;

/// The value of a key event that reports a press.
pub const KEY_PRESS: i32 = 1;

/// The number that bytes stand for when the lowest byte comes first.
pub open spec fn le_value(bytes: Seq<u8>) -> nat
    decreases bytes.len(),
{
    if bytes.len() == 0 {
        0
    } else {
        bytes[0] as nat + 256 * le_value(bytes.drop_first())
    }
}

/// The number of values that `n` bytes can hold.
pub open spec fn radix(n: nat) -> nat
    decreases n,
{
    if n == 0 {
        1
    } else {
        256 * radix((n - 1) as nat)
    }
}

/// The signed number that the unsigned `value` of `n` bytes stands for in two's complement.
pub open spec fn signed(value: nat, n: nat) -> int {
    if 2 * value >= radix(n) {
        value - radix(n)
    } else {
        value as int
    }
}

/// `byteorder::LittleEndian::read_u16` reads the first two bytes of the buffer as a number,
/// the lowest byte first.
#[verifier::external_body]
fn le_u16(buf: &[u8]) -> (r: u16)
    requires
        buf@.len() >= 2,
    ensures
        r == le_value(buf@.take(2)),
{
    LittleEndian::read_u16(buf)
}

/// `byteorder::LittleEndian::read_i32` reads the first four bytes of the buffer, the lowest
/// byte first, as a number in two's complement.
#[verifier::external_body]
fn le_i32(buf: &[u8]) -> (r: i32)
    requires
        buf@.len() >= 4,
    ensures
        r == signed(le_value(buf@.take(4)), 4),
{
    LittleEndian::read_i32(buf)
}

/// `byteorder::LittleEndian::read_int` reads the first `nbytes` bytes of the buffer, the
/// lowest byte first, as a number in two's complement, and extends its sign to 64 bits.
#[verifier::external_body]
fn le_int(buf: &[u8], nbytes: usize) -> (r: i64)
    requires
        1 <= nbytes <= 8,
        nbytes <= buf@.len(),
    ensures
        r == signed(le_value(buf@.take(nbytes as int)), nbytes as nat),
{
    LittleEndian::read_int(buf, nbytes)
}

/// The number of bytes of one of the two time fields of a record: the size of a machine word.
pub open spec fn word() -> nat {
    size_of::<isize>()
}

/// The number of bytes of an event record: two time fields of a word each, two fields of
/// two bytes and one of four.
pub open spec fn record_len() -> nat {
    2 * word() + 8
}

/// One event of an input device.
#[derive(Clone, Copy, Debug, PartialEq, Eq, Structural)]
pub struct InputEvent {
    /// The seconds of the time of the event.
    pub tv_sec: isize,
    /// The microseconds of the time of the event.
    pub tv_usec: isize,
    /// The class of the event; `KEY_EV` for a key.
    pub type_: u16,
    /// The scan code of the key.
    pub code: u16,
    /// What happened to the key: `KEY_RELEASE`, `KEY_PRESS`, or 2 while it repeats.
    pub value: i32,
}

/// Why bytes are no event record.
#[derive(Clone, Copy, Debug, PartialEq, Eq, Structural)]
pub enum DecodeError {
    /// There are fewer bytes than a record has.
    Truncated,
    /// There are more bytes than a record has.
    Oversized,
}

/// The event that the first `record_len()` bytes stand for. All fields are little-endian,
/// the signed ones in two's complement.
pub open spec fn decoded(bytes: Seq<u8>) -> InputEvent {
    let w = word() as int;
    InputEvent {
        tv_sec: signed(le_value(bytes.subrange(0, w)), w as nat) as isize,
        tv_usec: signed(le_value(bytes.subrange(w, 2 * w)), w as nat) as isize,
        type_: le_value(bytes.subrange(2 * w, 2 * w + 2)) as u16,
        code: le_value(bytes.subrange(2 * w + 2, 2 * w + 4)) as u16,
        value: signed(le_value(bytes.subrange(2 * w + 4, 2 * w + 8)), 4) as i32,
    }
}

/// Bytes of a given number stand for a number below the radix of that number of bytes.
pub proof fn lemma_le_value_bound(bytes: Seq<u8>)
    ensures
        le_value(bytes) < radix(bytes.len()),
    decreases bytes.len(),
{
    if bytes.len() > 0 {
        lemma_le_value_bound(bytes.drop_first());
    }
}

/// The radix of two, four and eight bytes.
proof fn lemma_radix_values()
    ensures
        radix(2) == 0x1_0000,
        radix(4) == 0x1_0000_0000,
        radix(8) == 0x1_0000_0000_0000_0000,
{
    reveal_with_fuel(radix, 9);
}

/// A machine word has four or eight bytes, and `isize` holds what fits in them.
proof fn lemma_word()
    ensures
        word() == 4 || word() == 8,
        word() == 4 ==> isize::MIN == -0x8000_0000 && isize::MAX == 0x7fff_ffff,
        word() == 8 ==> isize::MIN == -0x8000_0000_0000_0000 && isize::MAX
            == 0x7fff_ffff_ffff_ffff,
{
    broadcast use vstd::layout::layout_of_primitives;
}

/// The number of bytes of an event record on this machine.
pub fn record_size() -> (n: usize)
    ensures
        n == record_len(),
        n == 16 || n == 24,
{
    broadcast use vstd::layout::layout_of_primitives;

    proof {
        lemma_word();
    }
    2 * core::mem::size_of::<isize>() + 8
}

impl InputEvent {
    /// Decodes the event record at the start of `buf`.
    pub fn new(buf: &[u8]) -> (r: Result<InputEvent, DecodeError>)
        ensures
            match r {
                Ok(event) => buf@.len() >= record_len() && event == decoded(buf@),
                Err(e) => buf@.len() < record_len() && e == DecodeError::Truncated,
            },
    {
        broadcast use vstd::layout::layout_of_primitives;

        let w = core::mem::size_of::<isize>();
        proof {
            lemma_word();
            lemma_radix_values();
        }
        if buf.len() < 2 * w + 8 {
            return Err(DecodeError::Truncated);
        }
        let sec_bytes = slice_subrange(buf, 0, w);
        let usec_bytes = slice_subrange(buf, w, 2 * w);
        let type_bytes = slice_subrange(buf, 2 * w, 2 * w + 2);
        let code_bytes = slice_subrange(buf, 2 * w + 2, 2 * w + 4);
        let value_bytes = slice_subrange(buf, 2 * w + 4, 2 * w + 8);
        proof {
            assert(sec_bytes@.take(w as int) =~= sec_bytes@);
            assert(usec_bytes@.take(w as int) =~= usec_bytes@);
            assert(type_bytes@.take(2) =~= type_bytes@);
            assert(code_bytes@.take(2) =~= code_bytes@);
            assert(value_bytes@.take(4) =~= value_bytes@);
            lemma_le_value_bound(sec_bytes@);
            lemma_le_value_bound(usec_bytes@);
        }
        let sec = le_int(sec_bytes, w);
        let usec = le_int(usec_bytes, w);
        Ok(
            InputEvent {
                tv_sec: sec as isize,
                tv_usec: usec as isize,
                type_: le_u16(type_bytes),
                code: le_u16(code_bytes),
                value: le_i32(value_bytes),
            },
        )
    }

    /// Whether the event reports the `Shift` key, left or right.
    pub fn is_shift(&self) -> (r: bool)
        ensures
            r == (key_of_code(self.code) == Key::Shift),
    {
        match self.as_enum() {
            Key::Shift => true,
            _ => false,
        }
    }

    /// Whether the event reports the `Ctrl` key, left or right.
    pub fn is_ctrl(&self) -> (r: bool)
        ensures
            r == (key_of_code(self.code) == Key::Ctrl),
    {
        match self.as_enum() {
            Key::Ctrl => true,
            _ => false,
        }
    }

    /// Whether the event reports the `Alt` key, left or right.
    pub fn is_alt(&self) -> (r: bool)
        ensures
            r == (key_of_code(self.code) == Key::Alt),
    {
        match self.as_enum() {
            Key::Alt => true,
            _ => false,
        }
    }

    /// Whether the event reports the `Super` key.
    pub fn is_super(&self) -> (r: bool)
        ensures
            r == (key_of_code(self.code) == Key::Super),
    {
        match self.as_enum() {
            Key::Super => true,
            _ => false,
        }
    }

    /// Whether the event reports a key at all.
    pub fn is_key_event(&self) -> (r: bool)
        ensures
            r == (self.type_ == KEY_EV),
    {
        self.type_ == KEY_EV
    }

    /// Whether the value of the event is that of a press. A repeat is no press.
    pub fn is_key_press(&self) -> (r: bool)
        ensures
            r == (self.value == KEY_PRESS),
    {
        self.value == KEY_PRESS
    }

    /// Whether the value of the event is that of a release. A repeat is no release.
    pub fn is_key_release(&self) -> (r: bool)
        ensures
            r == (self.value == KEY_RELEASE),
    {
        self.value == KEY_RELEASE
    }

    /// The key that the event reports.
    pub fn as_enum(&self) -> (key: Key)
        ensures
            key == key_of_code(self.code),
    {
        Key::from_code(self.code)
    }
}

/// The `n` bytes that stand for `value`, the lowest first.
pub open spec fn le_bytes(value: nat, n: nat) -> Seq<u8>
    decreases n,
{
    if n == 0 {
        seq![]
    } else {
        seq![(value % 256) as u8] + le_bytes(value / 256, (n - 1) as nat)
    }
}

/// The unsigned number of `n` bytes that stands for the signed `value` in two's complement.
pub open spec fn unsigned(value: int, n: nat) -> nat {
    if value < 0 {
        (value + radix(n)) as nat
    } else {
        value as nat
    }
}

/// The record that stands for an event.
pub open spec fn encoded(event: InputEvent) -> Seq<u8> {
    le_bytes(unsigned(event.tv_sec as int, word()), word()) + le_bytes(
        unsigned(event.tv_usec as int, word()),
        word(),
    ) + le_bytes(event.type_ as nat, 2) + le_bytes(event.code as nat, 2) + le_bytes(
        unsigned(event.value as int, 4),
        4,
    )
}

/// A number is written in as many bytes as were asked for.
pub proof fn lemma_le_bytes_len(value: nat, n: nat)
    ensures
        le_bytes(value, n).len() == n,
    decreases n,
{
    if n > 0 {
        lemma_le_bytes_len(value / 256, (n - 1) as nat);
    }
}

/// Reading the bytes that a number was written in gives the number back, where the number
/// fits in them.
pub proof fn lemma_le_value_of_bytes(value: nat, n: nat)
    requires
        value < radix(n),
    ensures
        le_value(le_bytes(value, n)) == value,
    decreases n,
{
    if n > 0 {
        let rest = le_bytes(value / 256, (n - 1) as nat);
        lemma_le_value_of_bytes(value / 256, (n - 1) as nat);
        assert(le_bytes(value, n).drop_first() =~= rest);
    }
}

/// Decoding the record of an event gives the event back, with every field as it was.
pub proof fn lemma_decode_encode(event: InputEvent)
    ensures
        encoded(event).len() == record_len(),
        decoded(encoded(event)) == event,
{
    lemma_word();
    lemma_radix_values();
    let w = word();
    let sec = le_bytes(unsigned(event.tv_sec as int, w), w);
    let usec = le_bytes(unsigned(event.tv_usec as int, w), w);
    let type_ = le_bytes(event.type_ as nat, 2);
    let code = le_bytes(event.code as nat, 2);
    let value = le_bytes(unsigned(event.value as int, 4), 4);
    lemma_le_bytes_len(unsigned(event.tv_sec as int, w), w);
    lemma_le_bytes_len(unsigned(event.tv_usec as int, w), w);
    lemma_le_bytes_len(event.type_ as nat, 2);
    lemma_le_bytes_len(event.code as nat, 2);
    lemma_le_bytes_len(unsigned(event.value as int, 4), 4);
    let bytes = encoded(event);
    let n = w as int;
    assert(bytes.subrange(0, n) =~= sec);
    assert(bytes.subrange(n, 2 * n) =~= usec);
    assert(bytes.subrange(2 * n, 2 * n + 2) =~= type_);
    assert(bytes.subrange(2 * n + 2, 2 * n + 4) =~= code);
    assert(bytes.subrange(2 * n + 4, 2 * n + 8) =~= value);
    lemma_le_value_of_bytes(unsigned(event.tv_sec as int, w), w);
    lemma_le_value_of_bytes(unsigned(event.tv_usec as int, w), w);
    lemma_le_value_of_bytes(event.type_ as nat, 2);
    lemma_le_value_of_bytes(event.code as nat, 2);
    lemma_le_value_of_bytes(unsigned(event.value as int, 4), 4);
}

/// The unsigned number of `n` bytes that stands for `value` in two's complement.
fn twos_complement(value: i64, n: usize) -> (r: u64)
    requires
        n == 4 || n == 8,
        -(radix(n as nat) as int) <= 2 * value < radix(n as nat),
    ensures
        r == unsigned(value as int, n as nat),
{
    proof {
        lemma_radix_values();
    }
    if value >= 0 {
        value as u64
    } else if n == 4 {
        (value + 0x1_0000_0000) as u64
    } else {
        (value as i128 + 0x1_0000_0000_0000_0000) as u64
    }
}

/// Appends the `n` bytes that stand for `value`, the lowest first.
fn push_le(bytes: &mut Vec<u8>, value: u64, n: usize)
    ensures
        final(bytes)@ == old(bytes)@ + le_bytes(value as nat, n as nat),
{
    let mut rest: u64 = value;
    let mut i: usize = 0;
    assert(bytes@ + le_bytes(rest as nat, n as nat) =~= old(bytes)@ + le_bytes(
        value as nat,
        n as nat,
    ));
    while i < n
        invariant
            i <= n,
            bytes@ + le_bytes(rest as nat, (n - i) as nat) == old(bytes)@ + le_bytes(
                value as nat,
                n as nat,
            ),
        decreases n - i,
    {
        let ghost before = bytes@;
        bytes.push((rest % 256) as u8);
        assert(bytes@ + le_bytes((rest / 256) as nat, (n - i - 1) as nat) =~= before + le_bytes(
            rest as nat,
            (n - i) as nat,
        ));
        rest = rest / 256;
        i += 1;
    }
    assert(bytes@ + le_bytes(rest as nat, 0) =~= bytes@);
}

impl InputEvent {
    /// The record that stands for the event: decoding it gives the event back.
    pub fn to_bytes(&self) -> (bytes: Vec<u8>)
        ensures
            bytes@ == encoded(*self),
            bytes@.len() == record_len(),
            decoded(bytes@) == *self,
    {
        broadcast use vstd::layout::layout_of_primitives;

        let w = core::mem::size_of::<isize>();
        proof {
            lemma_word();
            lemma_radix_values();
            lemma_decode_encode(*self);
        }
        let mut bytes: Vec<u8> = Vec::new();
        push_le(&mut bytes, twos_complement(self.tv_sec as i64, w), w);
        push_le(&mut bytes, twos_complement(self.tv_usec as i64, w), w);
        push_le(&mut bytes, self.type_ as u64, 2);
        push_le(&mut bytes, self.code as u64, 2);
        push_le(&mut bytes, twos_complement(self.value as i64, 4), 4);
        assert(bytes@ =~= encoded(*self));
        bytes
    }
}

/// What a line of a device block begins with when it gives the name of the device.
pub open spec fn name_prefix() -> Seq<char> {
    "N: Name=\""@
}

/// The line by which a device block says that the device reports every kind of event that
/// a keyboard reports: the field of the event kinds, with the keyboard's value.
pub open spec fn ev_line() -> Seq<char> {
    "B: EV=120013"@
}

/// Whether a device block describes a keyboard: one of its lines is the field of the event
/// kinds with the keyboard's value. The same digits in another field, in the name or as part
/// of another value, do not count.
pub open spec fn advertises_keyboard(block: Seq<char>) -> bool {
    split(block, Sep::Text(seq!['\n'])).contains(ev_line())
}

/// The name that a name line gives: what stands between the prefix and the last character of
/// the line, which closes the quotation.
pub open spec fn name_in_line(line: Seq<char>) -> Seq<char> {
    let from = name_prefix().len() as int;
    if line.len() > from {
        line.subrange(from, line.len() - 1)
    } else {
        seq![]
    }
}

/// The name that lines give: that of the last name line among them, and the empty name where
/// there is none.
pub open spec fn name_among(lines: Seq<Seq<char>>) -> Seq<char>
    decreases lines.len(),
{
    if lines.len() == 0 {
        seq![]
    } else if starts_with(lines.last(), name_prefix()) {
        name_in_line(lines.last())
    } else {
        name_among(lines.drop_last())
    }
}

/// The name of the device that a block of the registry describes.
pub open spec fn device_name(block: Seq<char>) -> Seq<char> {
    name_among(split(block, Sep::Text(seq!['\n'])))
}

/// The names of the keyboards among blocks, in the order of the blocks.
pub open spec fn keyboard_names(blocks: Seq<Seq<char>>) -> Seq<Seq<char>>
    decreases blocks.len(),
{
    if blocks.len() == 0 {
        seq![]
    } else if advertises_keyboard(blocks.last()) {
        keyboard_names(blocks.drop_last()).push(device_name(blocks.last()))
    } else {
        keyboard_names(blocks.drop_last())
    }
}

/// The names of the keyboards that the text of a device registry describes. An empty line
/// parts two blocks.
pub open spec fn keyboards_in(registry: Seq<char>) -> Seq<Seq<char>> {
    keyboard_names(split(registry, Sep::Text("\n\n"@)))
}

/// What the name of a device file of the keyboard `name` begins with: `usb-` and the name,
/// with `_` for each space.
pub open spec fn link_prefix(name: Seq<char>) -> Seq<char> {
    "usb-"@ + Seq::new(
        name.len(),
        |i: int| if name[i] == ' ' {
            '_'
        } else {
            name[i]
        },
    )
}

/// Those of `entries` that begin with `prefix`, in their order.
pub open spec fn beginning_with(entries: Seq<Seq<char>>, prefix: Seq<char>) -> Seq<Seq<char>>
    decreases entries.len(),
{
    if entries.len() == 0 {
        seq![]
    } else if starts_with(entries.last(), prefix) {
        beginning_with(entries.drop_last(), prefix).push(entries.last())
    } else {
        beginning_with(entries.drop_last(), prefix)
    }
}

/// The names that a sequence of keyboards holds.
pub open spec fn names(keyboards: Seq<Keyboard>) -> Seq<Seq<char>> {
    Seq::new(keyboards.len(), |i: int| keyboards[i].name@)
}

/// A keyboard, as the device registry names it.
#[derive(Debug, PartialEq, Eq)]
pub struct Keyboard {
    pub name: String,
}

impl Keyboard {
    /// The keyboard that a block of the device registry describes.
    pub fn new(inp: &str) -> (keyboard: Keyboard)
        ensures
            keyboard.name@ == device_name(inp@),
    {
        let chars = chars_of(inp);
        Keyboard::of_block(chars.as_slice())
    }

    fn of_block(block: &[char]) -> (keyboard: Keyboard)
        ensures
            keyboard.name@ == device_name(block@),
    {
        let prefix = chars_of("N: Name=\"");
        let lines = split_text(block, &Separator::of_char('\n'));
        let mut name = String::new();
        let mut i: usize = 0;
        while i < lines.len()
            invariant
                i <= lines.len(),
                prefix@ == name_prefix(),
                name@ == name_among(texts(lines@).take(i as int)),
            decreases lines.len() - i,
        {
            assert(texts(lines@).take(i + 1).drop_last() =~= texts(lines@).take(i as int));
            let line = lines[i].as_slice();
            if begins_with(line, prefix.as_slice()) {
                if line.len() > prefix.len() {
                    name = string_of(slice_subrange(line, prefix.len(), line.len() - 1));
                } else {
                    name = String::new();
                }
            }
            i += 1;
        }
        assert(texts(lines@).take(i as int) =~= texts(lines@));
        Keyboard { name }
    }

    /// Those of the names `entries` of a device directory that belong to this keyboard.
    pub fn handlers(&self, entries: &Vec<String>) -> (found: Vec<String>)
        ensures
            strings(found@) == beginning_with(strings(entries@), link_prefix(self.name@)),
    {
        let mut prefix = chars_of("usb-");
        let name = chars_of(self.name.as_str());
        let mut k: usize = 0;
        while k < name.len()
            invariant
                k <= name.len(),
                name@ == self.name@,
                prefix@ == link_prefix(name@.take(k as int)),
            decreases name.len() - k,
        {
            let ghost before = prefix@;
            if name[k] == ' ' {
                prefix.push('_');
            } else {
                prefix.push(name[k]);
            }
            assert(prefix@ =~= link_prefix(name@.take(k + 1)));
            k += 1;
        }
        assert(name@.take(k as int) =~= name@);
        let mut found: Vec<String> = Vec::new();
        let mut i: usize = 0;
        while i < entries.len()
            invariant
                i <= entries.len(),
                prefix@ == link_prefix(self.name@),
                strings(found@) == beginning_with(strings(entries@).take(i as int), prefix@),
            decreases entries.len() - i,
        {
            assert(strings(entries@).take(i + 1).drop_last() =~= strings(entries@).take(i as int));
            let entry = chars_of(entries[i].as_str());
            if begins_with(entry.as_slice(), prefix.as_slice()) {
                let ghost before = found@;
                found.push(entries[i].clone());
                assert(strings(found@) =~= strings(before).push(entries@[i as int]@));
            }
            i += 1;
        }
        assert(strings(entries@).take(i as int) =~= strings(entries@));
        found
    }
}

/// Whether a device block describes a keyboard.
fn is_keyboard_block(block: &[char]) -> (r: bool)
    ensures
        r == advertises_keyboard(block@),
{
    let wanted = chars_of("B: EV=120013");
    let lines = split_text(block, &Separator::of_char('\n'));
    let mut i: usize = 0;
    while i < lines.len()
        invariant
            i <= lines.len(),
            wanted@ == ev_line(),
            texts(lines@) == split(block@, Sep::Text(seq!['\n'])),
            forall|j: int| 0 <= j < i ==> texts(lines@)[j] != ev_line(),
        decreases lines.len() - i,
    {
        if same_chars(lines[i].as_slice(), wanted.as_slice()) {
            assert(texts(lines@)[i as int] == ev_line());
            return true;
        }
        i += 1;
    }
    false
}

/// The keyboards that the text of the device registry describes, in its order: one for
/// each block that says that its device reports what a keyboard reports.
pub fn read_input_devices(device_list: &str) -> (keyboards: Vec<Keyboard>)
    ensures
        names(keyboards@) == keyboards_in(device_list@),
{
    let chars = chars_of(device_list);
    let blocks = split_text(chars.as_slice(), &Separator::of_text("\n\n"));
    let mut keyboards: Vec<Keyboard> = Vec::new();
    let mut i: usize = 0;
    while i < blocks.len()
        invariant
            i <= blocks.len(),
            names(keyboards@) == keyboard_names(texts(blocks@).take(i as int)),
        decreases blocks.len() - i,
    {
        assert(texts(blocks@).take(i + 1).drop_last() =~= texts(blocks@).take(i as int));
        let block = blocks[i].as_slice();
        if is_keyboard_block(block) {
            let ghost before = keyboards@;
            keyboards.push(Keyboard::of_block(block));
            assert(names(keyboards@) =~= names(before).push(device_name(block@)));
        }
        i += 1;
    }
    assert(texts(blocks@).take(i as int) =~= texts(blocks@));
    keyboards
}

} // verus!
