//! The keyboard map: from key names and characters to key events.

use vstd::prelude::*;

use crate::error;
use crate::error::{error2, ControllerError, ErrorCode};
use crate::text;

verus! {

/// A key of the keyboard map, and the modifiers under which it gives its symbol.
#[derive(Debug, Clone, Copy, PartialEq, Eq, Structural)]
pub struct KeyStroke {
    pub keycode: u8,
    pub shift: bool,
    pub mode_switch: bool,
}

/// The keyboard map of the display.
///
/// `keysyms` holds `keysyms_per_keycode` symbols for each keycode from
/// `first_keycode` on, and `modifier_keycodes` holds `keycodes_per_modifier`
/// keycodes for each modifier.
#[derive(Debug)]
pub struct KeyboardMap {
    pub first_keycode: u8,
    pub keysyms_per_keycode: u8,
    pub keysyms: Vec<u32>,
    pub keycodes_per_modifier: u8,
    pub modifier_keycodes: Vec<u8>,
}

/// Why a key cannot be used.
pub type KeyError = (ErrorCode, Seq<char>);

pub const XK_SHIFT_L: u32 = 0xffe1;

pub const XK_MODE_SWITCH: u32 = 0xff7e;

/// The keysym of a character: Latin-1 as it is, all else in the Unicode range.
pub open spec fn keysym_of(character: char) -> int {
    if character as int <= 0xff {
        character as int
    } else {
        0x0100_0000 + character as int
    }
}

/// The keysym of a character.
pub fn char_to_keysym(character: char) -> (keysym: u32)
    ensures
        keysym == keysym_of(character),
{
    let value: u32 = character as u32;
    if value <= 0xff {
        value
    } else {
        assert(value <= 0x10_ffff ==> 0x0100_0000u32 | value == 0x0100_0000 + value) by (bit_vector);
        0x0100_0000 | value
    }
}

/// Different characters have different keysyms.
pub proof fn keysyms_are_distinct(first: char, second: char)
    requires
        keysym_of(first) == keysym_of(second),
    ensures
        first == second,
{
}

/// The keys that have names, with their keysyms.
pub open spec fn keysym_table() -> Seq<(Seq<char>, u32)> {
    seq![
        ("BACKSPACE"@, 0xff08u32),
        ("TAB"@, 0xff09u32),
        ("ENTER"@, 0xff0du32),
        ("RETURN"@, 0xff0du32),
        ("ESC"@, 0xff1bu32),
        ("ESCAPE"@, 0xff1bu32),
        ("HOME"@, 0xff50u32),
        ("LEFT"@, 0xff51u32),
        ("UP"@, 0xff52u32),
        ("RIGHT"@, 0xff53u32),
        ("DOWN"@, 0xff54u32),
        ("PAGE_UP"@, 0xff55u32),
        ("PAGEUP"@, 0xff55u32),
        ("PAGE_DOWN"@, 0xff56u32),
        ("PAGEDOWN"@, 0xff56u32),
        ("END"@, 0xff57u32),
        ("INSERT"@, 0xff63u32),
        ("DELETE"@, 0xffffu32),
        ("SPACE"@, 0x20u32),
        ("SHIFT"@, 0xffe1u32),
        ("CTRL"@, 0xffe3u32),
        ("CONTROL"@, 0xffe3u32),
        ("ALT"@, 0xffe9u32),
        ("META"@, 0xffe7u32),
        ("SUPER"@, 0xffebu32),
        ("F1"@, 0xffbeu32),
        ("F2"@, 0xffbfu32),
        ("F3"@, 0xffc0u32),
        ("F4"@, 0xffc1u32),
        ("F5"@, 0xffc2u32),
        ("F6"@, 0xffc3u32),
        ("F7"@, 0xffc4u32),
        ("F8"@, 0xffc5u32),
        ("F9"@, 0xffc6u32),
        ("F10"@, 0xffc7u32),
        ("F11"@, 0xffc8u32),
        ("F12"@, 0xffc9u32),
    ]
}

/// The keys that have names, with their keysyms.
pub fn named_keysyms() -> (keys: Vec<(&'static str, u32)>)
    ensures
        keys@.len() == keysym_table().len(),
        forall|i: int|
            0 <= i < keys@.len() ==> (#[trigger] keys@[i]).0@ == keysym_table()[i].0 && keys@[i].1
                == keysym_table()[i].1,
{
    vec![
        ("BACKSPACE", 0xff08),
        ("TAB", 0xff09),
        ("ENTER", 0xff0d),
        ("RETURN", 0xff0d),
        ("ESC", 0xff1b),
        ("ESCAPE", 0xff1b),
        ("HOME", 0xff50),
        ("LEFT", 0xff51),
        ("UP", 0xff52),
        ("RIGHT", 0xff53),
        ("DOWN", 0xff54),
        ("PAGE_UP", 0xff55),
        ("PAGEUP", 0xff55),
        ("PAGE_DOWN", 0xff56),
        ("PAGEDOWN", 0xff56),
        ("END", 0xff57),
        ("INSERT", 0xff63),
        ("DELETE", 0xffff),
        ("SPACE", 0x20),
        ("SHIFT", 0xffe1),
        ("CTRL", 0xffe3),
        ("CONTROL", 0xffe3),
        ("ALT", 0xffe9),
        ("META", 0xffe7),
        ("SUPER", 0xffeb),
        ("F1", 0xffbe),
        ("F2", 0xffbf),
        ("F3", 0xffc0),
        ("F4", 0xffc1),
        ("F5", 0xffc2),
        ("F6", 0xffc3),
        ("F7", 0xffc4),
        ("F8", 0xffc5),
        ("F9", 0xffc6),
        ("F10", 0xffc7),
        ("F11", 0xffc8),
        ("F12", 0xffc9),
    ]
}

/// The keysym that a table gives for a name, from a place on.
pub open spec fn table_keysym(table: Seq<(Seq<char>, u32)>, name: Seq<char>, from: int) -> Option<
    u32,
>
    decreases table.len() - from,
{
    if from >= table.len() {
        None
    } else if table[from].0 == name {
        Some(table[from].1)
    } else {
        table_keysym(table, name, from + 1)
    }
}

/// A key name as the table has it: upper case, without surrounding white
/// space, and with underscores for dashes and spaces.
pub open spec fn table_name(name: Seq<char>) -> Seq<char> {
    text::replaced(text::replaced(text::uppercase(text::trimmed(name)), '-', '_'), ' ', '_')
}

/// The keysym that a key name means: that of the table, else that of the one
/// character of the name, where an ASCII letter means its lower case.
pub open spec fn name_keysym(name: Seq<char>) -> Option<int> {
    match table_keysym(keysym_table(), table_name(name), 0) {
        Some(keysym) => Some(keysym as int),
        None => if name.len() == 1 {
            Some(keysym_of(text::ascii_lower(name[0])))
        } else {
            None
        },
    }
}

/// The first column of a keycode that has a keysym, of the four that strokes reach.
pub open spec fn column_from(symbols: Seq<u32>, keysym: u32, from: int) -> Option<int>
    decreases 4 - from,
{
    if from >= 4 || from >= symbols.len() {
        None
    } else if symbols[from] == keysym {
        Some(from)
    } else {
        column_from(symbols, keysym, from + 1)
    }
}

impl KeyboardMap {
    /// The symbols of the keycode at a place of the map.
    pub open spec fn symbols(&self, index: int) -> Seq<u32> {
        let per = self.keysyms_per_keycode as int;
        let end = if (index + 1) * per < self.keysyms@.len() {
            (index + 1) * per
        } else {
            self.keysyms@.len() as int
        };
        self.keysyms@.subrange(index * per, end)
    }

    /// The first stroke that gives a keysym, from a place of the map on.
    pub open spec fn stroke_from(&self, keysym: u32, index: int) -> Option<KeyStroke>
        decreases 256 - index,
    {
        if index >= 256 || index * self.keysyms_per_keycode >= self.keysyms@.len() {
            None
        } else {
            match column_from(self.symbols(index), keysym, 0) {
                Some(column) => if self.first_keycode + index <= 255 {
                    Some(
                        KeyStroke {
                            keycode: (self.first_keycode + index) as u8,
                            shift: column % 2 == 1,
                            mode_switch: column >= 2,
                        },
                    )
                } else {
                    None
                },
                None => self.stroke_from(keysym, index + 1),
            }
        }
    }

    /// The stroke that gives a keysym.
    pub open spec fn stroke_of(&self, keysym: u32) -> Option<KeyStroke> {
        if self.keysyms_per_keycode == 0 {
            None
        } else {
            self.stroke_from(keysym, 0)
        }
    }

    /// The first keycode of a modifier, if the map lists its keycodes.
    pub open spec fn modifier(&self, index: int) -> Option<u8> {
        let per = self.keycodes_per_modifier as int;
        if (index + 1) * per > self.modifier_keycodes@.len() {
            None
        } else {
            first_used(self.modifier_keycodes@.subrange(index * per, (index + 1) * per), 0)
        }
    }

    /// The stroke for a key name, or why there is none.
    pub open spec fn named(&self, name: Seq<char>) -> Result<KeyStroke, KeyError> {
        match name_keysym(name) {
            None => Err((ErrorCode::InvalidInput, "unknown key name: "@ + name)),
            Some(keysym) => match self.stroke_of(keysym as u32) {
                None => Err(
                    (
                        ErrorCode::UnsupportedCapability,
                        "key is not present in the active keyboard map: "@ + name,
                    ),
                ),
                Some(stroke) => Ok(stroke),
            },
        }
    }

    /// The keycode of Shift.
    pub open spec fn shift_key(&self) -> Result<u8, KeyError> {
        match self.modifier(0) {
            Some(keycode) => Ok(keycode),
            None => match self.stroke_of(XK_SHIFT_L) {
                Some(stroke) => Ok(stroke.keycode),
                None => Err((ErrorCode::UnsupportedCapability, "no Shift key in keymap"@)),
            },
        }
    }

    /// The keycode of the modifier for the third level.
    pub open spec fn mode_switch_key(&self) -> Result<u8, KeyError> {
        match self.stroke_of(XK_MODE_SWITCH) {
            Some(stroke) => Ok(stroke.keycode),
            None => match self.modifier(7) {
                Some(keycode) => Ok(keycode),
                None => Err(
                    (ErrorCode::UnsupportedCapability, "no level-three modifier in keymap"@),
                ),
            },
        }
    }

    /// The strokes that type a text, where each character has one.
    pub open spec fn strokes(&self, text: Seq<char>) -> Option<Seq<KeyStroke>>
        decreases text.len(),
    {
        if text.len() == 0 {
            Some(Seq::empty())
        } else {
            match (self.strokes(text.drop_last()), self.stroke_of(keysym_of(text.last()) as u32)) {
                (Some(strokes), Some(stroke)) => Some(strokes.push(stroke)),
                _ => None,
            }
        }
    }

    /// The keycodes of a chord with one more key: its modifiers come before it.
    pub open spec fn chord_step(&self, codes: Seq<u8>, name: Seq<char>) -> Result<
        Seq<u8>,
        KeyError,
    > {
        match self.named(name) {
            Err(e) => Err(e),
            Ok(stroke) => if stroke.mode_switch && self.mode_switch_key() is Err {
                Err(self.mode_switch_key()->Err_0)
            } else {
                let moded = if stroke.mode_switch {
                    with_unique(codes, self.mode_switch_key()->Ok_0)
                } else {
                    codes
                };
                if stroke.shift && self.shift_key() is Err {
                    Err(self.shift_key()->Err_0)
                } else {
                    let shifted = if stroke.shift {
                        with_unique(moded, self.shift_key()->Ok_0)
                    } else {
                        moded
                    };
                    Ok(with_unique(shifted, stroke.keycode))
                }
            },
        }
    }

    /// The keycodes of a chord in the order in which they go down, or why it
    /// cannot be given.
    pub open spec fn chord(&self, names: Seq<Seq<char>>) -> Result<Seq<u8>, KeyError>
        decreases names.len(),
    {
        if names.len() == 0 {
            Ok(Seq::empty())
        } else {
            match self.chord(names.drop_last()) {
                Err(e) => Err(e),
                Ok(codes) => self.chord_step(codes, names.last()),
            }
        }
    }
}

/// The first keycode of a list that is not zero, from a place on.
pub open spec fn first_used(codes: Seq<u8>, from: int) -> Option<u8>
    decreases codes.len() - from,
{
    if from >= codes.len() {
        None
    } else if codes[from] != 0 {
        Some(codes[from])
    } else {
        first_used(codes, from + 1)
    }
}

/// A list with a value at its end, unless the list has the value.
pub open spec fn with_unique(values: Seq<u8>, value: u8) -> Seq<u8> {
    if values.contains(value) {
        values
    } else {
        values.push(value)
    }
}

/// Whether a result is the one that a specification names.
pub open spec fn key_result<T>(
    result: Result<T, ControllerError>,
    expected: Result<T, KeyError>,
) -> bool {
    match (result, expected) {
        (Ok(value), Ok(wanted)) => value == wanted,
        (Err(e), Err((code, message))) => error::final_error(e, code, message),
        _ => false,
    }
}

/// Adds a value to a list that does not have it.
pub fn push_unique(values: &mut Vec<u8>, value: u8)
    ensures
        final(values)@ == with_unique(old(values)@, value),
{
    let mut at: usize = 0;
    while at < values.len()
        invariant
            at <= values.len(),
            *values == *old(values),
            forall|i: int| 0 <= i < at ==> values@[i] != value,
        decreases values.len() - at,
    {
        if values[at] == value {
            assert(values@.contains(value));
            return;
        }
        at += 1;
    }
    values.push(value);
}

impl KeyboardMap {
    /// The stroke that gives a keysym.
    pub fn find(&self, keysym: u32) -> (stroke: Option<KeyStroke>)
        ensures
            stroke == self.stroke_of(keysym),
    {
        let per: usize = self.keysyms_per_keycode as usize;
        if per == 0 {
            return None;
        }
        let count: usize = self.keysyms.len();
        let mut index: usize = 0;
        let mut start: usize = 0;
        while start < count && index < 256
            invariant
                index <= 256,
                per == self.keysyms_per_keycode,
                per > 0,
                count == self.keysyms@.len(),
                start == index * per || (start == count && start <= index * per),
                start <= count,
                self.stroke_of(keysym) == self.stroke_from(keysym, index as int),
            decreases 256 - index,
        {
            let end: usize = if count - start < per {
                count
            } else {
                start + per
            };
            assert((index + 1) * per == index * per + per) by (nonlinear_arith);
            let ghost symbols = self.symbols(index as int);
            assert(symbols =~= self.keysyms@.subrange(start as int, end as int));
            let mut column: usize = 0;
            while column < 4 && start + column < end
                invariant
                    column <= 4,
                    start <= end <= count,
                    start + column <= end,
                    count == self.keysyms@.len(),
                    symbols == self.symbols(index as int),
                    symbols == self.keysyms@.subrange(start as int, end as int),
                    index < 256,
                    start < count,
                    start == index * per,
                    per == self.keysyms_per_keycode,
                    per > 0,
                    column_from(symbols, keysym, 0) == column_from(symbols, keysym, column as int),
                    self.stroke_of(keysym) == self.stroke_from(keysym, index as int),
                decreases 4 - column,
            {
                if self.keysyms[start + column] == keysym {
                    assert(symbols[column as int] == keysym);
                    let keycode: usize = self.first_keycode as usize + index;
                    return if keycode <= 255 {
                        Some(
                            KeyStroke {
                                keycode: keycode as u8,
                                shift: column % 2 == 1,
                                mode_switch: column >= 2,
                            },
                        )
                    } else {
                        None
                    };
                }
                column += 1;
            }
            start = end;
            index += 1;
        }
        None
    }

    /// The first keycode of a modifier.
    pub fn modifier_keycode(&self, modifier_index: usize) -> (keycode: Option<u8>)
        ensures
            keycode == self.modifier(modifier_index as int),
    {
        let per: usize = self.keycodes_per_modifier as usize;
        let count: usize = self.modifier_keycodes.len();
        assert((modifier_index + 1) * per == modifier_index * per + per) by (nonlinear_arith);
        assert(0 <= modifier_index * per) by (nonlinear_arith);
        let start: usize = match modifier_index.checked_mul(per) {
            Some(start) => start,
            None => {
                return None;
            },
        };
        let end: usize = match start.checked_add(per) {
            Some(end) => end,
            None => {
                return None;
            },
        };
        if end > count {
            return None;
        }
        let ghost codes = self.modifier_keycodes@.subrange(start as int, end as int);
        let mut at: usize = start;
        while at < end
            invariant
                start <= at <= end <= self.modifier_keycodes@.len(),
                codes == self.modifier_keycodes@.subrange(start as int, end as int),
                self.modifier(modifier_index as int) == first_used(codes, at - start),
            decreases end - at,
        {
            assert(codes[at - start] == self.modifier_keycodes@[at as int]);
            if self.modifier_keycodes[at] != 0 {
                return Some(self.modifier_keycodes[at]);
            }
            at += 1;
        }
        None
    }

    /// The stroke for a key name.
    pub fn named_key(&self, name: &str) -> (result: Result<KeyStroke, ControllerError>)
        ensures
            key_result(result, self.named(name@)),
    {
        let upper = text::to_uppercase(text::trim(name).as_str());
        let dashed = text::replace_char(upper.as_str(), '-', '_');
        let normalized = text::replace_char(dashed.as_str(), ' ', '_');
        let table = named_keysyms();
        let mut keysym: Option<u32> = None;
        let mut at: usize = 0;
        while at < table.len()
            invariant_except_break
                at <= table.len(),
                keysym is None,
                table_keysym(keysym_table(), normalized@, 0) == table_keysym(
                    keysym_table(),
                    normalized@,
                    at as int,
                ),
            invariant
                table@.len() == keysym_table().len(),
                forall|i: int|
                    0 <= i < table@.len() ==> (#[trigger] table@[i]).0@ == keysym_table()[i].0
                        && table@[i].1 == keysym_table()[i].1,
            ensures
                keysym == table_keysym(keysym_table(), normalized@, 0),
            decreases table.len() - at,
        {
            let entry = table[at];
            if text::same_text(entry.0, normalized.as_str()) {
                keysym = Some(entry.1);
                break;
            }
            at += 1;
        }
        let keysym = match keysym {
            Some(keysym) => keysym,
            None => {
                let characters = text::to_chars(name);
                if characters.len() != 1 {
                    return Err(error2(ErrorCode::InvalidInput, "unknown key name: ", name));
                }
                char_to_keysym(text::to_ascii_lower(characters[0]))
            },
        };
        match self.find(keysym) {
            Some(stroke) => Ok(stroke),
            None => Err(
                error2(
                    ErrorCode::UnsupportedCapability,
                    "key is not present in the active keyboard map: ",
                    name,
                ),
            ),
        }
    }

    /// The keycode of Shift.
    pub fn shift_keycode(&self) -> (result: Result<u8, ControllerError>)
        ensures
            key_result(result, self.shift_key()),
    {
        if let Some(keycode) = self.modifier_keycode(0) {
            return Ok(keycode);
        }
        match self.find(XK_SHIFT_L) {
            Some(stroke) => Ok(stroke.keycode),
            None => Err(
                ControllerError::new(ErrorCode::UnsupportedCapability, "no Shift key in keymap"),
            ),
        }
    }

    /// The keycode of the modifier for the third level.
    pub fn mode_switch_keycode(&self) -> (result: Result<u8, ControllerError>)
        ensures
            key_result(result, self.mode_switch_key()),
    {
        if let Some(stroke) = self.find(XK_MODE_SWITCH) {
            return Ok(stroke.keycode);
        }
        match self.modifier_keycode(7) {
            Some(keycode) => Ok(keycode),
            None => Err(
                ControllerError::new(
                    ErrorCode::UnsupportedCapability,
                    "no level-three modifier in keymap",
                ),
            ),
        }
    }

    /// The stroke that types a character.
    pub fn for_char(&self, character: char) -> (stroke: Option<KeyStroke>)
        ensures
            stroke == self.stroke_of(keysym_of(character) as u32),
    {
        self.find(char_to_keysym(character))
    }

    /// The strokes that type a text, where each character has one.
    pub fn text_strokes(&self, text: &str) -> (strokes: Option<Vec<KeyStroke>>)
        ensures
            match (strokes, self.strokes(text@)) {
                (Some(found), Some(expected)) => found@ == expected,
                (None, None) => true,
                _ => false,
            },
    {
        let characters = text::to_chars(text);
        let mut strokes: Vec<KeyStroke> = Vec::new();
        let mut at: usize = 0;
        while at < characters.len()
            invariant
                at <= characters.len(),
                characters@ == text@,
                self.strokes(text@.take(at as int)) == Some(strokes@),
            decreases characters.len() - at,
        {
            let ghost next = text@.take(at + 1);
            assert(next.drop_last() =~= text@.take(at as int));
            match self.for_char(characters[at]) {
                Some(stroke) => {
                    strokes.push(stroke);
                },
                None => {
                    proof {
                        self.lemma_no_strokes(text@, at + 1);
                    }
                    return None;
                },
            }
            at += 1;
        }
        assert(text@.take(text@.len() as int) =~= text@);
        Some(strokes)
    }

    /// A text has no strokes where a part at its start has none.
    proof fn lemma_no_strokes(&self, text: Seq<char>, end: int)
        requires
            0 <= end <= text.len(),
            self.strokes(text.take(end)) is None,
        ensures
            self.strokes(text) is None,
        decreases text.len() - end,
    {
        if end == text.len() {
            assert(text.take(end) =~= text);
        } else {
            assert(text.take(end + 1).drop_last() =~= text.take(end));
            self.lemma_no_strokes(text, end + 1);
        }
    }

    /// The keycodes of a chord in the order in which they go down.
    pub fn chord_keycodes(&self, names: &Vec<String>) -> (result: Result<Vec<u8>, ControllerError>)
        ensures
            match (result, self.chord(text::texts(names@))) {
                (Ok(codes), Ok(expected)) => codes@ == expected,
                (Err(e), Err((code, message))) => error::final_error(e, code, message),
                _ => false,
            },
    {
        let mut codes: Vec<u8> = Vec::new();
        let mut at: usize = 0;
        let ghost all = text::texts(names@);
        while at < names.len()
            invariant
                at <= names.len(),
                all == text::texts(names@),
                self.chord(all.take(at as int)) == Ok::<Seq<u8>, KeyError>(codes@),
            decreases names.len() - at,
        {
            let ghost before = codes@;
            assert(all.take(at + 1).drop_last() =~= all.take(at as int));
            assert(all.take(at + 1).last() == names@[at as int]@);
            proof {
                if self.chord_step(before, names@[at as int]@) is Err {
                    self.lemma_chord_fails(all, at + 1);
                }
            }
            let stroke = match self.named_key(names[at].as_str()) {
                Ok(stroke) => stroke,
                Err(e) => {
                    return Err(e);
                },
            };
            if stroke.mode_switch {
                match self.mode_switch_keycode() {
                    Ok(keycode) => {
                        push_unique(&mut codes, keycode);
                    },
                    Err(e) => {
                        return Err(e);
                    },
                }
            }
            if stroke.shift {
                match self.shift_keycode() {
                    Ok(keycode) => {
                        push_unique(&mut codes, keycode);
                    },
                    Err(e) => {
                        return Err(e);
                    },
                }
            }
            push_unique(&mut codes, stroke.keycode);
            at += 1;
        }
        assert(all.take(all.len() as int) =~= all);
        Ok(codes)
    }

    /// A chord fails where a part at its start fails, and in the same way.
    proof fn lemma_chord_fails(&self, names: Seq<Seq<char>>, end: int)
        requires
            0 <= end <= names.len(),
            self.chord(names.take(end)) is Err,
        ensures
            self.chord(names) == self.chord(names.take(end)),
        decreases names.len() - end,
    {
        if end == names.len() {
            assert(names.take(end) =~= names);
        } else {
            assert(names.take(end + 1).drop_last() =~= names.take(end));
            self.lemma_chord_fails(names, end + 1);
        }
    }

    /// No key goes down twice in a chord.
    pub proof fn chord_has_no_repeats(&self, names: Seq<Seq<char>>)
        ensures
            self.chord(names) matches Ok(codes) ==> codes.no_duplicates(),
        decreases names.len(),
    {
        if names.len() > 0 {
            self.chord_has_no_repeats(names.drop_last());
        }
    }
}

/// A key that goes down or up.
#[derive(Debug, Clone, Copy, PartialEq, Eq, Structural)]
pub struct KeyEvent {
    pub keycode: u8,
    pub pressed: bool,
}

/// The keys that are down after some events.
pub open spec fn keys_down(down: Set<u8>, events: Seq<KeyEvent>) -> Set<u8>
    decreases events.len(),
{
    if events.len() == 0 {
        down
    } else {
        let before = keys_down(down, events.drop_last());
        if events.last().pressed {
            before.insert(events.last().keycode)
        } else {
            before.remove(events.last().keycode)
        }
    }
}

/// Keys that go down, in this order.
pub open spec fn presses(codes: Seq<u8>) -> Seq<KeyEvent> {
    codes.map_values(|keycode: u8| KeyEvent { keycode, pressed: true })
}

/// Keys that go up, in reverse order.
pub open spec fn releases(codes: Seq<u8>) -> Seq<KeyEvent> {
    codes.reverse().map_values(|keycode: u8| KeyEvent { keycode, pressed: false })
}

/// A chord that is pressed and released.
pub open spec fn tap(codes: Seq<u8>) -> Seq<KeyEvent> {
    presses(codes) + releases(codes)
}

/// Events in turn change the keys that are down in turn.
proof fn lemma_keys_down_concat(down: Set<u8>, first: Seq<KeyEvent>, second: Seq<KeyEvent>)
    ensures
        keys_down(down, first + second) == keys_down(keys_down(down, first), second),
    decreases second.len(),
{
    if second.len() == 0 {
        assert(first + second =~= first);
    } else {
        assert((first + second).drop_last() =~= first + second.drop_last());
        lemma_keys_down_concat(down, first, second.drop_last());
    }
}

/// Which keys are down after presses.
proof fn lemma_presses(down: Set<u8>, codes: Seq<u8>, key: u8)
    ensures
        keys_down(down, presses(codes)).contains(key) <==> down.contains(key) || codes.contains(
            key,
        ),
    decreases codes.len(),
{
    if codes.len() > 0 {
        let events = presses(codes);
        assert(events.drop_last() =~= presses(codes.drop_last()));
        lemma_presses(down, codes.drop_last(), key);
        assert(codes.contains(key) <==> codes.drop_last().contains(key) || codes.last() == key) by {
            assert(codes =~= codes.drop_last().push(codes.last()));
            if codes.drop_last().contains(key) {
                let i = codes.drop_last().index_of(key);
                assert(codes[i] == key);
            }
            if codes.last() == key {
                assert(codes[codes.len() - 1] == key);
            }
            if codes.contains(key) && codes.last() != key {
                let i = codes.index_of(key);
                assert(codes.drop_last()[i] == key);
            }
        }
    }
}

/// Which keys are down after releases.
proof fn lemma_releases(down: Set<u8>, codes: Seq<u8>, key: u8)
    ensures
        keys_down(down, releases(codes)).contains(key) <==> down.contains(key) && !codes.contains(
            key,
        ),
    decreases codes.len(),
{
    if codes.len() > 0 {
        let rest = codes.drop_first();
        let events = releases(codes);
        assert(events.drop_last() =~= releases(rest));
        assert(events.last() == (KeyEvent { keycode: codes[0], pressed: false }));
        lemma_releases(down, rest, key);
        assert(codes.contains(key) <==> rest.contains(key) || codes[0] == key) by {
            if rest.contains(key) {
                let i = rest.index_of(key);
                assert(codes[i + 1] == key);
            }
            if codes.contains(key) && codes[0] != key {
                let i = codes.index_of(key);
                assert(rest[i - 1] == key);
            }
        }
    }
}

/// Whatever keys were down, a tapped chord leaves none of its own keys down
/// and every other key as it was.
pub proof fn tap_releases_what_it_presses(down: Set<u8>, codes: Seq<u8>, key: u8)
    ensures
        keys_down(down, tap(codes)).contains(key) <==> down.contains(key) && !codes.contains(key),
{
    lemma_keys_down_concat(down, presses(codes), releases(codes));
    lemma_presses(down, codes, key);
    lemma_releases(keys_down(down, presses(codes)), codes, key);
}

impl KeyboardMap {
    /// A text has strokes exactly where each of its characters has one, and
    /// then it has one stroke for each character, in order.
    pub proof fn texts_are_typed_by_character(&self, text: Seq<char>)
        ensures
            match self.strokes(text) {
                Some(strokes) => strokes.len() == text.len() && forall|i: int|
                    0 <= i < text.len() ==> self.stroke_of(
                        keysym_of(#[trigger] text[i]) as u32,
                    ) == Some(strokes[i]),
                None => exists|i: int|
                    0 <= i < text.len() && self.stroke_of(
                        keysym_of(#[trigger] text[i]) as u32,
                    ) is None,
            },
        decreases text.len(),
    {
        if text.len() > 0 {
            let rest = text.drop_last();
            self.texts_are_typed_by_character(rest);
            if self.strokes(rest) is None {
                let i = choose|i: int|
                    0 <= i < rest.len() && self.stroke_of(
                        keysym_of(#[trigger] rest[i]) as u32,
                    ) is None;
                assert(self.stroke_of(keysym_of(text[i]) as u32) is None);
            } else if self.stroke_of(keysym_of(text.last()) as u32) is None {
                assert(self.stroke_of(keysym_of(text[text.len() - 1]) as u32) is None);
            } else {
                let strokes = self.strokes(text)->0;
                assert forall|i: int| 0 <= i < text.len() implies self.stroke_of(
                    keysym_of(#[trigger] text[i]) as u32,
                ) == Some(strokes[i]) by {
                    if i < rest.len() {
                        assert(text[i] == rest[i]);
                    }
                }
            }
        }
    }

    /// The symbol that a key gives under modifiers: Shift selects the second
    /// column of a pair, and the modifier for the third level the second pair.
    pub open spec fn symbol(&self, stroke: KeyStroke) -> u32 {
        self.keysyms@[(stroke.keycode - self.first_keycode) * self.keysyms_per_keycode + (
        if stroke.shift {
            1int
        } else {
            0int
        }) + (if stroke.mode_switch {
            2int
        } else {
            0int
        })]
    }

    /// The stroke that is found for a keysym gives that keysym.
    pub proof fn strokes_give_their_symbol(&self, keysym: u32)
        ensures
            self.stroke_of(keysym) matches Some(stroke) ==> {
                &&& self.symbol(stroke) == keysym
                &&& stroke.keycode >= self.first_keycode
                &&& (stroke.keycode - self.first_keycode) * self.keysyms_per_keycode
                    < self.keysyms@.len()
            },
    {
        if self.keysyms_per_keycode > 0 {
            self.lemma_stroke_from(keysym, 0);
        }
    }

    /// Where the first key that has a keysym in one of its first four columns
    /// has a keycode, a stroke is found for the keysym: that of the key.
    pub proof fn symbols_have_strokes(&self, keysym: u32, index: int, column: int)
        requires
            0 <= index < 256,
            self.first_keycode + index <= 255,
            0 <= column < 4,
            column < self.keysyms_per_keycode,
            index * self.keysyms_per_keycode + column < self.keysyms@.len(),
            self.keysyms@[index * self.keysyms_per_keycode + column] == keysym,
            forall|i: int, j: int|
                0 <= i < index && 0 <= j < 4 && j < self.keysyms_per_keycode ==> #[trigger]
                    self.keysyms@[i * self.keysyms_per_keycode + j] != keysym,
            forall|j: int|
                0 <= j < column ==> #[trigger] self.keysyms@[index * self.keysyms_per_keycode + j]
                    != keysym,
        ensures
            self.stroke_of(keysym) == Some(
                KeyStroke {
                    keycode: (self.first_keycode + index) as u8,
                    shift: column == 1 || column == 3,
                    mode_switch: column == 2 || column == 3,
                },
            ),
    {
        self.lemma_first_stroke(keysym, 0, index, column);
    }

    /// What a search for a keysym finds, from a place of the map on.
    proof fn lemma_stroke_from(&self, keysym: u32, index: int)
        requires
            0 <= index,
            self.keysyms_per_keycode > 0,
        ensures
            self.stroke_from(keysym, index) matches Some(stroke) ==> {
                &&& self.symbol(stroke) == keysym
                &&& stroke.keycode >= self.first_keycode
                &&& (stroke.keycode - self.first_keycode) * self.keysyms_per_keycode
                    < self.keysyms@.len()
            },
        decreases 256 - index,
    {
        let per = self.keysyms_per_keycode as int;
        if index < 256 && index * per < self.keysyms@.len() {
            let symbols = self.symbols(index);
            assert((index + 1) * per == index * per + per) by (nonlinear_arith);
            assert(0 <= index * per) by (nonlinear_arith)
                requires
                    0 <= index,
                    0 < per,
            ;
            lemma_column_from(symbols, keysym, 0);
            match column_from(symbols, keysym, 0) {
                Some(column) => {
                    assert(symbols[column] == self.keysyms@[index * per + column]);
                },
                None => {
                    self.lemma_stroke_from(keysym, index + 1);
                },
            }
        }
    }

    /// The first key with a keysym is found from every place before it.
    proof fn lemma_first_stroke(&self, keysym: u32, from: int, index: int, column: int)
        requires
            0 <= from <= index < 256,
            self.first_keycode + index <= 255,
            0 <= column < 4,
            column < self.keysyms_per_keycode,
            index * self.keysyms_per_keycode + column < self.keysyms@.len(),
            self.keysyms@[index * self.keysyms_per_keycode + column] == keysym,
            forall|i: int, j: int|
                0 <= i < index && 0 <= j < 4 && j < self.keysyms_per_keycode ==> #[trigger]
                    self.keysyms@[i * self.keysyms_per_keycode + j] != keysym,
            forall|j: int|
                0 <= j < column ==> #[trigger] self.keysyms@[index * self.keysyms_per_keycode + j]
                    != keysym,
        ensures
            self.stroke_from(keysym, from) == Some(
                KeyStroke {
                    keycode: (self.first_keycode + index) as u8,
                    shift: column == 1 || column == 3,
                    mode_switch: column == 2 || column == 3,
                },
            ),
        decreases index - from,
    {
        let per = self.keysyms_per_keycode as int;
        assert((from + 1) * per == from * per + per) by (nonlinear_arith);
        assert(0 <= from * per <= index * per) by (nonlinear_arith)
            requires
                0 <= from <= index,
                0 < per,
        ;
        let symbols = self.symbols(from);
        lemma_column_from(symbols, keysym, 0);
        if from < index {
            assert((from + 1) * per <= index * per) by (nonlinear_arith)
                requires
                    from + 1 <= index,
                    0 < per,
            ;
            if let Some(found) = column_from(symbols, keysym, 0) {
                assert(symbols[found] == self.keysyms@[from * per + found]);
                assert(false);
            }
            self.lemma_first_stroke(keysym, from + 1, index, column);
        } else {
            assert(symbols[column] == self.keysyms@[index * per + column]);
            match column_from(symbols, keysym, 0) {
                Some(found) => {
                    assert(symbols[found] == self.keysyms@[index * per + found]);
                    assert(found == column) by {
                        if found < column {
                            assert(self.keysyms@[index * per + found] != keysym);
                        }
                    }
                },
                None => {
                    assert(symbols[column] != keysym);
                },
            }
        }
    }

    /// A chord holds the key of every name, and before it the modifiers that
    /// the key needs; every key of a chord is one of these.
    pub proof fn chords_hold_every_named_key(&self, names: Seq<Seq<char>>, at: int)
        ensures
            self.chord(names) matches Ok(codes) ==> {
                &&& 0 <= at < names.len() ==> {
                    &&& self.named(names[at]) is Ok
                    &&& codes.contains(self.named(names[at])->Ok_0.keycode)
                    &&& self.named(names[at])->Ok_0.shift ==> self.shift_key() is Ok
                        && codes.contains(self.shift_key()->Ok_0)
                    &&& self.named(names[at])->Ok_0.mode_switch ==> self.mode_switch_key() is Ok
                        && codes.contains(self.mode_switch_key()->Ok_0)
                }
                &&& 0 <= at < codes.len() ==> exists|i: int|
                    0 <= i < names.len() && {
                        let stroke = self.named(#[trigger] names[i])->Ok_0;
                        ||| codes[at] == stroke.keycode
                        ||| stroke.shift && codes[at] == self.shift_key()->Ok_0
                        ||| stroke.mode_switch && codes[at] == self.mode_switch_key()->Ok_0
                    }
            },
            self.chord(names) is Err <==> exists|i: int|
                0 <= i < names.len() && {
                    ||| self.named(#[trigger] names[i]) is Err
                    ||| self.named(names[i])->Ok_0.shift && self.shift_key() is Err
                    ||| self.named(names[i])->Ok_0.mode_switch && self.mode_switch_key() is Err
                },
        decreases names.len(),
    {
        if names.len() > 0 {
            let rest = names.drop_last();
            let name = names.last();
            self.chords_hold_every_named_key(rest, at);
            if self.chord(rest) is Err {
                let i = choose|i: int|
                    0 <= i < rest.len() && {
                        ||| self.named(#[trigger] rest[i]) is Err
                        ||| self.named(rest[i])->Ok_0.shift && self.shift_key() is Err
                        ||| self.named(rest[i])->Ok_0.mode_switch && self.mode_switch_key() is Err
                    };
                assert(names[i] == rest[i]);
            } else {
                assert(names[names.len() - 1] == name);
                assert forall|i: int| 0 <= i < rest.len() implies {
                    &&& self.named(#[trigger] names[i]) is Ok
                    &&& self.named(names[i])->Ok_0.shift ==> self.shift_key() is Ok
                    &&& self.named(names[i])->Ok_0.mode_switch ==> self.mode_switch_key() is Ok
                } by {
                    assert(rest[i] == names[i]);
                }
                if let Ok(codes) = self.chord(names) {
                    let before = self.chord(rest)->Ok_0;
                    let stroke = self.named(name)->Ok_0;
                    let moded = if stroke.mode_switch {
                        with_unique(before, self.mode_switch_key()->Ok_0)
                    } else {
                        before
                    };
                    let shifted = if stroke.shift {
                        with_unique(moded, self.shift_key()->Ok_0)
                    } else {
                        moded
                    };
                    lemma_with_unique(before, self.mode_switch_key()->Ok_0);
                    lemma_with_unique(moded, self.shift_key()->Ok_0);
                    lemma_with_unique(shifted, stroke.keycode);
                    if 0 <= at < before.len() {
                        assert(codes[at] == before[at]);
                        let i = choose|i: int|
                            0 <= i < rest.len() && {
                                let stroke = self.named(#[trigger] rest[i])->Ok_0;
                                ||| before[at] == stroke.keycode
                                ||| stroke.shift && before[at] == self.shift_key()->Ok_0
                                ||| stroke.mode_switch && before[at] == self.mode_switch_key()->Ok_0
                            };
                        assert(names[i] == rest[i]);
                    }
                }
            }
        }
    }

    /// The modifiers of the last key of a chord go down before it.
    pub proof fn modifiers_go_down_first(&self, names: Seq<Seq<char>>, name: Seq<char>)
        requires
            self.chord(names) is Ok,
            self.chord(names.push(name)) is Ok,
            self.named(name) is Ok,
            !self.chord(names)->Ok_0.contains(self.named(name)->Ok_0.keycode),
        ensures
            ({
                let before = self.chord(names)->Ok_0;
                let codes = self.chord(names.push(name))->Ok_0;
                let stroke = self.named(name)->Ok_0;
                let modifier = |key: u8|
                    (stroke.shift && key == self.shift_key()->Ok_0) || (stroke.mode_switch && key
                        == self.mode_switch_key()->Ok_0);
                &&& before.len() <= codes.len() && codes.take(before.len() as int) == before
                &&& !modifier(stroke.keycode) ==> codes.last() == stroke.keycode
            }),
    {
        assert(names.push(name).drop_last() =~= names);
        let before = self.chord(names)->Ok_0;
        let codes = self.chord(names.push(name))->Ok_0;
        let stroke = self.named(name)->Ok_0;
        let moded = if stroke.mode_switch {
            with_unique(before, self.mode_switch_key()->Ok_0)
        } else {
            before
        };
        let shifted = if stroke.shift {
            with_unique(moded, self.shift_key()->Ok_0)
        } else {
            moded
        };
        lemma_with_unique(before, self.mode_switch_key()->Ok_0);
        lemma_with_unique(moded, self.shift_key()->Ok_0);
        lemma_with_unique(shifted, stroke.keycode);
        assert(codes.take(before.len() as int) =~= before);
    }
}

/// Where a search for a keysym among the columns of a key ends.
proof fn lemma_column_from(symbols: Seq<u32>, keysym: u32, from: int)
    requires
        0 <= from,
    ensures
        match column_from(symbols, keysym, from) {
            Some(column) => from <= column < 4 && column < symbols.len() && symbols[column]
                == keysym && forall|i: int| from <= i < column ==> symbols[i] != keysym,
            None => forall|i: int| from <= i < 4 && i < symbols.len() ==> symbols[i] != keysym,
        },
    decreases 4 - from,
{
    if from < 4 && from < symbols.len() && symbols[from] != keysym {
        lemma_column_from(symbols, keysym, from + 1);
    }
}

/// A list with a value added once begins as it did and holds that value.
proof fn lemma_with_unique(values: Seq<u8>, value: u8)
    ensures
        ({
            let after = with_unique(values, value);
            &&& values.len() <= after.len() <= values.len() + 1
            &&& after.take(values.len() as int) == values
            &&& after.len() > values.len() ==> after.last() == value
            &&& after.contains(value)
            &&& forall|other: u8| values.contains(other) ==> #[trigger] after.contains(other)
        }),
{
    let after = with_unique(values, value);
    assert(after.take(values.len() as int) =~= values);
    if !values.contains(value) {
        assert(after[values.len() as int] == value);
    }
    assert forall|other: u8| values.contains(other) implies #[trigger] after.contains(other) by {
        assert(after[values.index_of(other)] == other);
    }
}

/// The keys with names have the keysyms that X11 gives them: these, and no
/// others.
pub proof fn named_keys_have_their_keysyms()
    ensures
        keysym_table().len() == 37,
        keysym_table().contains(("BACKSPACE"@, 0xff08u32)),
        keysym_table().contains(("TAB"@, 0xff09u32)),
        keysym_table().contains(("ENTER"@, 0xff0du32)),
        keysym_table().contains(("RETURN"@, 0xff0du32)),
        keysym_table().contains(("ESC"@, 0xff1bu32)),
        keysym_table().contains(("ESCAPE"@, 0xff1bu32)),
        keysym_table().contains(("HOME"@, 0xff50u32)),
        keysym_table().contains(("LEFT"@, 0xff51u32)),
        keysym_table().contains(("UP"@, 0xff52u32)),
        keysym_table().contains(("RIGHT"@, 0xff53u32)),
        keysym_table().contains(("DOWN"@, 0xff54u32)),
        keysym_table().contains(("PAGE_UP"@, 0xff55u32)),
        keysym_table().contains(("PAGEUP"@, 0xff55u32)),
        keysym_table().contains(("PAGE_DOWN"@, 0xff56u32)),
        keysym_table().contains(("PAGEDOWN"@, 0xff56u32)),
        keysym_table().contains(("END"@, 0xff57u32)),
        keysym_table().contains(("INSERT"@, 0xff63u32)),
        keysym_table().contains(("DELETE"@, 0xffffu32)),
        keysym_table().contains(("SPACE"@, 0x20u32)),
        keysym_table().contains(("SHIFT"@, 0xffe1u32)),
        keysym_table().contains(("CTRL"@, 0xffe3u32)),
        keysym_table().contains(("CONTROL"@, 0xffe3u32)),
        keysym_table().contains(("ALT"@, 0xffe9u32)),
        keysym_table().contains(("META"@, 0xffe7u32)),
        keysym_table().contains(("SUPER"@, 0xffebu32)),
        keysym_table().contains(("F1"@, 0xffbeu32)),
        keysym_table().contains(("F2"@, 0xffbfu32)),
        keysym_table().contains(("F3"@, 0xffc0u32)),
        keysym_table().contains(("F4"@, 0xffc1u32)),
        keysym_table().contains(("F5"@, 0xffc2u32)),
        keysym_table().contains(("F6"@, 0xffc3u32)),
        keysym_table().contains(("F7"@, 0xffc4u32)),
        keysym_table().contains(("F8"@, 0xffc5u32)),
        keysym_table().contains(("F9"@, 0xffc6u32)),
        keysym_table().contains(("F10"@, 0xffc7u32)),
        keysym_table().contains(("F11"@, 0xffc8u32)),
        keysym_table().contains(("F12"@, 0xffc9u32)),
{
    assert(keysym_table()[0] == ("BACKSPACE"@, 0xff08u32));
    assert(keysym_table()[1] == ("TAB"@, 0xff09u32));
    assert(keysym_table()[2] == ("ENTER"@, 0xff0du32));
    assert(keysym_table()[3] == ("RETURN"@, 0xff0du32));
    assert(keysym_table()[4] == ("ESC"@, 0xff1bu32));
    assert(keysym_table()[5] == ("ESCAPE"@, 0xff1bu32));
    assert(keysym_table()[6] == ("HOME"@, 0xff50u32));
    assert(keysym_table()[7] == ("LEFT"@, 0xff51u32));
    assert(keysym_table()[8] == ("UP"@, 0xff52u32));
    assert(keysym_table()[9] == ("RIGHT"@, 0xff53u32));
    assert(keysym_table()[10] == ("DOWN"@, 0xff54u32));
    assert(keysym_table()[11] == ("PAGE_UP"@, 0xff55u32));
    assert(keysym_table()[12] == ("PAGEUP"@, 0xff55u32));
    assert(keysym_table()[13] == ("PAGE_DOWN"@, 0xff56u32));
    assert(keysym_table()[14] == ("PAGEDOWN"@, 0xff56u32));
    assert(keysym_table()[15] == ("END"@, 0xff57u32));
    assert(keysym_table()[16] == ("INSERT"@, 0xff63u32));
    assert(keysym_table()[17] == ("DELETE"@, 0xffffu32));
    assert(keysym_table()[18] == ("SPACE"@, 0x20u32));
    assert(keysym_table()[19] == ("SHIFT"@, 0xffe1u32));
    assert(keysym_table()[20] == ("CTRL"@, 0xffe3u32));
    assert(keysym_table()[21] == ("CONTROL"@, 0xffe3u32));
    assert(keysym_table()[22] == ("ALT"@, 0xffe9u32));
    assert(keysym_table()[23] == ("META"@, 0xffe7u32));
    assert(keysym_table()[24] == ("SUPER"@, 0xffebu32));
    assert(keysym_table()[25] == ("F1"@, 0xffbeu32));
    assert(keysym_table()[26] == ("F2"@, 0xffbfu32));
    assert(keysym_table()[27] == ("F3"@, 0xffc0u32));
    assert(keysym_table()[28] == ("F4"@, 0xffc1u32));
    assert(keysym_table()[29] == ("F5"@, 0xffc2u32));
    assert(keysym_table()[30] == ("F6"@, 0xffc3u32));
    assert(keysym_table()[31] == ("F7"@, 0xffc4u32));
    assert(keysym_table()[32] == ("F8"@, 0xffc5u32));
    assert(keysym_table()[33] == ("F9"@, 0xffc6u32));
    assert(keysym_table()[34] == ("F10"@, 0xffc7u32));
    assert(keysym_table()[35] == ("F11"@, 0xffc8u32));
    assert(keysym_table()[36] == ("F12"@, 0xffc9u32));
}

/// A key name is looked up in the table of key names in upper case, without
/// white space around it and with underscores for dashes and spaces. A name that
/// the table lacks means the key of its only character, whose ASCII letters
/// mean the same key in either case; any other name means nothing.
pub proof fn key_names_are_looked_up(name: Seq<char>)
    ensures
        name_keysym(name) matches Some(keysym) ==> {
            ||| exists|entry: (Seq<char>, u32)| #[trigger]
                keysym_table().contains(entry) && entry.0 == table_name(name) && entry.1 == keysym
            ||| name.len() == 1 && keysym == keysym_of(text::ascii_lower(name[0])) && forall|
                entry: (Seq<char>, u32),
            | #[trigger]
                keysym_table().contains(entry) ==> entry.0 != table_name(name)
        },
        name_keysym(name) is None ==> name.len() != 1 && forall|entry: (Seq<char>, u32)| #[trigger]
            keysym_table().contains(entry) ==> entry.0 != table_name(name),
        table_name(name).len() == text::uppercase(text::trimmed(name)).len(),
        forall|i: int|
            0 <= i < table_name(name).len() ==> {
                let c = text::uppercase(text::trimmed(name))[i];
                #[trigger] table_name(name)[i] == (if c == '-' || c == ' ' {
                    '_'
                } else {
                    c
                })
            },
{
    lemma_table_keysym(keysym_table(), table_name(name), 0);
}

/// Where a search for a key name ends.
proof fn lemma_table_keysym(table: Seq<(Seq<char>, u32)>, name: Seq<char>, from: int)
    requires
        0 <= from,
    ensures
        match table_keysym(table, name, from) {
            Some(keysym) => table.contains((name, keysym)),
            None => forall|i: int| from <= i < table.len() ==> (#[trigger] table[i]).0 != name,
        },
    decreases table.len() - from,
{
    if from < table.len() {
        if table[from].0 == name {
            assert(table[from] == (name, table[from].1));
        } else {
            lemma_table_keysym(table, name, from + 1);
        }
    }
}

/// A character has the keysym of its own code where it is in Latin-1, and else
/// that of its code in the Unicode range.
pub proof fn characters_have_their_keysyms(character: char, keysym: u32)
    requires
        call_ensures(char_to_keysym, (character,), keysym),
    ensures
        character as u32 <= 0xff ==> keysym == character as u32,
        character as u32 > 0xff ==> keysym == 0x0100_0000 + character as u32,
{
}

impl KeyboardMap {
    /// A key name means the stroke of its keysym; the name is refused where it
    /// means no keysym, and the capability is missing where no key gives it.
    pub proof fn named_keys_are_found(&self, name: &str, result: Result<KeyStroke, ControllerError>)
        requires
            call_ensures(KeyboardMap::named_key, (self, name), result),
        ensures
            name_keysym(name@) is None ==> result is Err && result->Err_0.code
                == ErrorCode::InvalidInput,
            name_keysym(name@) matches Some(keysym) ==> match self.stroke_of(keysym as u32) {
                Some(stroke) => result == Ok::<KeyStroke, ControllerError>(stroke),
                None => result is Err && result->Err_0.code == ErrorCode::UnsupportedCapability,
            },
    {
    }

    /// Shift is the first key of the first modifier, else the key that gives the
    /// left Shift; the modifier for the third level is the key that gives it,
    /// else the first key of the last modifier. A modifier without keys has none.
    pub proof fn modifiers_are_found(&self, at: int)
        ensures
            self.modifier(0) is Some ==> self.shift_key() == Ok::<u8, KeyError>(self.modifier(0)->0),
            self.modifier(0) is None && self.stroke_of(0xffe1) is Some ==> self.shift_key() == Ok::<
                u8,
                KeyError,
            >(self.stroke_of(0xffe1)->0.keycode),
            self.stroke_of(0xff7e) is Some ==> self.mode_switch_key() == Ok::<u8, KeyError>(
                self.stroke_of(0xff7e)->0.keycode,
            ),
            self.stroke_of(0xff7e) is None && self.modifier(7) is Some ==> self.mode_switch_key()
                == Ok::<u8, KeyError>(self.modifier(7)->0),
            0 <= at < 8 && (at + 1) * self.keycodes_per_modifier <= self.modifier_keycodes@.len()
                ==> {
                let start = at * self.keycodes_per_modifier;
                let end = (at + 1) * self.keycodes_per_modifier;
                match self.modifier(at) {
                    Some(keycode) => keycode != 0 && exists|i: int|
                        start <= i < end && #[trigger] self.modifier_keycodes@[i] == keycode
                            && forall|j: int|
                            start <= j < i ==> #[trigger] self.modifier_keycodes@[j] == 0,
                    None => forall|i: int|
                        start <= i < end ==> #[trigger] self.modifier_keycodes@[i] == 0,
                }
            },
    {
        if 0 <= at < 8 && (at + 1) * self.keycodes_per_modifier <= self.modifier_keycodes@.len() {
            let per = self.keycodes_per_modifier as int;
            let start = at * per;
            let end = (at + 1) * per;
            assert(end == start + per) by (nonlinear_arith)
                requires
                    start == at * per,
                    end == (at + 1) * per,
            ;
            assert(0 <= start) by (nonlinear_arith)
                requires
                    start == at * per,
                    0 <= at,
                    0 <= per,
            ;
            let codes = self.modifier_keycodes@.subrange(start, end);
            lemma_first_used(codes, 0);
            match self.modifier(at) {
                Some(keycode) => {
                    let i = choose|i: int|
                        0 <= i < codes.len() && #[trigger] codes[i] == keycode && forall|j: int|
                            0 <= j < i ==> #[trigger] codes[j] == 0;
                    assert(self.modifier_keycodes@[start + i] == keycode);
                    assert forall|j: int| start <= j < start + i implies
                        #[trigger] self.modifier_keycodes@[j] == 0 by {
                        assert(codes[j - start] == 0);
                    }
                },
                None => {
                    assert forall|i: int| start <= i < end implies
                        #[trigger] self.modifier_keycodes@[i] == 0 by {
                        assert(codes[i - start] == 0);
                    }
                },
            }
        }
    }
}

/// Where a search for a keycode that is used ends.
proof fn lemma_first_used(codes: Seq<u8>, from: int)
    requires
        0 <= from,
    ensures
        match first_used(codes, from) {
            Some(keycode) => keycode != 0 && exists|i: int|
                from <= i < codes.len() && #[trigger] codes[i] == keycode && forall|j: int|
                    from <= j < i ==> #[trigger] codes[j] == 0,
            None => forall|i: int| from <= i < codes.len() ==> #[trigger] codes[i] == 0,
        },
    decreases codes.len() - from,
{
    if from < codes.len() && codes[from] == 0 {
        lemma_first_used(codes, from + 1);
        if let Some(keycode) = first_used(codes, from + 1) {
            let i = choose|i: int|
                from + 1 <= i < codes.len() && #[trigger] codes[i] == keycode && forall|j: int|
                    from + 1 <= j < i ==> #[trigger] codes[j] == 0;
            assert forall|j: int| from <= j < i implies #[trigger] codes[j] == 0 by {}
        }
    }
}

} // verus!
