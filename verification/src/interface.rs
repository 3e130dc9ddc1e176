//! Decoding of the bytes that a keyboard sends into discrete key codes:
//! arrow keys arrive as three-byte escape sequences, everything else as
//! single bytes.

use vstd::prelude::*;

verus! {

/// The byte that starts an escape sequence.
pub const ESCAPE: u8 = 0x1B;

/// The byte that follows `ESCAPE` in the sequence of an arrow key.
pub const BRACKET: u8 = 0x5B;

/// A key as the game sees it.
#[derive(Debug, Clone, Copy, PartialEq, Eq, Structural)]
pub enum KeyCode {
    ArrowUp,
    ArrowDown,
    ArrowLeft,
    ArrowRight,
    Char(char),
    Esc,
    Unknown,
}

/// The arrow key that the final byte of an escape sequence names, if any.
pub open spec fn arrow_of(byte: u8) -> Option<KeyCode> {
    if byte == 0x41 {
        Some(KeyCode::ArrowUp)
    } else if byte == 0x42 {
        Some(KeyCode::ArrowDown)
    } else if byte == 0x43 {
        Some(KeyCode::ArrowRight)
    } else if byte == 0x44 {
        Some(KeyCode::ArrowLeft)
    } else {
        None
    }
}

/// Whether the bytes from `cursor` on are the complete sequence of an arrow
/// key: the escape byte, a bracket and a byte that names an arrow.
pub open spec fn is_arrow_sequence(buf: Seq<u8>, cursor: int) -> bool {
    &&& cursor + 2 < buf.len()
    &&& buf[cursor + 1] == BRACKET
    &&& arrow_of(buf[cursor + 2]) is Some
}

/// The key that an escape byte at `cursor` stands for: an arrow where a
/// complete arrow sequence follows, a lone escape otherwise.
pub open spec fn escaped_key(buf: Seq<u8>, cursor: int) -> KeyCode {
    if is_arrow_sequence(buf, cursor) {
        arrow_of(buf[cursor + 2])->0
    } else {
        KeyCode::Esc
    }
}

/// The number of bytes that the key at an escape byte takes up.
pub open spec fn escaped_len(buf: Seq<u8>, cursor: int) -> int {
    if is_arrow_sequence(buf, cursor) {
        3
    } else {
        1
    }
}

/// The key that a single byte outside an escape sequence stands for: the
/// character itself where the byte is one, `Unknown` otherwise.
pub open spec fn plain_key(byte: u8) -> KeyCode {
    if byte < 0x80 {
        KeyCode::Char(byte as char)
    } else {
        KeyCode::Unknown
    }
}

/// The keys that the bytes from `from` on stand for, in order.
pub open spec fn decoded(buf: Seq<u8>, from: int) -> Seq<KeyCode>
    decreases buf.len() - from,
{
    if from < 0 || from >= buf.len() {
        Seq::empty()
    } else if buf[from] == ESCAPE {
        seq![escaped_key(buf, from)] + decoded(buf, from + escaped_len(buf, from))
    } else {
        seq![plain_key(buf[from])] + decoded(buf, from + 1)
    }
}

/// Reads the key at an escape byte and moves the cursor past it.
///
/// Only arrows are told apart: anything but a complete arrow sequence counts
/// as a lone escape of one byte, and what follows it is read again as keys of
/// its own.
pub fn parse_escaped(buf: &[u8], cursor: &mut usize) -> (key: KeyCode)
    requires
        *old(cursor) < buf@.len(),
    ensures
        key == escaped_key(buf@, *old(cursor) as int),
        *final(cursor) == *old(cursor) + escaped_len(buf@, *old(cursor) as int),
        *final(cursor) <= buf@.len(),
{
    let at: usize = *cursor;
    let left: usize = buf.len() - at;
    if left < 2 {
        *cursor = at + 1;
        return KeyCode::Esc;
    }
    if buf[at + 1] != BRACKET {
        *cursor = at + 1;
        return KeyCode::Esc;
    }
    if left < 3 {
        *cursor = at + 1;
        return KeyCode::Esc;
    }
    let byte: u8 = buf[at + 2];
    if byte == 0x41 {
        *cursor = at + 3;
        KeyCode::ArrowUp
    } else if byte == 0x44 {
        *cursor = at + 3;
        KeyCode::ArrowLeft
    } else if byte == 0x42 {
        *cursor = at + 3;
        KeyCode::ArrowDown
    } else if byte == 0x43 {
        *cursor = at + 3;
        KeyCode::ArrowRight
    } else {
        *cursor = at + 1;
        KeyCode::Esc
    }
}

/// Decodes a buffer of keyboard bytes into key codes.
pub fn parse_ansi(buf: &[u8]) -> (codes: Vec<KeyCode>)
    ensures
        codes@ == decoded(buf@, 0),
{
    let mut codes: Vec<KeyCode> = Vec::new();
    let mut cursor: usize = 0;
    while cursor < buf.len()
        invariant
            cursor <= buf@.len(),
            codes@ + decoded(buf@, cursor as int) == decoded(buf@, 0),
        decreases buf@.len() - cursor,
    {
        let ghost before = codes@;
        let ghost at = cursor as int;
        let current: u8 = buf[cursor];
        if current == ESCAPE {
            let key = parse_escaped(buf, &mut cursor);
            codes.push(key);
        } else {
            let key = if current < 0x80 {
                KeyCode::Char(current as char)
            } else {
                KeyCode::Unknown
            };
            codes.push(key);
            cursor += 1;
        }
        assert(codes@ + decoded(buf@, cursor as int) =~= before + decoded(buf@, at));
    }
    assert(codes@ + decoded(buf@, cursor as int) =~= codes@);
    codes
}

/// The text of a character as a string.
///
/// Calls `char::to_string`: the string holds the character and nothing else.
#[verifier::external_body]
fn char_text(c: char) -> (text: String)
    ensures
        text@ == seq![c],
{
    c.to_string()
}

impl KeyCode {
    /// The name of the key as a sequence of characters.
    pub open spec fn label(self) -> Seq<char> {
        match self {
            KeyCode::ArrowUp => "Up"@,
            KeyCode::ArrowDown => "Down"@,
            KeyCode::ArrowLeft => "Left"@,
            KeyCode::ArrowRight => "Right"@,
            KeyCode::Char(c) => seq![c],
            KeyCode::Esc => "Esc"@,
            KeyCode::Unknown => "Unknown"@,
        }
    }

    /// The name of the key: the character itself for a character key.
    pub fn name(&self) -> (text: String)
        ensures
            text@ == self.label(),
    {
        match self {
            KeyCode::ArrowUp => "Up".to_owned(),
            KeyCode::ArrowDown => "Down".to_owned(),
            KeyCode::ArrowLeft => "Left".to_owned(),
            KeyCode::ArrowRight => "Right".to_owned(),
            KeyCode::Char(c) => char_text(*c),
            KeyCode::Esc => "Esc".to_owned(),
            KeyCode::Unknown => "Unknown".to_owned(),
        }
    }
}

} // verus!
