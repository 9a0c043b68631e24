//! Keys as the editor knows them.

use vstd::prelude::*;

verus! {

/// A key, with the modifier that was held with it.
#[derive(Debug, Clone, Copy, PartialEq, Eq, Structural)]
pub enum KeyPress {
    UnknownEscSeq,
    Backspace,
    Char(char),
    Ctrl(char),
    Delete,
    Down,
    End,
    Enter,
    Esc,
    F(u8),
    Home,
    Insert,
    Left,
    Meta(char),
    Null,
    PageDown,
    PageUp,
    Right,
    Tab,
    Up,
}

/// The capital of a small letter of the basic Latin alphabet, and any other
/// character as it is.
pub open spec fn upper(ch: char) -> char {
    if 'a' <= ch && ch <= 'z' {
        ((ch as u8) - 32) as char
    } else {
        ch
    }
}

/// The capital of a small letter of the basic Latin alphabet, and any other
/// character as it is.
pub fn to_upper(ch: char) -> (capital: char)
    ensures
        capital == upper(ch),
{
    if 'a' <= ch && ch <= 'z' {
        let code: u8 = ch as u8;
        (code - 32) as char
    } else {
        ch
    }
}

/// The key that a character stands for: a control character is the letter
/// with `Ctrl`, the escape character is `Esc`, and any other is itself.
pub open spec fn key_of_char(ch: char) -> KeyPress {
    if ch == '\x1b' {
        KeyPress::Esc
    } else if ch == '\x7f' {
        KeyPress::Backspace
    } else if ch == '\t' {
        KeyPress::Tab
    } else if ch == '\r' || ch == '\n' {
        KeyPress::Enter
    } else if ch == '\x00' {
        KeyPress::Null
    } else if (ch as u32) < 0x20 {
        KeyPress::Ctrl((((ch as u8) | 0x40) as char))
    } else {
        KeyPress::Char(ch)
    }
}

/// The key that a character stands for.
pub fn char_to_key_press(ch: char) -> (key: KeyPress)
    ensures
        key == key_of_char(ch),
{
    if ch == '\x1b' {
        KeyPress::Esc
    } else if ch == '\x7f' {
        KeyPress::Backspace
    } else if ch == '\t' {
        KeyPress::Tab
    } else if ch == '\r' || ch == '\n' {
        KeyPress::Enter
    } else if ch == '\x00' {
        KeyPress::Null
    } else if (ch as u32) < 0x20 {
        let code: u8 = ch as u8;
        KeyPress::Ctrl((code | 0x40) as char)
    } else {
        KeyPress::Char(ch)
    }
}

} // verus!
