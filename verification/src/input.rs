//! The events that a terminal reports, as plain values.

use vstd::prelude::*;
use crate::Pos;

verus! {

/// A mouse button.
#[derive(Debug, Clone, Copy, PartialEq, Eq, Structural)]
pub enum MouseButton {
    Left,
    Right,
    Middle,
    WheelUp,
    WheelDown,
}

/// A mouse event with the column and the row at which it happened, both
/// counted from one.
#[derive(Debug, Clone, Copy, PartialEq, Eq, Structural)]
pub enum MouseEvent {
    Press(MouseButton, u16, u16),
    Release(u16, u16),
    Hold(u16, u16),
}

impl MouseEvent {
    /// The column of the event, counted from one.
    pub open spec fn column(self) -> u16 {
        match self {
            MouseEvent::Press(_, x, _) => x,
            MouseEvent::Release(x, _) => x,
            MouseEvent::Hold(x, _) => x,
        }
    }

    /// The row of the event, counted from one.
    pub open spec fn line(self) -> u16 {
        match self {
            MouseEvent::Press(_, _, y) => y,
            MouseEvent::Release(_, y) => y,
            MouseEvent::Hold(_, y) => y,
        }
    }

    /// The cell of the frame that the event points at; none where a
    /// coordinate is zero.
    pub open spec fn cell(self) -> Option<Pos> {
        if self.column() >= 1 && self.line() >= 1 {
            Some(Pos { col: (self.column() - 1) as usize, row: (self.line() - 1) as usize })
        } else {
            None
        }
    }

    /// The cell of the frame that the event points at, counted from zero.
    pub fn position(&self) -> (cell: Option<Pos>)
        ensures
            cell == self.cell(),
    {
        let (x, y) = match *self {
            MouseEvent::Press(_, x, y) => (x, y),
            MouseEvent::Release(x, y) => (x, y),
            MouseEvent::Hold(x, y) => (x, y),
        };
        if x >= 1 && y >= 1 {
            let col: u16 = x - 1;
            let row: u16 = y - 1;
            Some(Pos { col: col as usize, row: row as usize })
        } else {
            None
        }
    }
}

/// A key.
#[derive(Debug, Clone, Copy, PartialEq, Eq, Structural)]
pub enum Key {
    Backspace,
    Left,
    Right,
    Up,
    Down,
    Home,
    End,
    PageUp,
    PageDown,
    BackTab,
    Delete,
    Insert,
    F(u8),
    Char(char),
    Alt(char),
    Ctrl(char),
    Null,
    Esc,
}

/// What the terminal reports.
#[derive(Debug, Clone, PartialEq, Eq)]
pub enum InputEvent {
    Key(Key),
    Mouse(MouseEvent),
    /// An event that could not be decoded, as its bytes.
    Unsupported(Vec<u8>),
}

/// A request to the user interface as a whole.
#[derive(Debug, Clone, Copy, PartialEq, Eq, Structural)]
pub enum UIEvent {
    Exit,
}

/// An input from the terminal or a request to the user interface.
#[derive(Debug, Clone, PartialEq, Eq)]
pub enum Event {
    Input(InputEvent),
    UI(UIEvent),
}

} // verus!
