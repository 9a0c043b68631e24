//! A line of input in a pane.

use vstd::prelude::*;
use crate::chars::{chars_of, string_of};
use crate::input::Key;
use crate::pane::widget::{Bound, BoundSize, Widget};
use crate::pane::{Position, Size};

verus! {

/// A line of text that is typed into, with the place at which the next
/// character goes.
#[derive(Debug)]
pub struct TextInput {
    buf: Vec<char>,
    index: usize,
}

impl TextInput {
    /// The text typed so far.
    pub closed spec fn text(&self) -> Seq<char> {
        self.buf@
    }

    /// The number of characters before the cursor.
    pub closed spec fn cursor(&self) -> nat {
        self.index as nat
    }

    /// The cursor stands within the text or at its end.
    pub open spec fn wf(&self) -> bool {
        self.cursor() <= self.text().len()
    }

    /// An input that holds `s`, with the cursor before it.
    pub fn new(s: &str) -> (input: TextInput)
        ensures
            input.wf(),
            input.text() == s@,
            input.cursor() == 0,
    {
        TextInput { buf: chars_of(s), index: 0 }
    }

    /// Takes the text out of the input and leaves it empty.
    pub fn submit(&mut self) -> (line: String)
        ensures
            line@ == old(self).text(),
            final(self).text() == Seq::<char>::empty(),
            final(self).cursor() == 0,
            final(self).wf(),
    {
        self.index = 0;
        let line = string_of(&self.buf, 0, self.buf.len());
        proof {
            assert(line@ =~= self.buf@);
        }
        self.buf.clear();
        line
    }

    /// What `key` makes of the text `text` with the cursor at `cursor`: a
    /// character goes in at the cursor, which moves behind it; the arrows
    /// move the cursor by one, not past either end; other keys do nothing.
    pub open spec fn after(text: Seq<char>, cursor: nat, key: Key) -> (Seq<char>, nat) {
        match key {
            Key::Char(ch) => (text.insert(cursor as int, ch), cursor + 1),
            Key::Left => (
                text,
                if cursor > 0 {
                    (cursor - 1) as nat
                } else {
                    cursor
                },
            ),
            Key::Right => (
                text,
                if cursor < text.len() {
                    cursor + 1
                } else {
                    text.len()
                },
            ),
            _ => (text, cursor),
        }
    }

    /// Takes a key.
    pub fn keypress(&mut self, key: Key)
        requires
            old(self).wf(),
        ensures
            final(self).wf(),
            (final(self).text(), final(self).cursor()) == Self::after(
                old(self).text(),
                old(self).cursor(),
                key,
            ),
    {
        match key {
            Key::Char(k) => {
                self.buf.insert(self.index, k);
                let len = self.buf.len();
                assert(self.index < len);
                self.index += 1;
            },
            Key::Left => {
                if self.index > 0 {
                    self.index -= 1
                }
            },
            Key::Right => {
                self.index = if self.index < self.buf.len() {
                    self.index + 1
                } else {
                    self.buf.len()
                };
            },
            _ => {},
        }
    }

    /// The text as the one row that a pane shows.
    pub fn content(&self) -> (rows: Vec<String>)
        ensures
            rows@.len() == 1,
            rows@[0]@ == self.text(),
    {
        let mut rows = Vec::new();
        let line = string_of(&self.buf, 0, self.buf.len());
        proof {
            assert(line@ =~= self.buf@);
        }
        rows.push(line);
        rows
    }

    /// Where the cursor stands in the pane: in the first row, as many cells
    /// in as there are characters before it, or in the last column that can
    /// be addressed where there are more.
    pub fn focus(&self) -> (position: Position)
        ensures
            position.y == 0,
            position.x == if self.cursor() < u16::MAX {
                self.cursor() as u16
            } else {
                u16::MAX
            },
    {
        let x: u16 = if self.index < 0xffff {
            self.index as u16
        } else {
            0xffff
        };
        Position::new(x, 0)
    }

    /// What the input asks for: one row, and at least one column.
    pub fn bounds(&self) -> (bounds: BoundSize)
        ensures
            bounds == (BoundSize { width: Bound::AtLeast(1), height: Bound::Fixed(1) }),
    {
        BoundSize { width: Bound::AtLeast(1), height: Bound::Fixed(1) }
    }
}

impl Widget for TextInput {
    fn render_content(&self, _size: Size) -> (content: Option<Vec<String>>)
        ensures
            content matches Some(rows) && rows@.len() == 1 && rows@[0]@ == self.text(),
    {
        Some(self.content())
    }

    fn render_focus(&self, _size: Size) -> (focus: Option<Position>)
        ensures
            focus matches Some(position) && position.y == 0 && position.x == if self.cursor()
                < u16::MAX {
                self.cursor() as u16
            } else {
                u16::MAX
            },
    {
        Some(self.focus())
    }

    fn render_bounds(&self) -> (bounds: BoundSize)
        ensures
            bounds == (BoundSize { width: Bound::AtLeast(1), height: Bound::Fixed(1) }),
    {
        self.bounds()
    }
}

} // verus!
