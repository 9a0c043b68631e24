//! What a terminal backend decides when it paints a frame: how the rows of
//! the frame read, which of them differ from what the terminal shows, and
//! where the cursor goes.

use vstd::prelude::*;
use crate::grapheme::texts;
use crate::ir::{Frame, FrameLine};
use crate::{Color, Pos, Size};

pub mod composition;
pub mod element;
pub mod hbox;
pub mod text;

pub use composition::compose_image;
pub use hbox::HBox;
pub use text::{TextBuilder, TextGrid};

verus! {

/// The rows up to `upto` at which `last` and `next` differ, in rising
/// order.
pub open spec fn changed_upto(last: Seq<Seq<char>>, next: Seq<Seq<char>>, upto: int) -> Seq<usize>
    decreases upto,
{
    if upto <= 0 {
        Seq::empty()
    } else if last[upto - 1] != next[upto - 1] {
        changed_upto(last, next, upto - 1).push((upto - 1) as usize)
    } else {
        changed_upto(last, next, upto - 1)
    }
}

/// The rows that both frames have and at which they differ, in rising
/// order.
pub open spec fn changed(last: Seq<Seq<char>>, next: Seq<Seq<char>>) -> Seq<usize> {
    changed_upto(
        last,
        next,
        if last.len() <= next.len() {
            last.len() as int
        } else {
            next.len() as int
        },
    )
}

/// The rows to paint again: those at which the frame to show differs from
/// the frame that is shown.
pub fn changed_rows(last: &Vec<String>, next: &Vec<String>) -> (rows: Vec<usize>)
    ensures
        rows@ == changed(texts(last@), texts(next@)),
{
    let count = if last.len() <= next.len() {
        last.len()
    } else {
        next.len()
    };
    let mut rows: Vec<usize> = Vec::new();
    let mut i: usize = 0;
    while i < count
        invariant
            i <= count,
            count <= last@.len(),
            count <= next@.len(),
            rows@ == changed_upto(texts(last@), texts(next@), i as int),
        decreases count - i,
    {
        if last[i] != next[i] {
            rows.push(i);
        }
        i = i + 1;
    }
    rows
}

/// Where the terminal is told to put the cursor for a cell of the frame:
/// column and row counted from one, and the last that the terminal can
/// address for a cell beyond it.
pub open spec fn goto_of(pos: Pos) -> (u16, u16) {
    (
        if pos.col < u16::MAX {
            (pos.col + 1) as u16
        } else {
            u16::MAX
        },
        if pos.row < u16::MAX {
            (pos.row + 1) as u16
        } else {
            u16::MAX
        },
    )
}

/// Where to show the cursor: at the cell of the widget that has the focus,
/// or nowhere, which hides it.
pub fn cursor_goto(focus: Option<Pos>) -> (goto: Option<(u16, u16)>)
    ensures
        goto == match focus {
            Some(pos) => Some(goto_of(pos)),
            None => None,
        },
{
    match focus {
        Some(pos) => {
            let col: u16 = if pos.col < 0xffff {
                (pos.col + 1) as u16
            } else {
                0xffff
            };
            let row: u16 = if pos.row < 0xffff {
                (pos.row + 1) as u16
            } else {
                0xffff
            };
            Some((col, row))
        },
        None => None,
    }
}

/// `row` reads as `cells` do: for each span what `attr` writes to switch to
/// its colours, then its text.
pub open spec fn is_row_of<F: Fn(Color, Color) -> String>(
    attr: F,
    cells: Seq<(Color, Color, &str, usize)>,
    row: Seq<char>,
) -> bool
    decreases cells.len(),
{
    if cells.len() == 0 {
        row == Seq::<char>::empty()
    } else {
        exists|head: Seq<char>, switch: String|
            is_row_of(attr, cells.drop_last(), head) && call_ensures(
                attr,
                (cells.last().0, cells.last().1),
                switch,
            ) && row == head + switch@ + cells.last().2@
    }
}

/// A row of a frame as the text that paints it.
pub fn compose_row<F: Fn(Color, Color) -> String>(cells: &FrameLine<'_>, attr: &F) -> (row:
    String)
    requires
        forall|fg: Color, bg: Color| call_requires(*attr, (fg, bg)),
    ensures
        is_row_of(*attr, cells@, row@),
{
    let mut row = String::new();
    let mut k: usize = 0;
    proof {
        assert(cells@.take(0) =~= Seq::<(Color, Color, &str, usize)>::empty());
    }
    while k < cells.len()
        invariant
            k <= cells@.len(),
            forall|fg: Color, bg: Color| call_requires(*attr, (fg, bg)),
            is_row_of(*attr, cells@.take(k as int), row@),
        decreases cells@.len() - k,
    {
        let (fg, bg, text, _) = cells[k];
        let ghost head = row@;
        let switch = attr(fg, bg);
        row.append(switch.as_str());
        row.append(text);
        proof {
            assert(cells@.take(k + 1).drop_last() =~= cells@.take(k as int));
            assert(cells@.take(k + 1).last() == cells@[k as int]);
            assert(row@ == head + switch@ + text@);
        }
        k = k + 1;
    }
    proof {
        assert(cells@.take(cells@.len() as int) =~= cells@);
    }
    row
}

/// The rows of a frame as the texts that paint them.
pub fn compose_rows<F: Fn(Color, Color) -> String>(frame: &Frame<'_>, attr: &F) -> (rows: Vec<
    String,
>)
    requires
        forall|fg: Color, bg: Color| call_requires(*attr, (fg, bg)),
    ensures
        rows@.len() == frame.image@.len(),
        forall|r: int|
            0 <= r < rows@.len() ==> is_row_of(*attr, frame.image@[r]@, (#[trigger] rows@[r])@),
{
    let mut rows: Vec<String> = Vec::new();
    let mut r: usize = 0;
    while r < frame.image.len()
        invariant
            r <= frame.image@.len(),
            forall|fg: Color, bg: Color| call_requires(*attr, (fg, bg)),
            rows@.len() == r,
            forall|i: int|
                0 <= i < r ==> is_row_of(*attr, frame.image@[i]@, (#[trigger] rows@[i])@),
        decreases frame.image@.len() - r,
    {
        rows.push(compose_row(&frame.image[r], attr));
        r = r + 1;
    }
    rows
}

/// The frame that the terminal shows, row by row, kept to paint only what
/// changes.
pub struct FrameBuffer {
    size: Size,
    last_frame: Vec<String>,
}

impl FrameBuffer {
    /// The extent of the terminal.
    pub closed spec fn extent(&self) -> Size {
        self.size
    }

    /// The rows that the terminal shows.
    pub closed spec fn shown(&self) -> Seq<Seq<char>> {
        texts(self.last_frame@)
    }

    /// A buffer for a terminal of the extent `size` that shows nothing yet.
    pub fn new(size: Size) -> (buffer: Self)
        ensures
            buffer.extent() == size,
            buffer.shown() == Seq::new(size.rows as nat, |r: int| Seq::<char>::empty()),
    {
        let mut last_frame: Vec<String> = Vec::new();
        let mut r: usize = 0;
        while r < size.rows
            invariant
                r <= size.rows,
                last_frame@.len() == r,
                forall|i: int| 0 <= i < r ==> (#[trigger] last_frame@[i])@ == Seq::<char>::empty(),
            decreases size.rows - r,
        {
            last_frame.push(String::new());
            r = r + 1;
        }
        let buffer = FrameBuffer { size, last_frame };
        proof {
            assert(buffer.shown() =~= Seq::new(size.rows as nat, |r: int| Seq::<char>::empty()));
        }
        buffer
    }

    /// Takes `new_frame` for what the terminal shows from now on and
    /// returns the rows that have to be painted for that: those that differ
    /// from what it showed.
    pub fn paint(&mut self, new_frame: Vec<String>) -> (rows: Vec<usize>)
        ensures
            rows@ == changed(old(self).shown(), texts(new_frame@)),
            final(self).shown() == texts(new_frame@),
            final(self).extent() == old(self).extent(),
    {
        let rows = changed_rows(&self.last_frame, &new_frame);
        self.last_frame = new_frame;
        rows
    }

    /// Takes the terminal to have `new_size`: rows that it has no more are
    /// forgotten, and rows that it has now show nothing yet.
    pub fn resize(&mut self, new_size: Size)
        ensures
            final(self).extent() == new_size,
            final(self).shown() == Seq::new(
                new_size.rows as nat,
                |r: int|
                    if r < old(self).shown().len() {
                        old(self).shown()[r]
                    } else {
                        Seq::<char>::empty()
                    },
            ),
    {
        self.size = new_size;
        self.last_frame.truncate(new_size.rows);
        while self.last_frame.len() < new_size.rows
            invariant
                self.size == new_size,
                self.last_frame@.len() <= new_size.rows,
                self.last_frame@.len() < new_size.rows ==> self.last_frame@.len() >= old(self).last_frame@.len(),
                forall|r: int|
                    0 <= r < self.last_frame@.len() ==> (#[trigger] self.last_frame@[r])@ == (if r
                        < old(self).last_frame@.len() {
                        old(self).last_frame@[r]@
                    } else {
                        Seq::<char>::empty()
                    }),
            decreases new_size.rows - self.last_frame@.len(),
        {
            self.last_frame.push(String::new());
        }
        proof {
            assert(self.shown() =~= Seq::new(
                new_size.rows as nat,
                |r: int|
                    if r < old(self).shown().len() {
                        old(self).shown()[r]
                    } else {
                        Seq::<char>::empty()
                    },
            ));
        }
    }

    pub fn size(&self) -> (size: Size)
        ensures
            size == self.extent(),
    {
        self.size
    }

    /// Row `r` of what the terminal shows, if it has such a row.
    pub fn row(&self, r: usize) -> (row: Option<&String>)
        ensures
            r < self.shown().len() ==> (row matches Some(text) && text@ == self.shown()[r as int]),
            r >= self.shown().len() ==> row is None,
    {
        if r < self.last_frame.len() {
            Some(&self.last_frame[r])
        } else {
            None
        }
    }
}

/// Something to draw on: it makes drawings of text and puts drawings
/// together.
pub trait Builder: Sized {
    /// What the builder draws.
    type Drawable;

    /// The drawing of the text `s`: what [`Builder::str`] makes of it.
    fn string(&mut self, s: &String) -> (drawing: Self::Drawable)
        default_ensures
            old(self).writes(s@, *final(self), drawing),
    {
        self.str(s.as_str())
    }

    /// The drawing of the text `s`.
    fn str(&mut self, s: &str) -> (drawing: Self::Drawable)
        ensures
            old(self).writes(s@, *final(self), drawing),
    ;

    /// Puts the second drawing to the right of the first.
    fn happend(&mut self, a: &mut Self::Drawable, b: &mut Self::Drawable)
        ensures
            old(self).puts_beside(*old(a), *old(b), *final(self), *final(a), *final(b)),
    ;

    /// The first drawing with the second to its right.
    fn hconcat(&mut self, a: &Self::Drawable, b: &Self::Drawable) -> (drawing: Self::Drawable)
        ensures
            old(self).sets_beside(*a, *b, *final(self), drawing),
    ;

    /// Puts the second drawing below the first.
    fn vappend(&mut self, a: &mut Self::Drawable, b: &mut Self::Drawable)
        ensures
            old(self).puts_above(*old(a), *old(b), *final(self), *final(a), *final(b)),
    ;

    /// The first drawing with the second below it.
    fn vconcat(&mut self, a: &Self::Drawable, b: &Self::Drawable) -> (drawing: Self::Drawable)
        ensures
            old(self).sets_above(*a, *b, *final(self), drawing),
    ;

    /// A drawing of nothing.
    fn empty(&mut self) -> (drawing: Self::Drawable)
        ensures
            old(self).blank(*final(self), drawing),
    ;

    /// What the builder says of its drawings of text: asked for `text`,
    /// it may become `after` and give `drawing`. This and the five that
    /// follow admit every outcome for a builder that says nothing.
    open spec fn writes(&self, text: Seq<char>, after: Self, drawing: Self::Drawable) -> bool {
        true
    }

    /// Asked to put `b` to the right of `a`, the builder may become
    /// `after` and leave the two as `a_after` and `b_after`.
    open spec fn puts_beside(
        &self,
        a: Self::Drawable,
        b: Self::Drawable,
        after: Self,
        a_after: Self::Drawable,
        b_after: Self::Drawable,
    ) -> bool {
        true
    }

    /// Asked for `a` with `b` to its right, the builder may become
    /// `after` and give `drawing`.
    open spec fn sets_beside(
        &self,
        a: Self::Drawable,
        b: Self::Drawable,
        after: Self,
        drawing: Self::Drawable,
    ) -> bool {
        true
    }

    /// Asked to put `b` below `a`, the builder may become `after` and
    /// leave the two as `a_after` and `b_after`.
    open spec fn puts_above(
        &self,
        a: Self::Drawable,
        b: Self::Drawable,
        after: Self,
        a_after: Self::Drawable,
        b_after: Self::Drawable,
    ) -> bool {
        true
    }

    /// Asked for `a` with `b` below it, the builder may become `after`
    /// and give `drawing`.
    open spec fn sets_above(
        &self,
        a: Self::Drawable,
        b: Self::Drawable,
        after: Self,
        drawing: Self::Drawable,
    ) -> bool {
        true
    }

    /// Asked for a drawing of nothing, the builder may become `after` and
    /// give `drawing`.
    open spec fn blank(&self, after: Self, drawing: Self::Drawable) -> bool {
        true
    }
}

/// Something that a builder can draw.
pub trait Widget<B: Builder> {
    /// The drawing of the widget.
    fn build_with(&self, b: &mut B) -> (drawing: B::Drawable)
        ensures
            self.draws(*old(b), *final(b), drawing),
    ;

    /// What the widget says of its own drawing: handed the builder
    /// `before`, it may leave it as `after` and give `drawing`. A widget
    /// that says nothing admits every outcome.
    open spec fn draws(&self, before: B, after: B, drawing: B::Drawable) -> bool {
        true
    }
}

/// The drawing that `builder` makes of `w`: what `w` draws with it.
pub fn build_from<B: Builder>(builder: &mut B, w: &dyn Widget<B>) -> (drawing: B::Drawable)
    ensures
        w.draws(*old(builder), *final(builder), drawing),
{
    w.build_with(builder)
}

} // verus!
