//! A toolkit for text-cell user interfaces.
//!
//! Widgets render themselves into [`TextBlock`]s: grids of styled text that
//! carry the key and mouse handlers, the cursor positions and the hit map of
//! the widgets that produced them. Blocks are concatenated by the layout
//! engine into one frame, and the executor routes input events back through
//! the handler trees of that frame.

use vstd::prelude::*;
use vstd::std_specs::ops::AddSpecImpl;
use vstd::std_specs::ops::SubSpecImpl;
use vstd::std_specs::convert::FromSpecImpl;

pub mod ast;
pub mod backend;
pub mod chars;
pub mod executor;
pub mod grapheme;
pub mod indextree;
pub mod input;
pub mod ir;
pub mod pane;
pub mod widget;

pub use backend::FrameBuffer;
pub use executor::Executor;
pub use input::{InputEvent, Key, MouseButton, MouseEvent};
pub use ir::{ContentID, Frame, FrameLine, Segment, TextBlock, TextLine};
pub use widget::{App, LayoutError, Line, Linear, RenderContext, ShouldPropagate, Widget};

verus! {

/// Identifies a widget: the key under which its handlers and its cursor are
/// registered, and by which focus is given to it.
pub type Name = u64;

/// A request that a widget or the application sends to the executor.
#[derive(Debug, Clone, Copy, PartialEq, Eq, Structural)]
pub enum AppEvent {
    Exit,
    SetFocus(Name),
}

/// The extent of a grid of character cells.
#[derive(Debug, Clone, Copy, PartialEq, Eq, Structural)]
pub struct Size {
    pub cols: usize,
    pub rows: usize,
}

impl Size {
    pub fn new(cols: usize, rows: usize) -> (size: Self)
        ensures
            size == (Size { cols, rows }),
    {
        Size { cols, rows }
    }

    /// The extent along `dir`: rows for a vertical axis, columns for a
    /// horizontal one.
    pub open spec fn along(self, dir: Direction) -> usize {
        match dir {
            Direction::Vertical => self.rows,
            Direction::Horizontal => self.cols,
        }
    }

    /// The extent across `dir`.
    pub open spec fn across(self, dir: Direction) -> usize {
        match dir {
            Direction::Vertical => self.cols,
            Direction::Horizontal => self.rows,
        }
    }

    pub fn in_direction(&self, dir: Direction) -> (extent: usize)
        ensures
            extent == self.along(dir),
    {
        match dir {
            Direction::Vertical => self.rows,
            Direction::Horizontal => self.cols,
        }
    }

    pub fn against_direction(&self, dir: Direction) -> (extent: usize)
        ensures
            extent == self.across(dir),
    {
        match dir {
            Direction::Horizontal => self.rows,
            Direction::Vertical => self.cols,
        }
    }
}

/// The axis along which a layout places its children.
#[derive(Debug, Clone, Copy, PartialEq, Eq, Structural)]
pub enum Direction {
    Vertical,
    Horizontal,
}

impl Direction {
    pub open spec fn flipped(self) -> Direction {
        match self {
            Direction::Vertical => Direction::Horizontal,
            Direction::Horizontal => Direction::Vertical,
        }
    }

    /// The other axis.
    pub fn against(self) -> (other: Self)
        ensures
            other == self.flipped(),
    {
        match self {
            Direction::Vertical => Direction::Horizontal,
            Direction::Horizontal => Direction::Vertical,
        }
    }
}

/// Whether a widget keeps its natural size along an axis or takes a share of
/// the space that is left.
#[derive(Debug, Clone, Copy, PartialEq, Eq, Structural)]
pub enum GrowthPolicy {
    FixedSize,
    Greedy,
}

impl Default for GrowthPolicy {
    fn default() -> (policy: Self)
        ensures
            policy == GrowthPolicy::Greedy,
    {
        GrowthPolicy::Greedy
    }
}

/// A growth policy for each axis.
#[derive(Debug, Clone, Copy, PartialEq, Eq, Structural)]
pub struct FullGrowthPolicy {
    pub width: GrowthPolicy,
    pub height: GrowthPolicy,
}

impl Default for FullGrowthPolicy {
    fn default() -> (policy: Self)
        ensures
            policy == (FullGrowthPolicy {
                width: GrowthPolicy::Greedy,
                height: GrowthPolicy::Greedy,
            }),
    {
        FullGrowthPolicy { width: GrowthPolicy::Greedy, height: GrowthPolicy::Greedy }
    }
}

impl FullGrowthPolicy {
    pub fn fixed_height() -> (policy: FullGrowthPolicy)
        ensures
            policy == (FullGrowthPolicy {
                width: GrowthPolicy::Greedy,
                height: GrowthPolicy::FixedSize,
            }),
    {
        let width = GrowthPolicy::Greedy;
        let height = GrowthPolicy::FixedSize;
        FullGrowthPolicy { width, height }
    }

    pub fn fixed_width() -> (policy: FullGrowthPolicy)
        ensures
            policy == (FullGrowthPolicy {
                width: GrowthPolicy::FixedSize,
                height: GrowthPolicy::Greedy,
            }),
    {
        let width = GrowthPolicy::FixedSize;
        let height = GrowthPolicy::Greedy;
        FullGrowthPolicy { width, height }
    }

    /// The policy along `dir`.
    pub open spec fn along(self, dir: Direction) -> GrowthPolicy {
        match dir {
            Direction::Vertical => self.height,
            Direction::Horizontal => self.width,
        }
    }

    pub fn in_direction(&self, dir: Direction) -> (policy: GrowthPolicy)
        ensures
            policy == self.along(dir),
    {
        match dir {
            Direction::Vertical => self.height,
            Direction::Horizontal => self.width,
        }
    }
}

/// A cell of a grid, counted from the grid's top left corner.
#[derive(Debug, Clone, Copy, PartialEq, Eq, Structural)]
pub struct Pos {
    pub col: usize,
    pub row: usize,
}

impl Pos {
    pub fn new(col: usize, row: usize) -> (pos: Self)
        ensures
            pos == (Pos { col, row }),
    {
        Self { col, row }
    }

    /// This position seen from a grid whose origin lies `by` cells up and to
    /// the left.
    pub open spec fn shifted(self, by: Pos) -> Pos {
        Pos { col: (self.col + by.col) as usize, row: (self.row + by.row) as usize }
    }

    /// Neither coordinate of `self` exceeds that of `other`.
    pub open spec fn within(self, other: Pos) -> bool {
        self.col <= other.col && self.row <= other.row
    }

    /// The position lies in a row of a grid of the extent `size`, at one of
    /// its cells or just behind the last.
    pub open spec fn inside(self, size: Size) -> bool {
        self.col <= size.cols && self.row < size.rows
    }
}

impl std::ops::Add for Pos {
    type Output = Pos;

    fn add(self, other: Pos) -> (sum: Pos) {
        let col = self.col + other.col;
        let row = self.row + other.row;
        Pos { col, row }
    }
}

impl AddSpecImpl for Pos {
    open spec fn obeys_add_spec() -> bool {
        true
    }

    open spec fn add_req(self, other: Pos) -> bool {
        self.col + other.col <= usize::MAX && self.row + other.row <= usize::MAX
    }

    open spec fn add_spec(self, other: Pos) -> Pos {
        self.shifted(other)
    }
}

impl std::ops::Sub for Pos {
    type Output = Pos;

    fn sub(self, other: Pos) -> (difference: Pos) {
        let col = self.col - other.col;
        let row = self.row - other.row;
        Pos { col, row }
    }
}

impl SubSpecImpl for Pos {
    open spec fn obeys_sub_spec() -> bool {
        true
    }

    open spec fn sub_req(self, other: Pos) -> bool {
        other.within(self)
    }

    open spec fn sub_spec(self, other: Pos) -> Pos {
        Pos { col: (self.col - other.col) as usize, row: (self.row - other.row) as usize }
    }
}

/// The size that a render pass allows a widget: `None` leaves an axis
/// unconstrained.
#[derive(Debug, Clone, Copy, PartialEq, Eq, Structural)]
pub struct RenderBound {
    pub width: Option<usize>,
    pub height: Option<usize>,
}

impl RenderBound {
    pub fn new(width: Option<usize>, height: Option<usize>) -> (bound: Self)
        ensures
            bound == (RenderBound { width, height }),
    {
        Self { width, height }
    }

    /// The constraint along `dir`.
    pub open spec fn along(self, dir: Direction) -> Option<usize> {
        match dir {
            Direction::Horizontal => self.width,
            Direction::Vertical => self.height,
        }
    }

    /// The constraint across `dir`.
    pub open spec fn across(self, dir: Direction) -> Option<usize> {
        match dir {
            Direction::Vertical => self.width,
            Direction::Horizontal => self.height,
        }
    }

    /// This bound with the constraint along `dir` replaced by `constraint`.
    pub open spec fn with_along(self, dir: Direction, constraint: Option<usize>) -> RenderBound {
        match dir {
            Direction::Vertical => RenderBound { width: self.width, height: constraint },
            Direction::Horizontal => RenderBound { width: constraint, height: self.height },
        }
    }

    /// A block of extent `size` meets every constraint of this bound.
    pub open spec fn admits(self, size: Size) -> bool {
        &&& self.width matches Some(w) ==> size.cols == w
        &&& self.height matches Some(h) ==> size.rows == h
    }

    pub fn against_direction(&self, dir: Direction) -> (constraint: Option<usize>)
        ensures
            constraint == self.across(dir),
    {
        match dir {
            Direction::Vertical => self.width,
            Direction::Horizontal => self.height,
        }
    }

    pub fn in_direction(&self, dir: Direction) -> (constraint: Option<usize>)
        ensures
            constraint == self.along(dir),
    {
        match dir {
            Direction::Horizontal => self.width,
            Direction::Vertical => self.height,
        }
    }

    /// Lifts the constraint along `dir`.
    pub fn free_direction(&self, dir: Direction) -> (bound: Self)
        ensures
            bound == self.with_along(dir, None),
    {
        match dir {
            Direction::Vertical => Self { width: self.width, height: None },
            Direction::Horizontal => Self { width: None, height: self.height },
        }
    }

    /// Sets the constraint along `dir`.
    pub fn constrain_direction(&self, dir: Direction, constraint: usize) -> (bound: Self)
        ensures
            bound == self.with_along(dir, Some(constraint)),
    {
        let new = Some(constraint);
        match dir {
            Direction::Vertical => Self { width: self.width, height: new },
            Direction::Horizontal => Self { width: new, height: self.height },
        }
    }

    pub fn constrain_height(&self, constraint: usize) -> (bound: Self)
        ensures
            bound == (RenderBound { width: self.width, height: Some(constraint) }),
    {
        Self { width: self.width, height: Some(constraint) }
    }

    /// Sets the constraint across `dir`.
    pub fn constrain_against(&self, dir: Direction, constraint: usize) -> (bound: Self)
        ensures
            bound == self.with_along(dir.flipped(), Some(constraint)),
    {
        self.constrain_direction(dir.against(), constraint)
    }
}

impl From<Size> for RenderBound {
    fn from(size: Size) -> (bound: RenderBound) {
        let width = Some(size.cols);
        let height = Some(size.rows);
        RenderBound { width, height }
    }
}

impl FromSpecImpl<Size> for RenderBound {
    open spec fn obeys_from_spec() -> bool {
        true
    }

    open spec fn from_spec(size: Size) -> RenderBound {
        RenderBound { width: Some(size.cols), height: Some(size.rows) }
    }
}

/// A terminal colour.
#[derive(Debug, Clone, Copy, PartialEq, Eq, Structural)]
pub enum Color {
    LightBlack,
    LightBlue,
    LightCyan,
    LightGreen,
    LightMagenta,
    LightRed,
    LightWhite,
    LightYellow,
    Black,
    Blue,
    Cyan,
    Green,
    Magenta,
    Red,
    White,
    Yellow,
    Rgb(u8, u8, u8),
    Reset,
}

} // verus!
