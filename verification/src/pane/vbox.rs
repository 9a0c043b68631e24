//! A column of panes that counts its cells from one.

use vstd::prelude::*;
use crate::pane::linear::{fits, join_bounds, layout_bounds_proportional, place};
use crate::pane::widget::{Bound, BoundSize, Direction, Widget};
use crate::pane::{Pane, Position, Size};

verus! {

/// Widgets one below the other. The panes of the widgets are placed in
/// cells that are counted from one, as a terminal counts them.
pub struct VBox<W> {
    pub contents: Vec<W>,
}

impl<W: Widget> VBox<W> {
    /// An empty column.
    pub fn new() -> (vbox: VBox<W>)
        ensures
            vbox.contents@.len() == 0,
    {
        VBox { contents: Vec::new() }
    }

    /// What each widget asks for on each axis.
    fn bounds(&self) -> (bounds: (Vec<Bound>, Vec<Bound>))
        ensures
            bounds.0@.len() == self.contents@.len(),
            bounds.1@.len() == self.contents@.len(),
    {
        let mut widths: Vec<Bound> = Vec::new();
        let mut heights: Vec<Bound> = Vec::new();
        let mut i: usize = 0;
        while i < self.contents.len()
            invariant
                i <= self.contents@.len(),
                widths@.len() == i,
                heights@.len() == i,
            decreases self.contents@.len() - i,
        {
            let asked = self.contents[i].render_bounds();
            widths.push(asked.width);
            heights.push(asked.height);
            i = i + 1;
        }
        (widths, heights)
    }

    /// The panes of the widgets, one below the other from the first row
    /// on, each as wide as the column and as high as
    /// [`layout_bounds_proportional`] says. There are none where the widgets
    /// ask for more rows than the column has.
    ///
    /// The widgets say what they ask for and what their panes hold. A
    /// column without widgets has its panes, none, whatever its size. Each
    /// widget is handed the place that [`place`] gives it, counted from the
    /// first cell of the first row.
    pub fn panes(&self, size: Size) -> (children: Option<Vec<Pane>>)
        ensures
            self.contents@.len() == 0 ==> children is Some,
            children matches Some(panes) ==> panes@.len() == self.contents@.len(),
    {
        let (_, heights) = self.bounds();
        if !fits(heights.as_slice(), size.height) {
            return None;
        }
        let sizes = layout_bounds_proportional(heights.as_slice(), size.height);
        let places = place(Position::new(1, 1), Direction::Vertical, size, sizes.as_slice());
        let mut children: Vec<Pane> = Vec::new();
        let mut i: usize = 0;
        while i < self.contents.len()
            invariant
                i <= self.contents@.len(),
                places@.len() == self.contents@.len(),
                children@.len() == i,
            decreases self.contents@.len() - i,
        {
            let (position, extent) = places[i];
            children.push(self.contents[i].render(position, extent));
            i = i + 1;
        }
        Some(children)
    }
}

impl<W: Widget> Widget for VBox<W> {
    /// The panes of the widgets, as [`VBox::panes`] gives them.
    fn render_children(&self, size: Size) -> (children: Option<Vec<Pane>>)
        ensures
            self.contents@.len() == 0 ==> children is Some,
            children matches Some(panes) ==> panes@.len() == self.contents@.len(),
    {
        self.panes(size)
    }

    /// A column asks on each axis for what its widgets ask for together,
    /// as [`join_bounds`] says: for a share of what is left, and without
    /// widgets for nothing more.
    fn render_bounds(&self) -> (bounds: BoundSize)
        ensures
            bounds.width is AtLeast,
            bounds.height is AtLeast,
            self.contents@.len() == 0 ==> bounds == (BoundSize {
                width: Bound::AtLeast(0),
                height: Bound::AtLeast(0),
            }),
    {
        let (widths, heights) = self.bounds();
        join_bounds(widths.as_slice(), heights.as_slice())
    }
}

} // verus!
