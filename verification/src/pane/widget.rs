//! What renders into panes.

use vstd::prelude::*;
use crate::pane::{Pane, Position, Size};

verus! {

/// The axis of a layout of panes.
#[derive(Debug, Clone, Copy, PartialEq, Eq, Structural)]
pub enum Direction {
    Horizontal,
    Vertical,
}

/// What a widget asks for along one axis.
#[derive(Debug, Clone, Copy, PartialEq, Eq, Structural)]
pub enum Bound {
    /// Exactly this many cells.
    Fixed(u16),
    /// This many cells, and a share of what is left.
    AtLeast(u16),
}

/// What a widget asks for on both axes.
#[derive(Debug, Clone, Copy, PartialEq, Eq, Structural)]
pub struct BoundSize {
    pub width: Bound,
    pub height: Bound,
}

impl BoundSize {
    /// The bound along the width and the bound along the height.
    pub fn split(&self) -> (bounds: (Bound, Bound))
        ensures
            bounds == (self.width, self.height),
    {
        (self.width, self.height)
    }
}

/// Something that shows in a pane.
pub trait Widget {
    /// The pane that shows the widget at `position` in the extent `size`.
    fn render(&self, position: Position, size: Size) -> (pane: Pane)
        default_ensures
            pane.position == position,
            pane.size == size,
    {
        let content = self.render_content(size);
        let focus = self.render_focus(size);
        let children = self.render_children(size);
        let style = self.render_style();
        Pane { position, size, content, focus, children, style }
    }

    /// The panes of the widgets that the widget holds, if it holds any.
    fn render_children(&self, _size: Size) -> (children: Option<Vec<Pane>>)
        default_ensures
            children is None,
    {
        None
    }

    /// The rows of text to show in a pane of the extent `size`, if the
    /// widget shows text.
    fn render_content(&self, _size: Size) -> (content: Option<Vec<String>>)
        default_ensures
            content is None,
    {
        None
    }

    /// Where the cursor stands in a pane of the extent `size`, if the
    /// widget has one.
    fn render_focus(&self, _size: Size) -> (focus: Option<Position>)
        default_ensures
            focus is None,
    {
        None
    }

    /// The name of the style of the pane, if it has one of its own.
    fn render_style(&self) -> (style: Option<String>)
        default_ensures
            style is None,
    {
        None
    }

    /// What the widget asks for. A widget that says nothing asks for a cell
    /// and a share of what is left, on both axes.
    fn render_bounds(&self) -> (bounds: BoundSize)
        default_ensures
            bounds == (BoundSize { width: Bound::AtLeast(1), height: Bound::AtLeast(1) }),
    {
        BoundSize { width: Bound::AtLeast(1), height: Bound::AtLeast(1) }
    }
}

impl<T: Widget> Widget for Box<T> {
    fn render(&self, position: Position, size: Size) -> Pane {
        (**self).render(position, size)
    }

    fn render_content(&self, size: Size) -> Option<Vec<String>> {
        (**self).render_content(size)
    }

    fn render_focus(&self, size: Size) -> Option<Position> {
        (**self).render_focus(size)
    }

    fn render_children(&self, size: Size) -> Option<Vec<Pane>> {
        (**self).render_children(size)
    }

    fn render_style(&self) -> Option<String> {
        (**self).render_style()
    }

    fn render_bounds(&self) -> BoundSize {
        (**self).render_bounds()
    }
}

impl<T: Widget> Widget for std::sync::Arc<T> {
    fn render(&self, position: Position, size: Size) -> Pane {
        (**self).render(position, size)
    }

    fn render_content(&self, size: Size) -> Option<Vec<String>> {
        (**self).render_content(size)
    }

    fn render_focus(&self, size: Size) -> Option<Position> {
        (**self).render_focus(size)
    }

    fn render_children(&self, size: Size) -> Option<Vec<Pane>> {
        (**self).render_children(size)
    }

    fn render_style(&self) -> Option<String> {
        (**self).render_style()
    }

    fn render_bounds(&self) -> BoundSize {
        (**self).render_bounds()
    }
}

} // verus!
