//! A user interface described as a tree of elements.

use vstd::prelude::*;

verus! {

/// The size of an element along one axis.
#[derive(Debug, Clone, Copy, PartialEq, Eq, Structural)]
pub enum Bound {
    /// Exactly this many cells.
    Fixed(usize),
    /// Whatever there is.
    Free,
}

impl Default for Bound {
    fn default() -> (bound: Self)
        ensures
            bound == Bound::Free,
    {
        Bound::Free
    }
}

/// The size of an element.
#[derive(Debug, Clone, Copy, PartialEq, Eq, Structural)]
pub struct Size {
    pub width: Bound,
    pub height: Bound,
}

impl Default for Size {
    fn default() -> (size: Self)
        ensures
            size == (Size { width: Bound::Free, height: Bound::Free }),
    {
        Size { width: Bound::Free, height: Bound::Free }
    }
}

impl Size {
    /// As wide as there is room, and `n` rows high.
    pub fn rows(n: usize) -> (size: Size)
        ensures
            size == (Size { width: Bound::Free, height: Bound::Fixed(n) }),
    {
        let width = Bound::Free;
        let height = Bound::Fixed(n);
        Size { width, height }
    }
}

/// What an element shows.
#[derive(Debug, PartialEq)]
pub enum Content {
    /// One line of text.
    Line(String),
    /// Paragraphs of text.
    Text(Vec<String>),
    /// Elements one below the other.
    VBox(Vec<Element>),
}

/// A node of the tree.
#[derive(Debug, PartialEq)]
pub struct Element {
    pub size: Size,
    pub content: Content,
}

impl Element {
    /// A line of text, one row high.
    pub fn line(line: &str) -> (element: Element)
        ensures
            element.size == (Size { width: Bound::Free, height: Bound::Fixed(1) }),
            element.content matches Content::Line(text) && text@ == line@,
    {
        let size = Size::rows(1);
        let content = Content::Line(line.to_owned());
        Element { size, content }
    }

    /// Paragraphs of text that take what room there is.
    pub fn text(text: Vec<String>) -> (element: Element)
        ensures
            element.size == (Size { width: Bound::Free, height: Bound::Free }),
            element.content == Content::Text(text),
    {
        let size = Size { width: Bound::Free, height: Bound::Free };
        let content = Content::Text(text);
        Element { size, content }
    }

    /// Elements one below the other that take what room there is.
    pub fn vbox(elems: Vec<Element>) -> (element: Element)
        ensures
            element.size == (Size { width: Bound::Free, height: Bound::Free }),
            element.content == Content::VBox(elems),
    {
        let size = Size { width: Bound::Free, height: Bound::Free };
        let content = Content::VBox(elems);
        Element { size, content }
    }
}

} // verus!
