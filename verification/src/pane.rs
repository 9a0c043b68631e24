//! Panes: rectangles of text at a position, which may hold other panes.

use vstd::prelude::*;
use vstd::std_specs::ops::AddSpecImpl;
use vstd::std_specs::ops::SubSpecImpl;
use crate::chars::{chars_of, string_of};
use crate::grapheme::texts;

pub mod input;
pub mod linear;
pub mod text;
pub mod vbox;
pub mod widget;

pub use input::TextInput;
pub use text::Text;
pub use vbox::VBox;
pub use widget::{Bound, BoundSize, Direction, Widget};

verus! {

/// Where a pane begins, in cells from the origin of the pane that holds
/// it.
#[derive(Debug, Clone, Copy, PartialEq, Eq, Structural)]
pub struct Position {
    pub x: u16,
    pub y: u16,
}

impl Position {
    pub fn new(x: u16, y: u16) -> (position: Self)
        ensures
            position == (Position { x, y }),
    {
        Position { x, y }
    }
}

impl std::ops::Add for Position {
    type Output = Position;

    fn add(self, other: Position) -> (sum: Position) {
        Position { x: self.x + other.x, y: self.y + other.y }
    }
}

impl AddSpecImpl for Position {
    open spec fn obeys_add_spec() -> bool {
        true
    }

    open spec fn add_req(self, other: Position) -> bool {
        self.x + other.x <= u16::MAX && self.y + other.y <= u16::MAX
    }

    open spec fn add_spec(self, other: Position) -> Position {
        Position { x: (self.x + other.x) as u16, y: (self.y + other.y) as u16 }
    }
}

impl std::ops::Sub for Position {
    type Output = Position;

    fn sub(self, other: Position) -> (difference: Position) {
        Position { x: self.x - other.x, y: self.y - other.y }
    }
}

impl SubSpecImpl for Position {
    open spec fn obeys_sub_spec() -> bool {
        true
    }

    open spec fn sub_req(self, other: Position) -> bool {
        other.x <= self.x && other.y <= self.y
    }

    open spec fn sub_spec(self, other: Position) -> Position {
        Position { x: (self.x - other.x) as u16, y: (self.y - other.y) as u16 }
    }
}

/// The extent of a pane in cells.
#[derive(Debug, Clone, Copy, PartialEq, Eq, Structural)]
pub struct Size {
    pub width: u16,
    pub height: u16,
}

impl Size {
    pub fn new(width: u16, height: u16) -> (size: Self)
        ensures
            size == (Size { width, height }),
    {
        Size { width, height }
    }
}

/// The part that two rectangles have in common, if their extents overlap
/// or touch on both axes.
pub open spec fn overlap(a_pos: Position, a_size: Size, b_pos: Position, b_size: Size) -> Option<
    (Position, Size),
> {
    if a_pos.x + a_size.width < b_pos.x || b_pos.x + b_size.width < a_pos.x {
        None
    } else if a_pos.y + a_size.height < b_pos.y || b_pos.y + b_size.height < a_pos.y {
        None
    } else {
        let x = if a_pos.x >= b_pos.x {
            a_pos.x
        } else {
            b_pos.x
        };
        let y = if a_pos.y >= b_pos.y {
            a_pos.y
        } else {
            b_pos.y
        };
        let right = if a_pos.x + a_size.width <= b_pos.x + b_size.width {
            a_pos.x + a_size.width
        } else {
            b_pos.x + b_size.width
        };
        let bottom = if a_pos.y + a_size.height <= b_pos.y + b_size.height {
            a_pos.y + a_size.height
        } else {
            b_pos.y + b_size.height
        };
        Some(
            (
                Position { x, y },
                Size { width: (right - x) as u16, height: (bottom - y) as u16 },
            ),
        )
    }
}

/// The part that two rectangles have in common.
pub fn intersect_boxes(a_pos: Position, a_size: Size, b_pos: Position, b_size: Size) -> (common:
    Option<(Position, Size)>)
    ensures
        common == overlap(a_pos, a_size, b_pos, b_size),
{
    let a_right: u32 = a_pos.x as u32 + a_size.width as u32;
    let b_right: u32 = b_pos.x as u32 + b_size.width as u32;
    let a_bottom: u32 = a_pos.y as u32 + a_size.height as u32;
    let b_bottom: u32 = b_pos.y as u32 + b_size.height as u32;
    if a_right < b_pos.x as u32 || b_right < a_pos.x as u32 {
        return None;
    }
    if a_bottom < b_pos.y as u32 || b_bottom < a_pos.y as u32 {
        return None;
    }
    let x: u16 = if a_pos.x >= b_pos.x {
        a_pos.x
    } else {
        b_pos.x
    };
    let y: u16 = if a_pos.y >= b_pos.y {
        a_pos.y
    } else {
        b_pos.y
    };
    let right: u32 = if a_right <= b_right {
        a_right
    } else {
        b_right
    };
    let bottom: u32 = if a_bottom <= b_bottom {
        a_bottom
    } else {
        b_bottom
    };
    let width: u32 = right - x as u32;
    let height: u32 = bottom - y as u32;
    Some((Position::new(x, y), Size::new(width as u16, height as u16)))
}

/// The characters of `line` from `from` on, up to `count` of them.
pub open spec fn window(line: Seq<char>, from: nat, count: nat) -> Seq<char> {
    let start = if from <= line.len() {
        from
    } else {
        line.len()
    };
    let end = if start + count <= line.len() {
        start + count
    } else {
        line.len()
    };
    line.subrange(start as int, end as int)
}

/// The rows of `content` from row `from.y` on, up to `size.height` of
/// them, and of each the characters from `from.x` on, up to `size.width`.
pub open spec fn windowed(content: Seq<Seq<char>>, from: Position, size: Size) -> Seq<Seq<char>> {
    let start = if from.y <= content.len() {
        from.y as nat
    } else {
        content.len()
    };
    let end = if start + size.height <= content.len() {
        start + size.height as nat
    } else {
        content.len()
    };
    Seq::new(
        (end - start) as nat,
        |r: int| window(content[start + r], from.x as nat, size.width as nat),
    )
}

/// The part of `content` that shows through a window.
pub fn clip_content(content: Vec<String>, from: Position, size: Size) -> (clipped: Vec<String>)
    ensures
        texts(clipped@) == windowed(texts(content@), from, size),
{
    let start: usize = if from.y as usize <= content.len() {
        from.y as usize
    } else {
        content.len()
    };
    let end: usize = if size.height as usize <= content.len() - start {
        start + size.height as usize
    } else {
        content.len()
    };
    let mut clipped: Vec<String> = Vec::new();
    let mut r: usize = start;
    while r < end
        invariant
            start <= r <= end <= content@.len(),
            clipped@.len() == r - start,
            forall|k: int|
                0 <= k < clipped@.len() ==> (#[trigger] clipped@[k])@ == window(
                    content@[start + k]@,
                    from.x as nat,
                    size.width as nat,
                ),
        decreases end - r,
    {
        let chars = chars_of(content[r].as_str());
        let left: usize = if from.x as usize <= chars.len() {
            from.x as usize
        } else {
            chars.len()
        };
        let right: usize = if size.width as usize <= chars.len() - left {
            left + size.width as usize
        } else {
            chars.len()
        };
        clipped.push(string_of(&chars, left, right));
        r = r + 1;
    }
    proof {
        assert(texts(clipped@) =~= windowed(texts(content@), from, size));
    }
    clipped
}

/// A rectangle of text at a position, which may hold other panes. The
/// positions of those count from the position of the pane that holds
/// them.
#[derive(Debug, PartialEq)]
pub struct Pane {
    pub position: Position,
    pub size: Size,
    pub content: Option<Vec<String>>,
    pub focus: Option<Position>,
    pub children: Option<Vec<Pane>>,
    pub style: Option<String>,
}

impl Pane {
    /// A pane that shows `content`.
    pub fn new(position: Position, size: Size, content: Vec<String>) -> (pane: Pane)
        ensures
            pane.position == position,
            pane.size == size,
            pane.content == Some(content),
            pane.focus is None,
            pane.children is None,
            pane.style is None,
    {
        Pane { position, size, content: Some(content), focus: None, children: None, style: None }
    }

    /// An empty pane of one row, as wide as `width` where that is a width
    /// that a pane can have, and else of what is left of `width` after the
    /// 65536s are taken out of it.
    pub fn new_width(width: usize) -> (pane: Pane)
        ensures
            pane.position == (Position { x: 0, y: 0 }),
            pane.size == (Size { width: (width % 0x10000) as u16, height: 1 }),
            pane.content is None,
            pane.focus is None,
            pane.children is None,
            pane.style is None,
    {
        Pane {
            position: Position::new(0, 0),
            size: Size::new((width % 0x10000) as u16, 1),
            content: None,
            focus: None,
            children: None,
            style: None,
        }
    }

    /// A pane that shows `content` in the style named `stylename`.
    pub fn new_styled(position: Position, size: Size, content: Vec<String>, stylename: &str) -> (pane:
        Pane)
        ensures
            pane.position == position,
            pane.size == size,
            pane.content == Some(content),
            pane.focus is None,
            pane.children is None,
            pane.style matches Some(style) && style@ == stylename@,
    {
        Pane {
            position,
            size,
            content: Some(content),
            focus: None,
            children: None,
            style: Some(stylename.to_owned()),
        }
    }

    /// A pane that shows `content` and holds `children`.
    pub fn new_children(position: Position, size: Size, content: Vec<String>, children: Vec<Pane>) -> (pane:
        Pane)
        ensures
            pane.position == position,
            pane.size == size,
            pane.content == Some(content),
            pane.focus is None,
            pane.style is None,
            pane.children == if children@.len() > 0 {
                Some(children)
            } else {
                None
            },
    {
        let children = if children.len() > 0 {
            Some(children)
        } else {
            None
        };
        Pane { position, size, content: Some(content), focus: None, children, style: None }
    }

    /// The pane moved by `pos`.
    pub fn offset(self, pos: Position) -> (pane: Self)
        requires
            self.position.x + pos.x <= u16::MAX,
            self.position.y + pos.y <= u16::MAX,
        ensures
            pane.position == (Position {
                x: (self.position.x + pos.x) as u16,
                y: (self.position.y + pos.y) as u16,
            }),
            pane.size == self.size,
            pane.content == self.content,
            pane.focus == self.focus,
            pane.children == self.children,
            pane.style == self.style,
    {
        let mut pane = self;
        pane.position = pane.position + pos;
        pane
    }

    /// Whether the pane and the rectangle overlap or touch.
    pub fn check_intersect(&self, pos: Position, size: Size) -> (intersects: bool)
        ensures
            intersects == overlap(self.position, self.size, pos, size) is Some,
    {
        intersect_boxes(self.position, self.size, pos, size).is_some()
    }

    /// Every child lies within a pane of the extent `size`.
    pub open spec fn holds_children(children: Seq<Pane>, size: Size) -> bool {
        forall|k: int|
            0 <= k < children.len() ==> (#[trigger] children[k]).position.x
                + children[k].size.width <= size.width && children[k].position.y
                + children[k].size.height <= size.height
    }

    /// The part of the pane that lies in the rectangle, if any: the pane
    /// gets the position and the size of what it has in common with the
    /// rectangle, shows the part of its text that lies there, and holds the
    /// parts of its children that lie there, in their order.
    pub fn clip(self, clip_pos: Position, clip_size: Size) -> (clipped: Option<Pane>)
        ensures
            match overlap(self.position, self.size, clip_pos, clip_size) {
                None => clipped is None,
                Some((position, size)) => clipped matches Some(pane) && {
                    &&& pane.position == position
                    &&& pane.size == size
                    &&& pane.focus == self.focus
                    &&& pane.style == self.style
                    &&& match self.content {
                        None => pane.content is None,
                        Some(content) => pane.content matches Some(shown) && texts(shown@)
                            == windowed(
                            texts(content@),
                            Position {
                                x: (position.x - self.position.x) as u16,
                                y: (position.y - self.position.y) as u16,
                            },
                            size,
                        ),
                    }
                    &&& match self.children {
                        None => pane.children is None,
                        Some(children) => pane.children matches Some(inner) && inner@.len()
                            <= children@.len() && Pane::holds_children(inner@, size),
                    }
                },
            },
        decreases self,
    {
        let (clip_pos, clip_size) = match intersect_boxes(
            self.position,
            self.size,
            clip_pos,
            clip_size,
        ) {
            None => {
                return None;
            },
            Some(rect) => rect,
        };
        let Pane { position, size, content, focus, children, style } = self;
        let inner_pos = clip_pos - position;
        let content = match content {
            None => None,
            Some(content) => Some(clip_content(content, inner_pos, clip_size)),
        };
        let children = match children {
            None => None,
            Some(children) => {
                let ghost given = children@;
                let mut kept: Vec<Pane> = Vec::new();
                for child in it: children
                    invariant
                        it.seq() == given,
                        self.children == Some(children),
                        kept@.len() <= it.index(),
                        Pane::holds_children(kept@, clip_size),
                {
                    let ghost k = it.index() as int;
                    proof {
                        assert(self.children->0 == children);
                        assert(decreases_to!(self => self.children->0));
                        assert(decreases_to!(children => children@));
                        assert(decreases_to!(children@ => children@[k]));
                    }
                    let ghost whole = child;
                    match child.clip(inner_pos, clip_size) {
                        Some(part) => {
                            let mut part = part;
                            part.position = part.position - inner_pos;
                            kept.push(part);
                        },
                        None => {},
                    }
                }
                Some(kept)
            },
        };
        Some(Pane { position: clip_pos, size: clip_size, content, focus, children, style })
    }

    /// Adds a child, and makes the pane large enough to hold it.
    pub fn push_child(&mut self, child: Pane)
        requires
            child.position.x + child.size.width <= u16::MAX,
            child.position.y + child.size.height <= u16::MAX,
        ensures
            final(self).position == old(self).position,
            final(self).content == old(self).content,
            final(self).focus == old(self).focus,
            final(self).style == old(self).style,
            final(self).size.width == if child.position.x + child.size.width >= old(self).size.width {
                (child.position.x + child.size.width) as u16
            } else {
                old(self).size.width
            },
            final(self).size.height == if child.position.y + child.size.height >= old(self).size.height {
                (child.position.y + child.size.height) as u16
            } else {
                old(self).size.height
            },
            final(self).children matches Some(children) && children@ == (match old(self).children {
                Some(before) => before@,
                None => Seq::empty(),
            }).push(child),
    {
        let mut children = match self.children.take() {
            Some(ch) => ch,
            None => Vec::new(),
        };
        let bottom = child.position.y + child.size.height;
        let right = child.position.x + child.size.width;
        if bottom > self.size.height {
            self.size.height = bottom;
        }
        if right > self.size.width {
            self.size.width = right;
        }
        children.push(child);
        self.children = Some(children);
    }

    /// Gives the pane the style named `style`.
    pub fn set_style(&mut self, style: &str)
        ensures
            final(self).style matches Some(name) && name@ == style@,
            final(self).position == old(self).position,
            final(self).size == old(self).size,
            final(self).content == old(self).content,
            final(self).focus == old(self).focus,
            final(self).children == old(self).children,
    {
        self.style = Some(style.to_owned());
    }
}

} // verus!
