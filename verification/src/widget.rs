//! Widgets and the context in which they render.

use vstd::prelude::*;
use crate::input::InputEvent;
use crate::ir::block::{bounded_height, bounded_width, clipped_row, wrapped, wrapped_row};
use crate::grapheme::texts;
use crate::ir::{ContentID, TextBlock};
use crate::{Color, FullGrowthPolicy, Name, RenderBound, Size};

pub mod layout;
pub mod line;
pub mod list;
pub mod log;
pub mod readline;
pub mod simple_input;

pub use layout::Linear;
pub use line::Line;
pub use list::List;
pub use log::Log;
pub use simple_input::SimpleInput;

verus! {

/// What a handler says of an event: whether the handlers of the widgets
/// around its own are still to see it.
#[derive(Debug, Clone, Copy, PartialEq, Eq, Structural)]
pub enum ShouldPropagate {
    Continue,
    Stop,
}

/// Why a tree of widgets could not be laid out. Each of these is a mistake
/// in how the widgets were put together, not a condition of the input.
#[derive(Debug, Clone, Copy, PartialEq, Eq, Structural)]
pub enum LayoutError {
    /// A widget needs a bound along the given axis and was given none.
    Unconstrained(crate::Direction),
    /// A widget was given the width `expected` and rendered a block of the
    /// width `found`.
    BadWidth { expected: usize, found: usize },
    /// A widget was given the height `expected` and rendered a block of the
    /// height `found`.
    BadHeight { expected: usize, found: usize },
    /// A layout has no children.
    NoChildren,
    /// The children of a layout that keep their own size take more space
    /// than the layout has.
    OutOfSpace,
    /// The blocks of the children cannot be joined: they differ in size
    /// across the layout's axis, or there is more in them than can be
    /// counted.
    Unjoinable,
    /// A list was asked to show the item at an index that it has no widget
    /// for.
    NoSuchWidget(usize),
}

/// What a block rendered under `bound` is taken for: the block where it has
/// the size that `bound` asks for, the error of the widget where it failed,
/// and else the axis on which the block missed the bound, the width first.
pub open spec fn sized<K, M>(
    bound: RenderBound,
    rendered: Result<TextBlock<K, M>, LayoutError>,
) -> Result<TextBlock<K, M>, LayoutError> {
    match rendered {
        Err(error) => Err(error),
        Ok(block) => {
            if bound.width is Some && bound.width != Some(block.cols()) {
                Err(LayoutError::BadWidth { expected: bound.width->0, found: block.cols() })
            } else if bound.height is Some && bound.height != Some(block.rows()) {
                Err(LayoutError::BadHeight { expected: bound.height->0, found: block.rows() })
            } else {
                Ok(block)
            }
        },
    }
}

/// Holds a rendered block to the bound that it was rendered under.
pub fn check_size<K, M>(
    bound: RenderBound,
    rendered: Result<TextBlock<K, M>, LayoutError>,
) -> (checked: Result<TextBlock<K, M>, LayoutError>)
    ensures
        checked == sized(bound, rendered),
        checked matches Ok(block) ==> bound.admits(block.extent()),
{
    match rendered {
        Err(error) => Err(error),
        Ok(block) => {
            let size = block.size();
            if let Some(width) = bound.width {
                if width != size.cols {
                    return Err(LayoutError::BadWidth { expected: width, found: size.cols });
                }
            }
            if let Some(height) = bound.height {
                if height != size.rows {
                    return Err(LayoutError::BadHeight { expected: height, found: size.rows });
                }
            }
            Ok(block)
        },
    }
}

/// What a widget is handed when it renders: the bound that its block has to
/// keep, and the name and the kind of the widget for the style of its text.
#[derive(Debug, Clone, Copy)]
pub struct RenderContext {
    bound: RenderBound,
    name: Option<Name>,
    widget_type: &'static str,
}

impl RenderContext {
    /// The bound of this context.
    pub closed spec fn bounds(&self) -> RenderBound {
        self.bound
    }

    /// The name of the widget that renders in this context.
    pub closed spec fn owner(&self) -> Option<Name> {
        self.name
    }

    /// The kind of the widget that renders in this context.
    pub closed spec fn kind(&self) -> &'static str {
        self.widget_type
    }

    /// The tag of text of the class `class` that is rendered in this
    /// context.
    pub open spec fn content_id(&self, class: &'static str) -> ContentID {
        ContentID { name: self.owner(), widget_type: self.kind(), class }
    }

    /// The context in which `widget` renders under `bound`.
    pub fn from_widget<K, M, W: Widget<K, M> + ?Sized>(bound: RenderBound, widget: &W) -> (ctx: Self)
        ensures
            ctx.bounds() == bound,
    {
        let name = widget.name();
        let widget_type = widget.widget_type();
        Self::new(bound, name, widget_type)
    }

    /// A context for the widget `name` of the kind `widget_type`.
    pub fn new(bound: RenderBound, name: Option<Name>, widget_type: &'static str) -> (ctx: Self)
        ensures
            ctx.bounds() == bound,
            ctx.owner() == name,
            ctx.kind() == widget_type,
    {
        Self { bound, name, widget_type }
    }

    /// This context with another bound.
    pub fn with_bound(&self, bound: RenderBound) -> (ctx: Self)
        ensures
            ctx.bounds() == bound,
            ctx.owner() == self.owner(),
            ctx.kind() == self.kind(),
    {
        Self::new(bound, self.name, self.widget_type)
    }

    /// Renders `widget` in its own context under the bound of this one:
    /// the outcome is what the widget shows in a context with that bound.
    pub fn render<K, M, W: Widget<K, M> + ?Sized>(&self, widget: &W) -> (rendered: Result<
        TextBlock<K, M>,
        LayoutError,
    >)
        ensures
            rendered matches Ok(block) ==> block.wf(),
            exists|ctx: RenderContext|
                ctx.bounds() == self.bounds() && #[trigger] widget.shows(ctx, rendered),
    {
        let ctx = Self::from_widget(self.bound, widget);
        let rendered = widget.render(ctx);
        proof {
            assert(ctx.bounds() == self.bounds() && widget.shows(ctx, rendered));
        }
        rendered
    }

    /// Renders `widget` under `bound` and holds the block to it: a block
    /// that misses the bound on an axis is an error, as [`sized`] says of
    /// what the widget shows in a context with that bound.
    pub fn render_sized<K, M, W: Widget<K, M> + ?Sized>(
        &self,
        bound: RenderBound,
        widget: &W,
    ) -> (rendered: Result<TextBlock<K, M>, LayoutError>)
        ensures
            rendered matches Ok(block) ==> block.wf() && bound.admits(block.extent()),
            exists|ctx: RenderContext, shown: Result<TextBlock<K, M>, LayoutError>|
                ctx.bounds() == bound && #[trigger] widget.shows(ctx, shown) && rendered == sized(
                    bound,
                    shown,
                ),
    {
        let ctx = Self::from_widget(bound, widget);
        let shown = widget.render(ctx);
        proof {
            assert(ctx.bounds() == bound && widget.shows(ctx, shown));
        }
        check_size(bound, shown)
    }

    pub fn bound(&self) -> (bound: RenderBound)
        ensures
            bound == self.bounds(),
    {
        self.bound
    }

    /// A block that shows each of `lines` in a row of its own, cut or filled
    /// up to the bound of this context.
    pub fn clip_lines<K, M>(&self, class: &'static str, lines: Vec<String>) -> (block: TextBlock<
        K,
        M,
    >)
        ensures
            block.wf(),
            block.is_inert(),
            block.cols() == bounded_width(texts(lines@), self.bounds()),
            block.rows() == bounded_height(lines@.len(), self.bounds()),
            block.content() == Seq::new(
                block.rows() as nat,
                |r: int|
                    clipped_row(self.content_id(class), texts(lines@), block.cols() as nat, r),
            ),
    {
        TextBlock::clip_lines(self.name, self.widget_type, class, lines, self.bound)
    }

    /// A block that shows `lines` as paragraphs, wrapped at the width of
    /// this context.
    pub fn wrap_lines<K, M>(&self, class: &'static str, lines: Vec<String>) -> (block: TextBlock<
        K,
        M,
    >)
        ensures
            block.wf(),
            block.is_inert(),
            block.cols() == bounded_width(texts(lines@), self.bounds()),
            block.rows() == bounded_height(
                wrapped(texts(lines@), block.cols() as nat).len(),
                self.bounds(),
            ),
            block.content() == Seq::new(
                block.rows() as nat,
                |r: int|
                    wrapped_row(
                        self.content_id(class),
                        wrapped(texts(lines@), block.cols() as nat),
                        block.cols() as nat,
                        r,
                    ),
            ),
    {
        let id = ContentID::new(self.name, self.widget_type, class);
        TextBlock::wrap_lines(id, lines, self.bound)
    }

    /// A block of one row that shows `content`, cut or filled up to the
    /// width of this context.
    pub fn line<K, M>(&self, class: &'static str, content: String) -> (block: TextBlock<K, M>)
        ensures
            block.wf(),
            block.is_inert(),
            block.rows() == 1,
            block.cols() == bounded_width(seq![content@], self.bounds()),
            block.content() == seq![
                clipped_row(self.content_id(class), seq![content@], block.cols() as nat, 0),
            ],
    {
        let id = ContentID::new(self.name, self.widget_type, class);
        let mut lines = Vec::new();
        lines.push(content);
        proof {
            assert(texts(lines@) =~= seq![content@]);
        }
        let block = TextBlock::clip_lines(
            self.name,
            self.widget_type,
            class,
            lines,
            self.bound.constrain_height(1),
        );
        proof {
            assert(block.content() =~= seq![
                clipped_row(self.content_id(class), seq![content@], block.cols() as nat, 0),
            ]);
        }
        block
    }

    /// A block that shows `content` as a paragraph, wrapped at the width of
    /// this context.
    pub fn text<K, M>(&self, class: &'static str, content: String) -> (block: TextBlock<K, M>)
        ensures
            block.wf(),
            block.is_inert(),
            block.cols() == bounded_width(seq![content@], self.bounds()),
            block.rows() == bounded_height(
                wrapped(seq![content@], block.cols() as nat).len(),
                self.bounds(),
            ),
            block.content() == Seq::new(
                block.rows() as nat,
                |r: int|
                    wrapped_row(
                        self.content_id(class),
                        wrapped(seq![content@], block.cols() as nat),
                        block.cols() as nat,
                        r,
                    ),
            ),
    {
        let id = ContentID::new(self.name, self.widget_type, class);
        let mut lines = Vec::new();
        lines.push(content);
        proof {
            assert(texts(lines@) =~= seq![content@]);
        }
        TextBlock::wrap_lines(id, lines, self.bound)
    }
}

/// Something that renders itself into a block of text.
///
/// `K` and `M` are the types of the key and mouse handlers that the blocks
/// carry.
pub trait Widget<K, M> {
    /// What the widget says of its own rendering: `rendered` is what
    /// [`Widget::render`] may give under `ctx`. A widget that says
    /// nothing admits every outcome.
    open spec fn shows(
        &self,
        ctx: RenderContext,
        rendered: Result<TextBlock<K, M>, LayoutError>,
    ) -> bool {
        true
    }

    /// The block that shows the widget under the bound of `ctx`, or why
    /// there is none.
    fn render(&self, ctx: RenderContext) -> (rendered: Result<TextBlock<K, M>, LayoutError>)
        ensures
            rendered matches Ok(block) ==> block.wf(),
            self.shows(ctx, rendered),
    ;

    /// The name under which the widget takes the focus, if it can.
    fn name(&self) -> Option<Name>;

    /// The kind of the widget, for the style of its text.
    fn widget_type(&self) -> &'static str;

    /// What the widget says of how it grows: `policy` is what
    /// [`Widget::growth_policy`] may give. A widget that says nothing
    /// admits every policy.
    open spec fn grows(&self, policy: FullGrowthPolicy) -> bool {
        true
    }

    /// Whether the widget keeps its own size in a layout or takes a share
    /// of what is left, on each axis. [`FullGrowthPolicy::default`] takes a
    /// share on both.
    fn growth_policy(&self) -> (policy: FullGrowthPolicy)
        ensures
            self.grows(policy),
    ;
}

/// The widget at the root of a user interface.
pub trait App<K, M>: Widget<K, M> {
    /// What the application says of how it takes an input: handed
    /// `event`, it may become `after` and say `verdict`. An application
    /// that says nothing admits every outcome.
    open spec fn hears(&self, event: InputEvent, after: &Self, verdict: ShouldPropagate) -> bool {
        true
    }

    /// Sees every input before the widgets do. `Stop` keeps it from them.
    fn handle_input(&mut self, event: &InputEvent) -> (verdict: ShouldPropagate)
        ensures
            old(self).hears(*event, final(self), verdict),
    ;

    /// What the application says of how it takes a resize: told the
    /// extent `size`, it may become `after`. An application that says
    /// nothing admits every outcome.
    open spec fn resizes(&self, size: Size, after: &Self) -> bool {
        true
    }

    /// Is told that the terminal has a new size.
    fn handle_resize(&mut self, size: Size)
        ensures
            old(self).resizes(size, final(self)),
    ;

    /// What the application says of its colours: `colors` is what
    /// [`App::style`] may give for the text tagged `id`. An application
    /// that says nothing admits every pair of colours.
    open spec fn styled(&self, id: ContentID, colors: (Option<Color>, Option<Color>)) -> bool {
        true
    }

    /// The foreground and the background colour of the text tagged `id`;
    /// `None` leaves a colour to the terminal.
    fn style(&self, id: ContentID) -> (colors: (Option<Color>, Option<Color>))
        ensures
            self.styled(id, colors),
    ;
}

} // verus!
