//! A scrolling list of widgets.

use vstd::prelude::*;
use crate::ir::block::{
    can_join, cursors_above, cursors_below, joined, lowered_targets, raised_targets, BlockView,
};
use crate::ir::TextBlock;
use crate::widget::layout::{stackable, stacked, views};
use crate::widget::{sized, LayoutError, RenderContext, Widget};
use crate::{Direction, FullGrowthPolicy, Name, RenderBound, Size};

verus! {

/// Widgets that can be asked for by their place in a row.
pub trait WidgetEnumerable<K, M> {
    /// The widget at `index`, if there is one.
    fn get_widget(&self, index: usize) -> (found: Option<&dyn Widget<K, M>>)
        ensures
            self.gives(index, found),
    ;

    /// What the row says of its own widgets: `found` is what
    /// [`WidgetEnumerable::get_widget`] may give at `index`. A row that
    /// says nothing admits every outcome.
    open spec fn gives(&self, index: usize, found: Option<&dyn Widget<K, M>>) -> bool {
        true
    }
}

impl<K, M, W: Widget<K, M>> WidgetEnumerable<K, M> for &[W] {
    fn get_widget(&self, index: usize) -> (found: Option<&dyn Widget<K, M>>) {
        if index < self.len() {
            let widget: &dyn Widget<K, M> = &self[index];
            Some(widget)
        } else {
            None
        }
    }

    /// A slice has a widget at each index below its length, and at no
    /// other.
    open spec fn gives(&self, index: usize, found: Option<&dyn Widget<K, M>>) -> bool {
        found is Some <==> index < self@.len()
    }
}

impl<K, M, W: Widget<K, M>> WidgetEnumerable<K, M> for Vec<W> {
    fn get_widget(&self, index: usize) -> (found: Option<&dyn Widget<K, M>>) {
        if index < self.len() {
            let widget: &dyn Widget<K, M> = &self[index];
            Some(widget)
        } else {
            None
        }
    }

    /// A vector has a widget at each index below its length, and at no
    /// other.
    open spec fn gives(&self, index: usize, found: Option<&dyn Widget<K, M>>) -> bool {
        found is Some <==> index < self@.len()
    }
}

/// The rows that a list `total` rows high has below its anchor, which is
/// `body` rows high and begins `offset` rows below the top of the list, or
/// above it where `offset` is negative.
pub open spec fn rows_below(total: usize, body: usize, offset: i32) -> nat {
    if total - body - offset <= 0 {
        0
    } else if total - body - offset >= usize::MAX {
        usize::MAX as nat
    } else {
        (total - body - offset) as nat
    }
}

/// The rows that a list has above its anchor.
pub open spec fn rows_above(offset: i32) -> nat {
    if offset <= 0 {
        0
    } else {
        offset as nat
    }
}

/// The rows by which the anchor of a list reaches above the top of the
/// list, as far as the anchor has rows.
pub open spec fn rows_cut(body: usize, offset: i32) -> nat {
    if offset >= 0 {
        0
    } else if -offset <= body {
        (-offset) as nat
    } else {
        body as nat
    }
}

/// The rows that a list has below its anchor.
pub fn tail_length(total: usize, body: usize, offset: i32) -> (rows: usize)
    ensures
        rows == rows_below(total, body, offset),
{
    let left: i128 = total as i128 - body as i128 - offset as i128;
    if left <= 0 {
        0
    } else if left >= usize::MAX as i128 {
        usize::MAX
    } else {
        left as usize
    }
}

/// The rows that a list has above its anchor.
pub fn head_length(offset: i32) -> (rows: usize)
    ensures
        rows == rows_above(offset),
{
    if offset <= 0 {
        0
    } else {
        offset as usize
    }
}

/// The rows by which the anchor of a list reaches above the top of the
/// list.
pub fn cut_length(body: usize, offset: i32) -> (rows: usize)
    ensures
        rows == rows_cut(body, offset),
{
    if offset >= 0 {
        0
    } else {
        let over: i64 = -(offset as i64);
        if over as u64 <= body as u64 {
            over as usize
        } else {
            body
        }
    }
}

/// What a block holds after its first `n` rows were cut.
pub open spec fn cut_top<K, M>(view: BlockView<K, M>, n: usize) -> BlockView<K, M> {
    BlockView {
        extent: Size { cols: view.extent.cols, rows: (view.extent.rows - n) as usize },
        content: view.content.skip(n as int),
        keys: view.keys,
        mice: raised_targets(view.mice, n),
        cursors: cursors_below(view.cursors, n),
        hits: view.hits.skip(n as int),
    }
}

/// What a block holds after its last `n` rows were cut.
pub open spec fn cut_bottom<K, M>(view: BlockView<K, M>, n: usize) -> BlockView<K, M> {
    let rows = (view.extent.rows - n) as usize;
    BlockView {
        extent: Size { cols: view.extent.cols, rows },
        content: view.content.take(rows as int),
        keys: view.keys,
        mice: lowered_targets(view.mice, rows),
        cursors: cursors_above(view.cursors, rows),
        hits: view.hits.take(rows as int),
    }
}

/// The rows that are still to fill of `rows` after the first `k` of
/// `blocks` have filled theirs.
pub open spec fn left_after<K, M>(rows: usize, blocks: Seq<TextBlock<K, M>>, k: int) -> usize
    decreases k,
{
    if k <= 0 {
        rows
    } else {
        let before = left_after(rows, blocks, k - 1);
        if blocks[k - 1].rows() <= before {
            (before - blocks[k - 1].rows()) as usize
        } else {
            0
        }
    }
}

/// The first `k` of `blocks`, each above those before it.
pub open spec fn raised<K, M>(blocks: Seq<BlockView<K, M>>, k: int) -> BlockView<K, M>
    decreases k,
{
    if k <= 1 {
        blocks[0]
    } else {
        joined(Direction::Vertical, blocks[k - 1], raised(blocks, k - 1))
    }
}

/// Each of the first `k` of `blocks` can be put above those before it.
pub open spec fn raisable<K, M>(blocks: Seq<BlockView<K, M>>, k: int) -> bool
    decreases k,
{
    if k <= 1 {
        true
    } else {
        raisable(blocks, k - 1) && can_join(Direction::Vertical, blocks[k - 1], raised(blocks, k - 1))
    }
}

/// What is above the widgets that follow the anchor in a window that
/// begins `offset` rows above the anchor `body`: the widgets `ups` above
/// the anchor, the nearest first, cut down to the rows of the window, and
/// the anchor; or the anchor alone, without the rows by which it begins
/// above the window.
pub open spec fn upper_part<K, M>(
    ups: Seq<BlockView<K, M>>,
    body: BlockView<K, M>,
    offset: i32,
) -> BlockView<K, M> {
    if ups.len() > 0 {
        let head = raised(ups, ups.len() as int);
        let extra = if head.extent.rows >= rows_above(offset) {
            (head.extent.rows - rows_above(offset)) as usize
        } else {
            0usize
        };
        joined(Direction::Vertical, cut_top(head, extra), body)
    } else if rows_cut(body.extent.rows, offset) > 0 {
        cut_top(body, rows_cut(body.extent.rows, offset) as usize)
    } else {
        body
    }
}

/// What a window of `total` rows shows that begins `offset` rows above the
/// anchor `body`, with the widgets `ups` above the anchor, the nearest
/// first, and the widgets `downs` below it: all of them one below the
/// other, without the rows that reach out of the window above, and, where
/// widgets follow the anchor, below.
pub open spec fn window<K, M>(
    ups: Seq<BlockView<K, M>>,
    body: BlockView<K, M>,
    downs: Seq<BlockView<K, M>>,
    total: usize,
    offset: i32,
) -> BlockView<K, M> {
    let upper = upper_part(ups, body, offset);
    if downs.len() > 0 {
        let all = joined(Direction::Vertical, upper, stacked(Direction::Vertical, downs));
        if all.extent.rows > total {
            cut_bottom(all, (all.extent.rows - total) as usize)
        } else {
            all
        }
    } else {
        upper
    }
}

/// The blocks of a window can be put together.
pub open spec fn windowable<K, M>(
    ups: Seq<BlockView<K, M>>,
    body: BlockView<K, M>,
    downs: Seq<BlockView<K, M>>,
    offset: i32,
) -> bool {
    &&& raisable(ups, ups.len() as int)
    &&& stackable(Direction::Vertical, downs)
    &&& ups.len() > 0 ==> {
        let head = raised(ups, ups.len() as int);
        let extra = if head.extent.rows >= rows_above(offset) {
            (head.extent.rows - rows_above(offset)) as usize
        } else {
            0usize
        };
        can_join(Direction::Vertical, cut_top(head, extra), body)
    }
    &&& downs.len() > 0 ==> can_join(
        Direction::Vertical,
        upper_part(ups, body, offset),
        stacked(Direction::Vertical, downs),
    )
}

/// A window on a row of widgets, one below the other. The widget at
/// `index` is the anchor: it begins `offset` rows below the top of the window,
/// the widgets before it fill the rows above it, and the widgets after it the
/// rows below it.
pub struct List<E> {
    name: Option<Name>,
    container: E,
    index: usize,
    offset: i32,
}

impl<E> List<E> {
    /// The name of the list.
    pub closed spec fn owner(&self) -> Option<Name> {
        self.name
    }

    /// The widgets of the list.
    pub closed spec fn widgets(&self) -> E {
        self.container
    }

    /// The place of the anchor among the widgets.
    pub closed spec fn anchor(&self) -> usize {
        self.index
    }

    /// The row of the window at which the anchor begins.
    pub closed spec fn scroll(&self) -> i32 {
        self.offset
    }

    pub fn new(name: Option<Name>, container: E, index: usize, offset: i32) -> (list: Self)
        ensures
            list.owner() == name,
            list.widgets() == container,
            list.anchor() == index,
            list.scroll() == offset,
    {
        Self { name, container, index, offset }
    }

    /// The widgets of the list have none at the anchor.
    pub open spec fn lacks_anchor<K, M>(&self) -> bool where E: WidgetEnumerable<K, M> {
        forall|found: Option<&dyn Widget<K, M>>| #[trigger]
            self.widgets().gives(self.anchor(), found) ==> found is None
    }

    /// The widgets of the list give none at `index`.
    pub open spec fn runs_out<K, M>(&self, index: int) -> bool where E: WidgetEnumerable<K, M> {
        self.widgets().gives(index as usize, None::<&dyn Widget<K, M>>)
    }

    /// The widget at `index` shows `part` in a context with the bound
    /// `bound`, and `part` keeps that bound.
    pub open spec fn item_shows<K, M>(
        &self,
        index: int,
        bound: RenderBound,
        part: TextBlock<K, M>,
    ) -> bool where E: WidgetEnumerable<K, M> {
        &&& 0 <= index <= usize::MAX
        &&& part.wf()
        &&& bound.admits(part.extent())
        &&& exists|found: Option<&dyn Widget<K, M>>, ctx: RenderContext|
            self.widgets().gives(index as usize, found) && found is Some && ctx.bounds() == bound
                && #[trigger] found->Some_0.shows(ctx, Ok::<TextBlock<K, M>, LayoutError>(part))
    }

    /// The widget at `index` shows in a context with the bound `bound`
    /// what is taken for the error `error`: it fails with it, or its block
    /// misses the bound, as [`sized`] says.
    pub open spec fn item_fails<K, M>(
        &self,
        index: int,
        bound: RenderBound,
        error: LayoutError,
    ) -> bool where E: WidgetEnumerable<K, M> {
        exists|
            found: Option<&dyn Widget<K, M>>,
            ctx: RenderContext,
            shown: Result<TextBlock<K, M>, LayoutError>,
        |
            self.widgets().gives(index as usize, found) && found is Some && ctx.bounds() == bound
                && #[trigger] found->Some_0.shows(ctx, shown) && sized(bound, shown) == Err::<
                TextBlock<K, M>,
                LayoutError,
            >(error)
    }

    /// Why the list fails with `error` under `bound`: the bound gives no
    /// height; the widgets give none at the anchor; a widget fails, or
    /// shows a block that misses the width of the bound; or the blocks of
    /// the widgets cannot be put together.
    pub open spec fn fails_with<K, M>(&self, bound: RenderBound, error: LayoutError) -> bool where
        E: WidgetEnumerable<K, M>,
     {
        ||| bound.height is None && error == LayoutError::Unconstrained(Direction::Vertical)
        ||| bound.height is Some && error == LayoutError::NoSuchWidget(self.anchor())
            && self.runs_out::<K, M>(self.anchor() as int)
        ||| bound.height is Some && exists|index: int| #[trigger]
            self.item_fails::<K, M>(index, bound.with_along(Direction::Vertical, None), error)
        ||| bound.height is Some && error == LayoutError::Unjoinable
    }

    /// The widgets after the anchor show `downs`, in their order: as many
    /// of them as it takes to fill the `rows` rows below the anchor, or as
    /// there are.
    pub open spec fn shows_below<K, M>(
        &self,
        bound: RenderBound,
        rows: usize,
        downs: Seq<TextBlock<K, M>>,
    ) -> bool where E: WidgetEnumerable<K, M> {
        &&& self.anchor() + downs.len() <= usize::MAX
        &&& forall|k: int|
            0 <= k < downs.len() ==> self.item_shows(self.anchor() + 1 + k, bound, #[trigger] downs[k])
                && left_after(rows, downs, k) > 0
        &&& left_after(rows, downs, downs.len() as int) == 0 || self.anchor() + downs.len()
            == usize::MAX || self.runs_out::<K, M>(self.anchor() + 1 + downs.len())
    }

    /// The widgets before the anchor show `ups`, the nearest first: as
    /// many of them as it takes to fill the `rows` rows above the anchor,
    /// or as there are.
    pub open spec fn shows_above<K, M>(
        &self,
        bound: RenderBound,
        rows: usize,
        ups: Seq<TextBlock<K, M>>,
    ) -> bool where E: WidgetEnumerable<K, M> {
        &&& ups.len() <= self.anchor()
        &&& forall|k: int|
            0 <= k < ups.len() ==> self.item_shows(self.anchor() - 1 - k, bound, #[trigger] ups[k])
                && left_after(rows, ups, k) > 0
        &&& left_after(rows, ups, ups.len() as int) == 0 || ups.len() == self.anchor()
            || self.runs_out::<K, M>(self.anchor() - 1 - ups.len())
    }

    /// `view` is what the window shows under `bound` where the widgets
    /// above the anchor show `ups`, the nearest first, the anchor shows
    /// `body` and the widgets below it show `downs`: each renders under the
    /// width of the bound and at its own height, and `view` is what
    /// [`window`] makes of them.
    pub open spec fn shows_window<K, M>(
        &self,
        bound: RenderBound,
        ups: Seq<TextBlock<K, M>>,
        body: TextBlock<K, M>,
        downs: Seq<TextBlock<K, M>>,
        view: BlockView<K, M>,
    ) -> bool where E: WidgetEnumerable<K, M> {
        let total = bound.height->0;
        let free = bound.with_along(Direction::Vertical, None);
        &&& self.item_shows(self.anchor() as int, free, body)
        &&& self.shows_below(free, rows_below(total, body.rows(), self.scroll()) as usize, downs)
        &&& self.shows_above(free, rows_above(self.scroll()) as usize, ups)
        &&& windowable(views(ups), body@, views(downs), self.scroll())
        &&& view == window(views(ups), body@, views(downs), total, self.scroll())
    }

    /// What holds of what the window shows under the bound of `ctx`:
    /// nothing where the bound gives no height or the list has no widget at
    /// the anchor; a block is what [`Self::shows_window`] says, of blocks
    /// that the widgets show; and an error has one of the reasons of
    /// [`Self::fails_with`].
    pub open spec fn is_block<K, M>(
        &self,
        ctx: RenderContext,
        rendered: Result<TextBlock<K, M>, LayoutError>,
    ) -> bool where E: WidgetEnumerable<K, M> {
        &&& ctx.bounds().height is None ==> rendered == Err::<TextBlock<K, M>, LayoutError>(
            LayoutError::Unconstrained(Direction::Vertical),
        )
        &&& ctx.bounds().height is Some && self.lacks_anchor::<K, M>() ==> rendered == Err::<
            TextBlock<K, M>,
            LayoutError,
        >(LayoutError::NoSuchWidget(self.anchor()))
        &&& rendered matches Ok(block) ==> {
            &&& block.wf()
            &&& ctx.bounds().width matches Some(width) ==> block.cols() == width
            &&& exists|
                ups: Seq<TextBlock<K, M>>,
                body: TextBlock<K, M>,
                downs: Seq<TextBlock<K, M>>,
            | #[trigger] self.shows_window(ctx.bounds(), ups, body, downs, block@)
        }
        &&& rendered matches Err(error) ==> self.fails_with::<K, M>(ctx.bounds(), error)
    }

    /// Puts `below` below `above`, where they can be joined.
    fn join<K, M>(above: TextBlock<K, M>, below: TextBlock<K, M>) -> (joined: Result<
        TextBlock<K, M>,
        LayoutError,
    >)
        requires
            above.wf(),
            below.wf(),
        ensures
            above.concat_ok(Direction::Vertical, &below) ==> (joined matches Ok(block)
                && block.wf() && above.is_concat(Direction::Vertical, &below, &block)),
            !above.concat_ok(Direction::Vertical, &below) ==> joined == Err::<
                TextBlock<K, M>,
                LayoutError,
            >(LayoutError::Unjoinable),
    {
        if above.can_concat(Direction::Vertical, &below) {
            Ok(above.vconcat(below))
        } else {
            Err(LayoutError::Unjoinable)
        }
    }

    /// The block that shows the window under the bound of `ctx`, which
    /// has to give a height. Every widget renders under the width of the
    /// bound and at its own height. Of the widgets above the anchor the
    /// rows that reach above the window are cut, and so are the rows of the
    /// anchor that do where the anchor begins above the window. Where
    /// widgets follow the anchor, rows that reach below the window are cut.
    #[verifier::rlimit(100)]
    pub fn block<K, M>(&self, ctx: RenderContext) -> (rendered: Result<
        TextBlock<K, M>,
        LayoutError,
    >) where E: WidgetEnumerable<K, M>
        ensures
            self.is_block(ctx, rendered),
    {
        let total_height = match ctx.bound().height {
            Some(height) => height,
            None => {
                return Err(LayoutError::Unconstrained(Direction::Vertical));
            },
        };
        let width_bound = ctx.bound().free_direction(Direction::Vertical);
        let found = self.container.get_widget(self.index);
        proof {
            assert(self.widgets().gives(self.anchor(), found));
        }
        let anchor = match found {
            Some(widget) => widget,
            None => {
                return Err(LayoutError::NoSuchWidget(self.index));
            },
        };
        let body = match ctx.render_sized(width_bound, anchor) {
            Ok(body) => body,
            Err(error) => {
                proof {
                    let (at, shown) = choose|
                        at: RenderContext,
                        shown: Result<TextBlock<K, M>, LayoutError>,
                    |
                        at.bounds() == width_bound && #[trigger] anchor.shows(at, shown) && Err::<
                            TextBlock<K, M>,
                            LayoutError,
                        >(error) == sized(width_bound, shown);
                    assert(found->Some_0 == anchor);
                    assert(found->Some_0.shows(at, shown));
                    assert(self.item_fails::<K, M>(self.anchor() as int, width_bound, error));
                }
                return Err(error);
            },
        };
        proof {
            let (at, shown) = choose|at: RenderContext, shown: Result<TextBlock<K, M>, LayoutError>|
                at.bounds() == width_bound && #[trigger] anchor.shows(at, shown) && Ok::<
                    TextBlock<K, M>,
                    LayoutError,
                >(body) == sized(width_bound, shown);
            assert(shown == Ok::<TextBlock<K, M>, LayoutError>(body));
            assert(found->Some_0 == anchor);
            assert(found->Some_0.shows(at, Ok::<TextBlock<K, M>, LayoutError>(body)));
            assert(self.item_shows(self.anchor() as int, width_bound, body));
        }
        let ghost first = body;
        let rows_wanted_below = tail_length(total_height, body.size().rows, self.offset);
        let mut below = rows_wanted_below;
        let mut tail: Option<TextBlock<K, M>> = None;
        let mut i: usize = self.index;
        let ghost mut downs: Seq<TextBlock<K, M>> = Seq::empty();
        while below > 0 && i < usize::MAX
            invariant
                ctx.bounds().height is Some,
                !self.lacks_anchor::<K, M>(),
                width_bound == ctx.bounds().with_along(Direction::Vertical, None),
                i == self.anchor() + downs.len(),
                below == left_after(rows_wanted_below, downs, downs.len() as int),
                forall|k: int|
                    0 <= k < downs.len() ==> self.item_shows(
                        self.anchor() + 1 + k,
                        width_bound,
                        #[trigger] downs[k],
                    ) && left_after(rows_wanted_below, downs, k) > 0,
                tail is Some <==> downs.len() > 0,
                tail matches Some(block) ==> block.wf() && width_bound.admits(block.extent())
                    && stackable(Direction::Vertical, views(downs)) && block@ == stacked(
                    Direction::Vertical,
                    views(downs),
                ),
            ensures
                i == self.anchor() + downs.len(),
                self.shows_below(width_bound, rows_wanted_below, downs),
                tail is Some <==> downs.len() > 0,
                tail matches Some(block) ==> block.wf() && width_bound.admits(block.extent())
                    && stackable(Direction::Vertical, views(downs)) && block@ == stacked(
                    Direction::Vertical,
                    views(downs),
                ),
            decreases usize::MAX - i,
        {
            let found = self.container.get_widget(i + 1);
            proof {
                assert(self.widgets().gives((i + 1) as usize, found));
            }
            let widget = match found {
                Some(widget) => widget,
                None => {
                    proof {
                        assert(self.runs_out::<K, M>(self.anchor() + 1 + downs.len()));
                    }
                    break ;
                },
            };
            let next = match ctx.render_sized(width_bound, widget) {
                Ok(next) => next,
                Err(error) => {
                    proof {
                        let (at, shown) = choose|
                            at: RenderContext,
                            shown: Result<TextBlock<K, M>, LayoutError>,
                        |
                            at.bounds() == width_bound && #[trigger] widget.shows(at, shown)
                                && Err::<TextBlock<K, M>, LayoutError>(error) == sized(
                                width_bound,
                                shown,
                            );
                        assert(found->Some_0 == widget);
                        assert(found->Some_0.shows(at, shown));
                        assert(self.item_fails::<K, M>(i + 1, width_bound, error));
                    }
                    return Err(error);
                },
            };
            let ghost before = downs;
            proof {
                let (at, shown) = choose|
                    at: RenderContext,
                    shown: Result<TextBlock<K, M>, LayoutError>,
                |
                    at.bounds() == width_bound && #[trigger] widget.shows(at, shown) && Ok::<
                        TextBlock<K, M>,
                        LayoutError,
                    >(next) == sized(width_bound, shown);
                assert(shown == Ok::<TextBlock<K, M>, LayoutError>(next));
                assert(found->Some_0 == widget);
                assert(found->Some_0.shows(at, Ok::<TextBlock<K, M>, LayoutError>(next)));
                assert(self.item_shows(i + 1, width_bound, next));
                downs = before.push(next);
                assert(views(downs).drop_last() =~= views(before));
                assert(views(downs).last() == next@);
                assert forall|k: int| 0 <= k <= downs.len() implies left_after(
                    rows_wanted_below,
                    downs,
                    k,
                ) == if k <= before.len() {
                    left_after(rows_wanted_below, before, k)
                } else {
                    if next.rows() <= below {
                        (below - next.rows()) as usize
                    } else {
                        0usize
                    }
                } by {
                    Self::lemma_left_after_pushed(rows_wanted_below, before, next, k);
                }
                assert forall|k: int| 0 <= k < downs.len() implies self.item_shows(
                    self.anchor() + 1 + k,
                    width_bound,
                    #[trigger] downs[k],
                ) && left_after(rows_wanted_below, downs, k) > 0 by {
                    if k < before.len() {
                        assert(downs[k] == before[k]);
                        assert(self.item_shows(self.anchor() + 1 + k, width_bound, before[k]));
                    } else {
                        assert(downs[k] == next);
                    }
                }
            }
            i = i + 1;
            below = if next.size().rows <= below {
                below - next.size().rows
            } else {
                0
            };
            tail = match tail {
                None => Some(next),
                Some(so_far) => match Self::join(so_far, next) {
                    Ok(joined) => Some(joined),
                    Err(error) => {
                        return Err(error);
                    },
                },
            };
        }
        let rows_wanted_above = head_length(self.offset);
        let mut above = rows_wanted_above;
        let mut head: Option<TextBlock<K, M>> = None;
        let mut j: usize = self.index;
        let ghost mut ups: Seq<TextBlock<K, M>> = Seq::empty();
        while above > 0 && j > 0
            invariant
                ctx.bounds().height is Some,
                !self.lacks_anchor::<K, M>(),
                width_bound == ctx.bounds().with_along(Direction::Vertical, None),
                j == self.anchor() - ups.len(),
                ups.len() <= self.anchor(),
                above == left_after(rows_wanted_above, ups, ups.len() as int),
                forall|k: int|
                    0 <= k < ups.len() ==> self.item_shows(
                        self.anchor() - 1 - k,
                        width_bound,
                        #[trigger] ups[k],
                    ) && left_after(rows_wanted_above, ups, k) > 0,
                head is Some <==> ups.len() > 0,
                head matches Some(block) ==> block.wf() && width_bound.admits(block.extent())
                    && raisable(views(ups), ups.len() as int) && block@ == raised(
                    views(ups),
                    ups.len() as int,
                ),
            ensures
                self.shows_above(width_bound, rows_wanted_above, ups),
                head is Some <==> ups.len() > 0,
                head matches Some(block) ==> block.wf() && width_bound.admits(block.extent())
                    && raisable(views(ups), ups.len() as int) && block@ == raised(
                    views(ups),
                    ups.len() as int,
                ),
            decreases j,
        {
            let found = self.container.get_widget(j - 1);
            proof {
                assert(self.widgets().gives((j - 1) as usize, found));
            }
            let widget = match found {
                Some(widget) => widget,
                None => {
                    proof {
                        assert(self.runs_out::<K, M>(self.anchor() - 1 - ups.len()));
                    }
                    break ;
                },
            };
            let prev = match ctx.render_sized(width_bound, widget) {
                Ok(prev) => prev,
                Err(error) => {
                    proof {
                        let (at, shown) = choose|
                            at: RenderContext,
                            shown: Result<TextBlock<K, M>, LayoutError>,
                        |
                            at.bounds() == width_bound && #[trigger] widget.shows(at, shown)
                                && Err::<TextBlock<K, M>, LayoutError>(error) == sized(
                                width_bound,
                                shown,
                            );
                        assert(found->Some_0 == widget);
                        assert(found->Some_0.shows(at, shown));
                        assert(self.item_fails::<K, M>(j - 1, width_bound, error));
                    }
                    return Err(error);
                },
            };
            let ghost before = ups;
            proof {
                let (at, shown) = choose|
                    at: RenderContext,
                    shown: Result<TextBlock<K, M>, LayoutError>,
                |
                    at.bounds() == width_bound && #[trigger] widget.shows(at, shown) && Ok::<
                        TextBlock<K, M>,
                        LayoutError,
                    >(prev) == sized(width_bound, shown);
                assert(shown == Ok::<TextBlock<K, M>, LayoutError>(prev));
                assert(found->Some_0 == widget);
                assert(found->Some_0.shows(at, Ok::<TextBlock<K, M>, LayoutError>(prev)));
                assert(self.item_shows(j - 1, width_bound, prev));
                ups = before.push(prev);
                assert forall|k: int| 0 <= k <= ups.len() implies left_after(
                    rows_wanted_above,
                    ups,
                    k,
                ) == if k <= before.len() {
                    left_after(rows_wanted_above, before, k)
                } else {
                    if prev.rows() <= above {
                        (above - prev.rows()) as usize
                    } else {
                        0usize
                    }
                } by {
                    Self::lemma_left_after_pushed(rows_wanted_above, before, prev, k);
                }
                assert forall|k: int| 0 <= k < ups.len() implies self.item_shows(
                    self.anchor() - 1 - k,
                    width_bound,
                    #[trigger] ups[k],
                ) && left_after(rows_wanted_above, ups, k) > 0 by {
                    if k < before.len() {
                        assert(ups[k] == before[k]);
                        assert(self.item_shows(self.anchor() - 1 - k, width_bound, before[k]));
                    } else {
                        assert(ups[k] == prev);
                    }
                }
                assert(views(ups) =~= views(before).push(prev@));
                if before.len() > 0 {
                    Self::lemma_raised_pushed(views(before), prev@, before.len() as int);
                }
            }
            j = j - 1;
            above = if prev.size().rows <= above {
                above - prev.size().rows
            } else {
                0
            };
            head = match head {
                None => Some(prev),
                Some(so_far) => match Self::join(prev, so_far) {
                    Ok(joined) => Some(joined),
                    Err(error) => {
                        return Err(error);
                    },
                },
            };
        }
        let body = match head {
            Some(head) => {
                let wanted = head_length(self.offset);
                let extra_rows = if head.size().rows >= wanted {
                    head.size().rows - wanted
                } else {
                    0
                };
                let ghost whole = head@;
                let cut = head.trim_top(extra_rows);
                proof {
                    assert(cut@ == cut_top(whole, extra_rows));
                }
                match Self::join(cut, body) {
                    Ok(joined) => joined,
                    Err(error) => {
                        return Err(error);
                    },
                }
            },
            None => {
                let cut = cut_length(body.size().rows, self.offset);
                if cut > 0 {
                    let ghost whole = body@;
                    let cut_body = body.trim_top(cut);
                    proof {
                        assert(cut_body@ == cut_top(whole, cut));
                    }
                    cut_body
                } else {
                    body
                }
            },
        };
        proof {
            assert(body@ == upper_part(views(ups), first@, self.scroll()));
        }
        match tail {
            Some(tail) => {
                let tb = match Self::join(body, tail) {
                    Ok(joined) => joined,
                    Err(error) => {
                        return Err(error);
                    },
                };
                if tb.size().rows > total_height {
                    let extra_rows = tb.size().rows - total_height;
                    let ghost whole = tb@;
                    let shown = tb.trim_bottom(extra_rows);
                    proof {
                        assert(shown@ == cut_bottom(whole, extra_rows));
                        assert(shown.wf());
                        assert(ctx.bounds().width matches Some(width) ==> shown.cols() == width);
                        assert(self.shows_window(ctx.bounds(), ups, first, downs, shown@));
                        self.lemma_is_block(ctx, shown, ups, first, downs);
                    }
                    Ok(shown)
                } else {
                    proof {
                        assert(self.shows_window(ctx.bounds(), ups, first, downs, tb@));
                        self.lemma_is_block(ctx, tb, ups, first, downs);
                    }
                    Ok(tb)
                }
            },
            None => {
                proof {
                    assert(self.shows_window(ctx.bounds(), ups, first, downs, body@));
                    self.lemma_is_block(ctx, body, ups, first, downs);
                }
                Ok(body)
            },
        }
    }

    /// A block that is what the window shows of blocks of its widgets is
    /// what the list gives.
    proof fn lemma_is_block<K, M>(
        &self,
        ctx: RenderContext,
        block: TextBlock<K, M>,
        ups: Seq<TextBlock<K, M>>,
        body: TextBlock<K, M>,
        downs: Seq<TextBlock<K, M>>,
    ) where E: WidgetEnumerable<K, M>
        requires
            ctx.bounds().height is Some,
            !self.lacks_anchor::<K, M>(),
            block.wf(),
            ctx.bounds().width matches Some(width) ==> block.cols() == width,
            self.shows_window(ctx.bounds(), ups, body, downs, block@),
        ensures
            self.is_block(ctx, Ok::<TextBlock<K, M>, LayoutError>(block)),
    {
    }

    /// The rows that are left after blocks do not change where a block is
    /// added behind them.
    pub proof fn lemma_left_after_pushed<K, M>(
        rows: usize,
        blocks: Seq<TextBlock<K, M>>,
        next: TextBlock<K, M>,
        k: int,
    )
        requires
            0 <= k <= blocks.len() + 1,
        ensures
            left_after(rows, blocks.push(next), k) == if k <= blocks.len() {
                left_after(rows, blocks, k)
            } else {
                let before = left_after(rows, blocks, blocks.len() as int);
                if next.rows() <= before {
                    (before - next.rows()) as usize
                } else {
                    0usize
                }
            },
        decreases k,
    {
        if k > 0 {
            Self::lemma_left_after_pushed(rows, blocks, next, k - 1);
            if k <= blocks.len() {
                assert(blocks.push(next)[k - 1] == blocks[k - 1]);
            } else {
                assert(blocks.push(next)[k - 1] == next);
            }
        }
    }

    /// What the first blocks are together does not change where a block is
    /// added behind them.
    pub proof fn lemma_raised_pushed<K, M>(blocks: Seq<BlockView<K, M>>, next: BlockView<K, M>, k: int)
        requires
            1 <= k <= blocks.len(),
        ensures
            raised(blocks.push(next), k) == raised(blocks, k),
            raisable(blocks.push(next), k) == raisable(blocks, k),
        decreases k,
    {
        if k > 1 {
            Self::lemma_raised_pushed(blocks, next, k - 1);
            assert(blocks.push(next)[k - 1] == blocks[k - 1]);
        } else {
            assert(blocks.push(next)[0] == blocks[0]);
        }
    }
}

impl<K, M, E: WidgetEnumerable<K, M>> Widget<K, M> for List<E> {
    fn name(&self) -> Option<Name>
        returns
            self.owner(),
    {
        self.name
    }

    fn widget_type(&self) -> &'static str
        returns
            "List",
    {
        "List"
    }

    fn render(&self, ctx: RenderContext) -> (rendered: Result<TextBlock<K, M>, LayoutError>) {
        self.block(ctx)
    }

    open spec fn shows(
        &self,
        ctx: RenderContext,
        rendered: Result<TextBlock<K, M>, LayoutError>,
    ) -> bool {
        self.is_block(ctx, rendered)
    }

    fn growth_policy(&self) -> FullGrowthPolicy
        returns
            (FullGrowthPolicy {
                width: crate::GrowthPolicy::Greedy,
                height: crate::GrowthPolicy::Greedy,
            }),
    {
        FullGrowthPolicy::default()
    }

    open spec fn grows(&self, policy: FullGrowthPolicy) -> bool {
        policy == (FullGrowthPolicy {
            width: crate::GrowthPolicy::Greedy,
            height: crate::GrowthPolicy::Greedy,
        })
    }
}

} // verus!
