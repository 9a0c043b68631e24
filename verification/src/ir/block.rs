//! Blocks of text: the unit that the layout engine composes.

use std::collections::HashMap;
use vstd::prelude::*;
use vstd::std_specs::iter::IteratorSpec;
use crate::grapheme::{blank, chunked, grapheme_clusters, grapheme_count, graphemes, spaces,
    split_cells, texts};
use crate::indextree::{chain, IndexTree, TreeView};
use crate::input::{Key, MouseEvent};
use crate::ir::{blank_view, clipped, is_cell_of, lemma_total_len_add, text_view, total_len,
    ContentID, Frame, FrameLine, Segment, SegmentView, TextLine};
use crate::widget::ShouldPropagate;
use crate::{Color, Direction, Name, Pos, RenderBound, Size};

verus! {

/// A mouse handler with the widget that registered it and the cell of the
/// block at which that widget's own block begins.
pub struct MouseTarget<M> {
    pub name: Option<Name>,
    pub origin: Pos,
    /// How much of the widget's block lies before the origin, cut off from
    /// the block that holds the target.
    pub hidden: Pos,
    pub handler: M,
}

/// `a + b`, or the largest number that can be held where that is less.
pub open spec fn sat_add(a: usize, b: usize) -> usize {
    if a + b <= usize::MAX {
        (a + b) as usize
    } else {
        usize::MAX
    }
}

impl<M> MouseTarget<M> {
    /// The target seen from a block whose origin lies `by` cells up and to the
    /// left.
    pub open spec fn moved(self, by: Pos) -> MouseTarget<M> {
        MouseTarget {
            name: self.name,
            origin: self.origin.shifted(by),
            hidden: self.hidden,
            handler: self.handler,
        }
    }

    /// What the handler is handed of an event at `cell`: the cell as seen
    /// from where the block of the handler's widget begins, which lies
    /// before the origin by what is hidden of that block.
    pub open spec fn sees(self, cell: Pos) -> Pos {
        Pos {
            col: sat_add((cell.col - self.origin.col) as usize, self.hidden.col),
            row: sat_add((cell.row - self.origin.row) as usize, self.hidden.row),
        }
    }

    /// The target in a block from which the first `n` rows were cut: its
    /// origin moves up by `n` rows, or to the first row with the rest of the
    /// rows hidden.
    pub open spec fn raised(self, n: usize) -> MouseTarget<M> {
        if self.origin.row >= n {
            MouseTarget {
                name: self.name,
                origin: Pos { col: self.origin.col, row: (self.origin.row - n) as usize },
                hidden: self.hidden,
                handler: self.handler,
            }
        } else {
            MouseTarget {
                name: self.name,
                origin: Pos { col: self.origin.col, row: 0 },
                hidden: Pos {
                    col: self.hidden.col,
                    row: sat_add(self.hidden.row, (n - self.origin.row) as usize),
                },
                handler: self.handler,
            }
        }
    }

    /// The target in a block that was cut down to `rows` rows: an origin
    /// below the block moves to its lower edge.
    pub open spec fn lowered(self, rows: usize) -> MouseTarget<M> {
        MouseTarget {
            name: self.name,
            origin: Pos {
                col: self.origin.col,
                row: if self.origin.row <= rows {
                    self.origin.row
                } else {
                    rows
                },
            },
            hidden: self.hidden,
            handler: self.handler,
        }
    }
}

/// The cursors seen from a block whose origin lies `by` cells up and to
/// the left.
pub open spec fn moved_cursors(cursors: Map<Name, Pos>, by: Pos) -> Map<Name, Pos> {
    Map::new(|name: Name| cursors.contains_key(name), |name: Name| cursors[name].shifted(by))
}

/// One of the first `n` of `pairs` is the entry of `name`.
pub open spec fn named_among(pairs: Seq<(Name, Pos)>, n: int, name: Name) -> bool {
    exists|i: int| 0 <= i < n && (#[trigger] pairs[i]).0 == name
}

/// The mouse handlers of a block seen from a block whose origin lies `by`
/// cells up and to the left.
pub open spec fn moved_targets<M>(targets: TreeView<MouseTarget<M>>, by: Pos) -> TreeView<
    MouseTarget<M>,
> {
    TreeView {
        items: targets.items.map_values(|target: MouseTarget<M>| target.moved(by)),
        parents: targets.parents,
        names: targets.names,
    }
}

/// A cell of a hit map after the handlers it points into were renumbered by
/// `by`.
pub open spec fn renumbered_hit(hit: Option<usize>, by: nat) -> Option<usize> {
    match hit {
        Some(i) => Some((i + by) as usize),
        None => None,
    }
}

/// A row of a hit map after the handlers were renumbered by `by`.
pub open spec fn renumbered_row(row: Seq<Option<usize>>, by: nat) -> Seq<Option<usize>> {
    row.map_values(|hit: Option<usize>| renumbered_hit(hit, by))
}

/// A hit map after the handlers were renumbered by `by`.
pub open spec fn renumbered(hits: Seq<Seq<Option<usize>>>, by: nat) -> Seq<Seq<Option<usize>>> {
    hits.map_values(|row: Seq<Option<usize>>| renumbered_row(row, by))
}

/// Every handler from node `i` up to its root was registered by a widget
/// whose block begins at or before `cell`, in both directions.
pub open spec fn origins_within<M>(targets: TreeView<MouseTarget<M>>, i: int, cell: Pos) -> bool {
    forall|k: int|
        0 <= k < chain(targets.parents, i).len() ==> targets.items[#[trigger] chain(
            targets.parents,
            i,
        )[k]].origin.within(cell)
}

/// `content` has a line for each row of `size`, each as wide as `size` has
/// columns.
pub open spec fn is_grid(content: Seq<Seq<SegmentView>>, size: Size) -> bool {
    &&& content.len() == size.rows
    &&& forall|r: int| 0 <= r < size.rows ==> total_len(#[trigger] content[r]) == size.cols
}

/// `hits` has a cell for each cell of a grid of extent `size`.
pub open spec fn is_hit_grid(hits: Seq<Seq<Option<usize>>>, size: Size) -> bool {
    &&& hits.len() == size.rows
    &&& forall|r: int| 0 <= r < size.rows ==> (#[trigger] hits[r]).len() == size.cols
}

/// Every cursor can be moved by `by` to a position that can still be
/// counted.
pub open spec fn cursors_movable(cursors: Map<Name, Pos>, by: Pos) -> bool {
    forall|name: Name| #[trigger]
        cursors.contains_key(name) ==> cursors[name].col + by.col <= usize::MAX
            && cursors[name].row + by.row <= usize::MAX
}

/// Every handler belongs to a widget that begins at or before `corner`.
pub open spec fn targets_within<M>(targets: TreeView<MouseTarget<M>>, corner: Pos) -> bool {
    forall|k: int| 0 <= k < targets.items.len() ==> (#[trigger] targets.items[k]).origin.within(corner)
}

/// Every cell of `hits` that names a handler names one of `targets`, and the
/// handlers from that one up to its root belong to widgets that begin at or
/// before the cell.
pub open spec fn hits_lead_in<M>(
    hits: Seq<Seq<Option<usize>>>,
    targets: TreeView<MouseTarget<M>>,
    size: Size,
) -> bool {
    forall|r: int, c: int|
        0 <= r < size.rows && 0 <= c < size.cols ==> (#[trigger] hits[r][c] matches Some(i) ==> i
            < targets.items.len() && origins_within(
            targets,
            i as int,
            Pos { col: c as usize, row: r as usize },
        ))
}

/// A cell of a hit map after a handler numbered `by` took every cell that
/// had none.
pub open spec fn claimed_hit(hit: Option<usize>, by: nat) -> Option<usize> {
    match hit {
        Some(i) => Some(i),
        None => Some(by as usize),
    }
}

/// A hit map after a handler numbered `by` took every cell that had none.
pub open spec fn claimed(hits: Seq<Seq<Option<usize>>>, by: nat) -> Seq<Seq<Option<usize>>> {
    hits.map_values(
        |row: Seq<Option<usize>>| row.map_values(|hit: Option<usize>| claimed_hit(hit, by)),
    )
}

/// The offset by which the second of two blocks is moved when it is put
/// behind the first along `direction`: below it or to its right.
pub open spec fn concat_offset(direction: Direction, first: Size) -> Pos {
    match direction {
        Direction::Vertical => Pos { col: 0, row: first.rows },
        Direction::Horizontal => Pos { col: first.cols, row: 0 },
    }
}

/// The extent of two blocks put one behind the other along `direction`.
pub open spec fn concat_size(direction: Direction, first: Size, second: Size) -> Size {
    match direction {
        Direction::Vertical => Size { cols: first.cols, rows: (first.rows + second.rows) as usize },
        Direction::Horizontal => Size {
            cols: (first.cols + second.cols) as usize,
            rows: first.rows,
        },
    }
}

/// The lines of two blocks put one behind the other along `direction`: the
/// lines of the second below those of the first, or each line of the second
/// to the right of the line of the first in the same row.
pub open spec fn concat_content(
    direction: Direction,
    first: Seq<Seq<SegmentView>>,
    second: Seq<Seq<SegmentView>>,
) -> Seq<Seq<SegmentView>> {
    match direction {
        Direction::Vertical => first + second,
        Direction::Horizontal => Seq::new(first.len(), |r: int| first[r] + second[r]),
    }
}

/// The hit maps of two blocks put one behind the other along `direction`,
/// the handlers of the second renumbered by `by`.
pub open spec fn concat_hits(
    direction: Direction,
    first: Seq<Seq<Option<usize>>>,
    second: Seq<Seq<Option<usize>>>,
    by: nat,
) -> Seq<Seq<Option<usize>>> {
    match direction {
        Direction::Vertical => first + renumbered(second, by),
        Direction::Horizontal => Seq::new(
            first.len(),
            |r: int| first[r] + renumbered_row(second[r], by),
        ),
    }
}

/// When two blocks are put one behind the other, every cell of the joint
/// hit map still leads to handlers of widgets that begin at or before it.
#[verifier::rlimit(40)]
pub proof fn lemma_concat_hits_lead_in<M>(
    direction: Direction,
    first: TreeView<MouseTarget<M>>,
    second: TreeView<MouseTarget<M>>,
    first_hits: Seq<Seq<Option<usize>>>,
    second_hits: Seq<Seq<Option<usize>>>,
    first_size: Size,
    second_size: Size,
)
    requires
        first.wf(),
        second.wf(),
        first.len() + second.len() <= usize::MAX,
        first_size.across(direction) == second_size.across(direction),
        first_size.along(direction) + second_size.along(direction) <= usize::MAX,
        is_hit_grid(first_hits, first_size),
        is_hit_grid(second_hits, second_size),
        hits_lead_in(first_hits, first, first_size),
        hits_lead_in(second_hits, second, second_size),
    ensures
        is_hit_grid(
            concat_hits(direction, first_hits, second_hits, first.len()),
            concat_size(direction, first_size, second_size),
        ),
        hits_lead_in(
            concat_hits(direction, first_hits, second_hits, first.len()),
            first.appended(moved_targets(second, concat_offset(direction, first_size))),
            concat_size(direction, first_size, second_size),
        ),
{
    let offset = concat_offset(direction, first_size);
    let moved = moved_targets(second, offset);
    let joint = first.appended(moved);
    let hits = concat_hits(direction, first_hits, second_hits, first.len());
    let size = concat_size(direction, first_size, second_size);
    let n = first.len() as int;
    assert(moved.wf());
    first.lemma_appended_wf(moved);
    assert forall|r: int, c: int| 0 <= r < size.rows && 0 <= c < size.cols implies (
    #[trigger] hits[r][c] matches Some(i) ==> i < joint.items.len() && origins_within(
        joint,
        i as int,
        Pos { col: c as usize, row: r as usize },
    )) by {
        let cell = Pos { col: c as usize, row: r as usize };
        if r < first_size.rows && c < first_size.cols {
            assert(hits[r][c] == first_hits[r][c]);
            if let Some(i) = first_hits[r][c] {
                first.lemma_appended_chain_left(moved, i as int);
                first.lemma_chain_in_range(i as int);
                assert forall|k: int| 0 <= k < chain(joint.parents, i as int).len() implies joint.items[
                #[trigger] chain(joint.parents, i as int)[k]].origin.within(cell) by {
                    let node = chain(first.parents, i as int)[k];
                    assert(0 <= node < n);
                    assert(joint.items[node] == first.items[node]);
                }
            }
        } else {
            let sr = r - offset.row;
            let sc = c - offset.col;
            assert(0 <= sr < second_size.rows && 0 <= sc < second_size.cols);
            assert(hits[r][c] == renumbered_hit(second_hits[sr][sc], first.len()));
            if let Some(j) = second_hits[sr][sc] {
                first.lemma_appended_chain_right(moved, j as int);
                second.lemma_chain_in_range(j as int);
                assert(chain(moved.parents, j as int) == chain(second.parents, j as int));
                assert forall|k: int|
                    0 <= k < chain(joint.parents, n + j).len() implies joint.items[#[trigger] chain(
                    joint.parents,
                    n + j,
                )[k]].origin.within(cell) by {
                    let node = chain(second.parents, j as int)[k];
                    assert(0 <= node < second.len());
                    assert(chain(joint.parents, n + j)[k] == node + n);
                    assert(joint.items[node + n] == second.items[node].moved(offset));
                    assert(second.items[node].origin.within(
                        Pos { col: sc as usize, row: sr as usize },
                    ));
                }
            }
        }
    }
}

/// The widest of `lines`, in cells.
pub open spec fn natural_width(lines: Seq<Seq<char>>) -> nat
    decreases lines.len(),
{
    if lines.len() == 0 {
        0
    } else {
        let rest = natural_width(lines.drop_last());
        let last = grapheme_count(lines.last());
        if rest >= last {
            rest
        } else {
            last
        }
    }
}

/// The width of a block that shows `lines` under `bound`: what the bound
/// says, or else the width of the widest line.
pub open spec fn bounded_width(lines: Seq<Seq<char>>, bound: RenderBound) -> nat {
    match bound.width {
        Some(width) => width as nat,
        None => natural_width(lines),
    }
}

/// The height of a block that shows `rows` rows under `bound`: what the
/// bound says, or else `rows`.
pub open spec fn bounded_height(rows: nat, bound: RenderBound) -> nat {
    match bound.height {
        Some(height) => height as nat,
        None => rows,
    }
}

/// Row `r` of a block that shows each of `lines` in one row of `width`
/// cells: the line cut or filled up, or a blank row past the last line.
pub open spec fn clipped_row(id: ContentID, lines: Seq<Seq<char>>, width: nat, r: int) -> Seq<
    SegmentView,
> {
    if r < lines.len() {
        clipped(seq![text_view(id, lines[r])], width)
    } else {
        seq![blank_view(id, width)]
    }
}

/// The rows that one line of text takes when it is wrapped at `width`
/// cells, each filled up to `width` cells. A line without text takes one
/// blank row, and so does any line where `width` is zero.
pub open spec fn wrapped_line(text: Seq<char>, width: nat) -> Seq<Seq<char>> {
    let cells = grapheme_clusters(text);
    if width == 0 || cells.len() == 0 {
        seq![spaces(width)]
    } else {
        chunked(cells, width)
    }
}

/// The rows that `lines` take when each is wrapped at `width` cells.
pub open spec fn wrapped(lines: Seq<Seq<char>>, width: nat) -> Seq<Seq<char>>
    decreases lines.len(),
{
    if lines.len() == 0 {
        Seq::empty()
    } else {
        wrapped(lines.drop_last(), width) + wrapped_line(lines.last(), width)
    }
}

/// Row `r` of a block that shows the rows `rows`, each of `width` cells:
/// the row itself, or a blank row past the last.
pub open spec fn wrapped_row(id: ContentID, rows: Seq<Seq<char>>, width: nat, r: int) -> Seq<
    SegmentView,
> {
    if r < rows.len() {
        seq![SegmentView { id, text: rows[r], len: width }]
    } else {
        seq![blank_view(id, width)]
    }
}

/// The cursors of a block from which the first `n` rows were cut: those
/// below the cut, moved up by `n` rows.
pub open spec fn cursors_below(cursors: Map<Name, Pos>, n: usize) -> Map<Name, Pos> {
    Map::new(
        |name: Name| cursors.contains_key(name) && cursors[name].row >= n,
        |name: Name| Pos { col: cursors[name].col, row: (cursors[name].row - n) as usize },
    )
}

/// The cursors of a block that was cut down to `rows` rows: those in the
/// rows that are left.
pub open spec fn cursors_above(cursors: Map<Name, Pos>, rows: usize) -> Map<Name, Pos> {
    Map::new(
        |name: Name| cursors.contains_key(name) && cursors[name].row < rows,
        |name: Name| cursors[name],
    )
}

/// The mouse handlers of a block from which the first `n` rows were cut.
pub open spec fn raised_targets<M>(targets: TreeView<MouseTarget<M>>, n: usize) -> TreeView<
    MouseTarget<M>,
> {
    TreeView {
        items: targets.items.map_values(|target: MouseTarget<M>| target.raised(n)),
        parents: targets.parents,
        names: targets.names,
    }
}

/// The mouse handlers of a block that was cut down to `rows` rows.
pub open spec fn lowered_targets<M>(targets: TreeView<MouseTarget<M>>, rows: usize) -> TreeView<
    MouseTarget<M>,
> {
    TreeView {
        items: targets.items.map_values(|target: MouseTarget<M>| target.lowered(rows)),
        parents: targets.parents,
        names: targets.names,
    }
}

/// What a [`TextBlock`] holds.
pub struct BlockView<K, M> {
    /// The extent of the grid.
    pub extent: Size,
    /// The lines of the grid from top to bottom, each as its spans.
    pub content: Seq<Seq<SegmentView>>,
    /// The key handlers.
    pub keys: TreeView<K>,
    /// The mouse handlers.
    pub mice: TreeView<MouseTarget<M>>,
    /// The cursor of each widget that has one.
    pub cursors: Map<Name, Pos>,
    /// For each cell, row by row, the mouse handler that an event on it
    /// goes to first.
    pub hits: Seq<Seq<Option<usize>>>,
}

/// Two blocks can be put one behind the other along `direction`: they are
/// equally wide across it, and the rows or columns and the handlers of both
/// can still be counted, and so can the places to which the cursors of the
/// second move.
pub open spec fn can_join<K, M>(
    direction: Direction,
    first: BlockView<K, M>,
    second: BlockView<K, M>,
) -> bool {
    &&& first.extent.across(direction) == second.extent.across(direction)
    &&& first.extent.along(direction) + second.extent.along(direction) <= usize::MAX
    &&& first.keys.len() + second.keys.len() <= usize::MAX
    &&& first.mice.len() + second.mice.len() <= usize::MAX
    &&& cursors_movable(second.cursors, concat_offset(direction, first.extent))
}

/// `first` with `second` put behind it along `direction`: the text and the
/// hit map of `second` come below or to the right of those of `first`, its
/// handlers behind those of `first`, and its cursors and the origins of its
/// mouse handlers are moved by the extent of `first` along `direction`.
pub open spec fn joined<K, M>(
    direction: Direction,
    first: BlockView<K, M>,
    second: BlockView<K, M>,
) -> BlockView<K, M> {
    let offset = concat_offset(direction, first.extent);
    BlockView {
        extent: concat_size(direction, first.extent, second.extent),
        content: concat_content(direction, first.content, second.content),
        keys: first.keys.appended(second.keys),
        mice: first.mice.appended(moved_targets(second.mice, offset)),
        cursors: first.cursors.union_prefer_right(moved_cursors(second.cursors, offset)),
        hits: concat_hits(direction, first.hits, second.hits, first.mice.len()),
    }
}

/// A grid of styled text with what it takes to route input to the widgets
/// that rendered it: their key handlers, their mouse handlers and the map
/// from cells to mouse handlers, and their cursors.
///
/// `K` is the type of a key handler and `M` that of a mouse handler. The
/// block stores them and decides in which order they are offered an event;
/// what a handler does is up to its widget.
pub struct TextBlock<K, M> {
    lines: Vec<TextLine>,
    size: Size,
    key_callbacks: IndexTree<K>,
    cursors: HashMap<Name, Pos>,
    hit_map: Vec<Vec<Option<usize>>>,
    mouse_callbacks: IndexTree<MouseTarget<M>>,
}

impl<K, M> View for TextBlock<K, M> {
    type V = BlockView<K, M>;

    open spec fn view(&self) -> BlockView<K, M> {
        BlockView {
            extent: self.extent(),
            content: self.content(),
            keys: self.key_handlers(),
            mice: self.mouse_handlers(),
            cursors: self.cursor_entries(),
            hits: self.hits(),
        }
    }
}

impl<K, M> TextBlock<K, M> {
    /// The extent of the grid.
    pub closed spec fn extent(&self) -> Size {
        self.size
    }

    /// The lines of the grid from top to bottom, each as its spans.
    pub closed spec fn content(&self) -> Seq<Seq<SegmentView>> {
        self.lines@.map_values(|line: TextLine| line@)
    }

    /// The key handlers.
    pub closed spec fn key_handlers(&self) -> TreeView<K> {
        self.key_callbacks@
    }

    /// The mouse handlers.
    pub closed spec fn mouse_handlers(&self) -> TreeView<MouseTarget<M>> {
        self.mouse_callbacks@
    }

    /// The cursors in the order in which they were registered.
    pub closed spec fn cursor_entries(&self) -> Map<Name, Pos> {
        self.cursors@
    }

    /// For each cell, row by row, the mouse handler that a click on it goes
    /// to first.
    pub closed spec fn hits(&self) -> Seq<Seq<Option<usize>>> {
        self.hit_map@.map_values(|row: Vec<Option<usize>>| row@)
    }

    pub open spec fn rows(&self) -> usize {
        self.extent().rows
    }

    pub open spec fn cols(&self) -> usize {
        self.extent().cols
    }

    /// The cell just past the bottom right corner.
    pub open spec fn corner(&self) -> Pos {
        Pos { col: self.cols(), row: self.rows() }
    }

    /// Where the cursor of the widget `name` stands, if it has one.
    pub open spec fn cursor_of(&self, name: Name) -> Option<Pos> {
        if self.cursor_entries().contains_key(name) {
            Some(self.cursor_entries()[name])
        } else {
            None
        }
    }

    /// The key handlers that a key is offered to when `name` has the focus,
    /// innermost first.
    pub open spec fn key_chain(&self, name: Name) -> Seq<K> {
        self.key_handlers().handlers(name)
    }

    /// The mouse handlers that an event at `cell` is offered to, innermost
    /// first.
    pub open spec fn mouse_chain(&self, cell: Pos) -> Seq<MouseTarget<M>> {
        if cell.row < self.rows() && cell.col < self.cols() {
            match self.hits()[cell.row as int][cell.col as int] {
                Some(i) => self.mouse_handlers().ancestry(i as int),
                None => Seq::empty(),
            }
        } else {
            Seq::empty()
        }
    }

    /// What holds of every block: it has as many lines as rows and every
    /// line is as wide as the block has columns; the hit map has a cell for
    /// every cell of the grid and points at handlers of the block only; a
    /// handler that a cell leads to belongs to a widget that begins at or
    /// before that cell; every cursor lies in a row of the block; and
    /// origins lie within the block.
    pub open spec fn inv(&self) -> bool {
        &&& is_grid(self.content(), self.extent())
        &&& is_hit_grid(self.hits(), self.extent())
        &&& self.key_handlers().wf()
        &&& self.mouse_handlers().wf()
        &&& targets_within(self.mouse_handlers(), self.corner())
        &&& hits_lead_in(self.hits(), self.mouse_handlers(), self.extent())
    }

    /// The block is well formed: [`Self::inv`] holds, and its parts are
    /// consistent with one another.
    pub closed spec fn wf(&self) -> bool {
        &&& self.inv()
        &&& self.lines@.len() == self.size.rows
        &&& forall|i: int|
            0 <= i < self.lines@.len() ==> (#[trigger] self.lines@[i]).wf() && self.lines@[i].len
                == self.size.cols
        &&& self.key_callbacks.wf()
        &&& self.mouse_callbacks.wf()
    }

    /// The block has no handlers and no cursors.
    pub open spec fn is_inert(&self) -> bool {
        &&& self.key_handlers() == TreeView::<K>::empty()
        &&& self.mouse_handlers() == TreeView::<MouseTarget<M>>::empty()
        &&& self.cursor_entries() == Map::<Name, Pos>::empty()
        &&& forall|r: int, c: int|
            0 <= r < self.rows() && 0 <= c < self.cols() ==> (#[trigger] self.hits()[r][c]) is None
    }

    /// Every cell of the hit map that names a handler names one of the
    /// block.
    pub open spec fn hits_in_range(&self) -> bool {
        forall|r: int, c: int|
            0 <= r < self.hits().len() && 0 <= c < self.hits()[r].len() ==> (
            #[trigger] self.hits()[r][c] matches Some(i) ==> i < self.mouse_handlers().len())
    }

    /// The two blocks can be put one behind the other along `direction`.
    pub open spec fn concat_ok(&self, direction: Direction, other: &Self) -> bool {
        can_join(direction, self@, other@)
    }

    /// `block` is `self` with `other` put behind it along `direction`.
    pub open spec fn is_concat(&self, direction: Direction, other: &Self, block: &Self) -> bool {
        block@ == joined(direction, self@, other@)
    }

    /// A well-formed block has as many lines as rows, each
    /// as wide as the block has columns, and the rest of [`Self::inv`].
    pub proof fn lemma_wf(&self)
        requires
            self.wf(),
        ensures
            self.inv(),
    {
    }

    /// What is put together of two well-formed blocks as [`Self::is_concat`]
    /// says meets [`Self::inv`].
    pub proof fn lemma_concat_inv(&self, direction: Direction, other: &Self, block: &Self)
        requires
            self.inv(),
            other.inv(),
            self.concat_ok(direction, other),
            self.is_concat(direction, other, block),
        ensures
            block.inv(),
    {
        let offset = concat_offset(direction, self.extent());
        let size = concat_size(direction, self.extent(), other.extent());
        let moved = moved_targets(other.mouse_handlers(), offset);
        assert(moved.wf());
        self.key_handlers().lemma_appended_wf(other.key_handlers());
        self.mouse_handlers().lemma_appended_wf(moved);
        lemma_concat_hits_lead_in(
            direction,
            self.mouse_handlers(),
            other.mouse_handlers(),
            self.hits(),
            other.hits(),
            self.extent(),
            other.extent(),
        );
        assert forall|r: int| 0 <= r < size.rows implies total_len(#[trigger] block.content()[r])
            == size.cols by {
            match direction {
                Direction::Vertical => {
                    if r >= self.rows() {
                        assert(block.content()[r] == other.content()[r - self.rows()]);
                    }
                },
                Direction::Horizontal => {
                    lemma_total_len_add(self.content()[r], other.content()[r]);
                },
            }
        }
        assert forall|k: int| 0 <= k < block.mouse_handlers().items.len() implies (
        #[trigger] block.mouse_handlers().items[k]).origin.within(block.corner()) by {
            let n = self.mouse_handlers().items.len();
            if k >= n {
                assert(other.mouse_handlers().items[k - n].origin.within(other.corner()));
                assert(block.mouse_handlers().items[k] == other.mouse_handlers().items[k
                    - n].moved(offset));
            } else {
                assert(self.mouse_handlers().items[k].origin.within(self.corner()));
            }
        }
    }

    /// Two well-formed blocks put together are a grid again: as long
    /// along the direction as both together and as wide across it as each
    /// of them, with a line for every row, each as wide as the block.
    pub proof fn lemma_concat_grid(&self, direction: Direction, other: &Self, block: &Self)
        requires
            self.wf(),
            other.wf(),
            self.concat_ok(direction, other),
            self.is_concat(direction, other, block),
        ensures
            block.extent().along(direction) == self.extent().along(direction)
                + other.extent().along(direction),
            block.extent().across(direction) == self.extent().across(direction),
            is_grid(block.content(), block.extent()),
    {
        self.lemma_wf();
        other.lemma_wf();
        self.lemma_concat_inv(direction, other, block);
    }

    /// In a block put together of two, a
    /// cursor of the second is found moved by the extent of the first along
    /// the direction; a cursor that only the first has is found where it
    /// was.
    pub proof fn lemma_concat_cursor(&self, direction: Direction, other: &Self, block: &Self, name: Name)
        requires
            self.is_concat(direction, other, block),
        ensures
            block.cursor_of(name) == match other.cursor_of(name) {
                Some(pos) => Some(pos.shifted(concat_offset(direction, self.extent()))),
                None => self.cursor_of(name),
            },
    {
    }

    /// A block of the lines `lines`, without handlers and cursors.
    pub fn new(lines: Vec<TextLine>, width: usize, height: usize) -> (block: Self)
        requires
            lines@.len() == height,
            forall|i: int| 0 <= i < lines@.len() ==> (#[trigger] lines@[i]).wf() && lines@[i].len == width,
        ensures
            block.wf(),
            block.extent() == (Size { cols: width, rows: height }),
            block.content() == lines@.map_values(|line: TextLine| line@),
            block.key_handlers() == TreeView::<K>::empty(),
            block.mouse_handlers() == TreeView::<MouseTarget<M>>::empty(),
            block.cursor_entries() == Map::<Name, Pos>::empty(),
            forall|r: int, c: int| 0 <= r < height && 0 <= c < width ==> (#[trigger] block.hits()[r][c]) is None,
    {
        let mut hit_map: Vec<Vec<Option<usize>>> = Vec::new();
        let mut r: usize = 0;
        while r < height
            invariant
                r <= height,
                hit_map@.len() == r,
                forall|i: int| 0 <= i < r ==> (#[trigger] hit_map@[i])@.len() == width,
                forall|i: int, c: int| 0 <= i < r && 0 <= c < width ==> (#[trigger] hit_map@[i]@[c]) is None,
            decreases height - r,
        {
            let mut row: Vec<Option<usize>> = Vec::new();
            let mut c: usize = 0;
            while c < width
                invariant
                    c <= width,
                    row@.len() == c,
                    forall|k: int| 0 <= k < c ==> (#[trigger] row@[k]) is None,
                decreases width - c,
            {
                row.push(None);
                c = c + 1;
            }
            hit_map.push(row);
            r = r + 1;
        }
        let size = Size::new(width, height);
        let block = TextBlock {
            key_callbacks: IndexTree::new(),
            cursors: HashMap::new(),
            hit_map,
            mouse_callbacks: IndexTree::new(),
            lines,
            size,
        };
        proof {
            assert forall|r: int| 0 <= r < size.rows implies total_len(
                #[trigger] block.content()[r],
            ) == size.cols by {
                assert(block.lines@[r].wf());
            }
            assert forall|r: int| 0 <= r < size.rows implies (#[trigger] block.hits()[r]).len()
                == size.cols by {
                assert(block.hit_map@[r]@.len() == width);
            }
            assert forall|r: int, c: int| 0 <= r < height && 0 <= c < width implies (
            #[trigger] block.hits()[r][c]) is None by {
                assert(block.hit_map@[r]@[c] is None);
            }
        }
        block
    }

    /// A block of the lines `lines`, each brought to `width` cells, without
    /// handlers and cursors. A line that is shorter than `width` needs a
    /// span to take the style of its filling from.
    pub fn new_clipped(lines: Vec<TextLine>, width: usize, height: usize) -> (block: Self)
        requires
            lines@.len() == height,
            forall|i: int|
                0 <= i < lines@.len() ==> (#[trigger] lines@[i]).wf() && (lines@[i].len < width
                    ==> lines@[i].segments@.len() > 0),
        ensures
            block.wf(),
            block.is_inert(),
            block.extent() == (Size { cols: width, rows: height }),
            block.content() == lines@.map_values(|line: TextLine| clipped(line@, width as nat)),
    {
        let ghost given = lines@;
        let mut clipped_lines: Vec<TextLine> = Vec::new();
        for line in it: lines
            invariant
                it.seq() == given,
                forall|i: int|
                    0 <= i < given.len() ==> (#[trigger] given[i]).wf() && (given[i].len < width
                        ==> given[i].segments@.len() > 0),
                clipped_lines@.len() == it.index(),
                forall|i: int|
                    0 <= i < clipped_lines@.len() ==> (#[trigger] clipped_lines@[i]).wf()
                        && clipped_lines@[i].len == width && clipped_lines@[i]@ == clipped(
                        given[i]@,
                        width as nat,
                    ),
        {
            let ghost k = it.index() as int;
            assert(given[k].wf());
            clipped_lines.push(line.clip(width));
        }
        let ghost content = clipped_lines@.map_values(|line: TextLine| line@);
        let block = Self::new(clipped_lines, width, height);
        proof {
            assert(content =~= given.map_values(|line: TextLine| clipped(line@, width as nat)));
        }
        block
    }

    /// A block that shows each of `lines` in a row of its own, without
    /// reflow: a line that is too long for the width is cut, a shorter one
    /// filled up with spaces. Where `bound` gives no width, the block is as
    /// wide as the widest line. Where it gives a height, lines past it are
    /// left out and blank rows make up for lines that are missing. The
    /// text is tagged as the part `class` of the widget `name` of the kind
    /// `widget`.
    #[verifier::rlimit(40)]
    pub fn clip_lines(
        name: Option<Name>,
        widget: &'static str,
        class: &'static str,
        lines: Vec<String>,
        bound: RenderBound,
    ) -> (block: Self)
        ensures
            block.wf(),
            block.is_inert(),
            block.cols() == bounded_width(texts(lines@), bound),
            block.rows() == bounded_height(lines@.len(), bound),
            block.content() == Seq::new(
                block.rows() as nat,
                |r: int|
                    clipped_row(
                        ContentID { name, widget_type: widget, class },
                        texts(lines@),
                        block.cols() as nat,
                        r,
                    ),
            ),
    {
        let id = ContentID::new(name, widget, class);
        let ghost given = texts(lines@);
        let mut segments: Vec<Segment> = Vec::new();
        for line in it: lines
            invariant
                it.seq() == lines@,
                given == texts(lines@),
                segments@.len() == it.index(),
                forall|k: int|
                    0 <= k < segments@.len() ==> (#[trigger] segments@[k])@ == text_view(
                        id,
                        given[k],
                    ),
        {
            segments.push(Segment::new_id(id, line));
        }
        let width = match bound.width {
            Some(width) => width,
            None => {
                let mut widest: usize = 0;
                let mut k: usize = 0;
                proof {
                    assert(given.take(0) =~= Seq::<Seq<char>>::empty());
                }
                while k < segments.len()
                    invariant
                        k <= segments@.len(),
                        segments@.len() == given.len(),
                        forall|j: int|
                            0 <= j < segments@.len() ==> (#[trigger] segments@[j])@ == text_view(
                                id,
                                given[j],
                            ),
                        widest == natural_width(given.take(k as int)),
                    decreases segments@.len() - k,
                {
                    proof {
                        assert(given.take(k + 1).drop_last() =~= given.take(k as int));
                        assert(segments@[k as int]@ == text_view(id, given[k as int]));
                    }
                    if segments[k].len > widest {
                        widest = segments[k].len;
                    }
                    k = k + 1;
                }
                proof {
                    assert(given.take(given.len() as int) =~= given);
                }
                widest
            },
        };
        let height = match bound.height {
            Some(height) => height,
            None => segments.len(),
        };
        let ghost views = segments@;
        let mut rows: Vec<TextLine> = Vec::new();
        for segment in it: segments
            invariant
                it.seq() == views,
                views.len() == given.len(),
                forall|k: int|
                    0 <= k < views.len() ==> (#[trigger] views[k])@ == text_view(id, given[k]),
                rows@.len() == if it.index() < height {
                    it.index()
                } else {
                    height as int
                },
                forall|k: int|
                    0 <= k < rows@.len() ==> (#[trigger] rows@[k]).wf() && rows@[k].len == width
                        && rows@[k]@ == clipped_row(id, given, width as nat, k),
        {
            if rows.len() < height {
                let ghost k = it.index() as int;
                assert(views[k]@ == text_view(id, given[k]));
                let line = TextLine::from_segment(segment);
                let line = line.clip(width);
                rows.push(line);
            }
        }
        while rows.len() < height
            invariant
                rows@.len() <= height,
                rows@.len() >= given.len() || rows@.len() == height,
                forall|k: int|
                    0 <= k < rows@.len() ==> (#[trigger] rows@[k]).wf() && rows@[k].len == width
                        && rows@[k]@ == clipped_row(id, given, width as nat, k),
            decreases height - rows@.len(),
        {
            let line = TextLine::from_segment(Segment::blank_sized(id, width));
            rows.push(line);
        }
        let ghost content = rows@.map_values(|line: TextLine| line@);
        let block = Self::new(rows, width, height);
        proof {
            assert(content =~= Seq::new(
                height as nat,
                |r: int| clipped_row(id, given, width as nat, r),
            ));
        }
        block
    }

    /// A block that shows `lines` as paragraphs: a line that is too long for
    /// the width goes on in the rows below it. Every row is filled up with
    /// spaces to the width. Where `bound` gives no width, the block is as
    /// wide as the widest line. Where it gives a height, rows past it are
    /// left out and blank rows make up for rows that are missing.
    #[verifier::rlimit(40)]
    pub fn wrap_lines(id: ContentID, lines: Vec<String>, bound: RenderBound) -> (block: Self)
        ensures
            block.wf(),
            block.is_inert(),
            block.cols() == bounded_width(texts(lines@), bound),
            block.rows() == bounded_height(
                wrapped(texts(lines@), block.cols() as nat).len(),
                bound,
            ),
            block.content() == Seq::new(
                block.rows() as nat,
                |r: int|
                    wrapped_row(
                        id,
                        wrapped(texts(lines@), block.cols() as nat),
                        block.cols() as nat,
                        r,
                    ),
            ),
    {
        let ghost given = texts(lines@);
        let mut cells: Vec<Vec<String>> = Vec::new();
        for line in it: lines
            invariant
                it.seq() == lines@,
                given == texts(lines@),
                cells@.len() == it.index(),
                forall|k: int|
                    0 <= k < cells@.len() ==> texts((#[trigger] cells@[k])@) == grapheme_clusters(
                        given[k],
                    ),
        {
            cells.push(graphemes(line.as_str()));
        }
        let width = match bound.width {
            Some(width) => width,
            None => {
                let mut widest: usize = 0;
                let mut k: usize = 0;
                proof {
                    assert(given.take(0) =~= Seq::<Seq<char>>::empty());
                }
                while k < cells.len()
                    invariant
                        k <= cells@.len(),
                        cells@.len() == given.len(),
                        forall|j: int|
                            0 <= j < cells@.len() ==> texts((#[trigger] cells@[j])@)
                                == grapheme_clusters(given[j]),
                        widest == natural_width(given.take(k as int)),
                    decreases cells@.len() - k,
                {
                    proof {
                        assert(given.take(k + 1).drop_last() =~= given.take(k as int));
                        assert(texts(cells@[k as int]@).len() == cells@[k as int]@.len());
                    }
                    if cells[k].len() > widest {
                        widest = cells[k].len();
                    }
                    k = k + 1;
                }
                proof {
                    assert(given.take(given.len() as int) =~= given);
                }
                widest
            },
        };
        let mut row_texts: Vec<String> = Vec::new();
        let mut k: usize = 0;
        proof {
            assert(given.take(0) =~= Seq::<Seq<char>>::empty());
            assert(texts(row_texts@) =~= wrapped(given.take(0), width as nat));
        }
        while k < cells.len()
            invariant
                k <= cells@.len(),
                cells@.len() == given.len(),
                forall|j: int|
                    0 <= j < cells@.len() ==> texts((#[trigger] cells@[j])@) == grapheme_clusters(
                        given[j],
                    ),
                texts(row_texts@) == wrapped(given.take(k as int), width as nat),
            decreases cells@.len() - k,
        {
            let ghost before = texts(row_texts@);
            proof {
                assert(given.take(k + 1).drop_last() =~= given.take(k as int));
                assert(given.take(k + 1).last() == given[k as int]);
                assert(texts(cells@[k as int]@).len() == cells@[k as int]@.len());
            }
            if width == 0 || cells[k].len() == 0 {
                let fill = blank(width);
                row_texts.push(fill);
                proof {
                    assert(texts(row_texts@) =~= before + seq![spaces(width as nat)]);
                }
            } else {
                let mut chunks = split_cells(&cells[k], width);
                let ghost added = texts(chunks@);
                row_texts.append(&mut chunks);
                proof {
                    assert(texts(row_texts@) =~= before + added);
                }
            }
            k = k + 1;
        }
        proof {
            assert(given.take(given.len() as int) =~= given);
        }
        let ghost all = texts(row_texts@);
        let height = match bound.height {
            Some(height) => height,
            None => row_texts.len(),
        };
        let ghost row_strings = row_texts@;
        let mut rows: Vec<TextLine> = Vec::new();
        for text in it: row_texts
            invariant
                it.seq() == row_strings,
                all == texts(row_strings),
                rows@.len() == if it.index() < height {
                    it.index()
                } else {
                    height as int
                },
                forall|j: int|
                    0 <= j < rows@.len() ==> (#[trigger] rows@[j]).wf() && rows@[j].len == width
                        && rows@[j]@ == wrapped_row(id, all, width as nat, j),
        {
            if rows.len() < height {
                let ghost j = it.index() as int;
                assert(all[j] == row_strings[j]@);
                let line = TextLine::from_segment(Segment { id, text, len: width });
                rows.push(line);
            }
        }
        while rows.len() < height
            invariant
                rows@.len() <= height,
                rows@.len() >= all.len() || rows@.len() == height,
                forall|j: int|
                    0 <= j < rows@.len() ==> (#[trigger] rows@[j]).wf() && rows@[j].len == width
                        && rows@[j]@ == wrapped_row(id, all, width as nat, j),
            decreases height - rows@.len(),
        {
            let line = TextLine::from_segment(Segment::blank_sized(id, width));
            rows.push(line);
        }
        let ghost content = rows@.map_values(|line: TextLine| line@);
        let block = Self::new(rows, width, height);
        proof {
            assert(content =~= Seq::new(
                height as nat,
                |r: int| wrapped_row(id, all, width as nat, r),
            ));
        }
        block
    }

    /// The extent of the grid.
    pub fn size(&self) -> (size: Size)
        ensures
            size == self.extent(),
    {
        self.size
    }

    /// The lines of the grid from top to bottom.
    pub fn lines(&self) -> (lines: &Vec<TextLine>)
        requires
            self.wf(),
        ensures
            lines@.map_values(|line: TextLine| line@) == self.content(),
            lines@.len() == self.rows(),
            forall|i: int| 0 <= i < lines@.len() ==> (#[trigger] lines@[i]).wf() && lines@[i].len == self.cols(),
    {
        &self.lines
    }

    /// The number of key handlers.
    pub fn key_handler_count(&self) -> (count: usize)
        ensures
            count == self.key_handlers().len(),
    {
        self.key_callbacks.len()
    }

    /// The number of mouse handlers.
    pub fn mouse_handler_count(&self) -> (count: usize)
        ensures
            count == self.mouse_handlers().len(),
    {
        self.mouse_callbacks.len()
    }

    /// Where the cursor of the widget `name` stands, if it has one.
    pub fn get_cursor(&self, name: Name) -> (pos: Option<Pos>)
        ensures
            pos == self.cursor_of(name),
    {
        broadcast use vstd::std_specs::hash::group_hash_axioms;

        match self.cursors.get(&name) {
            Some(pos) => Some(*pos),
            None => None,
        }
    }

    /// Registers `callback` as the key handler of the widget that rendered
    /// this block: it comes after every handler that the block holds already
    /// when a key is offered to one of them.
    pub fn add_key_handler(self, name: Option<Name>, callback: K) -> (block: Self)
        requires
            self.wf(),
        ensures
            block.wf(),
            block.key_handlers() == self.key_handlers().pushed(name, callback),
            block.extent() == self.extent(),
            block.content() == self.content(),
            block.mouse_handlers() == self.mouse_handlers(),
            block.cursor_entries() == self.cursor_entries(),
            block.hits() == self.hits(),
    {
        let mut block = self;
        block.key_callbacks.push(name, callback);
        proof {
            self.key_handlers().lemma_pushed_wf(name, callback);
        }
        block
    }

    /// Registers `callback` as the mouse handler of the widget that rendered
    /// this block. It gets every cell that no handler has yet, and it comes
    /// after every handler that the block holds already when an event is
    /// offered to one of them. Its origin is the origin of the block.
    #[verifier::rlimit(40)]
    pub fn add_mouse_handler(self, name: Option<Name>, callback: M) -> (block: Self)
        requires
            self.wf(),
        ensures
            block.wf(),
            block.mouse_handlers() == self.mouse_handlers().pushed(
                None,
                MouseTarget {
                    name,
                    origin: Pos { col: 0, row: 0 },
                    hidden: Pos { col: 0, row: 0 },
                    handler: callback,
                },
            ),
            block.hits() == claimed(self.hits(), self.mouse_handlers().len()),
            block.extent() == self.extent(),
            block.content() == self.content(),
            block.key_handlers() == self.key_handlers(),
            block.cursor_entries() == self.cursor_entries(),
    {
        let TextBlock { lines, size, key_callbacks, cursors, hit_map, mouse_callbacks } = self;
        let mut mouse_callbacks = mouse_callbacks;
        let ghost before = mouse_callbacks@;
        let ghost target = MouseTarget {
                    name,
                    origin: Pos { col: 0, row: 0 },
                    hidden: Pos { col: 0, row: 0 },
                    handler: callback,
                };
        let idx = mouse_callbacks.push(
            None,
            MouseTarget { name, origin: Pos::new(0, 0), hidden: Pos::new(0, 0), handler: callback },
        );
        let mut taken: Vec<Vec<Option<usize>>> = Vec::new();
        let mut r: usize = 0;
        while r < hit_map.len()
            invariant
                r <= hit_map@.len(),
                taken@.len() == r,
                forall|i: int|
                    0 <= i < r ==> (#[trigger] taken@[i])@ == hit_map@[i]@.map_values(
                        |hit: Option<usize>| claimed_hit(hit, idx as nat),
                    ),
            decreases hit_map@.len() - r,
        {
            let mut row: Vec<Option<usize>> = Vec::new();
            let mut c: usize = 0;
            while c < hit_map[r].len()
                invariant
                    r < hit_map@.len(),
                    c <= hit_map@[r as int]@.len(),
                    row@.len() == c,
                    forall|k: int|
                        0 <= k < c ==> #[trigger] row@[k] == claimed_hit(
                            hit_map@[r as int]@[k],
                            idx as nat,
                        ),
                decreases hit_map@[r as int]@.len() - c,
            {
                let hit = match hit_map[r][c] {
                    Some(i) => Some(i),
                    None => Some(idx),
                };
                row.push(hit);
                c = c + 1;
            }
            proof {
                assert(row@ =~= hit_map@[r as int]@.map_values(
                    |hit: Option<usize>| claimed_hit(hit, idx as nat),
                ));
            }
            taken.push(row);
            r = r + 1;
        }
        let block = TextBlock {
            lines,
            size,
            key_callbacks,
            cursors,
            hit_map: taken,
            mouse_callbacks,
        };
        proof {
            let after = before.pushed(None, target);
            before.lemma_pushed_wf(None, target);
            assert(block.hits() =~= claimed(self.hits(), before.len())) by {
                assert forall|i: int| 0 <= i < block.hits().len() implies block.hits()[i] == claimed(
                    self.hits(),
                    before.len(),
                )[i] by {
                    assert(block.hits()[i] == taken@[i]@);
                }
            }
            assert forall|i: int, c: int| 0 <= i < size.rows && 0 <= c < size.cols implies (
            #[trigger] block.hits()[i][c] matches Some(h) ==> h < after.items.len()
                && origins_within(after, h as int, Pos { col: c as usize, row: i as usize })) by {
                let cell = Pos { col: c as usize, row: i as usize };
                assert(self.hits()[i].len() == size.cols);
                assert(block.hits()[i][c] == claimed_hit(self.hits()[i][c], before.len()));
                match self.hits()[i][c] {
                    Some(h) => {
                        before.lemma_pushed_chain(None, target, h as int);
                        before.lemma_chain_in_range(h as int);
                        assert forall|k: int|
                            0 <= k < chain(after.parents, h as int).len() implies after.items[
                        #[trigger] chain(after.parents, h as int)[k]].origin.within(cell) by {
                            if k < chain(before.parents, h as int).len() {
                                let node = chain(before.parents, h as int)[k];
                                assert(after.items[node] == before.items[node]);
                            }
                        }
                    },
                    None => {
                        before.lemma_pushed_chain(None, target, before.len() as int);
                    },
                }
            }
        }
        block
    }

    /// Registers the cursor of the widget `name` at `pos`, wherever that
    /// is. A cursor registered earlier under the same name is no longer
    /// found.
    pub fn add_cursor(self, name: Name, pos: Pos) -> (block: Self)
        requires
            self.wf(),
        ensures
            block.wf(),
            block.cursor_entries() == self.cursor_entries().insert(name, pos),
            block.cursor_of(name) == Some(pos),
            forall|other: Name| other != name ==> block.cursor_of(other) == self.cursor_of(other),
            block.extent() == self.extent(),
            block.content() == self.content(),
            block.key_handlers() == self.key_handlers(),
            block.mouse_handlers() == self.mouse_handlers(),
            block.hits() == self.hits(),
    {
        broadcast use vstd::std_specs::hash::group_hash_axioms;

        let mut block = self;
        block.cursors.insert(name, pos);
        block
    }

    /// Whether the two blocks can be put one behind the other along
    /// `direction`.
    pub fn can_concat(&self, direction: Direction, other: &Self) -> (ok: bool)
        ensures
            ok == self.concat_ok(direction, other),
    {
        let across = self.size.against_direction(direction) == other.size.against_direction(
            direction,
        );
        let along = self.size.in_direction(direction) <= usize::MAX - other.size.in_direction(
            direction,
        );
        let keys = self.key_callbacks.len() <= usize::MAX - other.key_callbacks.len();
        let mice = self.mouse_callbacks.len() <= usize::MAX - other.mouse_callbacks.len();
        let offset = match direction {
            Direction::Vertical => Pos::new(0, self.size.rows),
            Direction::Horizontal => Pos::new(self.size.cols, 0),
        };
        let mut movable = true;
        let cursors = other.cursors.iter();
        let ghost pairs = cursors.remaining().unref();
        proof {
            vstd::std_specs::hash::axiom_spec_hash_map_iter(&other.cursors);
        }
        for pair in it: cursors
            invariant
                it.seq().unref() == pairs,
                offset == concat_offset(direction, self.extent()),
                movable == (forall|i: int|
                    0 <= i < it.index() ==> (#[trigger] pairs[i]).1.col + offset.col <= usize::MAX
                        && pairs[i].1.row + offset.row <= usize::MAX),
        {
            let (_, pos) = pair;
            proof {
                assert(pairs[it.index() as int].1 == *pos);
            }
            if pos.col > usize::MAX - offset.col || pos.row > usize::MAX - offset.row {
                movable = false;
            }
        }
        proof {
            let all = other.cursors.iter().remaining();
            if movable {
                assert forall|name: Name| #[trigger]
                    other.cursors@.contains_key(name) implies other.cursors@[name].col
                    + offset.col <= usize::MAX && other.cursors@[name].row + offset.row
                    <= usize::MAX by {
                    assert(all.contains((&name, &other.cursors@[name])));
                    let i = choose|i: int|
                        0 <= i < all.len() && all[i] == (&name, &other.cursors@[name]);
                    assert(pairs[i].1 == other.cursors@[name]);
                }
            } else {
                let i = choose|i: int|
                    0 <= i < pairs.len() && !((#[trigger] pairs[i]).1.col + offset.col <= usize::MAX
                        && pairs[i].1.row + offset.row <= usize::MAX);
                assert(other.cursors@.contains_key(*all[i].0) && other.cursors@[*all[i].0]
                    == *all[i].1);
                assert(pairs[i] == (*all[i].0, *all[i].1));
            }
            assert(movable == cursors_movable(other.cursors@, offset));
        }
        across && along && keys && mice && movable
    }

    /// Puts `other` behind `self` along `direction`.
    pub fn concat_dir(self, direction: Direction, other: Self) -> (block: Self)
        requires
            self.wf(),
            other.wf(),
            self.concat_ok(direction, &other),
        ensures
            block.wf(),
            self.is_concat(direction, &other, &block),
    {
        match direction {
            Direction::Horizontal => self.hconcat(other),
            Direction::Vertical => self.vconcat(other),
        }
    }

    /// Puts `other` below `self`. Both must be equally wide.
    #[verifier::rlimit(40)]
    pub fn vconcat(self, other: Self) -> (block: Self)
        requires
            self.wf(),
            other.wf(),
            self.concat_ok(Direction::Vertical, &other),
        ensures
            block.wf(),
            self.is_concat(Direction::Vertical, &other, &block),
    {
        let TextBlock { lines, size, key_callbacks, cursors, hit_map, mouse_callbacks } = self;
        let TextBlock {
            lines: other_lines,
            size: other_size,
            key_callbacks: other_keys,
            cursors: other_cursors,
            hit_map: other_hits,
            mouse_callbacks: other_mice,
        } = other;
        let mut lines = lines;
        let mut other_lines = other_lines;
        let mut hit_map = hit_map;
        let pos_offset = Pos::new(0, size.rows);
        lines.append(&mut other_lines);
        let (key_callbacks, mouse_callbacks, cursors, idx_offset) = Self::merge_routing(
            key_callbacks,
            mouse_callbacks,
            cursors,
            other_keys,
            other_mice,
            other_cursors,
            pos_offset,
            Ghost(Pos { col: other_size.cols, row: other_size.rows }),
        );
        let mut r: usize = 0;
        while r < other_hits.len()
            invariant
                r <= other_hits@.len(),
                hit_map@.map_values(|row: Vec<Option<usize>>| row@) == self.hits()
                    + renumbered(other.hits(), idx_offset as nat).take(r as int),
                other.hits() == other_hits@.map_values(|row: Vec<Option<usize>>| row@),
                other.hits_in_range(),
                idx_offset + other.mouse_handlers().len() <= usize::MAX,
            decreases other_hits@.len() - r,
        {
            proof {
                assert(other.hits()[r as int] == other_hits@[r as int]@);
                assert forall|c: int| 0 <= c < other_hits@[r as int]@.len() implies (
                #[trigger] other_hits@[r as int]@[c] matches Some(h) ==> h
                    < other.mouse_handlers().len()) by {
                    assert(other.hits()[r as int][c] == other_hits@[r as int]@[c]);
                }
            }
            let row = Self::renumber_row(
                &other_hits[r],
                idx_offset,
                Ghost(other.mouse_handlers().len()),
            );
            proof {
                let done = renumbered(other.hits(), idx_offset as nat);
                assert(done.take(r + 1) =~= done.take(r as int).push(row@));
            }
            let ghost rows_before = hit_map@.map_values(|row: Vec<Option<usize>>| row@);
            hit_map.push(row);
            proof {
                let done = renumbered(other.hits(), idx_offset as nat);
                assert(hit_map@.map_values(|row: Vec<Option<usize>>| row@) =~= rows_before.push(
                    row@,
                ));
                assert(rows_before.push(row@) =~= self.hits() + done.take(r + 1));
            }
            r = r + 1;
        }
        let block = TextBlock {
            lines,
            size: Size { cols: size.cols, rows: size.rows + other_size.rows },
            key_callbacks,
            cursors,
            hit_map,
            mouse_callbacks,
        };
        proof {
            let done = renumbered(other.hits(), idx_offset as nat);
            assert(done.take(other_hits@.len() as int) =~= done);
            assert(block.content() =~= self.content() + other.content());
            self.lemma_concat_inv(Direction::Vertical, &other, &block);
        }
        block
    }

    /// Puts `other` to the right of `self`. Both must be equally high.
    #[verifier::rlimit(40)]
    pub fn hconcat(self, other: Self) -> (block: Self)
        requires
            self.wf(),
            other.wf(),
            self.concat_ok(Direction::Horizontal, &other),
        ensures
            block.wf(),
            self.is_concat(Direction::Horizontal, &other, &block),
    {
        let TextBlock { lines, size, key_callbacks, cursors, hit_map, mouse_callbacks } = self;
        let TextBlock {
            lines: other_lines,
            size: other_size,
            key_callbacks: other_keys,
            cursors: other_cursors,
            hit_map: other_hits,
            mouse_callbacks: other_mice,
        } = other;
        let mut lines = lines;
        let pos_offset = Pos::new(size.cols, 0);
        let ghost left = lines@;
        let ghost right = other_lines@;
        let count = lines.len();
        let mut i: usize = 0;
        for line in it: other_lines
            invariant
                i == it.index(),
                count == left.len(),
                it.seq() == right,
                left.len() == right.len(),
                lines@.len() == left.len(),
                size.cols + other_size.cols <= usize::MAX,
                forall|k: int|
                    0 <= k < left.len() ==> (#[trigger] left[k]).wf() && left[k].len == size.cols,
                forall|k: int|
                    0 <= k < right.len() ==> (#[trigger] right[k]).wf() && right[k].len
                        == other_size.cols,
                forall|k: int|
                    0 <= k < i ==> (#[trigger] lines@[k]).wf() && lines@[k].len == size.cols
                        + other_size.cols && lines@[k]@ == left[k]@ + right[k]@,
                forall|k: int| i <= k < left.len() ==> #[trigger] lines@[k] == left[k],
        {
            assert(lines@[i as int] == left[i as int]);
            assert(left[i as int].wf());
            assert(right[i as int].wf());
            lines[i].hconcat(line);
            i = i + 1;
        }
        let (key_callbacks, mouse_callbacks, cursors, idx_offset) = Self::merge_routing(
            key_callbacks,
            mouse_callbacks,
            cursors,
            other_keys,
            other_mice,
            other_cursors,
            pos_offset,
            Ghost(Pos { col: other_size.cols, row: other_size.rows }),
        );
        let mut joined: Vec<Vec<Option<usize>>> = Vec::new();
        let mut r: usize = 0;
        while r < hit_map.len()
            invariant
                r <= hit_map@.len(),
                hit_map@.len() == other_hits@.len(),
                self.hits() == hit_map@.map_values(|row: Vec<Option<usize>>| row@),
                other.hits() == other_hits@.map_values(|row: Vec<Option<usize>>| row@),
                other.hits_in_range(),
                idx_offset + other.mouse_handlers().len() <= usize::MAX,
                joined@.len() == r,
                forall|k: int|
                    0 <= k < r ==> (#[trigger] joined@[k])@ == self.hits()[k] + renumbered_row(
                        other.hits()[k],
                        idx_offset as nat,
                    ),
            decreases hit_map@.len() - r,
        {
            proof {
                assert(other.hits()[r as int] == other_hits@[r as int]@);
                assert(self.hits()[r as int] == hit_map@[r as int]@);
                assert forall|c: int| 0 <= c < other_hits@[r as int]@.len() implies (
                #[trigger] other_hits@[r as int]@[c] matches Some(h) ==> h
                    < other.mouse_handlers().len()) by {
                    assert(other.hits()[r as int][c] == other_hits@[r as int]@[c]);
                }
            }
            let row = Self::join_rows(
                &hit_map[r],
                &other_hits[r],
                idx_offset,
                Ghost(other.mouse_handlers().len()),
            );
            joined.push(row);
            r = r + 1;
        }
        let block = TextBlock {
            lines,
            size: Size { cols: size.cols + other_size.cols, rows: size.rows },
            key_callbacks,
            cursors,
            hit_map: joined,
            mouse_callbacks,
        };
        proof {
            assert(block.content() =~= concat_content(
                Direction::Horizontal,
                self.content(),
                other.content(),
            ));
            assert(block.hits() =~= concat_hits(
                Direction::Horizontal,
                self.hits(),
                other.hits(),
                self.mouse_handlers().len(),
            ));
            self.lemma_concat_inv(Direction::Horizontal, &other, &block);
        }
        block
    }

    /// Splices the handlers and the cursors of a second block behind those
    /// of a first, moving the positions of the second by `offset`. Returns
    /// them with the number by which the mouse handlers of the second were
    /// renumbered.
    fn merge_routing(
        keys: IndexTree<K>,
        mice: IndexTree<MouseTarget<M>>,
        cursors: HashMap<Name, Pos>,
        other_keys: IndexTree<K>,
        other_mice: IndexTree<MouseTarget<M>>,
        other_cursors: HashMap<Name, Pos>,
        offset: Pos,
        Ghost(corner): Ghost<Pos>,
    ) -> (merged: (IndexTree<K>, IndexTree<MouseTarget<M>>, HashMap<Name, Pos>, usize))
        requires
            keys.wf(),
            mice.wf(),
            other_keys.wf(),
            other_mice.wf(),
            keys@.len() + other_keys@.len() <= usize::MAX,
            mice@.len() + other_mice@.len() <= usize::MAX,
            targets_within(other_mice@, corner),
            cursors_movable(other_cursors@, offset),
            corner.col + offset.col <= usize::MAX,
            corner.row + offset.row <= usize::MAX,
        ensures
            merged.0.wf(),
            merged.0@ == keys@.appended(other_keys@),
            merged.1.wf(),
            merged.1@ == mice@.appended(moved_targets(other_mice@, offset)),
            merged.2@ == cursors@.union_prefer_right(moved_cursors(other_cursors@, offset)),
            merged.3 == mice@.len(),
    {
        let mut keys = keys;
        let mut mice = mice;
        let mut cursors = cursors;
        let mut other_keys = other_keys;
        keys.append(&mut other_keys);
        let shift = |target: MouseTarget<M>| -> (moved: MouseTarget<M>)
            requires
                target.origin.within(corner),
                corner.col + offset.col <= usize::MAX,
                corner.row + offset.row <= usize::MAX,
            ensures
                moved == target.moved(offset),
            {
                MouseTarget {
                    name: target.name,
                    origin: Pos {
                        col: target.origin.col + offset.col,
                        row: target.origin.row + offset.row,
                    },
                    hidden: target.hidden,
                    handler: target.handler,
                }
            };
        let ghost unmoved = other_mice@;
        let mut moved = other_mice.map(shift);
        proof {
            assert(moved@.items =~= moved_targets(unmoved, offset).items);
            assert(moved@ == moved_targets(unmoved, offset));
        }
        let idx_offset = mice.append(&mut moved);
        let ghost given = cursors@;
        let others = other_cursors.iter();
        let ghost pairs = others.remaining().unref();
        proof {
            vstd::std_specs::hash::axiom_spec_hash_map_iter(&other_cursors);
        }
        for pair in it: others
            invariant
                cursors_movable(other_cursors@, offset),
                it.seq().unref() == pairs,
                forall|i: int|
                    0 <= i < pairs.len() ==> other_cursors@.contains_key((#[trigger] pairs[i]).0)
                        && other_cursors@[pairs[i].0] == pairs[i].1,
                forall|name: Name| #[trigger]
                    cursors@.contains_key(name) <==> given.contains_key(name) || named_among(
                        pairs,
                        it.index() as int,
                        name,
                    ),
                forall|name: Name| #[trigger]
                    cursors@.contains_key(name) ==> cursors@[name] == if named_among(
                        pairs,
                        it.index() as int,
                        name,
                    ) {
                        other_cursors@[name].shifted(offset)
                    } else {
                        given[name]
                    },
        {
            let (name, pos) = pair;
            let ghost idx = it.index() as int;
            proof {
                assert(pairs[idx] == (*name, *pos));
                assert(other_cursors@.contains_key(*name));
            }
            cursors.insert(*name, Pos { col: pos.col + offset.col, row: pos.row + offset.row });
            proof {
                assert forall|other: Name|
                    named_among(pairs, idx + 1, other) <==> named_among(pairs, idx, other)
                        || other == *name by {
                    if named_among(pairs, idx, other) {
                        let i = choose|i: int| 0 <= i < idx && (#[trigger] pairs[i]).0 == other;
                        assert(0 <= i < idx + 1 && pairs[i].0 == other);
                    }
                    if other == *name {
                        assert(pairs[idx].0 == other);
                    }
                }
            }
        }
        proof {
            assert forall|name: Name| other_cursors@.contains_key(name) implies named_among(
                pairs,
                pairs.len() as int,
                name,
            ) by {
                let all = other_cursors.iter().remaining();
                assert(all.contains((&name, &other_cursors@[name])));
                let i = choose|i: int| 0 <= i < all.len() && all[i] == (&name, &other_cursors@[name]);
                assert(pairs[i].0 == name);
            }
            assert(cursors@ =~= given.union_prefer_right(moved_cursors(other_cursors@, offset)));
        }
        (keys, mice, cursors, idx_offset)
    }

    /// A copy of `row` with every handler renumbered by `by`.
    fn renumber_row(row: &Vec<Option<usize>>, by: usize, Ghost(limit): Ghost<nat>) -> (out: Vec<
        Option<usize>,
    >)
        requires
            by + limit <= usize::MAX,
            forall|c: int| 0 <= c < row@.len() ==> (#[trigger] row@[c] matches Some(i) ==> i < limit),
        ensures
            out@ == renumbered_row(row@, by as nat),
    {
        let mut out: Vec<Option<usize>> = Vec::new();
        let mut c: usize = 0;
        while c < row.len()
            invariant
                c <= row@.len(),
                by + limit <= usize::MAX,
                forall|k: int|
                    0 <= k < row@.len() ==> (#[trigger] row@[k] matches Some(i) ==> i < limit),
                out@ == renumbered_row(row@, by as nat).take(c as int),
            decreases row@.len() - c,
        {
            let hit = match row[c] {
                Some(i) => Some(i + by),
                None => None,
            };
            out.push(hit);
            proof {
                let all = renumbered_row(row@, by as nat);
                assert(all.take(c + 1) =~= all.take(c as int).push(hit));
            }
            c = c + 1;
        }
        proof {
            let all = renumbered_row(row@, by as nat);
            assert(all.take(row@.len() as int) =~= all);
        }
        out
    }

    /// A copy of `left` followed by `right` with every handler of `right`
    /// renumbered by `by`.
    fn join_rows(
        left: &Vec<Option<usize>>,
        right: &Vec<Option<usize>>,
        by: usize,
        Ghost(limit): Ghost<nat>,
    ) -> (out: Vec<Option<usize>>)
        requires
            by + limit <= usize::MAX,
            forall|c: int|
                0 <= c < right@.len() ==> (#[trigger] right@[c] matches Some(i) ==> i < limit),
        ensures
            out@ == left@ + renumbered_row(right@, by as nat),
    {
        let mut out: Vec<Option<usize>> = Vec::new();
        let mut c: usize = 0;
        while c < left.len()
            invariant
                c <= left@.len(),
                out@ == left@.take(c as int),
            decreases left@.len() - c,
        {
            out.push(left[c]);
            proof {
                assert(left@.take(c + 1) =~= left@.take(c as int).push(left@[c as int]));
            }
            c = c + 1;
        }
        let mut tail = Self::renumber_row(right, by, Ghost(limit));
        out.append(&mut tail);
        proof {
            assert(left@.take(left@.len() as int) =~= left@);
        }
        out
    }

    /// The block without its first `n` rows. Cursors in those rows go, and
    /// what is left moves up by `n` rows. A mouse handler still gets the
    /// cell as seen from where the block of its widget began.
    #[verifier::rlimit(40)]
    pub fn trim_top(self, n: usize) -> (block: Self)
        requires
            self.wf(),
            n <= self.rows(),
        ensures
            block.wf(),
            block.extent() == (Size { cols: self.cols(), rows: (self.rows() - n) as usize }),
            block.content() == self.content().skip(n as int),
            block.hits() == self.hits().skip(n as int),
            block.key_handlers() == self.key_handlers(),
            block.mouse_handlers() == raised_targets(self.mouse_handlers(), n),
            block.cursor_entries() == cursors_below(self.cursor_entries(), n),
    {
        let TextBlock { lines, size, key_callbacks, cursors, hit_map, mouse_callbacks } = self;
        let mut lines = lines;
        let mut hit_map = hit_map;
        let kept_lines = lines.split_off(n);
        let kept_hits = hit_map.split_off(n);
        let raise = |target: MouseTarget<M>| -> (raised: MouseTarget<M>)
            ensures
                raised == target.raised(n),
            {
                if target.origin.row >= n {
                    MouseTarget {
                        name: target.name,
                        origin: Pos { col: target.origin.col, row: target.origin.row - n },
                        hidden: target.hidden,
                        handler: target.handler,
                    }
                } else {
                    let lost = n - target.origin.row;
                    MouseTarget {
                        name: target.name,
                        origin: Pos { col: target.origin.col, row: 0 },
                        hidden: Pos {
                            col: target.hidden.col,
                            row: if target.hidden.row <= usize::MAX - lost {
                                target.hidden.row + lost
                            } else {
                                usize::MAX
                            },
                        },
                        handler: target.handler,
                    }
                }
            };
        let ghost before = mouse_callbacks@;
        let mouse_callbacks = mouse_callbacks.map(raise);
        proof {
            assert(mouse_callbacks@.items =~= raised_targets(before, n).items);
        }
        let mut kept_cursors: HashMap<Name, Pos> = HashMap::new();
        let entries = cursors.iter();
        let ghost pairs = entries.remaining().unref();
        proof {
            vstd::std_specs::hash::axiom_spec_hash_map_iter(&cursors);
        }
        for pair in it: entries
            invariant
                it.seq().unref() == pairs,
                forall|i: int|
                    0 <= i < pairs.len() ==> cursors@.contains_key((#[trigger] pairs[i]).0)
                        && cursors@[pairs[i].0] == pairs[i].1,
                forall|name: Name| #[trigger]
                    kept_cursors@.contains_key(name) <==> named_among(
                        pairs,
                        it.index() as int,
                        name,
                    ) && cursors@[name].row >= n,
                forall|name: Name| #[trigger]
                    kept_cursors@.contains_key(name) ==> kept_cursors@[name] == (Pos {
                        col: cursors@[name].col,
                        row: (cursors@[name].row - n) as usize,
                    }),
        {
            let (name, pos) = pair;
            let ghost idx = it.index() as int;
            proof {
                assert(pairs[idx] == (*name, *pos));
                assert(cursors@.contains_key(*name));
            }
            if pos.row >= n {
                kept_cursors.insert(*name, Pos { col: pos.col, row: pos.row - n });
            }
            proof {
                assert forall|other: Name|
                    named_among(pairs, idx + 1, other) <==> named_among(pairs, idx, other)
                        || other == *name by {
                    if named_among(pairs, idx, other) {
                        let i = choose|i: int| 0 <= i < idx && (#[trigger] pairs[i]).0 == other;
                        assert(0 <= i < idx + 1 && pairs[i].0 == other);
                    }
                    if other == *name {
                        assert(pairs[idx].0 == other);
                    }
                }
            }
        }
        proof {
            assert forall|name: Name| cursors@.contains_key(name) implies named_among(
                pairs,
                pairs.len() as int,
                name,
            ) by {
                let all = cursors.iter().remaining();
                assert(all.contains((&name, &cursors@[name])));
                let i = choose|i: int| 0 <= i < all.len() && all[i] == (&name, &cursors@[name]);
                assert(pairs[i].0 == name);
            }
            assert forall|name: Name| named_among(pairs, pairs.len() as int, name)
                implies cursors@.contains_key(name) by {
                let i = choose|i: int| 0 <= i < pairs.len() && (#[trigger] pairs[i]).0 == name;
            }
            assert(kept_cursors@ =~= cursors_below(cursors@, n));
        }
        let block = TextBlock {
            lines: kept_lines,
            size: Size { cols: size.cols, rows: size.rows - n },
            key_callbacks,
            cursors: kept_cursors,
            hit_map: kept_hits,
            mouse_callbacks,
        };
        proof {
            let rows = (size.rows - n) as usize;
            let after = raised_targets(before, n);
            assert(block.content() =~= self.content().skip(n as int));
            assert(block.hits() =~= self.hits().skip(n as int));
            assert(block.mouse_handlers() == after);
            assert forall|r: int| 0 <= r < rows implies total_len(#[trigger] block.content()[r])
                == size.cols by {
                assert(block.content()[r] == self.content()[r + n]);
            }
            assert forall|r: int| 0 <= r < rows implies (#[trigger] block.hits()[r]).len()
                == size.cols by {
                assert(block.hits()[r] == self.hits()[r + n]);
            }
            assert(after.wf());
            assert forall|k: int| 0 <= k < after.items.len() implies (
            #[trigger] after.items[k]).origin.within(block.corner()) by {
                assert(before.items[k].origin.within(self.corner()));
            }
            assert forall|r: int, c: int| 0 <= r < rows && 0 <= c < size.cols implies (
            #[trigger] block.hits()[r][c] matches Some(i) ==> i < after.items.len()
                && origins_within(after, i as int, Pos { col: c as usize, row: r as usize })) by {
                assert(block.hits()[r] == self.hits()[r + n]);
                if let Some(i) = self.hits()[r + n][c] {
                    let old_cell = Pos { col: c as usize, row: (r + n) as usize };
                    assert(origins_within(before, i as int, old_cell));
                    before.lemma_chain_in_range(i as int);
                    assert forall|k: int|
                        0 <= k < chain(after.parents, i as int).len() implies after.items[
                    #[trigger] chain(after.parents, i as int)[k]].origin.within(
                        Pos { col: c as usize, row: r as usize },
                    ) by {
                        let node = chain(before.parents, i as int)[k];
                        assert(before.items[node].origin.within(old_cell));
                        assert(after.items[node] == before.items[node].raised(n));
                    }
                }
            }
            assert forall|i: int| 0 <= i < block.lines@.len() implies (
            #[trigger] block.lines@[i]).wf() && block.lines@[i].len == block.size.cols by {
                assert(block.lines@[i] == self.lines@[i + n]);
            }
        }
        block
    }

    /// The block without its last `n` rows. Cursors in those rows go.
    #[verifier::rlimit(40)]
    pub fn trim_bottom(self, n: usize) -> (block: Self)
        requires
            self.wf(),
            n <= self.rows(),
        ensures
            block.wf(),
            block.extent() == (Size { cols: self.cols(), rows: (self.rows() - n) as usize }),
            block.content() == self.content().take(self.rows() - n),
            block.hits() == self.hits().take(self.rows() - n),
            block.key_handlers() == self.key_handlers(),
            block.mouse_handlers() == lowered_targets(
                self.mouse_handlers(),
                (self.rows() - n) as usize,
            ),
            block.cursor_entries() == cursors_above(
                self.cursor_entries(),
                (self.rows() - n) as usize,
            ),
    {
        let TextBlock { lines, size, key_callbacks, cursors, hit_map, mouse_callbacks } = self;
        let mut lines = lines;
        let mut hit_map = hit_map;
        let rows = size.rows - n;
        lines.truncate(rows);
        hit_map.truncate(rows);
        let lower = |target: MouseTarget<M>| -> (lowered: MouseTarget<M>)
            ensures
                lowered == target.lowered(rows),
            {
                MouseTarget {
                    name: target.name,
                    origin: Pos {
                        col: target.origin.col,
                        row: if target.origin.row <= rows {
                            target.origin.row
                        } else {
                            rows
                        },
                    },
                    hidden: target.hidden,
                    handler: target.handler,
                }
            };
        let ghost before = mouse_callbacks@;
        let mouse_callbacks = mouse_callbacks.map(lower);
        proof {
            assert(mouse_callbacks@.items =~= lowered_targets(before, rows).items);
        }
        let mut kept_cursors: HashMap<Name, Pos> = HashMap::new();
        let entries = cursors.iter();
        let ghost pairs = entries.remaining().unref();
        proof {
            vstd::std_specs::hash::axiom_spec_hash_map_iter(&cursors);
        }
        for pair in it: entries
            invariant
                it.seq().unref() == pairs,
                forall|i: int|
                    0 <= i < pairs.len() ==> cursors@.contains_key((#[trigger] pairs[i]).0)
                        && cursors@[pairs[i].0] == pairs[i].1,
                forall|name: Name| #[trigger]
                    kept_cursors@.contains_key(name) <==> named_among(
                        pairs,
                        it.index() as int,
                        name,
                    ) && cursors@[name].row < rows,
                forall|name: Name| #[trigger]
                    kept_cursors@.contains_key(name) ==> kept_cursors@[name] == cursors@[name],
        {
            let (name, pos) = pair;
            let ghost idx = it.index() as int;
            proof {
                assert(pairs[idx] == (*name, *pos));
                assert(cursors@.contains_key(*name));
            }
            if pos.row < rows {
                kept_cursors.insert(*name, *pos);
            }
            proof {
                assert forall|other: Name|
                    named_among(pairs, idx + 1, other) <==> named_among(pairs, idx, other)
                        || other == *name by {
                    if named_among(pairs, idx, other) {
                        let i = choose|i: int| 0 <= i < idx && (#[trigger] pairs[i]).0 == other;
                        assert(0 <= i < idx + 1 && pairs[i].0 == other);
                    }
                    if other == *name {
                        assert(pairs[idx].0 == other);
                    }
                }
            }
        }
        proof {
            assert forall|name: Name| cursors@.contains_key(name) implies named_among(
                pairs,
                pairs.len() as int,
                name,
            ) by {
                let all = cursors.iter().remaining();
                assert(all.contains((&name, &cursors@[name])));
                let i = choose|i: int| 0 <= i < all.len() && all[i] == (&name, &cursors@[name]);
                assert(pairs[i].0 == name);
            }
            assert forall|name: Name| named_among(pairs, pairs.len() as int, name)
                implies cursors@.contains_key(name) by {
                let i = choose|i: int| 0 <= i < pairs.len() && (#[trigger] pairs[i]).0 == name;
            }
            assert(kept_cursors@ =~= cursors_above(cursors@, rows));
        }
        let block = TextBlock {
            lines,
            size: Size { cols: size.cols, rows },
            key_callbacks,
            cursors: kept_cursors,
            hit_map,
            mouse_callbacks,
        };
        proof {
            let after = lowered_targets(before, rows);
            assert(block.content() =~= self.content().take(rows as int));
            assert(block.hits() =~= self.hits().take(rows as int));
            assert(block.mouse_handlers() == after);
            assert forall|r: int| 0 <= r < rows implies total_len(#[trigger] block.content()[r])
                == size.cols by {
                assert(block.content()[r] == self.content()[r]);
            }
            assert forall|r: int| 0 <= r < rows implies (#[trigger] block.hits()[r]).len()
                == size.cols by {
                assert(block.hits()[r] == self.hits()[r]);
            }
            assert(after.wf());
            assert forall|k: int| 0 <= k < after.items.len() implies (
            #[trigger] after.items[k]).origin.within(block.corner()) by {
                assert(before.items[k].origin.within(self.corner()));
            }
            assert forall|r: int, c: int| 0 <= r < rows && 0 <= c < size.cols implies (
            #[trigger] block.hits()[r][c] matches Some(i) ==> i < after.items.len()
                && origins_within(after, i as int, Pos { col: c as usize, row: r as usize })) by {
                assert(block.hits()[r] == self.hits()[r]);
                if let Some(i) = self.hits()[r][c] {
                    let cell = Pos { col: c as usize, row: r as usize };
                    assert(origins_within(before, i as int, cell));
                    before.lemma_chain_in_range(i as int);
                    assert forall|k: int|
                        0 <= k < chain(after.parents, i as int).len() implies after.items[
                    #[trigger] chain(after.parents, i as int)[k]].origin.within(cell) by {
                        let node = chain(before.parents, i as int)[k];
                        assert(before.items[node].origin.within(cell));
                        assert(after.items[node] == before.items[node].lowered(rows));
                    }
                }
            }
            assert forall|i: int| 0 <= i < block.lines@.len() implies (
            #[trigger] block.lines@[i]).wf() && block.lines@[i].len == block.size.cols by {
                assert(block.lines@[i] == self.lines@[i]);
            }
        }
        block
    }

    /// The first `offered` handlers of the widget `focus` and of the
    /// widgets around it, innermost first, got `key` from `invoke`: each
    /// but the last said `Continue`, and where handlers are left over the
    /// last said `Stop`.
    pub open spec fn key_offered<F: Fn(&K, Key) -> ShouldPropagate>(
        &self,
        focus: Name,
        key: Key,
        invoke: F,
        offered: usize,
    ) -> bool {
        &&& offered <= self.key_chain(focus).len()
        &&& forall|j: int|
            0 <= j < offered - 1 ==> call_ensures(
                invoke,
                (&#[trigger] self.key_chain(focus)[j], key),
                ShouldPropagate::Continue,
            )
        &&& offered < self.key_chain(focus).len() ==> offered > 0 && call_ensures(
            invoke,
            (&self.key_chain(focus)[offered - 1], key),
            ShouldPropagate::Stop,
        )
    }

    /// The first `offered` handlers of the cell under the mouse and of the
    /// widgets around it, innermost first, got `mevent` from `invoke`, each
    /// with the cell as seen from the origin of its widget: each but the
    /// last said `Continue`, and where handlers are left over the last said
    /// `Stop`. An event outside the block is offered to nobody.
    pub open spec fn mouse_offered<F: Fn(&M, Pos, MouseEvent) -> ShouldPropagate>(
        &self,
        mevent: MouseEvent,
        invoke: F,
        offered: usize,
    ) -> bool {
        &&& mevent.cell() is None ==> offered == 0
        &&& mevent.cell() matches Some(cell) ==> {
            &&& offered <= self.mouse_chain(cell).len()
            &&& forall|j: int|
                0 <= j < offered - 1 ==> call_ensures(
                    invoke,
                    (
                        &(#[trigger] self.mouse_chain(cell)[j]).handler,
                        self.mouse_chain(cell)[j].sees(cell),
                        mevent,
                    ),
                    ShouldPropagate::Continue,
                )
            &&& offered < self.mouse_chain(cell).len() ==> offered > 0 && call_ensures(
                invoke,
                (
                    &self.mouse_chain(cell)[offered - 1].handler,
                    self.mouse_chain(cell)[offered - 1].sees(cell),
                    mevent,
                ),
                ShouldPropagate::Stop,
            )
        }
    }

    /// Offers a key to the handlers of the widget `focus` and of the widgets
    /// around it, innermost first, until one of them says `Stop`. `invoke`
    /// hands the key to one handler and returns what the handler says.
    /// Returns the number of handlers that got the key; a widget without
    /// handlers gets none.
    pub fn handle_key<F: Fn(&K, Key) -> ShouldPropagate>(
        &self,
        focus: &Name,
        key: Key,
        invoke: F,
    ) -> (offered: usize)
        requires
            self.wf(),
            forall|j: int|
                0 <= j < self.key_chain(*focus).len() ==> call_requires(
                    invoke,
                    (&#[trigger] self.key_chain(*focus)[j], key),
                ),
        ensures
            self.key_offered(*focus, key, invoke, offered),
    {
        let ghost handlers = self.key_chain(*focus);
        let total = self.key_callbacks.len();
        let mut iter = self.key_callbacks.get_iter(focus);
        let mut offered: usize = 0;
        proof {
            assert(handlers.skip(0) =~= handlers);
            match self.key_handlers().lookup(*focus) {
                Some(i) => {
                    self.key_handlers().lemma_chain_in_range(i);
                },
                None => {},
            }
        }
        loop
            invariant_except_break
                forall|j: int|
                    0 <= j < offered ==> call_ensures(
                        invoke,
                        (&#[trigger] handlers[j], key),
                        ShouldPropagate::Continue,
                    ),
            invariant
                iter.wf(),
                handlers.len() <= total,
                offered <= handlers.len(),
                iter.remaining() == handlers.skip(offered as int),
                handlers == self.key_chain(*focus),
                forall|j: int|
                    0 <= j < handlers.len() ==> call_requires(invoke, (&#[trigger] handlers[j], key)),
            ensures
                offered <= handlers.len(),
                forall|j: int|
                    0 <= j < offered - 1 ==> call_ensures(
                        invoke,
                        (&#[trigger] handlers[j], key),
                        ShouldPropagate::Continue,
                    ),
                offered < handlers.len() ==> offered > 0 && call_ensures(
                    invoke,
                    (&handlers[offered - 1], key),
                    ShouldPropagate::Stop,
                ),
            decreases iter.remaining().len(),
        {
            match iter.next() {
                Some(callback) => {
                    proof {
                        assert(handlers.skip(offered as int).drop_first() =~= handlers.skip(
                            offered + 1,
                        ));
                        assert(*callback == handlers[offered as int]);
                    }
                    let verdict = invoke(callback, key);
                    offered = offered + 1;
                    match verdict {
                        ShouldPropagate::Stop => {
                            break ;
                        },
                        ShouldPropagate::Continue => {},
                    }
                },
                None => {
                    break ;
                },
            }
        }
        offered
    }

    /// Offers a mouse event to the handler that has the cell under the
    /// mouse and to the handlers of the widgets around it, innermost first,
    /// until one of them says `Stop`. `invoke` hands one handler the event
    /// and the cell as seen from the origin of that handler's widget, and
    /// returns what the handler says. Returns the number of handlers that
    /// got the event: none where the event lies outside the block or on a
    /// cell without a handler.
    #[verifier::rlimit(40)]
    pub fn handle_mouse<F: Fn(&M, Pos, MouseEvent) -> ShouldPropagate>(
        &self,
        mevent: MouseEvent,
        invoke: F,
    ) -> (offered: usize)
        requires
            self.wf(),
            mevent.cell() matches Some(cell) ==> forall|j: int|
                0 <= j < self.mouse_chain(cell).len() ==> call_requires(
                    invoke,
                    (
                        &(#[trigger] self.mouse_chain(cell)[j]).handler,
                        self.mouse_chain(cell)[j].sees(cell),
                        mevent,
                    ),
                ),
        ensures
            self.mouse_offered(mevent, invoke, offered),
    {
        let cell = match mevent.position() {
            Some(cell) => cell,
            None => {
                return 0;
            },
        };
        if cell.row >= self.size.rows || cell.col >= self.size.cols {
            return 0;
        }
        proof {
            assert(self.hits()[cell.row as int] == self.hit_map@[cell.row as int]@);
        }
        let idx = match self.hit_map[cell.row][cell.col] {
            Some(idx) => idx,
            None => {
                return 0;
            },
        };
        let ghost targets = self.mouse_chain(cell);
        let total = self.mouse_callbacks.len();
        let mut iter = self.mouse_callbacks.get_iter_idx(idx);
        let mut offered: usize = 0;
        proof {
            assert(targets.skip(0) =~= targets);
            assert(self.hits()[cell.row as int][cell.col as int] == Some(idx));
            self.mouse_handlers().lemma_chain_in_range(idx as int);
            assert(origins_within(self.mouse_handlers(), idx as int, cell));
            assert forall|j: int| 0 <= j < targets.len() implies (#[trigger] targets[j]).origin.within(
                cell,
            ) by {
                let node = chain(self.mouse_handlers().parents, idx as int)[j];
                assert(targets[j] == self.mouse_handlers().items[node]);
            }
        }
        loop
            invariant_except_break
                forall|j: int|
                    0 <= j < offered ==> call_ensures(
                        invoke,
                        (
                            &(#[trigger] targets[j]).handler,
                            targets[j].sees(cell),
                            mevent,
                        ),
                        ShouldPropagate::Continue,
                    ),
            invariant
                iter.wf(),
                targets.len() <= total,
                offered <= targets.len(),
                iter.remaining() == targets.skip(offered as int),
                targets == self.mouse_chain(cell),
                forall|j: int| 0 <= j < targets.len() ==> (#[trigger] targets[j]).origin.within(cell),
                forall|j: int|
                    0 <= j < targets.len() ==> call_requires(
                        invoke,
                        (
                            &(#[trigger] targets[j]).handler,
                            targets[j].sees(cell),
                            mevent,
                        ),
                    ),
            ensures
                offered <= targets.len(),
                forall|j: int|
                    0 <= j < offered - 1 ==> call_ensures(
                        invoke,
                        (
                            &(#[trigger] targets[j]).handler,
                            targets[j].sees(cell),
                            mevent,
                        ),
                        ShouldPropagate::Continue,
                    ),
                offered < targets.len() ==> offered > 0 && call_ensures(
                    invoke,
                    (
                        &targets[offered - 1].handler,
                        targets[offered - 1].sees(cell),
                        mevent,
                    ),
                    ShouldPropagate::Stop,
                ),
            decreases iter.remaining().len(),
        {
            match iter.next() {
                Some(target) => {
                    proof {
                        assert(targets.skip(offered as int).drop_first() =~= targets.skip(
                            offered + 1,
                        ));
                        assert(*target == targets[offered as int]);
                    }
                    let across = cell.col - target.origin.col;
                    let down = cell.row - target.origin.row;
                    let seen = Pos {
                        col: if across <= usize::MAX - target.hidden.col {
                            across + target.hidden.col
                        } else {
                            usize::MAX
                        },
                        row: if down <= usize::MAX - target.hidden.row {
                            down + target.hidden.row
                        } else {
                            usize::MAX
                        },
                    };
                    let verdict = invoke(&target.handler, seen, mevent);
                    offered = offered + 1;
                    match verdict {
                        ShouldPropagate::Stop => {
                            break ;
                        },
                        ShouldPropagate::Continue => {},
                    }
                },
                None => {
                    break ;
                },
            }
        }
        offered
    }

    /// The frame to paint: the text of the block with the colours that
    /// `style` gives for each span, and the cursor of the widget that has the
    /// focus. A colour that `style` leaves open is the terminal's own.
    pub fn render_frame<F: Fn(ContentID) -> (Option<Color>, Option<Color>)>(
        &self,
        style: F,
        focus_name: Option<Name>,
    ) -> (frame: Frame<'_>)
        requires
            self.wf(),
            forall|id: ContentID| call_requires(style, (id,)),
        ensures
            frame.size == self.extent(),
            frame.focus == match focus_name {
                Some(name) => self.cursor_of(name),
                None => None,
            },
            frame.image@.len() == self.content().len(),
            forall|r: int|
                0 <= r < frame.image@.len() ==> (#[trigger] frame.image@[r])@.len()
                    == self.content()[r].len(),
            forall|r: int, k: int|
                0 <= r < frame.image@.len() && 0 <= k < frame.image@[r]@.len() ==> is_cell_of(
                    style,
                    self.content()[r][k],
                    #[trigger] frame.image@[r]@[k],
                ),
    {
        let size = self.size;
        let focus = match focus_name {
            Some(name) => self.get_cursor(name),
            None => None,
        };
        let mut image: Vec<FrameLine<'_>> = Vec::new();
        let mut r: usize = 0;
        while r < self.lines.len()
            invariant
                r <= self.lines@.len(),
                forall|id: ContentID| call_requires(style, (id,)),
                image@.len() == r,
                forall|i: int|
                    0 <= i < r ==> (#[trigger] image@[i])@.len() == self.lines@[i].segments@.len(),
                forall|i: int, k: int|
                    0 <= i < r && 0 <= k < image@[i]@.len() ==> is_cell_of(
                        style,
                        self.lines@[i].segments@[k]@,
                        #[trigger] image@[i]@[k],
                    ),
            decreases self.lines@.len() - r,
        {
            let line = &self.lines[r];
            let mut cells: FrameLine<'_> = Vec::new();
            let mut k: usize = 0;
            while k < line.segments.len()
                invariant
                    k <= line.segments@.len(),
                    forall|id: ContentID| call_requires(style, (id,)),
                    cells@.len() == k,
                    forall|j: int|
                        0 <= j < k ==> is_cell_of(
                            style,
                            line.segments@[j]@,
                            #[trigger] cells@[j],
                        ),
                decreases line.segments@.len() - k,
            {
                let segment = &line.segments[k];
                let (mfg, mbg) = style(segment.id);
                let fg = match mfg {
                    Some(color) => color,
                    None => Color::Reset,
                };
                let bg = match mbg {
                    Some(color) => color,
                    None => Color::Reset,
                };
                cells.push((fg, bg, segment.text.as_str(), segment.len));
                proof {
                    assert(call_ensures(style, (segment@.id,), (mfg, mbg)));
                }
                k = k + 1;
            }
            image.push(cells);
            r = r + 1;
        }
        Frame::new(size, image, focus)
    }
}

} // verus!
