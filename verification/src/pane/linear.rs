//! What a row or a column of panes needs.

use vstd::prelude::*;
use crate::pane::widget::{Bound, BoundSize, Direction, Widget};
use crate::pane::{Pane, Position, Size};

verus! {

/// The cells that `bounds` ask for at the least.
pub open spec fn asked(bounds: Seq<Bound>) -> nat
    decreases bounds.len(),
{
    if bounds.len() == 0 {
        0
    } else {
        asked(bounds.drop_last()) + match bounds.last() {
            Bound::Fixed(n) => n as nat,
            Bound::AtLeast(n) => n as nat,
        }
    }
}

/// The number of `bounds` that take a share of what is left.
pub open spec fn growing(bounds: Seq<Bound>) -> nat
    decreases bounds.len(),
{
    if bounds.len() == 0 {
        0
    } else {
        growing(bounds.drop_last()) + match bounds.last() {
            Bound::Fixed(_) => 0nat,
            Bound::AtLeast(_) => 1nat,
        }
    }
}

/// There are no more growing bounds than bounds.
pub proof fn lemma_growing_bound(bounds: Seq<Bound>)
    ensures
        growing(bounds) <= bounds.len(),
    decreases bounds.len(),
{
    if bounds.len() > 0 {
        lemma_growing_bound(bounds.drop_last());
    }
}

/// Adds up what `bounds` ask for at the least, and counts those among them
/// that take a share of what is left.
pub fn coalesce_bounds(bounds: &[Bound]) -> (totals: (u16, usize))
    requires
        asked(bounds@) <= u16::MAX,
    ensures
        totals.0 == asked(bounds@),
        totals.1 == growing(bounds@),
{
    let mut fixed: u16 = 0;
    let mut free: usize = 0;
    let mut i: usize = 0;
    proof {
        assert(bounds@.take(0) =~= Seq::<Bound>::empty());
    }
    while i < bounds.len()
        invariant
            i <= bounds@.len(),
            asked(bounds@) <= u16::MAX,
            fixed == asked(bounds@.take(i as int)),
            free == growing(bounds@.take(i as int)),
        decreases bounds@.len() - i,
    {
        proof {
            assert(bounds@.take(i + 1).drop_last() =~= bounds@.take(i as int));
            assert(bounds@.take(i + 1).last() == bounds@[i as int]);
            lemma_asked_grows(bounds@, i + 1);
            lemma_growing_bound(bounds@.take(i as int));
        }
        match bounds[i] {
            Bound::Fixed(n) => {
                fixed = fixed + n;
            },
            Bound::AtLeast(n) => {
                fixed = fixed + n;
                free = free + 1;
            },
        }
        i = i + 1;
    }
    proof {
        assert(bounds@.take(bounds@.len() as int) =~= bounds@);
    }
    (fixed, free)
}

/// The first bounds ask for no more than all of them.
pub proof fn lemma_asked_grows(bounds: Seq<Bound>, upto: int)
    requires
        0 <= upto <= bounds.len(),
    ensures
        asked(bounds.take(upto)) <= asked(bounds),
    decreases bounds.len() - upto,
{
    if upto == bounds.len() {
        assert(bounds.take(upto) =~= bounds);
    } else {
        lemma_asked_grows(bounds, upto + 1);
        assert(bounds.take(upto + 1).drop_last() =~= bounds.take(upto));
    }
}

/// What a growing bound gets of `free` cells when each takes `step` cells
/// as long as there are more than that, and the one after that what is
/// left: the share of the bound of rank `rank` among the growing bounds.
pub open spec fn portion(free: nat, step: nat, rank: nat) -> nat {
    let pool = if rank * step <= free {
        (free - rank * step) as nat
    } else {
        0
    };
    if step < pool {
        step
    } else {
        pool
    }
}

/// `free` divided by `count`, rounded up; nothing where `count` is zero.
pub open spec fn ceil_div(free: nat, count: nat) -> nat {
    if count == 0 {
        0
    } else if free % count == 0 {
        free / count
    } else {
        free / count + 1
    }
}

/// The size of item `i` of a row or column of `goal` cells: what its bound
/// asks for, and for a growing bound its portion of the cells that are
/// left, which are divided among the growing bounds in equal steps, rounded
/// up.
pub open spec fn proportion(bounds: Seq<Bound>, goal: nat, i: int) -> nat {
    let free = (goal - asked(bounds)) as nat;
    match bounds[i] {
        Bound::Fixed(n) => n as nat,
        Bound::AtLeast(n) => n as nat + portion(
            free,
            ceil_div(free, growing(bounds)),
            growing(bounds.take(i)),
        ),
    }
}

/// The sizes of the items of a row or column of `goal` cells.
pub fn layout_bounds_proportional(bounds: &[Bound], goal: u16) -> (sizes: Vec<u16>)
    requires
        asked(bounds@) <= goal,
    ensures
        sizes@.len() == bounds@.len(),
        forall|i: int| 0 <= i < sizes@.len() ==> #[trigger] sizes@[i] == proportion(
            bounds@,
            goal as nat,
            i,
        ),
{
    let (fixed_size, free_count) = coalesce_bounds(bounds);
    let free_size: u16 = goal - fixed_size;
    let step: u16 = if free_count == 0 {
        0
    } else {
        let whole = free_size as usize / free_count;
        proof {
            assert(whole <= free_size) by (nonlinear_arith)
                requires
                    whole == free_size as usize / free_count,
                    free_count > 0,
            ;
        }
        if free_size as usize % free_count == 0 {
            whole as u16
        } else {
            proof {
                assert(whole < free_size) by (nonlinear_arith)
                    requires
                        whole == free_size as usize / free_count,
                        free_size as usize % free_count != 0,
                        free_count > 0,
                ;
            }
            (whole + 1) as u16
        }
    };
    let mut pool: u16 = free_size;
    let mut sizes: Vec<u16> = Vec::new();
    let mut i: usize = 0;
    let ghost mut rank: nat = 0;
    proof {
        assert(bounds@.take(0) =~= Seq::<Bound>::empty());
        assert(0 * step == 0) by (nonlinear_arith);
    }
    while i < bounds.len()
        invariant
            i <= bounds@.len(),
            asked(bounds@) <= goal,
            fixed_size == asked(bounds@),
            free_size == goal - fixed_size,
            step == ceil_div(free_size as nat, growing(bounds@)),
            rank == growing(bounds@.take(i as int)),
            pool == if rank * step <= free_size {
                free_size - rank * step
            } else {
                0
            },
            sizes@.len() == i,
            forall|k: int| 0 <= k < i ==> #[trigger] sizes@[k] == proportion(
                bounds@,
                goal as nat,
                k,
            ),
        decreases bounds@.len() - i,
    {
        proof {
            assert(bounds@.take(i + 1).drop_last() =~= bounds@.take(i as int));
            assert(bounds@.take(i + 1).last() == bounds@[i as int]);
            lemma_part_asked(bounds@, i as int);
            assert((rank + 1) * step == rank * step + step) by (nonlinear_arith);
        }
        match bounds[i] {
            Bound::Fixed(n) => sizes.push(n),
            Bound::AtLeast(n) => {
                if step < pool {
                    sizes.push(n + step);
                    pool = pool - step;
                } else {
                    sizes.push(n + pool);
                    pool = 0;
                }
                proof {
                    rank = rank + 1;
                }
            },
        }
        i = i + 1;
    }
    sizes
}

/// No bound asks for more than all of them together.
pub proof fn lemma_part_asked(bounds: Seq<Bound>, i: int)
    requires
        0 <= i < bounds.len(),
    ensures
        (match bounds[i] {
            Bound::Fixed(n) => n as nat,
            Bound::AtLeast(n) => n as nat,
        }) <= asked(bounds),
    decreases bounds.len(),
{
    if i < bounds.len() - 1 {
        lemma_part_asked(bounds.drop_last(), i);
    }
}

/// Where the item after the first `i` of `sizes` begins, counted from
/// `start`: behind the items before it, and no further than cells can be
/// addressed.
pub open spec fn reach(sizes: Seq<u16>, start: u16, i: int) -> u16
    decreases i,
{
    if i <= 0 {
        start
    } else {
        let before = reach(sizes, start, i - 1);
        if sizes[i - 1] <= u16::MAX - before {
            (before + sizes[i - 1]) as u16
        } else {
            u16::MAX
        }
    }
}

/// Where item `i` of a row or column goes that begins at `origin` in a
/// pane of the extent `size`, the items being `sizes` long: behind the
/// items before it along `direction`, and as large as the pane across it.
pub open spec fn placement(
    origin: Position,
    direction: Direction,
    size: Size,
    sizes: Seq<u16>,
    i: int,
) -> (Position, Size) {
    match direction {
        Direction::Vertical => (
            Position { x: origin.x, y: reach(sizes, origin.y, i) },
            Size { width: size.width, height: sizes[i] },
        ),
        Direction::Horizontal => (
            Position { x: reach(sizes, origin.x, i), y: origin.y },
            Size { width: sizes[i], height: size.height },
        ),
    }
}

/// Where each item of a row or column goes, as [`placement`] says.
pub fn place(origin: Position, direction: Direction, size: Size, sizes: &[u16]) -> (places: Vec<
    (Position, Size),
>)
    ensures
        places@.len() == sizes@.len(),
        forall|i: int|
            0 <= i < places@.len() ==> #[trigger] places@[i] == placement(
                origin,
                direction,
                size,
                sizes@,
                i,
            ),
{
    let mut places: Vec<(Position, Size)> = Vec::new();
    let mut counter: u16 = match direction {
        Direction::Vertical => origin.y,
        Direction::Horizontal => origin.x,
    };
    let mut i: usize = 0;
    while i < sizes.len()
        invariant
            i <= sizes@.len(),
            places@.len() == i,
            counter == reach(
                sizes@,
                match direction {
                    Direction::Vertical => origin.y,
                    Direction::Horizontal => origin.x,
                },
                i as int,
            ),
            forall|k: int|
                0 <= k < i ==> #[trigger] places@[k] == placement(
                    origin,
                    direction,
                    size,
                    sizes@,
                    k,
                ),
        decreases sizes@.len() - i,
    {
        let itemsize = sizes[i];
        let position = match direction {
            Direction::Vertical => Position::new(origin.x, counter),
            Direction::Horizontal => Position::new(counter, origin.y),
        };
        let extent = match direction {
            Direction::Vertical => Size::new(size.width, itemsize),
            Direction::Horizontal => Size::new(itemsize, size.height),
        };
        places.push((position, extent));
        counter = if itemsize <= 0xffff - counter {
            counter + itemsize
        } else {
            0xffff
        };
        i = i + 1;
    }
    places
}

/// What `bounds` ask for together: a share of what is left, and at the
/// least what they ask for, as far as that can be counted.
pub open spec fn joint(bounds: Seq<Bound>) -> Bound {
    if asked(bounds) <= u16::MAX {
        Bound::AtLeast(asked(bounds) as u16)
    } else {
        Bound::AtLeast(u16::MAX)
    }
}

/// What a row or column asks for whose items ask for `widths` and
/// `heights`.
pub fn join_bounds(widths: &[Bound], heights: &[Bound]) -> (bounds: BoundSize)
    ensures
        bounds == (BoundSize { width: joint(widths@), height: joint(heights@) }),
{
    let width = if fits(widths, 0xffff) {
        coalesce_bounds(widths).0
    } else {
        0xffff
    };
    let height = if fits(heights, 0xffff) {
        coalesce_bounds(heights).0
    } else {
        0xffff
    };
    BoundSize { width: Bound::AtLeast(width), height: Bound::AtLeast(height) }
}

/// Widgets in a row or in a column.
pub struct Linear<W> {
    pub contents: Vec<W>,
    pub direction: Direction,
}

impl<W: Widget> Linear<W> {
    pub fn new(contents: Vec<W>, direction: Direction) -> (layout: Linear<W>)
        ensures
            layout.contents == contents,
            layout.direction == direction,
    {
        Linear { contents, direction }
    }

    /// Turns a row into a column and a column into a row.
    pub fn flip(&mut self)
        ensures
            final(self).contents == old(self).contents,
            final(self).direction == match old(self).direction {
                Direction::Horizontal => Direction::Vertical,
                Direction::Vertical => Direction::Horizontal,
            },
    {
        match self.direction {
            Direction::Horizontal => self.direction = Direction::Vertical,
            Direction::Vertical => self.direction = Direction::Horizontal,
        }
    }

    /// An empty column.
    pub fn vbox() -> (layout: Linear<W>)
        ensures
            layout.contents@.len() == 0,
            layout.direction == Direction::Vertical,
    {
        Linear { contents: Vec::new(), direction: Direction::Vertical }
    }

    /// An empty row.
    pub fn hbox() -> (layout: Linear<W>)
        ensures
            layout.contents@.len() == 0,
            layout.direction == Direction::Horizontal,
    {
        Linear { contents: Vec::new(), direction: Direction::Horizontal }
    }

    /// Adds `w` behind the widgets that the layout holds.
    pub fn push(&mut self, w: W)
        ensures
            final(self).contents@ == old(self).contents@.push(w),
            final(self).direction == old(self).direction,
    {
        self.contents.push(w);
    }

    /// What each widget asks for along the direction of the layout.
    fn bounds_along(&self) -> (bounds: Vec<Bound>)
        ensures
            bounds@.len() == self.contents@.len(),
    {
        let mut bounds: Vec<Bound> = Vec::new();
        let mut i: usize = 0;
        while i < self.contents.len()
            invariant
                i <= self.contents@.len(),
                bounds@.len() == i,
            decreases self.contents@.len() - i,
        {
            let asked = self.contents[i].render_bounds();
            bounds.push(
                match self.direction {
                    Direction::Vertical => asked.height,
                    Direction::Horizontal => asked.width,
                },
            );
            i = i + 1;
        }
        bounds
    }

    /// The panes of the widgets, one behind the other along the direction
    /// of the layout, each of the size that [`layout_bounds_proportional`]
    /// gives it and as large as the layout across the direction. There are
    /// none where the widgets ask for more than the layout has.
    ///
    /// The widgets say what they ask for and what their panes hold. A
    /// layout without widgets has its panes, none, whatever its size. Each
    /// widget is handed the place that [`place`] gives it, counted from the
    /// corner of the layout.
    pub fn panes(&self, size: Size) -> (children: Option<Vec<Pane>>)
        ensures
            self.contents@.len() == 0 ==> children is Some,
            children matches Some(panes) ==> panes@.len() == self.contents@.len(),
    {
        let bounds = self.bounds_along();
        let total_size = match self.direction {
            Direction::Vertical => size.height,
            Direction::Horizontal => size.width,
        };
        if !fits(bounds.as_slice(), total_size) {
            return None;
        }
        let sizes = layout_bounds_proportional(bounds.as_slice(), total_size);
        let places = place(Position::new(0, 0), self.direction, size, sizes.as_slice());
        let mut children: Vec<Pane> = Vec::new();
        let mut i: usize = 0;
        while i < self.contents.len()
            invariant
                i <= self.contents@.len(),
                places@.len() == self.contents@.len(),
                children@.len() == i,
            decreases self.contents@.len() - i,
        {
            let (position, extent) = places[i];
            children.push(self.contents[i].render(position, extent));
            i = i + 1;
        }
        Some(children)
    }
}

/// Whether `bounds` ask for no more than `goal` cells.
pub fn fits(bounds: &[Bound], goal: u16) -> (ok: bool)
    ensures
        ok == (asked(bounds@) <= goal),
{
    let mut left: u16 = goal;
    let mut i: usize = 0;
    proof {
        assert(bounds@.take(0) =~= Seq::<Bound>::empty());
    }
    while i < bounds.len()
        invariant
            i <= bounds@.len(),
            left + asked(bounds@.take(i as int)) == goal,
        decreases bounds@.len() - i,
    {
        let n = match bounds[i] {
            Bound::Fixed(n) => n,
            Bound::AtLeast(n) => n,
        };
        proof {
            assert(bounds@.take(i + 1).drop_last() =~= bounds@.take(i as int));
            assert(bounds@.take(i + 1).last() == bounds@[i as int]);
            lemma_asked_grows(bounds@, i + 1);
        }
        if n > left {
            return false;
        }
        left = left - n;
        i = i + 1;
    }
    proof {
        assert(bounds@.take(bounds@.len() as int) =~= bounds@);
    }
    true
}

impl<W: Widget> Widget for Linear<W> {
    /// The panes of the widgets, as [`Linear::panes`] gives them.
    fn render_children(&self, size: Size) -> (children: Option<Vec<Pane>>)
        ensures
            self.contents@.len() == 0 ==> children is Some,
            children matches Some(panes) ==> panes@.len() == self.contents@.len(),
    {
        self.panes(size)
    }

    /// A layout asks on each axis for what its widgets ask for together,
    /// as [`join_bounds`] says: for a share of what is left, and without
    /// widgets for nothing more.
    fn render_bounds(&self) -> (bounds: BoundSize)
        ensures
            bounds.width is AtLeast,
            bounds.height is AtLeast,
            self.contents@.len() == 0 ==> bounds == (BoundSize {
                width: Bound::AtLeast(0),
                height: Bound::AtLeast(0),
            }),
    {
        let mut widths: Vec<Bound> = Vec::new();
        let mut heights: Vec<Bound> = Vec::new();
        let mut i: usize = 0;
        while i < self.contents.len()
            invariant
                i <= self.contents@.len(),
                widths@.len() == i,
                heights@.len() == i,
            decreases self.contents@.len() - i,
        {
            let (width, height) = self.contents[i].render_bounds().split();
            widths.push(width);
            heights.push(height);
            i = i + 1;
        }
        join_bounds(widths.as_slice(), heights.as_slice())
    }
}

} // verus!
