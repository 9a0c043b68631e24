//! Grids of text cells, drawn by putting grids side by side and one below
//! the other.

use vstd::prelude::*;
use crate::backend::Builder;
use crate::chars::{lines_of, split_lines};
use crate::grapheme::{grapheme_clusters, graphemes, texts};

verus! {

/// A cell of a grid: a grapheme cluster, or nothing.
#[derive(Debug)]
pub struct TextCell {
    glyph: Option<String>,
}

impl View for TextCell {
    type V = Option<Seq<char>>;

    closed spec fn view(&self) -> Option<Seq<char>> {
        match self.glyph {
            Some(text) => Some(text@),
            None => None,
        }
    }
}

/// What a row of cells holds.
pub open spec fn row_view(cells: Seq<TextCell>) -> Seq<Option<Seq<char>>> {
    cells.map_values(|cell: TextCell| cell@)
}

/// What a cell shows: its grapheme cluster, or a space.
pub open spec fn shown(cell: Option<Seq<char>>) -> Seq<char> {
    match cell {
        Some(text) => text,
        None => seq![' '],
    }
}

/// What a row shows.
pub open spec fn shown_row(row: Seq<Option<Seq<char>>>) -> Seq<char>
    decreases row.len(),
{
    if row.len() == 0 {
        Seq::empty()
    } else {
        shown_row(row.drop_last()) + shown(row.last())
    }
}

/// What rows show, with a line feed between one row and the next.
pub open spec fn shown_rows(rows: Seq<Seq<Option<Seq<char>>>>) -> Seq<char>
    decreases rows.len(),
{
    if rows.len() == 0 {
        Seq::empty()
    } else if rows.len() == 1 {
        shown_row(rows.last())
    } else {
        shown_rows(rows.drop_last()) + seq!['\n'] + shown_row(rows.last())
    }
}

impl TextCell {
    /// A cell for each grapheme cluster of `s`.
    pub fn from_line(s: &str) -> (cells: Vec<TextCell>)
        ensures
            row_view(cells@) == grapheme_clusters(s@).map_values(
                |cluster: Seq<char>| Some(cluster),
            ),
    {
        let clusters = graphemes(s);
        let mut cells: Vec<TextCell> = Vec::new();
        let mut i: usize = 0;
        while i < clusters.len()
            invariant
                i <= clusters@.len(),
                cells@.len() == i,
                forall|k: int| 0 <= k < i ==> (#[trigger] cells@[k])@ == Some(clusters@[k]@),
            decreases clusters@.len() - i,
        {
            cells.push(TextCell::from_checked(clusters[i].as_str()));
            i = i + 1;
        }
        proof {
            assert(texts(clusters@).len() == clusters@.len());
            assert(row_view(cells@) =~= grapheme_clusters(s@).map_values(
                |cluster: Seq<char>| Some(cluster),
            ));
        }
        cells
    }

    /// A cell that holds `s`, which is taken to be one grapheme cluster.
    pub fn from_checked(s: &str) -> (cell: TextCell)
        ensures
            cell@ == Some(s@),
    {
        TextCell { glyph: Some(s.to_owned()) }
    }

    /// What the cell shows: its grapheme cluster, or a space.
    pub fn to_string(&self) -> (text: String)
        ensures
            text@ == shown(self@),
    {
        match &self.glyph {
            Some(s) => s.clone(),
            None => {
                proof {
                    reveal_strlit(" ");
                    assert(" "@ =~= seq![' ']);
                }
                String::from_str(" ")
            },
        }
    }

    /// A cell that holds nothing.
    pub fn empty() -> (cell: TextCell)
        ensures
            cell@ is None,
    {
        TextCell { glyph: None }
    }

    /// A copy of the cell.
    pub fn duplicate(&self) -> (cell: TextCell)
        ensures
            cell@ == self@,
    {
        match &self.glyph {
            Some(s) => TextCell { glyph: Some(s.clone()) },
            None => TextCell { glyph: None },
        }
    }
}

/// What a [`TextGrid`] holds.
pub struct GridView {
    pub rows: nat,
    pub cols: nat,
    /// The cells, row by row.
    pub cells: Seq<Seq<Option<Seq<char>>>>,
}

impl GridView {
    /// The grid has `rows` rows of `cols` cells each.
    pub open spec fn wf(self) -> bool {
        &&& self.cells.len() == self.rows
        &&& forall|r: int| 0 <= r < self.rows ==> (#[trigger] self.cells[r]).len() == self.cols
    }

    /// The cell in row `r` and column `c`, or nothing where the grid has no
    /// such cell.
    pub open spec fn cell(self, r: int, c: int) -> Option<Seq<char>> {
        if 0 <= r < self.rows && 0 <= c < self.cols {
            self.cells[r][c]
        } else {
            None
        }
    }

    pub open spec fn empty() -> GridView {
        GridView { rows: 0, cols: 0, cells: Seq::empty() }
    }

    /// The grid with `other` to its right. The shorter of the two is
    /// filled up with empty cells below.
    pub open spec fn beside(self, other: GridView) -> GridView {
        let rows = if self.rows >= other.rows {
            self.rows
        } else {
            other.rows
        };
        GridView {
            rows,
            cols: self.cols + other.cols,
            cells: Seq::new(
                rows,
                |r: int|
                    Seq::new(
                        self.cols + other.cols,
                        |c: int|
                            if c < self.cols {
                                self.cell(r, c)
                            } else {
                                other.cell(r, c - self.cols)
                            },
                    ),
            ),
        }
    }

    /// The grid with `other` below it. The narrower of the two is filled
    /// up with empty cells on the right.
    pub open spec fn above(self, other: GridView) -> GridView {
        let cols = if self.cols >= other.cols {
            self.cols
        } else {
            other.cols
        };
        GridView {
            rows: self.rows + other.rows,
            cols,
            cells: Seq::new(
                self.rows + other.rows,
                |r: int|
                    Seq::new(
                        cols,
                        |c: int|
                            if r < self.rows {
                                self.cell(r, c)
                            } else {
                                other.cell(r - self.rows, c)
                            },
                    ),
            ),
        }
    }

    /// The grid that shows `lines`, one in each row: a cell for each
    /// grapheme cluster, and empty cells up to the width of the widest
    /// line.
    pub open spec fn of_lines(lines: Seq<Seq<char>>) -> GridView {
        let cols = widest(lines);
        GridView {
            rows: lines.len(),
            cols,
            cells: Seq::new(
                lines.len(),
                |r: int|
                    Seq::new(
                        cols,
                        |c: int|
                            if c < grapheme_clusters(lines[r]).len() {
                                Some(grapheme_clusters(lines[r])[c])
                            } else {
                                None
                            },
                    ),
            ),
        }
    }
}

/// The number of grapheme clusters of the longest of `lines`.
pub open spec fn widest(lines: Seq<Seq<char>>) -> nat
    decreases lines.len(),
{
    if lines.len() == 0 {
        0
    } else {
        let rest = widest(lines.drop_last());
        let last = grapheme_clusters(lines.last()).len();
        if rest >= last {
            rest
        } else {
            last
        }
    }
}

/// No line is wider than the widest.
pub proof fn lemma_widest(lines: Seq<Seq<char>>, i: int)
    requires
        0 <= i < lines.len(),
    ensures
        grapheme_clusters(lines[i]).len() <= widest(lines),
    decreases lines.len(),
{
    if i < lines.len() - 1 {
        lemma_widest(lines.drop_last(), i);
    }
}

/// A grid of text cells.
#[derive(Debug)]
pub struct TextGrid {
    rows: usize,
    cols: usize,
    grid: Vec<Vec<TextCell>>,
}

impl View for TextGrid {
    type V = GridView;

    closed spec fn view(&self) -> GridView {
        GridView {
            rows: self.rows as nat,
            cols: self.cols as nat,
            cells: self.grid@.map_values(|row: Vec<TextCell>| row_view(row@)),
        }
    }
}

impl TextGrid {
    pub open spec fn wf(&self) -> bool {
        self@.wf()
    }

    /// A row of `size` empty cells.
    pub fn blank_row(size: usize) -> (row: Vec<TextCell>)
        ensures
            row@.len() == size,
            forall|c: int| 0 <= c < size ==> (#[trigger] row@[c])@ is None,
    {
        let mut row: Vec<TextCell> = Vec::new();
        let mut c: usize = 0;
        while c < size
            invariant
                c <= size,
                row@.len() == c,
                forall|k: int| 0 <= k < c ==> (#[trigger] row@[k])@ is None,
            decreases size - c,
        {
            row.push(TextCell::empty());
            c = c + 1;
        }
        row
    }

    /// What a row of cells shows.
    fn row_to_string(row: &Vec<TextCell>) -> (text: String)
        ensures
            text@ == shown_row(row_view(row@)),
    {
        let mut text = String::new();
        let mut c: usize = 0;
        let ghost cells = row_view(row@);
        proof {
            assert(cells.take(0) =~= Seq::<Option<Seq<char>>>::empty());
        }
        while c < row.len()
            invariant
                c <= row@.len(),
                cells == row_view(row@),
                text@ == shown_row(cells.take(c as int)),
            decreases row@.len() - c,
        {
            let glyph = row[c].to_string();
            text.append(glyph.as_str());
            proof {
                assert(cells.take(c + 1).drop_last() =~= cells.take(c as int));
                assert(cells.take(c + 1).last() == row@[c as int]@);
            }
            c = c + 1;
        }
        proof {
            assert(cells.take(row@.len() as int) =~= cells);
        }
        text
    }

    /// What the grid shows: the rows from top to bottom with a line feed
    /// between them, an empty cell as a space.
    pub fn to_string(&self) -> (text: String)
        ensures
            text@ == shown_rows(self@.cells),
    {
        let mut text = String::new();
        let mut r: usize = 0;
        let ghost rows = self@.cells;
        proof {
            assert(rows.take(0) =~= Seq::<Seq<Option<Seq<char>>>>::empty());
        }
        while r < self.grid.len()
            invariant
                r <= self.grid@.len(),
                rows == self@.cells,
                text@ == shown_rows(rows.take(r as int)),
            decreases self.grid@.len() - r,
        {
            if r > 0 {
                proof {
                    reveal_strlit("\n");
                    assert("\n"@ =~= seq!['\n']);
                }
                text.append("\n");
            }
            let row = Self::row_to_string(&self.grid[r]);
            text.append(row.as_str());
            proof {
                assert(rows.take(r + 1).drop_last() =~= rows.take(r as int));
                assert(rows.take(r + 1).last() == row_view(self.grid@[r as int]@));
                if r == 0 {
                    assert(text@ =~= shown_row(rows.take(1).last()));
                }
            }
            r = r + 1;
        }
        proof {
            assert(rows.take(self.grid@.len() as int) =~= rows);
        }
        text
    }

    /// The grid that shows the lines of `s`, one in each row.
    #[verifier::rlimit(40)]
    pub fn str(s: &str) -> (grid: TextGrid)
        ensures
            grid.wf(),
            grid@ == GridView::of_lines(lines_of(s@)),
    {
        let lines = split_lines(s);
        let ghost given = texts(lines@);
        let mut grid: Vec<Vec<TextCell>> = Vec::new();
        let mut cols: usize = 0;
        let mut r: usize = 0;
        proof {
            assert(given.take(0) =~= Seq::<Seq<char>>::empty());
        }
        while r < lines.len()
            invariant
                r <= lines@.len(),
                given == texts(lines@),
                grid@.len() == r,
                cols == widest(given.take(r as int)),
                forall|k: int|
                    0 <= k < r ==> row_view((#[trigger] grid@[k])@) == grapheme_clusters(
                        given[k],
                    ).map_values(|cluster: Seq<char>| Some(cluster)),
            decreases lines@.len() - r,
        {
            let row = TextCell::from_line(lines[r].as_str());
            proof {
                assert(given.take(r + 1).drop_last() =~= given.take(r as int));
                assert(given.take(r + 1).last() == given[r as int]);
                assert(row_view(row@).len() == row@.len());
            }
            if row.len() > cols {
                cols = row.len();
            }
            grid.push(row);
            r = r + 1;
        }
        proof {
            assert(given.take(lines@.len() as int) =~= given);
        }
        let rows = grid.len();
        let ghost short = grid@;
        let mut padded: Vec<Vec<TextCell>> = Vec::new();
        for row in it: grid
            invariant
                it.seq() == short,
                short.len() == given.len(),
                cols == widest(given),
                forall|k: int|
                    0 <= k < short.len() ==> row_view((#[trigger] short[k])@) == grapheme_clusters(
                        given[k],
                    ).map_values(|cluster: Seq<char>| Some(cluster)),
                padded@.len() == it.index(),
                forall|k: int|
                    0 <= k < padded@.len() ==> row_view((#[trigger] padded@[k])@)
                        == GridView::of_lines(given).cells[k],
        {
            let ghost k = it.index() as int;
            let mut row = row;
            let ghost cells = row_view(row@);
            proof {
                assert(cells == grapheme_clusters(given[k]).map_values(
                    |cluster: Seq<char>| Some(cluster),
                ));
                lemma_widest(given, k);
                assert(cells.len() == row@.len());
            }
            while row.len() < cols
                invariant
                    cells.len() <= row@.len() <= cols,
                    forall|c: int| 0 <= c < cells.len() ==> (#[trigger] row@[c])@ == cells[c],
                    forall|c: int| cells.len() <= c < row@.len() ==> (#[trigger] row@[c])@ is None,
                decreases cols - row@.len(),
            {
                row.push(TextCell::empty());
            }
            proof {
                assert(row_view(row@) =~= GridView::of_lines(given).cells[k]);
            }
            padded.push(row);
        }
        let grid = TextGrid { rows, cols, grid: padded };
        proof {
            assert(grid@.cells =~= GridView::of_lines(given).cells);
        }
        grid
    }

    /// A copy of the cells of row `r` from column `from` on, filled up
    /// with empty cells to `width` cells; a row of `width` empty cells
    /// where the grid has no row `r`.
    fn copy_row(&self, r: usize, width: usize) -> (row: Vec<TextCell>)
        requires
            self.wf(),
            self@.cols <= width,
        ensures
            row_view(row@) == Seq::new(width as nat, |c: int| self@.cell(r as int, c)),
    {
        let mut row: Vec<TextCell> = Vec::new();
        if r < self.grid.len() {
            let source = &self.grid[r];
            proof {
                assert(self@.cells[r as int] == row_view(source@));
            }
            let mut c: usize = 0;
            while c < source.len()
                invariant
                    c <= source@.len(),
                    row@.len() == c,
                    forall|k: int| 0 <= k < c ==> (#[trigger] row@[k])@ == source@[k]@,
                decreases source@.len() - c,
            {
                row.push(source[c].duplicate());
                c = c + 1;
            }
        }
        while row.len() < width
            invariant
                row@.len() <= width,
                self.wf(),
                self@.cols <= width,
                r < self@.rows ==> row@.len() >= self@.cols,
                forall|k: int|
                    0 <= k < row@.len() ==> (#[trigger] row@[k])@ == self@.cell(r as int, k),
            decreases width - row@.len(),
        {
            row.push(TextCell::empty());
        }
        proof {
            assert(row_view(row@) =~= Seq::new(width as nat, |c: int| self@.cell(r as int, c)));
        }
        row
    }

    /// Two grids can be put side by side: their columns can be counted
    /// together.
    pub open spec fn fits_beside(&self, other: &Self) -> bool {
        self@.cols + other@.cols <= usize::MAX
    }

    /// Two grids can be put one below the other: their rows can be counted
    /// together.
    pub open spec fn fits_above(&self, other: &Self) -> bool {
        self@.rows + other@.rows <= usize::MAX
    }

    /// The grid with `other` to its right.
    pub fn hconcat(&self, other: &Self) -> (grid: TextGrid)
        requires
            self.wf(),
            other.wf(),
            self.fits_beside(other),
        ensures
            grid.wf(),
            grid@ == self@.beside(other@),
    {
        let rows = if self.rows >= other.rows {
            self.rows
        } else {
            other.rows
        };
        let cols = self.cols + other.cols;
        let mut cells: Vec<Vec<TextCell>> = Vec::new();
        let mut r: usize = 0;
        while r < rows
            invariant
                r <= rows,
                self.wf(),
                other.wf(),
                cols == self@.cols + other@.cols,
                rows == if self@.rows >= other@.rows {
                    self@.rows
                } else {
                    other@.rows
                },
                cells@.len() == r,
                forall|k: int|
                    0 <= k < r ==> row_view((#[trigger] cells@[k])@) == self@.beside(
                        other@,
                    ).cells[k],
            decreases rows - r,
        {
            let mut row = self.copy_row(r, self.cols);
            let mut right = other.copy_row(r, other.cols);
            let ghost left_cells = row_view(row@);
            let ghost right_cells = row_view(right@);
            row.append(&mut right);
            proof {
                assert(row_view(row@) =~= left_cells + right_cells);
                assert(row_view(row@) =~= self@.beside(other@).cells[r as int]);
            }
            cells.push(row);
            r = r + 1;
        }
        let grid = TextGrid { rows, cols, grid: cells };
        proof {
            assert(grid@.cells =~= self@.beside(other@).cells);
        }
        grid
    }

    /// The grid with `other` below it.
    pub fn vconcat(&self, other: &Self) -> (grid: TextGrid)
        requires
            self.wf(),
            other.wf(),
            self.fits_above(other),
        ensures
            grid.wf(),
            grid@ == self@.above(other@),
    {
        let cols = if self.cols >= other.cols {
            self.cols
        } else {
            other.cols
        };
        let rows = self.rows + other.rows;
        let mut cells: Vec<Vec<TextCell>> = Vec::new();
        let mut r: usize = 0;
        while r < rows
            invariant
                r <= rows,
                self.wf(),
                other.wf(),
                rows == self@.rows + other@.rows,
                cols >= self@.cols,
                cols >= other@.cols,
                cols == if self@.cols >= other@.cols {
                    self@.cols
                } else {
                    other@.cols
                },
                cells@.len() == r,
                forall|k: int|
                    0 <= k < r ==> row_view((#[trigger] cells@[k])@) == self@.above(
                        other@,
                    ).cells[k],
            decreases rows - r,
        {
            let row = if r < self.rows {
                self.copy_row(r, cols)
            } else {
                other.copy_row(r - self.rows, cols)
            };
            proof {
                assert(row_view(row@) =~= self@.above(other@).cells[r as int]);
            }
            cells.push(row);
            r = r + 1;
        }
        let grid = TextGrid { rows, cols, grid: cells };
        proof {
            assert(grid@.cells =~= self@.above(other@).cells);
        }
        grid
    }

    /// Puts `other` to the right of the grid. `other` is left empty.
    pub fn happend(&mut self, other: &mut Self)
        requires
            old(self).wf(),
            old(other).wf(),
            old(self).fits_beside(old(other)),
        ensures
            final(self).wf(),
            final(self)@ == old(self)@.beside(old(other)@),
            final(other)@ == GridView::empty(),
    {
        let joined = self.hconcat(other);
        *self = joined;
        *other = TextGrid::empty();
    }

    /// Puts `other` below the grid. `other` is left empty.
    pub fn vappend(&mut self, other: &mut Self)
        requires
            old(self).wf(),
            old(other).wf(),
            old(self).fits_above(old(other)),
        ensures
            final(self).wf(),
            final(self)@ == old(self)@.above(old(other)@),
            final(other)@ == GridView::empty(),
    {
        let joined = self.vconcat(other);
        *self = joined;
        *other = TextGrid::empty();
    }

    /// A grid without cells.
    pub fn empty() -> (grid: TextGrid)
        ensures
            grid.wf(),
            grid@ == GridView::empty(),
    {
        let grid = TextGrid { rows: 0, cols: 0, grid: Vec::new() };
        proof {
            assert(grid@.cells =~= Seq::<Seq<Option<Seq<char>>>>::empty());
        }
        grid
    }

    /// Whether the grid has as many rows as it says, each of as many cells
    /// as it says.
    pub fn is_well_formed(&self) -> (ok: bool)
        ensures
            ok == self.wf(),
    {
        if self.grid.len() != self.rows {
            return false;
        }
        let mut r: usize = 0;
        while r < self.grid.len()
            invariant
                r <= self.grid@.len(),
                self.grid@.len() == self.rows,
                forall|k: int| 0 <= k < r ==> (#[trigger] self@.cells[k]).len() == self.cols,
            decreases self.grid@.len() - r,
        {
            proof {
                assert(self@.cells[r as int] == row_view(self.grid@[r as int]@));
            }
            if self.grid[r].len() != self.cols {
                return false;
            }
            r = r + 1;
        }
        true
    }

    /// Whether the columns of the two grids can be counted together.
    pub fn can_happend(&self, other: &Self) -> (ok: bool)
        ensures
            ok == self.fits_beside(other),
    {
        self.cols <= usize::MAX - other.cols
    }

    /// Whether the rows of the two grids can be counted together.
    pub fn can_vappend(&self, other: &Self) -> (ok: bool)
        ensures
            ok == self.fits_above(other),
    {
        self.rows <= usize::MAX - other.rows
    }
}

/// Draws on grids of text.
#[derive(Debug, Clone, Copy)]
pub struct TextBuilder {}

impl TextBuilder {
    pub fn new() -> (builder: TextBuilder) {
        TextBuilder {  }
    }
}

impl Builder for TextBuilder {
    type Drawable = TextGrid;

    fn str(&mut self, s: &str) -> (grid: TextGrid)
        ensures
            grid.wf(),
            grid@ == GridView::of_lines(lines_of(s@)),
    {
        TextGrid::str(s)
    }

    /// Puts `b` to the right of `a`, unless there is more in the two than
    /// can be counted: then both stay as they are.
    fn happend(&mut self, a: &mut TextGrid, b: &mut TextGrid)
        ensures
            old(a).wf() && old(b).wf() && old(a).fits_beside(old(b)) ==> final(a).wf() && final(a)@
                == old(a)@.beside(old(b)@) && final(b)@ == GridView::empty(),
            !(old(a).wf() && old(b).wf() && old(a).fits_beside(old(b))) ==> *final(a) == *old(a)
                && *final(b) == *old(b),
    {
        if a.is_well_formed() && b.is_well_formed() && a.can_happend(b) {
            TextGrid::happend(a, b)
        }
    }

    /// `a` with `b` to its right, or an empty grid where there is more in
    /// the two than can be counted.
    fn hconcat(&mut self, a: &TextGrid, b: &TextGrid) -> (grid: TextGrid)
        ensures
            grid.wf(),
            grid@ == if a.wf() && b.wf() && a.fits_beside(b) {
                a@.beside(b@)
            } else {
                GridView::empty()
            },
    {
        if a.is_well_formed() && b.is_well_formed() && a.can_happend(b) {
            TextGrid::hconcat(a, b)
        } else {
            TextGrid::empty()
        }
    }

    /// Puts `b` below `a`, unless there is more in the two than can be
    /// counted: then both stay as they are.
    fn vappend(&mut self, a: &mut TextGrid, b: &mut TextGrid)
        ensures
            old(a).wf() && old(b).wf() && old(a).fits_above(old(b)) ==> final(a).wf() && final(a)@
                == old(a)@.above(old(b)@) && final(b)@ == GridView::empty(),
            !(old(a).wf() && old(b).wf() && old(a).fits_above(old(b))) ==> *final(a) == *old(a)
                && *final(b) == *old(b),
    {
        if a.is_well_formed() && b.is_well_formed() && a.can_vappend(b) {
            TextGrid::vappend(a, b)
        }
    }

    /// `a` with `b` below it, or an empty grid where there is more in the
    /// two than can be counted.
    fn vconcat(&mut self, a: &TextGrid, b: &TextGrid) -> (grid: TextGrid)
        ensures
            grid.wf(),
            grid@ == if a.wf() && b.wf() && a.fits_above(b) {
                a@.above(b@)
            } else {
                GridView::empty()
            },
    {
        if a.is_well_formed() && b.is_well_formed() && a.can_vappend(b) {
            TextGrid::vconcat(a, b)
        } else {
            TextGrid::empty()
        }
    }

    fn empty(&mut self) -> (grid: TextGrid)
        ensures
            grid.wf(),
            grid@ == GridView::empty(),
    {
        TextGrid::empty()
    }

    /// The drawing of a text is the grid of its lines.
    open spec fn writes(&self, text: Seq<char>, after: Self, drawing: TextGrid) -> bool {
        drawing.wf() && drawing@ == GridView::of_lines(lines_of(text))
    }

    /// Two grids that are well formed and can be counted together are
    /// joined, and the second is left empty; any others stay as they are.
    open spec fn puts_beside(
        &self,
        a: TextGrid,
        b: TextGrid,
        after: Self,
        a_after: TextGrid,
        b_after: TextGrid,
    ) -> bool {
        if a.wf() && b.wf() && a.fits_beside(&b) {
            a_after.wf() && a_after@ == a@.beside(b@) && b_after@ == GridView::empty()
        } else {
            a_after == a && b_after == b
        }
    }

    /// Two grids that are well formed and can be counted together give
    /// the first with the second to its right; any others an empty grid.
    open spec fn sets_beside(&self, a: TextGrid, b: TextGrid, after: Self, drawing: TextGrid) -> bool {
        drawing.wf() && drawing@ == if a.wf() && b.wf() && a.fits_beside(&b) {
            a@.beside(b@)
        } else {
            GridView::empty()
        }
    }

    /// Two grids that are well formed and can be counted together are
    /// joined, and the second is left empty; any others stay as they are.
    open spec fn puts_above(
        &self,
        a: TextGrid,
        b: TextGrid,
        after: Self,
        a_after: TextGrid,
        b_after: TextGrid,
    ) -> bool {
        if a.wf() && b.wf() && a.fits_above(&b) {
            a_after.wf() && a_after@ == a@.above(b@) && b_after@ == GridView::empty()
        } else {
            a_after == a && b_after == b
        }
    }

    /// Two grids that are well formed and can be counted together give
    /// the first with the second below it; any others an empty grid.
    open spec fn sets_above(&self, a: TextGrid, b: TextGrid, after: Self, drawing: TextGrid) -> bool {
        drawing.wf() && drawing@ == if a.wf() && b.wf() && a.fits_above(&b) {
            a@.above(b@)
        } else {
            GridView::empty()
        }
    }

    /// A drawing of nothing is the empty grid.
    open spec fn blank(&self, after: Self, drawing: TextGrid) -> bool {
        drawing.wf() && drawing@ == GridView::empty()
    }
}

} // verus!
