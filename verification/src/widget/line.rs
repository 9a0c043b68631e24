//! Separator lines.

use vstd::prelude::*;
use crate::grapheme::texts;
use crate::ir::block::clipped_row;
use crate::ir::{ContentID, TextBlock};
use crate::widget::{LayoutError, RenderContext, Widget};
use crate::{Direction, FullGrowthPolicy, Name, Size};

verus! {

/// `unit` written `count` times.
pub open spec fn repeated(unit: Seq<char>, count: nat) -> Seq<char>
    decreases count,
{
    if count == 0 {
        Seq::empty()
    } else {
        repeated(unit, (count - 1) as nat) + unit
    }
}

/// A string that holds `unit` `count` times.
pub fn repeat_str(unit: &str, count: usize) -> (text: String)
    ensures
        text@ == repeated(unit@, count as nat),
{
    let mut text = String::new();
    let mut i: usize = 0;
    while i < count
        invariant
            i <= count,
            text@ == repeated(unit@, i as nat),
        decreases count - i,
    {
        text.append(unit);
        i = i + 1;
    }
    text
}

/// A line that separates two widgets: a row of `─` or a column of `│`.
#[derive(Debug, Clone, Copy)]
pub struct Line {
    direction: Direction,
}

impl Line {
    /// The direction in which the line runs.
    pub closed spec fn axis(&self) -> Direction {
        self.direction
    }

    /// A line from top to bottom.
    pub fn vertical() -> (line: Self)
        ensures
            line.axis() == Direction::Vertical,
    {
        Self { direction: Direction::Vertical }
    }

    /// A line from left to right.
    pub fn horizontal() -> (line: Self)
        ensures
            line.axis() == Direction::Horizontal,
    {
        Self { direction: Direction::Horizontal }
    }

    /// The tag of the text of a line that runs along `direction`.
    pub open spec fn content_id(direction: Direction) -> ContentID {
        match direction {
            Direction::Horizontal => ContentID {
                name: None,
                widget_type: "Line",
                class: "Horizontal",
            },
            Direction::Vertical => ContentID { name: None, widget_type: "Line", class: "Vertical" },
        }
    }

    /// The text that a line of `count` cells shows, row by row.
    pub open spec fn strokes(direction: Direction, count: nat) -> Seq<Seq<char>> {
        match direction {
            Direction::Horizontal => seq![repeated("─"@, count)],
            Direction::Vertical => Seq::new(count, |r: int| "│"@),
        }
    }

    /// The extent of a line of `count` cells.
    pub open spec fn extent(direction: Direction, count: usize) -> Size {
        match direction {
            Direction::Horizontal => Size { cols: count, rows: 1 },
            Direction::Vertical => Size { cols: 1, rows: count },
        }
    }
}

impl Line {
    /// `rendered` is what the line shows under the bound of `ctx`: nothing
    /// where the bound is open along the line, else a block of strokes
    /// without cursors or handlers.
    pub open spec fn is_block<K, M>(
        &self,
        ctx: RenderContext,
        rendered: Result<TextBlock<K, M>, LayoutError>,
    ) -> bool {
        &&& ctx.bounds().along(self.axis()) is None ==> rendered == Err::<
            TextBlock<K, M>,
            LayoutError,
        >(LayoutError::Unconstrained(self.axis()))
        &&& ctx.bounds().along(self.axis()) matches Some(count) ==> (rendered matches Ok(block)
            && block.wf() && block.is_inert() && block.extent() == Line::extent(
            self.axis(),
            count,
        ) && block.content() == Seq::new(
            block.rows() as nat,
            |r: int|
                clipped_row(
                    Line::content_id(self.axis()),
                    Line::strokes(self.axis(), count as nat),
                    block.cols() as nat,
                    r,
                ),
        ))
    }

    /// How a line grows: it keeps its one cell across its direction.
    pub open spec fn growth(&self) -> FullGrowthPolicy {
        match self.axis() {
            Direction::Horizontal => FullGrowthPolicy {
                width: crate::GrowthPolicy::Greedy,
                height: crate::GrowthPolicy::FixedSize,
            },
            Direction::Vertical => FullGrowthPolicy {
                width: crate::GrowthPolicy::FixedSize,
                height: crate::GrowthPolicy::Greedy,
            },
        }
    }

    /// A line as long as the bound is along the direction of the line, and
    /// one cell across. The bound across the line is not looked at.
    pub fn block<K, M>(&self, ctx: RenderContext) -> (rendered: Result<
        TextBlock<K, M>,
        LayoutError,
    >)
        ensures
            self.is_block(ctx, rendered),
    {
        let count = match ctx.bound().in_direction(self.direction) {
            Some(count) => count,
            None => {
                return Err(LayoutError::Unconstrained(self.direction));
            },
        };
        let bound = ctx.bound().constrain_against(self.direction, 1);
        match self.direction {
            Direction::Horizontal => {
                let mut rows: Vec<String> = Vec::new();
                rows.push(repeat_str("─", count));
                proof {
                    assert(texts(rows@) =~= Line::strokes(self.axis(), count as nat));
                }
                Ok(TextBlock::clip_lines(None, "Line", "Horizontal", rows, bound))
            },
            Direction::Vertical => {
                let mut rows: Vec<String> = Vec::new();
                let mut r: usize = 0;
                while r < count
                    invariant
                        r <= count,
                        rows@.len() == r,
                        forall|k: int| 0 <= k < r ==> (#[trigger] rows@[k])@ == "│"@,
                    decreases count - r,
                {
                    rows.push(String::from_str("│"));
                    r = r + 1;
                }
                proof {
                    assert(texts(rows@) =~= Line::strokes(self.axis(), count as nat));
                }
                Ok(TextBlock::clip_lines(None, "Line", "Vertical", rows, bound))
            },
        }
    }

    /// A line keeps its one cell across its direction.
    pub fn policy(&self) -> (policy: FullGrowthPolicy)
        ensures
            policy == self.growth(),
    {
        match self.direction {
            Direction::Horizontal => FullGrowthPolicy::fixed_height(),
            Direction::Vertical => FullGrowthPolicy::fixed_width(),
        }
    }
}

impl<K, M> Widget<K, M> for Line {
    fn render(&self, ctx: RenderContext) -> (rendered: Result<TextBlock<K, M>, LayoutError>) {
        self.block(ctx)
    }

    fn growth_policy(&self) -> FullGrowthPolicy
        returns
            self.growth(),
    {
        self.policy()
    }

    fn name(&self) -> Option<Name>
        returns
            None::<Name>,
    {
        None
    }

    fn widget_type(&self) -> &'static str
        returns
            "Line",
    {
        "Line"
    }

    open spec fn shows(
        &self,
        ctx: RenderContext,
        rendered: Result<TextBlock<K, M>, LayoutError>,
    ) -> bool {
        self.is_block(ctx, rendered)
    }

    open spec fn grows(&self, policy: FullGrowthPolicy) -> bool {
        policy == self.growth()
    }
}

} // verus!
