//! A log of messages.

use vstd::prelude::*;
use crate::grapheme::texts;
use crate::ir::block::{bounded_height, bounded_width, wrapped, wrapped_row};
use crate::ir::TextBlock;
use crate::widget::{LayoutError, RenderContext, Widget};
use crate::{FullGrowthPolicy, Name};

verus! {

/// A copy of `lines`.
pub fn copy_lines(lines: &Vec<String>) -> (copy: Vec<String>)
    ensures
        texts(copy@) == texts(lines@),
{
    let mut copy: Vec<String> = Vec::new();
    let mut i: usize = 0;
    while i < lines.len()
        invariant
            i <= lines@.len(),
            copy@.len() == i,
            forall|k: int| 0 <= k < i ==> (#[trigger] copy@[k])@ == lines@[k]@,
        decreases lines@.len() - i,
    {
        copy.push(lines[i].clone());
        i = i + 1;
    }
    proof {
        assert(texts(copy@) =~= texts(lines@));
    }
    copy
}

/// Messages one below the other, each wrapped at the width of the widget.
#[derive(Debug)]
pub struct Log {
    pub lines: Vec<String>,
    pub scroll_pos: usize,
    pub selected: Option<usize>,
    pub name: Option<Name>,
}

impl Log {
    /// A log without messages.
    pub fn new(name: Option<Name>) -> (log: Self)
        ensures
            log.lines@.len() == 0,
            log.scroll_pos == 0,
            log.selected is None,
            log.name == name,
    {
        let lines = Vec::new();
        let scroll_pos: usize = 0;
        let selected = None;
        Log { lines, scroll_pos, selected, name }
    }

    /// Adds `msg` below the messages that the log holds.
    pub fn log_msg(&mut self, msg: &str)
        ensures
            texts(final(self).lines@) == texts(old(self).lines@).push(msg@),
            final(self).scroll_pos == old(self).scroll_pos,
            final(self).selected == old(self).selected,
            final(self).name == old(self).name,
    {
        self.lines.push(msg.to_owned());
        proof {
            assert(texts(self.lines@) =~= texts(old(self).lines@).push(msg@));
        }
    }
}

impl Default for Log {
    fn default() -> (log: Self)
        ensures
            log.lines@.len() == 0,
            log.scroll_pos == 0,
            log.selected is None,
            log.name is None,
    {
        Log::new(None)
    }
}

impl Log {
    /// `rendered` is the block that shows the messages as paragraphs under
    /// the bound of `ctx`.
    pub open spec fn is_block<K, M>(
        &self,
        ctx: RenderContext,
        rendered: Result<TextBlock<K, M>, LayoutError>,
    ) -> bool {
        rendered matches Ok(block) && block.wf() && block.is_inert() && block.cols()
            == bounded_width(texts(self.lines@), ctx.bounds()) && block.rows() == bounded_height(
            wrapped(texts(self.lines@), block.cols() as nat).len(),
            ctx.bounds(),
        ) && block.content() == Seq::new(
            block.rows() as nat,
            |r: int|
                wrapped_row(
                    ctx.content_id("Content"),
                    wrapped(texts(self.lines@), block.cols() as nat),
                    block.cols() as nat,
                    r,
                ),
        )
    }

    /// The messages as paragraphs under the bound of `ctx`.
    pub fn block<K, M>(&self, ctx: RenderContext) -> (rendered: Result<
        TextBlock<K, M>,
        LayoutError,
    >)
        ensures
            self.is_block(ctx, rendered),
    {
        Ok(ctx.wrap_lines("Content", copy_lines(&self.lines)))
    }
}

impl<K, M> Widget<K, M> for Log {
    open spec fn shows(
        &self,
        ctx: RenderContext,
        rendered: Result<TextBlock<K, M>, LayoutError>,
    ) -> bool {
        self.is_block(ctx, rendered)
    }

    fn name(&self) -> Option<Name>
        returns
            self.name,
    {
        self.name
    }

    fn render(&self, ctx: RenderContext) -> (rendered: Result<TextBlock<K, M>, LayoutError>) {
        self.block(ctx)
    }

    fn widget_type(&self) -> &'static str
        returns
            "Log",
    {
        "Log"
    }

    fn growth_policy(&self) -> FullGrowthPolicy
        returns
            (FullGrowthPolicy {
                width: crate::GrowthPolicy::Greedy,
                height: crate::GrowthPolicy::Greedy,
            }),
    {
        FullGrowthPolicy::default()
    }

    open spec fn grows(&self, policy: FullGrowthPolicy) -> bool {
        policy == (FullGrowthPolicy {
            width: crate::GrowthPolicy::Greedy,
            height: crate::GrowthPolicy::Greedy,
        })
    }
}

} // verus!
