//! Widgets side by side.

use vstd::prelude::*;
use crate::backend::{Builder, Widget};

verus! {

/// Widgets that are drawn side by side, in their order.
pub struct HBox<W> {
    pub contents: Vec<W>,
}

impl<W> HBox<W> {
    /// A box of the widgets `panes`.
    pub fn from_vec(panes: Vec<W>) -> (hbox: Self)
        ensures
            hbox.contents == panes,
    {
        HBox { contents: panes }
    }

    /// A box of two widgets.
    pub fn from_pair(a: W, b: W) -> (hbox: Self)
        ensures
            hbox.contents@ == seq![a, b],
    {
        let mut panes: Vec<W> = Vec::new();
        panes.push(a);
        panes.push(b);
        proof {
            assert(panes@ =~= seq![a, b]);
        }
        HBox { contents: panes }
    }
}

/// Handed the builder `before`, the first `n` of `widgets` may leave it
/// as `after` and give `drawing`: each draws in its turn, and from the
/// second on the builder sets each drawing to the right of those before
/// it.
pub open spec fn drawn_beside<B: Builder, W: Widget<B>>(
    widgets: Seq<W>,
    n: int,
    before: B,
    after: B,
    drawing: B::Drawable,
) -> bool
    decreases n,
{
    if n <= 0 {
        false
    } else if n == 1 {
        widgets[0].draws(before, after, drawing)
    } else {
        exists|first: B, then: B, so_far: B::Drawable, next: B::Drawable|
            #![trigger widgets[n - 1].draws(first, then, next), then.sets_beside(so_far, next, after, drawing)]
            drawn_beside(widgets, n - 1, before, first, so_far) && widgets[n - 1].draws(
                first,
                then,
                next,
            ) && then.sets_beside(so_far, next, after, drawing)
    }
}

impl<B: Builder, W: Widget<B>> Widget<B> for HBox<W> {
    /// The drawings of the widgets, each to the right of those before it;
    /// a drawing of nothing where the box is empty.
    fn build_with(&self, b: &mut B) -> (drawing: B::Drawable)
        ensures
            self.contents@.len() == 0 ==> old(b).blank(*final(b), drawing),
            self.contents@.len() > 0 ==> drawn_beside(
                self.contents@,
                self.contents@.len() as int,
                *old(b),
                *final(b),
                drawing,
            ),
    {
        if self.contents.len() == 0 {
            return b.empty();
        }
        let mut drawing = self.contents[0].build_with(b);
        let mut i: usize = 1;
        while i < self.contents.len()
            invariant
                1 <= i <= self.contents@.len(),
                drawn_beside(self.contents@, i as int, *old(b), *b, drawing),
            decreases self.contents@.len() - i,
        {
            let ghost first = *b;
            let ghost so_far = drawing;
            let next = self.contents[i].build_with(b);
            let ghost then = *b;
            drawing = b.hconcat(&drawing, &next);
            proof {
                let n = i + 1;
                assert(drawn_beside(self.contents@, n - 1, *old(b), first, so_far));
                assert(self.contents@[n - 1].draws(first, then, next));
                assert(then.sets_beside(so_far, next, *b, drawing));
                assert(drawn_beside(self.contents@, n, *old(b), *b, drawing));
            }
            i = i + 1;
        }
        drawing
    }

    /// An empty box gives what the builder draws of nothing; any other
    /// what its widgets draw side by side, as [`drawn_beside`] says.
    open spec fn draws(&self, before: B, after: B, drawing: B::Drawable) -> bool {
        if self.contents@.len() == 0 {
            before.blank(after, drawing)
        } else {
            drawn_beside(self.contents@, self.contents@.len() as int, before, after, drawing)
        }
    }
}

} // verus!
