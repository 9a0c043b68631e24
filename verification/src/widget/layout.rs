//! The linear layout: children side by side or one below the other.

use vstd::prelude::*;
use crate::ir::block::{can_join, joined, BlockView};
use crate::ir::TextBlock;
use crate::widget::{sized, LayoutError, RenderContext, Widget};
use crate::{Direction, FullGrowthPolicy, GrowthPolicy, Name, RenderBound};

verus! {

/// The sum of `sizes`.
pub open spec fn sum(sizes: Seq<usize>) -> nat
    decreases sizes.len(),
{
    if sizes.len() == 0 {
        0
    } else {
        sum(sizes.drop_last()) + sizes.last() as nat
    }
}

/// What the greedy child of rank `rank` among `count` gets of `remaining`
/// cells: an equal part, and one cell more for each of the first children as
/// far as the rest of the division goes.
pub open spec fn share(remaining: nat, count: nat, rank: nat) -> nat {
    if rank < remaining % count {
        remaining / count + 1
    } else {
        remaining / count
    }
}

/// The shares of `count` greedy children in `remaining` cells.
pub open spec fn shares(remaining: nat, count: nat) -> Seq<usize> {
    Seq::new(count, |rank: int| share(remaining, count, rank as nat) as usize)
}

/// The number of greedy children among the first `upto`.
pub open spec fn greedy_before(policies: Seq<GrowthPolicy>, upto: int) -> nat
    decreases upto,
{
    if upto <= 0 {
        0
    } else if policies[upto - 1] == GrowthPolicy::Greedy {
        greedy_before(policies, upto - 1) + 1
    } else {
        greedy_before(policies, upto - 1)
    }
}

/// The cells that the fixed children among the first `upto` take, each its
/// natural size.
pub open spec fn fixed_before(policies: Seq<GrowthPolicy>, natural: Seq<usize>, upto: int) -> nat
    decreases upto,
{
    if upto <= 0 {
        0
    } else if policies[upto - 1] == GrowthPolicy::FixedSize {
        fixed_before(policies, natural, upto - 1) + natural[upto - 1] as nat
    } else {
        fixed_before(policies, natural, upto - 1)
    }
}

/// The size along the axis of child `i` of a layout of `extent` cells: its
/// natural size where it is fixed, its share of what the fixed children
/// leave where it is greedy.
pub open spec fn allotment(
    extent: nat,
    policies: Seq<GrowthPolicy>,
    natural: Seq<usize>,
    i: int,
) -> nat {
    if policies[i] == GrowthPolicy::FixedSize {
        natural[i] as nat
    } else {
        share(
            (extent - fixed_before(policies, natural, policies.len() as int)) as nat,
            greedy_before(policies, policies.len() as int),
            greedy_before(policies, i),
        )
    }
}

/// The sizes along the axis of the children of a layout of `extent` cells,
/// in the order of the children.
pub open spec fn allotments(extent: nat, policies: Seq<GrowthPolicy>, natural: Seq<usize>) -> Seq<
    usize,
> {
    Seq::new(policies.len(), |i: int| allotment(extent, policies, natural, i) as usize)
}

/// A share is no more than what is there.
pub proof fn lemma_share_bound(remaining: nat, count: nat, rank: nat)
    requires
        count > 0,
    ensures
        share(remaining, count, rank) <= remaining,
{
    let q = remaining as int / count as int;
    let m = remaining as int % count as int;
    assert(remaining == q * count + m && 0 <= m < count && 0 <= q) by (nonlinear_arith)
        requires
            count > 0,
            q == remaining as int / count as int,
            m == remaining as int % count as int,
    ;
    assert(q <= q * count) by (nonlinear_arith)
        requires
            count >= 1,
            q >= 0,
    ;
}

/// The first `k` shares add up to `k` equal parts and
/// one cell for each of them that is among the first `remaining % count`.
pub proof fn lemma_shares_prefix(remaining: nat, count: nat, k: int)
    requires
        count > 0,
        remaining <= usize::MAX,
        0 <= k <= count,
    ensures
        sum(shares(remaining, count).take(k)) == k * (remaining / count) + if k < remaining
            % count {
            k
        } else {
            (remaining % count) as int
        },
    decreases k,
{
    let all = shares(remaining, count);
    if k == 0 {
        assert(all.take(0) =~= Seq::<usize>::empty());
    } else {
        lemma_shares_prefix(remaining, count, k - 1);
        lemma_share_bound(remaining, count, (k - 1) as nat);
        assert(all.take(k).drop_last() =~= all.take(k - 1));
        assert(all.take(k).last() == share(remaining, count, (k - 1) as nat) as usize);
        assert(k * (remaining / count) == (k - 1) * (remaining / count) + remaining / count)
            by (nonlinear_arith);
    }
}

/// The shares of the greedy children add up to exactly
/// what there is to share.
pub proof fn lemma_shares_sum(remaining: nat, count: nat)
    requires
        count > 0,
        remaining <= usize::MAX,
    ensures
        sum(shares(remaining, count)) == remaining,
{
    let all = shares(remaining, count);
    lemma_shares_prefix(remaining, count, count as int);
    assert(all.take(count as int) =~= all);
    let q = remaining as int / count as int;
    let m = remaining as int % count as int;
    assert(remaining == count * q + m && 0 <= m < count) by (nonlinear_arith)
        requires
            count > 0,
            q == remaining as int / count as int,
            m == remaining as int % count as int,
    ;
}

/// Divides `remaining` cells among `count` greedy children: each gets an
/// equal part, and the first `remaining % count` of them one cell more.
pub fn greedy_sizes(remaining: usize, count: usize) -> (sizes: Vec<usize>)
    requires
        count > 0,
    ensures
        sizes@ == shares(remaining as nat, count as nat),
        sum(sizes@) == remaining,
{
    let chunk_size = remaining / count;
    let extra = remaining % count;
    let mut sizes: Vec<usize> = Vec::new();
    let mut rank: usize = 0;
    while rank < count
        invariant
            rank <= count,
            count > 0,
            chunk_size == remaining / count,
            extra == remaining % count,
            sizes@ == shares(remaining as nat, count as nat).take(rank as int),
        decreases count - rank,
    {
        proof {
            lemma_share_bound(remaining as nat, count as nat, rank as nat);
        }
        let size = if rank < extra {
            chunk_size + 1
        } else {
            chunk_size
        };
        sizes.push(size);
        proof {
            let all = shares(remaining as nat, count as nat);
            assert(all.take(rank + 1) =~= all.take(rank as int).push(size));
        }
        rank = rank + 1;
    }
    proof {
        let all = shares(remaining as nat, count as nat);
        assert(all.take(count as int) =~= all);
        lemma_shares_sum(remaining as nat, count as nat);
    }
    sizes
}

/// The size along the axis of every child of a layout of `extent` cells, in
/// the order of the children. `policies` says of each child whether it is
/// fixed or greedy along the axis, and `natural` gives the size that each
/// fixed child rendered itself at; what it holds for a greedy child is not
/// looked at. A fixed child keeps its size. The greedy children share what
/// the fixed ones leave. Where the fixed children take more than `extent`,
/// there is nothing to share: `OutOfSpace`.
pub fn allot(extent: usize, policies: &Vec<GrowthPolicy>, natural: &Vec<usize>) -> (sizes: Result<
    Vec<usize>,
    LayoutError,
>)
    requires
        policies@.len() == natural@.len(),
    ensures
        fixed_before(policies@, natural@, policies@.len() as int) > extent ==> sizes == Err::<
            Vec<usize>,
            LayoutError,
        >(LayoutError::OutOfSpace),
        fixed_before(policies@, natural@, policies@.len() as int) <= extent ==> (sizes matches Ok(
            sizes,
        ) && sizes@ == allotments(extent as nat, policies@, natural@)),
{
    let count = policies.len();
    let mut remaining = extent;
    let mut greedy_count: usize = 0;
    let mut i: usize = 0;
    while i < count
        invariant
            i <= count,
            count == policies@.len(),
            count == natural@.len(),
            greedy_count == greedy_before(policies@, i as int),
            fixed_before(policies@, natural@, i as int) <= extent,
            remaining == extent - fixed_before(policies@, natural@, i as int),
        decreases count - i,
    {
        match policies[i] {
            GrowthPolicy::FixedSize => {
                if natural[i] > remaining {
                    proof {
                        lemma_fixed_before_grows(policies@, natural@, i + 1, count as int);
                    }
                    return Err(LayoutError::OutOfSpace);
                }
                remaining = remaining - natural[i];
            },
            GrowthPolicy::Greedy => {
                proof {
                    lemma_greedy_before_bound(policies@, i as int);
                }
                greedy_count = greedy_count + 1;
            },
        }
        i = i + 1;
    }
    let mut sizes: Vec<usize> = Vec::new();
    if greedy_count == 0 {
        let mut j: usize = 0;
        while j < count
            invariant
                j <= count,
                count == policies@.len(),
                count == natural@.len(),
                greedy_before(policies@, count as int) == 0,
                sizes@ == allotments(extent as nat, policies@, natural@).take(j as int),
            decreases count - j,
        {
            proof {
                lemma_greedy_before_grows(policies@, j + 1, count as int);
                let all = allotments(extent as nat, policies@, natural@);
                assert(all.take(j + 1) =~= all.take(j as int).push(natural@[j as int]));
            }
            sizes.push(natural[j]);
            j = j + 1;
        }
        proof {
            let all = allotments(extent as nat, policies@, natural@);
            assert(all.take(count as int) =~= all);
        }
        return Ok(sizes);
    }
    let greedy = greedy_sizes(remaining, greedy_count);
    let mut rank: usize = 0;
    let mut j: usize = 0;
    while j < count
        invariant
            j <= count,
            count == policies@.len(),
            count == natural@.len(),
            greedy_count == greedy_before(policies@, count as int),
            greedy_count > 0,
            remaining == extent - fixed_before(policies@, natural@, count as int),
            greedy@ == shares(remaining as nat, greedy_count as nat),
            rank == greedy_before(policies@, j as int),
            sizes@ == allotments(extent as nat, policies@, natural@).take(j as int),
        decreases count - j,
    {
        proof {
            lemma_greedy_before_grows(policies@, j + 1, count as int);
            lemma_share_bound(remaining as nat, greedy_count as nat, rank as nat);
        }
        let size = match policies[j] {
            GrowthPolicy::FixedSize => natural[j],
            GrowthPolicy::Greedy => {
                let size = greedy[rank];
                rank = rank + 1;
                size
            },
        };
        sizes.push(size);
        proof {
            let all = allotments(extent as nat, policies@, natural@);
            assert(all.take(j + 1) =~= all.take(j as int).push(size));
        }
        j = j + 1;
    }
    proof {
        let all = allotments(extent as nat, policies@, natural@);
        assert(all.take(count as int) =~= all);
    }
    Ok(sizes)
}

/// The fixed children among more children take no less.
pub proof fn lemma_fixed_before_grows(
    policies: Seq<GrowthPolicy>,
    natural: Seq<usize>,
    from: int,
    upto: int,
)
    requires
        0 <= from <= upto,
    ensures
        fixed_before(policies, natural, from) <= fixed_before(policies, natural, upto),
    decreases upto - from,
{
    if from < upto {
        lemma_fixed_before_grows(policies, natural, from, upto - 1);
    }
}

/// There are no fewer greedy children among more children.
pub proof fn lemma_greedy_before_grows(policies: Seq<GrowthPolicy>, from: int, upto: int)
    requires
        0 <= from <= upto,
    ensures
        greedy_before(policies, from) <= greedy_before(policies, upto),
    decreases upto - from,
{
    if from < upto {
        lemma_greedy_before_grows(policies, from, upto - 1);
    }
}

/// There are no more greedy children than children.
pub proof fn lemma_greedy_before_bound(policies: Seq<GrowthPolicy>, upto: int)
    requires
        0 <= upto,
    ensures
        greedy_before(policies, upto) <= upto,
    decreases upto,
{
    if upto > 0 {
        lemma_greedy_before_bound(policies, upto - 1);
    }
}

/// What the blocks hold.
pub open spec fn views<K, M>(blocks: Seq<TextBlock<K, M>>) -> Seq<BlockView<K, M>> {
    blocks.map_values(|block: TextBlock<K, M>| block@)
}

/// The blocks put one behind the other along `direction`, in their order.
pub open spec fn stacked<K, M>(direction: Direction, blocks: Seq<BlockView<K, M>>) -> BlockView<
    K,
    M,
>
    decreases blocks.len(),
{
    if blocks.len() <= 1 {
        blocks[0]
    } else {
        joined(direction, stacked(direction, blocks.drop_last()), blocks.last())
    }
}

/// Each of the blocks can be put behind those before it.
pub open spec fn stackable<K, M>(direction: Direction, blocks: Seq<BlockView<K, M>>) -> bool
    decreases blocks.len(),
{
    if blocks.len() <= 1 {
        true
    } else {
        stackable(direction, blocks.drop_last()) && can_join(
            direction,
            stacked(direction, blocks.drop_last()),
            blocks.last(),
        )
    }
}

/// The extents of the blocks along `direction`.
pub open spec fn extents_along<K, M>(direction: Direction, blocks: Seq<BlockView<K, M>>) -> Seq<
    usize,
> {
    blocks.map_values(|block: BlockView<K, M>| block.extent.along(direction))
}

/// Blocks that can be stacked are stackable without the last of them.
pub proof fn lemma_stackable_prefix<K, M>(
    direction: Direction,
    blocks: Seq<BlockView<K, M>>,
    upto: int,
)
    requires
        stackable(direction, blocks),
        0 <= upto <= blocks.len(),
    ensures
        stackable(direction, blocks.take(upto)),
    decreases blocks.len(),
{
    if upto == blocks.len() {
        assert(blocks.take(upto) =~= blocks);
    } else if blocks.len() > 1 {
        lemma_stackable_prefix(direction, blocks.drop_last(), upto);
        assert(blocks.drop_last().take(upto) =~= blocks.take(upto));
    } else {
        assert(blocks.take(upto).len() <= 1);
    }
}

/// A stack is as wide across the axis as its blocks, and as long along the
/// axis as all of them together.
pub proof fn lemma_stacked_extent<K, M>(direction: Direction, blocks: Seq<BlockView<K, M>>)
    requires
        blocks.len() > 0,
        stackable(direction, blocks),
    ensures
        stacked(direction, blocks).extent.across(direction) == blocks[0].extent.across(direction),
        stacked(direction, blocks).extent.along(direction) == sum(
            extents_along(direction, blocks),
        ),
    decreases blocks.len(),
{
    let sizes = extents_along(direction, blocks);
    if blocks.len() == 1 {
        assert(sizes.drop_last() =~= Seq::<usize>::empty());
        assert(sum(sizes.drop_last()) == 0);
    } else {
        lemma_stacked_extent(direction, blocks.drop_last());
        assert(sizes.drop_last() =~= extents_along(direction, blocks.drop_last()));
    }
}

/// Puts `blocks` one behind the other along `direction`, in their order.
/// Fails where there is no block, and where a block cannot be put behind
/// those before it.
pub fn stack<K, M>(direction: Direction, blocks: Vec<TextBlock<K, M>>) -> (stack: Result<
    TextBlock<K, M>,
    LayoutError,
>)
    requires
        forall|i: int| 0 <= i < blocks@.len() ==> (#[trigger] blocks@[i]).wf(),
    ensures
        blocks@.len() == 0 ==> stack == Err::<TextBlock<K, M>, LayoutError>(
            LayoutError::NoChildren,
        ),
        blocks@.len() > 0 && !stackable(direction, views(blocks@)) ==> stack == Err::<
            TextBlock<K, M>,
            LayoutError,
        >(LayoutError::Unjoinable),
        blocks@.len() > 0 && stackable(direction, views(blocks@)) ==> (stack matches Ok(block)
            && block.wf() && block@ == stacked(direction, views(blocks@))),
{
    let ghost all = views(blocks@);
    let mut acc: Option<TextBlock<K, M>> = None;
    proof {
        assert(all.take(0).len() == 0);
    }
    for block in it: blocks
        invariant
            it.seq() == blocks@,
            all == views(blocks@),
            forall|i: int| 0 <= i < blocks@.len() ==> (#[trigger] blocks@[i]).wf(),
            acc is Some <==> it.index() > 0,
            stackable(direction, all.take(it.index() as int)),
            acc matches Some(so_far) ==> so_far.wf() && so_far@ == stacked(
                direction,
                all.take(it.index() as int),
            ),
    {
        let ghost k = it.index() as int;
        proof {
            assert(blocks@[k].wf());
            assert(all[k] == block@);
            assert(all.take(k + 1).drop_last() =~= all.take(k));
            assert(all.take(k + 1).last() == block@);
        }
        match acc {
            None => {
                acc = Some(block);
            },
            Some(so_far) => {
                if !so_far.can_concat(direction, &block) {
                    proof {
                        if stackable(direction, all) {
                            lemma_stackable_prefix(direction, all, k + 1);
                        }
                    }
                    return Err(LayoutError::Unjoinable);
                }
                acc = Some(so_far.concat_dir(direction, block));
            },
        }
    }
    proof {
        assert(all.take(blocks@.len() as int) =~= all);
    }
    match acc {
        Some(block) => Ok(block),
        None => Err(LayoutError::NoChildren),
    }
}

/// The policies along `direction`.
pub open spec fn along_axis(direction: Direction, policies: Seq<FullGrowthPolicy>) -> Seq<
    GrowthPolicy,
> {
    policies.map_values(|policy: FullGrowthPolicy| policy.along(direction))
}

/// The sizes that the fixed ones among `blocks` have along `direction`;
/// for a greedy one, nothing.
pub open spec fn naturals<K, M>(
    direction: Direction,
    policies: Seq<GrowthPolicy>,
    blocks: Seq<TextBlock<K, M>>,
) -> Seq<usize> {
    Seq::new(
        policies.len(),
        |i: int|
            if policies[i] == GrowthPolicy::FixedSize {
                blocks[i].extent().along(direction)
            } else {
                0usize
            },
    )
}

/// Children side by side or one below the other. Along its axis a child
/// either keeps the size that it renders itself at or takes a share of what
/// such children leave; across the axis every child spans the layout.
#[verifier::reject_recursive_types(K)]
#[verifier::reject_recursive_types(M)]
pub struct Linear<'a, K, M> {
    widgets: Vec<&'a dyn Widget<K, M>>,
    direction: Direction,
}

impl<'a, K, M> Linear<'a, K, M> {
    /// The axis of the layout.
    pub closed spec fn axis(&self) -> Direction {
        self.direction
    }

    /// The number of children.
    pub open spec fn child_count(&self) -> nat {
        self.children().len()
    }

    pub fn new(direction: Direction, widgets: Vec<&'a dyn Widget<K, M>>) -> (layout: Self)
        ensures
            layout.axis() == direction,
            layout.children() == widgets@,
    {
        Self { direction, widgets }
    }

    /// A layout of children side by side.
    pub fn hbox(widgets: Vec<&'a dyn Widget<K, M>>) -> (layout: Self)
        ensures
            layout.axis() == Direction::Horizontal,
            layout.children() == widgets@,
    {
        Self::new(Direction::Horizontal, widgets)
    }

    /// A layout of children one below the other.
    pub fn vbox(widgets: Vec<&'a dyn Widget<K, M>>) -> (layout: Self)
        ensures
            layout.axis() == Direction::Vertical,
            layout.children() == widgets@,
    {
        Self::new(Direction::Vertical, widgets)
    }

    /// The children, in their order.
    pub closed spec fn children(&self) -> Seq<&'a dyn Widget<K, M>> {
        self.widgets@
    }

    /// The bound that child `i` renders under: a fixed child is free along
    /// the axis, a greedy child is held to its allotment of the extent that
    /// `bound` gives along the axis. Across the axis both are held to
    /// `bound`.
    pub open spec fn child_bound(
        &self,
        bound: RenderBound,
        policies: Seq<GrowthPolicy>,
        natural: Seq<usize>,
        i: int,
    ) -> RenderBound {
        if policies[i] == GrowthPolicy::FixedSize {
            bound.with_along(self.axis(), None)
        } else {
            bound.with_along(
                self.axis(),
                Some(allotments(bound.along(self.axis())->0 as nat, policies, natural)[i]),
            )
        }
    }

    /// Child `i` shows `part` in a context with the bound `bound`, and
    /// `part` keeps that bound.
    pub open spec fn child_shows(&self, i: int, bound: RenderBound, part: TextBlock<K, M>) -> bool {
        &&& part.wf()
        &&& bound.admits(part.extent())
        &&& exists|ctx: RenderContext|
            ctx.bounds() == bound && #[trigger] self.children()[i].shows(
                ctx,
                Ok::<TextBlock<K, M>, LayoutError>(part),
            )
    }

    /// Child `i` shows in a context with the bound `bound` what is taken
    /// for the error `error`: it fails with it, or its block misses the
    /// bound, as [`sized`] says.
    pub open spec fn child_fails(&self, i: int, bound: RenderBound, error: LayoutError) -> bool {
        exists|ctx: RenderContext, shown: Result<TextBlock<K, M>, LayoutError>|
            ctx.bounds() == bound && #[trigger] self.children()[i].shows(ctx, shown) && sized(
                bound,
                shown,
            ) == Err::<TextBlock<K, M>, LayoutError>(error)
    }

    /// How far the layout has come under `bound`: the first `asked`
    /// children gave the policies `policies`, and of the first `fixed`
    /// children the fixed ones, and of the first `greedy` children the
    /// greedy ones, show the blocks `parts`, each under its bound.
    pub open spec fn shown_upto(
        &self,
        bound: RenderBound,
        policies: Seq<FullGrowthPolicy>,
        parts: Seq<TextBlock<K, M>>,
        asked: int,
        fixed: int,
        greedy: int,
    ) -> bool {
        let along = along_axis(self.axis(), policies);
        let natural = naturals(self.axis(), along, parts);
        &&& fixed <= asked <= policies.len() <= self.child_count()
        &&& greedy <= fixed <= parts.len() <= self.child_count()
        &&& forall|i: int| 0 <= i < asked ==> #[trigger] self.children()[i].grows(policies[i])
        &&& forall|i: int|
            0 <= i < fixed && along[i] == GrowthPolicy::FixedSize ==> self.child_shows(
                i,
                bound.with_along(self.axis(), None),
                #[trigger] parts[i],
            )
        &&& forall|i: int|
            0 <= i < greedy && along[i] == GrowthPolicy::Greedy ==> self.child_shows(
                i,
                self.child_bound(bound, along, natural, i),
                #[trigger] parts[i],
            )
    }

    /// `view` is what the layout shows under `bound` where its children
    /// gave the policies `policies` and show the blocks `parts`: every
    /// child gave its policy and shows its block under its bound, the fixed
    /// children fit into the extent, and `view` is these blocks stacked
    /// along the axis in the order of the children. It fills the extent
    /// where a child is greedy, else it is as long as the children are
    /// together.
    pub open spec fn stacks(
        &self,
        bound: RenderBound,
        policies: Seq<FullGrowthPolicy>,
        parts: Seq<TextBlock<K, M>>,
        view: BlockView<K, M>,
    ) -> bool {
        let count = self.child_count() as int;
        let along = along_axis(self.axis(), policies);
        let natural = naturals(self.axis(), along, parts);
        &&& policies.len() == count
        &&& parts.len() == count
        &&& self.shown_upto(bound, policies, parts, count, count, count)
        &&& bound.along(self.axis()) matches Some(extent) && fixed_before(along, natural, count)
            <= extent && view.extent.along(self.axis()) == if greedy_before(along, count) > 0 {
            extent as nat
        } else {
            fixed_before(along, natural, count)
        }
        &&& stackable(self.axis(), views(parts))
        &&& view == stacked(self.axis(), views(parts))
    }

    /// Why the layout fails with `error` under `bound` once it looks at
    /// its children, which gave the policies `policies` and show the blocks
    /// `parts` as far as they were asked. Either child `k` fails, or shows
    /// a block that misses its bound: a fixed child after the fixed
    /// children before it have rendered, a greedy child after all fixed
    /// children and the greedy children before it have. Or, with `k` the
    /// number of children, the fixed children take more than the extent,
    /// which is `OutOfSpace`; or the blocks of all children cannot be
    /// stacked, which is `Unjoinable`.
    pub open spec fn fails_at(
        &self,
        bound: RenderBound,
        policies: Seq<FullGrowthPolicy>,
        parts: Seq<TextBlock<K, M>>,
        k: int,
        error: LayoutError,
    ) -> bool {
        let count = self.child_count() as int;
        let along = along_axis(self.axis(), policies);
        let natural = naturals(self.axis(), along, parts);
        let extent = bound.along(self.axis())->0;
        let fits = fixed_before(along, natural, count) <= extent;
        let whole = policies.len() == count && parts.len() == count;
        ||| {
            &&& 0 <= k < count
            &&& self.shown_upto(bound, policies, parts, k + 1, k, 0)
            &&& along[k] == GrowthPolicy::FixedSize
            &&& self.child_fails(k, bound.with_along(self.axis(), None), error)
        }
        ||| {
            &&& k == count
            &&& whole
            &&& self.shown_upto(bound, policies, parts, count, count, 0)
            &&& !fits
            &&& error == LayoutError::OutOfSpace
        }
        ||| {
            &&& 0 <= k < count
            &&& whole
            &&& self.shown_upto(bound, policies, parts, count, count, k)
            &&& fits
            &&& along[k] == GrowthPolicy::Greedy
            &&& self.child_fails(k, self.child_bound(bound, along, natural, k), error)
        }
        ||| {
            &&& k == count
            &&& whole
            &&& self.shown_upto(bound, policies, parts, count, count, count)
            &&& fits
            &&& !stackable(self.axis(), views(parts))
            &&& error == LayoutError::Unjoinable
        }
    }

    /// `rendered` is what the layout gives under `bound`. A bound that is
    /// missing and a layout without children are refused as
    /// [`Self::refusal`] says. Else the children are asked: a block is
    /// their blocks stacked, as [`Self::stacks`] says, and an error has one
    /// of the reasons of [`Self::fails_at`].
    pub open spec fn lays_out(
        &self,
        bound: RenderBound,
        rendered: Result<TextBlock<K, M>, LayoutError>,
    ) -> bool {
        &&& self.refusal(bound) matches Some(error) ==> rendered == Err::<
            TextBlock<K, M>,
            LayoutError,
        >(error)
        &&& rendered matches Ok(block) ==> {
            &&& block.wf()
            &&& Some(block.extent().across(self.axis())) == bound.across(self.axis())
            &&& exists|policies: Seq<FullGrowthPolicy>, parts: Seq<TextBlock<K, M>>| #[trigger]
                self.stacks(bound, policies, parts, block@)
        }
        &&& rendered matches Err(error) ==> self.refusal(bound) == Some(error) || exists|
            policies: Seq<FullGrowthPolicy>,
            parts: Seq<TextBlock<K, M>>,
            k: int,
        | #[trigger] self.fails_at(bound, policies, parts, k, error)
    }

    /// A block that comes of rendering child `i` under `bound` and holding
    /// it to `bound` is one that the child shows under it.
    pub proof fn lemma_child_shows(&self, i: int, bound: RenderBound, block: TextBlock<K, M>)
        requires
            block.wf(),
            bound.admits(block.extent()),
            exists|ctx: RenderContext, shown: Result<TextBlock<K, M>, LayoutError>|
                ctx.bounds() == bound && #[trigger] self.children()[i].shows(ctx, shown) && Ok::<
                    TextBlock<K, M>,
                    LayoutError,
                >(block) == sized(bound, shown),
        ensures
            self.child_shows(i, bound, block),
    {
        let (ctx, shown) = choose|ctx: RenderContext, shown: Result<TextBlock<K, M>, LayoutError>|
            ctx.bounds() == bound && #[trigger] self.children()[i].shows(ctx, shown) && Ok::<
                TextBlock<K, M>,
                LayoutError,
            >(block) == sized(bound, shown);
        assert(shown == Ok::<TextBlock<K, M>, LayoutError>(block));
        assert(self.children()[i].shows(ctx, Ok::<TextBlock<K, M>, LayoutError>(block)));
    }

    /// A layout fills its bound along the axis where a child is greedy:
    /// where child `i` gives no policy but a greedy one along the axis,
    /// every block that the layout gives is as long as the bound.
    pub proof fn lemma_fills_where_greedy(
        &self,
        bound: RenderBound,
        rendered: Result<TextBlock<K, M>, LayoutError>,
        i: int,
    )
        requires
            self.lays_out(bound, rendered),
            0 <= i < self.child_count(),
            forall|policy: FullGrowthPolicy| #[trigger]
                self.children()[i].grows(policy) ==> policy.along(self.axis())
                    == GrowthPolicy::Greedy,
        ensures
            rendered matches Ok(block) ==> Some(block.extent().along(self.axis()))
                == bound.along(self.axis()) && Some(block.extent().across(self.axis()))
                == bound.across(self.axis()),
    {
        if let Ok(block) = rendered {
            let (policies, parts) = choose|
                policies: Seq<FullGrowthPolicy>,
                parts: Seq<TextBlock<K, M>>,
            | #[trigger] self.stacks(bound, policies, parts, block@);
            let along = along_axis(self.axis(), policies);
            assert(self.children()[i].grows(policies[i]));
            assert(along[i] == GrowthPolicy::Greedy);
            lemma_greedy_before_grows(along, i + 1, self.child_count() as int);
            assert(greedy_before(along, i + 1) > 0);
        }
    }

    /// A layout whose children neither fail nor miss their bounds, and
    /// whose fixed children fit into the extent, gives a block, if the
    /// blocks of its children can be stacked.
    pub proof fn lemma_gives_block(
        &self,
        bound: RenderBound,
        rendered: Result<TextBlock<K, M>, LayoutError>,
    )
        requires
            self.lays_out(bound, rendered),
            self.refusal(bound) is None,
            forall|i: int, under: RenderBound, error: LayoutError|
                0 <= i < self.child_count() ==> !#[trigger] self.child_fails(i, under, error),
            forall|policies: Seq<FullGrowthPolicy>, parts: Seq<TextBlock<K, M>>| #[trigger]
                self.shown_upto(
                    bound,
                    policies,
                    parts,
                    self.child_count() as int,
                    self.child_count() as int,
                    0,
                ) && policies.len() == self.child_count() && parts.len() == self.child_count()
                    ==> fixed_before(
                    along_axis(self.axis(), policies),
                    naturals(self.axis(), along_axis(self.axis(), policies), parts),
                    self.child_count() as int,
                ) <= bound.along(self.axis())->0,
            forall|policies: Seq<FullGrowthPolicy>, parts: Seq<TextBlock<K, M>>| #[trigger]
                self.shown_upto(
                    bound,
                    policies,
                    parts,
                    self.child_count() as int,
                    self.child_count() as int,
                    self.child_count() as int,
                ) && policies.len() == self.child_count() && parts.len() == self.child_count()
                    ==> stackable(self.axis(), views(parts)),
        ensures
            rendered is Ok,
    {
        if let Err(error) = rendered {
            let (policies, parts, k) = choose|
                policies: Seq<FullGrowthPolicy>,
                parts: Seq<TextBlock<K, M>>,
                k: int,
            | #[trigger] self.fails_at(bound, policies, parts, k, error);
            assert(self.fails_at(bound, policies, parts, k, error));
        }
    }

    /// What the layout answers before it looks at a child: the error for a
    /// bound that is missing, along the axis first, or for a layout without
    /// children.
    pub open spec fn refusal(&self, bound: RenderBound) -> Option<LayoutError> {
        if bound.along(self.axis()) is None {
            Some(LayoutError::Unconstrained(self.axis()))
        } else if bound.across(self.axis()) is None {
            Some(LayoutError::Unconstrained(self.axis().flipped()))
        } else if self.child_count() == 0 {
            Some(LayoutError::NoChildren)
        } else {
            None
        }
    }
}

impl<'a, K, M> Widget<K, M> for Linear<'a, K, M> {
    /// What a layout shows: what [`Linear::lays_out`] says.
    open spec fn shows(
        &self,
        ctx: RenderContext,
        rendered: Result<TextBlock<K, M>, LayoutError>,
    ) -> bool {
        self.lays_out(ctx.bounds(), rendered)
    }

    fn name(&self) -> (name: Option<Name>)
        ensures
            name is None,
    {
        None
    }

    /// Lays the children out in a bound that is given on both axes. The
    /// fixed children render first, each free along the axis; what they
    /// leave of the bound is divided among the greedy children as
    /// [`allot`] says, and each of those renders under its share as a hard
    /// bound. The blocks are then stacked in the order of the children, as
    /// [`stack`] says.
    ///
    /// The block spans the bound across the axis. Along the axis it fills
    /// the bound where a child is greedy; else it is as long as the
    /// children are together.
    #[verifier::rlimit(100)]
    fn render(&self, ctx: RenderContext) -> (rendered: Result<TextBlock<K, M>, LayoutError>)
        ensures
            self.lays_out(ctx.bounds(), rendered),
            rendered matches Ok(block) ==> ctx.bounds().along(self.axis()) matches Some(extent)
                && block.extent().along(self.axis()) <= extent,
    {
        let dir = self.direction;
        let extent = match ctx.bound().in_direction(dir) {
            Some(extent) => extent,
            None => {
                return Err(LayoutError::Unconstrained(dir));
            },
        };
        let cross = match ctx.bound().against_direction(dir) {
            Some(cross) => cross,
            None => {
                return Err(LayoutError::Unconstrained(dir.against()));
            },
        };
        let count = self.widgets.len();
        if count == 0 {
            return Err(LayoutError::NoChildren);
        }
        let free_bound = ctx.bound().free_direction(dir);
        let ghost whole = ctx.bounds();
        let ghost mut full: Seq<FullGrowthPolicy> = Seq::empty();
        let ghost mut parts: Seq<TextBlock<K, M>> = Seq::empty();
        let mut policies: Vec<GrowthPolicy> = Vec::new();
        let mut natural: Vec<usize> = Vec::new();
        let mut slots: Vec<Option<TextBlock<K, M>>> = Vec::new();
        let mut i: usize = 0;
        proof {
            assert(policies@ =~= along_axis(dir, full));
            assert(natural@ =~= naturals(dir, policies@, parts));
        }
        while i < count
            invariant
                i <= count,
                count == self.widgets@.len(),
                dir == self.axis(),
                whole == ctx.bounds(),
                whole.along(dir) == Some(extent),
                self.refusal(whole) is None,
                free_bound == whole.with_along(dir, None),
                free_bound.across(dir) == Some(cross),
                free_bound.along(dir) is None,
                policies@.len() == i,
                natural@.len() == i,
                slots@.len() == i,
                full.len() == i,
                parts.len() == i,
                policies@ == along_axis(dir, full),
                natural@ == naturals(dir, policies@, parts),
                self.shown_upto(whole, full, parts, i as int, i as int, 0),
                forall|k: int|
                    0 <= k < i ==> (#[trigger] slots@[k] is Some <==> policies@[k]
                        == GrowthPolicy::FixedSize),
                forall|k: int|
                    0 <= k < i ==> (#[trigger] slots@[k] matches Some(block) ==> block.wf()
                        && block.extent().across(dir) == cross && block.extent().along(dir)
                        == natural@[k] && block == parts[k]),
            decreases count - i,
        {
            let widget = self.widgets[i];
            let full_policy = widget.growth_policy();
            let policy = full_policy.in_direction(dir);
            let ghost asked = full.push(full_policy);
            proof {
                assert(widget == self.children()[i as int]);
                assert(along_axis(dir, asked) =~= policies@.push(policy));
            }
            policies.push(policy);
            match policy {
                GrowthPolicy::FixedSize => {
                    match ctx.render_sized(free_bound, widget) {
                        Ok(block) => {
                            proof {
                                self.lemma_child_shows(i as int, free_bound, block);
                                let shown = parts.push(block);
                                assert(naturals(dir, policies@, shown) =~= natural@.push(
                                    block.extent().along(dir),
                                ));
                                assert forall|k: int|
                                    0 <= k < i + 1 && along_axis(dir, asked)[k]
                                        == GrowthPolicy::FixedSize implies self.child_shows(
                                    k,
                                    whole.with_along(self.axis(), None),
                                    #[trigger] shown[k],
                                ) by {
                                    if k < i {
                                        assert(shown[k] == parts[k]);
                                        assert(along_axis(dir, full)[k] == along_axis(dir, asked)[k]);
                                    }
                                }
                                assert forall|k: int| 0 <= k < i + 1 implies #[trigger] self.children()[k].grows(asked[k]) by {
                                    if k < i {
                                        assert(asked[k] == full[k]);
                                    }
                                }
                                parts = shown;
                            }
                            natural.push(block.size().in_direction(dir));
                            slots.push(Some(block));
                        },
                        Err(error) => {
                            proof {
                                assert forall|k: int|
                                    0 <= k < i && along_axis(dir, asked)[k]
                                        == GrowthPolicy::FixedSize implies self.child_shows(
                                    k,
                                    whole.with_along(self.axis(), None),
                                    #[trigger] parts[k],
                                ) by {
                                    assert(along_axis(dir, full)[k] == along_axis(dir, asked)[k]);
                                }
                                assert forall|k: int| 0 <= k < i + 1 implies #[trigger] self.children()[k].grows(asked[k]) by {
                                    if k < i {
                                        assert(asked[k] == full[k]);
                                    }
                                }
                                assert(self.child_fails(i as int, free_bound, error));
                                assert(self.shown_upto(whole, asked, parts, i + 1, i as int, 0));
                                assert(self.fails_at(whole, asked, parts, i as int, error));
                            }
                            return Err(error);
                        },
                    }
                },
                GrowthPolicy::Greedy => {
                    proof {
                        let shown = parts.push(arbitrary());
                        assert(naturals(dir, policies@, shown) =~= natural@.push(0usize));
                        assert forall|k: int|
                            0 <= k < i + 1 && along_axis(dir, asked)[k]
                                == GrowthPolicy::FixedSize implies self.child_shows(
                            k,
                            whole.with_along(self.axis(), None),
                            #[trigger] shown[k],
                        ) by {
                            if k < i {
                                assert(shown[k] == parts[k]);
                                assert(along_axis(dir, full)[k] == along_axis(dir, asked)[k]);
                            }
                        }
                        assert forall|k: int| 0 <= k < i + 1 implies #[trigger] self.children()[k].grows(
                            asked[k],
                        ) by {
                            if k < i {
                                assert(asked[k] == full[k]);
                            }
                        }
                        parts = shown;
                    }
                    natural.push(0);
                    slots.push(None);
                },
            }
            proof {
                full = asked;
            }
            i = i + 1;
        }
        let sizes = match allot(extent, &policies, &natural) {
            Ok(sizes) => sizes,
            Err(error) => {
                proof {
                    assert(self.fails_at(whole, full, parts, count as int, error));
                }
                return Err(error);
            },
        };
        let ghost given = slots@;
        let mut blocks: Vec<TextBlock<K, M>> = Vec::new();
        let mut j: usize = 0;
        for slot in it: slots
            invariant
                j == it.index(),
                it.seq() == given,
                given.len() == count,
                count == self.widgets@.len(),
                dir == self.axis(),
                whole == ctx.bounds(),
                whole.along(dir) == Some(extent),
                self.refusal(whole) is None,
                free_bound == whole.with_along(dir, None),
                free_bound.across(dir) == Some(cross),
                policies@.len() == count,
                natural@.len() == count,
                full.len() == count,
                parts.len() == count,
                policies@ == along_axis(dir, full),
                natural@ == naturals(dir, policies@, parts),
                sizes@ == allotments(extent as nat, policies@, natural@),
                fixed_before(policies@, natural@, count as int) <= extent,
                self.shown_upto(whole, full, parts, count as int, count as int, j as int),
                forall|k: int|
                    0 <= k < count ==> (#[trigger] given[k] is Some <==> policies@[k]
                        == GrowthPolicy::FixedSize),
                forall|k: int|
                    0 <= k < count ==> (#[trigger] given[k] matches Some(block) ==> block.wf()
                        && block.extent().across(dir) == cross && block.extent().along(dir)
                        == natural@[k] && block == parts[k]),
                blocks@.len() == j,
                forall|k: int|
                    0 <= k < j ==> (#[trigger] blocks@[k]).wf() && blocks@[k].extent().across(dir)
                        == cross && blocks@[k].extent().along(dir) == sizes@[k] && blocks@[k]
                        == parts[k],
        {
            proof {
                assert(given[j as int] is Some <==> policies@[j as int]
                    == GrowthPolicy::FixedSize);
                lemma_allotment_bound(extent as nat, policies@, natural@, j as int);
            }
            match slot {
                Some(block) => {
                    blocks.push(block);
                },
                None => {
                    let bound = free_bound.constrain_direction(dir, sizes[j]);
                    proof {
                        assert(bound == self.child_bound(whole, policies@, natural@, j as int));
                    }
                    match ctx.render_sized(bound, self.widgets[j]) {
                        Ok(block) => {
                            proof {
                                self.lemma_child_shows(j as int, bound, block);
                                let shown = parts.update(j as int, block);
                                assert(naturals(dir, policies@, shown) =~= natural@);
                                assert forall|k: int|
                                    0 <= k < count && policies@[k]
                                        == GrowthPolicy::FixedSize implies self.child_shows(
                                    k,
                                    whole.with_along(self.axis(), None),
                                    #[trigger] shown[k],
                                ) by {
                                    assert(shown[k] == parts[k]);
                                }
                                assert forall|k: int|
                                    0 <= k < j + 1 && policies@[k]
                                        == GrowthPolicy::Greedy implies self.child_shows(
                                    k,
                                    self.child_bound(whole, policies@, natural@, k),
                                    #[trigger] shown[k],
                                ) by {
                                    if k < j {
                                        assert(shown[k] == parts[k]);
                                    }
                                }
                                assert forall|k: int|
                                    0 <= k < count implies (#[trigger] given[k] matches Some(
                                    block,
                                ) ==> block == shown[k]) by {
                                    if k != j {
                                        assert(shown[k] == parts[k]);
                                    }
                                }
                                assert forall|k: int| 0 <= k < j implies #[trigger] blocks@[k]
                                    == shown[k] by {
                                    assert(shown[k] == parts[k]);
                                }
                                parts = shown;
                            }
                            blocks.push(block);
                        },
                        Err(error) => {
                            proof {
                                assert(self.child_fails(j as int, bound, error));
                                assert(self.fails_at(whole, full, parts, j as int, error));
                            }
                            return Err(error);
                        },
                    }
                },
            }
            j = j + 1;
        }
        let ghost views = views(blocks@);
        proof {
            assert(blocks@ =~= parts);
        }
        match stack(dir, blocks) {
            Ok(block) => {
                proof {
                    lemma_stacked_extent(dir, views);
                    assert(extents_along(dir, views) =~= sizes@);
                    lemma_allotments_sum(extent as nat, policies@, natural@);
                    assert(views[0] == parts[0]@);
                    assert(self.stacks(whole, full, parts, block@));
                }
                Ok(block)
            },
            Err(error) => {
                proof {
                    assert(self.fails_at(whole, full, parts, count as int, error));
                }
                Err(error)
            },
        }
    }

    fn widget_type(&self) -> (kind: &'static str)
        ensures
            kind == "Linear",
    {
        "Linear"
    }

    fn growth_policy(&self) -> FullGrowthPolicy
        returns
            (FullGrowthPolicy {
                width: crate::GrowthPolicy::Greedy,
                height: crate::GrowthPolicy::Greedy,
            }),
    {
        FullGrowthPolicy::default()
    }

    open spec fn grows(&self, policy: FullGrowthPolicy) -> bool {
        policy == (FullGrowthPolicy {
            width: crate::GrowthPolicy::Greedy,
            height: crate::GrowthPolicy::Greedy,
        })
    }
}

/// An allotment is no more than the extent of the layout, where the fixed
/// children fit into it.
pub proof fn lemma_allotment_bound(
    extent: nat,
    policies: Seq<GrowthPolicy>,
    natural: Seq<usize>,
    i: int,
)
    requires
        0 <= i < policies.len(),
        policies.len() == natural.len(),
        fixed_before(policies, natural, policies.len() as int) <= extent,
    ensures
        allotment(extent, policies, natural, i) <= if policies[i] == GrowthPolicy::FixedSize {
            natural[i] as nat
        } else {
            extent
        },
        policies[i] == GrowthPolicy::Greedy ==> greedy_before(policies, i) < greedy_before(
            policies,
            policies.len() as int,
        ),
{
    if policies[i] == GrowthPolicy::Greedy {
        lemma_greedy_before_grows(policies, i + 1, policies.len() as int);
        let left = (extent - fixed_before(policies, natural, policies.len() as int)) as nat;
        lemma_share_bound(
            left,
            greedy_before(policies, policies.len() as int),
            greedy_before(policies, i),
        );
    }
}

/// The first `upto` allotments add up to what the fixed children among
/// them take and the shares of the greedy children among them.
pub proof fn lemma_allotments_prefix(
    extent: nat,
    policies: Seq<GrowthPolicy>,
    natural: Seq<usize>,
    upto: int,
)
    requires
        policies.len() == natural.len(),
        0 <= upto <= policies.len(),
        extent <= usize::MAX,
        fixed_before(policies, natural, policies.len() as int) <= extent,
    ensures
        sum(allotments(extent, policies, natural).take(upto)) == fixed_before(
            policies,
            natural,
            upto,
        ) + sum(
            shares(
                (extent - fixed_before(policies, natural, policies.len() as int)) as nat,
                greedy_before(policies, policies.len() as int),
            ).take(greedy_before(policies, upto) as int),
        ),
    decreases upto,
{
    let all = allotments(extent, policies, natural);
    let left = (extent - fixed_before(policies, natural, policies.len() as int)) as nat;
    let greedy = greedy_before(policies, policies.len() as int);
    let parts = shares(left, greedy);
    if upto == 0 {
        assert(all.take(0) =~= Seq::<usize>::empty());
        assert(parts.take(0) =~= Seq::<usize>::empty());
    } else {
        lemma_allotments_prefix(extent, policies, natural, upto - 1);
        lemma_allotment_bound(extent, policies, natural, upto - 1);
        assert(all.take(upto).drop_last() =~= all.take(upto - 1));
        assert(all.take(upto).last() == all[upto - 1]);
        if policies[upto - 1] == GrowthPolicy::Greedy {
            let rank = greedy_before(policies, upto - 1) as int;
            assert(parts.take(rank + 1).drop_last() =~= parts.take(rank));
            assert(parts.take(rank + 1).last() == parts[rank]);
        }
    }
}

/// Where a child is greedy, the sizes of
/// the children add up to the extent of the layout; where none is, to what
/// the fixed children take.
pub proof fn lemma_allotments_sum(extent: nat, policies: Seq<GrowthPolicy>, natural: Seq<usize>)
    requires
        policies.len() == natural.len(),
        extent <= usize::MAX,
        fixed_before(policies, natural, policies.len() as int) <= extent,
    ensures
        sum(allotments(extent, policies, natural)) == if greedy_before(
            policies,
            policies.len() as int,
        ) > 0 {
            extent
        } else {
            fixed_before(policies, natural, policies.len() as int)
        },
{
    let all = allotments(extent, policies, natural);
    let n = policies.len() as int;
    let left = (extent - fixed_before(policies, natural, n)) as nat;
    let greedy = greedy_before(policies, n);
    let parts = shares(left, greedy);
    lemma_allotments_prefix(extent, policies, natural, n);
    assert(all.take(n) =~= all);
    if greedy > 0 {
        lemma_shares_sum(left, greedy);
        assert(parts.take(greedy as int) =~= parts);
    } else {
        assert(parts.take(0) =~= Seq::<usize>::empty());
    }
}

} // verus!
