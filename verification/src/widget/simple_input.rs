//! A one-line input.

use vstd::prelude::*;
use crate::chars::string_of;
use crate::input::Key;
use crate::ir::block::{bounded_width, clipped_row};
use crate::ir::TextBlock;
use crate::widget::{LayoutError, RenderContext, ShouldPropagate, Widget};
use crate::{FullGrowthPolicy, Name, Pos};

verus! {

/// What an input tells its listeners.
pub enum SimpleInputEvent<'a> {
    /// The line of the input `name` was entered.
    Submitted { name: &'a Name, line: &'a str },
}

/// Those of `listeners` that `keep` marks, in their order.
pub open spec fn kept<L>(listeners: Seq<L>, keep: Seq<bool>) -> Seq<L>
    decreases listeners.len(),
{
    if listeners.len() == 0 {
        Seq::empty()
    } else if keep.last() {
        kept(listeners.drop_last(), keep.drop_last()).push(listeners.last())
    } else {
        kept(listeners.drop_last(), keep.drop_last())
    }
}

/// `event` says that `line` was entered into the input `name`.
pub open spec fn is_submission(event: SimpleInputEvent<'_>, name: Name, line: Seq<char>) -> bool {
    event matches SimpleInputEvent::Submitted { name: by, line: text } && *by == name && text@
        == line
}

/// The line was entered, every listener was told, in the order of the
/// listeners, and those stay that answered `true`.
pub open spec fn told<L, F: Fn(&L, &SimpleInputEvent<'_>) -> bool>(
    notify: F,
    name: Name,
    line: Seq<char>,
    before: Seq<L>,
    after: Seq<L>,
) -> bool {
    exists|keep: Seq<bool>|
        #![auto]
        keep.len() == before.len() && after == kept(before, keep) && forall|i: int|
            0 <= i < before.len() ==> exists|event: SimpleInputEvent<'_>|
                is_submission(event, name, line) && call_ensures(
                    notify,
                    (&before[i], &event),
                    #[trigger] keep[i],
                )
}

/// The state of a one-line input: the text, the place of the cursor in it,
/// and who listens for the line when it is entered.
pub struct SimpleInputInner<L> {
    name: Name,
    line: Vec<char>,
    index: usize,
    listeners: Vec<L>,
}

impl<L> SimpleInputInner<L> {
    /// The name of the input.
    pub closed spec fn owner(&self) -> Name {
        self.name
    }

    /// The text typed so far.
    pub closed spec fn text(&self) -> Seq<char> {
        self.line@
    }

    /// The number of characters before the cursor.
    pub closed spec fn cursor(&self) -> nat {
        self.index as nat
    }

    /// The listeners, in the order in which they were added.
    pub closed spec fn audience(&self) -> Seq<L> {
        self.listeners@
    }

    /// The cursor stands within the text or at its end.
    pub open spec fn wf(&self) -> bool {
        self.cursor() <= self.text().len()
    }

    /// An empty input without listeners.
    pub fn new(name: Name) -> (inner: Self)
        ensures
            inner.wf(),
            inner.owner() == name,
            inner.text() == Seq::<char>::empty(),
            inner.cursor() == 0,
            inner.audience() == Seq::<L>::empty(),
    {
        let line = Vec::new();
        let index: usize = 0;
        let listeners = Vec::new();
        SimpleInputInner { name, line, index, listeners }
    }

    /// Adds a listener behind those that the input has.
    pub fn add_listener(&mut self, l: L)
        ensures
            final(self).audience() == old(self).audience().push(l),
            final(self).owner() == old(self).owner(),
            final(self).text() == old(self).text(),
            final(self).cursor() == old(self).cursor(),
    {
        self.listeners.push(l)
    }

    /// Enters the line: the input is left empty, every listener is told,
    /// which `notify` does for one at a time, and a listener that answers
    /// `false` is told no more.
    pub fn submit<F: Fn(&L, &SimpleInputEvent<'_>) -> bool>(&mut self, notify: &F)
        requires
            forall|listener: &L, event: &SimpleInputEvent<'_>|
                call_requires(*notify, (listener, event)),
        ensures
            final(self).wf(),
            final(self).owner() == old(self).owner(),
            final(self).text() == Seq::<char>::empty(),
            final(self).cursor() == 0,
            told(
                *notify,
                old(self).owner(),
                old(self).text(),
                old(self).audience(),
                final(self).audience(),
            ),
    {
        self.index = 0;
        let line = string_of(&self.line, 0, self.line.len());
        proof {
            assert(line@ =~= self.line@);
        }
        self.line.clear();
        let name = self.name;
        let mut listeners: Vec<L> = Vec::new();
        std::mem::swap(&mut listeners, &mut self.listeners);
        let ghost before = listeners@;
        let ghost mut keep: Seq<bool> = Seq::empty();
        let mut staying: Vec<L> = Vec::new();
        proof {
            assert(before.take(0) =~= Seq::<L>::empty());
        }
        for listener in it: listeners
            invariant
                it.seq() == before,
                forall|listener: &L, event: &SimpleInputEvent<'_>|
                    call_requires(*notify, (listener, event)),
                keep.len() == it.index(),
                staying@ == kept(before.take(it.index() as int), keep),
                forall|i: int|
                    0 <= i < keep.len() ==> exists|event: SimpleInputEvent<'_>|
                        is_submission(event, name, line@) && call_ensures(
                            *notify,
                            (&before[i], &event),
                            #[trigger] keep[i],
                        ),
        {
            let ghost k = it.index() as int;
            let event = SimpleInputEvent::Submitted { name: &name, line: line.as_str() };
            let stays = notify(&listener, &event);
            proof {
                assert(is_submission(event, name, line@));
                assert(before.take(k + 1).drop_last() =~= before.take(k));
                assert(before.take(k + 1).last() == listener);
                assert(keep.push(stays).drop_last() =~= keep);
                keep = keep.push(stays);
            }
            if stays {
                staying.push(listener);
            }
        }
        proof {
            assert(before.take(before.len() as int) =~= before);
        }
        self.listeners = staying;
    }

    /// What a key does to an input: a line feed enters the line, any other
    /// character goes in at the cursor, which moves behind it, and both
    /// keep the key from the widgets around the input; every other key is
    /// left to them.
    pub fn handle_key<F: Fn(&L, &SimpleInputEvent<'_>) -> bool>(&mut self, key: Key, notify: &F) -> (verdict:
        ShouldPropagate)
        requires
            old(self).wf(),
            forall|listener: &L, event: &SimpleInputEvent<'_>|
                call_requires(*notify, (listener, event)),
        ensures
            final(self).wf(),
            final(self).owner() == old(self).owner(),
            match key {
                Key::Char('\n') => {
                    &&& verdict == ShouldPropagate::Stop
                    &&& final(self).text() == Seq::<char>::empty()
                    &&& final(self).cursor() == 0
                    &&& told(
                        *notify,
                        old(self).owner(),
                        old(self).text(),
                        old(self).audience(),
                        final(self).audience(),
                    )
                },
                Key::Char(ch) => {
                    &&& verdict == ShouldPropagate::Stop
                    &&& final(self).text() == old(self).text().insert(old(self).cursor() as int, ch)
                    &&& final(self).cursor() == old(self).cursor() + 1
                    &&& final(self).audience() == old(self).audience()
                },
                _ => {
                    &&& verdict == ShouldPropagate::Continue
                    &&& final(self).text() == old(self).text()
                    &&& final(self).cursor() == old(self).cursor()
                    &&& final(self).audience() == old(self).audience()
                },
            },
    {
        match key {
            Key::Char('\n') => {
                self.submit(notify);
                ShouldPropagate::Stop
            },
            Key::Char(ch) => {
                self.line.insert(self.index, ch);
                let len = self.line.len();
                assert(self.index < len);
                self.index += 1;
                ShouldPropagate::Stop
            },
            Key::Esc => ShouldPropagate::Continue,
            _ => ShouldPropagate::Continue,
        }
    }

    /// Puts the cursor before character `new_idx`, or at the end of the
    /// text where it has no such character.
    pub fn set_index(&mut self, new_idx: usize)
        ensures
            final(self).wf(),
            final(self).cursor() == if new_idx <= old(self).text().len() {
                new_idx as nat
            } else {
                old(self).text().len()
            },
            final(self).text() == old(self).text(),
            final(self).owner() == old(self).owner(),
            final(self).audience() == old(self).audience(),
    {
        self.index = if new_idx <= self.line.len() {
            new_idx
        } else {
            self.line.len()
        };
    }
}

/// A one-line input.
pub struct SimpleInput<L> {
    inner: SimpleInputInner<L>,
}

impl<L> SimpleInput<L> {
    /// The state of the input.
    pub closed spec fn state(&self) -> SimpleInputInner<L> {
        self.inner
    }

    /// An empty input without listeners.
    pub fn new(name: Name) -> (input: Self)
        ensures
            input.state().wf(),
            input.state().owner() == name,
            input.state().text() == Seq::<char>::empty(),
            input.state().cursor() == 0,
            input.state().audience() == Seq::<L>::empty(),
    {
        let inner = SimpleInputInner::new(name);
        SimpleInput { inner }
    }

    /// Adds a listener behind those that the input has.
    pub fn add_listener(self, l: L) -> (input: Self)
        ensures
            input.state().audience() == self.state().audience().push(l),
            input.state().owner() == self.state().owner(),
            input.state().text() == self.state().text(),
            input.state().cursor() == self.state().cursor(),
    {
        let mut input = self;
        input.inner.add_listener(l);
        input
    }

    /// The state of the input, to hand it keys.
    pub fn inner(&mut self) -> (inner: &mut SimpleInputInner<L>)
        ensures
            *inner == old(self).state(),
            final(self).state() == *final(inner),
    {
        &mut self.inner
    }

    /// `block` shows the input under the bound of `ctx`: one row with the
    /// text and the cursor of the input, without handlers.
    pub open spec fn is_block<K, M>(&self, ctx: RenderContext, block: TextBlock<K, M>) -> bool {
        &&& block.wf()
        &&& block.rows() == 1
        &&& block.cols() == bounded_width(seq![self.state().text()], ctx.bounds())
        &&& block.content() == seq![
            clipped_row(
                ctx.content_id("Buffer"),
                seq![self.state().text()],
                block.cols() as nat,
                0,
            ),
        ]
        &&& block.cursor_entries() == Map::<Name, Pos>::empty().insert(
            self.state().owner(),
            Pos { col: self.state().cursor() as usize, row: 0 },
        )
        &&& block.key_handlers().len() == 0
        &&& block.mouse_handlers().len() == 0
    }

    /// The block that shows the input: one row with the text, cut or filled
    /// up to the width of `ctx`, and the cursor of the input. The handlers
    /// of the input are for whoever shares the input with them to add.
    pub fn block<K, M>(&self, ctx: RenderContext) -> (block: TextBlock<K, M>)
        ensures
            self.is_block(ctx, block),
    {
        let line = string_of(&self.inner.line, 0, self.inner.line.len());
        proof {
            assert(line@ =~= self.inner.line@);
        }
        let block = ctx.line("Buffer", line);
        let block = block.add_cursor(self.inner.name, Pos::new(self.inner.index, 0));
        proof {
            assert(block.cursor_entries() =~= Map::<Name, Pos>::empty().insert(
                self.state().owner(),
                Pos { col: self.state().cursor() as usize, row: 0 },
            ));
        }
        block
    }
}

impl<K, M, L> Widget<K, M> for SimpleInput<L> {
    fn name(&self) -> Option<Name>
        returns
            Some(self.state().owner()),
    {
        Some(self.inner.name)
    }

    fn render(&self, ctx: RenderContext) -> (rendered: Result<TextBlock<K, M>, LayoutError>) {
        Ok(self.block(ctx))
    }

    fn growth_policy(&self) -> FullGrowthPolicy
        returns
            (FullGrowthPolicy {
                width: crate::GrowthPolicy::Greedy,
                height: crate::GrowthPolicy::FixedSize,
            }),
    {
        FullGrowthPolicy::fixed_height()
    }

    fn widget_type(&self) -> &'static str
        returns
            "SimpleInput",
    {
        "SimpleInput"
    }

    open spec fn shows(
        &self,
        ctx: RenderContext,
        rendered: Result<TextBlock<K, M>, LayoutError>,
    ) -> bool {
        rendered matches Ok(block) && self.is_block(ctx, block)
    }

    open spec fn grows(&self, policy: FullGrowthPolicy) -> bool {
        policy == (FullGrowthPolicy {
            width: crate::GrowthPolicy::Greedy,
            height: crate::GrowthPolicy::FixedSize,
        })
    }
}

} // verus!
