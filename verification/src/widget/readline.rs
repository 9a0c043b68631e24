//! A line editor.

use vstd::prelude::*;
use crate::input::Key;
use crate::ir::block::{bounded_height, clipped_row};
use crate::ir::TextBlock;
use crate::widget::simple_input::kept;
use crate::widget::{LayoutError, RenderContext, ShouldPropagate, Widget};
use crate::{Direction, FullGrowthPolicy, Name, Pos};

pub mod config;
pub mod consts;
pub mod edit;
pub mod history;
pub mod keymap;
pub mod kill_ring;
pub mod line_buffer;
pub mod process;
pub mod state;

pub use consts::KeyPress;
pub use edit::Editor;
pub use keymap::{Cmd, CmdView, InputState};
pub use line_buffer::{LineView, MAX_LINE};
pub use process::{executed, is_search, is_searched, process_command, ring_before};
pub use state::{laid_out, State, StateView};

verus! {

/// Where the cursor stands in the rows that the line takes.
#[derive(Debug, Clone, Copy, PartialEq, Eq, Structural)]
pub struct Offset {
    pub col: usize,
    pub row: usize,
}

impl Offset {
    pub fn new(col: usize, row: usize) -> (offset: Self)
        ensures
            offset == (Offset { col, row }),
    {
        Offset { col, row }
    }
}

impl Default for Offset {
    fn default() -> (offset: Self)
        ensures
            offset == (Offset { col: 0, row: 0 }),
    {
        Offset { col: 0, row: 0 }
    }
}

/// What a line editor tells its listeners.
pub enum ReadlineEvent<'a> {
    /// The line of the editor `name` was entered.
    Submitted { name: Name, line: &'a str },
}

/// `event` says that `line` was entered into the editor `name`.
pub open spec fn is_entry(event: ReadlineEvent<'_>, name: Name, line: Seq<char>) -> bool {
    event matches ReadlineEvent::Submitted { name: by, line: text } && by == name && text@ == line
}

/// The line was entered, every listener was told, in the order of the
/// listeners, and those stay that answered `true`.
pub open spec fn announced<L, F: Fn(&L, &ReadlineEvent<'_>) -> bool>(
    notify: F,
    name: Name,
    line: Seq<char>,
    before: Seq<L>,
    after: Seq<L>,
) -> bool {
    exists|keep: Seq<bool>|
        #![auto]
        keep.len() == before.len() && after == kept(before, keep) && forall|i: int|
            0 <= i < before.len() ==> exists|event: ReadlineEvent<'_>|
                is_entry(event, name, line) && call_ensures(
                    notify,
                    (&before[i], &event),
                    #[trigger] keep[i],
                )
}

/// The key as the editor knows it. Letters that come with `Alt` or `Ctrl`
/// are taken as capitals.
pub open spec fn keypress_of(key: Key) -> KeyPress {
    match key {
        Key::Backspace => KeyPress::Backspace,
        Key::Left => KeyPress::Left,
        Key::Right => KeyPress::Right,
        Key::Up => KeyPress::Up,
        Key::Down => KeyPress::Down,
        Key::Home => KeyPress::Home,
        Key::End => KeyPress::End,
        Key::PageUp => KeyPress::PageUp,
        Key::PageDown => KeyPress::PageDown,
        Key::Delete => KeyPress::Delete,
        Key::Insert => KeyPress::Insert,
        Key::F(n) => KeyPress::F(n),
        Key::Char(ch) => KeyPress::Char(ch),
        Key::Alt(ch) => KeyPress::Meta(consts::upper(ch)),
        Key::Ctrl(ch) => KeyPress::Ctrl(consts::upper(ch)),
        Key::Null => KeyPress::Null,
        Key::Esc => KeyPress::Esc,
        _ => KeyPress::UnknownEscSeq,
    }
}

/// The key as the editor knows it.
pub fn key_to_keypress(key: Key) -> (keypress: KeyPress)
    ensures
        keypress == keypress_of(key),
{
    match key {
        Key::Backspace => KeyPress::Backspace,
        Key::Left => KeyPress::Left,
        Key::Right => KeyPress::Right,
        Key::Up => KeyPress::Up,
        Key::Down => KeyPress::Down,
        Key::Home => KeyPress::Home,
        Key::End => KeyPress::End,
        Key::PageUp => KeyPress::PageUp,
        Key::PageDown => KeyPress::PageDown,
        Key::Delete => KeyPress::Delete,
        Key::Insert => KeyPress::Insert,
        Key::F(n) => KeyPress::F(n),
        Key::Char(ch) => KeyPress::Char(ch),
        Key::Alt(ch) => KeyPress::Meta(consts::to_upper(ch)),
        Key::Ctrl(ch) => KeyPress::Ctrl(consts::to_upper(ch)),
        Key::Null => KeyPress::Null,
        Key::Esc => KeyPress::Esc,
        _ => KeyPress::UnknownEscSeq,
    }
}

/// The state of a line editor: the line, the history and the kill ring, and
/// who listens for the line when it is entered.
pub struct ReadlineInner<L> {
    pub state: State,
    pub editor: Editor,
    pub input_state: InputState,
    pub name: Name,
    pub listeners: Vec<L>,
}

impl<L> ReadlineInner<L> {
    /// The state and the editor are well formed, and the state looks at an
    /// entry of the history or past the newest.
    pub open spec fn wf(&self) -> bool {
        &&& self.state.wf()
        &&& self.editor.wf()
        &&& self.state.history_index <= self.editor.history.entries().len()
    }

    /// The command that `key` stands for: the one that it was bound to, or
    /// else the one of the Emacs way of editing.
    pub open spec fn is_command_for(&self, key: KeyPress, cmd: CmdView) -> bool {
        if edit::is_unbound(self.editor.custom_bindings@, key) {
            cmd == keymap::emacs_command(key)@
        } else {
            exists|i: int|
                edit::is_first_bound(self.editor.custom_bindings@, key, i) && cmd
                    == self.editor.custom_bindings@[i].1@
        }
    }

    /// `after` is what `cmd` makes of `self`.
    pub open spec fn is_outcome(&self, cmd: CmdView, after: &Self) -> bool {
        &&& after.wf()
        &&& after.state.follows(&self.state)
        &&& after.editor.history == self.editor.history
        &&& after.editor.config == self.editor.config
        &&& after.editor.custom_bindings == self.editor.custom_bindings
        &&& after.input_state == self.input_state
        &&& after.name == self.name
        &&& after.listeners == self.listeners
        &&& !is_search(cmd) ==> (after.state@, after.editor.kill_ring@) == executed(
            cmd,
            self.state@,
            self.editor.kill_ring@,
            self.editor.history.entries(),
            self.input_state.emacs_mode(),
        )
        &&& cmd is HistorySearchBackward ==> after.editor.kill_ring@ == ring_before(
            cmd,
            self.editor.kill_ring@,
        ) && is_searched(
            self.state@,
            &self.editor.history,
            history::Direction::Reverse,
            after.state@,
        )
        &&& cmd is HistorySearchForward ==> after.editor.kill_ring@ == ring_before(
            cmd,
            self.editor.kill_ring@,
        ) && is_searched(
            self.state@,
            &self.editor.history,
            history::Direction::Forward,
            after.state@,
        )
    }

    /// An editor that begins an empty line.
    pub fn new(name: Name) -> (inner: Self)
        ensures
            inner.wf(),
            inner.name == name,
            inner.listeners@.len() == 0,
            inner.state@.line.text == Seq::<char>::empty(),
            inner.state@.history_index == 0,
            inner.editor.history.entries() == Seq::<Seq<char>>::empty(),
            inner.editor.custom_bindings@.len() == 0,
            inner.input_state.emacs_mode(),
    {
        let state = State::new(0);
        let editor = Editor::new();
        let input_state = InputState::new();
        let listeners = Vec::new();
        ReadlineInner { state, editor, input_state, name, listeners }
    }

    /// Replaces the line by `buf`, with the cursor before character `pos`.
    pub fn _update(&mut self, buf: &str, pos: usize)
        ensures
            final(self).state@ == old(self).state@.with_line(
                old(self).state@.line.with(buf@, line_buffer::reach(buf@.len(), 0, pos as nat)),
            ),
            final(self).state.is_fresh(),
            final(self).editor == old(self).editor,
            final(self).input_state == old(self).input_state,
            final(self).name == old(self).name,
            final(self).listeners == old(self).listeners,
    {
        self.state.line.update(buf, pos);
        self.state.refresh();
    }

    /// Sets the cells of a row.
    pub fn _width(&mut self, width: usize)
        ensures
            final(self).state@ == (StateView { width: width as nat, ..old(self).state@ }),
            final(self).state.is_fresh(),
            final(self).editor == old(self).editor,
            final(self).input_state == old(self).input_state,
            final(self).name == old(self).name,
            final(self).listeners == old(self).listeners,
    {
        self.state.width = width;
        self.state.refresh();
    }

    /// Carries out the command that `kp` stands for.
    pub fn process_keypress(&mut self, kp: KeyPress)
        requires
            old(self).wf(),
        ensures
            exists|cmd: CmdView|
                old(self).is_command_for(kp, cmd) && old(self).is_outcome(cmd, final(self)),
    {
        let cmd = match self.editor.binding(kp) {
            Some(cmd) => cmd,
            None => self.input_state.next_cmd(kp),
        };
        proof {
            assert(old(self).is_command_for(kp, cmd@));
            self.editor.history.lemma_entries_bound();
        }
        process_command(&mut self.state, &mut self.editor, cmd, &self.input_state);
        proof {
            assert(old(self).is_outcome(cmd@, self));
        }
    }

    /// What a key does to an editor: a line feed enters the line, `Esc` is
    /// left to the widgets around the editor, and every other key is a
    /// command, which keeps it from them.
    pub fn handle_key<F: Fn(&L, &ReadlineEvent<'_>) -> bool>(&mut self, key: Key, notify: &F) -> (verdict:
        ShouldPropagate)
        requires
            old(self).wf(),
            forall|listener: &L, event: &ReadlineEvent<'_>|
                call_requires(*notify, (listener, event)),
        ensures
            final(self).wf(),
            final(self).name == old(self).name,
            match key {
                Key::Char('\n') => verdict == ShouldPropagate::Stop && old(self).is_submitted(
                    *notify,
                    final(self),
                ),
                Key::Esc => verdict == ShouldPropagate::Continue && *final(self) == *old(self),
                _ => verdict == ShouldPropagate::Stop && exists|cmd: CmdView|
                    old(self).is_command_for(keypress_of(key), cmd) && old(self).is_outcome(
                        cmd,
                        final(self),
                    ),
            },
    {
        match key {
            Key::Char('\n') => {
                self.submit(notify);
                ShouldPropagate::Stop
            },
            Key::Esc => ShouldPropagate::Continue,
            _ => {
                self.process_key(key);
                ShouldPropagate::Stop
            },
        }
    }

    /// `after` is `self` after the line was entered: the line went into the
    /// history, if the history takes it, an empty line was begun, and the
    /// listeners were told.
    pub open spec fn is_submitted<F: Fn(&L, &ReadlineEvent<'_>) -> bool>(
        &self,
        notify: F,
        after: &Self,
    ) -> bool {
        let line = self.state@.line.text;
        &&& after.state@ == self.state@.with_line(
            LineView { text: Seq::empty(), cursor: 0, capacity: MAX_LINE as nat },
        )
        &&& after.state.is_fresh()
        &&& after.editor.history.entries() == (if self.editor.history.takes(line) {
            (if self.editor.history.entries().len() >= self.editor.history.limit() {
                self.editor.history.entries().drop_first()
            } else {
                self.editor.history.entries()
            }).push(line)
        } else {
            self.editor.history.entries()
        })
        &&& after.editor.history.limit() == self.editor.history.limit()
        &&& after.editor.kill_ring == self.editor.kill_ring
        &&& after.editor.config == self.editor.config
        &&& after.editor.custom_bindings == self.editor.custom_bindings
        &&& after.input_state == self.input_state
        &&& after.name == self.name
        &&& announced(notify, self.name, line, self.listeners@, after.listeners@)
    }

    /// Enters the line: it goes into the history, an empty line is begun,
    /// and every listener is told, which `notify` does for one at a time; a
    /// listener that answers `false` is told no more. The history stays
    /// where the editor looked at it last.
    pub fn submit<F: Fn(&L, &ReadlineEvent<'_>) -> bool>(&mut self, notify: &F)
        requires
            old(self).state.saved_line_for_history.wf(),
            old(self).editor.wf(),
            forall|listener: &L, event: &ReadlineEvent<'_>|
                call_requires(*notify, (listener, event)),
        ensures
            old(self).is_submitted(*notify, final(self)),
            final(self).state.wf(),
            final(self).editor.wf(),
            old(self).wf() ==> final(self).wf(),
    {
        let line = self.state.finalize();
        self.editor.add_history_entry(line.as_str());
        let name = self.name;
        let mut listeners: Vec<L> = Vec::new();
        std::mem::swap(&mut listeners, &mut self.listeners);
        let ghost before = listeners@;
        let ghost mut keep: Seq<bool> = Seq::empty();
        let mut staying: Vec<L> = Vec::new();
        proof {
            assert(before.take(0) =~= Seq::<L>::empty());
        }
        for listener in it: listeners
            invariant
                it.seq() == before,
                forall|listener: &L, event: &ReadlineEvent<'_>|
                    call_requires(*notify, (listener, event)),
                keep.len() == it.index(),
                staying@ == kept(before.take(it.index() as int), keep),
                forall|i: int|
                    0 <= i < keep.len() ==> exists|event: ReadlineEvent<'_>|
                        is_entry(event, name, line@) && call_ensures(
                            *notify,
                            (&before[i], &event),
                            #[trigger] keep[i],
                        ),
        {
            let ghost k = it.index() as int;
            let event = ReadlineEvent::Submitted { name, line: line.as_str() };
            let stays = notify(&listener, &event);
            proof {
                assert(is_entry(event, name, line@));
                assert(before.take(k + 1).drop_last() =~= before.take(k));
                assert(before.take(k + 1).last() == listener);
                assert(keep.push(stays).drop_last() =~= keep);
                keep = keep.push(stays);
            }
            if stays {
                staying.push(listener);
            }
        }
        proof {
            assert(before.take(before.len() as int) =~= before);
        }
        self.listeners = staying;
    }

    /// Replaces the line by `text`, with the cursor at its end.
    pub fn _set_line(&mut self, text: &str)
        ensures
            final(self).state@ == old(self).state@.with_line(
                old(self).state@.line.with(text@, text@.len()),
            ),
            final(self).state.is_fresh(),
            final(self).editor == old(self).editor,
            final(self).input_state == old(self).input_state,
            final(self).name == old(self).name,
            final(self).listeners == old(self).listeners,
    {
        self.state.set_line(text);
    }

    /// Carries out the command that `key` stands for.
    pub fn process_key(&mut self, key: Key)
        requires
            old(self).wf(),
        ensures
            exists|cmd: CmdView|
                old(self).is_command_for(keypress_of(key), cmd) && old(self).is_outcome(
                    cmd,
                    final(self),
                ),
    {
        self.process_keypress(key_to_keypress(key))
    }

    /// Adds a listener behind those that the editor has.
    pub fn add_listener(&mut self, l: L)
        ensures
            final(self).listeners@ == old(self).listeners@.push(l),
            final(self).state == old(self).state,
            final(self).editor == old(self).editor,
            final(self).input_state == old(self).input_state,
            final(self).name == old(self).name,
    {
        self.listeners.push(l)
    }
}

/// A line editor in the manner of Emacs, with a history and a kill ring.
pub struct Readline<L> {
    inner: ReadlineInner<L>,
}

impl<L> Readline<L> {
    /// What the editor holds.
    pub closed spec fn inner(&self) -> ReadlineInner<L> {
        self.inner
    }

    /// An editor that begins an empty line.
    pub fn new(name: Name) -> (readline: Self)
        ensures
            readline.inner().wf(),
            readline.inner().name == name,
            readline.inner().listeners@.len() == 0,
            readline.inner().state@.line.text == Seq::<char>::empty(),
            readline.inner().editor.history.entries() == Seq::<Seq<char>>::empty(),
    {
        Self { inner: ReadlineInner::new(name) }
    }

    /// Adds a listener behind those that the editor has.
    pub fn add_listener(self, l: L) -> (readline: Self)
        ensures
            readline.inner().listeners@ == self.inner().listeners@.push(l),
            readline.inner().state == self.inner().state,
            readline.inner().editor == self.inner().editor,
            readline.inner().input_state == self.inner().input_state,
            readline.inner().name == self.inner().name,
    {
        let mut readline = self;
        readline.inner.add_listener(l);
        readline
    }

    /// What the editor holds, to hand it keys.
    pub fn state(&mut self) -> (inner: &mut ReadlineInner<L>)
        ensures
            *inner == old(self).inner(),
            final(self).inner() == *final(inner),
    {
        &mut self.inner
    }

    /// Replaces the line by `buf`, with the cursor before character `pos`.
    pub fn update(&mut self, buf: &str, pos: usize)
        ensures
            final(self).inner().state@ == old(self).inner().state@.with_line(
                old(self).inner().state@.line.with(
                    buf@,
                    line_buffer::reach(buf@.len(), 0, pos as nat),
                ),
            ),
            final(self).inner().state.is_fresh(),
            final(self).inner().editor == old(self).inner().editor,
            final(self).inner().name == old(self).inner().name,
            final(self).inner().listeners == old(self).inner().listeners,
    {
        self.inner._update(buf, pos)
    }

    /// Sets the cells of a row.
    pub fn width(&mut self, width: usize)
        ensures
            final(self).inner().state@ == (StateView {
                width: width as nat,
                ..old(self).inner().state@
            }),
            final(self).inner().state.is_fresh(),
            final(self).inner().editor == old(self).inner().editor,
            final(self).inner().name == old(self).inner().name,
            final(self).inner().listeners == old(self).inner().listeners,
    {
        self.inner._width(width)
    }

    /// Carries out the command that the character `ch` stands for.
    pub fn process_char(&mut self, ch: char)
        requires
            old(self).inner().wf(),
        ensures
            exists|cmd: CmdView|
                old(self).inner().is_command_for(consts::key_of_char(ch), cmd) && old(self).inner().is_outcome(cmd, &final(self).inner()),
    {
        self.inner.process_keypress(consts::char_to_key_press(ch))
    }

    /// Carries out the command that `kp` stands for.
    pub fn process_keypress(&mut self, kp: KeyPress)
        requires
            old(self).inner().wf(),
        ensures
            exists|cmd: CmdView|
                old(self).inner().is_command_for(kp, cmd) && old(self).inner().is_outcome(
                    cmd,
                    &final(self).inner(),
                ),
    {
        self.inner.process_keypress(kp)
    }

    /// Carries out the command that `key` stands for.
    pub fn process_key(&mut self, key: Key)
        requires
            old(self).inner().wf(),
        ensures
            exists|cmd: CmdView|
                old(self).inner().is_command_for(keypress_of(key), cmd) && old(self).inner().is_outcome(cmd, &final(self).inner()),
    {
        self.inner.process_key(key)
    }

    /// Ends the editing of the line: the line goes into the history, if
    /// the history takes it, and an empty line is begun. Returns the line.
    pub fn finalize(&mut self) -> (line: String)
        ensures
            line@ == old(self).inner().state@.line.text,
            final(self).inner().state@ == old(self).inner().state@.with_line(
                LineView { text: Seq::empty(), cursor: 0, capacity: MAX_LINE as nat },
            ),
            final(self).inner().state.is_fresh(),
            final(self).inner().editor.history.entries() == (if old(self).inner().editor.history.takes(line@) {
                (if old(self).inner().editor.history.entries().len() >= old(self).inner().editor.history.limit() {
                    old(self).inner().editor.history.entries().drop_first()
                } else {
                    old(self).inner().editor.history.entries()
                }).push(line@)
            } else {
                old(self).inner().editor.history.entries()
            }),
            final(self).inner().name == old(self).inner().name,
            final(self).inner().listeners == old(self).inner().listeners,
    {
        let line = self.inner.state.finalize();
        self.inner.editor.add_history_entry(line.as_str());
        line
    }

    /// Replaces the line by `text`, with the cursor at its end.
    pub fn set_line(&mut self, text: &str)
        ensures
            final(self).inner().state@ == old(self).inner().state@.with_line(
                old(self).inner().state@.line.with(text@, text@.len()),
            ),
            final(self).inner().state.is_fresh(),
            final(self).inner().editor == old(self).inner().editor,
            final(self).inner().name == old(self).inner().name,
            final(self).inner().listeners == old(self).inner().listeners,
    {
        self.inner._set_line(text)
    }

    /// The cursor of a block that shows the editor: where the state has
    /// it.
    pub open spec fn cursor_entry(&self) -> (Name, Pos) {
        (
            self.inner().name,
            Pos { col: self.inner().state.cursor.col, row: self.inner().state.cursor.row },
        )
    }

    /// `rendered` is what the editor shows under the bound of `ctx`:
    /// nothing where the bound gives no width, else the rows of the line
    /// with the cursor, without handlers.
    pub open spec fn is_block<K, M>(
        &self,
        ctx: RenderContext,
        rendered: Result<TextBlock<K, M>, LayoutError>,
    ) -> bool {
        &&& ctx.bounds().width is None ==> rendered == Err::<TextBlock<K, M>, LayoutError>(
            LayoutError::Unconstrained(Direction::Horizontal),
        )
        &&& ctx.bounds().width matches Some(width) ==> (rendered matches Ok(block) && {
            let rows = laid_out(self.inner().state@.line.text, width as nat);
            &&& block.wf()
            &&& block.cols() == width
            &&& block.rows() == bounded_height(rows.len(), ctx.bounds())
            &&& block.content() == Seq::new(
                block.rows() as nat,
                |r: int| clipped_row(ctx.content_id("Buffer"), rows, width as nat, r),
            )
            &&& block.cursor_entries() == Map::<Name, Pos>::empty().insert(
                self.cursor_entry().0,
                self.cursor_entry().1,
            )
            &&& block.key_handlers().len() == 0
            &&& block.mouse_handlers().len() == 0
        })
    }

    /// The block that shows the editor: the rows that the line takes at
    /// the width of `ctx`, cut or filled up to the bound of `ctx`, and the
    /// cursor. An editor needs to be told its width. The handlers of the
    /// editor are for whoever shares the editor with them to add.
    pub fn block<K, M>(&self, ctx: RenderContext) -> (rendered: Result<TextBlock<K, M>, LayoutError>)
        ensures
            self.is_block(ctx, rendered),
    {
        let width = match ctx.bound().width {
            Some(width) => width,
            None => {
                return Err(LayoutError::Unconstrained(Direction::Horizontal));
            },
        };
        let lines = self.inner.state.render_width(width);
        let block = ctx.clip_lines("Buffer", lines);
        let cursor = self.inner.state.cursor;
        let block = block.add_cursor(self.inner.name, Pos::new(cursor.col, cursor.row));
        proof {
            assert(block.cursor_entries() =~= Map::<Name, Pos>::empty().insert(
                self.cursor_entry().0,
                self.cursor_entry().1,
            ));
        }
        Ok(block)
    }
}

impl<K, M, L> Widget<K, M> for Readline<L> {
    fn name(&self) -> Option<Name>
        returns
            Some(self.inner().name),
    {
        Some(self.inner.name)
    }

    fn render(&self, ctx: RenderContext) -> (rendered: Result<TextBlock<K, M>, LayoutError>) {
        self.block(ctx)
    }

    fn growth_policy(&self) -> FullGrowthPolicy
        returns
            (FullGrowthPolicy {
                width: crate::GrowthPolicy::Greedy,
                height: crate::GrowthPolicy::FixedSize,
            }),
    {
        FullGrowthPolicy::fixed_height()
    }

    fn widget_type(&self) -> &'static str
        returns
            "Readline",
    {
        "Readline"
    }

    open spec fn shows(
        &self,
        ctx: RenderContext,
        rendered: Result<TextBlock<K, M>, LayoutError>,
    ) -> bool {
        self.is_block(ctx, rendered)
    }

    open spec fn grows(&self, policy: FullGrowthPolicy) -> bool {
        policy == (FullGrowthPolicy {
            width: crate::GrowthPolicy::Greedy,
            height: crate::GrowthPolicy::FixedSize,
        })
    }
}

/// `n`, or the largest number of cells that a pane can have where `n` is
/// more.
pub open spec fn pane_cells(n: usize) -> u16 {
    if n <= u16::MAX {
        n as u16
    } else {
        u16::MAX
    }
}

/// `n` as a number of cells of a pane.
pub fn to_pane_cells(n: usize) -> (cells: u16)
    ensures
        cells == pane_cells(n),
{
    if n <= 0xffff {
        n as u16
    } else {
        0xffff
    }
}

impl<L> Readline<L> {
    /// The rows that a pane of the extent `size` shows: those that the
    /// line takes at the width of the pane.
    pub fn pane_content(&self, size: crate::pane::Size) -> (rows: Vec<String>)
        ensures
            crate::grapheme::texts(rows@) == laid_out(
                self.inner().state@.line.text,
                size.width as nat,
            ),
    {
        self.inner.state.render_width(size.width as usize)
    }

    /// What the editor asks of a pane: the cells of a row, and the rows
    /// that the line takes.
    pub fn pane_bounds(&self) -> (bounds: crate::pane::BoundSize)
        ensures
            bounds == (crate::pane::BoundSize {
                width: crate::pane::Bound::Fixed(pane_cells(self.inner().state.width)),
                height: crate::pane::Bound::Fixed(pane_cells(self.inner().state.rows)),
            }),
    {
        crate::pane::BoundSize {
            width: crate::pane::Bound::Fixed(to_pane_cells(self.inner.state.width)),
            height: crate::pane::Bound::Fixed(to_pane_cells(self.inner.state.rows)),
        }
    }

    /// Where the cursor shows in a pane.
    pub fn pane_focus(&self) -> (focus: crate::pane::Position)
        ensures
            focus == (crate::pane::Position {
                x: pane_cells(self.inner().state.cursor.col),
                y: pane_cells(self.inner().state.cursor.row),
            }),
    {
        let pos = self.inner.state.cursor;
        crate::pane::Position::new(to_pane_cells(pos.col), to_pane_cells(pos.row))
    }
}

impl<L> crate::pane::Widget for Readline<L> {
    fn render_content(&self, size: crate::pane::Size) -> (content: Option<Vec<String>>)
        ensures
            content matches Some(rows) && crate::grapheme::texts(rows@) == laid_out(
                self.inner().state@.line.text,
                size.width as nat,
            ),
    {
        Some(self.pane_content(size))
    }

    fn render_bounds(&self) -> (bounds: crate::pane::BoundSize)
        ensures
            bounds == (crate::pane::BoundSize {
                width: crate::pane::Bound::Fixed(pane_cells(self.inner().state.width)),
                height: crate::pane::Bound::Fixed(pane_cells(self.inner().state.rows)),
            }),
    {
        self.pane_bounds()
    }

    fn render_focus(&self, _size: crate::pane::Size) -> (focus: Option<crate::pane::Position>)
        ensures
            focus == Some(
                crate::pane::Position {
                    x: pane_cells(self.inner().state.cursor.col),
                    y: pane_cells(self.inner().state.cursor.row),
                },
            ),
    {
        Some(self.pane_focus())
    }

    fn render_style(&self) -> (style: Option<String>)
        ensures
            style matches Some(name) && name@ == "input"@,
    {
        Some(String::from_str("input"))
    }
}

} // verus!
