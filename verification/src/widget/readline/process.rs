//! What the commands do.

use vstd::prelude::*;
use crate::widget::readline::edit::Editor;
use crate::widget::readline::history::Direction;
use crate::widget::readline::keymap::{Anchor, Cmd, CmdView, InputState, Movement};
use crate::widget::readline::kill_ring::{Action, Mode, RingView};
use crate::widget::readline::line_buffer::{At, LineView, Word, WordAction};
use crate::widget::readline::state::{State, StateView};

verus! {

/// The ring after `killed` went into it on the side `dir`, if anything was
/// killed.
pub open spec fn kills(ring: RingView, killed: Option<Seq<char>>, dir: Mode) -> RingView {
    match killed {
        Some(text) => ring.kill(text, dir),
        None => ring,
    }
}

/// The ring as a command finds it: noted that the run of kills is broken,
/// where the command breaks it.
pub open spec fn ring_before(cmd: CmdView, ring: RingView) -> RingView {
    if cmd.breaks_kills() {
        RingView { last_action: Action::Other, ..ring }
    } else {
        ring
    }
}

/// Whether the command searches the history.
pub open spec fn is_search(cmd: CmdView) -> bool {
    cmd is HistorySearchBackward || cmd is HistorySearchForward
}

/// Where a movement takes the cursor of `line`. The whole line is no way
/// to go.
pub open spec fn moved(movement: Movement, line: LineView) -> LineView {
    match movement {
        Movement::WholeLine => line,
        Movement::BeginningOfLine => line.move_home().0,
        Movement::EndOfLine => line.move_end().0,
        Movement::BackwardWord(n, word_def) => line.move_to_prev_word(word_def, n as nat).0,
        Movement::ForwardWord(n, at, word_def) => line.move_to_next_word(
            at,
            word_def,
            n as nat,
        ).0,
        Movement::ViCharSearch(n, cs) => line.move_to(cs, n as nat).0,
        Movement::ViFirstPrint => line.move_home().0.move_to_next_word(At::Start, Word::Big, 1).0,
        Movement::BackwardChar(n) => line.move_backward(n as nat).0,
        Movement::ForwardChar(n) => line.move_forward(n as nat).0,
    }
}

/// What goes when the way of a movement is killed: the line after it, and
/// what was taken out. To the first printing character nothing is killed.
pub open spec fn killed_along(movement: Movement, line: LineView) -> (LineView, Option<Seq<char>>) {
    match movement {
        Movement::WholeLine => line.move_home().0.kill_line(),
        Movement::BeginningOfLine => line.discard_line(),
        Movement::EndOfLine => line.kill_line(),
        Movement::BackwardWord(n, word_def) => line.delete_prev_word(word_def, n as nat),
        Movement::ForwardWord(n, at, word_def) => line.delete_word(at, word_def, n as nat),
        Movement::ViCharSearch(n, cs) => line.delete_to(cs, n as nat),
        Movement::ViFirstPrint => (line, None),
        Movement::BackwardChar(n) => line.backspace(n as nat),
        Movement::ForwardChar(n) => line.delete(n as nat),
    }
}

/// On which side of what was killed before it the text goes that is
/// killed along a movement, or `None` for single characters, which the ring
/// does not take.
pub open spec fn kill_mode(movement: Movement) -> Option<Mode> {
    match movement {
        Movement::WholeLine => Some(Mode::Append),
        Movement::BeginningOfLine => Some(Mode::Prepend),
        Movement::EndOfLine => Some(Mode::Append),
        Movement::BackwardWord(_, _) => Some(Mode::Prepend),
        Movement::ForwardWord(_, _, _) => Some(Mode::Append),
        Movement::ViCharSearch(_, cs) => Some(
            if cs.forward() {
                Mode::Append
            } else {
                Mode::Prepend
            },
        ),
        Movement::ViFirstPrint => None,
        Movement::BackwardChar(_) => None,
        Movement::ForwardChar(_) => None,
    }
}

/// The ring after a kill along a movement.
pub open spec fn ring_after_kill(movement: Movement, line: LineView, ring: RingView) -> RingView {
    match kill_mode(movement) {
        Some(mode) => kills(ring, killed_along(movement, line).1, mode),
        None => ring,
    }
}

/// What a command other than a search makes of the state and the ring, with
/// `history` as the history and text put back as `emacs` says.
#[verifier::opaque]
pub open spec fn executed(
    cmd: CmdView,
    state: StateView,
    ring: RingView,
    history: Seq<Seq<char>>,
    emacs: bool,
) -> (StateView, RingView) {
    let ring = ring_before(cmd, ring);
    let line = state.line;
    match cmd {
        CmdView::SelfInsert(n, c) => (state.with_line(line.insert(c, n as nat).0), ring),
        CmdView::Insert(n, text) => (state.yank(emacs, text, Anchor::Before, n as nat), ring),
        CmdView::Move(movement) => (state.with_line(moved(movement, line)), ring),
        CmdView::Kill(movement) => (
            state.with_line(killed_along(movement, line).0),
            ring_after_kill(movement, line, ring),
        ),
        CmdView::CapitalizeWord => (
            state.with_line(line.edit_word(WordAction::CAPITALIZE).0),
            ring,
        ),
        CmdView::DowncaseWord => (state.with_line(line.edit_word(WordAction::LOWERCASE).0), ring),
        CmdView::UpcaseWord => (state.with_line(line.edit_word(WordAction::UPPERCASE).0), ring),
        CmdView::Replace(n, c) => (state.replace_char(c, n as nat), ring),
        CmdView::Overwrite(c) => (state.overwrite_char(c), ring),
        CmdView::NextHistory => (state.history_next(history, false), ring),
        CmdView::PreviousHistory => (state.history_next(history, true), ring),
        CmdView::BeginningOfHistory => (state.history_end(history, true), ring),
        CmdView::EndOfHistory => (state.history_end(history, false), ring),
        CmdView::TransposeChars => (state.with_line(line.transpose_chars().0), ring),
        CmdView::TransposeWords(n) => (state.with_line(line.transpose_words(n as nat).0), ring),
        CmdView::Yank(n, anchor) => match ring.yank().1 {
            Some(text) => (state.yank(emacs, text, anchor, n as nat), ring.yank().0),
            None => (state, ring),
        },
        CmdView::YankPop => match ring.yank_pop().1 {
            Some((yank_size, text)) => (
                state.with_line(line.yank_pop(yank_size as nat, text).0),
                ring.yank_pop().0,
            ),
            None => (state, ring),
        },
        CmdView::AcceptLine => (state.with_line(line.move_end().0), ring),
        _ => (state, ring),
    }
}

/// What a search makes of the state: the line of the nearest history entry
/// that begins with what stands before the cursor, as
/// [`State::edit_history_search`] says.
pub open spec fn is_searched(
    before: StateView,
    history: &crate::widget::readline::history::History,
    dir: Direction,
    after: StateView,
) -> bool {
    match before.search_start(history.entries().len(), dir) {
        None => after == before,
        Some(start) => exists|found: Option<usize>|
            history.is_nearest(
                before.line.text.take(before.line.cursor as int),
                start,
                dir,
                found,
            ) && after == before.searched(history.entries(), start, found),
    }
}

/// Moves the cursor along `movement`.
pub fn process_move(s: &mut State, movement: Movement)
    requires
        old(s).wf(),
    ensures
        final(s).wf(),
        final(s).follows(old(s)),
        final(s)@ == old(s)@.with_line(moved(movement, old(s)@.line)),
{
    match movement {
        Movement::WholeLine => {},
        Movement::BeginningOfLine => s.edit_move_home(),
        Movement::EndOfLine => s.edit_move_end(),
        Movement::BackwardWord(n, word_def) => s.edit_move_to_prev_word(word_def, n),
        Movement::ForwardWord(n, at, word_def) => s.edit_move_to_next_word(at, word_def, n),
        Movement::ViCharSearch(n, cs) => s.edit_move_to(cs, n),
        Movement::ViFirstPrint => {
            s.edit_move_home();
            s.edit_move_to_next_word(At::Start, Word::Big, 1)
        },
        Movement::BackwardChar(n) => s.edit_move_backward(n),
        Movement::ForwardChar(n) => s.edit_move_forward(n),
    }
}

/// Takes out what lies along `movement` and returns it.
pub fn process_kill(s: &mut State, movement: Movement) -> (killed: Option<String>)
    requires
        old(s).wf(),
    ensures
        final(s).wf(),
        final(s).follows(old(s)),
        final(s)@ == old(s)@.with_line(killed_along(movement, old(s)@.line).0),
        crate::widget::readline::line_buffer::text_of(killed) == killed_along(
            movement,
            old(s)@.line,
        ).1,
{
    match movement {
        Movement::WholeLine => {
            s.edit_move_home();
            s.edit_kill_line()
        },
        Movement::BeginningOfLine => s.edit_discard_line(),
        Movement::EndOfLine => s.edit_kill_line(),
        Movement::BackwardWord(n, word_def) => s.edit_delete_prev_word(word_def, n),
        Movement::ForwardWord(n, at, word_def) => s.edit_delete_word(at, word_def, n),
        Movement::ViCharSearch(n, cs) => s.edit_delete_to(cs, n),
        Movement::ViFirstPrint => None,
        Movement::BackwardChar(n) => s.edit_backspace(n),
        Movement::ForwardChar(n) => s.edit_delete(n),
    }
}

/// The side of the ring that takes what is killed along `movement`.
pub fn mode_of(movement: Movement) -> (mode: Option<Mode>)
    ensures
        mode == kill_mode(movement),
{
    match movement {
        Movement::WholeLine => Some(Mode::Append),
        Movement::BeginningOfLine => Some(Mode::Prepend),
        Movement::EndOfLine => Some(Mode::Append),
        Movement::BackwardWord(_, _) => Some(Mode::Prepend),
        Movement::ForwardWord(_, _, _) => Some(Mode::Append),
        Movement::ViCharSearch(_, cs) => match cs {
            crate::widget::readline::line_buffer::CharSearch::Forward(_) => Some(Mode::Append),
            crate::widget::readline::line_buffer::CharSearch::ForwardBefore(_) => Some(
                Mode::Append,
            ),
            _ => Some(Mode::Prepend),
        },
        Movement::ViFirstPrint => None,
        Movement::BackwardChar(_) => None,
        Movement::ForwardChar(_) => None,
    }
}

/// Carries out `cmd` on the line that is edited. What is killed by words
/// and by lines goes into the kill ring of `editor`, and what is put back
/// comes from it; the history of `editor` is looked at and not changed.
#[verifier::rlimit(40)]
pub fn process_command(s: &mut State, editor: &mut Editor, cmd: Cmd, input_state: &InputState)
    requires
        old(s).wf(),
        old(editor).wf(),
        old(s).history_index < usize::MAX || old(s).history_index
            == old(editor).history.entries().len(),
    ensures
        final(s).wf(),
        final(s).follows(old(s)),
        old(s).history_index <= old(editor).history.entries().len() ==> final(s).history_index
            <= old(editor).history.entries().len(),
        final(editor).wf(),
        final(editor).history == old(editor).history,
        final(editor).config == old(editor).config,
        final(editor).custom_bindings == old(editor).custom_bindings,
        !is_search(cmd@) ==> (final(s)@, final(editor).kill_ring@) == executed(
            cmd@,
            old(s)@,
            old(editor).kill_ring@,
            old(editor).history.entries(),
            input_state.emacs_mode(),
        ),
        cmd@ is HistorySearchBackward ==> final(editor).kill_ring@ == ring_before(
            cmd@,
            old(editor).kill_ring@,
        ) && is_searched(old(s)@, &old(editor).history, Direction::Reverse, final(s)@),
        cmd@ is HistorySearchForward ==> final(editor).kill_ring@ == ring_before(
            cmd@,
            old(editor).kill_ring@,
        ) && is_searched(old(s)@, &old(editor).history, Direction::Forward, final(s)@),
{
    reveal(executed);
    if cmd.should_reset_kill_ring() {
        editor.reset_kill_ring();
    }
    let emacs = input_state.is_emacs_mode();
    match cmd {
        Cmd::SelfInsert(n, c) => s.edit_insert(c, n),
        Cmd::Insert(n, text) => s.edit_yank(emacs, text.as_str(), Anchor::Before, n),
        Cmd::Move(movement) => process_move(s, movement),
        Cmd::Kill(movement) => {
            let killed = process_kill(s, movement);
            match (killed, mode_of(movement)) {
                (Some(killed), Some(mode)) => {
                    editor.kill_ring.kill(killed.as_str(), mode);
                },
                _ => {},
            }
        },
        Cmd::Replace(n, c) => {
            s.edit_replace_char(c, n);
        },
        Cmd::Overwrite(c) => {
            s.edit_overwrite_char(c);
        },
        Cmd::NextHistory => {
            s.edit_history_next(&editor.history, false)
        },
        Cmd::PreviousHistory => {
            s.edit_history_next(&editor.history, true)
        },
        Cmd::HistorySearchBackward => s.edit_history_search(&editor.history, Direction::Reverse),
        Cmd::HistorySearchForward => s.edit_history_search(&editor.history, Direction::Forward),
        Cmd::TransposeChars => {
            s.edit_transpose_chars()
        },
        Cmd::TransposeWords(n) => {
            s.edit_transpose_words(n)
        },
        Cmd::Yank(n, anchor) => {
            if let Some(text) = editor.kill_ring.yank() {
                s.edit_yank(emacs, text.as_str(), anchor, n)
            }
        },
        Cmd::AcceptLine => {
            s.edit_move_end();
        },
        Cmd::BeginningOfHistory => {
            s.edit_history(&editor.history, true)
        },
        Cmd::EndOfHistory => {
            s.edit_history(&editor.history, false)
        },
        Cmd::CapitalizeWord => {
            s.edit_word(WordAction::CAPITALIZE)
        },
        Cmd::DowncaseWord => {
            s.edit_word(WordAction::LOWERCASE)
        },
        Cmd::UpcaseWord => {
            s.edit_word(WordAction::UPPERCASE)
        },
        Cmd::YankPop => {
            if let Some((yank_size, text)) = editor.kill_ring.yank_pop() {
                s.edit_yank_pop(yank_size, text.as_str())
            }
        },
        Cmd::Noop => {},
        Cmd::Unknown => {},
    }
}

} // verus!
