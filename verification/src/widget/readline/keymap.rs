//! From keys to commands.

use vstd::prelude::*;
use crate::widget::readline::consts::KeyPress;
use crate::widget::readline::line_buffer::{At, CharSearch, Word};

verus! {

/// How often a command is repeated.
pub type RepeatCount = usize;

/// On which side of the cursor text is put back.
#[derive(Debug, Clone, Copy, PartialEq, Eq, Structural)]
pub enum Anchor {
    After,
    Before,
}

/// A way over the line.
#[derive(Debug, Clone, Copy, PartialEq, Eq, Structural)]
pub enum Movement {
    WholeLine,
    BeginningOfLine,
    EndOfLine,
    BackwardWord(RepeatCount, Word),
    ForwardWord(RepeatCount, At, Word),
    ViCharSearch(RepeatCount, CharSearch),
    ViFirstPrint,
    BackwardChar(RepeatCount),
    ForwardChar(RepeatCount),
}

/// What the editor can be told to do.
#[derive(Debug)]
pub enum Cmd {
    AcceptLine,
    BeginningOfHistory,
    CapitalizeWord,
    DowncaseWord,
    EndOfHistory,
    HistorySearchBackward,
    HistorySearchForward,
    Insert(RepeatCount, String),
    Kill(Movement),
    Move(Movement),
    NextHistory,
    Noop,
    Overwrite(char),
    PreviousHistory,
    Replace(RepeatCount, char),
    SelfInsert(RepeatCount, char),
    TransposeChars,
    TransposeWords(RepeatCount),
    Unknown,
    UpcaseWord,
    Yank(RepeatCount, Anchor),
    YankPop,
}

/// What a [`Cmd`] says.
pub enum CmdView {
    AcceptLine,
    BeginningOfHistory,
    CapitalizeWord,
    DowncaseWord,
    EndOfHistory,
    HistorySearchBackward,
    HistorySearchForward,
    Insert(RepeatCount, Seq<char>),
    Kill(Movement),
    Move(Movement),
    NextHistory,
    Noop,
    Overwrite(char),
    PreviousHistory,
    Replace(RepeatCount, char),
    SelfInsert(RepeatCount, char),
    TransposeChars,
    TransposeWords(RepeatCount),
    Unknown,
    UpcaseWord,
    Yank(RepeatCount, Anchor),
    YankPop,
}

impl View for Cmd {
    type V = CmdView;

    open spec fn view(&self) -> CmdView {
        match self {
            Cmd::AcceptLine => CmdView::AcceptLine,
            Cmd::BeginningOfHistory => CmdView::BeginningOfHistory,
            Cmd::CapitalizeWord => CmdView::CapitalizeWord,
            Cmd::DowncaseWord => CmdView::DowncaseWord,
            Cmd::EndOfHistory => CmdView::EndOfHistory,
            Cmd::HistorySearchBackward => CmdView::HistorySearchBackward,
            Cmd::HistorySearchForward => CmdView::HistorySearchForward,
            Cmd::Insert(n, text) => CmdView::Insert(*n, text@),
            Cmd::Kill(movement) => CmdView::Kill(*movement),
            Cmd::Move(movement) => CmdView::Move(*movement),
            Cmd::NextHistory => CmdView::NextHistory,
            Cmd::Noop => CmdView::Noop,
            Cmd::Overwrite(ch) => CmdView::Overwrite(*ch),
            Cmd::PreviousHistory => CmdView::PreviousHistory,
            Cmd::Replace(n, ch) => CmdView::Replace(*n, *ch),
            Cmd::SelfInsert(n, ch) => CmdView::SelfInsert(*n, *ch),
            Cmd::TransposeChars => CmdView::TransposeChars,
            Cmd::TransposeWords(n) => CmdView::TransposeWords(*n),
            Cmd::Unknown => CmdView::Unknown,
            Cmd::UpcaseWord => CmdView::UpcaseWord,
            Cmd::Yank(n, anchor) => CmdView::Yank(*n, *anchor),
            Cmd::YankPop => CmdView::YankPop,
        }
    }
}

impl CmdView {
    /// The command breaks a run of kills: what is killed after it begins a
    /// text of its own in the ring. Kills by words and lines, yanks and
    /// commands that do nothing keep the run.
    pub open spec fn breaks_kills(self) -> bool {
        match self {
            CmdView::Kill(Movement::BackwardChar(_)) => true,
            CmdView::Kill(Movement::ForwardChar(_)) => true,
            CmdView::Kill(_) => false,
            CmdView::Replace(_, _) => false,
            CmdView::Noop => false,
            CmdView::Yank(_, _) => false,
            CmdView::YankPop => false,
            _ => true,
        }
    }
}

impl Cmd {
    /// A copy of the command.
    pub fn duplicate(&self) -> (copy: Cmd)
        ensures
            copy@ == self@,
    {
        match self {
            Cmd::AcceptLine => Cmd::AcceptLine,
            Cmd::BeginningOfHistory => Cmd::BeginningOfHistory,
            Cmd::CapitalizeWord => Cmd::CapitalizeWord,
            Cmd::DowncaseWord => Cmd::DowncaseWord,
            Cmd::EndOfHistory => Cmd::EndOfHistory,
            Cmd::HistorySearchBackward => Cmd::HistorySearchBackward,
            Cmd::HistorySearchForward => Cmd::HistorySearchForward,
            Cmd::Insert(n, text) => Cmd::Insert(*n, text.clone()),
            Cmd::Kill(movement) => Cmd::Kill(*movement),
            Cmd::Move(movement) => Cmd::Move(*movement),
            Cmd::NextHistory => Cmd::NextHistory,
            Cmd::Noop => Cmd::Noop,
            Cmd::Overwrite(ch) => Cmd::Overwrite(*ch),
            Cmd::PreviousHistory => Cmd::PreviousHistory,
            Cmd::Replace(n, ch) => Cmd::Replace(*n, *ch),
            Cmd::SelfInsert(n, ch) => Cmd::SelfInsert(*n, *ch),
            Cmd::TransposeChars => Cmd::TransposeChars,
            Cmd::TransposeWords(n) => Cmd::TransposeWords(*n),
            Cmd::Unknown => Cmd::Unknown,
            Cmd::UpcaseWord => Cmd::UpcaseWord,
            Cmd::Yank(n, anchor) => Cmd::Yank(*n, *anchor),
            Cmd::YankPop => Cmd::YankPop,
        }
    }

    /// Whether the command breaks a run of kills.
    pub fn should_reset_kill_ring(&self) -> (resets: bool)
        ensures
            resets == self@.breaks_kills(),
    {
        match self {
            Cmd::Kill(Movement::BackwardChar(_)) => true,
            Cmd::Kill(Movement::ForwardChar(_)) => true,
            Cmd::Kill(_) => false,
            Cmd::Replace(_, _) => false,
            Cmd::Noop => false,
            Cmd::Yank(_, _) => false,
            Cmd::YankPop => false,
            _ => true,
        }
    }
}

/// The command that a key stands for in the Emacs way of editing.
#[verifier::opaque]
pub open spec fn emacs_command(key: KeyPress) -> Cmd {
    match key {
        KeyPress::Char(ch) => Cmd::SelfInsert(1, ch),
        KeyPress::Ctrl('A') => Cmd::Move(Movement::BeginningOfLine),
        KeyPress::Home => Cmd::Move(Movement::BeginningOfLine),
        KeyPress::Ctrl('B') => Cmd::Move(Movement::BackwardChar(1)),
        KeyPress::Left => Cmd::Move(Movement::BackwardChar(1)),
        KeyPress::Ctrl('E') => Cmd::Move(Movement::EndOfLine),
        KeyPress::End => Cmd::Move(Movement::EndOfLine),
        KeyPress::Ctrl('F') => Cmd::Move(Movement::ForwardChar(1)),
        KeyPress::Right => Cmd::Move(Movement::ForwardChar(1)),
        KeyPress::Ctrl('H') => Cmd::Kill(Movement::BackwardChar(1)),
        KeyPress::Backspace => Cmd::Kill(Movement::BackwardChar(1)),
        KeyPress::Ctrl('D') => Cmd::Kill(Movement::ForwardChar(1)),
        KeyPress::Delete => Cmd::Kill(Movement::ForwardChar(1)),
        KeyPress::Ctrl('K') => Cmd::Kill(Movement::EndOfLine),
        KeyPress::Ctrl('U') => Cmd::Kill(Movement::BeginningOfLine),
        KeyPress::Ctrl('N') => Cmd::NextHistory,
        KeyPress::Down => Cmd::NextHistory,
        KeyPress::Ctrl('P') => Cmd::PreviousHistory,
        KeyPress::Up => Cmd::PreviousHistory,
        KeyPress::Ctrl('T') => Cmd::TransposeChars,
        KeyPress::Ctrl('W') => Cmd::Kill(Movement::BackwardWord(1, Word::Big)),
        KeyPress::Ctrl('Y') => Cmd::Yank(1, Anchor::Before),
        KeyPress::Meta('Y') => Cmd::YankPop,
        KeyPress::Meta('B') => Cmd::Move(Movement::BackwardWord(1, Word::Emacs)),
        KeyPress::Meta('F') => Cmd::Move(Movement::ForwardWord(1, At::AfterEnd, Word::Emacs)),
        KeyPress::Meta('D') => Cmd::Kill(Movement::ForwardWord(1, At::AfterEnd, Word::Emacs)),
        KeyPress::Meta('T') => Cmd::TransposeWords(1),
        KeyPress::Meta('C') => Cmd::CapitalizeWord,
        KeyPress::Meta('L') => Cmd::DowncaseWord,
        KeyPress::Meta('U') => Cmd::UpcaseWord,
        KeyPress::Meta('<') => Cmd::BeginningOfHistory,
        KeyPress::Meta('>') => Cmd::EndOfHistory,
        KeyPress::Enter => Cmd::AcceptLine,
        KeyPress::Ctrl('J') => Cmd::AcceptLine,
        KeyPress::Ctrl('M') => Cmd::AcceptLine,
        KeyPress::Null => Cmd::Noop,
        _ => Cmd::Unknown,
    }
}

/// What stands between the keys and the commands.
#[derive(Debug, Clone, Copy, PartialEq, Eq, Structural)]
pub struct InputState {
    emacs: bool,
}

impl InputState {
    /// Whether text that was put back leaves the cursor behind it.
    pub closed spec fn emacs_mode(&self) -> bool {
        self.emacs
    }

    /// The Emacs way of editing.
    pub fn new() -> (state: Self)
        ensures
            state.emacs_mode(),
    {
        InputState { emacs: true }
    }

    pub fn is_emacs_mode(&self) -> (emacs: bool)
        ensures
            emacs == self.emacs_mode(),
    {
        self.emacs
    }

    /// The command that `key` stands for.
    pub fn next_cmd(&self, key: KeyPress) -> (cmd: Cmd)
        ensures
            cmd == emacs_command(key),
    {
        reveal(emacs_command);
        match key {
            KeyPress::Char(ch) => Cmd::SelfInsert(1, ch),
            KeyPress::Ctrl('A') => Cmd::Move(Movement::BeginningOfLine),
            KeyPress::Home => Cmd::Move(Movement::BeginningOfLine),
            KeyPress::Ctrl('B') => Cmd::Move(Movement::BackwardChar(1)),
            KeyPress::Left => Cmd::Move(Movement::BackwardChar(1)),
            KeyPress::Ctrl('E') => Cmd::Move(Movement::EndOfLine),
            KeyPress::End => Cmd::Move(Movement::EndOfLine),
            KeyPress::Ctrl('F') => Cmd::Move(Movement::ForwardChar(1)),
            KeyPress::Right => Cmd::Move(Movement::ForwardChar(1)),
            KeyPress::Ctrl('H') => Cmd::Kill(Movement::BackwardChar(1)),
            KeyPress::Backspace => Cmd::Kill(Movement::BackwardChar(1)),
            KeyPress::Ctrl('D') => Cmd::Kill(Movement::ForwardChar(1)),
            KeyPress::Delete => Cmd::Kill(Movement::ForwardChar(1)),
            KeyPress::Ctrl('K') => Cmd::Kill(Movement::EndOfLine),
            KeyPress::Ctrl('U') => Cmd::Kill(Movement::BeginningOfLine),
            KeyPress::Ctrl('N') => Cmd::NextHistory,
            KeyPress::Down => Cmd::NextHistory,
            KeyPress::Ctrl('P') => Cmd::PreviousHistory,
            KeyPress::Up => Cmd::PreviousHistory,
            KeyPress::Ctrl('T') => Cmd::TransposeChars,
            KeyPress::Ctrl('W') => Cmd::Kill(Movement::BackwardWord(1, Word::Big)),
            KeyPress::Ctrl('Y') => Cmd::Yank(1, Anchor::Before),
            KeyPress::Meta('Y') => Cmd::YankPop,
            KeyPress::Meta('B') => Cmd::Move(Movement::BackwardWord(1, Word::Emacs)),
            KeyPress::Meta('F') => Cmd::Move(Movement::ForwardWord(1, At::AfterEnd, Word::Emacs)),
            KeyPress::Meta('D') => Cmd::Kill(Movement::ForwardWord(1, At::AfterEnd, Word::Emacs)),
            KeyPress::Meta('T') => Cmd::TransposeWords(1),
        KeyPress::Meta('C') => Cmd::CapitalizeWord,
        KeyPress::Meta('L') => Cmd::DowncaseWord,
        KeyPress::Meta('U') => Cmd::UpcaseWord,
        KeyPress::Meta('<') => Cmd::BeginningOfHistory,
            KeyPress::Meta('>') => Cmd::EndOfHistory,
            KeyPress::Enter => Cmd::AcceptLine,
            KeyPress::Ctrl('J') => Cmd::AcceptLine,
            KeyPress::Ctrl('M') => Cmd::AcceptLine,
            KeyPress::Null => Cmd::Noop,
            _ => Cmd::Unknown,
        }
    }
}

} // verus!
