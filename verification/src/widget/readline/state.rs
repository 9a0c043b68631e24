//! The state of an editor while a line is edited, and the edits.

use vstd::prelude::*;
use crate::chars::{split_newlines, split_on_newline};
use crate::grapheme::{chunk_cells, count_graphemes, grapheme_clusters, grapheme_count,
    graphemes, ragged, texts};
use crate::widget::readline::history::{Direction, History};
use crate::widget::readline::keymap::Anchor;
use crate::widget::readline::line_buffer::{lemma_nth_bounds, lemma_words_bounds, reach, text_of,
    At, CharSearch, LineBuffer, LineView, Word, WordAction, MAX_LINE};
use crate::widget::readline::Offset;

verus! {

/// The rows that a piece of text without line feeds takes at `width`
/// cells: its grapheme clusters in rows of `width`, the last row as long as
/// what is left. A piece without text takes one empty row, and so does any
/// piece where `width` is zero.
pub open spec fn rows_for(piece: Seq<char>, width: nat) -> Seq<Seq<char>> {
    let cells = grapheme_clusters(piece);
    if width == 0 || cells.len() == 0 {
        seq![Seq::empty()]
    } else {
        ragged(cells, width)
    }
}

/// The rows that `pieces` take at `width` cells, one piece below the
/// other.
pub open spec fn laid(pieces: Seq<Seq<char>>, width: nat) -> Seq<Seq<char>>
    decreases pieces.len(),
{
    if pieces.len() == 0 {
        Seq::empty()
    } else {
        laid(pieces.drop_last(), width) + rows_for(pieces.last(), width)
    }
}

/// The rows that `text` takes at `width` cells: it breaks at every line
/// feed and wherever a row is full.
pub open spec fn laid_out(text: Seq<char>, width: nat) -> Seq<Seq<char>> {
    laid(split_on_newline(text), width)
}

/// Where the cursor stands in `rows` when `pos` characters stand before
/// it, counting from row `row`: every row takes a step for each of its
/// grapheme clusters and one more for its end.
pub open spec fn locate(rows: Seq<Seq<char>>, pos: nat, row: nat) -> Option<Offset>
    decreases rows.len(),
{
    if rows.len() == 0 {
        None
    } else if pos <= grapheme_count(rows.first()) {
        Some(Offset { col: pos as usize, row: row as usize })
    } else {
        locate(rows.drop_first(), (pos - grapheme_count(rows.first()) - 1) as nat, row + 1)
    }
}

/// Where the cursor shows for a line of `text` with `cursor` characters
/// before the cursor, at `width` cells: where [`locate`] finds it, or in
/// the top left corner where it finds no place.
pub open spec fn focus_of(text: Seq<char>, cursor: nat, width: nat) -> Offset {
    match locate(laid_out(text, width), cursor, 0) {
        Some(offset) => offset,
        None => Offset { col: 0, row: 0 },
    }
}

/// What a [`State`] holds, but for what it shows.
pub struct StateView {
    /// The line that is edited.
    pub line: LineView,
    /// The line as it was before the history was looked through.
    pub saved: LineView,
    /// The entry of the history that is shown; the number of entries while
    /// none is.
    pub history_index: nat,
    /// The cells of a row.
    pub width: nat,
}

impl StateView {
    /// The state with another line.
    pub open spec fn with_line(self, line: LineView) -> StateView {
        StateView { line, ..self }
    }

    /// The character at the cursor and up to `n - 1` after it give way to
    /// `ch`, once for each, and the cursor stays on the last.
    pub open spec fn replace_char(self, ch: char, n: nat) -> StateView {
        match self.line.delete(n).1 {
            Some(deleted) => self.with_line(
                self.line.delete(n).0.insert(ch, deleted.len()).0.move_backward(1).0,
            ),
            None => self,
        }
    }

    /// The character at the cursor gives way to `ch`, and the cursor moves
    /// behind it. Nothing happens at the end of the line.
    pub open spec fn overwrite_char(self, ch: char) -> StateView {
        if self.line.cursor < self.line.text.len() {
            self.with_line(self.line.replace(self.line.cursor, self.line.cursor + 1, seq![ch]))
        } else {
            self
        }
    }

    /// `text` is put back `n` times: before the cursor, or behind the
    /// character at the cursor where the anchor is `After`. In the Emacs
    /// way the cursor is left behind the text, else on its last character.
    pub open spec fn yank(self, emacs: bool, text: Seq<char>, anchor: Anchor, n: nat) -> StateView {
        let from = match anchor {
            Anchor::After => self.line.move_forward(1).0,
            Anchor::Before => self.line,
        };
        match from.yank(text, n).1 {
            Some(_) => self.with_line(
                if emacs {
                    from.yank(text, n).0
                } else {
                    from.yank(text, n).0.move_backward(1).0
                },
            ),
            None => self.with_line(from),
        }
    }

    /// Whether a step through the history does anything: there is a
    /// history, and there is an entry in the direction of the step.
    pub open spec fn can_step(self, entries: nat, prev: bool) -> bool {
        &&& entries > 0
        &&& !(self.history_index == entries && !prev)
        &&& !(self.history_index == 0 && prev)
    }

    /// The line that shows when the history is at `index`: the entry, with
    /// the cursor at its end, or the line that was saved where `index` is
    /// past the last entry.
    pub open spec fn showing(self, history: Seq<Seq<char>>, index: nat, saved: LineView) -> LineView {
        if index < history.len() {
            self.line.with(history[index as int], history[index as int].len())
        } else {
            self.line.with(saved.text, saved.cursor)
        }
    }

    /// What is saved when the history is left at `index`: the line as it
    /// is, where no entry was shown yet, and else what was saved before.
    pub open spec fn saving(self, entries: nat) -> LineView {
        if self.history_index == entries {
            self.saved.with(self.line.text, self.line.cursor)
        } else {
            self.saved
        }
    }

    /// A step to the entry before, if `prev`, or after the one that is
    /// shown. A step past the newest entry brings back the line that was
    /// edited before the history was looked through.
    pub open spec fn history_next(self, history: Seq<Seq<char>>, prev: bool) -> StateView {
        if !self.can_step(history.len(), prev) {
            self
        } else {
            let index = if prev {
                (self.history_index - 1) as nat
            } else {
                self.history_index + 1
            };
            let saved = self.saving(history.len());
            StateView {
                line: self.showing(history, index, saved),
                saved,
                history_index: index,
                width: self.width,
            }
        }
    }

    /// A jump to the oldest entry, if `first`, or back to the line that
    /// was edited before the history was looked through.
    pub open spec fn history_end(self, history: Seq<Seq<char>>, first: bool) -> StateView {
        if !self.can_step(history.len(), first) {
            self
        } else {
            let index = if first {
                0
            } else {
                history.len()
            };
            let saved = self.saving(history.len());
            StateView {
                line: self.showing(history, index, saved),
                saved,
                history_index: index,
                width: self.width,
            }
        }
    }

    /// The entry from which a search in the direction `dir` sets out, if
    /// there is one.
    pub open spec fn search_start(self, entries: nat, dir: Direction) -> Option<nat> {
        if entries == 0 {
            None
        } else if self.history_index == entries && dir == Direction::Forward {
            None
        } else if self.history_index == 0 && dir == Direction::Reverse {
            None
        } else if dir == Direction::Reverse {
            Some((self.history_index - 1) as nat)
        } else {
            Some(self.history_index + 1)
        }
    }

    /// The state after a search that found the entry `found`, or none, from
    /// the entry `start`.
    pub open spec fn searched(self, history: Seq<Seq<char>>, start: nat, found: Option<usize>) -> StateView {
        match found {
            Some(at) => StateView {
                line: self.line.with(history[at as int], history[at as int].len()),
                history_index: at as nat,
                ..self
            },
            None => StateView { history_index: start, ..self },
        }
    }
}

/// The state of an editor while a line is edited: the line, where the
/// cursor shows, and where in the history the editor is.
#[derive(Debug)]
pub struct State {
    /// The line that is edited.
    pub line: LineBuffer,
    /// Where the cursor shows in the rows of the line.
    pub cursor: Offset,
    /// The entry of the history that is shown; the number of entries while
    /// none is.
    pub history_index: usize,
    /// The line as it was before the history was looked through.
    pub saved_line_for_history: LineBuffer,
    /// The cells of a row.
    pub width: usize,
    /// The number of rows that the line takes.
    pub rows: usize,
}

impl View for State {
    type V = StateView;

    open spec fn view(&self) -> StateView {
        StateView {
            line: self.line@,
            saved: self.saved_line_for_history@,
            history_index: self.history_index as nat,
            width: self.width as nat,
        }
    }
}

impl State {
    /// The rows and the cursor are those of the line as it is.
    pub open spec fn is_fresh(&self) -> bool {
        &&& self.rows == laid_out(self.line@.text, self.width as nat).len()
        &&& self.cursor == focus_of(self.line@.text, self.line@.cursor, self.width as nat)
    }

    /// The cursors stand within their lines.
    pub open spec fn wf(&self) -> bool {
        &&& self.line.wf()
        &&& self.saved_line_for_history.wf()
    }

    /// What the state shows keeps up with the edit that made it of
    /// `before`: it is brought up to date where the edit changed the line,
    /// it stays up to date where it was, and where the line is as it was,
    /// what is shown is as it was, or up to date.
    pub open spec fn follows(&self, before: &State) -> bool {
        &&& self@.line != before@.line ==> self.is_fresh()
        &&& before.is_fresh() && self.width == before.width ==> self.is_fresh()
        &&& self@.line == before@.line ==> self.is_fresh() || (self.cursor == before.cursor
            && self.rows == before.rows)
    }

    /// The state of an editor that begins an empty line, 80 cells wide.
    pub fn new(history_index: usize) -> (state: State)
        ensures
            state.wf(),
            state.is_fresh(),
            state@ == (StateView {
                line: LineView { text: Seq::empty(), cursor: 0, capacity: MAX_LINE as nat },
                saved: LineView { text: Seq::empty(), cursor: 0, capacity: MAX_LINE as nat },
                history_index: history_index as nat,
                width: 80,
            }),
    {
        let capacity = MAX_LINE;
        let mut state = State {
            line: LineBuffer::with_capacity(capacity),
            cursor: Offset::new(0, 0),
            history_index,
            saved_line_for_history: LineBuffer::with_capacity(capacity),
            width: 80,
            rows: 1,
        };
        state.refresh();
        state
    }

    /// Saves the line, to bring it back after the history was looked
    /// through.
    pub fn backup(&mut self)
        ensures
            final(self)@ == (StateView {
                saved: old(self)@.saved.with(old(self)@.line.text, old(self)@.line.cursor),
                ..old(self)@
            }),
            final(self).cursor == old(self).cursor,
            final(self).rows == old(self).rows,
    {
        self.saved_line_for_history.copy_from(&self.line);
    }

    /// Brings the saved line back. What the state shows is not brought up
    /// to date.
    pub fn restore(&mut self)
        ensures
            final(self)@ == (StateView {
                line: old(self)@.line.with(old(self)@.saved.text, old(self)@.saved.cursor),
                ..old(self)@
            }),
            final(self).cursor == old(self).cursor,
            final(self).rows == old(self).rows,
    {
        self.line.copy_from(&self.saved_line_for_history);
    }

    /// Brings what the state shows up to date: the number of rows that the
    /// line takes, and where the cursor shows in them.
    pub fn refresh(&mut self)
        ensures
            final(self)@ == old(self)@,
            final(self).is_fresh(),
    {
        let focuspos = self.line.pos();
        let lines = self.render_width(self.width);
        self.rows = lines.len();
        let ghost all = texts(lines@);
        let mut remaining = focuspos;
        let mut found: Option<Offset> = None;
        let mut row: usize = 0;
        proof {
            assert(all.skip(0) =~= all);
        }
        while row < lines.len() && found.is_none()
            invariant
                row <= lines@.len(),
                all == texts(lines@),
                locate(all, focuspos as nat, 0) == (match found {
                    Some(offset) => Some(offset),
                    None => locate(all.skip(row as int), remaining as nat, row as nat),
                }),
            decreases lines@.len() - row,
        {
            let count = count_graphemes(lines[row].as_str());
            proof {
                assert(all.skip(row as int).first() == lines@[row as int]@);
                assert(all.skip(row as int).drop_first() =~= all.skip(row + 1));
            }
            if remaining <= count {
                found = Some(Offset::new(remaining, row));
            } else {
                remaining = remaining - count - 1;
            }
            row = row + 1;
        }
        self.cursor = match found {
            Some(offset) => offset,
            None => Offset::new(0, 0),
        };
    }

    /// The rows that the line takes at `width` cells.
    pub fn render_width(&self, width: usize) -> (lines: Vec<String>)
        ensures
            texts(lines@) == laid_out(self.line@.text, width as nat),
    {
        let text = self.line.as_str();
        let pieces = split_newlines(text.as_str());
        let ghost all = texts(pieces@);
        let mut lines: Vec<String> = Vec::new();
        let mut i: usize = 0;
        proof {
            assert(all.take(0) =~= Seq::<Seq<char>>::empty());
            assert(texts(lines@) =~= Seq::<Seq<char>>::empty());
        }
        while i < pieces.len()
            invariant
                i <= pieces@.len(),
                all == texts(pieces@),
                texts(lines@) == laid(all.take(i as int), width as nat),
            decreases pieces@.len() - i,
        {
            let letters = graphemes(pieces[i].as_str());
            let ghost before = texts(lines@);
            proof {
                assert(all.take(i + 1).drop_last() =~= all.take(i as int));
                assert(all.take(i + 1).last() == pieces@[i as int]@);
                assert(texts(letters@).len() == letters@.len());
            }
            if width == 0 || letters.len() == 0 {
                lines.push(String::new());
                proof {
                    assert(texts(lines@) =~= before + seq![Seq::<char>::empty()]);
                }
            } else {
                let mut split_lines = chunk_cells(&letters, width);
                let ghost added = texts(split_lines@);
                lines.append(&mut split_lines);
                proof {
                    assert(texts(lines@) =~= before + added);
                }
            }
            i = i + 1;
        }
        proof {
            assert(all.take(pieces@.len() as int) =~= all);
        }
        lines
    }

    /// Ends the editing of the line: returns the line and begins an empty
    /// one.
    pub fn finalize(&mut self) -> (line: String)
        ensures
            line@ == old(self)@.line.text,
            final(self)@ == old(self)@.with_line(
                LineView { text: Seq::empty(), cursor: 0, capacity: MAX_LINE as nat },
            ),
            final(self).is_fresh(),
            old(self).saved_line_for_history.wf() ==> final(self).wf(),
    {
        let rv = self.line.as_str();
        self.line = LineBuffer::with_capacity(MAX_LINE);
        self.refresh();
        rv
    }

    /// Replaces the line by `text`, with the cursor at its end.
    pub fn set_line(&mut self, text: &str)
        ensures
            final(self)@ == old(self)@.with_line(old(self)@.line.with(text@, text@.len())),
            final(self).is_fresh(),
            old(self).saved_line_for_history.wf() ==> final(self).wf(),
    {
        let len = text.unicode_len();
        self.line.update(text, len);
        self.refresh();
    }

    /// Puts `ch` in at the cursor `n` times.
    pub fn edit_insert(&mut self, ch: char, n: usize)
        requires
            old(self).wf(),
        ensures
            final(self).wf(),
            final(self).follows(old(self)),
            final(self)@ == old(self)@.with_line(old(self)@.line.insert(ch, n as nat).0),
    {
        if let Some(_) = self.line.insert(ch, n) {
            self.refresh()
        };
    }

    /// Replaces the character at the cursor, and up to `n - 1` after it,
    /// by `ch`.
    pub fn edit_replace_char(&mut self, ch: char, n: usize)
        requires
            old(self).wf(),
        ensures
            final(self).wf(),
            final(self).follows(old(self)),
            final(self)@ == old(self)@.replace_char(ch, n as nat),
    {
        let succeed = if let Some(chars) = self.line.delete(n) {
            let count = chars.as_str().unicode_len();
            self.line.insert(ch, count);
            self.line.move_backward(1);
            true
        } else {
            false
        };
        if succeed {
            self.refresh()
        }
    }

    /// Replaces the character at the cursor by `ch` and moves on.
    pub fn edit_overwrite_char(&mut self, ch: char)
        requires
            old(self).wf(),
        ensures
            final(self).wf(),
            final(self).follows(old(self)),
            final(self)@ == old(self)@.overwrite_char(ch),
    {
        if let Some(end) = self.line.next_pos(1) {
            let mut text = String::new();
            text.push(ch);
            proof {
                assert(text@ =~= seq![ch]);
            }
            let start = self.line.pos();
            self.line.replace(start, end, text.as_str());
            self.refresh()
        }
    }

    /// Puts `text` back `n` times at the cursor.
    pub fn edit_yank(&mut self, emacs: bool, text: &str, anchor: Anchor, n: usize)
        requires
            old(self).wf(),
        ensures
            final(self).wf(),
            final(self).follows(old(self)),
            final(self)@ == old(self)@.yank(emacs, text@, anchor, n as nat),
    {
        if let Anchor::After = anchor {
            self.line.move_forward(1);
        }
        if self.line.yank(text, n).is_some() {
            if !emacs {
                self.line.move_backward(1);
            }
        }
        self.refresh()
    }

    /// Replaces the text that the last yank put back by `text`.
    pub fn edit_yank_pop(&mut self, yank_size: usize, text: &str)
        requires
            old(self).wf(),
        ensures
            final(self).wf(),
            final(self).follows(old(self)),
            final(self)@ == old(self)@.with_line(
                old(self)@.line.yank_pop(yank_size as nat, text@).0,
            ),
    {
        if self.line.yank_pop(yank_size, text).is_some() {
            self.refresh()
        };
    }

    /// Moves the cursor `n` characters to the left.
    pub fn edit_move_backward(&mut self, n: usize)
        requires
            old(self).wf(),
        ensures
            final(self).wf(),
            final(self).follows(old(self)),
            final(self)@ == old(self)@.with_line(old(self)@.line.move_backward(n as nat).0),
    {
        if self.line.move_backward(n) {
            self.refresh()
        }
    }

    /// Moves the cursor `n` characters to the right.
    pub fn edit_move_forward(&mut self, n: usize)
        requires
            old(self).wf(),
        ensures
            final(self).wf(),
            final(self).follows(old(self)),
            final(self)@ == old(self)@.with_line(old(self)@.line.move_forward(n as nat).0),
    {
        if self.line.move_forward(n) {
            self.refresh()
        }
    }

    /// Moves the cursor to the beginning of the line.
    pub fn edit_move_home(&mut self)
        requires
            old(self).wf(),
        ensures
            final(self).wf(),
            final(self).follows(old(self)),
            final(self)@ == old(self)@.with_line(old(self)@.line.move_home().0),
    {
        if self.line.move_home() {
            self.refresh()
        }
    }

    /// Moves the cursor to the end of the line.
    pub fn edit_move_end(&mut self)
        requires
            old(self).wf(),
        ensures
            final(self).wf(),
            final(self).follows(old(self)),
            final(self)@ == old(self)@.with_line(old(self)@.line.move_end().0),
    {
        if self.line.move_end() {
            self.refresh()
        }
    }

    /// Takes out `n` characters at the cursor, which stays where it is,
    /// and returns them.
    pub fn edit_delete(&mut self, n: usize) -> (deleted: Option<String>)
        requires
            old(self).wf(),
        ensures
            final(self).wf(),
            final(self).follows(old(self)),
            final(self)@ == old(self)@.with_line(old(self)@.line.delete(n as nat).0),
            text_of(deleted) == old(self)@.line.delete(n as nat).1,
    {
        let deleted = self.line.delete(n);
        if deleted.is_some() {
            self.refresh()
        }
        deleted
    }

    /// Takes out `n` characters before the cursor and returns them.
    pub fn edit_backspace(&mut self, n: usize) -> (deleted: Option<String>)
        requires
            old(self).wf(),
        ensures
            final(self).wf(),
            final(self).follows(old(self)),
            final(self)@ == old(self)@.with_line(old(self)@.line.backspace(n as nat).0),
            text_of(deleted) == old(self)@.line.backspace(n as nat).1,
    {
        let deleted = self.line.backspace(n);
        if deleted.is_some() {
            self.refresh()
        }
        deleted
    }

    /// Takes out what stands from the cursor to the end of the line and
    /// returns it.
    pub fn edit_kill_line(&mut self) -> (killed: Option<String>)
        requires
            old(self).wf(),
        ensures
            final(self).wf(),
            final(self).follows(old(self)),
            final(self)@ == old(self)@.with_line(old(self)@.line.kill_line().0),
            text_of(killed) == old(self)@.line.kill_line().1,
    {
        let killed = self.line.kill_line();
        if killed.is_some() {
            self.refresh()
        }
        killed
    }

    /// Takes out what stands from the beginning of the line to the cursor
    /// and returns it.
    pub fn edit_discard_line(&mut self) -> (killed: Option<String>)
        requires
            old(self).wf(),
        ensures
            final(self).wf(),
            final(self).follows(old(self)),
            final(self)@ == old(self)@.with_line(old(self)@.line.discard_line().0),
            text_of(killed) == old(self)@.line.discard_line().1,
    {
        let killed = self.line.discard_line();
        if killed.is_some() {
            self.refresh()
        }
        killed
    }

    /// Exchanges the character before the cursor with the one at the
    /// cursor.
    pub fn edit_transpose_chars(&mut self)
        requires
            old(self).wf(),
        ensures
            final(self).wf(),
            final(self).follows(old(self)),
            final(self)@ == old(self)@.with_line(old(self)@.line.transpose_chars().0),
    {
        let succeed = self.line.transpose_chars();
        if succeed {
            self.refresh()
        }
    }

    /// Moves the cursor `n` words to the left.
    pub fn edit_move_to_prev_word(&mut self, word_def: Word, n: usize)
        requires
            old(self).wf(),
        ensures
            final(self).wf(),
            final(self).follows(old(self)),
            final(self)@ == old(self)@.with_line(
                old(self)@.line.move_to_prev_word(word_def, n as nat).0,
            ),
    {
        if self.line.move_to_prev_word(word_def, n) {
            self.refresh()
        }
    }

    /// Takes out the `n` words before the cursor, which is left at the
    /// beginning of the first of them, and returns them.
    pub fn edit_delete_prev_word(&mut self, word_def: Word, n: usize) -> (killed: Option<String>)
        requires
            old(self).wf(),
        ensures
            final(self).wf(),
            final(self).follows(old(self)),
            final(self)@ == old(self)@.with_line(
                old(self)@.line.delete_prev_word(word_def, n as nat).0,
            ),
            text_of(killed) == old(self)@.line.delete_prev_word(word_def, n as nat).1,
    {
        proof {
            lemma_words_bounds(
                self.line@.text,
                At::Start,
                word_def,
                self.line@.cursor as int,
                n as nat,
            );
        }
        let killed = self.line.delete_prev_word(word_def, n);
        if killed.is_some() {
            self.refresh()
        }
        killed
    }

    /// Moves the cursor `n` words to the right.
    pub fn edit_move_to_next_word(&mut self, at: At, word_def: Word, n: usize)
        requires
            old(self).wf(),
        ensures
            final(self).wf(),
            final(self).follows(old(self)),
            final(self)@ == old(self)@.with_line(
                old(self)@.line.move_to_next_word(at, word_def, n as nat).0,
            ),
    {
        if self.line.move_to_next_word(at, word_def, n) {
            self.refresh()
        }
    }

    /// Takes out the `n` words after the cursor and returns them.
    pub fn edit_delete_word(&mut self, at: At, word_def: Word, n: usize) -> (killed: Option<
        String,
    >)
        requires
            old(self).wf(),
        ensures
            final(self).wf(),
            final(self).follows(old(self)),
            final(self)@ == old(self)@.with_line(
                old(self)@.line.delete_word(at, word_def, n as nat).0,
            ),
            text_of(killed) == old(self)@.line.delete_word(at, word_def, n as nat).1,
    {
        let killed = self.line.delete_word(at, word_def, n);
        if killed.is_some() {
            self.refresh()
        }
        killed
    }

    /// Moves the cursor to the `n`th character that the search `cs` looks
    /// for.
    pub fn edit_move_to(&mut self, cs: CharSearch, n: usize)
        requires
            old(self).wf(),
        ensures
            final(self).wf(),
            final(self).follows(old(self)),
            final(self)@ == old(self)@.with_line(old(self)@.line.move_to(cs, n as nat).0),
    {
        if self.line.move_to(cs, n) {
            self.refresh()
        }
    }

    /// Takes out what stands between the cursor and the `n`th character
    /// that the search `cs` looks for, and returns it.
    pub fn edit_delete_to(&mut self, cs: CharSearch, n: usize) -> (killed: Option<String>)
        requires
            old(self).wf(),
        ensures
            final(self).wf(),
            final(self).follows(old(self)),
            final(self)@ == old(self)@.with_line(old(self)@.line.delete_to(cs, n as nat).0),
            text_of(killed) == old(self)@.line.delete_to(cs, n as nat).1,
    {
        proof {
            lemma_nth_bounds(self.line@.text, cs.target(), self.line@.cursor as int + 1, n as nat);
            lemma_nth_bounds(self.line@.text, cs.target(), self.line@.cursor as int, n as nat);
        }
        let killed = self.line.delete_to(cs, n);
        if killed.is_some() {
            self.refresh()
        }
        killed
    }

    /// Makes the next word after the cursor into what `a` says.
    pub fn edit_word(&mut self, a: WordAction)
        requires
            old(self).wf(),
        ensures
            final(self).wf(),
            final(self).follows(old(self)),
            final(self)@ == old(self)@.with_line(old(self)@.line.edit_word(a).0),
    {
        let succeed = self.line.edit_word(a);
        if succeed {
            self.refresh()
        }
    }

    /// Exchanges the word that ends next after the cursor with the word
    /// before it, `n` times.
    pub fn edit_transpose_words(&mut self, n: usize)
        requires
            old(self).wf(),
        ensures
            final(self).wf(),
            final(self).follows(old(self)),
            final(self)@ == old(self)@.with_line(old(self)@.line.transpose_words(n as nat).0),
    {
        let succeed = self.line.transpose_words(n);
        if succeed {
            self.refresh()
        }
    }

    /// Shows the history at `index`: the entry there, or the saved line
    /// where `index` is past the newest entry.
    fn show(&mut self, history: &History, index: usize)
        requires
            old(self).saved_line_for_history.wf(),
        ensures
            final(self).wf(),
            final(self).is_fresh(),
            final(self)@ == (StateView {
                line: old(self)@.showing(history.entries(), index as nat, old(self)@.saved),
                history_index: index as nat,
                ..old(self)@
            }),
    {
        self.history_index = index;
        match history.get(index) {
            Some(buf) => {
                let len = buf.as_str().unicode_len();
                self.line.update(buf.as_str(), len);
            },
            None => {
                self.restore();
            },
        }
        self.refresh()
    }

    /// Replaces the line by the history entry before, if `prev`, or after
    /// the one that is shown. The line as it was edited is saved when the
    /// newest entry is left behind, and comes back past the newest entry.
    pub fn edit_history_next(&mut self, history: &History, prev: bool)
        requires
            old(self).wf(),
            old(self).history_index < usize::MAX || old(self).history_index
                == history.entries().len(),
        ensures
            final(self).wf(),
            final(self).follows(old(self)),
            final(self)@ == old(self)@.history_next(history.entries(), prev),
            old(self).history_index <= history.entries().len() ==> final(self).history_index
                <= history.entries().len(),
    {
        if history.is_empty() {
            return ;
        }
        if self.history_index == history.len() {
            if prev {
                self.backup();
            } else {
                return ;
            }
        } else if self.history_index == 0 && prev {
            return ;
        }
        let index = if prev {
            self.history_index - 1
        } else {
            self.history_index + 1
        };
        self.show(history, index);
    }

    /// Replaces the line by the nearest history entry that begins with
    /// what stands before the cursor, searching from the entry next to the
    /// one that is shown in the direction `dir`. Where the search finds
    /// none, the line stays, and the entry from which the search set out
    /// counts as shown.
    pub fn edit_history_search(&mut self, history: &History, dir: Direction)
        requires
            old(self).wf(),
            old(self).history_index < usize::MAX || old(self).history_index
                == history.entries().len(),
        ensures
            final(self).wf(),
            final(self).follows(old(self)),
            old(self).history_index <= history.entries().len() ==> final(self).history_index
                <= history.entries().len(),
            match old(self)@.search_start(history.entries().len(), dir) {
                None => final(self)@ == old(self)@,
                Some(start) => exists|found: Option<usize>|
                    history.is_nearest(
                        old(self)@.line.text.take(old(self)@.line.cursor as int),
                        start,
                        dir,
                        found,
                    ) && final(self)@ == old(self)@.searched(history.entries(), start, found),
            },
    {
        if history.is_empty() {
            return ;
        }
        if self.history_index == history.len() && dir == Direction::Forward {
            return ;
        } else if self.history_index == 0 && dir == Direction::Reverse {
            return ;
        }
        if dir == Direction::Reverse {
            self.history_index -= 1;
        } else {
            self.history_index += 1;
        }
        let term = self.line.before_cursor();
        let found = history.starts_with(term.as_str(), self.history_index, dir);
        if let Some(history_index) = found {
            self.history_index = history_index;
            match history.get(history_index) {
                Some(buf) => {
                    let len = buf.as_str().unicode_len();
                    self.line.update(buf.as_str(), len);
                },
                None => {},
            }
            self.refresh()
        }
        proof {
            let start = old(self)@.search_start(history.entries().len(), dir)->0;
            assert(history.is_nearest(
                old(self)@.line.text.take(old(self)@.line.cursor as int),
                start,
                dir,
                found,
            ));
            assert(self@ == old(self)@.searched(history.entries(), start, found));
        }
    }

    /// Replaces the line by the oldest history entry, if `first`, or
    /// brings back the line that was edited before the history was looked
    /// through.
    pub fn edit_history(&mut self, history: &History, first: bool)
        requires
            old(self).wf(),
            old(self).history_index < usize::MAX || old(self).history_index
                == history.entries().len(),
        ensures
            final(self).wf(),
            final(self).follows(old(self)),
            final(self)@ == old(self)@.history_end(history.entries(), first),
            old(self).history_index <= history.entries().len() ==> final(self).history_index
                <= history.entries().len(),
    {
        if history.is_empty() {
            return ;
        }
        if self.history_index == history.len() {
            if first {
                self.backup();
            } else {
                return ;
            }
        } else if self.history_index == 0 && first {
            return ;
        }
        let index = if first {
            0
        } else {
            history.len()
        };
        self.show(history, index);
    }
}

/// The state of an editor that edits `line` with the cursor before
/// character `pos`, 80 cells wide, and that has not looked at a history.
pub fn init_state(line: &str, pos: usize) -> (state: State)
    ensures
        state.wf(),
        state.is_fresh(),
        state@ == (StateView {
            line: LineView {
                text: line@,
                cursor: reach(line@.len(), 0, pos as nat),
                capacity: MAX_LINE as nat,
            },
            saved: LineView { text: Seq::empty(), cursor: 0, capacity: 100 },
            history_index: 0,
            width: 80,
        }),
{
    let mut state = State {
        line: LineBuffer::init(line, pos),
        cursor: Offset::new(0, 0),
        history_index: 0,
        saved_line_for_history: LineBuffer::with_capacity(100),
        width: 80,
        rows: 1,
    };
    state.refresh();
    state
}

} // verus!
