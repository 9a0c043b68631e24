//! The line that is being edited.

use vstd::prelude::*;
use crate::chars::{chars_of, string_of};

verus! {

/// The longest line that a buffer takes, in characters.
pub const MAX_LINE: usize = 4096;

/// What counts as a word.
#[derive(Debug, Clone, Copy, PartialEq, Eq, Structural)]
pub enum Word {
    /// A run of characters that are not white space.
    Big,
    /// A run of letters and digits.
    Emacs,
    /// A run of letters, digits and underscores.
    Vi,
}

/// `ch` belongs to a word.
pub open spec fn in_word(word_def: Word, ch: char) -> bool {
    match word_def {
        Word::Big => !is_blank(ch),
        Word::Emacs => is_alphanumeric(ch),
        Word::Vi => is_alphanumeric(ch) || ch == '_',
    }
}

/// `ch` is a space, a tab or a line break.
pub open spec fn is_blank(ch: char) -> bool {
    ch == ' ' || ch == '\t' || ch == '\n' || ch == '\r'
}

/// `ch` is a letter or a digit of the basic Latin alphabet.
pub open spec fn is_alphanumeric(ch: char) -> bool {
    ('a' <= ch && ch <= 'z') || ('A' <= ch && ch <= 'Z') || ('0' <= ch && ch <= '9')
}

/// Whether `ch` belongs to a word.
pub fn is_word_char(word_def: Word, ch: char) -> (yes: bool)
    ensures
        yes == in_word(word_def, ch),
{
    let alphanumeric = ('a' <= ch && ch <= 'z') || ('A' <= ch && ch <= 'Z') || ('0' <= ch && ch
        <= '9');
    match word_def {
        Word::Big => !(ch == ' ' || ch == '\t' || ch == '\n' || ch == '\r'),
        Word::Emacs => alphanumeric,
        Word::Vi => alphanumeric || ch == '_',
    }
}

/// Where the word before `pos` begins: back over what is no word, then
/// back over the word.
pub open spec fn prev_word_start(text: Seq<char>, word_def: Word, pos: int) -> int {
    word_begin(text, word_def, gap_begin(text, word_def, pos))
}

/// The first position at or before `pos` that has a word character before
/// it, or the beginning.
pub open spec fn gap_begin(text: Seq<char>, word_def: Word, pos: int) -> int
    decreases pos,
{
    if pos <= 0 {
        0
    } else if in_word(word_def, text[pos - 1]) {
        pos
    } else {
        gap_begin(text, word_def, pos - 1)
    }
}

/// The first position at or before `pos` that has no word character before
/// it.
pub open spec fn word_begin(text: Seq<char>, word_def: Word, pos: int) -> int
    decreases pos,
{
    if pos <= 0 {
        0
    } else if !in_word(word_def, text[pos - 1]) {
        pos
    } else {
        word_begin(text, word_def, pos - 1)
    }
}

/// The first position at or after `pos` at which a word character stands,
/// or the end.
pub open spec fn gap_end(text: Seq<char>, word_def: Word, pos: int) -> int
    decreases text.len() - pos,
{
    if pos >= text.len() {
        text.len() as int
    } else if in_word(word_def, text[pos]) {
        pos
    } else {
        gap_end(text, word_def, pos + 1)
    }
}

/// The first position at or after `pos` at which no word character stands,
/// or the end.
pub open spec fn word_end(text: Seq<char>, word_def: Word, pos: int) -> int
    decreases text.len() - pos,
{
    if pos >= text.len() {
        text.len() as int
    } else if !in_word(word_def, text[pos]) {
        pos
    } else {
        word_end(text, word_def, pos + 1)
    }
}

/// Where the next word ends: over what is no word, then over the word.
pub open spec fn next_word_end(text: Seq<char>, word_def: Word, pos: int) -> int {
    word_end(text, word_def, gap_end(text, word_def, pos))
}

/// Where the next word begins: over the word that `pos` is in, then over
/// what is no word.
pub open spec fn next_word_start(text: Seq<char>, word_def: Word, pos: int) -> int {
    gap_end(text, word_def, word_end(text, word_def, pos))
}

/// Where the scans end.
pub proof fn lemma_word_bounds(text: Seq<char>, word_def: Word, pos: int)
    requires
        0 <= pos <= text.len(),
    ensures
        0 <= gap_begin(text, word_def, pos) <= pos,
        0 <= word_begin(text, word_def, pos) <= pos,
        pos <= gap_end(text, word_def, pos) <= text.len(),
        pos <= word_end(text, word_def, pos) <= text.len(),
    decreases text.len(),
{
    lemma_back_bounds(text, word_def, pos);
    lemma_forth_bounds(text, word_def, pos);
}

/// Where the scans to the left end.
pub proof fn lemma_back_bounds(text: Seq<char>, word_def: Word, pos: int)
    requires
        0 <= pos <= text.len(),
    ensures
        0 <= gap_begin(text, word_def, pos) <= pos,
        0 <= word_begin(text, word_def, pos) <= pos,
    decreases pos,
{
    if pos > 0 {
        lemma_back_bounds(text, word_def, pos - 1);
    }
}

/// Where the scans to the right end.
pub proof fn lemma_forth_bounds(text: Seq<char>, word_def: Word, pos: int)
    requires
        0 <= pos <= text.len(),
    ensures
        pos <= gap_end(text, word_def, pos) <= text.len(),
        pos <= word_end(text, word_def, pos) <= text.len(),
    decreases text.len() - pos,
{
    if pos < text.len() {
        lemma_forth_bounds(text, word_def, pos + 1);
    }
}

/// The position `n` characters after `from`, or the end of a text of `len`
/// characters where that is nearer.
pub open spec fn reach(len: nat, from: nat, n: nat) -> nat {
    if from + n <= len {
        from + n
    } else {
        len
    }
}

/// The position `n` characters before `from`, or the beginning where that
/// is nearer.
pub open spec fn retreat(from: nat, n: nat) -> nat {
    if n <= from {
        (from - n) as nat
    } else {
        0
    }
}

/// `count` times `ch`.
pub open spec fn run(ch: char, count: nat) -> Seq<char> {
    Seq::new(count, |i: int| ch)
}

/// `text` written `n` times.
pub open spec fn times(text: Seq<char>, n: nat) -> Seq<char>
    decreases n,
{
    if n == 0 {
        Seq::empty()
    } else {
        times(text, (n - 1) as nat) + text
    }
}

/// `text` with `added` put in before character `at`.
pub open spec fn spliced(text: Seq<char>, at: int, added: Seq<char>) -> Seq<char> {
    text.take(at) + added + text.skip(at)
}

/// `text` without the characters from `from` up to `to`.
pub open spec fn cut(text: Seq<char>, from: int, to: int) -> Seq<char> {
    text.take(from) + text.skip(to)
}

/// Where the cursor gets to when it moves `n` words to the left.
pub open spec fn words_back(text: Seq<char>, word_def: Word, pos: int, n: nat) -> int
    decreases n,
{
    if n == 0 {
        pos
    } else {
        words_back(text, word_def, prev_word_start(text, word_def, pos), (n - 1) as nat)
    }
}

/// Where in a word a move to the right ends.
#[derive(Debug, Clone, Copy, PartialEq, Eq, Structural)]
pub enum At {
    /// At the beginning of the next word.
    Start,
    /// Behind the next word.
    AfterEnd,
}

/// Where the cursor gets to when it moves one word to the right.
pub open spec fn word_forth(text: Seq<char>, at: At, word_def: Word, pos: int) -> int {
    match at {
        At::Start => next_word_start(text, word_def, pos),
        At::AfterEnd => next_word_end(text, word_def, pos),
    }
}

/// Where the cursor gets to when it moves `n` words to the right.
pub open spec fn words_forth(text: Seq<char>, at: At, word_def: Word, pos: int, n: nat) -> int
    decreases n,
{
    if n == 0 {
        pos
    } else {
        words_forth(text, at, word_def, word_forth(text, at, word_def, pos), (n - 1) as nat)
    }
}

/// Where moves by words end.
pub proof fn lemma_words_bounds(text: Seq<char>, at: At, word_def: Word, pos: int, n: nat)
    requires
        0 <= pos <= text.len(),
    ensures
        0 <= words_back(text, word_def, pos, n) <= pos,
        pos <= words_forth(text, at, word_def, pos, n) <= text.len(),
    decreases n,
{
    if n > 0 {
        lemma_word_bounds(text, word_def, pos);
        lemma_word_bounds(text, word_def, gap_begin(text, word_def, pos));
        lemma_word_bounds(text, word_def, gap_end(text, word_def, pos));
        lemma_word_bounds(text, word_def, word_end(text, word_def, pos));
        lemma_words_bounds(text, at, word_def, prev_word_start(text, word_def, pos), (n - 1) as nat);
        lemma_words_bounds(text, at, word_def, word_forth(text, at, word_def, pos), (n - 1) as nat);
    }
}

/// What a [`LineBuffer`] holds, and what the edits make of it. An edit gives
/// the line after it and what the edit answers.
pub struct LineView {
    /// The text.
    pub text: Seq<char>,
    /// The number of characters before the cursor.
    pub cursor: nat,
    /// The longest text that the buffer takes.
    pub capacity: nat,
}

impl LineView {
    /// The cursor stands within the text or at its end.
    pub open spec fn wf(self) -> bool {
        self.cursor <= self.text.len()
    }

    /// The line with another text and cursor.
    pub open spec fn with(self, text: Seq<char>, cursor: nat) -> LineView {
        LineView { text, cursor, capacity: self.capacity }
    }

    /// The line with the cursor at `cursor`, and whether that moves the
    /// cursor.
    pub open spec fn moved_to(self, cursor: nat) -> (LineView, bool) {
        (self.with(self.text, cursor), cursor != self.cursor)
    }

    /// The line without the characters from `from` up to `to`, the cursor
    /// at `from`, and the characters taken out where there are any.
    pub open spec fn killed(self, from: int, to: int) -> (LineView, Option<Seq<char>>) {
        if from < to {
            (self.with(cut(self.text, from, to), from as nat), Some(self.text.subrange(from, to)))
        } else {
            (self.with(self.text, from as nat), None)
        }
    }

    /// `added` goes in at the cursor and the cursor behind it, unless
    /// there is nothing to add or the text would get longer than the
    /// buffer takes. The answer says whether it went in at the end.
    pub open spec fn added(self, added: Seq<char>) -> (LineView, Option<bool>) {
        if added.len() == 0 || self.text.len() + added.len() > self.capacity {
            (self, None)
        } else {
            (
                self.with(
                    spliced(self.text, self.cursor as int, added),
                    self.cursor + added.len(),
                ),
                Some(self.cursor == self.text.len()),
            )
        }
    }

    /// `ch` goes in `n` times.
    pub open spec fn insert(self, ch: char, n: nat) -> (LineView, Option<bool>) {
        self.added(run(ch, n))
    }

    /// `text` goes in `n` times.
    pub open spec fn yank(self, text: Seq<char>, n: nat) -> (LineView, Option<bool>) {
        self.added(times(text, n))
    }

    /// Up to `n` characters at the cursor go.
    pub open spec fn delete(self, n: nat) -> (LineView, Option<Seq<char>>) {
        self.killed(self.cursor as int, reach(self.text.len(), self.cursor, n) as int)
    }

    /// Up to `n` characters before the cursor go.
    pub open spec fn backspace(self, n: nat) -> (LineView, Option<Seq<char>>) {
        self.killed(retreat(self.cursor, n) as int, self.cursor as int)
    }

    /// The cursor moves up to `n` characters to the left.
    pub open spec fn move_backward(self, n: nat) -> (LineView, bool) {
        self.moved_to(retreat(self.cursor, n))
    }

    /// The cursor moves up to `n` characters to the right.
    pub open spec fn move_forward(self, n: nat) -> (LineView, bool) {
        self.moved_to(reach(self.text.len(), self.cursor, n))
    }

    /// The cursor moves to the beginning.
    pub open spec fn move_home(self) -> (LineView, bool) {
        self.moved_to(0)
    }

    /// The cursor moves to the end.
    pub open spec fn move_end(self) -> (LineView, bool) {
        self.moved_to(self.text.len())
    }

    /// What stands from the cursor to the end goes.
    pub open spec fn kill_line(self) -> (LineView, Option<Seq<char>>) {
        self.killed(self.cursor as int, self.text.len() as int)
    }

    /// What stands from the beginning to the cursor goes.
    pub open spec fn discard_line(self) -> (LineView, Option<Seq<char>>) {
        self.killed(0, self.cursor as int)
    }

    /// The character before the cursor changes places with the one at the
    /// cursor, and the cursor moves behind both; at the end of the text the
    /// last two characters change places. Nothing happens at the beginning
    /// and in a text of fewer than two characters.
    pub open spec fn transpose_chars(self) -> (LineView, bool) {
        if self.cursor == 0 || self.text.len() < 2 {
            (self, false)
        } else {
            let at = if self.cursor == self.text.len() {
                self.cursor - 1
            } else {
                self.cursor as int
            };
            (
                self.with(
                    self.text.update(at - 1, self.text[at]).update(at, self.text[at - 1]),
                    (at + 1) as nat,
                ),
                true,
            )
        }
    }

    /// The characters from `start` up to `end` give way to `text`, and the
    /// cursor goes behind it.
    pub open spec fn replace(self, start: nat, end: nat, text: Seq<char>) -> LineView {
        self.with(
            self.text.take(start as int) + text + self.text.skip(end as int),
            start + text.len(),
        )
    }

    /// The `yank_size` characters before the cursor give way to `text`,
    /// unless fewer stand there or the text would get longer than the
    /// buffer takes. The answer says whether the cursor stood at the end.
    pub open spec fn yank_pop(self, yank_size: nat, text: Seq<char>) -> (LineView, Option<bool>) {
        if yank_size > self.cursor || self.text.len() - yank_size + text.len() > self.capacity {
            (self, None)
        } else {
            (
                self.replace((self.cursor - yank_size) as nat, self.cursor, text),
                Some(self.cursor == self.text.len()),
            )
        }
    }

    /// The cursor moves `n` words to the left, each time to the beginning
    /// of a word.
    pub open spec fn move_to_prev_word(self, word_def: Word, n: nat) -> (LineView, bool) {
        self.moved_to(words_back(self.text, word_def, self.cursor as int, n) as nat)
    }

    /// The cursor moves `n` words to the right.
    pub open spec fn move_to_next_word(self, at: At, word_def: Word, n: nat) -> (LineView, bool) {
        self.moved_to(words_forth(self.text, at, word_def, self.cursor as int, n) as nat)
    }

    /// The `n` words before the cursor go.
    pub open spec fn delete_prev_word(self, word_def: Word, n: nat) -> (LineView, Option<Seq<char>>) {
        self.killed(words_back(self.text, word_def, self.cursor as int, n), self.cursor as int)
    }

    /// The `n` words after the cursor go.
    pub open spec fn delete_word(self, at: At, word_def: Word, n: nat) -> (LineView, Option<
        Seq<char>,
    >) {
        self.killed(
            self.cursor as int,
            words_forth(self.text, at, word_def, self.cursor as int, n),
        )
    }
    /// The cursor moves to where the search `cs` for the `n`th character
    /// leaves it, if the search finds the character.
    pub open spec fn move_to(self, cs: CharSearch, n: nat) -> (LineView, bool) {
        match search_target(self.text, self.cursor, cs, n) {
            Some(target) => self.moved_to(target),
            None => (self, false),
        }
    }

    /// What stands between the cursor and the character that the search
    /// `cs` finds goes, with the character where the cursor would go onto
    /// it or behind it.
    pub open spec fn delete_to(self, cs: CharSearch, n: nat) -> (LineView, Option<Seq<char>>) {
        match search_target(self.text, self.cursor, cs, n) {
            Some(target) => match cs {
                CharSearch::Forward(_) => self.killed(self.cursor as int, target as int + 1),
                CharSearch::ForwardBefore(_) => self.killed(self.cursor as int, target as int + 1),
                _ => self.killed(target as int, self.cursor as int),
            },
            None => (self, None),
        }
    }

    /// The next word after the cursor is made into what `a` says, and the
    /// cursor goes behind it. Nothing happens where no word follows.
    pub open spec fn edit_word(self, a: WordAction) -> (LineView, bool) {
        let start = gap_end(self.text, Word::Emacs, self.cursor as int);
        let end = word_end(self.text, Word::Emacs, start);
        if start >= end {
            (self, false)
        } else {
            (
                self.with(
                    Seq::new(
                        self.text.len(),
                        |i: int|
                            if start <= i < end {
                                recased(a, self.text[i], i - start)
                            } else {
                                self.text[i]
                            },
                    ),
                    end as nat,
                ),
                true,
            )
        }
    }
    /// Where the two words lie that change places: the word that ends
    /// next after the cursor, and the word before it.
    pub open spec fn word_pair(self) -> (int, int, int, int) {
        let second_end = next_word_end(self.text, Word::Emacs, self.cursor as int);
        let second_start = word_begin(self.text, Word::Emacs, second_end);
        let first_start = prev_word_start(self.text, Word::Emacs, second_start);
        let first_end = word_end(self.text, Word::Emacs, first_start);
        (first_start, first_end, second_start, second_end)
    }

    /// The word that ends next after the cursor changes places with the
    /// word before it, and the cursor goes behind both. Nothing happens
    /// where there are no two words.
    pub open spec fn transpose_words_once(self) -> (LineView, bool) {
        let (first_start, first_end, second_start, second_end) = self.word_pair();
        if first_start < first_end <= second_start < second_end {
            (
                self.with(
                    self.text.take(first_start) + self.text.subrange(second_start, second_end)
                        + self.text.subrange(first_end, second_start) + self.text.subrange(
                        first_start,
                        first_end,
                    ) + self.text.skip(second_end),
                    second_end as nat,
                ),
                true,
            )
        } else {
            (self, false)
        }
    }

    /// Words change places `n` times, or as often as there are two words
    /// to change. The answer says whether any did.
    pub open spec fn transpose_words(self, n: nat) -> (LineView, bool)
        decreases n,
    {
        if n == 0 {
            (self, false)
        } else if self.transpose_words_once().1 {
            (self.transpose_words_once().0.transpose_words((n - 1) as nat).0, true)
        } else {
            (self, false)
        }
    }
}

/// What an edit took out, as a string views it.
pub open spec fn text_of(taken: Option<String>) -> Option<Seq<char>> {
    match taken {
        Some(text) => Some(text@),
        None => None,
    }
}

/// What a search for a character looks for, and where it leaves the
/// cursor.
#[derive(Debug, Clone, Copy, PartialEq, Eq, Structural)]
pub enum CharSearch {
    /// The next such character; the cursor goes onto it.
    Forward(char),
    /// The next such character; the cursor goes before it.
    ForwardBefore(char),
    /// The last such character before the cursor; the cursor goes onto it.
    Backward(char),
    /// The last such character before the cursor; the cursor goes behind
    /// it.
    BackwardAfter(char),
}

impl CharSearch {
    /// The character that is looked for.
    pub open spec fn target(self) -> char {
        match self {
            CharSearch::Forward(ch) => ch,
            CharSearch::ForwardBefore(ch) => ch,
            CharSearch::Backward(ch) => ch,
            CharSearch::BackwardAfter(ch) => ch,
        }
    }

    /// Whether the search goes to the right.
    pub open spec fn forward(self) -> bool {
        self is Forward || self is ForwardBefore
    }
}

/// The place of the `n`th `ch` at or after `from`, if there are that
/// many.
pub open spec fn nth_after(text: Seq<char>, ch: char, from: int, n: nat) -> Option<int>
    decreases text.len() - from,
{
    if n == 0 || from >= text.len() || from < 0 {
        None
    } else if text[from] == ch {
        if n == 1 {
            Some(from)
        } else {
            nth_after(text, ch, from + 1, (n - 1) as nat)
        }
    } else {
        nth_after(text, ch, from + 1, n)
    }
}

/// The place of the `n`th `ch` before `before`, counted from there to the
/// left, if there are that many.
pub open spec fn nth_before(text: Seq<char>, ch: char, before: int, n: nat) -> Option<int>
    decreases before,
{
    if n == 0 || before <= 0 || before > text.len() {
        None
    } else if text[before - 1] == ch {
        if n == 1 {
            Some(before - 1)
        } else {
            nth_before(text, ch, before - 1, (n - 1) as nat)
        }
    } else {
        nth_before(text, ch, before - 1, n)
    }
}

/// Where a search leaves the cursor of a line of `text` with the cursor at
/// `cursor`, if it finds the character: a search to the right begins behind
/// the character at the cursor, a search to the left before the cursor.
pub open spec fn search_target(text: Seq<char>, cursor: nat, cs: CharSearch, n: nat) -> Option<
    nat,
> {
    match cs {
        CharSearch::Forward(ch) => match nth_after(text, ch, cursor as int + 1, n) {
            Some(at) => Some(at as nat),
            None => None,
        },
        CharSearch::ForwardBefore(ch) => match nth_after(text, ch, cursor as int + 1, n) {
            Some(at) => Some((at - 1) as nat),
            None => None,
        },
        CharSearch::Backward(ch) => match nth_before(text, ch, cursor as int, n) {
            Some(at) => Some(at as nat),
            None => None,
        },
        CharSearch::BackwardAfter(ch) => match nth_before(text, ch, cursor as int, n) {
            Some(at) => Some((at + 1) as nat),
            None => None,
        },
    }
}

/// Where the searches find what they look for.
pub proof fn lemma_nth_bounds(text: Seq<char>, ch: char, from: int, n: nat)
    ensures
        nth_after(text, ch, from, n) matches Some(at) ==> from <= at < text.len() && 0 <= from,
        nth_before(text, ch, from, n) matches Some(at) ==> 0 <= at < from <= text.len(),
    decreases text.len(),
{
    lemma_nth_after_bounds(text, ch, from, n);
    lemma_nth_before_bounds(text, ch, from, n);
}

/// Where a search to the right finds what it looks for.
pub proof fn lemma_nth_after_bounds(text: Seq<char>, ch: char, from: int, n: nat)
    ensures
        nth_after(text, ch, from, n) matches Some(at) ==> from <= at < text.len() && 0 <= from,
    decreases text.len() - from,
{
    if n > 0 && 0 <= from < text.len() {
        lemma_nth_after_bounds(text, ch, from + 1, n);
        lemma_nth_after_bounds(text, ch, from + 1, (n - 1) as nat);
    }
}

/// Where a search to the left finds what it looks for.
pub proof fn lemma_nth_before_bounds(text: Seq<char>, ch: char, before: int, n: nat)
    ensures
        nth_before(text, ch, before, n) matches Some(at) ==> 0 <= at < before <= text.len(),
    decreases before,
{
    if n > 0 && 0 < before <= text.len() {
        lemma_nth_before_bounds(text, ch, before - 1, n);
        lemma_nth_before_bounds(text, ch, before - 1, (n - 1) as nat);
    }
}

/// What a word is made into.
#[derive(Debug, Clone, Copy, PartialEq, Eq, Structural)]
pub enum WordAction {
    /// A capital at its beginning and small letters after it.
    CAPITALIZE,
    /// Small letters.
    LOWERCASE,
    /// Capitals.
    UPPERCASE,
}

/// The small letter of a capital of the basic Latin alphabet, and any other
/// character as it is.
pub open spec fn lower(ch: char) -> char {
    if 'A' <= ch && ch <= 'Z' {
        ((ch as u8) + 32) as char
    } else {
        ch
    }
}

/// What `a` makes of the character `ch` at place `i` of a word.
pub open spec fn recased(a: WordAction, ch: char, i: int) -> char {
    match a {
        WordAction::CAPITALIZE => if i == 0 {
            crate::widget::readline::consts::upper(ch)
        } else {
            lower(ch)
        },
        WordAction::LOWERCASE => lower(ch),
        WordAction::UPPERCASE => crate::widget::readline::consts::upper(ch),
    }
}

/// A line of text with a cursor in it.
#[derive(Debug)]
pub struct LineBuffer {
    buf: Vec<char>,
    pos: usize,
    limit: usize,
}

impl View for LineBuffer {
    type V = LineView;

    closed spec fn view(&self) -> LineView {
        LineView { text: self.buf@, cursor: self.pos as nat, capacity: self.limit as nat }
    }
}

impl LineBuffer {
    /// The cursor stands within the text or at its end.
    pub open spec fn wf(&self) -> bool {
        self@.wf()
    }

    /// An empty buffer that takes up to `capacity` characters.
    pub fn with_capacity(capacity: usize) -> (line: Self)
        ensures
            line@ == (LineView { text: Seq::empty(), cursor: 0, capacity: capacity as nat }),
    {
        LineBuffer { buf: Vec::new(), pos: 0, limit: capacity }
    }

    /// A buffer that holds `line` with the cursor before character `pos`,
    /// or at the end where `line` is shorter.
    pub fn init(line: &str, pos: usize) -> (buffer: Self)
        ensures
            buffer@ == (LineView {
                text: line@,
                cursor: reach(line@.len(), 0, pos as nat),
                capacity: MAX_LINE as nat,
            }),
    {
        let buf = chars_of(line);
        let pos = if pos <= buf.len() {
            pos
        } else {
            buf.len()
        };
        LineBuffer { buf, pos, limit: MAX_LINE }
    }

    /// The text as a string.
    pub fn as_str(&self) -> (text: String)
        ensures
            text@ == self@.text,
    {
        let text = string_of(&self.buf, 0, self.buf.len());
        proof {
            assert(text@ =~= self.buf@);
        }
        text
    }

    /// The text before the cursor as a string.
    pub fn before_cursor(&self) -> (text: String)
        requires
            self.wf(),
        ensures
            text@ == self@.text.take(self@.cursor as int),
    {
        string_of(&self.buf, 0, self.pos)
    }

    /// The number of characters before the cursor.
    pub fn pos(&self) -> (pos: usize)
        ensures
            pos == self@.cursor,
    {
        self.pos
    }

    /// The number of characters.
    pub fn len(&self) -> (len: usize)
        ensures
            len == self@.text.len(),
    {
        self.buf.len()
    }

    pub fn is_empty(&self) -> (empty: bool)
        ensures
            empty == (self@.text.len() == 0),
    {
        self.buf.len() == 0
    }

    /// Replaces the text by `buf` and puts the cursor before character
    /// `pos`, or at the end where `buf` is shorter.
    pub fn update(&mut self, buf: &str, pos: usize)
        ensures
            final(self)@ == old(self)@.with(buf@, reach(buf@.len(), 0, pos as nat)),
    {
        self.buf = chars_of(buf);
        self.pos = if pos <= self.buf.len() {
            pos
        } else {
            self.buf.len()
        };
    }

    /// Takes over the text and the cursor of `other`.
    pub fn copy_from(&mut self, other: &LineBuffer)
        ensures
            final(self)@ == old(self)@.with(other@.text, other@.cursor),
    {
        let mut buf: Vec<char> = Vec::new();
        let mut i: usize = 0;
        while i < other.buf.len()
            invariant
                i <= other.buf@.len(),
                buf@ == other.buf@.take(i as int),
            decreases other.buf@.len() - i,
        {
            buf.push(other.buf[i]);
            proof {
                assert(other.buf@.take(i + 1) =~= other.buf@.take(i as int).push(
                    other.buf@[i as int],
                ));
            }
            i = i + 1;
        }
        proof {
            assert(other.buf@.take(other.buf@.len() as int) =~= other.buf@);
        }
        self.buf = buf;
        self.pos = other.pos;
    }

    /// Puts `added` in at the cursor and the cursor behind it.
    fn splice(&mut self, added: &Vec<char>)
        requires
            old(self).wf(),
        ensures
            final(self)@ == old(self)@.with(
                spliced(old(self)@.text, old(self)@.cursor as int, added@),
                old(self)@.cursor + added@.len(),
            ),
            final(self).wf(),
    {
        let mut tail = self.buf.split_off(self.pos);
        let tail_len = tail.len();
        let ghost head = self.buf@;
        let mut i: usize = 0;
        while i < added.len()
            invariant
                i <= added@.len(),
                self.pos == old(self).pos,
                self.limit == old(self).limit,
                self.buf@ == head + added@.take(i as int),
            decreases added@.len() - i,
        {
            self.buf.push(added[i]);
            proof {
                assert(added@.take(i + 1) =~= added@.take(i as int).push(added@[i as int]));
            }
            i = i + 1;
        }
        proof {
            assert(added@.take(added@.len() as int) =~= added@);
        }
        self.buf.append(&mut tail);
        self.pos = self.buf.len() - tail_len;
        proof {
            assert(self.buf@ =~= spliced(old(self)@.text, old(self)@.cursor as int, added@));
        }
    }

    /// Takes the characters from `from` up to `to` out of the text, puts
    /// the cursor at `from`, and returns what it took out, if anything.
    fn kill(&mut self, from: usize, to: usize) -> (taken: Option<String>)
        requires
            from <= to <= old(self)@.text.len(),
        ensures
            (final(self)@, text_of(taken)) == old(self)@.killed(from as int, to as int),
            final(self).wf(),
    {
        self.pos = from;
        if from == to {
            return None;
        }
        let mut tail = self.buf.split_off(to);
        let removed = self.buf.split_off(from);
        self.buf.append(&mut tail);
        let taken = string_of(&removed, 0, removed.len());
        proof {
            assert(self.buf@ =~= cut(old(self)@.text, from as int, to as int));
            assert(taken@ =~= old(self)@.text.subrange(from as int, to as int));
        }
        Some(taken)
    }

    /// Puts `added` in at the cursor, as [`LineView::added`] says.
    fn add(&mut self, added: &Vec<char>) -> (at_end: Option<bool>)
        requires
            old(self).wf(),
        ensures
            (final(self)@, at_end) == old(self)@.added(added@),
            final(self).wf(),
    {
        if added.len() == 0 || added.len() > self.limit || self.buf.len() > self.limit
            - added.len() {
            return None;
        }
        let at_end = self.pos == self.buf.len();
        self.splice(added);
        Some(at_end)
    }

    /// Puts `ch` in at the cursor `n` times and the cursor behind it.
    /// Nothing goes in where the text would get longer than the buffer
    /// takes: then the answer is `None`. Else it says whether the
    /// characters went in at the end of the text.
    pub fn insert(&mut self, ch: char, n: usize) -> (at_end: Option<bool>)
        requires
            old(self).wf(),
        ensures
            (final(self)@, at_end) == old(self)@.insert(ch, n as nat),
            final(self).wf(),
    {
        if n > self.limit {
            return None;
        }
        let mut added: Vec<char> = Vec::new();
        let mut i: usize = 0;
        proof {
            assert(added@ =~= run(ch, 0));
        }
        while i < n
            invariant
                i <= n,
                added@ == run(ch, i as nat),
            decreases n - i,
        {
            added.push(ch);
            proof {
                assert(added@ =~= run(ch, (i + 1) as nat));
            }
            i = i + 1;
        }
        self.add(&added)
    }

    /// Puts `text` in at the cursor `n` times and the cursor behind it.
    /// Nothing goes in where there is nothing to put in, and where the text
    /// would get longer than the buffer takes: then the answer is `None`.
    /// Else it says whether the text went in at the end.
    pub fn yank(&mut self, text: &str, n: usize) -> (at_end: Option<bool>)
        requires
            old(self).wf(),
        ensures
            (final(self)@, at_end) == old(self)@.yank(text@, n as nat),
            final(self).wf(),
    {
        let unit = chars_of(text);
        if unit.len() == 0 || n == 0 {
            proof {
                lemma_times_len(unit@, n as nat);
            }
            return None;
        }
        if unit.len() > self.limit / n {
            proof {
                lemma_times_len(unit@, n as nat);
                assert(unit@.len() * n > self.limit) by (nonlinear_arith)
                    requires
                        unit@.len() > self.limit as int / n as int,
                        n > 0,
                ;
            }
            return None;
        }
        proof {
            assert(unit@.len() * n <= self.limit) by (nonlinear_arith)
                requires
                    unit@.len() <= self.limit as int / n as int,
                    n > 0,
                    self.limit >= 0,
            ;
        }
        let mut added: Vec<char> = Vec::new();
        let mut i: usize = 0;
        while i < n
            invariant
                i <= n,
                unit@ == text@,
                added@ == times(unit@, i as nat),
            decreases n - i,
        {
            let mut k: usize = 0;
            let ghost before = added@;
            while k < unit.len()
                invariant
                    k <= unit@.len(),
                    added@ == before + unit@.take(k as int),
                decreases unit@.len() - k,
            {
                added.push(unit[k]);
                proof {
                    assert(unit@.take(k + 1) =~= unit@.take(k as int).push(unit@[k as int]));
                }
                k = k + 1;
            }
            proof {
                assert(unit@.take(unit@.len() as int) =~= unit@);
            }
            i = i + 1;
        }
        self.add(&added)
    }

    /// Takes up to `n` characters out at the cursor and returns them;
    /// `None` where there is none to take.
    pub fn delete(&mut self, n: usize) -> (deleted: Option<String>)
        requires
            old(self).wf(),
        ensures
            (final(self)@, text_of(deleted)) == old(self)@.delete(n as nat),
            final(self).wf(),
    {
        let end = if n <= self.buf.len() - self.pos {
            self.pos + n
        } else {
            self.buf.len()
        };
        self.kill(self.pos, end)
    }

    /// Takes up to `n` characters out before the cursor and returns them;
    /// `None` where there is none to take.
    pub fn backspace(&mut self, n: usize) -> (deleted: Option<String>)
        requires
            old(self).wf(),
        ensures
            (final(self)@, text_of(deleted)) == old(self)@.backspace(n as nat),
            final(self).wf(),
    {
        let start = if n <= self.pos {
            self.pos - n
        } else {
            0
        };
        self.kill(start, self.pos)
    }

    /// Puts the cursor at `target` and says whether that moved it.
    fn move_cursor(&mut self, target: usize) -> (moved: bool)
        requires
            target <= old(self)@.text.len(),
        ensures
            (final(self)@, moved) == old(self)@.moved_to(target as nat),
            final(self).wf(),
    {
        let moved = target != self.pos;
        self.pos = target;
        moved
    }

    /// Moves the cursor up to `n` characters to the left. Says whether it
    /// moved.
    pub fn move_backward(&mut self, n: usize) -> (moved: bool)
        requires
            old(self).wf(),
        ensures
            (final(self)@, moved) == old(self)@.move_backward(n as nat),
            final(self).wf(),
    {
        let target = if n <= self.pos {
            self.pos - n
        } else {
            0
        };
        self.move_cursor(target)
    }

    /// Moves the cursor up to `n` characters to the right. Says whether it
    /// moved.
    pub fn move_forward(&mut self, n: usize) -> (moved: bool)
        requires
            old(self).wf(),
        ensures
            (final(self)@, moved) == old(self)@.move_forward(n as nat),
            final(self).wf(),
    {
        let target = if n <= self.buf.len() - self.pos {
            self.pos + n
        } else {
            self.buf.len()
        };
        self.move_cursor(target)
    }

    /// Moves the cursor to the beginning. Says whether it moved.
    pub fn move_home(&mut self) -> (moved: bool)
        ensures
            (final(self)@, moved) == old(self)@.move_home(),
            final(self).wf(),
    {
        self.move_cursor(0)
    }

    /// Moves the cursor to the end. Says whether it moved.
    pub fn move_end(&mut self) -> (moved: bool)
        ensures
            (final(self)@, moved) == old(self)@.move_end(),
            final(self).wf(),
    {
        let end = self.buf.len();
        self.move_cursor(end)
    }

    /// Takes out what stands from the cursor to the end and returns it.
    pub fn kill_line(&mut self) -> (killed: Option<String>)
        requires
            old(self).wf(),
        ensures
            (final(self)@, text_of(killed)) == old(self)@.kill_line(),
            final(self).wf(),
    {
        let end = self.buf.len();
        self.kill(self.pos, end)
    }

    /// Takes out what stands from the beginning to the cursor and returns
    /// it.
    pub fn discard_line(&mut self) -> (killed: Option<String>)
        requires
            old(self).wf(),
        ensures
            (final(self)@, text_of(killed)) == old(self)@.discard_line(),
            final(self).wf(),
    {
        self.kill(0, self.pos)
    }

    /// Exchanges the character before the cursor with the one at the
    /// cursor, as [`LineView::transpose_chars`] says.
    pub fn transpose_chars(&mut self) -> (changed: bool)
        requires
            old(self).wf(),
        ensures
            (final(self)@, changed) == old(self)@.transpose_chars(),
            final(self).wf(),
    {
        if self.pos == 0 || self.buf.len() < 2 {
            return false;
        }
        let at = if self.pos == self.buf.len() {
            self.pos - 1
        } else {
            self.pos
        };
        let left = self.buf[at - 1];
        let right = self.buf[at];
        self.buf.set(at - 1, right);
        self.buf.set(at, left);
        self.pos = at + 1;
        true
    }

    /// The position `n` characters after the cursor; `None` at the end of
    /// the text.
    pub fn next_pos(&self, n: usize) -> (pos: Option<usize>)
        requires
            self.wf(),
        ensures
            match pos {
                None => self@.cursor == self@.text.len(),
                Some(pos) => self@.cursor < self@.text.len() && pos == reach(
                    self@.text.len(),
                    self@.cursor,
                    n as nat,
                ),
            },
    {
        if self.pos == self.buf.len() {
            None
        } else if n <= self.buf.len() - self.pos {
            Some(self.pos + n)
        } else {
            Some(self.buf.len())
        }
    }

    /// Replaces the characters from `start` up to `end` by `text` and puts
    /// the cursor behind it.
    pub fn replace(&mut self, start: usize, end: usize, text: &str)
        requires
            start <= end <= old(self)@.text.len(),
        ensures
            final(self)@ == old(self)@.replace(start as nat, end as nat, text@),
            final(self).wf(),
    {
        self.kill(start, end);
        let added = chars_of(text);
        self.splice(&added);
        proof {
            assert(self.buf@ =~= old(self)@.text.take(start as int) + text@ + old(self)@.text.skip(end as int));
        }
    }

    /// Replaces the `yank_size` characters before the cursor, which the
    /// last yank put there, by `text`, as [`LineView::yank_pop`] says.
    pub fn yank_pop(&mut self, yank_size: usize, text: &str) -> (at_end: Option<bool>)
        requires
            old(self).wf(),
        ensures
            (final(self)@, at_end) == old(self)@.yank_pop(yank_size as nat, text@),
            final(self).wf(),
    {
        if yank_size > self.pos {
            return None;
        }
        let count = text.unicode_len();
        let rest = self.buf.len() - yank_size;
        if rest > self.limit || count > self.limit - rest {
            return None;
        }
        let at_end = self.pos == self.buf.len();
        let end = self.pos;
        self.replace(end - yank_size, end, text);
        Some(at_end)
    }

    /// Where the word before `pos` begins.
    fn scan_back(&self, word_def: Word, pos: usize) -> (start: usize)
        requires
            pos <= self@.text.len(),
        ensures
            start == prev_word_start(self@.text, word_def, pos as int),
            start <= pos,
    {
        let mut at = pos;
        while at > 0 && !is_word_char(word_def, self.buf[at - 1])
            invariant
                at <= pos <= self.buf@.len(),
                gap_begin(self.buf@, word_def, pos as int) == gap_begin(
                    self.buf@,
                    word_def,
                    at as int,
                ),
            decreases at,
        {
            at = at - 1;
        }
        let ghost gap = at;
        while at > 0 && is_word_char(word_def, self.buf[at - 1])
            invariant
                at <= gap <= self.buf@.len(),
                word_begin(self.buf@, word_def, gap as int) == word_begin(
                    self.buf@,
                    word_def,
                    at as int,
                ),
            decreases at,
        {
            at = at - 1;
        }
        at
    }

    /// The first position at or after `pos` at which a word character
    /// stands if `word` says so, or no word character if it does not.
    fn skip_while(&self, word_def: Word, pos: usize, word: bool) -> (end: usize)
        requires
            pos <= self@.text.len(),
        ensures
            end == if word {
                word_end(self@.text, word_def, pos as int)
            } else {
                gap_end(self@.text, word_def, pos as int)
            },
            pos <= end <= self@.text.len(),
    {
        let mut at = pos;
        while at < self.buf.len() && is_word_char(word_def, self.buf[at]) == word
            invariant
                pos <= at <= self.buf@.len(),
                word_end(self.buf@, word_def, pos as int) == word_end(
                    self.buf@,
                    word_def,
                    at as int,
                ) || !word,
                gap_end(self.buf@, word_def, pos as int) == gap_end(
                    self.buf@,
                    word_def,
                    at as int,
                ) || word,
            decreases self.buf@.len() - at,
        {
            at = at + 1;
        }
        at
    }

    /// Where the cursor gets to from `pos` in `n` words to the left.
    fn scan_words_back(&self, word_def: Word, pos: usize, n: usize) -> (start: usize)
        requires
            pos <= self@.text.len(),
        ensures
            start == words_back(self@.text, word_def, pos as int, n as nat),
            start <= pos,
    {
        let mut at = pos;
        let mut left = n;
        while left > 0
            invariant
                at <= pos <= self.buf@.len(),
                words_back(self.buf@, word_def, pos as int, n as nat) == words_back(
                    self.buf@,
                    word_def,
                    at as int,
                    left as nat,
                ),
            decreases left,
        {
            at = self.scan_back(word_def, at);
            left = left - 1;
        }
        at
    }

    /// Where the cursor gets to from `pos` in `n` words to the right.
    fn scan_words_forth(&self, at: At, word_def: Word, pos: usize, n: usize) -> (end: usize)
        requires
            pos <= self@.text.len(),
        ensures
            end == words_forth(self@.text, at, word_def, pos as int, n as nat),
            pos <= end <= self@.text.len(),
    {
        let mut here = pos;
        let mut left = n;
        while left > 0
            invariant
                pos <= here <= self.buf@.len(),
                words_forth(self.buf@, at, word_def, pos as int, n as nat) == words_forth(
                    self.buf@,
                    at,
                    word_def,
                    here as int,
                    left as nat,
                ),
            decreases left,
        {
            here = match at {
                At::Start => {
                    let word = self.skip_while(word_def, here, true);
                    self.skip_while(word_def, word, false)
                },
                At::AfterEnd => {
                    let gap = self.skip_while(word_def, here, false);
                    self.skip_while(word_def, gap, true)
                },
            };
            left = left - 1;
        }
        here
    }

    /// Moves the cursor `n` words to the left, each time to the beginning
    /// of a word. Says whether it moved.
    pub fn move_to_prev_word(&mut self, word_def: Word, n: usize) -> (moved: bool)
        requires
            old(self).wf(),
        ensures
            (final(self)@, moved) == old(self)@.move_to_prev_word(word_def, n as nat),
            final(self).wf(),
    {
        let target = self.scan_words_back(word_def, self.pos, n);
        self.move_cursor(target)
    }

    /// Moves the cursor `n` words to the right, each time to the beginning
    /// of a word or behind a word, as `at` says. Says whether it moved.
    pub fn move_to_next_word(&mut self, at: At, word_def: Word, n: usize) -> (moved: bool)
        requires
            old(self).wf(),
        ensures
            (final(self)@, moved) == old(self)@.move_to_next_word(at, word_def, n as nat),
            final(self).wf(),
    {
        let target = self.scan_words_forth(at, word_def, self.pos, n);
        self.move_cursor(target)
    }

    /// Takes out the `n` words before the cursor and returns them.
    pub fn delete_prev_word(&mut self, word_def: Word, n: usize) -> (killed: Option<String>)
        requires
            old(self).wf(),
        ensures
            (final(self)@, text_of(killed)) == old(self)@.delete_prev_word(word_def, n as nat),
            final(self).wf(),
    {
        let start = self.scan_words_back(word_def, self.pos, n);
        self.kill(start, self.pos)
    }

    /// Takes out the `n` words after the cursor and returns them.
    pub fn delete_word(&mut self, at: At, word_def: Word, n: usize) -> (killed: Option<String>)
        requires
            old(self).wf(),
        ensures
            (final(self)@, text_of(killed)) == old(self)@.delete_word(at, word_def, n as nat),
            final(self).wf(),
    {
        let end = self.scan_words_forth(at, word_def, self.pos, n);
        self.kill(self.pos, end)
    }
    /// Where the search `cs` for the `n`th character leaves the cursor.
    fn search(&self, cs: CharSearch, n: usize) -> (target: Option<usize>)
        requires
            self.wf(),
        ensures
            match target {
                Some(target) => search_target(self@.text, self@.cursor, cs, n as nat) == Some(
                    target as nat,
                ) && target <= self@.text.len() && (cs.forward() ==> self@.cursor <= target
                    < self@.text.len()) && (!cs.forward() ==> target <= self@.cursor),
                None => search_target(self@.text, self@.cursor, cs, n as nat) is None,
            },
    {
        if n == 0 {
            return None;
        }
        match cs {
            CharSearch::Forward(ch) | CharSearch::ForwardBefore(ch) => {
                if self.pos >= self.buf.len() {
                    return None;
                }
                let mut at = self.pos + 1;
                let mut left = n;
                while at < self.buf.len()
                    invariant
                        self.pos < at <= self.buf@.len(),
                        cs == CharSearch::Forward(ch) || cs == CharSearch::ForwardBefore(ch),
                        0 < left <= n,
                        nth_after(self.buf@, ch, self.pos + 1, n as nat) == nth_after(
                            self.buf@,
                            ch,
                            at as int,
                            left as nat,
                        ),
                    decreases self.buf@.len() - at,
                {
                    if self.buf[at] == ch {
                        if left == 1 {
                            return match cs {
                                CharSearch::Forward(_) => Some(at),
                                _ => Some(at - 1),
                            };
                        }
                        left = left - 1;
                    }
                    at = at + 1;
                }
                None
            },
            CharSearch::Backward(ch) | CharSearch::BackwardAfter(ch) => {
                let mut at = self.pos;
                let mut left = n;
                while at > 0
                    invariant
                        at <= self.pos <= self.buf@.len(),
                        cs == CharSearch::Backward(ch) || cs == CharSearch::BackwardAfter(ch),
                        0 < left <= n,
                        nth_before(self.buf@, ch, self.pos as int, n as nat) == nth_before(
                            self.buf@,
                            ch,
                            at as int,
                            left as nat,
                        ),
                    decreases at,
                {
                    if self.buf[at - 1] == ch {
                        if left == 1 {
                            return match cs {
                                CharSearch::Backward(_) => Some(at - 1),
                                _ => Some(at),
                            };
                        }
                        left = left - 1;
                    }
                    at = at - 1;
                }
                None
            },
        }
    }

    /// Moves the cursor to the `n`th character that the search `cs` looks
    /// for. Says whether it moved.
    pub fn move_to(&mut self, cs: CharSearch, n: usize) -> (moved: bool)
        requires
            old(self).wf(),
        ensures
            (final(self)@, moved) == old(self)@.move_to(cs, n as nat),
            final(self).wf(),
    {
        match self.search(cs, n) {
            Some(target) => self.move_cursor(target),
            None => false,
        }
    }

    /// Takes out what stands between the cursor and the `n`th character
    /// that the search `cs` looks for, and returns it.
    pub fn delete_to(&mut self, cs: CharSearch, n: usize) -> (killed: Option<String>)
        requires
            old(self).wf(),
        ensures
            (final(self)@, text_of(killed)) == old(self)@.delete_to(cs, n as nat),
            final(self).wf(),
    {
        let len = self.buf.len();
        match self.search(cs, n) {
            Some(target) => match cs {
                CharSearch::Forward(_) | CharSearch::ForwardBefore(_) => self.kill(
                    self.pos,
                    target + 1,
                ),
                _ => self.kill(target, self.pos),
            },
            None => None,
        }
    }

    /// What `a` makes of the character `ch` at place `i` of a word.
    fn recase(a: WordAction, ch: char, i: usize) -> (made: char)
        ensures
            made == recased(a, ch, i as int),
    {
        let small = if 'A' <= ch && ch <= 'Z' {
            let code: u8 = ch as u8;
            (code + 32) as char
        } else {
            ch
        };
        let capital = crate::widget::readline::consts::to_upper(ch);
        match a {
            WordAction::CAPITALIZE => if i == 0 {
                capital
            } else {
                small
            },
            WordAction::LOWERCASE => small,
            WordAction::UPPERCASE => capital,
        }
    }

    /// Makes the next word after the cursor into what `a` says and puts
    /// the cursor behind it. Says whether there was a word.
    pub fn edit_word(&mut self, a: WordAction) -> (changed: bool)
        requires
            old(self).wf(),
        ensures
            (final(self)@, changed) == old(self)@.edit_word(a),
            final(self).wf(),
    {
        let start = self.skip_while(Word::Emacs, self.pos, false);
        let end = self.skip_while(Word::Emacs, start, true);
        if start >= end {
            return false;
        }
        let ghost before = self.buf@;
        let mut i: usize = start;
        while i < end
            invariant
                start <= i <= end <= self.buf@.len(),
                self.buf@.len() == before.len(),
                self.pos == old(self).pos,
                self.limit == old(self).limit,
                forall|k: int|
                    0 <= k < before.len() ==> #[trigger] self.buf@[k] == (if start <= k < i {
                        recased(a, before[k], k - start)
                    } else {
                        before[k]
                    }),
            decreases end - i,
        {
            let made = Self::recase(a, self.buf[i], i - start);
            self.buf.set(i, made);
            i = i + 1;
        }
        self.pos = end;
        proof {
            assert(self.buf@ =~= old(self)@.edit_word(a).0.text);
        }
        true
    }
    /// Where the word that ends at `end` begins.
    fn scan_word_begin(&self, end: usize) -> (start: usize)
        requires
            end <= self@.text.len(),
        ensures
            start == word_begin(self@.text, Word::Emacs, end as int),
            start <= end,
    {
        let mut at = end;
        while at > 0 && is_word_char(Word::Emacs, self.buf[at - 1])
            invariant
                at <= end <= self.buf@.len(),
                word_begin(self.buf@, Word::Emacs, end as int) == word_begin(
                    self.buf@,
                    Word::Emacs,
                    at as int,
                ),
            decreases at,
        {
            at = at - 1;
        }
        at
    }

    /// Appends the characters of `source` from `from` up to `to` to `out`.
    fn copy_range(source: &Vec<char>, from: usize, to: usize, out: &mut Vec<char>)
        requires
            from <= to <= source@.len(),
        ensures
            final(out)@ == old(out)@ + source@.subrange(from as int, to as int),
    {
        let mut i: usize = from;
        proof {
            assert(source@.subrange(from as int, from as int) =~= Seq::<char>::empty());
            assert(out@ =~= old(out)@ + Seq::<char>::empty());
        }
        while i < to
            invariant
                from <= i <= to <= source@.len(),
                out@ == old(out)@ + source@.subrange(from as int, i as int),
            decreases to - i,
        {
            out.push(source[i]);
            proof {
                assert(source@.subrange(from as int, i + 1) =~= source@.subrange(
                    from as int,
                    i as int,
                ).push(source@[i as int]));
            }
            i = i + 1;
        }
    }

    /// Exchanges the word that ends next after the cursor with the word
    /// before it, as [`LineView::transpose_words_once`] says.
    fn transpose_pair(&mut self) -> (changed: bool)
        requires
            old(self).wf(),
        ensures
            (final(self)@, changed) == old(self)@.transpose_words_once(),
            final(self).wf(),
    {
        let gap = self.skip_while(Word::Emacs, self.pos, false);
        let second_end = self.skip_while(Word::Emacs, gap, true);
        let second_start = self.scan_word_begin(second_end);
        let first_start = self.scan_back(Word::Emacs, second_start);
        let first_end = self.skip_while(Word::Emacs, first_start, true);
        if !(first_start < first_end && first_end <= second_start && second_start < second_end) {
            return false;
        }
        let len = self.buf.len();
        let mut text: Vec<char> = Vec::new();
        Self::copy_range(&self.buf, 0, first_start, &mut text);
        Self::copy_range(&self.buf, second_start, second_end, &mut text);
        Self::copy_range(&self.buf, first_end, second_start, &mut text);
        Self::copy_range(&self.buf, first_start, first_end, &mut text);
        Self::copy_range(&self.buf, second_end, len, &mut text);
        proof {
            assert(self.buf@.subrange(0, first_start as int) =~= self.buf@.take(first_start as int));
            assert(self.buf@.subrange(second_end as int, len as int) =~= self.buf@.skip(
                second_end as int,
            ));
        }
        self.buf = text;
        self.pos = second_end;
        true
    }

    /// Exchanges words `n` times, as [`LineView::transpose_words`] says.
    pub fn transpose_words(&mut self, n: usize) -> (changed: bool)
        requires
            old(self).wf(),
        ensures
            (final(self)@, changed) == old(self)@.transpose_words(n as nat),
            final(self).wf(),
        decreases n,
    {
        if n == 0 {
            return false;
        }
        if self.transpose_pair() {
            self.transpose_words(n - 1);
            true
        } else {
            false
        }
    }
}

/// How long a text written `n` times is.
pub proof fn lemma_times_len(text: Seq<char>, n: nat)
    ensures
        times(text, n).len() == text.len() * n,
    decreases n,
{
    if n > 0 {
        lemma_times_len(text, (n - 1) as nat);
        assert(text.len() * n == text.len() * (n - 1) + text.len()) by (nonlinear_arith);
    } else {
        assert(text.len() * 0 == 0) by (nonlinear_arith);
    }
}

} // verus!
