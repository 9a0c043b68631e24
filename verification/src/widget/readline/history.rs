//! The lines that were entered before.

use vstd::prelude::*;
use crate::chars::chars_of;
use crate::grapheme::texts;
use crate::widget::readline::config::Config;
use crate::widget::readline::line_buffer::is_blank;

verus! {

/// The direction of a search in the history.
#[derive(Debug, Clone, Copy, PartialEq, Eq, Structural)]
pub enum Direction {
    /// Towards the newer entries.
    Forward,
    /// Towards the older entries.
    Reverse,
}

/// `text` begins with `prefix`.
pub open spec fn has_prefix(text: Seq<char>, prefix: Seq<char>) -> bool {
    prefix.len() <= text.len() && text.take(prefix.len() as int) == prefix
}

/// Whether `text` begins with `prefix`.
pub fn starts_with(text: &Vec<char>, prefix: &Vec<char>) -> (yes: bool)
    ensures
        yes == has_prefix(text@, prefix@),
{
    if prefix.len() > text.len() {
        return false;
    }
    let mut i: usize = 0;
    while i < prefix.len()
        invariant
            i <= prefix@.len() <= text@.len(),
            text@.take(i as int) == prefix@.take(i as int),
        decreases prefix@.len() - i,
    {
        if text[i] != prefix[i] {
            proof {
                assert(text@.take(prefix@.len() as int)[i as int] != prefix@[i as int]);
            }
            return false;
        }
        proof {
            assert(text@.take(i + 1) =~= text@.take(i as int).push(text@[i as int]));
            assert(prefix@.take(i + 1) =~= prefix@.take(i as int).push(prefix@[i as int]));
        }
        i = i + 1;
    }
    proof {
        assert(prefix@.take(prefix@.len() as int) =~= prefix@);
    }
    true
}

/// The lines that were entered before, the oldest first.
#[derive(Debug)]
pub struct History {
    entries: Vec<String>,
    max_len: usize,
    ignore_space: bool,
    ignore_dups: bool,
}

impl History {
    /// The entries, the oldest first.
    pub closed spec fn entries(&self) -> Seq<Seq<char>> {
        texts(self.entries@)
    }

    /// A history has no more entries than can be counted.
    pub proof fn lemma_entries_bound(&self)
        ensures
            self.entries().len() <= usize::MAX,
    {
        assert(self.entries.len() == self.entries@.len());
    }

    /// The number of entries that the history keeps.
    pub closed spec fn limit(&self) -> nat {
        self.max_len as nat
    }

    /// Whether a line that begins with white space is left out.
    pub closed spec fn skips_space(&self) -> bool {
        self.ignore_space
    }

    /// Whether a line that repeats the last entry is left out.
    pub closed spec fn skips_repeats(&self) -> bool {
        self.ignore_dups
    }

    /// The history takes `line`: it keeps entries at all, the line is not
    /// empty, and it is no line that the history leaves out.
    pub open spec fn takes(&self, line: Seq<char>) -> bool {
        &&& self.limit() > 0
        &&& line.len() > 0
        &&& !(self.skips_space() && is_blank(line[0]))
        &&& !(self.skips_repeats() && self.entries().len() > 0 && self.entries().last() == line)
    }

    /// An empty history that keeps a hundred entries and leaves out
    /// repeats.
    pub fn new() -> (history: History)
        ensures
            history.entries() == Seq::<Seq<char>>::empty(),
            history.limit() == 100,
            !history.skips_space(),
            history.skips_repeats(),
    {
        Self::with_config(Config::default())
    }

    /// An empty history that works as `config` says.
    pub fn with_config(config: Config) -> (history: History)
        ensures
            history.entries() == Seq::<Seq<char>>::empty(),
            history.limit() == config.max_history_size,
            history.skips_space() == config.history_ignore_space,
            history.skips_repeats() == config.history_ignore_dups,
    {
        let history = History {
            entries: Vec::new(),
            max_len: config.max_history_size,
            ignore_space: config.history_ignore_space,
            ignore_dups: config.history_ignore_dups,
        };
        proof {
            assert(history.entries() =~= Seq::<Seq<char>>::empty());
        }
        history
    }

    /// The entry at `index`, the oldest being at zero.
    pub fn get(&self, index: usize) -> (entry: Option<&String>)
        ensures
            index < self.entries().len() ==> (entry matches Some(line) && line@
                == self.entries()[index as int]),
            index >= self.entries().len() ==> entry is None,
    {
        if index < self.entries.len() {
            Some(&self.entries[index])
        } else {
            None
        }
    }

    /// The newest entry.
    pub fn last(&self) -> (entry: Option<&String>)
        ensures
            self.entries().len() > 0 ==> (entry matches Some(line) && line@
                == self.entries().last()),
            self.entries().len() == 0 ==> entry is None,
    {
        if self.entries.len() > 0 {
            Some(&self.entries[self.entries.len() - 1])
        } else {
            None
        }
    }

    /// Adds `line` as the newest entry, if the history takes it, and says
    /// whether it did. Where the history is full, the oldest entry makes
    /// room.
    pub fn add(&mut self, line: &str) -> (added: bool)
        ensures
            added == old(self).takes(line@),
            final(self).limit() == old(self).limit(),
            final(self).skips_space() == old(self).skips_space(),
            final(self).skips_repeats() == old(self).skips_repeats(),
            !added ==> final(self).entries() == old(self).entries(),
            added ==> final(self).entries() == (if old(self).entries().len() >= old(self).limit() {
                old(self).entries().drop_first()
            } else {
                old(self).entries()
            }).push(line@),
    {
        if self.max_len == 0 {
            return false;
        }
        let chars = chars_of(line);
        if chars.len() == 0 {
            return false;
        }
        let first = chars[0];
        if self.ignore_space && (first == ' ' || first == '\t' || first == '\n' || first == '\r') {
            return false;
        }
        if self.ignore_dups && self.entries.len() > 0 {
            let last = &self.entries[self.entries.len() - 1];
            if last.as_str().unicode_len() == chars.len() && starts_with(
                &chars_of(last.as_str()),
                &chars,
            ) {
                proof {
                    assert(self.entries().last() =~= line@);
                }
                return false;
            }
            proof {
                assert(self.entries().last() != line@) by {
                    if self.entries().last() == line@ {
                        assert(line@.take(line@.len() as int) =~= line@);
                    }
                }
            }
        }
        let ghost before = self.entries();
        if self.entries.len() >= self.max_len {
            self.entries.remove(0);
            proof {
                assert(self.entries() =~= before.drop_first());
            }
        }
        let ghost kept = self.entries();
        self.entries.push(line.to_owned());
        proof {
            assert(self.entries() =~= kept.push(line@));
        }
        true
    }

    /// The number of entries.
    pub fn len(&self) -> (len: usize)
        ensures
            len == self.entries().len(),
    {
        self.entries.len()
    }

    pub fn is_empty(&self) -> (empty: bool)
        ensures
            empty == (self.entries().len() == 0),
    {
        self.entries.len() == 0
    }

    /// Forgets every entry.
    pub fn clear(&mut self)
        ensures
            final(self).entries() == Seq::<Seq<char>>::empty(),
            final(self).limit() == old(self).limit(),
            final(self).skips_space() == old(self).skips_space(),
            final(self).skips_repeats() == old(self).skips_repeats(),
    {
        self.entries.clear();
        proof {
            assert(self.entries() =~= Seq::<Seq<char>>::empty());
        }
    }

    /// `found` is what a search for the nearest entry that begins with
    /// `term` gives, going from the entry at `start` in the direction
    /// `dir`: the first such entry on the way, or none where the way holds
    /// none, where `term` is empty, and where there is no entry at `start`.
    pub open spec fn is_nearest(
        &self,
        term: Seq<char>,
        start: nat,
        dir: Direction,
        found: Option<usize>,
    ) -> bool {
        if term.len() == 0 || start >= self.entries().len() {
            found is None
        } else {
            match found {
                Some(at) => {
                    &&& at < self.entries().len()
                    &&& has_prefix(self.entries()[at as int], term)
                    &&& match dir {
                        Direction::Reverse => at <= start && forall|k: int|
                            at < k <= start ==> !has_prefix(#[trigger] self.entries()[k], term),
                        Direction::Forward => start <= at && forall|k: int|
                            start <= k < at ==> !has_prefix(#[trigger] self.entries()[k], term),
                    }
                },
                None => match dir {
                    Direction::Reverse => forall|k: int|
                        0 <= k <= start ==> !has_prefix(#[trigger] self.entries()[k], term),
                    Direction::Forward => forall|k: int|
                        start <= k < self.entries().len() ==> !has_prefix(
                            #[trigger] self.entries()[k],
                            term,
                        ),
                },
            }
        }
    }

    /// Searches for the nearest entry that begins with `term`, going from
    /// the entry at `start` in the direction `dir`.
    pub fn starts_with(&self, term: &str, start: usize, dir: Direction) -> (found: Option<usize>)
        ensures
            self.is_nearest(term@, start as nat, dir, found),
    {
        let prefix = chars_of(term);
        if prefix.len() == 0 || start >= self.entries.len() {
            return None;
        }
        match dir {
            Direction::Reverse => {
                let mut at = start;
                loop
                    invariant
                        at <= start < self.entries@.len(),
                        dir == Direction::Reverse,
                        prefix@ == term@,
                        prefix@.len() > 0,
                        forall|k: int|
                            at < k <= start ==> !has_prefix(#[trigger] self.entries()[k], term@),
                    decreases at,
                {
                    proof {
                        assert(self.entries()[at as int] == self.entries@[at as int]@);
                    }
                    if starts_with(&chars_of(self.entries[at].as_str()), &prefix) {
                        return Some(at);
                    }
                    if at == 0 {
                        return None;
                    }
                    at = at - 1;
                }
            },
            Direction::Forward => {
                let mut at = start;
                while at < self.entries.len()
                    invariant
                        start <= at <= self.entries@.len(),
                        start < self.entries@.len(),
                        dir == Direction::Forward,
                        prefix@ == term@,
                        prefix@.len() > 0,
                        forall|k: int|
                            start <= k < at ==> !has_prefix(#[trigger] self.entries()[k], term@),
                    decreases self.entries@.len() - at,
                {
                    proof {
                        assert(self.entries()[at as int] == self.entries@[at as int]@);
                    }
                    if starts_with(&chars_of(self.entries[at].as_str()), &prefix) {
                        return Some(at);
                    }
                    at = at + 1;
                }
                None
            },
        }
    }
}

} // verus!
