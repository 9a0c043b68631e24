//! What an editor keeps from line to line.

use vstd::prelude::*;
use crate::widget::readline::config::Config;
use crate::widget::readline::consts::KeyPress;
use crate::widget::readline::history::History;
use crate::widget::readline::keymap::Cmd;
use crate::widget::readline::kill_ring::{Action, KillRing, RingView};

verus! {

/// `key` is bound at `i`, and nowhere before.
pub open spec fn is_first_bound(bindings: Seq<(KeyPress, Cmd)>, key: KeyPress, i: int) -> bool {
    &&& 0 <= i < bindings.len()
    &&& bindings[i].0 == key
    &&& forall|j: int| 0 <= j < i ==> (#[trigger] bindings[j]).0 != key
}

/// `key` is not bound.
pub open spec fn is_unbound(bindings: Seq<(KeyPress, Cmd)>, key: KeyPress) -> bool {
    forall|j: int| 0 <= j < bindings.len() ==> (#[trigger] bindings[j]).0 != key
}

/// The history, the kill ring, the settings and the keys that were bound to
/// commands of their own.
#[derive(Debug)]
pub struct Editor {
    pub history: History,
    pub kill_ring: KillRing,
    pub config: Config,
    pub custom_bindings: Vec<(KeyPress, Cmd)>,
}

impl Editor {
    /// The kill ring is well formed.
    pub open spec fn wf(&self) -> bool {
        self.kill_ring.wf()
    }

    /// An editor with the default settings.
    pub fn new() -> (editor: Editor)
        ensures
            editor.wf(),
            editor.config == (Config {
                max_history_size: 100,
                history_ignore_dups: true,
                history_ignore_space: false,
            }),
            editor.history.entries() == Seq::<Seq<char>>::empty(),
            editor.history.limit() == 100,
            editor.kill_ring@ == (RingView {
                slots: Seq::empty(),
                index: 0,
                last_action: Action::Other,
                size: 60,
            }),
            editor.custom_bindings@.len() == 0,
    {
        Self::with_config(Config::default())
    }

    /// An editor with the settings `config`: an empty history, a kill ring
    /// of sixty texts, and no keys bound.
    pub fn with_config(config: Config) -> (editor: Editor)
        ensures
            editor.wf(),
            editor.config == config,
            editor.history.entries() == Seq::<Seq<char>>::empty(),
            editor.history.limit() == config.max_history_size,
            editor.history.skips_space() == config.history_ignore_space,
            editor.history.skips_repeats() == config.history_ignore_dups,
            editor.kill_ring@ == (RingView {
                slots: Seq::empty(),
                index: 0,
                last_action: Action::Other,
                size: 60,
            }),
            editor.custom_bindings@.len() == 0,
    {
        Editor {
            history: History::with_config(config),
            kill_ring: KillRing::new(60),
            config,
            custom_bindings: Vec::new(),
        }
    }

    /// Adds `line` to the history, if the history takes it.
    pub fn add_history_entry(&mut self, line: &str) -> (added: bool)
        ensures
            added == old(self).history.takes(line@),
            final(self).history.limit() == old(self).history.limit(),
            final(self).history.skips_space() == old(self).history.skips_space(),
            final(self).history.skips_repeats() == old(self).history.skips_repeats(),
            !added ==> final(self).history.entries() == old(self).history.entries(),
            added ==> final(self).history.entries() == (if old(self).history.entries().len()
                >= old(self).history.limit() {
                old(self).history.entries().drop_first()
            } else {
                old(self).history.entries()
            }).push(line@),
            final(self).kill_ring == old(self).kill_ring,
            final(self).config == old(self).config,
            final(self).custom_bindings == old(self).custom_bindings,
    {
        self.history.add(line)
    }

    /// Forgets the history.
    pub fn clear_history(&mut self)
        ensures
            final(self).history.entries() == Seq::<Seq<char>>::empty(),
            final(self).history.limit() == old(self).history.limit(),
            final(self).kill_ring == old(self).kill_ring,
            final(self).config == old(self).config,
            final(self).custom_bindings == old(self).custom_bindings,
    {
        self.history.clear()
    }

    /// The history, to change it.
    pub fn get_history(&mut self) -> (history: &mut History)
        ensures
            *history == old(self).history,
            final(self).history == *final(history),
            final(self).kill_ring == old(self).kill_ring,
            final(self).config == old(self).config,
            final(self).custom_bindings == old(self).custom_bindings,
    {
        &mut self.history
    }

    /// The history.
    pub fn get_history_const(&self) -> (history: &History)
        ensures
            *history == self.history,
    {
        &self.history
    }

    /// Where `key_seq` is bound.
    fn find_binding(&self, key_seq: KeyPress) -> (found: Option<usize>)
        ensures
            match found {
                Some(i) => is_first_bound(self.custom_bindings@, key_seq, i as int),
                None => is_unbound(self.custom_bindings@, key_seq),
            },
    {
        let mut i: usize = 0;
        while i < self.custom_bindings.len()
            invariant
                i <= self.custom_bindings@.len(),
                forall|j: int| 0 <= j < i ==> (#[trigger] self.custom_bindings@[j]).0 != key_seq,
            decreases self.custom_bindings@.len() - i,
        {
            if self.custom_bindings[i].0 == key_seq {
                return Some(i);
            }
            i = i + 1;
        }
        None
    }

    /// The command that `key_seq` was bound to, if it was bound.
    pub fn binding(&self, key_seq: KeyPress) -> (cmd: Option<Cmd>)
        ensures
            match cmd {
                Some(cmd) => exists|i: int|
                    is_first_bound(self.custom_bindings@, key_seq, i) && cmd@
                        == self.custom_bindings@[i].1@,
                None => is_unbound(self.custom_bindings@, key_seq),
            },
    {
        match self.find_binding(key_seq) {
            Some(i) => Some(self.custom_bindings[i].1.duplicate()),
            None => None,
        }
    }

    /// Binds `key_seq` to `cmd` and returns the command that it was bound
    /// to before.
    pub fn bind_sequence(&mut self, key_seq: KeyPress, cmd: Cmd) -> (before: Option<Cmd>)
        ensures
            match before {
                Some(before) => exists|i: int|
                    is_first_bound(old(self).custom_bindings@, key_seq, i) && before == old(self).custom_bindings@[i].1 && final(self).custom_bindings@ == old(self).custom_bindings@.update(i, (key_seq, cmd)),
                None => is_unbound(old(self).custom_bindings@, key_seq) && final(self).custom_bindings@ == old(self).custom_bindings@.push((key_seq, cmd)),
            },
            final(self).history == old(self).history,
            final(self).kill_ring == old(self).kill_ring,
            final(self).config == old(self).config,
    {
        match self.find_binding(key_seq) {
            Some(i) => {
                let (_, before) = self.custom_bindings.remove(i);
                self.custom_bindings.insert(i, (key_seq, cmd));
                proof {
                    assert(self.custom_bindings@ =~= old(self).custom_bindings@.update(
                        i as int,
                        (key_seq, cmd),
                    ));
                }
                Some(before)
            },
            None => {
                self.custom_bindings.push((key_seq, cmd));
                None
            },
        }
    }

    /// Takes the binding of `key_seq` away and returns the command that it
    /// was bound to.
    pub fn unbind_sequence(&mut self, key_seq: KeyPress) -> (before: Option<Cmd>)
        ensures
            match before {
                Some(before) => exists|i: int|
                    is_first_bound(old(self).custom_bindings@, key_seq, i) && before == old(self).custom_bindings@[i].1 && final(self).custom_bindings@ == old(self).custom_bindings@.remove(i),
                None => is_unbound(old(self).custom_bindings@, key_seq) && final(self).custom_bindings@ == old(self).custom_bindings@,
            },
            final(self).history == old(self).history,
            final(self).kill_ring == old(self).kill_ring,
            final(self).config == old(self).config,
    {
        match self.find_binding(key_seq) {
            Some(i) => {
                let (_, before) = self.custom_bindings.remove(i);
                Some(before)
            },
            None => None,
        }
    }

    /// Notes that the editor did something other than kill or yank.
    pub fn reset_kill_ring(&mut self)
        ensures
            final(self).kill_ring@ == (RingView {
                last_action: Action::Other,
                ..old(self).kill_ring@
            }),
            final(self).history == old(self).history,
            final(self).config == old(self).config,
            final(self).custom_bindings == old(self).custom_bindings,
    {
        self.kill_ring.reset();
    }
}

} // verus!
