//! What was cut out of the line, to be put back.

use vstd::prelude::*;
use crate::grapheme::texts;

verus! {

/// On which side of what was killed last the next kill goes.
#[derive(Debug, Clone, Copy, PartialEq, Eq, Structural)]
pub enum Mode {
    Append,
    Prepend,
}

/// What the editor did last, as far as the ring goes.
#[derive(Debug, Clone, Copy, PartialEq, Eq, Structural)]
pub enum Action {
    /// It killed text.
    Kill,
    /// It yanked text of this many characters.
    Yank(usize),
    Other,
}

/// What a [`KillRing`] holds.
pub struct RingView {
    /// The texts that were killed.
    pub slots: Seq<Seq<char>>,
    /// The slot that a yank takes.
    pub index: nat,
    /// What the editor did last.
    pub last_action: Action,
    /// The number of slots that the ring keeps.
    pub size: nat,
}

impl RingView {
    /// The ring has no more slots than it keeps, and the slot that a yank
    /// takes is one of them.
    pub open spec fn wf(self) -> bool {
        &&& self.slots.len() <= self.size
        &&& self.slots.len() > 0 ==> self.index < self.slots.len()
        &&& self.slots.len() == 0 ==> self.index == 0
    }

    /// The slot that a kill goes to when it begins a text of its own: the
    /// one after the current slot, or the first where the ring is full.
    pub open spec fn next_index(self) -> nat {
        if self.index + 1 == self.size {
            0
        } else if self.slots.len() > 0 {
            self.index + 1
        } else {
            self.index
        }
    }

    /// The ring after `text` was killed: joined to what was killed just
    /// before, on the side that `dir` says, or in a slot of its own. A ring
    /// that keeps nothing only notes the kill.
    pub open spec fn kill(self, text: Seq<char>, dir: Mode) -> RingView {
        if self.size == 0 {
            RingView { last_action: Action::Kill, ..self }
        } else if self.last_action == Action::Kill && self.slots.len() > 0 {
            RingView {
                slots: self.slots.update(
                    self.index as int,
                    match dir {
                        Mode::Append => self.slots[self.index as int] + text,
                        Mode::Prepend => text + self.slots[self.index as int],
                    },
                ),
                ..self
            }
        } else {
            let index = self.next_index();
            RingView {
                slots: if index == self.slots.len() {
                    self.slots.push(text)
                } else {
                    self.slots.update(index as int, text)
                },
                index,
                last_action: Action::Kill,
                size: self.size,
            }
        }
    }

    /// The ring after a yank, and the text that the yank gives.
    pub open spec fn yank(self) -> (RingView, Option<Seq<char>>) {
        if self.slots.len() == 0 {
            (self, None)
        } else {
            let text = self.slots[self.index as int];
            (
                RingView { last_action: Action::Yank(text.len() as usize), ..self },
                Some(text),
            )
        }
    }

    /// The ring after the text of the last yank was exchanged for the one
    /// killed before it, with the length of the text that goes and the text
    /// that comes. Nothing happens unless a yank came just before.
    pub open spec fn yank_pop(self) -> (RingView, Option<(usize, Seq<char>)>) {
        match self.last_action {
            Action::Yank(yank_size) => {
                if self.slots.len() == 0 {
                    (self, None)
                } else {
                    let index = if self.index == 0 {
                        (self.slots.len() - 1) as nat
                    } else {
                        (self.index - 1) as nat
                    };
                    let text = self.slots[index as int];
                    (
                        RingView {
                            index,
                            last_action: Action::Yank(text.len() as usize),
                            ..self
                        },
                        Some((yank_size, text)),
                    )
                }
            },
            _ => (self, None),
        }
    }
}

/// A ring of texts that were cut out of the line.
#[derive(Debug)]
pub struct KillRing {
    slots: Vec<String>,
    index: usize,
    last_action: Action,
    size: usize,
}

impl View for KillRing {
    type V = RingView;

    closed spec fn view(&self) -> RingView {
        RingView {
            slots: texts(self.slots@),
            index: self.index as nat,
            last_action: self.last_action,
            size: self.size as nat,
        }
    }
}

impl KillRing {
    pub open spec fn wf(&self) -> bool {
        self@.wf()
    }

    /// An empty ring that keeps `size` texts.
    pub fn new(size: usize) -> (ring: KillRing)
        ensures
            ring.wf(),
            ring@ == (RingView {
                slots: Seq::empty(),
                index: 0,
                last_action: Action::Other,
                size: size as nat,
            }),
    {
        let ring = KillRing { slots: Vec::new(), index: 0, last_action: Action::Other, size };
        proof {
            assert(ring@.slots =~= Seq::<Seq<char>>::empty());
        }
        ring
    }

    /// Notes that the editor did something other than kill or yank: the
    /// next kill begins a text of its own.
    pub fn reset(&mut self)
        ensures
            final(self)@ == (RingView { last_action: Action::Other, ..old(self)@ }),
    {
        self.last_action = Action::Other;
    }

    /// Takes in `text`, which was killed.
    pub fn kill(&mut self, text: &str, dir: Mode)
        requires
            old(self).wf(),
        ensures
            final(self).wf(),
            final(self)@ == old(self)@.kill(text@, dir),
    {
        if self.size == 0 {
            self.last_action = Action::Kill;
            return ;
        }
        let joins = match self.last_action {
            Action::Kill => self.slots.len() > 0,
            _ => false,
        };
        if joins {
            let ghost before = self@.slots;
            let joined = match dir {
                Mode::Append => {
                    let mut joined = self.slots[self.index].clone();
                    joined.append(text);
                    joined
                },
                Mode::Prepend => {
                    let mut joined = text.to_owned();
                    joined.append(self.slots[self.index].as_str());
                    joined
                },
            };
            self.slots.set(self.index, joined);
            proof {
                assert(self@.slots =~= before.update(self.index as int, joined@));
            }
        } else {
            self.last_action = Action::Kill;
            if self.index == self.size - 1 {
                self.index = 0;
            } else if self.slots.len() > 0 {
                self.index = self.index + 1;
            }
            let ghost before = self@.slots;
            if self.index == self.slots.len() {
                self.slots.push(text.to_owned());
                proof {
                    assert(self@.slots =~= before.push(text@));
                }
            } else {
                self.slots.set(self.index, text.to_owned());
                proof {
                    assert(self@.slots =~= before.update(self.index as int, text@));
                }
            }
        }
    }

    /// The text to put back: what was killed last.
    pub fn yank(&mut self) -> (text: Option<String>)
        requires
            old(self).wf(),
        ensures
            final(self).wf(),
            final(self)@ == old(self)@.yank().0,
            match text {
                Some(text) => old(self)@.yank().1 == Some(text@),
                None => old(self)@.yank().1 is None,
            },
    {
        if self.slots.len() == 0 {
            None
        } else {
            let text = self.slots[self.index].clone();
            self.last_action = Action::Yank(text.as_str().unicode_len());
            Some(text)
        }
    }

    /// After a yank: the length of the text that the yank put back, and the
    /// text that was killed before it, to put back in its place.
    pub fn yank_pop(&mut self) -> (popped: Option<(usize, String)>)
        requires
            old(self).wf(),
        ensures
            final(self).wf(),
            final(self)@ == old(self)@.yank_pop().0,
            match popped {
                Some((size, text)) => old(self)@.yank_pop().1 == Some((size, text@)),
                None => old(self)@.yank_pop().1 is None,
            },
    {
        match self.last_action {
            Action::Yank(yank_size) => {
                if self.slots.len() == 0 {
                    return None;
                }
                if self.index == 0 {
                    self.index = self.slots.len() - 1;
                } else {
                    self.index = self.index - 1;
                }
                let text = self.slots[self.index].clone();
                self.last_action = Action::Yank(text.as_str().unicode_len());
                Some((yank_size, text))
            },
            _ => None,
        }
    }
}

} // verus!
