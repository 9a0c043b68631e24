//! How the editor works.

use vstd::prelude::*;

verus! {

/// The settings of an editor.
#[derive(Debug, Clone, Copy, PartialEq, Eq, Structural)]
pub struct Config {
    /// The number of entries that the history keeps.
    pub max_history_size: usize,
    /// Whether a line that repeats the last entry of the history is left
    /// out of it.
    pub history_ignore_dups: bool,
    /// Whether a line that begins with white space is left out of the
    /// history.
    pub history_ignore_space: bool,
}

impl Default for Config {
    fn default() -> (config: Self)
        ensures
            config == (Config {
                max_history_size: 100,
                history_ignore_dups: true,
                history_ignore_space: false,
            }),
    {
        Config { max_history_size: 100, history_ignore_dups: true, history_ignore_space: false }
    }
}

} // verus!
