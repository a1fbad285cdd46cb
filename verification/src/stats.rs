//! The per-keystroke counters the classifier feeds. Derived metrics (words
//! per minute, accuracy percentages) belong to the caller, not to the core.

use vstd::prelude::*;

verus! {

/// Keystroke tallies: every classified keystroke counts once in
/// `letter_count`, and once more in `incorrect_letters` when it missed.
pub struct Stats {
    pub letter_count: u64,
    pub incorrect_letters: u64,
}

impl Stats {
    pub fn new() -> (s: Stats)
        ensures
            s.letter_count == 0,
            s.incorrect_letters == 0,
    {
        Stats { letter_count: 0, incorrect_letters: 0 }
    }
}

} // verus!
