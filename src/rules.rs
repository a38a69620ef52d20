//! Choices among the variants of the rules.

use vstd::prelude::*;

verus! {

/// Rule variants that a game is played with.
#[derive(Clone, Copy, Debug, PartialEq, Eq, Structural)]
pub struct Rules {
    /// A placed piece also boops pieces of its own owner.
    pub boop_own_pieces: bool,
    /// Adult cats count towards a row, besides kittens.
    pub adults_in_rows: bool,
}

impl Default for Rules {
    /// Own pieces are booped too; only kittens make a row.
    fn default() -> (r: Rules)
        ensures
            r.boop_own_pieces,
            !r.adults_in_rows,
    {
        Rules { boop_own_pieces: true, adults_in_rows: false }
    }
}

} // verus!
