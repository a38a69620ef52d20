//! Piece kinds and the pieces on the board.

use vstd::prelude::*;

use crate::players::PlayerId;

verus! {

/// Kind of a piece.
#[derive(Clone, Copy, Debug, PartialEq, Eq, Structural)]
pub enum Cat {
    Kitten,
    Adult,
}

impl Cat {
    /// An adult boops any piece; a kitten boops only another kitten.
    pub open spec fn boops(self, other: Cat) -> bool {
        self == Cat::Adult || (self == Cat::Kitten && other == Cat::Kitten)
    }

    pub fn can_boop(&self, other: Cat) -> (r: bool)
        ensures
            r == self.boops(other),
    {
        match (self, other) {
            (Cat::Adult, _) => true,
            (Cat::Kitten, Cat::Kitten) => true,
            _ => false,
        }
    }
}

/// A piece on the board: its identity, its owner and its kind.
#[derive(Clone, Copy, Debug, PartialEq, Eq, Structural)]
pub struct Piece {
    pub id: u64,
    pub owner: PlayerId,
    pub cat: Cat,
}

} // verus!
