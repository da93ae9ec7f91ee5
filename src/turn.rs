//! Whose move it is.

use vstd::prelude::*;

verus! {

/// The player whose move is expected.
#[derive(Debug, PartialEq, Eq, Clone, Copy, Structural)]
pub enum PlayerTurn {
    Player1,
    Player2,
}

impl PlayerTurn {
    /// The other player.
    pub open spec fn other(self) -> PlayerTurn {
        match self {
            PlayerTurn::Player1 => PlayerTurn::Player2,
            PlayerTurn::Player2 => PlayerTurn::Player1,
        }
    }

    /// The player who moves after `self`: turns strictly alternate.
    pub fn next(self) -> (r: Self)
        ensures
            r == self.other(),
            r != self,
    {
        match self {
            PlayerTurn::Player1 => PlayerTurn::Player2,
            PlayerTurn::Player2 => PlayerTurn::Player1,
        }
    }
}

} // verus!
