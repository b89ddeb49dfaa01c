//! Marks and the two sides of a match.

use vstd::prelude::*;

verus! {

/// What a player writes into a cell. `Empty` is the blank mark: it belongs to
/// neither player.
#[derive(Clone, Copy, Debug, PartialEq, Eq, Structural)]
pub enum Sign {
    /// The mark of the first player.
    X,
    /// The mark of the second player.
    O,
    /// No player's mark. A cell that holds it is taken, and counts for no line.
    Empty,
}

impl Sign {
    /// The mark of the other player. The blank mark is its own complement.
    pub open spec fn complement(self) -> Sign {
        match self {
            Sign::X => Sign::O,
            Sign::O => Sign::X,
            Sign::Empty => Sign::Empty,
        }
    }

    /// The mark of the other player.
    pub fn complementary(&self) -> (other: Sign)
        ensures
            other == self.complement(),
    {
        match self {
            Sign::X => Sign::O,
            Sign::O => Sign::X,
            Sign::Empty => Sign::Empty,
        }
    }
}

/// A participant of a match together with the mark it plays.
#[derive(Clone, Copy, Debug, PartialEq, Eq, Structural)]
pub enum Player {
    /// The side whose moves the search picks.
    Computer(Sign),
    /// The side whose moves are typed in.
    Human(Sign),
}

impl Player {
    /// The mark this player writes.
    pub open spec fn sign(self) -> Sign {
        match self {
            Player::Computer(sign) => sign,
            Player::Human(sign) => sign,
        }
    }
}

/// The mark that `player` writes.
pub fn get_sign(player: Player) -> (sign: Sign)
    ensures
        sign == player.sign(),
{
    match player {
        Player::Human(sign) => sign,
        Player::Computer(sign) => sign,
    }
}

/// Taking the complement twice gives the mark back.
pub proof fn lemma_complement_involution(sign: Sign)
    ensures
        sign.complement().complement() == sign,
{
}

} // verus!
