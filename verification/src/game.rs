//! A game in progress: the board and the mark that moves next.

use vstd::prelude::*;
use crate::board::{active, empty_cells, is_full, winner_of, Board, Cells};
use crate::sign::{get_sign, Player, Sign};
use crate::text::{cell_of_text, parse_cell};

verus! {

/// Why a placement was turned down.
#[derive(Clone, Copy, Debug, PartialEq, Eq, Structural)]
pub enum MoveError {
    /// The text does not name one of the cells 1..=9.
    InvalidInput,
    /// The cell that the text names is taken already.
    CellOccupied,
}

/// How an attempt to place a mark ends: it is turned down where the text
/// names no cell, and where the cell it names is taken.
pub open spec fn placement_outcome(cells: Cells, text: Seq<char>) -> Result<(), MoveError> {
    match cell_of_text(text) {
        None => Err(MoveError::InvalidInput),
        Some(cell) => if cells[cell] is Some {
            Err(MoveError::CellOccupied)
        } else {
            Ok(())
        },
    }
}

/// What the board holds after the attempt: the mark in the named cell where
/// the attempt succeeds, and what it held before where it does not.
pub open spec fn cells_after_placement(cells: Cells, mark: Sign, text: Seq<char>) -> Cells {
    match cell_of_text(text) {
        Some(cell) => if cells[cell] is None {
            cells.insert(cell, Some(mark))
        } else {
            cells
        },
        None => cells,
    }
}

/// A placement changes nothing but the cell it fills: marks that are on the
/// board stay where they are.
pub proof fn lemma_placement_keeps_marks(cells: Cells, mark: Sign, text: Seq<char>, cell: int)
    requires
        cells[cell] is Some,
    ensures
        cells_after_placement(cells, mark, text)[cell] == cells[cell],
{
}

/// A board together with the mark whose turn it is. Whoever drives the game
/// flips `turn` after each placement.
#[derive(Clone, Copy, Debug)]
pub struct Game {
    /// The board as it stands.
    pub board: Board,
    /// The mark that moves next.
    pub turn: Sign,
}

impl Game {
    /// A fresh game in which `player` moves first.
    pub fn new(player: Player) -> (game: Game)
        ensures
            game.board@ == empty_cells(),
            game.turn == player.sign(),
    {
        Game { board: Board::new(), turn: get_sign(player) }
    }

    /// Whether play can go on: nobody has won and a cell is open.
    pub fn check_state(&self) -> (playable: bool)
        ensures
            playable == active(self.board@),
            !playable <==> winner_of(self.board@) is Some || is_full(self.board@),
    {
        self.board.is_active()
    }

    /// The winner on the current board, if a line is complete.
    pub fn check_winner(&self) -> (mark: Option<Sign>)
        ensures
            mark == winner_of(self.board@),
            mark != Some(Sign::Empty),
    {
        self.board.winner()
    }

    /// Places the mark of `player` on the cell that `placement` names.
    ///
    /// The placement is turned down, and the game left as it was, where the
    /// text names no cell or the cell it names is taken. `turn` is left to the
    /// caller.
    pub fn make_move(&mut self, player: Player, placement: &str) -> (outcome: Result<(), MoveError>)
        ensures
            outcome == placement_outcome(old(self).board@, placement@),
            final(self).board@ == cells_after_placement(
                old(self).board@,
                player.sign(),
                placement@,
            ),
            outcome is Err ==> final(self).board == old(self).board,
            final(self).turn == old(self).turn,
    {
        let cell = match parse_cell(placement) {
            Some(cell) => cell,
            None => {
                return Err(MoveError::InvalidInput);
            },
        };
        if self.board.is_open(cell) {
            self.board.place(cell, get_sign(player));
            Ok(())
        } else {
            Err(MoveError::CellOccupied)
        }
    }
}

} // verus!
