//! Boards that come up in play, and what holds of them.

use vstd::prelude::*;
use crate::board::{
    empty_cells, is_cell, lemma_winner_owns_a_line, line, line_owner, well_formed, winner_of,
    Cells,
};
use crate::sign::Sign;

verus! {

/// A placement that play allows on a board: it fills an open cell, and
/// nobody has won yet.
pub open spec fn may_place(cells: Cells, cell: int) -> bool {
    is_cell(cell) && cells[cell] is None && winner_of(cells) is None
}

/// The board after the placements `moves`, each a cell and the mark written
/// there, made in order on an empty board.
pub open spec fn board_after(moves: Seq<(int, Sign)>) -> Cells
    decreases moves.len(),
{
    if moves.len() == 0 {
        empty_cells()
    } else {
        board_after(moves.drop_last()).insert(moves.last().0, Some(moves.last().1))
    }
}

/// Whether each of the placements was allowed on the board it was made on.
pub open spec fn in_play(moves: Seq<(int, Sign)>) -> bool
    decreases moves.len(),
{
    moves.len() == 0 || (in_play(moves.drop_last()) && may_place(
        board_after(moves.drop_last()),
        moves.last().0,
    ))
}

/// Whether play can lead to this board.
pub open spec fn reachable(cells: Cells) -> bool {
    exists|moves: Seq<(int, Sign)>| in_play(moves) && #[trigger] board_after(moves) == cells
}

/// Whether all complete lines on the board show the same mark.
pub open spec fn one_winner_at_most(cells: Cells) -> bool {
    forall|j: int, k: int|
        0 <= j < 8 && 0 <= k < 8 && (#[trigger] line_owner(cells, line(j))) is Some && (
        #[trigger] line_owner(cells, line(k))) is Some ==> line_owner(cells, line(j))
            == line_owner(cells, line(k))
}

/// A placement made while nobody has won completes lines for the mark that
/// was placed only: every complete line shows that mark, and so does the
/// winner if there is one.
pub proof fn lemma_only_the_mover_wins(cells: Cells, cell: int, mark: Sign)
    requires
        may_place(cells, cell),
    ensures
        forall|k: int|
            0 <= k < 8 && (#[trigger] line_owner(cells.insert(cell, Some(mark)), line(k))) is Some
                ==> line_owner(cells.insert(cell, Some(mark)), line(k)) == Some(mark),
        winner_of(cells.insert(cell, Some(mark))) is None || winner_of(
            cells.insert(cell, Some(mark)),
        ) == Some(mark),
{
    let after = cells.insert(cell, Some(mark));
    lemma_winner_owns_a_line(cells);
    lemma_winner_owns_a_line(after);
    assert forall|k: int| 0 <= k < 8 && (#[trigger] line_owner(after, line(k))) is Some implies
        line_owner(after, line(k)) == Some(mark) by {
        let l = line(k);
        assert(line_owner(cells, line(k)) is None);
        if l.0 != cell && l.1 != cell && l.2 != cell {
            assert(line_owner(after, l) == line_owner(cells, l));
        }
    }
}

/// Play starts from the empty board.
pub proof fn lemma_empty_board_reachable()
    ensures
        reachable(empty_cells()),
{
    let moves = Seq::<(int, Sign)>::empty();
    assert(in_play(moves) && board_after(moves) == empty_cells());
}

/// A placement that play allows leads from one reachable board to another.
pub proof fn lemma_placement_reachable(cells: Cells, cell: int, mark: Sign)
    requires
        reachable(cells),
        may_place(cells, cell),
    ensures
        reachable(cells.insert(cell, Some(mark))),
{
    let before = choose|moves: Seq<(int, Sign)>|
        in_play(moves) && #[trigger] board_after(moves) == cells;
    let moves = before.push((cell, mark));
    assert(moves.drop_last() =~= before);
    assert(in_play(moves) && board_after(moves) == cells.insert(cell, Some(mark)));
}

/// Every board that play leads to has the nine cells.
pub proof fn lemma_board_after_well_formed(moves: Seq<(int, Sign)>)
    requires
        in_play(moves),
    ensures
        well_formed(board_after(moves)),
    decreases moves.len(),
{
    if moves.len() > 0 {
        lemma_board_after_well_formed(moves.drop_last());
    }
}

/// On a board that play leads to, no two complete lines show different
/// marks: the winner does not depend on the order in which the lines are
/// looked at.
pub proof fn lemma_reachable_one_winner(cells: Cells)
    requires
        reachable(cells),
    ensures
        one_winner_at_most(cells),
        forall|k: int|
            0 <= k < 8 && (#[trigger] line_owner(cells, line(k))) is Some ==> line_owner(
                cells,
                line(k),
            ) == winner_of(cells),
{
    let moves = choose|moves: Seq<(int, Sign)>|
        in_play(moves) && #[trigger] board_after(moves) == cells;
    lemma_winner_owns_a_line(cells);
    if moves.len() == 0 {
        assert forall|k: int| 0 <= k < 8 implies (#[trigger] line_owner(cells, line(k))) is None by {
            assert(is_cell(line(k).0));
        }
    } else {
        let before = board_after(moves.drop_last());
        lemma_only_the_mover_wins(before, moves.last().0, moves.last().1);
    }
}

} // verus!
