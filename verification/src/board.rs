//! The nine-cell board and the rules that decide when a game is over.

use vstd::prelude::*;
use crate::sign::Sign;

verus! {

/// The contents of a board: what each of the cells 1..=9 holds, if anything.
pub type Cells = Map<int, Option<Sign>>;

/// Cells are numbered 1..=9, row by row from the top left.
pub open spec fn is_cell(cell: int) -> bool {
    1 <= cell <= 9
}

/// A board's contents have exactly the nine cells as their domain.
pub open spec fn well_formed(cells: Cells) -> bool {
    forall|cell: int| #[trigger] cells.dom().contains(cell) <==> is_cell(cell)
}

/// The contents of a board on which nothing has been placed.
pub open spec fn empty_cells() -> Cells {
    Map::new(|cell: int| is_cell(cell), |cell: int| Option::<Sign>::None)
}

/// The `k`-th winning line: rows from the top, then columns from the left,
/// then the two diagonals.
pub open spec fn line(k: int) -> (int, int, int) {
    if k == 0 {
        (1, 2, 3)
    } else if k == 1 {
        (4, 5, 6)
    } else if k == 2 {
        (7, 8, 9)
    } else if k == 3 {
        (1, 4, 7)
    } else if k == 4 {
        (2, 5, 8)
    } else if k == 5 {
        (3, 6, 9)
    } else if k == 6 {
        (1, 5, 9)
    } else {
        (3, 5, 7)
    }
}

/// The player's mark that fills all three cells of a line, if one does. The
/// blank mark owns no line.
pub open spec fn line_owner(cells: Cells, l: (int, int, int)) -> Option<Sign> {
    if (cells[l.0] == Some(Sign::X) || cells[l.0] == Some(Sign::O)) && cells[l.1] == cells[l.0]
        && cells[l.2] == cells[l.0] {
        cells[l.0]
    } else {
        None
    }
}

/// The owner of the first complete line among the lines `k`, `k + 1`, ..., 7.
pub open spec fn first_owner_from(cells: Cells, k: int) -> Option<Sign>
    decreases 8 - k,
{
    if k < 0 || k >= 8 {
        None
    } else if line_owner(cells, line(k)) is Some {
        line_owner(cells, line(k))
    } else {
        first_owner_from(cells, k + 1)
    }
}

/// The winner on a board: the owner of the first complete line in the order
/// of `line`.
pub open spec fn winner_of(cells: Cells) -> Option<Sign> {
    first_owner_from(cells, 0)
}

/// Whether some line is complete.
pub open spec fn some_line_complete(cells: Cells) -> bool {
    exists|k: int| 0 <= k < 8 && #[trigger] line_owner(cells, line(k)) is Some
}

/// There is a winner exactly where a line is complete, and the winner owns a
/// complete line before which no line is complete.
pub proof fn lemma_winner_owns_a_line(cells: Cells)
    ensures
        winner_of(cells) is Some <==> some_line_complete(cells),
        winner_of(cells) is Some ==> exists|k: int|
            0 <= k < 8 && #[trigger] line_owner(cells, line(k)) == winner_of(cells) && forall|
                j: int,
            |
                0 <= j < k ==> #[trigger] line_owner(cells, line(j)) is None,
{
    reveal_with_fuel(first_owner_from, 9);
    if winner_of(cells) is Some {
        let k = if line_owner(cells, line(0)) is Some {
            0int
        } else if line_owner(cells, line(1)) is Some {
            1int
        } else if line_owner(cells, line(2)) is Some {
            2int
        } else if line_owner(cells, line(3)) is Some {
            3int
        } else if line_owner(cells, line(4)) is Some {
            4int
        } else if line_owner(cells, line(5)) is Some {
            5int
        } else if line_owner(cells, line(6)) is Some {
            6int
        } else {
            7int
        };
        assert(line_owner(cells, line(k)) == winner_of(cells));
        assert(forall|j: int| 0 <= j < k ==> #[trigger] line_owner(cells, line(j)) is None);
    } else {
        assert(forall|k: int| 0 <= k < 8 ==> #[trigger] line_owner(cells, line(k)) is None);
    }
}

/// The blank mark never wins.
pub proof fn lemma_blank_never_wins(cells: Cells)
    ensures
        winner_of(cells) != Some(Sign::Empty),
{
    lemma_winner_owns_a_line(cells);
}

/// Some cell is still open.
pub open spec fn has_open(cells: Cells) -> bool {
    exists|cell: int| is_cell(cell) && #[trigger] cells[cell] is None
}

/// 1 for an open cell, 0 for a taken one.
pub open spec fn vacancy(cells: Cells, cell: int) -> nat {
    if cells[cell] is None {
        1
    } else {
        0
    }
}

/// How many of the nine cells are open.
pub open spec fn open_count(cells: Cells) -> nat {
    vacancy(cells, 1) + vacancy(cells, 2) + vacancy(cells, 3) + vacancy(cells, 4) + vacancy(
        cells,
        5,
    ) + vacancy(cells, 6) + vacancy(cells, 7) + vacancy(cells, 8) + vacancy(cells, 9)
}

/// Filling an open cell leaves one open cell fewer.
pub proof fn lemma_open_count_insert(cells: Cells, cell: int, mark: Sign)
    requires
        is_cell(cell),
        cells[cell] is None,
    ensures
        open_count(cells.insert(cell, Some(mark))) == open_count(cells) - 1,
{
}

/// Every cell is taken.
pub open spec fn is_full(cells: Cells) -> bool {
    forall|cell: int| is_cell(cell) ==> #[trigger] cells[cell] is Some
}

/// A game can go on: nobody has won and a cell is open.
pub open spec fn active(cells: Cells) -> bool {
    winner_of(cells) is None && has_open(cells)
}

/// A 3x3 board. Cell `c` is kept at index `c - 1`.
#[derive(Clone, Copy, Debug)]
pub struct Board {
    cells: [Option<Sign>; 9],
}

impl View for Board {
    type V = Cells;

    closed spec fn view(&self) -> Cells {
        Map::new(|cell: int| is_cell(cell), |cell: int| self.cells@[cell - 1])
    }
}

impl Board {
    /// Every board has the nine cells, no more and no fewer.
    pub proof fn lemma_well_formed(&self)
        ensures
            well_formed(self@),
    {
    }

    /// A board with all nine cells open.
    pub fn new() -> (board: Board)
        ensures
            board@ == empty_cells(),
    {
        let board = Board { cells: [None;9] };
        assert(board@ =~= empty_cells());
        board
    }

    /// Asked twice for one cell, an unchanged board answers alike: both
    /// answers are what its contents hold for that cell.
    pub proof fn lemma_occupant_stable(&self, cell: int, first: Option<Sign>, second: Option<Sign>)
        requires
            first == self@[cell],
            second == self@[cell],
        ensures
            first == second,
    {
    }

    /// What the cell holds. The board is left as it is.
    pub fn occupant(&self, cell: i8) -> (mark: Option<Sign>)
        requires
            is_cell(cell as int),
        ensures
            mark == self@[cell as int],
    {
        self.cells[(cell - 1) as usize]
    }

    /// Whether the cell holds nothing yet.
    pub fn is_open(&self, cell: i8) -> (open: bool)
        requires
            is_cell(cell as int),
        ensures
            open == (self@[cell as int] is None),
    {
        self.occupant(cell).is_none()
    }

    /// Whether at least one cell is open.
    pub fn any_open(&self) -> (open: bool)
        ensures
            open == has_open(self@),
    {
        let mut cell: i8 = 1;
        while cell <= 9
            invariant
                1 <= cell <= 10,
                forall|c: int| 1 <= c < cell ==> #[trigger] self@[c] is Some,
            decreases 10 - cell,
        {
            if self.is_open(cell) {
                return true;
            }
            cell += 1;
        }
        false
    }

    /// The player's mark that fills all three cells of a line, if one does.
    fn owner(&self, a: i8, b: i8, c: i8) -> (mark: Option<Sign>)
        requires
            is_cell(a as int),
            is_cell(b as int),
            is_cell(c as int),
        ensures
            mark == line_owner(self@, (a as int, b as int, c as int)),
    {
        match (self.occupant(a), self.occupant(b), self.occupant(c)) {
            (Some(Sign::Empty), _, _) => None,
            (Some(x), Some(y), Some(z)) => if x == y && x == z {
                Some(x)
            } else {
                None
            },
            _ => None,
        }
    }

    /// The winner, if a line is complete: the eight lines are tried in their
    /// fixed order and the first complete one decides.
    pub fn winner(&self) -> (mark: Option<Sign>)
        ensures
            mark == winner_of(self@),
            mark != Some(Sign::Empty),
    {
        proof {
            lemma_blank_never_wins(self@);
        }
        let lines: [(i8, i8, i8); 8] = [
            (1, 2, 3),
            (4, 5, 6),
            (7, 8, 9),
            (1, 4, 7),
            (2, 5, 8),
            (3, 6, 9),
            (1, 5, 9),
            (3, 5, 7),
        ];
        let mut k: usize = 0;
        while k < 8
            invariant
                k <= 8,
                forall|j: int|
                    0 <= j < 8 ==> (#[trigger] lines@[j]).0 == line(j).0 && lines@[j].1 == line(
                        j,
                    ).1 && lines@[j].2 == line(j).2,
                winner_of(self@) == first_owner_from(self@, k as int),
            decreases 8 - k,
        {
            let (a, b, c) = lines[k];
            let found = self.owner(a, b, c);
            if found.is_some() {
                return found;
            }
            k += 1;
        }
        None
    }

    /// Whether play can go on: nobody has won and a cell is open.
    pub fn is_active(&self) -> (playable: bool)
        ensures
            playable == active(self@),
            !playable <==> winner_of(self@) is Some || is_full(self@),
    {
        self.winner().is_none() && self.any_open()
    }

    /// Writes `mark` into an open cell.
    pub(crate) fn place(&mut self, cell: i8, mark: Sign)
        requires
            is_cell(cell as int),
            old(self)@[cell as int] is None,
        ensures
            final(self)@ == old(self)@.insert(cell as int, Some(mark)),
    {
        self.cells[(cell - 1) as usize] = Some(mark);
        assert(self@ =~= old(self)@.insert(cell as int, Some(mark)));
    }
}

} // verus!
