//! Exhaustive minimax search for the computer's move.

use vstd::prelude::*;
use vstd::math::{max, min};
use crate::board::{has_open, is_cell, lemma_open_count_insert, open_count, winner_of, Cells};
use crate::game::Game;
use crate::sign::{Player, Sign};

verus! {

/// A node of the search tree: a board, the mark that places next on it, and
/// what stays as it is all through one search.
pub struct Node {
    /// What the board holds.
    pub cells: Cells,
    /// The mark whose turn it is in the game that the search was started for.
    pub turn: Sign,
    /// The mark that is placed next at this node.
    pub mover: Sign,
    /// How many placements lie between the candidate move and this node.
    pub depth: int,
    /// The human side, by which scores are oriented.
    pub human: Player,
}

impl Node {
    /// Whether the mover goes for the greatest value. It does where it is the
    /// mark in `turn`, and for the least where it is not.
    pub open spec fn maximizing(self) -> bool {
        self.mover == self.turn
    }

    /// The node reached when the mover takes `cell`: the other mark places
    /// next, one placement further down.
    pub open spec fn after(self, cell: int) -> Node {
        Node {
            cells: self.cells.insert(cell, Some(self.mover)),
            mover: self.mover.complement(),
            depth: self.depth + 1,
            ..self
        }
    }

    /// Whether every score below this node fits an `i8` with room to spare:
    /// the depth stays within -117..=117 however many cells are filled.
    pub open spec fn in_range(self) -> bool {
        -117 <= self.depth && self.depth + open_count(self.cells) <= 117
    }
}

/// What a win is worth before the depth is taken into account. The blank
/// mark never wins; it is given 0 to make the function total.
pub open spec fn score_adjustment(winner: Sign) -> int {
    match winner {
        Sign::X => 10,
        Sign::O => -10,
        Sign::Empty => 0,
    }
}

/// The score of a board that `winner` has won at depth `depth`. Scores are
/// turned round when the human plays X.
pub open spec fn terminal_score(winner: Sign, depth: int, human: Player) -> int {
    if human == Player::Human(Sign::X) {
        depth - score_adjustment(winner)
    } else {
        score_adjustment(winner) - depth
    }
}

/// The value that a node starts from before any reply has been looked at:
/// the least `i8` where the greatest reply is wanted, the greatest `i8`
/// where the least is.
pub open spec fn no_reply_value(maximizing: bool) -> int {
    if maximizing {
        i8::MIN as int
    } else {
        i8::MAX as int
    }
}

/// The minimax value of a node.
///
/// A won board is worth its terminal score and a full board without a winner
/// is worth 0. Anywhere else the value is the best of the values of the
/// mover's replies.
pub open spec fn minimax_value(node: Node) -> int
    decreases open_count(node.cells), 10int,
{
    match winner_of(node.cells) {
        Some(winner) => terminal_score(winner, node.depth, node.human),
        None => if has_open(node.cells) {
            best_reply(node, 9)
        } else {
            0
        },
    }
}

/// The value of the node after the mover has taken the open cell `cell`.
pub open spec fn reply_value(node: Node, cell: int) -> int
    decreases open_count(node.cells), 0int,
{
    if is_cell(cell) && node.cells[cell] is None {
        minimax_value(node.after(cell))
    } else {
        0
    }
}

/// The best value among the replies on the open cells 1..=`upto`, taken in
/// ascending order, or the starting value where none of these cells is open.
pub open spec fn best_reply(node: Node, upto: int) -> int
    decreases open_count(node.cells), upto,
{
    if upto < 1 || upto > 9 {
        no_reply_value(node.maximizing())
    } else if node.cells[upto] is Some {
        best_reply(node, upto - 1)
    } else if node.maximizing() {
        max(best_reply(node, upto - 1), reply_value(node, upto))
    } else {
        min(best_reply(node, upto - 1), reply_value(node, upto))
    }
}

/// Whether `value` is the value of a reply on one of the open cells
/// 1..=`upto`, and no reply on these cells is better for the mover.
pub open spec fn is_best_among(node: Node, upto: int, value: int) -> bool {
    &&& exists|cell: int|
        1 <= cell <= upto && node.cells[cell] is None && #[trigger] reply_value(node, cell)
            == value
    &&& forall|cell: int|
        1 <= cell <= upto && node.cells[cell] is None ==> if node.maximizing() {
            #[trigger] reply_value(node, cell) <= value
        } else {
            reply_value(node, cell) >= value
        }
}

/// What the side in `turn` gets by taking `cell`: the value of the board
/// after that placement, with the other side to place next at depth 0.
pub open spec fn candidate_value(cells: Cells, turn: Sign, human: Player, cell: int) -> int {
    minimax_value(
        Node { cells: cells.insert(cell, Some(turn)), turn, mover: turn.complement(), depth: 0, human },
    )
}

/// Whether `cell` is the move that the search picks: an open cell whose value
/// no other open cell exceeds, and the lowest-numbered among those of that
/// value.
pub open spec fn is_best_move(cells: Cells, turn: Sign, human: Player, cell: int) -> bool {
    &&& is_cell(cell)
    &&& cells[cell] is None
    &&& forall|other: int|
        is_cell(other) && cells[other] is None ==> #[trigger] candidate_value(
            cells,
            turn,
            human,
            other,
        ) <= candidate_value(cells, turn, human, cell)
    &&& forall|other: int|
        1 <= other < cell && cells[other] is None ==> #[trigger] candidate_value(
            cells,
            turn,
            human,
            other,
        ) < candidate_value(cells, turn, human, cell)
}

/// How the depth enters the score of a win: the deeper the win lies, the
/// higher it scores when the human plays X, and the lower when not.
pub proof fn lemma_terminal_score_by_depth(winner: Sign, shallow: int, deep: int, human: Player)
    requires
        shallow < deep,
    ensures
        human == Player::Human(Sign::X) ==> terminal_score(winner, shallow, human)
            < terminal_score(winner, deep, human),
        human != Player::Human(Sign::X) ==> terminal_score(winner, shallow, human)
            > terminal_score(winner, deep, human),
{
}

/// No score leaves the range -127..=127, so none is mistaken for the value
/// that a node starts from.
pub proof fn lemma_minimax_bounds(node: Node)
    requires
        node.in_range(),
    ensures
        -127 <= minimax_value(node) <= 127,
    decreases open_count(node.cells), 10int,
{
    if winner_of(node.cells) is None && has_open(node.cells) {
        lemma_best_reply(node, 9);
    }
}

/// Where nobody has won and a cell is open, the value of a node is the value
/// of the mover's best reply: the greatest among the replies when the mover
/// is the mark in `turn`, the least otherwise.
pub proof fn lemma_minimax_is_best_reply(node: Node)
    requires
        node.in_range(),
        winner_of(node.cells) is None,
        has_open(node.cells),
    ensures
        is_best_among(node, 9, minimax_value(node)),
{
    lemma_best_reply(node, 9);
    let open = choose|cell: int| is_cell(cell) && #[trigger] node.cells[cell] is None;
    assert(has_open_upto(node.cells, 9));
}

/// The search is a function of the board, the turn and the human side: at
/// most one cell is the best move.
pub proof fn lemma_best_move_unique(cells: Cells, turn: Sign, human: Player, a: int, b: int)
    requires
        is_best_move(cells, turn, human, a),
        is_best_move(cells, turn, human, b),
    ensures
        a == b,
{
    if a < b {
        assert(candidate_value(cells, turn, human, a) < candidate_value(cells, turn, human, b));
    } else if b < a {
        assert(candidate_value(cells, turn, human, b) < candidate_value(cells, turn, human, a));
    }
}

/// The value of a reply on an open cell is the value of the node after it.
proof fn lemma_reply_value(node: Node, cell: int)
    requires
        is_cell(cell),
        node.cells[cell] is None,
    ensures
        reply_value(node, cell) == minimax_value(node.after(cell)),
{
}

/// Whether one of the cells 1..=`upto` is open.
spec fn has_open_upto(cells: Cells, upto: int) -> bool {
    exists|cell: int| 1 <= cell <= upto && #[trigger] cells[cell] is None
}

/// What holds of the fold over the cells 1..=`upto`: without an open cell it
/// keeps its starting value, and with one it yields the best of the replies,
/// which lies in -127..=127.
spec fn fold_is_best(node: Node, upto: int) -> bool {
    let best = best_reply(node, upto);
    if has_open_upto(node.cells, upto) {
        -127 <= best <= 127 && is_best_among(node, upto, best)
    } else {
        best == no_reply_value(node.maximizing())
    }
}

/// Taking one more cell into the fold keeps `fold_is_best`.
proof fn lemma_fold_step(node: Node, upto: int)
    requires
        is_cell(upto),
        fold_is_best(node, upto - 1),
        node.cells[upto] is None ==> -127 <= reply_value(node, upto) <= 127,
    ensures
        fold_is_best(node, upto),
{
    let earlier = best_reply(node, upto - 1);
    let best = best_reply(node, upto);
    if node.cells[upto] is None {
        assert(has_open_upto(node.cells, upto));
        if best != reply_value(node, upto) {
            // The new reply did not take over, so an earlier one holds the value.
            let holder = choose|cell: int|
                1 <= cell <= upto - 1 && node.cells[cell] is None && #[trigger] reply_value(
                    node,
                    cell,
                ) == earlier;
            assert(reply_value(node, holder) == best);
        }
    } else if has_open_upto(node.cells, upto) {
        let open = choose|cell: int| 1 <= cell <= upto && #[trigger] node.cells[cell] is None;
        assert(has_open_upto(node.cells, upto - 1));
    }
}

/// `fold_is_best` holds of every fold on the way.
proof fn lemma_best_reply(node: Node, upto: int)
    requires
        node.in_range(),
        0 <= upto <= 9,
    ensures
        fold_is_best(node, upto),
    decreases open_count(node.cells), upto,
{
    if upto >= 1 {
        lemma_best_reply(node, upto - 1);
        if node.cells[upto] is None {
            lemma_open_count_insert(node.cells, upto, node.mover);
            lemma_reply_value(node, upto);
            lemma_minimax_bounds(node.after(upto));
        }
        lemma_fold_step(node, upto);
    }
}

impl Game {
    /// The node at which the search stands when it looks at this game with
    /// `mover` to place next.
    pub open spec fn node(self, mover: Sign, depth: int, human: Player) -> Node {
        Node { cells: self.board@, turn: self.turn, mover, depth, human }
    }

    /// The minimax value of the current board with `is_maximizing` about to
    /// place a mark, `depth` placements below the candidate move.
    ///
    /// `depth` is bounded so that no score on the way leaves the range of
    /// `i8`. The game itself is left as it is.
    pub fn minimax(&self, is_maximizing: Sign, depth: i8, human: Player) -> (value: i8)
        requires
            self.node(is_maximizing, depth as int, human).in_range(),
        ensures
            value == minimax_value(self.node(is_maximizing, depth as int, human)),
        decreases open_count(self.board@),
    {
        let ghost node = self.node(is_maximizing, depth as int, human);
        if let Some(winner) = self.check_winner() {
            let score_adjustment: i8 = match winner {
                Sign::X => 10,
                Sign::O => -10,
                Sign::Empty => 0,
            };
            return if human == Player::Human(Sign::X) {
                depth - score_adjustment
            } else {
                score_adjustment - depth
            };
        }
        if !self.check_state() {
            return 0;
        }
        let maximizing = is_maximizing == self.turn;
        let mut best_value: i8 = if maximizing {
            i8::MIN
        } else {
            i8::MAX
        };
        let mut pos: i8 = 1;
        while pos <= 9
            invariant
                1 <= pos <= 10,
                node == self.node(is_maximizing, depth as int, human),
                node.in_range(),
                maximizing == node.maximizing(),
                best_value == best_reply(node, pos - 1),
            decreases 10 - pos,
        {
            if self.board.is_open(pos) {
                let mut new_game = *self;
                new_game.board.place(pos, is_maximizing);
                proof {
                    lemma_open_count_insert(self.board@, pos as int, is_maximizing);
                    lemma_reply_value(node, pos as int);
                    assert(new_game.node(is_maximizing.complement(), depth + 1, human)
                        == node.after(pos as int));
                }
                let move_value = new_game.minimax(is_maximizing.complementary(), depth + 1, human);
                if maximizing {
                    if move_value > best_value {
                        best_value = move_value;
                    }
                } else {
                    if move_value < best_value {
                        best_value = move_value;
                    }
                }
            }
            pos += 1;
        }
        best_value
    }

    /// The cell that the side in `turn` should take: the open cell of the
    /// greatest value, and the lowest-numbered one where several share it.
    ///
    /// The board must have an open cell. The game itself is left as it is.
    pub fn find_best_move(&self, human: Player) -> (best_move: i8)
        requires
            has_open(self.board@),
        ensures
            is_best_move(self.board@, self.turn, human, best_move as int),
    {
        let mut best_move: i8 = 0;
        let mut best_value: i8 = i8::MIN;
        let mut pos: i8 = 1;
        while pos <= 9
            invariant
                1 <= pos <= 10,
                0 <= best_move < pos,
                best_move == 0 ==> best_value == i8::MIN && !has_open_upto(self.board@, pos - 1),
                best_move != 0 ==> self.board@[best_move as int] is None && best_value
                    == candidate_value(self.board@, self.turn, human, best_move as int),
                forall|other: int|
                    1 <= other < pos && self.board@[other] is None ==> #[trigger] candidate_value(
                        self.board@,
                        self.turn,
                        human,
                        other,
                    ) <= best_value,
                forall|other: int|
                    1 <= other < best_move && self.board@[other] is None
                        ==> #[trigger] candidate_value(self.board@, self.turn, human, other)
                        < best_value,
            decreases 10 - pos,
        {
            if self.board.is_open(pos) {
                let mut new_game = *self;
                new_game.board.place(pos, new_game.turn);
                let ghost reply = new_game.node(self.turn.complement(), 0, human);
                proof {
                    lemma_minimax_bounds(reply);
                }
                let move_value = new_game.minimax(new_game.turn.complementary(), 0, human);
                if move_value > best_value {
                    best_value = move_value;
                    best_move = pos;
                }
            }
            pos += 1;
        }
        proof {
            let open = choose|cell: int| is_cell(cell) && #[trigger] self.board@[cell] is None;
            assert(has_open_upto(self.board@, 9));
        }
        best_move
    }
}

} // verus!
