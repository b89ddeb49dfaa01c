use tictactoe::game::Game;
use tictactoe::sign::{Player, Sign};

fn position(turn: Sign, xs: &[&str], os: &[&str]) -> Game {
    let mut game = Game::new(Player::Human(turn));
    for cell in xs {
        game.make_move(Player::Human(Sign::X), cell).unwrap();
    }
    for cell in os {
        game.make_move(Player::Human(Sign::O), cell).unwrap();
    }
    game
}

fn cells(game: &Game) -> Vec<Option<Sign>> {
    (1..=9).map(|cell| game.board.occupant(cell)).collect()
}

#[test]
fn best_move_on_empty_board_is_cell_one() {
    let game = Game::new(Player::Computer(Sign::X));
    assert_eq!(game.find_best_move(Player::Human(Sign::O)), 1);
}

#[test]
fn best_move_on_empty_board_as_o_is_cell_one() {
    let game = Game::new(Player::Computer(Sign::O));
    assert_eq!(game.find_best_move(Player::Human(Sign::X)), 1);
}

#[test]
fn best_move_completes_the_row() {
    let game = position(Sign::X, &["1", "2"], &["5"]);
    assert_eq!(game.find_best_move(Player::Human(Sign::O)), 3);
}

#[test]
fn best_move_blocks_the_row() {
    let game = position(Sign::O, &["1", "2"], &["5"]);
    assert_eq!(game.find_best_move(Player::Human(Sign::X)), 3);
}

#[test]
fn best_move_answers_a_corner_with_the_centre() {
    let game = position(Sign::O, &["1"], &[]);
    assert_eq!(game.find_best_move(Player::Human(Sign::X)), 5);
    let game = position(Sign::X, &[], &["1"]);
    assert_eq!(game.find_best_move(Player::Human(Sign::O)), 5);
}

#[test]
fn best_move_answers_the_centre_with_the_first_corner() {
    let game = position(Sign::O, &["5"], &[]);
    assert_eq!(game.find_best_move(Player::Human(Sign::X)), 1);
    let game = position(Sign::X, &[], &["5"]);
    assert_eq!(game.find_best_move(Player::Human(Sign::O)), 1);
}

#[test]
fn best_move_takes_the_lowest_cell_among_equals() {
    // Cells 2, 4, 6 and 8 all hold the draw; 3 and 7 lose.
    let game = position(Sign::O, &["1", "9"], &["5"]);
    assert_eq!(game.find_best_move(Player::Human(Sign::X)), 2);
    // Cells 4 and 7 both win in the same number of plies.
    let game = position(Sign::X, &["1", "5"], &["2", "9"]);
    assert_eq!(game.find_best_move(Player::Human(Sign::O)), 4);
}

#[test]
fn best_move_takes_the_only_cell_that_does_not_lose() {
    let game = position(Sign::O, &["1", "5"], &["2", "3"]);
    assert_eq!(game.find_best_move(Player::Human(Sign::X)), 9);
}

#[test]
fn best_move_goes_by_the_humans_mark() {
    // Scored as if the human played X, the winning cell looks worst to X.
    let game = position(Sign::X, &["1", "2"], &["5"]);
    assert_eq!(game.find_best_move(Player::Human(Sign::X)), 6);
    // Only a human with X turns the scores round.
    assert_eq!(game.find_best_move(Player::Computer(Sign::X)), 3);
}

#[test]
fn best_move_is_open_on_every_position_of_a_game() {
    let mut game = Game::new(Player::Computer(Sign::X));
    let mut placed = Vec::new();
    while game.check_state() {
        let human = Player::Human(game.turn.complementary());
        let before = cells(&game);
        let best = game.find_best_move(human);
        assert_eq!(cells(&game), before);
        assert!((1..=9).contains(&best));
        assert!(game.board.is_open(best));
        game.make_move(Player::Computer(game.turn), &best.to_string())
            .unwrap();
        game.turn = game.turn.complementary();
        placed.push(best);
    }
    assert_eq!(placed, vec![1, 5, 2, 3, 7, 4, 6, 8, 9]);
    assert_eq!(game.check_winner(), None);
}

#[test]
fn best_move_leaves_the_game_as_it_was() {
    let game = position(Sign::X, &["1", "2"], &["5"]);
    let before = cells(&game);
    let _ = game.find_best_move(Player::Human(Sign::O));
    assert_eq!(cells(&game), before);
    assert_eq!(game.turn, Sign::X);
}

#[test]
fn best_move_asked_twice_answers_alike() {
    let positions = [
        position(Sign::X, &[], &[]),
        position(Sign::O, &["1"], &[]),
        position(Sign::X, &["1", "2"], &["5"]),
        position(Sign::O, &["1", "9"], &["5"]),
    ];
    for game in positions {
        let human = Player::Human(game.turn.complementary());
        assert_eq!(game.find_best_move(human), game.find_best_move(human));
    }
}

#[test]
fn best_move_with_one_open_cell_takes_it() {
    let game = position(Sign::X, &["1", "3", "4", "8"], &["2", "5", "6", "7"]);
    assert_eq!(game.find_best_move(Player::Human(Sign::O)), 9);
}

#[test]
fn minimax_scores_a_win_of_x_by_depth() {
    let game = position(Sign::X, &["1", "2", "3"], &["4", "5"]);
    assert_eq!(game.minimax(Sign::O, 3, Player::Human(Sign::O)), 7);
    assert_eq!(game.minimax(Sign::O, 0, Player::Human(Sign::O)), 10);
    assert_eq!(game.minimax(Sign::O, 3, Player::Human(Sign::X)), -7);
    assert_eq!(game.minimax(Sign::O, 0, Player::Human(Sign::X)), -10);
    assert_eq!(game.minimax(Sign::O, 3, Player::Computer(Sign::X)), 7);
    assert_eq!(game.minimax(Sign::O, 3, Player::Computer(Sign::O)), 7);
}

#[test]
fn minimax_scores_a_win_of_o_by_depth() {
    let game = position(Sign::X, &["1", "2", "9"], &["4", "5", "6"]);
    assert_eq!(game.minimax(Sign::X, 2, Player::Human(Sign::O)), -12);
    assert_eq!(game.minimax(Sign::X, 0, Player::Human(Sign::O)), -10);
    assert_eq!(game.minimax(Sign::X, 2, Player::Human(Sign::X)), 12);
    assert_eq!(game.minimax(Sign::X, 0, Player::Human(Sign::X)), 10);
}

#[test]
fn minimax_scores_a_board_filled_with_blank_marks_as_a_draw() {
    let mut game = Game::new(Player::Human(Sign::X));
    for cell in ["1", "2", "3", "4", "5", "6", "7", "8", "9"] {
        game.make_move(Player::Human(Sign::Empty), cell).unwrap();
    }
    assert_eq!(game.minimax(Sign::O, 4, Player::Human(Sign::O)), 0);
    assert_eq!(game.minimax(Sign::O, 4, Player::Human(Sign::X)), 0);
}

#[test]
fn minimax_scores_a_draw_as_zero() {
    let game = position(Sign::X, &["1", "3", "4", "8", "9"], &["2", "5", "6", "7"]);
    assert_eq!(game.minimax(Sign::X, 5, Player::Human(Sign::O)), 0);
    assert_eq!(game.minimax(Sign::O, 8, Player::Human(Sign::X)), 0);
}

#[test]
fn minimax_checks_the_winner_before_the_full_board() {
    let game = position(Sign::X, &["1", "2", "3", "6", "7"], &["4", "5", "8", "9"]);
    assert_eq!(game.minimax(Sign::O, 8, Player::Human(Sign::O)), 2);
}

#[test]
fn minimax_takes_the_greatest_reply_for_the_mark_in_turn() {
    let game = position(Sign::X, &["1", "2"], &["5"]);
    assert_eq!(game.minimax(Sign::X, 0, Player::Human(Sign::O)), 9);
    let game = position(Sign::X, &["1", "2"], &["4", "5"]);
    assert_eq!(game.minimax(Sign::X, 2, Player::Human(Sign::O)), 7);
}

#[test]
fn minimax_takes_the_least_reply_for_the_other_mark() {
    let game = position(Sign::X, &["1", "2"], &["4", "5"]);
    assert_eq!(game.minimax(Sign::O, 2, Player::Human(Sign::O)), -15);
    assert_eq!(game.minimax(Sign::O, 2, Player::Human(Sign::X)), 13);
    let game = position(Sign::O, &["1", "2"], &["5"]);
    assert_eq!(game.minimax(Sign::X, 0, Player::Human(Sign::O)), 0);
}

#[test]
fn minimax_of_the_empty_board_is_a_draw() {
    let game = Game::new(Player::Computer(Sign::X));
    assert_eq!(game.minimax(Sign::X, 0, Player::Human(Sign::O)), 0);
    assert_eq!(game.minimax(Sign::X, 0, Player::Computer(Sign::X)), 0);
}

#[test]
fn minimax_leaves_the_game_as_it_was() {
    let game = position(Sign::X, &["1", "2"], &["5"]);
    let before = cells(&game);
    let _ = game.minimax(Sign::X, 0, Player::Human(Sign::O));
    assert_eq!(cells(&game), before);
    assert_eq!(game.turn, Sign::X);
}
