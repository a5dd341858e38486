use tictactoe::game::{Game, MoveError, Outcome};
use tictactoe::search::minimax;
use tictactoe::square::Square;

const E: Square = Square::Empty;
const X: Square = Square::X;
const O: Square = Square::O;

fn game_with(board: [[Square; 3]; 3], player: Square) -> Game {
    let mut game = Game::new();
    game.board = board;
    game.player = player;
    game
}

#[test]
fn flip_swaps_marks() {
    assert_eq!(X.flip(), O);
    assert_eq!(O.flip(), X);
    assert_eq!(E.flip(), E);
}

#[test]
fn symbols_of_squares() {
    assert_eq!(X.symbol(), 'X');
    assert_eq!(O.symbol(), 'O');
    assert_eq!(E.symbol(), ' ');
}

#[test]
fn new_game_is_empty_with_x_to_move() {
    let game = Game::new();
    assert_eq!(game.board, [[E; 3]; 3]);
    assert_eq!(game.player, X);
    assert_eq!(game.human, X);
    assert_eq!(game.agent, O);
}

#[test]
fn human_choosing_o_gives_agent_x() {
    let mut game = Game::new();
    game.set_human(O);
    assert_eq!(game.human, O);
    assert_eq!(game.agent, X);
    assert_eq!(game.player, X);
}

#[test]
fn move_places_mark_and_passes_turn() {
    let mut game = Game::new();
    assert_eq!(game.make_move(1, 2), Ok(()));
    assert_eq!(game.board[1][2], X);
    assert_eq!(game.player, O);
    assert_eq!(game.make_move(0, 0), Ok(()));
    assert_eq!(game.board[0][0], O);
    assert_eq!(game.player, X);
}

#[test]
fn move_on_occupied_cell_changes_nothing() {
    let mut game = Game::new();
    assert_eq!(game.make_move(1, 1), Ok(()));
    let board = game.board;
    for _ in 0..2 {
        assert_eq!(game.make_move(1, 1), Err(MoveError::OccupiedCell));
        assert_eq!(game.board, board);
        assert_eq!(game.player, O);
    }
}

#[test]
fn move_out_of_range_is_refused() {
    let mut game = Game::new();
    assert_eq!(game.make_move(3, 0), Err(MoveError::OutOfRange));
    assert_eq!(game.make_move(0, 3), Err(MoveError::OutOfRange));
    assert_eq!(game.make_move(7, 9), Err(MoveError::OutOfRange));
    assert_eq!(game.board, [[E; 3]; 3]);
    assert_eq!(game.player, X);
}

#[test]
fn winner_by_row_column_and_diagonals() {
    let row = game_with([[E, E, E], [O, O, O], [X, X, E]], X);
    assert!(row.is_winner(O));
    assert!(!row.is_winner(X));
    let col = game_with([[X, O, E], [X, O, E], [X, E, E]], O);
    assert!(col.is_winner(X));
    assert!(!col.is_winner(O));
    let down = game_with([[O, X, E], [X, O, E], [E, X, O]], X);
    assert!(down.is_winner(O));
    let up = game_with([[O, O, X], [E, X, E], [X, E, E]], O);
    assert!(up.is_winner(X));
    assert!(!up.is_winner(O));
    let none = game_with([[X, O, X], [E, E, E], [O, X, O]], X);
    assert!(!none.is_winner(X));
    assert!(!none.is_winner(O));
}

#[test]
fn full_board_without_line_is_draw() {
    let game = game_with([[X, O, X], [X, O, O], [O, X, X]], O);
    assert!(!game.is_winner(X));
    assert!(!game.is_winner(O));
    assert!(game.is_draw());
    assert_eq!(game.outcome(), Outcome::Draw);
}

#[test]
fn board_with_empty_cell_is_no_draw() {
    let game = game_with([[X, O, X], [X, O, O], [O, X, E]], X);
    assert!(!game.is_draw());
    assert_eq!(game.outcome(), Outcome::InProgress);
}

#[test]
fn outcome_reports_the_winner() {
    let x_wins = game_with([[X, X, X], [O, O, E], [E, E, E]], O);
    assert_eq!(x_wins.outcome(), Outcome::Won(X));
    let o_wins = game_with([[X, X, O], [X, O, E], [O, E, E]], X);
    assert_eq!(o_wins.outcome(), Outcome::Won(O));
    assert_eq!(Game::new().outcome(), Outcome::InProgress);
}

#[test]
fn played_game_has_one_winner() {
    let mut game = Game::new();
    for (row, col) in [(0, 0), (1, 0), (0, 1), (1, 1), (0, 2)] {
        assert_eq!(game.outcome(), Outcome::InProgress);
        assert_eq!(game.make_move(row, col), Ok(()));
    }
    assert!(game.is_winner(X));
    assert!(!game.is_winner(O));
    assert_eq!(game.outcome(), Outcome::Won(X));
}

#[test]
fn render_draws_rows_between_bars() {
    let game = game_with([[X, E, O], [E, E, E], [O, X, E]], X);
    let rows = game.render();
    assert_eq!(rows.len(), 3);
    let lines: Vec<String> = rows.iter().map(|r| r.iter().collect()).collect();
    assert_eq!(lines[0], "|X| |O|");
    assert_eq!(lines[1], "| | | |");
    assert_eq!(lines[2], "|O|X| |");
}

#[test]
fn undoing_a_move_restores_the_game() {
    let mut game = Game::new();
    assert_eq!(game.make_move(0, 0), Ok(()));
    let board = game.board;
    let player = game.player;
    assert_eq!(game.make_move(2, 1), Ok(()));
    assert_ne!(game.board, board);
    game.board[2][1] = E;
    game.player = game.player.flip();
    assert_eq!(game.board, board);
    assert_eq!(game.player, player);
    assert_eq!(game.human, X);
    assert_eq!(game.agent, O);
}

#[test]
fn search_from_empty_board_is_a_draw_at_first_cell() {
    let mut game = Game::new();
    assert_eq!(minimax(&mut game, true), (0, (0, 0)));
    assert_eq!(game.board, [[E; 3]; 3]);
    assert_eq!(game.player, X);
}

#[test]
fn search_completes_the_top_row() {
    let mut game = game_with([[O, O, E], [E, X, E], [E, E, E]], O);
    assert_eq!(minimax(&mut game, true), (1, (0, 2)));
    assert_eq!(game.make_move(0, 2), Ok(()));
    assert!(game.is_winner(O));
}

#[test]
fn search_blocks_a_diagonal_threat() {
    let mut game = game_with([[X, E, O], [E, X, E], [E, E, E]], O);
    let (score, (row, col)) = minimax(&mut game, true);
    assert_eq!((row, col), (2, 2));
    assert_eq!(score, 0);
}

#[test]
fn search_twice_gives_the_same_answer() {
    let mut game = game_with([[X, E, E], [E, O, E], [E, E, X]], O);
    let board = game.board;
    let first = minimax(&mut game, true);
    assert_eq!(game.board, board);
    let second = minimax(&mut game, true);
    assert_eq!(first, second);
    assert_eq!(game.board, board);
    assert_eq!(game.player, O);
}

#[test]
fn search_scores_terminal_boards() {
    let mut agent_won = game_with([[O, O, O], [X, X, E], [X, E, E]], X);
    assert_eq!(minimax(&mut agent_won, true), (1, (1, 1)));
    let mut human_won = game_with([[X, X, X], [O, O, E], [O, E, E]], O);
    assert_eq!(minimax(&mut human_won, false), (-1, (1, 1)));
    let mut drawn = game_with([[X, O, X], [X, O, O], [O, X, X]], O);
    assert_eq!(minimax(&mut drawn, true), (0, (1, 1)));
}

#[test]
fn minimizing_search_finds_the_human_win() {
    let mut game = game_with([[X, X, E], [O, O, E], [E, E, E]], X);
    let (score, best_move) = minimax(&mut game, false);
    assert_eq!(score, -1);
    assert_eq!(best_move, (1, 1));
}

#[test]
fn agent_playing_x_with_human_o() {
    let mut game = Game::new();
    game.set_human(O);
    let (score, (row, col)) = minimax(&mut game, true);
    assert_eq!(score, 0);
    assert_eq!(game.make_move(row, col), Ok(()));
    assert_eq!(game.board[0][0], X);
}
