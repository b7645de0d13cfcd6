use fifteen_puzzle::board::Board;
use fifteen_puzzle::game::{with_move_count, Game};
use fifteen_puzzle::operation::Operation;

#[test]
fn test_is_done() {
    // New game should not be done (in an init/in-progress state)
    let game = Game::new();
    assert!(!game.is_done());

    // Test that the state updates and the game is shown as done after a dummy move on a complete board
    let array = [1, 2, 3, 4, 5, 6, 7, 8, 9, 10, 11, 12, 13, 14, 15, 0];
    let board = Board::from_existing_array(array);
    let mut game = Game::with_board(board);
    game.process_operation(Operation::Left);
    assert!(game.is_done());
}

#[test]
fn test_process_operation() {
    // Test that a valid move (one that changes the board) updates the move counter
    let array = [1, 2, 3, 4, 5, 6, 7, 8, 9, 10, 11, 12, 13, 14, 15, 0];
    let board = Board::from_existing_array(array);
    let mut game = Game::with_board(board);
    game.process_operation(Operation::Right);
    assert_eq!(game.moves(), 1);

    // Test that an invalid move does not update the move counter
    let array = [1, 2, 3, 4, 5, 6, 7, 8, 9, 10, 11, 12, 13, 14, 15, 0];
    let board = Board::from_existing_array(array);
    let mut game = Game::with_board(board);
    game.process_operation(Operation::Left);
    assert_eq!(game.moves(), 0);
}

#[test]
fn new_game_starts_at_zero() {
    let game = Game::new();
    assert_eq!(game.moves(), 0);
    assert!(!game.is_done());
}

#[test]
fn with_board_starts_in_progress_even_when_solved() {
    let solved: [u8; 16] = [1, 2, 3, 4, 5, 6, 7, 8, 9, 10, 11, 12, 13, 14, 15, 0];
    let game = Game::with_board(Board::from_existing_array(solved));
    assert!(!game.is_done());
    assert_eq!(game.moves(), 0);
}

#[test]
fn rejected_slide_on_solved_board_finishes_without_a_move() {
    let solved: [u8; 16] = [1, 2, 3, 4, 5, 6, 7, 8, 9, 10, 11, 12, 13, 14, 15, 0];
    let mut game = Game::with_board(Board::from_existing_array(solved));
    game.process_operation(Operation::Left);
    assert!(game.is_done());
    assert_eq!(game.moves(), 0);
}

#[test]
fn moves_count_only_the_slides_that_changed_the_board() {
    let cells: [u8; 16] = [1, 2, 3, 4, 0, 6, 7, 8, 9, 10, 11, 12, 13, 14, 15, 5];
    let mut game = Game::with_board(Board::from_existing_array(cells));
    // Right is rejected at the left edge.
    game.process_operation(Operation::Right);
    assert_eq!(game.moves(), 0);
    game.process_operation(Operation::Up);
    assert_eq!(game.moves(), 1);
    game.process_operation(Operation::Right);
    assert_eq!(game.moves(), 1);
    game.process_operation(Operation::Left);
    assert_eq!(game.moves(), 2);
    game.process_operation(Operation::Down);
    assert_eq!(game.moves(), 3);
    assert!(!game.is_done());
}

#[test]
fn the_solving_slide_finishes_the_game() {
    let cells: [u8; 16] = [1, 2, 3, 4, 5, 6, 7, 8, 9, 10, 11, 12, 13, 14, 0, 15];
    let mut game = Game::with_board(Board::from_existing_array(cells));
    assert!(!game.is_done());
    game.process_operation(Operation::Left);
    assert!(game.is_done());
    assert_eq!(game.moves(), 1);
}

#[test]
fn a_finished_game_stays_finished() {
    let cells: [u8; 16] = [1, 2, 3, 4, 5, 6, 7, 8, 9, 10, 11, 12, 13, 14, 0, 15];
    let mut game = Game::with_board(Board::from_existing_array(cells));
    game.process_operation(Operation::Left);
    assert!(game.is_done());
    for op in [Operation::Right, Operation::Down, Operation::Up, Operation::Left, Operation::Up] {
        game.process_operation(op);
        assert!(game.is_done());
    }
    assert_eq!(game.moves(), 5);
}

#[test]
fn move_count_line_follows_the_table() {
    assert_eq!(with_move_count("table".to_string(), 0), "table\nMove Count: 0\n");
    assert_eq!(with_move_count(String::new(), 12), "\nMove Count: 12\n");
}

#[test]
fn game_render_ends_with_the_move_count() {
    let cells: [u8; 16] = [1, 2, 3, 4, 5, 6, 7, 8, 9, 10, 11, 12, 13, 14, 0, 15];
    let board_text = Board::from_existing_array(cells).render();
    let mut game = Game::with_board(Board::from_existing_array(cells));
    assert_eq!(game.render(), format!("{}\nMove Count: 0\n", board_text));
    game.process_operation(Operation::Right);
    let text = game.render();
    assert!(text.ends_with("\nMove Count: 1\n"));
    assert_ne!(text, format!("{}\nMove Count: 1\n", board_text));
}
