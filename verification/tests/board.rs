use fifteen_puzzle::board::Board;
use fifteen_puzzle::operation::Operation;

const MIDDLE: [u8; 16] = [1, 2, 3, 4, 0, 6, 7, 8, 9, 10, 11, 12, 13, 14, 15, 5];
const TOP_RIGHT: [u8; 16] = [1, 2, 3, 0, 4, 6, 7, 8, 9, 10, 11, 12, 13, 14, 15, 5];
const SOLVED: [u8; 16] = [1, 2, 3, 4, 5, 6, 7, 8, 9, 10, 11, 12, 13, 14, 15, 0];

fn with_blank_at(idx: usize) -> [u8; 16] {
    let mut cells = [0u8; 16];
    let mut next = 1u8;
    for (i, cell) in cells.iter_mut().enumerate() {
        if i != idx {
            *cell = next;
            next += 1;
        }
    }
    cells
}

fn valid_count(idx: usize) -> usize {
    let mut count = 0;
    for op in [Operation::Up, Operation::Down, Operation::Left, Operation::Right] {
        let mut board = Board::from_existing_array(with_blank_at(idx));
        if board.process_operation(op) {
            count += 1;
        }
    }
    count
}

fn sorted_positions(board: &Board<u8>) -> Vec<usize> {
    let mut positions: Vec<usize> = board
        .array()
        .iter()
        .map(|t| if *t == 0 { 15 } else { (*t - 1) as usize })
        .collect();
    positions.sort();
    positions
}

#[test]
fn test_is_solved() {
    // Provide a solved board
    let array = [1, 2, 3, 4, 5, 6, 7, 8, 9, 10, 11, 12, 13, 14, 15, 0];
    let board = Board::from_existing_array(array);
    assert!(board.is_solved());

    // Provide an unsolved board
    let array = [2, 1, 3, 4, 5, 6, 7, 8, 9, 10, 11, 12, 13, 14, 15, 0];
    let board = Board::from_existing_array(array);
    assert!(!board.is_solved())
}

#[test]
fn test_process_operation_up() {
    // Test an up operation (swaps blank with item below it)
    let array = [1, 2, 3, 4, 0, 6, 7, 8, 9, 10, 11, 12, 13, 14, 15, 5];
    let final_array = [1, 2, 3, 4, 9, 6, 7, 8, 0, 10, 11, 12, 13, 14, 15, 5];
    let mut board = Board::from_existing_array(array);
    board.process_operation(Operation::Up);
    assert_eq!(*board.array(), final_array);
}

#[test]
fn test_process_operation_down() {
    // Test a down operation (swaps blank with item above it)
    let array = [1, 2, 3, 4, 0, 6, 7, 8, 9, 10, 11, 12, 13, 14, 15, 5];
    let final_array = [0, 2, 3, 4, 1, 6, 7, 8, 9, 10, 11, 12, 13, 14, 15, 5];
    let mut board = Board::from_existing_array(array);
    board.process_operation(Operation::Down);
    assert_eq!(*board.array(), final_array);
}

#[test]
fn test_process_operation_right() {
    // Test a right operation (swaps blank with item to the left of it)
    let array = [1, 2, 3, 0, 4, 6, 7, 8, 9, 10, 11, 12, 13, 14, 15, 5];
    let final_array = [1, 2, 0, 3, 4, 6, 7, 8, 9, 10, 11, 12, 13, 14, 15, 5];
    let mut board = Board::from_existing_array(array);
    board.process_operation(Operation::Right);
    assert_eq!(*board.array(), final_array);

    // Test the edge case when the item is on the left-most side
    let array = [1, 2, 3, 4, 0, 6, 7, 8, 9, 10, 11, 12, 13, 14, 15, 5];
    let final_array = array.clone();
    let mut board = Board::from_existing_array(array);
    board.process_operation(Operation::Right);
    assert_eq!(*board.array(), final_array);
}

#[test]
fn test_process_operation_left() {
    // Test a left operation (swaps blank with item to the right of it)
    let array = [1, 2, 3, 4, 0, 6, 7, 8, 9, 10, 11, 12, 13, 14, 15, 5];
    let final_array = [1, 2, 3, 4, 6, 0, 7, 8, 9, 10, 11, 12, 13, 14, 15, 5];
    let mut board = Board::from_existing_array(array);
    board.process_operation(Operation::Left);
    assert_eq!(*board.array(), final_array);

    // Test the edge case when the item is on the right-most side
    let array = [1, 2, 3, 0, 4, 6, 7, 8, 9, 10, 11, 12, 13, 14, 15, 5];
    let final_array = array.clone();
    let mut board = Board::from_existing_array(array);
    board.process_operation(Operation::Left);
    assert_eq!(*board.array(), final_array);
}

#[test]
fn from_existing_array_finds_the_blank() {
    assert_eq!(Board::from_existing_array(MIDDLE).blank_idx(), 4);
    assert_eq!(Board::from_existing_array(TOP_RIGHT).blank_idx(), 3);
    assert_eq!(Board::from_existing_array(SOLVED).blank_idx(), 15);
    assert_eq!(*Board::from_existing_array(MIDDLE).array(), MIDDLE);
}

#[test]
fn from_existing_array_takes_the_first_of_two_blanks() {
    let cells: [u8; 16] = [1, 2, 0, 4, 5, 0, 7, 8, 9, 10, 11, 12, 13, 14, 15, 3];
    assert_eq!(Board::from_existing_array(cells).blank_idx(), 2);
}

#[test]
fn slides_report_whether_the_board_changed() {
    let mut board = Board::from_existing_array(MIDDLE);
    assert!(board.process_operation(Operation::Up));
    assert_eq!(board.blank_idx(), 8);
    let mut board = Board::from_existing_array(MIDDLE);
    assert!(board.process_operation(Operation::Down));
    assert_eq!(board.blank_idx(), 0);
    let mut board = Board::from_existing_array(TOP_RIGHT);
    assert!(board.process_operation(Operation::Right));
    assert_eq!(board.blank_idx(), 2);
    let mut board = Board::from_existing_array(MIDDLE);
    assert!(board.process_operation(Operation::Left));
    assert_eq!(board.blank_idx(), 5);
}

#[test]
fn rejected_slide_changes_nothing() {
    let mut board = Board::from_existing_array(MIDDLE);
    assert!(!board.process_operation(Operation::Right));
    assert_eq!(*board.array(), MIDDLE);
    assert_eq!(board.blank_idx(), 4);

    let mut board = Board::from_existing_array(TOP_RIGHT);
    assert!(!board.process_operation(Operation::Left));
    assert_eq!(*board.array(), TOP_RIGHT);
    assert_eq!(board.blank_idx(), 3);

    let mut board = Board::from_existing_array(TOP_RIGHT);
    assert!(!board.process_operation(Operation::Down));
    assert_eq!(*board.array(), TOP_RIGHT);

    let mut board = Board::from_existing_array(SOLVED);
    assert!(!board.process_operation(Operation::Up));
    assert_eq!(*board.array(), SOLVED);
    assert_eq!(board.blank_idx(), 15);
}

#[test]
fn corners_allow_exactly_two_slides() {
    assert_eq!(valid_count(0), 2);
    assert_eq!(valid_count(3), 2);
    assert_eq!(valid_count(12), 2);
    assert_eq!(valid_count(15), 2);
}

#[test]
fn edges_allow_three_slides_and_the_middle_four() {
    assert_eq!(valid_count(1), 3);
    assert_eq!(valid_count(4), 3);
    assert_eq!(valid_count(7), 3);
    assert_eq!(valid_count(14), 3);
    assert_eq!(valid_count(5), 4);
    assert_eq!(valid_count(10), 4);
}

#[test]
fn borders_reject_the_slide_that_would_leave_the_board() {
    for row in 0..4 {
        let mut board = Board::from_existing_array(with_blank_at(row * 4));
        assert!(!board.process_operation(Operation::Right));
        let mut board = Board::from_existing_array(with_blank_at(row * 4 + 3));
        assert!(!board.process_operation(Operation::Left));
    }
    for col in 0..4 {
        let mut board = Board::from_existing_array(with_blank_at(col));
        assert!(!board.process_operation(Operation::Down));
        let mut board = Board::from_existing_array(with_blank_at(12 + col));
        assert!(!board.process_operation(Operation::Up));
    }
}

#[test]
fn slides_keep_the_tiles_and_the_single_blank() {
    let ops = [
        Operation::Up,
        Operation::Left,
        Operation::Left,
        Operation::Left,
        Operation::Left,
        Operation::Down,
        Operation::Down,
        Operation::Down,
        Operation::Right,
        Operation::Up,
        Operation::Up,
        Operation::Up,
        Operation::Up,
        Operation::Right,
        Operation::Right,
        Operation::Right,
        Operation::Right,
    ];
    let mut board = Board::from_existing_array(MIDDLE);
    for op in ops {
        let before = *board.array();
        let blank_before = board.blank_idx();
        let changed = board.process_operation(op);
        if !changed {
            assert_eq!(*board.array(), before);
            assert_eq!(board.blank_idx(), blank_before);
        }
        assert_eq!(sorted_positions(&board), (0..16).collect::<Vec<usize>>());
        assert_eq!(board.array().iter().filter(|t| **t == 0).count(), 1);
        assert_eq!(board.array()[board.blank_idx()], 0);
    }
}

#[test]
fn is_solved_holds_only_of_the_solved_order() {
    assert!(Board::from_existing_array(SOLVED).is_solved());
    assert!(!Board::from_existing_array(MIDDLE).is_solved());
    let mut board = Board::from_existing_array(SOLVED);
    assert!(board.process_operation(Operation::Right));
    assert!(!board.is_solved());
    assert!(board.process_operation(Operation::Left));
    assert!(board.is_solved());
}

#[test]
fn parity_rule_on_known_arrangements() {
    // No inversion, blank in the bottom row.
    assert!(Board::<u8>::is_solvable(&SOLVED, 15));
    // One inversion among the tiles, blank in the bottom row.
    let swapped: [u8; 16] = [1, 2, 3, 4, 5, 6, 7, 8, 9, 10, 11, 12, 13, 15, 14, 0];
    assert!(!Board::<u8>::is_solvable(&swapped, 15));
    // The blank counts with position 15: one inversion, bottom row.
    let blank_before_last: [u8; 16] = [1, 2, 3, 4, 5, 6, 7, 8, 9, 10, 11, 12, 13, 14, 0, 15];
    assert!(!Board::<u8>::is_solvable(&blank_before_last, 14));
    // Seven inversions, blank in the second row from the bottom.
    let seven: [u8; 16] = [1, 2, 3, 4, 5, 6, 7, 8, 9, 10, 11, 0, 13, 14, 15, 12];
    assert!(Board::<u8>::is_solvable(&seven, 11));
    // Eight inversions, blank in the second row from the bottom.
    let eight: [u8; 16] = [1, 2, 3, 4, 5, 6, 7, 8, 9, 10, 0, 11, 13, 14, 15, 12];
    assert!(!Board::<u8>::is_solvable(&eight, 10));
    // Nine inversions, blank in the second row from the bottom.
    let nine: [u8; 16] = [2, 1, 3, 4, 5, 6, 7, 8, 9, 10, 0, 11, 13, 14, 15, 12];
    assert!(Board::<u8>::is_solvable(&nine, 10));
    // Fifteen inversions, blank in the top row.
    let top: [u8; 16] = [0, 1, 2, 3, 4, 5, 6, 7, 8, 9, 10, 11, 12, 13, 14, 15];
    assert!(Board::<u8>::is_solvable(&top, 0));
    // Fourteen inversions, blank in the top row.
    let top_next: [u8; 16] = [1, 0, 2, 3, 4, 5, 6, 7, 8, 9, 10, 11, 12, 13, 14, 15];
    assert!(!Board::<u8>::is_solvable(&top_next, 1));
}

#[test]
fn new_boards_are_solvable_arrangements() {
    for _ in 0..50 {
        let board: Board<u8> = Board::new();
        assert!(Board::<u8>::is_solvable(board.array(), board.blank_idx()));
        assert_eq!(sorted_positions(&board), (0..16).collect::<Vec<usize>>());
        assert_eq!(board.array()[board.blank_idx()], 0);
        let mut tiles = board.array().to_vec();
        tiles.sort();
        assert_eq!(tiles, (0..16).collect::<Vec<u8>>());
    }
}

#[test]
fn new_boards_are_shuffled() {
    let start: [u8; 16] = [0, 1, 2, 3, 4, 5, 6, 7, 8, 9, 10, 11, 12, 13, 14, 15];
    let mut moved = false;
    let mut unsolved = false;
    for _ in 0..20 {
        let board: Board<u8> = Board::new();
        moved = moved || *board.array() != start;
        unsolved = unsolved || !board.is_solved();
    }
    assert!(moved);
    assert!(unsolved);
}

#[test]
fn render_draws_a_table_of_the_tiles() {
    let text = Board::from_existing_array(MIDDLE).render();
    let lines: Vec<&str> = text.lines().collect();
    assert_eq!(lines.len(), 9);
    let cells = |line: &str| -> Vec<String> {
        line.trim_matches('|').split('|').map(|c| c.trim().to_string()).collect()
    };
    assert_eq!(cells(lines[1]), vec!["1", "2", "3", "4"]);
    assert_eq!(cells(lines[3]), vec!["", "6", "7", "8"]);
    assert_eq!(cells(lines[5]), vec!["9", "10", "11", "12"]);
    assert_eq!(cells(lines[7]), vec!["13", "14", "15", "5"]);
    assert!(lines[0].starts_with('+'));
    assert!(lines[8].starts_with('+'));
}

#[test]
fn from_solvable_array_accepts_by_the_parity_rule() {
    let board = Board::from_solvable_array(SOLVED).expect("the solved order meets the rule");
    assert_eq!(*board.array(), SOLVED);
    assert_eq!(board.blank_idx(), 15);
    assert!(board.is_solved());

    let swapped: [u8; 16] = [1, 2, 3, 4, 5, 6, 7, 8, 9, 10, 11, 12, 13, 15, 14, 0];
    assert!(Board::from_solvable_array(swapped).is_none());

    let seven: [u8; 16] = [1, 2, 3, 4, 5, 6, 7, 8, 9, 10, 11, 0, 13, 14, 15, 12];
    let board = Board::from_solvable_array(seven).expect("seven inversions, second row");
    assert_eq!(*board.array(), seven);
    assert_eq!(board.blank_idx(), 11);

    let eight: [u8; 16] = [1, 2, 3, 4, 5, 6, 7, 8, 9, 10, 0, 11, 13, 14, 15, 12];
    assert!(Board::from_solvable_array(eight).is_none());
}
