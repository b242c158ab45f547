use othello::board::{Board, BoardError, Cell};
use othello::stone::{Position, Stone, StoneType};

fn count_cells(board: &Board, cell: Cell) -> usize {
    let mut n = 0;
    for y in 0..8u32 {
        for x in 0..8u32 {
            if board.get(x, y) == Ok(cell) {
                n += 1;
            }
        }
    }
    n
}

#[test]
fn empty_board_has_no_stone() {
    let board = Board::empty();
    assert_eq!(count_cells(&board, Cell::Empty), 64);
}

#[test]
fn opening_board_has_the_diagonal_pattern() {
    let board = Board::opening();
    assert_eq!(board.get(3, 3), Ok(Cell::Occupied(StoneType::Black)));
    assert_eq!(board.get(4, 4), Ok(Cell::Occupied(StoneType::Black)));
    assert_eq!(board.get(3, 4), Ok(Cell::Occupied(StoneType::White)));
    assert_eq!(board.get(4, 3), Ok(Cell::Occupied(StoneType::White)));
    assert_eq!(count_cells(&board, Cell::Occupied(StoneType::Black)), 2);
    assert_eq!(count_cells(&board, Cell::Occupied(StoneType::White)), 2);
    assert_eq!(count_cells(&board, Cell::Empty), 60);
}

#[test]
fn opening_board_indexes_rows_by_y() {
    let board = Board::opening();
    assert_eq!(board.cells[4][3], Cell::Occupied(StoneType::White));
    assert_eq!(board.cells[3][4], Cell::Occupied(StoneType::White));
    assert_eq!(board.cells[3][3], Cell::Occupied(StoneType::Black));
}

#[test]
fn get_fails_off_the_board() {
    let board = Board::opening();
    assert_eq!(board.get(8, 0), Err(BoardError::OutOfRange));
    assert_eq!(board.get(0, 8), Err(BoardError::OutOfRange));
    assert_eq!(board.get(8, 8), Err(BoardError::OutOfRange));
    assert_eq!(board.get(u32::MAX, 3), Err(BoardError::OutOfRange));
    assert_eq!(board.get(7, 7), Ok(Cell::Empty));
    assert_eq!(board.get(0, 0), Ok(Cell::Empty));
}

#[test]
fn set_overwrites_one_cell() {
    let mut board = Board::opening();
    let before = board;
    assert_eq!(board.set(2, 5, Cell::Occupied(StoneType::White)), Ok(()));
    for y in 0..8u32 {
        for x in 0..8u32 {
            if x == 2 && y == 5 {
                assert_eq!(board.get(x, y), Ok(Cell::Occupied(StoneType::White)));
            } else {
                assert_eq!(board.get(x, y), before.get(x, y));
            }
        }
    }
}

#[test]
fn set_does_not_ask_whether_the_move_is_legal() {
    let mut board = Board::opening();
    assert_eq!(board.set(3, 3, Cell::Empty), Ok(()));
    assert_eq!(board.get(3, 3), Ok(Cell::Empty));
    assert_eq!(board.set(0, 0, Cell::Occupied(StoneType::Black)), Ok(()));
    assert_eq!(board.get(0, 0), Ok(Cell::Occupied(StoneType::Black)));
}

#[test]
fn set_fails_off_the_board_and_changes_nothing() {
    let mut board = Board::opening();
    let before = board;
    assert_eq!(board.set(8, 1, Cell::Occupied(StoneType::Black)), Err(BoardError::OutOfRange));
    assert_eq!(board.set(1, 8, Cell::Occupied(StoneType::Black)), Err(BoardError::OutOfRange));
    assert_eq!(board, before);
}

#[test]
fn stone_constructors_give_their_colour() {
    assert_eq!(Stone::new(StoneType::White).stone_type, StoneType::White);
    assert_eq!(Stone::new(StoneType::Black).stone_type, StoneType::Black);
    assert_eq!(Stone::black().stone_type, StoneType::Black);
    assert_eq!(Stone::white().stone_type, StoneType::White);
}

#[test]
fn reverse_turns_a_stone_over() {
    let mut stone = Stone::black();
    stone.reverse();
    assert_eq!(stone, Stone::white());
    stone.reverse();
    assert_eq!(stone, Stone::black());
}

#[test]
fn opponent_swaps_the_colours() {
    assert_eq!(StoneType::Black.opponent(), StoneType::White);
    assert_eq!(StoneType::White.opponent(), StoneType::Black);
}

#[test]
fn on_board_holds_below_eight() {
    assert!(Position { x: 0, y: 0 }.on_board());
    assert!(Position { x: 7, y: 7 }.on_board());
    assert!(!Position { x: 8, y: 7 }.on_board());
    assert!(!Position { x: 7, y: 8 }.on_board());
}
