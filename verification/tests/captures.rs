use othello::board::{Board, Cell};
use othello::game_master::GameMaster;
use othello::rules::Direction;
use othello::stone::{Position, StoneType};

fn at(x: u32, y: u32) -> Position {
    Position { x, y }
}

fn black() -> Cell {
    Cell::Occupied(StoneType::Black)
}

fn white() -> Cell {
    Cell::Occupied(StoneType::White)
}

fn game_on(board: Board, turn: StoneType) -> GameMaster {
    let mut game = GameMaster::default();
    game.board = board;
    game.turn = turn;
    game
}

fn legal_cells(game: &GameMaster) -> Vec<Position> {
    let mut cells = Vec::new();
    for x in 0..8u32 {
        for y in 0..8u32 {
            if game.is_placable_at(at(x, y)) {
                cells.push(at(x, y));
            }
        }
    }
    cells
}

#[test]
fn directions_come_in_scan_order() {
    let expected = [(-1, -1), (-1, 0), (-1, 1), (0, -1), (0, 1), (1, -1), (1, 0), (1, 1)];
    for k in 0..8usize {
        let dir = Direction::nth(k);
        assert_eq!((dir.x, dir.y), expected[k]);
    }
}

#[test]
fn opening_black_has_four_legal_cells() {
    let game = GameMaster::default();
    assert_eq!(legal_cells(&game), vec![at(2, 4), at(3, 5), at(4, 2), at(5, 3)]);
    assert_eq!(game.get_reversible_at(at(2, 4)), vec![at(3, 4)]);
    assert_eq!(game.get_reversible_at(at(3, 5)), vec![at(3, 4)]);
    assert_eq!(game.get_reversible_at(at(4, 2)), vec![at(4, 3)]);
    assert_eq!(game.get_reversible_at(at(5, 3)), vec![at(4, 3)]);
}

#[test]
fn opening_white_has_four_legal_cells() {
    let game = game_on(Board::opening(), StoneType::White);
    assert_eq!(legal_cells(&game), vec![at(2, 3), at(3, 2), at(4, 5), at(5, 4)]);
    assert_eq!(game.get_reversible_at(at(2, 3)), vec![at(3, 3)]);
    assert_eq!(game.get_reversible_at(at(3, 2)), vec![at(3, 3)]);
    assert_eq!(game.get_reversible_at(at(4, 5)), vec![at(4, 4)]);
    assert_eq!(game.get_reversible_at(at(5, 4)), vec![at(4, 4)]);
}

#[test]
fn opening_cells_next_to_own_stones_only_are_illegal_for_black() {
    let game = GameMaster::default();
    for cell in [at(2, 3), at(3, 2), at(4, 5), at(5, 4)] {
        assert!(!game.is_placable_at(cell));
        assert_eq!(game.get_reversible_at(cell), vec![]);
    }
}

#[test]
fn cell_without_opposing_neighbour_is_illegal() {
    let game = GameMaster::default();
    for cell in [at(0, 0), at(7, 7), at(1, 6), at(2, 2), at(5, 5), at(0, 4)] {
        assert!(!game.is_placable_at(cell));
        assert_eq!(game.get_reversible_at(cell), vec![]);
    }
}

#[test]
fn taken_cell_is_illegal() {
    let game = GameMaster::default();
    for cell in [at(3, 3), at(4, 4), at(3, 4), at(4, 3)] {
        assert!(!game.is_placable_at(cell));
        assert_eq!(game.get_reversible_at(cell), vec![]);
        for k in 0..8usize {
            assert_eq!(game.get_reversible(cell, Direction::nth(k)), vec![]);
        }
    }
}

#[test]
fn off_board_cell_is_illegal() {
    let game = GameMaster::default();
    for cell in [at(8, 0), at(0, 8), at(8, 8), at(8, 4), at(3, 8), at(u32::MAX, u32::MAX)] {
        assert!(!game.is_placable_at(cell));
        assert_eq!(game.get_reversible_at(cell), vec![]);
        for k in 0..8usize {
            assert_eq!(game.get_reversible(cell, Direction::nth(k)), vec![]);
        }
    }
}

#[test]
fn walk_collects_a_run_nearest_first() {
    let mut board = Board::empty();
    for x in 1..6u32 {
        board.cells[2][x as usize] = white();
    }
    board.cells[2][6] = black();
    let game = game_on(board, StoneType::Black);
    assert_eq!(
        game.get_reversible(at(0, 2), Direction { x: 1, y: 0 }),
        vec![at(1, 2), at(2, 2), at(3, 2), at(4, 2), at(5, 2)]
    );
    assert_eq!(game.get_reversible(at(0, 2), Direction { x: -1, y: 0 }), vec![]);
    assert_eq!(game.get_reversible(at(0, 2), Direction { x: 0, y: 1 }), vec![]);
}

#[test]
fn walk_that_leaves_the_board_captures_nothing() {
    let mut board = Board::empty();
    for x in 1..8u32 {
        board.cells[2][x as usize] = white();
    }
    let game = game_on(board, StoneType::Black);
    assert_eq!(game.get_reversible(at(0, 2), Direction { x: 1, y: 0 }), vec![]);
    assert!(!game.is_placable_at(at(0, 2)));
}

#[test]
fn walk_that_meets_a_free_cell_captures_nothing() {
    let mut board = Board::empty();
    board.cells[2][1] = white();
    board.cells[2][2] = white();
    board.cells[2][4] = black();
    let game = game_on(board, StoneType::Black);
    assert_eq!(game.get_reversible(at(0, 2), Direction { x: 1, y: 0 }), vec![]);
    assert_eq!(game.get_reversible_at(at(0, 2)), vec![]);
}

#[test]
fn walk_that_meets_an_own_stone_first_captures_nothing() {
    let mut board = Board::empty();
    board.cells[2][1] = black();
    board.cells[2][2] = white();
    board.cells[2][3] = black();
    let game = game_on(board, StoneType::Black);
    assert_eq!(game.get_reversible(at(0, 2), Direction { x: 1, y: 0 }), vec![]);
}

#[test]
fn walk_works_in_each_direction() {
    for k in 0..8usize {
        let dir = Direction::nth(k);
        let mut board = Board::empty();
        let near = at((3 + dir.x) as u32, (3 + dir.y) as u32);
        let next = at((3 + 2 * dir.x) as u32, (3 + 2 * dir.y) as u32);
        let far = at((3 + 3 * dir.x) as u32, (3 + 3 * dir.y) as u32);
        board.cells[near.y as usize][near.x as usize] = black();
        board.cells[next.y as usize][next.x as usize] = black();
        board.cells[far.y as usize][far.x as usize] = white();
        let game = game_on(board, StoneType::White);
        assert_eq!(game.get_reversible(at(3, 3), dir), vec![near, next]);
        assert_eq!(game.get_reversible_at(at(3, 3)), vec![near, next]);
        assert!(game.is_placable_at(at(3, 3)));
        for other in 0..8usize {
            if other != k {
                assert_eq!(game.get_reversible(at(3, 3), Direction::nth(other)), vec![]);
            }
        }
    }
}

#[test]
fn captures_follow_the_order_of_the_directions() {
    let mut board = Board::empty();
    for k in 0..8usize {
        let dir = Direction::nth(k);
        board.cells[(3 + dir.y) as usize][(3 + dir.x) as usize] = white();
        board.cells[(3 + 2 * dir.y) as usize][(3 + 2 * dir.x) as usize] = black();
    }
    let game = game_on(board, StoneType::Black);
    assert_eq!(
        game.get_reversible_at(at(3, 3)),
        vec![at(2, 2), at(2, 3), at(2, 4), at(3, 2), at(3, 4), at(4, 2), at(4, 3), at(4, 4)]
    );
}

#[test]
fn captures_join_runs_of_several_directions() {
    let mut board = Board::empty();
    board.cells[0][1] = white();
    board.cells[0][2] = white();
    board.cells[0][3] = black();
    board.cells[1][0] = white();
    board.cells[2][0] = black();
    board.cells[1][1] = white();
    board.cells[2][2] = white();
    board.cells[3][3] = white();
    board.cells[4][4] = black();
    let game = game_on(board, StoneType::Black);
    assert_eq!(
        game.get_reversible_at(at(0, 0)),
        vec![at(0, 1), at(1, 0), at(2, 0), at(1, 1), at(2, 2), at(3, 3)]
    );
}

#[test]
fn captures_depend_on_the_player_to_move() {
    let mut board = Board::empty();
    board.cells[0][1] = white();
    board.cells[0][2] = black();
    let black_to_move = game_on(board, StoneType::Black);
    let white_to_move = game_on(board, StoneType::White);
    assert_eq!(black_to_move.get_reversible_at(at(0, 0)), vec![at(1, 0)]);
    assert_eq!(white_to_move.get_reversible_at(at(0, 0)), vec![]);
    assert_eq!(white_to_move.get_reversible_at(at(3, 0)), vec![at(2, 0)]);
}

#[test]
fn asking_twice_gives_the_same_captures() {
    let game = GameMaster::default();
    for x in 0..9u32 {
        for y in 0..9u32 {
            let first = game.get_reversible_at(at(x, y));
            let second = game.get_reversible_at(at(x, y));
            assert_eq!(first, second);
            assert_eq!(game.is_placable_at(at(x, y)), !first.is_empty());
        }
    }
}

#[test]
fn queries_leave_the_engine_as_it_was() {
    let game = GameMaster::default();
    let before = game;
    let _ = game.get_reversible_at(at(2, 4));
    let _ = game.is_placable_at(at(2, 4));
    let _ = game.does_exist_placable_pos();
    assert_eq!(game.board, before.board);
    assert_eq!(game.turn, before.turn);
    assert_eq!(game.skipped_count, before.skipped_count);
}

#[test]
fn a_legal_placement_exists_on_the_opening_board() {
    assert!(GameMaster::default().does_exist_placable_pos());
    assert!(game_on(Board::opening(), StoneType::White).does_exist_placable_pos());
}

#[test]
fn no_legal_placement_exists_on_an_empty_or_one_coloured_board() {
    assert!(!game_on(Board::empty(), StoneType::Black).does_exist_placable_pos());
    let mut board = Board::empty();
    board.cells[3][3] = black();
    board.cells[3][4] = black();
    assert!(!game_on(board, StoneType::Black).does_exist_placable_pos());
    assert!(!game_on(board, StoneType::White).does_exist_placable_pos());
}

#[test]
fn a_legal_placement_in_the_last_cell_is_found() {
    let mut board = Board::empty();
    board.cells[7][6] = white();
    board.cells[7][5] = black();
    let game = game_on(board, StoneType::Black);
    assert!(game.does_exist_placable_pos());
    assert_eq!(legal_cells(&game), vec![at(7, 7)]);
}
