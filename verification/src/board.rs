use vstd::prelude::*;
use crate::stone::{Position, StoneType};

verus! {

/// What one cell of the board holds.
#[derive(Clone, Copy, Debug, PartialEq, Eq, Structural)]
pub enum Cell {
    Empty,
    Occupied(StoneType),
}

/// The only way in which a board access fails.
#[derive(Clone, Copy, Debug, PartialEq, Eq, Structural)]
pub enum BoardError {
    /// A coordinate was 8 or more.
    OutOfRange,
}

/// The 8 by 8 grid. `cells[y][x]` is the cell in column `x` of row `y`.
#[derive(Clone, Copy, Debug, PartialEq, Eq)]
pub struct Board {
    pub cells: [[Cell; 8]; 8],
}

/// What the cell in column `x` of row `y` holds when a game begins: Black on
/// (3, 3) and (4, 4), White on (3, 4) and (4, 3), nothing elsewhere.
pub open spec fn opening_cell(x: int, y: int) -> Cell {
    if (x == 3 && y == 3) || (x == 4 && y == 4) {
        Cell::Occupied(StoneType::Black)
    } else if (x == 3 && y == 4) || (x == 4 && y == 3) {
        Cell::Occupied(StoneType::White)
    } else {
        Cell::Empty
    }
}

impl Board {
    /// The cell in column `x` of row `y`.
    pub open spec fn at(self, x: int, y: int) -> Cell {
        self.cells[y][x]
    }

    /// The positions on the board whose cell holds `cell`.
    pub open spec fn positions_of(self, cell: Cell) -> Set<Position> {
        Set::new(|p: Position| p.on_board() && self.at(p.x as int, p.y as int) == cell)
    }

    /// The number of cells that hold a stone of colour `c`.
    pub open spec fn count(self, c: StoneType) -> nat {
        self.positions_of(Cell::Occupied(c)).len()
    }

    /// The number of cells that hold a stone.
    pub open spec fn occupied(self) -> nat {
        self.count(StoneType::Black) + self.count(StoneType::White)
    }

    /// The board without a stone.
    pub fn empty() -> (board: Board)
        ensures
            forall|x: int, y: int| 0 <= x < 8 && 0 <= y < 8 ==> #[trigger] board.at(x, y) == Cell::Empty,
    {
        Board { cells: [[Cell::Empty;8];8] }
    }

    /// The board on which a game begins.
    pub fn opening() -> (board: Board)
        ensures
            forall|x: int, y: int| 0 <= x < 8 && 0 <= y < 8 ==> #[trigger] board.at(x, y) == opening_cell(x, y),
    {
        let mut board = Board::empty();
        let ghost blank = board;
        board.cells[3][3] = Cell::Occupied(StoneType::Black);
        let ghost one = board;
        assert forall|x: int, y: int| 0 <= x < 8 && 0 <= y < 8 implies #[trigger] one.at(x, y) == (if x == 3 && y
            == 3 {
            Cell::Occupied(StoneType::Black)
        } else {
            blank.at(x, y)
        }) by {}
        board.cells[4][4] = Cell::Occupied(StoneType::Black);
        let ghost two = board;
        assert forall|x: int, y: int| 0 <= x < 8 && 0 <= y < 8 implies #[trigger] two.at(x, y) == (if x == 4 && y
            == 4 {
            Cell::Occupied(StoneType::Black)
        } else {
            one.at(x, y)
        }) by {}
        board.cells[4][3] = Cell::Occupied(StoneType::White);
        let ghost three = board;
        assert forall|x: int, y: int| 0 <= x < 8 && 0 <= y < 8 implies #[trigger] three.at(x, y) == (if x == 3
            && y == 4 {
            Cell::Occupied(StoneType::White)
        } else {
            two.at(x, y)
        }) by {}
        board.cells[3][4] = Cell::Occupied(StoneType::White);
        assert forall|x: int, y: int| 0 <= x < 8 && 0 <= y < 8 implies #[trigger] board.at(x, y) == (if x == 4
            && y == 3 {
            Cell::Occupied(StoneType::White)
        } else {
            three.at(x, y)
        }) by {}
        board
    }

    pub fn get(&self, x: u32, y: u32) -> (found: Result<Cell, BoardError>)
        ensures
            x < 8 && y < 8 ==> found == Ok::<Cell, BoardError>(self.at(x as int, y as int)),
            !(x < 8 && y < 8) ==> found == Err::<Cell, BoardError>(BoardError::OutOfRange),
    {
        if x >= 8 || y >= 8 {
            return Err(BoardError::OutOfRange);
        }
        Ok(self.cells[y as usize][x as usize])
    }

    pub fn set(&mut self, x: u32, y: u32, cell: Cell) -> (done: Result<(), BoardError>)
        ensures
            x < 8 && y < 8 ==> done.is_ok() && forall|i: int, j: int|
                0 <= i < 8 && 0 <= j < 8 ==> #[trigger] final(self).at(i, j) == if i == x && j == y {
                    cell
                } else {
                    old(self).at(i, j)
                },
            !(x < 8 && y < 8) ==> done == Err::<(), BoardError>(BoardError::OutOfRange) && *final(self) == *old(self),
    {
        if x >= 8 || y >= 8 {
            return Err(BoardError::OutOfRange);
        }
        self.cells[y as usize][x as usize] = cell;
        Ok(())
    }
}

} // verus!
