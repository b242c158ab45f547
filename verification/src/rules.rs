use vstd::prelude::*;
use crate::board::{Board, Cell};
use crate::stone::{Position, StoneType};

verus! {

/// A step from a cell to one of its neighbours.
#[derive(Clone, Copy, Debug, PartialEq, Eq, Structural)]
pub struct Direction {
    pub x: i32,
    pub y: i32,
}

impl Direction {
    /// Whether this is one of the eight steps to a neighbouring cell.
    pub open spec fn is_unit(self) -> bool {
        unit_step(self.x as int, self.y as int)
    }

    /// The eight steps in the order in which a placement is examined:
    /// `x` from -1 to 1, and for each `x`, `y` from -1 to 1.
    pub open spec fn spec_nth(k: int) -> Direction {
        if k == 0 {
            Direction { x: -1i32, y: -1i32 }
        } else if k == 1 {
            Direction { x: -1i32, y: 0 }
        } else if k == 2 {
            Direction { x: -1i32, y: 1 }
        } else if k == 3 {
            Direction { x: 0, y: -1i32 }
        } else if k == 4 {
            Direction { x: 0, y: 1 }
        } else if k == 5 {
            Direction { x: 1, y: -1i32 }
        } else if k == 6 {
            Direction { x: 1, y: 0 }
        } else {
            Direction { x: 1, y: 1 }
        }
    }

    /// The `k`-th of the eight steps, in the order of examination.
    pub fn nth(k: usize) -> (dir: Direction)
        requires
            k < 8,
        ensures
            dir == Direction::spec_nth(k as int),
            dir.is_unit(),
    {
        if k == 0 {
            Direction { x: -1, y: -1 }
        } else if k == 1 {
            Direction { x: -1, y: 0 }
        } else if k == 2 {
            Direction { x: -1, y: 1 }
        } else if k == 3 {
            Direction { x: 0, y: -1 }
        } else if k == 4 {
            Direction { x: 0, y: 1 }
        } else if k == 5 {
            Direction { x: 1, y: -1 }
        } else if k == 6 {
            Direction { x: 1, y: 0 }
        } else {
            Direction { x: 1, y: 1 }
        }
    }
}

/// Whether `(x, y)` names one of the 64 cells.
pub open spec fn in_grid(x: int, y: int) -> bool {
    0 <= x < 8 && 0 <= y < 8
}

/// Whether `(dx, dy)` leads from a cell to one of its eight neighbours.
pub open spec fn unit_step(dx: int, dy: int) -> bool {
    -1 <= dx <= 1 && -1 <= dy <= 1 && !(dx == 0 && dy == 0)
}

/// Whether the cell `i` steps of `(dx, dy)` away from `(x, y)` lies on the
/// board and holds a stone of colour `c`.
pub open spec fn ray_holds(board: Board, x: int, y: int, dx: int, dy: int, i: int, c: StoneType) -> bool {
    in_grid(x + i * dx, y + i * dy) && board.at(x + i * dx, y + i * dy) == Cell::Occupied(c)
}

/// Whether a stone of `mover` placed on `(x, y)` closes in exactly `k` stones
/// along `(dx, dy)`: the cell is free, the next `k >= 1` cells hold the
/// opponent's stones, and the cell after them holds a stone of `mover`.
pub open spec fn brackets(board: Board, mover: StoneType, x: int, y: int, dx: int, dy: int, k: int) -> bool {
    &&& k >= 1
    &&& in_grid(x, y)
    &&& board.at(x, y) == Cell::Empty
    &&& forall|i: int| 1 <= i <= k ==> #[trigger] ray_holds(board, x, y, dx, dy, i, mover.opponent())
    &&& ray_holds(board, x, y, dx, dy, k + 1, mover)
}

/// The number of stones that a placement on `(x, y)` closes in along
/// `(dx, dy)`; 0 where it closes in none.
pub open spec fn run_length(board: Board, mover: StoneType, x: int, y: int, dx: int, dy: int) -> nat {
    if exists|k: int| brackets(board, mover, x, y, dx, dy, k) {
        (choose|k: int| brackets(board, mover, x, y, dx, dy, k)) as nat
    } else {
        0
    }
}

/// The `i`-th cell after `(x, y)` along `(dx, dy)`, counted from 0.
pub open spec fn ray_position(x: int, y: int, dx: int, dy: int, i: int) -> Position {
    Position { x: (x + (i + 1) * dx) as u32, y: (y + (i + 1) * dy) as u32 }
}

/// The stones that a placement of `mover` on `(x, y)` captures along
/// `(dx, dy)`, nearest first.
pub open spec fn captures_along(board: Board, mover: StoneType, x: int, y: int, dx: int, dy: int) -> Seq<Position> {
    Seq::new(run_length(board, mover, x, y, dx, dy), |i: int| ray_position(x, y, dx, dy, i))
}

/// The captures along the first `k` directions, in the order of examination.
pub open spec fn captures_upto(board: Board, mover: StoneType, x: int, y: int, k: nat) -> Seq<Position>
    decreases k,
{
    if k == 0 {
        Seq::empty()
    } else {
        let dir = Direction::spec_nth(k - 1);
        captures_upto(board, mover, x, y, (k - 1) as nat) + captures_along(
            board,
            mover,
            x,
            y,
            dir.x as int,
            dir.y as int,
        )
    }
}

/// All the stones that a placement of `mover` on `(x, y)` captures: those of
/// the eight directions, one direction after the other.
pub open spec fn captures(board: Board, mover: StoneType, x: int, y: int) -> Seq<Position> {
    captures_upto(board, mover, x, y, 8)
}

/// Whether `mover` may place a stone on `(x, y)`: the placement captures
/// along at least one direction.
pub open spec fn placable(board: Board, mover: StoneType, x: int, y: int) -> bool {
    exists|k: int| 0 <= k < 8 && #[trigger] captures_along(
        board,
        mover,
        x,
        y,
        Direction::spec_nth(k).x as int,
        Direction::spec_nth(k).y as int,
    ).len() > 0
}

/// Whether `mover` has a legal placement anywhere on the board.
pub open spec fn has_move(board: Board, mover: StoneType) -> bool {
    exists|x: int, y: int| in_grid(x, y) && #[trigger] placable(board, mover, x, y)
}

/// Whether `after` is `before` with a stone of `mover` on `(x, y)` and on
/// each cell of `turned`, and every other cell as it was.
pub open spec fn repainted(before: Board, after: Board, mover: StoneType, x: int, y: int, turned: Seq<Position>) -> bool {
    forall|i: int, j: int|
        in_grid(i, j) ==> #[trigger] after.at(i, j) == if (i == x && j == y) || turned.contains(
            Position { x: i as u32, y: j as u32 },
        ) {
            Cell::Occupied(mover)
        } else {
            before.at(i, j)
        }
}

/// Whether `after` is the board that a placement of `mover` on `(x, y)`
/// makes of `before`: the placed stone and every captured stone show the
/// colour of `mover`, and no other cell has changed.
pub open spec fn placed(before: Board, after: Board, mover: StoneType, x: int, y: int) -> bool {
    repainted(before, after, mover, x, y, captures(before, mover, x, y))
}

/// A product with a factor of -1, 0 or 1, without the product.
pub proof fn lemma_unit_scale(d: int, i: int)
    requires
        -1 <= d <= 1,
    ensures
        i * d == (if d == 1 {
            i
        } else if d == 0 {
            0
        } else {
            -i
        }),
{
    assert(i * d == (if d == 1 {
        i
    } else if d == 0 {
        0
    } else {
        -i
    })) by (nonlinear_arith)
        requires
            -1 <= d <= 1,
    ;
}

/// A walk that passed `n` stones of the opponent and then met anything else
/// decides the direction: only `n` stones can be closed in, and only if the
/// walk met a stone of `mover`.
pub proof fn lemma_walk_decides(board: Board, mover: StoneType, x: int, y: int, dx: int, dy: int, n: int)
    requires
        n >= 0,
        forall|i: int| 1 <= i <= n ==> #[trigger] ray_holds(board, x, y, dx, dy, i, mover.opponent()),
        !ray_holds(board, x, y, dx, dy, n + 1, mover.opponent()),
    ensures
        forall|k: int| #[trigger]
            brackets(board, mover, x, y, dx, dy, k) ==> k == n && ray_holds(board, x, y, dx, dy, n + 1, mover),
{
    assert forall|k: int| #[trigger] brackets(board, mover, x, y, dx, dy, k) implies k == n && ray_holds(
        board,
        x,
        y,
        dx,
        dy,
        n + 1,
        mover,
    ) by {
        if k < n {
            assert(ray_holds(board, x, y, dx, dy, k + 1, mover.opponent()));
        }
    }
}

/// Along one direction a placement closes in one number of stones at most.
pub proof fn lemma_brackets_unique(board: Board, mover: StoneType, x: int, y: int, dx: int, dy: int, k1: int, k2: int)
    requires
        brackets(board, mover, x, y, dx, dy, k1),
        brackets(board, mover, x, y, dx, dy, k2),
    ensures
        k1 == k2,
{
    if k1 < k2 {
        assert(ray_holds(board, x, y, dx, dy, k1 + 1, mover.opponent()));
    } else if k2 < k1 {
        assert(ray_holds(board, x, y, dx, dy, k2 + 1, mover.opponent()));
    }
}

/// The captures along `(dx, dy)` are the cells that the placement closes in.
pub proof fn lemma_captures_along_bracketed(board: Board, mover: StoneType, x: int, y: int, dx: int, dy: int)
    ensures
        run_length(board, mover, x, y, dx, dy) > 0 ==> brackets(
            board,
            mover,
            x,
            y,
            dx,
            dy,
            run_length(board, mover, x, y, dx, dy) as int,
        ),
        forall|k: int| #[trigger]
            brackets(board, mover, x, y, dx, dy, k) ==> run_length(board, mover, x, y, dx, dy) == k,
{
    assert forall|k: int| #[trigger] brackets(board, mover, x, y, dx, dy, k) implies run_length(
        board,
        mover,
        x,
        y,
        dx,
        dy,
    ) == k by {
        let chosen = choose|k: int| brackets(board, mover, x, y, dx, dy, k);
        lemma_brackets_unique(board, mover, x, y, dx, dy, chosen, k);
    }
}

/// The captures of the first `k` directions are empty exactly when those of
/// each of them are.
pub proof fn lemma_captures_upto_empty(board: Board, mover: StoneType, x: int, y: int, k: nat)
    ensures
        captures_upto(board, mover, x, y, k).len() == 0 <==> forall|j: int|
            0 <= j < k ==> (#[trigger] captures_along(
                board,
                mover,
                x,
                y,
                Direction::spec_nth(j).x as int,
                Direction::spec_nth(j).y as int,
            )).len() == 0,
    decreases k,
{
    if k > 0 {
        lemma_captures_upto_empty(board, mover, x, y, (k - 1) as nat);
        let last = captures_along(
            board,
            mover,
            x,
            y,
            Direction::spec_nth(k - 1).x as int,
            Direction::spec_nth(k - 1).y as int,
        );
        assert(captures_upto(board, mover, x, y, k).len() == captures_upto(
            board,
            mover,
            x,
            y,
            (k - 1) as nat,
        ).len() + last.len());
    }
}

/// A placement is legal exactly when it captures something.
pub proof fn lemma_placable_iff_captures(board: Board, mover: StoneType, x: int, y: int)
    ensures
        placable(board, mover, x, y) <==> captures(board, mover, x, y).len() > 0,
{
    lemma_captures_upto_empty(board, mover, x, y, 8);
}

/// A placement off the board, or on a cell that is taken, captures nothing
/// and is not legal.
pub proof fn lemma_unavailable_cell(board: Board, mover: StoneType, x: int, y: int)
    requires
        !in_grid(x, y) || board.at(x, y) != Cell::Empty,
    ensures
        captures(board, mover, x, y) == Seq::<Position>::empty(),
        !placable(board, mover, x, y),
{
    lemma_captures_upto_empty(board, mover, x, y, 8);
}

/// Every stone that a placement captures along one direction lies on the
/// board and belongs to the opponent, and the placement itself is on a free
/// cell of the board.
pub proof fn lemma_captured_along(board: Board, mover: StoneType, x: int, y: int, dx: int, dy: int, p: Position)
    requires
        captures_along(board, mover, x, y, dx, dy).contains(p),
    ensures
        p.on_board(),
        board.at(p.x as int, p.y as int) == Cell::Occupied(mover.opponent()),
        in_grid(x, y),
        board.at(x, y) == Cell::Empty,
{
    let line = captures_along(board, mover, x, y, dx, dy);
    let i = choose|i: int| 0 <= i < line.len() && line[i] == p;
    lemma_captures_along_bracketed(board, mover, x, y, dx, dy);
    assert(ray_holds(board, x, y, dx, dy, i + 1, mover.opponent()));
}

/// Every stone among the captures of the first `k` directions lies on the
/// board and belongs to the opponent, and the placement itself is on a free
/// cell of the board.
pub proof fn lemma_captured_upto(board: Board, mover: StoneType, x: int, y: int, k: nat, p: Position)
    requires
        captures_upto(board, mover, x, y, k).contains(p),
    ensures
        p.on_board(),
        board.at(p.x as int, p.y as int) == Cell::Occupied(mover.opponent()),
        in_grid(x, y),
        board.at(x, y) == Cell::Empty,
    decreases k,
{
    if k > 0 {
        let dir = Direction::spec_nth(k - 1);
        let before = captures_upto(board, mover, x, y, (k - 1) as nat);
        let line = captures_along(board, mover, x, y, dir.x as int, dir.y as int);
        let i = choose|i: int| 0 <= i < (before + line).len() && (before + line)[i] == p;
        if i < before.len() {
            lemma_captured_upto(board, mover, x, y, (k - 1) as nat, p);
        } else {
            lemma_captured_along(board, mover, x, y, dir.x as int, dir.y as int, p);
        }
    }
}

/// Every captured stone lies on the board and belongs to the opponent, and
/// a placement that captures is on a free cell of the board.
pub proof fn lemma_captured_cells(board: Board, mover: StoneType, x: int, y: int)
    ensures
        forall|p: Position| #[trigger]
            captures(board, mover, x, y).contains(p) ==> p.on_board() && board.at(p.x as int, p.y as int)
                == Cell::Occupied(mover.opponent()),
        captures(board, mover, x, y).len() > 0 ==> in_grid(x, y) && board.at(x, y) == Cell::Empty,
{
    assert forall|p: Position| #[trigger] captures(board, mover, x, y).contains(p) implies p.on_board()
        && board.at(p.x as int, p.y as int) == Cell::Occupied(mover.opponent()) by {
        lemma_captured_upto(board, mover, x, y, 8, p);
    }
    if captures(board, mover, x, y).len() > 0 {
        let p = captures(board, mover, x, y)[0];
        lemma_captured_upto(board, mover, x, y, 8, p);
    }
}

} // verus!
