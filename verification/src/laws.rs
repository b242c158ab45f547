use vstd::prelude::*;
use vstd::seq_lib::{lemma_no_dup_in_concat, seq_to_set_is_finite};
use vstd::set_lib::{lemma_len_subset, lemma_set_difference_len, lemma_set_disjoint_lens};
use crate::board::{opening_cell, Board, Cell};
use crate::game_master::GameMaster;
use crate::rules::{
    captures, captures_along, captures_upto, in_grid, lemma_captured_cells,
    lemma_captures_along_bracketed, lemma_placable_iff_captures, lemma_unit_scale, placable, placed,
    ray_holds, ray_position, run_length, Direction,
};
use crate::stone::{Position, StoneType};

verus! {

/// Two cells that lie on the rays from one cell differ, unless they lie on
/// the same ray at the same distance.
proof fn lemma_ray_cells_differ(x: int, y: int, k1: int, i1: int, k2: int, i2: int)
    requires
        0 <= k1 < 8,
        0 <= k2 < 8,
        0 <= i1,
        0 <= i2,
        k1 != k2 || i1 != i2,
        in_grid(x + (i1 + 1) * Direction::spec_nth(k1).x, y + (i1 + 1) * Direction::spec_nth(k1).y),
        in_grid(x + (i2 + 1) * Direction::spec_nth(k2).x, y + (i2 + 1) * Direction::spec_nth(k2).y),
    ensures
        ray_position(x, y, Direction::spec_nth(k1).x as int, Direction::spec_nth(k1).y as int, i1)
            != ray_position(x, y, Direction::spec_nth(k2).x as int, Direction::spec_nth(k2).y as int, i2),
{
    lemma_unit_scale(Direction::spec_nth(k1).x as int, i1 + 1);
    lemma_unit_scale(Direction::spec_nth(k1).y as int, i1 + 1);
    lemma_unit_scale(Direction::spec_nth(k2).x as int, i2 + 1);
    lemma_unit_scale(Direction::spec_nth(k2).y as int, i2 + 1);
}

/// The captures along the `k`-th direction, for short.
spec fn line(board: Board, mover: StoneType, x: int, y: int, k: int) -> Seq<Position> {
    captures_along(board, mover, x, y, Direction::spec_nth(k).x as int, Direction::spec_nth(k).y as int)
}

/// Each entry of the captures along a direction is a cell of the board on
/// that ray.
proof fn lemma_line_entry(board: Board, mover: StoneType, x: int, y: int, k: int, i: int)
    requires
        0 <= i < line(board, mover, x, y, k).len(),
    ensures
        in_grid(x + (i + 1) * Direction::spec_nth(k).x, y + (i + 1) * Direction::spec_nth(k).y),
{
    let dir = Direction::spec_nth(k);
    lemma_captures_along_bracketed(board, mover, x, y, dir.x as int, dir.y as int);
    assert(ray_holds(board, x, y, dir.x as int, dir.y as int, i + 1, mover.opponent()));
}

/// Each of the captures of the first `k` directions lies on the ray of one
/// of them.
proof fn lemma_upto_entry(board: Board, mover: StoneType, x: int, y: int, k: nat, t: int) -> (at: (int, int))
    requires
        k <= 8,
        0 <= t < captures_upto(board, mover, x, y, k).len(),
    ensures
        0 <= at.0 < k,
        0 <= at.1 < line(board, mover, x, y, at.0).len(),
        captures_upto(board, mover, x, y, k)[t] == line(board, mover, x, y, at.0)[at.1],
    decreases k,
{
    let before = captures_upto(board, mover, x, y, (k - 1) as nat);
    if t < before.len() {
        lemma_upto_entry(board, mover, x, y, (k - 1) as nat, t)
    } else {
        (k - 1, t - before.len())
    }
}

/// No position occurs twice among the captures of the first `k` directions.
proof fn lemma_upto_distinct(board: Board, mover: StoneType, x: int, y: int, k: nat)
    requires
        k <= 8,
    ensures
        captures_upto(board, mover, x, y, k).no_duplicates(),
    decreases k,
{
    if k > 0 {
        let before = captures_upto(board, mover, x, y, (k - 1) as nat);
        let last = line(board, mover, x, y, k - 1);
        lemma_upto_distinct(board, mover, x, y, (k - 1) as nat);
        assert forall|i: int, j: int| 0 <= i < last.len() && 0 <= j < last.len() && i != j implies last[i]
            != last[j] by {
            lemma_line_entry(board, mover, x, y, k - 1, i);
            lemma_line_entry(board, mover, x, y, k - 1, j);
            lemma_ray_cells_differ(x, y, k - 1, i, k - 1, j);
        }
        assert forall|i: int, j: int| 0 <= i < before.len() && 0 <= j < last.len() implies before[i]
            != last[j] by {
            let at = lemma_upto_entry(board, mover, x, y, (k - 1) as nat, i);
            lemma_line_entry(board, mover, x, y, at.0, at.1);
            lemma_line_entry(board, mover, x, y, k - 1, j);
            lemma_ray_cells_differ(x, y, at.0, at.1, k - 1, j);
        }
        lemma_no_dup_in_concat(before, last);
    }
}

/// No position occurs twice among the captures of a placement.
pub proof fn lemma_captures_distinct(board: Board, mover: StoneType, x: int, y: int)
    ensures
        captures(board, mover, x, y).no_duplicates(),
{
    lemma_upto_distinct(board, mover, x, y, 8);
}

/// The cells that hold the same thing are finitely many.
pub proof fn lemma_positions_finite(board: Board, cell: Cell)
    ensures
        board.positions_of(cell).finite(),
        board.positions_of(cell).len() <= 64,
{
    let all = Seq::new(64, |i: int| Position { x: (i % 8) as u32, y: (i / 8) as u32 });
    seq_to_set_is_finite(all);
    assert forall|p: Position| board.positions_of(cell).contains(p) implies all.to_set().contains(p) by {
        assert(all[p.y * 8 + p.x] == p);
    }
    lemma_len_subset(board.positions_of(cell), all.to_set());
    all.lemma_cardinality_of_set();
}

/// On the board on which a game begins each colour has two stones, so four
/// cells are taken.
pub proof fn lemma_opening_counts(board: Board)
    requires
        forall|x: int, y: int| in_grid(x, y) ==> #[trigger] board.at(x, y) == opening_cell(x, y),
    ensures
        board.count(StoneType::Black) == 2,
        board.count(StoneType::White) == 2,
        board.occupied() == 4,
{
    let black = set![Position { x: 3, y: 3 }, Position { x: 4, y: 4 }];
    let white = set![Position { x: 3, y: 4 }, Position { x: 4, y: 3 }];
    assert forall|p: Position| board.positions_of(Cell::Occupied(StoneType::Black)).contains(p)
        == black.contains(p) by {}
    assert forall|p: Position| board.positions_of(Cell::Occupied(StoneType::White)).contains(p)
        == white.contains(p) by {}
    assert(board.positions_of(Cell::Occupied(StoneType::Black)) =~= black);
    assert(board.positions_of(Cell::Occupied(StoneType::White)) =~= white);
}

/// A legal placement changes the placed cell and the captured cells, each
/// of which held a stone of the opponent, and no other cell.
pub proof fn lemma_placement_changes(before: Board, after: Board, mover: StoneType, x: int, y: int)
    requires
        placable(before, mover, x, y),
        placed(before, after, mover, x, y),
    ensures
        in_grid(x, y),
        before.at(x, y) == Cell::Empty,
        after.at(x, y) == Cell::Occupied(mover),
        forall|p: Position| #[trigger]
            captures(before, mover, x, y).contains(p) ==> p.on_board() && before.at(p.x as int, p.y as int)
                == Cell::Occupied(mover.opponent()) && after.at(p.x as int, p.y as int) == Cell::Occupied(
                mover,
            ),
        forall|i: int, j: int|
            in_grid(i, j) ==> (#[trigger] after.at(i, j) != before.at(i, j) <==> (i == x && j == y)
                || captures(before, mover, x, y).contains(Position { x: i as u32, y: j as u32 })),
{
    lemma_placable_iff_captures(before, mover, x, y);
    lemma_captured_cells(before, mover, x, y);
    assert forall|p: Position| #[trigger] captures(before, mover, x, y).contains(p) implies after.at(
        p.x as int,
        p.y as int,
    ) == Cell::Occupied(mover) by {}
}

/// A legal placement gives the mover the placed stone and every captured
/// stone, takes the captured stones from the opponent, and so adds one to
/// the cells that are taken.
pub proof fn lemma_placement_counts(before: Board, after: Board, mover: StoneType, x: int, y: int)
    requires
        placable(before, mover, x, y),
        placed(before, after, mover, x, y),
    ensures
        after.count(mover) == before.count(mover) + 1 + captures(before, mover, x, y).len(),
        after.count(mover.opponent()) + captures(before, mover, x, y).len() == before.count(
            mover.opponent(),
        ),
        after.occupied() == before.occupied() + 1,
{
    let taken = captures(before, mover, x, y);
    let spot = Position { x: x as u32, y: y as u32 };
    let own = Cell::Occupied(mover);
    let other = Cell::Occupied(mover.opponent());
    lemma_placement_changes(before, after, mover, x, y);
    lemma_captures_distinct(before, mover, x, y);
    taken.unique_seq_to_set();
    seq_to_set_is_finite(taken);
    lemma_positions_finite(before, own);
    lemma_positions_finite(before, other);
    assert forall|p: Position| taken.to_set().contains(p) <==> taken.contains(p) by {}
    assert forall|p: Position| p.on_board() implies (after.at(p.x as int, p.y as int) == if p == spot
        || taken.contains(p) {
        own
    } else {
        before.at(p.x as int, p.y as int)
    }) by {}
    assert(after.positions_of(own) =~= (before.positions_of(own) + taken.to_set()).insert(spot));
    lemma_set_disjoint_lens(before.positions_of(own), taken.to_set());
    assert(after.positions_of(other) =~= before.positions_of(other).difference(taken.to_set()));
    lemma_set_difference_len(before.positions_of(other), taken.to_set());
    assert(before.positions_of(other).intersect(taken.to_set()) =~= taken.to_set());
}

/// Whether the neighbour of `(x, y)` in direction `(dx, dy)` lies on the
/// board and holds a stone of the opponent of `mover`.
pub open spec fn opponent_next_to(board: Board, mover: StoneType, x: int, y: int, dx: int, dy: int) -> bool {
    in_grid(x + dx, y + dy) && board.at(x + dx, y + dy) == Cell::Occupied(mover.opponent())
}

/// A cell that has no stone of the opponent on any of the eight cells
/// around it is no legal placement, and a placement there captures nothing.
pub proof fn lemma_needs_opponent_neighbour(board: Board, mover: StoneType, x: int, y: int)
    requires
        forall|dx: int, dy: int|
            -1 <= dx <= 1 && -1 <= dy <= 1 ==> !#[trigger] opponent_next_to(board, mover, x, y, dx, dy),
    ensures
        !placable(board, mover, x, y),
        captures(board, mover, x, y).len() == 0,
{
    assert forall|k: int| 0 <= k < 8 implies (#[trigger] captures_along(
        board,
        mover,
        x,
        y,
        Direction::spec_nth(k).x as int,
        Direction::spec_nth(k).y as int,
    )).len() == 0 by {
        let dir = Direction::spec_nth(k);
        let dx = dir.x as int;
        let dy = dir.y as int;
        lemma_captures_along_bracketed(board, mover, x, y, dx, dy);
        if run_length(board, mover, x, y, dx, dy) > 0 {
            assert(ray_holds(board, x, y, dx, dy, 1, mover.opponent()));
            assert(opponent_next_to(board, mover, x, y, dx, dy));
        }
    }
    lemma_placable_iff_captures(board, mover, x, y);
}

/// What a placement captures depends on the board, the player to move and
/// the cell alone: two engines that agree on the first two give the same
/// captures, in the same order, and agree on whether the placement is legal.
pub proof fn lemma_captures_repeatable(first: GameMaster, second: GameMaster, pos: Position)
    requires
        first.board == second.board,
        first.turn == second.turn,
    ensures
        captures(first.board, first.turn, pos.x as int, pos.y as int) == captures(
            second.board,
            second.turn,
            pos.x as int,
            pos.y as int,
        ),
        placable(first.board, first.turn, pos.x as int, pos.y as int) == placable(
            second.board,
            second.turn,
            pos.x as int,
            pos.y as int,
        ),
{
}

} // verus!
