use vstd::prelude::*;
use crate::board::{opening_cell, Board, Cell};
use crate::rules::{
    brackets, captures, captures_along, captures_upto, has_move, in_grid, lemma_unit_scale,
    lemma_captured_cells, lemma_walk_decides, lemma_placable_iff_captures, lemma_unavailable_cell,
    placable, placed, repainted, ray_holds, ray_position, run_length, Direction,
};
use crate::stone::{Position, StoneType};

verus! {

/// The rule engine: the board, whose turn it is, whether this turn's
/// placement has been resolved, and how many turns in a row found the player
/// to move without a legal placement.
#[derive(Clone, Copy, Debug)]
pub struct GameMaster {
    pub turn: StoneType,
    pub stone_placed: bool,
    pub board: Board,
    pub skipped_count: u32,
}

/// The number of turns in a row without a legal placement at which the game
/// ends. With 1 the game ends as soon as one player cannot move, whatever the
/// other could do; the usual rule of the game asks for both players to pass
/// in a row, which is 2.
pub const SKIPS_TO_END: u32 = 1;

impl Default for GameMaster {
    /// The engine at the start of a game: the opening board, Black to move,
    /// no placement resolved and no turn skipped.
    fn default() -> (game: GameMaster)
        ensures
            game.turn == StoneType::Black,
            !game.stone_placed,
            game.skipped_count == 0,
            forall|x: int, y: int| in_grid(x, y) ==> #[trigger] game.board.at(x, y) == opening_cell(x, y),
    {
        GameMaster { turn: StoneType::Black, stone_placed: false, board: Board::opening(), skipped_count: 0 }
    }
}

impl GameMaster {
    /// Whether the game has ended: whether the last turns found the players
    /// to move without a legal placement `SKIPS_TO_END` times in a row.
    pub open spec fn spec_is_game_over(&self) -> bool {
        self.skipped_count >= SKIPS_TO_END
    }

    /// Whether the engine applies a placement of `color` on `pos`: no
    /// placement has been resolved in this turn, the game has not ended, it
    /// is the turn of `color`, and the placement captures something.
    pub open spec fn accepts(&self, pos: Position, color: StoneType) -> bool {
        &&& !self.stone_placed
        &&& !self.spec_is_game_over()
        &&& color == self.turn
        &&& placable(self.board, self.turn, pos.x as int, pos.y as int)
    }

    /// Whether the game has ended.
    #[verifier::when_used_as_spec(spec_is_game_over)]
    pub fn is_game_over(&self) -> (over: bool)
        ensures
            over == self.spec_is_game_over(),
    {
        self.skipped_count >= SKIPS_TO_END
    }

    /// The stones that the player to move captures along `dir` by placing a
    /// stone on `pos`, nearest first. Empty where `pos` is off the board or
    /// taken, and where the walk along `dir` leaves the board or meets a free
    /// cell before it meets a stone of the player to move.
    pub fn get_reversible(&self, pos: Position, dir: Direction) -> (stones: Vec<Position>)
        requires
            dir.is_unit(),
        ensures
            stones@ == captures_along(
                self.board,
                self.turn,
                pos.x as int,
                pos.y as int,
                dir.x as int,
                dir.y as int,
            ),
    {
        let ghost px = pos.x as int;
        let ghost py = pos.y as int;
        let ghost dx = dir.x as int;
        let ghost dy = dir.y as int;
        if pos.x >= 8 || pos.y >= 8 {
            return Vec::new();
        }
        match self.board.cells[pos.y as usize][pos.x as usize] {
            Cell::Occupied(_) => {
                return Vec::new();
            },
            Cell::Empty => {},
        }
        let mut stones: Vec<Position> = Vec::with_capacity(8);
        let mut x: i32 = pos.x as i32;
        let mut y: i32 = pos.y as i32;
        proof {
            lemma_unit_scale(dx, 0);
            lemma_unit_scale(dy, 0);
        }
        loop
            invariant_except_break
                dir.is_unit(),
                px == pos.x && py == pos.y && dx == dir.x && dy == dir.y,
                in_grid(px, py),
                self.board.at(px, py) == Cell::Empty,
                in_grid(x as int, y as int),
                x == px + stones.len() * dx,
                y == py + stones.len() * dy,
                stones.len() <= 7,
                forall|i: int|
                    1 <= i <= stones.len() ==> #[trigger] ray_holds(
                        self.board,
                        px,
                        py,
                        dx,
                        dy,
                        i,
                        self.turn.opponent(),
                    ),
                forall|i: int| 0 <= i < stones.len() ==> stones[i] == ray_position(px, py, dx, dy, i),
            ensures
                stones@ == captures_along(self.board, self.turn, px, py, dx, dy),
            decreases 8 - stones.len(),
        {
            let ghost n = stones.len() as int;
            proof {
                lemma_unit_scale(dx, n);
                lemma_unit_scale(dy, n);
                lemma_unit_scale(dx, n + 1);
                lemma_unit_scale(dy, n + 1);
            }
            x = x + dir.x;
            y = y + dir.y;
            if x >= 8 || y >= 8 || x < 0 || y < 0 {
                proof {
                    lemma_walk_decides(self.board, self.turn, px, py, dx, dy, n);
                }
                stones.clear();
                break ;
            }
            match self.board.cells[y as usize][x as usize] {
                Cell::Occupied(stone) => {
                    if stone == self.turn {
                        proof {
                            lemma_walk_decides(self.board, self.turn, px, py, dx, dy, n);
                            if n >= 1 {
                                assert(brackets(self.board, self.turn, px, py, dx, dy, n));
                            }
                        }
                        break ;
                    }
                    stones.push(Position { x: x as u32, y: y as u32 });
                },
                Cell::Empty => {
                    proof {
                        lemma_walk_decides(self.board, self.turn, px, py, dx, dy, n);
                    }
                    stones.clear();
                    break ;
                },
            }
        }
        stones
    }

    /// All the stones that the player to move captures by placing a stone on
    /// `pos`: the captures of the eight directions, one direction after the
    /// other. An empty list says that the placement is not legal; that is so
    /// in particular where `pos` is off the board or taken.
    pub fn get_reversible_at(&self, pos: Position) -> (stones: Vec<Position>)
        ensures
            stones@ == captures(self.board, self.turn, pos.x as int, pos.y as int),
            stones@.len() > 0 <==> placable(self.board, self.turn, pos.x as int, pos.y as int),
            !pos.on_board() ==> stones@.len() == 0,
            pos.on_board() && self.board.at(pos.x as int, pos.y as int) != Cell::Empty ==> stones@.len() == 0,
    {
        let mut stones: Vec<Position> = Vec::with_capacity(8);
        let mut k: usize = 0;
        while k < 8
            invariant
                k <= 8,
                stones@ == captures_upto(self.board, self.turn, pos.x as int, pos.y as int, k as nat),
            decreases 8 - k,
        {
            let mut line = self.get_reversible(pos, Direction::nth(k));
            stones.append(&mut line);
            k = k + 1;
        }
        proof {
            lemma_placable_iff_captures(self.board, self.turn, pos.x as int, pos.y as int);
            if !pos.on_board() || self.board.at(pos.x as int, pos.y as int) != Cell::Empty {
                lemma_unavailable_cell(self.board, self.turn, pos.x as int, pos.y as int);
            }
        }
        stones
    }

    /// Whether the player to move may place a stone on `pos`: whether the
    /// placement captures along at least one of the eight directions. False
    /// where `pos` is off the board or taken.
    pub fn is_placable_at(&self, pos: Position) -> (legal: bool)
        ensures
            legal == placable(self.board, self.turn, pos.x as int, pos.y as int),
            !pos.on_board() ==> !legal,
            pos.on_board() && self.board.at(pos.x as int, pos.y as int) != Cell::Empty ==> !legal,
    {
        let mut k: usize = 0;
        while k < 8
            invariant
                k <= 8,
                forall|j: int|
                    0 <= j < k ==> (#[trigger] captures_along(
                        self.board,
                        self.turn,
                        pos.x as int,
                        pos.y as int,
                        Direction::spec_nth(j).x as int,
                        Direction::spec_nth(j).y as int,
                    )).len() == 0,
            decreases 8 - k,
        {
            let line = self.get_reversible(pos, Direction::nth(k));
            if line.len() > 0 {
                proof {
                    if !pos.on_board() || self.board.at(pos.x as int, pos.y as int) != Cell::Empty {
                        lemma_unavailable_cell(self.board, self.turn, pos.x as int, pos.y as int);
                    }
                }
                return true;
            }
            k = k + 1;
        }
        false
    }

    /// Whether the player to move has a legal placement anywhere on the
    /// board.
    pub fn does_exist_placable_pos(&self) -> (found: bool)
        ensures
            found == has_move(self.board, self.turn),
    {
        let mut x: u32 = 0;
        while x < 8
            invariant
                x <= 8,
                forall|i: int, j: int|
                    0 <= i < x && 0 <= j < 8 ==> !#[trigger] placable(self.board, self.turn, i, j),
            decreases 8 - x,
        {
            let mut y: u32 = 0;
            while y < 8
                invariant
                    x < 8,
                    y <= 8,
                    forall|i: int, j: int|
                        0 <= i < x && 0 <= j < 8 ==> !#[trigger] placable(self.board, self.turn, i, j),
                    forall|j: int| 0 <= j < y ==> !#[trigger] placable(self.board, self.turn, x as int, j),
                decreases 8 - y,
            {
                if self.is_placable_at(Position { x, y }) {
                    return true;
                }
                y = y + 1;
            }
            x = x + 1;
        }
        false
    }

    /// Hands the turn to the opponent and clears the mark of a resolved
    /// placement. The count of skipped turns goes back to 0 if the player
    /// now to move has a legal placement, and up by one if not.
    pub fn next_turn(&mut self)
        requires
            old(self).skipped_count < u32::MAX,
        ensures
            final(self).turn == old(self).turn.opponent(),
            !final(self).stone_placed,
            final(self).board == old(self).board,
            final(self).skipped_count == (if has_move(old(self).board, old(self).turn.opponent()) {
                0
            } else {
                old(self).skipped_count + 1
            }),
            final(self).is_game_over() <==> !has_move(old(self).board, old(self).turn.opponent()),
    {
        self.turn = self.turn.opponent();
        self.stone_placed = false;
        if self.does_exist_placable_pos() {
            self.skipped_count = 0;
        } else {
            self.skipped_count = self.skipped_count + 1;
        }
    }

    /// Places a stone of `color` on `pos` and turns the captured stones over,
    /// if the engine accepts the placement; the turn stays with `color` until
    /// `next_turn`. Returns the captured positions, in the order of
    /// `get_reversible_at`, or `None` if nothing was applied.
    ///
    /// A placement that arrives while another is marked as resolved is not
    /// applied and takes the mark away. Any other placement that is not
    /// applied (the game has ended, it is not the turn of `color`, `pos` is
    /// off the board or taken, nothing would be captured) changes nothing.
    pub fn apply_placement(&mut self, pos: Position, color: StoneType) -> (applied: Option<Vec<Position>>)
        ensures
            final(self).turn == old(self).turn,
            final(self).skipped_count == old(self).skipped_count,
            old(self).accepts(pos, color) ==> {
                &&& applied matches Some(stones)
                &&& stones@ == captures(old(self).board, color, pos.x as int, pos.y as int)
                &&& final(self).stone_placed
                &&& placed(old(self).board, final(self).board, color, pos.x as int, pos.y as int)
            },
            !old(self).accepts(pos, color) ==> {
                &&& applied is None
                &&& !final(self).stone_placed
                &&& final(self).board == old(self).board
            },
    {
        if self.stone_placed {
            self.stone_placed = false;
            return None;
        }
        if self.is_game_over() || color != self.turn {
            return None;
        }
        let stones = self.get_reversible_at(pos);
        if stones.len() == 0 {
            return None;
        }
        let ghost before = self.board;
        let ghost px = pos.x as int;
        let ghost py = pos.y as int;
        proof {
            lemma_captured_cells(before, color, px, py);
        }
        self.board.cells[pos.y as usize][pos.x as usize] = Cell::Occupied(color);
        let mut i: usize = 0;
        while i < stones.len()
            invariant
                i <= stones.len(),
                self.turn == old(self).turn,
                self.skipped_count == old(self).skipped_count,
                stones@ == captures(before, color, px, py),
                forall|p: Position| #[trigger] stones@.contains(p) ==> p.on_board(),
                repainted(before, self.board, color, px, py, stones@.take(i as int)),
            decreases stones.len() - i,
        {
            let p = stones[i];
            let ghost earlier = self.board;
            assert(stones@.contains(p));
            self.board.cells[p.y as usize][p.x as usize] = Cell::Occupied(color);
            proof {
                let done = stones@.take(i as int);
                let more = stones@.take(i as int + 1);
                assert forall|a: int, b: int| in_grid(a, b) implies #[trigger] self.board.at(a, b) == (if (a == px
                    && b == py) || more.contains(Position { x: a as u32, y: b as u32 }) {
                    Cell::Occupied(color)
                } else {
                    before.at(a, b)
                }) by {
                    let q = Position { x: a as u32, y: b as u32 };
                    assert(self.board.at(a, b) == if a == p.x && b == p.y {
                        Cell::Occupied(color)
                    } else {
                        earlier.at(a, b)
                    });
                    if q == p {
                        assert(more[i as int] == q);
                    }
                }
            }
            i = i + 1;
        }
        assert(stones@.take(i as int) =~= stones@);
        self.stone_placed = true;
        Some(stones)
    }
}

} // verus!
