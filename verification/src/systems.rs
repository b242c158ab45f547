use vstd::prelude::*;
use crate::board::Cell;
use crate::game_master::GameMaster;
use crate::rules::{captures, has_move, in_grid, placed};
use crate::stone::{Position, Stone, StoneType};

verus! {

/// A request to place a stone of colour `stone` on `position`.
#[derive(Clone, Copy, Debug, PartialEq, Eq, Structural)]
pub struct StonePlaced {
    pub stone: StoneType,
    pub position: Position,
}

/// The colour of the last of `stones` that lies on `(x, y)`, if there is one.
pub open spec fn last_stone_on(stones: Seq<(Stone, Position)>, x: int, y: int) -> Option<StoneType>
    decreases stones.len(),
{
    if stones.len() == 0 {
        None
    } else if stones.last().1.x == x && stones.last().1.y == y {
        Some(stones.last().0.stone_type)
    } else {
        last_stone_on(stones.drop_last(), x, y)
    }
}

/// Whether an entry of a board snapshot names no cell of the board.
pub open spec fn off_board(entry: (Stone, Position)) -> bool {
    !entry.1.on_board()
}

/// Brings the engine's board in line with a snapshot of the stones that
/// exist: each cell that a stone of the snapshot lies on takes that stone's
/// colour (the last one's, where several lie on one cell), and every other
/// cell stays as it is. Entries that name no cell of the board are left out
/// and returned, in their order.
pub fn board_sync_system(game_master: &mut GameMaster, stones: &Vec<(Stone, Position)>) -> (rejected: Vec<
    (Stone, Position),
>)
    ensures
        final(game_master).turn == old(game_master).turn,
        final(game_master).stone_placed == old(game_master).stone_placed,
        final(game_master).skipped_count == old(game_master).skipped_count,
        forall|x: int, y: int|
            in_grid(x, y) ==> #[trigger] final(game_master).board.at(x, y) == (match last_stone_on(stones@, x, y) {
                Some(c) => Cell::Occupied(c),
                None => old(game_master).board.at(x, y),
            }),
        rejected@ == stones@.filter(|entry: (Stone, Position)| off_board(entry)),
{
    let mut rejected: Vec<(Stone, Position)> = Vec::new();
    let ghost before = game_master.board;
    let ghost pred = |entry: (Stone, Position)| off_board(entry);
    let mut i: usize = 0;
    while i < stones.len()
        invariant
            i <= stones.len(),
            game_master.turn == old(game_master).turn,
            game_master.stone_placed == old(game_master).stone_placed,
            game_master.skipped_count == old(game_master).skipped_count,
            pred == |entry: (Stone, Position)| off_board(entry),
            forall|x: int, y: int|
                in_grid(x, y) ==> #[trigger] game_master.board.at(x, y) == (match last_stone_on(
                    stones@.take(i as int),
                    x,
                    y,
                ) {
                    Some(c) => Cell::Occupied(c),
                    None => before.at(x, y),
                }),
            rejected@ == stones@.take(i as int).filter(pred),
        decreases stones.len() - i,
    {
        let stone = stones[i].0;
        let pos = stones[i].1;
        let ghost earlier = game_master.board;
        proof {
            let done = stones@.take(i as int);
            let more = stones@.take(i as int + 1);
            assert(more =~= done.push(stones@[i as int]));
            assert(more.drop_last() =~= done);
            done.lemma_filter_push(stones@[i as int], pred);
        }
        if pos.x >= 8 || pos.y >= 8 {
            rejected.push((stone, pos));
        } else {
            game_master.board.cells[pos.y as usize][pos.x as usize] = Cell::Occupied(stone.stone_type);
            assert forall|x: int, y: int| in_grid(x, y) implies #[trigger] game_master.board.at(x, y) == (if x
                == pos.x && y == pos.y {
                Cell::Occupied(stone.stone_type)
            } else {
                earlier.at(x, y)
            }) by {}
        }
        i = i + 1;
    }
    assert(stones@.take(i as int) =~= stones@);
    rejected
}

/// Whether the game is over, so that the session is to be closed.
pub fn game_end_system(game_master: &GameMaster) -> (ended: bool)
    ensures
        ended == game_master.is_game_over(),
{
    game_master.is_game_over()
}

/// Resolves the placement requests of one tick.
///
/// Anything but exactly one request is turned down as a whole: nothing is
/// placed and the mark of a resolved placement is taken away. One request is
/// handed to `apply_placement`; if it is applied, the turn goes to the
/// opponent as by `next_turn`, and the captured positions are returned.
pub fn handle_stone_placed(game_master: &mut GameMaster, events: &Vec<StonePlaced>) -> (applied: Option<
    Vec<Position>,
>)
    ensures
        !final(game_master).stone_placed,
        events.len() == 1 && old(game_master).accepts(events[0].position, events[0].stone) ==> {
            &&& applied matches Some(stones)
            &&& stones@ == captures(
                old(game_master).board,
                events[0].stone,
                events[0].position.x as int,
                events[0].position.y as int,
            )
            &&& placed(
                old(game_master).board,
                final(game_master).board,
                events[0].stone,
                events[0].position.x as int,
                events[0].position.y as int,
            )
            &&& final(game_master).turn == old(game_master).turn.opponent()
            &&& final(game_master).skipped_count == (if has_move(
                final(game_master).board,
                final(game_master).turn,
            ) {
                0u32
            } else {
                1u32
            })
        },
        !(events.len() == 1 && old(game_master).accepts(events[0].position, events[0].stone)) ==> {
            &&& applied is None
            &&& final(game_master).board == old(game_master).board
            &&& final(game_master).turn == old(game_master).turn
            &&& final(game_master).skipped_count == old(game_master).skipped_count
        },
{
    if events.len() != 1 {
        game_master.stone_placed = false;
        return None;
    }
    let event = events[0];
    let applied = game_master.apply_placement(event.position, event.stone);
    if applied.is_some() {
        game_master.next_turn();
    }
    applied
}

} // verus!
