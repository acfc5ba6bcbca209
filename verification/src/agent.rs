//! Pluggable strategies that choose a move from read-only game state, and
//! the non-mutating movement preview they rely on.

use vstd::prelude::*;

use crate::board::{
    grid_wf, in_grid, spec_next_coords, wf_position, Board, Position, MOVE_FUEL,
};
use crate::game::{wf_game, GameManager};
use crate::tiles::{spec_flip, spec_traverse, wf_tile, Direction, Tile};

verus! {

/// Where a single trail would come to rest if `played` were placed at
/// `(tr, tc)` and the walk continued from `pos`: the same resolution rule
/// as a real placement, replayed without committing anything.  The walk
/// re-traverses the hypothetical tile whenever it returns to its cell.
/// A walk that exhausts `fuel` has revisited a (cell, port) state and can
/// never rest, so it is reported dead in place.
pub open spec fn spec_follow_from(
    g: Seq<Seq<Option<(Tile, Direction)>>>,
    played: Tile,
    dir: Direction,
    tr: int,
    tc: int,
    pos: Position,
    fuel: nat,
) -> Position
    decreases fuel,
{
    let rc = spec_next_coords(pos);
    let p2 = Position {
        row: rc.0 as i8,
        col: rc.1 as i8,
        port: spec_flip(pos.port),
        alive: pos.alive,
    };
    if !in_grid(rc.0, rc.1) {
        Position { alive: false, ..p2 }
    } else {
        match g[rc.0][rc.1] {
            Some(cell) => {
                if fuel == 0 {
                    Position { alive: false, ..p2 }
                } else {
                    spec_follow_from(
                        g,
                        played,
                        dir,
                        tr,
                        tc,
                        Position { port: spec_traverse(cell.0, p2.port, cell.1), ..p2 },
                        (fuel - 1) as nat,
                    )
                }
            },
            None => {
                if rc.0 == tr && rc.1 == tc {
                    if fuel == 0 {
                        Position { alive: false, ..p2 }
                    } else {
                        spec_follow_from(
                            g,
                            played,
                            dir,
                            tr,
                            tc,
                            Position { port: spec_traverse(played, p2.port, dir), ..p2 },
                            (fuel - 1) as nat,
                        )
                    }
                } else {
                    p2
                }
            },
        }
    }
}

/// Where `start_pos`'s trail would come to rest if `played` were placed
/// under `dir` into the cell ahead of it.
pub open spec fn spec_follow_path(
    g: Seq<Seq<Option<(Tile, Direction)>>>,
    start_pos: Position,
    played: Tile,
    dir: Direction,
) -> Position {
    let rc = spec_next_coords(start_pos);
    spec_follow_from(
        g,
        played,
        dir,
        rc.0,
        rc.1,
        Position {
            row: rc.0 as i8,
            col: rc.1 as i8,
            port: spec_traverse(played, spec_flip(start_pos.port), dir),
            alive: start_pos.alive,
        },
        MOVE_FUEL as nat,
    )
}

/// Preview where `start_pos`'s trail would come to rest if `played_tile`
/// were placed under `dir` into the cell ahead of it, without committing
/// the move.  Used by agents and by any "safe move" hint.
#[verifier::loop_isolation(false)]
pub fn follow_path(board: &Board, start_pos: &Position, played_tile: &Tile, dir: Direction) -> (r:
    Position)
    requires
        grid_wf(board@.grid),
        wf_tile(*played_tile),
        wf_position(*start_pos),
        in_grid(spec_next_coords(*start_pos).0, spec_next_coords(*start_pos).1),
    ensures
        r == spec_follow_path(board@.grid, *start_pos, *played_tile, dir),
{
    // Simulate the given tile being played.
    let mut pos = start_pos.next_tile_position();
    let tile_row = pos.row;
    let tile_col = pos.col;
    pos.port = played_tile.traverse(pos.port, dir);
    let ghost p0 = pos;
    // Follow the path until we fall off the board or hit an empty cell.
    let mut fuel: usize = MOVE_FUEL;
    #[verifier::loop_isolation(true)]
    loop
        invariant_except_break
            grid_wf(board@.grid),
            wf_tile(*played_tile),
            in_grid(pos.row as int, pos.col as int),
            fuel <= MOVE_FUEL,
            spec_follow_from(
                board@.grid,
                *played_tile,
                dir,
                tile_row as int,
                tile_col as int,
                pos,
                fuel as nat,
            ) == spec_follow_from(
                board@.grid,
                *played_tile,
                dir,
                tile_row as int,
                tile_col as int,
                p0,
                MOVE_FUEL as nat,
            ),
        ensures
            pos == spec_follow_from(
                board@.grid,
                *played_tile,
                dir,
                tile_row as int,
                tile_col as int,
                p0,
                MOVE_FUEL as nat,
            ),
        decreases fuel,
    {
        pos = pos.next_tile_position();
        if pos.row < 0 || pos.row >= 6 || pos.col < 0 || pos.col >= 6 {
            // Fell off the board.
            pos.alive = false;
            break;
        }
        let cell = board.grid[pos.row as usize][pos.col as usize];
        match cell {
            // Hit a blank grid cell.
            None => {
                if pos.row == tile_row && pos.col == tile_col {
                    if fuel == 0 {
                        pos.alive = false;
                        break;
                    }
                    fuel -= 1;
                    // Re-traverse our initial tile (from a different port).
                    pos.port = played_tile.traverse(pos.port, dir);
                } else {
                    // We hit an empty tile.
                    break;
                }
            },
            // Hit an existing tile, traverse and keep looping.
            Some((t, facing)) => {
                if fuel == 0 {
                    pos.alive = false;
                    break;
                }
                fuel -= 1;
                pos.port = t.traverse(pos.port, facing);
            },
        }
    }
    pos
}

/// A pluggable strategy: given read-only game state, choose the hand slot
/// and facing to play.  It must always answer with a slot that exists,
/// even when every option is lethal.
pub trait Agent {
    fn choose_action(&self, game: &GameManager) -> (r: (usize, Direction))
        requires
            wf_game(game@),
            game@.players.len() > 0,
            game@.players[game@.current].hand.len() > 0,
        ensures
            r.0 < game@.players[game@.current].hand.len(),
    ;
}

/// Build the strategy for the requested difficulty.
pub fn create_agent(_difficulty: usize) -> AvoidSuddenDeathAgent {
    AvoidSuddenDeathAgent
}

/// Simple tile selection that only tries to avoid immediate death: the
/// first tile and facing whose preview survives; when every option is
/// lethal, it falls back to the first tile, facing north.
pub struct AvoidSuddenDeathAgent;

impl Agent for AvoidSuddenDeathAgent {
    #[verifier::loop_isolation(false)]
    fn choose_action(&self, game: &GameManager) -> (r: (usize, Direction)) {
        let my_pos = game.current_player_pos();
        let me = game.current_player();
        let hand_len = me.tiles_in_hand.len();
        let mut i: usize = 0;
        while i < hand_len
            invariant
                i <= hand_len,
            decreases hand_len - i,
        {
            let tile = me.tiles_in_hand[i];
            let dirs = Direction::all();
            let mut d: usize = 0;
            while d < dirs.len()
                invariant
                    d <= dirs.len(),
                    i < hand_len,
                decreases dirs.len() - d,
            {
                let end_pos = follow_path(&game.board, &my_pos, &tile, dirs[d]);
                if end_pos.alive {
                    return (i, dirs[d]);
                }
                d += 1;
            }
            i += 1;
        }
        // Fallback: no safe tile to play.
        (0, Direction::North)
    }
}

} // verus!
