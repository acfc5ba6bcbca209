//! The board: the 6 x 6 grid of placed tiles and every player's full
//! position trail.
//!
//! Placing a tile fills the single cell ahead of the mover's trail head and
//! then slides every still-active trail along the connected paths until it
//! rests in front of an empty cell or falls off the board.

use vstd::prelude::*;

use crate::errors::GameError;
use crate::tiles::{
    spec_facing_side, spec_flip, spec_grid_offsets, spec_traverse, wf_tile, Direction, Port, Tile,
};

verus! {

/// A point on a player's trail: a cell of the board (or of the off-board
/// rim, one ring around it) together with the port the token rests on.
/// Immutable once created; `alive` is false exactly when the token has
/// left the playable grid.
#[derive(Clone, Copy, Debug, PartialEq, Eq, Structural)]
pub struct Position {
    pub row: i8,
    pub col: i8,
    pub port: Port,
    pub alive: bool,
}

/// The coordinates lie in the playable grid together with its one-cell
/// off-board rim.
pub open spec fn wf_position(p: Position) -> bool {
    -1 <= p.row <= 6 && -1 <= p.col <= 6
}

/// The row and column of the cell the token faces: the neighbour of the
/// position's cell on the side its port sits on.
pub open spec fn spec_next_coords(p: Position) -> (int, int) {
    let off = spec_grid_offsets(spec_facing_side(p.port));
    (p.row + off.0, p.col + off.1)
}

/// `r`, `c` address a cell of the playable 6 x 6 grid.
pub open spec fn in_grid(r: int, c: int) -> bool {
    0 <= r < 6 && 0 <= c < 6
}

/// A valid starting position: alive, on the off-board rim, with its port
/// on the side that faces the playable grid.
pub open spec fn spec_is_valid_start(p: Position) -> bool {
    p.alive && match p.port {
        Port::A | Port::B => p.row == 6 && 0 <= p.col < 6,
        Port::C | Port::D => p.col == -1 && 0 <= p.row < 6,
        Port::E | Port::F => p.row == -1 && 0 <= p.col < 6,
        Port::G | Port::H => p.col == 6 && 0 <= p.row < 6,
    }
}

impl Position {
    /// Whether this position may seat a new player: it must lie on the
    /// rim, alive, with its port facing the playable grid.
    pub fn is_valid_start(&self) -> (r: bool)
        ensures
            r == spec_is_valid_start(*self),
    {
        if self.col < -1 || self.col > 6 || self.row < -1 || self.row > 6 || !self.alive {
            return false;
        }
        match self.port {
            Port::A | Port::B => self.row == 6 && self.col >= 0 && self.col < 6,
            Port::C | Port::D => self.col == -1 && self.row >= 0 && self.row < 6,
            Port::E | Port::F => self.row == -1 && self.col >= 0 && self.col < 6,
            Port::G | Port::H => self.col == 6 && self.row >= 0 && self.row < 6,
        }
    }

    fn next_tile_coords(&self) -> (r: (i8, i8))
        requires
            wf_position(*self),
        ensures
            r.0 as int == spec_next_coords(*self).0,
            r.1 as int == spec_next_coords(*self).1,
    {
        let (dr, dc) = self.port.facing_side().grid_offsets();
        (self.row + dr, self.col + dc)
    }

    /// The position one step ahead: the neighbouring cell the token faces,
    /// entered at the flipped port.
    pub fn next_tile_position(&self) -> (r: Position)
        requires
            wf_position(*self),
        ensures
            r.row as int == spec_next_coords(*self).0,
            r.col as int == spec_next_coords(*self).1,
            r.port == spec_flip(self.port),
            r.alive == self.alive,
    {
        let (row, col) = self.next_tile_coords();
        Position { row, col, port: self.port.flip(), alive: self.alive }
    }
}

/// An integer-encoded seat on the board's outer rim.  Seats are numbered
/// clockwise from the top-left corner, two per board edge cell; 48 is the
/// sentinel for a seat that has not been chosen yet.
pub type EdgePos = i8;

/// The sentinel seat value: not seated yet.
pub const NOT_READY: EdgePos = 48;

/// The starting position encoded by seat number `n`, for `0 <= n < 48`.
pub open spec fn spec_edge_position(n: int) -> Position {
    if n < 12 {
        Position {
            row: -1i8,
            col: (n / 2) as i8,
            port: if n % 2 == 0 { Port::F } else { Port::E },
            alive: true,
        }
    } else if n < 24 {
        Position {
            row: ((n - 12) / 2) as i8,
            col: 6,
            port: if n % 2 == 0 { Port::H } else { Port::G },
            alive: true,
        }
    } else if n < 36 {
        Position {
            row: 6,
            col: ((35 - n) / 2) as i8,
            port: if n % 2 == 0 { Port::B } else { Port::A },
            alive: true,
        }
    } else {
        Position {
            row: ((47 - n) / 2) as i8,
            col: -1i8,
            port: if n % 2 == 0 { Port::D } else { Port::C },
            alive: true,
        }
    }
}

/// Whether `pos` is a legal seat encoding, the sentinel included.
pub fn is_valid_edge_position(pos: EdgePos) -> (r: bool)
    ensures
        r == (0 <= pos <= NOT_READY),
{
    0 <= pos && pos <= NOT_READY
}

/// Decode seat number `pos` into its starting position on the rim.
pub fn edge_position(pos: EdgePos) -> (r: Position)
    requires
        0 <= pos < NOT_READY,
    ensures
        r == spec_edge_position(pos as int),
        spec_is_valid_start(r),
{
    let port: Port;
    let (row, col) = if pos < 12 {
        port = if pos % 2 == 0 { Port::F } else { Port::E };
        (-1, pos / 2)
    } else if pos < 24 {
        port = if pos % 2 == 0 { Port::H } else { Port::G };
        ((pos - 12) / 2, 6)
    } else if pos < 36 {
        port = if pos % 2 == 0 { Port::B } else { Port::A };
        (6, (35 - pos) / 2)
    } else {
        port = if pos % 2 == 0 { Port::D } else { Port::C };
        ((47 - pos) / 2, -1)
    };
    Position { row, col, port, alive: true }
}

/// The mathematical model of a board: six rows of six optional placed
/// tiles, and one trail of positions per player, oldest first.
#[verifier::ext_equal]
pub ghost struct BoardView {
    pub grid: Seq<Seq<Option<(Tile, Direction)>>>,
    pub players: Seq<Seq<Position>>,
}

/// The grid is 6 x 6 and holds only well-formed tiles.
pub open spec fn grid_wf(g: Seq<Seq<Option<(Tile, Direction)>>>) -> bool {
    &&& g.len() == 6
    &&& forall|i: int| 0 <= i < 6 ==> (#[trigger] g[i]).len() == 6
    &&& forall|i: int, j: int|
        in_grid(i, j) && (#[trigger] g[i][j]) is Some ==> wf_tile(g[i][j].unwrap().0)
}

/// A well-formed trail: non-empty, all coordinates within the rimmed grid,
/// and every position but possibly the last one alive.
pub open spec fn wf_trail(t: Seq<Position>) -> bool {
    &&& t.len() >= 1
    &&& forall|i: int| 0 <= i < t.len() ==> wf_position(#[trigger] t[i])
    &&& forall|i: int| 0 <= i < t.len() - 1 ==> (#[trigger] t[i]).alive
}

/// A trail at rest: while its head is alive it faces a cell of the
/// playable grid that holds no tile yet.
pub open spec fn trail_resting(g: Seq<Seq<Option<(Tile, Direction)>>>, t: Seq<Position>) -> bool {
    t.last().alive ==> {
        let rc = spec_next_coords(t.last());
        in_grid(rc.0, rc.1) && g[rc.0][rc.1] is None
    }
}

/// The board invariant: a 6 x 6 grid of well-formed tiles and well-formed
/// trails, each at rest.
pub open spec fn wf_board(b: BoardView) -> bool {
    &&& grid_wf(b.grid)
    &&& forall|k: int| 0 <= k < b.players.len() ==> wf_trail(#[trigger] b.players[k])
    &&& forall|k: int|
        0 <= k < b.players.len() ==> (#[trigger] b.players[k]).len() <= 1 + (MOVE_FUEL as int + 1)
            * placed_tiles(b.grid)
    &&& forall|k: int|
        0 <= k < b.players.len() ==> trail_resting(b.grid, #[trigger] b.players[k])
}

/// The playable grid of placed tiles and every player's trail of
/// positions, most recent last.
#[derive(Debug, PartialEq)]
pub struct Board {
    pub grid: Vec<Vec<Option<(Tile, Direction)>>>,
    pub players: Vec<Vec<Position>>,
}

impl View for Board {
    type V = BoardView;

    open spec fn view(&self) -> BoardView {
        BoardView {
            grid: self.grid@.map_values(|row: Vec<Option<(Tile, Direction)>>| row@),
            players: self.players@.map_values(|t: Vec<Position>| t@),
        }
    }
}

/// The grid of a fresh board: 6 x 6 empty cells.
pub open spec fn spec_empty_grid() -> Seq<Seq<Option<(Tile, Direction)>>> {
    Seq::new(6, |i: int| Seq::new(6, |j: int| None::<(Tile, Direction)>))
}

impl Default for Board {
    /// A fresh board: an empty 6 x 6 grid and no players.
    fn default() -> (r: Board)
        ensures
            r@.grid == spec_empty_grid(),
            r@.players.len() == 0,
            wf_board(r@),
    {
        let mut grid: Vec<Vec<Option<(Tile, Direction)>>> = Vec::new();
        let mut i: usize = 0;
        while i < 6
            invariant
                i <= 6,
                grid@.len() == i as int,
                forall|k: int| 0 <= k < i as int ==> (#[trigger] grid@[k])@ =~= Seq::new(
                    6,
                    |j: int| None::<(Tile, Direction)>,
                ),
            decreases 6 - i,
        {
            let mut row: Vec<Option<(Tile, Direction)>> = Vec::new();
            let mut j: usize = 0;
            while j < 6
                invariant
                    j <= 6,
                    row@.len() == j as int,
                    forall|k: int| 0 <= k < j as int ==> (#[trigger] row@[k]) is None,
                decreases 6 - j,
            {
                row.push(None);
                j += 1;
            }
            proof {
                assert(row@ =~= Seq::new(6, |j: int| None::<(Tile, Direction)>));
            }
            grid.push(row);
            i += 1;
        }
        let r = Board { grid, players: Vec::new() };
        proof {
            assert(r@.grid =~= spec_empty_grid());
            assert(r@.players =~= Seq::<Seq<Position>>::empty());
        }
        r
    }
}

/// What occupies the cell a position addresses: `None` when the position
/// is off the playable grid, otherwise the cell's content.
pub open spec fn spec_get_tile(b: BoardView, p: Position) -> Option<Option<(Tile, Direction)>> {
    if !in_grid(p.row as int, p.col as int) {
        None
    } else {
        Some(b.grid[p.row as int][p.col as int])
    }
}

impl Board {
    /// A pure read of the cell `pos` addresses: `None` when `pos` is off
    /// the playable grid, `Some(None)` for an empty cell, and
    /// `Some(Some(..))` for a placed tile with its facing.
    pub fn get_tile(&self, pos: &Position) -> (r: Option<Option<(Tile, Direction)>>)
        requires
            grid_wf(self@.grid),
        ensures
            r == spec_get_tile(self@, *pos),
    {
        if pos.row < 0 || pos.row >= 6 || pos.col < 0 || pos.col >= 6 {
            return None;
        }
        Some(self.grid[pos.row as usize][pos.col as usize])
    }

    /// Seat a new player at `pos`.  Succeeds exactly when `pos` is a valid
    /// starting position; then a singleton trail is appended and its index
    /// returned.  On failure nothing changes.
    pub fn add_player(&mut self, pos: Position) -> (r: Result<usize, GameError>)
        requires
            wf_board(old(self)@),
            spec_is_valid_start(pos) ==> old(self)@.grid[spec_next_coords(pos).0][spec_next_coords(
                pos,
            ).1] is None,
        ensures
            final(self)@.grid == old(self)@.grid,
            wf_board(final(self)@),
            spec_is_valid_start(pos) ==> (r matches Ok(idx) && idx as int == old(
                self,
            )@.players.len() && final(self)@.players == old(self)@.players.push(seq![pos])),
            !spec_is_valid_start(pos) ==> r == Err::<usize, GameError>(
                GameError::InvalidStartPosition,
            ) && final(self)@.players == old(self)@.players,
    {
        if !pos.is_valid_start() {
            return Err(GameError::InvalidStartPosition);
        }
        let idx = self.players.len();
        let mut trail: Vec<Position> = Vec::new();
        trail.push(pos);
        self.players.push(trail);
        proof {
            assert(final(self)@.players =~= old(self)@.players.push(seq![pos]));
            assert(trail@ =~= seq![pos]);
            assert forall|k: int| 0 <= k < final(self)@.players.len() implies wf_trail(
                #[trigger] final(self)@.players[k],
            ) && trail_resting(final(self)@.grid, final(self)@.players[k]) by {
                if k < old(self)@.players.len() {
                    assert(final(self)@.players[k] == old(self)@.players[k]);
                } else {
                    assert(final(self)@.players[k] =~= seq![pos]);
                }
            }
        }
        Ok(idx)
    }
}

/// Step budget for resolving one trail in one placement.  A walk visits a
/// (cell, port) state per step and the grid has only 6 * 6 * 8 = 288 of
/// them; a longer walk would have to revisit one and could never rest.
pub const MOVE_FUEL: usize = 300;

/// One trail slid along the connected paths of `g` to quiescence: while
/// the head is alive and faces a tiled cell of the playable grid, the path
/// through that tile is followed and the reached position appended.  A
/// head that would leave the grid is appended flipped and dead; a head
/// facing an empty cell rests.  A walk that exhausts `fuel` has revisited
/// a (cell, port) state and can never rest, so the trail is retired in
/// place.
pub open spec fn advance_trail(
    g: Seq<Seq<Option<(Tile, Direction)>>>,
    t: Seq<Position>,
    fuel: nat,
) -> Seq<Position>
    decreases fuel,
{
    if t.len() == 0 {
        t
    } else {
        let pos = t.last();
        if !pos.alive {
            t
        } else {
            let rc = spec_next_coords(pos);
            if !in_grid(rc.0, rc.1) {
                t.push(
                    Position {
                        row: rc.0 as i8,
                        col: rc.1 as i8,
                        port: spec_flip(pos.port),
                        alive: false,
                    },
                )
            } else if g[rc.0][rc.1] is None {
                t
            } else if fuel == 0 {
                t.push(Position { row: pos.row, col: pos.col, port: pos.port, alive: false })
            } else {
                let cell = g[rc.0][rc.1].unwrap();
                advance_trail(
                    g,
                    t.push(
                        Position {
                            row: rc.0 as i8,
                            col: rc.1 as i8,
                            port: spec_traverse(cell.0, spec_flip(pos.port), cell.1),
                            alive: true,
                        },
                    ),
                    (fuel - 1) as nat,
                )
            }
        }
    }
}

/// Resolution only appends: it keeps the trail well formed, leaves the
/// existing positions untouched, appends at most `fuel + 1` new ones, and
/// ends at rest.
pub proof fn lemma_advance_trail_props(
    g: Seq<Seq<Option<(Tile, Direction)>>>,
    t: Seq<Position>,
    fuel: nat,
)
    requires
        grid_wf(g),
        wf_trail(t),
        t.last().alive ==> -1 <= spec_next_coords(t.last()).0 <= 6 && -1 <= spec_next_coords(
            t.last(),
        ).1 <= 6,
    ensures
        advance_trail(g, t, fuel).len() >= t.len(),
        advance_trail(g, t, fuel).len() <= t.len() + fuel + 1,
        advance_trail(g, t, fuel).subrange(0, t.len() as int) == t,
        wf_trail(advance_trail(g, t, fuel)),
        trail_resting(g, advance_trail(g, t, fuel)),
    decreases fuel,
{
    let pos = t.last();
    if pos.alive {
        let rc = spec_next_coords(pos);
        if !in_grid(rc.0, rc.1) {
            let r = advance_trail(g, t, fuel);
            assert(r =~= t.push(r.last()));
            assert(r.subrange(0, t.len() as int) =~= t);
        } else if g[rc.0][rc.1] is None {
            assert(advance_trail(g, t, fuel).subrange(0, t.len() as int) =~= t);
        } else if fuel == 0 {
            let r = advance_trail(g, t, fuel);
            assert(r =~= t.push(r.last()));
            assert(r.subrange(0, t.len() as int) =~= t);
        } else {
            let cell = g[rc.0][rc.1].unwrap();
            let p2 = Position {
                row: rc.0 as i8,
                col: rc.1 as i8,
                port: spec_traverse(cell.0, spec_flip(pos.port), cell.1),
                alive: true,
            };
            let t2 = t.push(p2);
            assert(wf_trail(t2));
            lemma_advance_trail_props(g, t2, (fuel - 1) as nat);
            let r = advance_trail(g, t, fuel);
            assert(r == advance_trail(g, t2, (fuel - 1) as nat));
            assert(r.subrange(0, t2.len() as int) == t2);
            assert(r.subrange(0, t.len() as int) =~= t) by {
                assert forall|i: int| 0 <= i < t.len() implies r.subrange(0, t.len() as int)[i]
                    == t[i] by {
                    assert(r.subrange(0, t2.len() as int)[i] == t2[i]);
                }
            }
        }
    } else {
        assert(advance_trail(g, t, fuel).subrange(0, t.len() as int) =~= t);
    }
}

/// The board after `players[idx]` places `tile` under `facing`: the cell
/// ahead of that trail's head receives the tile, and then every trail is
/// slid to quiescence over the new grid.
pub open spec fn spec_play_tile(b: BoardView, idx: int, tile: Tile, facing: Direction) -> BoardView {
    let head = b.players[idx].last();
    let rc = spec_next_coords(head);
    let g2 = b.grid.update(rc.0, b.grid[rc.0].update(rc.1, Some((tile, facing))));
    BoardView {
        grid: g2,
        players: Seq::new(
            b.players.len(),
            |k: int| advance_trail(g2, b.players[k], MOVE_FUEL as nat),
        ),
    }
}

impl Board {
    /// Place `tile` under `facing` into the cell directly ahead of
    /// `player_idx`'s trail head — the target is derived from the head,
    /// never supplied — and then slide every still-active trail along the
    /// connected paths until each rests or falls off the board.
    #[verifier::loop_isolation(false)]
    #[verifier::rlimit(60)]
    pub fn play_tile(&mut self, player_idx: usize, tile: &Tile, facing: Direction)
        requires
            wf_board(old(self)@),
            wf_tile(*tile),
            player_idx < old(self)@.players.len(),
            old(self)@.players[player_idx as int].last().alive,
        ensures
            final(self)@ == spec_play_tile(old(self)@, player_idx as int, *tile, facing),
            wf_board(final(self)@),
    {
        let ghost b0 = self@;
        // Add the new tile in the target location.
        let n = self.players[player_idx].len();
        let head = self.players[player_idx][n - 1];
        let (r, c) = head.next_tile_coords();
        let mut row = self.grid.remove(r as usize);
        let ghost row0 = row@;
        row.insert(c as usize, Some((*tile, facing)));
        row.remove(c as usize + 1);
        self.grid.insert(r as usize, row);
        let ghost g2 = b0.grid.update(r as int, b0.grid[r as int].update(c as int, Some((*tile, facing))));
        proof {
            assert(row0 == b0.grid[r as int]);
            assert(row@ =~= row0.update(c as int, Some((*tile, facing))));
            assert(self@.grid =~= g2);
            assert(grid_wf(g2)) by {
                assert forall|i: int| 0 <= i < 6 implies (#[trigger] g2[i]).len() == 6 by {}
                assert forall|i: int, j: int|
                    in_grid(i, j) && (#[trigger] g2[i][j]) is Some implies wf_tile(
                    g2[i][j].unwrap().0,
                ) by {}
            }
        }
        // Move all players, if still alive.
        let num = self.players.len();
        let mut k: usize = 0;
        while k < num
            invariant
                self@.grid == g2,
                self.players@.len() == num as int,
                forall|j: int|
                    0 <= j < k as int ==> (#[trigger] self.players@[j])@ == advance_trail(
                        g2,
                        b0.players[j],
                        MOVE_FUEL as nat,
                    ),
                forall|j: int|
                    k as int <= j < num as int ==> (#[trigger] self.players@[j])@ == b0.players[j],
            decreases num - k,
        {
            let ghost pre = self.players@;
            let mut trail = self.players.remove(k);
            let ghost t0 = trail@;
            proof {
                assert(trail == pre[k as int]);
                assert(t0 == b0.players[k as int]);
                assert forall|j: int| 0 <= j < k as int implies (#[trigger] self.players@[j])@
                    == advance_trail(g2, b0.players[j], MOVE_FUEL as nat) by {
                    assert(self.players@[j] == pre[j]);
                }
                assert forall|j: int| k as int <= j < num as int - 1 implies (#[trigger] self.players@[j])@
                    == b0.players[j + 1] by {
                    assert(self.players@[j] == pre[j + 1]);
                }
            }
            let mut fuel: usize = MOVE_FUEL;
            #[verifier::loop_isolation(true)]
            loop
                invariant_except_break
                    grid_wf(g2),
                    wf_trail(trail@),
                    trail@.last().alive ==> -1 <= spec_next_coords(trail@.last()).0 <= 6 && -1
                        <= spec_next_coords(trail@.last()).1 <= 6,
                    fuel <= MOVE_FUEL,
                    advance_trail(g2, trail@, fuel as nat) == advance_trail(
                        g2,
                        t0,
                        MOVE_FUEL as nat,
                    ),
                    self@.grid == g2,
                    self.players@.len() == num as int - 1,
                    forall|j: int|
                        0 <= j < k as int ==> (#[trigger] self.players@[j])@ == advance_trail(
                            g2,
                            b0.players[j],
                            MOVE_FUEL as nat,
                        ),
                    forall|j: int|
                        k as int <= j < num as int - 1 ==> (#[trigger] self.players@[j])@
                            == b0.players[j + 1],
                ensures
                    trail@ == advance_trail(g2, t0, MOVE_FUEL as nat),
                    self@.grid == g2,
                    self.players@.len() == num as int - 1,
                    forall|j: int|
                        0 <= j < k as int ==> (#[trigger] self.players@[j])@ == advance_trail(
                            g2,
                            b0.players[j],
                            MOVE_FUEL as nat,
                        ),
                    forall|j: int|
                        k as int <= j < num as int - 1 ==> (#[trigger] self.players@[j])@
                            == b0.players[j + 1],
                decreases fuel,
            {
                let len = trail.len();
                let pos = trail[len - 1];
                if !pos.alive {
                    break;
                }
                let (nr, nc) = pos.next_tile_coords();
                if nr < 0 || nr >= 6 || nc < 0 || nc >= 6 {
                    trail.push(Position { row: nr, col: nc, port: pos.port.flip(), alive: false });
                    break;
                }
                let cell = self.grid[nr as usize][nc as usize];
                match cell {
                    // Hit a blank cell, stop iterating.
                    None => {
                        break;
                    },
                    // Hit another tile, traverse and keep looping.
                    Some((t, f)) => {
                        if fuel == 0 {
                            // the walk has revisited a state and can never rest
                            trail.push(
                                Position {
                                    row: pos.row,
                                    col: pos.col,
                                    port: pos.port,
                                    alive: false,
                                },
                            );
                            break;
                        }
                        fuel -= 1;
                        let port = t.traverse(pos.port.flip(), f);
                        trail.push(Position { row: nr, col: nc, port, alive: true });
                    },
                }
            }
            let ghost mid = self.players@;
            self.players.insert(k, trail);
            proof {
                assert forall|j: int| k as int + 1 <= j < num as int implies (
                #[trigger] self.players@[j])@ == b0.players[j] by {
                    assert(self.players@[j] == mid[j - 1]);
                }
                assert((self.players@[k as int])@ == advance_trail(
                    g2,
                    b0.players[k as int],
                    MOVE_FUEL as nat,
                ));
            }
            k += 1;
        }
        proof {
            let spec_b = spec_play_tile(b0, player_idx as int, *tile, facing);
            assert(head == b0.players[player_idx as int].last());
            assert(spec_b.grid == g2);
            assert(final(self)@.grid =~~= spec_b.grid);
            assert forall|j: int| 0 <= j < num as int implies #[trigger] final(self)@.players[j]
                == spec_b.players[j] by {
                assert((self.players@[j])@ == advance_trail(g2, b0.players[j], MOVE_FUEL as nat));
            }
            assert(final(self)@.players =~~= spec_b.players);
            assert(final(self)@ =~~= spec_b);
            lemma_play_tile_placed(b0, player_idx as int, *tile, facing);
            assert(placed_tiles(g2) == placed_tiles(b0.grid) + 1);
            assert forall|j: int| 0 <= j < num as int implies wf_trail(
                #[trigger] final(self)@.players[j],
            ) && trail_resting(g2, final(self)@.players[j]) && final(self)@.players[j].len() <= 1
                + (MOVE_FUEL as int + 1) * placed_tiles(g2) by {
                lemma_advance_trail_props(g2, b0.players[j], MOVE_FUEL as nat);
                assert(b0.players[j].len() <= 1 + (MOVE_FUEL as int + 1) * placed_tiles(b0.grid));
            }
        }
    }
}

/// Alive flags are monotone non-increasing along a well-formed trail:
/// once a position is dead, no later position is alive.
pub proof fn lemma_trail_alive_monotone(t: Seq<Position>, i: int, j: int)
    requires
        wf_trail(t),
        0 <= i <= j < t.len(),
        t[j].alive,
    ensures
        t[i].alive,
{
}

/// Each grid row holds at most as many tiles as it has cells.
proof fn lemma_row_tiles_bound(row: Seq<Option<(Tile, Direction)>>)
    ensures
        row_tiles(row) <= row.len(),
    decreases row.len(),
{
    if row.len() > 0 {
        lemma_row_tiles_bound(row.drop_last());
    }
}

proof fn lemma_placed_tiles_rows(g: Seq<Seq<Option<(Tile, Direction)>>>)
    requires
        forall|i: int| 0 <= i < g.len() ==> (#[trigger] g[i]).len() <= 6,
    ensures
        placed_tiles(g) <= 6 * g.len(),
    decreases g.len(),
{
    if g.len() > 0 {
        lemma_placed_tiles_rows(g.drop_last());
        lemma_row_tiles_bound(g.last());
    }
}

/// A well-formed grid holds at most 36 tiles.
pub proof fn lemma_placed_tiles_bound(g: Seq<Seq<Option<(Tile, Direction)>>>)
    requires
        grid_wf(g),
    ensures
        placed_tiles(g) <= 36,
{
    lemma_placed_tiles_rows(g);
}

/// How many cells of one grid row hold a tile.
pub open spec fn row_tiles(row: Seq<Option<(Tile, Direction)>>) -> nat
    decreases row.len(),
{
    if row.len() == 0 {
        0
    } else {
        row_tiles(row.drop_last()) + if row.last() is Some {
            1nat
        } else {
            0nat
        }
    }
}

/// How many cells of the whole grid hold a tile.
pub open spec fn placed_tiles(g: Seq<Seq<Option<(Tile, Direction)>>>) -> nat
    decreases g.len(),
{
    if g.len() == 0 {
        0
    } else {
        placed_tiles(g.drop_last()) + row_tiles(g.last())
    }
}

proof fn lemma_row_tiles_update(row: Seq<Option<(Tile, Direction)>>, j: int, v: Option<(Tile, Direction)>)
    requires
        0 <= j < row.len(),
    ensures
        row_tiles(row.update(j, v)) + (if row[j] is Some { 1nat } else { 0nat }) == row_tiles(row)
            + (if v is Some { 1nat } else { 0nat }),
    decreases row.len(),
{
    let r2 = row.update(j, v);
    if j == row.len() - 1 {
        assert(r2.drop_last() =~= row.drop_last());
    } else {
        assert(r2.drop_last() =~= row.drop_last().update(j, v));
        lemma_row_tiles_update(row.drop_last(), j, v);
        assert(r2.last() == row.last());
    }
}

proof fn lemma_placed_tiles_update(
    g: Seq<Seq<Option<(Tile, Direction)>>>,
    i: int,
    r2: Seq<Option<(Tile, Direction)>>,
)
    requires
        0 <= i < g.len(),
    ensures
        placed_tiles(g.update(i, r2)) + row_tiles(g[i]) == placed_tiles(g) + row_tiles(r2),
    decreases g.len(),
{
    let g2 = g.update(i, r2);
    if i == g.len() - 1 {
        assert(g2.drop_last() =~= g.drop_last());
    } else {
        assert(g2.drop_last() =~= g.drop_last().update(i, r2));
        lemma_placed_tiles_update(g.drop_last(), i, r2);
        assert(g2.last() == g.last());
    }
}

/// A row of empty cells holds no tile.
proof fn lemma_row_tiles_none(row: Seq<Option<(Tile, Direction)>>)
    requires
        forall|j: int| 0 <= j < row.len() ==> (#[trigger] row[j]) is None,
    ensures
        row_tiles(row) == 0,
    decreases row.len(),
{
    if row.len() > 0 {
        lemma_row_tiles_none(row.drop_last());
    }
}

/// A fresh board carries no tiles at all.
pub proof fn lemma_empty_grid_tiles()
    ensures
        placed_tiles(spec_empty_grid()) == 0,
{
    lemma_grid_tiles_none(spec_empty_grid());
}

proof fn lemma_grid_tiles_none(g: Seq<Seq<Option<(Tile, Direction)>>>)
    requires
        forall|i: int, j: int|
            0 <= i < g.len() && 0 <= j < g[i].len() ==> (#[trigger] g[i][j]) is None,
    ensures
        placed_tiles(g) == 0,
    decreases g.len(),
{
    if g.len() > 0 {
        lemma_grid_tiles_none(g.drop_last());
        lemma_row_tiles_none(g.last());
    }
}

/// A placement adds exactly one tile to the grid: the one set into the
/// cell ahead of the mover's head.
pub proof fn lemma_play_tile_placed(b: BoardView, idx: int, tile: Tile, facing: Direction)
    requires
        wf_board(b),
        0 <= idx < b.players.len(),
        b.players[idx].last().alive,
    ensures
        placed_tiles(spec_play_tile(b, idx, tile, facing).grid) == placed_tiles(b.grid) + 1,
{
    let head = b.players[idx].last();
    let rc = spec_next_coords(head);
    let r2 = b.grid[rc.0].update(rc.1, Some((tile, facing)));
    lemma_row_tiles_update(b.grid[rc.0], rc.1, Some((tile, facing)));
    lemma_placed_tiles_update(b.grid, rc.0, r2);
}

} // verus!
