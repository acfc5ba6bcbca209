//! The turn / elimination / draw-pile state machine.
//!
//! A `GameManager` owns the shuffled draw pile, the player hands, the turn
//! order, elimination, the dragon-tile fairness rule and scoring; it is the
//! only mutable entry point for gameplay.

use vstd::prelude::*;

use crate::board::{
    placed_tiles, spec_empty_grid, spec_is_valid_start, spec_next_coords, wf_board, Board,
    BoardView, Position,
};
use crate::errors::GameError;
use crate::random::{seeded_rng, shuffle_tiles};
use crate::tiles::{all_tiles, spec_catalog, wf_tile, Direction, Tile};

verus! {

/// How large each player's hand can be.
pub const TILES_PER_PLAYER: usize = 3;

/// A seated player who is still in the game.
#[derive(Debug, PartialEq)]
pub struct Player {
    pub username: String,
    /// Stable index into the board's trail list; never reassigned when
    /// other players are removed.
    pub board_index: usize,
    pub tiles_in_hand: Vec<Tile>,
}

/// The mathematical model of a player.
#[verifier::ext_equal]
pub ghost struct PlayerView {
    pub username: Seq<char>,
    pub board_index: int,
    pub hand: Seq<Tile>,
}

impl View for Player {
    type V = PlayerView;

    open spec fn view(&self) -> PlayerView {
        PlayerView {
            username: self.username@,
            board_index: self.board_index as int,
            hand: self.tiles_in_hand@,
        }
    }
}

/// The mathematical model of a whole game: the board, the draw pile (its
/// last element is the top, popped on draw), the still-active players in
/// seating order, whose turn it is, and who holds the dragon tile.
#[verifier::ext_equal]
pub ghost struct GameView {
    pub board: BoardView,
    pub pile: Seq<Tile>,
    pub players: Seq<PlayerView>,
    pub current: int,
    pub dragon: Option<int>,
}

/// The game state: the only mutable entry point for gameplay.
#[derive(Debug, PartialEq)]
pub struct GameManager {
    pub board: Board,
    pub tile_stack: Vec<Tile>,
    pub alive_players: Vec<Player>,
    pub current_player_idx: usize,
    pub dragon_player_bidx: Option<usize>,
}

impl View for GameManager {
    type V = GameView;

    open spec fn view(&self) -> GameView {
        GameView {
            board: self.board@,
            pile: self.tile_stack@,
            players: self.alive_players@.map_values(|p: Player| p@),
            current: self.current_player_idx as int,
            dragon: match self.dragon_player_bidx {
                Some(b) => Some(b as int),
                None => None,
            },
        }
    }
}

/// How many tiles the players hold in their hands, in total.
pub open spec fn hands_total(ps: Seq<PlayerView>) -> nat
    decreases ps.len(),
{
    if ps.len() == 0 {
        0
    } else {
        hands_total(ps.drop_last()) + ps.last().hand.len()
    }
}

/// Every active player has a valid, distinct board index, a hand within
/// the limit, and only well-formed tiles in it.
pub open spec fn wf_players(g: GameView) -> bool {
    &&& forall|i: int|
        0 <= i < g.players.len() ==> 0 <= (#[trigger] g.players[i]).board_index
            < g.board.players.len()
    &&& forall|i: int, j: int|
        0 <= i < j < g.players.len() ==> (#[trigger] g.players[i]).board_index != (
        #[trigger] g.players[j]).board_index
    &&& forall|i: int|
        0 <= i < g.players.len() ==> (#[trigger] g.players[i]).hand.len() <= TILES_PER_PLAYER
    &&& forall|i: int, j: int|
        0 <= i < g.players.len() && 0 <= j < g.players[i].hand.len() ==> wf_tile(
            #[trigger] g.players[i].hand[j],
        )
}

/// Every tile still in the draw pile is well formed.
pub open spec fn pile_wf(pile: Seq<Tile>) -> bool {
    forall|i: int| 0 <= i < pile.len() ==> wf_tile(#[trigger] pile[i])
}

/// Tile conservation: the tiles in hands, in the draw pile and on the
/// board always add up to the full catalog of 35.
pub open spec fn tiles_conserved(g: GameView) -> bool {
    hands_total(g.players) + g.pile.len() + placed_tiles(g.board.grid) == 35
}

/// The dragon holder, when there is one, is a still-active player.
pub open spec fn dragon_ok(g: GameView) -> bool {
    match g.dragon {
        None => true,
        Some(b) => exists|i: int|
            0 <= i < g.players.len() && (#[trigger] g.players[i]).board_index == b,
    }
}

/// The structural game invariant; everything except the liveness of the
/// active players' trail heads.
pub open spec fn wf_state(g: GameView) -> bool {
    &&& wf_board(g.board)
    &&& wf_players(g)
    &&& pile_wf(g.pile)
    &&& tiles_conserved(g)
    &&& g.players.len() > 0 ==> 0 <= g.current < g.players.len()
    &&& g.players.len() == 0 ==> g.current == 0
    &&& dragon_ok(g)
    &&& dragon_short(g)
}

/// Every still-active player's trail head is alive.
pub open spec fn heads_alive(g: GameView) -> bool {
    forall|i: int|
        0 <= i < g.players.len() ==> g.board.players[(#[trigger] g.players[i]).board_index].last().alive
}

/// The full game invariant, holding between any two public operations.
pub open spec fn wf_game(g: GameView) -> bool {
    wf_state(g) && heads_alive(g)
}

proof fn lemma_hands_total_push(ps: Seq<PlayerView>, p: PlayerView)
    ensures
        hands_total(ps.push(p)) == hands_total(ps) + p.hand.len(),
{
    assert(ps.push(p).drop_last() =~= ps);
}

proof fn lemma_permutation_wf(s1: Seq<Tile>, s2: Seq<Tile>)
    requires
        s1.to_multiset() == s2.to_multiset(),
        forall|i: int| 0 <= i < s1.len() ==> wf_tile(#[trigger] s1[i]),
    ensures
        pile_wf(s2),
{
    broadcast use vstd::seq_lib::group_to_multiset_ensures;

    assert forall|i: int| 0 <= i < s2.len() implies wf_tile(#[trigger] s2[i]) by {
        assert(s2.contains(s2[i]));
        assert(s1.to_multiset().count(s2[i]) > 0);
        assert(s1.contains(s2[i]));
        let j = choose|j: int| 0 <= j < s1.len() && s1[j] == s2[i];
        assert(wf_tile(s1[j]));
    }
}

impl GameManager {
    /// A fresh game: an empty board, no players, and the full 35-tile
    /// catalog shuffled into the draw pile with a generator seeded from
    /// `seed` — the only randomness the engine ever consumes.
    pub fn new(seed: u64) -> (r: GameManager)
        ensures
            wf_game(r@),
            r@.board.grid == spec_empty_grid(),
            r@.board.players.len() == 0,
            r@.players.len() == 0,
            r@.current == 0,
            r@.dragon is None,
            r@.pile.len() == 35,
            r@.pile.to_multiset() == spec_catalog().to_multiset(),
    {
        let mut tile_stack = all_tiles();
        let mut rng = seeded_rng(seed);
        shuffle_tiles(&mut tile_stack, &mut rng);
        let r = GameManager {
            board: Board::default(),
            tile_stack,
            alive_players: Vec::new(),
            current_player_idx: 0,
            dragon_player_bidx: None,
        };
        proof {
            crate::board::lemma_empty_grid_tiles();
            lemma_permutation_wf(spec_catalog(), r@.pile);
            assert(r@.players =~= Seq::<PlayerView>::empty());
            assert(hands_total(r@.players) == 0);
        }
        r
    }

    /// How many tiles are left in the draw pile.
    pub fn tiles_remaining(&self) -> (r: usize)
        ensures
            r == self@.pile.len(),
    {
        self.tile_stack.len()
    }

    /// Seat a new player at `start_position` and deal them a hand of up to
    /// three tiles from the top of the pile — fewer if the pile is short.
    /// Succeeds exactly when the position is valid; nothing changes on
    /// rejection.  Registration order fixes the initial turn order.
    pub fn register_player(&mut self, username: String, start_position: Position) -> (r: Result<
        (),
        GameError,
    >)
        requires
            wf_game(old(self)@),
            spec_is_valid_start(start_position) ==> old(self)@.board.grid[spec_next_coords(
                start_position,
            ).0][spec_next_coords(start_position).1] is None,
        ensures
            wf_game(final(self)@),
            !spec_is_valid_start(start_position) ==> r == Err::<(), GameError>(
                GameError::InvalidStartPosition,
            ) && final(self)@ == old(self)@,
            spec_is_valid_start(start_position) ==> {
                let cut = if old(self)@.pile.len() >= TILES_PER_PLAYER {
                    old(self)@.pile.len() - TILES_PER_PLAYER
                } else {
                    0
                };
                &&& r == Ok::<(), GameError>(())
                &&& final(self)@.pile == old(self)@.pile.subrange(0, cut as int)
                &&& final(self)@.players == old(self)@.players.push(
                    PlayerView {
                        username: username@,
                        board_index: old(self)@.board.players.len() as int,
                        hand: old(self)@.pile.subrange(cut as int, old(self)@.pile.len() as int),
                    },
                )
                &&& final(self)@.board.grid == old(self)@.board.grid
                &&& final(self)@.board.players == old(self)@.board.players.push(
                    seq![start_position],
                )
                &&& final(self)@.current == old(self)@.current
                &&& final(self)@.dragon == old(self)@.dragon
            },
    {
        let ghost g0 = self@;
        let bidx = match self.board.add_player(start_position) {
            Ok(bidx) => bidx,
            Err(e) => {
                return Err(e);
            },
        };
        let cut = if self.tile_stack.len() > TILES_PER_PLAYER {
            self.tile_stack.len() - TILES_PER_PLAYER
        } else {
            0
        };
        let hand = self.tile_stack.split_off(cut);
        let ghost new_pv = PlayerView {
            username: username@,
            board_index: bidx as int,
            hand: hand@,
        };
        self.alive_players.push(Player { username, board_index: bidx, tiles_in_hand: hand });
        proof {
            let g1 = final(self)@;
            assert(g1.players =~= g0.players.push(new_pv));
            lemma_hands_total_push(g0.players, new_pv);
            assert(g0.pile.subrange(cut as int, g0.pile.len() as int).len() + cut as int
                == g0.pile.len());
            assert forall|i: int| 0 <= i < g1.players.len() implies 0 <= (
            #[trigger] g1.players[i]).board_index < g1.board.players.len() by {
                if i < g0.players.len() {
                    assert(g1.players[i] == g0.players[i]);
                }
            }
            assert forall|i: int, j: int| 0 <= i < j < g1.players.len() implies (
            #[trigger] g1.players[i]).board_index != (#[trigger] g1.players[j]).board_index by {
                if j < g0.players.len() {
                    assert(g1.players[i] == g0.players[i]);
                    assert(g1.players[j] == g0.players[j]);
                } else {
                    assert(g1.players[j] == new_pv);
                    assert(new_pv.board_index == g0.board.players.len() as int);
                    if i < g0.players.len() {
                        assert(g1.players[i] == g0.players[i]);
                        assert(g0.players[i].board_index < g0.board.players.len());
                    }
                }
            }
            assert(dragon_ok(g1)) by {
                match g0.dragon {
                    None => {},
                    Some(b) => {
                        let i = choose|i: int|
                            0 <= i < g0.players.len() && (#[trigger] g0.players[i]).board_index
                                == b;
                        assert(g1.players[i] == g0.players[i]);
                    },
                }
            }
            assert(dragon_short(g1)) by {
                match g0.dragon {
                    None => {},
                    Some(b) => {
                        let w = choose|w: int|
                            0 <= w < g0.players.len() && (#[trigger] g0.players[w]).board_index
                                == b;
                        assert(g0.players[w].board_index < g0.board.players.len());
                        assert forall|i: int|
                            0 <= i < g1.players.len() && (#[trigger] g1.players[i]).board_index
                                == b implies g1.players[i].hand.len() < TILES_PER_PLAYER by {
                            if i < g0.players.len() {
                                assert(g1.players[i] == g0.players[i]);
                            } else {
                                assert(g1.players[i] == new_pv);
                            }
                        }
                    },
                }
            }
            assert(heads_alive(g1)) by {
                assert forall|i: int| 0 <= i < g1.players.len() implies g1.board.players[(
                #[trigger] g1.players[i]).board_index].last().alive by {
                    if i < g0.players.len() {
                        assert(g1.players[i] == g0.players[i]);
                        assert(g1.board.players[g1.players[i].board_index]
                            == g0.board.players[g0.players[i].board_index]);
                    } else {
                        assert(g1.players[i] == new_pv);
                        assert(g1.players[i].board_index == g0.board.players.len() as int);
                        assert(g1.board.players == g0.board.players.push(seq![start_position]));
                        assert(g1.board.players[g1.players[i].board_index] == seq![
                            start_position,
                        ]);
                        assert(seq![start_position].last() == start_position);
                    }
                }
            }
        }
        Ok(())
    }
}

/// The dragon holder, when there is one, still has room in their hand.
pub open spec fn dragon_short(g: GameView) -> bool {
    match g.dragon {
        None => true,
        Some(b) => forall|i: int|
            0 <= i < g.players.len() && (#[trigger] g.players[i]).board_index == b
                ==> g.players[i].hand.len() < TILES_PER_PLAYER,
    }
}

proof fn lemma_hands_total_update(ps: Seq<PlayerView>, i: int, p: PlayerView)
    requires
        0 <= i < ps.len(),
    ensures
        hands_total(ps.update(i, p)) + ps[i].hand.len() == hands_total(ps) + p.hand.len(),
    decreases ps.len(),
{
    let ps2 = ps.update(i, p);
    if i == ps.len() - 1 {
        assert(ps2.drop_last() =~= ps.drop_last());
    } else {
        assert(ps2.drop_last() =~= ps.drop_last().update(i, p));
        lemma_hands_total_update(ps.drop_last(), i, p);
        assert(ps2.last() == ps.last());
    }
}

proof fn lemma_hands_total_remove(ps: Seq<PlayerView>, i: int)
    requires
        0 <= i < ps.len(),
    ensures
        hands_total(ps.remove(i)) + ps[i].hand.len() == hands_total(ps),
    decreases ps.len(),
{
    let ps2 = ps.remove(i);
    if i == ps.len() - 1 {
        assert(ps2 =~= ps.drop_last());
    } else {
        assert(ps2.drop_last() =~= ps.drop_last().remove(i));
        lemma_hands_total_remove(ps.drop_last(), i);
        assert(ps2.last() == ps.last());
    }
}

/// The board index of the first player at or after `i` whose hand is
/// short a tile, if any.
pub open spec fn spec_first_needy(ps: Seq<PlayerView>, i: int) -> Option<int>
    decreases ps.len() - i,
{
    if i < 0 || i >= ps.len() {
        None
    } else if ps[i].hand.len() < TILES_PER_PLAYER {
        Some(ps[i].board_index)
    } else {
        spec_first_needy(ps, i + 1)
    }
}

/// The index at or after `i` of the player with board index `b`, if any.
pub open spec fn spec_index_of_bidx(ps: Seq<PlayerView>, b: int, i: int) -> Option<int>
    decreases ps.len() - i,
{
    if i < 0 || i >= ps.len() {
        None
    } else if ps[i].board_index == b {
        Some(i)
    } else {
        spec_index_of_bidx(ps, b, i + 1)
    }
}

/// The index of the first player seated after board index `b`, wrapping
/// to the first player when none is.
pub open spec fn spec_next_after(ps: Seq<PlayerView>, b: int, i: int) -> int
    decreases ps.len() - i,
{
    if i < 0 || i >= ps.len() {
        0
    } else if ps[i].board_index > b {
        i
    } else {
        spec_next_after(ps, b, i + 1)
    }
}

/// The game after the current player places hand tile `i` under `facing`:
/// the board resolves the placement, the mover redraws from the pile when
/// it still holds a tile, and otherwise becomes the dragon holder if
/// nobody is yet.
pub open spec fn spec_place(g: GameView, i: int, facing: Direction) -> GameView {
    let mover = g.players[g.current];
    let tile = mover.hand[i];
    let b2 = crate::board::spec_play_tile(g.board, mover.board_index, tile, facing);
    if g.pile.len() > 0 {
        let mover2 = PlayerView { hand: mover.hand.remove(i).push(g.pile.last()), ..mover };
        GameView {
            board: b2,
            pile: g.pile.drop_last(),
            players: g.players.update(g.current, mover2),
            ..g
        }
    } else {
        let mover2 = PlayerView { hand: mover.hand.remove(i), ..mover };
        GameView {
            board: b2,
            players: g.players.update(g.current, mover2),
            dragon: if g.dragon is None {
                Some(mover.board_index)
            } else {
                g.dragon
            },
            ..g
        }
    }
}

/// Scan the active players from `idx` on and eliminate everyone whose
/// trail head is no longer alive: the player leaves the list, their
/// unplayed hand goes back to the bottom of the pile, and a dead dragon
/// holder passes the dragon to the first remaining player short a tile.
pub open spec fn spec_remove_dead(g: GameView, idx: int) -> GameView
    decreases g.players.len() - idx,
{
    if idx < 0 || idx >= g.players.len() {
        g
    } else {
        let p = g.players[idx];
        if !g.board.players[p.board_index].last().alive {
            let remaining = g.players.remove(idx);
            let g2 = GameView {
                pile: p.hand + g.pile,
                players: remaining,
                dragon: if g.dragon == Some(p.board_index) {
                    spec_first_needy(remaining, 0)
                } else {
                    g.dragon
                },
                ..g
            };
            spec_remove_dead(g2, idx)
        } else {
            spec_remove_dead(g, idx + 1)
        }
    }
}

/// How many steps the serving walk still has before it passes the dragon
/// seat again.
pub open spec fn serve_dist(len: int, dragon_idx: int, idx: int) -> int {
    if idx < dragon_idx {
        dragon_idx - 1 - idx
    } else {
        len - 1 - idx + dragon_idx
    }
}

/// The serving walk of the dragon rule: step to the next player (wrapping
/// around), counting a lap each time the walk reaches the dragon seat
/// again, for at most three laps.  A full hand is skipped; a short hand
/// receives the top of the pile; when the pile runs out, the player being
/// served becomes the new dragon holder and the walk stops.
pub open spec fn spec_serve(g: GameView, dragon_idx: int, idx: int, num_loops: int) -> GameView
    decreases 3 - num_loops, serve_dist(g.players.len() as int, dragon_idx, idx),
{
    let len = g.players.len() as int;
    if num_loops >= 3 || len <= 0 || !(0 <= dragon_idx < len) || !(0 <= idx < len) {
        g
    } else {
        let idx2 = if idx + 1 < len {
            idx + 1
        } else {
            0
        };
        let loops2 = if idx2 == dragon_idx {
            num_loops + 1
        } else {
            num_loops
        };
        if g.players[idx2].hand.len() >= TILES_PER_PLAYER {
            spec_serve(g, dragon_idx, idx2, loops2)
        } else if g.pile.len() > 0 {
            let p2 = PlayerView {
                hand: g.players[idx2].hand.push(g.pile.last()),
                ..g.players[idx2]
            };
            spec_serve(
                GameView { pile: g.pile.drop_last(), players: g.players.update(idx2, p2), ..g },
                dragon_idx,
                idx2,
                loops2,
            )
        } else {
            GameView { dragon: Some(g.players[idx2].board_index), ..g }
        }
    }
}

/// Tile redistribution after an elimination: a no-op unless the pile holds
/// a tile and someone holds dragon status.  Otherwise the dragon holder
/// receives one tile and loses the status, and the serving walk carries on
/// from their seat.
pub open spec fn spec_distribute(g: GameView) -> GameView {
    if g.pile.len() == 0 || g.dragon is None {
        g
    } else {
        match spec_index_of_bidx(g.players, g.dragon.unwrap(), 0) {
            None => g,
            Some(dragon_idx) => {
                let p = g.players[dragon_idx];
                let p2 = PlayerView { hand: p.hand.push(g.pile.last()), ..p };
                let g2 = GameView {
                    pile: g.pile.drop_last(),
                    players: g.players.update(dragon_idx, p2),
                    dragon: None,
                    ..g
                };
                spec_serve(g2, dragon_idx, dragon_idx, 0)
            },
        }
    }
}

proof fn lemma_index_of_exists(ps: Seq<PlayerView>, b: int, i: int, w: int)
    requires
        0 <= i <= w < ps.len(),
        ps[w].board_index == b,
    ensures
        spec_index_of_bidx(ps, b, i) is Some,
    decreases w - i,
{
    if ps[i].board_index != b {
        lemma_index_of_exists(ps, b, i + 1, w);
    }
}

proof fn lemma_first_needy_found(ps: Seq<PlayerView>, i: int)
    ensures
        match spec_first_needy(ps, i) {
            None => true,
            Some(b) => exists|w: int|
                0 <= w < ps.len() && (#[trigger] ps[w]).board_index == b && ps[w].hand.len()
                    < TILES_PER_PLAYER,
        },
    decreases ps.len() - i,
{
    if i < 0 || i >= ps.len() {
    } else if ps[i].hand.len() < TILES_PER_PLAYER {
        assert(0 <= i < ps.len() && ps[i].board_index == ps[i].board_index && ps[i].hand.len()
            < TILES_PER_PLAYER);
    } else {
        lemma_first_needy_found(ps, i + 1);
    }
}


/// Placing a tile keeps the structural game invariant: the mover's new
/// hand stays within the limit and well formed, the tile count is
/// conserved, and dragon status stays consistent.
proof fn lemma_place_props(g: GameView, ti: int, facing: Direction)
    requires
        wf_game(g),
        g.players.len() > 0,
        0 <= ti < g.players[g.current].hand.len(),
    ensures
        wf_players(spec_place(g, ti, facing)),
        pile_wf(spec_place(g, ti, facing).pile),
        tiles_conserved(spec_place(g, ti, facing)),
        dragon_ok(spec_place(g, ti, facing)),
        dragon_short(spec_place(g, ti, facing)),
        spec_place(g, ti, facing).players.len() == g.players.len(),
        spec_place(g, ti, facing).current == g.current,
        spec_place(g, ti, facing).board == crate::board::spec_play_tile(
            g.board,
            g.players[g.current].board_index,
            g.players[g.current].hand[ti],
            facing,
        ),
{
    let g1 = spec_place(g, ti, facing);
    let cur = g.current;
    let mv = g.players[cur];
    let bidx = mv.board_index;
    crate::board::lemma_play_tile_placed(g.board, bidx, mv.hand[ti], facing);
    lemma_hands_total_update(g.players, cur, g1.players[cur]);
    assert(wf_players(g1)) by {
        assert(g1.board.players.len() == g.board.players.len());
        assert forall|i: int, j: int|
            0 <= i < g1.players.len() && 0 <= j < g1.players[i].hand.len() implies wf_tile(
            #[trigger] g1.players[i].hand[j],
        ) by {
            if i == cur {
                let h0 = mv.hand.remove(ti);
                if j < h0.len() {
                    if j < ti {
                        assert(h0[j] == mv.hand[j]);
                        assert(wf_tile(g.players[cur].hand[j]));
                    } else {
                        assert(h0[j] == mv.hand[j + 1]);
                        assert(wf_tile(g.players[cur].hand[j + 1]));
                    }
                } else {
                    assert(g1.players[i].hand[j] == g.pile.last());
                }
            } else {
                assert(g1.players[i] == g.players[i]);
                assert(wf_tile(g.players[i].hand[j]));
            }
        }
        assert forall|i: int| 0 <= i < g1.players.len() implies 0 <= (
        #[trigger] g1.players[i]).board_index < g1.board.players.len() && g1.players[i].hand.len()
            <= TILES_PER_PLAYER by {
            if i != cur {
                assert(g1.players[i] == g.players[i]);
            }
        }
        assert forall|i: int, j: int| 0 <= i < j < g1.players.len() implies (
        #[trigger] g1.players[i]).board_index != (#[trigger] g1.players[j]).board_index by {
            assert(g1.players[i].board_index == g.players[i].board_index);
            assert(g1.players[j].board_index == g.players[j].board_index);
        }
    }
    assert(pile_wf(g1.pile)) by {
        assert forall|i: int| 0 <= i < g1.pile.len() implies wf_tile(#[trigger] g1.pile[i]) by {
            assert(g1.pile[i] == g.pile[i]);
        }
    }
    assert(tiles_conserved(g1));
    assert(dragon_ok(g1)) by {
        match g1.dragon {
            None => {},
            Some(b) => {
                if g.dragon == Some(b) {
                    let w = choose|w: int|
                        0 <= w < g.players.len() && (#[trigger] g.players[w]).board_index == b;
                    assert(g1.players[w].board_index == b);
                } else {
                    assert(b == bidx);
                    assert(g1.players[cur].board_index == b);
                }
            },
        }
    }
    assert(dragon_short(g1)) by {
        match g1.dragon {
            None => {},
            Some(b) => {
                assert forall|i: int|
                    0 <= i < g1.players.len() && (#[trigger] g1.players[i]).board_index
                        == b implies g1.players[i].hand.len() < TILES_PER_PLAYER by {
                    if i == cur {
                        if g.pile.len() == 0 {
                            assert(g1.players[cur].hand.len() == mv.hand.len() - 1);
                        } else {
                            assert(g.dragon == Some(b));
                            assert(g.players[cur].board_index == b);
                        }
                    } else {
                        assert(g1.players[i] == g.players[i]);
                        assert(g.dragon == Some(b));
                    }
                }
            },
        }
    }
}

/// The usernames of the given players, in seating order.
pub open spec fn spec_names(ps: Seq<PlayerView>) -> Seq<Seq<char>> {
    Seq::new(ps.len(), |i: int| ps[i].username)
}

/// The tail of a turn, after placement (`g1`) and elimination (`g2`):
/// after an elimination the tiles are redistributed and the turn passes
/// to the first player seated after the mover's board index `bidx`,
/// otherwise it passes round-robin to the next player.  When elimination
/// leaves at most one player, the state is final and the turn marker
/// rests at 0.
pub open spec fn spec_conclude(g1: GameView, g2: GameView, bidx: int) -> GameView {
    if g2.players.len() != g1.players.len() {
        if g2.players.len() <= 1 {
            GameView { current: 0, ..g2 }
        } else {
            let g3 = spec_distribute(g2);
            GameView { current: spec_next_after(g3.players, bidx, 0), ..g3 }
        }
    } else {
        let len = g2.players.len() as int;
        GameView {
            current: if g2.current + 1 < len {
                g2.current + 1
            } else {
                0
            },
            ..g2
        }
    }
}

/// What the tail of a turn reports: the surviving usernames when the turn
/// ended the game, `None` while play goes on.
pub open spec fn spec_conclude_outcome(g1: GameView, g2: GameView, bidx: int) -> Option<
    Seq<Seq<char>>,
> {
    if g2.players.len() != g1.players.len() && g2.players.len() <= 1 {
        Some(spec_names(g2.players))
    } else {
        let gf = spec_conclude(g1, g2, bidx);
        if spec_is_over(gf) {
            Some(spec_names(gf.players))
        } else {
            None
        }
    }
}

/// The full state transition of one accepted turn: the mover places hand
/// tile `i` under `facing` and redraws, every newly dead player is
/// eliminated, and the turn concludes as [`spec_conclude`] says.
pub open spec fn spec_take_turn(g: GameView, i: int, facing: Direction) -> GameView {
    let g1 = spec_place(g, i, facing);
    spec_conclude(g1, spec_remove_dead(g1, 0), g.players[g.current].board_index)
}

/// What an accepted turn reports: the surviving usernames when the turn
/// ended the game, `None` while play goes on.
pub open spec fn spec_turn_outcome(g: GameView, i: int, facing: Direction) -> Option<
    Seq<Seq<char>>,
> {
    let g1 = spec_place(g, i, facing);
    spec_conclude_outcome(g1, spec_remove_dead(g1, 0), g.players[g.current].board_index)
}

proof fn lemma_remove_dead_len(g: GameView, idx: int)
    ensures
        spec_remove_dead(g, idx).players.len() <= g.players.len(),
    decreases g.players.len() - idx,
{
    if 0 <= idx < g.players.len() {
        let p = g.players[idx];
        if !g.board.players[p.board_index].last().alive {
            let remaining = g.players.remove(idx);
            let g2 = GameView {
                pile: p.hand + g.pile,
                players: remaining,
                dragon: if g.dragon == Some(p.board_index) {
                    spec_first_needy(remaining, 0)
                } else {
                    g.dragon
                },
                ..g
            };
            lemma_remove_dead_len(g2, idx);
        } else {
            lemma_remove_dead_len(g, idx + 1);
        }
    }
}

/// When the elimination scan removes nobody, it changes nothing.
proof fn lemma_remove_dead_identity(g: GameView, idx: int)
    requires
        spec_remove_dead(g, idx).players.len() == g.players.len(),
    ensures
        spec_remove_dead(g, idx) == g,
    decreases g.players.len() - idx,
{
    if 0 <= idx < g.players.len() {
        let p = g.players[idx];
        if !g.board.players[p.board_index].last().alive {
            let remaining = g.players.remove(idx);
            let g2 = GameView {
                pile: p.hand + g.pile,
                players: remaining,
                dragon: if g.dragon == Some(p.board_index) {
                    spec_first_needy(remaining, 0)
                } else {
                    g.dragon
                },
                ..g
            };
            lemma_remove_dead_len(g2, idx);
            assert(false);
        } else {
            lemma_remove_dead_identity(g, idx + 1);
        }
    }
}

/// The first index at or after `i` of a player named `name`, if any.
pub open spec fn spec_find_player(ps: Seq<PlayerView>, name: Seq<char>, i: int) -> Option<int>
    decreases ps.len() - i,
{
    if i < 0 || i >= ps.len() {
        None
    } else if ps[i].username == name {
        Some(i)
    } else {
        spec_find_player(ps, name, i + 1)
    }
}

/// A trail's score: one point per move made, plus a 1000-point offset for
/// a trail that is still alive, so that every survivor outranks every
/// eliminated player.
pub open spec fn spec_score(t: Seq<Position>) -> int {
    if t.last().alive {
        t.len() - 1 + 1000
    } else {
        t.len() - 1
    }
}

/// The game is over when at most one player is active, or the pile is
/// empty and so is the current player's hand.
pub open spec fn spec_is_over(g: GameView) -> bool {
    g.players.len() <= 1 || (g.pile.len() == 0 && g.players[g.current].hand.len() == 0)
}

impl GameManager {
    /// The player whose turn it is.
    pub fn current_player(&self) -> (r: &Player)
        requires
            wf_game(self@),
            self@.players.len() > 0,
        ensures
            r@ == self@.players[self@.current],
    {
        &self.alive_players[self.current_player_idx]
    }

    /// The current player's trail head.
    pub fn current_player_pos(&self) -> (r: Position)
        requires
            wf_game(self@),
            self@.players.len() > 0,
        ensures
            r == self@.board.players[self@.players[self@.current].board_index].last(),
    {
        let bidx = self.alive_players[self.current_player_idx].board_index;
        let n = self.board.players[bidx].len();
        self.board.players[bidx][n - 1]
    }

    /// The first still-active player with the given username, if any.
    pub fn get_player(&self, player_name: &str) -> (r: Option<&Player>)
        ensures
            match spec_find_player(self@.players, player_name@, 0) {
                Some(i) => r matches Some(p) && p@ == self@.players[i],
                None => r is None,
            },
    {
        let key: String = player_name.to_owned();
        let n = self.alive_players.len();
        let mut i: usize = 0;
        while i < n
            invariant
                i <= n,
                n == self@.players.len(),
                key@ == player_name@,
                spec_find_player(self@.players, player_name@, 0) == spec_find_player(
                    self@.players,
                    player_name@,
                    i as int,
                ),
            decreases n - i,
        {
            if self.alive_players[i].username == key {
                return Some(&self.alive_players[i]);
            }
            i += 1;
        }
        None
    }

    /// Every trail's score, in board order: the number of moves it made,
    /// plus 1000 while it is still alive.
    pub fn player_scores(&self) -> (r: Vec<i32>)
        requires
            wf_game(self@),
        ensures
            r@.len() == self@.board.players.len(),
            forall|k: int| 0 <= k < r@.len() ==> (#[trigger] r@[k]) as int == spec_score(
                self@.board.players[k],
            ),
    {
        proof {
            crate::board::lemma_placed_tiles_bound(self@.board.grid);
        }
        let n = self.board.players.len();
        let mut r: Vec<i32> = Vec::new();
        let mut k: usize = 0;
        while k < n
            invariant
                k <= n,
                n == self@.board.players.len(),
                wf_game(self@),
                placed_tiles(self@.board.grid) <= 36,
                r@.len() == k as int,
                forall|j: int| 0 <= j < k as int ==> (#[trigger] r@[j]) as int == spec_score(
                    self@.board.players[j],
                ),
            decreases n - k,
        {
            let trail = &self.board.players[k];
            proof {
                assert(trail@ == self@.board.players[k as int]);
                assert(crate::board::wf_trail(trail@));
                assert(trail@.len() <= 1 + (crate::board::MOVE_FUEL as int + 1) * placed_tiles(
                    self@.board.grid,
                ));
            }
            let len = trail.len();
            let base = (len as i32) - 1;
            let score = if trail[len - 1].alive {
                base + 1000
            } else {
                base
            };
            r.push(score);
            k += 1;
        }
        r
    }

    #[verifier::loop_isolation(false)]
    fn first_needy(&self) -> (r: Option<usize>)
        ensures
            match r {
                Some(b) => spec_first_needy(self@.players, 0) == Some(b as int),
                None => spec_first_needy(self@.players, 0) is None,
            },
    {
        let n = self.alive_players.len();
        let mut i: usize = 0;
        while i < n
            invariant
                i <= n,
                spec_first_needy(self@.players, 0) == spec_first_needy(self@.players, i as int),
            decreases n - i,
        {
            if self.alive_players[i].tiles_in_hand.len() < TILES_PER_PLAYER {
                return Some(self.alive_players[i].board_index);
            }
            i += 1;
        }
        None
    }

    /// Scan the active players and eliminate everyone whose trail head is
    /// no longer alive; returns whether anyone was eliminated.
    #[verifier::loop_isolation(false)]
    #[verifier::rlimit(60)]
    fn remove_dead_players(&mut self) -> (r: bool)
        requires
            wf_board(old(self)@.board),
            wf_players(old(self)@),
            pile_wf(old(self)@.pile),
            tiles_conserved(old(self)@),
            dragon_ok(old(self)@),
            dragon_short(old(self)@),
        ensures
            final(self)@ == spec_remove_dead(old(self)@, 0),
            r == (final(self)@.players.len() != old(self)@.players.len()),
            final(self)@.board == old(self)@.board,
            final(self)@.current == old(self)@.current,
            final(self)@.players.len() <= old(self)@.players.len(),
            wf_players(final(self)@),
            pile_wf(final(self)@.pile),
            tiles_conserved(final(self)@),
            dragon_ok(final(self)@),
            dragon_short(final(self)@),
            heads_alive(final(self)@),
    {
        let ghost g0 = self@;
        let mut newly_dead = false;
        let mut idx: usize = 0;
        while idx < self.alive_players.len()
            invariant
                idx <= self.alive_players.len(),
                spec_remove_dead(self@, idx as int) == spec_remove_dead(g0, 0),
                newly_dead == (self@.players.len() != g0.players.len()),
                self@.players.len() <= g0.players.len(),
                self@.board == g0.board,
                self@.current == g0.current,
                wf_players(self@),
                pile_wf(self@.pile),
                tiles_conserved(self@),
                dragon_ok(self@),
                dragon_short(self@),
                forall|i: int|
                    0 <= i < idx as int ==> self@.board.players[(
                    #[trigger] self@.players[i]).board_index].last().alive,
            decreases self.alive_players.len() - idx,
        {
            let ghost gmid = self@;
            let bidx = self.alive_players[idx].board_index;
            let n = self.board.players[bidx].len();
            if !self.board.players[bidx][n - 1].alive {
                newly_dead = true;
                // Remove this player from the active list.
                let mut dead = self.alive_players.remove(idx);
                // Return their hand to the bottom of the pile.
                dead.tiles_in_hand.append(&mut self.tile_stack);
                self.tile_stack = dead.tiles_in_hand;
                // A dead dragon holder passes the dragon to the first
                // remaining player who is missing tiles.
                let held_dragon = match self.dragon_player_bidx {
                    Some(b) => b == bidx,
                    None => false,
                };
                if held_dragon {
                    self.dragon_player_bidx = self.first_needy();
                }
                proof {
                    let p = gmid.players[idx as int];
                    let remaining = gmid.players.remove(idx as int);
                    let g2 = GameView {
                        pile: p.hand + gmid.pile,
                        players: remaining,
                        dragon: if gmid.dragon == Some(p.board_index) {
                            spec_first_needy(remaining, 0)
                        } else {
                            gmid.dragon
                        },
                        ..gmid
                    };
                    assert(self@.players =~= remaining);
                    assert(self@.pile =~= p.hand + gmid.pile);
                    assert(self@.dragon == g2.dragon) by {
                        if gmid.dragon == Some(p.board_index) {
                            assert(held_dragon);
                        } else {
                            match gmid.dragon {
                                None => {
                                    assert(!held_dragon);
                                },
                                Some(b) => {
                                    assert(b != p.board_index);
                                    assert(!held_dragon);
                                },
                            }
                        }
                    }
                    assert(self@ =~~= g2);
                    assert(spec_remove_dead(gmid, idx as int) == spec_remove_dead(
                        g2,
                        idx as int,
                    ));
                    lemma_hands_total_remove(gmid.players, idx as int);
                    assert(wf_players(self@)) by {
                        assert forall|i: int| 0 <= i < remaining.len() implies 0 <= (
                        #[trigger] remaining[i]).board_index < g2.board.players.len()
                            && remaining[i].hand.len() <= TILES_PER_PLAYER by {
                            if i < idx as int {
                                assert(remaining[i] == gmid.players[i]);
                            } else {
                                assert(remaining[i] == gmid.players[i + 1]);
                            }
                        }
                        assert forall|i: int, j: int| 0 <= i < j < remaining.len() implies (
                        #[trigger] remaining[i]).board_index != (
                        #[trigger] remaining[j]).board_index by {
                            let i0 = if i < idx as int { i } else { i + 1 };
                            let j0 = if j < idx as int { j } else { j + 1 };
                            assert(remaining[i] == gmid.players[i0]);
                            assert(remaining[j] == gmid.players[j0]);
                        }
                        assert forall|i: int, j: int|
                            0 <= i < remaining.len() && 0 <= j
                                < remaining[i].hand.len() implies wf_tile(
                            #[trigger] remaining[i].hand[j],
                        ) by {
                            let i0 = if i < idx as int { i } else { i + 1 };
                            assert(remaining[i] == gmid.players[i0]);
                            assert(wf_tile(gmid.players[i0].hand[j]));
                        }
                    }
                    assert(pile_wf(self@.pile)) by {
                        assert forall|i: int| 0 <= i < self@.pile.len() implies wf_tile(
                            #[trigger] self@.pile[i],
                        ) by {
                            if i < p.hand.len() {
                                assert(self@.pile[i] == p.hand[i]);
                                assert(wf_tile(gmid.players[idx as int].hand[i]));
                            } else {
                                assert(self@.pile[i] == gmid.pile[i - p.hand.len()]);
                            }
                        }
                    }
                    assert(dragon_ok(self@) && dragon_short(self@)) by {
                        match g2.dragon {
                            None => {},
                            Some(b) => {
                                if gmid.dragon == Some(p.board_index) {
                                    lemma_first_needy_found(remaining, 0);
                                    let w = choose|w: int|
                                        0 <= w < remaining.len() && (
                                        #[trigger] remaining[w]).board_index == b
                                            && remaining[w].hand.len() < TILES_PER_PLAYER;
                                    assert(dragon_ok(self@));
                                    assert forall|i: int|
                                        0 <= i < remaining.len() && (
                                        #[trigger] remaining[i]).board_index
                                            == b implies remaining[i].hand.len()
                                        < TILES_PER_PLAYER by {
                                        if i != w {
                                            assert(remaining[i].board_index
                                                != remaining[w].board_index);
                                        }
                                    }
                                } else {
                                    let w = choose|w: int|
                                        0 <= w < gmid.players.len() && (
                                        #[trigger] gmid.players[w]).board_index == b;
                                    assert(w != idx as int);
                                    let w2 = if w < idx as int { w } else { w - 1 };
                                    assert(remaining[w2] == gmid.players[w]);
                                    assert(dragon_ok(self@));
                                    assert forall|i: int|
                                        0 <= i < remaining.len() && (
                                        #[trigger] remaining[i]).board_index == b implies remaining[i].hand.len()
                                        < TILES_PER_PLAYER by {
                                        let i0 = if i < idx as int { i } else { i + 1 };
                                        assert(remaining[i] == gmid.players[i0]);
                                    }
                                }
                            },
                        }
                    }
                    assert forall|i: int| 0 <= i < idx as int implies self@.board.players[(
                    #[trigger] self@.players[i]).board_index].last().alive by {
                        assert(self@.players[i] == gmid.players[i]);
                    }
                }
            } else {
                idx += 1;
            }
        }
        proof {
            assert(spec_remove_dead(self@, idx as int) == self@);
        }
        newly_dead
    }

    #[verifier::loop_isolation(false)]
    fn index_of_bidx(&self, b: usize) -> (r: Option<usize>)
        ensures
            match r {
                Some(i) => spec_index_of_bidx(self@.players, b as int, 0) == Some(i as int) && i
                    < self@.players.len() && self@.players[i as int].board_index == b as int,
                None => spec_index_of_bidx(self@.players, b as int, 0) is None,
            },
    {
        let n = self.alive_players.len();
        let mut i: usize = 0;
        while i < n
            invariant
                i <= n,
                spec_index_of_bidx(self@.players, b as int, 0) == spec_index_of_bidx(
                    self@.players,
                    b as int,
                    i as int,
                ),
            decreases n - i,
        {
            if self.alive_players[i].board_index == b {
                return Some(i);
            }
            i += 1;
        }
        None
    }

    /// Tile redistribution after an elimination: the dragon holder, if
    /// any, receives one tile and loses the status; the serving walk then
    /// carries on from their seat, skipping full hands, until the pile
    /// runs out — whoever was being served then inherits the dragon — or
    /// the walk has gone three laps around the table.
    #[verifier::loop_isolation(false)]
    #[verifier::rlimit(100)]
    fn distribute_tiles(&mut self)
        requires
            wf_board(old(self)@.board),
            wf_players(old(self)@),
            pile_wf(old(self)@.pile),
            tiles_conserved(old(self)@),
            dragon_ok(old(self)@),
            dragon_short(old(self)@),
            heads_alive(old(self)@),
        ensures
            final(self)@ == spec_distribute(old(self)@),
            final(self)@.board == old(self)@.board,
            final(self)@.current == old(self)@.current,
            final(self)@.players.len() == old(self)@.players.len(),
            wf_players(final(self)@),
            pile_wf(final(self)@.pile),
            tiles_conserved(final(self)@),
            dragon_ok(final(self)@),
            dragon_short(final(self)@),
            heads_alive(final(self)@),
    {
        let ghost g0 = self@;
        if self.tile_stack.is_empty() {
            return;
        }
        let dbidx = match self.dragon_player_bidx {
            Some(b) => b,
            None => {
                return;
            },
        };
        let dragon_idx = match self.index_of_bidx(dbidx) {
            Some(i) => i,
            None => {
                proof {
                    let w = choose|w: int|
                        0 <= w < g0.players.len() && (#[trigger] g0.players[w]).board_index
                            == dbidx as int;
                    lemma_index_of_exists(g0.players, dbidx as int, 0, w);
                    assert(false);
                }
                return;
            },
        };
        // Feed the dragon and reset the status.
        let len = self.alive_players.len();
        let tile = match self.tile_stack.pop() {
            Some(t) => t,
            None => {
                proof {
                    assert(false);
                }
                return;
            },
        };
        let mut p = self.alive_players.remove(dragon_idx);
        p.tiles_in_hand.push(tile);
        self.alive_players.insert(dragon_idx, p);
        self.dragon_player_bidx = None;
        let ghost gfed = self@;
        proof {
            let pd = g0.players[dragon_idx as int];
            let p2 = PlayerView { hand: pd.hand.push(g0.pile.last()), ..pd };
            assert(gfed.players =~= g0.players.update(dragon_idx as int, p2));
            assert(gfed.pile =~= g0.pile.drop_last());
            assert(gfed =~~= GameView {
                pile: g0.pile.drop_last(),
                players: g0.players.update(dragon_idx as int, p2),
                dragon: None,
                ..g0
            });
            lemma_hands_total_update(g0.players, dragon_idx as int, p2);
            assert(wf_players(gfed)) by {
                assert forall|i: int, j: int|
                    0 <= i < gfed.players.len() && 0 <= j
                        < gfed.players[i].hand.len() implies wf_tile(
                    #[trigger] gfed.players[i].hand[j],
                ) by {
                    if i == dragon_idx as int && j == gfed.players[i].hand.len() - 1 {
                        assert(gfed.players[i].hand[j] == g0.pile.last());
                    } else if i == dragon_idx as int {
                        assert(gfed.players[i].hand[j] == pd.hand[j]);
                        assert(wf_tile(g0.players[dragon_idx as int].hand[j]));
                    } else {
                        assert(gfed.players[i] == g0.players[i]);
                    }
                }
            }
            assert(heads_alive(gfed)) by {
                assert forall|i: int| 0 <= i < gfed.players.len() implies gfed.board.players[(
                #[trigger] gfed.players[i]).board_index].last().alive by {
                    if i == dragon_idx as int {
                        assert(gfed.players[i].board_index == g0.players[i].board_index);
                    } else {
                        assert(gfed.players[i] == g0.players[i]);
                    }
                }
            }
        }
        // Feed any other players who need tiles, walking forward from the
        // dragon seat.
        let mut num_loops: usize = 0;
        let mut idx: usize = dragon_idx;
        #[verifier::loop_isolation(true)]
        while num_loops < 3
            invariant_except_break
                num_loops <= 3,
                len == self@.players.len(),
                len >= 1,
                dragon_idx < len,
                idx < len,
                self@.board == gfed.board,
                self@.current == gfed.current,
                self@.dragon is None,
                wf_board(self@.board),
                wf_players(self@),
                pile_wf(self@.pile),
                tiles_conserved(self@),
                heads_alive(self@),
                spec_serve(self@, dragon_idx as int, idx as int, num_loops as int) == spec_serve(
                    gfed,
                    dragon_idx as int,
                    dragon_idx as int,
                    0,
                ),
            ensures
                self@ == spec_serve(gfed, dragon_idx as int, dragon_idx as int, 0),
                len == self@.players.len(),
                self@.board == gfed.board,
                self@.current == gfed.current,
                wf_board(self@.board),
                wf_players(self@),
                pile_wf(self@.pile),
                tiles_conserved(self@),
                heads_alive(self@),
                dragon_ok(self@),
                dragon_short(self@),
            decreases 3 - num_loops, serve_dist(len as int, dragon_idx as int, idx as int),
        {
            let ghost gpre = self@;
            let ghost idx0 = idx as int;
            let ghost loops0 = num_loops as int;
            idx += 1;
            if idx >= len {
                idx = 0;
            }
            if idx == dragon_idx {
                num_loops += 1;
            }
            // Skip players with a full hand.
            if self.alive_players[idx].tiles_in_hand.len() >= TILES_PER_PLAYER {
                continue;
            }
            // Give them a tile, if possible, otherwise make them the
            // dragon holder.
            match self.tile_stack.pop() {
                Some(tile) => {
                    let mut p = self.alive_players.remove(idx);
                    p.tiles_in_hand.push(tile);
                    self.alive_players.insert(idx, p);
                    proof {
                        let ps = gpre.players[idx as int];
                        let p2 = PlayerView { hand: ps.hand.push(gpre.pile.last()), ..ps };
                        let gnext = GameView {
                            pile: gpre.pile.drop_last(),
                            players: gpre.players.update(idx as int, p2),
                            ..gpre
                        };
                        assert(self@.players =~= gpre.players.update(idx as int, p2));
                        assert(self@.pile =~= gpre.pile.drop_last());
                        assert(self@ =~~= gnext);
                        lemma_hands_total_update(gpre.players, idx as int, p2);
                        assert(wf_players(self@)) by {
                            assert forall|i: int, j: int|
                                0 <= i < self@.players.len() && 0 <= j
                                    < self@.players[i].hand.len() implies wf_tile(
                                #[trigger] self@.players[i].hand[j],
                            ) by {
                                if i == idx as int && j == self@.players[i].hand.len() - 1 {
                                    assert(self@.players[i].hand[j] == gpre.pile.last());
                                } else if i == idx as int {
                                    assert(self@.players[i].hand[j] == ps.hand[j]);
                                    assert(wf_tile(gpre.players[idx as int].hand[j]));
                                } else {
                                    assert(self@.players[i] == gpre.players[i]);
                                }
                            }
                        }
                        assert(heads_alive(self@)) by {
                            assert forall|i: int|
                                0 <= i < self@.players.len() implies self@.board.players[(
                            #[trigger] self@.players[i]).board_index].last().alive by {
                                if i == idx as int {
                                    assert(self@.players[i].board_index
                                        == gpre.players[i].board_index);
                                } else {
                                    assert(self@.players[i] == gpre.players[i]);
                                }
                            }
                        }
                        assert(spec_serve(gpre, dragon_idx as int, idx0, loops0) == spec_serve(
                            gnext,
                            dragon_idx as int,
                            idx as int,
                            num_loops as int,
                        ));
                    }
                },
                None => {
                    self.dragon_player_bidx = Some(self.alive_players[idx].board_index);
                    proof {
                        let gbrk = GameView {
                            dragon: Some(gpre.players[idx as int].board_index),
                            ..gpre
                        };
                        assert(self@ =~~= gbrk);
                        assert(spec_serve(gpre, dragon_idx as int, idx0, loops0) == gbrk);
                        assert forall|i: int|
                            0 <= i < self@.players.len() && (#[trigger] self@.players[i]).board_index
                                == gpre.players[idx as int].board_index implies self@.players[i].hand.len()
                            < TILES_PER_PLAYER by {
                            if i != idx as int {
                                assert(self@.players[i].board_index
                                    != self@.players[idx as int].board_index);
                            }
                        }
                    }
                    break;
                },
            }
        }
        proof {
            assert(final(self)@ == spec_distribute(g0));
        }
    }

    #[verifier::loop_isolation(false)]
    fn collect_names(&self) -> (r: Vec<String>)
        ensures
            r.deep_view() == spec_names(self@.players),
    {
        let n = self.alive_players.len();
        let mut r: Vec<String> = Vec::new();
        let mut i: usize = 0;
        while i < n
            invariant
                i <= n,
                r@.len() == i as int,
                forall|j: int| 0 <= j < i as int ==> (#[trigger] r@[j])@ == self@.players[j].username,
            decreases n - i,
        {
            r.push(self.alive_players[i].username.clone());
            i += 1;
        }
        proof {
            assert(r.deep_view() =~~= spec_names(self@.players));
        }
        r
    }

    #[verifier::loop_isolation(false)]
    fn first_after(&self, b: usize) -> (r: usize)
        requires
            self@.players.len() > 0,
        ensures
            r as int == spec_next_after(self@.players, b as int, 0),
            r < self@.players.len(),
    {
        let n = self.alive_players.len();
        let mut i: usize = 0;
        while i < n
            invariant
                i <= n,
                spec_next_after(self@.players, b as int, 0) == spec_next_after(
                    self@.players,
                    b as int,
                    i as int,
                ),
            decreases n - i,
        {
            if self.alive_players[i].board_index > b {
                return i;
            }
            i += 1;
        }
        0
    }

    /// One turn of the current player: play hand tile `tile_index` under
    /// `facing` into the cell ahead of their trail head, resolve all
    /// movement, redraw, eliminate every newly dead player, redistribute
    /// tiles after an elimination, and pass the turn on.  An out-of-range
    /// hand index is rejected without any change.  Returns the surviving
    /// usernames once the game is over, `None` while play goes on.
    #[verifier::rlimit(100)]
    pub fn take_turn(&mut self, tile_index: usize, facing: Direction) -> (r: Result<
        Option<Vec<String>>,
        GameError,
    >)
        requires
            wf_game(old(self)@),
            old(self)@.players.len() > 0,
        ensures
            wf_game(final(self)@),
            tile_index >= old(self)@.players[old(self)@.current].hand.len() ==> r == Err::<
                Option<Vec<String>>,
                GameError,
            >(GameError::InvalidHandIndex) && final(self)@ == old(self)@,
            tile_index < old(self)@.players[old(self)@.current].hand.len() ==> {
                &&& final(self)@ == spec_take_turn(old(self)@, tile_index as int, facing)
                &&& match r {
                    Ok(w) => match (w, spec_turn_outcome(old(self)@, tile_index as int, facing)) {
                        (Some(v), Some(ws)) => v.deep_view() == ws,
                        (None, None) => true,
                        _ => false,
                    },
                    Err(_) => false,
                }
            },
    {
        let ghost g0 = self@;
        let bidx = self.alive_players[self.current_player_idx].board_index;
        if tile_index >= self.alive_players[self.current_player_idx].tiles_in_hand.len() {
            return Err(GameError::InvalidHandIndex);
        }
        // Remove the chosen tile from the mover's hand and place it.
        let mut mover = self.alive_players.remove(self.current_player_idx);
        let tile = mover.tiles_in_hand.remove(tile_index);
        self.board.play_tile(bidx, &tile, facing);
        // Replace the played tile, if possible; an empty pile makes the
        // mover the dragon holder unless somebody already is.
        match self.tile_stack.pop() {
            Some(new_tile) => {
                mover.tiles_in_hand.push(new_tile);
            },
            None => {
                if self.dragon_player_bidx.is_none() {
                    self.dragon_player_bidx = Some(bidx);
                }
            },
        }
        self.alive_players.insert(self.current_player_idx, mover);
        let ghost g1 = spec_place(g0, tile_index as int, facing);
        proof {
            let cur = g0.current;
            let mv = g0.players[cur];
            assert(g1.players[cur].hand =~= if g0.pile.len() > 0 {
                mv.hand.remove(tile_index as int).push(g0.pile.last())
            } else {
                mv.hand.remove(tile_index as int)
            });
            assert(self@.players =~= g1.players);
            assert(self@.pile =~= g1.pile);
            assert(self@ =~~= g1);
            lemma_place_props(g0, tile_index as int, facing);
        }
        // Check for any newly-dead players.
        let newly_dead = self.remove_dead_players();
        let w = self.conclude_turn(bidx, newly_dead, Ghost(g1));
        proof {
            assert(final(self)@ == spec_take_turn(g0, tile_index as int, facing));
            assert(spec_turn_outcome(g0, tile_index as int, facing) == spec_conclude_outcome(
                g1,
                spec_remove_dead(g1, 0),
                bidx as int,
            ));
        }
        Ok(w)
    }

    /// The tail of a turn after placement and elimination: redistribute
    /// and reseat the turn marker, then report the winners when the game
    /// just ended.
    #[verifier::rlimit(100)]
    fn conclude_turn(&mut self, bidx: usize, newly_dead: bool, Ghost(g1): Ghost<GameView>) -> (r:
        Option<Vec<String>>)
        requires
            old(self)@ == spec_remove_dead(g1, 0),
            newly_dead == (old(self)@.players.len() != g1.players.len()),
            g1.players.len() > 0,
            0 <= g1.current < g1.players.len(),
            old(self)@.board == g1.board,
            old(self)@.current == g1.current,
            wf_board(old(self)@.board),
            wf_players(old(self)@),
            pile_wf(old(self)@.pile),
            tiles_conserved(old(self)@),
            dragon_ok(old(self)@),
            dragon_short(old(self)@),
            heads_alive(old(self)@),
        ensures
            wf_game(final(self)@),
            final(self)@ == spec_conclude(g1, old(self)@, bidx as int),
            match r {
                Some(v) => spec_conclude_outcome(g1, old(self)@, bidx as int) == Some(
                    v.deep_view(),
                ),
                None => spec_conclude_outcome(g1, old(self)@, bidx as int) is None,
            },
    {
        let ghost g2 = self@;
        if newly_dead {
            // Check for game over.
            if self.alive_players.len() <= 1 {
                let winners = self.collect_names();
                self.current_player_idx = 0;
                proof {
                    assert(final(self)@ =~~= GameView { current: 0, ..g2 });
                }
                return Some(winners);
            }
            // Distribute tiles starting from the dragon player.
            self.distribute_tiles();
            let ghost g3 = self@;
            // The turn passes to the first player seated after the mover.
            let ni = self.first_after(bidx);
            self.current_player_idx = ni;
            proof {
                assert(final(self)@ =~~= GameView {
                    current: spec_next_after(g3.players, bidx as int, 0),
                    ..g3
                });
                assert(final(self)@ == spec_conclude(g1, g2, bidx as int));
            }
        } else {
            proof {
                lemma_remove_dead_identity(g1, 0);
                assert(g2 == g1);
            }
            // Move to the next alive player.
            let len_now = self.alive_players.len();
            proof {
                assert(self.current_player_idx < len_now);
            }
            self.current_player_idx += 1;
            if self.current_player_idx >= len_now {
                self.current_player_idx = 0;
            }
            proof {
                assert(final(self)@ =~~= spec_conclude(g1, g2, bidx as int));
            }
        }
        proof {
            assert(wf_game(self@));
        }
        if self.is_over() {
            // All remaining players win!
            let winners = self.collect_names();
            Some(winners)
        } else {
            // Game is still going.
            None
        }
    }

    /// Whether the game has reached its terminal state.
    pub fn is_over(&self) -> (r: bool)
        requires
            wf_game(self@),
        ensures
            r == spec_is_over(self@),
    {
        if self.alive_players.len() <= 1 {
            return true;
        }
        self.tile_stack.is_empty()
            && self.alive_players[self.current_player_idx].tiles_in_hand.is_empty()
    }
}

/// Every trail's score, in board order.
pub open spec fn spec_scores(b: BoardView) -> Seq<int> {
    Seq::new(b.players.len(), |k: int| spec_score(b.players[k]))
}

/// A whole run of accepted turns, applied in order.
pub open spec fn spec_run(g: GameView, moves: Seq<(int, Direction)>) -> GameView
    decreases moves.len(),
{
    if moves.len() == 0 {
        g
    } else {
        spec_run(spec_take_turn(g, moves[0].0, moves[0].1), moves.drop_first())
    }
}

/// Determinism: `take_turn`'s contract pins the successor state as a
/// function of the current state and the chosen move alone (and a
/// rejected move leaves the state untouched), so two games that start
/// from the same shuffled pile and are fed the same sequence of
/// (hand index, facing) turns stay equal throughout — boards and scores
/// included.
pub proof fn lemma_run_deterministic(g1: GameView, g2: GameView, moves: Seq<(int, Direction)>)
    requires
        g1 == g2,
    ensures
        spec_run(g1, moves) == spec_run(g2, moves),
        spec_run(g1, moves).board == spec_run(g2, moves).board,
        spec_scores(spec_run(g1, moves).board) == spec_scores(spec_run(g2, moves).board),
{
}

} // verus!
