//! Cross-cutting checks: tile conservation, trail liveness, traversal
//! consistency, determinism, and the turn state machine's edge cases.

use strecke::agent::{follow_path, Agent, AvoidSuddenDeathAgent};
use strecke::board::{edge_position, Board, Position};
use strecke::errors::{GameError, LobbyError};
use strecke::game::{GameManager, Player};
use strecke::lobby::Lobby;
use strecke::tiles::{all_tiles, Direction, Port};

fn placed_count(b: &Board) -> usize {
    b.grid
        .iter()
        .map(|row| row.iter().filter(|c| c.is_some()).count())
        .sum()
}

fn hands_count(g: &GameManager) -> usize {
    g.alive_players
        .iter()
        .map(|p| p.tiles_in_hand.len())
        .sum()
}

fn seeded_two_player_game(seed: u64) -> GameManager {
    let mut g = GameManager::new(seed);
    g.register_player("alice".to_string(), edge_position(0)).unwrap();
    g.register_player("bob".to_string(), edge_position(24)).unwrap();
    g
}

fn play_to_end(seed: u64, cap: usize) -> (GameManager, Option<Vec<String>>, usize) {
    let mut g = seeded_two_player_game(seed);
    let agent = AvoidSuddenDeathAgent;
    let mut turns: usize = 0;
    let mut outcome: Option<Vec<String>> = None;
    while turns < cap {
        // Tile conservation must hold in every reachable state.
        assert_eq!(
            hands_count(&g) + g.tiles_remaining() + placed_count(&g.board),
            35
        );
        if g.is_over() {
            break;
        }
        let (idx, facing) = agent.choose_action(&g);
        turns += 1;
        match g.take_turn(idx, facing) {
            Ok(Some(winners)) => {
                outcome = Some(winners);
                break;
            }
            Ok(None) => {}
            Err(e) => panic!("unexpected error: {:?}", e),
        }
    }
    (g, outcome, turns)
}

#[test]
fn tiles_are_conserved_through_a_whole_game() {
    let (g, _, turns) = play_to_end(11, 200);
    assert!(turns > 0);
    assert_eq!(
        hands_count(&g) + g.tiles_remaining() + placed_count(&g.board),
        35
    );
}

#[test]
fn alive_flags_are_monotone_per_trail() {
    let (g, _, _) = play_to_end(3, 200);
    for trail in &g.board.players {
        let mut seen_dead = false;
        for pos in trail {
            if seen_dead {
                assert!(!pos.alive);
            }
            if !pos.alive {
                seen_dead = true;
            }
        }
    }
}

#[test]
fn traverse_is_consistent_across_an_edge() {
    // The first catalog tile's matching commutes with the edge flip, so
    // entering any of its connections from either side is consistent.
    let tile = all_tiles()[0];
    let ports = [
        Port::A,
        Port::B,
        Port::C,
        Port::D,
        Port::E,
        Port::F,
        Port::G,
        Port::H,
    ];
    for facing in Direction::all() {
        for entry in ports {
            let exit = tile.traverse(entry, facing);
            assert_eq!(tile.traverse(exit.flip(), facing), entry.flip());
        }
    }
}

#[test]
fn traverse_exact_values() {
    // Catalog tile 0 links A-E, B-F, C-H and D-G in its own frame.
    let tile = all_tiles()[0];
    assert_eq!(tile.traverse(Port::A, Direction::North), Port::E);
    assert_eq!(tile.traverse(Port::E, Direction::North), Port::A);
    assert_eq!(tile.traverse(Port::C, Direction::North), Port::H);
    // Rotated a quarter turn, the same physical path connects A to F.
    assert_eq!(tile.traverse(Port::A, Direction::East), Port::F);
}

#[test]
fn identical_runs_are_identical() {
    let (g1, w1, t1) = play_to_end(1234, 200);
    let (g2, w2, t2) = play_to_end(1234, 200);
    assert_eq!(t1, t2);
    assert_eq!(w1, w2);
    assert_eq!(g1.board, g2.board);
    assert_eq!(g1.player_scores(), g2.player_scores());
}

#[test]
fn registration_deals_three_tiles_each() {
    let g = seeded_two_player_game(5);
    assert_eq!(g.tiles_remaining(), 29);
    assert_eq!(g.alive_players[0].tiles_in_hand.len(), 3);
    assert_eq!(g.alive_players[1].tiles_in_hand.len(), 3);
}

#[test]
fn a_turn_draws_one_replacement_tile() {
    let mut g = seeded_two_player_game(5);
    assert_eq!(g.tiles_remaining(), 29);
    // Pick a move whose preview survives, so that nobody is eliminated
    // and no hand is returned to the pile.
    let my_pos = *g.board.players[g.alive_players[0].board_index].last().unwrap();
    let mut choice = None;
    for (i, tile) in g.alive_players[0].tiles_in_hand.iter().enumerate() {
        for dir in Direction::all() {
            if follow_path(&g.board, &my_pos, tile, dir).alive {
                choice = Some((i, dir));
                break;
            }
        }
        if choice.is_some() {
            break;
        }
    }
    let (i, dir) = choice.expect("no safe opening move in this hand");
    assert_eq!(g.take_turn(i, dir), Ok(None));
    assert_eq!(g.tiles_remaining(), 28);
}

#[test]
fn lethal_turn_kills_and_crowns_the_survivor_in_the_same_call() {
    let tiles = all_tiles();
    let mut board = Board::default();
    board.add_player(edge_position(0)).unwrap(); // (-1, 0, F): faces cell (0, 0)
    board.add_player(edge_position(24)).unwrap(); // (6, 5, B)
    let mut g = GameManager {
        board,
        tile_stack: Vec::new(),
        alive_players: vec![
            Player {
                username: "alice".to_string(),
                board_index: 0,
                // Tile 22 links A-B: entering at A from the rim leaves at
                // B, which faces straight off the board.
                tiles_in_hand: vec![tiles[22]],
            },
            Player {
                username: "bob".to_string(),
                board_index: 1,
                tiles_in_hand: vec![tiles[0]],
            },
        ],
        current_player_idx: 0,
        dragon_player_bidx: None,
    };
    let r = g.take_turn(0, Direction::North);
    // The mover's trail dies within the same call ...
    assert!(!g.board.players[0].last().unwrap().alive);
    // ... and the lone survivor is announced at once.
    assert_eq!(r, Ok(Some(vec!["bob".to_string()])));
    assert_eq!(g.alive_players.len(), 1);
}

#[test]
fn scores_offset_survivors_by_a_thousand() {
    let tiles = all_tiles();
    let mut board = Board::default();
    board.add_player(edge_position(0)).unwrap();
    board.add_player(edge_position(24)).unwrap();
    let mut g = GameManager {
        board,
        tile_stack: Vec::new(),
        alive_players: vec![
            Player {
                username: "alice".to_string(),
                board_index: 0,
                tiles_in_hand: vec![tiles[22]],
            },
            Player {
                username: "bob".to_string(),
                board_index: 1,
                tiles_in_hand: vec![tiles[0]],
            },
        ],
        current_player_idx: 0,
        dragon_player_bidx: None,
    };
    g.take_turn(0, Direction::North).unwrap();
    // alice moved twice and died: 3 positions, score length - 1 = 2.
    // bob never moved and lives: score (1 - 1) + 1000.
    assert_eq!(g.player_scores(), vec![2, 1000]);
}

#[test]
fn empty_pile_makes_the_mover_the_dragon_holder() {
    let tiles = all_tiles();
    let mut board = Board::default();
    board.add_player(edge_position(0)).unwrap();
    board.add_player(edge_position(24)).unwrap();
    let mut g = GameManager {
        board,
        tile_stack: Vec::new(),
        alive_players: vec![
            Player {
                username: "alice".to_string(),
                board_index: 0,
                // Tile 0 links A-E: entering at A leaves at E, heading
                // further into the board; the mover survives.
                tiles_in_hand: vec![tiles[0]],
            },
            Player {
                username: "bob".to_string(),
                board_index: 1,
                tiles_in_hand: vec![tiles[0]],
            },
        ],
        current_player_idx: 0,
        dragon_player_bidx: None,
    };
    assert_eq!(g.take_turn(0, Direction::North), Ok(None));
    assert_eq!(g.dragon_player_bidx, Some(0));
    assert_eq!(g.current_player_idx, 1);
}

#[test]
fn invalid_start_position_is_rejected() {
    let mut g = GameManager::new(9);
    let r = g.register_player(
        "eve".to_string(),
        Position {
            row: 3,
            col: 3,
            port: Port::A,
            alive: true,
        },
    );
    assert_eq!(r, Err(GameError::InvalidStartPosition));
    assert_eq!(g.alive_players.len(), 0);
}

#[test]
fn invalid_hand_index_is_rejected_without_mutation() {
    let mut g1 = seeded_two_player_game(21);
    let g2 = seeded_two_player_game(21);
    assert_eq!(g1.take_turn(99, Direction::West), Err(GameError::InvalidHandIndex));
    assert_eq!(g1, g2);
}

#[test]
fn shuffle_keeps_exactly_the_catalog_tiles() {
    let g = GameManager::new(77);
    let catalog = all_tiles();
    assert_eq!(g.tile_stack.len(), 35);
    for t in &catalog {
        assert_eq!(g.tile_stack.iter().filter(|x| *x == t).count(), 1);
    }
    // A seeded shuffle that handed the catalog back unchanged would be
    // caught here.
    assert_ne!(g.tile_stack, catalog);
}

#[test]
fn lobby_seats_and_checks() {
    let mut l = Lobby::new("Ann".to_string());
    assert_eq!(l.host().as_str(), "Ann");
    assert_eq!(l.resize(12), Err(LobbyError::TooManyPlayers));
    assert_eq!(l.resize(3), Ok(()));
    assert_eq!(l.run_pregame_checks("Ann"), Err(LobbyError::NoPlayersReady));
    assert_eq!(l.take_seat(49, "Ann".to_string()), Err(LobbyError::InvalidSeat));
    assert_eq!(l.take_seat(5, "Ann".to_string()), Ok(()));
    assert_eq!(l.names.len(), 1);
    assert_eq!(l.take_seat(2, "Ben".to_string()), Ok(()));
    assert_eq!(l.names.len(), 2);
    assert_eq!(l.run_pregame_checks("Ben"), Err(LobbyError::NotHost));
    assert_eq!(l.run_pregame_checks("Ann"), Ok(()));
    assert_eq!(l.player_names(), vec!["Ann".to_string(), "Ben".to_string()]);
}

#[test]
fn getters_follow_the_turn_order() {
    let g = seeded_two_player_game(13);
    assert_eq!(g.current_player().username, "alice");
    assert_eq!(g.current_player_pos(), edge_position(0));
    assert_eq!(g.get_player("bob").unwrap().board_index, 1);
    assert!(g.get_player("carol").is_none());
    assert!(!g.is_over());
}

#[test]
fn error_messages_name_the_rejection() {
    assert_eq!(
        GameError::InvalidStartPosition.message(),
        "invalid starting position"
    );
    assert_eq!(GameError::InvalidHandIndex.message(), "invalid hand index");
    assert_eq!(LobbyError::NotHost.message(), "only the host can start the game");
}

#[test]
fn resize_drops_the_latest_arrivals() {
    let mut l = Lobby::new("Ann".to_string());
    l.resize(4).unwrap();
    l.take_seat(2, "Ben".to_string()).unwrap();
    l.take_seat(4, "Cyd".to_string()).unwrap();
    assert_eq!(l.names.len(), 3);
    l.resize(2).unwrap();
    assert_eq!(l.names, vec!["Ann".to_string(), "Ben".to_string()]);
    assert_eq!(l.start_positions.len(), 2);
}

#[test]
fn prepare_for_game_sorts_and_fills_with_agents() {
    let mut l = Lobby::new("Ann".to_string());
    l.resize(3).unwrap();
    l.take_seat(5, "Ann".to_string()).unwrap();
    l.take_seat(2, "Ben".to_string()).unwrap();
    l.prepare_for_game();
    assert_eq!(l.names.len(), 3);
    assert_eq!(l.start_positions.len(), 3);
    // Seated players come first, in ascending seat order.
    assert_eq!(l.names[0], "Ben");
    assert_eq!(l.start_positions[0], 2);
    assert_eq!(l.names[1], "Ann");
    assert_eq!(l.start_positions[1], 5);
    // The filled seat is a fresh one.
    assert!(l.start_positions[2] >= 0 && l.start_positions[2] < 48);
    assert_ne!(l.start_positions[2], 2);
    assert_ne!(l.start_positions[2], 5);
    let seated = l.into_seated_players();
    assert_eq!(seated.len(), 3);
    assert_eq!(seated[0].0, "Ben");
    assert_eq!(seated[0].1, edge_position(2));
}
