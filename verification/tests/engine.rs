//! The engine's own test suite: ports, boards, lobbies and the catalog.

use strecke::agent::follow_path;
use strecke::board::{edge_position, Board, Position};
use strecke::lobby::{generate_lobby_code, Lobby};
use strecke::tiles::{all_tiles, Direction, Port};

#[test]
fn test_is_valid_start() {
    assert!(
        Position {
            row: -1,
            col: 2,
            port: Port::E,
            alive: true
        }
        .is_valid_start()
    );
}

#[test]
fn test_default_board() {
    let b = Board::default();
    assert!(b.grid[0][0].is_none());
}

#[test]
fn test_add_players() {
    let mut b = Board::default();
    assert_eq!(b.players.len(), 0);
    assert_eq!(
        b.add_player(Position {
            row: 1,
            col: -1,
            port: Port::D,
            alive: true,
        }),
        Ok(0)
    );
    assert_eq!(b.players.len(), 1);
    assert_eq!(b.players[0].len(), 1);
    assert_eq!(b.players[0][0].port, Port::D);
}

#[test]
fn test_make_code() {
    let code = generate_lobby_code();
    let escaped: String =
        code.chars().map(|c| c.escape_debug().to_string()).collect();
    assert_eq!(code.len(), 4);
    assert!(
        code.chars().all(|c| c.is_ascii_uppercase()),
        "code = '{}'",
        escaped
    );
}

#[test]
fn test_solo_lobby() {
    let x = Lobby::new("Bob".to_owned());
    assert_eq!(x.player_names(), Vec::<String>::new());
}

#[test]
fn test_edge_position() {
    for pos in 0..48 {
        let board_pos = edge_position(pos);
        assert!(
            board_pos.is_valid_start(),
            "pos = {}, board_pos = {:?}",
            pos,
            board_pos
        );
    }
    assert_eq!(
        edge_position(0),
        Position {
            row: -1,
            col: 0,
            port: Port::F,
            alive: true
        }
    );
    assert_eq!(
        edge_position(1),
        Position {
            row: -1,
            col: 0,
            port: Port::E,
            alive: true
        }
    );
    assert_eq!(
        edge_position(2),
        Position {
            row: -1,
            col: 1,
            port: Port::F,
            alive: true
        }
    );
    assert_eq!(
        edge_position(24),
        Position {
            row: 6,
            col: 5,
            port: Port::B,
            alive: true
        }
    );
    assert_eq!(
        edge_position(35),
        Position {
            row: 6,
            col: 0,
            port: Port::A,
            alive: true
        }
    );
}

#[test]
fn test_all_tiles() {
    assert_eq!(all_tiles().len(), 35);
}

#[test]
fn test_follow_path_basic() {
    let board = Board::default();
    let start_pos = Position {
        row: 6,
        col: 0,
        port: Port::A,
        alive: true,
    };
    let played_tile = all_tiles()[27];
    let dir = Direction::North;
    let end_pos = follow_path(&board, &start_pos, &played_tile, dir);
    assert!(!end_pos.alive);
    assert_eq!(end_pos.row, 5);
    assert_eq!(end_pos.col, -1);
    assert_eq!(end_pos.port, Port::C);
}
