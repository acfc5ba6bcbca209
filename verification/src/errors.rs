//! The two error kinds that the engine reports to its callers.

use vstd::prelude::*;

verus! {

/// A rejected request.  Both kinds are reported synchronously and leave
/// the state untouched.
#[derive(Clone, Copy, Debug, PartialEq, Eq, Structural)]
pub enum GameError {
    /// A registration position failed the perimeter / port / liveness
    /// check.
    InvalidStartPosition,
    /// A turn referenced a hand slot that does not exist.
    InvalidHandIndex,
}

impl GameError {
    /// A short description of the error.
    pub fn message(&self) -> (r: &'static str)
        ensures
            *self == GameError::InvalidStartPosition ==> r@ == "invalid starting position"@,
            *self == GameError::InvalidHandIndex ==> r@ == "invalid hand index"@,
    {
        match self {
            GameError::InvalidStartPosition => "invalid starting position",
            GameError::InvalidHandIndex => "invalid hand index",
        }
    }
}

/// A rejected lobby request; reported synchronously, leaving the lobby
/// untouched.
#[derive(Clone, Copy, Debug, PartialEq, Eq, Structural)]
pub enum LobbyError {
    /// The requested size exceeds the seat limit.
    TooManyPlayers,
    /// Somebody other than the host tried to start the game.
    NotHost,
    /// No player has picked a seat yet.
    NoPlayersReady,
    /// The requested seat number is not a legal encoding.
    InvalidSeat,
}

impl LobbyError {
    /// A short description of the error.
    pub fn message(&self) -> (r: &'static str)
        ensures
            *self == LobbyError::TooManyPlayers ==> r@ == "too many players"@,
            *self == LobbyError::NotHost ==> r@ == "only the host can start the game"@,
            *self == LobbyError::NoPlayersReady ==> r@ == "no players are ready to play"@,
            *self == LobbyError::InvalidSeat ==> r@ == "invalid seat index"@,
    {
        match self {
            LobbyError::TooManyPlayers => "too many players",
            LobbyError::NotHost => "only the host can start the game",
            LobbyError::NoPlayersReady => "no players are ready to play",
            LobbyError::InvalidSeat => "invalid seat index",
        }
    }
}

} // verus!
