use vstd::prelude::*;

use crate::game::state::types::{GameState, GameTurn, Player};

verus! {

/// The turn announced to a room, with the captures of both sides.
#[derive(Debug)]
pub struct GameTurnPayload {
    pub turn: GameTurn,
    pub black_captures: usize,
    pub white_captures: usize,
}

/// The room event that announces whose turn it is.
pub struct GameTurnEvent {}

impl GameTurnPayload {
    /// The current turn of `state` and the pairs each side has captured.
    pub fn from_state(state: &GameState) -> (r: Self)
        ensures
            r.turn.current_player == state.turn.current_player,
            r.turn.turn == state.turn.turn,
            r.turn.forbidden_sequences@ == state.turn.forbidden_sequences@,
            r.black_captures == state.captures.count_of(Player::Black),
            r.white_captures == state.captures.count_of(Player::White),
    {
        let black_captures = state.captures.count(Player::Black);
        let white_captures = state.captures.count(Player::White);
        GameTurnPayload { turn: state.turn.clone(), black_captures, white_captures }
    }
}

} // verus!
