use vstd::prelude::*;

pub mod state;
pub mod turn;
pub mod types;

pub use types::{GameMove, GameStatus, Player};

use crate::game::state::state::current_player;
use crate::game::state::types::GameState;

verus! {

/// The player to move in `state`: the opponent of the last mover, Black
/// at the start.
pub fn get_current_player(state: &GameState) -> (r: Option<Player>)
    ensures
        r == Some(current_player(state.history@)),
{
    Some(state.get_current_player())
}

} // verus!
