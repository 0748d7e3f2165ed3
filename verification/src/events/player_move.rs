use vstd::prelude::*;

use crate::game::state::types::GameMove;

verus! {

/// A move entered by a player.
#[derive(Clone, Copy, Debug)]
pub struct PlayerMoveEvent {
    pub _move: GameMove,
}

} // verus!
