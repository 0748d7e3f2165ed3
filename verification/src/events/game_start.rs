use vstd::prelude::*;

use crate::game::state::types::GameMode;
use crate::shared::types::BoardSize;

verus! {

/// A request to start a game of the given size and mode.
#[derive(Clone, Copy, Debug)]
pub struct GameStartEvent {
    pub board_size: BoardSize,
    pub mode: GameMode,
}

} // verus!
