use vstd::prelude::*;

use crate::game::state::types::{GameMove, Player};

verus! {

/// A cell whose content changed: the stone now on it, or `None` once cleared.
#[derive(Clone, Copy, Debug)]
pub struct BoardCell {
    pub x: usize,
    pub y: usize,
    pub player_id: Option<Player>,
}

/// The room event that announces a changed cell.
pub struct BoardCellEvent {}

impl From<GameMove> for BoardCell {
    fn from(m: GameMove) -> (r: BoardCell) {
        BoardCell { x: m.x, y: m.y, player_id: Some(m.player_id) }
    }
}

impl vstd::std_specs::convert::FromSpecImpl<GameMove> for BoardCell {
    open spec fn obeys_from_spec() -> bool {
        true
    }

    open spec fn from_spec(m: GameMove) -> BoardCell {
        BoardCell { x: m.x, y: m.y, player_id: Some(m.player_id) }
    }
}

} // verus!
