use vstd::prelude::*;

use crate::shared::types::BoardSize;

verus! {

/// A player's request to be matched with an opponent.
#[derive(Clone, Copy, Debug)]
pub struct FindMatchPayload {
    pub board_size: BoardSize,
}

} // verus!
