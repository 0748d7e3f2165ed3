use vstd::prelude::*;

use crate::shared::types::BoardSize;

verus! {

/// Server settings: the port to listen on and the board size of new sessions.
#[derive(Clone, Copy, Debug)]
pub struct Config {
    pub port: u16,
    pub board_size: BoardSize,
}

} // verus!
