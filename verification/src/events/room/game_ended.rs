use vstd::prelude::*;

verus! {

/// The room event that announces the end of the game.
pub struct GameEndedEvent {}

} // verus!
