use vstd::prelude::*;

verus! {

/// The room event that announces the start of the game.
pub struct GameStartedEvent {}

} // verus!
