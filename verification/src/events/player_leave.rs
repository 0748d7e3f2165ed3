use vstd::prelude::*;

verus! {

/// A player leaving the game.
#[derive(Clone, Copy, Debug)]
pub struct PlayerLeaveEvent {}

} // verus!
