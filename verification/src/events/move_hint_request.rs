use vstd::prelude::*;

verus! {

/// A request for a suggested move for the player to move.
#[derive(Clone, Copy, Debug)]
pub struct MoveHintRequestEvent {}

} // verus!
