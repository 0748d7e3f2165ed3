use vstd::prelude::*;

verus! {

/// A request to take back the last move.
#[derive(Clone, Copy, Debug)]
pub struct UndoEvent {}

} // verus!
