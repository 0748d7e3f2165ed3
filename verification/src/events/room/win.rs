use vstd::prelude::*;

verus! {

/// The room event that announces a win.
pub struct GameWinEvent {}

} // verus!
