use vstd::prelude::*;

verus! {

/// Why a game action was refused.
#[derive(Clone, Copy, Debug, PartialEq, Eq, Structural)]
pub enum GameError {
    /// The game has already finished.
    GameFinished,
    /// The move lies outside the board.
    OutOfBounds,
    /// The cell already holds a stone.
    CellOccupied,
    /// There is no move left to take back.
    NoMovesToUndo,
    /// The session has no room.
    NoActiveRoom,
    /// In a game against the AI it is the AI's turn.
    WaitingForAi,
    /// Moves cannot be entered by hand when the AI plays both sides.
    ManualMoveInEve,
    /// A hint was asked for a game that is not under way.
    HintGameNotOngoing,
}

/// How a refusal is classed when it is reported.
#[derive(Clone, Copy, Debug, PartialEq, Eq, Structural)]
pub enum GameErrorKind {
    /// The request is not valid on this board.
    InvalidInput,
    /// The session has nothing to act on.
    NotFound,
    /// Any other refusal.
    Other,
}

/// The message a refusal is reported with.
pub open spec fn error_message(e: GameError) -> Seq<char> {
    match e {
        GameError::GameFinished => "Cannot apply move: Game has already finished"@,
        GameError::OutOfBounds => "Move is out of bounds"@,
        GameError::CellOccupied => "Cell is already occupied"@,
        GameError::NoMovesToUndo => "No moves to undo"@,
        GameError::NoActiveRoom => "No active room found"@,
        GameError::WaitingForAi => "Waiting for the AI move"@,
        GameError::ManualMoveInEve => "Cannot make manual moves in EvE mode"@,
        GameError::HintGameNotOngoing => "Cannot request hint: game is not ongoing"@,
    }
}

/// The class a refusal is reported with.
pub open spec fn error_kind(e: GameError) -> GameErrorKind {
    match e {
        GameError::GameFinished => GameErrorKind::Other,
        GameError::OutOfBounds => GameErrorKind::InvalidInput,
        GameError::CellOccupied => GameErrorKind::InvalidInput,
        GameError::NoMovesToUndo => GameErrorKind::Other,
        GameError::NoActiveRoom => GameErrorKind::NotFound,
        GameError::WaitingForAi => GameErrorKind::Other,
        GameError::ManualMoveInEve => GameErrorKind::Other,
        GameError::HintGameNotOngoing => GameErrorKind::Other,
    }
}

impl GameError {
    /// The message the refusal is reported with.
    pub fn message(&self) -> (r: String)
        ensures
            r@ == error_message(*self),
    {
        match self {
            GameError::GameFinished => "Cannot apply move: Game has already finished".to_owned(),
            GameError::OutOfBounds => "Move is out of bounds".to_owned(),
            GameError::CellOccupied => "Cell is already occupied".to_owned(),
            GameError::NoMovesToUndo => "No moves to undo".to_owned(),
            GameError::NoActiveRoom => "No active room found".to_owned(),
            GameError::WaitingForAi => "Waiting for the AI move".to_owned(),
            GameError::ManualMoveInEve => "Cannot make manual moves in EvE mode".to_owned(),
            GameError::HintGameNotOngoing => "Cannot request hint: game is not ongoing".to_owned(),
        }
    }

    /// The class the refusal is reported with.
    pub fn kind(&self) -> (r: GameErrorKind)
        ensures
            r == error_kind(*self),
    {
        match self {
            GameError::GameFinished => GameErrorKind::Other,
            GameError::OutOfBounds => GameErrorKind::InvalidInput,
            GameError::CellOccupied => GameErrorKind::InvalidInput,
            GameError::NoMovesToUndo => GameErrorKind::Other,
            GameError::NoActiveRoom => GameErrorKind::NotFound,
            GameError::WaitingForAi => GameErrorKind::Other,
            GameError::ManualMoveInEve => GameErrorKind::Other,
            GameError::HintGameNotOngoing => GameErrorKind::Other,
        }
    }
}

} // verus!
