use vstd::prelude::*;

use crate::game::state::types::{GameState, Player};

verus! {

/// The only board side the Python AI plays on.
pub const EXPECTED_BOARD_LEN: usize = 19;

#[verifier::external_type_specification]
#[verifier::external_body]
pub struct ExIoError(std::io::Error);

#[verifier::external_type_specification]
#[verifier::external_body]
pub struct ExJsonError(serde_json::Error);

/// What the Python AI is asked: the board as codes (0 empty, 1 Black,
/// 2 White), the side it plays, and the captures so far.
#[derive(Debug)]
pub struct BridgePayload {
    pub board: Vec<Vec<u8>>,
    pub ai: Player,
    pub black_captures: usize,
    pub white_captures: usize,
    pub max_depth: Option<u32>,
    pub time_limit_ms: Option<u32>,
}

/// What the Python AI answers.
#[derive(Debug)]
pub struct BridgeResponse {
    pub ok: bool,
    pub move_: Option<(usize, usize)>,
    pub error: Option<String>,
}

/// Why asking the Python AI failed.
#[derive(Debug)]
pub enum BridgeError {
    Io(std::io::Error),
    Json(serde_json::Error),
    Protocol(String),
    UnsupportedBoardSize(usize),
}

/// The code of a cell in the payload.
pub open spec fn cell_code(c: Option<Player>) -> u8 {
    match c {
        None => 0,
        Some(Player::Black) => 1,
        Some(Player::White) => 2,
    }
}

/// The board is `EXPECTED_BOARD_LEN` rows of `EXPECTED_BOARD_LEN` cells.
pub open spec fn bridge_board_ok(board: Seq<Vec<Option<Player>>>) -> bool {
    board.len() == EXPECTED_BOARD_LEN && forall|y: int|
        0 <= y < board.len() ==> (#[trigger] board[y])@.len() == board.len()
}

/// The message reported when the AI fails without saying why.
pub open spec fn unknown_bridge_error() -> Seq<char> {
    "unknown bridge error"@
}

impl BridgePayload {
    /// The payload for asking a move of `ai` in `state`; refused unless the
    /// board is `EXPECTED_BOARD_LEN` × `EXPECTED_BOARD_LEN`.
    pub fn from_game_state(state: &GameState, ai: Player) -> (r: Result<Self, BridgeError>)
        ensures
            !bridge_board_ok(state.board@) ==> (r matches Err(BridgeError::UnsupportedBoardSize(
                n,
            )) && n == state.board.len()),
            bridge_board_ok(state.board@) ==> (r matches Ok(p) && {
                &&& p.board@.len() == state.board.len()
                &&& forall|y: int|
                    0 <= y < p.board@.len() ==> (#[trigger] p.board@[y])@.len() == state.board@[y]@.len()
                        && forall|x: int|
                        0 <= x < p.board@[y]@.len() ==> p.board@[y]@[x] == cell_code(
                            state.board@[y]@[x],
                        )
                &&& p.ai == ai
                &&& p.black_captures == state.captures.count_of(Player::Black)
                &&& p.white_captures == state.captures.count_of(Player::White)
                &&& p.max_depth is None
                &&& p.time_limit_ms is None
            }),
    {
        let n = state.board.len();
        if n != EXPECTED_BOARD_LEN {
            return Err(BridgeError::UnsupportedBoardSize(n));
        }
        let mut k: usize = 0;
        while k < n
            invariant
                n == state.board.len(),
                k <= n,
                forall|y: int| 0 <= y < k ==> (#[trigger] state.board@[y])@.len() == n,
            decreases n - k,
        {
            if state.board[k].len() != n {
                return Err(BridgeError::UnsupportedBoardSize(n));
            }
            k += 1;
        }
        let mut board: Vec<Vec<u8>> = Vec::new();
        let mut y: usize = 0;
        while y < n
            invariant
                n == state.board.len(),
                y <= n,
                bridge_board_ok(state.board@),
                board@.len() == y,
                forall|i: int|
                    0 <= i < y ==> (#[trigger] board@[i])@.len() == state.board@[i]@.len() && forall|
                        x: int,
                    |
                        0 <= x < board@[i]@.len() ==> board@[i]@[x] == cell_code(
                            state.board@[i]@[x],
                        ),
            decreases n - y,
        {
            let row = &state.board[y];
            let mut codes: Vec<u8> = Vec::new();
            let mut x: usize = 0;
            while x < row.len()
                invariant
                    x <= row.len(),
                    codes@.len() == x,
                    forall|j: int| 0 <= j < x ==> codes@[j] == cell_code(#[trigger] row@[j]),
                decreases row.len() - x,
            {
                let code: u8 = match row[x] {
                    None => 0,
                    Some(Player::Black) => 1,
                    Some(Player::White) => 2,
                };
                codes.push(code);
                x += 1;
            }
            board.push(codes);
            y += 1;
        }
        let black_captures = state.captures.count(Player::Black);
        let white_captures = state.captures.count(Player::White);
        Ok(BridgePayload {
            board,
            ai,
            black_captures,
            white_captures,
            max_depth: None,
            time_limit_ms: None,
        })
    }

    /// Refuses a payload whose board does not have `EXPECTED_BOARD_LEN` rows.
    pub fn check_board_len(&self) -> (r: Result<(), BridgeError>)
        ensures
            self.board@.len() == EXPECTED_BOARD_LEN ==> r is Ok,
            self.board@.len() != EXPECTED_BOARD_LEN ==> (r matches Err(
                BridgeError::UnsupportedBoardSize(n),
            ) && n == self.board.len()),
    {
        if self.board.len() != EXPECTED_BOARD_LEN {
            return Err(BridgeError::UnsupportedBoardSize(self.board.len()));
        }
        Ok(())
    }
}

impl BridgeResponse {
    /// The move the AI answered, or its error (with a default message when
    /// it gave none).
    pub fn into_result(self) -> (r: Result<Option<(usize, usize)>, BridgeError>)
        ensures
            self.ok ==> r == Ok::<Option<(usize, usize)>, BridgeError>(self.move_),
            !self.ok && self.error is Some ==> (r matches Err(BridgeError::Protocol(msg)) && msg@
                == self.error.unwrap()@),
            !self.ok && self.error is None ==> (r matches Err(BridgeError::Protocol(msg)) && msg@
                == unknown_bridge_error()),
    {
        if !self.ok {
            let msg = match self.error {
                Some(e) => e,
                None => "unknown bridge error".to_owned(),
            };
            return Err(BridgeError::Protocol(msg));
        }
        Ok(self.move_)
    }
}

} // verus!
