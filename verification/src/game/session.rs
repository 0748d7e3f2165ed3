use vstd::prelude::*;

use crate::events::room::board::BoardCell;
use crate::game::capture::lemma_capture_found;
use crate::game::room::Room;
use crate::game::state::state::{current_player, played, rewound, undo_cells, winner_of};
use crate::game::state::turn::is_forbidden_list;
use crate::game::state::types::{GameMode, GameMove, GameState, GameStatus, Player};
use crate::game::win::{copy_cells, opt_win_view, Win};
use crate::shared::error::GameError;
use crate::shared::types::{cell, empty_grid, grid, BoardSize};

verus! {

/// One game instance and its room.
#[derive(Debug)]
pub struct GameSession {
    /// Current state of the game session.
    pub state: GameState,
    /// Room associated with the game session.
    pub room: Room,
    /// Game mode (PvP, PvE, EvE).
    pub mode: GameMode,
    /// Whether the background EvE loop is currently running.
    pub eve_loop_running: bool,
}

/// What a played move changed, for the players to be told.
#[derive(Debug)]
pub struct MoveReport {
    /// The move as played.
    pub game_move: GameMove,
    /// The cells whose stones it captured.
    pub captured: Vec<(usize, usize)>,
    /// The unflanked win it brought, if any.
    pub winner: Option<Win>,
    /// The game is over and the session has ended it.
    pub game_over: bool,
}

impl Default for GameSession {
    fn default() -> (r: Self)
        ensures
            r.wf(),
            r.state.board.len() == 10,
            r.mode == GameMode::PvP,
            !r.eve_loop_running,
            r.room.id@.len() == 0,
    {
        Self::new(10)
    }
}

/// The outcome of playing (x, y) in session `s0`, leading to session `s1`
/// with result `r`: the errors of `GameState::apply_move`, each leaving the
/// session unchanged; otherwise the move is evaluated and committed, and a
/// won game is ended.
pub open spec fn move_played(
    old_s: GameSession,
    new_s: GameSession,
    x: usize,
    y: usize,
    r: Result<MoveReport, GameError>,
) -> bool {
    let s0 = old_s.state;
    let s1 = new_s.state;
    let n = s0.board.len();
    let m = GameMove { x, y, player_id: current_player(s0.history@) };
    &&& new_s.wf()
    &&& new_s.mode == old_s.mode
    &&& s0.status == GameStatus::Finished ==> r == Err::<MoveReport, GameError>(
        GameError::GameFinished,
    )
    &&& s0.status != GameStatus::Finished && (x >= n || y >= n) ==> r == Err::<MoveReport, GameError>(
        GameError::OutOfBounds,
    )
    &&& s0.status != GameStatus::Finished && x < n && y < n && cell(
        grid(&s0.board),
        x as int,
        y as int,
    ) is Some ==> r == Err::<MoveReport, GameError>(GameError::CellOccupied)
    &&& s0.status != GameStatus::Finished && x < n && y < n && cell(
        grid(&s0.board),
        x as int,
        y as int,
    ) is None ==> r is Ok
    &&& r is Err ==> new_s == old_s
    &&& r matches Ok(rep) ==> {
        let res = s1.history@.last();
        &&& s1.history@ == s0.history@.push(res)
        &&& s0.is_evaluation(m, res)
        &&& grid(&s1.board) == played(grid(&s0.board), res)
        &&& s1.turn.turn == s0.turn.turn + 1
        &&& s1.turn.current_player == m.player_id.spec_opponent()
        &&& is_forbidden_list(grid(&s1.board), s1.turn.current_player, s1.turn.forbidden_sequences@)
        &&& rep.game_move == m
        &&& rep.captured@ == match res.capture {
            Some(c) => c.seq@,
            None => Seq::empty(),
        }
        &&& opt_win_view(rep.winner) == winner_of(res)
        &&& rep.game_over == (winner_of(res) is Some)
        &&& s1.status == (if rep.game_over {
            GameStatus::Finished
        } else {
            GameStatus::Ongoing
        })
        &&& rep.game_over ==> new_s.room.id@.len() == 0 && !new_s.eve_loop_running
        &&& !rep.game_over ==> new_s.room == old_s.room && new_s.eve_loop_running
            == old_s.eve_loop_running
    }
}

impl GameSession {
    pub open spec fn wf(&self) -> bool {
        self.state.wf()
    }

    /// An ongoing EvE game with a room whose loop is not running yet.
    pub open spec fn eve_can_start(&self) -> bool {
        self.mode == GameMode::EvE && self.state.status == GameStatus::Ongoing && self.room.id@.len()
            > 0 && !self.eve_loop_running
    }

    /// A new session on an empty board, in PvP mode, without a room.
    pub fn new(board_size: BoardSize) -> (r: Self)
        ensures
            r.wf(),
            grid(&r.state.board) == empty_grid(board_size as nat),
            r.state.board.len() == board_size,
            r.state.history@.len() == 0,
            r.state.turn.current_player == Player::Black,
            r.state.turn.turn == 0,
            r.state.turn.forbidden_sequences@.len() == 0,
            r.state.status == GameStatus::Ongoing,
            r.mode == GameMode::PvP,
            !r.eve_loop_running,
            r.room.id@.len() == 0,
    {
        GameSession {
            state: GameState::new(board_size),
            room: Room::default(),
            mode: GameMode::PvP,
            eve_loop_running: false,
        }
    }

    fn get_active_room(&self) -> (r: Result<&Room, GameError>)
        ensures
            self.room.id@.len() > 0 ==> r == Ok::<&Room, GameError>(&self.room),
            self.room.id@.len() == 0 ==> r == Err::<&Room, GameError>(GameError::NoActiveRoom),
    {
        if self.room.has_room() {
            Ok(&self.room)
        } else {
            Err(GameError::NoActiveRoom)
        }
    }

    /// Starts the EvE loop, unless it runs already or the session is not an
    /// ongoing EvE game with a room; returns whether it was started.
    pub fn begin_eve_loop(&mut self) -> (r: bool)
        ensures
            r == old(self).eve_can_start(),
            final(self).eve_loop_running == (old(self).eve_loop_running || r),
            final(self).state == old(self).state,
            final(self).room == old(self).room,
            final(self).mode == old(self).mode,
    {
        if self.mode != GameMode::EvE || self.state.status != GameStatus::Ongoing
            || !self.room.has_room() || self.eve_loop_running {
            return false;
        }
        self.eve_loop_running = true;
        true
    }

    /// The EvE loop should play another move.
    pub fn should_continue_eve(&self) -> (r: bool)
        ensures
            r == (self.eve_loop_running && self.mode == GameMode::EvE && self.state.status
                == GameStatus::Ongoing && self.room.id@.len() > 0),
    {
        self.eve_loop_running && self.mode == GameMode::EvE && self.state.status
            == GameStatus::Ongoing && self.room.has_room()
    }

    pub fn stop_eve_loop(&mut self)
        ensures
            !final(self).eve_loop_running,
            final(self).state == old(self).state,
            final(self).room == old(self).room,
            final(self).mode == old(self).mode,
    {
        self.eve_loop_running = false;
    }

    /// Starts a new game of the given size and mode and opens its room;
    /// returns the room id.
    pub fn start_game(&mut self, board_size: BoardSize, mode: GameMode) -> (room_id: String)
        ensures
            final(self).wf(),
            grid(&final(self).state.board) == empty_grid(board_size as nat),
            final(self).state.board.len() == board_size,
            final(self).state.history@.len() == 0,
            final(self).state.turn.current_player == Player::Black,
            final(self).state.turn.turn == 0,
            final(self).state.turn.forbidden_sequences@.len() == 0,
            final(self).state.status == GameStatus::Ongoing,
            final(self).mode == mode,
            !final(self).eve_loop_running,
            final(self).room.id@ == room_id@,
            room_id@.len() > 0,
    {
        self.state = GameState::new(board_size);
        self.mode = mode;
        self.eve_loop_running = false;
        self.room.join_room()
    }

    /// Ends the game: stops the EvE loop, marks the game finished and
    /// closes the room.
    pub fn end_game(&mut self)
        ensures
            !final(self).eve_loop_running,
            final(self).state.status == GameStatus::Finished,
            final(self).state.board == old(self).state.board,
            final(self).state.history == old(self).state.history,
            final(self).state.captures == old(self).state.captures,
            final(self).state.turn == old(self).state.turn,
            final(self).room.id@.len() == 0,
            final(self).mode == old(self).mode,
    {
        self.stop_eve_loop();
        self.state.status = GameStatus::Finished;
        self.room.leave_room();
    }

    /// It is `ai_player`'s turn in an ongoing game.
    pub fn ai_should_play(&self, ai_player: Player) -> (r: bool)
        ensures
            r == (self.state.status == GameStatus::Ongoing && current_player(self.state.history@)
                == ai_player),
    {
        self.state.status == GameStatus::Ongoing && self.state.get_current_player() == ai_player
    }

    /// Plays (x, y) for the player to move: validates and evaluates the
    /// move, records it, and ends the game when it is won.
    pub fn apply_and_commit_move(&mut self, x: usize, y: usize) -> (r: Result<MoveReport, GameError>)
        requires
            old(self).wf(),
            old(self).state.turn.turn < usize::MAX,
            old(self).state.captures.count_of(Player::Black) < usize::MAX,
            old(self).state.captures.count_of(Player::White) < usize::MAX,
        ensures
            move_played(*old(self), *final(self), x, y, r),
    {
        let res = match self.state.apply_move(x, y) {
            Ok(Some(res)) => res,
            Ok(None) => {
                return Err(GameError::GameFinished);
            },
            Err(e) => {
                return Err(e);
            },
        };
        let ghost g = grid(&self.state.board);
        let game_move = res.game_move;
        proof {
            lemma_capture_found(g, game_move, 0);
            if res.capture is Some {
                let c = res.capture.unwrap();
                assert(c.seq@.len() == 2);
                assert forall|k: int| 0 <= k < c.seq@.len() implies (#[trigger] c.seq@[k]).0
                    < self.state.board.len() && c.seq@[k].1 < self.state.board.len() by {
                    assert(k == 0 || k == 1);
                }
            }
        }
        let captured = match &res.capture {
            Some(c) => copy_cells(&c.seq),
            None => Vec::new(),
        };
        let winner = res.winner();
        let _ = self.state.commit(res);
        let game_over = self.state.status == GameStatus::Finished;
        if game_over {
            self.end_game();
        }
        Ok(MoveReport { game_move, captured, winner, game_over })
    }

    /// Plays a move entered by a player: refused without a room, while the
    /// AI is to move in PvE, and in EvE; otherwise as `apply_and_commit_move`.
    pub fn make_move(&mut self, x: usize, y: usize) -> (r: Result<MoveReport, GameError>)
        requires
            old(self).wf(),
            old(self).state.turn.turn < usize::MAX,
            old(self).state.captures.count_of(Player::Black) < usize::MAX,
            old(self).state.captures.count_of(Player::White) < usize::MAX,
        ensures
            final(self).wf(),
            old(self).room.id@.len() == 0 ==> r == Err::<MoveReport, GameError>(
                GameError::NoActiveRoom,
            ),
            old(self).room.id@.len() > 0 && old(self).mode == GameMode::PvE && current_player(
                old(self).state.history@,
            ) != Player::Black ==> r == Err::<MoveReport, GameError>(GameError::WaitingForAi),
            old(self).room.id@.len() > 0 && old(self).mode == GameMode::EvE ==> r == Err::<
                MoveReport,
                GameError,
            >(GameError::ManualMoveInEve),
            r is Err ==> *final(self) == *old(self),
            old(self).room.id@.len() > 0 && !(old(self).mode == GameMode::PvE && current_player(
                old(self).state.history@,
            ) != Player::Black) && old(self).mode != GameMode::EvE ==> move_played(
                *old(self),
                *final(self),
                x,
                y,
                r,
            ),
    {
        if let Err(err) = self.get_active_room() {
            return Err(err);
        }
        if self.mode == GameMode::PvE && self.state.get_current_player() != Player::Black {
            return Err(GameError::WaitingForAi);
        }
        if self.mode == GameMode::EvE {
            return Err(GameError::ManualMoveInEve);
        }
        self.apply_and_commit_move(x, y)
    }

    /// Takes back the last move; returns the cells that changed.
    pub fn undo_last_move(&mut self) -> (r: Result<Vec<BoardCell>, GameError>)
        requires
            old(self).wf(),
        ensures
            final(self).wf(),
            final(self).room == old(self).room,
            final(self).mode == old(self).mode,
            final(self).eve_loop_running == old(self).eve_loop_running,
            old(self).room.id@.len() == 0 ==> r == Err::<Vec<BoardCell>, GameError>(
                GameError::NoActiveRoom,
            ) && *final(self) == *old(self),
            old(self).room.id@.len() > 0 && old(self).state.history@.len() == 0 ==> r == Err::<
                Vec<BoardCell>,
                GameError,
            >(GameError::NoMovesToUndo) && *final(self) == *old(self),
            old(self).room.id@.len() > 0 && old(self).state.history@.len() > 0 ==> {
                let h = old(self).state.history@;
                &&& r matches Ok(cells) && cells@ == undo_cells(h, h.len() - 1)
                &&& final(self).state.history@ == h.take(h.len() - 1)
                &&& grid(&final(self).state.board) == rewound(
                    grid(&old(self).state.board),
                    h,
                    h.len() - 1,
                )
                &&& final(self).state.status == old(self).state.status
                &&& final(self).state.turn == old(self).state.turn
            },
    {
        if let Err(err) = self.get_active_room() {
            return Err(err);
        }
        self.state.reset(1)
    }

    /// The player a hint is asked for: the player to move, in an ongoing
    /// game with a room.
    pub fn request_move_hint(&self) -> (r: Result<Player, GameError>)
        ensures
            self.room.id@.len() == 0 ==> r == Err::<Player, GameError>(GameError::NoActiveRoom),
            self.room.id@.len() > 0 && self.state.status != GameStatus::Ongoing ==> r == Err::<
                Player,
                GameError,
            >(GameError::HintGameNotOngoing),
            self.room.id@.len() > 0 && self.state.status == GameStatus::Ongoing ==> r == Ok::<
                Player,
                GameError,
            >(current_player(self.state.history@)),
    {
        if let Err(err) = self.get_active_room() {
            return Err(err);
        }
        if self.state.status != GameStatus::Ongoing {
            return Err(GameError::HintGameNotOngoing);
        }
        Ok(self.state.get_current_player())
    }
}


/// The EvE loop can be started again only once stopped: after
/// `begin_eve_loop` succeeded, the session refuses a second start.
pub proof fn lemma_eve_loop_starts_once(s: GameSession)
    requires
        s.eve_loop_running,
    ensures
        !s.eve_can_start(),
{
}

} // verus!
