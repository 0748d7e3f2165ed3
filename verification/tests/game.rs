use gomoku::bridge::{BridgeError, BridgePayload, BridgeResponse};
use gomoku::events::room::board::BoardCell;
use gomoku::events::room::game_turn::GameTurnPayload;
use gomoku::game::matchmaker::Matchmaker;
use gomoku::game::room::Room;
use gomoku::game::session::GameSession;
use gomoku::game::state::get_current_player;
use gomoku::game::state::types::{GameMode, GameMove, GameState, GameStatus, Player};
use gomoku::shared::error::{GameError, GameErrorKind};

fn play(state: &mut GameState, x: usize, y: usize) -> gomoku::game::state::types::GameResult {
    let res = state.apply_move(x, y).expect("legal move").expect("a result");
    let copy_move = res.game_move;
    let win = res.win.clone();
    let capture = res.capture.clone();
    state.commit(res).unwrap();
    gomoku::game::state::types::GameResult { game_move: copy_move, capture, win }
}

#[test]
fn new_game_is_empty_and_black_starts() {
    let state = GameState::new(19);
    assert_eq!(state.board.len(), 19);
    assert!(state.board.iter().all(|r| r.len() == 19 && r.iter().all(|c| c.is_none())));
    assert!(state.history.is_empty());
    assert_eq!(state.status, GameStatus::Ongoing);
    assert_eq!(state.get_current_player(), Player::Black);
    assert_eq!(get_current_player(&state), Some(Player::Black));
    let d = GameState::default();
    assert!(d.board.is_empty());
}

#[test]
fn apply_move_rejects_bad_moves() {
    let mut state = GameState::new(9);
    assert_eq!(state.apply_move(9, 0).unwrap_err(), GameError::OutOfBounds);
    assert_eq!(state.apply_move(0, 9).unwrap_err(), GameError::OutOfBounds);
    play(&mut state, 4, 4);
    assert_eq!(state.apply_move(4, 4).unwrap_err(), GameError::CellOccupied);
    state.set_status(GameStatus::Finished);
    assert_eq!(state.apply_move(0, 0).unwrap_err(), GameError::GameFinished);
}

#[test]
fn apply_move_leaves_the_state_alone() {
    let mut state = GameState::new(9);
    let res = state.apply_move(2, 3).unwrap().unwrap();
    assert_eq!(res.game_move.x, 2);
    assert_eq!(res.game_move.y, 3);
    assert_eq!(res.game_move.player_id, Player::Black);
    assert!(state.board[3][2].is_none());
    assert!(state.history.is_empty());
}

#[test]
fn players_alternate_and_turns_count() {
    let mut state = GameState::new(9);
    play(&mut state, 0, 0);
    assert_eq!(state.get_current_player(), Player::White);
    assert_eq!(state.turn.current_player, Player::White);
    assert_eq!(state.turn.turn, 1);
    play(&mut state, 1, 1);
    assert_eq!(state.get_current_player(), Player::Black);
    assert_eq!(state.turn.turn, 2);
    assert_eq!(state.board[0][0], Some(Player::Black));
    assert_eq!(state.board[1][1], Some(Player::White));
}

#[test]
fn capture_removes_stones_and_counts_for_the_capturer() {
    let mut state = GameState::new(19);
    play(&mut state, 3, 3); // B
    play(&mut state, 4, 3); // W
    play(&mut state, 10, 10); // B
    play(&mut state, 5, 3); // W
    let res = play(&mut state, 6, 3); // B captures (4,3) (5,3)
    let c = res.capture.unwrap();
    assert_eq!(c.seq, vec![(5, 3), (4, 3)]);
    assert!(state.board[3][4].is_none());
    assert!(state.board[3][5].is_none());
    assert_eq!(state.board[3][6], Some(Player::Black));
    assert_eq!(state.captures.count(Player::Black), 1);
    assert_eq!(state.captures.count(Player::White), 0);
    assert!(state.captures.black.1.contains(&4));
    let payload = GameTurnPayload::from_state(&state);
    assert_eq!(payload.black_captures, 1);
    assert_eq!(payload.white_captures, 0);
    assert_eq!(payload.turn.turn, 5);
}

#[test]
fn undo_restores_the_board_and_the_captures() {
    let mut state = GameState::new(19);
    play(&mut state, 3, 3);
    play(&mut state, 4, 3);
    play(&mut state, 10, 10);
    play(&mut state, 5, 3);
    let before = state.board.clone();
    play(&mut state, 6, 3);
    let cells = state.reset(1).unwrap();
    assert_eq!(state.board, before);
    assert_eq!(state.captures.count(Player::Black), 0);
    assert!(state.captures.black.1.is_empty());
    assert_eq!(state.history.len(), 4);
    let got: Vec<(usize, usize, Option<Player>)> =
        cells.iter().map(|c| (c.x, c.y, c.player_id)).collect();
    assert_eq!(
        got,
        vec![(5, 3, Some(Player::White)), (4, 3, Some(Player::White)), (6, 3, None)]
    );
}

#[test]
fn undo_too_far_takes_back_everything_and_fails() {
    let mut state = GameState::new(9);
    play(&mut state, 1, 1);
    play(&mut state, 2, 2);
    assert_eq!(state.reset(3).unwrap_err(), GameError::NoMovesToUndo);
    assert!(state.history.is_empty());
    assert!(state.board.iter().all(|r| r.iter().all(|c| c.is_none())));
    assert_eq!(state.reset(1).unwrap_err(), GameError::NoMovesToUndo);
    assert_eq!(state.reset(0).unwrap().len(), 0);
}

fn flanked_game() -> GameState {
    let mut state = GameState::new(19);
    play(&mut state, 0, 5); // B
    play(&mut state, 10, 10); // W
    play(&mut state, 1, 5); // B
    play(&mut state, 2, 7); // W
    play(&mut state, 2, 5); // B
    play(&mut state, 12, 12); // W
    play(&mut state, 3, 5); // B
    play(&mut state, 14, 14); // W
    play(&mut state, 2, 6); // B
    play(&mut state, 16, 16); // W
    state
}

#[test]
fn flanked_five_waits_one_turn() {
    let mut state = flanked_game();
    let res = play(&mut state, 4, 5); // B five, flanked
    let w = res.win.as_ref().unwrap();
    assert!(w.is_flanked);
    assert_eq!(w.flank.unwrap().capture_move, (2, 4));
    assert!(res.winner().is_none());
    assert_eq!(state.status, GameStatus::Ongoing);
    // White does not break the five: Black's win is confirmed.
    let res = play(&mut state, 18, 18);
    let w = res.winner().expect("confirmed win");
    assert_eq!(w.player_id, Player::Black);
    assert!(!w.is_flanked);
    assert!(w.flank.is_none());
    assert_eq!(state.status, GameStatus::Finished);
    assert_eq!(state.get_last_game_winner().unwrap().player_id, Player::Black);
}

#[test]
fn flanked_five_broken_by_capture() {
    let mut state = flanked_game();
    play(&mut state, 4, 5);
    let res = play(&mut state, 2, 4); // W captures (2,5) (2,6)
    assert!(res.capture.is_some());
    assert!(res.win.is_none());
    assert!(state.board[5][2].is_none());
    assert_eq!(state.status, GameStatus::Ongoing);
    assert_eq!(state.captures.count(Player::White), 1);
}

#[test]
fn session_needs_a_room() {
    let mut s = GameSession::new(19);
    assert_eq!(s.make_move(3, 3).unwrap_err(), GameError::NoActiveRoom);
    assert_eq!(s.undo_last_move().unwrap_err(), GameError::NoActiveRoom);
    assert_eq!(s.request_move_hint().unwrap_err(), GameError::NoActiveRoom);
    let d = GameSession::default();
    assert_eq!(d.state.board.len(), 10);
    assert_eq!(d.mode, GameMode::PvP);
}

#[test]
fn session_plays_and_undoes() {
    let mut s = GameSession::new(19);
    let room = s.start_game(15, GameMode::PvP);
    assert_eq!(room.len(), 36);
    assert!(s.room.has_room());
    assert_eq!(s.state.board.len(), 15);
    let rep = s.make_move(3, 3).unwrap();
    assert_eq!(rep.game_move.player_id, Player::Black);
    assert!(!rep.game_over);
    assert!(rep.captured.is_empty());
    assert_eq!(s.request_move_hint().unwrap(), Player::White);
    let cells = s.undo_last_move().unwrap();
    assert_eq!(cells.len(), 1);
    assert_eq!((cells[0].x, cells[0].y, cells[0].player_id), (3, 3, None));
    assert_eq!(s.undo_last_move().unwrap_err(), GameError::NoMovesToUndo);
}

#[test]
fn session_modes_guard_manual_moves() {
    let mut s = GameSession::new(19);
    s.start_game(19, GameMode::PvE);
    s.make_move(9, 9).unwrap();
    assert_eq!(s.make_move(9, 10).unwrap_err(), GameError::WaitingForAi);
    assert!(s.ai_should_play(Player::White));
    assert!(!s.ai_should_play(Player::Black));
    s.start_game(19, GameMode::EvE);
    assert_eq!(s.make_move(9, 9).unwrap_err(), GameError::ManualMoveInEve);
    assert!(s.begin_eve_loop());
    assert!(s.should_continue_eve());
    assert!(!s.begin_eve_loop());
    s.stop_eve_loop();
    assert!(!s.should_continue_eve());
    assert!(s.begin_eve_loop());
}

#[test]
fn session_win_ends_the_game() {
    let mut s = GameSession::new(19);
    s.start_game(19, GameMode::PvP);
    for x in 0..4 {
        s.make_move(x, 0).unwrap();
        s.make_move(x, 10).unwrap();
    }
    let rep = s.make_move(4, 0).unwrap();
    assert!(rep.game_over);
    assert_eq!(rep.winner.unwrap().player_id, Player::Black);
    assert_eq!(s.state.status, GameStatus::Finished);
    assert!(!s.room.has_room());
    assert_eq!(s.make_move(5, 5).unwrap_err(), GameError::NoActiveRoom);
    s.end_game();
    assert_eq!(s.state.status, GameStatus::Finished);
}

#[test]
fn hint_refused_when_game_over() {
    let mut s = GameSession::new(19);
    s.start_game(19, GameMode::PvP);
    s.state.set_status(GameStatus::Finished);
    assert_eq!(s.request_move_hint().unwrap_err(), GameError::HintGameNotOngoing);
}

#[test]
fn matchmaker_pairs_in_arrival_order() {
    let mut mm = Matchmaker::default();
    assert!(mm.enqueue_or_match("a", 15).is_none());
    assert!(mm.is_waiting("a"));
    assert!(mm.enqueue_or_match("a", 15).is_none());
    assert_eq!(mm.waiting.len(), 1);
    let created = mm.enqueue_or_match("b", 19).expect("a match");
    assert_eq!(created.black_socket_id, "a");
    assert_eq!(created.black.color, Player::Black);
    assert_eq!(created.white.color, Player::White);
    assert_eq!(created.black.board_size, 15);
    assert_eq!(created.white.board_size, 15);
    assert_eq!(created.black.room, created.room_id);
    assert_eq!(created.white.room, created.room_id);
    assert!(!mm.is_waiting("a"));
    assert!(mm.is_in_match("a"));
    assert!(mm.is_in_match("b"));
    let m = mm.get_match_by_socket("b").unwrap();
    assert_eq!(m.player_for_socket("a"), Some(Player::Black));
    assert_eq!(m.player_for_socket("b"), Some(Player::White));
    assert_eq!(m.player_for_socket("c"), None);
    assert_eq!(m.session.room.id, created.room_id);
    assert_eq!(m.session.state.board.len(), 15);
    let m = mm.get_match_mut_by_socket("a").unwrap();
    m.session.state.set_status(GameStatus::Finished);
    assert_eq!(mm.get_match_by_socket("b").unwrap().session.state.status, GameStatus::Finished);
    assert_eq!(mm.cleanup_socket("a"), Some(created.room_id.clone()));
    assert!(!mm.is_in_match("a"));
    assert!(!mm.is_in_match("b"));
    assert!(mm.get_match_by_socket("b").is_none());
}

#[test]
fn matchmaker_cleanup_of_waiting_socket() {
    let mut mm = Matchmaker::default();
    mm.enqueue_or_match("a", 19);
    assert_eq!(mm.cleanup_socket("a"), None);
    assert!(!mm.is_waiting("a"));
    assert_eq!(mm.cleanup_socket("zz"), None);
}

#[test]
fn bridge_payload_encodes_the_board() {
    let mut state = GameState::new(19);
    play(&mut state, 0, 0);
    play(&mut state, 1, 0);
    let p = BridgePayload::from_game_state(&state, Player::White).unwrap();
    assert_eq!(p.board.len(), 19);
    assert_eq!(p.board[0][0], 1);
    assert_eq!(p.board[0][1], 2);
    assert_eq!(p.board[0][2], 0);
    assert_eq!(p.ai, Player::White);
    assert_eq!(p.black_captures, 0);
    assert!(p.max_depth.is_none());
    assert!(p.check_board_len().is_ok());
}

#[test]
fn bridge_refuses_other_board_sizes() {
    let state = GameState::new(15);
    match BridgePayload::from_game_state(&state, Player::Black) {
        Err(BridgeError::UnsupportedBoardSize(n)) => assert_eq!(n, 15),
        _ => panic!("expected an unsupported size"),
    }
    let mut state = GameState::new(19);
    state.board[3].pop();
    match BridgePayload::from_game_state(&state, Player::Black) {
        Err(BridgeError::UnsupportedBoardSize(n)) => assert_eq!(n, 19),
        _ => panic!("expected an unsupported size"),
    }
}

#[test]
fn bridge_response_is_interpreted() {
    let ok = BridgeResponse { ok: true, move_: Some((3, 4)), error: None };
    assert_eq!(ok.into_result().unwrap(), Some((3, 4)));
    let failed = BridgeResponse { ok: false, move_: None, error: Some("boom".to_string()) };
    match failed.into_result() {
        Err(BridgeError::Protocol(m)) => assert_eq!(m, "boom"),
        _ => panic!("expected a protocol error"),
    }
    let silent = BridgeResponse { ok: false, move_: None, error: None };
    match silent.into_result() {
        Err(BridgeError::Protocol(m)) => assert_eq!(m, "unknown bridge error"),
        _ => panic!("expected a protocol error"),
    }
}

#[test]
fn board_cell_from_move() {
    let cell: BoardCell = GameMove { x: 2, y: 7, player_id: Player::White }.into();
    assert_eq!((cell.x, cell.y, cell.player_id), (2, 7, Some(Player::White)));
}

#[test]
fn room_join_and_leave() {
    let mut room = Room::default();
    assert!(!room.has_room());
    let id = room.join_room();
    assert_eq!(id.len(), 36);
    assert_eq!(room.id, id);
    assert!(room.has_room());
    let mut other = Room::default();
    assert_ne!(other.join_room(), id);
    room.leave_room();
    assert!(!room.has_room());
    assert_eq!(room.id, "");
}

#[test]
fn matchmaker_cleanup_keeps_other_matches() {
    let mut mm = Matchmaker::default();
    mm.enqueue_or_match("a", 19);
    let first = mm.enqueue_or_match("b", 19).expect("a match");
    mm.enqueue_or_match("c", 15);
    let second = mm.enqueue_or_match("d", 15).expect("a match");
    assert_ne!(first.room_id, second.room_id);
    assert_eq!(mm.cleanup_socket("b"), Some(first.room_id.clone()));
    assert!(!mm.is_in_match("a"));
    assert!(mm.is_in_match("c"));
    assert!(mm.is_in_match("d"));
    let m = mm.get_match_by_socket("d").unwrap();
    assert_eq!(m.room_id, second.room_id);
    assert_eq!(m.board_size, 15);
    assert_eq!(mm.cleanup_socket("b"), None);
}

#[test]
fn error_messages_and_kinds() {
    assert_eq!(GameError::GameFinished.message(), "Cannot apply move: Game has already finished");
    assert_eq!(GameError::GameFinished.kind(), GameErrorKind::Other);
    assert_eq!(GameError::OutOfBounds.message(), "Move is out of bounds");
    assert_eq!(GameError::OutOfBounds.kind(), GameErrorKind::InvalidInput);
    assert_eq!(GameError::CellOccupied.message(), "Cell is already occupied");
    assert_eq!(GameError::CellOccupied.kind(), GameErrorKind::InvalidInput);
    assert_eq!(GameError::NoMovesToUndo.message(), "No moves to undo");
    assert_eq!(GameError::NoActiveRoom.message(), "No active room found");
    assert_eq!(GameError::NoActiveRoom.kind(), GameErrorKind::NotFound);
    assert_eq!(GameError::WaitingForAi.message(), "Waiting for the AI move");
    assert_eq!(GameError::ManualMoveInEve.message(), "Cannot make manual moves in EvE mode");
    assert_eq!(
        GameError::HintGameNotOngoing.message(),
        "Cannot request hint: game is not ongoing"
    );
}

#[test]
fn undo_without_moves_changes_nothing() {
    let mut g = GameSession::new(15);
    g.start_game(15, GameMode::PvP);
    assert!(g.state.turn.forbidden_sequences.is_empty());
    assert_eq!(g.undo_last_move().unwrap_err(), GameError::NoMovesToUndo);
    assert_eq!(g.state.status, GameStatus::Ongoing);
    assert!(g.state.history.is_empty());
    assert!(g.room.has_room());
}

#[test]
fn matched_game_starts_fresh() {
    let mut mm = Matchmaker::default();
    mm.enqueue_or_match("a", 13);
    mm.enqueue_or_match("b", 19).expect("a match");
    let m = mm.get_match_by_socket("a").unwrap();
    assert_eq!(m.session.mode, GameMode::PvP);
    assert!(!m.session.eve_loop_running);
    assert_eq!(m.session.state.board.len(), 13);
    assert!(m.session.state.board.iter().all(|r| r.len() == 13 && r.iter().all(|c| c.is_none())));
    assert_eq!(m.session.state.turn.current_player, Player::Black);
    assert_eq!(m.session.state.turn.turn, 0);
    assert!(m.session.state.turn.forbidden_sequences.is_empty());
}
