use std::collections::HashSet;

use gomoku::game::capture::Capture;
use gomoku::game::state::turn::NEIGHBOR_RADIUS;
use gomoku::game::state::types::{CaptureTally, GameMove, GameTurn, Player};
use gomoku::game::win::Win;
use gomoku::shared::types::Board;

fn empty_board(n: usize) -> Board {
    vec![vec![None; n]; n]
}

fn put(board: &mut Board, x: usize, y: usize, p: Player) {
    board[y][x] = Some(p);
}

fn no_captures() -> CaptureTally {
    CaptureTally::new()
}

#[test]
fn opponent_swaps_players() {
    assert_eq!(Player::Black.opponent(), Player::White);
    assert_eq!(Player::White.opponent(), Player::Black);
    assert_eq!(Player::Black.opponent().opponent(), Player::Black);
}

#[test]
fn capture_brackets_two_opponent_stones() {
    let mut board = empty_board(19);
    put(&mut board, 4, 3, Player::White);
    put(&mut board, 5, 3, Player::White);
    put(&mut board, 6, 3, Player::Black);
    let m = GameMove { x: 3, y: 3, player_id: Player::Black };
    let c = Capture::find_capture(&board, &m).expect("a capture");
    assert_eq!(c.seq, vec![(4, 3), (5, 3)]);
    assert_eq!(c.player_id, Player::White);
    assert_eq!(c.num_captures, 1);
}

#[test]
fn capture_needs_the_closing_stone() {
    let mut board = empty_board(19);
    put(&mut board, 4, 3, Player::White);
    put(&mut board, 5, 3, Player::White);
    let m = GameMove { x: 3, y: 3, player_id: Player::Black };
    assert!(Capture::find_capture(&board, &m).is_none());
    put(&mut board, 6, 3, Player::White);
    assert!(Capture::find_capture(&board, &m).is_none());
}

#[test]
fn capture_of_one_or_three_stones_does_not_count() {
    let mut board = empty_board(19);
    put(&mut board, 4, 3, Player::White);
    put(&mut board, 5, 3, Player::Black);
    let m = GameMove { x: 3, y: 3, player_id: Player::Black };
    assert!(Capture::find_capture(&board, &m).is_none());
}

#[test]
fn capture_stops_at_the_edge() {
    let mut board = empty_board(5);
    put(&mut board, 3, 0, Player::White);
    put(&mut board, 4, 0, Player::White);
    let m = GameMove { x: 2, y: 0, player_id: Player::Black };
    assert!(Capture::find_capture(&board, &m).is_none());
}

#[test]
fn capture_scan_prefers_the_first_direction() {
    let mut board = empty_board(19);
    // to the left of (9, 9)
    put(&mut board, 8, 9, Player::White);
    put(&mut board, 7, 9, Player::White);
    put(&mut board, 6, 9, Player::Black);
    // to the right of (9, 9)
    put(&mut board, 10, 9, Player::White);
    put(&mut board, 11, 9, Player::White);
    put(&mut board, 12, 9, Player::Black);
    let m = GameMove { x: 9, y: 9, player_id: Player::Black };
    let c = Capture::find_capture(&board, &m).unwrap();
    assert_eq!(c.seq, vec![(8, 9), (7, 9)]);
}

#[test]
fn capture_diagonal() {
    let mut board = empty_board(19);
    put(&mut board, 6, 6, Player::Black);
    put(&mut board, 7, 7, Player::Black);
    put(&mut board, 8, 8, Player::White);
    let m = GameMove { x: 5, y: 5, player_id: Player::White };
    let c = Capture::find_capture(&board, &m).unwrap();
    assert_eq!(c.seq, vec![(6, 6), (7, 7)]);
    assert_eq!(c.player_id, Player::Black);
}

#[test]
fn capture_move_off_the_board_finds_nothing() {
    let board = empty_board(5);
    let m = GameMove { x: 40, y: 1, player_id: Player::Black };
    assert!(Capture::find_capture(&board, &m).is_none());
}

#[test]
fn new_capture_is_empty() {
    let c = Capture::new(Player::White);
    assert!(c.seq.is_empty());
    assert_eq!(c.player_id, Player::White);
    assert_eq!(c.num_captures, 0);
}

#[test]
fn five_in_a_row_wins() {
    let mut board = empty_board(19);
    for x in 3..8 {
        put(&mut board, x, 2, Player::Black);
    }
    let m = GameMove { x: 5, y: 2, player_id: Player::Black };
    let w = Win::check_for_win(&m, &None, &board, &no_captures()).expect("a win");
    assert_eq!(w.player_id, Player::Black);
    assert!(w.is_by_five);
    assert!(!w.is_flanked);
    assert!(w.flank.is_none());
    assert_eq!(w.win_seq, Some(vec![(5, 2), (4, 2), (3, 2), (6, 2), (7, 2)]));
}

#[test]
fn four_in_a_row_does_not_win() {
    let mut board = empty_board(19);
    for x in 3..7 {
        put(&mut board, x, 2, Player::Black);
    }
    put(&mut board, 7, 2, Player::White);
    let m = GameMove { x: 6, y: 2, player_id: Player::Black };
    assert!(Win::check_for_win(&m, &None, &board, &no_captures()).is_none());
}

#[test]
fn six_in_a_row_wins_along_the_anti_diagonal() {
    let mut board = empty_board(19);
    for k in 0..6 {
        put(&mut board, 2 + k, 10 - k, Player::White);
    }
    let m = GameMove { x: 4, y: 8, player_id: Player::White };
    let w = Win::check_for_win(&m, &None, &board, &no_captures()).unwrap();
    assert_eq!(w.win_seq.as_ref().unwrap().len(), 6);
    assert_eq!(w.win_seq.unwrap()[0], (4, 8));
}

fn flanked_board() -> Board {
    let mut board = empty_board(19);
    for x in 0..5 {
        put(&mut board, x, 5, Player::Black);
    }
    put(&mut board, 2, 6, Player::Black);
    put(&mut board, 2, 7, Player::White);
    board
}

#[test]
fn five_with_a_capturable_pair_is_flanked() {
    let board = flanked_board();
    let m = GameMove { x: 4, y: 5, player_id: Player::Black };
    let w = Win::check_for_win(&m, &None, &board, &no_captures()).unwrap();
    assert!(w.is_by_five);
    assert!(w.is_flanked);
    let f = w.flank.unwrap();
    assert_eq!(f.stone, (2, 5));
    assert_eq!(f.direction, (0, 1));
    assert_eq!(f.capture_move, (2, 4));
    assert_eq!(w.win_seq, Some(vec![(4, 5), (3, 5), (2, 5), (1, 5), (0, 5)]));
}

#[test]
fn pair_closed_on_both_ends_is_not_flanked() {
    let mut board = flanked_board();
    put(&mut board, 2, 4, Player::White);
    let m = GameMove { x: 4, y: 5, player_id: Player::Black };
    let w = Win::check_for_win(&m, &None, &board, &no_captures()).unwrap();
    assert!(!w.is_flanked);
    assert!(w.flank.is_none());
}

#[test]
fn fifth_capture_wins() {
    let board = empty_board(19);
    let tally = CaptureTally { black: (4, HashSet::new()), white: (0, HashSet::new()) };
    let m = GameMove { x: 1, y: 1, player_id: Player::Black };
    let c = Capture { seq: vec![(2, 1), (3, 1)], player_id: Player::White, num_captures: 1 };
    let w = Win::check_for_win(&m, &Some(c), &board, &tally).unwrap();
    assert_eq!(w.player_id, Player::Black);
    assert!(!w.is_by_five);
    assert!(w.win_seq.is_none());
    assert!(!w.is_flanked);
}

#[test]
fn fourth_capture_does_not_win() {
    let board = empty_board(19);
    let tally = CaptureTally { black: (3, HashSet::new()), white: (4, HashSet::new()) };
    let m = GameMove { x: 1, y: 1, player_id: Player::Black };
    let c = Capture { seq: vec![(2, 1), (3, 1)], player_id: Player::White, num_captures: 1 };
    assert!(Win::check_for_win(&m, &Some(c), &board, &tally).is_none());
}

#[test]
fn empty_board_has_no_forbidden_cells() {
    let board = empty_board(19);
    assert!(GameTurn::get_forbidden_moves(&board, &Player::Black).is_empty());
}

#[test]
fn walking_into_a_capture_is_forbidden() {
    let mut board = empty_board(19);
    put(&mut board, 3, 5, Player::White);
    put(&mut board, 6, 5, Player::White);
    put(&mut board, 5, 5, Player::Black);
    let forbidden = GameTurn::get_forbidden_moves(&board, &Player::Black);
    assert!(forbidden.contains(&(4, 5)));
    assert!(!forbidden.contains(&(7, 5)));
    let for_white = GameTurn::get_forbidden_moves(&board, &Player::White);
    assert!(!for_white.contains(&(4, 5)));
}

#[test]
fn double_free_three_is_forbidden() {
    let mut board = empty_board(19);
    put(&mut board, 3, 5, Player::Black);
    put(&mut board, 4, 5, Player::Black);
    put(&mut board, 5, 3, Player::Black);
    put(&mut board, 5, 4, Player::Black);
    let forbidden = GameTurn::get_forbidden_moves(&board, &Player::Black);
    assert!(forbidden.contains(&(5, 5)));
    // cells are listed row by row, left to right, once each
    for w in forbidden.windows(2) {
        assert!(w[0].1 < w[1].1 || (w[0].1 == w[1].1 && w[0].0 < w[1].0));
    }
}

#[test]
fn single_free_three_is_allowed() {
    let mut board = empty_board(19);
    put(&mut board, 3, 5, Player::Black);
    put(&mut board, 4, 5, Player::Black);
    let forbidden = GameTurn::get_forbidden_moves(&board, &Player::Black);
    assert!(!forbidden.contains(&(5, 5)));
}

#[test]
fn capturing_move_escapes_double_three() {
    let mut board = empty_board(19);
    put(&mut board, 3, 5, Player::Black);
    put(&mut board, 4, 5, Player::Black);
    put(&mut board, 5, 3, Player::Black);
    put(&mut board, 5, 4, Player::Black);
    put(&mut board, 6, 6, Player::White);
    put(&mut board, 7, 7, Player::White);
    put(&mut board, 8, 8, Player::Black);
    let forbidden = GameTurn::get_forbidden_moves(&board, &Player::Black);
    assert!(!forbidden.contains(&(5, 5)));
}

#[test]
fn far_cells_are_never_candidates() {
    let mut board = empty_board(19);
    put(&mut board, 9, 9, Player::White);
    put(&mut board, 12, 9, Player::White);
    put(&mut board, 11, 9, Player::Black);
    let forbidden = GameTurn::get_forbidden_moves(&board, &Player::Black);
    assert!(forbidden.contains(&(10, 9)));
    for (x, y) in forbidden {
        let near = (0..19usize).any(|sy| {
            (0..19usize).any(|sx| {
                board[sy][sx].is_some()
                    && (sx as isize - x as isize).abs() <= NEIGHBOR_RADIUS
                    && (sy as isize - y as isize).abs() <= NEIGHBOR_RADIUS
            })
        });
        assert!(near);
        assert!(board[y][x].is_none());
    }
}

#[test]
fn turn_update_counts_and_lists_forbidden_cells() {
    let mut board = empty_board(19);
    put(&mut board, 3, 5, Player::White);
    put(&mut board, 6, 5, Player::White);
    put(&mut board, 5, 5, Player::Black);
    let mut turn = GameTurn::default();
    assert_eq!(turn.turn, 0);
    assert_eq!(turn.current_player, Player::Black);
    turn.update(&Player::Black, &board);
    assert_eq!(turn.turn, 1);
    assert_eq!(turn.current_player, Player::Black);
    assert!(turn.forbidden_sequences.contains(&(4, 5)));
    let copy = turn.clone();
    assert_eq!(copy.forbidden_sequences, turn.forbidden_sequences);
}

#[test]
fn capture_win_needs_no_board_position() {
    let board = empty_board(5);
    let tally = CaptureTally { black: (0, HashSet::new()), white: (4, HashSet::new()) };
    let m = GameMove { x: 40, y: 2, player_id: Player::White };
    let c = Capture { seq: vec![(1, 1), (2, 2)], player_id: Player::Black, num_captures: 1 };
    let w = Win::check_for_win(&m, &Some(c), &board, &tally).unwrap();
    assert_eq!(w.player_id, Player::White);
    assert!(!w.is_by_five);
    assert!(w.flank.is_none());
}
