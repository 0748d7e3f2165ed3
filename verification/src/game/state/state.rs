use vstd::prelude::*;

use crate::events::room::board::BoardCell;
use crate::game::capture::{
    capture_direction, capture_result, captured_cells, lemma_capture_found, Capture,
};
use crate::game::state::turn::is_forbidden_list;
use crate::game::state::types::{
    CaptureTally, GameMove, GameResult, GameState, GameStatus, GameTurn, Player,
};
use crate::game::win::{opt_win_view, win_result, Win, WinView};
use crate::shared::error::GameError;
use crate::shared::types::{
    board_wf, cell, copy_board, empty_grid, get_cell, grid, in_bounds, new_board, set_cell,
    with_cell, BoardSize,
};

verus! {

broadcast use vstd::std_specs::hash::group_hash_axioms;

/// `g` with every cell of `cells` set to `v`, in order.
pub open spec fn set_cells(
    g: Seq<Seq<Option<Player>>>,
    cells: Seq<(usize, usize)>,
    v: Option<Player>,
) -> Seq<Seq<Option<Player>>>
    decreases cells.len(),
{
    if cells.len() == 0 {
        g
    } else {
        with_cell(set_cells(g, cells.drop_last(), v), cells.last().0 as int, cells.last().1 as int, v)
    }
}

pub open spec fn cells_in_bounds(n: int, cells: Seq<(usize, usize)>) -> bool {
    forall|k: int| 0 <= k < cells.len() ==> (#[trigger] cells[k]).0 < n && cells[k].1 < n
}

/// The move and the captured cells of `r` lie on a board of side `n`.
pub open spec fn result_fits(n: int, r: GameResult) -> bool {
    &&& r.game_move.x < n
    &&& r.game_move.y < n
    &&& r.capture matches Some(c) ==> cells_in_bounds(n, c.seq@)
}

/// The board after move `m` with capture `c`: the stone placed, the
/// captured stones removed.
pub open spec fn played_grid(
    g: Seq<Seq<Option<Player>>>,
    m: GameMove,
    c: Option<Capture>,
) -> Seq<Seq<Option<Player>>> {
    let placed = with_cell(g, m.x as int, m.y as int, Some(m.player_id));
    match c {
        Some(c) => set_cells(placed, c.seq@, None),
        None => placed,
    }
}

pub open spec fn played(g: Seq<Seq<Option<Player>>>, r: GameResult) -> Seq<Seq<Option<Player>>> {
    played_grid(g, r.game_move, r.capture)
}

/// The board with result `r` taken back: the stone removed, the captured
/// stones put back.
pub open spec fn unplayed(g: Seq<Seq<Option<Player>>>, r: GameResult) -> Seq<Seq<Option<Player>>> {
    let lifted = with_cell(g, r.game_move.x as int, r.game_move.y as int, None);
    match r.capture {
        Some(c) => set_cells(lifted, c.seq@, Some(c.player_id)),
        None => lifted,
    }
}

/// `r` captured stones of the opponent of `p`.
pub open spec fn captures_for(r: GameResult, p: Player) -> bool {
    r.capture matches Some(c) && c.player_id == p.spec_opponent()
}

/// The pairs that `r` captured for `p`.
pub open spec fn gain(r: GameResult, p: Player) -> int {
    match r.capture {
        Some(c) => if c.player_id == p.spec_opponent() {
            c.num_captures as int
        } else {
            0
        },
        None => 0,
    }
}

/// All pairs captured by `p` in `h`.
pub open spec fn captured_by(h: Seq<GameResult>, p: Player) -> int
    decreases h.len(),
{
    if h.len() == 0 {
        0
    } else {
        captured_by(h.drop_last(), p) + gain(h.last(), p)
    }
}

/// The indices of the moves of `h` with which `p` captured.
pub open spec fn capture_moves(h: Seq<GameResult>, p: Player) -> Set<usize> {
    Set::new(|i: usize| i < h.len() && captures_for(h[i as int], p))
}

/// The player to move after `h`: Black starts, then the sides alternate.
pub open spec fn current_player(h: Seq<GameResult>) -> Player {
    if h.len() > 0 {
        h.last().game_move.player_id.spec_opponent()
    } else {
        Player::Black
    }
}

/// `r` carries an unflanked win.
pub open spec fn has_winner(r: GameResult) -> bool {
    r.win matches Some(w) && !w.is_flanked
}

/// The view of `GameResult::winner`.
pub open spec fn winner_of(r: GameResult) -> Option<WinView> {
    if has_winner(r) {
        opt_win_view(r.win)
    } else {
        None
    }
}

/// The board after taking back the moves of `h` from the end down to index `j`.
pub open spec fn rewound(g: Seq<Seq<Option<Player>>>, h: Seq<GameResult>, j: int) -> Seq<
    Seq<Option<Player>>,
>
    decreases h.len() - j,
{
    if j >= h.len() || j < 0 {
        g
    } else {
        unplayed(rewound(g, h, j + 1), h[j])
    }
}

/// The cells that taking back `r` changes, in the order they change.
pub open spec fn undo_cells_of(r: GameResult) -> Seq<BoardCell> {
    let restored = match r.capture {
        Some(c) => c.seq@.map_values(
            |xy: (usize, usize)| BoardCell { x: xy.0, y: xy.1, player_id: Some(c.player_id) },
        ),
        None => seq![],
    };
    restored + seq![BoardCell { x: r.game_move.x, y: r.game_move.y, player_id: None }]
}

/// The cells changed by taking back the moves of `h` from the end down to index `j`.
pub open spec fn undo_cells(h: Seq<GameResult>, j: int) -> Seq<BoardCell>
    decreases h.len() - j,
{
    if j >= h.len() || j < 0 {
        seq![]
    } else {
        undo_cells(h, j + 1) + undo_cells_of(h[j])
    }
}

proof fn lemma_set_cells(g: Seq<Seq<Option<Player>>>, cells: Seq<(usize, usize)>, v: Option<Player>)
    requires
        board_wf(g),
        cells_in_bounds(g.len() as int, cells),
    ensures
        set_cells(g, cells, v).len() == g.len(),
        board_wf(set_cells(g, cells, v)),
        forall|x: int, y: int|
            in_bounds(g, x, y) ==> #[trigger] set_cells(g, cells, v)[y][x] == if cells.contains(
                (x as usize, y as usize),
            ) {
                v
            } else {
                g[y][x]
            },
    decreases cells.len(),
{
    if cells.len() > 0 {
        let init = cells.drop_last();
        assert(cells_in_bounds(g.len() as int, init)) by {
            assert forall|k: int| 0 <= k < init.len() implies (#[trigger] init[k]).0 < g.len()
                && init[k].1 < g.len() by {
                assert(init[k] == cells[k]);
            }
        }
        lemma_set_cells(g, init, v);
        let last = cells.last();
        assert(cells[cells.len() - 1] == last);
        let s = set_cells(g, cells, v);
        assert forall|x: int, y: int| in_bounds(g, x, y) implies #[trigger] s[y][x]
            == if cells.contains((x as usize, y as usize)) {
            v
        } else {
            g[y][x]
        } by {
            assert((x as usize) as int == x && (y as usize) as int == y);
            if x == last.0 && y == last.1 {
                assert(cells.contains((x as usize, y as usize)));
            } else {
                if cells.contains((x as usize, y as usize)) {
                    let k = choose|k: int| 0 <= k < cells.len() && cells[k] == (x as usize, y as usize);
                    assert(k < cells.len() - 1);
                    assert(init[k] == cells[k]);
                    assert(init.contains((x as usize, y as usize)));
                } else {
                    assert forall|k: int| 0 <= k < init.len() implies init[k] != (
                        x as usize,
                        y as usize,
                    ) by {
                        assert(init[k] == cells[k]);
                    }
                }
            }
        }
    }
}

/// Taking back a move restores the board it was played on, when its cell was
/// empty and the stones it captured were the captured player's.
pub proof fn lemma_unplayed_played(g: Seq<Seq<Option<Player>>>, r: GameResult)
    requires
        board_wf(g),
        result_fits(g.len() as int, r),
        cell(g, r.game_move.x as int, r.game_move.y as int) is None,
        r.capture matches Some(c) ==> {
            &&& !c.seq@.contains((r.game_move.x, r.game_move.y))
            &&& forall|k: int|
                0 <= k < c.seq@.len() ==> cell(
                    g,
                    (#[trigger] c.seq@[k]).0 as int,
                    c.seq@[k].1 as int,
                ) == Some(c.player_id)
        },
    ensures
        unplayed(played(g, r), r) == g,
{
    let m = r.game_move;
    let placed = with_cell(g, m.x as int, m.y as int, Some(m.player_id));
    let p = played(g, r);
    let lifted = with_cell(p, m.x as int, m.y as int, None);
    let u = unplayed(p, r);
    match r.capture {
        Some(c) => {
            lemma_set_cells(placed, c.seq@, None);
            lemma_set_cells(lifted, c.seq@, Some(c.player_id));
            assert forall|y: int| 0 <= y < g.len() implies #[trigger] u[y] =~= g[y] by {
                assert forall|x: int| 0 <= x < g.len() implies u[y][x] == g[y][x] by {
                    assert(in_bounds(g, x, y));
                    assert((x as usize) as int == x && (y as usize) as int == y);
                    assert(u[y][x] == if c.seq@.contains((x as usize, y as usize)) {
                        Some(c.player_id)
                    } else {
                        lifted[y][x]
                    });
                    assert(p[y][x] == if c.seq@.contains((x as usize, y as usize)) {
                        None
                    } else {
                        placed[y][x]
                    });
                    if c.seq@.contains((x as usize, y as usize)) {
                        let k = choose|k: int|
                            0 <= k < c.seq@.len() && c.seq@[k] == (x as usize, y as usize);
                        assert(cell(g, c.seq@[k].0 as int, c.seq@[k].1 as int) == Some(
                            c.player_id,
                        ));
                    } else if x == m.x && y == m.y {
                        assert(u[y][x] == lifted[y][x]);
                    } else {
                        assert(lifted[y][x] == p[y][x]);
                        assert(placed[y][x] == g[y][x]);
                    }
                }
            }
        },
        None => {
            assert forall|y: int| 0 <= y < g.len() implies #[trigger] u[y] =~= g[y] by {}
        },
    }
    assert(u =~= g);
}


impl Default for GameState {
    /// A game on an empty board of side zero.
    fn default() -> (r: Self)
        ensures
            r.wf(),
            r.board@.len() == 0,
            r.history@.len() == 0,
            r.status == GameStatus::Ongoing,
            r.turn.current_player == Player::Black,
            r.turn.turn == 0,
    {
        let r = GameState {
            board: Vec::new(),
            history: Vec::new(),
            status: GameStatus::Ongoing,
            captures: CaptureTally::new(),
            turn: GameTurn::default(),
        };
        assert(grid(&r.board) =~= Seq::<Seq<Option<Player>>>::empty());
        assert(capture_moves(r.history@, Player::Black) =~= Set::<usize>::empty());
        assert(capture_moves(r.history@, Player::White) =~= Set::<usize>::empty());
        r
    }
}

impl GameResult {
    /// The win of this result, unless it is flanked (the opponent can
    /// still break it).
    pub fn winner(&self) -> (r: Option<Win>)
        ensures
            opt_win_view(r) == winner_of(*self),
    {
        match &self.win {
            Some(w) => if !w.is_flanked {
                Some(w.clone())
            } else {
                None
            },
            None => None,
        }
    }
}

impl GameState {
    /// The board is square, every recorded move and capture lies on it,
    /// and the capture tally agrees with the history.
    pub open spec fn wf(&self) -> bool {
        &&& board_wf(grid(&self.board))
        &&& forall|i: int|
            0 <= i < self.history@.len() ==> result_fits(
                self.board.len() as int,
                #[trigger] self.history@[i],
            )
        &&& self.captures.count_of(Player::Black) == captured_by(self.history@, Player::Black)
        &&& self.captures.count_of(Player::White) == captured_by(self.history@, Player::White)
        &&& self.captures.moves_of(Player::Black) == capture_moves(self.history@, Player::Black)
        &&& self.captures.moves_of(Player::White) == capture_moves(self.history@, Player::White)
    }

    /// Placing `m` would capture while `m`'s player has already counted
    /// `usize::MAX` pairs.
    pub open spec fn capture_overflows(&self, m: GameMove) -> bool {
        capture_direction(grid(&self.board), m) is Some && self.captures.count_of(m.player_id)
            == usize::MAX
    }

    /// The win that `m` with capture `c` brings: a win made by the move
    /// itself; otherwise, when the move captures nothing, the previous
    /// move's win, now confirmed (no longer flanked, so without a flank).
    pub open spec fn expected_win(&self, m: GameMove, c: Option<Capture>) -> Option<WinView> {
        let g = grid(&self.board);
        let w = win_result(m, c, played_grid(g, m, c), self.captures);
        let h = self.history@;
        if w is Some {
            w
        } else if c is None && h.len() > 0 && h.last().win is Some {
            let last = h.last().win.unwrap()@;
            Some(WinView { is_flanked: false, flank: None, ..last })
        } else {
            None
        }
    }

    /// `res` is what `eval_move` makes of `m`.
    pub open spec fn is_evaluation(&self, m: GameMove, res: GameResult) -> bool {
        &&& res.game_move == m
        &&& capture_result(grid(&self.board), m, res.capture)
        &&& opt_win_view(res.win) == self.expected_win(m, res.capture)
    }

    /// A new game on an empty `size` × `size` board, Black to move.
    pub fn new(size: BoardSize) -> (r: Self)
        ensures
            r.wf(),
            grid(&r.board) == empty_grid(size as nat),
            r.history@.len() == 0,
            r.status == GameStatus::Ongoing,
            r.turn.current_player == Player::Black,
            r.turn.turn == 0,
            r.turn.forbidden_sequences@.len() == 0,
    {
        let r = GameState {
            board: new_board(size as usize),
            history: Vec::new(),
            status: GameStatus::Ongoing,
            captures: CaptureTally::new(),
            turn: GameTurn::default(),
        };
        assert(capture_moves(r.history@, Player::Black) =~= Set::<usize>::empty());
        assert(capture_moves(r.history@, Player::White) =~= Set::<usize>::empty());
        r
    }

    pub fn set_status(&mut self, status: GameStatus)
        ensures
            final(self).status == status,
            final(self).board == old(self).board,
            final(self).history == old(self).history,
            final(self).captures == old(self).captures,
            final(self).turn == old(self).turn,
    {
        self.status = status;
    }

    /// The player to move: the opponent of the last mover, Black at the start.
    pub fn get_current_player(&self) -> (r: Player)
        ensures
            r == current_player(self.history@),
    {
        let n = self.history.len();
        if n > 0 {
            self.history[n - 1].game_move.player_id.opponent()
        } else {
            Player::Black
        }
    }

    /// The win recorded with the last move, flanked or not.
    pub fn get_last_game_winner(&self) -> (r: Option<Win>)
        ensures
            self.history@.len() == 0 ==> r is None,
            self.history@.len() > 0 ==> opt_win_view(r) == opt_win_view(self.history@.last().win),
    {
        let n = self.history.len();
        if n > 0 {
            match &self.history[n - 1].win {
                Some(w) => Some(w.clone()),
                None => None,
            }
        } else {
            None
        }
    }

    /// Works out what `game_move` does on the current board: the capture it
    /// makes and the win it brings.
    pub fn eval_move(&self, game_move: GameMove) -> (res: GameResult)
        requires
            self.wf(),
            game_move.x < self.board.len(),
            game_move.y < self.board.len(),
            !self.capture_overflows(game_move),
        ensures
            self.is_evaluation(game_move, res),
    {
        let ghost g = grid(&self.board);
        let captures = Capture::find_capture(&self.board, &game_move);
        let mut board_after_move = copy_board(&self.board);
        set_cell(&mut board_after_move, game_move.x, game_move.y, Some(game_move.player_id));
        let ghost placed = grid(&board_after_move);
        if let Some(capture) = &captures {
            let cells = &capture.seq;
            let ghost d = capture_direction(g, game_move).unwrap();
            proof {
                lemma_capture_found(g, game_move, 0);
            }
            assert(cells@.len() == 2);
            assert(cells@[0] == captured_cells(game_move, d)[0]);
            assert(cells@[1] == captured_cells(game_move, d)[1]);
            let mut i: usize = 0;
            while i < cells.len()
                invariant
                    g == grid(&self.board),
                    board_wf(g),
                    i <= cells@.len(),
                    board_after_move.len() == self.board.len(),
                    placed.len() == g.len(),
                    board_wf(placed),
                    cells_in_bounds(g.len() as int, cells@),
                    grid(&board_after_move) == set_cells(placed, cells@.take(i as int), None),
                decreases cells.len() - i,
            {
                proof {
                    lemma_set_cells(placed, cells@.take(i as int), None);
                }
                let (x, y) = cells[i];
                set_cell(&mut board_after_move, x, y, None);
                assert(cells@.take(i + 1).drop_last() =~= cells@.take(i as int));
                i += 1;
            }
            assert(cells@.take(cells.len() as int) =~= cells@);
        }
        proof {
            if captures is Some {
                lemma_set_cells(placed, captures.unwrap().seq@, None);
            }
        }
        let winner = match Win::check_for_win(&game_move, &captures, &board_after_move, &self.captures) {
            Some(w) => Some(w),
            None => {
                if captures.is_none() {
                    match self.get_last_game_winner() {
                        Some(mut w) => {
                            w.is_flanked = false;
                            w.flank = None;
                            Some(w)
                        },
                        None => None,
                    }
                } else {
                    None
                }
            },
        };
        GameResult { game_move, capture: captures, win: winner }
    }

    /// Validates a move at (x, y) for the player to move and evaluates it;
    /// the state itself is not changed.
    pub fn apply_move(&mut self, x: usize, y: usize) -> (r: Result<Option<GameResult>, GameError>)
        requires
            old(self).wf(),
            x < old(self).board.len() && y < old(self).board.len() ==> !old(self).capture_overflows(
                GameMove { x, y, player_id: current_player(old(self).history@) },
            ),
        ensures
            *final(self) == *old(self),
            old(self).status == GameStatus::Finished ==> r == Err::<Option<GameResult>, GameError>(
                GameError::GameFinished,
            ),
            old(self).status != GameStatus::Finished && (x >= old(self).board.len() || y >= old(
                self,
            ).board.len()) ==> r == Err::<Option<GameResult>, GameError>(GameError::OutOfBounds),
            old(self).status != GameStatus::Finished && x < old(self).board.len() && y < old(
                self,
            ).board.len() && cell(grid(&old(self).board), x as int, y as int) is Some ==> r == Err::<
                Option<GameResult>,
                GameError,
            >(GameError::CellOccupied),
            old(self).status != GameStatus::Finished && x < old(self).board.len() && y < old(
                self,
            ).board.len() && cell(grid(&old(self).board), x as int, y as int) is None ==> (r matches Ok(
                Some(res),
            ) && old(self).is_evaluation(
                GameMove { x, y, player_id: current_player(old(self).history@) },
                res,
            )),
    {
        if self.status == GameStatus::Finished {
            return Err(GameError::GameFinished);
        }
        if x >= self.board.len() || y >= self.board.len() {
            return Err(GameError::OutOfBounds);
        }
        if get_cell(&self.board, x, y).is_some() {
            return Err(GameError::CellOccupied);
        }
        let cur = self.get_current_player();
        let game_move = GameMove { x, y, player_id: cur };
        let res = self.eval_move(game_move);
        Ok(Some(res))
    }

    /// Records `result` as played: places the stone, removes the captured
    /// stones and counts them for the capturer, finishes the game on an
    /// unflanked win, appends to the history and passes the turn.
    pub fn commit(&mut self, result: GameResult) -> (r: Result<(), GameError>)
        requires
            old(self).wf(),
            result_fits(old(self).board.len() as int, result),
            result.capture matches Some(c) ==> old(self).captures.count_of(
                c.player_id.spec_opponent(),
            ) + c.num_captures <= usize::MAX,
            old(self).turn.turn < usize::MAX,
        ensures
            r is Ok,
            final(self).wf(),
            grid(&final(self).board) == played(grid(&old(self).board), result),
            final(self).history@ == old(self).history@.push(result),
            final(self).status == (if has_winner(result) {
                GameStatus::Finished
            } else {
                old(self).status
            }),
            final(self).captures.count_of(Player::Black) == old(self).captures.count_of(
                Player::Black,
            ) + gain(result, Player::Black),
            final(self).captures.count_of(Player::White) == old(self).captures.count_of(
                Player::White,
            ) + gain(result, Player::White),
            final(self).turn.turn == old(self).turn.turn + 1,
            final(self).turn.current_player == result.game_move.player_id.spec_opponent(),
            is_forbidden_list(
                grid(&final(self).board),
                final(self).turn.current_player,
                final(self).turn.forbidden_sequences@,
            ),
    {
        let ghost g0 = grid(&self.board);
        let ghost h0 = self.history@;
        let m = result.game_move;
        set_cell(&mut self.board, m.x, m.y, Some(m.player_id));
        let ghost placed = grid(&self.board);
        if let Some(capture) = &result.capture {
            let idx = self.history.len();
            self.captures.record(capture.player_id.opponent(), capture.num_captures, idx);
            let ghost tally = self.captures;
            let cells = &capture.seq;
            let mut i: usize = 0;
            while i < cells.len()
                invariant
                    self.history@ == h0,
                    self.captures == tally,
                    self.status == old(self).status,
                    self.turn == old(self).turn,
                    i <= cells@.len(),
                    self.board.len() == g0.len(),
                    placed.len() == g0.len(),
                    board_wf(placed),
                    cells_in_bounds(g0.len() as int, cells@),
                    grid(&self.board) == set_cells(placed, cells@.take(i as int), None),
                decreases cells.len() - i,
            {
                proof {
                    lemma_set_cells(placed, cells@.take(i as int), None);
                }
                let (x, y) = cells[i];
                set_cell(&mut self.board, x, y, None);
                assert(cells@.take(i + 1).drop_last() =~= cells@.take(i as int));
                i += 1;
            }
            assert(cells@.take(cells.len() as int) =~= cells@);
            proof {
                lemma_set_cells(placed, cells@, None);
            }
        }
        if result.winner().is_some() {
            self.status = GameStatus::Finished;
        }
        self.history.push(result);
        let len = self.history.len();
        proof {
            lemma_history_push(h0, result, Player::Black);
            lemma_history_push(h0, result, Player::White);
        }
        let next_player = self.history[len - 1].game_move.player_id.opponent();
        self.turn.update(&next_player, &self.board);
        Ok(())
    }

    /// Takes back the last `count` moves, newest first: clears each move's
    /// cell, puts its captured stones back and uncounts them. Returns the
    /// changed cells in order, or `NoMovesToUndo` once the history runs out
    /// (the moves taken back by then stay taken back).
    pub fn reset(&mut self, count: usize) -> (r: Result<Vec<BoardCell>, GameError>)
        requires
            old(self).wf(),
        ensures
            final(self).wf(),
            final(self).status == old(self).status,
            final(self).turn == old(self).turn,
            old(self).history@.len() == 0 ==> *final(self) == *old(self),
            ({
                let len = old(self).history@.len();
                let k = if count <= len {
                    count as int
                } else {
                    len as int
                };
                &&& final(self).history@ == old(self).history@.take(len - k)
                &&& grid(&final(self).board) == rewound(
                    grid(&old(self).board),
                    old(self).history@,
                    len - k,
                )
                &&& count <= len ==> (r matches Ok(cells) && cells@ == undo_cells(
                    old(self).history@,
                    len - count,
                ))
                &&& count > len ==> r == Err::<Vec<BoardCell>, GameError>(
                    GameError::NoMovesToUndo,
                )
            }),
    {
        let ghost g0 = grid(&self.board);
        let ghost h0 = self.history@;
        let ghost len0 = h0.len() as int;
        let ghost status0 = self.status;
        let ghost turn0 = self.turn;
        let n = self.board.len();
        let mut ret: Vec<BoardCell> = Vec::new();
        let mut i: usize = 0;
        assert(h0.take(len0) =~= h0);
        while i < count
            invariant
                g0 == grid(&old(self).board),
                h0 == old(self).history@,
                len0 == h0.len(),
                status0 == old(self).status,
                turn0 == old(self).turn,
                self.wf(),
                i <= count,
                i <= len0,
                n == self.board.len(),
                n == g0.len(),
                self.history@ == h0.take(len0 - i),
                grid(&self.board) == rewound(g0, h0, len0 - i),
                ret@ == undo_cells(h0, len0 - i),
                self.status == status0,
                self.turn == turn0,
                i == 0 ==> *self == *old(self),
            decreases count - i,
        {
            if self.history.len() == 0 {
                return Err(GameError::NoMovesToUndo);
            }
            let ghost before = self.history@;
            let ghost g_before = grid(&self.board);
            let ghost ret_before = ret@;
            let last = match self.history.pop() {
                Some(r) => r,
                None => {
                    return Err(GameError::NoMovesToUndo);
                },
            };
            proof {
                assert(before.last() == h0[len0 - i - 1]);
                assert(self.history@ =~= h0.take(len0 - i - 1));
                assert(result_fits(n as int, before[before.len() - 1]));
                lemma_history_pop(before, Player::Black);
                lemma_history_pop(before, Player::White);
            }
            let gs_index = self.history.len();
            let m = last.game_move;
            set_cell(&mut self.board, m.x, m.y, None);
            let ghost lifted = grid(&self.board);
            match last.capture {
                Some(capture) => {
                    let cells = capture.seq;
                    let q = capture.player_id;
                    let mut j: usize = 0;
                    let ghost tally = self.captures;
                    let ghost hist = self.history@;
                    while j < cells.len()
                        invariant
                            self.captures == tally,
                            self.history@ == hist,
                            self.status == status0,
                            self.turn == turn0,
                            j <= cells@.len(),
                            n == self.board.len(),
                            lifted.len() == n,
                            board_wf(lifted),
                            cells_in_bounds(n as int, cells@),
                            grid(&self.board) == set_cells(lifted, cells@.take(j as int), Some(q)),
                            ret@ == ret_before + cells@.take(j as int).map_values(
                                |xy: (usize, usize)| BoardCell { x: xy.0, y: xy.1, player_id: Some(q) },
                            ),
                        decreases cells.len() - j,
                    {
                        proof {
                            lemma_set_cells(lifted, cells@.take(j as int), Some(q));
                        }
                        let (x, y) = cells[j];
                        set_cell(&mut self.board, x, y, Some(q));
                        ret.push(BoardCell { x, y, player_id: Some(q) });
                        assert(cells@.take(j + 1).drop_last() =~= cells@.take(j as int));
                        assert(cells@.take(j + 1).map_values(
                            |xy: (usize, usize)| BoardCell { x: xy.0, y: xy.1, player_id: Some(q) },
                        ) =~= cells@.take(j as int).map_values(
                            |xy: (usize, usize)| BoardCell { x: xy.0, y: xy.1, player_id: Some(q) },
                        ).push(BoardCell { x, y, player_id: Some(q) }));
                        j += 1;
                    }
                    assert(cells@.take(cells.len() as int) =~= cells@);
                    proof {
                        lemma_set_cells(lifted, cells@, Some(q));
                    }
                    self.captures.unrecord(q.opponent(), capture.num_captures, gs_index);
                },
                None => {},
            }
            ret.push(BoardCell { x: m.x, y: m.y, player_id: None });
            proof {
                assert(ret@ =~= undo_cells(h0, len0 - i - 1));
            }
            i += 1;
        }
        Ok(ret)
    }
}

proof fn lemma_captured_by_nonneg(h: Seq<GameResult>, p: Player)
    ensures
        captured_by(h, p) >= 0,
    decreases h.len(),
{
    if h.len() > 0 {
        lemma_captured_by_nonneg(h.drop_last(), p);
    }
}

proof fn lemma_history_push(h: Seq<GameResult>, r: GameResult, p: Player)
    requires
        h.len() < usize::MAX,
    ensures
        captured_by(h.push(r), p) == captured_by(h, p) + gain(r, p),
        capture_moves(h.push(r), p) == if captures_for(r, p) {
            capture_moves(h, p).insert(h.len() as usize)
        } else {
            capture_moves(h, p)
        },
{
    assert(h.push(r).drop_last() =~= h);
    let a = capture_moves(h.push(r), p);
    let b = if captures_for(r, p) {
        capture_moves(h, p).insert(h.len() as usize)
    } else {
        capture_moves(h, p)
    };
    assert forall|i: usize| a.contains(i) <==> b.contains(i) by {
        if i < h.len() {
            assert(h.push(r)[i as int] == h[i as int]);
        }
    }
    assert(a =~= b);
}

proof fn lemma_history_pop(h: Seq<GameResult>, p: Player)
    requires
        h.len() > 0,
        h.len() <= usize::MAX,
    ensures
        captured_by(h.drop_last(), p) == captured_by(h, p) - gain(h.last(), p),
        captured_by(h.drop_last(), p) >= 0,
        capture_moves(h.drop_last(), p) == capture_moves(h, p).remove((h.len() - 1) as usize),
        !captures_for(h.last(), p) ==> capture_moves(h.drop_last(), p) == capture_moves(h, p),
{
    lemma_captured_by_nonneg(h.drop_last(), p);
    let a = capture_moves(h.drop_last(), p);
    let b = capture_moves(h, p).remove((h.len() - 1) as usize);
    assert forall|i: usize| a.contains(i) <==> b.contains(i) by {
        if i < h.len() - 1 {
            assert(h.drop_last()[i as int] == h[i as int]);
        }
    }
    assert(a =~= b);
    if !captures_for(h.last(), p) {
        assert(a =~= capture_moves(h, p));
    }
}


/// Undo inverts a move: when a legal move (on an empty cell) is evaluated
/// and committed, taking one move back yields the board and the history
/// it was played on.
pub proof fn lemma_undo_inverts_move(
    g: Seq<Seq<Option<Player>>>,
    h: Seq<GameResult>,
    m: GameMove,
    res: GameResult,
)
    requires
        board_wf(g),
        m.x < g.len(),
        m.y < g.len(),
        cell(g, m.x as int, m.y as int) is None,
        res.game_move == m,
        capture_result(g, m, res.capture),
    ensures
        rewound(played(g, res), h.push(res), h.len() as int) == g,
        h.push(res).take(h.len() as int) == h,
        undo_cells(h.push(res), h.len() as int) == undo_cells_of(res),
{
    let h1 = h.push(res);
    assert(h1[h.len() as int] == res);
    assert(h1.take(h.len() as int) =~= h);
    assert(rewound(played(g, res), h1, h.len() + 1int) == played(g, res));
    assert(undo_cells(h1, h.len() + 1int) == Seq::<BoardCell>::empty());
    assert(undo_cells(h1, h.len() as int) =~= undo_cells_of(res));
    if res.capture is Some {
        let c = res.capture.unwrap();
        lemma_capture_found(g, m, 0);
        let d = capture_direction(g, m).unwrap();
        assert(c.seq@ == captured_cells(m, d));
        assert(!c.seq@.contains((m.x, m.y))) by {
            if c.seq@.contains((m.x, m.y)) {
                let k = choose|k: int| 0 <= k < c.seq@.len() && c.seq@[k] == (m.x, m.y);
                assert(k == 0 || k == 1);
            }
        }
        assert forall|k: int| 0 <= k < c.seq@.len() implies cell(
            g,
            (#[trigger] c.seq@[k]).0 as int,
            c.seq@[k].1 as int,
        ) == Some(c.player_id) by {
            assert(k == 0 || k == 1);
        }
        assert(cells_in_bounds(g.len() as int, c.seq@)) by {
            assert forall|k: int| 0 <= k < c.seq@.len() implies (#[trigger] c.seq@[k]).0 < g.len()
                && c.seq@[k].1 < g.len() by {
                assert(k == 0 || k == 1);
            }
        }
    }
    lemma_unplayed_played(g, res);
}


/// Black moves first, and the players alternate: after a move of the
/// player to move, the turn passes to the other player.
pub proof fn lemma_players_alternate(h: Seq<GameResult>, r: GameResult)
    requires
        r.game_move.player_id == current_player(h),
    ensures
        current_player(Seq::<GameResult>::empty()) == Player::Black,
        current_player(h.push(r)) == current_player(h).spec_opponent(),
        current_player(h.push(r)) != current_player(h),
{
    assert(h.push(r).last() == r);
}

/// Playing a legal move and taking it back restores the game: after a move
/// on an empty cell is evaluated and committed (`s0` to `s1`) and one move
/// is taken back (`s1` to `s2`), the board, the history and both players'
/// capture counts and capturing moves are those of `s0`.
pub proof fn lemma_commit_then_undo(
    s0: GameState,
    s1: GameState,
    s2: GameState,
    m: GameMove,
    res: GameResult,
)
    requires
        s0.wf(),
        m.x < s0.board.len(),
        m.y < s0.board.len(),
        cell(grid(&s0.board), m.x as int, m.y as int) is None,
        s0.is_evaluation(m, res),
        s1.wf(),
        grid(&s1.board) == played(grid(&s0.board), res),
        s1.history@ == s0.history@.push(res),
        s2.wf(),
        s2.history@ == s1.history@.take(s1.history@.len() - 1),
        grid(&s2.board) == rewound(grid(&s1.board), s1.history@, s1.history@.len() - 1),
    ensures
        grid(&s2.board) == grid(&s0.board),
        s2.history@ == s0.history@,
        s2.captures.count_of(Player::Black) == s0.captures.count_of(Player::Black),
        s2.captures.count_of(Player::White) == s0.captures.count_of(Player::White),
        s2.captures.moves_of(Player::Black) == s0.captures.moves_of(Player::Black),
        s2.captures.moves_of(Player::White) == s0.captures.moves_of(Player::White),
{
    lemma_undo_inverts_move(grid(&s0.board), s0.history@, m, res);
}

} // verus!
