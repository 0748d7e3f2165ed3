use vstd::prelude::*;

use crate::game::capture::Capture;
use crate::game::state::types::{CaptureTally, GameMove, Player};
use crate::shared::types::{
    board_wf, cell, get_cell, grid, in_bounds, stone_of, Board, MAX_BOARD_SIDE,
};

verus! {

/// A pair of stones that the opponent can still capture, which would
/// break a five in a row.
#[derive(Clone, Copy, Debug)]
pub struct FlankInfo {
    /// A stone of the flankable pair (lies inside `Win::win_seq`).
    pub stone: (usize, usize),
    /// Axis of the flankable pair (one of (1,0), (0,1), (1,1), (1,-1)).
    pub direction: (isize, isize),
    /// Empty edge cell where the opponent can complete the capture.
    pub capture_move: (usize, usize),
}

/// A win, by five in a row or by captures.
#[derive(Debug)]
pub struct Win {
    pub player_id: Player,
    pub win_seq: Option<Vec<(usize, usize)>>,
    pub is_by_five: bool,
    pub is_flanked: bool,
    /// Set only when `is_flanked` is true.
    pub flank: Option<FlankInfo>,
}

/// A `Win` with its winning line as a sequence.
pub struct WinView {
    pub player_id: Player,
    pub win_seq: Option<Seq<(usize, usize)>>,
    pub is_by_five: bool,
    pub is_flanked: bool,
    pub flank: Option<FlankInfo>,
}

impl View for Win {
    type V = WinView;

    open spec fn view(&self) -> WinView {
        WinView {
            player_id: self.player_id,
            win_seq: match self.win_seq {
                Some(v) => Some(v@),
                None => None,
            },
            is_by_five: self.is_by_five,
            is_flanked: self.is_flanked,
            flank: self.flank,
        }
    }
}

/// The view of an optional win.
pub open spec fn opt_win_view(w: Option<Win>) -> Option<WinView> {
    match w {
        Some(w) => Some(w@),
        None => None,
    }
}

pub fn copy_cells(v: &Vec<(usize, usize)>) -> (r: Vec<(usize, usize)>)
    ensures
        r@ == v@,
{
    let mut r: Vec<(usize, usize)> = Vec::new();
    let mut i: usize = 0;
    while i < v.len()
        invariant
            i <= v.len(),
            r@ == v@.take(i as int),
        decreases v.len() - i,
    {
        r.push(v[i]);
        i += 1;
        assert(r@ =~= v@.take(i as int));
    }
    assert(v@.take(v.len() as int) =~= v@);
    r
}

impl Clone for Win {
    fn clone(&self) -> (r: Self)
        ensures
            r@ == self@,
    {
        let win_seq = match &self.win_seq {
            Some(v) => Some(copy_cells(v)),
            None => None,
        };
        Win {
            player_id: self.player_id,
            win_seq,
            is_by_five: self.is_by_five,
            is_flanked: self.is_flanked,
            flank: self.flank,
        }
    }
}

/// The trait that win conditions share.
pub trait GameWin {}

/// Pairs a player must have captured to win.
pub const CAPTURES_TO_WIN: usize = 5;

/// Stones in a row a player needs to win.
pub const STONES_TO_WIN: usize = 5;

/// A step that moves, small enough that adding it, or its reverse, to a
/// position on the board cannot overflow an `isize`.
pub open spec fn step_dir(dx: int, dy: int) -> bool {
    &&& !(dx == 0 && dy == 0)
    &&& -(isize::MAX - MAX_BOARD_SIDE) <= dx <= isize::MAX - MAX_BOARD_SIDE
    &&& -(isize::MAX - MAX_BOARD_SIDE) <= dy <= isize::MAX - MAX_BOARD_SIDE
}

/// Number of consecutive stones of `p` met when stepping from (x, y) by
/// (dx, dy), looking at no more than `fuel` cells.
pub open spec fn run_len(
    g: Seq<Seq<Option<Player>>>,
    x: int,
    y: int,
    dx: int,
    dy: int,
    p: Player,
    fuel: nat,
) -> nat
    decreases fuel,
{
    if fuel > 0 && stone_of(g, x + dx, y + dy, p) {
        1 + run_len(g, x + dx, y + dy, dx, dy, p, (fuel - 1) as nat)
    } else {
        0
    }
}

/// The cells of that run, nearest first.
pub open spec fn run_cells(
    g: Seq<Seq<Option<Player>>>,
    x: int,
    y: int,
    dx: int,
    dy: int,
    p: Player,
    fuel: nat,
) -> Seq<(usize, usize)>
    decreases fuel,
{
    if fuel > 0 && stone_of(g, x + dx, y + dy, p) {
        seq![((x + dx) as usize, (y + dy) as usize)] + run_cells(
            g,
            x + dx,
            y + dy,
            dx,
            dy,
            p,
            (fuel - 1) as nat,
        )
    } else {
        seq![]
    }
}

/// The cell just past that run.
pub open spec fn run_end(
    g: Seq<Seq<Option<Player>>>,
    x: int,
    y: int,
    dx: int,
    dy: int,
    p: Player,
    fuel: nat,
) -> (int, int)
    decreases fuel,
{
    if fuel > 0 && stone_of(g, x + dx, y + dy, p) {
        run_end(g, x + dx, y + dy, dx, dy, p, (fuel - 1) as nat)
    } else {
        (x + dx, y + dy)
    }
}

/// Stones of `p` next to (x, y) in direction (dx, dy), up to the first
/// cell that is empty, the opponent's, or off the board.
pub open spec fn stones_along(
    g: Seq<Seq<Option<Player>>>,
    x: int,
    y: int,
    dx: int,
    dy: int,
    p: Player,
) -> nat {
    run_len(g, x, y, dx, dy, p, g.len())
}

pub open spec fn cells_along(
    g: Seq<Seq<Option<Player>>>,
    x: int,
    y: int,
    dx: int,
    dy: int,
    p: Player,
) -> Seq<(usize, usize)> {
    run_cells(g, x, y, dx, dy, p, g.len())
}

pub open spec fn end_along(
    g: Seq<Seq<Option<Player>>>,
    x: int,
    y: int,
    dx: int,
    dy: int,
    p: Player,
) -> (int, int) {
    run_end(g, x, y, dx, dy, p, g.len())
}

/// (dx, dy), or its reverse when `m` is negative.
pub open spec fn oriented(m: int, d: int) -> int {
    if m < 0 {
        -d
    } else {
        d
    }
}

proof fn lemma_run_stones(
    g: Seq<Seq<Option<Player>>>,
    x: int,
    y: int,
    dx: int,
    dy: int,
    p: Player,
    fuel: nat,
)
    requires
        g.len() <= usize::MAX,
    ensures
        forall|k: int|
            0 <= k < run_cells(g, x, y, dx, dy, p, fuel).len() ==> stone_of(
                g,
                (#[trigger] run_cells(g, x, y, dx, dy, p, fuel)[k]).0 as int,
                run_cells(g, x, y, dx, dy, p, fuel)[k].1 as int,
                p,
            ),
    decreases fuel,
{
    if fuel > 0 && stone_of(g, x + dx, y + dy, p) {
        lemma_run_stones(g, x + dx, y + dy, dx, dy, p, (fuel - 1) as nat);
        let rest = run_cells(g, x + dx, y + dy, dx, dy, p, (fuel - 1) as nat);
        let all = run_cells(g, x, y, dx, dy, p, fuel);
        assert forall|k: int| 0 <= k < all.len() implies stone_of(
            g,
            (#[trigger] all[k]).0 as int,
            all[k].1 as int,
            p,
        ) by {
            if k > 0 {
                assert(all[k] == rest[k - 1]);
            }
        }
    }
}

proof fn lemma_run_cells(
    g: Seq<Seq<Option<Player>>>,
    x: int,
    y: int,
    dx: int,
    dy: int,
    p: Player,
    fuel: nat,
)
    ensures
        run_cells(g, x, y, dx, dy, p, fuel).len() == run_len(g, x, y, dx, dy, p, fuel),
        forall|k: int|
            0 <= k < run_cells(g, x, y, dx, dy, p, fuel).len() ==> in_bounds(
                g,
                (#[trigger] run_cells(g, x, y, dx, dy, p, fuel)[k]).0 as int,
                run_cells(g, x, y, dx, dy, p, fuel)[k].1 as int,
            ),
    decreases fuel,
{
    if fuel > 0 && stone_of(g, x + dx, y + dy, p) {
        lemma_run_cells(g, x + dx, y + dy, dx, dy, p, (fuel - 1) as nat);
        let rest = run_cells(g, x + dx, y + dy, dx, dy, p, (fuel - 1) as nat);
        let all = run_cells(g, x, y, dx, dy, p, fuel);
        assert forall|k: int| 0 <= k < all.len() implies in_bounds(
            g,
            (#[trigger] all[k]).0 as int,
            all[k].1 as int,
        ) by {
            if k > 0 {
                assert(all[k] == rest[k - 1]);
            }
        }
    }
}

/// The stones of a line through (x, y) along (dx, dy): the stone itself,
/// then those behind it, then those ahead.
pub open spec fn line_cells(
    g: Seq<Seq<Option<Player>>>,
    x: usize,
    y: usize,
    dx: int,
    dy: int,
    p: Player,
) -> Seq<(usize, usize)> {
    seq![(x, y)] + cells_along(g, x as int, y as int, -dx, -dy, p) + cells_along(
        g,
        x as int,
        y as int,
        dx,
        dy,
        p,
    )
}

/// The length of that line.
pub open spec fn line_len(
    g: Seq<Seq<Option<Player>>>,
    x: usize,
    y: usize,
    dx: int,
    dy: int,
    p: Player,
) -> nat {
    1 + stones_along(g, x as int, y as int, -dx, -dy, p) + stones_along(
        g,
        x as int,
        y as int,
        dx,
        dy,
        p,
    )
}

/// Along (dx, dy), the stone of `p` at (x, y) forms exactly a pair with a
/// neighbour, one end of the pair holds an opponent stone and the other is
/// empty: the opponent captures the pair by playing on the empty end.
pub open spec fn flank_in_dir(
    g: Seq<Seq<Option<Player>>>,
    x: usize,
    y: usize,
    dx: isize,
    dy: isize,
    p: Player,
) -> Option<FlankInfo> {
    let fe = end_along(g, x as int, y as int, dx as int, dy as int, p);
    let be = end_along(g, x as int, y as int, -dx, -dy, p);
    let q = p.spec_opponent();
    if line_len(g, x, y, dx as int, dy as int, p) != 2 || !in_bounds(g, fe.0, fe.1) || !in_bounds(
        g,
        be.0,
        be.1,
    ) {
        None
    } else if cell(g, fe.0, fe.1) is None && cell(g, be.0, be.1) == Some(q) {
        Some(
            FlankInfo {
                stone: (x, y),
                direction: (dx, dy),
                capture_move: (fe.0 as usize, fe.1 as usize),
            },
        )
    } else if cell(g, fe.0, fe.1) == Some(q) && cell(g, be.0, be.1) is None {
        Some(
            FlankInfo {
                stone: (x, y),
                direction: (dx, dy),
                capture_move: (be.0 as usize, be.1 as usize),
            },
        )
    } else {
        None
    }
}

/// The first axis, of horizontal, vertical, diagonal and anti-diagonal,
/// along which the stone at (x, y) can be captured.
pub open spec fn flank_at(g: Seq<Seq<Option<Player>>>, x: usize, y: usize, p: Player) -> Option<
    FlankInfo,
> {
    if flank_in_dir(g, x, y, 1, 0, p) is Some {
        flank_in_dir(g, x, y, 1, 0, p)
    } else if flank_in_dir(g, x, y, 0, 1, p) is Some {
        flank_in_dir(g, x, y, 0, 1, p)
    } else if flank_in_dir(g, x, y, 1, 1, p) is Some {
        flank_in_dir(g, x, y, 1, 1, p)
    } else {
        flank_in_dir(g, x, y, 1, -1isize, p)
    }
}

/// The flank of the first stone of `cells` that can be captured.
pub open spec fn first_flank(
    g: Seq<Seq<Option<Player>>>,
    cells: Seq<(usize, usize)>,
    p: Player,
) -> Option<FlankInfo>
    decreases cells.len(),
{
    if cells.len() == 0 {
        None
    } else if flank_at(g, cells[0].0, cells[0].1, p) is Some {
        flank_at(g, cells[0].0, cells[0].1, p)
    } else {
        first_flank(g, cells.drop_first(), p)
    }
}

/// The win that `m` makes along (dx, dy): five or more stones in a line,
/// flanked when one of them can still be captured.
pub open spec fn dir_win(g: Seq<Seq<Option<Player>>>, m: GameMove, dx: int, dy: int) -> Option<
    WinView,
> {
    let p = m.player_id;
    let cells = line_cells(g, m.x, m.y, dx, dy, p);
    if line_len(g, m.x, m.y, dx, dy, p) >= STONES_TO_WIN {
        Some(
            WinView {
                player_id: p,
                win_seq: Some(cells),
                is_by_five: true,
                is_flanked: first_flank(g, cells, p) is Some,
                flank: first_flank(g, cells, p),
            },
        )
    } else {
        None
    }
}

pub open spec fn unflanked(w: Option<WinView>) -> bool {
    w is Some && !w.unwrap().is_flanked
}

/// The five-in-a-row win of `m`: the first axis with an unflanked five,
/// otherwise the last axis with a flanked one.
pub open spec fn five_win(g: Seq<Seq<Option<Player>>>, m: GameMove) -> Option<WinView> {
    let w0 = dir_win(g, m, 1, 0);
    let w1 = dir_win(g, m, 0, 1);
    let w2 = dir_win(g, m, 1, 1);
    let w3 = dir_win(g, m, 1, -1);
    if unflanked(w0) {
        w0
    } else if unflanked(w1) {
        w1
    } else if unflanked(w2) {
        w2
    } else if unflanked(w3) {
        w3
    } else if w3 is Some {
        w3
    } else if w2 is Some {
        w2
    } else if w1 is Some {
        w1
    } else {
        w0
    }
}

/// The win by captures of `p` after capture `c`.
pub open spec fn capture_win(tally: CaptureTally, p: Player, c: Capture) -> Option<WinView> {
    if tally.count_of(p) + c.num_captures >= CAPTURES_TO_WIN {
        Some(
            WinView {
                player_id: p,
                win_seq: None,
                is_by_five: false,
                is_flanked: false,
                flank: None,
            },
        )
    } else {
        None
    }
}

/// The win that move `m`, with capture `c`, makes on `g` (the board after
/// the move), given the captures made so far.
pub open spec fn win_result(
    m: GameMove,
    c: Option<Capture>,
    g: Seq<Seq<Option<Player>>>,
    tally: CaptureTally,
) -> Option<WinView> {
    match c {
        Some(c) => if capture_win(tally, m.player_id, c) is Some {
            capture_win(tally, m.player_id, c)
        } else {
            five_win(g, m)
        },
        None => five_win(g, m),
    }
}

impl Win {
    /// Checks whether `game_move` wins, first by captures, then by five
    /// in a row on `board`, the board after the move.
    pub fn check_for_win(
        game_move: &GameMove,
        game_captures: &Option<Capture>,
        board: &Board,
        history_captures: &CaptureTally,
    ) -> (r: Option<Win>)
        requires
            board_wf(grid(board)),
            game_captures matches Some(c) ==> history_captures.count_of(game_move.player_id)
                + c.num_captures <= usize::MAX,
            game_move.x < board.len() && game_move.y < board.len() || (game_captures matches Some(c)
                && capture_win(*history_captures, game_move.player_id, *c) is Some),
        ensures
            opt_win_view(r) == win_result(*game_move, *game_captures, grid(board), *history_captures),
    {
        let current_player = game_move.player_id;
        if let Some(cap) = game_captures {
            if let Some(win) = Self::check_win_by_captures(current_player, cap, history_captures) {
                return Some(win);
            }
        }
        Self::check_win_by_five_in_a_row(game_move, board)
    }

    fn check_win_by_five_in_a_row(game_move: &GameMove, board: &Board) -> (r: Option<Win>)
        requires
            board_wf(grid(board)),
            game_move.x < board.len(),
            game_move.y < board.len(),
        ensures
            opt_win_view(r) == five_win(grid(board), *game_move),
    {
        let ghost g = grid(board);
        let ghost m = *game_move;
        let w0 = Self::check_direction_for_win(board, game_move, 1, 0);
        let u0 = match &w0 {
            Some(w) => !w.is_flanked,
            None => false,
        };
        if u0 {
            return w0;
        }
        let w1 = Self::check_direction_for_win(board, game_move, 0, 1);
        let u1 = match &w1 {
            Some(w) => !w.is_flanked,
            None => false,
        };
        if u1 {
            return w1;
        }
        let w2 = Self::check_direction_for_win(board, game_move, 1, 1);
        let u2 = match &w2 {
            Some(w) => !w.is_flanked,
            None => false,
        };
        if u2 {
            return w2;
        }
        let w3 = Self::check_direction_for_win(board, game_move, 1, -1);
        let u3 = match &w3 {
            Some(w) => !w.is_flanked,
            None => false,
        };
        if u3 {
            return w3;
        }
        let mut flanked_win: Option<Win> = None;
        if w0.is_some() {
            flanked_win = w0;
        }
        if w1.is_some() {
            flanked_win = w1;
        }
        if w2.is_some() {
            flanked_win = w2;
        }
        if w3.is_some() {
            flanked_win = w3;
        }
        flanked_win
    }

    fn is_position_in_bounds(board: &Board, x: isize, y: isize) -> (r: bool)
        requires
            board.len() <= MAX_BOARD_SIDE,
        ensures
            r == in_bounds(grid(board), x as int, y as int),
    {
        x >= 0 && y >= 0 && x < board.len() as isize && y < board.len() as isize
    }

    fn check_flanked_in_direction(
        board: &Board,
        x: usize,
        y: usize,
        dx: isize,
        dy: isize,
        current_player: Player,
    ) -> (r: Option<FlankInfo>)
        requires
            board_wf(grid(board)),
            x < board.len(),
            y < board.len(),
            step_dir(dx as int, dy as int),
        ensures
            r == flank_in_dir(grid(board), x, y, dx, dy, current_player),
    {
        let ghost g = grid(board);
        let opponent = current_player.opponent();
        let n = board.len();
        let (forward_steps, fx, fy) = Self::walk(board, x, y, dx, dy, current_player);
        let (backward_steps, bx, by) = Self::walk(board, x, y, -dx, -dy, current_player);
        let count = 1 + forward_steps + backward_steps;
        if count != 2 {
            return None;
        }
        let forward_edge_x = fx + dx;
        let forward_edge_y = fy + dy;
        let backward_edge_x = bx - dx;
        let backward_edge_y = by - dy;
        let forward_in_bounds = Self::is_position_in_bounds(board, forward_edge_x, forward_edge_y);
        let backward_in_bounds = Self::is_position_in_bounds(
            board,
            backward_edge_x,
            backward_edge_y,
        );
        if !forward_in_bounds || !backward_in_bounds {
            return None;
        }
        let forward_edge = get_cell(board, forward_edge_x as usize, forward_edge_y as usize);
        let backward_edge = get_cell(board, backward_edge_x as usize, backward_edge_y as usize);
        let forward_empty = forward_edge.is_none();
        let backward_empty = backward_edge.is_none();
        let forward_opp = match forward_edge {
            Some(q) => q == opponent,
            None => false,
        };
        let backward_opp = match backward_edge {
            Some(q) => q == opponent,
            None => false,
        };
        let capture_edge: Option<(usize, usize)> = if forward_empty && backward_opp {
            Some((forward_edge_x as usize, forward_edge_y as usize))
        } else if forward_opp && backward_empty {
            Some((backward_edge_x as usize, backward_edge_y as usize))
        } else {
            None
        };
        match capture_edge {
            Some(capture_move) => Some(
                FlankInfo { stone: (x, y), direction: (dx, dy), capture_move },
            ),
            None => None,
        }
    }

    /// Steps from (x, y) by (dx, dy) over the stones of `p`; returns how
    /// many there are and the position of the last one.
    fn walk(board: &Board, x: usize, y: usize, dx: isize, dy: isize, p: Player) -> (r: (
        usize,
        isize,
        isize,
    ))
        requires
            board_wf(grid(board)),
            x < board.len(),
            y < board.len(),
            step_dir(dx as int, dy as int),
        ensures
            r.0 == stones_along(grid(board), x as int, y as int, dx as int, dy as int, p),
            (r.1 + dx, r.2 + dy) == end_along(
                grid(board),
                x as int,
                y as int,
                dx as int,
                dy as int,
                p,
            ),
            r.0 <= board.len(),
            in_bounds(grid(board), r.1 as int, r.2 as int),
    {
        let ghost g = grid(board);
        let n = board.len();
        let mut steps: usize = 0;
        let mut cx = x as isize;
        let mut cy = y as isize;
        loop
            invariant
                g == grid(board),
                board_wf(g),
                n == board.len(),
                step_dir(dx as int, dy as int),
                steps <= n,
                in_bounds(g, cx as int, cy as int),
                stones_along(g, x as int, y as int, dx as int, dy as int, p) == steps + run_len(
                    g,
                    cx as int,
                    cy as int,
                    dx as int,
                    dy as int,
                    p,
                    (n - steps) as nat,
                ),
                end_along(g, x as int, y as int, dx as int, dy as int, p) == run_end(
                    g,
                    cx as int,
                    cy as int,
                    dx as int,
                    dy as int,
                    p,
                    (n - steps) as nat,
                ),
            ensures
                steps <= n,
                in_bounds(g, cx as int, cy as int),
                stones_along(g, x as int, y as int, dx as int, dy as int, p) == steps,
                end_along(g, x as int, y as int, dx as int, dy as int, p) == (
                    cx + dx,
                    cy + dy,
                ),
            decreases n - steps,
        {
            if steps >= n {
                break;
            }
            let nx = cx + dx;
            let ny = cy + dy;
            if !Self::is_position_in_bounds(board, nx, ny) {
                break;
            }
            let is_own = match get_cell(board, nx as usize, ny as usize) {
                Some(q) => q == p,
                None => false,
            };
            if !is_own {
                break;
            }
            steps += 1;
            cx = nx;
            cy = ny;
        }
        (steps, cx, cy)
    }

    fn check_flanked(board: &Board, x: usize, y: usize, current_player: Player) -> (r: Option<
        FlankInfo,
    >)
        requires
            board_wf(grid(board)),
            x < board.len(),
            y < board.len(),
        ensures
            r == flank_at(grid(board), x, y, current_player),
    {
        if let Some(info) = Self::check_flanked_in_direction(board, x, y, 1, 0, current_player) {
            return Some(info);
        }
        if let Some(info) = Self::check_flanked_in_direction(board, x, y, 0, 1, current_player) {
            return Some(info);
        }
        if let Some(info) = Self::check_flanked_in_direction(board, x, y, 1, 1, current_player) {
            return Some(info);
        }
        if let Some(info) = Self::check_flanked_in_direction(board, x, y, 1, -1, current_player) {
            return Some(info);
        }
        None
    }

    fn count_stones_in_direction(
        board: &Board,
        start_x: usize,
        start_y: usize,
        dx: isize,
        dy: isize,
        direction_multiplier: isize,
        current_player: Player,
        win_seq: &mut Vec<(usize, usize)>,
    ) -> (r: usize)
        requires
            board_wf(grid(board)),
            start_x < board.len(),
            start_y < board.len(),
            step_dir(dx as int, dy as int),
            direction_multiplier == 1 || direction_multiplier == -1,
        ensures
            r == stones_along(
                grid(board),
                start_x as int,
                start_y as int,
                oriented(direction_multiplier as int, dx as int),
                oriented(direction_multiplier as int, dy as int),
                current_player,
            ),
            r <= board.len(),
            final(win_seq)@ == old(win_seq)@ + cells_along(
                grid(board),
                start_x as int,
                start_y as int,
                oriented(direction_multiplier as int, dx as int),
                oriented(direction_multiplier as int, dy as int),
                current_player,
            ),
    {
        let ghost g = grid(board);
        let ghost start_seq = win_seq@;
        let sdx: isize = if direction_multiplier < 0 {
            -dx
        } else {
            dx
        };
        let sdy: isize = if direction_multiplier < 0 {
            -dy
        } else {
            dy
        };
        let n = board.len();
        let mut stones: usize = 0;
        let mut cx = start_x as isize;
        let mut cy = start_y as isize;
        loop
            invariant
                g == grid(board),
                board_wf(g),
                n == board.len(),
                step_dir(sdx as int, sdy as int),
                stones <= n,
                in_bounds(g, cx as int, cy as int),
                stones_along(g, start_x as int, start_y as int, sdx as int, sdy as int, current_player)
                    == stones + run_len(
                    g,
                    cx as int,
                    cy as int,
                    sdx as int,
                    sdy as int,
                    current_player,
                    (n - stones) as nat,
                ),
                start_seq + cells_along(
                    g,
                    start_x as int,
                    start_y as int,
                    sdx as int,
                    sdy as int,
                    current_player,
                ) == win_seq@ + run_cells(
                    g,
                    cx as int,
                    cy as int,
                    sdx as int,
                    sdy as int,
                    current_player,
                    (n - stones) as nat,
                ),
            ensures
                stones <= n,
                stones_along(g, start_x as int, start_y as int, sdx as int, sdy as int, current_player)
                    == stones,
                start_seq + cells_along(
                    g,
                    start_x as int,
                    start_y as int,
                    sdx as int,
                    sdy as int,
                    current_player,
                ) == win_seq@,
            decreases n - stones,
        {
            if stones >= n {
                assert(win_seq@ + seq![] =~= win_seq@);
                break;
            }
            let nx = cx + sdx;
            let ny = cy + sdy;
            if !Self::is_position_in_bounds(board, nx, ny) {
                assert(win_seq@ + seq![] =~= win_seq@);
                break;
            }
            let is_own = match get_cell(board, nx as usize, ny as usize) {
                Some(q) => q == current_player,
                None => false,
            };
            if !is_own {
                assert(win_seq@ + seq![] =~= win_seq@);
                break;
            }
            let ghost before = win_seq@;
            win_seq.push((nx as usize, ny as usize));
            proof {
                let rest = run_cells(
                    g,
                    nx as int,
                    ny as int,
                    sdx as int,
                    sdy as int,
                    current_player,
                    (n - stones - 1) as nat,
                );
                assert(before + (seq![(nx as usize, ny as usize)] + rest) =~= win_seq@ + rest);
            }
            stones += 1;
            cx = nx;
            cy = ny;
        }
        stones
    }

    fn check_direction_for_win(board: &Board, game_move: &GameMove, dx: isize, dy: isize) -> (r:
        Option<Win>)
        requires
            board_wf(grid(board)),
            game_move.x < board.len(),
            game_move.y < board.len(),
            step_dir(dx as int, dy as int),
        ensures
            opt_win_view(r) == dir_win(grid(board), *game_move, dx as int, dy as int),
    {
        let ghost g = grid(board);
        let current_player = game_move.player_id;
        let mut stones: usize = 1;
        let mut win_seq: Vec<(usize, usize)> = Vec::new();
        win_seq.push((game_move.x, game_move.y));
        let back = Self::count_stones_in_direction(
            board,
            game_move.x,
            game_move.y,
            dx,
            dy,
            -1,
            current_player,
            &mut win_seq,
        );
        stones += back;
        let fwd = Self::count_stones_in_direction(
            board,
            game_move.x,
            game_move.y,
            dx,
            dy,
            1,
            current_player,
            &mut win_seq,
        );
        stones += fwd;
        let ghost cells = line_cells(g, game_move.x, game_move.y, dx as int, dy as int, current_player);
        assert(win_seq@ =~= cells);
        if stones >= STONES_TO_WIN {
            proof {
                lemma_run_cells(
                    g,
                    game_move.x as int,
                    game_move.y as int,
                    -dx,
                    -dy,
                    current_player,
                    g.len(),
                );
                lemma_run_cells(
                    g,
                    game_move.x as int,
                    game_move.y as int,
                    dx as int,
                    dy as int,
                    current_player,
                    g.len(),
                );
                assert forall|k: int| 0 <= k < cells.len() implies in_bounds(
                    g,
                    (#[trigger] cells[k]).0 as int,
                    cells[k].1 as int,
                ) by {
                    let b = cells_along(
                        g,
                        game_move.x as int,
                        game_move.y as int,
                        -dx,
                        -dy,
                        current_player,
                    );
                    let f = cells_along(
                        g,
                        game_move.x as int,
                        game_move.y as int,
                        dx as int,
                        dy as int,
                        current_player,
                    );
                    if k >= 1 && k < 1 + b.len() {
                        assert(cells[k] == b[k - 1]);
                    } else if k >= 1 + b.len() {
                        assert(cells[k] == f[k - 1 - b.len()]);
                    }
                }
            }
            let mut flank: Option<FlankInfo> = None;
            let mut i: usize = 0;
            assert(cells.skip(0) =~= cells);
            loop
                invariant_except_break
                    flank is None,
                invariant
                    g == grid(board),
                    board_wf(g),
                    win_seq@ == cells,
                    i <= win_seq.len(),
                    forall|k: int|
                        0 <= k < cells.len() ==> in_bounds(
                            g,
                            (#[trigger] cells[k]).0 as int,
                            cells[k].1 as int,
                        ),
                    first_flank(g, cells, current_player) == first_flank(
                        g,
                        cells.skip(i as int),
                        current_player,
                    ),
                ensures
                    flank == first_flank(g, cells, current_player),
                decreases win_seq.len() - i,
            {
                if i >= win_seq.len() {
                    assert(cells.skip(i as int).len() == 0);
                    break;
                }
                let (stone_x, stone_y) = win_seq[i];
                assert(cells.skip(i as int)[0] == cells[i as int]);
                assert(cells.skip(i as int).drop_first() =~= cells.skip(i + 1));
                assert(in_bounds(g, cells[i as int].0 as int, cells[i as int].1 as int));
                if let Some(info) = Self::check_flanked(board, stone_x, stone_y, current_player) {
                    flank = Some(info);
                    break;
                }
                i += 1;
            }
            let is_flanked = flank.is_some();
            return Some(
                Win {
                    is_by_five: true,
                    player_id: game_move.player_id,
                    win_seq: Some(win_seq),
                    is_flanked,
                    flank,
                },
            );
        }
        None
    }

    fn check_win_by_captures(
        player: Player,
        current_capture: &Capture,
        history_captures: &CaptureTally,
    ) -> (r: Option<Win>)
        requires
            history_captures.count_of(player) + current_capture.num_captures <= usize::MAX,
        ensures
            opt_win_view(r) == capture_win(*history_captures, player, *current_capture),
    {
        let previous_captures = history_captures.count(player);
        let total_captures = previous_captures + current_capture.num_captures;
        if total_captures >= CAPTURES_TO_WIN {
            return Some(
                Win {
                    player_id: player,
                    win_seq: None,
                    is_by_five: false,
                    is_flanked: false,
                    flank: None,
                },
            );
        }
        None
    }
}


/// The four axes a flank can lie along.
pub open spec fn flank_axis(d: (isize, isize)) -> bool {
    d == (1isize, 0isize) || d == (0isize, 1isize) || d == (1isize, 1isize) || d == (1isize, -1isize)
}

proof fn lemma_flank_at(g: Seq<Seq<Option<Player>>>, x: usize, y: usize, p: Player)
    requires
        board_wf(g),
    ensures
        flank_at(g, x, y, p) matches Some(f) ==> {
            &&& f.stone == (x, y)
            &&& flank_axis(f.direction)
            &&& in_bounds(g, f.capture_move.0 as int, f.capture_move.1 as int)
            &&& cell(g, f.capture_move.0 as int, f.capture_move.1 as int) is None
        },
{
}

proof fn lemma_first_flank(g: Seq<Seq<Option<Player>>>, cells: Seq<(usize, usize)>, p: Player)
    requires
        board_wf(g),
    ensures
        first_flank(g, cells, p) matches Some(f) ==> {
            &&& cells.contains(f.stone)
            &&& flank_axis(f.direction)
            &&& in_bounds(g, f.capture_move.0 as int, f.capture_move.1 as int)
            &&& cell(g, f.capture_move.0 as int, f.capture_move.1 as int) is None
        },
    decreases cells.len(),
{
    if cells.len() > 0 {
        lemma_flank_at(g, cells[0].0, cells[0].1, p);
        lemma_first_flank(g, cells.drop_first(), p);
        if flank_at(g, cells[0].0, cells[0].1, p) is None {
            if first_flank(g, cells.drop_first(), p) is Some {
                let f = first_flank(g, cells.drop_first(), p).unwrap();
                let k = choose|k: int| 0 <= k < cells.drop_first().len() && cells.drop_first()[k] == f.stone;
                assert(cells[k + 1] == f.stone);
            }
        } else {
            assert(cells.contains(cells[0]));
        }
    }
}

proof fn lemma_dir_win(g: Seq<Seq<Option<Player>>>, m: GameMove, dx: int, dy: int)
    requires
        board_wf(g),
    ensures
        dir_win(g, m, dx, dy) matches Some(w) ==> {
            &&& w.player_id == m.player_id
            &&& w.is_by_five
            &&& w.is_flanked == w.flank is Some
            &&& w.win_seq matches Some(cells) && {
                &&& cells.len() >= STONES_TO_WIN
                &&& cells[0] == (m.x, m.y)
                &&& forall|k: int|
                    1 <= k < cells.len() ==> stone_of(
                        g,
                        (#[trigger] cells[k]).0 as int,
                        cells[k].1 as int,
                        m.player_id,
                    )
                &&& w.flank matches Some(f) ==> cells.contains(f.stone)
            }
            &&& w.flank matches Some(f) ==> {
                &&& flank_axis(f.direction)
                &&& in_bounds(g, f.capture_move.0 as int, f.capture_move.1 as int)
                &&& cell(g, f.capture_move.0 as int, f.capture_move.1 as int) is None
            }
        },
{
    let p = m.player_id;
    if dir_win(g, m, dx, dy) is Some {
        let cells = line_cells(g, m.x, m.y, dx, dy, p);
        let b = cells_along(g, m.x as int, m.y as int, -dx, -dy, p);
        let f = cells_along(g, m.x as int, m.y as int, dx, dy, p);
        lemma_run_cells(g, m.x as int, m.y as int, -dx, -dy, p, g.len());
        lemma_run_cells(g, m.x as int, m.y as int, dx, dy, p, g.len());
        lemma_run_stones(g, m.x as int, m.y as int, -dx, -dy, p, g.len());
        lemma_run_stones(g, m.x as int, m.y as int, dx, dy, p, g.len());
        lemma_first_flank(g, cells, p);
        assert forall|k: int| 1 <= k < cells.len() implies stone_of(
            g,
            (#[trigger] cells[k]).0 as int,
            cells[k].1 as int,
            p,
        ) by {
            if k < 1 + b.len() {
                assert(cells[k] == b[k - 1]);
            } else {
                assert(cells[k] == f[k - 1 - b.len()]);
            }
        }
    }
}

/// What a win reports is consistent: the winner is the mover; a win by
/// five carries its line, which starts at the move and has at least five
/// stones of the winner, and a win by captures carries none; a flanked win
/// names a flankable stone of its line, on one of the four axes, and an
/// empty cell on the board where the opponent can break it.
pub proof fn lemma_win_is_consistent(
    m: GameMove,
    c: Option<Capture>,
    g: Seq<Seq<Option<Player>>>,
    tally: CaptureTally,
)
    requires
        board_wf(g),
    ensures
        win_result(m, c, g, tally) matches Some(w) ==> {
            &&& w.player_id == m.player_id
            &&& w.is_flanked == w.flank is Some
            &&& w.is_by_five == w.win_seq is Some
            &&& w.win_seq matches Some(cells) ==> {
                &&& cells.len() >= STONES_TO_WIN
                &&& cells[0] == (m.x, m.y)
                &&& forall|k: int|
                    1 <= k < cells.len() ==> stone_of(
                        g,
                        (#[trigger] cells[k]).0 as int,
                        cells[k].1 as int,
                        m.player_id,
                    )
                &&& w.flank matches Some(f) ==> cells.contains(f.stone)
            }
            &&& w.flank matches Some(f) ==> {
                &&& flank_axis(f.direction)
                &&& in_bounds(g, f.capture_move.0 as int, f.capture_move.1 as int)
                &&& cell(g, f.capture_move.0 as int, f.capture_move.1 as int) is None
            }
        },
{
    lemma_dir_win(g, m, 1, 0);
    lemma_dir_win(g, m, 0, 1);
    lemma_dir_win(g, m, 1, 1);
    lemma_dir_win(g, m, 1, -1);
}

/// A win by captures wins exactly when the mover reaches `CAPTURES_TO_WIN`
/// pairs, and takes precedence over a five made by the same move.
pub proof fn lemma_capture_win_first(
    m: GameMove,
    c: Capture,
    g: Seq<Seq<Option<Player>>>,
    tally: CaptureTally,
)
    requires
        tally.count_of(m.player_id) + c.num_captures >= CAPTURES_TO_WIN,
    ensures
        win_result(m, Some(c), g, tally) matches Some(w) && !w.is_by_five && w.player_id
            == m.player_id && w.win_seq is None && !w.is_flanked,
{
}

/// The cell `k` steps from (x, y) along (dx, dy) holds a stone of `p`.
pub open spec fn stone_at_step(
    g: Seq<Seq<Option<Player>>>,
    x: int,
    y: int,
    dx: int,
    dy: int,
    k: int,
    p: Player,
) -> bool {
    stone_of(g, x + k * dx, y + k * dy, p)
}

/// One of the four axes a five is looked for along.
pub open spec fn win_axis(dx: int, dy: int) -> bool {
    (dx == 1 && dy == 0) || (dx == 0 && dy == 1) || (dx == 1 && dy == 1) || (dx == 1 && dy == -1)
}

proof fn lemma_run_at_least(
    g: Seq<Seq<Option<Player>>>,
    x: int,
    y: int,
    dx: int,
    dy: int,
    p: Player,
    j: nat,
    fuel: nat,
)
    requires
        j <= fuel,
        forall|k: int| 1 <= k <= j ==> #[trigger] stone_at_step(g, x, y, dx, dy, k, p),
    ensures
        run_len(g, x, y, dx, dy, p, fuel) >= j,
    decreases j,
{
    if j > 0 {
        assert(stone_at_step(g, x, y, dx, dy, 1, p));
        assert(stone_of(g, x + dx, y + dy, p));
        assert forall|k: int| 1 <= k <= j - 1 implies #[trigger] stone_at_step(
            g,
            x + dx,
            y + dy,
            dx,
            dy,
            k,
            p,
        ) by {
            assert(stone_at_step(g, x, y, dx, dy, k + 1, p));
            assert(x + (k + 1) * dx == (x + dx) + k * dx) by (nonlinear_arith);
            assert(y + (k + 1) * dy == (y + dy) + k * dy) by (nonlinear_arith);
        }
        lemma_run_at_least(g, x + dx, y + dy, dx, dy, p, (j - 1) as nat, (fuel - 1) as nat);
    }
}

proof fn lemma_five_win_some(g: Seq<Seq<Option<Player>>>, m: GameMove)
    requires
        board_wf(g),
    ensures
        dir_win(g, m, 1, 0) is Some || dir_win(g, m, 0, 1) is Some || dir_win(g, m, 1, 1) is Some
            || dir_win(g, m, 1, -1) is Some ==> five_win(g, m) is Some,
        five_win(g, m) matches Some(w) ==> w.player_id == m.player_id && w.is_by_five,
{
    lemma_dir_win(g, m, 1, 0);
    lemma_dir_win(g, m, 0, 1);
    lemma_dir_win(g, m, 1, 1);
    lemma_dir_win(g, m, 1, -1);
}

/// No five is missed: when, on the board after the move, the mover's
/// stones run `back` cells behind the move and `fwd` cells ahead of it
/// along one of the four axes, with `1 + back + fwd` at least
/// `STONES_TO_WIN`, the move wins for the mover, and, unless its capture
/// already wins, it wins by five.
pub proof fn lemma_five_is_found(
    g: Seq<Seq<Option<Player>>>,
    m: GameMove,
    c: Option<Capture>,
    tally: CaptureTally,
    dx: int,
    dy: int,
    back: nat,
    fwd: nat,
)
    requires
        board_wf(g),
        m.x < g.len(),
        m.y < g.len(),
        win_axis(dx, dy),
        forall|k: int|
            1 <= k <= back ==> #[trigger] stone_at_step(g, m.x as int, m.y as int, -dx, -dy, k, m.player_id),
        forall|k: int|
            1 <= k <= fwd ==> #[trigger] stone_at_step(g, m.x as int, m.y as int, dx, dy, k, m.player_id),
        1 + back + fwd >= STONES_TO_WIN,
    ensures
        win_result(m, c, g, tally) matches Some(w) && w.player_id == m.player_id,
        (match c {
            Some(cc) => capture_win(tally, m.player_id, cc) is None,
            None => true,
        }) ==> (win_result(m, c, g, tally) matches Some(w) && w.is_by_five),
{
    let x = m.x as int;
    let y = m.y as int;
    let p = m.player_id;
    let n = g.len();
    if fwd > 0 {
        assert(stone_at_step(g, x, y, dx, dy, fwd as int, p));
        if dx == 1 {
            assert(x + fwd * 1 < n);
        } else {
            assert(y + fwd * 1 < n);
        }
    }
    if back > 0 {
        assert(stone_at_step(g, x, y, -dx, -dy, back as int, p));
        if dx == 1 {
            assert(x + back * (-1) >= 0);
        } else {
            assert(y + back * (-1) >= 0);
        }
    }
    assert(fwd <= n && back <= n);
    lemma_run_at_least(g, x, y, dx, dy, p, fwd, n);
    lemma_run_at_least(g, x, y, -dx, -dy, p, back, n);
    assert(line_len(g, m.x, m.y, dx, dy, p) >= STONES_TO_WIN);
    assert(dir_win(g, m, dx, dy) is Some);
    lemma_five_win_some(g, m);
}

proof fn lemma_pair_in_dir(
    g: Seq<Seq<Option<Player>>>,
    x: usize,
    y: usize,
    ex: isize,
    ey: isize,
    ax: int,
    ay: int,
    p: Player,
)
    requires
        board_wf(g),
        win_axis(ex as int, ey as int),
        (ax == ex && ay == ey) || (ax == -ex && ay == -ey),
        stone_of(g, x + ax, y + ay, p),
        in_bounds(g, x - ax, y - ay),
        in_bounds(g, x + 2 * ax, y + 2 * ay),
        (cell(g, x - ax, y - ay) == Some(p.spec_opponent()) && cell(g, x + 2 * ax, y + 2 * ay) is None)
            || (cell(g, x - ax, y - ay) is None && cell(g, x + 2 * ax, y + 2 * ay) == Some(
            p.spec_opponent(),
        )),
    ensures
        flank_in_dir(g, x, y, ex, ey, p) is Some,
{
    let n = g.len();
    let xi = x as int;
    let yi = y as int;
    assert(p.spec_opponent() != p);
    assert(n > 0);
    assert(!stone_of(g, xi - ax, yi - ay, p));
    assert(!stone_of(g, xi + 2 * ax, yi + 2 * ay, p));
    assert(run_len(g, xi + ax, yi + ay, ax, ay, p, (n - 1) as nat) == 0);
    assert(run_len(g, xi, yi, ax, ay, p, n) == 1);
    assert(run_len(g, xi, yi, -ax, -ay, p, n) == 0);
    assert(run_end(g, xi + ax, yi + ay, ax, ay, p, (n - 1) as nat) == (xi + 2 * ax, yi + 2 * ay));
    assert(run_end(g, xi, yi, ax, ay, p, n) == (xi + 2 * ax, yi + 2 * ay));
    assert(run_end(g, xi, yi, -ax, -ay, p, n) == (xi - ax, yi - ay));
    if ax == ex {
        assert(-ax == -(ex as int));
    } else {
        assert(-ax == ex as int && -ay == ey as int);
        assert(-(-ax) == ax);
    }
}

proof fn lemma_first_flank_found(
    g: Seq<Seq<Option<Player>>>,
    cells: Seq<(usize, usize)>,
    p: Player,
    i: int,
)
    requires
        0 <= i < cells.len(),
        flank_at(g, cells[i].0, cells[i].1, p) is Some,
    ensures
        first_flank(g, cells, p) is Some,
    decreases cells.len(),
{
    if flank_at(g, cells[0].0, cells[0].1, p) is None {
        assert(i > 0);
        assert(cells.drop_first()[i - 1] == cells[i]);
        lemma_first_flank_found(g, cells.drop_first(), p, i - 1);
    }
}

/// A five that the opponent can still break is reported flanked: when a
/// win by five lists a stone that, with a neighbour of the mover along any
/// of the eight directions, forms a pair with an opponent stone just past
/// one end and an empty cell just past the other, whichever end the
/// opponent holds, the win is flanked and names a flank.
pub proof fn lemma_breakable_five_is_flanked(
    g: Seq<Seq<Option<Player>>>,
    m: GameMove,
    c: Option<Capture>,
    tally: CaptureTally,
    s: (usize, usize),
    ax: int,
    ay: int,
)
    requires
        board_wf(g),
        win_result(m, c, g, tally) matches Some(w) && w.is_by_five && (w.win_seq matches Some(
            cells,
        ) && cells.contains(s)),
        -1 <= ax <= 1,
        -1 <= ay <= 1,
        !(ax == 0 && ay == 0),
        stone_of(g, s.0 + ax, s.1 + ay, m.player_id),
        in_bounds(g, s.0 - ax, s.1 - ay),
        in_bounds(g, s.0 + 2 * ax, s.1 + 2 * ay),
        (cell(g, s.0 - ax, s.1 - ay) == Some(m.player_id.spec_opponent()) && cell(
            g,
            s.0 + 2 * ax,
            s.1 + 2 * ay,
        ) is None) || (cell(g, s.0 - ax, s.1 - ay) is None && cell(g, s.0 + 2 * ax, s.1 + 2 * ay)
            == Some(m.player_id.spec_opponent())),
    ensures
        win_result(m, c, g, tally) matches Some(w) && w.is_flanked && w.flank is Some,
{
    let p = m.player_id;
    let w = win_result(m, c, g, tally).unwrap();
    assert(w == five_win(g, m).unwrap());
    let cells = w.win_seq.unwrap();
    assert(w.flank == first_flank(g, cells, p) && w.is_flanked == (w.flank is Some));
    let (ex, ey): (isize, isize) = if win_axis(ax, ay) {
        (ax as isize, ay as isize)
    } else {
        ((-ax) as isize, (-ay) as isize)
    };
    assert(win_axis(ex as int, ey as int));
    lemma_pair_in_dir(g, s.0, s.1, ex, ey, ax, ay, p);
    assert(flank_at(g, s.0, s.1, p) is Some);
    let i = choose|i: int| 0 <= i < cells.len() && cells[i] == s;
    lemma_first_flank_found(g, cells, p, i);
}

} // verus!
