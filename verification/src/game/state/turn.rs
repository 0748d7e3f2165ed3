use vstd::prelude::*;

use crate::game::capture::{capture_direction, captures_along, capture_dir, first_capture_from, Capture};
use crate::game::state::types::{GameMove, GameTurn, Player};
use crate::game::win::copy_cells;
use crate::shared::types::{
    board_wf, cell, empty_at, get_cell, grid, in_bounds, stone_of, with_cell, Board,
};

verus! {

/// How far from an existing stone a cell may be to be considered.
pub const NEIGHBOR_RADIUS: isize = 2;

/// (x, y) is on the board and holds a stone.
pub open spec fn occupied(g: Seq<Seq<Option<Player>>>, x: int, y: int) -> bool {
    in_bounds(g, x, y) && cell(g, x, y) is Some
}

/// Some stone lies within `NEIGHBOR_RADIUS` of (x, y) on both axes.
pub open spec fn near_stone(g: Seq<Seq<Option<Player>>>, x: int, y: int) -> bool {
    exists|sx: int, sy: int|
        x - NEIGHBOR_RADIUS <= sx <= x + NEIGHBOR_RADIUS && y - NEIGHBOR_RADIUS <= sy <= y
            + NEIGHBOR_RADIUS && #[trigger] occupied(g, sx, sy)
}

/// An empty cell near a stone: the cells whose legality is judged.
pub open spec fn candidate(g: Seq<Seq<Option<Player>>>, x: int, y: int) -> bool {
    empty_at(g, x, y) && near_stone(g, x, y)
}

/// The cell holds a stone of the opponent of `p`.
pub open spec fn opponent_cell(c: Option<Player>, p: Player) -> bool {
    c matches Some(q) && q != p
}

/// On `g`, the stone of `p` at (x, y) and its neighbour at (x, y) + a form
/// a pair with opponent stones on both outer ends.
pub open spec fn suicide_along(
    g: Seq<Seq<Option<Player>>>,
    x: int,
    y: int,
    ax: int,
    ay: int,
    p: Player,
) -> bool {
    &&& stone_of(g, x + ax, y + ay, p)
    &&& in_bounds(g, x + 2 * ax, y + 2 * ay)
    &&& in_bounds(g, x - ax, y - ay)
    &&& opponent_cell(cell(g, x + 2 * ax, y + 2 * ay), p)
    &&& opponent_cell(cell(g, x - ax, y - ay), p)
}

/// The stone of `p` at (x, y) could be captured at once (rule 1).
pub open spec fn suicide(g: Seq<Seq<Option<Player>>>, x: int, y: int, p: Player) -> bool {
    ||| suicide_along(g, x, y, 1, 0, p)
    ||| suicide_along(g, x, y, -1, 0, p)
    ||| suicide_along(g, x, y, 0, 1, p)
    ||| suicide_along(g, x, y, 0, -1, p)
    ||| suicide_along(g, x, y, 1, 1, p)
    ||| suicide_along(g, x, y, -1, -1, p)
    ||| suicide_along(g, x, y, 1, -1, p)
    ||| suicide_along(g, x, y, -1, 1, p)
}

pub open spec fn window_cell_ok(g: Seq<Seq<Option<Player>>>, x: int, y: int, p: Player) -> bool {
    in_bounds(g, x, y) && !opponent_cell(cell(g, x, y), p)
}

pub open spec fn own(g: Seq<Seq<Option<Player>>>, x: int, y: int, p: Player) -> int {
    if cell(g, x, y) == Some(p) {
        1
    } else {
        0
    }
}

/// The four cells from (sx, sy) along (dx, dy) hold three stones of `p`
/// and one empty cell, and the cells just outside both ends are empty.
pub open spec fn free_window(
    g: Seq<Seq<Option<Player>>>,
    sx: int,
    sy: int,
    dx: int,
    dy: int,
    p: Player,
) -> bool {
    &&& window_cell_ok(g, sx, sy, p)
    &&& window_cell_ok(g, sx + dx, sy + dy, p)
    &&& window_cell_ok(g, sx + 2 * dx, sy + 2 * dy, p)
    &&& window_cell_ok(g, sx + 3 * dx, sy + 3 * dy, p)
    &&& own(g, sx, sy, p) + own(g, sx + dx, sy + dy, p) + own(g, sx + 2 * dx, sy + 2 * dy, p) + own(
        g,
        sx + 3 * dx,
        sy + 3 * dy,
        p,
    ) == 3
    &&& empty_at(g, sx - dx, sy - dy)
    &&& empty_at(g, sx + 4 * dx, sy + 4 * dy)
}

/// Some four-cell window along (dx, dy) that contains (x, y) is a free three.
pub open spec fn free_three_dir(
    g: Seq<Seq<Option<Player>>>,
    x: int,
    y: int,
    dx: int,
    dy: int,
    p: Player,
) -> bool {
    ||| free_window(g, x - 3 * dx, y - 3 * dy, dx, dy, p)
    ||| free_window(g, x - 2 * dx, y - 2 * dy, dx, dy, p)
    ||| free_window(g, x - dx, y - dy, dx, dy, p)
    ||| free_window(g, x, y, dx, dy, p)
}

pub open spec fn indicator(b: bool) -> int {
    if b {
        1
    } else {
        0
    }
}

/// On how many of the four axes (x, y) takes part in a free three.
pub open spec fn free_three_count(g: Seq<Seq<Option<Player>>>, x: int, y: int, p: Player) -> int {
    indicator(free_three_dir(g, x, y, 1, 0, p)) + indicator(free_three_dir(g, x, y, 0, 1, p))
        + indicator(free_three_dir(g, x, y, 1, 1, p)) + indicator(free_three_dir(g, x, y, 1, -1, p))
}

/// `p` may not play at (x, y): it is a candidate cell, and the stone
/// placed there either walks into a capture, or makes two free threes
/// without capturing.
pub open spec fn forbidden_at(g: Seq<Seq<Option<Player>>>, p: Player, x: int, y: int) -> bool {
    let after = with_cell(g, x, y, Some(p));
    &&& candidate(g, x, y)
    &&& (suicide(after, x, y, p) || (capture_direction(
        after,
        GameMove { x: x as usize, y: y as usize, player_id: p },
    ) is None && free_three_count(after, x, y, p) >= 2))
}

/// Cell `a` comes before cell `b` reading the board row by row.
pub open spec fn row_major_before(a: (usize, usize), b: (usize, usize)) -> bool {
    a.1 < b.1 || (a.1 == b.1 && a.0 < b.0)
}

/// `cells` lists, in reading order and once each, exactly the cells that
/// `p` may not play on `g`.
pub open spec fn is_forbidden_list(
    g: Seq<Seq<Option<Player>>>,
    p: Player,
    cells: Seq<(usize, usize)>,
) -> bool {
    &&& forall|k: int|
        #![trigger cells[k]]
        0 <= k < cells.len() ==> forbidden_at(g, p, cells[k].0 as int, cells[k].1 as int)
    &&& forall|x: usize, y: usize| forbidden_at(g, p, x as int, y as int) ==> #[trigger] cells.contains((x, y))
    &&& forall|i: int, j: int| 0 <= i < j < cells.len() ==> row_major_before(#[trigger] cells[i], #[trigger] cells[j])
}

proof fn lemma_capture_ignores_origin(
    g: Seq<Seq<Option<Player>>>,
    m: GameMove,
    v: Option<Player>,
    k: nat,
)
    requires
        board_wf(g),
        m.x < g.len(),
        m.y < g.len(),
    ensures
        first_capture_from(with_cell(g, m.x as int, m.y as int, v), m, k) == first_capture_from(g, m, k),
    decreases 9 - k,
{
    if k < 9 {
        lemma_capture_ignores_origin(g, m, v, k + 1);
        let after = with_cell(g, m.x as int, m.y as int, v);
        let d = capture_dir(k as int);
        if k != 4 {
            assert(d.0 != 0 || d.1 != 0);
            assert(captures_along(after, m, d.0, d.1) == captures_along(g, m, d.0, d.1));
        }
    }
}


/// Whether (x, y) is on the board, and if so what the cell holds once a
/// stone of `p` stands at (px, py).
fn probe(board: &Board, px: usize, py: usize, p: Player, x: isize, y: isize) -> (r: (
    bool,
    Option<Player>,
))
    requires
        board_wf(grid(board)),
        px < board.len(),
        py < board.len(),
    ensures
        r.0 == in_bounds(with_cell(grid(board), px as int, py as int, Some(p)), x as int, y as int),
        r.0 ==> r.1 == cell(with_cell(grid(board), px as int, py as int, Some(p)), x as int, y as int),
{
    let n = board.len() as isize;
    if x < 0 || y < 0 || x >= n || y >= n {
        return (false, None);
    }
    if x as usize == px && y as usize == py {
        (true, Some(p))
    } else {
        (true, get_cell(board, x as usize, y as usize))
    }
}

fn is_opponent(c: Option<Player>, p: Player) -> (r: bool)
    ensures
        r == opponent_cell(c, p),
{
    match c {
        Some(q) => q != p,
        None => false,
    }
}

impl GameTurn {
    /// Some stone lies within `NEIGHBOR_RADIUS` of (x, y).
    fn near_stone(board: &Board, x: usize, y: usize) -> (r: bool)
        requires
            board_wf(grid(board)),
            x < board.len(),
            y < board.len(),
        ensures
            r == near_stone(grid(board), x as int, y as int),
    {
        let ghost g = grid(board);
        let xi = x as isize;
        let yi = y as isize;
        let n = board.len() as isize;
        let mut dy: isize = -NEIGHBOR_RADIUS;
        while dy <= NEIGHBOR_RADIUS
            invariant
                g == grid(board),
                board_wf(g),
                n == g.len(),
                xi == x,
                yi == y,
                x < g.len(),
                y < g.len(),
                -NEIGHBOR_RADIUS <= dy <= NEIGHBOR_RADIUS + 1,
                forall|sx: int, sy: int|
                    xi - NEIGHBOR_RADIUS <= sx <= xi + NEIGHBOR_RADIUS && yi - NEIGHBOR_RADIUS <= sy
                        < yi + dy ==> !#[trigger] occupied(g, sx, sy),
            decreases NEIGHBOR_RADIUS + 1 - dy,
        {
            let mut dx: isize = -NEIGHBOR_RADIUS;
            while dx <= NEIGHBOR_RADIUS
                invariant
                    g == grid(board),
                    board_wf(g),
                    n == g.len(),
                    xi == x,
                    yi == y,
                    x < g.len(),
                    y < g.len(),
                    -NEIGHBOR_RADIUS <= dy <= NEIGHBOR_RADIUS,
                    -NEIGHBOR_RADIUS <= dx <= NEIGHBOR_RADIUS + 1,
                    forall|sx: int, sy: int|
                        xi - NEIGHBOR_RADIUS <= sx <= xi + NEIGHBOR_RADIUS && yi - NEIGHBOR_RADIUS
                            <= sy < yi + dy ==> !#[trigger] occupied(g, sx, sy),
                    forall|sx: int|
                        xi - NEIGHBOR_RADIUS <= sx < xi + dx ==> !#[trigger] occupied(g, sx, yi + dy),
                decreases NEIGHBOR_RADIUS + 1 - dx,
            {
                let sx = xi + dx;
                let sy = yi + dy;
                if sx >= 0 && sy >= 0 && sx < n && sy < n {
                    if get_cell(board, sx as usize, sy as usize).is_some() {
                        assert(occupied(g, sx as int, sy as int));
                        return true;
                    }
                }
                dx += 1;
            }
            dy += 1;
        }
        false
    }

    fn suicide_along(board: &Board, x: usize, y: usize, p: Player, ax: isize, ay: isize) -> (r:
        bool)
        requires
            board_wf(grid(board)),
            x < board.len(),
            y < board.len(),
            -1 <= ax <= 1,
            -1 <= ay <= 1,
        ensures
            r == suicide_along(
                with_cell(grid(board), x as int, y as int, Some(p)),
                x as int,
                y as int,
                ax as int,
                ay as int,
                p,
            ),
    {
        let xi = x as isize;
        let yi = y as isize;
        let (partner_in, partner) = probe(board, x, y, p, xi + ax, yi + ay);
        if !partner_in {
            return false;
        }
        let partner_own = match partner {
            Some(q) => q == p,
            None => false,
        };
        if !partner_own {
            return false;
        }
        let (far_in, far) = probe(board, x, y, p, xi + 2 * ax, yi + 2 * ay);
        let (near_in, near) = probe(board, x, y, p, xi - ax, yi - ay);
        if !far_in || !near_in {
            return false;
        }
        is_opponent(far, p) && is_opponent(near, p)
    }

    /// Rule 1: the stone of `p` placed at (x, y) could be captured at once.
    fn is_suicide(board: &Board, x: usize, y: usize, p: Player) -> (r: bool)
        requires
            board_wf(grid(board)),
            x < board.len(),
            y < board.len(),
        ensures
            r == suicide(with_cell(grid(board), x as int, y as int, Some(p)), x as int, y as int, p),
    {
        Self::suicide_along(board, x, y, p, 1, 0) || Self::suicide_along(board, x, y, p, -1, 0)
            || Self::suicide_along(board, x, y, p, 0, 1) || Self::suicide_along(board, x, y, p, 0, -1)
            || Self::suicide_along(board, x, y, p, 1, 1) || Self::suicide_along(
            board,
            x,
            y,
            p,
            -1,
            -1,
        ) || Self::suicide_along(board, x, y, p, 1, -1) || Self::suicide_along(
            board,
            x,
            y,
            p,
            -1,
            1,
        )
    }

    /// The window of four cells from (sx, sy) along (dx, dy) is a free three.
    fn free_window(
        board: &Board,
        x: usize,
        y: usize,
        p: Player,
        sx: isize,
        sy: isize,
        dx: isize,
        dy: isize,
    ) -> (r: bool)
        requires
            board_wf(grid(board)),
            x < board.len(),
            y < board.len(),
            -1 <= dx <= 1,
            -1 <= dy <= 1,
            x - 3 <= sx <= x + 3,
            y - 3 <= sy <= y + 3,
        ensures
            r == free_window(
                with_cell(grid(board), x as int, y as int, Some(p)),
                sx as int,
                sy as int,
                dx as int,
                dy as int,
                p,
            ),
    {
        let mut player_count: usize = 0;
        let (in0, c0) = probe(board, x, y, p, sx, sy);
        let (in1, c1) = probe(board, x, y, p, sx + dx, sy + dy);
        let (in2, c2) = probe(board, x, y, p, sx + 2 * dx, sy + 2 * dy);
        let (in3, c3) = probe(board, x, y, p, sx + 3 * dx, sy + 3 * dy);
        if !in0 || !in1 || !in2 || !in3 {
            return false;
        }
        if is_opponent(c0, p) || is_opponent(c1, p) || is_opponent(c2, p) || is_opponent(c3, p) {
            return false;
        }
        if c0 == Some(p) {
            player_count += 1;
        }
        if c1 == Some(p) {
            player_count += 1;
        }
        if c2 == Some(p) {
            player_count += 1;
        }
        if c3 == Some(p) {
            player_count += 1;
        }
        if player_count != 3 {
            return false;
        }
        let (left_in, left) = probe(board, x, y, p, sx - dx, sy - dy);
        let (right_in, right) = probe(board, x, y, p, sx + 4 * dx, sy + 4 * dy);
        left_in && right_in && left.is_none() && right.is_none()
    }

    /// Rule 2 helper: some window of four cells along (dx, dy) that
    /// contains (x, y) is a free three once `p` plays at (x, y).
    fn has_free_three_in_direction(
        board: &Board,
        p: Player,
        x: usize,
        y: usize,
        dx: isize,
        dy: isize,
    ) -> (r: bool)
        requires
            board_wf(grid(board)),
            x < board.len(),
            y < board.len(),
            -1 <= dx <= 1,
            -1 <= dy <= 1,
        ensures
            r == free_three_dir(
                with_cell(grid(board), x as int, y as int, Some(p)),
                x as int,
                y as int,
                dx as int,
                dy as int,
                p,
            ),
    {
        let xi = x as isize;
        let yi = y as isize;
        Self::free_window(board, x, y, p, xi - 3 * dx, yi - 3 * dy, dx, dy) || Self::free_window(
            board,
            x,
            y,
            p,
            xi - 2 * dx,
            yi - 2 * dy,
            dx,
            dy,
        ) || Self::free_window(board, x, y, p, xi - dx, yi - dy, dx, dy) || Self::free_window(
            board,
            x,
            y,
            p,
            xi,
            yi,
            dx,
            dy,
        )
    }

    /// On how many axes the stone of `p` at (x, y) makes a free three.
    fn count_free_threes(board: &Board, p: Player, x: usize, y: usize) -> (r: usize)
        requires
            board_wf(grid(board)),
            x < board.len(),
            y < board.len(),
        ensures
            r == free_three_count(
                with_cell(grid(board), x as int, y as int, Some(p)),
                x as int,
                y as int,
                p,
            ),
    {
        let mut count: usize = 0;
        if Self::has_free_three_in_direction(board, p, x, y, 1, 0) {
            count += 1;
        }
        if Self::has_free_three_in_direction(board, p, x, y, 0, 1) {
            count += 1;
        }
        if Self::has_free_three_in_direction(board, p, x, y, 1, 1) {
            count += 1;
        }
        if Self::has_free_three_in_direction(board, p, x, y, 1, -1) {
            count += 1;
        }
        count
    }

    /// Whether `p` may not play at (x, y).
    fn is_forbidden(board: &Board, p: Player, x: usize, y: usize) -> (r: bool)
        requires
            board_wf(grid(board)),
            x < board.len(),
            y < board.len(),
        ensures
            r == forbidden_at(grid(board), p, x as int, y as int),
    {
        let ghost g = grid(board);
        if get_cell(board, x, y).is_some() || !Self::near_stone(board, x, y) {
            return false;
        }
        if Self::is_suicide(board, x, y, p) {
            return true;
        }
        let gm = GameMove { x, y, player_id: p };
        proof {
            lemma_capture_ignores_origin(g, gm, Some(p), 0);
        }
        Capture::find_capture(board, &gm).is_none() && Self::count_free_threes(board, p, x, y) >= 2
    }

    /// The cells that `current_player` may not play on `board`, in reading
    /// order: the empty cells near a stone where a stone of the player could
    /// be captured at once, or, unless it captures, would make two free threes.
    pub fn get_forbidden_moves(board: &Board, current_player: &Player) -> (r: Vec<(usize, usize)>)
        requires
            board_wf(grid(board)),
        ensures
            is_forbidden_list(grid(board), *current_player, r@),
    {
        let ghost g = grid(board);
        let p = *current_player;
        let n = board.len();
        let mut forbidden: Vec<(usize, usize)> = Vec::new();
        let mut y: usize = 0;
        while y < n
            invariant
                g == grid(board),
                board_wf(g),
                n == g.len(),
                y <= n,
                forall|k: int|
                    #![trigger forbidden@[k]]
                    0 <= k < forbidden@.len() ==> forbidden_at(
                        g,
                        p,
                        forbidden@[k].0 as int,
                        forbidden@[k].1 as int,
                    ) && forbidden@[k].1 < y,
                forall|a: usize, b: usize|
                    forbidden_at(g, p, a as int, b as int) && b < y ==> #[trigger] forbidden@.contains(
                        (a, b),
                    ),
                forall|i: int, j: int|
                    0 <= i < j < forbidden@.len() ==> row_major_before(
                        #[trigger] forbidden@[i],
                        #[trigger] forbidden@[j],
                    ),
            decreases n - y,
        {
            let mut x: usize = 0;
            while x < n
                invariant
                    g == grid(board),
                    board_wf(g),
                    n == g.len(),
                    y < n,
                    x <= n,
                    forall|k: int|
                        #![trigger forbidden@[k]]
                        0 <= k < forbidden@.len() ==> forbidden_at(
                            g,
                            p,
                            forbidden@[k].0 as int,
                            forbidden@[k].1 as int,
                        ) && (forbidden@[k].1 < y || (forbidden@[k].1 == y && forbidden@[k].0 < x)),
                    forall|a: usize, b: usize|
                        forbidden_at(g, p, a as int, b as int) && (b < y || (b == y && a < x))
                            ==> #[trigger] forbidden@.contains((a, b)),
                    forall|i: int, j: int|
                        0 <= i < j < forbidden@.len() ==> row_major_before(
                            #[trigger] forbidden@[i],
                            #[trigger] forbidden@[j],
                        ),
                decreases n - x,
            {
                if Self::is_forbidden(board, p, x, y) {
                    let ghost before = forbidden@;
                    forbidden.push((x, y));
                    proof {
                        assert(forbidden@[before.len() as int] == (x, y));
                        assert forall|a: usize, b: usize|
                            forbidden_at(g, p, a as int, b as int) && (b < y || (b == y && a < x
                                + 1)) implies #[trigger] forbidden@.contains((a, b)) by {
                            if a == x && b == y {
                                assert(forbidden@[before.len() as int] == (a, b));
                            } else {
                                assert(before.contains((a, b)));
                                let i = choose|i: int| 0 <= i < before.len() && before[i] == (a, b);
                                assert(forbidden@[i] == (a, b));
                            }
                        }
                    }
                }
                x += 1;
            }
            y += 1;
        }
        proof {
            assert forall|a: usize, b: usize| forbidden_at(g, p, a as int, b as int) implies #[trigger] forbidden@.contains(
                (a, b),
            ) by {
                assert(b < n);
            }
        }
        forbidden
    }
}


impl Default for GameTurn {
    fn default() -> (r: Self)
        ensures
            r.current_player == Player::Black,
            r.turn == 0,
            r.forbidden_sequences@.len() == 0,
    {
        GameTurn { current_player: Player::Black, turn: 0, forbidden_sequences: Vec::new() }
    }
}

impl Clone for GameTurn {
    fn clone(&self) -> (r: Self)
        ensures
            r.current_player == self.current_player,
            r.turn == self.turn,
            r.forbidden_sequences@ == self.forbidden_sequences@,
    {
        GameTurn {
            current_player: self.current_player,
            turn: self.turn,
            forbidden_sequences: copy_cells(&self.forbidden_sequences),
        }
    }
}

impl GameTurn {
    /// Passes the turn to `current_player` on `board`: counts the move and
    /// lists the cells that player may not play.
    pub fn update(&mut self, current_player: &Player, board: &Board)
        requires
            board_wf(grid(board)),
            old(self).turn < usize::MAX,
        ensures
            final(self).turn == old(self).turn + 1,
            final(self).current_player == *current_player,
            is_forbidden_list(grid(board), *current_player, final(self).forbidden_sequences@),
    {
        self.turn += 1;
        self.current_player = *current_player;
        self.forbidden_sequences = Self::get_forbidden_moves(board, &self.current_player);
    }
}


/// A forbidden cell is an empty cell of the board near a stone; on a board
/// without stones nothing is forbidden.
pub proof fn lemma_forbidden_cells_are_empty(
    g: Seq<Seq<Option<Player>>>,
    p: Player,
    cells: Seq<(usize, usize)>,
)
    requires
        is_forbidden_list(g, p, cells),
    ensures
        forall|k: int|
            #![trigger cells[k]]
            0 <= k < cells.len() ==> empty_at(g, cells[k].0 as int, cells[k].1 as int) && near_stone(
                g,
                cells[k].0 as int,
                cells[k].1 as int,
            ),
        (forall|x: int, y: int| !#[trigger] occupied(g, x, y)) ==> cells.len() == 0,
{
    if (forall|x: int, y: int| !#[trigger] occupied(g, x, y)) && cells.len() > 0 {
        assert(forbidden_at(g, p, cells[0].0 as int, cells[0].1 as int));
    }
}

/// A move that captures is never forbidden for making two free threes:
/// only walking into a capture can forbid it.
pub proof fn lemma_capturing_move_escapes_double_three(
    g: Seq<Seq<Option<Player>>>,
    p: Player,
    x: usize,
    y: usize,
)
    requires
        capture_direction(
            with_cell(g, x as int, y as int, Some(p)),
            GameMove { x, y, player_id: p },
        ) is Some,
        !suicide(with_cell(g, x as int, y as int, Some(p)), x as int, y as int, p),
    ensures
        !forbidden_at(g, p, x as int, y as int),
{
}

proof fn lemma_with_cell_elsewhere(
    g: Seq<Seq<Option<Player>>>,
    x: int,
    y: int,
    v: Option<Player>,
    ex: int,
    ey: int,
)
    requires
        board_wf(g),
        in_bounds(g, x, y),
        !(ex == x && ey == y),
    ensures
        with_cell(g, x, y, v).len() == g.len(),
        in_bounds(g, ex, ey) ==> cell(with_cell(g, x, y, v), ex, ey) == cell(g, ex, ey),
        empty_at(with_cell(g, x, y, v), ex, ey) == empty_at(g, ex, ey),
        stone_of(with_cell(g, x, y, v), ex, ey, Player::Black) == stone_of(g, ex, ey, Player::Black),
        stone_of(with_cell(g, x, y, v), ex, ey, Player::White) == stone_of(g, ex, ey, Player::White),
{
    if in_bounds(g, ex, ey) {
        assert(g[ey].len() == g.len());
        assert(g[y].len() == g.len());
    }
}

/// Walking into a capture is forbidden, whichever side the partner stone
/// lies on: when `p` playing the empty cell (x, y) would make a pair with
/// its stone at (x - ax, y - ay), and the opponent holds both cells around
/// that pair, (x - 2ax, y - 2ay) and (x + ax, y + ay), then (x, y) is in
/// the forbidden list of `p`, for each of the eight directions (ax, ay).
pub proof fn lemma_walking_into_capture_is_forbidden(
    g: Seq<Seq<Option<Player>>>,
    p: Player,
    cells: Seq<(usize, usize)>,
    x: usize,
    y: usize,
    ax: int,
    ay: int,
)
    requires
        board_wf(g),
        is_forbidden_list(g, p, cells),
        -1 <= ax <= 1,
        -1 <= ay <= 1,
        !(ax == 0 && ay == 0),
        empty_at(g, x as int, y as int),
        stone_of(g, x - ax, y - ay, p),
        stone_of(g, x - 2 * ax, y - 2 * ay, p.spec_opponent()),
        stone_of(g, x + ax, y + ay, p.spec_opponent()),
    ensures
        cells.contains((x, y)),
{
    let after = with_cell(g, x as int, y as int, Some(p));
    lemma_with_cell_elsewhere(g, x as int, y as int, Some(p), x - ax, y - ay);
    lemma_with_cell_elsewhere(g, x as int, y as int, Some(p), x - 2 * ax, y - 2 * ay);
    lemma_with_cell_elsewhere(g, x as int, y as int, Some(p), x + ax, y + ay);
    assert(p.spec_opponent() != p);
    assert(suicide_along(after, x as int, y as int, -ax, -ay, p));
    assert(suicide(after, x as int, y as int, p)) by {
        if ax == 1 && ay == 0 {
        } else if ax == -1 && ay == 0 {
        } else if ax == 0 && ay == 1 {
        } else if ax == 0 && ay == -1 {
        } else if ax == 1 && ay == 1 {
        } else if ax == -1 && ay == -1 {
        } else if ax == 1 && ay == -1 {
        } else {
            assert(ax == -1 && ay == 1);
        }
    }
    assert(occupied(g, x - ax, y - ay));
    assert(near_stone(g, x as int, y as int));
    assert(forbidden_at(g, p, x as int, y as int));
}

/// Every four-cell stretch of the line through (x, y) along (dx, dy) that
/// contains (x, y) has, just outside one of its ends, a cell that is off
/// the board or holds a stone.
pub open spec fn line_closed(g: Seq<Seq<Option<Player>>>, x: int, y: int, dx: int, dy: int) -> bool {
    &&& !(empty_at(g, x - dx, y - dy) && empty_at(g, x + 4 * dx, y + 4 * dy))
    &&& !(empty_at(g, x - 2 * dx, y - 2 * dy) && empty_at(g, x + 3 * dx, y + 3 * dy))
    &&& !(empty_at(g, x - 3 * dx, y - 3 * dy) && empty_at(g, x + 2 * dx, y + 2 * dy))
    &&& !(empty_at(g, x - 4 * dx, y - 4 * dy) && empty_at(g, x + dx, y + dy))
}

/// A three is free only when open at both ends: when on each of the four
/// axes every stretch of four cells through (x, y) is closed at one end (by
/// the board's edge or a stone), `p` is forbidden (x, y) only for walking
/// into a capture, that is, only when for some direction (ax, ay) the
/// stone of `p` at (x + ax, y + ay) would pair with it between two
/// opponent stones at (x - ax, y - ay) and (x + 2ax, y + 2ay).
pub proof fn lemma_closed_threes_never_forbid(
    g: Seq<Seq<Option<Player>>>,
    p: Player,
    cells: Seq<(usize, usize)>,
    x: usize,
    y: usize,
)
    requires
        board_wf(g),
        is_forbidden_list(g, p, cells),
        line_closed(g, x as int, y as int, 1, 0),
        line_closed(g, x as int, y as int, 0, 1),
        line_closed(g, x as int, y as int, 1, 1),
        line_closed(g, x as int, y as int, 1, -1),
    ensures
        cells.contains((x, y)) ==> exists|ax: int, ay: int|
            -1 <= ax <= 1 && -1 <= ay <= 1 && !(ax == 0 && ay == 0) && #[trigger] stone_of(
                g,
                x + ax,
                y + ay,
                p,
            ) && stone_of(g, x - ax, y - ay, p.spec_opponent()) && stone_of(
                g,
                x + 2 * ax,
                y + 2 * ay,
                p.spec_opponent(),
            ),
{
    if cells.contains((x, y)) {
        let k = choose|k: int| 0 <= k < cells.len() && cells[k] == (x, y);
        assert(forbidden_at(g, p, x as int, y as int));
        let xi = x as int;
        let yi = y as int;
        assert(in_bounds(g, xi, yi));
        let after = with_cell(g, xi, yi, Some(p));
        assert forall|dx: int, dy: int, c: int|
            (dx == 1 || dx == 0) && -1 <= dy <= 1 && !(dx == 0 && dy != 1) && c != 0 && -4 <= c
                <= 4 implies #[trigger] empty_at(after, xi + c * dx, yi + c * dy) == empty_at(
            g,
            xi + c * dx,
            yi + c * dy,
        ) by {
            assert(!(xi + c * dx == xi && yi + c * dy == yi)) by (nonlinear_arith)
                requires
                    (dx == 1 || dx == 0),
                    -1 <= dy <= 1,
                    !(dx == 0 && dy != 1),
                    c != 0,
            ;
            lemma_with_cell_elsewhere(g, xi, yi, Some(p), xi + c * dx, yi + c * dy);
        }
        assert forall|dx: int, dy: int|
            (dx == 1 && -1 <= dy <= 1) || (dx == 0 && dy == 1) implies !free_three_dir(
            after,
            xi,
            yi,
            dx,
            dy,
            p,
        ) by {
            assert(empty_at(after, xi + (-1) * dx, yi + (-1) * dy) == empty_at(g, xi - dx, yi - dy));
            assert(empty_at(after, xi + (-2) * dx, yi + (-2) * dy) == empty_at(g, xi - 2 * dx, yi - 2 * dy));
            assert(empty_at(after, xi + (-3) * dx, yi + (-3) * dy) == empty_at(g, xi - 3 * dx, yi - 3 * dy));
            assert(empty_at(after, xi + (-4) * dx, yi + (-4) * dy) == empty_at(g, xi - 4 * dx, yi - 4 * dy));
            assert(empty_at(after, xi + 1 * dx, yi + 1 * dy) == empty_at(g, xi + dx, yi + dy));
            assert(empty_at(after, xi + 2 * dx, yi + 2 * dy) == empty_at(g, xi + 2 * dx, yi + 2 * dy));
            assert(empty_at(after, xi + 3 * dx, yi + 3 * dy) == empty_at(g, xi + 3 * dx, yi + 3 * dy));
            assert(empty_at(after, xi + 4 * dx, yi + 4 * dy) == empty_at(g, xi + 4 * dx, yi + 4 * dy));
        }
        assert(!free_three_dir(after, xi, yi, 1, 0, p));
        assert(!free_three_dir(after, xi, yi, 0, 1, p));
        assert(!free_three_dir(after, xi, yi, 1, 1, p));
        assert(!free_three_dir(after, xi, yi, 1, -1, p));
        assert(free_three_count(after, xi, yi, p) == 0);
        assert(suicide(after, xi, yi, p));
        let (ax, ay) = if suicide_along(after, xi, yi, 1, 0, p) {
            (1int, 0int)
        } else if suicide_along(after, xi, yi, -1, 0, p) {
            (-1int, 0int)
        } else if suicide_along(after, xi, yi, 0, 1, p) {
            (0int, 1int)
        } else if suicide_along(after, xi, yi, 0, -1, p) {
            (0int, -1int)
        } else if suicide_along(after, xi, yi, 1, 1, p) {
            (1int, 1int)
        } else if suicide_along(after, xi, yi, -1, -1, p) {
            (-1int, -1int)
        } else if suicide_along(after, xi, yi, 1, -1, p) {
            (1int, -1int)
        } else {
            (-1int, 1int)
        };
        assert(suicide_along(after, xi, yi, ax, ay, p));
        lemma_with_cell_elsewhere(g, xi, yi, Some(p), xi + ax, yi + ay);
        lemma_with_cell_elsewhere(g, xi, yi, Some(p), xi - ax, yi - ay);
        lemma_with_cell_elsewhere(g, xi, yi, Some(p), xi + 2 * ax, yi + 2 * ay);
        assert(cell(g, xi - ax, yi - ay) == Some(p.spec_opponent())) by {
            assert(opponent_cell(cell(after, xi - ax, yi - ay), p));
            match cell(g, xi - ax, yi - ay) {
                Some(q) => {
                    assert(q != p);
                    match p {
                        Player::Black => { assert(q == Player::White); },
                        Player::White => { assert(q == Player::Black); },
                    }
                },
                None => {},
            }
        }
        assert(cell(g, xi + 2 * ax, yi + 2 * ay) == Some(p.spec_opponent())) by {
            assert(opponent_cell(cell(after, xi + 2 * ax, yi + 2 * ay), p));
            match cell(g, xi + 2 * ax, yi + 2 * ay) {
                Some(q) => {
                    assert(q != p);
                    match p {
                        Player::Black => { assert(q == Player::White); },
                        Player::White => { assert(q == Player::Black); },
                    }
                },
                None => {},
            }
        }
        assert(stone_of(g, xi + ax, yi + ay, p));
    }
}

} // verus!
