use vstd::prelude::*;

use crate::game::state::types::{GameMove, Player};
use crate::shared::types::{board_wf, get_cell, grid, stone_of, Board, MAX_BOARD_SIDE};

verus! {

/// Stones removed from the board by one move.
#[derive(Debug)]
pub struct Capture {
    /// The cells whose stones are removed.
    pub seq: Vec<(usize, usize)>,
    /// The player whose stones were captured.
    pub player_id: Player,
    /// How many pairs this capture removes.
    pub num_captures: usize,
}

impl Clone for Capture {
    fn clone(&self) -> (r: Self)
        ensures
            r.seq@ == self.seq@,
            r.player_id == self.player_id,
            r.num_captures == self.num_captures,
    {
        let mut seq: Vec<(usize, usize)> = Vec::new();
        let mut i: usize = 0;
        while i < self.seq.len()
            invariant
                i <= self.seq.len(),
                seq@ == self.seq@.take(i as int),
            decreases self.seq.len() - i,
        {
            seq.push(self.seq[i]);
            i += 1;
            assert(seq@ =~= self.seq@.take(i as int));
        }
        assert(self.seq@.take(self.seq.len() as int) =~= self.seq@);
        Capture { seq, player_id: self.player_id, num_captures: self.num_captures }
    }
}

/// The direction probed at step `k` of the capture scan: columns -1, 0, 1
/// in turn, and within each column rows -1, 0, 1 (step 4 is the origin).
pub open spec fn capture_dir(k: int) -> (int, int) {
    (k / 3 - 1, k % 3 - 1)
}

/// Placing `m` brackets two opponent stones along (dx, dy): the next two
/// cells hold the opponent and the third holds the mover.
pub open spec fn captures_along(
    g: Seq<Seq<Option<Player>>>,
    m: GameMove,
    dx: int,
    dy: int,
) -> bool {
    let q = m.player_id.spec_opponent();
    &&& stone_of(g, m.x + dx, m.y + dy, q)
    &&& stone_of(g, m.x + 2 * dx, m.y + 2 * dy, q)
    &&& stone_of(g, m.x + 3 * dx, m.y + 3 * dy, m.player_id)
}

/// The first direction, from step `k` of the scan on, along which `m` captures.
pub open spec fn first_capture_from(g: Seq<Seq<Option<Player>>>, m: GameMove, k: nat) -> Option<
    (int, int),
>
    decreases 9 - k,
{
    if k >= 9 {
        None
    } else if k != 4 && captures_along(g, m, capture_dir(k as int).0, capture_dir(k as int).1) {
        Some(capture_dir(k as int))
    } else {
        first_capture_from(g, m, k + 1)
    }
}

/// The direction of the capture that `m` makes, if any.
pub open spec fn capture_direction(g: Seq<Seq<Option<Player>>>, m: GameMove) -> Option<(int, int)> {
    first_capture_from(g, m, 0)
}

/// The two cells removed by a capture along `d`.
pub open spec fn captured_cells(m: GameMove, d: (int, int)) -> Seq<(usize, usize)> {
    seq![
        ((m.x + d.0) as usize, (m.y + d.1) as usize),
        ((m.x + 2 * d.0) as usize, (m.y + 2 * d.1) as usize),
    ]
}

/// `c` is the capture that `m` makes on `g`, as `Capture::find_capture` reports it.
pub open spec fn is_capture_of(g: Seq<Seq<Option<Player>>>, m: GameMove, c: Capture) -> bool {
    &&& capture_direction(g, m) is Some
    &&& c.seq@ == captured_cells(m, capture_direction(g, m).unwrap())
    &&& c.player_id == m.player_id.spec_opponent()
    &&& c.num_captures == 1
}

/// What `find_capture` returns, stated over the grid.
pub open spec fn capture_result(g: Seq<Seq<Option<Player>>>, m: GameMove, r: Option<Capture>) -> bool {
    match r {
        Some(c) => is_capture_of(g, m, c),
        None => capture_direction(g, m) is None,
    }
}

/// A capture found by the scan brackets opponent stones along a
/// direction that is not the null one.
pub proof fn lemma_capture_found(g: Seq<Seq<Option<Player>>>, m: GameMove, k: nat)
    ensures
        first_capture_from(g, m, k) matches Some(d) ==> {
            &&& captures_along(g, m, d.0, d.1)
            &&& -1 <= d.0 <= 1
            &&& -1 <= d.1 <= 1
            &&& !(d.0 == 0 && d.1 == 0)
        },
    decreases 9 - k,
{
    if k < 9 {
        lemma_capture_found(g, m, k + 1);
    }
}

proof fn lemma_no_capture_far_away(g: Seq<Seq<Option<Player>>>, m: GameMove, k: nat)
    requires
        m.x > g.len() || m.y > g.len(),
    ensures
        first_capture_from(g, m, k) is None,
    decreases 9 - k,
{
    if k < 9 {
        lemma_no_capture_far_away(g, m, k + 1);
    }
}

/// Checks that (x, y) is on the board and holds a stone of `p`.
fn has_stone(board: &Board, x: isize, y: isize, p: Player) -> (r: bool)
    requires
        board_wf(grid(board)),
    ensures
        r == stone_of(grid(board), x as int, y as int, p),
{
    let n = board.len() as isize;
    if x < 0 || y < 0 || x >= n || y >= n {
        return false;
    }
    match get_cell(board, x as usize, y as usize) {
        Some(q) => q == p,
        None => false,
    }
}

impl Capture {
    /// An empty capture of `player_id`'s stones.
    pub fn new(player_id: Player) -> (r: Self)
        ensures
            r.seq@.len() == 0,
            r.player_id == player_id,
            r.num_captures == 0,
    {
        Capture { seq: Vec::new(), player_id, num_captures: 0 }
    }

    /// Looks for a pair of opponent stones that `game_move` brackets with
    /// one of the mover's own stones, scanning the eight directions in a
    /// fixed order, and returns the first one found.
    pub fn find_capture(board: &Board, game_move: &GameMove) -> (r: Option<Self>)
        requires
            board_wf(grid(board)),
        ensures
            capture_result(grid(board), *game_move, r),
    {
        let ghost g = grid(board);
        let n = board.len();
        if game_move.x > n || game_move.y > n {
            proof {
                lemma_no_capture_far_away(g, *game_move, 0);
            }
            return None;
        }
        let opp = game_move.player_id.opponent();
        let mx = game_move.x as isize;
        let my = game_move.y as isize;
        let mut k: usize = 0;
        while k < 9
            invariant
                k <= 9,
                g == grid(board),
                board_wf(g),
                n == board.len(),
                mx == game_move.x,
                my == game_move.y,
                mx <= MAX_BOARD_SIDE,
                my <= MAX_BOARD_SIDE,
                opp == game_move.player_id.spec_opponent(),
                capture_direction(g, *game_move) == first_capture_from(g, *game_move, k as nat),
            decreases 9 - k,
        {
            if k != 4 {
                let dx = (k / 3) as isize - 1;
                let dy = (k % 3) as isize - 1;
                if has_stone(board, mx + dx, my + dy, opp) && has_stone(
                    board,
                    mx + 2 * dx,
                    my + 2 * dy,
                    opp,
                ) && has_stone(board, mx + 3 * dx, my + 3 * dy, game_move.player_id) {
                    let mut seq: Vec<(usize, usize)> = Vec::new();
                    seq.push(((mx + dx) as usize, (my + dy) as usize));
                    seq.push(((mx + 2 * dx) as usize, (my + 2 * dy) as usize));
                    let c = Capture { seq, player_id: opp, num_captures: 1 };
                    assert(c.seq@ =~= captured_cells(*game_move, capture_dir(k as int)));
                    return Some(c);
                }
            }
            k += 1;
        }
        None
    }
}

proof fn lemma_scan_reaches(g: Seq<Seq<Option<Player>>>, m: GameMove, k: nat, k0: nat)
    requires
        k <= k0 < 9,
        k0 != 4,
        captures_along(g, m, capture_dir(k0 as int).0, capture_dir(k0 as int).1),
    ensures
        first_capture_from(g, m, k) is Some,
    decreases k0 - k,
{
    if k < k0 {
        lemma_scan_reaches(g, m, k + 1, k0);
    }
}

/// No capture is missed: whenever, in any of the eight directions from the
/// move, the next two cells hold the opponent's stones and the third holds
/// the mover's, the move captures, and what `find_capture` reports is a
/// capture of two opponent stones bracketed that way.
pub proof fn lemma_capture_complete(
    g: Seq<Seq<Option<Player>>>,
    m: GameMove,
    dx: int,
    dy: int,
    r: Option<Capture>,
)
    requires
        -1 <= dx <= 1,
        -1 <= dy <= 1,
        !(dx == 0 && dy == 0),
        stone_of(g, m.x + dx, m.y + dy, m.player_id.spec_opponent()),
        stone_of(g, m.x + 2 * dx, m.y + 2 * dy, m.player_id.spec_opponent()),
        stone_of(g, m.x + 3 * dx, m.y + 3 * dy, m.player_id),
        capture_result(g, m, r),
    ensures
        r matches Some(c) && {
            &&& c.player_id == m.player_id.spec_opponent()
            &&& c.num_captures == 1
            &&& c.seq@.len() == 2
            &&& exists|ex: int, ey: int|
                -1 <= ex <= 1 && -1 <= ey <= 1 && !(ex == 0 && ey == 0) && c.seq@[0] == (
                    (m.x + ex) as usize,
                    (m.y + ey) as usize,
                ) && c.seq@[1] == ((m.x + 2 * ex) as usize, (m.y + 2 * ey) as usize)
                    && #[trigger] stone_of(g, m.x + ex, m.y + ey, m.player_id.spec_opponent())
                    && stone_of(g, m.x + 2 * ex, m.y + 2 * ey, m.player_id.spec_opponent())
                    && stone_of(g, m.x + 3 * ex, m.y + 3 * ey, m.player_id)
        },
{
    let k0: nat = ((dx + 1) * 3 + (dy + 1)) as nat;
    assert(capture_dir(k0 as int) == (dx, dy)) by {
        if dx == -1 {
            if dy == -1 {
                assert(k0 == 0);
            } else if dy == 0 {
                assert(k0 == 1);
            } else {
                assert(k0 == 2);
            }
        } else if dx == 0 {
            if dy == -1 {
                assert(k0 == 3);
            } else {
                assert(k0 == 5);
            }
        } else {
            if dy == -1 {
                assert(k0 == 6);
            } else if dy == 0 {
                assert(k0 == 7);
            } else {
                assert(k0 == 8);
            }
        }
    }
    assert(k0 != 4);
    lemma_scan_reaches(g, m, 0, k0);
    lemma_capture_found(g, m, 0);
    let d = capture_direction(g, m).unwrap();
    assert(stone_of(g, m.x + d.0, m.y + d.1, m.player_id.spec_opponent()));
}

} // verus!
