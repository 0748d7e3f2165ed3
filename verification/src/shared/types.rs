use vstd::prelude::*;

use crate::game::state::types::Player;

verus! {

/// Side length of a square board.
pub type BoardSize = u16;

/// Rows of cells; `board[y][x]` is the cell in column `x` of row `y`.
pub type Board = Vec<Vec<Option<Player>>>;

/// The largest side a board can have.
pub const MAX_BOARD_SIDE: usize = 65535;

/// The board as a mathematical grid.
pub open spec fn grid(b: &Board) -> Seq<Seq<Option<Player>>> {
    b@.map_values(|r: Vec<Option<Player>>| r@)
}

pub open spec fn is_square(g: Seq<Seq<Option<Player>>>) -> bool {
    forall|y: int| 0 <= y < g.len() ==> #[trigger] g[y].len() == g.len()
}

/// A board that the game logic can work on: square, with a side that a
/// `BoardSize` can express.
pub open spec fn board_wf(g: Seq<Seq<Option<Player>>>) -> bool {
    g.len() <= MAX_BOARD_SIDE && is_square(g)
}

pub open spec fn in_bounds(g: Seq<Seq<Option<Player>>>, x: int, y: int) -> bool {
    0 <= x < g.len() && 0 <= y < g.len()
}

/// The cell at (x, y); meaningful only in bounds.
pub open spec fn cell(g: Seq<Seq<Option<Player>>>, x: int, y: int) -> Option<Player> {
    g[y][x]
}

/// (x, y) is on the board and holds a stone of `p`.
pub open spec fn stone_of(g: Seq<Seq<Option<Player>>>, x: int, y: int, p: Player) -> bool {
    in_bounds(g, x, y) && cell(g, x, y) == Some(p)
}

/// (x, y) is on the board and empty.
pub open spec fn empty_at(g: Seq<Seq<Option<Player>>>, x: int, y: int) -> bool {
    in_bounds(g, x, y) && cell(g, x, y) is None
}

/// The grid with the cell at (x, y) replaced by `v`.
pub open spec fn with_cell(
    g: Seq<Seq<Option<Player>>>,
    x: int,
    y: int,
    v: Option<Player>,
) -> Seq<Seq<Option<Player>>> {
    g.update(y, g[y].update(x, v))
}

/// Reads the cell at (x, y).
pub fn get_cell(board: &Board, x: usize, y: usize) -> (r: Option<Player>)
    requires
        is_square(grid(board)),
        x < board.len(),
        y < board.len(),
    ensures
        r == cell(grid(board), x as int, y as int),
{
    assert(grid(board)[y as int] == board@[y as int]@);
    board[y][x]
}

/// Writes the cell at (x, y).
pub fn set_cell(board: &mut Board, x: usize, y: usize, v: Option<Player>)
    requires
        is_square(grid(old(board))),
        x < old(board).len(),
        y < old(board).len(),
    ensures
        grid(final(board)) == with_cell(grid(old(board)), x as int, y as int, v),
        final(board).len() == old(board).len(),
{
    assert(grid(board)[y as int] == board@[y as int]@);
    board[y][x] = v;
    assert(grid(board) =~= with_cell(grid(old(board)), x as int, y as int, v)) by {
        assert forall|i: int| 0 <= i < grid(board).len() implies grid(board)[i]
            == with_cell(grid(old(board)), x as int, y as int, v)[i] by {
            if i != y {
                assert(board@[i] == old(board)@[i]);
            }
        }
    }
}

} // verus!

verus! {

/// An empty square board of side `n`.
pub open spec fn empty_grid(n: nat) -> Seq<Seq<Option<Player>>> {
    Seq::new(n, |y: int| Seq::new(n, |x: int| None::<Player>))
}

/// A fresh copy of the board.
pub fn copy_board(board: &Board) -> (r: Board)
    ensures
        grid(&r) == grid(board),
        r.len() == board.len(),
{
    let mut r: Board = Vec::new();
    let mut y: usize = 0;
    while y < board.len()
        invariant
            y <= board.len(),
            r.len() == y,
            forall|i: int| 0 <= i < y ==> #[trigger] r@[i]@ == board@[i]@,
        decreases board.len() - y,
    {
        let row = &board[y];
        let mut copy: Vec<Option<Player>> = Vec::new();
        let mut x: usize = 0;
        while x < row.len()
            invariant
                x <= row.len(),
                copy@ == row@.take(x as int),
            decreases row.len() - x,
        {
            copy.push(row[x]);
            x += 1;
            assert(copy@ =~= row@.take(x as int));
        }
        assert(row@.take(row.len() as int) =~= row@);
        r.push(copy);
        y += 1;
    }
    assert(grid(&r) =~= grid(board));
    r
}

/// A board of `size` × `size` empty cells.
pub fn new_board(size: usize) -> (r: Board)
    ensures
        grid(&r) == empty_grid(size as nat),
        r.len() == size,
{
    let mut r: Board = Vec::new();
    let mut y: usize = 0;
    while y < size
        invariant
            y <= size,
            r.len() == y,
            forall|i: int| 0 <= i < y ==> #[trigger] r@[i]@ == Seq::new(size as nat, |x: int| None::<Player>),
        decreases size - y,
    {
        let mut row: Vec<Option<Player>> = Vec::new();
        let mut x: usize = 0;
        while x < size
            invariant
                x <= size,
                row@ == Seq::new(x as nat, |i: int| None::<Player>),
            decreases size - x,
        {
            row.push(None);
            x += 1;
            assert(row@ =~= Seq::new(x as nat, |i: int| None::<Player>));
        }
        r.push(row);
        y += 1;
    }
    assert(grid(&r) =~= empty_grid(size as nat));
    r
}

} // verus!
