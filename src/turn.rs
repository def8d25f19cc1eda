//! What a turn does to a board: the slide, the win test, the new tile and the
//! loss test, over the grid model of `board`.
use vstd::prelude::*;
use crate::board::{
    grid_movable, is_lost, is_won, line_at, line_index, line_offset, merge_grid, pos_col,
    pos_row, Direction, MoveOutcome,
};
use crate::line::{lemma_movable_leaves_gap, line_movable, merge_line};

verus! {

/// Cell `p` of `g`, counting cells row by row from the top left.
pub open spec fn cell(g: Seq<Seq<int>>, p: int) -> int {
    g[p / 4][p % 4]
}

/// `g` with cell `p` set to `v`.
pub open spec fn set_cell(g: Seq<Seq<int>>, p: int, v: int) -> Seq<Seq<int>> {
    g.update(p / 4, g[p / 4].update(p % 4, v))
}

/// The empty cells among the first `n` of `g`, in order.
pub open spec fn empty_cells(g: Seq<Seq<int>>, n: nat) -> Seq<int>
    decreases n,
{
    if n == 0 {
        Seq::empty()
    } else if cell(g, n - 1) == 0 {
        empty_cells(g, (n - 1) as nat).push(n - 1)
    } else {
        empty_cells(g, (n - 1) as nat)
    }
}

/// The number of tiles on `g`.
pub open spec fn tile_count(g: Seq<Seq<int>>) -> int {
    16 - empty_cells(g, 16).len()
}

/// The value of a new tile: 2, or else 4.
pub open spec fn new_tile(two: bool) -> int {
    if two {
        2
    } else {
        4
    }
}

/// The board without tiles.
pub open spec fn empty_grid() -> Seq<Seq<int>> {
    Seq::new(4, |r: int| Seq::new(4, |c: int| 0int))
}

/// A start position: tiles `a` and `b` in the distinct cells `i` and `j`.
pub open spec fn start_grid(i: int, j: int, a: int, b: int) -> Seq<Seq<int>> {
    set_cell(set_cell(empty_grid(), i, a), j, b)
}

/// `h` is `m` with a new tile of 2 or 4 in a cell that was empty.
pub open spec fn spawned(m: Seq<Seq<int>>, h: Seq<Seq<int>>) -> bool {
    exists|p: int, two: bool|
        0 <= p < 16 && cell(m, p) == 0 && h == #[trigger] set_cell(m, p, new_tile(two))
}

/// The outcome that a turn towards `d` from `g` reports once the board is `h`:
/// no move leaves the board alone; otherwise the slide comes first, a win is
/// reported on the slid board, and else the new tile in `h` is followed by the
/// loss test.
pub open spec fn turn_outcome(g: Seq<Seq<int>>, d: Direction, h: Seq<Seq<int>>, r: MoveOutcome) -> bool {
    let m = merge_grid(g, d);
    if !grid_movable(g, d) {
        r == MoveOutcome::NoMove && h == g
    } else if is_won(m) {
        r == MoveOutcome::Win && h == m
    } else {
        spawned(m, h) && r == (if is_lost(h) {
            MoveOutcome::Loss
        } else {
            MoveOutcome::Ongoing
        })
    }
}

pub proof fn lemma_empty_cells_bounds(g: Seq<Seq<int>>, n: nat)
    ensures
        empty_cells(g, n).len() <= n,
        forall|i: int|
            0 <= i < empty_cells(g, n).len() ==> 0 <= #[trigger] empty_cells(g, n)[i] < n
                && cell(g, empty_cells(g, n)[i]) == 0,
    decreases n,
{
    if n > 0 {
        lemma_empty_cells_bounds(g, (n - 1) as nat);
    }
}

/// An empty cell among the first `n` makes the list of empty cells nonempty.
pub proof fn lemma_empty_cell_listed(g: Seq<Seq<int>>, n: nat, p: int)
    requires
        0 <= p < n,
        cell(g, p) == 0,
    ensures
        empty_cells(g, n).len() > 0,
    decreases n,
{
    if p < n - 1 {
        lemma_empty_cell_listed(g, (n - 1) as nat, p);
    }
}

/// Filling an empty cell takes one cell off the list of empty cells.
pub proof fn lemma_fill_one(g: Seq<Seq<int>>, n: nat, p: int, v: int)
    requires
        g.len() == 4,
        forall|r: int| 0 <= r < 4 ==> (#[trigger] g[r]).len() == 4,
        0 <= p < 16,
        cell(g, p) == 0,
        v != 0,
        n <= 16,
    ensures
        empty_cells(set_cell(g, p, v), n).len() == empty_cells(g, n).len() - (if p < n {
            1int
        } else {
            0
        }),
    decreases n,
{
    if n > 0 {
        lemma_fill_one(g, (n - 1) as nat, p, v);
        let q = n - 1;
        if q != p {
            assert(cell(set_cell(g, p, v), q) == cell(g, q));
        } else {
            assert(cell(set_cell(g, p, v), q) == v);
        }
    }
}

proof fn lemma_empty_grid_cells(n: nat)
    requires
        n <= 16,
    ensures
        empty_cells(empty_grid(), n).len() == n,
    decreases n,
{
    if n > 0 {
        lemma_empty_grid_cells((n - 1) as nat);
        assert(cell(empty_grid(), n - 1) == 0);
    }
}

/// A start position holds exactly two tiles, each 2 or 4, and nothing else.
pub proof fn lemma_start_grid(i: int, j: int, a: int, b: int)
    requires
        0 <= i < 16,
        0 <= j < 16,
        i != j,
        a == 2 || a == 4,
        b == 2 || b == 4,
    ensures
        tile_count(start_grid(i, j, a, b)) == 2,
        forall|p: int|
            0 <= p < 16 ==> {
                let t = #[trigger] cell(start_grid(i, j, a, b), p);
                t == 0 || t == 2 || t == 4
            },
{
    let e = empty_grid();
    let g1 = set_cell(e, i, a);
    lemma_empty_grid_cells(16);
    assert(cell(e, i) == 0);
    lemma_fill_one(e, 16, i, a);
    assert(cell(g1, j) == 0);
    lemma_fill_one(g1, 16, j, b);
}

/// A slide that changes the board leaves at least one empty cell.
pub proof fn lemma_slide_leaves_empty(g: Seq<Seq<int>>, d: Direction)
    requires
        grid_movable(g, d),
    ensures
        empty_cells(merge_grid(g, d), 16).len() > 0,
{
    let k = choose|k: int| 0 <= k < 4 && #[trigger] line_movable(line_at(g, d, k));
    lemma_movable_leaves_gap(line_at(g, d, k));
    let r = pos_row(d, k, 3);
    let c = pos_col(d, k, 3);
    assert(line_index(d, r, c) == k && line_offset(d, r, c) == 3);
    let m = merge_grid(g, d);
    assert(m[r][c] == merge_line(line_at(g, d, k))[3]);
    assert(cell(m, 4 * r + c) == 0);
    lemma_empty_cell_listed(m, 16, 4 * r + c);
}

} // verus!
