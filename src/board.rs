//! The 4×4 board, its slides in four directions, and the end-of-game tests.
use vstd::prelude::*;
use crate::line::{line_movable, merge_line, movable_at, slide_line, ints};
use crate::laws::lemma_movable_iff_changes;
use crate::random::{random_below, random_ratio};
use crate::turn::{
    cell, empty_cells, lemma_empty_cells_bounds, lemma_fill_one,
    lemma_slide_leaves_empty, lemma_start_grid, new_tile, set_cell, start_grid, spawned,
    tile_count, turn_outcome,
};

verus! {

/// The tile whose appearance wins the game.
pub const WIN_TILE: usize = 2048;

/// A new tile is a 2 in this many cases out of `TWO_OUT_OF`, else a 4.
pub const TWO_CHANCES: u32 = 3;

/// See `TWO_CHANCES`.
pub const TWO_OUT_OF: u32 = 4;

/// The side towards which a slide moves the tiles.
#[derive(Clone, Copy, Debug, PartialEq, Eq, Structural)]
pub enum Direction {
    Up,
    Down,
    Left,
    Right,
}

/// What one turn came to.
#[derive(Clone, Copy, Debug, PartialEq, Eq, Structural)]
pub enum MoveOutcome {
    /// The turn was played and the game goes on.
    Ongoing,
    /// The slide made the winning tile.
    Win,
    /// After the slide and the new tile, no direction can move anything.
    Loss,
    /// The direction moves nothing: the board is left as it was.
    NoMove,
}

/// A 4×4 grid of tiles; 0 is an empty cell.
#[derive(Clone, Copy, Debug)]
pub struct Board {
    rows: [[usize; 4]; 4],
}

/// The tiles of a grid of rows as integers, `g[r][c]` for row `r`, column `c`.
pub open spec fn grid_of(rows: [[usize; 4]; 4]) -> Seq<Seq<int>> {
    Seq::new(4, |r: int| Seq::new(4, |c: int| rows[r][c] as int))
}

/// `g` has four rows of four cells.
pub open spec fn well_sized(g: Seq<Seq<int>>) -> bool {
    g.len() == 4 && forall|r: int| 0 <= r < 4 ==> (#[trigger] g[r]).len() == 4
}

/// Row of the `i`-th cell of line `k` for a slide towards `d`, counted from
/// the edge the tiles move to.
pub open spec fn pos_row(d: Direction, k: int, i: int) -> int {
    match d {
        Direction::Left => k,
        Direction::Right => k,
        Direction::Up => i,
        Direction::Down => 3 - i,
    }
}

/// Column of the `i`-th cell of line `k` for a slide towards `d`.
pub open spec fn pos_col(d: Direction, k: int, i: int) -> int {
    match d {
        Direction::Left => i,
        Direction::Right => 3 - i,
        Direction::Up => k,
        Direction::Down => k,
    }
}

/// The line that holds cell (`r`, `c`) for a slide towards `d`.
pub open spec fn line_index(d: Direction, r: int, c: int) -> int {
    match d {
        Direction::Left | Direction::Right => r,
        Direction::Up | Direction::Down => c,
    }
}

/// How far cell (`r`, `c`) lies from the edge that a slide towards `d` moves to.
pub open spec fn line_offset(d: Direction, r: int, c: int) -> int {
    match d {
        Direction::Left => c,
        Direction::Right => 3 - c,
        Direction::Up => r,
        Direction::Down => 3 - r,
    }
}

/// Line `k` of `g` for a slide towards `d`, read from the edge the tiles move to.
pub open spec fn line_at(g: Seq<Seq<int>>, d: Direction, k: int) -> Seq<int> {
    Seq::new(4, |i: int| g[pos_row(d, k, i)][pos_col(d, k, i)])
}

/// `g` after every line slides towards `d`.
pub open spec fn merge_grid(g: Seq<Seq<int>>, d: Direction) -> Seq<Seq<int>> {
    Seq::new(
        4,
        |r: int|
            Seq::new(
                4,
                |c: int| merge_line(line_at(g, d, line_index(d, r, c)))[line_offset(d, r, c)],
            ),
    )
}

/// A slide towards `d` changes some line of `g`.
pub open spec fn grid_movable(g: Seq<Seq<int>>, d: Direction) -> bool {
    exists|k: int| 0 <= k < 4 && #[trigger] line_movable(line_at(g, d, k))
}

/// Some cell of `g` holds the winning tile.
pub open spec fn is_won(g: Seq<Seq<int>>) -> bool {
    exists|r: int, c: int| 0 <= r < 4 && 0 <= c < 4 && #[trigger] g[r][c] == WIN_TILE
}

/// No direction can change `g`.
pub open spec fn is_lost(g: Seq<Seq<int>>) -> bool {
    !grid_movable(g, Direction::Up) && !grid_movable(g, Direction::Down) && !grid_movable(
        g,
        Direction::Left,
    ) && !grid_movable(g, Direction::Right)
}

/// Every tile of `g` can be doubled in a `usize`.
pub open spec fn tiles_fit(g: Seq<Seq<int>>) -> bool {
    forall|r: int, c: int|
        0 <= r < 4 && 0 <= c < 4 ==> 0 <= #[trigger] g[r][c] && 2 * g[r][c] <= usize::MAX
}

/// The cell, as (row, column), of the `i`-th cell of line `k` towards `d`.
fn cell_pos(d: Direction, k: usize, i: usize) -> (p: (usize, usize))
    requires
        k < 4,
        i < 4,
    ensures
        p.0 == pos_row(d, k as int, i as int),
        p.1 == pos_col(d, k as int, i as int),
        p.0 < 4,
        p.1 < 4,
{
    match d {
        Direction::Left => (k, i),
        Direction::Right => (k, 3 - i),
        Direction::Up => (i, k),
        Direction::Down => (3 - i, k),
    }
}

impl View for Board {
    type V = Seq<Seq<int>>;

    closed spec fn view(&self) -> Seq<Seq<int>> {
        grid_of(self.rows)
    }
}

impl Board {
    /// The empty board.
    pub fn new() -> (b: Board)
        ensures
            forall|r: int, c: int| 0 <= r < 4 && 0 <= c < 4 ==> #[trigger] b@[r][c] == 0,
    {
        Board { rows: [[0usize; 4]; 4] }
    }

    /// The board whose rows, top to bottom, are `rows`.
    pub fn from_rows(rows: [[usize; 4]; 4]) -> (b: Board)
        ensures
            b@ == grid_of(rows),
    {
        Board { rows }
    }

    /// The rows of the board, top to bottom.
    pub fn rows(&self) -> (rows: [[usize; 4]; 4])
        ensures
            grid_of(rows) == self@,
    {
        self.rows
    }

    /// Whether a slide towards `dir` would change the board.
    pub fn is_mergeable(&self, dir: Direction) -> (r: bool)
        ensures
            r == grid_movable(self@, dir),
            r == (merge_grid(self@, dir) != self@),
    {
        let ghost g = self@;
        proof {
            lemma_movable_iff_changes(g, dir);
        }
        let mut k: usize = 0;
        while k < 4
            invariant
                k <= 4,
                g == self@,
                grid_movable(g, dir) == (merge_grid(g, dir) != g),
                forall|k2: int| 0 <= k2 < k ==> !#[trigger] line_movable(line_at(g, dir, k2)),
            decreases 4 - k,
        {
            let ghost l = line_at(g, dir, k as int);
            let (r0, c0) = cell_pos(dir, k, 0);
            let mut prev = self.rows[r0][c0];
            let mut i: usize = 1;
            while i < 4
                invariant
                    1 <= i <= 4,
                    k < 4,
                    g == self@,
                    grid_movable(g, dir) == (merge_grid(g, dir) != g),
                    l == line_at(g, dir, k as int),
                    prev as int == l[i - 1],
                    forall|i2: int| 0 <= i2 < i - 1 ==> !#[trigger] movable_at(l, i2),
                decreases 4 - i,
            {
                let (r, c) = cell_pos(dir, k, i);
                let curr = self.rows[r][c];
                if (prev == 0 && curr != 0) || (prev != 0 && prev == curr) {
                    assert(movable_at(l, i - 1));
                    assert(line_movable(line_at(g, dir, k as int)));
                    return true;
                }
                prev = curr;
                i = i + 1;
            }
            k = k + 1;
        }
        false
    }

    /// Slides every line towards `dir`: gaps close up and two equal tiles that
    /// meet become one tile of double the value, each tile at most once.
    pub fn merge(&mut self, dir: Direction)
        requires
            tiles_fit(old(self)@),
        ensures
            final(self)@ == merge_grid(old(self)@, dir),
    {
        let ghost g = self@;
        let ghost m = merge_grid(g, dir);
        let mut next: [[usize; 4]; 4] = [[0usize; 4]; 4];
        let mut k: usize = 0;
        while k < 4
            invariant
                k <= 4,
                g == self@,
                m == merge_grid(g, dir),
                tiles_fit(g),
                forall|r: int, c: int|
                    0 <= r < 4 && 0 <= c < 4 && line_index(dir, r, c) < k ==> next[r][c] as int
                        == #[trigger] m[r][c],
            decreases 4 - k,
        {
            let mut l: [usize; 4] = [0usize; 4];
            let mut i: usize = 0;
            while i < 4
                invariant
                    i <= 4,
                    k < 4,
                    g == self@,
                    forall|i2: int| 0 <= i2 < i ==> l[i2] as int == #[trigger] line_at(g, dir, k as int)[i2],
                decreases 4 - i,
            {
                let (r, c) = cell_pos(dir, k, i);
                l[i] = self.rows[r][c];
                i = i + 1;
            }
            assert(ints(l) =~= line_at(g, dir, k as int));
            let s = slide_line(l);
            let mut i: usize = 0;
            while i < 4
                invariant
                    i <= 4,
                    k < 4,
                    m == merge_grid(g, dir),
                    ints(s) == merge_line(line_at(g, dir, k as int)),
                    forall|r: int, c: int|
                        0 <= r < 4 && 0 <= c < 4 && (line_index(dir, r, c) < k || (line_index(
                            dir,
                            r,
                            c,
                        ) == k && line_offset(dir, r, c) < i)) ==> next[r][c] as int
                            == #[trigger] m[r][c],
                decreases 4 - i,
            {
                let (r, c) = cell_pos(dir, k, i);
                assert(s[i as int] as int == ints(s)[i as int]);
                next[r][c] = s[i];
                i = i + 1;
            }
            k = k + 1;
        }
        self.rows = next;
        assert(self@ =~~= m);
    }

    /// The board with tiles in the two distinct cells `i` and `j` (counted row
    /// by row from the top left): each a 2 where its flag is set, else a 4.
    pub fn startpos_with(i: usize, j: usize, first_two: bool, second_two: bool) -> (b: Board)
        requires
            i < 16,
            j < 16,
            i != j,
        ensures
            b@ == start_grid(i as int, j as int, new_tile(first_two), new_tile(second_two)),
            tile_count(b@) == 2,
            forall|p: int|
                0 <= p < 16 ==> {
                    let t = #[trigger] cell(b@, p);
                    t == 0 || t == 2 || t == 4
                },
    {
        let mut rows: [[usize; 4]; 4] = [[0usize; 4]; 4];
        rows[i / 4][i % 4] = if first_two { 2 } else { 4 };
        rows[j / 4][j % 4] = if second_two { 2 } else { 4 };
        let b = Board { rows };
        proof {
            lemma_start_grid(i as int, j as int, new_tile(first_two), new_tile(second_two));
            assert(b@ =~~= start_grid(i as int, j as int, new_tile(first_two), new_tile(second_two)));
        }
        b
    }

    /// A start position: two distinct cells, drawn at random, each hold a 2
    /// (three times in four) or a 4; the rest are empty.
    pub fn startpos() -> (b: Board)
        ensures
            exists|i: int, j: int, first_two: bool, second_two: bool|
                0 <= i < 16 && 0 <= j < 16 && i != j && b@ == #[trigger] start_grid(
                    i,
                    j,
                    new_tile(first_two),
                    new_tile(second_two),
                ),
            tile_count(b@) == 2,
            forall|p: int|
                0 <= p < 16 ==> {
                    let t = #[trigger] cell(b@, p);
                    t == 0 || t == 2 || t == 4
                },
    {
        let i = random_below(16);
        // the second cell is drawn uniformly from the fifteen others: skipping
        // over `i` gives the same choice as drawing again until it differs
        let other = random_below(15);
        let j = if other >= i { other + 1 } else { other };
        let first_two = random_ratio(TWO_CHANCES, TWO_OUT_OF);
        let second_two = random_ratio(TWO_CHANCES, TWO_OUT_OF);
        Board::startpos_with(i, j, first_two, second_two)
    }

    /// The empty cells, counted row by row from the top left, in order.
    pub fn empty_cells(&self) -> (v: Vec<usize>)
        ensures
            v@.map_values(|p: usize| p as int) == empty_cells(self@, 16),
            forall|i: int| 0 <= i < v.len() ==> #[trigger] v[i] < 16,
    {
        let mut v: Vec<usize> = Vec::new();
        let mut p: usize = 0;
        while p < 16
            invariant
                p <= 16,
                v@.map_values(|q: usize| q as int) == empty_cells(self@, p as nat),
                forall|i: int| 0 <= i < v.len() ==> #[trigger] v[i] < p,
            decreases 16 - p,
        {
            if self.rows[p / 4][p % 4] == 0 {
                v.push(p);
                assert(v@.map_values(|q: usize| q as int) =~= empty_cells(self@, (p + 1) as nat));
            } else {
                assert(v@.map_values(|q: usize| q as int) =~= empty_cells(self@, (p + 1) as nat));
            }
            p = p + 1;
        }
        v
    }

    /// Puts a new tile, a 2 where `two` is set and else a 4, in the `k`-th
    /// empty cell.
    pub fn spawn(&mut self, k: usize, two: bool)
        requires
            k < empty_cells(old(self)@, 16).len(),
        ensures
            final(self)@ == set_cell(old(self)@, empty_cells(old(self)@, 16)[k as int], new_tile(two)),
            tile_count(final(self)@) == tile_count(old(self)@) + 1,
    {
        let ghost g = self@;
        let empty = self.empty_cells();
        proof {
            lemma_empty_cells_bounds(g, 16);
        }
        let p = empty[k];
        assert(p as int == empty_cells(g, 16)[k as int]);
        self.rows[p / 4][p % 4] = if two { 2 } else { 4 };
        proof {
            lemma_fill_one(g, 16, p as int, new_tile(two));
        }
        assert(self@ =~~= set_cell(g, p as int, new_tile(two)));
    }

    /// One turn towards `dir`, with the new tile given: where the slide moves
    /// something and makes no winning tile, the new tile goes to the empty cell
    /// that `pick` selects (its remainder by the number of empty cells, in
    /// order) and is a 2 where `two` is set, else a 4.
    pub fn mv_with(&mut self, dir: Direction, pick: usize, two: bool) -> (r: MoveOutcome)
        requires
            tiles_fit(old(self)@),
        ensures
            turn_outcome(old(self)@, dir, final(self)@, r),
            grid_movable(old(self)@, dir) && !is_won(merge_grid(old(self)@, dir)) ==> {
                let m = merge_grid(old(self)@, dir);
                final(self)@ == set_cell(
                    m,
                    empty_cells(m, 16)[pick as int % empty_cells(m, 16).len() as int],
                    new_tile(two),
                )
            },
    {
        if !self.is_mergeable(dir) {
            return MoveOutcome::NoMove;
        }
        let ghost g = self@;
        self.merge(dir);
        if self.is_win() {
            return MoveOutcome::Win;
        }
        let ghost m = self@;
        let n = self.empty_cells().len();
        proof {
            lemma_slide_leaves_empty(g, dir);
        }
        self.spawn(pick % n, two);
        self.after_spawn(Ghost(m))
    }

    /// One turn towards `dir`: the slide, the win test, a new tile (a 2 three
    /// times in four, else a 4) in an empty cell drawn at random, and the loss
    /// test.
    pub fn mv(&mut self, dir: Direction) -> (r: MoveOutcome)
        requires
            tiles_fit(old(self)@),
        ensures
            turn_outcome(old(self)@, dir, final(self)@, r),
            r == MoveOutcome::Ongoing || r == MoveOutcome::Loss ==> tile_count(final(self)@)
                == tile_count(merge_grid(old(self)@, dir)) + 1,
    {
        if !self.is_mergeable(dir) {
            return MoveOutcome::NoMove;
        }
        let ghost g = self@;
        self.merge(dir);
        if self.is_win() {
            return MoveOutcome::Win;
        }
        let ghost m = self@;
        let n = self.empty_cells().len();
        proof {
            lemma_slide_leaves_empty(g, dir);
        }
        let k = random_below(n);
        let two = random_ratio(TWO_CHANCES, TWO_OUT_OF);
        self.spawn(k, two);
        self.after_spawn(Ghost(m))
    }

    /// The outcome of a turn once the new tile is on the board.
    fn after_spawn(&self, m: Ghost<Seq<Seq<int>>>) -> (r: MoveOutcome)
        requires
            exists|k: int, two: bool|
                0 <= k < empty_cells(m@, 16).len() && self@ == #[trigger] set_cell(
                    m@,
                    empty_cells(m@, 16)[k],
                    new_tile(two),
                ),
        ensures
            spawned(m@, self@),
            r == (if is_lost(self@) {
                MoveOutcome::Loss
            } else {
                MoveOutcome::Ongoing
            }),
    {
        proof {
            let (k, two) = choose|k: int, two: bool|
                0 <= k < empty_cells(m@, 16).len() && self@ == #[trigger] set_cell(
                    m@,
                    empty_cells(m@, 16)[k],
                    new_tile(two),
                );
            lemma_empty_cells_bounds(m@, 16);
            let p = empty_cells(m@, 16)[k];
            assert(0 <= p < 16 && cell(m@, p) == 0 && self@ == set_cell(m@, p, new_tile(two)));
        }
        if self.is_loss() {
            MoveOutcome::Loss
        } else {
            MoveOutcome::Ongoing
        }
    }

    /// Whether every tile can be doubled without overflow, which a slide needs.
    pub fn tiles_can_double(&self) -> (ok: bool)
        ensures
            ok == tiles_fit(self@),
    {
        let mut r: usize = 0;
        while r < 4
            invariant
                r <= 4,
                forall|r2: int, c2: int|
                    0 <= r2 < r && 0 <= c2 < 4 ==> 2 * #[trigger] self@[r2][c2] <= usize::MAX,
            decreases 4 - r,
        {
            let mut c: usize = 0;
            while c < 4
                invariant
                    r < 4,
                    c <= 4,
                    forall|r2: int, c2: int|
                        0 <= r2 < r && 0 <= c2 < 4 ==> 2 * #[trigger] self@[r2][c2] <= usize::MAX,
                    forall|c2: int| 0 <= c2 < c ==> 2 * #[trigger] self@[r as int][c2] <= usize::MAX,
                decreases 4 - c,
            {
                if self.rows[r][c] > usize::MAX / 2 {
                    assert(2 * self@[r as int][c as int] > usize::MAX);
                    return false;
                }
                c = c + 1;
            }
            r = r + 1;
        }
        true
    }

    /// Whether some cell holds the winning tile.
    pub fn is_win(&self) -> (r: bool)
        ensures
            r == is_won(self@),
    {
        let mut r: usize = 0;
        while r < 4
            invariant
                r <= 4,
                forall|r2: int, c2: int|
                    0 <= r2 < r && 0 <= c2 < 4 ==> #[trigger] self@[r2][c2] != WIN_TILE,
            decreases 4 - r,
        {
            let mut c: usize = 0;
            while c < 4
                invariant
                    r < 4,
                    c <= 4,
                    forall|r2: int, c2: int|
                        0 <= r2 < r && 0 <= c2 < 4 ==> #[trigger] self@[r2][c2] != WIN_TILE,
                    forall|c2: int| 0 <= c2 < c ==> #[trigger] self@[r as int][c2] != WIN_TILE,
                decreases 4 - c,
            {
                if self.rows[r][c] == WIN_TILE {
                    assert(self@[r as int][c as int] == WIN_TILE);
                    return true;
                }
                c = c + 1;
            }
            r = r + 1;
        }
        false
    }

    /// Whether no direction can change the board.
    pub fn is_loss(&self) -> (r: bool)
        ensures
            r == is_lost(self@),
            r == !(grid_movable(self@, Direction::Up) || grid_movable(self@, Direction::Down)
                || grid_movable(self@, Direction::Left) || grid_movable(self@, Direction::Right)),
    {
        !(self.is_mergeable(Direction::Up) || self.is_mergeable(Direction::Down)
            || self.is_mergeable(Direction::Left) || self.is_mergeable(Direction::Right))
    }
}

impl PartialEq for Board {
    fn eq(&self, other: &Board) -> (r: bool) {
        let mut r: usize = 0;
        while r < 4
            invariant
                r <= 4,
                forall|r2: int, c2: int|
                    0 <= r2 < r && 0 <= c2 < 4 ==> #[trigger] self@[r2][c2] == other@[r2][c2],
            decreases 4 - r,
        {
            let mut c: usize = 0;
            while c < 4
                invariant
                    r < 4,
                    c <= 4,
                    forall|r2: int, c2: int|
                        0 <= r2 < r && 0 <= c2 < 4 ==> #[trigger] self@[r2][c2] == other@[r2][c2],
                    forall|c2: int| 0 <= c2 < c ==> #[trigger] self@[r as int][c2] == other@[r as int][c2],
                decreases 4 - c,
            {
                if self.rows[r][c] != other.rows[r][c] {
                    assert(self@[r as int][c as int] != other@[r as int][c as int]);
                    return false;
                }
                c = c + 1;
            }
            r = r + 1;
        }
        assert(self@ =~~= other@);
        true
    }
}

impl vstd::std_specs::cmp::PartialEqSpecImpl for Board {
    open spec fn obeys_eq_spec() -> bool {
        true
    }

    open spec fn eq_spec(&self, other: &Board) -> bool {
        self@ == other@
    }
}

impl Eq for Board {

}

} // verus!
