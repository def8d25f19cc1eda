//! Laws that relate the board's operations to each other.
use vstd::prelude::*;
use crate::board::{
    grid_movable, line_at, line_index, line_offset, merge_grid, pos_col, pos_row, well_sized,
    Direction, MoveOutcome,
};
use crate::line::{
    lemma_compact_len, lemma_combine_len, lemma_merge_line_sum, lemma_movable_line_changes,
    lemma_still_line_fixed,
    line_movable, line_sum, merge_line, movable_at, compact,
};
use crate::turn::{cell, lemma_fill_one, new_tile, set_cell, spawned, tile_count, turn_outcome};

verus! {

/// The sum of all tiles of a grid.
pub open spec fn grid_sum(g: Seq<Seq<int>>) -> int {
    line_sum(g[0]) + line_sum(g[1]) + line_sum(g[2]) + line_sum(g[3])
}

/// Some row of `g` has two equal neighbours.
pub open spec fn row_has_pair(g: Seq<Seq<int>>, r: int) -> bool {
    exists|c: int| 0 <= c < 3 && #[trigger] g[r][c] == g[r][c + 1]
}

proof fn lemma_line_sum4(s: Seq<int>)
    requires
        s.len() == 4,
    ensures
        line_sum(s) == s[0] + s[1] + s[2] + s[3],
{
    let s1 = s.drop_first();
    let s2 = s1.drop_first();
    let s3 = s2.drop_first();
    let s4 = s3.drop_first();
    assert(line_sum(s4) == 0);
    assert(line_sum(s3) == s[3] + line_sum(s4));
    assert(line_sum(s2) == s[2] + line_sum(s3));
    assert(line_sum(s1) == s[1] + line_sum(s2));
}

/// The lines of a direction add up to the whole grid.
proof fn lemma_grid_sum_by_lines(g: Seq<Seq<int>>, d: Direction)
    requires
        well_sized(g),
    ensures
        grid_sum(g) == line_sum(line_at(g, d, 0)) + line_sum(line_at(g, d, 1)) + line_sum(
            line_at(g, d, 2),
        ) + line_sum(line_at(g, d, 3)),
{
    lemma_line_sum4(g[0]);
    lemma_line_sum4(g[1]);
    lemma_line_sum4(g[2]);
    lemma_line_sum4(g[3]);
    lemma_line_sum4(line_at(g, d, 0));
    lemma_line_sum4(line_at(g, d, 1));
    lemma_line_sum4(line_at(g, d, 2));
    lemma_line_sum4(line_at(g, d, 3));
}

/// The lines of a slid grid are the slid lines.
proof fn lemma_lines_of_merge(g: Seq<Seq<int>>, d: Direction, k: int)
    requires
        0 <= k < 4,
    ensures
        line_at(merge_grid(g, d), d, k) == merge_line(line_at(g, d, k)),
{
    let l = line_at(g, d, k);
    lemma_compact_len(l);
    lemma_combine_len(compact(l));
    assert(line_at(merge_grid(g, d), d, k) =~= merge_line(l));
}

/// A slide keeps the sum of the tiles of the whole grid.
pub proof fn lemma_merge_keeps_sum(g: Seq<Seq<int>>, d: Direction)
    requires
        well_sized(g),
    ensures
        grid_sum(merge_grid(g, d)) == grid_sum(g),
{
    let m = merge_grid(g, d);
    lemma_grid_sum_by_lines(g, d);
    lemma_grid_sum_by_lines(m, d);
    lemma_lines_of_merge(g, d, 0);
    lemma_lines_of_merge(g, d, 1);
    lemma_lines_of_merge(g, d, 2);
    lemma_lines_of_merge(g, d, 3);
    lemma_merge_line_sum(line_at(g, d, 0));
    lemma_merge_line_sum(line_at(g, d, 1));
    lemma_merge_line_sum(line_at(g, d, 2));
    lemma_merge_line_sum(line_at(g, d, 3));
}

/// A slide in a direction that can change nothing leaves the grid as it is.
pub proof fn lemma_still_grid_fixed(g: Seq<Seq<int>>, d: Direction)
    requires
        well_sized(g),
        !grid_movable(g, d),
    ensures
        merge_grid(g, d) == g,
{
    assert forall|r: int, c: int| 0 <= r < 4 && 0 <= c < 4 implies #[trigger] merge_grid(g, d)[r][c] == g[r][c] by {
        let k = line_index(d, r, c);
        let l = line_at(g, d, k);
        assert(!line_movable(l));
        lemma_still_line_fixed(l);
        assert(pos_row(d, k, line_offset(d, r, c)) == r && pos_col(d, k, line_offset(d, r, c)) == c);
    }
    assert(merge_grid(g, d) =~~= g);
}

/// A direction can move something exactly when sliding that way changes the
/// grid.
pub proof fn lemma_movable_iff_changes(g: Seq<Seq<int>>, d: Direction)
    requires
        well_sized(g),
    ensures
        grid_movable(g, d) <==> merge_grid(g, d) != g,
{
    if grid_movable(g, d) {
        let k = choose|k: int| 0 <= k < 4 && #[trigger] line_movable(line_at(g, d, k));
        lemma_movable_line_changes(line_at(g, d, k));
        lemma_lines_of_merge(g, d, k);
    } else {
        lemma_still_grid_fixed(g, d);
    }
}

/// Once a slide has left nothing to move in its direction, sliding that way
/// again changes nothing.
pub proof fn lemma_merge_twice(g: Seq<Seq<int>>, d: Direction)
    requires
        well_sized(g),
        !grid_movable(merge_grid(g, d), d),
    ensures
        merge_grid(merge_grid(g, d), d) == merge_grid(g, d),
{
    lemma_still_grid_fixed(merge_grid(g, d), d);
}

/// On a full grid whose tiles grow along every row and every column, no
/// direction can change anything.
pub proof fn lemma_increasing_grid_still(g: Seq<Seq<int>>, d: Direction)
    requires
        well_sized(g),
        forall|r: int, c: int| 0 <= r < 4 && 0 <= c < 4 ==> #[trigger] g[r][c] > 0,
        forall|r: int, c: int| 0 <= r < 4 && 0 <= c < 3 ==> #[trigger] g[r][c] < g[r][c + 1],
        forall|r: int, c: int| 0 <= r < 3 && 0 <= c < 4 ==> #[trigger] g[r][c] < g[r + 1][c],
    ensures
        !grid_movable(g, d),
{
    assert forall|k: int| 0 <= k < 4 implies !#[trigger] line_movable(line_at(g, d, k)) by {
        let l = line_at(g, d, k);
        assert forall|i: int| 0 <= i < 3 implies !#[trigger] movable_at(l, i) by {
            assert(l[i] == g[pos_row(d, k, i)][pos_col(d, k, i)]);
            assert(l[i + 1] == g[pos_row(d, k, i + 1)][pos_col(d, k, i + 1)]);
        }
    }
}

/// On a grid with a single tile, at row `r0` and column `c0`, a slide can move
/// it exactly towards the sides it does not touch.
pub proof fn lemma_single_tile(g: Seq<Seq<int>>, r0: int, c0: int)
    requires
        well_sized(g),
        0 <= r0 < 4,
        0 <= c0 < 4,
        g[r0][c0] != 0,
        forall|r: int, c: int| 0 <= r < 4 && 0 <= c < 4 && (r != r0 || c != c0) ==> #[trigger] g[r][c] == 0,
    ensures
        grid_movable(g, Direction::Left) == (c0 > 0),
        grid_movable(g, Direction::Right) == (c0 < 3),
        grid_movable(g, Direction::Up) == (r0 > 0),
        grid_movable(g, Direction::Down) == (r0 < 3),
{
    lemma_single_tile_dir(g, r0, c0, Direction::Left);
    lemma_single_tile_dir(g, r0, c0, Direction::Right);
    lemma_single_tile_dir(g, r0, c0, Direction::Up);
    lemma_single_tile_dir(g, r0, c0, Direction::Down);
}

proof fn lemma_single_tile_dir(g: Seq<Seq<int>>, r0: int, c0: int, d: Direction)
    requires
        well_sized(g),
        0 <= r0 < 4,
        0 <= c0 < 4,
        g[r0][c0] != 0,
        forall|r: int, c: int| 0 <= r < 4 && 0 <= c < 4 && (r != r0 || c != c0) ==> #[trigger] g[r][c] == 0,
    ensures
        grid_movable(g, d) == (line_offset(d, r0, c0) > 0),
{
    let k0 = line_index(d, r0, c0);
    let i0 = line_offset(d, r0, c0);
    assert(pos_row(d, k0, i0) == r0 && pos_col(d, k0, i0) == c0);
    if i0 > 0 {
        let l = line_at(g, d, k0);
        assert(pos_row(d, k0, i0 - 1) != r0 || pos_col(d, k0, i0 - 1) != c0);
        assert(movable_at(l, i0 - 1));
        assert(line_movable(line_at(g, d, k0)));
    } else {
        assert forall|k: int| 0 <= k < 4 implies !#[trigger] line_movable(line_at(g, d, k)) by {
            let l = line_at(g, d, k);
            assert forall|i: int| 0 <= i < 3 implies !#[trigger] movable_at(l, i) by {
                assert(pos_row(d, k, i + 1) != r0 || pos_col(d, k, i + 1) != c0);
                assert(l[i + 1] == 0);
            }
        }
    }
}

/// On a full grid where every row has two equal neighbours and no column has
/// any, sideways slides can move something and vertical ones cannot.
pub proof fn lemma_rows_pair_columns_not(g: Seq<Seq<int>>)
    requires
        well_sized(g),
        forall|r: int, c: int| 0 <= r < 4 && 0 <= c < 4 ==> #[trigger] g[r][c] != 0,
        forall|r: int| 0 <= r < 4 ==> #[trigger] row_has_pair(g, r),
        forall|r: int, c: int| 0 <= r < 3 && 0 <= c < 4 ==> #[trigger] g[r][c] != g[r + 1][c],
    ensures
        grid_movable(g, Direction::Left),
        grid_movable(g, Direction::Right),
        !grid_movable(g, Direction::Up),
        !grid_movable(g, Direction::Down),
{
    assert(row_has_pair(g, 0));
    let c = choose|c: int| 0 <= c < 3 && #[trigger] g[0][c] == g[0][c + 1];
    assert(movable_at(line_at(g, Direction::Left, 0), c));
    assert(line_movable(line_at(g, Direction::Left, 0)));
    assert(movable_at(line_at(g, Direction::Right, 0), 2 - c));
    assert(line_movable(line_at(g, Direction::Right, 0)));
    assert forall|k: int| 0 <= k < 4 implies !#[trigger] line_movable(line_at(g, Direction::Up, k)) by {
        let l = line_at(g, Direction::Up, k);
        assert forall|i: int| 0 <= i < 3 implies !#[trigger] movable_at(l, i) by {
            assert(g[i][k] != g[i + 1][k]);
        }
    }
    assert forall|k: int| 0 <= k < 4 implies !#[trigger] line_movable(line_at(g, Direction::Down, k)) by {
        let l = line_at(g, Direction::Down, k);
        assert forall|i: int| 0 <= i < 3 implies !#[trigger] movable_at(l, i) by {
            assert(g[2 - i][k] != g[3 - i][k]);
        }
    }
}

/// A turn that goes on, or ends in a loss, after a slide that combined no
/// tiles has exactly one tile more than the board it started from.
pub proof fn lemma_turn_adds_one_tile(
    g: Seq<Seq<int>>,
    d: Direction,
    h: Seq<Seq<int>>,
    r: MoveOutcome,
)
    requires
        turn_outcome(g, d, h, r),
        r == MoveOutcome::Ongoing || r == MoveOutcome::Loss,
        tile_count(merge_grid(g, d)) == tile_count(g),
    ensures
        tile_count(h) == tile_count(g) + 1,
{
    let m = merge_grid(g, d);
    assert(spawned(m, h));
    let (p, two) = choose|p: int, two: bool|
        0 <= p < 16 && cell(m, p) == 0 && h == #[trigger] set_cell(m, p, new_tile(two));
    lemma_fill_one(m, 16, p, new_tile(two));
}

} // verus!
