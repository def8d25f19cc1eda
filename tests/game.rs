use game2048::board::Direction::{Down, Left, Right, Up};
use game2048::board::{Direction, MoveOutcome};
use game2048::line::slide_line;
use game2048::Board;

fn tiles(b: &Board) -> usize {
    b.rows().iter().flatten().filter(|v| **v != 0).count()
}

fn total(b: &Board) -> usize {
    b.rows().iter().flatten().sum()
}

#[test]
fn three_equal_tiles_merge_once() {
    assert_eq!(slide_line([2, 2, 2, 0]), [4, 2, 0, 0]);
    let mut b = Board::from_rows([[2, 2, 2, 0], [0; 4], [0; 4], [0; 4]]);
    b.merge(Left);
    assert_eq!(b.rows()[0], [4, 2, 0, 0]);
    let mut c = Board::from_rows([[0, 2, 2, 2], [0; 4], [0; 4], [0; 4]]);
    c.merge(Right);
    assert_eq!(c.rows()[0], [0, 0, 2, 4]);
}

#[test]
fn slide_line_cases() {
    assert_eq!(slide_line([0, 0, 0, 0]), [0, 0, 0, 0]);
    assert_eq!(slide_line([2, 2, 2, 2]), [4, 4, 0, 0]);
    assert_eq!(slide_line([0, 4, 0, 4]), [8, 0, 0, 0]);
    assert_eq!(slide_line([2, 4, 8, 16]), [2, 4, 8, 16]);
    assert_eq!(slide_line([4, 4, 8, 0]), [8, 8, 0, 0]);
}

#[test]
fn merge_keeps_sum() {
    let start = Board::from_rows([[2, 2, 4, 0], [4, 0, 4, 8], [2, 2, 2, 2], [0, 16, 16, 0]]);
    for dir in [Up, Down, Left, Right] {
        let mut b = start;
        b.merge(dir);
        assert_eq!(total(&b), total(&start));
    }
}

#[test]
fn merge_twice_when_exhausted_is_fixed() {
    let mut b = Board::from_rows([[0, 2, 0, 4], [8, 0, 8, 0], [2, 4, 2, 4], [0; 4]]);
    b.merge(Left);
    assert!(!b.is_mergeable(Left));
    let once = b;
    b.merge(Left);
    assert_eq!(b, once);
}

#[test]
fn empty_board_merge_is_noop() {
    let mut b = Board::new();
    for dir in [Up, Down, Left, Right] {
        assert!(!b.is_mergeable(dir));
        b.merge(dir);
        assert_eq!(b, Board::new());
    }
}

#[test]
fn single_inner_tile_moves_everywhere() {
    let b = Board::from_rows([[0; 4], [0, 0, 2, 0], [0; 4], [0; 4]]);
    for dir in [Up, Down, Left, Right] {
        assert!(b.is_mergeable(dir));
    }
    let corner = Board::from_rows([[2, 0, 0, 0], [0; 4], [0; 4], [0; 4]]);
    assert!(!corner.is_mergeable(Up));
    assert!(!corner.is_mergeable(Left));
    assert!(corner.is_mergeable(Down));
    assert!(corner.is_mergeable(Right));
}

#[test]
fn checkerboard_is_loss() {
    let b = Board::from_rows([[2, 4, 2, 4], [4, 2, 4, 2], [2, 4, 2, 4], [4, 2, 4, 2]]);
    for dir in [Up, Down, Left, Right] {
        assert!(!b.is_mergeable(dir));
    }
    assert!(b.is_loss());
    let c = Board::from_rows([[2, 4, 2, 4], [4, 2, 4, 2], [2, 4, 2, 4], [4, 2, 4, 4]]);
    assert!(!c.is_loss());
}

#[test]
fn win_needs_exact_tile() {
    assert!(!Board::new().is_win());
    assert!(Board::from_rows([[0; 4], [0; 4], [0, 0, 0, 2048], [0; 4]]).is_win());
    assert!(!Board::from_rows([[4096, 1024, 0, 0], [0; 4], [0; 4], [0; 4]]).is_win());
}

#[test]
fn startpos_has_two_small_tiles() {
    for _ in 0..50 {
        let b = Board::startpos();
        assert_eq!(tiles(&b), 2);
        for v in b.rows().iter().flatten() {
            assert!(*v == 0 || *v == 2 || *v == 4);
        }
    }
}

#[test]
fn startpos_with_places_tiles() {
    let b = Board::startpos_with(0, 15, true, false);
    assert_eq!(b.rows(), [[2, 0, 0, 0], [0; 4], [0; 4], [0, 0, 0, 4]]);
    let c = Board::startpos_with(6, 5, false, true);
    assert_eq!(c.rows(), [[0; 4], [0, 2, 4, 0], [0; 4], [0; 4]]);
}

#[test]
fn no_move_leaves_board() {
    let start = Board::from_rows([[2, 0, 0, 0], [4, 0, 0, 0], [0; 4], [0; 4]]);
    let mut b = start;
    assert_eq!(b.mv(Left), MoveOutcome::NoMove);
    assert_eq!(b, start);
    assert_eq!(b.mv_with(Up, 3, true), MoveOutcome::NoMove);
    assert_eq!(b, start);
}

#[test]
fn move_spawns_one_tile() {
    let start = Board::from_rows([[2, 0, 0, 0], [0, 4, 0, 0], [0; 4], [0; 4]]);
    for _ in 0..20 {
        let mut b = start;
        assert_eq!(b.mv(Right), MoveOutcome::Ongoing);
        assert_eq!(tiles(&b), 3);
        let rows = b.rows();
        assert_eq!(rows[0][3], 2);
        assert_eq!(rows[1][3], 4);
        let spawned: Vec<usize> = rows.iter().flatten().copied().filter(|v| *v != 0).collect();
        assert!(spawned.iter().filter(|v| **v == 2 || **v == 4).count() == 3);
    }
}

#[test]
fn move_with_places_pick() {
    let mut b = Board::from_rows([[2, 0, 0, 0], [0, 4, 0, 0], [0; 4], [0; 4]]);
    // after the slide the empty cells are 0, 1, 2, 4, 5, 6, 8, ...
    assert_eq!(b.mv_with(Right, 1, false), MoveOutcome::Ongoing);
    assert_eq!(b.rows(), [[0, 4, 0, 2], [0, 0, 0, 4], [0; 4], [0; 4]]);
    let mut c = Board::from_rows([[2, 0, 0, 0], [0, 4, 0, 0], [0; 4], [0; 4]]);
    assert_eq!(c.mv_with(Right, 14 + 3, true), MoveOutcome::Ongoing);
    assert_eq!(c.rows(), [[0, 0, 0, 2], [2, 0, 0, 4], [0; 4], [0; 4]]);
}

#[test]
fn move_reports_win_without_spawn() {
    let mut b = Board::from_rows([[1024, 1024, 0, 0], [0; 4], [0; 4], [0; 4]]);
    assert_eq!(b.mv(Left), MoveOutcome::Win);
    assert_eq!(b.rows(), [[2048, 0, 0, 0], [0; 4], [0; 4], [0; 4]]);
}

#[test]
fn move_reports_loss() {
    let start = Board::from_rows([[0, 2, 4, 2], [4, 2, 4, 2], [2, 4, 2, 4], [4, 2, 4, 2]]);
    let mut b = start;
    assert_eq!(b.mv_with(Left, 0, true), MoveOutcome::Ongoing);
    assert_eq!(b.rows(), [[2, 4, 2, 2], [4, 2, 4, 2], [2, 4, 2, 4], [4, 2, 4, 2]]);
    let mut c = start;
    assert_eq!(c.mv_with(Left, 0, false), MoveOutcome::Loss);
    assert_eq!(c.rows(), [[2, 4, 2, 4], [4, 2, 4, 2], [2, 4, 2, 4], [4, 2, 4, 2]]);
    assert!(c.is_loss());
}

#[test]
fn spawn_fills_chosen_empty_cell() {
    let mut b = Board::from_rows([[2, 0, 2, 0], [2, 2, 2, 2], [2, 2, 2, 2], [2, 2, 2, 0]]);
    assert_eq!(b.empty_cells(), vec![1, 3, 15]);
    b.spawn(2, false);
    assert_eq!(b.rows()[3], [2, 2, 2, 4]);
    b.spawn(0, true);
    assert_eq!(b.rows()[0], [2, 2, 2, 0]);
}

#[test]
fn render_exact_text() {
    let b = Board::from_rows([[0; 4], [0, 0, 2, 0], [0; 4], [0, 0, 16384, 2048]]);
    let sep = "+----+----+----+----+";
    let expected = format!(
        "{s}\n|    |    |    |    |\n{s}\n|    |    |   2|    |\n{s}\n|    |    |    |    |\n{s}\n|    |    |16384|2048|\n{s}\n",
        s = sep
    );
    assert_eq!(b.render(), expected);
}

#[test]
fn arrows() {
    assert_eq!(Direction::Left.arrow(), "←");
    assert_eq!(Direction::Up.arrow(), "↑");
    assert_eq!(Direction::Right.arrow(), "→");
    assert_eq!(Direction::Down.arrow(), "↓");
}

#[test]
fn overflow_check() {
    assert!(Board::from_rows([[2048; 4]; 4]).tiles_can_double());
    assert!(!Board::from_rows([[0, 0, 0, usize::MAX], [0; 4], [0; 4], [0; 4]]).tiles_can_double());
}
