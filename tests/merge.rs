use game2048::board::Direction::{Down, Left, Right, Up};
use game2048::Board;

#[test]
fn test_merge_1() {
    let board = Board::from_rows([[0; 4], [0; 4], [0, 1, 0, 0], [0; 4]]);
    assert!(board.is_mergeable(Right));
    assert!(board.is_mergeable(Left));
    assert!(board.is_mergeable(Down));
    assert!(board.is_mergeable(Up));
}

#[test]
fn test_merge_2() {
    let board = Board::from_rows([[0; 4], [0; 4], [1, 0, 0, 0], [0; 4]]);
    assert!(board.is_mergeable(Right));
    assert_eq!(board.is_mergeable(Left), false);
    assert!(board.is_mergeable(Down));
    assert!(board.is_mergeable(Up));
}

#[test]
fn test_merge_3() {
    let board = Board::from_rows([[1; 4], [1; 4], [1; 4], [1; 4]]);
    assert!(board.is_mergeable(Right));
    assert!(board.is_mergeable(Left));
    assert!(board.is_mergeable(Down));
    assert!(board.is_mergeable(Up));
}

#[test]
fn test_merge_4() {
    let board = Board::from_rows([[1; 4], [2; 4], [3; 4], [4; 4]]);
    assert!(board.is_mergeable(Right));
    assert!(board.is_mergeable(Left));
    assert_eq!(false, board.is_mergeable(Down));
    assert_eq!(false, board.is_mergeable(Up));
}

#[test]
fn test_merge_5() {
    let mut k = 1;
    let mut rows = [[0; 4]; 4];
    for i in 0..(rows.len()) {
        for j in 0..(rows[0].len()) {
            rows[i][j] = k;
            k += 1;
        }
    }
    let board = Board::from_rows(rows);
    println!("{}", board.render());
    assert_eq!(false, board.is_mergeable(Right));
    assert_eq!(false, board.is_mergeable(Left));
    assert_eq!(false, board.is_mergeable(Down));
    assert_eq!(false, board.is_mergeable(Up));
}

#[test]
fn test_merge_6() {
    let mut k = 0;
    let mut rows = [[0; 4]; 4];
    for i in 0..(rows.len()) {
        for j in 0..(rows[0].len()) {
            rows[i][j] = k;
            k += 1;
        }
    }
    let board = Board::from_rows(rows);
    println!("{}", board.render());
    assert_eq!(false, board.is_mergeable(Right));
    assert_eq!(true, board.is_mergeable(Left));
    assert_eq!(false, board.is_mergeable(Down));
    assert_eq!(true, board.is_mergeable(Up));
}

#[test]
fn test_merge_7() {
    let board = Board::from_rows([[2, 3, 4, 5], [1, 5, 6, 1], [5, 1, 1, 2], [4, 5, 6, 7]]);
    assert!(board.is_mergeable(Right));
    assert!(board.is_mergeable(Left));
    assert_eq!(false, board.is_mergeable(Down));
    assert_eq!(false, board.is_mergeable(Up));
}

#[test]
fn test_merge_8() {
    let mut board = Board::from_rows([[2, 3, 4, 5], [1, 5, 6, 1], [5, 7, 1, 2], [4, 5, 6, 2]]);
    let merge_u = Board::from_rows([[2, 3, 4, 5], [1, 5, 6, 1], [5, 7, 1, 4], [4, 5, 6, 0]]);
    assert!(board.is_mergeable(Up));
    assert!(board.is_mergeable(Down));
    assert_eq!(false, board.is_mergeable(Left));
    assert_eq!(false, board.is_mergeable(Right));
    println!("{}", board.render());
    board.merge(Up);
    println!("{}", board.render());
    assert_eq!(board, merge_u)
}

#[test]
fn test_merge_9() {
    let mut board = Board::from_rows([[2, 4, 4, 5], [1, 5, 6, 1], [5, 7, 1, 2], [4, 5, 6, 1]]);
    let mut board2 = Board::from_rows([[2, 4, 4, 5], [1, 5, 6, 1], [5, 7, 1, 2], [4, 5, 6, 1]]);
    let merge_r = Board::from_rows([[0, 2, 8, 5], [1, 5, 6, 1], [5, 7, 1, 2], [4, 5, 6, 1]]);
    let merge_l = Board::from_rows([[2, 8, 5, 0], [1, 5, 6, 1], [5, 7, 1, 2], [4, 5, 6, 1]]);
    assert!(board.is_mergeable(Right));
    assert!(board.is_mergeable(Left));
    assert_eq!(false, board.is_mergeable(Down));
    assert_eq!(false, board.is_mergeable(Up));
    board.merge(Right);
    assert_eq!(board, merge_r);
    board2.merge(Left);
    assert_eq!(board2, merge_l);
}

#[test]
fn test_merge_10() {
    let mut board = Board::from_rows([[1, 2, 3, 4], [1, 2, 3, 4], [1, 2, 3, 4], [1, 2, 3, 4]]);
    let mut board2 = Board::from_rows([[1, 2, 3, 4], [1, 2, 3, 4], [1, 2, 3, 4], [1, 2, 3, 4]]);
    let merge_d = Board::from_rows([[0; 4], [0; 4], [2, 4, 6, 8], [2, 4, 6, 8]]);
    let merge_u = Board::from_rows([[2, 4, 6, 8], [2, 4, 6, 8], [0; 4], [0; 4]]);
    assert!(board.is_mergeable(Up));
    assert!(board.is_mergeable(Down));
    assert_eq!(false, board.is_mergeable(Left));
    assert_eq!(false, board.is_mergeable(Right));
    board.merge(Up);
    assert_eq!(board, merge_u);
    board2.merge(Down);
    assert_eq!(board2, merge_d);
}
