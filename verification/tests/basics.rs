use stratego::commands::PosDto;
use stratego::cursor::cursor_target;
use stratego::game::board::{Board, Square, SIZE};
use stratego::game::piece::{Piece, Rank, Side};

#[test]
fn fresh_board_has_eight_lakes() {
    let b = Board::new();
    let mut lakes = 0;
    for row in 0..SIZE {
        for col in 0..SIZE {
            match b.get((row, col)) {
                Square::Lake => lakes += 1,
                Square::Empty => {}
                Square::Occupied(_) => panic!("fresh board holds a piece"),
            }
        }
    }
    assert_eq!(lakes, 8);
    assert_eq!(b.get((4, 2)), Square::Lake);
    assert_eq!(b.get((5, 7)), Square::Lake);
    assert_eq!(b.get((4, 4)), Square::Empty);
}

#[test]
fn set_then_get() {
    let mut b = Board::new();
    let p = Piece::new(Side::Red, Rank::Major);
    assert!(!p.revealed);
    b.set((2, 3), Square::Occupied(p));
    assert_eq!(b.get((2, 3)), Square::Occupied(p));
    assert_eq!(b.get((3, 2)), Square::Empty);
}

#[test]
fn bounds_and_home_rows() {
    assert!(Board::in_bounds(0, 0));
    assert!(Board::in_bounds(9, 9));
    assert!(!Board::in_bounds(-1, 0));
    assert!(!Board::in_bounds(0, 10));
    assert_eq!(Board::home_rows(Side::Red), 0..=3);
    assert_eq!(Board::home_rows(Side::Blue), 6..=9);
    assert!(Board::is_home_row(Side::Red, (3, 0)));
    assert!(!Board::is_home_row(Side::Red, (4, 0)));
    assert!(Board::is_home_row(Side::Blue, (6, 9)));
    assert!(!Board::is_home_row(Side::Blue, (5, 9)));
}

#[test]
fn neighbors_in_order_and_on_board() {
    assert_eq!(Board::orthogonal_neighbors((5, 5)), vec![(4, 5), (6, 5), (5, 4), (5, 6)]);
    assert_eq!(Board::orthogonal_neighbors((0, 0)), vec![(1, 0), (0, 1)]);
    assert_eq!(Board::orthogonal_neighbors((9, 9)), vec![(8, 9), (9, 8)]);
    assert_eq!(Board::orthogonal_neighbors((0, 5)), vec![(1, 5), (0, 4), (0, 6)]);
}

#[test]
fn piece_tables() {
    assert_eq!(Side::Blue.other(), Side::Red);
    assert_eq!(Side::Red.other(), Side::Blue);
    assert_eq!(Rank::Marshal.strength(), 10);
    assert_eq!(Rank::Spy.strength(), 1);
    assert_eq!(Rank::Bomb.strength(), 255);
    assert_eq!(Rank::Flag.strength(), 0);
    assert!(Rank::Bomb.is_static());
    assert!(Rank::Flag.is_static());
    assert!(!Rank::Scout.is_static());
    let total: u32 = Rank::all().iter().map(|r| r.count() as u32).sum();
    assert_eq!(total, 40);
    assert_eq!(Rank::Scout.count(), 8);
    assert_eq!(Rank::all()[0], Rank::Marshal);
    assert_eq!(Rank::all()[11], Rank::Flag);
}

#[test]
fn cursor_lands_on_the_controlling_half() {
    assert_eq!(cursor_target(100, 50, 800, 600, Side::Blue), (300, 350));
    assert_eq!(cursor_target(100, 50, 800, 600, Side::Red), (700, 350));
    assert_eq!(cursor_target(-10, -20, 1001, 7, Side::Red), (740, -17));
    assert_eq!(cursor_target(0, 0, 1001, 7, Side::Blue), (250, 3));
    // Three quarters of a huge width is capped at the largest i32.
    assert_eq!(cursor_target(0, 0, u32::MAX, 0, Side::Red), (i32::MAX, 0));
    assert_eq!(cursor_target(-5, 0, u32::MAX, 0, Side::Red), (i32::MAX - 5, 0));
}

#[test]
fn pos_dto_converts_to_row_and_column() {
    let p: (usize, usize) = PosDto { row: 7, col: 2 }.into();
    assert_eq!(p, (7, 2));
}
