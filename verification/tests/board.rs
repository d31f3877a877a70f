use tetris_core::board::{Board, BOARD_HEIGHT, BOARD_WIDTH};
use tetris_core::piece::{Piece, PieceClass};
use tetris_core::tile::TileColor;

#[test]
fn new_board_is_empty() {
    let b = Board::new();
    for y in 0..BOARD_HEIGHT as isize {
        for x in 0..BOARD_WIDTH as isize {
            assert_eq!(b.get(x, y), Ok(None));
        }
    }
}

#[test]
fn get_signals_out_of_bounds() {
    let b = Board::new();
    assert_eq!(b.get(-1, 0), Err(()));
    assert_eq!(b.get(0, -1), Err(()));
    assert_eq!(b.get(10, 0), Err(()));
    assert_eq!(b.get(0, 20), Err(()));
}

#[test]
fn set_take_round_trip() {
    let mut b = Board::new();
    b.set(3, 4, Some(TileColor::Red));
    assert_eq!(b.get(3, 4), Ok(Some(TileColor::Red)));
    assert_eq!(b.take(3, 4), Ok(Some(TileColor::Red)));
    assert_eq!(b.get(3, 4), Ok(None));
    assert_eq!(b.take(-1, 4), Err(()));
}

#[test]
fn verify_accepts_valid_placement() {
    let b = Board::new();
    let mut p = Piece::new(PieceClass::T);
    p.set_start_position();
    assert!(b.verify(&p));
}

#[test]
fn verify_rejects_out_of_bounds() {
    let b = Board::new();
    let mut p = Piece::new(PieceClass::T);
    p.set_start_position();
    p.move_left();
    p.move_left();
    p.move_left();
    assert!(b.verify(&p));
    p.move_left();
    assert!(!b.verify(&p));

    let mut q = Piece::new(PieceClass::I);
    q.set_start_position();
    for _ in 0..19 {
        q.move_down();
    }
    assert!(b.verify(&q));
    q.move_down();
    assert!(!b.verify(&q));
}

#[test]
fn verify_rejects_overlap() {
    let mut b = Board::new();
    b.set(4, 1, Some(TileColor::Green));
    let mut p = Piece::new(PieceClass::T);
    p.set_start_position();
    assert!(!b.verify(&p));
}

#[test]
fn finalize_fills_piece_cells() {
    let mut b = Board::new();
    let mut p = Piece::new(PieceClass::O);
    p.set_start_position();
    b.finalize(p);
    assert_eq!(b.get(4, 0), Ok(Some(TileColor::Blue)));
    assert_eq!(b.get(5, 0), Ok(Some(TileColor::Blue)));
    assert_eq!(b.get(4, 1), Ok(Some(TileColor::Blue)));
    assert_eq!(b.get(5, 1), Ok(Some(TileColor::Blue)));
    assert_eq!(b.get(3, 0), Ok(None));
}

#[test]
fn check_finds_no_rows_on_empty_board() {
    let b = Board::new();
    assert_eq!(b.check(), Vec::<isize>::new());
}

#[test]
fn single_row_clear_shifts_content_down() {
    // Row 5 is one cell short of full; scattered content sits above and
    // below it.  Filling the last cell yields exactly one cleared row, and
    // the collapse moves everything above down one row, emptying row 0.
    let mut b = Board::new();
    for x in 0..9 {
        b.set(x, 5, Some(TileColor::Red));
    }
    b.set(3, 2, Some(TileColor::Blue));
    b.set(6, 4, Some(TileColor::Green));
    b.set(2, 10, Some(TileColor::Yellow));
    assert_eq!(b.check(), Vec::<isize>::new());

    b.set(9, 5, Some(TileColor::Red));
    let cleared = b.check();
    assert_eq!(cleared, vec![5]);

    b.collapse(&cleared);
    assert_eq!(b.get(3, 3), Ok(Some(TileColor::Blue)));
    assert_eq!(b.get(3, 2), Ok(None));
    assert_eq!(b.get(6, 5), Ok(Some(TileColor::Green)));
    assert_eq!(b.get(6, 4), Ok(None));
    assert_eq!(b.get(2, 10), Ok(Some(TileColor::Yellow)));
    for x in 0..10 {
        assert_eq!(b.get(x, 0), Ok(None));
    }
    assert_eq!(b.check(), Vec::<isize>::new());
}

#[test]
fn clearing_top_row_empties_it() {
    let mut b = Board::new();
    for x in 0..10 {
        b.set(x, 0, Some(TileColor::Cyan));
    }
    let cleared = b.check();
    assert_eq!(cleared, vec![0]);
    b.collapse(&cleared);
    for x in 0..10 {
        assert_eq!(b.get(x, 0), Ok(None));
    }
}

#[test]
fn double_row_clear() {
    let mut b = Board::new();
    for x in 0..10 {
        b.set(x, 18, Some(TileColor::Purple));
        b.set(x, 19, Some(TileColor::Purple));
    }
    b.set(0, 17, Some(TileColor::Orange));
    let cleared = b.check();
    assert_eq!(cleared, vec![18, 19]);
    b.collapse(&cleared);
    assert_eq!(b.get(0, 19), Ok(Some(TileColor::Orange)));
    assert_eq!(b.get(0, 17), Ok(None));
    assert_eq!(b.get(1, 19), Ok(None));
    assert_eq!(b.check(), Vec::<isize>::new());
}

#[test]
fn clear_animation_wipes_symmetric_columns() {
    let mut b = Board::new();
    for x in 0..10 {
        b.set(x, 12, Some(TileColor::Red));
    }
    b.clear_animation(0, &[12]);
    assert_eq!(b.get(4, 12), Ok(None));
    assert_eq!(b.get(5, 12), Ok(None));
    assert_eq!(b.get(3, 12), Ok(Some(TileColor::Red)));
    b.clear_animation(4, &[12]);
    assert_eq!(b.get(0, 12), Ok(None));
    assert_eq!(b.get(9, 12), Ok(None));
    assert_eq!(b.get(1, 12), Ok(Some(TileColor::Red)));
}
