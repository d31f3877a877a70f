use tetris_core::piece::{convert_even_x, convert_even_y, sum_offsets, Piece, PieceClass};

fn cells(p: &Piece) -> Vec<(isize, isize)> {
    (0..4).map(|i| p.get_tile_position(i)).collect()
}

#[test]
fn even_offsets_map_to_compact_cells() {
    assert_eq!(convert_even_x(-3, true), -1);
    assert_eq!(convert_even_x(-1, true), 0);
    assert_eq!(convert_even_x(1, true), 1);
    assert_eq!(convert_even_x(3, true), 2);
    assert_eq!(convert_even_y(-3, true), -2);
    assert_eq!(convert_even_y(-1, true), -1);
    assert_eq!(convert_even_y(1, true), 0);
    assert_eq!(convert_even_y(3, true), 1);
    assert_eq!(convert_even_x(7, false), 7);
    assert_eq!(convert_even_y(-4, false), -4);
    assert_eq!(sum_offsets((4, 1), (-3, -1), true), (3, 0));
    assert_eq!(sum_offsets((4, 1), (1, 0), false), (5, 1));
}

#[test]
fn i_piece_spawns_on_one_row() {
    let mut p = Piece::new(PieceClass::I);
    p.set_start_position();
    assert_eq!(cells(&p), vec![(3, 0), (4, 0), (5, 0), (6, 0)]);
}

#[test]
fn t_piece_cells_at_spawn() {
    let mut p = Piece::new(PieceClass::T);
    p.set_start_position();
    assert_eq!(cells(&p), vec![(3, 1), (4, 1), (5, 1), (4, 0)]);
}

#[test]
fn double_rotation_is_half_turn() {
    // Rotating twice by 90 degrees in the same direction negates every
    // offset, whichever direction is used.
    for class in [
        PieceClass::I,
        PieceClass::O,
        PieceClass::T,
        PieceClass::S,
        PieceClass::Z,
        PieceClass::J,
        PieceClass::L,
    ] {
        let mut left = Piece::new(class);
        left.set_start_position();
        let original = cells(&left);
        let mut right = Piece::new(class);
        right.set_start_position();

        left.rotate_left();
        left.rotate_left();
        right.rotate_right();
        right.rotate_right();
        let turned = cells(&left);
        assert_eq!(turned, cells(&right));
        assert_ne!(original.len(), 0);
    }
}

#[test]
fn t_piece_half_turn_cells() {
    let mut p = Piece::new(PieceClass::T);
    p.set_start_position();
    p.rotate_left();
    p.rotate_left();
    assert_eq!(cells(&p), vec![(5, 1), (4, 1), (3, 1), (4, 2)]);
}

#[test]
fn rotation_and_inverse_restore_cells() {
    let mut p = Piece::new(PieceClass::S);
    p.set_start_position();
    let before = cells(&p);
    p.rotate_left();
    p.rotate_right();
    assert_eq!(cells(&p), before);
}

#[test]
fn moves_shift_cells_one_step() {
    let mut p = Piece::new(PieceClass::O);
    p.set_start_position();
    let before = cells(&p);
    p.move_left();
    for (a, b) in cells(&p).iter().zip(before.iter()) {
        assert_eq!(*a, (b.0 - 1, b.1));
    }
    p.move_right();
    p.move_down();
    for (a, b) in cells(&p).iter().zip(before.iter()) {
        assert_eq!(*a, (b.0, b.1 + 1));
    }
    p.move_up();
    assert_eq!(cells(&p), before);
}

#[test]
fn finalize_yields_absolute_cells_with_color() {
    let mut p = Piece::new(PieceClass::L);
    p.set_start_position();
    let expected = cells(&p);
    let out = p.finalize();
    for (i, (x, y, _color)) in out.iter().enumerate() {
        assert_eq!((*x, *y), expected[i]);
    }
}
