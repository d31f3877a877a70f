use tetris_core::controller::{DASKey, InputState, NextState, Playing, DAS};
use tetris_core::generator::PieceGenerator;
use tetris_core::tile::TileColor;

fn no_keys() -> InputState {
    InputState::default()
}

fn down_held() -> InputState {
    InputState { down: true, ..InputState::default() }
}

#[test]
fn das_fires_on_press_after_initial_delay_then_repeats() {
    let mut das = DAS::Idle;
    let mut fired = Vec::new();
    for frame in 1..=35 {
        if das.add_key_frame(DASKey::Left) {
            fired.push(frame);
        }
    }
    // Fresh press, then after the 16-frame initial delay, then every 6.
    assert_eq!(fired, vec![1, 17, 23, 29, 35]);
}

#[test]
fn das_resets_on_key_change() {
    let mut das = DAS::Idle;
    assert!(das.add_key_frame(DASKey::Left));
    assert!(!das.add_key_frame(DASKey::Left));
    // A different key fires immediately and restarts the long delay.
    assert!(das.add_key_frame(DASKey::Right));
    for _ in 0..15 {
        assert!(!das.add_key_frame(DASKey::Right));
    }
    assert!(das.add_key_frame(DASKey::Right));
}

#[test]
fn pause_is_reported_immediately() {
    let mut p = Playing::new(0, PieceGenerator::new(1));
    let input = InputState { escape: true, ..InputState::default() };
    assert_eq!(p.update(&input), Some(NextState::Pause));
}

#[test]
fn gravity_moves_the_piece_after_the_drop_interval() {
    let mut p = Playing::new(0, PieceGenerator::new(1));
    assert_eq!(p.game.current_piece.as_ref().unwrap().position, (4, 1));
    // Level 0 gravity: 48 countdown ticks, then the piece steps down.
    for _ in 0..48 {
        assert_eq!(p.update(&no_keys()), None);
    }
    assert_eq!(p.game.current_piece.as_ref().unwrap().position, (4, 1));
    assert_eq!(p.update(&no_keys()), None);
    assert_eq!(p.game.current_piece.as_ref().unwrap().position, (4, 2));
}

#[test]
fn held_soft_drop_accelerates_and_scores() {
    let mut p = Playing::new(0, PieceGenerator::new(1));
    // The first frame of held soft drop fires immediately.
    assert_eq!(p.update(&down_held()), None);
    assert_eq!(p.game.current_piece.as_ref().unwrap().position, (4, 2));
    assert_eq!(p.game.score(), 1);
    // The next frames are debounced.
    for _ in 0..15 {
        assert_eq!(p.update(&down_held()), None);
    }
    assert_eq!(p.game.score(), 1);
    assert_eq!(p.update(&down_held()), None);
    assert_eq!(p.game.score(), 2);
    assert_eq!(p.game.current_piece.as_ref().unwrap().position, (4, 3));
}

#[test]
fn left_and_right_inputs_move_the_piece() {
    let mut p = Playing::new(0, PieceGenerator::new(1));
    let left = InputState { left: true, ..InputState::default() };
    assert_eq!(p.update(&left), None);
    assert_eq!(p.game.current_piece.as_ref().unwrap().position, (3, 1));
    let right = InputState { right: true, ..InputState::default() };
    assert_eq!(p.update(&right), None);
    assert_eq!(p.game.current_piece.as_ref().unwrap().position, (4, 1));
}

#[test]
fn full_session_runs_until_game_over() {
    // With no input, pieces stack up the middle until a spawn is blocked;
    // the session ends with an explicit game-over outcome, and no row is
    // ever completed on the way.
    let mut p = Playing::new(0, PieceGenerator::new(1));
    let mut ticks = 0usize;
    loop {
        match p.update(&no_keys()) {
            None => {
                ticks += 1;
                assert!(ticks < 200000, "session did not end");
            },
            Some(NextState::GameOver) => break,
            Some(NextState::Pause) => unreachable!(),
        }
    }
    assert_eq!(p.game.total_lines(), 0);
    assert_eq!(p.game.score(), 0);
}

#[test]
fn line_clear_flows_through_wipe_and_collapse() {
    // Row 19 lacks exactly the four middle columns; the first piece of seed
    // 1 is an I that falls into the gap, completing the row.  The tick
    // machine then plays the wipe stages, collapses, scores, and spawns.
    let mut p = Playing::new(0, PieceGenerator::new(1));
    for x in [0, 1, 2, 7, 8, 9] {
        p.game.board.set(x, 19, Some(TileColor::Purple));
    }
    for _ in 0..3000 {
        assert_eq!(p.update(&no_keys()), None);
    }
    assert_eq!(p.game.total_lines(), 1);
    assert_eq!(p.game.level_lines(), 1);
    assert_eq!(p.game.score(), 40);
    // The cleared row collapsed away completely.
    for x in 0..10 {
        if !(3..=6).contains(&x) {
            assert_eq!(p.game.board.get(x, 19), Ok(None));
        }
    }
}

#[test]
fn soft_drop_fires_alongside_a_held_direction() {
    // Soft drop is polled independently of the exclusive direction-key
    // priority chain: holding left and down together moves the piece left
    // and soft-drops it on the same tick.
    let mut p = Playing::new(0, PieceGenerator::new(1));
    let both = InputState { left: true, down: true, ..InputState::default() };
    assert_eq!(p.update(&both), None);
    assert_eq!(p.game.current_piece.as_ref().unwrap().position, (3, 2));
    assert_eq!(p.game.score(), 1);
}
