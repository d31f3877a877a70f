use crate::board::{lemma_collapse_no_full, lemma_full_rows_props, lemma_place_full_rows,
    no_full_rows, row_full};
use crate::game::{
    game_collapse, game_finish_are, game_move_down, game_move_left, game_move_right, game_new,
    game_rotate_left, game_rotate_right, game_wf, game_wipe, drop_time_spec, lemma_same_cells,
    lock_delay, AreView, Game, GameView, ARE,
};
use crate::generator::{gen_wf, GenState, PieceGenerator};
use crate::piece::PieceView;
use vstd::prelude::*;

verus! {

/// Frames a freshly pressed direction waits before auto-repeat begins.
pub const DAS_INITIAL_DELAY: u8 = 16;

/// Frames between auto-repeated inputs once repeat has begun.
pub const DAS_REPEAT_DELAY: u8 = 6;

/// The keys the auto-repeat debouncer tracks, one at a time.
#[derive(Clone, Copy, Debug, PartialEq, Eq, Structural)]
pub enum DASKey {
    Left,
    Right,
    Down,
    RotateLeft,
    RotateRight,
}

/// The delayed-auto-shift debouncer: idle, or tracking the held key with a
/// countdown to the next repeat.
#[derive(Clone, Copy, Debug, PartialEq, Eq, Structural)]
pub enum DAS {
    Idle,
    Active(DASKey, u8),
}

/// What a finished tick asks the embedding program to do.
#[derive(Clone, Copy, Debug, PartialEq, Eq, Structural)]
pub enum NextState {
    GameOver,
    Pause,
}

/// One tick's snapshot of the held keys, polled by the embedding program.
#[derive(Clone, Copy, Debug, PartialEq, Eq, Structural, Default)]
pub struct InputState {
    pub escape: bool,
    pub left: bool,
    pub right: bool,
    pub rotate_left: bool,
    pub rotate_right: bool,
    pub down: bool,
}

/// An active countdown always has at least one frame left.
pub open spec fn das_wf(d: DAS) -> bool {
    d matches DAS::Active(_, c) ==> c >= 1
}

/// Whether feeding the held key fires an input this frame: on a fresh press,
/// on a change of key, and whenever the countdown runs out.
pub open spec fn das_fires(d: DAS, key: DASKey) -> bool {
    match d {
        DAS::Idle => true,
        DAS::Active(k, c) => k != key || c == 1,
    }
}

/// The debouncer state after one frame of the held key.
pub open spec fn das_next(d: DAS, key: DASKey) -> DAS {
    match d {
        DAS::Idle => DAS::Active(key, DAS_INITIAL_DELAY),
        DAS::Active(k, c) => if k != key {
            DAS::Active(key, DAS_INITIAL_DELAY)
        } else if c == 1 {
            DAS::Active(key, DAS_REPEAT_DELAY)
        } else {
            DAS::Active(key, (c - 1) as u8)
        },
    }
}

impl DAS {
    /// Debounces one frame of the held key: fires on a fresh press or a
    /// change of key, then again each time the countdown runs out.
    pub fn add_key_frame(&mut self, key: DASKey) -> (fire: bool)
        requires
            das_wf(*old(self)),
        ensures
            *final(self) == das_next(*old(self), key),
            fire == das_fires(*old(self), key),
            das_wf(*final(self)),
    {
        match self {
            DAS::Idle => {
                *self = DAS::Active(key, DAS_INITIAL_DELAY);
                true
            },
            DAS::Active(das_key, count) => {
                if *das_key != key {
                    *self = DAS::Active(key, DAS_INITIAL_DELAY);
                    true
                } else {
                    *count = *count - 1;
                    if *count == 0 {
                        *self = DAS::Active(key, DAS_REPEAT_DELAY);
                        true
                    } else {
                        false
                    }
                }
            },
        }
    }
}

/// The direction or rotation key the fixed priority order selects from this
/// tick's input; only one of the four is honored at a time.  The soft-drop
/// key is not among them: it is polled independently, alongside.
pub open spec fn held_key(input: InputState) -> Option<DASKey> {
    if input.left {
        Some(DASKey::Left)
    } else if input.right {
        Some(DASKey::Right)
    } else if input.rotate_left {
        Some(DASKey::RotateLeft)
    } else if input.rotate_right {
        Some(DASKey::RotateRight)
    } else {
        None
    }
}

/// The mathematical model of the playing controller's state.
#[verifier::ext_equal]
pub struct PlayView {
    pub game: GameView,
    pub drop_counter: u8,
    pub das: DAS,
    pub soft_drop_das: DAS,
    pub are: AreView,
    pub frame_counter: usize,
}

/// Well-formed controller state.  During the line-clear delay the stored
/// rows are the board's full rows: at most four, on the board, in ascending
/// order, covering every full row, with no piece active; a plain entry delay
/// always has frames left and runs over a board without full rows.
pub open spec fn play_wf(p: PlayView) -> bool {
    &&& game_wf(p.game)
    &&& das_wf(p.das)
    &&& das_wf(p.soft_drop_das)
    &&& (p.are matches AreView::Are(v) ==> v >= 1 && no_full_rows(p.game.board)
        && p.game.current_piece is None)
    &&& (p.are matches AreView::LineDelay(step, lines) ==> {
        &&& step <= 5
        &&& lines.len() <= 4
        &&& forall|i: int| 0 <= i < lines.len() ==> 0 <= #[trigger] lines[i] < 20
        &&& forall|k1: int, k2: int| 0 <= k1 < k2 < lines.len() ==> lines[k1] < lines[k2]
        &&& forall|y: int|
            0 <= y < 20 && #[trigger] row_full(p.game.board, y) ==> lines.contains(y as isize)
        &&& p.game.current_piece is None
    })
}

/// The model of the direction phase: the selected direction or rotation key,
/// if any, runs through its debouncer and a fired input reaches the game;
/// releasing all four keys resets the debouncer.
pub open spec fn apply_direction(p: PlayView, input: InputState) -> PlayView {
    match held_key(input) {
        None => PlayView { das: DAS::Idle, ..p },
        Some(key) => {
            let fires = das_fires(p.das, key);
            let p2 = PlayView { das: das_next(p.das, key), ..p };
            if !fires {
                p2
            } else {
                match key {
                    DASKey::Left => PlayView { game: game_move_left(p2.game), ..p2 },
                    DASKey::Right => PlayView { game: game_move_right(p2.game), ..p2 },
                    DASKey::RotateLeft => PlayView { game: game_rotate_left(p2.game), ..p2 },
                    DASKey::RotateRight => PlayView { game: game_rotate_right(p2.game), ..p2 },
                    // held_key never selects Down: soft drop is polled apart.
                    DASKey::Down => p2,
                }
            }
        },
    }
}

/// The model of the independent soft-drop poll: the held key runs through
/// its own debouncer, so it fires regardless of which direction key is also
/// held; a fired drop that locks the piece installs the lock outcome when no
/// delay is active.
pub open spec fn apply_soft_drop(p: PlayView, input: InputState) -> PlayView {
    if input.down {
        let fires = das_fires(p.soft_drop_das, DASKey::Down);
        let p2 = PlayView { soft_drop_das: das_next(p.soft_drop_das, DASKey::Down), ..p };
        if !fires {
            p2
        } else {
            let r = game_move_down(p2.game, true);
            PlayView {
                game: r.0,
                are: (match r.1 {
                    Some(a) => if p2.are is Idle {
                        a
                    } else {
                        p2.are
                    },
                    None => p2.are,
                }),
                ..p2
            }
        }
    } else {
        PlayView { soft_drop_das: DAS::Idle, ..p }
    }
}

/// The model of the whole input phase: the direction keys in their exclusive
/// priority order, with the soft drop checked independently alongside.
pub open spec fn apply_input(p: PlayView, input: InputState) -> PlayView {
    apply_soft_drop(apply_direction(p, input), input)
}

/// The model of the delay phase: a plain entry delay that runs out spawns
/// the next piece; the line-clear delay steps its wipe every fourth frame
/// and finally collapses and spawns; otherwise gravity counts down and at
/// zero advances the piece, installing the lock outcome if it locked.
pub open spec fn tick_are(p: PlayView) -> (PlayView, Option<NextState>) {
    match p.are {
        AreView::Are(step) => {
            if step == 0 {
                let r = game_finish_are(p.game);
                if r.1 {
                    (PlayView { game: r.0, ..p }, Some(NextState::GameOver))
                } else {
                    (PlayView { game: r.0, are: AreView::Idle, ..p }, None)
                }
            } else {
                (p, None)
            }
        },
        AreView::LineDelay(step, lines) => {
            if p.frame_counter % 4 == 0 {
                if step < 5 {
                    (
                        PlayView {
                            game: game_wipe(p.game, step, lines),
                            are: AreView::LineDelay((step + 1) as u8, lines),
                            ..p
                        },
                        None,
                    )
                } else {
                    let g2 = game_collapse(p.game, lines);
                    let r = game_finish_are(g2);
                    if r.1 {
                        (PlayView { game: r.0, ..p }, Some(NextState::GameOver))
                    } else {
                        (PlayView { game: r.0, are: AreView::Idle, ..p }, None)
                    }
                }
            } else {
                (p, None)
            }
        },
        AreView::Idle => {
            if p.drop_counter == 0 {
                let dc = drop_time_spec(p.game.level);
                let r = game_move_down(p.game, false);
                (
                    PlayView {
                        drop_counter: dc,
                        game: r.0,
                        are: (match r.1 {
                            Some(a) => a,
                            None => AreView::Idle,
                        }),
                        ..p
                    },
                    None,
                )
            } else {
                (PlayView { drop_counter: (p.drop_counter - 1) as u8, ..p }, None)
            }
        },
    }
}

/// The model of one whole simulation tick: a pause request passes through
/// untouched; otherwise the frame counter advances, a running entry delay
/// counts down, the input phase runs, then the delay phase.
pub open spec fn tick_spec(p: PlayView, input: InputState) -> (PlayView, Option<NextState>) {
    if input.escape {
        (p, Some(NextState::Pause))
    } else {
        let p1 = PlayView {
            frame_counter: p.frame_counter.wrapping_add(1),
            are: (match p.are {
                AreView::Are(v) => AreView::Are((v - 1) as u8),
                _ => p.are,
            }),
            ..p
        };
        tick_are(apply_input(p1, input))
    }
}

/// The model of a freshly started session.
pub open spec fn play_new(starting_level: usize, gen: GenState) -> PlayView {
    PlayView {
        game: game_new(starting_level, gen),
        drop_counter: drop_time_spec(starting_level),
        das: DAS::Idle,
        soft_drop_das: DAS::Idle,
        are: AreView::Idle,
        frame_counter: 0,
    }
}

/// The playing-session controller: the game plus the gravity countdown, the
/// auto-repeat debouncer, the post-lock delay state and the frame counter.
pub struct Playing {
    pub game: Game,
    pub drop_counter: u8,
    pub das: DAS,
    pub soft_drop_das: DAS,
    pub are: ARE,
    pub frame_counter: usize,
}

impl View for Playing {
    type V = PlayView;

    open spec fn view(&self) -> PlayView {
        PlayView {
            game: self.game@,
            drop_counter: self.drop_counter,
            das: self.das,
            soft_drop_das: self.soft_drop_das,
            are: self.are@,
            frame_counter: self.frame_counter,
        }
    }
}

impl Playing {
    /// A fresh session at the given starting level, drawing pieces from the
    /// given sequencer.
    pub fn new(starting_level: usize, piece_generator: PieceGenerator) -> (p: Playing)
        requires
            starting_level * 10 + 50 <= isize::MAX,
            gen_wf(piece_generator@),
        ensures
            p@ == play_new(starting_level, piece_generator@),
            play_wf(p@),
    {
        let game = Game::new(starting_level, piece_generator);
        let drop_counter = game.drop_time();
        Playing {
            game,
            drop_counter,
            das: DAS::Idle,
            soft_drop_das: DAS::Idle,
            are: ARE::Idle,
            frame_counter: 0,
        }
    }

    /// One fixed simulation tick, fed with this tick's input snapshot: the
    /// direction keys in priority order and the soft drop independently
    /// alongside, then the delay machine.  The session ends when it reports
    /// game over; no further ticks follow.
    #[verifier::rlimit(100)]
    #[verifier::spinoff_prover]
    pub fn update(&mut self, input: &InputState) -> (r: Option<NextState>)
        requires
            play_wf(old(self)@),
        ensures
            final(self)@ == tick_spec(old(self)@, *input).0,
            r == tick_spec(old(self)@, *input).1,
            r != Some(NextState::GameOver) ==> play_wf(final(self)@),
    {
        if input.escape {
            return Some(NextState::Pause);
        }

        self.frame_counter = self.frame_counter.wrapping_add(1);
        match &mut self.are {
            ARE::ARE(value) => {
                *value = *value - 1;
            },
            _ => {},
        }

        if input.left {
            if self.das.add_key_frame(DASKey::Left) {
                self.game.move_left();
            }
        } else if input.right {
            if self.das.add_key_frame(DASKey::Right) {
                self.game.move_right();
            }
        } else if input.rotate_left {
            if self.das.add_key_frame(DASKey::RotateLeft) {
                self.game.rotate_left();
            }
        } else if input.rotate_right {
            if self.das.add_key_frame(DASKey::RotateRight) {
                self.game.rotate_right();
            }
        } else {
            self.das = DAS::Idle;
        }

        if input.down {
            if self.soft_drop_das.add_key_frame(DASKey::Down) {
                let ghost gpre = self.game@;
                match self.game.move_down(true) {
                    Some(are) => {
                        proof {
                            lemma_lock_outcome(gpre, true);
                        }
                        match &self.are {
                            ARE::Idle => {
                                self.are = are;
                            },
                            _ => {},
                        }
                    },
                    None => {},
                }
            }
        } else {
            self.soft_drop_das = DAS::Idle;
        }

        let reset = match &mut self.are {
            ARE::ARE(step) => {
                if *step == 0 {
                    if self.game.finish_are() {
                        return Some(NextState::GameOver);
                    }
                    true
                } else {
                    false
                }
            },
            ARE::LineDelay(step, lines_cleared) => {
                if self.frame_counter % 4 == 0 {
                    if *step < 5 {
                        let ghost gpre = self.game@;
                        self.game.clear_animation(*step, lines_cleared.as_slice());
                        proof {
                            assert forall|y: int|
                                0 <= y < 20 && #[trigger] row_full(self.game@.board, y) implies row_full(
                                gpre.board,
                                y,
                            ) by {
                                assert forall|x: int| 0 <= x < 10 implies (#[trigger] gpre.board[crate::board::cell_index(
                                    x,
                                    y,
                                )]) is Some by {
                                    crate::board::lemma_cell_index(x, y);
                                    assert(self.game@.board[crate::board::cell_index(x, y)]
                                        is Some);
                                }
                            }
                        }
                        *step = *step + 1;
                        false
                    } else {
                        let ghost gpre = self.game@;
                        let ghost ls = lines_cleared@;
                        self.game.collapse(lines_cleared.as_slice());
                        proof {
                            lemma_collapse_no_full(gpre.board, ls);
                        }
                        if self.game.finish_are() {
                            return Some(NextState::GameOver);
                        }
                        true
                    }
                } else {
                    false
                }
            },
            ARE::Idle => {
                if self.drop_counter == 0 {
                    self.drop_counter = self.game.drop_time();
                    let ghost gpre = self.game@;
                    match self.game.move_down(false) {
                        Some(are) => {
                            proof {
                                lemma_lock_outcome(gpre, false);
                            }
                            self.are = are;
                        },
                        None => {},
                    }
                } else {
                    self.drop_counter = self.drop_counter - 1;
                }
                false
            },
        };
        if reset {
            self.are = ARE::Idle;
        }
        None
    }
}

/// When a downward step locks the piece, the outcome keeps the controller
/// well formed: a plain delay has frames left over a board without full
/// rows, and a line-clear delay lists the board's full rows, at most four,
/// ascending and complete.
pub proof fn lemma_lock_outcome(g: GameView, soft_drop: bool)
    requires
        game_wf(g),
        game_move_down(g, soft_drop).1 is Some,
    ensures
        ({
            let g2 = game_move_down(g, soft_drop).0;
            match game_move_down(g, soft_drop).1->Some_0 {
                AreView::Are(v) => v >= 1 && no_full_rows(g2.board),
                AreView::LineDelay(step, lines) => {
                    &&& step == 0
                    &&& lines.len() <= 4
                    &&& (forall|i: int| 0 <= i < lines.len() ==> 0 <= #[trigger] lines[i] < 20)
                    &&& (forall|k1: int, k2: int|
                        0 <= k1 < k2 < lines.len() ==> lines[k1] < lines[k2])
                    &&& (forall|y: int|
                        0 <= y < 20 && #[trigger] row_full(g2.board, y) ==> lines.contains(
                            y as isize,
                        ))
                    &&& g2.current_piece is None
                },
                AreView::Idle => false,
            }
        }),
{
    assert(g.current_piece is Some);
    let p = g.current_piece->Some_0;
    let pl = PieceView { modified: true, ..p };
    let b2 = crate::board::place_piece(g.board, pl);
    assert forall|i: int| 0 <= i < 4 implies crate::board::in_bounds(
        (#[trigger] p.cell(i)).0,
        p.cell(i).1,
    ) by {
        assert(crate::board::cell_free(g.board, p, i));
    }
    assert(crate::board::cells_in_bounds(p));
    lemma_same_cells(g.board, p, pl);
    assert(crate::board::cells_in_bounds(pl));
    assert(0 <= pl.min_row() < 20) by {
        assert(crate::board::in_bounds(pl.cell(0).0, pl.cell(0).1));
        assert(crate::board::in_bounds(pl.cell(1).0, pl.cell(1).1));
        assert(crate::board::in_bounds(pl.cell(2).0, pl.cell(2).1));
        assert(crate::board::in_bounds(pl.cell(3).0, pl.cell(3).1));
    }
    lemma_full_rows_props(b2, 20);
    let rows = crate::board::full_rows_upto(b2, 20);
    if rows.len() == 0 {
        assert forall|y: int| 0 <= y < 20 implies !(#[trigger] row_full(b2, y)) by {
            if row_full(b2, y) {
                assert(rows.contains(y as isize));
            }
        }
        assert(lock_delay(pl.min_row()) >= 10);
    } else {
        lemma_place_full_rows(g.board, pl);
    }
}

} // verus!
