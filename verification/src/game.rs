use crate::board::{
    cells_in_bounds, collapse_all, full_rows_upto, in_bounds, no_full_rows, piece_fits,
    place_piece, wipe_step, Board,
};
use crate::generator::{class_step, class_value, gen_wf, GenState, PieceGenerator};
use crate::piece::{
    fresh_piece, move_down_view, move_left_view, move_right_view, rotate_left_view,
    rotate_right_view, lemma_double_rotation, lemma_offset_bounds, Piece, PieceClass, PieceView,
    SPAWN_X, SPAWN_Y,
};
use crate::tile::TileColor;
use vstd::prelude::*;

verus! {

/// Score values saturate at this ceiling rather than growing further.
pub const MAX_SCORE: usize = 999999;

/// The post-lock state: plain entry delay counted in frames, or the row-clear
/// wipe animation followed by entry delay.
pub enum ARE {
    Idle,
    ARE(u8),
    LineDelay(u8, Vec<isize>),
}

/// The mathematical model of the post-lock state.
#[verifier::ext_equal]
pub enum AreView {
    Idle,
    Are(u8),
    LineDelay(u8, Seq<isize>),
}

impl View for ARE {
    type V = AreView;

    open spec fn view(&self) -> AreView {
        match self {
            ARE::Idle => AreView::Idle,
            ARE::ARE(v) => AreView::Are(*v),
            ARE::LineDelay(step, lines) => AreView::LineDelay(*step, lines@),
        }
    }
}

/// The mathematical model of the whole game state.
#[verifier::ext_equal]
pub struct GameView {
    pub board: Seq<Option<TileColor>>,
    pub level: usize,
    pub score: usize,
    pub lines_cleared: usize,
    pub lines_target: usize,
    pub total_lines: usize,
    pub current_piece: Option<PieceView>,
    pub next_piece: PieceView,
    pub piece_generator: GenState,
}

/// Well-formed game state: the board has its fixed size, the score respects
/// the cap, an active piece always sits validly on a board without full rows,
/// and the held next piece and the sequencer are themselves well formed.
pub open spec fn game_wf(g: GameView) -> bool {
    &&& g.board.len() == 200
    &&& g.score <= MAX_SCORE
    &&& (g.current_piece matches Some(p) ==> p.wf() && piece_fits(g.board, p) && no_full_rows(
        g.board,
    ))
    &&& g.next_piece.wf()
    &&& gen_wf(g.piece_generator)
}

/// A sum held at the usize limit.
pub open spec fn sat_add_usize(a: usize, b: int) -> usize {
    if a + b > usize::MAX {
        usize::MAX
    } else {
        (a + b) as usize
    }
}

/// The score after an award: the sum, held at the cap.
pub open spec fn score_after(score: usize, add: int) -> usize {
    if score + add > MAX_SCORE {
        MAX_SCORE
    } else {
        (score + add) as usize
    }
}

/// The base score of clearing `n` rows at once; multiplied by level + 1.
pub open spec fn line_base(n: int) -> int {
    if n == 0 {
        0
    } else if n == 1 {
        40
    } else if n == 2 {
        100
    } else if n == 3 {
        300
    } else {
        1200
    }
}

/// The entry delay, in frames, after a piece locks with topmost occupied row
/// `y`: pieces locking near the top get the minimum, lower rows add two
/// frames per started group of four rows.
pub open spec fn lock_delay(y: int) -> int {
    if y < 2 {
        10
    } else {
        10 + ((y - 2) / 4 + 1) * 2
    }
}

/// The per-level gravity table: frames per downward step.
pub open spec fn drop_table() -> Seq<u8> {
    seq![48u8, 43, 38, 33, 28, 23, 18, 13, 8, 6, 5, 5, 5, 4, 4, 4, 3, 3, 3]
}

/// The gravity interval of a level: from the fixed table below it, two
/// frames past the table, one frame at very high levels.
pub open spec fn drop_time_spec(level: usize) -> u8 {
    if level >= 29 {
        1
    } else if level >= 19 {
        2
    } else {
        drop_table()[level as int]
    }
}

/// The starting lines-to-next-level target of a starting level.
pub open spec fn initial_target(level: usize) -> usize {
    let a = level * 10 + 10;
    let b: int = if level * 10 - 50 > 100 {
        level * 10 - 50
    } else {
        100
    };
    if a < b {
        a as usize
    } else {
        b as usize
    }
}

/// The model of starting a fresh game: two kinds are drawn, the first
/// becomes the active piece at the spawn anchor, the second is held as next.
pub open spec fn game_new(starting_level: usize, gen: GenState) -> GameView {
    let c1 = class_value(gen);
    let gen1 = class_step(gen);
    let c2 = class_value(gen1);
    let gen2 = class_step(gen1);
    GameView {
        board: Seq::new(200, |j: int| None),
        level: starting_level,
        score: 0,
        lines_cleared: 0,
        lines_target: initial_target(starting_level),
        total_lines: 0,
        current_piece: Some(
            PieceView { position: (SPAWN_X as int, SPAWN_Y as int), modified: true, ..fresh_piece(c1) },
        ),
        next_piece: fresh_piece(c2),
        piece_generator: gen2,
    }
}

/// The model of one provisional mutation of the active piece: the attempt is
/// kept if the board accepts it and reverted otherwise (the revert leaves
/// the renderer-sync flag set).
pub open spec fn try_piece(g: GameView, p: PieceView, attempt: PieceView) -> GameView {
    if piece_fits(g.board, attempt) {
        GameView { current_piece: Some(attempt), ..g }
    } else {
        GameView { current_piece: Some(PieceView { modified: true, ..p }), ..g }
    }
}

pub open spec fn game_rotate_left(g: GameView) -> GameView {
    match g.current_piece {
        None => g,
        Some(p) => try_piece(g, p, rotate_left_view(p)),
    }
}

pub open spec fn game_rotate_right(g: GameView) -> GameView {
    match g.current_piece {
        None => g,
        Some(p) => try_piece(g, p, rotate_right_view(p)),
    }
}

pub open spec fn game_move_left(g: GameView) -> GameView {
    match g.current_piece {
        None => g,
        Some(p) => try_piece(g, p, move_left_view(p)),
    }
}

pub open spec fn game_move_right(g: GameView) -> GameView {
    match g.current_piece {
        None => g,
        Some(p) => try_piece(g, p, move_right_view(p)),
    }
}

/// The model of one downward step.  Without an active piece nothing happens.
/// Otherwise the piece moves down; a successful step taken as a soft drop
/// awards one point.  If the moved piece no longer fits it locks at its
/// previous position instead, without the award: its cells merge into the
/// board, and the outcome carries either the plain entry delay scaled by the
/// lock row, or the full rows to be cleared.
pub open spec fn game_move_down(g: GameView, soft_drop: bool) -> (GameView, Option<AreView>) {
    match g.current_piece {
        None => (g, None),
        Some(p) => {
            let pd = move_down_view(p);
            if piece_fits(g.board, pd) {
                let sc = if soft_drop {
                    score_after(g.score, 1)
                } else {
                    g.score
                };
                (GameView { current_piece: Some(pd), score: sc, ..g }, None)
            } else {
                let pl = PieceView { modified: true, ..p };
                let b2 = place_piece(g.board, pl);
                let rows = full_rows_upto(b2, 20);
                let out = if rows.len() == 0 {
                    AreView::Are(lock_delay(pl.min_row()) as u8)
                } else {
                    AreView::LineDelay(0, rows)
                };
                (GameView { current_piece: None, board: b2, ..g }, Some(out))
            }
        },
    }
}

/// The model of collapsing cleared rows: the board collapses, the score
/// grows by the level-scaled award for the number of rows, the line counters
/// advance, and reaching the target raises the level and moves the target.
pub open spec fn game_collapse(g: GameView, lines: Seq<isize>) -> GameView {
    let b2 = collapse_all(g.board, lines);
    let sc = score_after(g.score, (g.level + 1) * line_base(lines.len() as int));
    let lc = sat_add_usize(g.lines_cleared, lines.len() as int);
    let tl = sat_add_usize(g.total_lines, lines.len() as int);
    if lc >= g.lines_target {
        GameView {
            board: b2,
            score: sc,
            lines_cleared: 0,
            total_lines: tl,
            level: sat_add_usize(g.level, 1),
            lines_target: sat_add_usize(g.lines_target, 10),
            ..g
        }
    } else {
        GameView { board: b2, score: sc, lines_cleared: lc, total_lines: tl, ..g }
    }
}

/// The model of ending the entry delay: the held next piece moves to the
/// spawn anchor, a fresh kind is drawn to replace it, and the spawn is
/// checked against the board; an obstructed spawn ends the session.
pub open spec fn game_finish_are(g: GameView) -> (GameView, bool) {
    let cls = class_value(g.piece_generator);
    let gen2 = class_step(g.piece_generator);
    let spawned = PieceView {
        position: (SPAWN_X as int, SPAWN_Y as int),
        modified: true,
        ..g.next_piece
    };
    let g1 = GameView { next_piece: fresh_piece(cls), piece_generator: gen2, ..g };
    if !piece_fits(g.board, spawned) {
        (g1, true)
    } else {
        (GameView { current_piece: Some(spawned), ..g1 }, false)
    }
}

/// The model of one wipe-animation stage.
pub open spec fn game_wipe(g: GameView, step: u8, lines: Seq<isize>) -> GameView {
    GameView { board: wipe_step(g.board, step as int, lines), ..g }
}

/// A piece differing only in the renderer-sync flag occupies the same cells.
pub proof fn lemma_same_cells(b: Seq<Option<TileColor>>, p: PieceView, q: PieceView)
    requires
        q == (PieceView { modified: q.modified, ..p }),
    ensures
        piece_fits(b, q) == piece_fits(b, p),
        cells_in_bounds(q) == cells_in_bounds(p),
{
    assert forall|i: int| 0 <= i < 4 implies #[trigger] q.cell(i) == p.cell(i) by {}
    assert forall|i: int| 0 <= i < 4 implies #[trigger] p.cell(i) == q.cell(i) by {}
    assert forall|i: int| 0 <= i < 4 implies (#[trigger] crate::board::cell_free(b, q, i))
        == crate::board::cell_free(b, p, i) by {
        assert(q.cell(i) == p.cell(i));
    }
    assert forall|i: int| 0 <= i < 4 implies (#[trigger] crate::board::cell_free(b, p, i))
        == crate::board::cell_free(b, q, i) by {
        assert(q.cell(i) == p.cell(i));
    }
    assert(piece_fits(b, q) ==> piece_fits(b, p));
    assert(piece_fits(b, p) ==> piece_fits(b, q));
    assert(cells_in_bounds(q) ==> cells_in_bounds(p));
    assert(cells_in_bounds(p) ==> cells_in_bounds(q));
}

/// The award actually paid, computed with saturation, moves the capped score
/// exactly as the mathematical award does.
proof fn lemma_award_equiv(score: usize, level: usize, base: usize, award: usize)
    requires
        base == 0 || 40 <= base <= 1200,
        ({
            let l1: int = if level + 1 > usize::MAX {
                usize::MAX as int
            } else {
                level + 1
            };
            award == (if l1 * base > usize::MAX {
                usize::MAX as int
            } else {
                l1 * base
            })
        }),
    ensures
        score_after(score, award as int) == score_after(score, (level + 1) * base),
{
    let l1: int = if level + 1 > usize::MAX {
        usize::MAX as int
    } else {
        level + 1
    };
    if base == 0 {
        assert(l1 * base == 0) by (nonlinear_arith)
            requires
                base == 0,
        ;
        assert((level + 1) * base == 0) by (nonlinear_arith)
            requires
                base == 0,
        ;
    } else {
        assert(l1 * base >= l1) by (nonlinear_arith)
            requires
                base >= 1,
                l1 >= 0,
        ;
        assert((level + 1) * base >= level + 1) by (nonlinear_arith)
            requires
                base >= 1,
                level >= 0,
        ;
        if level + 1 > usize::MAX {
            assert(award == usize::MAX);
            assert((level + 1) * base > MAX_SCORE);
        } else {
            if l1 * base > usize::MAX {
                assert(award == usize::MAX);
                assert((level + 1) * base > MAX_SCORE);
            } else {
                assert(award as int == (level + 1) * base);
            }
        }
    }
}

/// Law: clearing 1, 2, 3 or 4 rows at once awards 40, 100, 300 or 1200
/// points times level + 1, and the score saturates at the fixed cap
/// regardless of further awards.
pub proof fn lemma_scoring(g: GameView, lines: Seq<isize>)
    requires
        game_wf(g),
    ensures
        game_collapse(g, lines).score == score_after(
            g.score,
            (g.level + 1) * line_base(lines.len() as int),
        ),
        game_collapse(g, lines).score <= MAX_SCORE,
        g.score + (g.level + 1) * line_base(lines.len() as int) <= MAX_SCORE ==> game_collapse(
            g,
            lines,
        ).score == g.score + (g.level + 1) * line_base(lines.len() as int),
{
}

/// A piece that sits validly on the board has its anchor within a narrow
/// band around the board, so every single-step move stays clear of the
/// isize limits.
pub proof fn lemma_fits_pos_safe(b: Seq<Option<TileColor>>, p: PieceView)
    requires
        p.wf(),
        piece_fits(b, p),
    ensures
        p.pos_safe(),
        -2 <= p.position.0 <= 11,
        -2 <= p.position.1 <= 21,
{
    assert(crate::board::cell_free(b, p, 0));
    lemma_offset_bounds(p, 0);
}

/// A fresh piece of any kind, moved to the spawn anchor, lies entirely on
/// the board.
pub proof fn lemma_spawn_cells(c: PieceClass)
    ensures
        ({
            let p = PieceView {
                position: (SPAWN_X as int, SPAWN_Y as int),
                modified: true,
                ..fresh_piece(c)
            };
            cells_in_bounds(p) && p.wf() && p.pos_safe()
        }),
{
    let p = PieceView {
        position: (SPAWN_X as int, SPAWN_Y as int),
        modified: true,
        ..fresh_piece(c)
    };
    assert forall|i: int| 0 <= i < 4 implies in_bounds((#[trigger] p.cell(i)).0, p.cell(i).1) by {
        assert(p.offsets[i] == crate::piece::class_offsets(c)[i]);
    }
    assert(p.wf());
}

/// Orchestrates board, active and next piece, sequencer, and the score,
/// level and line-count progression.
pub struct Game {
    pub board: Board,
    pub level: usize,
    pub score: usize,
    pub lines_cleared: usize,
    pub lines_target: usize,
    pub total_lines: usize,
    pub current_piece: Option<Piece>,
    pub next_piece: Piece,
    pub piece_generator: PieceGenerator,
}

impl View for Game {
    type V = GameView;

    open spec fn view(&self) -> GameView {
        GameView {
            board: self.board@,
            level: self.level,
            score: self.score,
            lines_cleared: self.lines_cleared,
            lines_target: self.lines_target,
            total_lines: self.total_lines,
            current_piece: match self.current_piece {
                Some(p) => Some(p@),
                None => None,
            },
            next_piece: self.next_piece@,
            piece_generator: self.piece_generator@,
        }
    }
}

impl Game {
    /// A fresh game at the given starting level, drawing pieces from the
    /// given sequencer.
    pub fn new(starting_level: usize, piece_generator: PieceGenerator) -> (g: Game)
        requires
            starting_level * 10 + 50 <= isize::MAX,
            gen_wf(piece_generator@),
        ensures
            g@ == game_new(starting_level, piece_generator@),
            game_wf(g@),
    {
        let mut generator = piece_generator;
        let mut current_piece = Piece::new(generator.next_piece_class());
        current_piece.set_start_position();
        let next_piece = Piece::new(generator.next_piece_class());
        let board = Board::new();
        let a = starting_level * 10 + 10;
        let bm = starting_level as isize * 10 - 50;
        let b = if bm > 100 {
            bm as usize
        } else {
            100
        };
        let lines_target = if a < b {
            a
        } else {
            b
        };
        let g = Game {
            board,
            level: starting_level,
            score: 0,
            lines_cleared: 0,
            lines_target,
            total_lines: 0,
            current_piece: Some(current_piece),
            next_piece,
            piece_generator: generator,
        };
        proof {
            lemma_spawn_cells(class_value(piece_generator@));
            let p = g@.current_piece->Some_0;
            assert forall|i: int| 0 <= i < 4 implies #[trigger] crate::board::cell_free(
                g@.board,
                p,
                i,
            ) by {
                crate::board::lemma_cell_index(p.cell(i).0, p.cell(i).1);
            }
            assert forall|y: int| 0 <= y < 20 implies !(#[trigger] crate::board::row_full(
                g@.board,
                y,
            )) by {
                crate::board::lemma_cell_index(0, y);
                assert(g@.board[crate::board::cell_index(0, y)] is None);
            }
            assert(g@.lines_target == initial_target(starting_level));
            assert(g@ =~= game_new(starting_level, piece_generator@));
        }
        g
    }

    /// The gravity interval of the current level, in frames.
    pub fn drop_time(&self) -> (r: u8)
        ensures
            r == drop_time_spec(self.level),
    {
        if self.level >= 19 {
            if self.level >= 29 {
                1
            } else {
                2
            }
        } else {
            let table: [u8; 19] = [48, 43, 38, 33, 28, 23, 18, 13, 8, 6, 5, 5, 5, 4, 4, 4, 3, 3, 3];
            proof {
                assert(table@ =~= drop_table());
            }
            table[self.level]
        }
    }

    pub fn score(&self) -> (r: usize)
        ensures
            r == self.score,
    {
        self.score
    }

    pub fn total_lines(&self) -> (r: usize)
        ensures
            r == self.total_lines,
    {
        self.total_lines
    }

    pub fn level_lines(&self) -> (r: usize)
        ensures
            r == self.lines_cleared,
    {
        self.lines_cleared
    }

    pub fn level(&self) -> (r: usize)
        ensures
            r == self.level,
    {
        self.level
    }

    /// Per-kind spawn counts, for the statistics display.
    pub fn stats(&self) -> (r: &[usize; 7])
        ensures
            r@ == self@.piece_generator.stats,
    {
        self.piece_generator.stats()
    }

    /// Rotates the active piece counterclockwise, reverting if the board
    /// rejects the new orientation.
    pub fn rotate_left(&mut self)
        requires
            game_wf(old(self)@),
        ensures
            final(self)@ == game_rotate_left(old(self)@),
            game_wf(final(self)@),
    {
        match &mut self.current_piece {
            Some(current_piece) => {
                proof {
                    lemma_fits_pos_safe(old(self)@.board, old(self)@.current_piece->Some_0);
                    lemma_double_rotation(old(self)@.current_piece->Some_0);
                }
                current_piece.rotate_left();
                if !self.board.verify(current_piece) {
                    current_piece.rotate_right();
                }
            },
            None => {},
        }
        proof {
            if old(self)@.current_piece is Some {
                let p = old(self)@.current_piece->Some_0;
                if !piece_fits(old(self)@.board, rotate_left_view(p)) {
                    lemma_same_cells(old(self)@.board, p, (PieceView { modified: true, ..p }));
                }
            }
        }
    }

    /// Rotates the active piece clockwise, reverting if the board rejects
    /// the new orientation.
    pub fn rotate_right(&mut self)
        requires
            game_wf(old(self)@),
        ensures
            final(self)@ == game_rotate_right(old(self)@),
            game_wf(final(self)@),
    {
        match &mut self.current_piece {
            Some(current_piece) => {
                proof {
                    lemma_fits_pos_safe(old(self)@.board, old(self)@.current_piece->Some_0);
                    lemma_double_rotation(old(self)@.current_piece->Some_0);
                }
                current_piece.rotate_right();
                if !self.board.verify(current_piece) {
                    current_piece.rotate_left();
                }
            },
            None => {},
        }
        proof {
            if old(self)@.current_piece is Some {
                let p = old(self)@.current_piece->Some_0;
                if !piece_fits(old(self)@.board, rotate_right_view(p)) {
                    lemma_same_cells(old(self)@.board, p, (PieceView { modified: true, ..p }));
                }
            }
        }
    }

    /// Moves the active piece one column left, reverting on collision.
    pub fn move_left(&mut self)
        requires
            game_wf(old(self)@),
        ensures
            final(self)@ == game_move_left(old(self)@),
            game_wf(final(self)@),
    {
        match &mut self.current_piece {
            Some(current_piece) => {
                proof {
                    lemma_fits_pos_safe(old(self)@.board, old(self)@.current_piece->Some_0);
                }
                current_piece.move_left();
                if !self.board.verify(current_piece) {
                    current_piece.move_right();
                }
            },
            None => {},
        }
        proof {
            if old(self)@.current_piece is Some {
                let p = old(self)@.current_piece->Some_0;
                if !piece_fits(old(self)@.board, move_left_view(p)) {
                    lemma_same_cells(old(self)@.board, p, (PieceView { modified: true, ..p }));
                }
            }
        }
    }

    /// Moves the active piece one column right, reverting on collision.
    pub fn move_right(&mut self)
        requires
            game_wf(old(self)@),
        ensures
            final(self)@ == game_move_right(old(self)@),
            game_wf(final(self)@),
    {
        match &mut self.current_piece {
            Some(current_piece) => {
                proof {
                    lemma_fits_pos_safe(old(self)@.board, old(self)@.current_piece->Some_0);
                }
                current_piece.move_right();
                if !self.board.verify(current_piece) {
                    current_piece.move_left();
                }
            },
            None => {},
        }
        proof {
            if old(self)@.current_piece is Some {
                let p = old(self)@.current_piece->Some_0;
                if !piece_fits(old(self)@.board, move_right_view(p)) {
                    lemma_same_cells(old(self)@.board, p, (PieceView { modified: true, ..p }));
                }
            }
        }
    }

    fn add_score(&mut self, score: usize)
        ensures
            *final(self) == (Game {
                score: score_after(old(self).score, score as int),
                ..*old(self)
            }),
    {
        self.score = self.score.saturating_add(score);
        if self.score > MAX_SCORE {
            self.score = MAX_SCORE;
        }
    }

    /// Advances the active piece one row down, awarding the soft-drop point
    /// when the step succeeds; on collision it locks at its last valid
    /// position instead, and the outcome reports the entry delay or the rows
    /// to clear.
    #[verifier::rlimit(100)]
    #[verifier::spinoff_prover]
    pub fn move_down(&mut self, soft_drop: bool) -> (r: Option<ARE>)
        requires
            game_wf(old(self)@),
        ensures
            final(self)@ == game_move_down(old(self)@, soft_drop).0,
            (match r {
                Some(a) => Some(a@),
                None => None,
            }) == game_move_down(old(self)@, soft_drop).1,
            game_wf(final(self)@),
    {
        let verify = match &mut self.current_piece {
            Some(current_piece) => {
                proof {
                    lemma_fits_pos_safe(old(self)@.board, old(self)@.current_piece->Some_0);
                }
                current_piece.move_down();
                self.board.verify(current_piece)
            },
            None => {
                return None;
            },
        };

        if verify {
            if soft_drop {
                self.add_score(1);
            }
            return None;
        }

        let mut current_piece = match self.current_piece.take() {
            Some(p) => p,
            None => Piece::new(PieceClass::I),
        };
        current_piece.move_up();
        proof {
            let p = old(self)@.current_piece->Some_0;
            lemma_fits_pos_safe(old(self)@.board, p);
            assert(current_piece@ == (PieceView { modified: true, ..p }));
            lemma_same_cells(old(self)@.board, p, current_piece@);
            assert forall|i: int| 0 <= i < 4 implies in_bounds(
                (#[trigger] current_piece@.cell(i)).0,
                current_piece@.cell(i).1,
            ) by {
                assert(crate::board::cell_free(old(self)@.board, p, i));
                assert(current_piece@.cell(i) == p.cell(i));
            }
        }
        let mut lowest_y = current_piece.get_tile_position(0).1;
        let y1 = current_piece.get_tile_position(1).1;
        if y1 < lowest_y {
            lowest_y = y1;
        }
        let y2 = current_piece.get_tile_position(2).1;
        if y2 < lowest_y {
            lowest_y = y2;
        }
        let y3 = current_piece.get_tile_position(3).1;
        if y3 < lowest_y {
            lowest_y = y3;
        }
        let ghost locked = current_piece@;

        self.board.finalize(current_piece);
        let lines_cleared = self.board.check();

        if lines_cleared.len() == 0 {
            let delay: u8 = if lowest_y < 2 {
                10
            } else {
                10 + (((lowest_y as u8) - 2) / 4 + 1) * 2
            };
            proof {
                let p = old(self)@.current_piece->Some_0;
                assert(crate::board::cell_free(old(self)@.board, p, 0));
                assert(crate::board::cell_free(old(self)@.board, p, 1));
                assert(crate::board::cell_free(old(self)@.board, p, 2));
                assert(crate::board::cell_free(old(self)@.board, p, 3));
                assert(locked.cell(0) == p.cell(0) && locked.cell(1) == p.cell(1) && locked.cell(2)
                    == p.cell(2) && locked.cell(3) == p.cell(3));
                assert(0 <= locked.min_row() < 20);
                assert(lowest_y as int == locked.min_row());
                assert(delay as int == lock_delay(locked.min_row()));
            }
            Some(ARE::ARE(delay))
        } else {
            Some(ARE::LineDelay(0, lines_cleared))
        }
    }

    /// Applies the cleared rows to board, score, line counters and level.
    /// Rows are cleared only between pieces, while no piece is active; a
    /// four-cell piece cannot complete more than four rows at once.
    pub fn collapse(&mut self, lines: &[isize])
        requires
            game_wf(old(self)@),
            old(self)@.current_piece is None,
            lines@.len() <= 4,
            forall|i: int| 0 <= i < lines@.len() ==> 0 <= #[trigger] lines@[i] < 20,
        ensures
            final(self)@ == game_collapse(old(self)@, lines@),
            game_wf(final(self)@),
    {
        self.board.collapse(lines);

        let base: usize = if lines.len() == 0 {
            0
        } else if lines.len() == 1 {
            40
        } else if lines.len() == 2 {
            100
        } else if lines.len() == 3 {
            300
        } else {
            1200
        };
        let award = match self.level.saturating_add(1).checked_mul(base) {
            Some(v) => v,
            None => usize::MAX,
        };
        self.add_score(award);

        self.lines_cleared = self.lines_cleared.saturating_add(lines.len());
        self.total_lines = self.total_lines.saturating_add(lines.len());

        if self.lines_cleared >= self.lines_target {
            self.lines_cleared = 0;
            self.level = self.level.saturating_add(1);
            self.lines_target = self.lines_target.saturating_add(10);
        }
        proof {
            lemma_award_equiv(old(self)@.score, old(self)@.level, base, award);
            assert(base as int == line_base(lines@.len() as int));
            assert(self@ =~= game_collapse(old(self)@, lines@));
        }
    }

    /// Ends the entry delay: promotes the held next piece to the spawn
    /// anchor, draws a fresh next piece, and reports whether the spawn was
    /// obstructed, which ends the session.
    pub fn finish_are(&mut self) -> (game_over: bool)
        requires
            game_wf(old(self)@),
            no_full_rows(old(self)@.board),
        ensures
            final(self)@ == game_finish_are(old(self)@).0,
            game_over == game_finish_are(old(self)@).1,
            game_wf(final(self)@),
    {
        let mut piece = Piece::new(self.piece_generator.next_piece_class());

        core::mem::swap(&mut self.next_piece, &mut piece);

        piece.set_start_position();

        if !self.board.verify(&piece) {
            return true;
        }

        self.current_piece = Some(piece);

        false
    }

    /// One stage of the row-clear wipe animation on the board.
    pub fn clear_animation(&mut self, step: u8, lines: &[isize])
        requires
            game_wf(old(self)@),
            step <= 4,
            forall|i: int| 0 <= i < lines@.len() ==> 0 <= #[trigger] lines@[i] < 20,
        ensures
            final(self)@ == game_wipe(old(self)@, step, lines@),
            game_wf(final(self)@),
    {
        self.board.clear_animation(step as isize, lines);
        proof {
            if self@.current_piece is Some {
                let p = self@.current_piece->Some_0;
                assert forall|i: int| 0 <= i < 4 implies #[trigger] crate::board::cell_free(
                    self@.board,
                    p,
                    i,
                ) by {
                    assert(crate::board::cell_free(old(self)@.board, p, i));
                }
                assert forall|y: int| 0 <= y < 20 implies !(#[trigger] crate::board::row_full(
                    self@.board,
                    y,
                )) by {
                    assert(!crate::board::row_full(old(self)@.board, y));
                    let x = choose|x: int|
                        0 <= x < 10 && !((#[trigger] old(self)@.board[crate::board::cell_index(
                            x,
                            y,
                        )]) is Some);
                    crate::board::lemma_cell_index(x, y);
                    assert(!(self@.board[crate::board::cell_index(x, y)] is Some));
                }
            }
        }
    }
}

} // verus!
