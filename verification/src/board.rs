use crate::piece::{Piece, PieceView};
use crate::tile::TileColor;
use vstd::arithmetic::div_mod::lemma_fundamental_div_mod_converse;
use vstd::pervasive::VecAdditionalExecFns;
use vstd::prelude::*;

verus! {

/// Number of columns of the playfield.
pub const BOARD_WIDTH: usize = 10;

/// Number of rows of the playfield; row 0 is the top row.
pub const BOARD_HEIGHT: usize = 20;

/// The flat, row-major index of the cell in column `x` of row `y`.
pub open spec fn cell_index(x: int, y: int) -> int {
    y * 10 + x
}

pub open spec fn in_bounds(x: int, y: int) -> bool {
    0 <= x < 10 && 0 <= y < 20
}

/// Row-major indexing decomposes uniquely into column and row.
pub proof fn lemma_cell_index(x: int, y: int)
    requires
        in_bounds(x, y),
    ensures
        0 <= cell_index(x, y) < 200,
        cell_index(x, y) / 10 == y,
        cell_index(x, y) % 10 == x,
{
    lemma_fundamental_div_mod_converse(cell_index(x, y), 10, y, x);
}

/// The `i`-th cell of the piece lies on the board and is currently empty.
pub open spec fn cell_free(b: Seq<Option<TileColor>>, p: PieceView, i: int) -> bool {
    &&& in_bounds(p.cell(i).0, p.cell(i).1)
    &&& b[cell_index(p.cell(i).0, p.cell(i).1)] is None
}

/// A piece placement is valid when all four of its cells lie on the board
/// and none overlaps an occupied cell.
pub open spec fn piece_fits(b: Seq<Option<TileColor>>, p: PieceView) -> bool {
    forall|i: int| 0 <= i < 4 ==> #[trigger] cell_free(b, p, i)
}

/// All four cells of the piece lie on the board (occupancy not considered).
pub open spec fn cells_in_bounds(p: PieceView) -> bool {
    forall|i: int| 0 <= i < 4 ==> in_bounds((#[trigger] p.cell(i)).0, p.cell(i).1)
}

/// Whether flat index `j` is covered by one of the piece's four cells.
pub open spec fn piece_covers(p: PieceView, j: int) -> bool {
    exists|i: int| 0 <= i < 4 && cell_index((#[trigger] p.cell(i)).0, p.cell(i).1) == j
}

/// The board after the piece's four cells are written as filled.
pub open spec fn place_piece(b: Seq<Option<TileColor>>, p: PieceView) -> Seq<Option<TileColor>> {
    Seq::new(
        200,
        |j: int|
            if piece_covers(p, j) {
                Some(p.color)
            } else {
                b[j]
            },
    )
}

/// A row is full when every column of it is occupied.
pub open spec fn row_full(b: Seq<Option<TileColor>>, y: int) -> bool {
    forall|x: int| 0 <= x < 10 ==> (#[trigger] b[cell_index(x, y)]) is Some
}

pub open spec fn no_full_rows(b: Seq<Option<TileColor>>) -> bool {
    forall|y: int| 0 <= y < 20 ==> !(#[trigger] row_full(b, y))
}

/// The indices of the full rows among the first `n` rows, in ascending order.
pub open spec fn full_rows_upto(b: Seq<Option<TileColor>>, n: int) -> Seq<isize>
    decreases n,
{
    if n <= 0 {
        Seq::empty()
    } else {
        full_rows_upto(b, n - 1) + if row_full(b, n - 1) {
            seq![(n - 1) as isize]
        } else {
            Seq::empty()
        }
    }
}

/// The board after one cleared row collapses: every row above `line` moves
/// down by one and the top row becomes empty.
pub open spec fn collapse_row(b: Seq<Option<TileColor>>, line: int) -> Seq<Option<TileColor>> {
    Seq::new(
        200,
        |j: int|
            {
                let y = j / 10;
                if y == 0 {
                    None
                } else if y <= line {
                    b[j - 10]
                } else {
                    b[j]
                }
            },
    )
}

/// The board after each listed row collapses, processed in list order.
pub open spec fn collapse_all(b: Seq<Option<TileColor>>, lines: Seq<isize>) -> Seq<
    Option<TileColor>,
>
    decreases lines.len(),
{
    if lines.len() == 0 {
        b
    } else {
        collapse_all(collapse_row(b, lines[0] as int), lines.drop_first())
    }
}

/// Whether flat index `j` is one of the two cells erased at wipe stage `step`
/// on one of the listed rows.
pub open spec fn wiped(step: int, lines: Seq<isize>, j: int) -> bool {
    exists|i: int|
        0 <= i < lines.len() && (j == cell_index(4 - step, (#[trigger] lines[i]) as int) || j
            == cell_index(5 + step, lines[i] as int))
}

/// The board after wipe stage `step` of the row-clear animation: two columns,
/// symmetric about the board center, are erased on every listed row.
pub open spec fn wipe_step(b: Seq<Option<TileColor>>, step: int, lines: Seq<isize>) -> Seq<
    Option<TileColor>,
> {
    Seq::new(
        200,
        |j: int|
            if wiped(step, lines, j) {
                None
            } else {
                b[j]
            },
    )
}

/// The playfield: a fixed-size grid of optionally colored cells, row-major,
/// origin at the top left.
pub struct Board {
    pub tiles: Vec<Option<TileColor>>,
}

impl View for Board {
    type V = Seq<Option<TileColor>>;

    open spec fn view(&self) -> Seq<Option<TileColor>> {
        self.tiles@
    }
}

impl Board {
    /// Well-formed: exactly `BOARD_WIDTH * BOARD_HEIGHT` cells.
    pub open spec fn wf(&self) -> bool {
        self@.len() == 200
    }

    /// An empty board.
    #[verifier::loop_isolation(false)]
    pub fn new() -> (b: Board)
        ensures
            b.wf(),
            forall|j: int| 0 <= j < 200 ==> (#[trigger] b@[j]) is None,
    {
        let mut tiles: Vec<Option<TileColor>> = Vec::new();
        let mut i: usize = 0;
        while i < BOARD_WIDTH * BOARD_HEIGHT
            invariant
                i <= 200,
                tiles@.len() == i,
                forall|j: int| 0 <= j < i ==> (#[trigger] tiles@[j]) is None,
            decreases 200 - i,
        {
            tiles.push(None);
            i = i + 1;
        }
        Board { tiles }
    }

    /// Validates a piece placement: true iff all four cells lie on the board
    /// and none overlaps an occupied cell.
    #[verifier::loop_isolation(false)]
    pub fn verify(&self, piece: &Piece) -> (r: bool)
        requires
            self.wf(),
            piece@.wf(),
            piece@.pos_safe(),
        ensures
            r == piece_fits(self@, piece@),
    {
        let mut i: usize = 0;
        while i < 4
            invariant
                i <= 4,
                forall|k: int| 0 <= k < i ==> #[trigger] cell_free(self@, piece@, k),
            decreases 4 - i,
        {
            let (x, y) = piece.get_tile_position(i);
            match self.get(x, y) {
                Ok(result) => match result {
                    Some(_) => {
                        proof {
                            assert(!cell_free(self@, piece@, i as int));
                        }
                        return false;
                    },
                    None => {},
                },
                Err(()) => {
                    proof {
                        assert(!cell_free(self@, piece@, i as int));
                    }
                    return false;
                },
            }
            i = i + 1;
        }
        true
    }

    /// Reads a cell; out-of-bounds coordinates are a distinct, signaled
    /// condition, not a silent default.
    pub fn get(&self, x: isize, y: isize) -> (r: Result<Option<TileColor>, ()>)
        requires
            self.wf(),
        ensures
            in_bounds(x as int, y as int) ==> r == Ok::<_, ()>(
                self@[cell_index(x as int, y as int)],
            ),
            !in_bounds(x as int, y as int) ==> r == Err::<Option<TileColor>, _>(()),
    {
        if x < 0 || x >= BOARD_WIDTH as isize || y < 0 || y >= BOARD_HEIGHT as isize {
            Err(())
        } else {
            proof {
                lemma_cell_index(x as int, y as int);
            }
            Ok(self.tiles[x as usize + y as usize * BOARD_WIDTH])
        }
    }

    /// Removes and returns a cell's content; out of bounds is signaled.
    pub fn take(&mut self, x: isize, y: isize) -> (r: Result<Option<TileColor>, ()>)
        requires
            old(self).wf(),
        ensures
            final(self).wf(),
            in_bounds(x as int, y as int) ==> r == Ok::<_, ()>(
                old(self)@[cell_index(x as int, y as int)],
            ) && final(self)@ == old(self)@.update(cell_index(x as int, y as int), None),
            !in_bounds(x as int, y as int) ==> r == Err::<Option<TileColor>, _>(()) && final(self)@
                == old(self)@,
    {
        if x < 0 || x >= BOARD_WIDTH as isize || y < 0 || y >= BOARD_HEIGHT as isize {
            Err(())
        } else {
            proof {
                lemma_cell_index(x as int, y as int);
            }
            let idx = x as usize + y as usize * BOARD_WIDTH;
            let tile = self.tiles[idx];
            self.tiles.set(idx, None);
            Ok(tile)
        }
    }

    /// Writes a cell; the coordinates must lie on the board.
    pub fn set(&mut self, x: isize, y: isize, tile: Option<TileColor>)
        requires
            old(self).wf(),
            in_bounds(x as int, y as int),
        ensures
            final(self)@ == old(self)@.update(cell_index(x as int, y as int), tile),
            final(self).wf(),
    {
        proof {
            lemma_cell_index(x as int, y as int);
        }
        self.tiles.set(x as usize + y as usize * BOARD_WIDTH, tile);
    }

    /// Merges a locked piece into the grid: its four cells become permanently
    /// filled with the piece's color.
    pub fn finalize(&mut self, piece: Piece)
        requires
            old(self).wf(),
            piece@.wf(),
            piece@.pos_safe(),
            cells_in_bounds(piece@),
        ensures
            final(self)@ == place_piece(old(self)@, piece@),
            final(self).wf(),
    {
        let tiles = piece.finalize();
        let ghost p = piece@;
        let (x0, y0, c0) = tiles[0];
        let (x1, y1, c1) = tiles[1];
        let (x2, y2, c2) = tiles[2];
        let (x3, y3, c3) = tiles[3];
        self.set(x0, y0, Some(c0));
        self.set(x1, y1, Some(c1));
        self.set(x2, y2, Some(c2));
        self.set(x3, y3, Some(c3));
        proof {
            assert forall|j: int| 0 <= j < 200 implies self@[j] == place_piece(old(self)@, p)[j] by {
                if piece_covers(p, j) {
                } else {
                    assert(forall|i: int|
                        0 <= i < 4 ==> cell_index((#[trigger] p.cell(i)).0, p.cell(i).1) != j);
                }
            }
            assert(self@ =~= place_piece(old(self)@, p));
        }
    }

    /// Whether every column of row `y` is occupied.
    #[verifier::loop_isolation(false)]
    fn is_row_full(&self, y: usize) -> (r: bool)
        requires
            self.wf(),
            y < 20,
        ensures
            r == row_full(self@, y as int),
    {
        let mut x: usize = 0;
        while x < BOARD_WIDTH
            invariant
                x <= 10,
                y < 20,
                forall|k: int| 0 <= k < x ==> (#[trigger] self@[cell_index(k, y as int)]) is Some,
            decreases 10 - x,
        {
            match self.get(x as isize, y as isize) {
                Ok(Some(_)) => {},
                _ => {
                    return false;
                },
            }
            x = x + 1;
        }
        true
    }

    /// Scans the rows top to bottom and returns the indices of the full
    /// rows, in ascending order.
    #[verifier::loop_isolation(false)]
    pub fn check(&self) -> (r: Vec<isize>)
        requires
            self.wf(),
        ensures
            r@ == full_rows_upto(self@, 20),
    {
        let mut cleared: Vec<isize> = Vec::new();
        let mut y: usize = 0;
        while y < BOARD_HEIGHT
            invariant
                y <= 20,
                self.wf(),
                cleared@ == full_rows_upto(self@, y as int),
            decreases 20 - y,
        {
            if self.is_row_full(y) {
                cleared.push(y as isize);
            }
            proof {
                if row_full(self@, y as int) {
                    assert(cleared@ =~= full_rows_upto(self@, y as int + 1));
                } else {
                    assert(cleared@ =~= full_rows_upto(self@, y as int + 1));
                }
            }
            y = y + 1;
        }
        cleared
    }

    /// Moves every row above `line` down by one; the top row ends up empty.
    #[verifier::loop_isolation(false)]
    fn shift_down_through(&mut self, line: isize)
        requires
            old(self).wf(),
            0 <= line < 20,
        ensures
            final(self)@ == collapse_row(old(self)@, line as int),
            final(self).wf(),
    {
        let ghost b0 = old(self)@;
        let mut y: usize = line as usize;
        while y >= 1
            invariant
                y <= line,
                line < 20,
                self.wf(),
                forall|j: int|
                    0 <= j < 200 ==> (#[trigger] self@[j]) == {
                        let r = j / 10;
                        if y < r <= line {
                            b0[j - 10]
                        } else if r == y && y < line {
                            None
                        } else {
                            b0[j]
                        }
                    },
            decreases y,
        {
            let mut x: usize = 0;
            let ghost bi = self@;
            while x < BOARD_WIDTH
                invariant
                    x <= 10,
                    1 <= y <= line,
                    line < 20,
                    self.wf(),
                    forall|j: int|
                        0 <= j < 200 ==> (#[trigger] self@[j]) == {
                            let r = j / 10;
                            let c = j % 10;
                            if r == y && c < x {
                                bi[j - 10]
                            } else if r == y - 1 && c < x {
                                None
                            } else {
                                bi[j]
                            }
                        },
                decreases 10 - x,
            {
                proof {
                    lemma_cell_index(x as int, y as int);
                    lemma_cell_index(x as int, y as int - 1);
                }
                let tile = match self.take(x as isize, y as isize - 1) {
                    Ok(t) => t,
                    Err(()) => None,
                };
                self.set(x as isize, y as isize, tile);
                x = x + 1;
                proof {
                    assert forall|j: int| 0 <= j < 200 implies (#[trigger] self@[j]) == {
                        let r = j / 10;
                        let c = j % 10;
                        if r == y && c < x {
                            bi[j - 10]
                        } else if r == y - 1 && c < x {
                            None
                        } else {
                            bi[j]
                        }
                    } by {
                        lemma_cell_index(j % 10, j / 10);
                    }
                }
            }
            y = y - 1;
            proof {
                assert forall|j: int| 0 <= j < 200 implies (#[trigger] self@[j]) == {
                    let r = j / 10;
                    if y < r <= line {
                        b0[j - 10]
                    } else if r == y && y < line {
                        None
                    } else {
                        b0[j]
                    }
                } by {
                    lemma_cell_index(j % 10, j / 10);
                }
            }
        }
        if line == 0 {
            let mut x: usize = 0;
            while x < BOARD_WIDTH
                invariant
                    x <= 10,
                    line == 0,
                    self.wf(),
                    forall|j: int|
                        0 <= j < 200 ==> (#[trigger] self@[j]) == (if j / 10 == 0 && j % 10 < x {
                            None
                        } else {
                            b0[j]
                        }),
                decreases 10 - x,
            {
                self.set(x as isize, 0, None);
                x = x + 1;
                proof {
                    assert forall|j: int| 0 <= j < 200 implies (#[trigger] self@[j]) == (if j / 10
                        == 0 && j % 10 < x {
                        None
                    } else {
                        b0[j]
                    }) by {
                        lemma_cell_index(j % 10, j / 10);
                    }
                }
            }
        }
        proof {
            assert(self@ =~= collapse_row(b0, line as int));
        }
    }

    /// Collapses each listed cleared row in list order; the scan produces the
    /// rows in ascending order, which keeps multiple simultaneous clears
    /// consistent.
    #[verifier::loop_isolation(false)]
    pub fn collapse(&mut self, lines: &[isize])
        requires
            old(self).wf(),
            forall|i: int| 0 <= i < lines@.len() ==> 0 <= #[trigger] lines@[i] < 20,
        ensures
            final(self)@ == collapse_all(old(self)@, lines@),
            final(self).wf(),
    {
        let ghost b0 = old(self)@;
        let mut li: usize = 0;
        while li < lines.len()
            invariant
                li <= lines@.len(),
                self.wf(),
                forall|i: int| 0 <= i < lines@.len() ==> 0 <= #[trigger] lines@[i] < 20,
                self@ == collapse_all(b0, lines@.take(li as int)),
            decreases lines@.len() - li,
        {
            let line = lines[li];
            self.shift_down_through(line);
            li = li + 1;
            proof {
                lemma_collapse_all_snoc(b0, lines@.take(li - 1), line);
                assert(lines@.take(li - 1).push(line) =~= lines@.take(li as int));
            }
        }
        proof {
            assert(lines@.take(lines@.len() as int) =~= lines@);
        }
    }

    /// One stage of the cosmetic row-clear wipe: erases the two columns at
    /// distance `step` outward from the board center on every listed row.
    #[verifier::loop_isolation(false)]
    pub fn clear_animation(&mut self, step: isize, lines: &[isize])
        requires
            old(self).wf(),
            0 <= step <= 4,
            forall|i: int| 0 <= i < lines@.len() ==> 0 <= #[trigger] lines@[i] < 20,
        ensures
            final(self)@ == wipe_step(old(self)@, step as int, lines@),
            final(self).wf(),
    {
        let ghost b0 = old(self)@;
        let mut li: usize = 0;
        while li < lines.len()
            invariant
                li <= lines@.len(),
                0 <= step <= 4,
                self.wf(),
                forall|i: int| 0 <= i < lines@.len() ==> 0 <= #[trigger] lines@[i] < 20,
                self@ == wipe_step(b0, step as int, lines@.take(li as int)),
            decreases lines@.len() - li,
        {
            let line = lines[li];
            self.set(BOARD_WIDTH as isize / 2 - 1 - step, line, None);
            self.set(BOARD_WIDTH as isize / 2 + step, line, None);
            li = li + 1;
            proof {
                let prev = lines@.take(li - 1);
                let cur = lines@.take(li as int);
                assert(prev.push(line) =~= cur);
                assert forall|j: int| 0 <= j < 200 implies self@[j] == wipe_step(b0, step as int, cur)[j]
                by {
                    if wiped(step as int, prev, j) {
                        let i = choose|i: int|
                            0 <= i < prev.len() && (j == cell_index(4 - step, (#[trigger] prev[i]) as int)
                                || j == cell_index(5 + step, prev[i] as int));
                        assert(cur[i] == prev[i]);
                        assert(wiped(step as int, cur, j));
                    } else if j == cell_index(4 - step, line as int) || j == cell_index(
                        5 + step,
                        line as int,
                    ) {
                        assert(cur[li - 1] == line);
                        assert(wiped(step as int, cur, j));
                    } else {
                        assert(!wiped(step as int, cur, j)) by {
                            if wiped(step as int, cur, j) {
                                let i = choose|i: int|
                                    0 <= i < cur.len() && (j == cell_index(
                                        4 - step,
                                        (#[trigger] cur[i]) as int,
                                    ) || j == cell_index(5 + step, cur[i] as int));
                                if i < li - 1 {
                                    assert(prev[i] == cur[i]);
                                    assert(wiped(step as int, prev, j));
                                }
                            }
                        }
                    }
                }
                assert(self@ =~= wipe_step(b0, step as int, cur));
            }
        }
        proof {
            assert(lines@.take(lines@.len() as int) =~= lines@);
        }
    }
}

/// Collapsing the rows of a list extended by one more row is collapsing the
/// list, then the extra row.
pub proof fn lemma_collapse_all_snoc(b: Seq<Option<TileColor>>, lines: Seq<isize>, x: isize)
    ensures
        collapse_all(b, lines.push(x)) == collapse_row(collapse_all(b, lines), x as int),
    decreases lines.len(),
{
    if lines.len() == 0 {
        assert(lines.push(x).drop_first() =~= Seq::<isize>::empty());
        assert(lines.push(x)[0] == x);
        assert(collapse_all(collapse_row(b, x as int), Seq::<isize>::empty()) == collapse_row(
            b,
            x as int,
        ));
        assert(collapse_all(b, lines) == b);
    } else {
        assert(lines.push(x)[0] == lines[0]);
        assert(lines.push(x).drop_first() =~= lines.drop_first().push(x));
        lemma_collapse_all_snoc(collapse_row(b, lines[0] as int), lines.drop_first(), x);
        assert(collapse_all(b, lines) == collapse_all(
            collapse_row(b, lines[0] as int),
            lines.drop_first(),
        ));
    }
}


/// Properties of the full-row scan: its entries are exactly the full rows
/// among the first `n`, in strictly ascending order.
pub proof fn lemma_full_rows_props(b: Seq<Option<TileColor>>, n: int)
    requires
        n <= 20,
    ensures
        ({
            let s = full_rows_upto(b, n);
            &&& forall|k: int|
                0 <= k < s.len() ==> 0 <= (#[trigger] s[k]) < n && row_full(b, s[k] as int)
            &&& forall|y: int| 0 <= y < n && #[trigger] row_full(b, y) ==> s.contains(y as isize)
            &&& forall|k1: int, k2: int| 0 <= k1 < k2 < s.len() ==> s[k1] < s[k2]
        }),
    decreases n,
{
    if n <= 0 {
    } else {
        lemma_full_rows_props(b, n - 1);
        let s0 = full_rows_upto(b, n - 1);
        let s = full_rows_upto(b, n);
        if row_full(b, n - 1) {
            assert(s == s0 + seq![(n - 1) as isize]);
            assert(s[s.len() - 1] == (n - 1) as isize);
            assert(forall|k: int| 0 <= k < s0.len() ==> s[k] == s0[k]);
            assert forall|y: int| 0 <= y < n && #[trigger] row_full(b, y) implies s.contains(
                y as isize,
            ) by {
                if y < n - 1 {
                    let i = choose|i: int| 0 <= i < s0.len() && s0[i] == y as isize;
                    assert(s[i] == y as isize);
                } else {
                    assert(s[s.len() - 1] == y as isize);
                }
            }
        } else {
            assert(s =~= s0);
            assert forall|y: int| 0 <= y < n && #[trigger] row_full(b, y) implies s.contains(
                y as isize,
            ) by {
                assert(y < n - 1 || !row_full(b, y));
                let i = choose|i: int| 0 <= i < s0.len() && s0[i] == y as isize;
                assert(s[i] == y as isize);
            }
        }
    }
}

/// Locking a piece on a board without full rows completes at most four rows:
/// a newly full row must hold one of the piece's four cells.
pub proof fn lemma_place_full_rows(b: Seq<Option<TileColor>>, p: PieceView)
    requires
        b.len() == 200,
        no_full_rows(b),
        cells_in_bounds(p),
    ensures
        full_rows_upto(place_piece(b, p), 20).len() <= 4,
{
    let b2 = place_piece(b, p);
    lemma_full_rows_props(b2, 20);
    let s = full_rows_upto(b2, 20);
    assert forall|y: int| 0 <= y < 20 && #[trigger] row_full(b2, y) implies (y == p.cell(0).1 || y
        == p.cell(1).1 || y == p.cell(2).1 || y == p.cell(3).1) by {
        assert(!row_full(b, y));
        let x = choose|x: int| 0 <= x < 10 && !((#[trigger] b[cell_index(x, y)]) is Some);
        lemma_cell_index(x, y);
        assert(b2[cell_index(x, y)] is Some);
        assert(piece_covers(p, cell_index(x, y)));
        let i = choose|i: int|
            0 <= i < 4 && cell_index((#[trigger] p.cell(i)).0, p.cell(i).1) == cell_index(x, y);
        assert(in_bounds(p.cell(i).0, p.cell(i).1));
        lemma_cell_index(p.cell(i).0, p.cell(i).1);
        assert(p.cell(i).1 == y);
    }
    if s.len() >= 5 {
        assert(0 <= s[0] < 20 && row_full(b2, s[0] as int));
        assert(0 <= s[1] < 20 && row_full(b2, s[1] as int));
        assert(0 <= s[2] < 20 && row_full(b2, s[2] as int));
        assert(0 <= s[3] < 20 && row_full(b2, s[3] as int));
        assert(0 <= s[4] < 20 && row_full(b2, s[4] as int));
        assert(s[0] < s[1] < s[2] < s[3] < s[4]);
        assert(false);
    }
}

/// Collapsing the complete, ascending list of a board's full rows leaves a
/// board with no full row: shifted rows come from rows that were not full,
/// and the emptied top row cannot be full.
pub proof fn lemma_collapse_no_full(b: Seq<Option<TileColor>>, lines: Seq<isize>)
    requires
        b.len() == 200,
        forall|i: int| 0 <= i < lines.len() ==> 0 <= #[trigger] lines[i] < 20,
        forall|k1: int, k2: int| 0 <= k1 < k2 < lines.len() ==> lines[k1] < lines[k2],
        forall|y: int| 0 <= y < 20 && #[trigger] row_full(b, y) ==> lines.contains(y as isize),
    ensures
        no_full_rows(collapse_all(b, lines)),
    decreases lines.len(),
{
    if lines.len() == 0 {
        assert forall|y: int| 0 <= y < 20 implies !(#[trigger] row_full(b, y)) by {
            if row_full(b, y) {
                assert(lines.contains(y as isize));
            }
        }
        assert(collapse_all(b, lines) == b);
    } else {
        let k = lines[0] as int;
        let b1 = collapse_row(b, k);
        let rest = lines.drop_first();
        assert(b1.len() == 200);
        assert(forall|i: int| 0 <= i < rest.len() ==> #[trigger] rest[i] == lines[i + 1]);
        assert forall|y: int| 0 <= y < 20 && #[trigger] row_full(b1, y) implies rest.contains(
            y as isize,
        ) by {
            if y == 0 {
                lemma_cell_index(0, 0);
                assert(b1[cell_index(0, 0)] is None);
                assert(!row_full(b1, 0));
            } else if y <= k {
                assert forall|x: int| 0 <= x < 10 implies (#[trigger] b[cell_index(x, y - 1)])
                    is Some by {
                    lemma_cell_index(x, y);
                    lemma_cell_index(x, y - 1);
                    assert(b1[cell_index(x, y)] is Some);
                    assert(b1[cell_index(x, y)] == b[cell_index(x, y) - 10]);
                }
                assert(row_full(b, y - 1));
                assert(lines.contains((y - 1) as isize));
                let m = choose|m: int| 0 <= m < lines.len() && lines[m] == (y - 1) as isize;
                assert(lines[m] >= lines[0]);
                assert(false);
            } else {
                assert forall|x: int| 0 <= x < 10 implies (#[trigger] b[cell_index(x, y)])
                    is Some by {
                    lemma_cell_index(x, y);
                    assert(b1[cell_index(x, y)] is Some);
                }
                assert(row_full(b, y));
                assert(lines.contains(y as isize));
                let m = choose|m: int| 0 <= m < lines.len() && lines[m] == y as isize;
                assert(m >= 1);
                assert(rest[m - 1] == y as isize);
            }
        }
        lemma_collapse_no_full(b1, rest);
        assert(collapse_all(b, lines) == collapse_all(b1, rest));
    }
}

/// Law: on a board where exactly row `k` is full, the scan finds exactly
/// that row; after its collapse, every row above `k` has moved down by one,
/// the top row is empty, and rows below `k` are untouched.
pub proof fn lemma_single_row_clear(b: Seq<Option<TileColor>>, k: int)
    requires
        b.len() == 200,
        0 <= k < 20,
        row_full(b, k),
        forall|y: int| 0 <= y < 20 && y != k ==> !(#[trigger] row_full(b, y)),
    ensures
        full_rows_upto(b, 20) == seq![k as isize],
        forall|x: int, y: int|
            0 <= x < 10 && 1 <= y <= k ==> #[trigger] collapse_all(b, full_rows_upto(b, 20))[cell_index(
                x,
                y,
            )] == b[cell_index(x, y - 1)],
        forall|x: int|
            0 <= x < 10 ==> #[trigger] collapse_all(b, full_rows_upto(b, 20))[cell_index(x, 0)]
                is None,
        forall|x: int, y: int|
            0 <= x < 10 && k < y < 20 ==> #[trigger] collapse_all(b, full_rows_upto(b, 20))[cell_index(
                x,
                y,
            )] == b[cell_index(x, y)],
{
    lemma_full_rows_props(b, 20);
    let s = full_rows_upto(b, 20);
    assert(s.contains(k as isize));
    assert forall|i: int| 0 <= i < s.len() implies s[i] == k as isize by {
        assert(row_full(b, s[i] as int));
    }
    assert(s.len() >= 1);
    if s.len() >= 2 {
        assert(s[0] < s[1]);
        assert(false);
    }
    assert(s =~= seq![k as isize]);
    assert(seq![k as isize].drop_first() =~= Seq::<isize>::empty());
    assert(s[0] == k as isize);
    assert(collapse_all(collapse_row(b, k), Seq::<isize>::empty()) == collapse_row(b, k));
    assert(collapse_all(b, s) == collapse_row(b, k));
    assert forall|x: int, y: int| 0 <= x < 10 && 0 <= y <= k implies (#[trigger] collapse_row(
        b,
        k,
    )[cell_index(x, y)]) == (if y == 0 {
        None
    } else {
        b[cell_index(x, y - 1)]
    }) by {
        lemma_cell_index(x, y);
    }
    assert forall|x: int, y: int| 0 <= x < 10 && k < y < 20 implies (#[trigger] collapse_row(
        b,
        k,
    )[cell_index(x, y)]) == b[cell_index(x, y)] by {
        lemma_cell_index(x, y);
    }
}

} // verus!
