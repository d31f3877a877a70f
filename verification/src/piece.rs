use crate::tile::TileColor;
use vstd::prelude::*;

verus! {

/// The seven piece kinds.
#[derive(Clone, Copy, Debug, PartialEq, Eq, Structural)]
pub enum PieceClass {
    I,
    O,
    T,
    S,
    Z,
    J,
    L,
}

/// Where a freshly generated piece sits, in the preview area left of the board.
pub const PREVIEW_X: isize = -8;
/// Preview area row.
pub const PREVIEW_Y: isize = 3;
/// The fixed spawn anchor column on the board.
pub const SPAWN_X: isize = 4;
/// The fixed spawn anchor row on the board.
pub const SPAWN_Y: isize = 1;

/// The offsets an "even" piece (I, O) may use on either axis: such pieces
/// pivot about a half-cell center, encoded by doubled odd offsets.
pub open spec fn even_offset(v: int) -> bool {
    v == -3 || v == -1 || v == 1 || v == 3
}

/// Maps an even piece's half-cell x-offset onto the compact cell range
/// occupied on the board; the identity for odd pieces.
pub open spec fn conv_even_x(x: int, even: bool) -> int {
    if even {
        if x == -3 {
            -1
        } else if x == -1 {
            0
        } else if x == 1 {
            1
        } else {
            2
        }
    } else {
        x
    }
}

/// Maps an even piece's half-cell y-offset onto the compact cell range
/// occupied on the board; the identity for odd pieces.
pub open spec fn conv_even_y(y: int, even: bool) -> int {
    if even {
        if y == -3 {
            -2
        } else if y == -1 {
            -1
        } else if y == 1 {
            0
        } else {
            1
        }
    } else {
        y
    }
}

pub fn convert_even_x(x: isize, even: bool) -> (r: isize)
    requires
        even ==> even_offset(x as int),
    ensures
        r as int == conv_even_x(x as int, even),
{
    if even {
        if x == -3 {
            -1
        } else if x == -1 {
            0
        } else if x == 1 {
            1
        } else {
            2
        }
    } else {
        x
    }
}

pub fn convert_even_y(y: isize, even: bool) -> (r: isize)
    requires
        even ==> even_offset(y as int),
    ensures
        r as int == conv_even_y(y as int, even),
{
    if even {
        if y == -3 {
            -2
        } else if y == -1 {
            -1
        } else if y == 1 {
            0
        } else {
            1
        }
    } else {
        y
    }
}

/// Absolute cell coordinates: the anchor plus the parity-adjusted offset.
pub fn sum_offsets(position: (isize, isize), offset: (isize, isize), even: bool) -> (r: (
    isize,
    isize,
))
    requires
        even ==> even_offset(offset.0 as int) && even_offset(offset.1 as int),
        isize::MIN <= position.0 + conv_even_x(offset.0 as int, even) <= isize::MAX,
        isize::MIN <= position.1 + conv_even_y(offset.1 as int, even) <= isize::MAX,
    ensures
        r.0 as int == position.0 + conv_even_x(offset.0 as int, even),
        r.1 as int == position.1 + conv_even_y(offset.1 as int, even),
{
    (position.0 + convert_even_x(offset.0, even), position.1 + convert_even_y(offset.1, even))
}

/// The mathematical model of a piece: four relative offsets, an anchor
/// position, the rotation-center parity, a color, and the renderer-sync flag.
#[verifier::ext_equal]
pub struct PieceView {
    pub offsets: Seq<(int, int)>,
    pub position: (int, int),
    pub even: bool,
    pub color: TileColor,
    pub modified: bool,
}

impl PieceView {
    /// Well-formed: exactly four offsets, each within the range its parity
    /// class allows; the range is closed under 90-degree rotation.
    pub open spec fn wf(self) -> bool {
        &&& self.offsets.len() == 4
        &&& forall|i: int|
            0 <= i < 4 ==> if self.even {
                even_offset(#[trigger] self.offsets[i].0) && even_offset(self.offsets[i].1)
            } else {
                -1 <= self.offsets[i].0 <= 1 && -1 <= self.offsets[i].1 <= 1
            }
    }

    /// The absolute board coordinates of the piece's `i`-th cell.
    pub open spec fn cell(self, i: int) -> (int, int) {
        (
            self.position.0 + conv_even_x(self.offsets[i].0, self.even),
            self.position.1 + conv_even_y(self.offsets[i].1, self.even),
        )
    }

    /// The anchor is far enough from the isize limits that cell coordinates
    /// cannot overflow (the adjusted offsets lie within [-2, 2]).
    pub open spec fn pos_safe(self) -> bool {
        &&& isize::MIN + 3 <= self.position.0 <= isize::MAX - 3
        &&& isize::MIN + 3 <= self.position.1 <= isize::MAX - 3
    }

    /// The smallest row index among the four cells: the topmost occupied row,
    /// which scales the post-lock entry delay.
    pub open spec fn min_row(self) -> int {
        let y0 = self.cell(0).1;
        let y1 = self.cell(1).1;
        let y2 = self.cell(2).1;
        let y3 = self.cell(3).1;
        let m1 = if y1 < y0 {
            y1
        } else {
            y0
        };
        let m2 = if y2 < m1 {
            y2
        } else {
            m1
        };
        if y3 < m2 {
            y3
        } else {
            m2
        }
    }
}

/// The catalog: each kind's four relative cell offsets.
pub open spec fn class_offsets(class: PieceClass) -> Seq<(int, int)> {
    match class {
        PieceClass::I => seq![(-3, -1), (-1, -1), (1, -1), (3, -1)],
        PieceClass::O => seq![(-1, -1), (1, -1), (-1, 1), (1, 1)],
        PieceClass::T => seq![(-1, 0), (0, 0), (1, 0), (0, -1)],
        PieceClass::S => seq![(-1, 0), (0, 0), (0, -1), (1, -1)],
        PieceClass::Z => seq![(-1, -1), (0, -1), (0, 0), (1, 0)],
        PieceClass::J => seq![(-1, -1), (-1, 0), (0, 0), (1, 0)],
        PieceClass::L => seq![(-1, 0), (0, 0), (1, 0), (1, -1)],
    }
}

/// Which kinds pivot between half-cells.
pub open spec fn class_even(class: PieceClass) -> bool {
    class is I || class is O
}

/// Each kind's fixed color.
pub open spec fn class_color(class: PieceClass) -> TileColor {
    match class {
        PieceClass::I => TileColor::Cyan,
        PieceClass::O => TileColor::Blue,
        PieceClass::T => TileColor::Orange,
        PieceClass::S => TileColor::Yellow,
        PieceClass::Z => TileColor::Green,
        PieceClass::J => TileColor::Purple,
        PieceClass::L => TileColor::Red,
    }
}

/// A freshly generated piece of the given kind, sitting in the preview area.
pub open spec fn fresh_piece(class: PieceClass) -> PieceView {
    PieceView {
        offsets: class_offsets(class),
        position: (PREVIEW_X as int, PREVIEW_Y as int),
        even: class_even(class),
        color: class_color(class),
        modified: false,
    }
}

/// The model of a counterclockwise 90-degree rotation: (x, y) -> (-y, x).
pub open spec fn rotate_left_view(p: PieceView) -> PieceView {
    PieceView {
        offsets: Seq::new(4, |i: int| (-p.offsets[i].1, p.offsets[i].0)),
        modified: true,
        ..p
    }
}

/// The model of a clockwise 90-degree rotation: (x, y) -> (y, -x).
pub open spec fn rotate_right_view(p: PieceView) -> PieceView {
    PieceView {
        offsets: Seq::new(4, |i: int| (p.offsets[i].1, -p.offsets[i].0)),
        modified: true,
        ..p
    }
}

/// The model of a 180-degree rotation: every offset is negated.
pub open spec fn rotate_180_view(p: PieceView) -> PieceView {
    PieceView {
        offsets: Seq::new(4, |i: int| (-p.offsets[i].0, -p.offsets[i].1)),
        modified: true,
        ..p
    }
}

pub open spec fn move_left_view(p: PieceView) -> PieceView {
    PieceView { position: (p.position.0 - 1, p.position.1), modified: true, ..p }
}

pub open spec fn move_right_view(p: PieceView) -> PieceView {
    PieceView { position: (p.position.0 + 1, p.position.1), modified: true, ..p }
}

pub open spec fn move_down_view(p: PieceView) -> PieceView {
    PieceView { position: (p.position.0, p.position.1 + 1), modified: true, ..p }
}

pub open spec fn move_up_view(p: PieceView) -> PieceView {
    PieceView { position: (p.position.0, p.position.1 - 1), modified: true, ..p }
}

/// Law: rotating twice by 90 degrees in the same direction, either direction,
/// is the 180-degree rotation, and a rotation one way then the other restores
/// the piece (the flag for renderer resync remains set either way).
pub proof fn lemma_double_rotation(p: PieceView)
    requires
        p.wf(),
    ensures
        rotate_left_view(rotate_left_view(p)) == rotate_180_view(p),
        rotate_right_view(rotate_right_view(p)) == rotate_180_view(p),
        rotate_right_view(rotate_left_view(p)) == (PieceView { modified: true, ..p }),
        rotate_left_view(rotate_right_view(p)) == (PieceView { modified: true, ..p }),
{
    assert(rotate_left_view(rotate_left_view(p)).offsets =~= rotate_180_view(p).offsets);
    assert(rotate_right_view(rotate_right_view(p)).offsets =~= rotate_180_view(p).offsets);
    assert(rotate_right_view(rotate_left_view(p)).offsets =~= p.offsets);
    assert(rotate_left_view(rotate_right_view(p)).offsets =~= p.offsets);
}

/// A well-formed piece's offsets stay in their parity class's range, so the
/// parity-adjusted offsets lie within [-2, 2] on both axes.
pub proof fn lemma_offset_bounds(p: PieceView, i: int)
    requires
        p.wf(),
        0 <= i < 4,
    ensures
        p.even ==> even_offset(p.offsets[i].0) && even_offset(p.offsets[i].1),
        !p.even ==> -1 <= p.offsets[i].0 <= 1 && -1 <= p.offsets[i].1 <= 1,
        -2 <= conv_even_x(p.offsets[i].0, p.even) <= 2,
        -2 <= conv_even_y(p.offsets[i].1, p.even) <= 2,
{
}

/// Rotation preserves well-formedness: both offset ranges are closed under
/// negation and coordinate swap.
pub proof fn lemma_rotation_wf(p: PieceView)
    requires
        p.wf(),
    ensures
        rotate_left_view(p).wf(),
        rotate_right_view(p).wf(),
{
}

/// A movable and rotatable group of four cells on the board.
pub struct Piece {
    pub offsets: [(isize, isize); 4],
    pub position: (isize, isize),
    pub even: bool,
    pub color: TileColor,
    pub modified: bool,
}

impl View for Piece {
    type V = PieceView;

    open spec fn view(&self) -> PieceView {
        PieceView {
            offsets: Seq::new(4, |i: int| (self.offsets@[i].0 as int, self.offsets@[i].1 as int)),
            position: (self.position.0 as int, self.position.1 as int),
            even: self.even,
            color: self.color,
            modified: self.modified,
        }
    }
}

impl Piece {
    /// A fresh piece of the given kind, positioned in the preview area.
    pub fn new(class: PieceClass) -> (p: Piece)
        ensures
            p@ == fresh_piece(class),
            p@.wf(),
            p@.pos_safe(),
    {
        let (offsets, even, color): ([(isize, isize); 4], bool, TileColor) = match class {
            PieceClass::I => ([(-3, -1), (-1, -1), (1, -1), (3, -1)], true, TileColor::Cyan),
            PieceClass::O => ([(-1, -1), (1, -1), (-1, 1), (1, 1)], true, TileColor::Blue),
            PieceClass::T => ([(-1, 0), (0, 0), (1, 0), (0, -1)], false, TileColor::Orange),
            PieceClass::S => ([(-1, 0), (0, 0), (0, -1), (1, -1)], false, TileColor::Yellow),
            PieceClass::Z => ([(-1, -1), (0, -1), (0, 0), (1, 0)], false, TileColor::Green),
            PieceClass::J => ([(-1, -1), (-1, 0), (0, 0), (1, 0)], false, TileColor::Purple),
            PieceClass::L => ([(-1, 0), (0, 0), (1, 0), (1, -1)], false, TileColor::Red),
        };
        let p = Piece { offsets, position: (PREVIEW_X, PREVIEW_Y), even, color, modified: false };
        proof {
            assert(p@.offsets =~= class_offsets(class));
        }
        p
    }

    /// The absolute coordinates of one of the four cells.
    pub fn get_tile_position(&self, tile: usize) -> (r: (isize, isize))
        requires
            tile < 4,
            self@.wf(),
            self@.pos_safe(),
        ensures
            (r.0 as int, r.1 as int) == self@.cell(tile as int),
    {
        proof {
            lemma_offset_bounds(self@, tile as int);
        }
        sum_offsets(self.position, self.offsets[tile], self.even)
    }

    /// Moves the piece to the fixed spawn anchor on the board.
    pub fn set_start_position(&mut self)
        ensures
            final(self)@ == (PieceView {
                position: (SPAWN_X as int, SPAWN_Y as int),
                modified: true,
                ..old(self)@
            }),
    {
        self.position = (SPAWN_X, SPAWN_Y);
        self.modified = true;
    }

    /// Rotates the offsets 90 degrees counterclockwise in place.
    #[verifier::loop_isolation(false)]
    pub fn rotate_left(&mut self)
        requires
            old(self)@.wf(),
        ensures
            final(self)@ == rotate_left_view(old(self)@),
            final(self)@.wf(),
    {
        self.modified = true;
        let mut i: usize = 0;
        while i < 4
            invariant
                i <= 4,
                forall|j: int|
                    0 <= j < i ==> self@.offsets[j] == ((
                    -(#[trigger] old(self)@.offsets[j]).1,
                    old(self)@.offsets[j].0,
                )),
                forall|j: int| i <= j < 4 ==> self.offsets@[j as int] == old(self).offsets@[j],
                self.position == old(self).position,
                self.even == old(self).even,
                self.color == old(self).color,
                self.modified,
            decreases 4 - i,
        {
            proof {
                lemma_offset_bounds(old(self)@, i as int);
                assert(self@.offsets[i as int] == old(self)@.offsets[i as int]);
            }
            let old_x = self.offsets[i].0;
            let new_x = -self.offsets[i].1;
            self.offsets[i] = (new_x, old_x);
            proof {
                assert(self@.offsets[i as int] == (new_x as int, old_x as int));
            }
            i = i + 1;
        }
        proof {
            assert(final(self)@ =~= rotate_left_view(old(self)@));
            lemma_rotation_wf(old(self)@);
        }
    }

    /// Rotates the offsets 90 degrees clockwise in place.
    #[verifier::loop_isolation(false)]
    pub fn rotate_right(&mut self)
        requires
            old(self)@.wf(),
        ensures
            final(self)@ == rotate_right_view(old(self)@),
            final(self)@.wf(),
    {
        self.modified = true;
        let mut i: usize = 0;
        while i < 4
            invariant
                i <= 4,
                forall|j: int|
                    0 <= j < i ==> self@.offsets[j] == ((
                    (#[trigger] old(self)@.offsets[j]).1,
                    -old(self)@.offsets[j].0,
                )),
                forall|j: int| i <= j < 4 ==> self.offsets@[j as int] == old(self).offsets@[j],
                self.position == old(self).position,
                self.even == old(self).even,
                self.color == old(self).color,
                self.modified,
            decreases 4 - i,
        {
            proof {
                lemma_offset_bounds(old(self)@, i as int);
                assert(self@.offsets[i as int] == old(self)@.offsets[i as int]);
            }
            let old_x = self.offsets[i].0;
            let new_y = -old_x;
            self.offsets[i] = (self.offsets[i].1, new_y);
            i = i + 1;
        }
        proof {
            assert(final(self)@ =~= rotate_right_view(old(self)@));
            lemma_rotation_wf(old(self)@);
        }
    }

    pub fn move_left(&mut self)
        requires
            old(self).position.0 > isize::MIN,
        ensures
            final(self)@ == move_left_view(old(self)@),
    {
        self.modified = true;
        self.position.0 = self.position.0 - 1;
    }

    pub fn move_right(&mut self)
        requires
            old(self).position.0 < isize::MAX,
        ensures
            final(self)@ == move_right_view(old(self)@),
    {
        self.modified = true;
        self.position.0 = self.position.0 + 1;
    }

    pub fn move_down(&mut self)
        requires
            old(self).position.1 < isize::MAX,
        ensures
            final(self)@ == move_down_view(old(self)@),
    {
        self.modified = true;
        self.position.1 = self.position.1 + 1;
    }

    pub fn move_up(&mut self)
        requires
            old(self).position.1 > isize::MIN,
        ensures
            final(self)@ == move_up_view(old(self)@),
    {
        self.modified = true;
        self.position.1 = self.position.1 - 1;
    }

    /// Consumes the piece, yielding its four absolute cells with their color,
    /// ready to be merged into the board.
    pub fn finalize(self) -> (r: [(isize, isize, TileColor); 4])
        requires
            self@.wf(),
            self@.pos_safe(),
        ensures
            forall|i: int|
                0 <= i < 4 ==> ((#[trigger] r@[i]).0 as int, r@[i].1 as int) == self@.cell(i)
                    && r@[i].2 == self@.color,
    {
        proof {
            lemma_offset_bounds(self@, 0);
            lemma_offset_bounds(self@, 1);
            lemma_offset_bounds(self@, 2);
            lemma_offset_bounds(self@, 3);
        }
        let c0 = sum_offsets(self.position, self.offsets[0], self.even);
        let c1 = sum_offsets(self.position, self.offsets[1], self.even);
        let c2 = sum_offsets(self.position, self.offsets[2], self.even);
        let c3 = sum_offsets(self.position, self.offsets[3], self.even);
        [
            (c0.0, c0.1, self.color),
            (c1.0, c1.1, self.color),
            (c2.0, c2.1, self.color),
            (c3.0, c3.1, self.color),
        ]
    }
}

} // verus!
