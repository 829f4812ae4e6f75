//! The piece model: a catalog of seven tetromino shapes, each a 4x4 boolean
//! bitmap, and per-instance position and rotation. Rotation is a fixed index
//! permutation of the bitmap, not a geometric transform, so the four
//! quarter-turn formulas below are the exact definition of kick behaviour.

use vstd::prelude::*;

verus! {

/// Number of shapes in the catalog.
pub const SHAPE_COUNT: u8 = 7;

/// Horizontal size of the playing field, in cells.
pub const FIELD_WIDTH: usize = 10;

/// Vertical size of the playing field, in cells.
pub const FIELD_HEIGHT: usize = 20;

/// The seven piece colors, one per shape index.
#[derive(Clone, Copy, Debug, PartialEq, Eq, Structural)]
pub enum Color {
    Red,
    Orange,
    Yellow,
    Green,
    Blue,
    Purple,
    White,
}

/// One cell of the playing field: empty, or frozen with a piece's color.
#[derive(Clone, Copy, Debug, PartialEq, Eq, Structural)]
pub enum Cell {
    Empty,
    Full(Color),
}

impl Default for Cell {
    fn default() -> (r: Self)
        ensures
            r == Cell::Empty,
    {
        Cell::Empty
    }
}

/// The color the catalog assigns to each shape index.
pub open spec fn spec_color_of(shape_id: u8) -> Color {
    if shape_id == 0 {
        Color::Red
    } else if shape_id == 1 {
        Color::Orange
    } else if shape_id == 2 {
        Color::Yellow
    } else if shape_id == 3 {
        Color::Green
    } else if shape_id == 4 {
        Color::Blue
    } else if shape_id == 5 {
        Color::Purple
    } else {
        Color::White
    }
}

pub fn color_of(shape_id: u8) -> (r: Color)
    requires
        shape_id < SHAPE_COUNT,
    ensures
        r == spec_color_of(shape_id),
{
    match shape_id {
        0 => Color::Red,
        1 => Color::Orange,
        2 => Color::Yellow,
        3 => Color::Green,
        4 => Color::Blue,
        5 => Color::Purple,
        _ => Color::White,
    }
}

/// Which indices of the unrotated 4x4 bitmap (index = x + y*4) are filled,
/// per shape: square, bar, the two S pieces, the two L pieces, and the T.
pub open spec fn spec_shape_filled(shape_id: u8, i: int) -> bool {
    if shape_id == 0 {
        i == 5 || i == 6 || i == 9 || i == 10
    } else if shape_id == 1 {
        i == 2 || i == 6 || i == 10 || i == 14
    } else if shape_id == 2 {
        i == 1 || i == 5 || i == 6 || i == 10
    } else if shape_id == 3 {
        i == 2 || i == 5 || i == 6 || i == 9
    } else if shape_id == 4 {
        i == 1 || i == 5 || i == 9 || i == 10
    } else if shape_id == 5 {
        i == 2 || i == 6 || i == 9 || i == 10
    } else {
        i == 1 || i == 5 || i == 6 || i == 9
    }
}

fn shape_filled(shape_id: u8, i: usize) -> (r: bool)
    requires
        shape_id < SHAPE_COUNT,
        i < 16,
    ensures
        r == spec_shape_filled(shape_id, i as int),
{
    match shape_id {
        0 => i == 5 || i == 6 || i == 9 || i == 10,
        1 => i == 2 || i == 6 || i == 10 || i == 14,
        2 => i == 1 || i == 5 || i == 6 || i == 10,
        3 => i == 2 || i == 5 || i == 6 || i == 9,
        4 => i == 1 || i == 5 || i == 9 || i == 10,
        5 => i == 2 || i == 6 || i == 9 || i == 10,
        _ => i == 1 || i == 5 || i == 6 || i == 9,
    }
}

/// The quarter-turn index permutation: maps a rotated local cell (x, y) to
/// the index of the unrotated bitmap that is displayed there.
pub open spec fn spec_rot_index(rot: u8, x: int, y: int) -> int {
    if rot % 4 == 0 {
        x + y * 4
    } else if rot % 4 == 1 {
        (3 - y) + x * 4
    } else if rot % 4 == 2 {
        15 - (x + y * 4)
    } else {
        (3 - x) * 4 + y
    }
}

/// A falling piece: a catalog shape with a rotation and a field position.
/// `x` and `y` locate the top-left corner of the 4x4 bitmap on the field.
#[derive(Clone, Copy, Debug, PartialEq, Eq, Structural)]
pub struct Piece {
    pub shape_id: u8,
    pub rot: u8,
    pub x: i8,
    pub y: i8,
}

impl Piece {
    pub open spec fn wf(self) -> bool {
        self.shape_id < SHAPE_COUNT && self.rot < 4
    }

    /// Whether the rotated bitmap has a block at local cell (x, y).
    pub open spec fn spec_filled_at(self, x: int, y: int) -> bool {
        spec_shape_filled(self.shape_id, spec_rot_index(self.rot, x, y))
    }

    /// The spawn state of a shape: rotation 0, horizontally centered at the
    /// top of the field.
    pub open spec fn spec_new(shape_id: u8) -> Piece {
        Piece { shape_id, rot: 0, x: (FIELD_WIDTH / 2 - 2) as i8, y: 0 }
    }

    /// Constructs a piece at its spawn position. An index outside the
    /// catalog is a programming error and is excluded outright.
    pub fn new(index: usize) -> (r: Piece)
        requires
            index < SHAPE_COUNT,
        ensures
            r == Piece::spec_new(index as u8),
            r.wf(),
    {
        Piece { shape_id: index as u8, rot: 0, x: (FIELD_WIDTH / 2 - 2) as i8, y: 0 }
    }

    /// Whether the piece covers local cell (x, y) of its 4x4 bitmap, under
    /// its current rotation.
    pub fn filled_at(&self, x: usize, y: usize) -> (r: bool)
        requires
            self.wf(),
            x < 4,
            y < 4,
        ensures
            r == self.spec_filled_at(x as int, y as int),
    {
        let i: usize = match self.rot % 4 {
            0 => x + y * 4,
            1 => (3 - y) + x * 4,
            2 => 15 - (x + y * 4),
            _ => (3 - x) * 4 + y,
        };
        shape_filled(self.shape_id, i)
    }

    pub open spec fn spec_rotated_right(self) -> Piece {
        Piece { rot: ((self.rot + 1) % 4) as u8, ..self }
    }

    pub open spec fn spec_rotated_left(self) -> Piece {
        Piece { rot: if self.rot == 0 { 3 } else { (self.rot - 1) as u8 }, ..self }
    }

    /// The piece turned one quarter turn clockwise.
    pub fn rotated_right(&self) -> (r: Piece)
        requires
            self.wf(),
        ensures
            r == self.spec_rotated_right(),
            r.wf(),
    {
        Piece { rot: (self.rot + 1) % 4, ..*self }
    }

    /// The piece turned one quarter turn counterclockwise.
    pub fn rotated_left(&self) -> (r: Piece)
        requires
            self.wf(),
        ensures
            r == self.spec_rotated_left(),
            r.wf(),
    {
        Piece { rot: if self.rot == 0 { 3 } else { self.rot - 1 }, ..*self }
    }

    /// The color the catalog derives from the shape index.
    pub fn color(&self) -> (r: Color)
        requires
            self.wf(),
        ensures
            r == spec_color_of(self.shape_id),
    {
        color_of(self.shape_id)
    }
}

/// Law: one clockwise quarter turn moves the block seen at (x, y) to where
/// (3 - y, x) was seen before the turn — the rotation formulas really are
/// successive applications of one quarter-turn permutation.
pub proof fn lemma_quarter_turn(p: Piece, x: int, y: int)
    requires
        p.wf(),
        0 <= x < 4,
        0 <= y < 4,
    ensures
        p.spec_rotated_right().spec_filled_at(x, y) == p.spec_filled_at(3 - y, x),
{
}

/// Law: four quarter turns are a full turn — the rotated bitmap returns to
/// the original, so rotation is a group of order 4.
pub proof fn lemma_rotation_full_turn(p: Piece, x: int, y: int)
    requires
        p.wf(),
        0 <= x < 4,
        0 <= y < 4,
    ensures
        p.spec_rotated_right().spec_rotated_right().spec_rotated_right().spec_rotated_right()
            .spec_filled_at(x, y) == p.spec_filled_at(x, y),
        p.spec_rotated_right().spec_rotated_right().spec_rotated_right().spec_rotated_right()
            == p,
{
}

/// Law: turning left undoes turning right.
pub proof fn lemma_rotate_left_inverts_right(p: Piece)
    requires
        p.wf(),
    ensures
        p.spec_rotated_right().spec_rotated_left() == p,
        p.spec_rotated_left().spec_rotated_right() == p,
{
}

/// Every catalog shape has a block in every rotation; in particular the
/// unrotated bitmap always fills index 5 or index 6.
pub proof fn lemma_shape_nonempty(p: Piece) -> (w: (int, int))
    requires
        p.wf(),
    ensures
        0 <= w.0 < 4,
        0 <= w.1 < 4,
        p.spec_filled_at(w.0, w.1),
{
    if p.shape_id == 1 || p.shape_id == 5 {
        // index 6 is filled
        if p.rot == 0 {
            (2, 1)
        } else if p.rot == 1 {
            (1, 1)
        } else if p.rot == 2 {
            (1, 2)
        } else {
            (2, 2)
        }
    } else {
        // index 5 is filled
        if p.rot == 0 {
            (1, 1)
        } else if p.rot == 1 {
            (1, 2)
        } else if p.rot == 2 {
            (2, 2)
        } else {
            (2, 1)
        }
    }
}

} // verus!
