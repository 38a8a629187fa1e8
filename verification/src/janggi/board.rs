use vstd::prelude::*;

verus! {

/// The two sides of a janggi game; Cho moves first.
#[derive(Copy, Clone, Debug, PartialEq, Eq, Structural)]
pub enum Color {
    Cho,
    Han,
}

/// The seven kinds of janggi pieces.
#[derive(Copy, Clone, Debug, PartialEq, Eq, Structural)]
pub enum PieceType {
    General,
    Advisor,
    Elephant,
    Horse,
    Chariot,
    Cannon,
    Soldier,
}

/// A piece on the board; `has_moved` records whether it has left its square.
#[derive(Copy, Clone, Debug, PartialEq, Eq, Structural)]
pub struct Piece {
    pub piece_type: PieceType,
    pub color: Color,
    pub has_moved: bool,
}

impl Piece {
    /// A piece of the given type and color that has not moved yet.
    pub fn new(piece_type: PieceType, color: Color) -> (p: Self)
        ensures
            p.piece_type == piece_type,
            p.color == color,
            !p.has_moved,
    {
        Piece { piece_type, color, has_moved: false }
    }
}

pub type Square = Option<Piece>;

/// Ten rows of nine points; row 0 is Han's back rank, row 9 Cho's.
pub type BoardGrid = [[Square; 9]; 10];

pub open spec fn grid_set(b: BoardGrid, r: int, c: int, v: Square) -> BoardGrid {
    vstd::array::spec_array_update(b, r, vstd::array::spec_array_update(b[r], c, v))
}

} // verus!
