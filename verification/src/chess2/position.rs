use vstd::prelude::*;
use shakmaty::{Chess, Position};

verus! {

/// A legal move of a position as the crate reports it: the index of the square it starts
/// from (none for a drop), the index of the square it goes to (a1 is 0, h8 is 63), the
/// crate's number for the piece a pawn becomes (pawn 1 to king 6), and whether it takes a
/// piece.
pub type RawMove = (Option<u32>, u32, Option<u32>, bool);

// A game is kept as the list of the moves played from the standard starting position,
// each given by its index among the legal moves, in shakmaty's order, of the position
// it was played in.  Below, "the position of `h`" is the position that playing them, one
// after another, reaches.

/// The legal moves of the position of `h`, in the order in which shakmaty generates them.
pub uninterp spec fn legal_moves_of(h: Seq<usize>) -> Seq<RawMove>;

/// The crate's number for the side to move in the position of `h` (black 0, white 1).
pub uninterp spec fn side_of(h: Seq<usize>) -> u32;

/// Whether the side to move in the position of `h` is mated.
pub uninterp spec fn checkmate_of(h: Seq<usize>) -> bool;

/// Whether the side to move in the position of `h` is stalemated.
pub uninterp spec fn stalemate_of(h: Seq<usize>) -> bool;

/// Whether neither side has enough material to mate in the position of `h`.
pub uninterp spec fn insufficient_of(h: Seq<usize>) -> bool;

/// The piece on the square with index `sq` in the position of `h`, as the crate's numbers
/// for its kind and side.
pub uninterp spec fn piece_at(h: Seq<usize>, sq: int) -> Option<(u32, u32)>;

/// Every index of `h` names a legal move of the position it is played in.
pub open spec fn playable(h: Seq<usize>) -> bool
    decreases h.len(),
{
    h.len() == 0 || (playable(h.drop_last()) && (h.last() as int) < legal_moves_of(h.drop_last()).len())
}

/// `Position::legal_moves` of the position of `h` (reached from `Chess::default()` by
/// `Position::play_unchecked` of its moves), each move given by `Move::from`, `Move::to`,
/// `Move::promotion` and `Move::is_capture`.  Squares are the indices 0 to 63 and piece
/// kinds the numbers 1 to 6.  `legal_moves` panics when the side to move has no king; a
/// position reached from the start by legal moves has both, since a legal move never
/// leaves its own king attacked and so no king is ever taken.
#[verifier::external_body]
pub(crate) fn legal_moves(h: &Vec<usize>) -> (moves: Vec<RawMove>)
    requires
        playable(h@),
    ensures
        moves@ == legal_moves_of(h@),
        forall|j: int| 0 <= j < moves@.len() ==> {
            let m = #[trigger] moves@[j];
            &&& (m.0 matches Some(f) ==> f < 64)
            &&& m.1 < 64
            &&& (m.2 matches Some(r) ==> 1 <= r <= 6)
        },
{
    let mut g = Chess::default();
    for &i in h.iter() {
        let m = g.legal_moves()[i].clone();
        g.play_unchecked(&m);
    }
    let mut moves = Vec::new();
    for m in g.legal_moves() {
        moves.push((m.from().map(u32::from), u32::from(m.to()), m.promotion().map(u32::from), m.is_capture()));
    }
    moves
}

/// `Position::turn` of the position of `h`, as the crate's number for the side (black 0,
/// white 1).
#[verifier::external_body]
pub(crate) fn side_to_move(h: &Vec<usize>) -> (side: u32)
    requires
        playable(h@),
    ensures
        side == side_of(h@),
        side <= 1,
{
    let mut g = Chess::default();
    for &i in h.iter() {
        let m = g.legal_moves()[i].clone();
        g.play_unchecked(&m);
    }
    u32::from(g.turn())
}

/// `Position::is_checkmate` of the position of `h`.
#[verifier::external_body]
pub(crate) fn is_checkmate(h: &Vec<usize>) -> (mate: bool)
    requires
        playable(h@),
    ensures
        mate == checkmate_of(h@),
{
    let mut g = Chess::default();
    for &i in h.iter() {
        let m = g.legal_moves()[i].clone();
        g.play_unchecked(&m);
    }
    g.is_checkmate()
}

/// `Position::is_stalemate` of the position of `h`; it generates the legal moves, so it
/// too needs the king of the side to move.
#[verifier::external_body]
pub(crate) fn is_stalemate(h: &Vec<usize>) -> (stale: bool)
    requires
        playable(h@),
    ensures
        stale == stalemate_of(h@),
{
    let mut g = Chess::default();
    for &i in h.iter() {
        let m = g.legal_moves()[i].clone();
        g.play_unchecked(&m);
    }
    g.is_stalemate()
}

/// `Position::is_insufficient_material` of the position of `h`.
#[verifier::external_body]
pub(crate) fn is_insufficient_material(h: &Vec<usize>) -> (drawn: bool)
    requires
        playable(h@),
    ensures
        drawn == insufficient_of(h@),
{
    let mut g = Chess::default();
    for &i in h.iter() {
        let m = g.legal_moves()[i].clone();
        g.play_unchecked(&m);
    }
    g.is_insufficient_material()
}

/// `Board::piece_at` on the board of the position of `h`, at the square with index `sq`
/// (`Square::new` panics past 63), as the crate's numbers for the piece's kind (1 to 6)
/// and side (0 or 1).
#[verifier::external_body]
pub(crate) fn piece_on(h: &Vec<usize>, sq: u32) -> (piece: Option<(u32, u32)>)
    requires
        playable(h@),
        sq < 64,
    ensures
        piece == piece_at(h@, sq as int),
        piece matches Some(p) ==> 1 <= p.0 <= 6 && p.1 <= 1,
{
    let mut g = Chess::default();
    for &i in h.iter() {
        let m = g.legal_moves()[i].clone();
        g.play_unchecked(&m);
    }
    match g.board().piece_at(shakmaty::Square::new(sq)) {
        Some(p) => Some((u32::from(p.role), u32::from(p.color))),
        None => None,
    }
}

} // verus!
