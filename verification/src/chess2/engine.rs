use vstd::prelude::*;
use super::moves::{
    best_move, best_move_data, board_grid, first_requested, infos_of, move_infos, pick_move, role_from_index,
    role_numbered, row_col_to_square, shows, side_from_index, square_of, status_message, status_text, targets,
    targets_upto, turn_message, turn_text, MoveData, MoveResult, PieceData, PieceRole, Side,
};
use super::position::{
    checkmate_of, insufficient_of, is_checkmate, is_insufficient_material, is_stalemate, legal_moves, legal_moves_of,
    piece_at, piece_on, playable, side_of, side_to_move, stalemate_of,
};

verus! {

/// The side with the crate's number `i` (black 0, white 1).
pub open spec fn side_numbered(i: u32) -> Side {
    if i == 1 { Side::White } else { Side::Black }
}

/// The piece with the crate's numbers for its kind and side, if any.
pub open spec fn piece_numbered(p: Option<(u32, u32)>) -> Option<(PieceRole, Side)> {
    match p {
        Some(q) => Some((role_numbered(q.0 as int), side_numbered(q.1))),
        None => None,
    }
}

/// The legal moves of the position reached by the moves `h`, in shakmaty's order, as
/// `MoveInfo`s.
pub open spec fn legal_infos(h: Seq<usize>) -> Seq<super::moves::MoveInfo> {
    infos_of(legal_moves_of(h))
}

/// A chess game whose rules are those of the shakmaty crate, kept as the moves played
/// from the standard starting position.
pub struct GameEngine {
    moves: Vec<usize>,
}

impl View for GameEngine {
    type V = Seq<usize>;

    /// The moves played so far, each as its index among the legal moves of the position
    /// it was played in.
    closed spec fn view(&self) -> Seq<usize> {
        self.moves@
    }
}

impl GameEngine {
    #[verifier::type_invariant]
    spec fn inv(self) -> bool {
        playable(self.moves@)
    }

    /// A game from the standard starting position.
    pub fn new() -> (e: GameEngine)
        ensures
            e@ == Seq::<usize>::empty(),
    {
        GameEngine { moves: Vec::new() }
    }

    /// The status line: a mate (won by the side not to move), a stalemate, a draw for lack
    /// of material, or "Active".
    pub fn get_status(&self) -> (res: String)
        ensures
            res@ == status_text(checkmate_of(self@), stalemate_of(self@), insufficient_of(self@), side_numbered(side_of(self@))),
    {
        proof {
            use_type_invariant(self);
        }
        let mate = is_checkmate(&self.moves);
        let stale = is_stalemate(&self.moves);
        let drawn = is_insufficient_material(&self.moves);
        let turn = side_from_index(side_to_move(&self.moves));
        status_message(mate, stale, drawn, turn)
    }

    /// The side to move as a quoted name.
    pub fn get_current_turn(&self) -> (res: String)
        ensures
            res@ == turn_text(side_numbered(side_of(self@))),
    {
        proof {
            use_type_invariant(self);
        }
        turn_message(side_from_index(side_to_move(&self.moves)))
    }

    /// The squares that the legal moves from (row, col) go to, in shakmaty's order.
    pub fn get_valid_moves(&self, row: usize, col: usize) -> (res: Vec<(usize, usize)>)
        requires
            row <= 7,
            square_of(row as int, (col as u32) as int) < 64,
        ensures
            res@ == targets_upto(legal_infos(self@), square_of(row as int, (col as u32) as int) as u32,
                legal_infos(self@).len() as int),
            forall|j: int| 0 <= j < res@.len() ==> (#[trigger] res@[j]).0 < 8 && res@[j].1 < 8,
    {
        proof {
            use_type_invariant(self);
        }
        let sq = row_col_to_square(row, col);
        let raws = legal_moves(&self.moves);
        let infos = move_infos(&raws);
        targets(&infos, sq)
    }

    /// Plays the first legal move from (fr, fc) to (tr, tc) that promotes to a queen if it
    /// promotes; says "OK" if there is one, else "Invalid move" and leaves the game as it was.
    pub fn move_piece(&mut self, fr: usize, fc: usize, tr: usize, tc: usize) -> (res: MoveResult)
        requires
            fr <= 7,
            tr <= 7,
            square_of(fr as int, (fc as u32) as int) < 64,
            square_of(tr as int, (tc as u32) as int) < 64,
        ensures
            ({
                let h = old(self)@;
                let moves = legal_infos(h);
                let pick = first_requested(moves, square_of(fr as int, (fc as u32) as int) as u32,
                    square_of(tr as int, (tc as u32) as int) as u32, moves.len() as int);
                &&& res.success <==> pick is Some
                &&& res.success ==> res.message@ == "OK"@ && final(self)@ == h.push(pick->Some_0 as usize)
                &&& !res.success ==> res.message@ == "Invalid move"@ && final(self)@ == h
            }),
    {
        broadcast use vstd::string::to_string_from_display_ensures_for_str;
        proof {
            use_type_invariant(&*self);
        }
        let from_sq = row_col_to_square(fr, fc);
        let to_sq = row_col_to_square(tr, tc);
        let raws = legal_moves(&self.moves);
        let infos = move_infos(&raws);
        match pick_move(&infos, from_sq, to_sq) {
            Some(i) => {
                let mut h: Vec<usize> = Vec::new();
                std::mem::swap(&mut h, &mut self.moves);
                let ghost before = h@;
                h.push(i);
                proof {
                    assert(h@.drop_last() =~= before);
                }
                self.moves = h;
                MoveResult { success: true, message: "OK".to_string() }
            },
            None => MoveResult { success: false, message: "Invalid move".to_string() },
        }
    }

    /// The board as eight rows of eight squares, row 0 being the eighth rank.
    pub fn get_board_state(&self) -> (grid: Vec<Vec<Option<PieceData>>>)
        ensures
            grid@.len() == 8,
            forall|r: int| 0 <= r < 8 ==> (#[trigger] grid@[r])@.len() == 8,
            forall|r: int, c: int| 0 <= r < 8 && 0 <= c < 8
                ==> shows(#[trigger] grid@[r]@[c], piece_numbered(piece_at(self@, square_of(r, c)))),
    {
        proof {
            use_type_invariant(self);
        }
        let mut pieces: Vec<Option<(PieceRole, Side)>> = Vec::new();
        let mut sq: u32 = 0;
        while sq < 64
            invariant
                sq <= 64,
                playable(self.moves@),
                pieces@.len() == sq,
                forall|k: int| 0 <= k < sq ==> #[trigger] pieces@[k] == piece_numbered(piece_at(self.moves@, k)),
            decreases 64 - sq,
        {
            let p = match piece_on(&self.moves, sq) {
                Some((role, side)) => Some((role_from_index(role), side_from_index(side))),
                None => None,
            };
            pieces.push(p);
            sq += 1;
        }
        board_grid(&pieces)
    }

    /// A move for the side to move: the first capture among the legal moves in shakmaty's
    /// order, else the first legal move; none when there is no legal move or it is a drop.
    pub fn get_best_move(&mut self, _depth: i32) -> (res: Option<MoveData>)
        ensures
            final(self)@ == old(self)@,
            res == best_move_data(legal_infos(old(self)@)),
    {
        proof {
            use_type_invariant(&*self);
        }
        let raws = legal_moves(&self.moves);
        let infos = move_infos(&raws);
        best_move(&infos)
    }
}

} // verus!
