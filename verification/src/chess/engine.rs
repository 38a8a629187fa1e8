use vstd::prelude::*;
use super::board::{BoardGrid, Color, PieceType};
use super::model::{
    attacked, attacker_at, attacks, initial_square, first_king_col, has_king, in_check, is_king_of, king_pos,
    king_scan, lemma_king_pos, legal, moved, on_board, opponent, path_clear, ray_empty,
    valid_move, valid_targets, would_check,
};
use super::rules::{apply_move, spec_status, status_text, GameState};

verus! {

/// The answer to a move request: whether it was played, and why not if it was not.
pub struct MoveResponse {
    pub success: bool,
    pub message: String,
}

/// At most one king of `color` stands on the board.
pub open spec fn unique_king(b: BoardGrid, color: Color) -> bool {
    forall|r1: int, c1: int, r2: int, c2: int|
        on_board(r1, c1) && on_board(r2, c2) && #[trigger] is_king_of(b[r1][c1], color)
            && #[trigger] is_king_of(b[r2][c2], color) ==> r1 == r2 && c1 == c2
}

/// What holds of every position reached by play from the start: each side has exactly
/// one king, and the king of the side that just moved is not attacked.
pub open spec fn engine_ok(s: GameState) -> bool {
    &&& has_king(s.board, Color::White)
    &&& has_king(s.board, Color::Black)
    &&& unique_king(s.board, Color::White)
    &&& unique_king(s.board, Color::Black)
    &&& !in_check(s.board, opponent(s.current_turn))
}

/// Two boards with the same occupancy, piece kinds and colors on every square.
pub open spec fn same_shape(b1: BoardGrid, b2: BoardGrid) -> bool {
    forall|r: int, c: int| on_board(r, c) ==> {
        &&& (#[trigger] b1[r][c]).is_some() == b2[r][c].is_some()
        &&& b1[r][c] is Some ==> b1[r][c]->Some_0.piece_type == b2[r][c]->Some_0.piece_type
            && b1[r][c]->Some_0.color == b2[r][c]->Some_0.color
    }
}

proof fn lemma_first_col_same(b1: BoardGrid, b2: BoardGrid, color: Color, r: int, c: int)
    requires
        0 <= r < 8,
        same_shape(b1, b2),
    ensures
        first_king_col(b1, color, r, c) == first_king_col(b2, color, r, c),
    decreases 8 - c,
{
    if 0 <= c < 8 {
        assert(is_king_of(b1[r][c], color) == is_king_of(b2[r][c], color));
        lemma_first_col_same(b1, b2, color, r, c + 1);
    }
}

proof fn lemma_scan_same(b1: BoardGrid, b2: BoardGrid, color: Color, rows: int)
    requires
        rows <= 8,
        same_shape(b1, b2),
    ensures
        king_scan(b1, color, rows) == king_scan(b2, color, rows),
    decreases rows,
{
    if rows > 0 {
        lemma_first_col_same(b1, b2, color, rows - 1, 0);
        lemma_scan_same(b1, b2, color, rows - 1);
    }
}

/// Whether a king is in check depends only on the shape of the board.
proof fn lemma_in_check_same(b1: BoardGrid, b2: BoardGrid, color: Color)
    requires
        same_shape(b1, b2),
    ensures
        in_check(b1, color) == in_check(b2, color),
{
    lemma_king_pos(b1, color);
    lemma_scan_same(b1, b2, color, 8);
    if let Some(k) = king_pos(b1, color) {
        assert forall|r: int, c: int|
            #![trigger attacker_at(b1, color, k.0, k.1, r, c)]
            #![trigger attacker_at(b2, color, k.0, k.1, r, c)]
            on_board(r, c) implies attacker_at(b1, color, k.0, k.1, r, c) == attacker_at(b2, color, k.0, k.1, r, c) by {
            if b1[r][c] is Some {
                let p1 = b1[r][c]->Some_0;
                let p2 = b2[r][c]->Some_0;
                if super::model::aligned(r, c, k.0, k.1) {
                assert(path_clear(b1, r, c, k.0, k.1) == path_clear(b2, r, c, k.0, k.1)) by {
                    assert forall|j: int|
                        #![trigger ray_empty(b1, r, c, k.0, k.1, j)]
                        #![trigger ray_empty(b2, r, c, k.0, k.1, j)]
                        0 < j < super::model::line_len(r, c, k.0, k.1) implies
                        ray_empty(b1, r, c, k.0, k.1, j) == ray_empty(b2, r, c, k.0, k.1, j) by {
                        let rr = super::model::step(r, super::model::sign(k.0 - r), j);
                        let cc = super::model::step(c, super::model::sign(k.1 - c), j);
                        assert(on_board(rr, cc));
                        assert(b1[rr][cc].is_some() == b2[rr][cc].is_some());
                    }
                }
                }
                assert(attacks(b1, p1, r, c, k.0, k.1) == attacks(b2, p2, r, c, k.0, k.1));
            }
        }
        assert(attacked(b1, color, k.0, k.1) == attacked(b2, color, k.0, k.1));
    }
}

/// A pseudo-legal move onto an occupied square is an attack on that square.
proof fn lemma_capture_attacks(b: BoardGrid, turn: Color, fr: int, fc: int, tr: int, tc: int)
    requires
        on_board(fr, fc),
        on_board(tr, tc),
        valid_move(b, turn, fr, fc, tr, tc),
        b[tr][tc] is Some,
    ensures
        attacks(b, b[fr][fc]->Some_0, fr, fc, tr, tc),
{
}

/// Every legal move keeps the invariant of positions reached by play.
pub proof fn lemma_engine_step(s: GameState, fr: int, fc: int, tr: int, tc: int)
    requires
        engine_ok(s),
        on_board(fr, fc),
        on_board(tr, tc),
        legal(s.board, s.current_turn, fr, fc, tr, tc),
    ensures
        engine_ok(apply_move(s, fr, fc, tr, tc)),
{
    let b = s.board;
    let x = s.current_turn;
    let y = opponent(x);
    let p = b[fr][fc]->Some_0;
    let n = apply_move(s, fr, fc, tr, tc);
    let nb = n.board;
    let t = moved(b, fr, fc, tr, tc);
    lemma_king_pos(b, y);
    // The target is not the opponent's king: that king is not attacked.
    if is_king_of(b[tr][tc], y) {
        let k = king_pos(b, y)->Some_0;
        assert(k == (tr, tc));
        lemma_capture_attacks(b, x, fr, fc, tr, tc);
        assert(attacker_at(b, y, tr, tc, fr, fc));
        assert(attacked(b, y, tr, tc));
        assert(false);
    }
    assert(!is_king_of(b[tr][tc], x));
    assert forall|r: int, c: int| on_board(r, c) implies {
        &&& (#[trigger] nb[r][c]) == (if r == fr && c == fc { None } else if r == tr && c == tc {
            Some(super::board::Piece { has_moved: true, ..p })
        } else {
            b[r][c]
        })
        &&& t[r][c] == (if r == fr && c == fc { None } else if r == tr && c == tc { b[fr][fc] } else { b[r][c] })
    } by {}
    assert(same_shape(nb, t));
    // Each side keeps exactly one king.
    assert forall|col: Color, r: int, c: int| on_board(r, c) implies
        (#[trigger] is_king_of(nb[r][c], col)) == (if r == fr && c == fc { false } else if r == tr && c == tc {
            is_king_of(b[fr][fc], col)
        } else {
            is_king_of(b[r][c], col)
        }) by {}
    let (xr, xc) = choose|r: int, c: int| on_board(r, c) && #[trigger] is_king_of(b[r][c], x);
    if xr == fr && xc == fc {
        assert(is_king_of(nb[tr][tc], x));
    } else {
        assert(is_king_of(nb[xr][xc], x));
    }
    let (yr, yc) = choose|r: int, c: int| on_board(r, c) && #[trigger] is_king_of(b[r][c], y);
    assert(is_king_of(nb[yr][yc], y));
    // The mover's king is safe after the move.
    lemma_in_check_same(nb, t, x);
    assert(!in_check(t, x));
}

/// A legal move never leaves the mover's king in check.
pub proof fn lemma_move_leaves_king_safe(s: GameState, fr: int, fc: int, tr: int, tc: int)
    requires
        on_board(fr, fc),
        on_board(tr, tc),
        legal(s.board, s.current_turn, fr, fc, tr, tc),
    ensures
        !in_check(apply_move(s, fr, fc, tr, tc).board, s.current_turn),
{
    let b = s.board;
    let p = b[fr][fc]->Some_0;
    let nb = apply_move(s, fr, fc, tr, tc).board;
    let t = moved(b, fr, fc, tr, tc);
    assert forall|r: int, c: int| on_board(r, c) implies {
        &&& (#[trigger] nb[r][c]) == (if r == fr && c == fc { None } else if r == tr && c == tc {
            Some(super::board::Piece { has_moved: true, ..p })
        } else {
            b[r][c]
        })
        &&& t[r][c] == (if r == fr && c == fc { None } else if r == tr && c == tc { b[fr][fc] } else { b[r][c] })
    } by {}
    assert(same_shape(nb, t));
    lemma_in_check_same(nb, t, s.current_turn);
}

/// The starting position satisfies the invariant of positions reached by play.
pub proof fn lemma_initial_ok(s: GameState)
    requires
        s.current_turn == Color::White,
        forall|r: int, c: int| on_board(r, c) ==> #[trigger] s.board[r][c] == initial_square(r, c),
    ensures
        engine_ok(s),
{
    let b = s.board;
    assert forall|col: Color, r: int, c: int| on_board(r, c) implies
        (#[trigger] is_king_of(b[r][c], col)) == ((r == 0 && c == 4 && col == Color::Black) || (r == 7 && c == 4 && col == Color::White)) by {
        assert(b[r][c] == initial_square(r, c));
    }
    assert(is_king_of(b[7][4], Color::White));
    assert(is_king_of(b[0][4], Color::Black));
    lemma_king_pos(b, Color::Black);
    assert(king_pos(b, Color::Black) == Some((0int, 4int)));
    assert forall|r: int, c: int| on_board(r, c) implies !#[trigger] attacker_at(b, Color::Black, 0, 4, r, c) by {
        assert(b[r][c] == initial_square(r, c));
    }
}

/// A chess game between two players, played from the standard starting position.
pub struct GameEngine {
    state: GameState,
}

impl View for GameEngine {
    type V = GameState;

    closed spec fn view(&self) -> GameState {
        GameState { board: self.state.board, current_turn: self.state.current_turn }
    }
}

impl GameEngine {
    #[verifier::type_invariant]
    spec fn inv(self) -> bool {
        engine_ok(self.state)
    }

    pub fn new() -> (e: GameEngine)
        ensures
            engine_ok(e@),
            e@.current_turn == Color::White,
            forall|r: int, c: int| on_board(r, c) ==> #[trigger] e@.board[r][c] == initial_square(r, c),
    {
        let state = GameState::new();
        proof {
            lemma_initial_ok(state);
        }
        GameEngine { state }
    }

    /// The board, for display.
    pub fn get_board_state(&self) -> (b: BoardGrid)
        ensures
            b == self@.board,
    {
        self.state.board
    }

    /// The side to move.
    pub fn get_current_turn(&self) -> (c: Color)
        ensures
            c == self@.current_turn,
    {
        self.state.current_turn
    }

    pub fn get_status(&self) -> (res: String)
        ensures
            res@ == status_text(spec_status(self@.board, self@.current_turn)),
    {
        self.state.get_status()
    }

    pub fn get_valid_moves(&self, row: usize, col: usize) -> (res: Vec<(usize, usize)>)
        requires
            row < 8,
            col < 8,
        ensures
            res@ == valid_targets(self@.board, self@.current_turn, row as int, col as int),
    {
        proof {
            use_type_invariant(self);
        }
        self.state.get_valid_moves(row, col)
    }

    /// Plays a move if it is legal, and says whether it was played.
    pub fn move_piece(&mut self, fr: usize, fc: usize, tr: usize, tc: usize) -> (res: MoveResponse)
        requires
            fr < 8, fc < 8, tr < 8, tc < 8,
        ensures
            engine_ok(final(self)@),
            res.success == legal(old(self)@.board, old(self)@.current_turn, fr as int, fc as int, tr as int, tc as int),
            res.success ==> res.message@ == "Move successful"@
                && final(self)@ == apply_move(old(self)@, fr as int, fc as int, tr as int, tc as int),
            !res.success ==> final(self)@ == old(self)@,
            !valid_move(old(self)@.board, old(self)@.current_turn, fr as int, fc as int, tr as int, tc as int)
                ==> res.message@ == "Invalid move"@,
            valid_move(old(self)@.board, old(self)@.current_turn, fr as int, fc as int, tr as int, tc as int)
                && !res.success ==> res.message@ == "Move would put or leave king in check"@,
    {
        broadcast use vstd::string::to_string_from_display_ensures_for_str;
        proof {
            use_type_invariant(&*self);
        }
        let mut next = GameState { board: self.state.board, current_turn: self.state.current_turn };
        match next.move_piece(fr, fc, tr, tc) {
            Ok(_) => {
                proof {
                    lemma_engine_step(self.state, fr as int, fc as int, tr as int, tc as int);
                }
                self.state = next;
                MoveResponse { success: true, message: "Move successful".to_string() }
            },
            Err(e) => MoveResponse { success: false, message: e.to_string() },
        }
    }
}

} // verus!
