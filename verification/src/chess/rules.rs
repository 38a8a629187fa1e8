use vstd::prelude::*;
use super::board::{grid_set, BoardGrid, Color, Piece, PieceType, Square};
use super::search::{
    ab_sound, best_upto, child, first_line, fold_best, lemma_best_bound, lemma_fold_mono, lemma_mm_bound, mm,
    move_legal, terminal_value,
};
use super::model::{
    abs, aligned, comes_before, initial_square, all_moves, all_moves_defined, attacked, attacker_at, attacks, back_rank,
    first_king_col, has_king, lemma_king_pos, lemma_moves_upto_nonempty, lemma_move_keeps_king, lemma_moves_legal, in_check, is_king_of, king_pos, king_scan, legal, line_len,
    moved, moves_from_defined, moves_upto, on_board, opponent, pawn_move, path_clear,
    ray_empty, sign, step, targets_upto, valid_move, valid_targets, would_check, MovePair,
};

verus! {

/// A chess position: the board and the side to move.
pub struct GameState {
    pub board: BoardGrid,
    pub current_turn: Color,
}

/// How a game stands, as `GameState::get_status` reports it.
#[derive(Copy, Clone, Debug, PartialEq, Eq, Structural)]
pub enum Outcome {
    WhiteKingCaptured,
    BlackKingCaptured,
    /// Checkmate; the color is the winner.
    Checkmate(Color),
    Stalemate,
    Active,
}

/// The side to move has some legal move.
pub open spec fn has_any_move(b: BoardGrid, turn: Color) -> bool {
    exists|r: int, c: int|
        on_board(r, c) && (b[r][c] matches Some(p) && p.color == turn)
            && #[trigger] valid_targets(b, turn, r, c).len() > 0
}

/// The side to move has a legal move exactly when the list of all its legal moves is not
/// empty.
pub proof fn lemma_any_move_iff_listed(b: BoardGrid, turn: Color)
    ensures
        has_any_move(b, turn) <==> all_moves(b, turn, turn).len() > 0,
{
    lemma_moves_upto_nonempty(b, turn, turn, 8, 0);
}

/// What each status means.  A king is reported captured only when no square holds it (the
/// white king first); otherwise the game is mated when the side to move has no legal move
/// and its king is attacked, and the winner is the other side; stalemated when it has no
/// legal move and its king is safe; and active exactly when it has a legal move.
pub proof fn lemma_status_meaning(b: BoardGrid, turn: Color)
    ensures
        spec_status(b, turn) == Outcome::WhiteKingCaptured <==> !exists|r: int, c: int|
            on_board(r, c) && (#[trigger] b[r][c] matches Some(p) && p.piece_type == PieceType::King
                && p.color == Color::White),
        spec_status(b, turn) == Outcome::BlackKingCaptured ==> !exists|r: int, c: int|
            on_board(r, c) && (#[trigger] b[r][c] matches Some(p) && p.piece_type == PieceType::King
                && p.color == Color::Black),
        spec_status(b, turn) matches Outcome::Checkmate(w) ==> w != turn && in_check(b, turn)
            && all_moves(b, turn, turn).len() == 0,
        spec_status(b, turn) == Outcome::Stalemate ==> !in_check(b, turn) && all_moves(b, turn, turn).len() == 0,
        spec_status(b, turn) == Outcome::Active <==> has_king(b, Color::White) && has_king(b, Color::Black)
            && all_moves(b, turn, turn).len() > 0,
{
    lemma_any_move_iff_listed(b, turn);
    if exists|r: int, c: int| on_board(r, c) && (#[trigger] b[r][c] matches Some(p) && p.piece_type == PieceType::King
        && p.color == Color::White) {
        let (r, c) = choose|r: int, c: int| on_board(r, c) && (#[trigger] b[r][c] matches Some(p)
            && p.piece_type == PieceType::King && p.color == Color::White);
        assert(is_king_of(b[r][c], Color::White));
    }
    if exists|r: int, c: int| on_board(r, c) && (#[trigger] b[r][c] matches Some(p) && p.piece_type == PieceType::King
        && p.color == Color::Black) {
        let (r, c) = choose|r: int, c: int| on_board(r, c) && (#[trigger] b[r][c] matches Some(p)
            && p.piece_type == PieceType::King && p.color == Color::Black);
        assert(is_king_of(b[r][c], Color::Black));
    }
}

pub open spec fn spec_status(b: BoardGrid, turn: Color) -> Outcome {
    if !has_king(b, Color::White) {
        Outcome::WhiteKingCaptured
    } else if !has_king(b, Color::Black) {
        Outcome::BlackKingCaptured
    } else if !has_any_move(b, turn) {
        if in_check(b, turn) {
            Outcome::Checkmate(opponent(turn))
        } else {
            Outcome::Stalemate
        }
    } else {
        Outcome::Active
    }
}

pub open spec fn status_text(o: Outcome) -> Seq<char> {
    match o {
        Outcome::WhiteKingCaptured => "White King Captured: Black Wins"@,
        Outcome::BlackKingCaptured => "Black King Captured: White Wins"@,
        Outcome::Checkmate(Color::Black) => "Checkmate: Black Wins"@,
        Outcome::Checkmate(Color::White) => "Checkmate: White Wins"@,
        Outcome::Stalemate => "Stalemate: Draw"@,
        Outcome::Active => "Active"@,
    }
}

/// The position after a legal move: the piece is marked as moved and the turn passes.
pub open spec fn apply_move(s: GameState, fr: int, fc: int, tr: int, tc: int) -> GameState {
    let p = s.board[fr][fc]->Some_0;
    GameState {
        board: grid_set(
            grid_set(s.board, tr, tc, Some(Piece { has_moved: true, ..p })),
            fr,
            fc,
            None,
        ),
        current_turn: opponent(s.current_turn),
    }
}

pub open spec fn piece_value(t: PieceType) -> int {
    match t {
        PieceType::Pawn => 10,
        PieceType::Knight => 30,
        PieceType::Bishop => 30,
        PieceType::Rook => 50,
        PieceType::Queen => 90,
        PieceType::King => 900,
    }
}

/// Material on one square, counted for White and against Black.
pub open spec fn square_value(sq: Square) -> int {
    match sq {
        Some(p) => if p.color == Color::White { piece_value(p.piece_type) } else { -piece_value(p.piece_type) },
        None => 0,
    }
}

/// Material balance over the squares before `(r, c)` in row-major order.
pub open spec fn material_upto(b: BoardGrid, r: int, c: int) -> int
    decreases r, c,
{
    if r <= 0 && c <= 0 {
        0
    } else if c <= 0 {
        material_upto(b, r - 1, 8)
    } else {
        material_upto(b, r, c - 1) + square_value(b[r][c - 1])
    }
}

pub open spec fn material(b: BoardGrid) -> int {
    material_upto(b, 8, 0)
}

/// Material before `(r, c)` loses exactly what stood on `(r0, c0)` when that square is
/// emptied, if the square comes before `(r, c)`, and nothing otherwise.
pub proof fn lemma_material_upto_without(b: BoardGrid, r0: int, c0: int, r: int, c: int)
    requires
        on_board(r0, c0),
        (0 <= r < 8 && 0 <= c <= 8) || (r == 8 && c == 0),
    ensures
        material_upto(b, r, c) - material_upto(grid_set(b, r0, c0, None), r, c)
            == if comes_before(r0, c0, r, c) { square_value(b[r0][c0]) } else { 0 },
    decreases r, c,
{
    let e = grid_set(b, r0, c0, None);
    if r <= 0 && c <= 0 {
    } else if c <= 0 {
        lemma_material_upto_without(b, r0, c0, r - 1, 8);
    } else {
        lemma_material_upto_without(b, r0, c0, r, c - 1);
        if r == r0 && c - 1 == c0 {
            assert(e[r][c - 1] is None);
        } else {
            assert(e[r][c - 1] == b[r][c - 1]);
        }
    }
}

/// Taking any piece off any board changes the evaluation by that piece's fixed worth:
/// pawn 10, knight 30, bishop 30, rook 50, queen 90, king 900, counted for White and
/// against Black; an empty square changes nothing.
pub proof fn lemma_material_counts_each_piece(b: BoardGrid, r: int, c: int)
    requires
        on_board(r, c),
    ensures
        material(b) - material(grid_set(b, r, c, None)) == (match b[r][c] {
            Some(p) => (if p.color == Color::White { 1int } else { -1int }) * match p.piece_type {
                PieceType::Pawn => 10int,
                PieceType::Knight => 30int,
                PieceType::Bishop => 30int,
                PieceType::Rook => 50int,
                PieceType::Queen => 90int,
                PieceType::King => 900int,
            },
            None => 0int,
        }),
{
    lemma_material_upto_without(b, r, c, 8, 0);
}


fn signum(x: isize) -> (s: isize)
    ensures
        s == sign(x as int),
{
    if x > 0 {
        1
    } else if x < 0 {
        -1
    } else {
        0
    }
}

fn iabs(x: isize) -> (a: isize)
    requires
        x > isize::MIN,
    ensures
        a == abs(x as int),
{
    if x < 0 {
        -x
    } else {
        x
    }
}

/// The first column of row `r` holding the king of `color`.
fn king_col_in_row(board: &BoardGrid, color: Color, r: usize) -> (res: Option<usize>)
    requires
        r < 8,
    ensures
        match res {
            Some(c) => first_king_col(*board, color, r as int, 0) == Some(c as int),
            None => first_king_col(*board, color, r as int, 0) is None,
        },
{
    let mut c: usize = 0;
    while c < 8
        invariant
            r < 8,
            c <= 8,
            first_king_col(*board, color, r as int, 0) == first_king_col(*board, color, r as int, c as int),
        decreases 8 - c,
    {
        if let Some(p) = board[r][c] {
            if p.piece_type == PieceType::King && p.color == color {
                return Some(c);
            }
        }
        c += 1;
    }
    None
}

/// Where the king of `color` is found by a row-by-row scan.
fn find_king(board: &BoardGrid, color: Color) -> (res: Option<(usize, usize)>)
    ensures
        match res {
            Some(k) => king_pos(*board, color) == Some((k.0 as int, k.1 as int)),
            None => king_pos(*board, color) is None,
        },
{
    let mut pos: Option<(usize, usize)> = None;
    let mut r: usize = 0;
    while r < 8
        invariant
            r <= 8,
            match pos {
                Some(k) => king_scan(*board, color, r as int) == Some((k.0 as int, k.1 as int)),
                None => king_scan(*board, color, r as int) is None,
            },
        decreases 8 - r,
    {
        if let Some(c) = king_col_in_row(board, color, r) {
            pos = Some((r, c));
        }
        r += 1;
    }
    pos
}

impl GameState {
    /// The standard starting position, White to move.
    pub fn new() -> (s: Self)
        ensures
            s.current_turn == Color::White,
            forall|r: int, c: int| on_board(r, c) ==> #[trigger] s.board[r][c] == initial_square(r, c),
    {
        let mut board: BoardGrid = [[None; 8]; 8];
        let mut col: usize = 0;
        while col < 8
            invariant
                col <= 8,
                forall|c: int| 0 <= c < col ==> board[1][c] == Some(Piece { piece_type: PieceType::Pawn, color: Color::Black, has_moved: false }),
                forall|c: int| 0 <= c < col ==> board[6][c] == Some(Piece { piece_type: PieceType::Pawn, color: Color::White, has_moved: false }),
                forall|r: int, c: int| 0 <= r < 8 && 0 <= c < 8 && !((r == 1 || r == 6) && c < col) ==> board[r][c].is_none(),
            decreases 8 - col,
        {
            board[1][col] = Some(Piece::new(PieceType::Pawn, Color::Black));
            board[6][col] = Some(Piece::new(PieceType::Pawn, Color::White));
            col += 1;
        }
        let piece_order = [
            PieceType::Rook, PieceType::Knight, PieceType::Bishop, PieceType::Queen,
            PieceType::King, PieceType::Bishop, PieceType::Knight, PieceType::Rook,
        ];
        let mut col: usize = 0;
        while col < 8
            invariant
                col <= 8,
                forall|c: int| 0 <= c < 8 ==> piece_order[c] == back_rank(c),
                forall|c: int| 0 <= c < 8 ==> board[1][c] == Some(Piece { piece_type: PieceType::Pawn, color: Color::Black, has_moved: false }),
                forall|c: int| 0 <= c < 8 ==> board[6][c] == Some(Piece { piece_type: PieceType::Pawn, color: Color::White, has_moved: false }),
                forall|c: int| 0 <= c < col ==> board[0][c] == Some(Piece { piece_type: back_rank(c), color: Color::Black, has_moved: false }),
                forall|c: int| 0 <= c < col ==> board[7][c] == Some(Piece { piece_type: back_rank(c), color: Color::White, has_moved: false }),
                forall|r: int, c: int| 2 <= r < 6 && 0 <= c < 8 ==> board[r][c].is_none(),
            decreases 8 - col,
        {
            board[0][col] = Some(Piece::new(piece_order[col], Color::Black));
            board[7][col] = Some(Piece::new(piece_order[col], Color::White));
            col += 1;
        }
        let s = GameState { board, current_turn: Color::White };
        assert forall|r: int, c: int| on_board(r, c) implies #[trigger] s.board[r][c] == initial_square(r, c) by {
            if r == 0 || r == 1 || r == 6 || r == 7 {
            } else {
                assert(2 <= r < 6);
            }
        }
        s
    }

    fn is_path_clear(&self, fr: usize, fc: usize, tr: usize, tc: usize) -> (res: bool)
        requires
            fr < 8, fc < 8, tr < 8, tc < 8,
            aligned(fr as int, fc as int, tr as int, tc as int),
        ensures
            res == path_clear(self.board, fr as int, fc as int, tr as int, tc as int),
    {
        self.is_path_clear_on_board(&self.board, fr, fc, tr, tc)
    }

    fn is_path_clear_on_board(&self, board: &BoardGrid, fr: usize, fc: usize, tr: usize, tc: usize) -> (res: bool)
        requires
            fr < 8, fc < 8, tr < 8, tc < 8,
            aligned(fr as int, fc as int, tr as int, tc as int),
        ensures
            res == path_clear(*board, fr as int, fc as int, tr as int, tc as int),
    {
        let dr = signum(tr as isize - fr as isize);
        let dc = signum(tc as isize - fc as isize);
        let mut r: isize = fr as isize + dr;
        let mut c: isize = fc as isize + dc;
        let ghost n = line_len(fr as int, fc as int, tr as int, tc as int);
        let ghost mut k: int = 1;
        while r != tr as isize || c != tc as isize
            invariant
                fr < 8, fc < 8, tr < 8, tc < 8,
                aligned(fr as int, fc as int, tr as int, tc as int),
                n == line_len(fr as int, fc as int, tr as int, tc as int),
                dr == sign(tr - fr),
                dc == sign(tc - fc),
                1 <= k <= n,
                r == step(fr as int, dr as int, k),
                c == step(fc as int, dc as int, k),
                forall|j: int| 0 < j < k ==> #[trigger] ray_empty(*board, fr as int, fc as int, tr as int, tc as int, j),
            decreases n - k,
        {
            if board[r as usize][c as usize].is_some() {
                assert(!ray_empty(*board, fr as int, fc as int, tr as int, tc as int, k));
                return false;
            }
            r += dr;
            c += dc;
            proof {
                k = k + 1;
            }
        }
        true
    }

    fn is_valid_pawn_move(&self, color: Color, fr: usize, fc: usize, tr: usize, tc: usize, has_moved: bool) -> (res: bool)
        requires
            fr < 8, fc < 8, tr < 8, tc < 8,
        ensures
            res == pawn_move(self.board, color, fr as int, fc as int, tr as int, tc as int, has_moved),
    {
        let dir: isize = if color == Color::White { -1 } else { 1 };
        let dr = tr as isize - fr as isize;
        let dc = tc as isize - fc as isize;
        if dc == 0 {
            if dr == dir && self.board[tr][tc].is_none() {
                return true;
            }
            if dr == 2 * dir && !has_moved && self.board[tr][tc].is_none()
                && self.board[(fr as isize + dir) as usize][tc].is_none() {
                return true;
            }
        } else if iabs(dc) == 1 && dr == dir {
            if self.board[tr][tc].is_some() {
                return true;
            }
        }
        false
    }

    /// Whether the move follows the moving piece's pattern, ignoring the safety of its king.
    pub fn is_valid_move(&self, from_row: usize, from_col: usize, to_row: usize, to_col: usize) -> (res: bool)
        requires
            from_row < 8, from_col < 8, to_row < 8, to_col < 8,
        ensures
            res == valid_move(self.board, self.current_turn, from_row as int, from_col as int, to_row as int, to_col as int),
    {
        let piece = match self.board[from_row][from_col] {
            Some(p) => p,
            None => return false,
        };
        if piece.color != self.current_turn {
            return false;
        }
        let target = self.board[to_row][to_col];
        if let Some(t) = target {
            if t.color == piece.color {
                return false;
            }
        }
        let dr = to_row as isize - from_row as isize;
        let dc = to_col as isize - from_col as isize;
        if dr == 0 && dc == 0 {
            return false;
        }
        let is_pseudo_legal = match piece.piece_type {
            PieceType::Pawn => self.is_valid_pawn_move(piece.color, from_row, from_col, to_row, to_col, piece.has_moved),
            PieceType::Knight => (iabs(dr) == 2 && iabs(dc) == 1) || (iabs(dr) == 1 && iabs(dc) == 2),
            PieceType::Bishop => iabs(dr) == iabs(dc) && self.is_path_clear(from_row, from_col, to_row, to_col),
            PieceType::Rook => (dr == 0 || dc == 0) && self.is_path_clear(from_row, from_col, to_row, to_col),
            PieceType::Queen => (iabs(dr) == iabs(dc) || dr == 0 || dc == 0) && self.is_path_clear(from_row, from_col, to_row, to_col),
            PieceType::King => iabs(dr) <= 1 && iabs(dc) <= 1,
        };
        if !is_pseudo_legal {
            return false;
        }
        true
    }
}

impl GameState {
    /// Whether piece `p` standing on `(r, c)` attacks the square `(kr, kc)` of `board`.
    fn piece_attacks(&self, board: &BoardGrid, p: Piece, r: usize, c: usize, kr: usize, kc: usize) -> (res: bool)
        requires
            r < 8, c < 8, kr < 8, kc < 8,
            !(r == kr && c == kc),
        ensures
            res == attacks(*board, p, r as int, c as int, kr as int, kc as int),
    {
        let dr = kr as isize - r as isize;
        let dc = kc as isize - c as isize;
        match p.piece_type {
            PieceType::Pawn => {
                let dir: isize = if p.color == Color::White { -1 } else { 1 };
                dr == dir && iabs(dc) == 1
            },
            PieceType::Knight => (iabs(dr) == 2 && iabs(dc) == 1) || (iabs(dr) == 1 && iabs(dc) == 2),
            PieceType::Bishop => iabs(dr) == iabs(dc) && self.is_path_clear_on_board(board, r, c, kr, kc),
            PieceType::Rook => (dr == 0 || dc == 0) && self.is_path_clear_on_board(board, r, c, kr, kc),
            PieceType::Queen => (iabs(dr) == iabs(dc) || dr == 0 || dc == 0)
                && self.is_path_clear_on_board(board, r, c, kr, kc),
            PieceType::King => iabs(dr) <= 1 && iabs(dc) <= 1,
        }
    }

    /// Whether some piece hostile to `color` attacks `(kr, kc)`, where the king of `color` stands.
    fn square_attacked(&self, board: &BoardGrid, color: Color, kr: usize, kc: usize) -> (res: bool)
        requires
            kr < 8, kc < 8,
            is_king_of(board[kr as int][kc as int], color),
        ensures
            res == attacked(*board, color, kr as int, kc as int),
    {
        let mut r: usize = 0;
        while r < 8
            invariant
                r <= 8, kr < 8, kc < 8,
                is_king_of(board[kr as int][kc as int], color),
                forall|r2: int, c2: int| 0 <= r2 < r && 0 <= c2 < 8 ==> !#[trigger] attacker_at(*board, color, kr as int, kc as int, r2, c2),
            decreases 8 - r,
        {
            let mut c: usize = 0;
            while c < 8
                invariant
                    r < 8, c <= 8, kr < 8, kc < 8,
                    is_king_of(board[kr as int][kc as int], color),
                    forall|r2: int, c2: int| 0 <= r2 < r && 0 <= c2 < 8 ==> !#[trigger] attacker_at(*board, color, kr as int, kc as int, r2, c2),
                    forall|c2: int| 0 <= c2 < c ==> !#[trigger] attacker_at(*board, color, kr as int, kc as int, r as int, c2),
                decreases 8 - c,
            {
                if let Some(p) = board[r][c] {
                    if p.color != color {
                        if self.piece_attacks(board, p, r, c, kr, kc) {
                            assert(attacker_at(*board, color, kr as int, kc as int, r as int, c as int));
                            return true;
                        }
                    }
                }
                c += 1;
            }
            r += 1;
        }
        false
    }

    /// Whether making the move would leave the mover's king attacked.
    pub fn would_be_in_check(&self, fr: usize, fc: usize, tr: usize, tc: usize) -> (res: bool)
        requires
            fr < 8, fc < 8, tr < 8, tc < 8,
            self.board[fr as int][fc as int] is Some,
            king_pos(moved(self.board, fr as int, fc as int, tr as int, tc as int), self.board[fr as int][fc as int]->Some_0.color) is Some,
        ensures
            res == would_check(self.board, fr as int, fc as int, tr as int, tc as int),
    {
        let mut temp_board = self.board;
        temp_board[tr][tc] = temp_board[fr][fc];
        temp_board[fr][fc] = None;
        assert(temp_board == moved(self.board, fr as int, fc as int, tr as int, tc as int));
        let king_color = self.board[fr][fc].unwrap().color;
        let king = find_king(&temp_board, king_color);
        proof {
            lemma_king_pos(temp_board, king_color);
        }
        let (kr, kc) = king.unwrap();
        self.square_attacked(&temp_board, king_color, kr, kc)
    }

    /// Whether the king of `color` is attacked; false when it has no king.
    pub fn is_in_check(&self, color: Color) -> (res: bool)
        ensures
            res == in_check(self.board, color),
    {
        let (kr, kc) = match find_king(&self.board, color) {
            Some(pos) => pos,
            None => return false,
        };
        proof {
            lemma_king_pos(self.board, color);
        }
        self.square_attacked(&self.board, color, kr, kc)
    }
}

impl GameState {
    /// The squares the piece on `(row, col)` may legally move to, in row-major order;
    /// empty when the square is empty or holds a piece of the side not to move.
    pub fn get_valid_moves(&self, row: usize, col: usize) -> (res: Vec<(usize, usize)>)
        requires
            row < 8, col < 8,
            moves_from_defined(self.board, self.current_turn, row as int, col as int),
        ensures
            res@ == valid_targets(self.board, self.current_turn, row as int, col as int),
    {
        let mut valid_moves: Vec<(usize, usize)> = Vec::new();
        if let Some(piece) = self.board[row][col] {
            if piece.color != self.current_turn {
                return vec![];
            }
            let mut r: usize = 0;
            while r < 8
                invariant
                    row < 8, col < 8, r <= 8,
                    moves_from_defined(self.board, self.current_turn, row as int, col as int),
                    valid_moves@ == targets_upto(self.board, self.current_turn, row as int, col as int, r as int, 0),
                decreases 8 - r,
            {
                let mut c: usize = 0;
                while c < 8
                    invariant
                        row < 8, col < 8, r < 8, c <= 8,
                        moves_from_defined(self.board, self.current_turn, row as int, col as int),
                        valid_moves@ == targets_upto(self.board, self.current_turn, row as int, col as int, r as int, c as int),
                    decreases 8 - c,
                {
                    if self.is_valid_move(row, col, r, c) {
                        proof {
                            lemma_move_keeps_king(self.board, self.current_turn, row as int, col as int, r as int, c as int);
                        }
                        if !self.would_be_in_check(row, col, r, c) {
                            valid_moves.push((r, c));
                        }
                    }
                    c += 1;
                }
                assert(targets_upto(self.board, self.current_turn, row as int, col as int, r as int + 1, 0)
                    == targets_upto(self.board, self.current_turn, row as int, col as int, r as int, 8));
                r += 1;
            }
        }
        valid_moves
    }

    /// Every legal move of `color`, grouped by origin square in row-major order;
    /// empty unless `color` is the side to move.
    pub fn get_all_legal_moves(&self, color: Color) -> (res: Vec<MovePair>)
        requires
            all_moves_defined(self.board, self.current_turn, color),
        ensures
            res@ == all_moves(self.board, self.current_turn, color),
    {
        let mut all: Vec<MovePair> = Vec::new();
        let mut r: usize = 0;
        while r < 8
            invariant
                r <= 8,
                all_moves_defined(self.board, self.current_turn, color),
                all@ == moves_upto(self.board, self.current_turn, color, r as int, 0),
            decreases 8 - r,
        {
            let mut c: usize = 0;
            while c < 8
                invariant
                    r < 8, c <= 8,
                    all_moves_defined(self.board, self.current_turn, color),
                    all@ == moves_upto(self.board, self.current_turn, color, r as int, c as int),
                decreases 8 - c,
            {
                if let Some(p) = self.board[r][c] {
                    if p.color == color {
                        let moves = self.get_valid_moves(r, c);
                        let ghost prev = all@;
                        let mut i: usize = 0;
                        while i < moves.len()
                            invariant
                                r < 8, c < 8,
                                i <= moves.len(),
                                all@ == prev + moves@.take(i as int).map_values(
                                    |m: (usize, usize)| ((r, c), m),
                                ),
                            decreases moves.len() - i,
                        {
                            all.push(((r, c), moves[i]));
                            proof {
                                assert(moves@.take(i as int + 1) == moves@.take(i as int).push(moves@[i as int]));
                                assert(all@ == prev + moves@.take(i as int + 1).map_values(
                                    |m: (usize, usize)| ((r, c), m),
                                ));
                            }
                            i += 1;
                        }
                        assert(moves@.take(moves.len() as int) == moves@);
                    }
                }
                c += 1;
            }
            assert(moves_upto(self.board, self.current_turn, color, r as int + 1, 0)
                == moves_upto(self.board, self.current_turn, color, r as int, 8));
            r += 1;
        }
        all
    }
}

impl GameState {
    fn status(&self) -> (o: Outcome)
        ensures
            o == spec_status(self.board, self.current_turn),
    {
        let mut white_king = false;
        let mut black_king = false;
        let mut r: usize = 0;
        while r < 8
            invariant
                r <= 8,
                white_king <==> exists|r2: int, c2: int| 0 <= r2 < r && 0 <= c2 < 8 && #[trigger] is_king_of(self.board[r2][c2], Color::White),
                black_king <==> exists|r2: int, c2: int| 0 <= r2 < r && 0 <= c2 < 8 && #[trigger] is_king_of(self.board[r2][c2], Color::Black),
            decreases 8 - r,
        {
            let mut c: usize = 0;
            while c < 8
                invariant
                    r < 8, c <= 8,
                    white_king <==> exists|r2: int, c2: int| (0 <= r2 < r && 0 <= c2 < 8 || r2 == r && 0 <= c2 < c) && #[trigger] is_king_of(self.board[r2][c2], Color::White),
                    black_king <==> exists|r2: int, c2: int| (0 <= r2 < r && 0 <= c2 < 8 || r2 == r && 0 <= c2 < c) && #[trigger] is_king_of(self.board[r2][c2], Color::Black),
                decreases 8 - c,
            {
                if let Some(p) = self.board[r][c] {
                    if p.piece_type == PieceType::King {
                        if p.color == Color::White {
                            white_king = true;
                        }
                        if p.color == Color::Black {
                            black_king = true;
                        }
                    }
                }
                proof {
                    if is_king_of(self.board[r as int][c as int], Color::White) {
                        assert(white_king);
                    }
                    if is_king_of(self.board[r as int][c as int], Color::Black) {
                        assert(black_king);
                    }
                }
                c += 1;
            }
            r += 1;
        }
        if !white_king {
            return Outcome::WhiteKingCaptured;
        }
        if !black_king {
            return Outcome::BlackKingCaptured;
        }
        proof {
            assert(has_king(self.board, self.current_turn));
        }
        let mut has_moves = false;
        let mut r: usize = 0;
        while r < 8 && !has_moves
            invariant
                r <= 8,
                has_king(self.board, self.current_turn),
                has_moves ==> has_any_move(self.board, self.current_turn),
                !has_moves ==> forall|r2: int, c2: int| 0 <= r2 < r && 0 <= c2 < 8 && (self.board[r2][c2] matches Some(p) && p.color == self.current_turn)
                    ==> #[trigger] valid_targets(self.board, self.current_turn, r2, c2).len() == 0,
            decreases 8 - r,
        {
            let mut c: usize = 0;
            while c < 8 && !has_moves
                invariant
                    r < 8, c <= 8,
                    has_king(self.board, self.current_turn),
                    has_moves ==> has_any_move(self.board, self.current_turn),
                    !has_moves ==> forall|r2: int, c2: int| (0 <= r2 < r && 0 <= c2 < 8 || r2 == r && 0 <= c2 < c) && (self.board[r2][c2] matches Some(p) && p.color == self.current_turn)
                        ==> #[trigger] valid_targets(self.board, self.current_turn, r2, c2).len() == 0,
                decreases 8 - c,
            {
                if let Some(p) = self.board[r][c] {
                    if p.color == self.current_turn {
                        let moves = self.get_valid_moves(r, c);
                        if moves.len() > 0 {
                            has_moves = true;
                        }
                    }
                }
                c += 1;
            }
            r += 1;
        }
        if !has_moves {
            if self.is_in_check(self.current_turn) {
                let winner = if self.current_turn == Color::White { Color::Black } else { Color::White };
                return Outcome::Checkmate(winner);
            } else {
                return Outcome::Stalemate;
            }
        }
        Outcome::Active
    }

    /// A description of how the game stands: a captured king, checkmate, stalemate or "Active".
    pub fn get_status(&self) -> (res: String)
        ensures
            res@ == status_text(spec_status(self.board, self.current_turn)),
    {
        broadcast use vstd::string::to_string_from_display_ensures_for_str;
        match self.status() {
            Outcome::WhiteKingCaptured => "White King Captured: Black Wins".to_string(),
            Outcome::BlackKingCaptured => "Black King Captured: White Wins".to_string(),
            Outcome::Checkmate(Color::Black) => "Checkmate: Black Wins".to_string(),
            Outcome::Checkmate(Color::White) => "Checkmate: White Wins".to_string(),
            Outcome::Stalemate => "Stalemate: Draw".to_string(),
            Outcome::Active => "Active".to_string(),
        }
    }

    /// Plays a legal move: the piece is marked as moved and the turn passes.
    pub fn move_piece(&mut self, fr: usize, fc: usize, tr: usize, tc: usize) -> (res: Result<(), &'static str>)
        requires
            fr < 8, fc < 8, tr < 8, tc < 8,
            valid_move(old(self).board, old(self).current_turn, fr as int, fc as int, tr as int, tc as int)
                ==> has_king(old(self).board, old(self).current_turn),
        ensures
            !valid_move(old(self).board, old(self).current_turn, fr as int, fc as int, tr as int, tc as int) ==> {
                &&& res matches Err(e) && e@ == "Invalid move"@
                &&& *final(self) == *old(self)
            },
            valid_move(old(self).board, old(self).current_turn, fr as int, fc as int, tr as int, tc as int)
                && would_check(old(self).board, fr as int, fc as int, tr as int, tc as int) ==> {
                &&& res matches Err(e) && e@ == "Move would put or leave king in check"@
                &&& *final(self) == *old(self)
            },
            legal(old(self).board, old(self).current_turn, fr as int, fc as int, tr as int, tc as int) ==> {
                &&& res is Ok
                &&& *final(self) == apply_move(*old(self), fr as int, fc as int, tr as int, tc as int)
            },
            res is Ok ==> !in_check(final(self).board, old(self).current_turn),
    {
        if !self.is_valid_move(fr, fc, tr, tc) {
            return Err("Invalid move");
        }
        proof {
            lemma_move_keeps_king(self.board, self.current_turn, fr as int, fc as int, tr as int, tc as int);
        }
        if self.would_be_in_check(fr, fc, tr, tc) {
            return Err("Move would put or leave king in check");
        }
        proof {
            super::engine::lemma_move_leaves_king_safe(*self, fr as int, fc as int, tr as int, tc as int);
        }
        let mut piece = self.board[fr][fc].unwrap();
        piece.has_moved = true;
        self.board[tr][tc] = Some(piece);
        self.board[fr][fc] = None;
        self.current_turn = if self.current_turn == Color::White { Color::Black } else { Color::White };
        Ok(())
    }

    /// Material balance: positive when White is ahead.
    pub fn evaluate(&self) -> (score: i32)
        ensures
            score == material(self.board),
    {
        let mut score: i32 = 0;
        let mut r: usize = 0;
        while r < 8
            invariant
                r <= 8,
                score == material_upto(self.board, r as int, 0),
                -7200 * (r as int) <= score <= 7200 * (r as int),
            decreases 8 - r,
        {
            let mut c: usize = 0;
            while c < 8
                invariant
                    r < 8, c <= 8,
                    score == material_upto(self.board, r as int, c as int),
                    -900 * (8 * (r as int) + c as int) <= score <= 900 * (8 * (r as int) + c as int),
                decreases 8 - c,
            {
                if let Some(p) = self.board[r][c] {
                    let val: i32 = match p.piece_type {
                        PieceType::Pawn => 10,
                        PieceType::Knight => 30,
                        PieceType::Bishop => 30,
                        PieceType::Rook => 50,
                        PieceType::Queen => 90,
                        PieceType::King => 900,
                    };
                    if p.color == Color::White {
                        score += val;
                    } else {
                        score -= val;
                    }
                }
                c += 1;
            }
            assert(material_upto(self.board, r as int + 1, 0) == material_upto(self.board, r as int, 8));
            r += 1;
        }
        score
    }
}

/// Fail-soft alpha-beta search to `depth` plies, White maximizing. Inside the window
/// `(alpha, beta)` the result is the minimax value; outside it, a bound on that value.
pub fn minimax(state: &mut GameState, depth: u8, alpha: i32, beta: i32, is_maximizing: bool) -> (res: i32)
    ensures
        *final(state) == *old(state),
        alpha < beta ==> ab_sound(res as int, mm(*old(state), depth as nat, is_maximizing), alpha as int, beta as int),
        alpha >= beta ==> res == first_line(*old(state), depth as nat, is_maximizing),
        terminal_value(*old(state)) matches Some(v) ==> res == v,
        terminal_value(*old(state)) is None && depth == 0 ==> res == material(old(state).board),
    decreases depth,
{
    let ghost s0 = *state;
    let ghost alpha0 = alpha as int;
    let ghost beta0 = beta as int;
    let mut alpha_now = alpha;
    let mut beta_now = beta;
    match state.status() {
        Outcome::WhiteKingCaptured | Outcome::Checkmate(Color::Black) => return -10000,
        Outcome::BlackKingCaptured | Outcome::Checkmate(Color::White) => return 10000,
        Outcome::Stalemate => return 0,
        Outcome::Active => {},
    }
    if depth == 0 {
        return state.evaluate();
    }
    proof {
        assert(has_king(s0.board, s0.current_turn));
    }
    if is_maximizing {
        let mut max_eval: i32 = i32::MIN;
        let moves = state.get_all_legal_moves(Color::White);
        proof {
            lemma_moves_legal(s0.board, s0.current_turn, Color::White, 8, 0);
        }
        let ghost n = moves@.len();
        let mut i: usize = 0;
        while i < moves.len()
            invariant
                alpha0 == alpha as int,
                beta0 == beta as int,
                *state == s0,
                depth > 0,
                has_king(s0.board, s0.current_turn),
                terminal_value(s0) is None,
                is_maximizing,
                s0 == *old(state),
                mm(s0, depth as nat, true) == fold_best(s0, moves@, depth as nat, true, n),
                n == moves@.len(),
                moves@ == all_moves(s0.board, s0.current_turn, Color::White),
                forall|j: int| 0 <= j < moves@.len() ==> {
                    let m = #[trigger] moves@[j];
                    &&& on_board(m.0.0 as int, m.0.1 as int)
                    &&& on_board(m.1.0 as int, m.1.1 as int)
                },
                i <= moves.len(),
                beta_now == beta0,
                alpha_now as int == if alpha0 >= max_eval { alpha0 } else { max_eval as int },
                forall|j: int| 0 <= j < moves@.len() ==> move_legal(s0, #[trigger] moves@[j]),
                alpha0 >= beta0 ==> i == 0 && max_eval == i32::MIN,
                alpha0 < beta0 ==> {
                    &&& max_eval >= fold_best(s0, moves@, depth as nat, true, i as nat)
                    &&& max_eval > alpha0 ==> fold_best(s0, moves@, depth as nat, true, i as nat) == max_eval
                    &&& alpha_now < beta_now
                },
            decreases moves.len() - i,
        {
            let ((fr, fc), (tr, tc)) = moves[i];
            let ghost m = moves@[i as int];
            let mut next_state = GameState { board: state.board, current_turn: state.current_turn };
            if next_state.move_piece(fr, fc, tr, tc).is_ok() {
                let ghost cs = next_state;
                let eval = minimax(&mut next_state, depth - 1, alpha_now, beta_now, false);
                proof {
                    assert(cs == child(s0, m));
                    let v = mm(child(s0, m), (depth - 1) as nat, false);
                    assert(fold_best(s0, moves@, depth as nat, true, (i + 1) as nat)
                        == if v > fold_best(s0, moves@, depth as nat, true, i as nat) { v } else { fold_best(s0, moves@, depth as nat, true, i as nat) });
                }
                if eval > max_eval {
                    max_eval = eval;
                }
                if eval > alpha_now {
                    alpha_now = eval;
                }
                if beta_now <= alpha_now {
                    proof {
                        lemma_fold_mono(s0, moves@, depth as nat, true, (i + 1) as nat, n);
                        if alpha0 < beta0 {
                            assert(max_eval >= beta0);
                            assert(fold_best(s0, moves@, depth as nat, true, (i + 1) as nat) >= max_eval);
                            assert(mm(s0, depth as nat, true) >= max_eval);
                            assert(ab_sound(max_eval as int, mm(s0, depth as nat, true), alpha0, beta0));
                        }
                    }
                    return max_eval;
                }
            } else {
                proof {
                    assert(!move_legal(s0, m));
                }
            }
            i += 1;
        }
        max_eval
    } else {
        let mut min_eval: i32 = i32::MAX;
        let moves = state.get_all_legal_moves(Color::Black);
        proof {
            lemma_moves_legal(s0.board, s0.current_turn, Color::Black, 8, 0);
        }
        let ghost n = moves@.len();
        let mut i: usize = 0;
        while i < moves.len()
            invariant
                alpha0 == alpha as int,
                beta0 == beta as int,
                *state == s0,
                depth > 0,
                has_king(s0.board, s0.current_turn),
                terminal_value(s0) is None,
                !is_maximizing,
                s0 == *old(state),
                mm(s0, depth as nat, false) == fold_best(s0, moves@, depth as nat, false, n),
                n == moves@.len(),
                moves@ == all_moves(s0.board, s0.current_turn, Color::Black),
                forall|j: int| 0 <= j < moves@.len() ==> {
                    let m = #[trigger] moves@[j];
                    &&& on_board(m.0.0 as int, m.0.1 as int)
                    &&& on_board(m.1.0 as int, m.1.1 as int)
                },
                i <= moves.len(),
                alpha_now == alpha0,
                beta_now as int == if beta0 <= min_eval { beta0 } else { min_eval as int },
                forall|j: int| 0 <= j < moves@.len() ==> move_legal(s0, #[trigger] moves@[j]),
                alpha0 >= beta0 ==> i == 0 && min_eval == i32::MAX,
                alpha0 < beta0 ==> {
                    &&& min_eval <= fold_best(s0, moves@, depth as nat, false, i as nat)
                    &&& min_eval < beta0 ==> fold_best(s0, moves@, depth as nat, false, i as nat) == min_eval
                    &&& alpha_now < beta_now
                },
            decreases moves.len() - i,
        {
            let ((fr, fc), (tr, tc)) = moves[i];
            let ghost m = moves@[i as int];
            let mut next_state = GameState { board: state.board, current_turn: state.current_turn };
            if next_state.move_piece(fr, fc, tr, tc).is_ok() {
                let ghost cs = next_state;
                let eval = minimax(&mut next_state, depth - 1, alpha_now, beta_now, true);
                proof {
                    assert(cs == child(s0, m));
                    let v = mm(child(s0, m), (depth - 1) as nat, true);
                    assert(fold_best(s0, moves@, depth as nat, false, (i + 1) as nat)
                        == if v < fold_best(s0, moves@, depth as nat, false, i as nat) { v } else { fold_best(s0, moves@, depth as nat, false, i as nat) });
                }
                if eval < min_eval {
                    min_eval = eval;
                }
                if eval < beta_now {
                    beta_now = eval;
                }
                if beta_now <= alpha_now {
                    proof {
                        lemma_fold_mono(s0, moves@, depth as nat, false, (i + 1) as nat, n);
                        if alpha0 < beta0 {
                            assert(min_eval <= alpha0);
                            assert(fold_best(s0, moves@, depth as nat, false, (i + 1) as nat) <= min_eval);
                        }
                    }
                    return min_eval;
                }
            } else {
                proof {
                    assert(!move_legal(s0, m));
                }
            }
            i += 1;
        }
        min_eval
    }
}

/// The first legal move of `color` with the best minimax value at `depth` plies
/// (highest for White, lowest for Black); `None` when `color` has no move.
pub fn get_best_move(state: &GameState, depth: u8, color: Color) -> (res: Option<MovePair>)
    requires
        all_moves_defined(state.board, state.current_turn, color),
        depth >= 1 || all_moves(state.board, state.current_turn, color).len() == 0,
    ensures
        ({
            let moves = all_moves(state.board, state.current_turn, color);
            &&& moves.len() == 0 ==> res is None
            &&& moves.len() > 0 ==> res == best_upto(*state, moves, depth as nat, color == Color::White, moves.len()).1
        }),
{
    let moves = state.get_all_legal_moves(color);
    if moves.is_empty() {
        return None;
    }
    let ghost s0 = *state;
    proof {
        lemma_moves_legal(s0.board, s0.current_turn, color, 8, 0);
    }
    let mut best_move: Option<MovePair> = None;
    let mut alpha: i32 = i32::MIN;
    let mut beta: i32 = i32::MAX;
    if color == Color::White {
        let mut max_eval: i32 = i32::MIN;
        let mut i: usize = 0;
        while i < moves.len()
            invariant
                *state == s0,
                color == Color::White,
                depth >= 1,
                all_moves_defined(s0.board, s0.current_turn, color),
                moves@ == all_moves(s0.board, s0.current_turn, color),
                forall|j: int| 0 <= j < moves@.len() ==> {
                    let m = #[trigger] moves@[j];
                    &&& on_board(m.0.0 as int, m.0.1 as int)
                    &&& on_board(m.1.0 as int, m.1.1 as int)
                    &&& (s0.board[m.0.0 as int][m.0.1 as int] matches Some(p) && p.color == color)
                    &&& legal(s0.board, s0.current_turn, m.0.0 as int, m.0.1 as int, m.1.0 as int, m.1.1 as int)
                },
                i <= moves.len(),
                (max_eval as int, best_move) == best_upto(s0, moves@, depth as nat, true, i as nat),
                alpha == max_eval,
                beta == i32::MAX,
            decreases moves.len() - i,
        {
            let ((fr, fc), (tr, tc)) = moves[i];
            let ghost m = moves@[i as int];
            let mut next_state = GameState { board: state.board, current_turn: state.current_turn };
            if next_state.move_piece(fr, fc, tr, tc).is_ok() {
                let ghost cs = next_state;
                let eval = minimax(&mut next_state, depth - 1, alpha, beta, false);
                proof {
                    assert(cs == child(s0, m));
                    lemma_mm_bound(child(s0, m), (depth - 1) as nat, false);
                }
                if eval > max_eval {
                    max_eval = eval;
                    best_move = Some(((fr, fc), (tr, tc)));
                }
                if eval > alpha {
                    alpha = eval;
                }
            }
            i += 1;
        }
    } else {
        let mut min_eval: i32 = i32::MAX;
        let mut i: usize = 0;
        while i < moves.len()
            invariant
                *state == s0,
                color == Color::Black,
                depth >= 1,
                all_moves_defined(s0.board, s0.current_turn, color),
                moves@ == all_moves(s0.board, s0.current_turn, color),
                forall|j: int| 0 <= j < moves@.len() ==> {
                    let m = #[trigger] moves@[j];
                    &&& on_board(m.0.0 as int, m.0.1 as int)
                    &&& on_board(m.1.0 as int, m.1.1 as int)
                    &&& (s0.board[m.0.0 as int][m.0.1 as int] matches Some(p) && p.color == color)
                    &&& legal(s0.board, s0.current_turn, m.0.0 as int, m.0.1 as int, m.1.0 as int, m.1.1 as int)
                },
                i <= moves.len(),
                (min_eval as int, best_move) == best_upto(s0, moves@, depth as nat, false, i as nat),
                beta == min_eval,
                alpha == i32::MIN,
            decreases moves.len() - i,
        {
            let ((fr, fc), (tr, tc)) = moves[i];
            let ghost m = moves@[i as int];
            let mut next_state = GameState { board: state.board, current_turn: state.current_turn };
            if next_state.move_piece(fr, fc, tr, tc).is_ok() {
                let ghost cs = next_state;
                let eval = minimax(&mut next_state, depth - 1, alpha, beta, true);
                proof {
                    assert(cs == child(s0, m));
                    lemma_mm_bound(child(s0, m), (depth - 1) as nat, true);
                }
                if eval < min_eval {
                    min_eval = eval;
                    best_move = Some(((fr, fc), (tr, tc)));
                }
                if eval < beta {
                    beta = eval;
                }
            }
            i += 1;
        }
    }
    best_move
}

} // verus!
