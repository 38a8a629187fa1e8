use vstd::prelude::*;
use super::board::{grid_set, BoardGrid, Color, Piece, PieceType, Square};

verus! {

// ---------------------------------------------------------------------------
// Geometry
// ---------------------------------------------------------------------------

pub open spec fn abs(x: int) -> int {
    if x < 0 { -x } else { x }
}

pub open spec fn sign(x: int) -> int {
    if x > 0 { 1 } else if x < 0 { -1 } else { 0 }
}

pub open spec fn on_board(r: int, c: int) -> bool {
    0 <= r < 8 && 0 <= c < 8
}

/// The coordinate reached from `x` after `k` unit steps in direction `s`.
pub open spec fn step(x: int, s: int, k: int) -> int {
    if s > 0 { x + k } else if s < 0 { x - k } else { x }
}

/// Two distinct squares on one rank, file or diagonal.
pub open spec fn aligned(fr: int, fc: int, tr: int, tc: int) -> bool {
    &&& !(fr == tr && fc == tc)
    &&& (fr == tr || fc == tc || abs(tr - fr) == abs(tc - fc))
}

/// Number of unit steps from one square to an aligned one.
pub open spec fn line_len(fr: int, fc: int, tr: int, tc: int) -> int {
    if abs(tr - fr) >= abs(tc - fc) { abs(tr - fr) } else { abs(tc - fc) }
}

/// The `k`-th square on the way from `(fr, fc)` to `(tr, tc)` is empty.
pub open spec fn ray_empty(b: BoardGrid, fr: int, fc: int, tr: int, tc: int, k: int) -> bool {
    b[step(fr, sign(tr - fr), k)][step(fc, sign(tc - fc), k)].is_none()
}

/// Every square strictly between two aligned squares is empty.
pub open spec fn path_clear(b: BoardGrid, fr: int, fc: int, tr: int, tc: int) -> bool {
    forall|k: int| 0 < k < line_len(fr, fc, tr, tc) ==> #[trigger] ray_empty(b, fr, fc, tr, tc, k)
}

/// The piece that starts on column `c` of a back rank.
pub open spec fn back_rank(c: int) -> PieceType {
    if c == 0 || c == 7 {
        PieceType::Rook
    } else if c == 1 || c == 6 {
        PieceType::Knight
    } else if c == 2 || c == 5 {
        PieceType::Bishop
    } else if c == 3 {
        PieceType::Queen
    } else {
        PieceType::King
    }
}

/// The square `(r, c)` of the standard starting position.
pub open spec fn initial_square(r: int, c: int) -> Square {
    if r == 0 {
        Some(Piece { piece_type: back_rank(c), color: Color::Black, has_moved: false })
    } else if r == 1 {
        Some(Piece { piece_type: PieceType::Pawn, color: Color::Black, has_moved: false })
    } else if r == 6 {
        Some(Piece { piece_type: PieceType::Pawn, color: Color::White, has_moved: false })
    } else if r == 7 {
        Some(Piece { piece_type: back_rank(c), color: Color::White, has_moved: false })
    } else {
        None
    }
}

// ---------------------------------------------------------------------------
// Moves
// ---------------------------------------------------------------------------

/// Rows run from Black's side (0) to White's side (7): White pawns move up.
pub open spec fn pawn_dir(color: Color) -> int {
    if color == Color::White { -1 } else { 1 }
}

pub open spec fn opponent(color: Color) -> Color {
    match color {
        Color::White => Color::Black,
        Color::Black => Color::White,
    }
}

/// A pawn's move: one step forward onto an empty square, two steps from an
/// unmoved pawn through two empty squares, or a diagonal step onto a piece.
pub open spec fn pawn_move(b: BoardGrid, color: Color, fr: int, fc: int, tr: int, tc: int, has_moved: bool) -> bool {
    let dir = pawn_dir(color);
    let dr = tr - fr;
    let dc = tc - fc;
    if dc == 0 {
        (dr == dir && b[tr][tc].is_none())
        || (dr == 2 * dir && !has_moved && b[tr][tc].is_none() && b[fr + dir][tc].is_none())
    } else {
        abs(dc) == 1 && dr == dir && b[tr][tc].is_some()
    }
}

/// The movement pattern of a piece, ignoring whose turn it is and what stands on the target.
pub open spec fn piece_moves(b: BoardGrid, p: Piece, fr: int, fc: int, tr: int, tc: int) -> bool {
    let dr = tr - fr;
    let dc = tc - fc;
    match p.piece_type {
        PieceType::Pawn => pawn_move(b, p.color, fr, fc, tr, tc, p.has_moved),
        PieceType::Knight => (abs(dr) == 2 && abs(dc) == 1) || (abs(dr) == 1 && abs(dc) == 2),
        PieceType::Bishop => abs(dr) == abs(dc) && path_clear(b, fr, fc, tr, tc),
        PieceType::Rook => (dr == 0 || dc == 0) && path_clear(b, fr, fc, tr, tc),
        PieceType::Queen => (abs(dr) == abs(dc) || dr == 0 || dc == 0) && path_clear(b, fr, fc, tr, tc),
        PieceType::King => abs(dr) <= 1 && abs(dc) <= 1,
    }
}

/// A pseudo-legal move of the side to move (own king safety not considered).
pub open spec fn valid_move(b: BoardGrid, turn: Color, fr: int, fc: int, tr: int, tc: int) -> bool {
    match b[fr][fc] {
        None => false,
        Some(p) => {
            &&& p.color == turn
            &&& !(b[tr][tc] matches Some(t) && t.color == p.color)
            &&& !(fr == tr && fc == tc)
            &&& piece_moves(b, p, fr, fc, tr, tc)
        },
    }
}

/// Whether piece `p` on `(r, c)` attacks the square `(kr, kc)`.
pub open spec fn attacks(b: BoardGrid, p: Piece, r: int, c: int, kr: int, kc: int) -> bool {
    let dr = kr - r;
    let dc = kc - c;
    match p.piece_type {
        PieceType::Pawn => dr == pawn_dir(p.color) && abs(dc) == 1,
        PieceType::Knight => (abs(dr) == 2 && abs(dc) == 1) || (abs(dr) == 1 && abs(dc) == 2),
        PieceType::Bishop => abs(dr) == abs(dc) && path_clear(b, r, c, kr, kc),
        PieceType::Rook => (dr == 0 || dc == 0) && path_clear(b, r, c, kr, kc),
        PieceType::Queen => (abs(dr) == abs(dc) || dr == 0 || dc == 0) && path_clear(b, r, c, kr, kc),
        PieceType::King => abs(dr) <= 1 && abs(dc) <= 1,
    }
}

/// What a pawn may do: straight ahead only onto an empty square, one step, or two steps
/// when it has not moved yet and the square it passes over is empty; sideways only one
/// column, one step ahead, and only to take an enemy piece.  White pawns go toward row 0,
/// black pawns toward row 7.
pub proof fn lemma_pawn_moves(b: BoardGrid, turn: Color, fr: int, fc: int, tr: int, tc: int)
    requires
        on_board(fr, fc),
        on_board(tr, tc),
        b[fr][fc] matches Some(p) && p.piece_type == PieceType::Pawn && p.color == turn,
    ensures
        ({
            let p = b[fr][fc]->Some_0;
            let ahead = if p.color == Color::White { -1int } else { 1int };
            valid_move(b, turn, fr, fc, tr, tc) <==> {
                ||| tc == fc && b[tr][tc] is None && (tr == fr + ahead
                    || (tr == fr + 2 * ahead && !p.has_moved && b[fr + ahead][fc] is None))
                ||| (tc - fc == 1 || tc - fc == -1) && tr == fr + ahead
                    && (b[tr][tc] matches Some(q) && q.color != p.color)
            }
        }),
{
}

/// No move takes a piece of the mover's own color, and only the side to move moves.
pub proof fn lemma_moves_spare_own_pieces(b: BoardGrid, turn: Color, fr: int, fc: int, tr: int, tc: int)
    requires
        valid_move(b, turn, fr, fc, tr, tc),
    ensures
        b[fr][fc] matches Some(p) && p.color == turn,
        !(b[tr][tc] matches Some(q) && q.color == turn),
        fr != tr || fc != tc,
{
}

/// A pawn attacks exactly the two squares diagonally ahead of it: a piece straight in
/// front of a pawn, or beside or behind it, is not attacked by it.
pub proof fn lemma_pawn_attacks(b: BoardGrid, p: Piece, r: int, c: int, kr: int, kc: int)
    requires
        p.piece_type == PieceType::Pawn,
    ensures
        attacks(b, p, r, c, kr, kc) <==> (kc - c == 1 || kc - c == -1)
            && kr == r + (if p.color == Color::White { -1int } else { 1int }),
{
}

/// `x` lies strictly between `a` and `b`.
pub open spec fn strictly_between(a: int, x: int, b: int) -> bool {
    (a < x && x < b) || (b < x && x < a)
}

/// The path between two squares on one rank, file or diagonal is clear exactly when every
/// square strictly between them is empty.
pub proof fn lemma_path_clear_iff_between_empty(b: BoardGrid, fr: int, fc: int, tr: int, tc: int)
    requires
        fr == tr || fc == tc || tr - fr == tc - fc || tr - fr == fc - tc,
    ensures
        path_clear(b, fr, fc, tr, tc) <==> forall|x: int, y: int|
            ({
                ||| fr == tr && x == fr && strictly_between(fc, y, tc)
                ||| fc == tc && y == fc && strictly_between(fr, x, tr)
                ||| fr != tr && fc != tc && strictly_between(fr, x, tr)
                    && (tr - fr == tc - fc ==> y - fc == x - fr) && (tr - fr == fc - tc ==> y - fc == fr - x)
            }) ==> (#[trigger] b[x][y]) is None,
{
    let n = line_len(fr, fc, tr, tc);
    let between = |x: int, y: int| {
        ||| fr == tr && x == fr && strictly_between(fc, y, tc)
        ||| fc == tc && y == fc && strictly_between(fr, x, tr)
        ||| fr != tr && fc != tc && strictly_between(fr, x, tr)
            && (tr - fr == tc - fc ==> y - fc == x - fr) && (tr - fr == fc - tc ==> y - fc == fr - x)
    };
    if path_clear(b, fr, fc, tr, tc) {
        assert forall|x: int, y: int| between(x, y) implies (#[trigger] b[x][y]) is None by {
            let k = if fr == tr { abs(y - fc) } else { abs(x - fr) };
            assert(0 < k < n);
            assert(ray_empty(b, fr, fc, tr, tc, k));
            assert(step(fr, sign(tr - fr), k) == x);
            assert(step(fc, sign(tc - fc), k) == y);
        }
    }
    if forall|x: int, y: int| between(x, y) ==> (#[trigger] b[x][y]) is None {
        assert forall|k: int| 0 < k < n implies #[trigger] ray_empty(b, fr, fc, tr, tc, k) by {
            let x = step(fr, sign(tr - fr), k);
            let y = step(fc, sign(tc - fc), k);
            assert(between(x, y));
            assert(b[x][y] is None);
        }
    }
}

/// How each piece moves, ignoring whose turn it is and what stands on the target: a knight
/// jumps two squares one way and one the other, a king steps to any neighbouring square, a
/// rook keeps its rank or file, a bishop its diagonal and a queen either, each only along a
/// clear path.
pub proof fn lemma_piece_patterns(b: BoardGrid, p: Piece, fr: int, fc: int, tr: int, tc: int)
    requires
        p.piece_type != PieceType::Pawn,
    ensures
        ({
            let dr = if tr >= fr { tr - fr } else { fr - tr };
            let dc = if tc >= fc { tc - fc } else { fc - tc };
            piece_moves(b, p, fr, fc, tr, tc) <==> match p.piece_type {
                PieceType::Knight => dr + dc == 3 && dr >= 1 && dc >= 1,
                PieceType::King => dr <= 1 && dc <= 1,
                PieceType::Rook => (dr == 0 || dc == 0) && path_clear(b, fr, fc, tr, tc),
                PieceType::Bishop => dr == dc && path_clear(b, fr, fc, tr, tc),
                PieceType::Queen => (dr == 0 || dc == 0 || dr == dc) && path_clear(b, fr, fc, tr, tc),
                PieceType::Pawn => false,
            }
        }),
{
}

/// Every piece but the pawn attacks exactly the squares it could move to.
pub proof fn lemma_attacks_like_moves(b: BoardGrid, p: Piece, r: int, c: int, kr: int, kc: int)
    requires
        p.piece_type != PieceType::Pawn,
    ensures
        attacks(b, p, r, c, kr, kc) <==> piece_moves(b, p, r, c, kr, kc),
{
}

/// A piece hostile to `color` stands on `(r, c)` and attacks `(kr, kc)`.
pub open spec fn attacker_at(b: BoardGrid, color: Color, kr: int, kc: int, r: int, c: int) -> bool {
    b[r][c] matches Some(p) && p.color != color && attacks(b, p, r, c, kr, kc)
}

/// The square `(kr, kc)` is attacked by some piece hostile to `color`.
pub open spec fn attacked(b: BoardGrid, color: Color, kr: int, kc: int) -> bool {
    exists|r: int, c: int| on_board(r, c) && #[trigger] attacker_at(b, color, kr, kc, r, c)
}

pub open spec fn is_king_of(sq: Square, color: Color) -> bool {
    sq matches Some(p) && p.piece_type == PieceType::King && p.color == color
}

pub open spec fn has_king(b: BoardGrid, color: Color) -> bool {
    exists|r: int, c: int| on_board(r, c) && #[trigger] is_king_of(b[r][c], color)
}

/// The first column, from `c` on, of row `r` that holds the king of `color`.
pub open spec fn first_king_col(b: BoardGrid, color: Color, r: int, c: int) -> Option<int>
    decreases 8 - c,
{
    if c < 0 || c >= 8 {
        None
    } else if is_king_of(b[r][c], color) {
        Some(c)
    } else {
        first_king_col(b, color, r, c + 1)
    }
}

/// Where a row-by-row scan of the first `rows` rows last finds the king of `color`:
/// the last such row, and the first such square in it.
pub open spec fn king_scan(b: BoardGrid, color: Color, rows: int) -> Option<(int, int)>
    decreases rows,
{
    if rows <= 0 {
        None
    } else {
        match first_king_col(b, color, rows - 1, 0) {
            Some(c) => Some((rows - 1, c)),
            None => king_scan(b, color, rows - 1),
        }
    }
}

pub open spec fn king_pos(b: BoardGrid, color: Color) -> Option<(int, int)> {
    king_scan(b, color, 8)
}

/// The board after the piece on `(fr, fc)` is carried to `(tr, tc)` unchanged.
pub open spec fn moved(b: BoardGrid, fr: int, fc: int, tr: int, tc: int) -> BoardGrid {
    grid_set(grid_set(b, tr, tc, b[fr][fc]), fr, fc, None)
}

/// Whether the move would leave the mover's king attacked.
pub open spec fn would_check(b: BoardGrid, fr: int, fc: int, tr: int, tc: int) -> bool {
    let t = moved(b, fr, fc, tr, tc);
    let color = b[fr][fc]->Some_0.color;
    match king_pos(t, color) {
        Some(k) => attacked(t, color, k.0, k.1),
        None => true,
    }
}

/// Whether the king of `color` stands attacked.
pub open spec fn in_check(b: BoardGrid, color: Color) -> bool {
    match king_pos(b, color) {
        Some(k) => attacked(b, color, k.0, k.1),
        None => false,
    }
}

/// A fully legal move of the side to move.
pub open spec fn legal(b: BoardGrid, turn: Color, fr: int, fc: int, tr: int, tc: int) -> bool {
    valid_move(b, turn, fr, fc, tr, tc) && !would_check(b, fr, fc, tr, tc)
}

/// Moves are only generated safely when the mover has a king, or nothing to move.
pub open spec fn moves_from_defined(b: BoardGrid, turn: Color, fr: int, fc: int) -> bool {
    has_king(b, turn) || forall|tr: int, tc: int| on_board(tr, tc) ==> !#[trigger] valid_move(b, turn, fr, fc, tr, tc)
}

/// The targets of the legal moves from `(row, col)` among the squares before `(r, c)`
/// in row-major order.
pub open spec fn targets_upto(b: BoardGrid, turn: Color, row: int, col: int, r: int, c: int) -> Seq<(usize, usize)>
    decreases r, c,
{
    if r <= 0 && c <= 0 {
        Seq::empty()
    } else if c <= 0 {
        targets_upto(b, turn, row, col, r - 1, 8)
    } else {
        let prev = targets_upto(b, turn, row, col, r, c - 1);
        if legal(b, turn, row, col, r, c - 1) {
            prev.push((r as usize, (c - 1) as usize))
        } else {
            prev
        }
    }
}

/// The targets of the legal moves of the piece on `(row, col)`, in row-major order.
pub open spec fn valid_targets(b: BoardGrid, turn: Color, row: int, col: int) -> Seq<(usize, usize)> {
    match b[row][col] {
        Some(p) => if p.color == turn { targets_upto(b, turn, row, col, 8, 0) } else { Seq::empty() },
        None => Seq::empty(),
    }
}

pub type MovePair = ((usize, usize), (usize, usize));

/// The legal moves of the pieces of `color` on squares before `(r, c)`, in row-major order.
pub open spec fn moves_upto(b: BoardGrid, turn: Color, color: Color, r: int, c: int) -> Seq<MovePair>
    decreases r, c,
{
    if r <= 0 && c <= 0 {
        Seq::empty()
    } else if c <= 0 {
        moves_upto(b, turn, color, r - 1, 8)
    } else {
        let prev = moves_upto(b, turn, color, r, c - 1);
        if b[r][c - 1] matches Some(p) && p.color == color {
            prev + valid_targets(b, turn, r, c - 1).map_values(
                |m: (usize, usize)| ((r as usize, (c - 1) as usize), m),
            )
        } else {
            prev
        }
    }
}

pub open spec fn all_moves(b: BoardGrid, turn: Color, color: Color) -> Seq<MovePair> {
    moves_upto(b, turn, color, 8, 0)
}

/// All legal moves of `color` can be generated without a missing king.
pub open spec fn all_moves_defined(b: BoardGrid, turn: Color, color: Color) -> bool {
    color != turn || has_king(b, turn) || forall|fr: int, fc: int, tr: int, tc: int|
        on_board(fr, fc) && on_board(tr, tc) ==> !#[trigger] valid_move(b, turn, fr, fc, tr, tc)
}

// ---------------------------------------------------------------------------
// Lemmas on the king scan
// ---------------------------------------------------------------------------

pub proof fn lemma_first_col_sound(b: BoardGrid, color: Color, r: int, c: int)
    ensures
        first_king_col(b, color, r, c) matches Some(x) ==> c <= x < 8 && 0 <= x && is_king_of(b[r][x], color),
    decreases 8 - c,
{
    if 0 <= c < 8 && !is_king_of(b[r][c], color) {
        lemma_first_col_sound(b, color, r, c + 1);
    }
}

pub proof fn lemma_first_col_complete(b: BoardGrid, color: Color, r: int, c: int, x: int)
    requires
        0 <= c <= x < 8,
        is_king_of(b[r][x], color),
    ensures
        first_king_col(b, color, r, c) is Some,
    decreases 8 - c,
{
    if !is_king_of(b[r][c], color) {
        lemma_first_col_complete(b, color, r, c + 1, x);
    }
}

pub proof fn lemma_scan_sound(b: BoardGrid, color: Color, rows: int)
    requires
        rows <= 8,
    ensures
        king_scan(b, color, rows) matches Some(k) ==> 0 <= k.0 < rows && on_board(k.0, k.1) && is_king_of(b[k.0][k.1], color),
    decreases rows,
{
    if rows > 0 {
        lemma_first_col_sound(b, color, rows - 1, 0);
        lemma_scan_sound(b, color, rows - 1);
    }
}

pub proof fn lemma_scan_complete(b: BoardGrid, color: Color, rows: int, r: int, c: int)
    requires
        0 <= r < rows,
        on_board(r, c),
        is_king_of(b[r][c], color),
    ensures
        king_scan(b, color, rows) is Some,
    decreases rows,
{
    if first_king_col(b, color, rows - 1, 0) is None {
        if r == rows - 1 {
            lemma_first_col_complete(b, color, r, 0, c);
        } else {
            lemma_scan_complete(b, color, rows - 1, r, c);
        }
    }
}

/// The scan finds a king exactly when there is one, and what it finds is a king.
pub proof fn lemma_king_pos(b: BoardGrid, color: Color)
    ensures
        king_pos(b, color) is Some <==> has_king(b, color),
        king_pos(b, color) matches Some(k) ==> on_board(k.0, k.1) && is_king_of(b[k.0][k.1], color),
{
    lemma_scan_sound(b, color, 8);
    if has_king(b, color) {
        let (r, c) = choose|r: int, c: int| on_board(r, c) && #[trigger] is_king_of(b[r][c], color);
        lemma_scan_complete(b, color, 8, r, c);
    }
}

/// A pseudo-legal move keeps the mover's king on the board.
pub proof fn lemma_move_keeps_king(b: BoardGrid, turn: Color, fr: int, fc: int, tr: int, tc: int)
    requires
        on_board(fr, fc),
        on_board(tr, tc),
        valid_move(b, turn, fr, fc, tr, tc),
        has_king(b, turn),
    ensures
        has_king(moved(b, fr, fc, tr, tc), turn),
        king_pos(moved(b, fr, fc, tr, tc), turn) is Some,
{
    let t = moved(b, fr, fc, tr, tc);
    let (r, c) = choose|r: int, c: int| on_board(r, c) && #[trigger] is_king_of(b[r][c], turn);
    if r == fr && c == fc {
        assert(is_king_of(t[tr][tc], turn));
    } else {
        assert(is_king_of(t[r][c], turn));
    }
    lemma_king_pos(t, turn);
}

/// Every generated target is a legal move's destination.
pub proof fn lemma_targets_legal(b: BoardGrid, turn: Color, row: int, col: int, r: int, c: int)
    requires
        (0 <= r < 8 && 0 <= c <= 8) || (r == 8 && c == 0),
    ensures
        forall|i: int| 0 <= i < targets_upto(b, turn, row, col, r, c).len() ==> {
            let t = #[trigger] targets_upto(b, turn, row, col, r, c)[i];
            on_board(t.0 as int, t.1 as int) && legal(b, turn, row, col, t.0 as int, t.1 as int)
        },
    decreases r, c,
{
    if r <= 0 && c <= 0 {
    } else if c <= 0 {
        lemma_targets_legal(b, turn, row, col, r - 1, 8);
        assert(targets_upto(b, turn, row, col, r, c) == targets_upto(b, turn, row, col, r - 1, 8));
    } else {
        lemma_targets_legal(b, turn, row, col, r, c - 1);
        let prev = targets_upto(b, turn, row, col, r, c - 1);
        if legal(b, turn, row, col, r, c - 1) {
            assert(targets_upto(b, turn, row, col, r, c) == prev.push((r as usize, (c - 1) as usize)));
        } else {
            assert(targets_upto(b, turn, row, col, r, c) == prev);
        }
        assert forall|i: int| 0 <= i < targets_upto(b, turn, row, col, r, c).len() implies {
            let t = #[trigger] targets_upto(b, turn, row, col, r, c)[i];
            on_board(t.0 as int, t.1 as int) && legal(b, turn, row, col, t.0 as int, t.1 as int)
        } by {
            if i < prev.len() {
                assert(targets_upto(b, turn, row, col, r, c)[i] == prev[i]);
            }
        }
    }
}

/// Every generated move starts from a piece of the given color and is legal.
pub proof fn lemma_moves_legal(b: BoardGrid, turn: Color, color: Color, r: int, c: int)
    requires
        (0 <= r < 8 && 0 <= c <= 8) || (r == 8 && c == 0),
    ensures
        forall|i: int| 0 <= i < moves_upto(b, turn, color, r, c).len() ==> {
            let m = #[trigger] moves_upto(b, turn, color, r, c)[i];
            &&& on_board(m.0.0 as int, m.0.1 as int)
            &&& on_board(m.1.0 as int, m.1.1 as int)
            &&& (b[m.0.0 as int][m.0.1 as int] matches Some(p) && p.color == color)
            &&& legal(b, turn, m.0.0 as int, m.0.1 as int, m.1.0 as int, m.1.1 as int)
        },
    decreases r, c,
{
    if r <= 0 && c <= 0 {
    } else if c <= 0 {
        lemma_moves_legal(b, turn, color, r - 1, 8);
    } else {
        lemma_moves_legal(b, turn, color, r, c - 1);
        let prev = moves_upto(b, turn, color, r, c - 1);
        if b[r][c - 1] matches Some(p) && p.color == color {
            let ts = valid_targets(b, turn, r, c - 1);
            lemma_targets_legal(b, turn, r, c - 1, 8, 0);
            let mapped = ts.map_values(|m: (usize, usize)| ((r as usize, (c - 1) as usize), m));
            assert forall|i: int| 0 <= i < moves_upto(b, turn, color, r, c).len() implies {
                let m = #[trigger] moves_upto(b, turn, color, r, c)[i];
                &&& on_board(m.0.0 as int, m.0.1 as int)
                &&& on_board(m.1.0 as int, m.1.1 as int)
                &&& (b[m.0.0 as int][m.0.1 as int] matches Some(p) && p.color == color)
                &&& legal(b, turn, m.0.0 as int, m.0.1 as int, m.1.0 as int, m.1.1 as int)
            } by {
                if i >= prev.len() {
                    let j = i - prev.len();
                    assert(moves_upto(b, turn, color, r, c)[i] == mapped[j]);
                    assert(ts[j] == targets_upto(b, turn, r, c - 1, 8, 0)[j]);
                }
            }
        }
    }
}

/// Every legal move's destination before `(r, c)` is among the generated targets.
pub proof fn lemma_targets_complete(b: BoardGrid, turn: Color, row: int, col: int, r: int, c: int, tr: int, tc: int)
    requires
        (0 <= r < 8 && 0 <= c <= 8) || (r == 8 && c == 0),
        on_board(tr, tc),
        tr < r || (tr == r && tc < c),
        legal(b, turn, row, col, tr, tc),
    ensures
        targets_upto(b, turn, row, col, r, c).contains((tr as usize, tc as usize)),
    decreases r, c,
{
    if r <= 0 && c <= 0 {
    } else if c <= 0 {
        lemma_targets_complete(b, turn, row, col, r - 1, 8, tr, tc);
    } else {
        let prev = targets_upto(b, turn, row, col, r, c - 1);
        if tr == r && tc == c - 1 {
            assert(targets_upto(b, turn, row, col, r, c) == prev.push((r as usize, (c - 1) as usize)));
            assert(targets_upto(b, turn, row, col, r, c)[prev.len() as int] == (tr as usize, tc as usize));
        } else {
            lemma_targets_complete(b, turn, row, col, r, c - 1, tr, tc);
            let i = choose|i: int| 0 <= i < prev.len() && prev[i] == (tr as usize, tc as usize);
            if legal(b, turn, row, col, r, c - 1) {
                assert(targets_upto(b, turn, row, col, r, c)[i] == prev[i]);
            }
        }
    }
}

/// Square `(x, y)` comes before square `(r, c)` in row-major order.
pub open spec fn comes_before(x: int, y: int, r: int, c: int) -> bool {
    x < r || (x == r && y < c)
}

/// The targets generated before `(r, c)` lie before `(r, c)` and come in strictly
/// increasing row-major order.
pub proof fn lemma_targets_ordered(b: BoardGrid, turn: Color, row: int, col: int, r: int, c: int)
    requires
        (0 <= r < 8 && 0 <= c <= 8) || (r == 8 && c == 0),
    ensures
        forall|i: int| 0 <= i < targets_upto(b, turn, row, col, r, c).len() ==> {
            let t = #[trigger] targets_upto(b, turn, row, col, r, c)[i];
            comes_before(t.0 as int, t.1 as int, r, c)
        },
        forall|i: int, j: int| 0 <= i < j < targets_upto(b, turn, row, col, r, c).len() ==> {
            let s = #[trigger] targets_upto(b, turn, row, col, r, c)[i];
            let t = #[trigger] targets_upto(b, turn, row, col, r, c)[j];
            comes_before(s.0 as int, s.1 as int, t.0 as int, t.1 as int)
        },
    decreases r, c,
{
    if r <= 0 && c <= 0 {
    } else if c <= 0 {
        lemma_targets_ordered(b, turn, row, col, r - 1, 8);
        assert(targets_upto(b, turn, row, col, r, c) == targets_upto(b, turn, row, col, r - 1, 8));
    } else {
        lemma_targets_ordered(b, turn, row, col, r, c - 1);
        let prev = targets_upto(b, turn, row, col, r, c - 1);
        let cur = targets_upto(b, turn, row, col, r, c);
        if legal(b, turn, row, col, r, c - 1) {
            assert(cur == prev.push((r as usize, (c - 1) as usize)));
            assert forall|i: int| 0 <= i < cur.len() implies {
                let t = #[trigger] cur[i];
                comes_before(t.0 as int, t.1 as int, r, c)
            } by {
                if i < prev.len() {
                    assert(cur[i] == prev[i]);
                }
            }
            assert forall|i: int, j: int| 0 <= i < j < cur.len() implies {
                let s = #[trigger] cur[i];
                let t = #[trigger] cur[j];
                comes_before(s.0 as int, s.1 as int, t.0 as int, t.1 as int)
            } by {
                assert(cur[i] == prev[i]);
                if j < prev.len() {
                    assert(cur[j] == prev[j]);
                }
            }
        } else {
            assert(cur == prev);
        }
    }
}

/// The squares listed for a piece come in strictly increasing row-major order, so no
/// square is listed twice.
pub proof fn lemma_targets_in_order(b: BoardGrid, turn: Color, row: int, col: int)
    ensures
        forall|i: int, j: int| 0 <= i < j < valid_targets(b, turn, row, col).len() ==> {
            let s = #[trigger] valid_targets(b, turn, row, col)[i];
            let t = #[trigger] valid_targets(b, turn, row, col)[j];
            comes_before(s.0 as int, s.1 as int, t.0 as int, t.1 as int)
        },
{
    lemma_targets_ordered(b, turn, row, col, 8, 0);
}

/// The moves of `color` generated before `(r, c)` are not empty exactly when some piece of
/// `color` on a square before `(r, c)` has a legal move.
pub proof fn lemma_moves_upto_nonempty(b: BoardGrid, turn: Color, color: Color, r: int, c: int)
    requires
        (0 <= r < 8 && 0 <= c <= 8) || (r == 8 && c == 0),
    ensures
        moves_upto(b, turn, color, r, c).len() > 0 <==> exists|x: int, y: int|
            on_board(x, y) && comes_before(x, y, r, c) && (b[x][y] matches Some(p) && p.color == color)
                && #[trigger] valid_targets(b, turn, x, y).len() > 0,
    decreases r, c,
{
    if r <= 0 && c <= 0 {
    } else if c <= 0 {
        lemma_moves_upto_nonempty(b, turn, color, r - 1, 8);
    } else {
        lemma_moves_upto_nonempty(b, turn, color, r, c - 1);
        let prev = moves_upto(b, turn, color, r, c - 1);
        let ts = valid_targets(b, turn, r, c - 1);
        if b[r][c - 1] matches Some(p) && p.color == color {
            let mapped = ts.map_values(|m: (usize, usize)| ((r as usize, (c - 1) as usize), m));
            assert(moves_upto(b, turn, color, r, c) == prev + mapped);
            assert(moves_upto(b, turn, color, r, c).len() == prev.len() + ts.len());
            if ts.len() > 0 {
                assert(on_board(r, c - 1) && comes_before(r, c - 1, r, c));
            }
        }
    }
}

/// The moves listed for a piece are exactly the moves that `move_piece` plays from its
/// square: a move is listed if and only if it is legal.
pub proof fn lemma_listed_iff_legal(b: BoardGrid, turn: Color, fr: int, fc: int, tr: int, tc: int)
    requires
        on_board(fr, fc),
        on_board(tr, tc),
    ensures
        valid_targets(b, turn, fr, fc).contains((tr as usize, tc as usize)) <==> legal(b, turn, fr, fc, tr, tc),
{
    if legal(b, turn, fr, fc, tr, tc) {
        lemma_targets_complete(b, turn, fr, fc, 8, 0, tr, tc);
    }
    if valid_targets(b, turn, fr, fc).contains((tr as usize, tc as usize)) {
        lemma_targets_legal(b, turn, fr, fc, 8, 0);
        let i = choose|i: int| 0 <= i < valid_targets(b, turn, fr, fc).len()
            && valid_targets(b, turn, fr, fc)[i] == (tr as usize, tc as usize);
        assert(targets_upto(b, turn, fr, fc, 8, 0)[i] == (tr as usize, tc as usize));
    }
}

} // verus!
