use vstd::prelude::*;
use super::board::{grid_set, BoardGrid, Color, Piece, PieceType, Square};
use super::model::{
    abs, aligned, all_moves, attacked, comes_before, attacker_at, cannon_move, chariot_move, elephant_move,
    first_general_col, general_pos, general_scan, has_general, horse_move, in_check, in_palace,
    is_cannon, is_general_of, legal, lemma_general_pos, lemma_moves_legal, lemma_moves_upto_nonempty, line_len, moved,
    moves_upto, on_board, opponent, palace_move, path_clear, pseudo_legal, ray_sq,
    same_palace_half, screens_upto, sign, soldier_move, step, targets_upto, valid_targets,
    would_check, MovePair,
};
use super::search::{
    ab_sound, best_upto, child, first_line, fold_best, lemma_fold_mono, lemma_mm_bound, mm, move_legal,
    terminal_value,
};

verus! {

/// A janggi position: the board and the side to move.
pub struct GameState {
    pub board: BoardGrid,
    pub current_turn: Color,
}

/// How a game stands, as `GameState::get_status` reports it.
#[derive(Copy, Clone, Debug, PartialEq, Eq, Structural)]
pub enum Outcome {
    HanGeneralCaptured,
    ChoGeneralCaptured,
    /// Checkmate; the color is the winner.
    Checkmate(Color),
    Stalemate,
    Active,
}

/// The piece that starts on column `c` of a back rank.
pub open spec fn back_rank(c: int) -> Option<PieceType> {
    if c == 0 || c == 8 {
        Some(PieceType::Chariot)
    } else if c == 1 || c == 7 {
        Some(PieceType::Horse)
    } else if c == 2 || c == 6 {
        Some(PieceType::Elephant)
    } else if c == 3 || c == 5 {
        Some(PieceType::Advisor)
    } else {
        None
    }
}

pub open spec fn fresh(t: PieceType, color: Color) -> Square {
    Some(Piece { piece_type: t, color, has_moved: false })
}

/// The point `(r, c)` of the starting position: Han on rows 0-3, Cho on rows 6-9.
pub open spec fn initial_square(r: int, c: int) -> Square {
    let side = if r <= 4 { Color::Han } else { Color::Cho };
    let rank = if r <= 4 { r } else { 9 - r };
    if rank == 0 {
        match back_rank(c) {
            Some(t) => fresh(t, side),
            None => None,
        }
    } else if rank == 1 && c == 4 {
        fresh(PieceType::General, side)
    } else if rank == 2 && (c == 1 || c == 7) {
        fresh(PieceType::Cannon, side)
    } else if rank == 3 && c % 2 == 0 {
        fresh(PieceType::Soldier, side)
    } else {
        None
    }
}

/// The side to move has some legal move.
pub open spec fn has_any_move(b: BoardGrid, turn: Color) -> bool {
    exists|r: int, c: int|
        on_board(r, c) && (b[r][c] matches Some(p) && p.color == turn)
            && #[trigger] valid_targets(b, turn, r, c).len() > 0
}

/// The side to move has a legal move exactly when the list of all its legal moves is not
/// empty.
pub proof fn lemma_any_move_iff_listed(b: BoardGrid, turn: Color)
    ensures
        has_any_move(b, turn) <==> all_moves(b, turn, turn).len() > 0,
{
    lemma_moves_upto_nonempty(b, turn, turn, 10, 0);
}

/// What each status means.  A general is reported captured only when no point holds it (the
/// Han general first); otherwise the game is mated when the side to move has no legal move
/// and its general is attacked, and the winner is the other side; stalemated when it has no
/// legal move and its general is safe; and active exactly when it has a legal move.
pub proof fn lemma_status_meaning(b: BoardGrid, turn: Color)
    ensures
        spec_status(b, turn) == Outcome::HanGeneralCaptured <==> !exists|r: int, c: int|
            on_board(r, c) && (#[trigger] b[r][c] matches Some(p) && p.piece_type == PieceType::General
                && p.color == Color::Han),
        spec_status(b, turn) == Outcome::ChoGeneralCaptured ==> !exists|r: int, c: int|
            on_board(r, c) && (#[trigger] b[r][c] matches Some(p) && p.piece_type == PieceType::General
                && p.color == Color::Cho),
        spec_status(b, turn) matches Outcome::Checkmate(w) ==> w != turn && in_check(b, turn)
            && all_moves(b, turn, turn).len() == 0,
        spec_status(b, turn) == Outcome::Stalemate ==> !in_check(b, turn) && all_moves(b, turn, turn).len() == 0,
        spec_status(b, turn) == Outcome::Active <==> has_general(b, Color::Han) && has_general(b, Color::Cho)
            && all_moves(b, turn, turn).len() > 0,
{
    lemma_any_move_iff_listed(b, turn);
    if exists|r: int, c: int| on_board(r, c) && (#[trigger] b[r][c] matches Some(p) && p.piece_type == PieceType::General
        && p.color == Color::Han) {
        let (r, c) = choose|r: int, c: int| on_board(r, c) && (#[trigger] b[r][c] matches Some(p)
            && p.piece_type == PieceType::General && p.color == Color::Han);
        assert(is_general_of(b[r][c], Color::Han));
    }
    if exists|r: int, c: int| on_board(r, c) && (#[trigger] b[r][c] matches Some(p) && p.piece_type == PieceType::General
        && p.color == Color::Cho) {
        let (r, c) = choose|r: int, c: int| on_board(r, c) && (#[trigger] b[r][c] matches Some(p)
            && p.piece_type == PieceType::General && p.color == Color::Cho);
        assert(is_general_of(b[r][c], Color::Cho));
    }
}

pub open spec fn spec_status(b: BoardGrid, turn: Color) -> Outcome {
    if !has_general(b, Color::Han) {
        Outcome::HanGeneralCaptured
    } else if !has_general(b, Color::Cho) {
        Outcome::ChoGeneralCaptured
    } else if !has_any_move(b, turn) {
        if in_check(b, turn) {
            Outcome::Checkmate(opponent(turn))
        } else {
            Outcome::Stalemate
        }
    } else {
        Outcome::Active
    }
}

pub open spec fn status_text(o: Outcome) -> Seq<char> {
    match o {
        Outcome::HanGeneralCaptured => "Han General Captured: Cho Wins"@,
        Outcome::ChoGeneralCaptured => "Cho General Captured: Han Wins"@,
        Outcome::Checkmate(Color::Cho) => "Checkmate: Cho Wins"@,
        Outcome::Checkmate(Color::Han) => "Checkmate: Han Wins"@,
        Outcome::Stalemate => "Stalemate: Draw"@,
        Outcome::Active => "Active"@,
    }
}

/// The position after a move: the piece is marked as moved and the turn passes.
pub open spec fn apply_move(s: GameState, fr: int, fc: int, tr: int, tc: int) -> GameState {
    let p = s.board[fr][fc]->Some_0;
    GameState {
        board: grid_set(
            grid_set(s.board, tr, tc, Some(Piece { has_moved: true, ..p })),
            fr,
            fc,
            None,
        ),
        current_turn: opponent(s.current_turn),
    }
}

pub open spec fn piece_value(t: PieceType) -> int {
    match t {
        PieceType::Soldier => 20,
        PieceType::Advisor => 30,
        PieceType::Elephant => 30,
        PieceType::Horse => 50,
        PieceType::Cannon => 70,
        PieceType::Chariot => 130,
        PieceType::General => 9000,
    }
}

/// Material on one point, counted for Han and against Cho.
pub open spec fn square_value(sq: Square) -> int {
    match sq {
        Some(p) => if p.color == Color::Han { piece_value(p.piece_type) } else { -piece_value(p.piece_type) },
        None => 0,
    }
}

/// Material balance over the points before `(r, c)` in row-major order.
pub open spec fn material_upto(b: BoardGrid, r: int, c: int) -> int
    decreases r, c,
{
    if r <= 0 && c <= 0 {
        0
    } else if c <= 0 {
        material_upto(b, r - 1, 9)
    } else {
        material_upto(b, r, c - 1) + square_value(b[r][c - 1])
    }
}

pub open spec fn material(b: BoardGrid) -> int {
    material_upto(b, 10, 0)
}

/// Material before `(r, c)` loses exactly what stood on `(r0, c0)` when that point is
/// emptied, if the point comes before `(r, c)`, and nothing otherwise.
pub proof fn lemma_material_upto_without(b: BoardGrid, r0: int, c0: int, r: int, c: int)
    requires
        on_board(r0, c0),
        (0 <= r < 10 && 0 <= c <= 9) || (r == 10 && c == 0),
    ensures
        material_upto(b, r, c) - material_upto(grid_set(b, r0, c0, None), r, c)
            == if comes_before(r0, c0, r, c) { square_value(b[r0][c0]) } else { 0 },
    decreases r, c,
{
    let e = grid_set(b, r0, c0, None);
    if r <= 0 && c <= 0 {
    } else if c <= 0 {
        lemma_material_upto_without(b, r0, c0, r - 1, 9);
    } else {
        lemma_material_upto_without(b, r0, c0, r, c - 1);
        if r == r0 && c - 1 == c0 {
            assert(e[r][c - 1] is None);
        } else {
            assert(e[r][c - 1] == b[r][c - 1]);
        }
    }
}

/// Taking any piece off any board changes the evaluation by that piece's fixed worth:
/// soldier 20, advisor 30, elephant 30, horse 50, cannon 70, chariot 130, general 9000,
/// counted for Han and against Cho; an empty point changes nothing.
pub proof fn lemma_material_counts_each_piece(b: BoardGrid, r: int, c: int)
    requires
        on_board(r, c),
    ensures
        material(b) - material(grid_set(b, r, c, None)) == (match b[r][c] {
            Some(p) => (if p.color == Color::Han { 1int } else { -1int }) * match p.piece_type {
                PieceType::Soldier => 20int,
                PieceType::Advisor => 30int,
                PieceType::Elephant => 30int,
                PieceType::Horse => 50int,
                PieceType::Cannon => 70int,
                PieceType::Chariot => 130int,
                PieceType::General => 9000int,
            },
            None => 0int,
        }),
{
    lemma_material_upto_without(b, r, c, 10, 0);
}


fn iabs(x: isize) -> (a: isize)
    requires
        x > isize::MIN,
    ensures
        a == abs(x as int),
{
    if x < 0 {
        -x
    } else {
        x
    }
}

fn signum(x: isize) -> (s: isize)
    ensures
        s == sign(x as int),
{
    if x > 0 {
        1
    } else if x < 0 {
        -1
    } else {
        0
    }
}

/// The first column of row `r` holding the general of `color`.
fn general_col_in_row(board: &BoardGrid, color: Color, r: usize) -> (res: Option<usize>)
    requires
        r < 10,
    ensures
        match res {
            Some(c) => first_general_col(*board, color, r as int, 0) == Some(c as int),
            None => first_general_col(*board, color, r as int, 0) is None,
        },
{
    let mut c: usize = 0;
    while c < 9
        invariant
            r < 10,
            c <= 9,
            first_general_col(*board, color, r as int, 0) == first_general_col(*board, color, r as int, c as int),
        decreases 9 - c,
    {
        if let Some(p) = board[r][c] {
            if p.piece_type == PieceType::General && p.color == color {
                return Some(c);
            }
        }
        c += 1;
    }
    None
}

/// Where the general of `color` is found by a row-by-row scan.
fn find_general(board: &BoardGrid, color: Color) -> (res: Option<(usize, usize)>)
    ensures
        match res {
            Some(g) => general_pos(*board, color) == Some((g.0 as int, g.1 as int)),
            None => general_pos(*board, color) is None,
        },
{
    let mut pos: Option<(usize, usize)> = None;
    let mut r: usize = 0;
    while r < 10
        invariant
            r <= 10,
            match pos {
                Some(g) => general_scan(*board, color, r as int) == Some((g.0 as int, g.1 as int)),
                None => general_scan(*board, color, r as int) is None,
            },
        decreases 10 - r,
    {
        if let Some(c) = general_col_in_row(board, color, r) {
            pos = Some((r, c));
        }
        r += 1;
    }
    pos
}

/// The other side of the other side is the side itself.
pub proof fn lemma_opposite_twice(c: Color)
    ensures
        opponent(opponent(c)) == c,
{
}

impl Color {
    /// The other side.
    pub fn opposite(&self) -> (c: Self)
        ensures
            c == opponent(*self),
    {
        match self {
            Color::Han => Color::Cho,
            Color::Cho => Color::Han,
        }
    }
}

impl GameState {
    /// The starting position, Cho to move.
    pub fn new() -> (s: Self)
        ensures
            s.current_turn == Color::Cho,
            forall|r: int, c: int| on_board(r, c) ==> #[trigger] s.board[r][c] == initial_square(r, c),
    {
        let mut board: BoardGrid = [[None; 9]; 10];
        let han = Color::Han;
        let cho = Color::Cho;

        board[0][0] = Some(Piece::new(PieceType::Chariot, han));
        board[0][1] = Some(Piece::new(PieceType::Horse, han));
        board[0][2] = Some(Piece::new(PieceType::Elephant, han));
        board[0][3] = Some(Piece::new(PieceType::Advisor, han));
        board[0][5] = Some(Piece::new(PieceType::Advisor, han));
        board[0][6] = Some(Piece::new(PieceType::Elephant, han));
        board[0][7] = Some(Piece::new(PieceType::Horse, han));
        board[0][8] = Some(Piece::new(PieceType::Chariot, han));

        board[1][4] = Some(Piece::new(PieceType::General, han));

        board[2][1] = Some(Piece::new(PieceType::Cannon, han));
        board[2][7] = Some(Piece::new(PieceType::Cannon, han));

        board[3][0] = Some(Piece::new(PieceType::Soldier, han));
        board[3][2] = Some(Piece::new(PieceType::Soldier, han));
        board[3][4] = Some(Piece::new(PieceType::Soldier, han));
        board[3][6] = Some(Piece::new(PieceType::Soldier, han));
        board[3][8] = Some(Piece::new(PieceType::Soldier, han));

        board[9][0] = Some(Piece::new(PieceType::Chariot, cho));
        board[9][1] = Some(Piece::new(PieceType::Horse, cho));
        board[9][2] = Some(Piece::new(PieceType::Elephant, cho));
        board[9][3] = Some(Piece::new(PieceType::Advisor, cho));
        board[9][5] = Some(Piece::new(PieceType::Advisor, cho));
        board[9][6] = Some(Piece::new(PieceType::Elephant, cho));
        board[9][7] = Some(Piece::new(PieceType::Horse, cho));
        board[9][8] = Some(Piece::new(PieceType::Chariot, cho));

        board[8][4] = Some(Piece::new(PieceType::General, cho));

        board[7][1] = Some(Piece::new(PieceType::Cannon, cho));
        board[7][7] = Some(Piece::new(PieceType::Cannon, cho));

        board[6][0] = Some(Piece::new(PieceType::Soldier, cho));
        board[6][2] = Some(Piece::new(PieceType::Soldier, cho));
        board[6][4] = Some(Piece::new(PieceType::Soldier, cho));
        board[6][6] = Some(Piece::new(PieceType::Soldier, cho));
        board[6][8] = Some(Piece::new(PieceType::Soldier, cho));

        let s = GameState { board, current_turn: Color::Cho };
        assert forall|r: int, c: int| on_board(r, c) implies #[trigger] s.board[r][c] == initial_square(r, c) by {
            assert(0 <= r < 10 && 0 <= c < 9);
        }
        s
    }
}

impl GameState {
    fn is_path_clear(&self, fr: usize, fc: usize, tr: usize, tc: usize) -> (res: bool)
        requires
            fr < 10, fc < 9, tr < 10, tc < 9,
            (fr == tr) != (fc == tc),
        ensures
            res == path_clear(self.board, fr as int, fc as int, tr as int, tc as int),
    {
        let dr: isize = if tr > fr { 1 } else if tr < fr { -1 } else { 0 };
        let dc: isize = if tc > fc { 1 } else if tc < fc { -1 } else { 0 };
        let mut r: isize = fr as isize + dr;
        let mut c: isize = fc as isize + dc;
        let ghost n = line_len(fr as int, fc as int, tr as int, tc as int);
        let ghost mut k: int = 1;
        while r != tr as isize || c != tc as isize
            invariant
                fr < 10, fc < 9, tr < 10, tc < 9,
                (fr == tr) != (fc == tc),
                n == line_len(fr as int, fc as int, tr as int, tc as int),
                dr == sign(tr - fr),
                dc == sign(tc - fc),
                1 <= k <= n,
                r == step(fr as int, dr as int, k),
                c == step(fc as int, dc as int, k),
                forall|j: int| 0 < j < k ==> (#[trigger] ray_sq(self.board, fr as int, fc as int, tr as int, tc as int, j)).is_none(),
            decreases n - k,
        {
            if self.board[r as usize][c as usize].is_some() {
                assert(ray_sq(self.board, fr as int, fc as int, tr as int, tc as int, k).is_some());
                return false;
            }
            r += dr;
            c += dc;
            proof {
                k = k + 1;
            }
        }
        true
    }

    fn is_path_clear_diag(&self, fr: usize, fc: usize, tr: usize, tc: usize) -> (res: bool)
        requires
            fr < 10, fc < 9, tr < 10, tc < 9,
            abs(tr - fr) == abs(tc - fc) > 0,
        ensures
            res == path_clear(self.board, fr as int, fc as int, tr as int, tc as int),
    {
        let dr = signum(tr as isize - fr as isize);
        let dc = signum(tc as isize - fc as isize);
        let mut r: isize = fr as isize + dr;
        let mut c: isize = fc as isize + dc;
        let ghost n = line_len(fr as int, fc as int, tr as int, tc as int);
        let ghost mut k: int = 1;
        while r != tr as isize && c != tc as isize
            invariant
                fr < 10, fc < 9, tr < 10, tc < 9,
                abs(tr - fr) == abs(tc - fc) > 0,
                n == line_len(fr as int, fc as int, tr as int, tc as int),
                dr == sign(tr - fr),
                dc == sign(tc - fc),
                1 <= k <= n,
                r == step(fr as int, dr as int, k),
                c == step(fc as int, dc as int, k),
                forall|j: int| 0 < j < k ==> (#[trigger] ray_sq(self.board, fr as int, fc as int, tr as int, tc as int, j)).is_none(),
            decreases n - k,
        {
            if self.board[r as usize][c as usize].is_some() {
                assert(ray_sq(self.board, fr as int, fc as int, tr as int, tc as int, k).is_some());
                return false;
            }
            r += dr;
            c += dc;
            proof {
                k = k + 1;
            }
        }
        true
    }

    fn in_palace(&self, r: usize, c: usize) -> (res: bool)
        ensures
            res == in_palace(r as int, c as int),
    {
        (r <= 2 || r >= 7) && (c >= 3 && c <= 5)
    }

    /// General and advisor: one step along the lines of their own palace.
    fn is_valid_palace_piece(&self, fr: usize, fc: usize, tr: usize, tc: usize, color: Color) -> (res: bool)
        requires
            fr < 10, fc < 9, tr < 10, tc < 9,
        ensures
            res == palace_move(fr as int, fc as int, tr as int, tc as int),
    {
        if !self.in_palace(tr, tc) {
            return false;
        }
        let is_top_palace = fr <= 2 && tr <= 2;
        let is_bot_palace = fr >= 7 && tr >= 7;
        if !is_top_palace && !is_bot_palace {
            return false;
        }
        let dr = iabs(tr as isize - fr as isize);
        let dc = iabs(tc as isize - fc as isize);
        if dr + dc == 1 {
            return true;
        }
        if dr == 1 && dc == 1 {
            let center_r: usize = if fr <= 2 { 1 } else { 8 };
            if (fr == center_r && fc == 4) || (tr == center_r && tc == 4) {
                return true;
            }
        }
        false
    }

    /// Soldier: one step forward or sideways, or diagonally forward in the enemy palace.
    fn is_valid_soldier(&self, fr: usize, fc: usize, tr: usize, tc: usize, color: Color) -> (res: bool)
        requires
            fr < 10, fc < 9, tr < 10, tc < 9,
        ensures
            res == soldier_move(fr as int, fc as int, tr as int, tc as int, color),
    {
        let dr = tr as isize - fr as isize;
        let dc = iabs(tc as isize - fc as isize);
        let forward: isize = if color == Color::Han { 1 } else { -1 };
        if (dr == forward && dc == 0) || (dr == 0 && dc == 1) {
            return true;
        }
        if self.in_palace(fr, fc) && self.in_palace(tr, tc) {
            let center_r: usize = if color == Color::Han { 8 } else { 1 };
            if dr == forward && dc == 1 {
                if (fr == center_r && fc == 4) || (tr == center_r && tc == 4) {
                    return true;
                }
            }
        }
        false
    }

    /// Chariot: along a rank or file, or along a palace diagonal, with nothing in between.
    fn is_valid_chariot(&self, fr: usize, fc: usize, tr: usize, tc: usize) -> (res: bool)
        requires
            fr < 10, fc < 9, tr < 10, tc < 9,
            !(fr == tr && fc == tc),
        ensures
            res == chariot_move(self.board, fr as int, fc as int, tr as int, tc as int),
    {
        let dr = iabs(tr as isize - fr as isize);
        let dc = iabs(tc as isize - fc as isize);
        if (dr == 0 && dc > 0) || (dr > 0 && dc == 0) {
            return self.is_path_clear(fr, fc, tr, tc);
        }
        if self.in_palace(fr, fc) && self.in_palace(tr, tc) && dr == dc {
            let is_top_palace = fr <= 2 && tr <= 2;
            let is_bot_palace = fr >= 7 && tr >= 7;
            if !is_top_palace && !is_bot_palace {
                return false;
            }
            let center_r: usize = if tr <= 2 { 1 } else { 8 };
            if (fr == center_r && fc == 4) || (tr == center_r && tc == 4) || (fr != center_r && tr != center_r) {
                return self.is_path_clear_diag(fr, fc, tr, tc);
            }
        }
        false
    }

    /// Cannon: jumps over exactly one piece that is not a cannon, and never takes a cannon.
    fn is_valid_cannon(&self, fr: usize, fc: usize, tr: usize, tc: usize) -> (res: bool)
        requires
            fr < 10, fc < 9, tr < 10, tc < 9,
        ensures
            res == cannon_move(self.board, fr as int, fc as int, tr as int, tc as int),
    {
        if let Some(target) = self.board[tr][tc] {
            if target.piece_type == PieceType::Cannon {
                return false;
            }
        }
        let dr = iabs(tr as isize - fr as isize);
        let dc = iabs(tc as isize - fc as isize);
        if (dr == 0 && dc > 0) || (dr > 0 && dc == 0) {
            let dr_step: isize = if tr > fr { 1 } else if tr < fr { -1 } else { 0 };
            let dc_step: isize = if tc > fc { 1 } else if tc < fc { -1 } else { 0 };
            let mut r: isize = fr as isize + dr_step;
            let mut c: isize = fc as isize + dc_step;
            let mut screens: i32 = 0;
            let ghost n = line_len(fr as int, fc as int, tr as int, tc as int);
            let ghost mut k: int = 1;
            while r != tr as isize || c != tc as isize
                invariant
                    fr < 10, fc < 9, tr < 10, tc < 9,
                    (fr == tr) != (fc == tc),
                    n == line_len(fr as int, fc as int, tr as int, tc as int),
                    dr_step == sign(tr - fr),
                    dc_step == sign(tc - fc),
                    1 <= k <= n,
                    r == step(fr as int, dr_step as int, k),
                    c == step(fc as int, dc_step as int, k),
                    0 <= screens < k,
                    screens == screens_upto(self.board, fr as int, fc as int, tr as int, tc as int, k),
                    forall|j: int| 0 < j < k ==> !is_cannon(#[trigger] ray_sq(self.board, fr as int, fc as int, tr as int, tc as int, j)),
                decreases n - k,
            {
                if let Some(p) = self.board[r as usize][c as usize] {
                    if p.piece_type == PieceType::Cannon {
                        assert(is_cannon(ray_sq(self.board, fr as int, fc as int, tr as int, tc as int, k)));
                        return false;
                    }
                    screens += 1;
                }
                r += dr_step;
                c += dc_step;
                proof {
                    k = k + 1;
                }
            }
            return screens == 1;
        }
        if self.in_palace(fr, fc) && self.in_palace(tr, tc) && dr == 2 && dc == 2 {
            let center_r: usize = if tr <= 2 { 1 } else { 8 };
            if fr != center_r && tr != center_r {
                if let Some(p) = self.board[center_r][4] {
                    if p.piece_type != PieceType::Cannon {
                        return true;
                    }
                }
            }
        }
        false
    }

    /// Horse: one step orthogonally, then one diagonally, unless the first point is occupied.
    fn is_valid_horse(&self, fr: usize, fc: usize, tr: usize, tc: usize) -> (res: bool)
        requires
            fr < 10, fc < 9, tr < 10, tc < 9,
        ensures
            res == horse_move(self.board, fr as int, fc as int, tr as int, tc as int),
    {
        let dr = tr as isize - fr as isize;
        let dc = tc as isize - fc as isize;
        if iabs(dr) == 2 && iabs(dc) == 1 {
            let block_r = (fr as isize + signum(dr)) as usize;
            return self.board[block_r][fc].is_none();
        } else if iabs(dr) == 1 && iabs(dc) == 2 {
            let block_c = (fc as isize + signum(dc)) as usize;
            return self.board[fr][block_c].is_none();
        }
        false
    }

    /// Elephant: one step orthogonally, then two diagonally, through empty points.
    fn is_valid_elephant(&self, fr: usize, fc: usize, tr: usize, tc: usize) -> (res: bool)
        requires
            fr < 10, fc < 9, tr < 10, tc < 9,
        ensures
            res == elephant_move(self.board, fr as int, fc as int, tr as int, tc as int),
    {
        let dr = tr as isize - fr as isize;
        let dc = tc as isize - fc as isize;
        if iabs(dr) == 3 && iabs(dc) == 2 {
            let block1_r = (fr as isize + signum(dr)) as usize;
            if self.board[block1_r][fc].is_some() {
                return false;
            }
            let block2_r = (fr as isize + signum(dr) * 2) as usize;
            let block2_c = (fc as isize + signum(dc)) as usize;
            return self.board[block2_r][block2_c].is_none();
        } else if iabs(dr) == 2 && iabs(dc) == 3 {
            let block1_c = (fc as isize + signum(dc)) as usize;
            if self.board[fr][block1_c].is_some() {
                return false;
            }
            let block2_r = (fr as isize + signum(dr)) as usize;
            let block2_c = (fc as isize + signum(dc) * 2) as usize;
            return self.board[block2_r][block2_c].is_none();
        }
        false
    }

    /// Whether the piece on `(fr, fc)` may move to `(tr, tc)` by its pattern, whoever's turn it is.
    pub fn is_pseudo_legal(&self, fr: usize, fc: usize, tr: usize, tc: usize) -> (res: bool)
        requires
            fr < 10, fc < 9, tr < 10, tc < 9,
        ensures
            res == pseudo_legal(self.board, fr as int, fc as int, tr as int, tc as int),
    {
        if fr == tr && fc == tc {
            return false;
        }
        let piece = match self.board[fr][fc] {
            Some(p) => p,
            None => return false,
        };
        if let Some(target) = self.board[tr][tc] {
            if target.color == piece.color {
                return false;
            }
        }
        match piece.piece_type {
            PieceType::Chariot => self.is_valid_chariot(fr, fc, tr, tc),
            PieceType::Horse => self.is_valid_horse(fr, fc, tr, tc),
            PieceType::Elephant => self.is_valid_elephant(fr, fc, tr, tc),
            PieceType::Advisor | PieceType::General => self.is_valid_palace_piece(fr, fc, tr, tc, piece.color),
            PieceType::Cannon => self.is_valid_cannon(fr, fc, tr, tc),
            PieceType::Soldier => self.is_valid_soldier(fr, fc, tr, tc, piece.color),
        }
    }

    /// Same as `is_pseudo_legal`: the piece's pattern, whoever's turn it is.
    pub fn is_valid_move(&self, fr: usize, fc: usize, tr: usize, tc: usize) -> (res: bool)
        requires
            fr < 10, fc < 9, tr < 10, tc < 9,
        ensures
            res == pseudo_legal(self.board, fr as int, fc as int, tr as int, tc as int),
    {
        self.is_pseudo_legal(fr, fc, tr, tc)
    }
}

impl GameState {
    /// Whether some piece hostile to `color` could move onto `(gr, gc)`.
    fn general_attacked(&self, color: Color, gr: usize, gc: usize) -> (res: bool)
        requires
            gr < 10, gc < 9,
        ensures
            res == attacked(self.board, color, gr as int, gc as int),
    {
        let mut r: usize = 0;
        while r < 10
            invariant
                r <= 10, gr < 10, gc < 9,
                forall|r2: int, c2: int| 0 <= r2 < r && 0 <= c2 < 9 ==> !#[trigger] attacker_at(self.board, color, gr as int, gc as int, r2, c2),
            decreases 10 - r,
        {
            let mut c: usize = 0;
            while c < 9
                invariant
                    r < 10, c <= 9, gr < 10, gc < 9,
                    forall|r2: int, c2: int| 0 <= r2 < r && 0 <= c2 < 9 ==> !#[trigger] attacker_at(self.board, color, gr as int, gc as int, r2, c2),
                    forall|c2: int| 0 <= c2 < c ==> !#[trigger] attacker_at(self.board, color, gr as int, gc as int, r as int, c2),
                decreases 9 - c,
            {
                if let Some(p) = self.board[r][c] {
                    if p.color != color {
                        if self.is_pseudo_legal(r, c, gr, gc) {
                            assert(attacker_at(self.board, color, gr as int, gc as int, r as int, c as int));
                            return true;
                        }
                    }
                }
                c += 1;
            }
            r += 1;
        }
        false
    }

    /// Whether making the move would leave the mover's general attacked, or the mover
    /// without a general.
    pub fn would_be_in_check(&self, fr: usize, fc: usize, tr: usize, tc: usize) -> (res: bool)
        requires
            fr < 10, fc < 9, tr < 10, tc < 9,
            !(fr == tr && fc == tc),
            self.board[fr as int][fc as int] is Some,
        ensures
            res == would_check(self.board, fr as int, fc as int, tr as int, tc as int),
    {
        let mut temp_state = GameState { board: self.board, current_turn: self.board[fr][fc].unwrap().color };
        temp_state.board[tr][tc] = temp_state.board[fr][fc];
        temp_state.board[fr][fc] = None;
        assert(temp_state.board == moved(self.board, fr as int, fc as int, tr as int, tc as int));
        let my_color = temp_state.board[tr][tc].unwrap().color;
        let (gr, gc) = match find_general(&temp_state.board, my_color) {
            Some(pos) => pos,
            None => return true,
        };
        proof {
            lemma_general_pos(temp_state.board, my_color);
        }
        temp_state.general_attacked(my_color, gr, gc)
    }

    /// Whether the general of `color` is attacked; false when it has no general.
    pub fn is_in_check(&self, color: Color) -> (res: bool)
        ensures
            res == in_check(self.board, color),
    {
        let (gr, gc) = match find_general(&self.board, color) {
            Some(pos) => pos,
            None => return false,
        };
        proof {
            lemma_general_pos(self.board, color);
        }
        self.general_attacked(color, gr, gc)
    }

    /// The points the piece on `(row, col)` may legally move to, in row-major order;
    /// empty when the point is empty or holds a piece of the side not to move.
    pub fn get_valid_moves(&self, row: usize, col: usize) -> (res: Vec<(usize, usize)>)
        requires
            row < 10, col < 9,
        ensures
            res@ == valid_targets(self.board, self.current_turn, row as int, col as int),
    {
        let mut moves: Vec<(usize, usize)> = Vec::new();
        if let Some(piece) = self.board[row][col] {
            if piece.color != self.current_turn {
                return moves;
            }
            let mut r: usize = 0;
            while r < 10
                invariant
                    row < 10, col < 9, r <= 10,
                    self.board[row as int][col as int] is Some,
                    moves@ == targets_upto(self.board, row as int, col as int, r as int, 0),
                decreases 10 - r,
            {
                let mut c: usize = 0;
                while c < 9
                    invariant
                        row < 10, col < 9, r < 10, c <= 9,
                        self.board[row as int][col as int] is Some,
                        moves@ == targets_upto(self.board, row as int, col as int, r as int, c as int),
                    decreases 9 - c,
                {
                    if self.is_valid_move(row, col, r, c) {
                        if !self.would_be_in_check(row, col, r, c) {
                            moves.push((r, c));
                        }
                    }
                    c += 1;
                }
                assert(targets_upto(self.board, row as int, col as int, r as int + 1, 0)
                    == targets_upto(self.board, row as int, col as int, r as int, 9));
                r += 1;
            }
        }
        moves
    }

    /// Every legal move of `color`, grouped by origin point in row-major order;
    /// empty unless `color` is the side to move.
    pub fn get_all_legal_moves(&self, color: Color) -> (res: Vec<MovePair>)
        ensures
            res@ == all_moves(self.board, self.current_turn, color),
    {
        let mut all_moves: Vec<MovePair> = Vec::new();
        let mut r: usize = 0;
        while r < 10
            invariant
                r <= 10,
                all_moves@ == moves_upto(self.board, self.current_turn, color, r as int, 0),
            decreases 10 - r,
        {
            let mut c: usize = 0;
            while c < 9
                invariant
                    r < 10, c <= 9,
                    all_moves@ == moves_upto(self.board, self.current_turn, color, r as int, c as int),
                decreases 9 - c,
            {
                if let Some(p) = self.board[r][c] {
                    if p.color == color {
                        let moves = self.get_valid_moves(r, c);
                        let ghost prev = all_moves@;
                        let mut i: usize = 0;
                        while i < moves.len()
                            invariant
                                r < 10, c < 9,
                                i <= moves.len(),
                                all_moves@ == prev + moves@.take(i as int).map_values(
                                    |m: (usize, usize)| ((r, c), m),
                                ),
                            decreases moves.len() - i,
                        {
                            all_moves.push(((r, c), moves[i]));
                            proof {
                                assert(moves@.take(i as int + 1) == moves@.take(i as int).push(moves@[i as int]));
                                assert(all_moves@ == prev + moves@.take(i as int + 1).map_values(
                                    |m: (usize, usize)| ((r, c), m),
                                ));
                            }
                            i += 1;
                        }
                        assert(moves@.take(moves.len() as int) == moves@);
                    }
                }
                c += 1;
            }
            assert(moves_upto(self.board, self.current_turn, color, r as int + 1, 0)
                == moves_upto(self.board, self.current_turn, color, r as int, 9));
            r += 1;
        }
        all_moves
    }
}

impl GameState {
    fn status(&self) -> (o: Outcome)
        ensures
            o == spec_status(self.board, self.current_turn),
    {
        let mut han_general = false;
        let mut cho_general = false;
        let mut r: usize = 0;
        while r < 10
            invariant
                r <= 10,
                han_general <==> exists|r2: int, c2: int| 0 <= r2 < r && 0 <= c2 < 9 && #[trigger] is_general_of(self.board[r2][c2], Color::Han),
                cho_general <==> exists|r2: int, c2: int| 0 <= r2 < r && 0 <= c2 < 9 && #[trigger] is_general_of(self.board[r2][c2], Color::Cho),
            decreases 10 - r,
        {
            let mut c: usize = 0;
            while c < 9
                invariant
                    r < 10, c <= 9,
                    han_general <==> exists|r2: int, c2: int| (0 <= r2 < r && 0 <= c2 < 9 || r2 == r && 0 <= c2 < c) && #[trigger] is_general_of(self.board[r2][c2], Color::Han),
                    cho_general <==> exists|r2: int, c2: int| (0 <= r2 < r && 0 <= c2 < 9 || r2 == r && 0 <= c2 < c) && #[trigger] is_general_of(self.board[r2][c2], Color::Cho),
                decreases 9 - c,
            {
                if let Some(p) = self.board[r][c] {
                    if p.piece_type == PieceType::General {
                        if p.color == Color::Han {
                            han_general = true;
                        }
                        if p.color == Color::Cho {
                            cho_general = true;
                        }
                    }
                }
                proof {
                    if is_general_of(self.board[r as int][c as int], Color::Han) {
                        assert(han_general);
                    }
                    if is_general_of(self.board[r as int][c as int], Color::Cho) {
                        assert(cho_general);
                    }
                }
                c += 1;
            }
            r += 1;
        }
        if !han_general {
            return Outcome::HanGeneralCaptured;
        }
        if !cho_general {
            return Outcome::ChoGeneralCaptured;
        }
        let mut has_moves = false;
        let mut r: usize = 0;
        while r < 10 && !has_moves
            invariant
                r <= 10,
                has_moves ==> has_any_move(self.board, self.current_turn),
                !has_moves ==> forall|r2: int, c2: int| 0 <= r2 < r && 0 <= c2 < 9 && (self.board[r2][c2] matches Some(p) && p.color == self.current_turn)
                    ==> #[trigger] valid_targets(self.board, self.current_turn, r2, c2).len() == 0,
            decreases 10 - r,
        {
            let mut c: usize = 0;
            while c < 9 && !has_moves
                invariant
                    r < 10, c <= 9,
                        has_moves ==> has_any_move(self.board, self.current_turn),
                    !has_moves ==> forall|r2: int, c2: int| (0 <= r2 < r && 0 <= c2 < 9 || r2 == r && 0 <= c2 < c) && (self.board[r2][c2] matches Some(p) && p.color == self.current_turn)
                        ==> #[trigger] valid_targets(self.board, self.current_turn, r2, c2).len() == 0,
                decreases 9 - c,
            {
                if let Some(p) = self.board[r][c] {
                    if p.color == self.current_turn {
                        let moves = self.get_valid_moves(r, c);
                        if moves.len() > 0 {
                            has_moves = true;
                        }
                    }
                }
                c += 1;
            }
            r += 1;
        }
        if !has_moves {
            if self.is_in_check(self.current_turn) {
                let winner = if self.current_turn == Color::Han { Color::Cho } else { Color::Han };
                return Outcome::Checkmate(winner);
            } else {
                return Outcome::Stalemate;
            }
        }
        Outcome::Active
    }

    /// A description of how the game stands: a captured general, checkmate, stalemate or "Active".
    pub fn get_status(&self) -> (res: String)
        ensures
            res@ == status_text(spec_status(self.board, self.current_turn)),
    {
        broadcast use vstd::string::to_string_from_display_ensures_for_str;
        match self.status() {
            Outcome::HanGeneralCaptured => "Han General Captured: Cho Wins".to_string(),
            Outcome::ChoGeneralCaptured => "Cho General Captured: Han Wins".to_string(),
            Outcome::Checkmate(Color::Cho) => "Checkmate: Cho Wins".to_string(),
            Outcome::Checkmate(Color::Han) => "Checkmate: Han Wins".to_string(),
            Outcome::Stalemate => "Stalemate: Draw".to_string(),
            Outcome::Active => "Active".to_string(),
        }
    }

    /// Plays a legal move: the piece is marked as moved and the turn passes.
    pub fn move_piece(&mut self, fr: usize, fc: usize, tr: usize, tc: usize) -> (res: Result<(), &'static str>)
        requires
            fr < 10, fc < 9, tr < 10, tc < 9,
        ensures
            !pseudo_legal(old(self).board, fr as int, fc as int, tr as int, tc as int) ==> {
                &&& res matches Err(e) && e@ == "Invalid move"@
                &&& *final(self) == *old(self)
            },
            pseudo_legal(old(self).board, fr as int, fc as int, tr as int, tc as int)
                && would_check(old(self).board, fr as int, fc as int, tr as int, tc as int) ==> {
                &&& res matches Err(e) && e@ == "Move would put or leave general in check"@
                &&& *final(self) == *old(self)
            },
            legal(old(self).board, fr as int, fc as int, tr as int, tc as int) ==> {
                &&& res is Ok
                &&& *final(self) == apply_move(*old(self), fr as int, fc as int, tr as int, tc as int)
            },
    {
        if !self.is_valid_move(fr, fc, tr, tc) {
            return Err("Invalid move");
        }
        if self.would_be_in_check(fr, fc, tr, tc) {
            return Err("Move would put or leave general in check");
        }
        let mut piece = self.board[fr][fc].unwrap();
        piece.has_moved = true;
        self.board[tr][tc] = Some(piece);
        self.board[fr][fc] = None;
        self.current_turn = self.current_turn.opposite();
        Ok(())
    }

    /// Material balance: positive when Han is ahead.
    pub fn evaluate(&self) -> (score: i32)
        ensures
            score == material(self.board),
    {
        let mut score: i32 = 0;
        let mut r: usize = 0;
        while r < 10
            invariant
                r <= 10,
                score == material_upto(self.board, r as int, 0),
                -81000 * (r as int) <= score <= 81000 * (r as int),
            decreases 10 - r,
        {
            let mut c: usize = 0;
            while c < 9
                invariant
                    r < 10, c <= 9,
                    score == material_upto(self.board, r as int, c as int),
                    -9000 * (9 * (r as int) + c as int) <= score <= 9000 * (9 * (r as int) + c as int),
                decreases 9 - c,
            {
                if let Some(p) = self.board[r][c] {
                    let val: i32 = match p.piece_type {
                        PieceType::Soldier => 20,
                        PieceType::Advisor => 30,
                        PieceType::Elephant => 30,
                        PieceType::Horse => 50,
                        PieceType::Cannon => 70,
                        PieceType::Chariot => 130,
                        PieceType::General => 9000,
                    };
                    if p.color == Color::Han {
                        score += val;
                    } else {
                        score -= val;
                    }
                }
                c += 1;
            }
            assert(material_upto(self.board, r as int + 1, 0) == material_upto(self.board, r as int, 9));
            r += 1;
        }
        score
    }
}

/// Fail-soft alpha-beta search to `depth` plies, Han maximizing. Inside the window
/// `(alpha, beta)` the result is the minimax value; outside it, a bound on that value.
pub fn minimax(state: &mut GameState, depth: u8, alpha: i32, beta: i32, is_maximizing: bool) -> (res: i32)
    ensures
        *final(state) == *old(state),
        alpha < beta ==> ab_sound(res as int, mm(*old(state), depth as nat, is_maximizing), alpha as int, beta as int),
        alpha >= beta ==> res == first_line(*old(state), depth as nat, is_maximizing),
        terminal_value(*old(state)) matches Some(v) ==> res == v,
        terminal_value(*old(state)) is None && depth == 0 ==> res == material(old(state).board),
    decreases depth,
{
    let ghost s0 = *state;
    let ghost alpha0 = alpha as int;
    let ghost beta0 = beta as int;
    let mut alpha_now = alpha;
    let mut beta_now = beta;
    match state.status() {
        Outcome::HanGeneralCaptured | Outcome::Checkmate(Color::Cho) => return -100000,
        Outcome::ChoGeneralCaptured | Outcome::Checkmate(Color::Han) => return 100000,
        Outcome::Stalemate => return 0,
        Outcome::Active => {},
    }
    if depth == 0 {
        return state.evaluate();
    }
    if is_maximizing {
        let mut max_eval: i32 = i32::MIN;
        let moves = state.get_all_legal_moves(Color::Han);
        proof {
            lemma_moves_legal(s0.board, s0.current_turn, Color::Han, 10, 0);
        }
        let ghost n = moves@.len();
        let mut i: usize = 0;
        while i < moves.len()
            invariant
                alpha0 == alpha as int,
                beta0 == beta as int,
                *state == s0,
                depth > 0,
                terminal_value(s0) is None,
                is_maximizing,
                s0 == *old(state),
                mm(s0, depth as nat, true) == fold_best(s0, moves@, depth as nat, true, n),
                n == moves@.len(),
                moves@ == all_moves(s0.board, s0.current_turn, Color::Han),
                forall|j: int| 0 <= j < moves@.len() ==> {
                    let m = #[trigger] moves@[j];
                    &&& on_board(m.0.0 as int, m.0.1 as int)
                    &&& on_board(m.1.0 as int, m.1.1 as int)
                },
                i <= moves.len(),
                beta_now == beta0,
                alpha_now as int == if alpha0 >= max_eval { alpha0 } else { max_eval as int },
                forall|j: int| 0 <= j < moves@.len() ==> move_legal(s0, #[trigger] moves@[j]),
                alpha0 >= beta0 ==> i == 0 && max_eval == i32::MIN,
                alpha0 < beta0 ==> {
                    &&& max_eval >= fold_best(s0, moves@, depth as nat, true, i as nat)
                    &&& max_eval > alpha0 ==> fold_best(s0, moves@, depth as nat, true, i as nat) == max_eval
                    &&& alpha_now < beta_now
                },
            decreases moves.len() - i,
        {
            let ((fr, fc), (tr, tc)) = moves[i];
            let ghost m = moves@[i as int];
            let mut next_state = GameState { board: state.board, current_turn: state.current_turn };
            if next_state.move_piece(fr, fc, tr, tc).is_ok() {
                let ghost cs = next_state;
                let eval = minimax(&mut next_state, depth - 1, alpha_now, beta_now, false);
                proof {
                    assert(cs == child(s0, m));
                    let v = mm(child(s0, m), (depth - 1) as nat, false);
                    assert(fold_best(s0, moves@, depth as nat, true, (i + 1) as nat)
                        == if v > fold_best(s0, moves@, depth as nat, true, i as nat) { v } else { fold_best(s0, moves@, depth as nat, true, i as nat) });
                }
                if eval > max_eval {
                    max_eval = eval;
                }
                if eval > alpha_now {
                    alpha_now = eval;
                }
                if beta_now <= alpha_now {
                    proof {
                        lemma_fold_mono(s0, moves@, depth as nat, true, (i + 1) as nat, n);
                        if alpha0 < beta0 {
                            assert(max_eval >= beta0);
                            assert(fold_best(s0, moves@, depth as nat, true, (i + 1) as nat) >= max_eval);
                            assert(mm(s0, depth as nat, true) >= max_eval);
                            assert(ab_sound(max_eval as int, mm(s0, depth as nat, true), alpha0, beta0));
                        }
                    }
                    return max_eval;
                }
            } else {
                proof {
                    assert(!move_legal(s0, m));
                }
            }
            i += 1;
        }
        max_eval
    } else {
        let mut min_eval: i32 = i32::MAX;
        let moves = state.get_all_legal_moves(Color::Cho);
        proof {
            lemma_moves_legal(s0.board, s0.current_turn, Color::Cho, 10, 0);
        }
        let ghost n = moves@.len();
        let mut i: usize = 0;
        while i < moves.len()
            invariant
                alpha0 == alpha as int,
                beta0 == beta as int,
                *state == s0,
                depth > 0,
                terminal_value(s0) is None,
                !is_maximizing,
                s0 == *old(state),
                mm(s0, depth as nat, false) == fold_best(s0, moves@, depth as nat, false, n),
                n == moves@.len(),
                moves@ == all_moves(s0.board, s0.current_turn, Color::Cho),
                forall|j: int| 0 <= j < moves@.len() ==> {
                    let m = #[trigger] moves@[j];
                    &&& on_board(m.0.0 as int, m.0.1 as int)
                    &&& on_board(m.1.0 as int, m.1.1 as int)
                },
                i <= moves.len(),
                alpha_now == alpha0,
                beta_now as int == if beta0 <= min_eval { beta0 } else { min_eval as int },
                forall|j: int| 0 <= j < moves@.len() ==> move_legal(s0, #[trigger] moves@[j]),
                alpha0 >= beta0 ==> i == 0 && min_eval == i32::MAX,
                alpha0 < beta0 ==> {
                    &&& min_eval <= fold_best(s0, moves@, depth as nat, false, i as nat)
                    &&& min_eval < beta0 ==> fold_best(s0, moves@, depth as nat, false, i as nat) == min_eval
                    &&& alpha_now < beta_now
                },
            decreases moves.len() - i,
        {
            let ((fr, fc), (tr, tc)) = moves[i];
            let ghost m = moves@[i as int];
            let mut next_state = GameState { board: state.board, current_turn: state.current_turn };
            if next_state.move_piece(fr, fc, tr, tc).is_ok() {
                let ghost cs = next_state;
                let eval = minimax(&mut next_state, depth - 1, alpha_now, beta_now, true);
                proof {
                    assert(cs == child(s0, m));
                    let v = mm(child(s0, m), (depth - 1) as nat, true);
                    assert(fold_best(s0, moves@, depth as nat, false, (i + 1) as nat)
                        == if v < fold_best(s0, moves@, depth as nat, false, i as nat) { v } else { fold_best(s0, moves@, depth as nat, false, i as nat) });
                }
                if eval < min_eval {
                    min_eval = eval;
                }
                if eval < beta_now {
                    beta_now = eval;
                }
                if beta_now <= alpha_now {
                    proof {
                        lemma_fold_mono(s0, moves@, depth as nat, false, (i + 1) as nat, n);
                        if alpha0 < beta0 {
                            assert(min_eval <= alpha0);
                            assert(fold_best(s0, moves@, depth as nat, false, (i + 1) as nat) <= min_eval);
                        }
                    }
                    return min_eval;
                }
            } else {
                proof {
                    assert(!move_legal(s0, m));
                }
            }
            i += 1;
        }
        min_eval
    }
}

/// The first legal move of `color` with the best minimax value at `depth` plies
/// (highest for Han, lowest for Cho); `None` when `color` has no move.
pub fn get_best_move(state: &GameState, depth: u8, color: Color) -> (res: Option<MovePair>)
    requires
        depth >= 1 || all_moves(state.board, state.current_turn, color).len() == 0,
    ensures
        ({
            let moves = all_moves(state.board, state.current_turn, color);
            &&& moves.len() == 0 ==> res is None
            &&& moves.len() > 0 ==> res == best_upto(*state, moves, depth as nat, color == Color::Han, moves.len()).1
        }),
{
    let moves = state.get_all_legal_moves(color);
    if moves.is_empty() {
        return None;
    }
    let ghost s0 = *state;
    proof {
        lemma_moves_legal(s0.board, s0.current_turn, color, 10, 0);
    }
    let mut best_move: Option<MovePair> = None;
    let mut alpha: i32 = i32::MIN;
    let mut beta: i32 = i32::MAX;
    if color == Color::Han {
        let mut max_eval: i32 = i32::MIN;
        let mut i: usize = 0;
        while i < moves.len()
            invariant
                *state == s0,
                color == Color::Han,
                depth >= 1,
                moves@ == all_moves(s0.board, s0.current_turn, color),
                forall|j: int| 0 <= j < moves@.len() ==> {
                    let m = #[trigger] moves@[j];
                    &&& on_board(m.0.0 as int, m.0.1 as int)
                    &&& on_board(m.1.0 as int, m.1.1 as int)
                    &&& (s0.board[m.0.0 as int][m.0.1 as int] matches Some(p) && p.color == color)
                    &&& legal(s0.board, m.0.0 as int, m.0.1 as int, m.1.0 as int, m.1.1 as int)
                },
                i <= moves.len(),
                (max_eval as int, best_move) == best_upto(s0, moves@, depth as nat, true, i as nat),
                alpha == max_eval,
                beta == i32::MAX,
            decreases moves.len() - i,
        {
            let ((fr, fc), (tr, tc)) = moves[i];
            let ghost m = moves@[i as int];
            let mut next_state = GameState { board: state.board, current_turn: state.current_turn };
            if next_state.move_piece(fr, fc, tr, tc).is_ok() {
                let ghost cs = next_state;
                let eval = minimax(&mut next_state, depth - 1, alpha, beta, false);
                proof {
                    assert(cs == child(s0, m));
                    lemma_mm_bound(child(s0, m), (depth - 1) as nat, false);
                }
                if eval > max_eval {
                    max_eval = eval;
                    best_move = Some(((fr, fc), (tr, tc)));
                }
                if eval > alpha {
                    alpha = eval;
                }
            }
            i += 1;
        }
    } else {
        let mut min_eval: i32 = i32::MAX;
        let mut i: usize = 0;
        while i < moves.len()
            invariant
                *state == s0,
                color == Color::Cho,
                depth >= 1,
                moves@ == all_moves(s0.board, s0.current_turn, color),
                forall|j: int| 0 <= j < moves@.len() ==> {
                    let m = #[trigger] moves@[j];
                    &&& on_board(m.0.0 as int, m.0.1 as int)
                    &&& on_board(m.1.0 as int, m.1.1 as int)
                    &&& (s0.board[m.0.0 as int][m.0.1 as int] matches Some(p) && p.color == color)
                    &&& legal(s0.board, m.0.0 as int, m.0.1 as int, m.1.0 as int, m.1.1 as int)
                },
                i <= moves.len(),
                (min_eval as int, best_move) == best_upto(s0, moves@, depth as nat, false, i as nat),
                beta == min_eval,
                alpha == i32::MIN,
            decreases moves.len() - i,
        {
            let ((fr, fc), (tr, tc)) = moves[i];
            let ghost m = moves@[i as int];
            let mut next_state = GameState { board: state.board, current_turn: state.current_turn };
            if next_state.move_piece(fr, fc, tr, tc).is_ok() {
                let ghost cs = next_state;
                let eval = minimax(&mut next_state, depth - 1, alpha, beta, true);
                proof {
                    assert(cs == child(s0, m));
                    lemma_mm_bound(child(s0, m), (depth - 1) as nat, true);
                }
                if eval < min_eval {
                    min_eval = eval;
                    best_move = Some(((fr, fc), (tr, tc)));
                }
                if eval < beta {
                    beta = eval;
                }
            }
            i += 1;
        }
    }
    best_move
}

} // verus!
