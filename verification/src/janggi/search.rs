use vstd::prelude::*;
use super::board::{BoardGrid, Color};
use super::model::{all_moves, legal, lemma_moves_legal, moves_upto, on_board, valid_targets, MovePair};
use super::rules::{apply_move, has_any_move, material, material_upto, spec_status, square_value, GameState, Outcome};

verus! {

/// The score of a finished game: a win for Han, a win for Cho, or a draw.
pub open spec fn terminal_value(s: GameState) -> Option<int> {
    match spec_status(s.board, s.current_turn) {
        Outcome::HanGeneralCaptured => Some(-100000),
        Outcome::Checkmate(Color::Cho) => Some(-100000),
        Outcome::ChoGeneralCaptured => Some(100000),
        Outcome::Checkmate(Color::Han) => Some(100000),
        Outcome::Stalemate => Some(0),
        Outcome::Active => None,
    }
}

/// The side whose moves a node of the search tree expands.
pub open spec fn side(is_max: bool) -> Color {
    if is_max { Color::Han } else { Color::Cho }
}

pub open spec fn move_legal(s: GameState, m: MovePair) -> bool {
    legal(s.board, m.0.0 as int, m.0.1 as int, m.1.0 as int, m.1.1 as int)
}

pub open spec fn child(s: GameState, m: MovePair) -> GameState {
    apply_move(s, m.0.0 as int, m.0.1 as int, m.1.0 as int, m.1.1 as int)
}

/// The plain minimax value of a position searched to `depth` plies: Han maximizes the
/// material balance, Cho minimizes it, finished games score by their result.
pub open spec fn mm(s: GameState, depth: nat, is_max: bool) -> int
    decreases depth, 1nat, 0nat,
{
    match terminal_value(s) {
        Some(v) => v,
        None => if depth == 0 {
            material(s.board)
        } else {
            let moves = all_moves(s.board, s.current_turn, side(is_max));
            fold_best(s, moves, depth, is_max, moves.len())
        },
    }
}

/// The best value (largest for the maximizer, smallest for the minimizer) among the
/// first `n` moves, starting from the extreme `i32` value.
pub open spec fn fold_best(s: GameState, moves: Seq<MovePair>, depth: nat, is_max: bool, n: nat) -> int
    decreases depth, 0nat, n,
{
    if n == 0 || depth == 0 {
        if is_max { i32::MIN as int } else { i32::MAX as int }
    } else {
        let prev = fold_best(s, moves, depth, is_max, (n - 1) as nat);
        let m = moves[n - 1];
        if move_legal(s, m) {
            let v = mm(child(s, m), (depth - 1) as nat, !is_max);
            if is_max {
                if v > prev { v } else { prev }
            } else {
                if v < prev { v } else { prev }
            }
        } else {
            prev
        }
    }
}

/// What a search whose window is empty returns: every node is cut off after its first
/// move, so the value is that of the first line of play (the extreme `i32` value when a
/// node's side has no move).
pub open spec fn first_line(s: GameState, depth: nat, is_max: bool) -> int
    decreases depth,
{
    match terminal_value(s) {
        Some(v) => v,
        None => if depth == 0 {
            material(s.board)
        } else {
            let moves = all_moves(s.board, s.current_turn, side(is_max));
            if moves.len() == 0 {
                if is_max { i32::MIN as int } else { i32::MAX as int }
            } else {
                first_line(child(s, moves[0]), (depth - 1) as nat, !is_max)
            }
        },
    }
}

/// What a fail-soft alpha-beta search may return in place of the true value `v`:
/// the value itself inside the window, a bound on the side where it leaves the window.
pub open spec fn ab_sound(r: int, v: int, alpha: int, beta: int) -> bool {
    &&& r <= alpha ==> v <= r
    &&& r >= beta ==> v >= r
    &&& alpha < r < beta ==> v == r
}

/// The first move, among the first `n`, whose minimax value is the best,
/// together with that value; `None` while no move beats the extreme `i32` value.
pub open spec fn best_upto(s: GameState, moves: Seq<MovePair>, depth: nat, is_han: bool, n: nat) -> (int, Option<MovePair>)
    decreases n,
{
    if n == 0 {
        (if is_han { i32::MIN as int } else { i32::MAX as int }, None)
    } else {
        let prev = best_upto(s, moves, depth, is_han, (n - 1) as nat);
        let m = moves[n - 1];
        if move_legal(s, m) {
            let v = mm(child(s, m), (depth - 1) as nat, !is_han);
            if (is_han && v > prev.0) || (!is_han && v < prev.0) {
                (v, Some(m))
            } else {
                prev
            }
        } else {
            prev
        }
    }
}

// ---------------------------------------------------------------------------
// Lemmas
// ---------------------------------------------------------------------------

/// A finished game is scored for its winner, at every depth and for either side to
/// search: Han is the maximizing side, every win for Han (the Cho general captured, or Cho
/// mated) is worth 100000, every win for Cho (the Han general captured, or Han mated) is
/// worth -100000, and a stalemate 0.  So a mate counts exactly as much as taking the
/// general, and the search never prefers walking into a mate.
pub proof fn lemma_finished_game_scores_for_its_winner(s: GameState, depth: nat, is_max: bool)
    ensures
        side(true) == Color::Han,
        side(false) == Color::Cho,
        spec_status(s.board, s.current_turn) == Outcome::ChoGeneralCaptured ==> mm(s, depth, is_max) == 100000,
        spec_status(s.board, s.current_turn) == Outcome::Checkmate(Color::Han) ==> mm(s, depth, is_max) == 100000,
        spec_status(s.board, s.current_turn) == Outcome::HanGeneralCaptured ==> mm(s, depth, is_max) == -100000,
        spec_status(s.board, s.current_turn) == Outcome::Checkmate(Color::Cho) ==> mm(s, depth, is_max) == -100000,
        spec_status(s.board, s.current_turn) == Outcome::Stalemate ==> mm(s, depth, is_max) == 0,
        spec_status(s.board, s.current_turn) != Outcome::Active ==> terminal_value(s) == Some(mm(s, depth, is_max))
            && first_line(s, depth, is_max) == mm(s, depth, is_max),
{
}


pub proof fn lemma_material_upto_bound(b: BoardGrid, r: int, c: int)
    requires
        0 <= r <= 10,
        0 <= c <= 9,
    ensures
        -9000 * (9 * r + c) <= material_upto(b, r, c) <= 9000 * (9 * r + c),
    decreases r, c,
{
    if r <= 0 && c <= 0 {
    } else if c <= 0 {
        lemma_material_upto_bound(b, r - 1, 9);
    } else {
        lemma_material_upto_bound(b, r, c - 1);
        assert(-9000 <= square_value(b[r][c - 1]) <= 9000);
    }
}

pub proof fn lemma_material_bound(b: BoardGrid)
    ensures
        -810000 <= material(b) <= 810000,
{
    lemma_material_upto_bound(b, 10, 0);
}

/// Minimax values and running bests stay within the range of `i32`.
pub proof fn lemma_mm_bound(s: GameState, depth: nat, is_max: bool)
    ensures
        i32::MIN <= mm(s, depth, is_max) <= i32::MAX,
    decreases depth, 1nat, 0nat,
{
    lemma_material_bound(s.board);
    if terminal_value(s) is None && depth > 0 {
        let moves = all_moves(s.board, s.current_turn, side(is_max));
        lemma_fold_bound(s, moves, depth, is_max, moves.len());
    }
}

pub proof fn lemma_fold_bound(s: GameState, moves: Seq<MovePair>, depth: nat, is_max: bool, n: nat)
    requires
        n <= moves.len(),
    ensures
        i32::MIN <= fold_best(s, moves, depth, is_max, n) <= i32::MAX,
    decreases depth, 0nat, n,
{
    if n > 0 && depth > 0 {
        lemma_fold_bound(s, moves, depth, is_max, (n - 1) as nat);
        let m = moves[n - 1];
        if move_legal(s, m) {
            lemma_mm_bound(child(s, m), (depth - 1) as nat, !is_max);
        }
    }
}

/// The running best only improves as more moves are considered.
pub proof fn lemma_fold_mono(s: GameState, moves: Seq<MovePair>, depth: nat, is_max: bool, m: nat, n: nat)
    requires
        m <= n,
    ensures
        is_max ==> fold_best(s, moves, depth, is_max, m) <= fold_best(s, moves, depth, is_max, n),
        !is_max ==> fold_best(s, moves, depth, is_max, m) >= fold_best(s, moves, depth, is_max, n),
    decreases n,
{
    if m < n {
        lemma_fold_mono(s, moves, depth, is_max, m, (n - 1) as nat);
    }
}

pub proof fn lemma_best_bound(s: GameState, moves: Seq<MovePair>, depth: nat, is_han: bool, n: nat)
    ensures
        i32::MIN <= best_upto(s, moves, depth, is_han, n).0 <= i32::MAX,
    decreases n,
{
    if n > 0 {
        lemma_best_bound(s, moves, depth, is_han, (n - 1) as nat);
        let m = moves[n - 1];
        if move_legal(s, m) {
            lemma_mm_bound(child(s, m), (depth - 1) as nat, !is_han);
        }
    }
}

/// With the full window of `i32` values, the alpha-beta search returns exactly the
/// minimax value.
pub proof fn lemma_full_window_exact(r: int, s: GameState, depth: nat, is_max: bool)
    requires
        ab_sound(r, mm(s, depth, is_max), i32::MIN as int, i32::MAX as int),
    ensures
        r == mm(s, depth, is_max),
{
    lemma_mm_bound(s, depth, is_max);
}

/// A piece of `color` with a listed move makes the list of all moves of `color` non-empty
/// from its square on.
proof fn lemma_moves_nonempty(b: BoardGrid, turn: Color, color: Color, r: int, c: int, r0: int, c0: int)
    requires
        (0 <= r < 10 && 0 <= c <= 9) || (r == 10 && c == 0),
        on_board(r0, c0),
        r0 < r || (r0 == r && c0 < c),
        b[r0][c0] matches Some(p) && p.color == color,
        valid_targets(b, turn, r0, c0).len() > 0,
    ensures
        moves_upto(b, turn, color, r, c).len() > 0,
    decreases r, c,
{
    if r <= 0 && c <= 0 {
    } else if c <= 0 {
        lemma_moves_nonempty(b, turn, color, r - 1, 9, r0, c0);
    } else if !(r0 == r && c0 == c - 1) {
        lemma_moves_nonempty(b, turn, color, r, c - 1, r0, c0);
    }
}

/// The value of the move `m` in a search of `depth` plies that starts with `is_han` to move.
pub open spec fn move_value(s: GameState, m: MovePair, depth: nat, is_han: bool) -> int {
    mm(child(s, m), (depth - 1) as nat, !is_han)
}

/// The moves of the side to move in a position that is still going on are not all gone.
proof fn lemma_active_has_moves(s: GameState)
    requires
        spec_status(s.board, s.current_turn) == Outcome::Active,
    ensures
        all_moves(s.board, s.current_turn, s.current_turn).len() > 0,
{
    let (r0, c0) = choose|r: int, c: int|
        on_board(r, c) && (s.board[r][c] matches Some(p) && p.color == s.current_turn)
            && #[trigger] valid_targets(s.board, s.current_turn, r, c).len() > 0;
    lemma_moves_nonempty(s.board, s.current_turn, s.current_turn, 10, 0, r0, c0);
}

/// When the searching side is the side to move, every minimax value lies strictly between
/// the extreme `i32` values.
proof fn lemma_mm_strict(s: GameState, depth: nat, is_max: bool)
    requires
        side(is_max) == s.current_turn,
    ensures
        i32::MIN < mm(s, depth, is_max) < i32::MAX,
    decreases depth, 1nat, 0nat,
{
    lemma_material_bound(s.board);
    if terminal_value(s) is None && depth > 0 {
        let moves = all_moves(s.board, s.current_turn, side(is_max));
        lemma_active_has_moves(s);
        lemma_moves_legal(s.board, s.current_turn, s.current_turn, 10, 0);
        lemma_fold_strict(s, moves, depth, is_max, moves.len());
    }
}

proof fn lemma_fold_strict(s: GameState, moves: Seq<MovePair>, depth: nat, is_max: bool, n: nat)
    requires
        side(is_max) == s.current_turn,
        depth > 0,
        n <= moves.len(),
        forall|j: int| 0 <= j < moves.len() ==> move_legal(s, #[trigger] moves[j]),
    ensures
        n > 0 ==> i32::MIN < fold_best(s, moves, depth, is_max, n) < i32::MAX,
        n == 0 ==> fold_best(s, moves, depth, is_max, n) == if is_max { i32::MIN as int } else { i32::MAX as int },
    decreases depth, 0nat, n,
{
    if n > 0 {
        lemma_fold_strict(s, moves, depth, is_max, (n - 1) as nat);
        let m = moves[n - 1];
        assert(move_legal(s, m));
        lemma_mm_strict(child(s, m), (depth - 1) as nat, !is_max);
    }
}

/// The first `n` moves, all legal, of the side to move: the running best is the value of one
/// of them, the first with that value, and no move among them scores better.
proof fn lemma_best_first(s: GameState, moves: Seq<MovePair>, depth: nat, is_han: bool, n: nat)
    requires
        depth >= 1,
        side(is_han) == s.current_turn,
        n <= moves.len(),
        forall|j: int| 0 <= j < moves.len() ==> move_legal(s, #[trigger] moves[j]),
    ensures
        ({
            let best = best_upto(s, moves, depth, is_han, n);
            &&& n > 0 ==> exists|k: int| 0 <= k < n && best.1 == Some(moves[k])
                && move_value(s, moves[k], depth, is_han) == best.0
                && forall|j: int| 0 <= j < k ==> if is_han {
                    #[trigger] move_value(s, moves[j], depth, is_han) < best.0
                } else {
                    move_value(s, moves[j], depth, is_han) > best.0
                }
            &&& forall|j: int| 0 <= j < n ==> if is_han {
                #[trigger] move_value(s, moves[j], depth, is_han) <= best.0
            } else {
                move_value(s, moves[j], depth, is_han) >= best.0
            }
        }),
    decreases n,
{
    if n > 0 {
        lemma_best_first(s, moves, depth, is_han, (n - 1) as nat);
        let prev = best_upto(s, moves, depth, is_han, (n - 1) as nat);
        let m = moves[n - 1];
        assert(move_legal(s, m));
        lemma_mm_strict(child(s, m), (depth - 1) as nat, !is_han);
        let v = move_value(s, m, depth, is_han);
        if (is_han && v > prev.0) || (!is_han && v < prev.0) {
            assert(best_upto(s, moves, depth, is_han, n).1 == Some(moves[n - 1]));
        } else {
            assert(n - 1 > 0);
            let k = choose|k: int| 0 <= k < n - 1 && prev.1 == Some(moves[k])
                && move_value(s, moves[k], depth, is_han) == prev.0
                && forall|j: int| 0 <= j < k ==> if is_han {
                    #[trigger] move_value(s, moves[j], depth, is_han) < prev.0
                } else {
                    move_value(s, moves[j], depth, is_han) > prev.0
                };
            assert(0 <= k < n);
        }
    }
}

/// What `get_best_move` chooses for `color` at `depth` plies: it has a move exactly when
/// `color` has a legal move; that move is the first legal move whose minimax value is the
/// best (highest for Han, lowest for Cho), and no legal move scores better.
pub proof fn lemma_best_move_law(s: GameState, depth: nat, color: Color)
    requires
        depth >= 1,
    ensures
        ({
            let moves = all_moves(s.board, s.current_turn, color);
            let w = color == Color::Han;
            let best = best_upto(s, moves, depth, w, moves.len());
            &&& moves.len() == 0 <==> best.1 is None
            &&& moves.len() > 0 ==> exists|k: int| 0 <= k < moves.len() && best.1 == Some(moves[k])
                && move_value(s, moves[k], depth, w) == best.0
                && forall|j: int| 0 <= j < k ==> if w {
                    #[trigger] move_value(s, moves[j], depth, w) < best.0
                } else {
                    move_value(s, moves[j], depth, w) > best.0
                }
            &&& forall|j: int| 0 <= j < moves.len() ==> if w {
                #[trigger] move_value(s, moves[j], depth, w) <= best.0
            } else {
                move_value(s, moves[j], depth, w) >= best.0
            }
        }),
{
    let moves = all_moves(s.board, s.current_turn, color);
    let w = color == Color::Han;
    lemma_moves_legal(s.board, s.current_turn, color, 10, 0);
    if moves.len() > 0 {
        let m = moves[0];
        assert(legal(s.board, m.0.0 as int, m.0.1 as int, m.1.0 as int, m.1.1 as int));
        assert(color == s.current_turn);
        assert forall|j: int| 0 <= j < moves.len() implies move_legal(s, #[trigger] moves[j]) by {
            let mj = moves[j];
            assert(legal(s.board, mj.0.0 as int, mj.0.1 as int, mj.1.0 as int, mj.1.1 as int));
        }
        lemma_best_first(s, moves, depth, w, moves.len());
    }
}

} // verus!
