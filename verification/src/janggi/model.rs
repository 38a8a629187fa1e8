use vstd::prelude::*;
use super::board::{grid_set, BoardGrid, Color, Piece, PieceType, Square};

verus! {

// ---------------------------------------------------------------------------
// Geometry
// ---------------------------------------------------------------------------

pub open spec fn abs(x: int) -> int {
    if x < 0 { -x } else { x }
}

pub open spec fn sign(x: int) -> int {
    if x > 0 { 1 } else if x < 0 { -1 } else { 0 }
}

pub open spec fn on_board(r: int, c: int) -> bool {
    0 <= r < 10 && 0 <= c < 9
}

/// The coordinate reached from `x` after `k` unit steps in direction `s`.
pub open spec fn step(x: int, s: int, k: int) -> int {
    if s > 0 { x + k } else if s < 0 { x - k } else { x }
}

/// Number of unit steps from one point to another on the same line or diagonal.
pub open spec fn line_len(fr: int, fc: int, tr: int, tc: int) -> int {
    if abs(tr - fr) >= abs(tc - fc) { abs(tr - fr) } else { abs(tc - fc) }
}

/// The `k`-th point on the way from `(fr, fc)` to `(tr, tc)`.
pub open spec fn ray_sq(b: BoardGrid, fr: int, fc: int, tr: int, tc: int, k: int) -> Square {
    b[step(fr, sign(tr - fr), k)][step(fc, sign(tc - fc), k)]
}

/// Every point strictly between two points of one line or diagonal is empty.
pub open spec fn path_clear(b: BoardGrid, fr: int, fc: int, tr: int, tc: int) -> bool {
    forall|k: int| 0 < k < line_len(fr, fc, tr, tc) ==> (#[trigger] ray_sq(b, fr, fc, tr, tc, k)).is_none()
}

/// Two distinct points on one rank, file or diagonal.
pub open spec fn aligned(fr: int, fc: int, tr: int, tc: int) -> bool {
    &&& !(fr == tr && fc == tc)
    &&& (fr == tr || fc == tc || abs(tr - fr) == abs(tc - fc))
}

/// The two palaces: rows 0-2 and 7-9, columns 3-5.
pub open spec fn in_palace(r: int, c: int) -> bool {
    (r <= 2 || r >= 7) && (c >= 3 && c <= 5)
}

/// Both points lie in the same palace half of the board.
pub open spec fn same_palace_half(fr: int, tr: int) -> bool {
    (fr <= 2 && tr <= 2) || (fr >= 7 && tr >= 7)
}

// ---------------------------------------------------------------------------
// Piece movement
// ---------------------------------------------------------------------------

/// General and advisor: one step along the palace lines.
pub open spec fn palace_move(fr: int, fc: int, tr: int, tc: int) -> bool {
    let dr = abs(tr - fr);
    let dc = abs(tc - fc);
    let center_r = if fr <= 2 { 1int } else { 8int };
    &&& in_palace(tr, tc)
    &&& same_palace_half(fr, tr)
    &&& (dr + dc == 1 || (dr == 1 && dc == 1 && ((fr == center_r && fc == 4) || (tr == center_r && tc == 4))))
}

/// Soldier: one step forward or sideways, or diagonally forward along the enemy palace lines.
pub open spec fn soldier_move(fr: int, fc: int, tr: int, tc: int, color: Color) -> bool {
    let dr = tr - fr;
    let dc = abs(tc - fc);
    let forward = if color == Color::Han { 1int } else { -1int };
    let center_r = if color == Color::Han { 8int } else { 1int };
    ||| (dr == forward && dc == 0) || (dr == 0 && dc == 1)
    ||| in_palace(fr, fc) && in_palace(tr, tc) && dr == forward && dc == 1
        && ((fr == center_r && fc == 4) || (tr == center_r && tc == 4))
}

/// Chariot: any distance along a rank or file, or along a palace diagonal.
pub open spec fn chariot_move(b: BoardGrid, fr: int, fc: int, tr: int, tc: int) -> bool {
    let dr = abs(tr - fr);
    let dc = abs(tc - fc);
    let center_r = if tr <= 2 { 1int } else { 8int };
    if (dr == 0 && dc > 0) || (dr > 0 && dc == 0) {
        path_clear(b, fr, fc, tr, tc)
    } else if in_palace(fr, fc) && in_palace(tr, tc) && dr == dc {
        same_palace_half(fr, tr)
            && ((fr == center_r && fc == 4) || (tr == center_r && tc == 4) || (fr != center_r && tr != center_r))
            && path_clear(b, fr, fc, tr, tc)
    } else {
        false
    }
}

/// The number of occupied points among the first `k - 1` points after `(fr, fc)`.
pub open spec fn screens_upto(b: BoardGrid, fr: int, fc: int, tr: int, tc: int, k: int) -> int
    decreases k,
{
    if k <= 1 {
        0
    } else {
        screens_upto(b, fr, fc, tr, tc, k - 1) + if ray_sq(b, fr, fc, tr, tc, k - 1) is Some { 1int } else { 0int }
    }
}

pub open spec fn is_cannon(sq: Square) -> bool {
    sq matches Some(p) && p.piece_type == PieceType::Cannon
}

/// Cannon: jumps over exactly one piece, never over or onto another cannon; in a palace it
/// may jump from corner to corner over the center.
pub open spec fn cannon_move(b: BoardGrid, fr: int, fc: int, tr: int, tc: int) -> bool {
    let dr = abs(tr - fr);
    let dc = abs(tc - fc);
    let n = line_len(fr, fc, tr, tc);
    let center_r = if tr <= 2 { 1int } else { 8int };
    if is_cannon(b[tr][tc]) {
        false
    } else if (dr == 0 && dc > 0) || (dr > 0 && dc == 0) {
        &&& forall|k: int| 0 < k < n ==> !is_cannon(#[trigger] ray_sq(b, fr, fc, tr, tc, k))
        &&& screens_upto(b, fr, fc, tr, tc, n) == 1
    } else {
        in_palace(fr, fc) && in_palace(tr, tc) && dr == 2 && dc == 2 && fr != center_r && tr != center_r
            && b[center_r][4] is Some && !is_cannon(b[center_r][4])
    }
}

/// Horse: one step orthogonally then one diagonally; the orthogonal point must be empty.
pub open spec fn horse_move(b: BoardGrid, fr: int, fc: int, tr: int, tc: int) -> bool {
    let dr = tr - fr;
    let dc = tc - fc;
    if abs(dr) == 2 && abs(dc) == 1 {
        b[fr + sign(dr)][fc] is None
    } else if abs(dr) == 1 && abs(dc) == 2 {
        b[fr][fc + sign(dc)] is None
    } else {
        false
    }
}

/// Elephant: one step orthogonally then two diagonally; both points passed must be empty.
pub open spec fn elephant_move(b: BoardGrid, fr: int, fc: int, tr: int, tc: int) -> bool {
    let dr = tr - fr;
    let dc = tc - fc;
    if abs(dr) == 3 && abs(dc) == 2 {
        b[fr + sign(dr)][fc] is None && b[fr + 2 * sign(dr)][fc + sign(dc)] is None
    } else if abs(dr) == 2 && abs(dc) == 3 {
        b[fr][fc + sign(dc)] is None && b[fr + sign(dr)][fc + 2 * sign(dc)] is None
    } else {
        false
    }
}

/// A move that follows the moving piece's pattern, whoever's turn it is.
pub open spec fn pseudo_legal(b: BoardGrid, fr: int, fc: int, tr: int, tc: int) -> bool {
    if fr == tr && fc == tc {
        false
    } else {
        match b[fr][fc] {
            None => false,
            Some(p) => {
                &&& !(b[tr][tc] matches Some(t) && t.color == p.color)
                &&& match p.piece_type {
                    PieceType::Chariot => chariot_move(b, fr, fc, tr, tc),
                    PieceType::Horse => horse_move(b, fr, fc, tr, tc),
                    PieceType::Elephant => elephant_move(b, fr, fc, tr, tc),
                    PieceType::Advisor => palace_move(fr, fc, tr, tc),
                    PieceType::General => palace_move(fr, fc, tr, tc),
                    PieceType::Cannon => cannon_move(b, fr, fc, tr, tc),
                    PieceType::Soldier => soldier_move(fr, fc, tr, tc, p.color),
                }
            },
        }
    }
}

/// An elephant goes one point straight and two diagonally, three rows and two columns or
/// two rows and three columns away, onto a point without a piece of its own side, and both
/// points it passes must be empty: for three rows, the point one row ahead in its own
/// column and the point two rows ahead one column over; for three columns, the same with
/// rows and columns exchanged.
pub proof fn lemma_elephant_moves(b: BoardGrid, fr: int, fc: int, tr: int, tc: int)
    requires
        b[fr][fc] matches Some(p) && p.piece_type == PieceType::Elephant,
    ensures
        ({
            let sr = if tr > fr { 1int } else { -1int };
            let sc = if tc > fc { 1int } else { -1int };
            pseudo_legal(b, fr, fc, tr, tc) <==> {
                &&& !(b[tr][tc] matches Some(q) && q.color == b[fr][fc]->Some_0.color)
                &&& {
                    ||| (tr - fr == 3 || tr - fr == -3) && (tc - fc == 2 || tc - fc == -2)
                        && b[fr + sr][fc] is None && b[fr + 2 * sr][fc + sc] is None
                    ||| (tr - fr == 2 || tr - fr == -2) && (tc - fc == 3 || tc - fc == -3)
                        && b[fr][fc + sc] is None && b[fr + sr][fc + 2 * sc] is None
                }
            }
        }),
{
}

/// A horse goes one point straight and one diagonally onto a point without a piece of its
/// own side, and the point it passes first, next to it in the long direction of the move,
/// must be empty.
pub proof fn lemma_horse_moves(b: BoardGrid, fr: int, fc: int, tr: int, tc: int)
    requires
        b[fr][fc] matches Some(p) && p.piece_type == PieceType::Horse,
    ensures
        ({
            let sr = if tr > fr { 1int } else { -1int };
            let sc = if tc > fc { 1int } else { -1int };
            pseudo_legal(b, fr, fc, tr, tc) <==> {
                &&& !(b[tr][tc] matches Some(q) && q.color == b[fr][fc]->Some_0.color)
                &&& {
                    ||| (tr - fr == 2 || tr - fr == -2) && (tc - fc == 1 || tc - fc == -1) && b[fr + sr][fc] is None
                    ||| (tr - fr == 1 || tr - fr == -1) && (tc - fc == 2 || tc - fc == -2) && b[fr][fc + sc] is None
                }
            }
        }),
{
}

/// A soldier steps one point forward (Han toward row 9, Cho toward row 0) or sideways,
/// never back; a diagonal step forward is allowed only inside the enemy palace.  It never
/// lands on a piece of its own side, and any straight step forward or sideways onto a point
/// without one is allowed.
pub proof fn lemma_soldier_moves(b: BoardGrid, fr: int, fc: int, tr: int, tc: int)
    requires
        b[fr][fc] matches Some(p) && p.piece_type == PieceType::Soldier,
    ensures
        ({
            let p = b[fr][fc]->Some_0;
            let ahead = if p.color == Color::Han { 1int } else { -1int };
            let own_target = b[tr][tc] matches Some(q) && q.color == p.color;
            &&& pseudo_legal(b, fr, fc, tr, tc) ==> !own_target && {
                ||| tr == fr + ahead && tc == fc
                ||| tr == fr && (tc - fc == 1 || tc - fc == -1)
                ||| tr == fr + ahead && (tc - fc == 1 || tc - fc == -1) && 3 <= fc <= 5 && 3 <= tc <= 5
                    && (p.color == Color::Han ==> 7 <= fr && tr <= 9) && (p.color == Color::Cho ==> 0 <= tr && fr <= 2)
            }
            &&& !own_target && (tr == fr + ahead && tc == fc || tr == fr && (tc - fc == 1 || tc - fc == -1))
                ==> pseudo_legal(b, fr, fc, tr, tc)
        }),
{
}

/// The general and the advisors never leave their palace (rows 0 to 2 or 7 to 9, columns
/// 3 to 5, on their own half) and move one point at a time; a straight step to a point of
/// the palace without a piece of their own side is always allowed.
pub proof fn lemma_palace_pieces_move(b: BoardGrid, fr: int, fc: int, tr: int, tc: int)
    requires
        b[fr][fc] matches Some(p) && (p.piece_type == PieceType::General || p.piece_type == PieceType::Advisor),
    ensures
        ({
            let own_target = b[tr][tc] matches Some(q) && q.color == b[fr][fc]->Some_0.color;
            let dr = if tr >= fr { tr - fr } else { fr - tr };
            let dc = if tc >= fc { tc - fc } else { fc - tc };
            &&& pseudo_legal(b, fr, fc, tr, tc) ==> !own_target && dr <= 1 && dc <= 1 && 3 <= tc <= 5
                && ((fr <= 2 && tr <= 2) || (fr >= 7 && tr >= 7))
            &&& !own_target && dr + dc == 1 && 3 <= tc <= 5 && ((fr <= 2 && tr <= 2) || (fr >= 7 && tr >= 7))
                ==> pseudo_legal(b, fr, fc, tr, tc)
        }),
{
}

/// `x` lies strictly between `a` and `b`.
pub open spec fn strictly_between(a: int, x: int, b: int) -> bool {
    (a < x && x < b) || (b < x && x < a)
}

/// `(x, y)` lies strictly between `(fr, fc)` and `(tr, tc)` on their common row or column.
pub open spec fn straight_between(fr: int, fc: int, tr: int, tc: int, x: int, y: int) -> bool {
    ||| fr == tr && x == fr && strictly_between(fc, y, tc)
    ||| fc == tc && y == fc && strictly_between(fr, x, tr)
}

/// The points passed on a straight move are the points strictly between its ends.
proof fn lemma_straight_points(fr: int, fc: int, tr: int, tc: int)
    requires
        (fr == tr) != (fc == tc),
    ensures
        forall|k: int| 0 < k < line_len(fr, fc, tr, tc) ==> straight_between(fr, fc, tr, tc,
            #[trigger] step(fr, sign(tr - fr), k), step(fc, sign(tc - fc), k)),
        forall|x: int, y: int| #[trigger] straight_between(fr, fc, tr, tc, x, y) ==> {
            let k = if fr == tr { abs(y - fc) } else { abs(x - fr) };
            &&& 0 < k < line_len(fr, fc, tr, tc)
            &&& step(fr, sign(tr - fr), k) == x
            &&& step(fc, sign(tc - fc), k) == y
        },
{
}

/// Counting the occupied points among the first `m - 1` points after the start gives 0
/// exactly when all of them are empty, and 1 exactly when just one of them is occupied.
proof fn lemma_screens_count(b: BoardGrid, fr: int, fc: int, tr: int, tc: int, m: int)
    ensures
        screens_upto(b, fr, fc, tr, tc, m) >= 0,
        screens_upto(b, fr, fc, tr, tc, m) == 0 <==> forall|k: int| 0 < k < m ==> (#[trigger] ray_sq(b, fr, fc, tr, tc, k)) is None,
        screens_upto(b, fr, fc, tr, tc, m) == 1 <==> exists|k0: int| 0 < k0 < m
            && (#[trigger] ray_sq(b, fr, fc, tr, tc, k0)) is Some
            && forall|k: int| 0 < k < m && k != k0 ==> (#[trigger] ray_sq(b, fr, fc, tr, tc, k)) is None,
    decreases m,
{
    if m > 1 {
        lemma_screens_count(b, fr, fc, tr, tc, m - 1);
        let last = ray_sq(b, fr, fc, tr, tc, m - 1);
        if screens_upto(b, fr, fc, tr, tc, m) == 1 {
            if last is Some {
                assert(screens_upto(b, fr, fc, tr, tc, m - 1) == 0);
                assert forall|k: int| 0 < k < m && k != m - 1 implies (#[trigger] ray_sq(b, fr, fc, tr, tc, k)) is None by {}
            } else {
                let k0 = choose|k0: int| 0 < k0 < m - 1 && (#[trigger] ray_sq(b, fr, fc, tr, tc, k0)) is Some
                    && forall|k: int| 0 < k < m - 1 && k != k0 ==> (#[trigger] ray_sq(b, fr, fc, tr, tc, k)) is None;
                assert forall|k: int| 0 < k < m && k != k0 implies (#[trigger] ray_sq(b, fr, fc, tr, tc, k)) is None by {}
            }
        }
        if exists|k0: int| 0 < k0 < m && (#[trigger] ray_sq(b, fr, fc, tr, tc, k0)) is Some
            && forall|k: int| 0 < k < m && k != k0 ==> (#[trigger] ray_sq(b, fr, fc, tr, tc, k)) is None {
            let k0 = choose|k0: int| 0 < k0 < m && (#[trigger] ray_sq(b, fr, fc, tr, tc, k0)) is Some
                && forall|k: int| 0 < k < m && k != k0 ==> (#[trigger] ray_sq(b, fr, fc, tr, tc, k)) is None;
            if k0 == m - 1 {
                assert forall|k: int| 0 < k < m - 1 implies (#[trigger] ray_sq(b, fr, fc, tr, tc, k)) is None by {}
            } else {
                assert(last is None);
                assert(ray_sq(b, fr, fc, tr, tc, k0) is Some);
                assert forall|k: int| 0 < k < m - 1 && k != k0 implies (#[trigger] ray_sq(b, fr, fc, tr, tc, k)) is None by {}
            }
        }
        if forall|k: int| 0 < k < m ==> (#[trigger] ray_sq(b, fr, fc, tr, tc, k)) is None {
            assert(last is None);
        }
    }
}

/// A chariot moving along a row or column goes onto a point without a piece of its own
/// side, and every point it passes is empty.
pub proof fn lemma_chariot_straight_moves(b: BoardGrid, fr: int, fc: int, tr: int, tc: int)
    requires
        b[fr][fc] matches Some(p) && p.piece_type == PieceType::Chariot,
        (fr == tr) != (fc == tc),
    ensures
        pseudo_legal(b, fr, fc, tr, tc) <==> {
            &&& !(b[tr][tc] matches Some(q) && q.color == b[fr][fc]->Some_0.color)
            &&& forall|x: int, y: int| straight_between(fr, fc, tr, tc, x, y) ==> (#[trigger] b[x][y]) is None
        },
{
    lemma_straight_points(fr, fc, tr, tc);
    let n = line_len(fr, fc, tr, tc);
    if path_clear(b, fr, fc, tr, tc) {
        assert forall|x: int, y: int| straight_between(fr, fc, tr, tc, x, y) implies (#[trigger] b[x][y]) is None by {
            let k = if fr == tr { abs(y - fc) } else { abs(x - fr) };
            assert(ray_sq(b, fr, fc, tr, tc, k).is_none());
        }
    }
    if forall|x: int, y: int| straight_between(fr, fc, tr, tc, x, y) ==> (#[trigger] b[x][y]) is None {
        assert forall|k: int| 0 < k < n implies (#[trigger] ray_sq(b, fr, fc, tr, tc, k)).is_none() by {
            let x = step(fr, sign(tr - fr), k);
            let y = step(fc, sign(tc - fc), k);
            assert(straight_between(fr, fc, tr, tc, x, y));
            assert(b[x][y] is None);
        }
    }
}

/// The point passed `k` steps into a straight move.
proof fn lemma_passed_point(fr: int, fc: int, tr: int, tc: int, k: int)
    requires
        (fr == tr) != (fc == tc),
        0 < k < line_len(fr, fc, tr, tc),
    ensures
        straight_between(fr, fc, tr, tc, step(fr, sign(tr - fr), k), step(fc, sign(tc - fc), k)),
{
}

/// How many steps into a straight move a passed point lies.
proof fn lemma_steps_to_point(fr: int, fc: int, tr: int, tc: int, x: int, y: int)
    requires
        (fr == tr) != (fc == tc),
        straight_between(fr, fc, tr, tc, x, y),
    ensures
        ({
            let k = if fr == tr { abs(y - fc) } else { abs(x - fr) };
            &&& 0 < k < line_len(fr, fc, tr, tc)
            &&& step(fr, sign(tr - fr), k) == x
            &&& step(fc, sign(tc - fc), k) == y
        }),
{
}

/// A count of one occupied point passed means exactly one passed point is occupied.
#[verifier::rlimit(30)]
proof fn lemma_one_screen_found(b: BoardGrid, fr: int, fc: int, tr: int, tc: int)
    requires
        (fr == tr) != (fc == tc),
        screens_upto(b, fr, fc, tr, tc, line_len(fr, fc, tr, tc)) == 1,
    ensures
        exists|x: int, y: int|
            straight_between(fr, fc, tr, tc, x, y) && (#[trigger] b[x][y]) is Some
                && forall|x2: int, y2: int| straight_between(fr, fc, tr, tc, x2, y2) && (x2 != x || y2 != y)
                    ==> (#[trigger] b[x2][y2]) is None,
{
    let n = line_len(fr, fc, tr, tc);
    lemma_screens_count(b, fr, fc, tr, tc, n);
    let k0 = choose|k0: int| 0 < k0 < n && (#[trigger] ray_sq(b, fr, fc, tr, tc, k0)) is Some
        && forall|k: int| 0 < k < n && k != k0 ==> (#[trigger] ray_sq(b, fr, fc, tr, tc, k)) is None;
    let x = step(fr, sign(tr - fr), k0);
    let y = step(fc, sign(tc - fc), k0);
    lemma_passed_point(fr, fc, tr, tc, k0);
    assert(b[x][y] is Some);
    assert forall|x2: int, y2: int| straight_between(fr, fc, tr, tc, x2, y2) && (x2 != x || y2 != y)
        implies (#[trigger] b[x2][y2]) is None by {
        lemma_steps_to_point(fr, fc, tr, tc, x2, y2);
        let k = if fr == tr { abs(y2 - fc) } else { abs(x2 - fr) };
        assert(ray_sq(b, fr, fc, tr, tc, k) is None);
    }
}

/// Exactly one occupied passed point means a count of one.
#[verifier::rlimit(30)]
proof fn lemma_one_screen_counted(b: BoardGrid, fr: int, fc: int, tr: int, tc: int, x: int, y: int)
    requires
        (fr == tr) != (fc == tc),
        straight_between(fr, fc, tr, tc, x, y),
        b[x][y] is Some,
        forall|x2: int, y2: int| straight_between(fr, fc, tr, tc, x2, y2) && (x2 != x || y2 != y)
            ==> (#[trigger] b[x2][y2]) is None,
    ensures
        screens_upto(b, fr, fc, tr, tc, line_len(fr, fc, tr, tc)) == 1,
{
    let n = line_len(fr, fc, tr, tc);
    lemma_screens_count(b, fr, fc, tr, tc, n);
    lemma_steps_to_point(fr, fc, tr, tc, x, y);
    let k0 = if fr == tr { abs(y - fc) } else { abs(x - fr) };
    assert(ray_sq(b, fr, fc, tr, tc, k0) is Some);
    assert forall|k: int| 0 < k < n && k != k0 implies (#[trigger] ray_sq(b, fr, fc, tr, tc, k)) is None by {
        lemma_passed_point(fr, fc, tr, tc, k);
        let x2 = step(fr, sign(tr - fr), k);
        let y2 = step(fc, sign(tc - fc), k);
        assert(b[x2][y2] is None);
    }
}

/// Exactly one point passed on a straight move is occupied when the count of occupied
/// points passed is one.
proof fn lemma_one_screen(b: BoardGrid, fr: int, fc: int, tr: int, tc: int)
    requires
        (fr == tr) != (fc == tc),
    ensures
        screens_upto(b, fr, fc, tr, tc, line_len(fr, fc, tr, tc)) == 1 <==> exists|x: int, y: int|
            straight_between(fr, fc, tr, tc, x, y) && (#[trigger] b[x][y]) is Some
                && forall|x2: int, y2: int| straight_between(fr, fc, tr, tc, x2, y2) && (x2 != x || y2 != y)
                    ==> (#[trigger] b[x2][y2]) is None,
{
    if screens_upto(b, fr, fc, tr, tc, line_len(fr, fc, tr, tc)) == 1 {
        lemma_one_screen_found(b, fr, fc, tr, tc);
    }
    if exists|x: int, y: int|
        straight_between(fr, fc, tr, tc, x, y) && (#[trigger] b[x][y]) is Some
            && forall|x2: int, y2: int| straight_between(fr, fc, tr, tc, x2, y2) && (x2 != x || y2 != y)
                ==> (#[trigger] b[x2][y2]) is None {
        let (x, y) = choose|x: int, y: int|
            straight_between(fr, fc, tr, tc, x, y) && (#[trigger] b[x][y]) is Some
                && forall|x2: int, y2: int| straight_between(fr, fc, tr, tc, x2, y2) && (x2 != x || y2 != y)
                    ==> (#[trigger] b[x2][y2]) is None;
        lemma_one_screen_counted(b, fr, fc, tr, tc, x, y);
    }
}

/// No point passed on a straight move holds a cannon when none of the passed points, as
/// counted by steps, does.
proof fn lemma_no_cannon_passed(b: BoardGrid, fr: int, fc: int, tr: int, tc: int)
    requires
        (fr == tr) != (fc == tc),
    ensures
        (forall|k: int| 0 < k < line_len(fr, fc, tr, tc) ==> !is_cannon(#[trigger] ray_sq(b, fr, fc, tr, tc, k)))
            <==> forall|x: int, y: int| straight_between(fr, fc, tr, tc, x, y)
                ==> !((#[trigger] b[x][y]) matches Some(q) && q.piece_type == PieceType::Cannon),
{
    lemma_straight_points(fr, fc, tr, tc);
    let n = line_len(fr, fc, tr, tc);
    if forall|k: int| 0 < k < n ==> !is_cannon(#[trigger] ray_sq(b, fr, fc, tr, tc, k)) {
        assert forall|x: int, y: int| straight_between(fr, fc, tr, tc, x, y)
            implies !((#[trigger] b[x][y]) matches Some(q) && q.piece_type == PieceType::Cannon) by {
            let k = if fr == tr { abs(y - fc) } else { abs(x - fr) };
            assert(!is_cannon(ray_sq(b, fr, fc, tr, tc, k)));
        }
    }
    if forall|x: int, y: int| straight_between(fr, fc, tr, tc, x, y)
        ==> !((#[trigger] b[x][y]) matches Some(q) && q.piece_type == PieceType::Cannon) {
        assert forall|k: int| 0 < k < n implies !is_cannon(#[trigger] ray_sq(b, fr, fc, tr, tc, k)) by {
            let x = step(fr, sign(tr - fr), k);
            let y = step(fc, sign(tc - fc), k);
            assert(straight_between(fr, fc, tr, tc, x, y));
            assert(!(b[x][y] matches Some(q) && q.piece_type == PieceType::Cannon));
        }
    }
}

/// A cannon moving along a row or column jumps over exactly one piece: exactly one of the
/// points it passes is occupied, none of them by a cannon, and it lands on a point that
/// holds neither a cannon nor a piece of its own side.
pub proof fn lemma_cannon_straight_moves(b: BoardGrid, fr: int, fc: int, tr: int, tc: int)
    requires
        b[fr][fc] matches Some(p) && p.piece_type == PieceType::Cannon,
        (fr == tr) != (fc == tc),
    ensures
        pseudo_legal(b, fr, fc, tr, tc) <==> {
            &&& !(b[tr][tc] matches Some(q) && q.color == b[fr][fc]->Some_0.color)
            &&& !(b[tr][tc] matches Some(q) && q.piece_type == PieceType::Cannon)
            &&& forall|x: int, y: int| straight_between(fr, fc, tr, tc, x, y)
                ==> !((#[trigger] b[x][y]) matches Some(q) && q.piece_type == PieceType::Cannon)
            &&& exists|x: int, y: int| straight_between(fr, fc, tr, tc, x, y) && (#[trigger] b[x][y]) is Some
                && forall|x2: int, y2: int| straight_between(fr, fc, tr, tc, x2, y2) && (x2 != x || y2 != y)
                    ==> (#[trigger] b[x2][y2]) is None
        },
{
    lemma_one_screen(b, fr, fc, tr, tc);
    lemma_no_cannon_passed(b, fr, fc, tr, tc);
    let n = line_len(fr, fc, tr, tc);
    assert(cannon_move(b, fr, fc, tr, tc) == (!is_cannon(b[tr][tc])
        && (forall|k: int| 0 < k < n ==> !is_cannon(#[trigger] ray_sq(b, fr, fc, tr, tc, k)))
        && screens_upto(b, fr, fc, tr, tc, n) == 1));
}

pub open spec fn opponent(color: Color) -> Color {
    match color {
        Color::Han => Color::Cho,
        Color::Cho => Color::Han,
    }
}

// ---------------------------------------------------------------------------
// Generals and check
// ---------------------------------------------------------------------------

pub open spec fn is_general_of(sq: Square, color: Color) -> bool {
    sq matches Some(p) && p.piece_type == PieceType::General && p.color == color
}

pub open spec fn has_general(b: BoardGrid, color: Color) -> bool {
    exists|r: int, c: int| on_board(r, c) && #[trigger] is_general_of(b[r][c], color)
}

/// The first column, from `c` on, of row `r` that holds the general of `color`.
pub open spec fn first_general_col(b: BoardGrid, color: Color, r: int, c: int) -> Option<int>
    decreases 9 - c,
{
    if c < 0 || c >= 9 {
        None
    } else if is_general_of(b[r][c], color) {
        Some(c)
    } else {
        first_general_col(b, color, r, c + 1)
    }
}

/// Where a row-by-row scan of the first `rows` rows last finds the general of `color`.
pub open spec fn general_scan(b: BoardGrid, color: Color, rows: int) -> Option<(int, int)>
    decreases rows,
{
    if rows <= 0 {
        None
    } else {
        match first_general_col(b, color, rows - 1, 0) {
            Some(c) => Some((rows - 1, c)),
            None => general_scan(b, color, rows - 1),
        }
    }
}

pub open spec fn general_pos(b: BoardGrid, color: Color) -> Option<(int, int)> {
    general_scan(b, color, 10)
}

/// A piece hostile to `color` on `(r, c)` could move onto `(gr, gc)`.
pub open spec fn attacker_at(b: BoardGrid, color: Color, gr: int, gc: int, r: int, c: int) -> bool {
    (b[r][c] matches Some(p) && p.color != color) && pseudo_legal(b, r, c, gr, gc)
}

pub open spec fn attacked(b: BoardGrid, color: Color, gr: int, gc: int) -> bool {
    exists|r: int, c: int| on_board(r, c) && #[trigger] attacker_at(b, color, gr, gc, r, c)
}

/// The board after the piece on `(fr, fc)` is carried to `(tr, tc)` unchanged.
pub open spec fn moved(b: BoardGrid, fr: int, fc: int, tr: int, tc: int) -> BoardGrid {
    grid_set(grid_set(b, tr, tc, b[fr][fc]), fr, fc, None)
}

/// Whether the move would leave the mover's general attacked, or the mover without a general.
pub open spec fn would_check(b: BoardGrid, fr: int, fc: int, tr: int, tc: int) -> bool {
    let t = moved(b, fr, fc, tr, tc);
    let color = b[fr][fc]->Some_0.color;
    match general_pos(t, color) {
        Some(g) => attacked(t, color, g.0, g.1),
        None => true,
    }
}

/// Whether the general of `color` stands attacked; false when it has no general.
pub open spec fn in_check(b: BoardGrid, color: Color) -> bool {
    match general_pos(b, color) {
        Some(g) => attacked(b, color, g.0, g.1),
        None => false,
    }
}

/// A legal move of the piece on `(fr, fc)`.
pub open spec fn legal(b: BoardGrid, fr: int, fc: int, tr: int, tc: int) -> bool {
    pseudo_legal(b, fr, fc, tr, tc) && !would_check(b, fr, fc, tr, tc)
}

/// The targets of the legal moves from `(row, col)` among the points before `(r, c)`
/// in row-major order.
pub open spec fn targets_upto(b: BoardGrid, row: int, col: int, r: int, c: int) -> Seq<(usize, usize)>
    decreases r, c,
{
    if r <= 0 && c <= 0 {
        Seq::empty()
    } else if c <= 0 {
        targets_upto(b, row, col, r - 1, 9)
    } else {
        let prev = targets_upto(b, row, col, r, c - 1);
        if legal(b, row, col, r, c - 1) {
            prev.push((r as usize, (c - 1) as usize))
        } else {
            prev
        }
    }
}

/// The targets of the legal moves of the piece on `(row, col)`, in row-major order;
/// empty unless that piece belongs to the side to move.
pub open spec fn valid_targets(b: BoardGrid, turn: Color, row: int, col: int) -> Seq<(usize, usize)> {
    match b[row][col] {
        Some(p) => if p.color == turn { targets_upto(b, row, col, 10, 0) } else { Seq::empty() },
        None => Seq::empty(),
    }
}

pub type MovePair = ((usize, usize), (usize, usize));

/// The legal moves of the pieces of `color` on points before `(r, c)`, in row-major order.
pub open spec fn moves_upto(b: BoardGrid, turn: Color, color: Color, r: int, c: int) -> Seq<MovePair>
    decreases r, c,
{
    if r <= 0 && c <= 0 {
        Seq::empty()
    } else if c <= 0 {
        moves_upto(b, turn, color, r - 1, 9)
    } else {
        let prev = moves_upto(b, turn, color, r, c - 1);
        if b[r][c - 1] matches Some(p) && p.color == color {
            prev + valid_targets(b, turn, r, c - 1).map_values(
                |m: (usize, usize)| ((r as usize, (c - 1) as usize), m),
            )
        } else {
            prev
        }
    }
}

pub open spec fn all_moves(b: BoardGrid, turn: Color, color: Color) -> Seq<MovePair> {
    moves_upto(b, turn, color, 10, 0)
}

// ---------------------------------------------------------------------------
// Lemmas
// ---------------------------------------------------------------------------

pub proof fn lemma_first_col_sound(b: BoardGrid, color: Color, r: int, c: int)
    ensures
        first_general_col(b, color, r, c) matches Some(x) ==> c <= x < 9 && 0 <= x && is_general_of(b[r][x], color),
    decreases 9 - c,
{
    if 0 <= c < 9 && !is_general_of(b[r][c], color) {
        lemma_first_col_sound(b, color, r, c + 1);
    }
}

pub proof fn lemma_first_col_complete(b: BoardGrid, color: Color, r: int, c: int, x: int)
    requires
        0 <= c <= x < 9,
        is_general_of(b[r][x], color),
    ensures
        first_general_col(b, color, r, c) is Some,
    decreases 9 - c,
{
    if !is_general_of(b[r][c], color) {
        lemma_first_col_complete(b, color, r, c + 1, x);
    }
}

pub proof fn lemma_scan_sound(b: BoardGrid, color: Color, rows: int)
    requires
        rows <= 10,
    ensures
        general_scan(b, color, rows) matches Some(g) ==> on_board(g.0, g.1) && is_general_of(b[g.0][g.1], color),
    decreases rows,
{
    if rows > 0 {
        lemma_first_col_sound(b, color, rows - 1, 0);
        lemma_scan_sound(b, color, rows - 1);
    }
}

pub proof fn lemma_scan_complete(b: BoardGrid, color: Color, rows: int, r: int, c: int)
    requires
        0 <= r < rows,
        on_board(r, c),
        is_general_of(b[r][c], color),
    ensures
        general_scan(b, color, rows) is Some,
    decreases rows,
{
    if first_general_col(b, color, rows - 1, 0) is None {
        if r == rows - 1 {
            lemma_first_col_complete(b, color, r, 0, c);
        } else {
            lemma_scan_complete(b, color, rows - 1, r, c);
        }
    }
}

/// The scan finds a general exactly when there is one, and what it finds is a general.
pub proof fn lemma_general_pos(b: BoardGrid, color: Color)
    ensures
        general_pos(b, color) is Some <==> has_general(b, color),
        general_pos(b, color) matches Some(g) ==> on_board(g.0, g.1) && is_general_of(b[g.0][g.1], color),
{
    lemma_scan_sound(b, color, 10);
    if has_general(b, color) {
        let (r, c) = choose|r: int, c: int| on_board(r, c) && #[trigger] is_general_of(b[r][c], color);
        lemma_scan_complete(b, color, 10, r, c);
    }
}

/// Every generated target is a legal move's destination.
pub proof fn lemma_targets_legal(b: BoardGrid, row: int, col: int, r: int, c: int)
    requires
        (0 <= r < 10 && 0 <= c <= 9) || (r == 10 && c == 0),
    ensures
        forall|i: int| 0 <= i < targets_upto(b, row, col, r, c).len() ==> {
            let t = #[trigger] targets_upto(b, row, col, r, c)[i];
            on_board(t.0 as int, t.1 as int) && legal(b, row, col, t.0 as int, t.1 as int)
        },
    decreases r, c,
{
    if r <= 0 && c <= 0 {
    } else if c <= 0 {
        lemma_targets_legal(b, row, col, r - 1, 9);
        assert(targets_upto(b, row, col, r, c) == targets_upto(b, row, col, r - 1, 9));
    } else {
        lemma_targets_legal(b, row, col, r, c - 1);
        let prev = targets_upto(b, row, col, r, c - 1);
        if legal(b, row, col, r, c - 1) {
            assert(targets_upto(b, row, col, r, c) == prev.push((r as usize, (c - 1) as usize)));
        } else {
            assert(targets_upto(b, row, col, r, c) == prev);
        }
        assert forall|i: int| 0 <= i < targets_upto(b, row, col, r, c).len() implies {
            let t = #[trigger] targets_upto(b, row, col, r, c)[i];
            on_board(t.0 as int, t.1 as int) && legal(b, row, col, t.0 as int, t.1 as int)
        } by {
            if i < prev.len() {
                assert(targets_upto(b, row, col, r, c)[i] == prev[i]);
            }
        }
    }
}

/// Every generated move starts from a piece of the given color, the side to move, and is legal.
pub proof fn lemma_moves_legal(b: BoardGrid, turn: Color, color: Color, r: int, c: int)
    requires
        (0 <= r < 10 && 0 <= c <= 9) || (r == 10 && c == 0),
    ensures
        forall|i: int| 0 <= i < moves_upto(b, turn, color, r, c).len() ==> {
            let m = #[trigger] moves_upto(b, turn, color, r, c)[i];
            &&& on_board(m.0.0 as int, m.0.1 as int)
            &&& on_board(m.1.0 as int, m.1.1 as int)
            &&& (b[m.0.0 as int][m.0.1 as int] matches Some(p) && p.color == color && p.color == turn)
            &&& legal(b, m.0.0 as int, m.0.1 as int, m.1.0 as int, m.1.1 as int)
        },
    decreases r, c,
{
    if r <= 0 && c <= 0 {
    } else if c <= 0 {
        lemma_moves_legal(b, turn, color, r - 1, 9);
    } else {
        lemma_moves_legal(b, turn, color, r, c - 1);
        let prev = moves_upto(b, turn, color, r, c - 1);
        if b[r][c - 1] matches Some(p) && p.color == color {
            let ts = valid_targets(b, turn, r, c - 1);
            lemma_targets_legal(b, r, c - 1, 10, 0);
            let mapped = ts.map_values(|m: (usize, usize)| ((r as usize, (c - 1) as usize), m));
            assert forall|i: int| 0 <= i < moves_upto(b, turn, color, r, c).len() implies {
                let m = #[trigger] moves_upto(b, turn, color, r, c)[i];
                &&& on_board(m.0.0 as int, m.0.1 as int)
                &&& on_board(m.1.0 as int, m.1.1 as int)
                &&& (b[m.0.0 as int][m.0.1 as int] matches Some(p) && p.color == color && p.color == turn)
                &&& legal(b, m.0.0 as int, m.0.1 as int, m.1.0 as int, m.1.1 as int)
            } by {
                if i >= prev.len() {
                    let j = i - prev.len();
                    assert(moves_upto(b, turn, color, r, c)[i] == mapped[j]);
                    assert(ts[j] == targets_upto(b, r, c - 1, 10, 0)[j]);
                }
            }
        }
    }
}

/// Every legal move's destination before `(r, c)` is among the generated targets.
pub proof fn lemma_targets_complete(b: BoardGrid, row: int, col: int, r: int, c: int, tr: int, tc: int)
    requires
        (0 <= r < 10 && 0 <= c <= 9) || (r == 10 && c == 0),
        on_board(tr, tc),
        tr < r || (tr == r && tc < c),
        legal(b, row, col, tr, tc),
    ensures
        targets_upto(b, row, col, r, c).contains((tr as usize, tc as usize)),
    decreases r, c,
{
    if r <= 0 && c <= 0 {
    } else if c <= 0 {
        lemma_targets_complete(b, row, col, r - 1, 9, tr, tc);
    } else {
        let prev = targets_upto(b, row, col, r, c - 1);
        if tr == r && tc == c - 1 {
            assert(targets_upto(b, row, col, r, c) == prev.push((r as usize, (c - 1) as usize)));
            assert(targets_upto(b, row, col, r, c)[prev.len() as int] == (tr as usize, tc as usize));
        } else {
            lemma_targets_complete(b, row, col, r, c - 1, tr, tc);
            let i = choose|i: int| 0 <= i < prev.len() && prev[i] == (tr as usize, tc as usize);
            if legal(b, row, col, r, c - 1) {
                assert(targets_upto(b, row, col, r, c)[i] == prev[i]);
            }
        }
    }
}

/// Point `(x, y)` comes before point `(r, c)` in row-major order.
pub open spec fn comes_before(x: int, y: int, r: int, c: int) -> bool {
    x < r || (x == r && y < c)
}

/// The targets generated before `(r, c)` lie before `(r, c)` and come in strictly
/// increasing row-major order.
pub proof fn lemma_targets_ordered(b: BoardGrid, row: int, col: int, r: int, c: int)
    requires
        (0 <= r < 10 && 0 <= c <= 9) || (r == 10 && c == 0),
    ensures
        forall|i: int| 0 <= i < targets_upto(b, row, col, r, c).len() ==> {
            let t = #[trigger] targets_upto(b, row, col, r, c)[i];
            comes_before(t.0 as int, t.1 as int, r, c)
        },
        forall|i: int, j: int| 0 <= i < j < targets_upto(b, row, col, r, c).len() ==> {
            let s = #[trigger] targets_upto(b, row, col, r, c)[i];
            let t = #[trigger] targets_upto(b, row, col, r, c)[j];
            comes_before(s.0 as int, s.1 as int, t.0 as int, t.1 as int)
        },
    decreases r, c,
{
    if r <= 0 && c <= 0 {
    } else if c <= 0 {
        lemma_targets_ordered(b, row, col, r - 1, 9);
        assert(targets_upto(b, row, col, r, c) == targets_upto(b, row, col, r - 1, 9));
    } else {
        lemma_targets_ordered(b, row, col, r, c - 1);
        let prev = targets_upto(b, row, col, r, c - 1);
        let cur = targets_upto(b, row, col, r, c);
        if legal(b, row, col, r, c - 1) {
            assert(cur == prev.push((r as usize, (c - 1) as usize)));
            assert forall|i: int| 0 <= i < cur.len() implies {
                let t = #[trigger] cur[i];
                comes_before(t.0 as int, t.1 as int, r, c)
            } by {
                if i < prev.len() {
                    assert(cur[i] == prev[i]);
                }
            }
            assert forall|i: int, j: int| 0 <= i < j < cur.len() implies {
                let s = #[trigger] cur[i];
                let t = #[trigger] cur[j];
                comes_before(s.0 as int, s.1 as int, t.0 as int, t.1 as int)
            } by {
                assert(cur[i] == prev[i]);
                if j < prev.len() {
                    assert(cur[j] == prev[j]);
                }
            }
        } else {
            assert(cur == prev);
        }
    }
}

/// The points listed for a piece come in strictly increasing row-major order, so no point
/// is listed twice.
pub proof fn lemma_targets_in_order(b: BoardGrid, turn: Color, row: int, col: int)
    ensures
        forall|i: int, j: int| 0 <= i < j < valid_targets(b, turn, row, col).len() ==> {
            let s = #[trigger] valid_targets(b, turn, row, col)[i];
            let t = #[trigger] valid_targets(b, turn, row, col)[j];
            comes_before(s.0 as int, s.1 as int, t.0 as int, t.1 as int)
        },
{
    lemma_targets_ordered(b, row, col, 10, 0);
}

/// The moves of `color` generated before `(r, c)` are not empty exactly when some piece of
/// `color` on a point before `(r, c)` has a legal move.
pub proof fn lemma_moves_upto_nonempty(b: BoardGrid, turn: Color, color: Color, r: int, c: int)
    requires
        (0 <= r < 10 && 0 <= c <= 9) || (r == 10 && c == 0),
    ensures
        moves_upto(b, turn, color, r, c).len() > 0 <==> exists|x: int, y: int|
            on_board(x, y) && comes_before(x, y, r, c) && (b[x][y] matches Some(p) && p.color == color)
                && #[trigger] valid_targets(b, turn, x, y).len() > 0,
    decreases r, c,
{
    if r <= 0 && c <= 0 {
    } else if c <= 0 {
        lemma_moves_upto_nonempty(b, turn, color, r - 1, 9);
    } else {
        lemma_moves_upto_nonempty(b, turn, color, r, c - 1);
        let prev = moves_upto(b, turn, color, r, c - 1);
        let ts = valid_targets(b, turn, r, c - 1);
        if b[r][c - 1] matches Some(p) && p.color == color {
            let mapped = ts.map_values(|m: (usize, usize)| ((r as usize, (c - 1) as usize), m));
            assert(moves_upto(b, turn, color, r, c) == prev + mapped);
            assert(moves_upto(b, turn, color, r, c).len() == prev.len() + ts.len());
            if ts.len() > 0 {
                assert(on_board(r, c - 1) && comes_before(r, c - 1, r, c));
            }
        }
    }
}

/// For a piece of the side to move, the moves listed for it are exactly the moves that
/// `move_piece` plays from its square: a move is listed if and only if it is legal.
pub proof fn lemma_listed_iff_legal(b: BoardGrid, turn: Color, fr: int, fc: int, tr: int, tc: int)
    requires
        on_board(fr, fc),
        on_board(tr, tc),
        b[fr][fc] matches Some(p) && p.color == turn,
    ensures
        valid_targets(b, turn, fr, fc).contains((tr as usize, tc as usize)) <==> legal(b, fr, fc, tr, tc),
{
    if legal(b, fr, fc, tr, tc) {
        lemma_targets_complete(b, fr, fc, 10, 0, tr, tc);
    }
    if valid_targets(b, turn, fr, fc).contains((tr as usize, tc as usize)) {
        lemma_targets_legal(b, fr, fc, 10, 0);
        let i = choose|i: int| 0 <= i < valid_targets(b, turn, fr, fc).len()
            && valid_targets(b, turn, fr, fc)[i] == (tr as usize, tc as usize);
        assert(targets_upto(b, fr, fc, 10, 0)[i] == (tr as usize, tc as usize));
    }
}

} // verus!
