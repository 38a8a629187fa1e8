use vstd::prelude::*;

verus! {

pub type Board = [[u32; 4]; 4];

/// Whether a game goes on, was won by reaching the target, or was lost.
#[derive(Copy, Clone, Debug, PartialEq, Eq, Structural)]
pub enum GameStatus {
    Active,
    Won,
    Lost,
}

/// The four directions tiles can be pushed in.
#[derive(Copy, Clone, Debug, PartialEq, Eq, Structural)]
pub enum Direction {
    Up,
    Down,
    Left,
    Right,
}

/// The state of pushing one line of four cells toward its front.
pub struct Slide {
    /// The new line, front first.
    pub out: Seq<int>,
    /// How many tiles have been placed.
    pub idx: int,
    /// Whether the last placed tile came from a merge.
    pub last_merged: bool,
    /// The sum of the merged tiles' new values.
    pub gained: int,
    /// Whether some tile moved or merged.
    pub moved: bool,
    /// Whether some merge reached the target.
    pub won: bool,
}

/// Pushing the first `n` cells of `line` (front first) toward the front: tiles close
/// up, and a tile equal to the last placed one merges with it unless that one is
/// itself the product of a merge.
pub open spec fn slide_upto(line: Seq<int>, target: int, n: nat) -> Slide
    decreases n,
{
    if n == 0 {
        Slide { out: seq![0int, 0, 0, 0], idx: 0, last_merged: false, gained: 0, moved: false, won: false }
    } else {
        let st = slide_upto(line, target, (n - 1) as nat);
        let c = n - 1;
        let v = line[c];
        if v == 0 {
            st
        } else if st.idx > 0 && st.out[st.idx - 1] == v && !st.last_merged {
            let nv = 2 * v;
            Slide {
                out: st.out.update(st.idx - 1, nv),
                idx: st.idx,
                last_merged: true,
                gained: st.gained + nv,
                moved: true,
                won: st.won || nv >= target,
            }
        } else {
            Slide {
                out: st.out.update(st.idx, v),
                idx: st.idx + 1,
                last_merged: false,
                gained: st.gained,
                moved: st.moved || c != st.idx,
                won: st.won,
            }
        }
    }
}

pub open spec fn slide(line: Seq<int>, target: int) -> Slide {
    slide_upto(line, target, 4)
}

/// The `k`-th cell, front first, of the `i`-th line pushed in direction `d`.
pub open spec fn cell_of(d: Direction, i: int, k: int) -> (int, int) {
    match d {
        Direction::Left => (i, k),
        Direction::Right => (i, 3 - k),
        Direction::Up => (k, i),
        Direction::Down => (3 - k, i),
    }
}

/// The `i`-th line pushed in direction `d`, front first.
pub open spec fn line_of(b: Board, d: Direction, i: int) -> Seq<int> {
    Seq::new(4, |k: int| b[cell_of(d, i, k).0][cell_of(d, i, k).1] as int)
}

pub open spec fn slide_line(b: Board, d: Direction, target: int, i: int) -> Slide {
    slide(line_of(b, d, i), target)
}

/// The value of cell `(r, c)` after every line is pushed in direction `d`.
pub open spec fn slid_cell(b: Board, d: Direction, target: int, r: int, c: int) -> int {
    match d {
        Direction::Left => slide_line(b, d, target, r).out[c],
        Direction::Right => slide_line(b, d, target, r).out[3 - c],
        Direction::Up => slide_line(b, d, target, c).out[r],
        Direction::Down => slide_line(b, d, target, c).out[3 - r],
    }
}

/// Score gained over the first `n` lines.
pub open spec fn gain_upto(b: Board, d: Direction, target: int, n: int) -> int
    decreases n,
{
    if n <= 0 { 0 } else { gain_upto(b, d, target, n - 1) + slide_line(b, d, target, n - 1).gained }
}

pub open spec fn moved_upto(b: Board, d: Direction, target: int, n: int) -> bool
    decreases n,
{
    if n <= 0 { false } else { moved_upto(b, d, target, n - 1) || slide_line(b, d, target, n - 1).moved }
}

pub open spec fn won_upto(b: Board, d: Direction, target: int, n: int) -> bool
    decreases n,
{
    if n <= 0 { false } else { won_upto(b, d, target, n - 1) || slide_line(b, d, target, n - 1).won }
}

pub open spec fn gain(b: Board, d: Direction, target: int) -> int {
    gain_upto(b, d, target, 4)
}

pub open spec fn any_moved(b: Board, d: Direction, target: int) -> bool {
    moved_upto(b, d, target, 4)
}

pub open spec fn any_won(b: Board, d: Direction, target: int) -> bool {
    won_upto(b, d, target, 4)
}

pub open spec fn direction_of(s: Seq<char>) -> Option<Direction> {
    if s == "Up"@ {
        Some(Direction::Up)
    } else if s == "Down"@ {
        Some(Direction::Down)
    } else if s == "Left"@ {
        Some(Direction::Left)
    } else if s == "Right"@ {
        Some(Direction::Right)
    } else {
        None
    }
}

// ---------------------------------------------------------------------------
// Boards as functions, empty cells and the end of the game
// ---------------------------------------------------------------------------

pub open spec fn in_grid(r: int, c: int) -> bool {
    0 <= r < 4 && 0 <= c < 4
}

/// A board as a function from coordinates to values, zero off the grid.
pub open spec fn cells(b: Board) -> spec_fn(int, int) -> int {
    |r: int, c: int| if in_grid(r, c) { b[r][c] as int } else { 0 }
}

/// The board after every line is pushed in direction `d`, as a function.
pub open spec fn slid_cells(b: Board, d: Direction, target: int) -> spec_fn(int, int) -> int {
    |r: int, c: int| if in_grid(r, c) { slid_cell(b, d, target, r, c) } else { 0 }
}

/// The empty cells before `(r, c)`, in row-major order.
pub open spec fn empties_upto(v: spec_fn(int, int) -> int, r: int, c: int) -> Seq<(usize, usize)>
    decreases r, c,
{
    if r <= 0 && c <= 0 {
        Seq::empty()
    } else if c <= 0 {
        empties_upto(v, r - 1, 4)
    } else {
        let prev = empties_upto(v, r, c - 1);
        if v(r, c - 1) == 0 { prev.push((r as usize, (c - 1) as usize)) } else { prev }
    }
}

pub open spec fn empties(v: spec_fn(int, int) -> int) -> Seq<(usize, usize)> {
    empties_upto(v, 4, 0)
}

/// Which of `n` cells a random draw `roll`, read as the fraction `roll / 2^32`, picks.
pub open spec fn pick_index(roll: u32, n: int) -> int {
    (roll as int * n) / 0x1_0000_0000
}

/// The board after a new tile (4 when `four`, else 2) appears on the empty cell that
/// `roll` picks; unchanged when no cell is empty.
pub open spec fn spawned(v: spec_fn(int, int) -> int, roll: u32, four: bool) -> spec_fn(int, int) -> int {
    let e = empties(v);
    let pos = e[pick_index(roll, e.len() as int)];
    |r: int, c: int| if e.len() > 0 && r == pos.0 && c == pos.1 { if four { 4int } else { 2int } } else { v(r, c) }
}

pub open spec fn has_empty(v: spec_fn(int, int) -> int) -> bool {
    exists|r: int, c: int| in_grid(r, c) && #[trigger] v(r, c) == 0
}

/// Two neighbouring cells hold the same value, so a push would merge them.
pub open spec fn has_pair(v: spec_fn(int, int) -> int) -> bool {
    exists|r: int, c: int| in_grid(r, c) && ((r < 3 && v(r + 1, c) == #[trigger] v(r, c)) || (c < 3 && v(r, c + 1) == v(r, c)))
}

/// The status after a check for the end of the game: an active game with no empty
/// cell and no equal neighbours is lost.
pub open spec fn checked_status(status: GameStatus, v: spec_fn(int, int) -> int) -> GameStatus {
    if status != GameStatus::Active || has_empty(v) || has_pair(v) { status } else { GameStatus::Lost }
}

pub open spec fn line_sum(s: Seq<int>) -> int {
    s[0] + s[1] + s[2] + s[3]
}

/// The sum of all sixteen cells.
pub open spec fn cells_sum(v: spec_fn(int, int) -> int) -> int {
    v(0, 0) + v(0, 1) + v(0, 2) + v(0, 3) + v(1, 0) + v(1, 1) + v(1, 2) + v(1, 3)
        + v(2, 0) + v(2, 1) + v(2, 2) + v(2, 3) + v(3, 0) + v(3, 1) + v(3, 2) + v(3, 3)
}

/// What a successful push in direction `d` followed by a new tile does to a game.
pub open spec fn after_move(old_board: Board, old_score: int, old_status: GameStatus, target: int, d: Direction,
    roll: u32, four: bool, moved: bool, new_board: Board, new_score: int, new_status: GameStatus) -> bool {
    let v = slid_cells(old_board, d, target);
    let st1 = if any_won(old_board, d, target) { GameStatus::Won } else { old_status };
    &&& moved == any_moved(old_board, d, target)
    &&& new_score == old_score + gain(old_board, d, target)
    &&& moved ==> cells(new_board) == spawned(v, roll, four) && new_status == checked_status(st1, spawned(v, roll, four))
    &&& !moved ==> cells(new_board) == v && new_status == st1
}

// ---------------------------------------------------------------------------
// Lemmas
// ---------------------------------------------------------------------------

/// The shape of a push in progress: it never places more tiles than it has read,
/// and only the placed slots are filled.
pub proof fn lemma_slide_shape(line: Seq<int>, target: int, n: nat)
    requires
        n <= 4,
        line.len() == 4,
        forall|k: int| 0 <= k < 4 ==> line[k] >= 0,
    ensures
        ({
            let st = slide_upto(line, target, n);
            &&& st.out.len() == 4
            &&& 0 <= st.idx <= n
            &&& forall|k: int| st.idx <= k < 4 ==> st.out[k] == 0
            &&& forall|k: int| 0 <= k < st.idx ==> st.out[k] > 0
            &&& st.last_merged ==> st.idx > 0
            &&& st.gained >= 0
            &&& line_sum(st.out) == line_sum(Seq::new(4, |k: int| if k < n { line[k] } else { 0 }))
        }),
    decreases n,
{
    if n > 0 {
        lemma_slide_shape(line, target, (n - 1) as nat);
    }
}

/// The score gained by a push only grows as the push reads more cells.
pub proof fn lemma_gain_mono(line: Seq<int>, target: int, m: nat, n: nat)
    requires
        m <= n,
        n <= line.len(),
        forall|k: int| 0 <= k < line.len() ==> line[k] >= 0,
    ensures
        slide_upto(line, target, m).gained <= slide_upto(line, target, n).gained,
    decreases n,
{
    if m < n {
        lemma_gain_mono(line, target, m, (n - 1) as nat);
    }
}

/// Pushing a line keeps the sum of its tiles.
pub proof fn lemma_slide_sum(line: Seq<int>, target: int)
    requires
        line.len() == 4,
        forall|k: int| 0 <= k < 4 ==> line[k] >= 0,
    ensures
        line_sum(slide(line, target).out) == line_sum(line),
{
    lemma_slide_shape(line, target, 4);
    assert(Seq::new(4, |k: int| if k < 4 { line[k] } else { 0 }) =~= line);
}

/// The empty cells listed are empty cells of the grid.
pub proof fn lemma_empties(v: spec_fn(int, int) -> int, r: int, c: int)
    requires
        (0 <= r < 4 && 0 <= c <= 4) || (r == 4 && c == 0),
    ensures
        forall|i: int| 0 <= i < empties_upto(v, r, c).len() ==> {
            let e = #[trigger] empties_upto(v, r, c)[i];
            in_grid(e.0 as int, e.1 as int) && v(e.0 as int, e.1 as int) == 0
        },
    decreases r, c,
{
    if r <= 0 && c <= 0 {
    } else if c <= 0 {
        lemma_empties(v, r - 1, 4);
        assert(empties_upto(v, r, c) == empties_upto(v, r - 1, 4));
    } else {
        lemma_empties(v, r, c - 1);
        let prev = empties_upto(v, r, c - 1);
        if v(r, c - 1) == 0 {
            assert(empties_upto(v, r, c) == prev.push((r as usize, (c - 1) as usize)));
        } else {
            assert(empties_upto(v, r, c) == prev);
        }
        assert forall|i: int| 0 <= i < empties_upto(v, r, c).len() implies {
            let e = #[trigger] empties_upto(v, r, c)[i];
            in_grid(e.0 as int, e.1 as int) && v(e.0 as int, e.1 as int) == 0
        } by {
            if i < prev.len() {
                assert(empties_upto(v, r, c)[i] == prev[i]);
            }
        }
    }
}

/// More of what holds while a line is pushed: the score gained is covered by the merged
/// tiles, a merge always frees a slot, a push with no movement leaves the line as it was,
/// and a push that does not win keeps every tile below the target.
pub proof fn lemma_slide_facts(line: Seq<int>, target: int, n: nat)
    requires
        n <= 4,
        line.len() == 4,
        forall|k: int| 0 <= k < 4 ==> line[k] >= 0,
    ensures
        slide_upto(line, target, n).gained + (if !slide_upto(line, target, n).last_merged && slide_upto(line, target, n).idx > 0 {
            slide_upto(line, target, n).out[slide_upto(line, target, n).idx - 1] } else { 0 }) <= line_sum(slide_upto(line, target, n).out),
        slide_upto(line, target, n).gained > 0 ==> slide_upto(line, target, n).idx < n,
        !slide_upto(line, target, n).moved ==> !slide_upto(line, target, n).last_merged,
        !slide_upto(line, target, n).moved ==> slide_upto(line, target, n).gained == 0,
        !slide_upto(line, target, n).moved ==> forall|k: int| 0 <= k < slide_upto(line, target, n).idx ==> slide_upto(line, target, n).out[k] == line[k],
        !slide_upto(line, target, n).moved ==> forall|k: int| slide_upto(line, target, n).idx <= k < n ==> line[k] == 0,
        (forall|k: int| 0 <= k < 4 ==> line[k] < target) ==> forall|k: int| 0 <= k < 4 ==> slide_upto(line, target, n).out[k] < target || slide_upto(line, target, n).won,
    decreases n,
{
    lemma_slide_shape(line, target, n);
    if n > 0 {
        lemma_slide_facts(line, target, (n - 1) as nat);
        lemma_slide_shape(line, target, (n - 1) as nat);
        let st = slide_upto(line, target, (n - 1) as nat);
        let st2 = slide_upto(line, target, n);
        if forall|k: int| 0 <= k < 4 ==> line[k] < target {
            assert forall|k: int| 0 <= k < 4 implies st2.out[k] < target || st2.won by {
                assert(st.out[k] < target || st.won);
                assert(line[n - 1] < target);
            }
        }
    } else {
        assert(line[0] >= 0);
    }
}

/// A push that moves nothing leaves the line as it was.
pub proof fn lemma_unmoved_line(line: Seq<int>, target: int)
    requires
        line.len() == 4,
        forall|k: int| 0 <= k < 4 ==> line[k] >= 0,
        !slide(line, target).moved,
    ensures
        slide(line, target).out == line,
{
    lemma_slide_shape(line, target, 4);
    lemma_slide_facts(line, target, 4);
    assert(slide(line, target).out =~= line);
}

proof fn lemma_line_all(b: Board, d: Direction, t: int, i: int)
    requires
        0 <= i < 4,
    ensures
        line_of(b, d, i).len() == 4,
        forall|k: int| 0 <= k < 4 ==> #[trigger] line_of(b, d, i)[k] == b[cell_of(d, i, k).0][cell_of(d, i, k).1],
        slide_line(b, d, t, i).out.len() == 4,
        slide_line(b, d, t, i).gained >= 0,
        line_sum(slide_line(b, d, t, i).out) == line_sum(line_of(b, d, i)),
        slide_line(b, d, t, i).gained <= line_sum(line_of(b, d, i)),
        slide_line(b, d, t, i).gained > 0 ==> slide_line(b, d, t, i).out[3] == 0,
        !slide_line(b, d, t, i).moved ==> slide_line(b, d, t, i).gained == 0,
        !slide_line(b, d, t, i).moved ==> slide_line(b, d, t, i).out == line_of(b, d, i),
        (forall|k: int| 0 <= k < 4 ==> line_of(b, d, i)[k] < t) ==> forall|k: int| 0 <= k < 4 ==> slide_line(b, d, t, i).out[k] < t || slide_line(b, d, t, i).won,
{
    let line = line_of(b, d, i);
    lemma_slide_shape(line, t, 4);
    lemma_slide_facts(line, t, 4);
    lemma_slide_sum(line, t);
    if !slide(line, t).moved {
        lemma_unmoved_line(line, t);
    }
}

proof fn lemma_totals(b: Board, d: Direction, t: int)
    ensures
        gain(b, d, t) == slide_line(b, d, t, 0).gained + slide_line(b, d, t, 1).gained
            + slide_line(b, d, t, 2).gained + slide_line(b, d, t, 3).gained,
        any_moved(b, d, t) == (slide_line(b, d, t, 0).moved || slide_line(b, d, t, 1).moved
            || slide_line(b, d, t, 2).moved || slide_line(b, d, t, 3).moved),
        any_won(b, d, t) == (slide_line(b, d, t, 0).won || slide_line(b, d, t, 1).won
            || slide_line(b, d, t, 2).won || slide_line(b, d, t, 3).won),
{
    reveal_with_fuel(gain_upto, 5);
    reveal_with_fuel(moved_upto, 5);
    reveal_with_fuel(won_upto, 5);
}

proof fn lemma_slid_at(b: Board, d: Direction, t: int)
    ensures
        forall|i: int, k: int| 0 <= i < 4 && 0 <= k < 4 ==> {
            &&& in_grid(cell_of(d, i, k).0, cell_of(d, i, k).1)
            &&& #[trigger] slid_cells(b, d, t)(cell_of(d, i, k).0, cell_of(d, i, k).1) == slide_line(b, d, t, i).out[k]
            &&& cells(b)(cell_of(d, i, k).0, cell_of(d, i, k).1) == line_of(b, d, i)[k]
        },
{
}

/// Pushing keeps the sum of the tiles, and gains at most that sum.
pub proof fn lemma_push_sum(b: Board, d: Direction, t: int)
    ensures
        cells_sum(slid_cells(b, d, t)) == cells_sum(cells(b)),
        0 <= gain(b, d, t) <= cells_sum(cells(b)),
{
    lemma_line_all(b, d, t, 0);
    lemma_line_all(b, d, t, 1);
    lemma_line_all(b, d, t, 2);
    lemma_line_all(b, d, t, 3);
    lemma_totals(b, d, t);
    lemma_slid_at(b, d, t);
    let v = slid_cells(b, d, t);
    let w = cells(b);
    match d {
        Direction::Left => {
            assert(cells_sum(w) == line_sum(line_of(b, d, 0)) + line_sum(line_of(b, d, 1)) + line_sum(line_of(b, d, 2)) + line_sum(line_of(b, d, 3)));
            assert(cells_sum(v) == line_sum(slide_line(b, d, t, 0).out) + line_sum(slide_line(b, d, t, 1).out) + line_sum(slide_line(b, d, t, 2).out) + line_sum(slide_line(b, d, t, 3).out));
        },
        Direction::Right => {
            assert(cells_sum(w) == line_sum(line_of(b, d, 0)) + line_sum(line_of(b, d, 1)) + line_sum(line_of(b, d, 2)) + line_sum(line_of(b, d, 3)));
            assert(cells_sum(v) == line_sum(slide_line(b, d, t, 0).out) + line_sum(slide_line(b, d, t, 1).out) + line_sum(slide_line(b, d, t, 2).out) + line_sum(slide_line(b, d, t, 3).out));
        },
        Direction::Up => {
            assert(cells_sum(w) == line_sum(line_of(b, d, 0)) + line_sum(line_of(b, d, 1)) + line_sum(line_of(b, d, 2)) + line_sum(line_of(b, d, 3)));
            assert(cells_sum(v) == line_sum(slide_line(b, d, t, 0).out) + line_sum(slide_line(b, d, t, 1).out) + line_sum(slide_line(b, d, t, 2).out) + line_sum(slide_line(b, d, t, 3).out));
        },
        Direction::Down => {
            assert(cells_sum(w) == line_sum(line_of(b, d, 0)) + line_sum(line_of(b, d, 1)) + line_sum(line_of(b, d, 2)) + line_sum(line_of(b, d, 3)));
            assert(cells_sum(v) == line_sum(slide_line(b, d, t, 0).out) + line_sum(slide_line(b, d, t, 1).out) + line_sum(slide_line(b, d, t, 2).out) + line_sum(slide_line(b, d, t, 3).out));
        },
    }
}

/// A push that merges frees a cell.
pub proof fn lemma_push_frees(b: Board, d: Direction, t: int)
    requires
        gain(b, d, t) > 0,
    ensures
        has_empty(slid_cells(b, d, t)),
{
    lemma_line_all(b, d, t, 0);
    lemma_line_all(b, d, t, 1);
    lemma_line_all(b, d, t, 2);
    lemma_line_all(b, d, t, 3);
    lemma_totals(b, d, t);
    lemma_slid_at(b, d, t);
    let v = slid_cells(b, d, t);
    let i = if slide_line(b, d, t, 0).gained > 0 { 0int } else if slide_line(b, d, t, 1).gained > 0 { 1int }
        else if slide_line(b, d, t, 2).gained > 0 { 2int } else { 3int };
    assert(v(cell_of(d, i, 3).0, cell_of(d, i, 3).1) == 0);
}

/// A push that moves nothing leaves the board as it was.
pub proof fn lemma_push_unmoved(b: Board, d: Direction, t: int)
    requires
        !any_moved(b, d, t),
    ensures
        slid_cells(b, d, t) == cells(b),
{
    lemma_line_all(b, d, t, 0);
    lemma_line_all(b, d, t, 1);
    lemma_line_all(b, d, t, 2);
    lemma_line_all(b, d, t, 3);
    lemma_totals(b, d, t);
    lemma_slid_at(b, d, t);
    let v = slid_cells(b, d, t);
    assert forall|r: int, c: int| #![trigger v(r, c)] #![trigger cells(b)(r, c)] v(r, c) == cells(b)(r, c) by {
        if in_grid(r, c) {
            match d {
                Direction::Left => assert(v(cell_of(d, r, c).0, cell_of(d, r, c).1) == slide_line(b, d, t, r).out[c]),
                Direction::Right => assert(v(cell_of(d, r, 3 - c).0, cell_of(d, r, 3 - c).1) == slide_line(b, d, t, r).out[3 - c]),
                Direction::Up => assert(v(cell_of(d, c, r).0, cell_of(d, c, r).1) == slide_line(b, d, t, c).out[r]),
                Direction::Down => assert(v(cell_of(d, c, 3 - r).0, cell_of(d, c, 3 - r).1) == slide_line(b, d, t, c).out[3 - r]),
            }
        }
    }
    assert(v =~= cells(b));
}

/// A push that does not win keeps every tile below the target.
pub proof fn lemma_push_below(b: Board, d: Direction, t: int)
    requires
        forall|r: int, c: int| in_grid(r, c) ==> b[r][c] < t,
        !any_won(b, d, t),
    ensures
        forall|r: int, c: int| in_grid(r, c) ==> #[trigger] slid_cells(b, d, t)(r, c) < t,
{
    lemma_totals(b, d, t);
    lemma_slid_at(b, d, t);
    assert forall|i: int, k: int| 0 <= i < 4 && 0 <= k < 4 implies #[trigger] slide_line(b, d, t, i).out[k] < t by {
        lemma_line_all(b, d, t, i);
        assert forall|k2: int| 0 <= k2 < 4 implies #[trigger] line_of(b, d, i)[k2] < t by {
            assert(in_grid(cell_of(d, i, k2).0, cell_of(d, i, k2).1));
        }
    }
    assert forall|r: int, c: int| in_grid(r, c) implies #[trigger] slid_cells(b, d, t)(r, c) < t by {
        match d {
            Direction::Left => assert(slid_cells(b, d, t)(cell_of(d, r, c).0, cell_of(d, r, c).1) == slide_line(b, d, t, r).out[c]),
            Direction::Right => assert(slid_cells(b, d, t)(cell_of(d, r, 3 - c).0, cell_of(d, r, 3 - c).1) == slide_line(b, d, t, r).out[3 - c]),
            Direction::Up => assert(slid_cells(b, d, t)(cell_of(d, c, r).0, cell_of(d, c, r).1) == slide_line(b, d, t, c).out[r]),
            Direction::Down => assert(slid_cells(b, d, t)(cell_of(d, c, 3 - r).0, cell_of(d, c, 3 - r).1) == slide_line(b, d, t, c).out[3 - r]),
        }
    }
}

/// A push that moves nothing gains nothing.
pub proof fn lemma_push_unmoved_gain(b: Board, d: Direction, t: int)
    requires
        !any_moved(b, d, t),
    ensures
        gain(b, d, t) == 0,
{
    lemma_line_all(b, d, t, 0);
    lemma_line_all(b, d, t, 1);
    lemma_line_all(b, d, t, 2);
    lemma_line_all(b, d, t, 3);
    lemma_totals(b, d, t);
}

/// Some empty cell is listed when there is one.
pub proof fn lemma_empties_complete(v: spec_fn(int, int) -> int, r: int, c: int, r0: int, c0: int)
    requires
        (0 <= r < 4 && 0 <= c <= 4) || (r == 4 && c == 0),
        in_grid(r0, c0),
        v(r0, c0) == 0,
        r0 < r || (r0 == r && c0 < c),
    ensures
        empties_upto(v, r, c).len() > 0,
    decreases r, c,
{
    if c <= 0 {
        lemma_empties_complete(v, r - 1, 4, r0, c0);
    } else if !(r0 == r && c0 == c - 1) {
        lemma_empties_complete(v, r, c - 1, r0, c0);
    }
}

/// A new tile adds its value to the sum of the tiles, when some cell is empty.
pub proof fn lemma_spawn_sum(v: spec_fn(int, int) -> int, roll: u32, four: bool)
    ensures
        cells_sum(spawned(v, roll, four)) == cells_sum(v) + if empties(v).len() > 0 { if four { 4int } else { 2int } } else { 0int },
        has_empty(v) ==> empties(v).len() > 0,
        forall|r: int, c: int| #[trigger] spawned(v, roll, four)(r, c) == v(r, c)
            || spawned(v, roll, four)(r, c) == (if four { 4int } else { 2int }),
{
    let e = empties(v);
    if has_empty(v) {
        let (r0, c0) = choose|r: int, c: int| in_grid(r, c) && #[trigger] v(r, c) == 0;
        lemma_empties_complete(v, 4, 0, r0, c0);
    }
    if e.len() > 0 {
        lemma_empties(v, 4, 0);
        let n = e.len() as int;
        assert(0 <= (roll as int * n) / 0x1_0000_0000 < n) by (nonlinear_arith)
            requires
                0 <= roll < 0x1_0000_0000,
                n > 0,
        ;
        let pos = e[pick_index(roll, n)];
        assert(in_grid(pos.0 as int, pos.1 as int) && v(pos.0 as int, pos.1 as int) == 0);
    }
}

/// A push that wins has merged, so it has moved.
proof fn lemma_slide_won_moved(line: Seq<int>, target: int, n: nat)
    ensures
        slide_upto(line, target, n).won ==> slide_upto(line, target, n).moved,
    decreases n,
{
    if n > 0 {
        lemma_slide_won_moved(line, target, (n - 1) as nat);
    }
}

/// A move in which no tile moves changes nothing: the tiles, the score and the status
/// stay as they were, and no new tile appears.
pub proof fn lemma_still_move(old_board: Board, old_score: int, old_status: GameStatus, target: int, d: Direction,
    roll: u32, four: bool, new_board: Board, new_score: int, new_status: GameStatus)
    requires
        after_move(old_board, old_score, old_status, target, d, roll, four, false, new_board, new_score, new_status),
    ensures
        forall|r: int, c: int| in_grid(r, c) ==> #[trigger] new_board[r][c] == old_board[r][c],
        new_score == old_score,
        new_status == old_status,
{
    lemma_push_unmoved(old_board, d, target);
    lemma_push_unmoved_gain(old_board, d, target);
    lemma_totals(old_board, d, target);
    lemma_slide_won_moved(line_of(old_board, d, 0), target, 4);
    lemma_slide_won_moved(line_of(old_board, d, 1), target, 4);
    lemma_slide_won_moved(line_of(old_board, d, 2), target, 4);
    lemma_slide_won_moved(line_of(old_board, d, 3), target, 4);
    assert forall|r: int, c: int| in_grid(r, c) implies #[trigger] new_board[r][c] == old_board[r][c] by {
        assert(cells(new_board)(r, c) == cells(old_board)(r, c));
    }
}

/// Every move keeps the sum of the tiles, and adds the new tile when one appears.
pub proof fn lemma_move_sum(old_board: Board, old_score: int, old_status: GameStatus, target: int, d: Direction,
    roll: u32, four: bool, moved: bool, new_board: Board, new_score: int, new_status: GameStatus)
    requires
        after_move(old_board, old_score, old_status, target, d, roll, four, moved, new_board, new_score, new_status),
    ensures
        cells_sum(cells(new_board)) == cells_sum(cells(old_board)) + if moved && empties(slid_cells(old_board, d, target)).len() > 0 {
            if four { 4int } else { 2int }
        } else {
            0int
        },
{
    lemma_push_sum(old_board, d, target);
    if moved {
        lemma_spawn_sum(slid_cells(old_board, d, target), roll, four);
    }
}

/// A full line without two equal neighbours does not move when pushed.
proof fn lemma_stuck_line(line: Seq<int>, target: int, n: nat)
    requires
        n <= 4,
        line.len() == 4,
        forall|k: int| 0 <= k < 4 ==> line[k] != 0,
        forall|k: int| 0 <= k < 3 ==> #[trigger] line[k] != line[k + 1],
    ensures
        slide_upto(line, target, n).idx == n,
        !slide_upto(line, target, n).moved,
        forall|k: int| 0 <= k < n ==> slide_upto(line, target, n).out[k] == line[k],
        slide_upto(line, target, n).out.len() == 4,
    decreases n,
{
    if n > 0 {
        lemma_stuck_line(line, target, (n - 1) as nat);
        let st = slide_upto(line, target, (n - 1) as nat);
        if st.idx > 0 {
            assert(st.out[st.idx - 1] == line[n - 2]);
        }
    }
}

/// A lost game is stuck: when no cell is empty and no two neighbours are equal, no push
/// in any direction moves a tile.
pub proof fn lemma_lost_is_stuck(b: Board, d: Direction, t: int)
    requires
        !has_empty(cells(b)),
        !has_pair(cells(b)),
    ensures
        !any_moved(b, d, t),
{
    let v = cells(b);
    assert forall|i: int| 0 <= i < 4 implies !(#[trigger] slide_line(b, d, t, i)).moved by {
        let line = line_of(b, d, i);
        assert forall|k: int| 0 <= k < 4 implies line[k] != 0 by {
            let (r, c) = cell_of(d, i, k);
            assert(v(r, c) == b[r][c]);
        }
        assert forall|k: int| 0 <= k < 3 implies #[trigger] line[k] != line[k + 1] by {
            let (r1, c1) = cell_of(d, i, k);
            let (r2, c2) = cell_of(d, i, k + 1);
            assert(v(r1, c1) == b[r1][c1]);
            assert(v(r2, c2) == b[r2][c2]);
            match d {
                Direction::Left => assert(!(v(r1, c1 + 1) == v(r1, c1))),
                Direction::Right => assert(!(v(r2, c2 + 1) == v(r2, c2))),
                Direction::Up => assert(!(v(r1 + 1, c1) == v(r1, c1))),
                Direction::Down => assert(!(v(r2 + 1, c2) == v(r2, c2))),
            }
        }
        lemma_stuck_line(line, t, 4);
    }
    lemma_totals(b, d, t);
}

/// Two boards whose lines, pushed in two directions, are the same give the same push.
proof fn lemma_same_lines(b1: Board, d1: Direction, b2: Board, d2: Direction, t: int)
    requires
        forall|i: int| 0 <= i < 4 ==> #[trigger] line_of(b1, d1, i) == line_of(b2, d2, i),
    ensures
        gain(b1, d1, t) == gain(b2, d2, t),
        any_moved(b1, d1, t) == any_moved(b2, d2, t),
        any_won(b1, d1, t) == any_won(b2, d2, t),
        forall|i: int| 0 <= i < 4 ==> #[trigger] slide_line(b1, d1, t, i) == slide_line(b2, d2, t, i),
{
    assert(line_of(b1, d1, 0) == line_of(b2, d2, 0));
    assert(line_of(b1, d1, 1) == line_of(b2, d2, 1));
    assert(line_of(b1, d1, 2) == line_of(b2, d2, 2));
    assert(line_of(b1, d1, 3) == line_of(b2, d2, 3));
    lemma_totals(b1, d1, t);
    lemma_totals(b2, d2, t);
}

/// Pushing up is pushing left on the transposed board: the same score, movement and win,
/// and the transposed result.
pub proof fn lemma_up_is_transposed_left(b: Board, tb: Board, t: int)
    requires
        forall|r: int, c: int| in_grid(r, c) ==> #[trigger] tb[r][c] == b[c][r],
    ensures
        gain(b, Direction::Up, t) == gain(tb, Direction::Left, t),
        any_moved(b, Direction::Up, t) == any_moved(tb, Direction::Left, t),
        any_won(b, Direction::Up, t) == any_won(tb, Direction::Left, t),
        forall|r: int, c: int| in_grid(r, c)
            ==> #[trigger] slid_cell(b, Direction::Up, t, r, c) == slid_cell(tb, Direction::Left, t, c, r),
{
    assert forall|i: int| 0 <= i < 4 implies #[trigger] line_of(b, Direction::Up, i) == line_of(tb, Direction::Left, i) by {
        assert forall|k: int| 0 <= k < 4 implies line_of(b, Direction::Up, i)[k] == line_of(tb, Direction::Left, i)[k] by {
            assert(tb[i][k] == b[k][i]);
        }
        assert(line_of(b, Direction::Up, i) =~= line_of(tb, Direction::Left, i));
    }
    lemma_same_lines(b, Direction::Up, tb, Direction::Left, t);
}

/// Pushing right is pushing left on the mirrored board: the same score, movement and win,
/// and the mirrored result.
pub proof fn lemma_right_is_mirrored_left(b: Board, mb: Board, t: int)
    requires
        forall|r: int, c: int| in_grid(r, c) ==> #[trigger] mb[r][c] == b[r][3 - c],
    ensures
        gain(b, Direction::Right, t) == gain(mb, Direction::Left, t),
        any_moved(b, Direction::Right, t) == any_moved(mb, Direction::Left, t),
        any_won(b, Direction::Right, t) == any_won(mb, Direction::Left, t),
        forall|r: int, c: int| in_grid(r, c)
            ==> #[trigger] slid_cell(b, Direction::Right, t, r, c) == slid_cell(mb, Direction::Left, t, r, 3 - c),
{
    assert forall|i: int| 0 <= i < 4 implies #[trigger] line_of(b, Direction::Right, i) == line_of(mb, Direction::Left, i) by {
        assert forall|k: int| 0 <= k < 4 implies line_of(b, Direction::Right, i)[k] == line_of(mb, Direction::Left, i)[k] by {
            assert(mb[i][k] == b[i][3 - k]);
        }
        assert(line_of(b, Direction::Right, i) =~= line_of(mb, Direction::Left, i));
    }
    lemma_same_lines(b, Direction::Right, mb, Direction::Left, t);
}

} // verus!
