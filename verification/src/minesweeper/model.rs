use vstd::prelude::*;

verus! {

/// What a player sees of a cell.
#[derive(Copy, Clone, Debug, PartialEq, Eq, Structural)]
pub enum CellState {
    Hidden,
    Revealed,
    Flagged,
}

/// One cell of the field: whether it holds a mine, how many of its neighbours do, and
/// what the player sees of it.
#[derive(Copy, Clone, Debug, PartialEq, Eq, Structural)]
pub struct Cell {
    pub is_mine: bool,
    pub adjacent_mines: u8,
    pub state: CellState,
}

/// Whether a game goes on, was won by revealing every safe cell, or was lost on a mine.
#[derive(Copy, Clone, Debug, PartialEq, Eq, Structural)]
pub enum GameStatus {
    Active,
    Won,
    Lost,
}

pub open spec fn in_bounds(rows: int, cols: int, r: int, c: int) -> bool {
    0 <= r < rows && 0 <= c < cols
}

/// (a, b) is one of the eight cells around (r, c).
pub open spec fn adjacent(r: int, c: int, a: int, b: int) -> bool {
    !(a == r && b == c) && r - 1 <= a <= r + 1 && c - 1 <= b <= c + 1
}

/// A field as a function from coordinates to cells.
pub open spec fn grid(g: Seq<Vec<Cell>>) -> spec_fn(int, int) -> Cell {
    |r: int, c: int| g[r]@[c]
}

/// The field `v` cut to its `rows` by `cols` cells; outside them, nothing is hidden.
pub open spec fn clip(v: spec_fn(int, int) -> Cell, rows: int, cols: int) -> spec_fn(int, int) -> Cell {
    |r: int, c: int| if in_bounds(rows, cols, r, c) {
        v(r, c)
    } else {
        Cell { is_mine: false, adjacent_mines: 0, state: CellState::Revealed }
    }
}

/// `g` has `rows` rows of `cols` cells each.
pub open spec fn shaped(g: Seq<Vec<Cell>>, rows: int, cols: int) -> bool {
    &&& g.len() == rows
    &&& forall|r: int| 0 <= r < rows ==> #[trigger] g[r]@.len() == cols
}

/// The cell (r, c) with its state replaced.
pub open spec fn with_state(x: Cell, s: CellState) -> Cell {
    Cell { is_mine: x.is_mine, adjacent_mines: x.adjacent_mines, state: s }
}

// ---------------------------------------------------------------------------
// Mines and their counts
// ---------------------------------------------------------------------------

pub open spec fn mine_at(m: spec_fn(int, int) -> bool, rows: int, cols: int, r: int, c: int) -> int {
    if in_bounds(rows, cols, r, c) && m(r, c) { 1 } else { 0 }
}

/// The number of mines among the eight cells around (r, c).
pub open spec fn neighbor_mines(m: spec_fn(int, int) -> bool, rows: int, cols: int, r: int, c: int) -> int {
    mine_at(m, rows, cols, r - 1, c - 1) + mine_at(m, rows, cols, r - 1, c) + mine_at(m, rows, cols, r - 1, c + 1)
        + mine_at(m, rows, cols, r, c - 1) + mine_at(m, rows, cols, r, c + 1)
        + mine_at(m, rows, cols, r + 1, c - 1) + mine_at(m, rows, cols, r + 1, c) + mine_at(m, rows, cols, r + 1, c + 1)
}

/// The mines among the first `k` of the nine cells of the 3x3 block around (r, c),
/// read row by row, leaving out the centre (the fifth).
pub open spec fn block_mines(m: spec_fn(int, int) -> bool, rows: int, cols: int, r: int, c: int, k: int) -> int
    decreases k,
{
    if k <= 0 {
        0
    } else {
        block_mines(m, rows, cols, r, c, k - 1) + if k - 1 == 4 {
            0
        } else {
            mine_at(m, rows, cols, r + (k - 1) / 3 - 1, c + (k - 1) % 3 - 1)
        }
    }
}

pub proof fn lemma_block_mines(m: spec_fn(int, int) -> bool, rows: int, cols: int, r: int, c: int)
    ensures
        block_mines(m, rows, cols, r, c, 9) == neighbor_mines(m, rows, cols, r, c),
        0 <= neighbor_mines(m, rows, cols, r, c) <= 8,
{
    reveal_with_fuel(block_mines, 10);
}

/// One more mine raises the count of a cell by one exactly when the mine lies on the field
/// and is one of the eight cells around it (a cell does not count itself), and leaves the
/// count as it was otherwise.
pub proof fn lemma_one_more_mine(m: spec_fn(int, int) -> bool, rows: int, cols: int, r: int, c: int, a: int, b: int)
    requires
        !m(a, b),
    ensures
        neighbor_mines(|x: int, y: int| m(x, y) || (x == a && y == b), rows, cols, r, c)
            == neighbor_mines(m, rows, cols, r, c) + if 0 <= a < rows && 0 <= b < cols && (a != r || b != c)
                && r - 1 <= a <= r + 1 && c - 1 <= b <= c + 1 { 1int } else { 0int },
{
}

pub open spec fn mines(v: spec_fn(int, int) -> Cell) -> spec_fn(int, int) -> bool {
    |r: int, c: int| v(r, c).is_mine
}

/// The field with every safe cell's count set from the mines around it.
pub open spec fn counted(v: spec_fn(int, int) -> Cell, rows: int, cols: int) -> spec_fn(int, int) -> Cell {
    |r: int, c: int| Cell {
        is_mine: v(r, c).is_mine,
        adjacent_mines: if v(r, c).is_mine { v(r, c).adjacent_mines } else { neighbor_mines(mines(v), rows, cols, r, c) as u8 },
        state: v(r, c).state,
    }
}

// ---------------------------------------------------------------------------
// Laying the mines
// ---------------------------------------------------------------------------

/// Which of `n` rows (or columns) a random draw `roll`, read as the fraction `roll / 2^32`, picks.
pub open spec fn pick(roll: u32, n: int) -> int {
    (roll as int * n) / 0x1_0000_0000
}

/// The mines after the first `k` draws of a placement that aims each draw at one cell,
/// skips the cell (fr, fc) and cells that already hold a mine, and stops once `total`
/// mines are placed; with the number placed.
pub open spec fn placed(m0: spec_fn(int, int) -> bool, rows: int, cols: int, total: int, fr: int, fc: int,
    draws: Seq<(u32, u32)>, k: int) -> (spec_fn(int, int) -> bool, int)
    decreases k,
{
    if k <= 0 {
        (m0, 0)
    } else {
        let prev = placed(m0, rows, cols, total, fr, fc, draws, k - 1);
        let r = pick(draws[k - 1].0, rows);
        let c = pick(draws[k - 1].1, cols);
        if prev.1 >= total || !in_bounds(rows, cols, r, c) || (r == fr && c == fc) || (prev.0)(r, c) {
            prev
        } else {
            (|a: int, b: int| (prev.0)(a, b) || (a == r && b == c), prev.1 + 1)
        }
    }
}

/// How many draws a placement makes use of: at most a thousand.
pub open spec fn attempts(draws: Seq<(u32, u32)>) -> int {
    if draws.len() < 1000 { draws.len() as int } else { 1000 }
}

/// The field after mines are laid with `draws`, keeping (fr, fc) clear, and every safe
/// cell's count is set.
pub open spec fn laid(v: spec_fn(int, int) -> Cell, rows: int, cols: int, total: int, fr: int, fc: int,
    draws: Seq<(u32, u32)>) -> spec_fn(int, int) -> Cell {
    let m = placed(mines(v), rows, cols, total, fr, fc, draws, attempts(draws)).0;
    counted(|r: int, c: int| Cell { is_mine: m(r, c), adjacent_mines: v(r, c).adjacent_mines, state: v(r, c).state }, rows, cols)
}

/// Placement never lays a mine on the cell (fr, fc).
pub proof fn lemma_placed_avoids(m0: spec_fn(int, int) -> bool, rows: int, cols: int, total: int, fr: int, fc: int,
    draws: Seq<(u32, u32)>, k: int)
    ensures
        placed(m0, rows, cols, total, fr, fc, draws, k).0(fr, fc) == m0(fr, fc),
    decreases k,
{
    if k > 0 {
        lemma_placed_avoids(m0, rows, cols, total, fr, fc, draws, k - 1);
    }
}

/// Once `total` mines are placed, further draws change nothing.
pub proof fn lemma_placed_stable(m0: spec_fn(int, int) -> bool, rows: int, cols: int, total: int, fr: int, fc: int,
    draws: Seq<(u32, u32)>, k: int, j: int)
    requires
        0 <= k <= j,
        placed(m0, rows, cols, total, fr, fc, draws, k).1 >= total,
    ensures
        placed(m0, rows, cols, total, fr, fc, draws, j) == placed(m0, rows, cols, total, fr, fc, draws, k),
    decreases j,
{
    if j > k {
        lemma_placed_stable(m0, rows, cols, total, fr, fc, draws, k, j - 1);
    }
}

// ---------------------------------------------------------------------------
// Opening cells
// ---------------------------------------------------------------------------

/// The hidden cells that opening (sr, sc) reaches in at most `k` steps, each step going
/// from a cell with no mine around it to one of its neighbours.
pub open spec fn spread(v: spec_fn(int, int) -> Cell, rows: int, cols: int, sr: int, sc: int, k: nat) -> spec_fn(int, int) -> bool
    decreases k,
{
    if k == 0 {
        |r: int, c: int| in_bounds(rows, cols, r, c) && v(r, c).state == CellState::Hidden && r == sr && c == sc
    } else {
        let p = spread(v, rows, cols, sr, sc, (k - 1) as nat);
        |r: int, c: int| in_bounds(rows, cols, r, c) && v(r, c).state == CellState::Hidden && (p(r, c)
            || exists|a: int, b: int| adjacent(r, c, a, b) && #[trigger] p(a, b) && v(a, b).adjacent_mines == 0)
    }
}

/// Opening (sr, sc) reaches the hidden cell (r, c).
pub open spec fn reachable(v: spec_fn(int, int) -> Cell, rows: int, cols: int, sr: int, sc: int, r: int, c: int) -> bool {
    exists|k: nat| #[trigger] spread(v, rows, cols, sr, sc, k)(r, c)
}

/// The field after opening (sr, sc): every cell it reaches is revealed.
pub open spec fn flooded(v: spec_fn(int, int) -> Cell, rows: int, cols: int, sr: int, sc: int) -> spec_fn(int, int) -> Cell {
    |r: int, c: int| if reachable(v, rows, cols, sr, sc, r, c) { with_state(v(r, c), CellState::Revealed) } else { v(r, c) }
}

/// The field with only (r0, c0) revealed.
pub open spec fn opened(v: spec_fn(int, int) -> Cell, r0: int, c0: int) -> spec_fn(int, int) -> Cell {
    |r: int, c: int| if r == r0 && c == c0 { with_state(v(r, c), CellState::Revealed) } else { v(r, c) }
}

/// From `va` to `vb` only hidden cells were revealed; nothing else changed.
pub open spec fn grows(va: spec_fn(int, int) -> Cell, vb: spec_fn(int, int) -> Cell, rows: int, cols: int) -> bool {
    forall|r: int, c: int| #![trigger va(r, c), vb(r, c)] in_bounds(rows, cols, r, c) ==> {
        &&& vb(r, c).is_mine == va(r, c).is_mine
        &&& vb(r, c).adjacent_mines == va(r, c).adjacent_mines
        &&& (vb(r, c).state == va(r, c).state
            || (va(r, c).state == CellState::Hidden && vb(r, c).state == CellState::Revealed))
    }
}

/// Every cell revealed since `v0` is reached by opening (sr, sc) in `v0`.
pub open spec fn sound(v0: spec_fn(int, int) -> Cell, v: spec_fn(int, int) -> Cell, rows: int, cols: int, sr: int, sc: int) -> bool {
    forall|r: int, c: int| #![trigger v(r, c)]
        in_bounds(rows, cols, r, c) && v0(r, c).state == CellState::Hidden && v(r, c).state != CellState::Hidden
            ==> reachable(v0, rows, cols, sr, sc, r, c)
}

/// Every cell revealed since `va` that has no mine around it has no hidden neighbour in `vb`.
pub open spec fn closed_since(va: spec_fn(int, int) -> Cell, vb: spec_fn(int, int) -> Cell, rows: int, cols: int) -> bool {
    forall|r: int, c: int, a: int, b: int| #![trigger vb(r, c), vb(a, b)]
        in_bounds(rows, cols, r, c) && va(r, c).state == CellState::Hidden && vb(r, c).state != CellState::Hidden
            && vb(r, c).adjacent_mines == 0 && in_bounds(rows, cols, a, b) && adjacent(r, c, a, b)
            ==> vb(a, b).state != CellState::Hidden
}

/// A hidden neighbour of a reached cell with no mine around it is reached one step later.
pub proof fn lemma_spread_step(v: spec_fn(int, int) -> Cell, rows: int, cols: int, sr: int, sc: int, k: nat,
    r: int, c: int, a: int, b: int)
    requires
        spread(v, rows, cols, sr, sc, k)(r, c),
        v(r, c).adjacent_mines == 0,
        adjacent(a, b, r, c),
        in_bounds(rows, cols, a, b),
        v(a, b).state == CellState::Hidden,
    ensures
        spread(v, rows, cols, sr, sc, k + 1)(a, b),
{
    assert(spread(v, rows, cols, sr, sc, ((k + 1) - 1) as nat) == spread(v, rows, cols, sr, sc, k));
}

/// Reached cells are hidden cells of the field.
pub proof fn lemma_spread_hidden(v: spec_fn(int, int) -> Cell, rows: int, cols: int, sr: int, sc: int, k: nat, r: int, c: int)
    requires
        spread(v, rows, cols, sr, sc, k)(r, c),
    ensures
        in_bounds(rows, cols, r, c),
        v(r, c).state == CellState::Hidden,
{
}

/// When every revealed cell with no mine around it has no hidden neighbour left, every
/// cell that opening (sr, sc) reaches is revealed.
proof fn lemma_reached_revealed(v0: spec_fn(int, int) -> Cell, v: spec_fn(int, int) -> Cell, rows: int, cols: int,
    sr: int, sc: int, k: nat, r: int, c: int)
    requires
        grows(v0, v, rows, cols),
        closed_since(v0, v, rows, cols),
        in_bounds(rows, cols, sr, sc) ==> v(sr, sc).state != CellState::Hidden,
        spread(v0, rows, cols, sr, sc, k)(r, c),
    ensures
        v(r, c).state != CellState::Hidden,
    decreases k,
{
    if k == 0 {
    } else {
        let p = spread(v0, rows, cols, sr, sc, (k - 1) as nat);
        if p(r, c) {
            lemma_reached_revealed(v0, v, rows, cols, sr, sc, (k - 1) as nat, r, c);
        } else {
            let (a, b) = choose|a: int, b: int| adjacent(r, c, a, b) && #[trigger] p(a, b) && v0(a, b).adjacent_mines == 0;
            lemma_reached_revealed(v0, v, rows, cols, sr, sc, (k - 1) as nat, a, b);
            lemma_spread_hidden(v0, rows, cols, sr, sc, (k - 1) as nat, a, b);
            assert(v(a, b).adjacent_mines == v0(a, b).adjacent_mines);
            assert(v(r, c).state == v0(r, c).state || v(r, c).state == CellState::Revealed);
        }
    }
}

/// Revealing exactly the reached cells: sound and closed opening gives the flooded field.
pub proof fn lemma_flood_exact(v0: spec_fn(int, int) -> Cell, v: spec_fn(int, int) -> Cell, rows: int, cols: int, sr: int, sc: int)
    requires
        grows(v0, v, rows, cols),
        sound(v0, v, rows, cols, sr, sc),
        closed_since(v0, v, rows, cols),
        in_bounds(rows, cols, sr, sc),
        v(sr, sc).state != CellState::Hidden,
    ensures
        forall|r: int, c: int| in_bounds(rows, cols, r, c) ==> #[trigger] v(r, c) == flooded(v0, rows, cols, sr, sc)(r, c),
{
    assert forall|r: int, c: int| in_bounds(rows, cols, r, c) implies #[trigger] v(r, c) == flooded(v0, rows, cols, sr, sc)(r, c) by {
        if reachable(v0, rows, cols, sr, sc, r, c) {
            let k = choose|k: nat| #[trigger] spread(v0, rows, cols, sr, sc, k)(r, c);
            lemma_spread_hidden(v0, rows, cols, sr, sc, k, r, c);
            lemma_reached_revealed(v0, v, rows, cols, sr, sc, k, r, c);
            assert(v0(r, c).state == CellState::Hidden);
        } else {
            assert(v0(r, c).state == CellState::Hidden ==> v(r, c).state == CellState::Hidden);
        }
        assert(v(r, c).is_mine == v0(r, c).is_mine);
    }
}

// ---------------------------------------------------------------------------
// Counting cells by state
// ---------------------------------------------------------------------------

pub open spec fn row_count(row: Seq<Cell>, s: CellState, n: int) -> nat
    decreases n,
{
    if n <= 0 {
        0
    } else {
        row_count(row, s, n - 1) + if row[n - 1].state == s { 1nat } else { 0nat }
    }
}

pub open spec fn grid_count(g: Seq<Vec<Cell>>, s: CellState, n: int) -> nat
    decreases n,
{
    if n <= 0 {
        0
    } else {
        grid_count(g, s, n - 1) + row_count(g[n - 1]@, s, g[n - 1]@.len() as int)
    }
}

/// The number of cells of the field in state `s`.
pub open spec fn count_of(g: Seq<Vec<Cell>>, s: CellState) -> nat {
    grid_count(g, s, g.len() as int)
}

proof fn lemma_row_hidden(x: Seq<Cell>, y: Seq<Cell>, n: int, i0: int)
    requires
        0 <= n <= x.len(),
        y.len() == x.len(),
        forall|i: int| 0 <= i < n && #[trigger] y[i].state == CellState::Hidden ==> x[i].state == CellState::Hidden,
    ensures
        row_count(y, CellState::Hidden, n) <= row_count(x, CellState::Hidden, n),
        0 <= i0 < n && x[i0].state == CellState::Hidden && y[i0].state != CellState::Hidden
            ==> row_count(y, CellState::Hidden, n) < row_count(x, CellState::Hidden, n),
    decreases n,
{
    if n > 0 {
        lemma_row_hidden(x, y, n - 1, i0);
    }
}

/// Revealing cells never adds hidden ones, and revealing a hidden one leaves fewer.
pub proof fn lemma_hidden_drop(g: Seq<Vec<Cell>>, h: Seq<Vec<Cell>>, rows: int, cols: int, r0: int, c0: int)
    requires
        shaped(g, rows, cols),
        shaped(h, rows, cols),
        grows(grid(g), grid(h), rows, cols),
    ensures
        count_of(h, CellState::Hidden) <= count_of(g, CellState::Hidden),
        in_bounds(rows, cols, r0, c0) && grid(g)(r0, c0).state == CellState::Hidden
            && grid(h)(r0, c0).state != CellState::Hidden
            ==> count_of(h, CellState::Hidden) < count_of(g, CellState::Hidden),
{
    lemma_grid_hidden(g, h, rows, cols, r0, c0, rows);
}

proof fn lemma_grid_hidden(g: Seq<Vec<Cell>>, h: Seq<Vec<Cell>>, rows: int, cols: int, r0: int, c0: int, n: int)
    requires
        shaped(g, rows, cols),
        shaped(h, rows, cols),
        grows(grid(g), grid(h), rows, cols),
        0 <= n <= rows,
    ensures
        grid_count(h, CellState::Hidden, n) <= grid_count(g, CellState::Hidden, n),
        in_bounds(rows, cols, r0, c0) && r0 < n && grid(g)(r0, c0).state == CellState::Hidden
            && grid(h)(r0, c0).state != CellState::Hidden
            ==> grid_count(h, CellState::Hidden, n) < grid_count(g, CellState::Hidden, n),
    decreases n,
{
    if n > 0 {
        lemma_grid_hidden(g, h, rows, cols, r0, c0, n - 1);
        let x = g[n - 1]@;
        let y = h[n - 1]@;
        assert(x.len() == cols && y.len() == cols);
        assert forall|i: int| 0 <= i < cols && #[trigger] y[i].state == CellState::Hidden implies x[i].state == CellState::Hidden by {
            assert(grid(g)(n - 1, i) == x[i]);
            assert(grid(h)(n - 1, i) == y[i]);
        }
        if r0 == n - 1 && in_bounds(rows, cols, r0, c0) {
            assert(grid(g)(r0, c0) == x[c0]);
            assert(grid(h)(r0, c0) == y[c0]);
        }
        lemma_row_hidden(x, y, cols, if r0 == n - 1 { c0 } else { -1 });
    }
}

} // verus!
