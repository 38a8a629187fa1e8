use vstd::prelude::*;
use super::model::{
    adjacent, attempts, clip, block_mines, closed_since, count_of, counted, flooded, grid, grid_count, grows, in_bounds, laid,
    lemma_block_mines, lemma_flood_exact, lemma_placed_avoids, lemma_hidden_drop, lemma_placed_stable, lemma_spread_step, mine_at, mines,
    neighbor_mines, opened, pick, placed, reachable, row_count, shaped, sound, with_state, Cell, CellState, GameStatus,
};

verus! {

/// A minesweeper game: a field of `rows` rows of `cols` cells, `total_mines` mines laid at
/// the first reveal, away from the revealed cell.
pub struct GameState {
    pub rows: usize,
    pub cols: usize,
    pub total_mines: usize,
    pub board: Vec<Vec<Cell>>,
    pub status: GameStatus,
    pub first_click: bool,
}

/// Why a reveal or a flag request is refused, if it is.
pub open spec fn action_error(s: GameState, row: int, col: int) -> Option<Seq<char>> {
    if s.status != GameStatus::Active {
        Some("Game is over"@)
    } else if !in_bounds(s.rows as int, s.cols as int, row, col) {
        Some("Invalid coordinates"@)
    } else {
        None
    }
}

/// The status after a reveal that found no mine: won once every safe cell is revealed.
pub open spec fn win_checked(s: GameState) -> GameStatus {
    if count_of(s.board@, CellState::Revealed) == s.rows * s.cols - s.total_mines {
        GameStatus::Won
    } else {
        s.status
    }
}

/// The field in which (row, col) is opened: with the mines laid first, using `draws`, if
/// no mine was laid yet.
pub open spec fn field_to_open(s: GameState, row: int, col: int, draws: Seq<(u32, u32)>) -> spec_fn(int, int) -> Cell {
    let rows = s.rows as int;
    let cols = s.cols as int;
    clip(if s.first_click {
        laid(grid(s.board@), rows, cols, s.total_mines as int, row, col, draws)
    } else {
        grid(s.board@)
    }, rows, cols)
}

/// A reveal of (row, col) opens a safe hidden cell, and so counts the revealed cells to
/// see whether the game is won.
pub open spec fn opens_safe_cell(s: GameState, row: int, col: int, draws: Seq<(u32, u32)>) -> bool {
    &&& action_error(s, row, col) is None
    &&& grid(s.board@)(row, col).state == CellState::Hidden
    &&& !field_to_open(s, row, col, draws)(row, col).is_mine
}

/// What a reveal of (row, col) does, with `draws` laying the mines if it is the first.
pub open spec fn after_reveal(old: GameState, new: GameState, row: int, col: int, draws: Seq<(u32, u32)>) -> bool {
    let rows = old.rows as int;
    let cols = old.cols as int;
    &&& new.rows == old.rows
    &&& new.cols == old.cols
    &&& new.total_mines == old.total_mines
    &&& if action_error(old, row, col) is Some || grid(old.board@)(row, col).state != CellState::Hidden {
        new == old
    } else {
        let v1 = field_to_open(old, row, col, draws);
        &&& !new.first_click
        &&& shaped(new.board@, rows, cols)
        &&& if v1(row, col).is_mine {
            &&& forall|r: int, c: int| in_bounds(rows, cols, r, c) ==> #[trigger] grid(new.board@)(r, c) == opened(v1, row, col)(r, c)
            &&& new.status == GameStatus::Lost
        } else {
            &&& forall|r: int, c: int| in_bounds(rows, cols, r, c)
                ==> #[trigger] grid(new.board@)(r, c) == flooded(v1, rows, cols, row, col)(r, c)
            &&& new.status == if count_of(new.board@, CellState::Revealed) == rows * cols - old.total_mines {
                GameStatus::Won
            } else {
                GameStatus::Active
            }
        }
    }
}

/// What toggling the flag on (row, col) does.
pub open spec fn after_toggle(old: GameState, new: GameState, row: int, col: int) -> bool {
    let rows = old.rows as int;
    let cols = old.cols as int;
    if action_error(old, row, col) is Some {
        new == old
    } else {
        let x = grid(old.board@)(row, col);
        let s = match x.state {
            CellState::Hidden => CellState::Flagged,
            CellState::Flagged => CellState::Hidden,
            CellState::Revealed => CellState::Revealed,
        };
        &&& new.rows == old.rows
        &&& new.cols == old.cols
        &&& new.total_mines == old.total_mines
        &&& new.status == old.status
        &&& new.first_click == old.first_click
        &&& shaped(new.board@, rows, cols)
        &&& forall|r: int, c: int| in_bounds(rows, cols, r, c)
            ==> #[trigger] grid(new.board@)(r, c) == if r == row && c == col { with_state(x, s) } else { grid(old.board@)(r, c) }
    }
}

impl GameState {
    /// The field has the size it claims.
    pub open spec fn wf(&self) -> bool {
        shaped(self.board@, self.rows as int, self.cols as int)
    }

    /// A new game: every cell hidden, no mine laid yet.
    pub fn new(rows: usize, cols: usize, total_mines: usize) -> (s: Self)
        ensures
            s.wf(),
            s.rows == rows,
            s.cols == cols,
            s.total_mines == total_mines,
            s.status == GameStatus::Active,
            s.first_click,
            forall|r: int, c: int| in_bounds(rows as int, cols as int, r, c)
                ==> #[trigger] grid(s.board@)(r, c) == (Cell { is_mine: false, adjacent_mines: 0, state: CellState::Hidden }),
    {
        let blank = Cell { is_mine: false, adjacent_mines: 0, state: CellState::Hidden };
        let mut board: Vec<Vec<Cell>> = Vec::new();
        let mut r: usize = 0;
        while r < rows
            invariant
                r <= rows,
                board@.len() == r,
                forall|i: int| 0 <= i < r ==> (#[trigger] board@[i])@.len() == cols,
                forall|i: int, j: int| 0 <= i < r && 0 <= j < cols ==> #[trigger] board@[i]@[j] == blank,
            decreases rows - r,
        {
            let mut line: Vec<Cell> = Vec::new();
            let mut c: usize = 0;
            while c < cols
                invariant
                    c <= cols,
                    line@.len() == c,
                    forall|j: int| 0 <= j < c ==> #[trigger] line@[j] == blank,
                decreases cols - c,
            {
                line.push(blank);
                c += 1;
            }
            board.push(line);
            r += 1;
        }
        Self { rows, cols, total_mines, board, status: GameStatus::Active, first_click: true }
    }

    /// Flags a hidden cell, or unflags a flagged one; revealed cells stay as they are.
    pub fn toggle_flag(&mut self, row: usize, col: usize) -> (res: Result<(), &'static str>)
        requires
            old(self).wf(),
        ensures
            final(self).wf(),
            res is Err <==> action_error(*old(self), row as int, col as int) is Some,
            res matches Err(e) ==> e@ == action_error(*old(self), row as int, col as int)->Some_0,
            after_toggle(*old(self), *final(self), row as int, col as int),
    {
        if self.status != GameStatus::Active {
            return Err("Game is over");
        }
        if row >= self.rows || col >= self.cols {
            return Err("Invalid coordinates");
        }
        let ghost g0 = self.board@;
        match self.board[row][col].state {
            CellState::Hidden => {
                self.board[row][col].state = CellState::Flagged;
            },
            CellState::Flagged => {
                self.board[row][col].state = CellState::Hidden;
            },
            CellState::Revealed => {},
        }
        assert forall|r: int| 0 <= r < self.rows implies #[trigger] self.board@[r]@.len() == self.cols by {
            if r != row {
                assert(self.board@[r] == g0[r]);
            }
        }
        assert forall|r: int, c: int| in_bounds(self.rows as int, self.cols as int, r, c) && !(r == row && c == col)
            implies #[trigger] grid(self.board@)(r, c) == grid(g0)(r, c) by {
            if r != row {
                assert(self.board@[r] == g0[r]);
            }
        }
        Ok(())
    }

    /// The number of mines around (r, c).
    fn neighbor_count(&self, r: usize, c: usize) -> (n: u8)
        requires
            self.wf(),
            r < self.rows,
            c < self.cols,
        ensures
            n == neighbor_mines(mines(grid(self.board@)), self.rows as int, self.cols as int, r as int, c as int),
    {
        let ghost m = mines(grid(self.board@));
        let ghost rows = self.rows as int;
        let ghost cols = self.cols as int;
        let mut count: u8 = 0;
        let mut k: usize = 0;
        while k < 9
            invariant
                self.wf(),
                r < self.rows,
                c < self.cols,
                m == mines(grid(self.board@)),
                rows == self.rows,
                cols == self.cols,
                k <= 9,
                count <= k,
                count == block_mines(m, rows, cols, r as int, c as int, k as int),
            decreases 9 - k,
        {
            if k != 4 {
                let dr = k / 3;
                let dc = k % 3;
                if (dr > 0 || r > 0) && (dr < 2 || r + 1 < self.rows) && (dc > 0 || c > 0) && (dc < 2 || c + 1 < self.cols) {
                    let nr = r + dr - 1;
                    let nc = c + dc - 1;
                    assert(nr < self.board@.len() && nc < self.board@[nr as int]@.len());
                    if self.board[nr][nc].is_mine {
                        count += 1;
                    }
                }
            }
            k += 1;
        }
        proof {
            lemma_block_mines(m, rows, cols, r as int, c as int);
        }
        count
    }

    /// Sets every safe cell's count from the mines around it.
    fn calculate_adjacent_mines(&mut self)
        requires
            old(self).wf(),
        ensures
            final(self).wf(),
            final(self).rows == old(self).rows,
            final(self).cols == old(self).cols,
            final(self).total_mines == old(self).total_mines,
            final(self).status == old(self).status,
            final(self).first_click == old(self).first_click,
            forall|r: int, c: int| in_bounds(old(self).rows as int, old(self).cols as int, r, c)
                ==> #[trigger] grid(final(self).board@)(r, c) == counted(grid(old(self).board@), old(self).rows as int, old(self).cols as int)(r, c),
    {
        let ghost s0 = *self;
        let ghost v0 = grid(self.board@);
        let ghost rows = self.rows as int;
        let ghost cols = self.cols as int;
        let mut r: usize = 0;
        while r < self.rows
            invariant
                self.wf(),
                self.rows == s0.rows,
                self.cols == s0.cols,
                self.total_mines == s0.total_mines,
                self.status == s0.status,
                self.first_click == s0.first_click,
                rows == self.rows,
                cols == self.cols,
                v0 == grid(s0.board@),
                r <= self.rows,
                forall|a: int, b: int| in_bounds(rows, cols, a, b) ==> #[trigger] grid(self.board@)(a, b).is_mine == v0(a, b).is_mine,
                forall|a: int, b: int| in_bounds(rows, cols, a, b) && a < r
                    ==> #[trigger] grid(self.board@)(a, b) == counted(v0, rows, cols)(a, b),
                forall|a: int, b: int| in_bounds(rows, cols, a, b) && a >= r ==> #[trigger] grid(self.board@)(a, b) == v0(a, b),
            decreases self.rows - r,
        {
            let mut c: usize = 0;
            while c < self.cols
                invariant
                    self.wf(),
                    self.rows == s0.rows,
                    self.cols == s0.cols,
                    self.total_mines == s0.total_mines,
                    self.status == s0.status,
                    self.first_click == s0.first_click,
                    rows == self.rows,
                    cols == self.cols,
                    v0 == grid(s0.board@),
                    r < self.rows,
                    c <= self.cols,
                    forall|a: int, b: int| in_bounds(rows, cols, a, b) ==> #[trigger] grid(self.board@)(a, b).is_mine == v0(a, b).is_mine,
                    forall|a: int, b: int| in_bounds(rows, cols, a, b) && (a < r || (a == r && b < c))
                        ==> #[trigger] grid(self.board@)(a, b) == counted(v0, rows, cols)(a, b),
                    forall|a: int, b: int| in_bounds(rows, cols, a, b) && (a > r || (a == r && b >= c))
                        ==> #[trigger] grid(self.board@)(a, b) == v0(a, b),
                decreases self.cols - c,
            {
                if !self.board[r][c].is_mine {
                    let count = self.neighbor_count(r, c);
                    proof {
                        assert(neighbor_mines(mines(grid(self.board@)), rows, cols, r as int, c as int)
                            == neighbor_mines(mines(v0), rows, cols, r as int, c as int));
                    }
                    let ghost before = self.board@;
                    self.board[r][c].adjacent_mines = count;
                    proof {
                        assert(grid(self.board@)(r as int, c as int) == Cell {
                            is_mine: grid(before)(r as int, c as int).is_mine,
                            adjacent_mines: count,
                            state: grid(before)(r as int, c as int).state,
                        });
                        assert forall|a: int| 0 <= a < rows implies #[trigger] self.board@[a]@.len() == cols by {
                            if a != r {
                                assert(self.board@[a] == before[a]);
                            }
                        }
                        assert forall|a: int, b: int| in_bounds(rows, cols, a, b) && !(a == r && b == c)
                            implies #[trigger] grid(self.board@)(a, b) == grid(before)(a, b) by {
                            if a != r {
                                assert(self.board@[a] == before[a]);
                            }
                        }
                    }
                }
                c += 1;
            }
            r += 1;
        }
    }

    /// Lays up to `total_mines` mines, one attempt per draw and at most a thousand attempts,
    /// never on (first_row, first_col) nor twice on a cell, then sets every safe cell's count.
    /// A draw `(a, b)` aims at row `a * rows / 2^32` and column `b * cols / 2^32`.
    pub fn place_mines(&mut self, first_row: usize, first_col: usize, draws: &Vec<(u32, u32)>)
        requires
            old(self).wf(),
        ensures
            final(self).wf(),
            final(self).rows == old(self).rows,
            final(self).cols == old(self).cols,
            final(self).total_mines == old(self).total_mines,
            final(self).status == old(self).status,
            final(self).first_click == old(self).first_click,
            forall|r: int, c: int| in_bounds(old(self).rows as int, old(self).cols as int, r, c)
                ==> #[trigger] grid(final(self).board@)(r, c) == laid(grid(old(self).board@), old(self).rows as int,
                    old(self).cols as int, old(self).total_mines as int, first_row as int, first_col as int, draws@)(r, c),
    {
        let ghost s0 = *self;
        let ghost v0 = grid(self.board@);
        let ghost m0 = mines(v0);
        let ghost rows = self.rows as int;
        let ghost cols = self.cols as int;
        let ghost total = self.total_mines as int;
        let mut mines_placed: usize = 0;
        let mut tries: usize = 0;
        while mines_placed < self.total_mines && tries < 1000 && tries < draws.len()
            invariant
                self.wf(),
                self.rows == s0.rows,
                self.cols == s0.cols,
                self.total_mines == s0.total_mines,
                self.status == s0.status,
                self.first_click == s0.first_click,
                rows == self.rows,
                cols == self.cols,
                total == self.total_mines,
                v0 == grid(s0.board@),
                m0 == mines(v0),
                tries <= 1000,
                tries <= draws@.len(),
                placed(m0, rows, cols, total, first_row as int, first_col as int, draws@, tries as int).1 == mines_placed,
                forall|a: int, b: int| in_bounds(rows, cols, a, b) ==> #[trigger] grid(self.board@)(a, b) == (Cell {
                    is_mine: placed(m0, rows, cols, total, first_row as int, first_col as int, draws@, tries as int).0(a, b),
                    adjacent_mines: v0(a, b).adjacent_mines,
                    state: v0(a, b).state,
                }),
            decreases 1000 - tries,
        {
            let ghost before = self.board@;
            let ghost k = tries as int;
            let (roll_r, roll_c) = draws[tries];
            tries += 1;
            let r = pick_index(roll_r, self.rows);
            let c = pick_index(roll_c, self.cols);
            proof {
                let prev = placed(m0, rows, cols, total, first_row as int, first_col as int, draws@, k);
                assert(draws@[k] == (roll_r, roll_c));
                assert(placed(m0, rows, cols, total, first_row as int, first_col as int, draws@, k + 1) == if prev.1 >= total
                    || !in_bounds(rows, cols, r as int, c as int) || (r == first_row && c == first_col) || (prev.0)(r as int, c as int) {
                    prev
                } else {
                    (|a: int, b: int| (prev.0)(a, b) || (a == r && b == c), prev.1 + 1)
                });
            }
            if r >= self.rows || c >= self.cols {
                continue;
            }
            assert(grid(self.board@)(r as int, c as int) == self.board@[r as int]@[c as int]);
            if (r == first_row && c == first_col) || self.board[r][c].is_mine {
                continue;
            }
            self.board[r][c].is_mine = true;
            mines_placed += 1;
            proof {
                assert(grid(self.board@)(r as int, c as int) == Cell {
                    is_mine: true,
                    adjacent_mines: grid(before)(r as int, c as int).adjacent_mines,
                    state: grid(before)(r as int, c as int).state,
                });
                assert forall|a: int| 0 <= a < rows implies #[trigger] self.board@[a]@.len() == cols by {
                    if a != r {
                        assert(self.board@[a] == before[a]);
                    }
                }
                assert forall|a: int, b: int| in_bounds(rows, cols, a, b) && !(a == r && b == c)
                    implies #[trigger] grid(self.board@)(a, b) == grid(before)(a, b) by {
                    if a != r {
                        assert(self.board@[a] == before[a]);
                    }
                }
            }
        }
        proof {
            let n = attempts(draws@);
            if tries as int != n {
                lemma_placed_stable(m0, rows, cols, total, first_row as int, first_col as int, draws@, tries as int, n);
            }
        }
        self.calculate_adjacent_mines();
    }

    /// Marks the game won once every safe cell is revealed.
    fn check_win_condition(&mut self)
        requires
            old(self).wf(),
            old(self).rows * old(self).cols <= usize::MAX,
            old(self).total_mines <= old(self).rows * old(self).cols,
        ensures
            *final(self) == (GameState { status: win_checked(*old(self)), ..*old(self) }),
    {
        let ghost g = self.board@;
        let ghost cols = self.cols as int;
        let mut revealed_count: usize = 0;
        let mut r: usize = 0;
        while r < self.rows
            invariant
                self.wf(),
                g == self.board@,
                cols == self.cols,
                self.rows * self.cols <= usize::MAX,
                r <= self.rows,
                revealed_count == grid_count(g, CellState::Revealed, r as int),
                revealed_count <= r * cols,
            decreases self.rows - r,
        {
            let mut c: usize = 0;
            while c < self.cols
                invariant
                    self.wf(),
                    g == self.board@,
                    cols == self.cols,
                    self.rows * self.cols <= usize::MAX,
                    r < self.rows,
                    c <= self.cols,
                    revealed_count == grid_count(g, CellState::Revealed, r as int) + row_count(g[r as int]@, CellState::Revealed, c as int),
                    revealed_count <= r * cols + c,
                decreases self.cols - c,
            {
                assert((r + 1) * cols <= self.rows * self.cols) by (nonlinear_arith)
                    requires
                        r < self.rows,
                        cols == self.cols,
                ;
                assert(r * cols + c + 1 <= (r + 1) * cols) by (nonlinear_arith)
                    requires
                        c < cols,
                ;
                if self.board[r][c].state == CellState::Revealed {
                    revealed_count += 1;
                }
                c += 1;
            }
            assert(r * cols + cols == (r + 1) * cols) by (nonlinear_arith);
            r += 1;
        }
        if revealed_count == (self.rows * self.cols) - self.total_mines {
            self.status = GameStatus::Won;
        }
    }

    /// Reveals (row, col) if it is hidden and, when no mine is around it, goes on with
    /// each of its neighbours.  `v0` is the field when the opening of (sr, sc) began.
    fn flood_fill(&mut self, row: usize, col: usize, Ghost(v0): Ghost<spec_fn(int, int) -> Cell>, Ghost(sr): Ghost<int>, Ghost(sc): Ghost<int>)
        requires
            old(self).wf(),
            row < old(self).rows,
            col < old(self).cols,
            grows(v0, grid(old(self).board@), old(self).rows as int, old(self).cols as int),
            sound(v0, grid(old(self).board@), old(self).rows as int, old(self).cols as int, sr, sc),
            v0(row as int, col as int).state == CellState::Hidden
                ==> reachable(v0, old(self).rows as int, old(self).cols as int, sr, sc, row as int, col as int),
        ensures
            final(self).wf(),
            final(self).rows == old(self).rows,
            final(self).cols == old(self).cols,
            final(self).total_mines == old(self).total_mines,
            final(self).status == old(self).status,
            final(self).first_click == old(self).first_click,
            grows(grid(old(self).board@), grid(final(self).board@), old(self).rows as int, old(self).cols as int),
            grows(v0, grid(final(self).board@), old(self).rows as int, old(self).cols as int),
            sound(v0, grid(final(self).board@), old(self).rows as int, old(self).cols as int, sr, sc),
            grid(final(self).board@)(row as int, col as int).state != CellState::Hidden,
            closed_since(grid(old(self).board@), grid(final(self).board@), old(self).rows as int, old(self).cols as int),
        decreases count_of(old(self).board@, CellState::Hidden),
    {
        let ghost s0 = *self;
        let ghost e = grid(self.board@);
        let ghost rows = self.rows as int;
        let ghost cols = self.cols as int;
        assert(grid(self.board@)(row as int, col as int) == self.board@[row as int]@[col as int]);
        if self.board[row][col].state != CellState::Hidden {
            return;
        }
        self.board[row][col].state = CellState::Revealed;
        proof {
            assert(grid(self.board@)(row as int, col as int) == with_state(e(row as int, col as int), CellState::Revealed));
            assert(e(row as int, col as int) == s0.board@[row as int]@[col as int]);
            assert forall|a: int| 0 <= a < rows implies #[trigger] self.board@[a]@.len() == cols by {
                if a != row {
                    assert(self.board@[a] == s0.board@[a]);
                }
            }
            assert forall|a: int, b: int| in_bounds(rows, cols, a, b) && !(a == row && b == col)
                implies #[trigger] grid(self.board@)(a, b) == e(a, b) by {
                if a != row {
                    assert(self.board@[a] == s0.board@[a]);
                }
            }
        }
        proof {
            lemma_hidden_drop(s0.board@, self.board@, rows, cols, row as int, col as int);
        }
        if self.board[row][col].adjacent_mines == 0 {
            let ghost kr = choose|k: nat| #[trigger] super::model::spread(v0, rows, cols, sr, sc, k)(row as int, col as int);
            let mut k: usize = 0;
            while k < 9
                invariant
                    self.wf(),
                    self.rows == s0.rows,
                    self.cols == s0.cols,
                    self.total_mines == s0.total_mines,
                    self.status == s0.status,
                    self.first_click == s0.first_click,
                    rows == self.rows,
                    cols == self.cols,
                    e == grid(s0.board@),
                    row < self.rows,
                    col < self.cols,
                    k <= 9,
                    e(row as int, col as int).state == CellState::Hidden,
                    grid(self.board@)(row as int, col as int).state != CellState::Hidden,
                    grid(self.board@)(row as int, col as int).adjacent_mines == 0,
                    super::model::spread(v0, rows, cols, sr, sc, kr)(row as int, col as int),
                    grows(v0, e, rows, cols),
                    grows(e, grid(self.board@), rows, cols),
                    grows(v0, grid(self.board@), rows, cols),
                    sound(v0, grid(self.board@), rows, cols, sr, sc),
                    count_of(self.board@, CellState::Hidden) < count_of(s0.board@, CellState::Hidden),
                    old(self).board@ == s0.board@,
                    forall|r: int, c: int, a: int, b: int| #![trigger grid(self.board@)(r, c), grid(self.board@)(a, b)]
                        in_bounds(rows, cols, r, c) && !(r == row && c == col) && e(r, c).state == CellState::Hidden
                            && grid(self.board@)(r, c).state != CellState::Hidden && grid(self.board@)(r, c).adjacent_mines == 0
                            && in_bounds(rows, cols, a, b) && adjacent(r, c, a, b)
                            ==> grid(self.board@)(a, b).state != CellState::Hidden,
                    forall|a: int, b: int| #![trigger grid(self.board@)(a, b)]
                        in_bounds(rows, cols, a, b) && adjacent(row as int, col as int, a, b)
                            && (a - row + 1) * 3 + (b - col + 1) < k
                            ==> grid(self.board@)(a, b).state != CellState::Hidden,
                decreases 9 - k,
            {
                if k != 4 {
                    let dr = k / 3;
                    let dc = k % 3;
                    if (dr > 0 || row > 0) && (dr < 2 || row + 1 < self.rows) && (dc > 0 || col > 0) && (dc < 2 || col + 1 < self.cols) {
                        let nr = row + dr - 1;
                        let nc = col + dc - 1;
                        let ghost before = grid(self.board@);
                        let ghost before_board = self.board@;
                        proof {
                            if v0(nr as int, nc as int).state == CellState::Hidden {
                                lemma_spread_step(v0, rows, cols, sr, sc, kr, row as int, col as int, nr as int, nc as int);
                            }
                        }
                        self.flood_fill(nr, nc, Ghost(v0), Ghost(sr), Ghost(sc));
                        proof {
                            let after = grid(self.board@);
                            assert forall|r: int, c: int, a: int, b: int| #![trigger after(r, c), after(a, b)]
                                in_bounds(rows, cols, r, c) && !(r == row && c == col) && e(r, c).state == CellState::Hidden
                                    && after(r, c).state != CellState::Hidden && after(r, c).adjacent_mines == 0
                                    && in_bounds(rows, cols, a, b) && adjacent(r, c, a, b)
                                    implies after(a, b).state != CellState::Hidden by {
                                assert(before(r, c).adjacent_mines == after(r, c).adjacent_mines);
                                assert(before(a, b).state != CellState::Hidden ==> after(a, b).state != CellState::Hidden);
                                if before(r, c).state != CellState::Hidden {
                                    assert(before(a, b).state != CellState::Hidden);
                                }
                            }
                            assert forall|a: int, b: int| #![trigger after(a, b)]
                                in_bounds(rows, cols, a, b) && adjacent(row as int, col as int, a, b)
                                    && (a - row + 1) * 3 + (b - col + 1) < k + 1
                                    implies after(a, b).state != CellState::Hidden by {
                                assert(before(a, b).state != CellState::Hidden ==> after(a, b).state != CellState::Hidden);
                            }
                            lemma_hidden_drop(before_board, self.board@, rows, cols, row as int, col as int);
                        }
                    }
                }
                k += 1;
            }
        }
    }

    /// Reveals (row, col).  The first reveal lays the mines first, with `draws`, keeping this
    /// cell clear.  A mine loses the game; otherwise every cell that the opening reaches is
    /// revealed, and the game is won once every safe cell is.
    pub fn reveal_cell(&mut self, row: usize, col: usize, draws: &Vec<(u32, u32)>) -> (res: Result<(), &'static str>)
        requires
            old(self).wf(),
            old(self).rows * old(self).cols <= usize::MAX,
            opens_safe_cell(*old(self), row as int, col as int, draws@)
                ==> old(self).total_mines <= old(self).rows * old(self).cols,
        ensures
            final(self).wf(),
            res is Err <==> action_error(*old(self), row as int, col as int) is Some,
            res matches Err(e) ==> e@ == action_error(*old(self), row as int, col as int)->Some_0,
            after_reveal(*old(self), *final(self), row as int, col as int, draws@),
    {
        if self.status != GameStatus::Active {
            return Err("Game is over");
        }
        if row >= self.rows || col >= self.cols {
            return Err("Invalid coordinates");
        }
        assert(grid(self.board@)(row as int, col as int) == self.board@[row as int]@[col as int]);
        let state = self.board[row][col].state;
        if state == CellState::Revealed || state == CellState::Flagged {
            return Ok(());
        }
        let ghost rows = self.rows as int;
        let ghost cols = self.cols as int;
        let ghost s0 = *self;
        if self.first_click {
            self.first_click = false;
            self.place_mines(row, col, draws);
        }
        let ghost v1 = clip(grid(self.board@), rows, cols);
        proof {
            assert(v1 =~= field_to_open(s0, row as int, col as int, draws@));
        }
        assert(v1(row as int, col as int) == self.board@[row as int]@[col as int]);
        if self.board[row][col].is_mine {
            let ghost before = self.board@;
            self.board[row][col].state = CellState::Revealed;
            self.status = GameStatus::Lost;
            proof {
                assert forall|a: int| 0 <= a < rows implies #[trigger] self.board@[a]@.len() == cols by {
                    if a != row {
                        assert(self.board@[a] == before[a]);
                    }
                }
                assert forall|a: int, b: int| in_bounds(rows, cols, a, b)
                    implies #[trigger] grid(self.board@)(a, b) == opened(v1, row as int, col as int)(a, b) by {
                    if a != row {
                        assert(self.board@[a] == before[a]);
                    }
                }
            }
            return Ok(());
        }
        proof {
            assert(super::model::spread(v1, rows, cols, row as int, col as int, 0)(row as int, col as int));
        }
        self.flood_fill(row, col, Ghost(v1), Ghost(row as int), Ghost(col as int));
        proof {
            lemma_flood_exact(v1, grid(self.board@), rows, cols, row as int, col as int);
        }
        self.check_win_condition();
        Ok(())
    }
}

/// The first reveal of a field without mines never loses: the mines are laid around the
/// revealed cell.
pub proof fn lemma_first_reveal_safe(old: GameState, new: GameState, row: int, col: int, draws: Seq<(u32, u32)>)
    requires
        old.wf(),
        old.first_click,
        old.status == GameStatus::Active,
        forall|r: int, c: int| in_bounds(old.rows as int, old.cols as int, r, c) ==> !(#[trigger] grid(old.board@)(r, c)).is_mine,
        after_reveal(old, new, row, col, draws),
    ensures
        new.status != GameStatus::Lost,
{
    let rows = old.rows as int;
    let cols = old.cols as int;
    if action_error(old, row, col) is None && grid(old.board@)(row, col).state == CellState::Hidden {
        let v = grid(old.board@);
        lemma_placed_avoids(mines(v), rows, cols, old.total_mines as int, row, col, draws, attempts(draws));
        assert(!laid(v, rows, cols, old.total_mines as int, row, col, draws)(row, col).is_mine);
    }
}

/// Toggling the flag on a cell twice gives back the game as it was.
pub proof fn lemma_toggle_twice(s0: GameState, s1: GameState, s2: GameState, row: int, col: int)
    requires
        s0.wf(),
        after_toggle(s0, s1, row, col),
        after_toggle(s1, s2, row, col),
    ensures
        s2.rows == s0.rows,
        s2.cols == s0.cols,
        s2.total_mines == s0.total_mines,
        s2.status == s0.status,
        s2.first_click == s0.first_click,
        forall|r: int, c: int| in_bounds(s0.rows as int, s0.cols as int, r, c) ==> #[trigger] grid(s2.board@)(r, c) == grid(s0.board@)(r, c),
{
    if action_error(s0, row, col) is None {
        assert(grid(s1.board@)(row, col) == with_state(grid(s0.board@)(row, col), grid(s1.board@)(row, col).state));
    }
}

/// Which of `n` rows (or columns) the draw `roll` picks.
fn pick_index(roll: u32, n: usize) -> (i: usize)
    ensures
        i == pick(roll, n as int),
        n > 0 ==> i < n,
{
    assert((roll as int * n as int) / 0x1_0000_0000 <= n as int) by (nonlinear_arith)
        requires
            roll < 0x1_0000_0000,
            n >= 0,
    ;
    assert(n > 0 ==> (roll as int * n as int) / 0x1_0000_0000 < n as int) by (nonlinear_arith)
        requires
            roll < 0x1_0000_0000,
            n >= 0,
    ;
    ((roll as u128) * (n as u128) / 0x1_0000_0000u128) as usize
}

} // verus!
