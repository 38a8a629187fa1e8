use vstd::prelude::*;
use super::model::{
    after_move, any_moved, any_won, cells, lemma_empties, cell_of, checked_status, direction_of, empties, empties_upto,
    gain, gain_upto, has_empty, has_pair, in_grid, lemma_gain_mono, lemma_right_is_mirrored_left, lemma_slide_shape,
    lemma_up_is_transposed_left,
    line_of, moved_upto, pick_index, slid_cell, slid_cells, slide, slide_line, slide_upto,
    spawned, won_upto, Board, Direction, GameStatus,
};

verus! {

/// A 2048 game: the board, the score, whether it is over, and the tile that wins it.
pub struct GameState {
    pub board: Board,
    pub score: u32,
    pub status: GameStatus,
    pub target_score: u32,
}

/// Whether two strings hold the same text.
fn same_text(a: &str, b: &str) -> (res: bool)
    ensures
        res == (a@ == b@),
{
    a.to_owned() == b.to_owned()
}

/// What a push in direction `d` does to the board, the score and the status.
pub open spec fn pushed(old: GameState, new: GameState, d: Direction, moved: bool) -> bool {
    &&& new.target_score == old.target_score
    &&& forall|r: int, c: int| in_grid(r, c) ==> #[trigger] new.board[r][c] == slid_cell(old.board, d, old.target_score as int, r, c)
    &&& new.score == old.score + gain(old.board, d, old.target_score as int)
    &&& moved == any_moved(old.board, d, old.target_score as int)
    &&& new.status == if any_won(old.board, d, old.target_score as int) { GameStatus::Won } else { old.status }
}

impl GameState {
    fn move_left(&mut self) -> (moved: bool)
        requires
            old(self).score + gain(old(self).board, Direction::Left, old(self).target_score as int) <= u32::MAX,
        ensures
            pushed(*old(self), *final(self), Direction::Left, moved),
    {
        let ghost b0 = self.board;
        let ghost s0 = self.score;
        let ghost st0 = self.status;
        let ghost t = self.target_score as int;
        let ghost d = Direction::Left;
        let mut moved = false;
        let mut r: usize = 0;
        while r < 4
            invariant
                r <= 4,
                d == Direction::Left,
                t == self.target_score,
                s0 + gain(b0, d, t) <= u32::MAX,
                forall|r2: int, c2: int| 0 <= r2 < r && 0 <= c2 < 4 ==> #[trigger] self.board[r2][c2] == slid_cell(b0, d, t, r2, c2),
                forall|r2: int, c2: int| r <= r2 < 4 && 0 <= c2 < 4 ==> #[trigger] self.board[r2][c2] == b0[r2][c2],
                self.score == s0 + gain_upto(b0, d, t, r as int),
                moved == moved_upto(b0, d, t, r as int),
                self.status == if won_upto(b0, d, t, r as int) { GameStatus::Won } else { st0 },
            decreases 4 - r,
        {
            let ghost line = line_of(b0, d, r as int);
            proof {
                lemma_gain_upto_mono(b0, d, t, r as int + 1, 4);
                lemma_gain_mono(line, t, 0, 4);
            }
            let mut new_row: [u32; 4] = [0; 4];
            let mut idx: usize = 0;
            let mut last_merged = false;
            let mut c: usize = 0;
            while c < 4
                invariant
                    r < 4, c <= 4,
                    d == Direction::Left,
                    t == self.target_score,
                    line == line_of(b0, d, r as int),
                    s0 + gain_upto(b0, d, t, r as int) + slide(line, t).gained <= u32::MAX,
                    forall|r2: int, c2: int| 0 <= r2 < r && 0 <= c2 < 4 ==> #[trigger] self.board[r2][c2] == slid_cell(b0, d, t, r2, c2),
                    forall|r2: int, c2: int| r <= r2 < 4 && 0 <= c2 < 4 ==> #[trigger] self.board[r2][c2] == b0[r2][c2],
                    forall|k: int| 0 <= k < 4 ==> new_row[k] == #[trigger] slide_upto(line, t, c as nat).out[k],
                    idx == slide_upto(line, t, c as nat).idx,
                    last_merged == slide_upto(line, t, c as nat).last_merged,
                    self.score == s0 + gain_upto(b0, d, t, r as int) + slide_upto(line, t, c as nat).gained,
                    moved == (moved_upto(b0, d, t, r as int) || slide_upto(line, t, c as nat).moved),
                    self.status == if won_upto(b0, d, t, r as int) || slide_upto(line, t, c as nat).won { GameStatus::Won } else { st0 },
                decreases 4 - c,
            {
                proof {
                    lemma_slide_shape(line, t, c as nat);
                    lemma_gain_mono(line, t, (c + 1) as nat, 4);
                    assert(line[c as int] == self.board[r as int][c as int]);
                }
                if self.board[r][c] != 0 {
                    if idx > 0 && new_row[idx - 1] == self.board[r][c] && !last_merged {
                        new_row[idx - 1] *= 2;
                        self.score += new_row[idx - 1];
                        last_merged = true;
                        moved = true;
                        if new_row[idx - 1] >= self.target_score {
                            self.status = GameStatus::Won;
                        }
                    } else {
                        new_row[idx] = self.board[r][c];
                        if c != idx {
                            moved = true;
                        }
                        idx += 1;
                        last_merged = false;
                    }
                }
                c += 1;
            }
            self.board[r] = new_row;
            assert forall|c2: int| 0 <= c2 < 4 implies #[trigger] self.board[r as int][c2] == slid_cell(b0, d, t, r as int, c2) by {
                assert(new_row[c2] == slide_upto(line, t, 4).out[c2]);
            }
            r += 1;
        }
        moved
    }

    fn move_right(&mut self) -> (moved: bool)
        requires
            old(self).score + gain(old(self).board, Direction::Right, old(self).target_score as int) <= u32::MAX,
        ensures
            pushed(*old(self), *final(self), Direction::Right, moved),
    {
        let ghost b0 = self.board;
        let ghost s0 = self.score;
        let ghost st0 = self.status;
        let ghost t = self.target_score as int;
        let ghost d = Direction::Right;
        let mut moved = false;
        let mut r: usize = 0;
        while r < 4
            invariant
                r <= 4,
                d == Direction::Right,
                t == self.target_score,
                s0 + gain(b0, d, t) <= u32::MAX,
                forall|r2: int, c2: int| 0 <= r2 < r && 0 <= c2 < 4 ==> #[trigger] self.board[r2][c2] == slid_cell(b0, d, t, r2, c2),
                forall|r2: int, c2: int| r <= r2 < 4 && 0 <= c2 < 4 ==> #[trigger] self.board[r2][c2] == b0[r2][c2],
                self.score == s0 + gain_upto(b0, d, t, r as int),
                moved == moved_upto(b0, d, t, r as int),
                self.status == if won_upto(b0, d, t, r as int) { GameStatus::Won } else { st0 },
            decreases 4 - r,
        {
            let ghost line = line_of(b0, d, r as int);
            proof {
                lemma_gain_upto_mono(b0, d, t, r as int + 1, 4);
                lemma_gain_mono(line, t, 0, 4);
            }
            let mut new_row: [u32; 4] = [0; 4];
            let mut idx: usize = 3;
            let mut last_merged = false;
            let mut c: usize = 4;
            while c > 0
                invariant
                    r < 4, c <= 4,
                    d == Direction::Right,
                    t == self.target_score,
                    line == line_of(b0, d, r as int),
                    s0 + gain_upto(b0, d, t, r as int) + slide(line, t).gained <= u32::MAX,
                    forall|r2: int, c2: int| 0 <= r2 < r && 0 <= c2 < 4 ==> #[trigger] self.board[r2][c2] == slid_cell(b0, d, t, r2, c2),
                    forall|r2: int, c2: int| r <= r2 < 4 && 0 <= c2 < 4 ==> #[trigger] self.board[r2][c2] == b0[r2][c2],
                    forall|k: int| 0 <= k < 4 ==> new_row[3 - k] == #[trigger] slide_upto(line, t, (4 - c) as nat).out[k],
                    idx as int == if slide_upto(line, t, (4 - c) as nat).idx <= 3 { 3 - slide_upto(line, t, (4 - c) as nat).idx } else { 0 },
                    last_merged == slide_upto(line, t, (4 - c) as nat).last_merged,
                    self.score == s0 + gain_upto(b0, d, t, r as int) + slide_upto(line, t, (4 - c) as nat).gained,
                    moved == (moved_upto(b0, d, t, r as int) || slide_upto(line, t, (4 - c) as nat).moved),
                    self.status == if won_upto(b0, d, t, r as int) || slide_upto(line, t, (4 - c) as nat).won { GameStatus::Won } else { st0 },
                decreases c,
            {
                c -= 1;
                proof {
                    lemma_slide_shape(line, t, (3 - c) as nat);
                    lemma_gain_mono(line, t, (4 - c) as nat, 4);
                    assert(line[3 - c] == self.board[r as int][c as int]);
                }
                if self.board[r][c] != 0 {
                    if idx < 3 && new_row[idx + 1] == self.board[r][c] && !last_merged {
                        new_row[idx + 1] *= 2;
                        self.score += new_row[idx + 1];
                        last_merged = true;
                        moved = true;
                        if new_row[idx + 1] >= self.target_score {
                            self.status = GameStatus::Won;
                        }
                    } else {
                        new_row[idx] = self.board[r][c];
                        if c != idx {
                            moved = true;
                        }
                        if idx > 0 {
                            idx -= 1;
                        }
                        last_merged = false;
                    }
                }
            }
            self.board[r] = new_row;
            assert forall|c2: int| 0 <= c2 < 4 implies #[trigger] self.board[r as int][c2] == slid_cell(b0, d, t, r as int, c2) by {
                assert(new_row[3 - (3 - c2)] == slide_upto(line, t, 4).out[3 - c2]);
            }
            r += 1;
        }
        moved
    }

    fn move_up(&mut self) -> (moved: bool)
        requires
            old(self).score + gain(old(self).board, Direction::Up, old(self).target_score as int) <= u32::MAX,
        ensures
            pushed(*old(self), *final(self), Direction::Up, moved),
    {
        let ghost b0 = self.board;
        let ghost s0 = self.score;
        let ghost st0 = self.status;
        let ghost t = self.target_score as int;
        let ghost d = Direction::Up;
        let mut moved = false;
        let mut c: usize = 0;
        while c < 4
            invariant
                c <= 4,
                d == Direction::Up,
                t == self.target_score,
                s0 + gain(b0, d, t) <= u32::MAX,
                forall|r2: int, c2: int| 0 <= r2 < 4 && 0 <= c2 < c ==> #[trigger] self.board[r2][c2] == slid_cell(b0, d, t, r2, c2),
                forall|r2: int, c2: int| 0 <= r2 < 4 && c <= c2 < 4 ==> #[trigger] self.board[r2][c2] == b0[r2][c2],
                self.score == s0 + gain_upto(b0, d, t, c as int),
                moved == moved_upto(b0, d, t, c as int),
                self.status == if won_upto(b0, d, t, c as int) { GameStatus::Won } else { st0 },
            decreases 4 - c,
        {
            let ghost line = line_of(b0, d, c as int);
            proof {
                lemma_gain_upto_mono(b0, d, t, c as int + 1, 4);
                lemma_gain_mono(line, t, 0, 4);
            }
            let mut new_col: [u32; 4] = [0; 4];
            let mut idx: usize = 0;
            let mut last_merged = false;
            let mut r: usize = 0;
            while r < 4
                invariant
                    c < 4, r <= 4,
                    d == Direction::Up,
                    t == self.target_score,
                    line == line_of(b0, d, c as int),
                    s0 + gain_upto(b0, d, t, c as int) + slide(line, t).gained <= u32::MAX,
                    forall|r2: int, c2: int| 0 <= r2 < 4 && 0 <= c2 < c ==> #[trigger] self.board[r2][c2] == slid_cell(b0, d, t, r2, c2),
                    forall|r2: int, c2: int| 0 <= r2 < 4 && c <= c2 < 4 ==> #[trigger] self.board[r2][c2] == b0[r2][c2],
                    forall|k: int| 0 <= k < 4 ==> new_col[k] == #[trigger] slide_upto(line, t, r as nat).out[k],
                    idx == slide_upto(line, t, r as nat).idx,
                    last_merged == slide_upto(line, t, r as nat).last_merged,
                    self.score == s0 + gain_upto(b0, d, t, c as int) + slide_upto(line, t, r as nat).gained,
                    moved == (moved_upto(b0, d, t, c as int) || slide_upto(line, t, r as nat).moved),
                    self.status == if won_upto(b0, d, t, c as int) || slide_upto(line, t, r as nat).won { GameStatus::Won } else { st0 },
                decreases 4 - r,
            {
                proof {
                    lemma_slide_shape(line, t, r as nat);
                    lemma_gain_mono(line, t, (r + 1) as nat, 4);
                    assert(line[r as int] == self.board[r as int][c as int]);
                }
                if self.board[r][c] != 0 {
                    if idx > 0 && new_col[idx - 1] == self.board[r][c] && !last_merged {
                        new_col[idx - 1] *= 2;
                        self.score += new_col[idx - 1];
                        last_merged = true;
                        moved = true;
                        if new_col[idx - 1] >= self.target_score {
                            self.status = GameStatus::Won;
                        }
                    } else {
                        new_col[idx] = self.board[r][c];
                        if r != idx {
                            moved = true;
                        }
                        idx += 1;
                        last_merged = false;
                    }
                }
                r += 1;
            }
            let mut r: usize = 0;
            while r < 4
                invariant
                    c < 4, r <= 4,
                    d == Direction::Up,
                    forall|k: int| 0 <= k < 4 ==> new_col[k] == #[trigger] slide(line, t).out[k],
                    line == line_of(b0, d, c as int),
                    forall|r2: int, c2: int| 0 <= r2 < 4 && 0 <= c2 < c ==> #[trigger] self.board[r2][c2] == slid_cell(b0, d, t, r2, c2),
                    forall|r2: int, c2: int| 0 <= r2 < 4 && c < c2 < 4 ==> #[trigger] self.board[r2][c2] == b0[r2][c2],
                    forall|r2: int| 0 <= r2 < r ==> #[trigger] self.board[r2][c as int] == slid_cell(b0, d, t, r2, c as int),
                    t == self.target_score,
                    self.score == s0 + gain_upto(b0, d, t, c as int + 1),
                    moved == moved_upto(b0, d, t, c as int + 1),
                    self.status == if won_upto(b0, d, t, c as int + 1) { GameStatus::Won } else { st0 },
                decreases 4 - r,
            {
                self.board[r][c] = new_col[r];
                r += 1;
            }
            c += 1;
        }
        moved
    }

    #[verifier::rlimit(30)]
    fn move_down(&mut self) -> (moved: bool)
        requires
            old(self).score + gain(old(self).board, Direction::Down, old(self).target_score as int) <= u32::MAX,
        ensures
            pushed(*old(self), *final(self), Direction::Down, moved),
    {
        let ghost b0 = self.board;
        let ghost s0 = self.score;
        let ghost st0 = self.status;
        let ghost t = self.target_score as int;
        let ghost d = Direction::Down;
        let mut moved = false;
        let mut c: usize = 0;
        while c < 4
            invariant
                c <= 4,
                d == Direction::Down,
                t == self.target_score,
                s0 + gain(b0, d, t) <= u32::MAX,
                forall|r2: int, c2: int| 0 <= r2 < 4 && 0 <= c2 < c ==> #[trigger] self.board[r2][c2] == slid_cell(b0, d, t, r2, c2),
                forall|r2: int, c2: int| 0 <= r2 < 4 && c <= c2 < 4 ==> #[trigger] self.board[r2][c2] == b0[r2][c2],
                self.score == s0 + gain_upto(b0, d, t, c as int),
                moved == moved_upto(b0, d, t, c as int),
                self.status == if won_upto(b0, d, t, c as int) { GameStatus::Won } else { st0 },
            decreases 4 - c,
        {
            let ghost line = line_of(b0, d, c as int);
            proof {
                lemma_gain_upto_mono(b0, d, t, c as int + 1, 4);
                lemma_gain_mono(line, t, 0, 4);
            }
            let mut new_col: [u32; 4] = [0; 4];
            let mut idx: usize = 3;
            let mut last_merged = false;
            let mut r: usize = 4;
            while r > 0
                invariant
                    c < 4, r <= 4,
                    d == Direction::Down,
                    t == self.target_score,
                    line == line_of(b0, d, c as int),
                    s0 + gain_upto(b0, d, t, c as int) + slide(line, t).gained <= u32::MAX,
                    forall|r2: int, c2: int| 0 <= r2 < 4 && 0 <= c2 < c ==> #[trigger] self.board[r2][c2] == slid_cell(b0, d, t, r2, c2),
                    forall|r2: int, c2: int| 0 <= r2 < 4 && c <= c2 < 4 ==> #[trigger] self.board[r2][c2] == b0[r2][c2],
                    forall|k: int| 0 <= k < 4 ==> new_col[3 - k] == #[trigger] slide_upto(line, t, (4 - r) as nat).out[k],
                    idx as int == if slide_upto(line, t, (4 - r) as nat).idx <= 3 { 3 - slide_upto(line, t, (4 - r) as nat).idx } else { 0 },
                    last_merged == slide_upto(line, t, (4 - r) as nat).last_merged,
                    self.score == s0 + gain_upto(b0, d, t, c as int) + slide_upto(line, t, (4 - r) as nat).gained,
                    moved == (moved_upto(b0, d, t, c as int) || slide_upto(line, t, (4 - r) as nat).moved),
                    self.status == if won_upto(b0, d, t, c as int) || slide_upto(line, t, (4 - r) as nat).won { GameStatus::Won } else { st0 },
                decreases r,
            {
                r -= 1;
                proof {
                    lemma_slide_shape(line, t, (3 - r) as nat);
                    lemma_gain_mono(line, t, (4 - r) as nat, 4);
                    assert(line[3 - r] == self.board[r as int][c as int]);
                }
                if self.board[r][c] != 0 {
                    if idx < 3 && new_col[idx + 1] == self.board[r][c] && !last_merged {
                        new_col[idx + 1] *= 2;
                        self.score += new_col[idx + 1];
                        last_merged = true;
                        moved = true;
                        if new_col[idx + 1] >= self.target_score {
                            self.status = GameStatus::Won;
                        }
                    } else {
                        new_col[idx] = self.board[r][c];
                        if r != idx {
                            moved = true;
                        }
                        if idx > 0 {
                            idx -= 1;
                        }
                        last_merged = false;
                    }
                }
            }
            let mut r: usize = 0;
            while r < 4
                invariant
                    c < 4, r <= 4,
                    d == Direction::Down,
                    forall|k: int| 0 <= k < 4 ==> new_col[k] == #[trigger] slide(line, t).out[3 - k],
                    line == line_of(b0, d, c as int),
                    forall|r2: int, c2: int| 0 <= r2 < 4 && 0 <= c2 < c ==> #[trigger] self.board[r2][c2] == slid_cell(b0, d, t, r2, c2),
                    forall|r2: int, c2: int| 0 <= r2 < 4 && c < c2 < 4 ==> #[trigger] self.board[r2][c2] == b0[r2][c2],
                    forall|r2: int| 0 <= r2 < r ==> #[trigger] self.board[r2][c as int] == slid_cell(b0, d, t, r2, c as int),
                    t == self.target_score,
                    self.score == s0 + gain_upto(b0, d, t, c as int + 1),
                    moved == moved_upto(b0, d, t, c as int + 1),
                    self.status == if won_upto(b0, d, t, c as int + 1) { GameStatus::Won } else { st0 },
                decreases 4 - r,
            {
                self.board[r][c] = new_col[r];
                r += 1;
            }
            c += 1;
        }
        moved
    }


    /// Places a 2 (or a 4 when `four`) on the empty cell that `roll` picks; the cells are
    /// counted in row-major order and `roll` is read as the fraction `roll / 2^32`.
    /// Returns false, changing nothing, when no cell is empty.
    fn spawn_tile(&mut self, roll: u32, four: bool) -> (placed: bool)
        ensures
            final(self).score == old(self).score,
            final(self).status == old(self).status,
            final(self).target_score == old(self).target_score,
            placed == (empties(cells(old(self).board)).len() > 0),
            cells(final(self).board) == spawned(cells(old(self).board), roll, four),
    {
        let ghost v = cells(self.board);
        let mut empty_cells: Vec<(usize, usize)> = Vec::new();
        let mut r: usize = 0;
        while r < 4
            invariant
                r <= 4,
                v == cells(self.board),
                empty_cells@ == empties_upto(v, r as int, 0),
            decreases 4 - r,
        {
            let mut c: usize = 0;
            while c < 4
                invariant
                    r < 4, c <= 4,
                    v == cells(self.board),
                    empty_cells@ == empties_upto(v, r as int, c as int),
                decreases 4 - c,
            {
                if self.board[r][c] == 0 {
                    empty_cells.push((r, c));
                }
                c += 1;
            }
            assert(empties_upto(v, r as int + 1, 0) == empties_upto(v, r as int, 4));
            r += 1;
        }
        if empty_cells.len() == 0 {
            assert(cells(self.board) =~= spawned(v, roll, four));
            return false;
        }
        proof {
            lemma_empties(v, 4, 0);
        }
        let n = empty_cells.len();
        assert(n <= 16) by {
            lemma_empties_len(v, 4, 0);
        }
        assert((roll as int * n as int) / 0x1_0000_0000 < n as int) by (nonlinear_arith)
            requires
                roll < 0x1_0000_0000,
                n > 0,
        ;
        let idx = ((roll as u64) * (n as u64) / 0x1_0000_0000u64) as usize;
        let val: u32 = if four { 4 } else { 2 };
        let (r, c) = empty_cells[idx];
        self.board[r][c] = val;
        assert(cells(self.board) =~= spawned(v, roll, four));
        true
    }

    /// Marks an active game as lost when no cell is empty and no two neighbours are equal.
    fn check_game_over(&mut self)
        ensures
            final(self).board == old(self).board,
            final(self).score == old(self).score,
            final(self).target_score == old(self).target_score,
            final(self).status == checked_status(old(self).status, cells(old(self).board)),
    {
        let ghost v = cells(self.board);
        if self.status != GameStatus::Active {
            return;
        }
        let mut r: usize = 0;
        while r < 4
            invariant
                r <= 4,
                v == cells(self.board),
                forall|r2: int, c2: int| 0 <= r2 < r && 0 <= c2 < 4 ==> #[trigger] v(r2, c2) != 0,
            decreases 4 - r,
        {
            let mut c: usize = 0;
            while c < 4
                invariant
                    r < 4, c <= 4,
                    v == cells(self.board),
                    forall|r2: int, c2: int| (0 <= r2 < r && 0 <= c2 < 4 || r2 == r && 0 <= c2 < c) ==> #[trigger] v(r2, c2) != 0,
                decreases 4 - c,
            {
                if self.board[r][c] == 0 {
                    assert(v(r as int, c as int) == 0);
                    return;
                }
                c += 1;
            }
            r += 1;
        }
        let mut r: usize = 0;
        while r < 4
            invariant
                r <= 4,
                v == cells(self.board),
                !has_empty(v),
                forall|r2: int, c2: int| 0 <= r2 < r && 0 <= c2 < 4 ==>
                    !((r2 < 3 && v(r2 + 1, c2) == #[trigger] v(r2, c2)) || (c2 < 3 && v(r2, c2 + 1) == v(r2, c2))),
            decreases 4 - r,
        {
            let mut c: usize = 0;
            while c < 4
                invariant
                    r < 4, c <= 4,
                    v == cells(self.board),
                    !has_empty(v),
                    forall|r2: int, c2: int| (0 <= r2 < r && 0 <= c2 < 4 || r2 == r && 0 <= c2 < c) ==>
                        !((r2 < 3 && v(r2 + 1, c2) == #[trigger] v(r2, c2)) || (c2 < 3 && v(r2, c2 + 1) == v(r2, c2))),
                decreases 4 - c,
            {
                let val = self.board[r][c];
                if r < 3 && self.board[r + 1][c] == val {
                    assert(v(r as int + 1, c as int) == v(r as int, c as int));
                    return;
                }
                if c < 3 && self.board[r][c + 1] == val {
                    assert(v(r as int, c as int + 1) == v(r as int, c as int));
                    return;
                }
                c += 1;
            }
            r += 1;
        }
        self.status = GameStatus::Lost;
    }


    /// A new game: two tiles placed by the draws `(roll1, four1)` and `(roll2, four2)`,
    /// as `spawn_tile` places them.
    pub fn new(roll1: u32, four1: bool, roll2: u32, four2: bool) -> (s: Self)
        ensures
            s.score == 0,
            s.status == GameStatus::Active,
            s.target_score == 2048,
            cells(s.board) == spawned(spawned(|r: int, c: int| 0int, roll1, four1), roll2, four2),
    {
        let mut state = Self { board: [[0; 4]; 4], score: 0, status: GameStatus::Active, target_score: 2048 };
        assert(cells(state.board) =~= |r: int, c: int| 0int);
        state.spawn_tile(roll1, four1);
        state.spawn_tile(roll2, four2);
        state
    }

    /// Pushes every line toward `direction` ("Up", "Down", "Left" or "Right"); when some tile
    /// moved, a new tile appears as `spawn_tile` places it and the game is checked for its end.
    /// Returns whether some tile moved.
    pub fn move_board(&mut self, direction: &str, roll: u32, four: bool) -> (res: Result<bool, &'static str>)
        requires
            old(self).status == GameStatus::Active && direction_of(direction@) is Some ==>
                old(self).score + gain(old(self).board, direction_of(direction@)->Some_0, old(self).target_score as int) <= u32::MAX,
        ensures
            old(self).status != GameStatus::Active ==> (res matches Err(e) && e@ == "Game is over"@) && *final(self) == *old(self),
            old(self).status == GameStatus::Active && direction_of(direction@) is None
                ==> (res matches Err(e) && e@ == "Invalid direction"@) && *final(self) == *old(self),
            old(self).status == GameStatus::Active && direction_of(direction@) is Some ==> {
                &&& res is Ok
                &&& final(self).target_score == old(self).target_score
                &&& after_move(old(self).board, old(self).score as int, old(self).status, old(self).target_score as int,
                    direction_of(direction@)->Some_0, roll, four, res->Ok_0,
                    final(self).board, final(self).score as int, final(self).status)
            },
    {
        if self.status != GameStatus::Active {
            return Err("Game is over");
        }
        let ghost old_state = *self;
        let ghost d: Direction;
        let moved = if same_text(direction, "Up") {
            proof { d = Direction::Up; }
            self.move_up()
        } else if same_text(direction, "Down") {
            proof { d = Direction::Down; }
            self.move_down()
        } else if same_text(direction, "Left") {
            proof { d = Direction::Left; }
            self.move_left()
        } else if same_text(direction, "Right") {
            proof { d = Direction::Right; }
            self.move_right()
        } else {
            return Err("Invalid direction");
        };
        proof {
            assert(d == direction_of(direction@)->Some_0);
            assert(cells(self.board) =~= slid_cells(old_state.board, d, old_state.target_score as int));
        }
        if moved {
            self.spawn_tile(roll, four);
            self.check_game_over();
        }
        Ok(moved)
    }

}

/// The score gained over more lines is at least that over fewer.
proof fn lemma_gain_upto_mono(b: Board, d: Direction, t: int, m: int, n: int)
    requires
        0 <= m <= n <= 4,
    ensures
        gain_upto(b, d, t, m) <= gain_upto(b, d, t, n),
        gain_upto(b, d, t, m) >= 0,
    decreases n,
{
    if m < n {
        lemma_gain_upto_mono(b, d, t, m, n - 1);
        lemma_slide_shape(line_of(b, d, n - 1), t, 4);
    } else if m > 0 {
        lemma_gain_upto_mono(b, d, t, m - 1, m - 1);
        lemma_slide_shape(line_of(b, d, m - 1), t, 4);
    }
}

/// At most sixteen cells are listed as empty.
proof fn lemma_empties_len(v: spec_fn(int, int) -> int, r: int, c: int)
    requires
        (0 <= r < 4 && 0 <= c <= 4) || (r == 4 && c == 0),
    ensures
        empties_upto(v, r, c).len() <= 4 * r + c,
    decreases r, c,
{
    if r <= 0 && c <= 0 {
    } else if c <= 0 {
        lemma_empties_len(v, r - 1, 4);
    } else {
        lemma_empties_len(v, r, c - 1);
    }
}

/// `move_up` is `move_left` on the transposed board: on games that differ only by
/// transposing the board, both report the same movement, reach the same score and status,
/// and leave boards that are each other's transpose.
pub proof fn lemma_up_is_left_transposed(s1: GameState, n1: GameState, m1: bool, s2: GameState, n2: GameState, m2: bool)
    requires
        forall|r: int, c: int| in_grid(r, c) ==> #[trigger] s2.board[r][c] == s1.board[c][r],
        s2.score == s1.score,
        s2.status == s1.status,
        s2.target_score == s1.target_score,
        pushed(s1, n1, Direction::Up, m1),
        pushed(s2, n2, Direction::Left, m2),
    ensures
        m1 == m2,
        forall|r: int, c: int| in_grid(r, c) ==> #[trigger] n1.board[r][c] == n2.board[c][r],
        n1.score == n2.score,
        n1.status == n2.status,
{
    let t = s1.target_score as int;
    lemma_up_is_transposed_left(s1.board, s2.board, t);
    assert forall|r: int, c: int| in_grid(r, c) implies #[trigger] n1.board[r][c] == n2.board[c][r] by {
        assert(n1.board[r][c] == slid_cell(s1.board, Direction::Up, t, r, c));
        assert(n2.board[c][r] == slid_cell(s2.board, Direction::Left, t, c, r));
    }
}

/// `move_right` is `move_left` on the mirrored board: on games that differ only by
/// mirroring each row, both report the same movement, reach the same score and status,
/// and leave boards that are each other's mirror.
pub proof fn lemma_right_is_left_mirrored(s1: GameState, n1: GameState, m1: bool, s2: GameState, n2: GameState, m2: bool)
    requires
        forall|r: int, c: int| in_grid(r, c) ==> #[trigger] s2.board[r][c] == s1.board[r][3 - c],
        s2.score == s1.score,
        s2.status == s1.status,
        s2.target_score == s1.target_score,
        pushed(s1, n1, Direction::Right, m1),
        pushed(s2, n2, Direction::Left, m2),
    ensures
        m1 == m2,
        forall|r: int, c: int| in_grid(r, c) ==> #[trigger] n1.board[r][c] == n2.board[r][3 - c],
        n1.score == n2.score,
        n1.status == n2.status,
{
    let t = s1.target_score as int;
    lemma_right_is_mirrored_left(s1.board, s2.board, t);
    assert forall|r: int, c: int| in_grid(r, c) implies #[trigger] n1.board[r][c] == n2.board[r][3 - c] by {
        assert(n1.board[r][c] == slid_cell(s1.board, Direction::Right, t, r, c));
        assert(n2.board[r][3 - c] == slid_cell(s2.board, Direction::Left, t, r, 3 - c));
    }
}

} // verus!
