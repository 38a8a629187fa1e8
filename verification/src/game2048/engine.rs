use vstd::prelude::*;
use super::game::GameState;
use super::model::{
    after_move, any_moved, any_won, cells, cells_sum, checked_status, direction_of, gain, in_grid,
    lemma_push_below, lemma_push_frees, lemma_push_sum, lemma_push_unmoved, lemma_push_unmoved_gain,
    lemma_spawn_sum, slid_cells, spawned, Board, GameStatus,
};

verus! {

/// The answer to a move request: whether the request was accepted, why not if it was
/// not, and whether some tile moved.
pub struct MoveResponse {
    pub success: bool,
    pub message: String,
    pub moved: bool,
}

/// The name under which a status is shown.
pub open spec fn status_text(s: GameStatus) -> Seq<char> {
    match s {
        GameStatus::Active => "Active"@,
        GameStatus::Won => "Won"@,
        GameStatus::Lost => "Lost"@,
    }
}

/// What holds of every game reached by play from a new one: the target is 2048, no tile
/// of a game still going has reached it, and the score is at most a quarter of the
/// square of the sum of the tiles (each merge gains at most that sum, and a move that
/// gains anything frees a cell, so the new tile raises the sum by at least two).
pub open spec fn engine_ok(s: GameState) -> bool {
    let total = cells_sum(cells(s.board));
    &&& s.target_score == 2048
    &&& s.status == GameStatus::Active ==> forall|r: int, c: int| in_grid(r, c) ==> #[trigger] s.board[r][c] < 2048
    &&& 4 * s.score <= total * total
}

/// In a game reached by play, a move can never overflow the score.
proof fn lemma_score_room(s: GameState, d: super::model::Direction)
    requires
        engine_ok(s),
        s.status == GameStatus::Active,
    ensures
        s.score + gain(s.board, d, s.target_score as int) <= u32::MAX,
{
    let v = cells(s.board);
    let total = cells_sum(v);
    assert forall|r: int, c: int| in_grid(r, c) implies 0 <= #[trigger] v(r, c) < 2048 by {
        assert(s.board[r][c] < 2048);
    }
    assert(v(0, 0) < 2048 && v(0, 1) < 2048 && v(0, 2) < 2048 && v(0, 3) < 2048);
    assert(v(1, 0) < 2048 && v(1, 1) < 2048 && v(1, 2) < 2048 && v(1, 3) < 2048);
    assert(v(2, 0) < 2048 && v(2, 1) < 2048 && v(2, 2) < 2048 && v(2, 3) < 2048);
    assert(v(3, 0) < 2048 && v(3, 1) < 2048 && v(3, 2) < 2048 && v(3, 3) < 2048);
    assert(0 <= total <= 32752);
    lemma_push_sum(s.board, d, s.target_score as int);
    assert(total * total <= 32752 * 32752) by (nonlinear_arith)
        requires
            0 <= total <= 32752,
    ;
}

/// One move keeps what holds of every game reached by play.
proof fn lemma_move_ok(old: GameState, new: GameState, d: super::model::Direction, roll: u32, four: bool, moved: bool)
    requires
        engine_ok(old),
        old.status == GameStatus::Active,
        new.target_score == old.target_score,
        after_move(old.board, old.score as int, old.status, old.target_score as int, d, roll, four, moved,
            new.board, new.score as int, new.status),
    ensures
        engine_ok(new),
{
    let t = old.target_score as int;
    let v = slid_cells(old.board, d, t);
    let g = gain(old.board, d, t);
    let s0 = cells_sum(cells(old.board));
    let s1 = cells_sum(cells(new.board));
    lemma_push_sum(old.board, d, t);
    if moved {
        lemma_spawn_sum(v, roll, four);
        if g > 0 {
            lemma_push_frees(old.board, d, t);
            assert(s1 >= s0 + 2);
            assert(4 * (old.score + g) <= s1 * s1) by (nonlinear_arith)
                requires
                    4 * old.score <= s0 * s0,
                    0 <= g <= s0,
                    s1 >= s0 + 2,
            ;
        } else {
            assert(s1 >= s0);
            assert(4 * old.score <= s1 * s1) by (nonlinear_arith)
                requires
                    4 * old.score <= s0 * s0,
                    0 <= s0 <= s1,
            ;
        }
        if new.status == GameStatus::Active {
            lemma_push_below(old.board, d, t);
            assert forall|r: int, c: int| in_grid(r, c) implies #[trigger] new.board[r][c] < 2048 by {
                assert(cells(new.board)(r, c) == spawned(v, roll, four)(r, c));
                assert(v(r, c) < 2048);
            }
        }
    } else {
        lemma_push_unmoved(old.board, d, t);
        lemma_push_unmoved_gain(old.board, d, t);
        assert(cells(new.board) == cells(old.board));
        if new.status == GameStatus::Active {
            assert forall|r: int, c: int| in_grid(r, c) implies #[trigger] new.board[r][c] < 2048 by {
                assert(cells(new.board)(r, c) == cells(old.board)(r, c));
                assert(old.board[r][c] < 2048);
            }
        }
    }
}

/// A 2048 game on a four by four board, played until a tile reaches 2048 or no move is left.
pub struct GameEngine {
    state: GameState,
}

impl View for GameEngine {
    type V = GameState;

    closed spec fn view(&self) -> GameState {
        self.state
    }
}

impl GameEngine {
    #[verifier::type_invariant]
    spec fn inv(self) -> bool {
        engine_ok(self.state)
    }

    /// A new game, with two tiles placed by the draws `(roll1, four1)` and `(roll2, four2)`
    /// as `GameState::new` places them.
    pub fn new(roll1: u32, four1: bool, roll2: u32, four2: bool) -> (e: GameEngine)
        ensures
            engine_ok(e@),
            e@.score == 0,
            e@.status == GameStatus::Active,
            e@.target_score == 2048,
            cells(e@.board) == spawned(spawned(|r: int, c: int| 0int, roll1, four1), roll2, four2),
    {
        let state = GameState::new(roll1, four1, roll2, four2);
        proof {
            let z = |r: int, c: int| 0int;
            let v1 = spawned(z, roll1, four1);
            let v2 = spawned(v1, roll2, four2);
            lemma_spawn_sum(z, roll1, four1);
            lemma_spawn_sum(v1, roll2, four2);
            assert forall|r: int, c: int| in_grid(r, c) implies #[trigger] state.board[r][c] < 2048 by {
                assert(cells(state.board)(r, c) == v2(r, c));
                assert(v2(r, c) == v1(r, c) || v2(r, c) == (if four2 { 4int } else { 2int }));
                assert(v1(r, c) == z(r, c) || v1(r, c) == (if four1 { 4int } else { 2int }));
            }
            let total = cells_sum(cells(state.board));
            assert(total * total >= 0) by (nonlinear_arith);
        }
        GameEngine { state }
    }

    /// The board, for display.
    pub fn get_board_state(&self) -> (b: Board)
        ensures
            b == self@.board,
    {
        self.state.board
    }

    pub fn get_score(&self) -> (s: u32)
        ensures
            s == self@.score,
    {
        self.state.score
    }

    /// The status by name: "Active", "Won" or "Lost".
    pub fn get_status(&self) -> (res: String)
        ensures
            res@ == status_text(self@.status),
    {
        broadcast use vstd::string::to_string_from_display_ensures_for_str;
        match self.state.status {
            GameStatus::Active => "Active".to_string(),
            GameStatus::Won => "Won".to_string(),
            GameStatus::Lost => "Lost".to_string(),
        }
    }

    /// Pushes the tiles toward `direction` ("Up", "Down", "Left" or "Right") as
    /// `GameState::move_board` does, with `(roll, four)` placing the new tile.
    pub fn execute_move(&mut self, direction: &str, roll: u32, four: bool) -> (res: MoveResponse)
        ensures
            engine_ok(final(self)@),
            old(self)@.status != GameStatus::Active ==> {
                &&& !res.success && !res.moved && res.message@ == "Game is over"@
                &&& final(self)@ == old(self)@
            },
            old(self)@.status == GameStatus::Active && direction_of(direction@) is None ==> {
                &&& !res.success && !res.moved && res.message@ == "Invalid direction"@
                &&& final(self)@ == old(self)@
            },
            old(self)@.status == GameStatus::Active && direction_of(direction@) is Some ==> {
                &&& res.success && res.message@ == "Move executed"@
                &&& final(self)@.target_score == old(self)@.target_score
                &&& after_move(old(self)@.board, old(self)@.score as int, old(self)@.status,
                    old(self)@.target_score as int, direction_of(direction@)->Some_0, roll, four, res.moved,
                    final(self)@.board, final(self)@.score as int, final(self)@.status)
            },
    {
        broadcast use vstd::string::to_string_from_display_ensures_for_str;
        proof {
            use_type_invariant(&*self);
        }
        let ghost old_state = self.state;
        let mut next = GameState {
            board: self.state.board,
            score: self.state.score,
            status: self.state.status,
            target_score: self.state.target_score,
        };
        proof {
            if old_state.status == GameStatus::Active && direction_of(direction@) is Some {
                lemma_score_room(old_state, direction_of(direction@)->Some_0);
            }
        }
        match next.move_board(direction, roll, four) {
            Ok(moved) => {
                proof {
                    lemma_move_ok(old_state, next, direction_of(direction@)->Some_0, roll, four, moved);
                }
                self.state = next;
                MoveResponse { success: true, message: "Move executed".to_string(), moved }
            },
            Err(e) => MoveResponse { success: false, message: e.to_string(), moved: false },
        }
    }
}

} // verus!
