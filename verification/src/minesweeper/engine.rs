use vstd::prelude::*;
use super::board::{action_error, after_reveal, after_toggle, GameState};
use super::model::{grid, in_bounds, Cell, CellState, GameStatus};

verus! {

/// The answer to a reveal or flag request: whether it was accepted, and why not if it was not.
pub struct ActionResponse {
    pub success: bool,
    pub message: String,
}

/// The name under which a status is shown.
pub open spec fn status_text(s: GameStatus) -> Seq<char> {
    match s {
        GameStatus::Active => "Active"@,
        GameStatus::Won => "Won"@,
        GameStatus::Lost => "Lost"@,
    }
}

/// A game whose field has the size it claims, small enough to count, with room for its mines.
pub open spec fn engine_ok(s: GameState) -> bool {
    &&& s.wf()
    &&& s.rows * s.cols <= usize::MAX
    &&& s.total_mines <= s.rows * s.cols
}

/// A fresh game of the given size: every cell hidden, no mine laid yet.
pub open spec fn fresh(s: GameState, rows: int, cols: int, mines: int) -> bool {
    &&& s.rows == rows
    &&& s.cols == cols
    &&& s.total_mines == mines
    &&& s.status == GameStatus::Active
    &&& s.first_click
    &&& forall|r: int, c: int| in_bounds(rows, cols, r, c)
        ==> #[trigger] grid(s.board@)(r, c) == (Cell { is_mine: false, adjacent_mines: 0, state: CellState::Hidden })
}

/// A minesweeper game at one of three levels.
pub struct GameEngine {
    state: GameState,
}

impl View for GameEngine {
    type V = GameState;

    closed spec fn view(&self) -> GameState {
        self.state
    }
}

impl GameEngine {
    #[verifier::type_invariant]
    spec fn inv(self) -> bool {
        engine_ok(self.state)
    }

    /// A beginner game: 9 by 9 with 10 mines.
    pub fn new() -> (e: GameEngine)
        ensures
            engine_ok(e@),
            fresh(e@, 9, 9, 10),
    {
        GameEngine { state: GameState::new(9, 9, 10) }
    }

    /// A beginner game: 9 by 9 with 10 mines.
    pub fn new_beginner() -> (e: GameEngine)
        ensures
            engine_ok(e@),
            fresh(e@, 9, 9, 10),
    {
        GameEngine { state: GameState::new(9, 9, 10) }
    }

    /// An intermediate game: 16 by 16 with 40 mines.
    pub fn new_intermediate() -> (e: GameEngine)
        ensures
            engine_ok(e@),
            fresh(e@, 16, 16, 40),
    {
        GameEngine { state: GameState::new(16, 16, 40) }
    }

    /// An expert game: 16 rows of 30 cells with 99 mines.
    pub fn new_expert() -> (e: GameEngine)
        ensures
            engine_ok(e@),
            fresh(e@, 16, 30, 99),
    {
        GameEngine { state: GameState::new(16, 30, 99) }
    }

    /// The field, for display.
    pub fn get_board_state(&self) -> (b: &Vec<Vec<Cell>>)
        ensures
            *b == self@.board,
    {
        &self.state.board
    }

    /// The status by name: "Active", "Won" or "Lost".
    pub fn get_status(&self) -> (res: String)
        ensures
            res@ == status_text(self@.status),
    {
        broadcast use vstd::string::to_string_from_display_ensures_for_str;
        match self.state.status {
            GameStatus::Active => "Active".to_string(),
            GameStatus::Won => "Won".to_string(),
            GameStatus::Lost => "Lost".to_string(),
        }
    }

    /// Reveals (row, col) as `GameState::reveal_cell` does, with `draws` laying the mines
    /// on the first reveal.
    pub fn reveal_cell(&mut self, row: usize, col: usize, draws: &Vec<(u32, u32)>) -> (res: ActionResponse)
        ensures
            engine_ok(final(self)@),
            res.success == (action_error(old(self)@, row as int, col as int) is None),
            res.success ==> res.message@ == "Reveal successful"@,
            !res.success ==> res.message@ == action_error(old(self)@, row as int, col as int)->Some_0,
            after_reveal(old(self)@, final(self)@, row as int, col as int, draws@),
    {
        broadcast use vstd::string::to_string_from_display_ensures_for_str;
        proof {
            use_type_invariant(&*self);
        }
        let mut next = GameState::new(0, 0, 0);
        std::mem::swap(&mut next, &mut self.state);
        let res = next.reveal_cell(row, col, draws);
        self.state = next;
        match res {
            Ok(_) => ActionResponse { success: true, message: "Reveal successful".to_string() },
            Err(e) => ActionResponse { success: false, message: e.to_string() },
        }
    }

    /// Flags or unflags (row, col) as `GameState::toggle_flag` does.
    pub fn toggle_flag(&mut self, row: usize, col: usize) -> (res: ActionResponse)
        ensures
            engine_ok(final(self)@),
            res.success == (action_error(old(self)@, row as int, col as int) is None),
            res.success ==> res.message@ == "Flag toggled"@,
            !res.success ==> res.message@ == action_error(old(self)@, row as int, col as int)->Some_0,
            after_toggle(old(self)@, final(self)@, row as int, col as int),
    {
        broadcast use vstd::string::to_string_from_display_ensures_for_str;
        proof {
            use_type_invariant(&*self);
        }
        let mut next = GameState::new(0, 0, 0);
        std::mem::swap(&mut next, &mut self.state);
        let res = next.toggle_flag(row, col);
        self.state = next;
        match res {
            Ok(_) => ActionResponse { success: true, message: "Flag toggled".to_string() },
            Err(e) => ActionResponse { success: false, message: e.to_string() },
        }
    }
}

} // verus!
