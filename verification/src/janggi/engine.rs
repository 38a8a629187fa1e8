use vstd::prelude::*;
use super::board::{BoardGrid, Color};
use super::model::{all_moves, legal, on_board, pseudo_legal, valid_targets, MovePair};
use super::rules::{apply_move, get_best_move, initial_square, spec_status, status_text, GameState};
use super::search::best_upto;

verus! {

/// The answer to a move request: whether it was played, and why not if it was not.
pub struct MoveResponse {
    pub success: bool,
    pub message: String,
}

/// A janggi game between two players, played from the starting position.
pub struct GameEngine {
    state: GameState,
}

impl View for GameEngine {
    type V = GameState;

    closed spec fn view(&self) -> GameState {
        GameState { board: self.state.board, current_turn: self.state.current_turn }
    }
}

impl GameEngine {
    pub fn new() -> (e: GameEngine)
        ensures
            e@.current_turn == Color::Cho,
            forall|r: int, c: int| on_board(r, c) ==> #[trigger] e@.board[r][c] == initial_square(r, c),
    {
        GameEngine { state: GameState::new() }
    }

    /// The board, for display.
    pub fn get_board_state(&self) -> (b: BoardGrid)
        ensures
            b == self@.board,
    {
        self.state.board
    }

    /// The side to move, named as the chess interface names it: Han is "White", Cho "Black".
    pub fn get_current_turn(&self) -> (res: String)
        ensures
            res@ == (if self@.current_turn == Color::Han { "White"@ } else { "Black"@ }),
    {
        broadcast use vstd::string::to_string_from_display_ensures_for_str;
        let turn = match self.state.current_turn {
            Color::Han => "White",
            Color::Cho => "Black",
        };
        turn.to_string()
    }

    pub fn get_status(&self) -> (res: String)
        ensures
            res@ == status_text(spec_status(self@.board, self@.current_turn)),
    {
        self.state.get_status()
    }

    pub fn get_valid_moves(&self, row: usize, col: usize) -> (res: Vec<(usize, usize)>)
        requires
            row < 10,
            col < 9,
        ensures
            res@ == valid_targets(self@.board, self@.current_turn, row as int, col as int),
    {
        self.state.get_valid_moves(row, col)
    }

    /// Plays a move if it is legal, and says whether it was played.
    pub fn move_piece(&mut self, fr: usize, fc: usize, tr: usize, tc: usize) -> (res: MoveResponse)
        requires
            fr < 10, fc < 9, tr < 10, tc < 9,
        ensures
            res.success == legal(old(self)@.board, fr as int, fc as int, tr as int, tc as int),
            res.success ==> res.message@ == "Move successful"@
                && final(self)@ == apply_move(old(self)@, fr as int, fc as int, tr as int, tc as int),
            !res.success ==> final(self)@ == old(self)@,
            !pseudo_legal(old(self)@.board, fr as int, fc as int, tr as int, tc as int)
                ==> res.message@ == "Invalid move"@,
            pseudo_legal(old(self)@.board, fr as int, fc as int, tr as int, tc as int)
                && !res.success ==> res.message@ == "Move would put or leave general in check"@,
    {
        broadcast use vstd::string::to_string_from_display_ensures_for_str;
        match self.state.move_piece(fr, fc, tr, tc) {
            Ok(_) => MoveResponse { success: true, message: "Move successful".to_string() },
            Err(e) => MoveResponse { success: false, message: e.to_string() },
        }
    }

    /// Whether the side to move has a legal move.
    pub fn has_legal_moves(&self) -> (res: bool)
        ensures
            res == (all_moves(self@.board, self@.current_turn, self@.current_turn).len() > 0),
    {
        let moves = self.state.get_all_legal_moves(self.state.current_turn);
        moves.len() > 0
    }

    /// The move the search picks for the side to move at `depth` plies, if it has one.
    pub fn get_best_move(&self, depth: u8) -> (res: Option<MovePair>)
        requires
            depth >= 1 || all_moves(self@.board, self@.current_turn, self@.current_turn).len() == 0,
        ensures
            ({
                let moves = all_moves(self@.board, self@.current_turn, self@.current_turn);
                &&& moves.len() == 0 ==> res is None
                &&& moves.len() > 0 ==> res == best_upto(self@, moves, depth as nat, self@.current_turn == Color::Han, moves.len()).1
            }),
    {
        get_best_move(&self.state, depth, self.state.current_turn)
    }
}

} // verus!
