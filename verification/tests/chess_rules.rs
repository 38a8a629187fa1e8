use wasm_games::chess::board::{BoardGrid, Color, Piece, PieceType};
use wasm_games::chess::engine::GameEngine;
use wasm_games::chess::rules::{get_best_move, minimax, GameState};

fn empty_board() -> BoardGrid {
    [[None; 8]; 8]
}

fn piece(t: PieceType, c: Color) -> Option<Piece> {
    Some(Piece::new(t, c))
}

#[test]
fn piece_new_has_not_moved() {
    let p = Piece::new(PieceType::Knight, Color::Black);
    assert_eq!(p.piece_type, PieceType::Knight);
    assert_eq!(p.color, Color::Black);
    assert!(!p.has_moved);
}

#[test]
fn starting_position_layout() {
    let s = GameState::new();
    assert_eq!(s.current_turn, Color::White);
    assert_eq!(s.board[0][4], piece(PieceType::King, Color::Black));
    assert_eq!(s.board[7][4], piece(PieceType::King, Color::White));
    assert_eq!(s.board[7][3], piece(PieceType::Queen, Color::White));
    assert_eq!(s.board[0][0], piece(PieceType::Rook, Color::Black));
    assert_eq!(s.board[7][6], piece(PieceType::Knight, Color::White));
    assert_eq!(s.board[0][2], piece(PieceType::Bishop, Color::Black));
    for c in 0..8 {
        assert_eq!(s.board[1][c], piece(PieceType::Pawn, Color::Black));
        assert_eq!(s.board[6][c], piece(PieceType::Pawn, Color::White));
        for r in 2..6 {
            assert_eq!(s.board[r][c], None);
        }
    }
}

#[test]
fn pawn_opening_moves() {
    let s = GameState::new();
    assert_eq!(s.get_valid_moves(6, 4), vec![(4, 4), (5, 4)]);
}

#[test]
fn knight_opening_moves() {
    let s = GameState::new();
    assert_eq!(s.get_valid_moves(7, 1), vec![(5, 0), (5, 2)]);
}

#[test]
fn pieces_of_the_side_not_to_move_have_no_moves() {
    let s = GameState::new();
    assert_eq!(s.get_valid_moves(1, 4), vec![]);
    assert_eq!(s.get_valid_moves(4, 4), vec![]);
}

#[test]
fn twenty_opening_moves_for_white() {
    let s = GameState::new();
    assert_eq!(s.get_all_legal_moves(Color::White).len(), 20);
}

#[test]
fn pattern_check_ignores_king_safety() {
    let s = GameState::new();
    assert!(s.is_valid_move(6, 4, 4, 4));
    assert!(!s.is_valid_move(6, 4, 3, 4));
    assert!(!s.is_valid_move(7, 0, 5, 0));
    assert!(!s.is_valid_move(1, 4, 3, 4));
}

#[test]
fn move_that_breaks_the_pattern_is_refused() {
    let mut s = GameState::new();
    assert_eq!(s.move_piece(6, 4, 3, 4), Err("Invalid move"));
    assert_eq!(s.current_turn, Color::White);
    assert_eq!(s.board[6][4], piece(PieceType::Pawn, Color::White));
}

#[test]
fn pinned_piece_cannot_leave_the_king() {
    let mut s = GameState { board: empty_board(), current_turn: Color::White };
    s.board[7][4] = piece(PieceType::King, Color::White);
    s.board[6][4] = piece(PieceType::Rook, Color::White);
    s.board[0][4] = piece(PieceType::Rook, Color::Black);
    s.board[0][0] = piece(PieceType::King, Color::Black);
    assert!(s.would_be_in_check(6, 4, 6, 0));
    assert!(!s.would_be_in_check(6, 4, 3, 4));
    assert_eq!(s.move_piece(6, 4, 6, 0), Err("Move would put or leave king in check"));
    assert_eq!(s.board[6][4], piece(PieceType::Rook, Color::White));
}

#[test]
fn played_move_marks_the_piece_and_passes_the_turn() {
    let mut s = GameState::new();
    assert_eq!(s.move_piece(6, 4, 4, 4), Ok(()));
    assert_eq!(s.board[6][4], None);
    assert_eq!(s.board[4][4], Some(Piece { piece_type: PieceType::Pawn, color: Color::White, has_moved: true }));
    assert_eq!(s.current_turn, Color::Black);
}

#[test]
fn rook_captures_along_a_clear_rank() {
    let mut s = GameState { board: empty_board(), current_turn: Color::White };
    s.board[7][4] = piece(PieceType::King, Color::White);
    s.board[0][4] = piece(PieceType::King, Color::Black);
    s.board[4][4] = piece(PieceType::Rook, Color::White);
    s.board[4][7] = piece(PieceType::Pawn, Color::Black);
    let moves = s.get_valid_moves(4, 4);
    assert!(moves.contains(&(4, 7)));
    assert!(moves.contains(&(1, 4)));
    assert!(moves.contains(&(0, 4)));
    assert!(!moves.contains(&(7, 4)));
    assert_eq!(moves.len(), 13);
}

#[test]
fn fools_mate_is_checkmate() {
    let mut s = GameState::new();
    assert_eq!(s.get_status(), "Active");
    assert_eq!(s.move_piece(6, 5, 5, 5), Ok(()));
    assert_eq!(s.move_piece(1, 4, 3, 4), Ok(()));
    assert_eq!(s.move_piece(6, 6, 4, 6), Ok(()));
    assert_eq!(s.move_piece(0, 3, 4, 7), Ok(()));
    assert!(s.is_in_check(Color::White));
    assert!(!s.is_in_check(Color::Black));
    assert_eq!(s.get_all_legal_moves(Color::White).len(), 0);
    assert_eq!(s.get_status(), "Checkmate: Black Wins");
}

#[test]
fn cornered_king_without_moves_is_stalemate() {
    let mut s = GameState { board: empty_board(), current_turn: Color::Black };
    s.board[0][0] = piece(PieceType::King, Color::Black);
    s.board[2][1] = piece(PieceType::Queen, Color::White);
    s.board[7][7] = piece(PieceType::King, Color::White);
    assert!(!s.is_in_check(Color::Black));
    assert_eq!(s.get_status(), "Stalemate: Draw");
}

#[test]
fn missing_king_ends_the_game() {
    let mut s = GameState { board: empty_board(), current_turn: Color::White };
    s.board[0][4] = piece(PieceType::King, Color::Black);
    assert_eq!(s.get_status(), "White King Captured: Black Wins");
    let mut t = GameState { board: empty_board(), current_turn: Color::Black };
    t.board[7][4] = piece(PieceType::King, Color::White);
    assert_eq!(t.get_status(), "Black King Captured: White Wins");
    s.board[7][4] = piece(PieceType::King, Color::White);
    s.board[0][4] = None;
    assert_eq!(s.get_status(), "Black King Captured: White Wins");
}

#[test]
fn material_is_balanced_at_the_start() {
    let s = GameState::new();
    assert_eq!(s.evaluate(), 0);
}

#[test]
fn material_counts_piece_values() {
    let mut s = GameState::new();
    s.board[0][3] = None;
    assert_eq!(s.evaluate(), 90);
    s.board[7][0] = None;
    s.board[6][0] = None;
    assert_eq!(s.evaluate(), 30);
    s.board[0][1] = None;
    assert_eq!(s.evaluate(), 60);
}

#[test]
fn search_at_depth_zero_is_the_evaluation() {
    let mut s = GameState::new();
    s.board[0][3] = None;
    assert_eq!(minimax(&mut s, 0, i32::MIN, i32::MAX, true), 90);
    assert_eq!(s.board[0][4], piece(PieceType::King, Color::Black));
}

#[test]
fn search_scores_a_mate() {
    let mut s = GameState::new();
    s.move_piece(6, 5, 5, 5).unwrap();
    s.move_piece(1, 4, 3, 4).unwrap();
    s.move_piece(6, 6, 4, 6).unwrap();
    s.move_piece(0, 3, 4, 7).unwrap();
    assert_eq!(minimax(&mut s, 2, i32::MIN, i32::MAX, true), -10000);
}

#[test]
fn best_move_takes_a_hanging_queen() {
    let mut s = GameState { board: empty_board(), current_turn: Color::White };
    s.board[7][4] = piece(PieceType::King, Color::White);
    s.board[0][4] = piece(PieceType::King, Color::Black);
    s.board[4][0] = piece(PieceType::Rook, Color::White);
    s.board[4][7] = piece(PieceType::Queen, Color::Black);
    assert_eq!(get_best_move(&s, 1, Color::White), Some(((4, 0), (4, 7))));
}

#[test]
fn best_move_is_none_without_moves() {
    let mut s = GameState::new();
    s.move_piece(6, 5, 5, 5).unwrap();
    s.move_piece(1, 4, 3, 4).unwrap();
    s.move_piece(6, 6, 4, 6).unwrap();
    s.move_piece(0, 3, 4, 7).unwrap();
    assert_eq!(get_best_move(&s, 2, Color::White), None);
}

#[test]
fn engine_plays_and_refuses_moves() {
    let mut e = GameEngine::new();
    assert_eq!(e.get_current_turn(), Color::White);
    assert_eq!(e.get_status(), "Active");
    assert_eq!(e.get_valid_moves(6, 0), vec![(4, 0), (5, 0)]);
    let r = e.move_piece(6, 0, 3, 0);
    assert!(!r.success);
    assert_eq!(r.message, "Invalid move");
    let r = e.move_piece(6, 0, 4, 0);
    assert!(r.success);
    assert_eq!(r.message, "Move successful");
    assert_eq!(e.get_current_turn(), Color::Black);
    assert_eq!(e.get_board_state()[4][0], Some(Piece { piece_type: PieceType::Pawn, color: Color::White, has_moved: true }));
}

#[test]
fn engine_refuses_a_move_into_check() {
    let mut e = GameEngine::new();
    assert!(e.move_piece(6, 4, 4, 4).success);
    assert!(e.move_piece(1, 3, 3, 3).success);
    assert!(e.move_piece(7, 3, 3, 7).success);
    // The black f-pawn is pinned against its king by the queen on h5.
    let r = e.move_piece(1, 5, 2, 5);
    assert!(!r.success);
    assert_eq!(r.message, "Move would put or leave king in check");
    assert_eq!(e.get_current_turn(), Color::Black);
}

/// Plain minimax without pruning, built from the library's own moves and scores.
fn plain_minimax(s: &GameState, depth: u8, maximizing: bool) -> i32 {
    let status = s.get_status();
    if status.contains("Black Wins") {
        return -10000;
    }
    if status.contains("White Wins") {
        return 10000;
    }
    if status.contains("Draw") {
        return 0;
    }
    if depth == 0 {
        return s.evaluate();
    }
    let color = if maximizing { Color::White } else { Color::Black };
    let mut best = if maximizing { i32::MIN } else { i32::MAX };
    for ((fr, fc), (tr, tc)) in s.get_all_legal_moves(color) {
        let mut next = GameState { board: s.board, current_turn: s.current_turn };
        if next.move_piece(fr, fc, tr, tc).is_ok() {
            let v = plain_minimax(&next, depth - 1, !maximizing);
            best = if maximizing { best.max(v) } else { best.min(v) };
        }
    }
    best
}

/// The value of the first line of play: each side plays its first listed move.
fn first_line(s: &GameState, depth: u8, maximizing: bool) -> i32 {
    let status = s.get_status();
    if status.contains("Black Wins") {
        return -10000;
    }
    if status.contains("White Wins") {
        return 10000;
    }
    if status.contains("Draw") {
        return 0;
    }
    if depth == 0 {
        return s.evaluate();
    }
    let color = if maximizing { Color::White } else { Color::Black };
    match s.get_all_legal_moves(color).first() {
        None => if maximizing { i32::MIN } else { i32::MAX },
        Some(&((fr, fc), (tr, tc))) => {
            let mut next = GameState { board: s.board, current_turn: s.current_turn };
            next.move_piece(fr, fc, tr, tc).unwrap();
            first_line(&next, depth - 1, !maximizing)
        },
    }
}

fn open_position() -> GameState {
    let mut s = GameState::new();
    s.move_piece(6, 4, 4, 4).unwrap();
    s.move_piece(1, 3, 3, 3).unwrap();
    s
}

#[test]
fn full_window_search_is_plain_minimax() {
    let mut s = open_position();
    let expected = plain_minimax(&s, 2, true);
    assert_eq!(minimax(&mut s, 2, i32::MIN, i32::MAX, true), expected);
    let mut t = GameState::new();
    let expected = plain_minimax(&t, 2, true);
    assert_eq!(minimax(&mut t, 2, i32::MIN, i32::MAX, true), expected);
}

#[test]
fn narrow_window_search_bounds_the_value() {
    let mut s = open_position();
    let v = plain_minimax(&s, 2, true);
    let r = minimax(&mut s, 2, v + 5, v + 50, true);
    assert!(r <= v + 5 && v <= r);
    let r = minimax(&mut s, 2, v - 50, v - 5, true);
    assert!(r >= v - 5 && v >= r);
}

#[test]
fn empty_window_search_follows_the_first_line() {
    let mut s = open_position();
    let expected = first_line(&s, 3, true);
    assert_eq!(minimax(&mut s, 3, 7, 7, true), expected);
    assert_eq!(minimax(&mut s, 2, 100, -100, true), first_line(&s, 2, true));
}

#[test]
fn listed_moves_are_exactly_the_playable_ones() {
    let s = open_position();
    for (r, c) in [(7, 3), (7, 5), (4, 4), (7, 4), (6, 3)] {
        let listed = s.get_valid_moves(r, c);
        for tr in 0..8 {
            for tc in 0..8 {
                let mut t = GameState { board: s.board, current_turn: s.current_turn };
                assert_eq!(t.move_piece(r, c, tr, tc).is_ok(), listed.contains(&(tr, tc)));
            }
        }
    }
}

#[test]
fn a_finished_game_scores_exactly_whatever_the_window() {
    let mut s = GameState::new();
    s.move_piece(6, 5, 5, 5).unwrap();
    s.move_piece(1, 4, 3, 4).unwrap();
    s.move_piece(6, 6, 4, 6).unwrap();
    s.move_piece(0, 3, 4, 7).unwrap();
    assert_eq!(minimax(&mut s, 3, 0, 5, true), -10000);
    assert_eq!(minimax(&mut s, 0, 100, -100, false), -10000);
    let mut t = GameState::new();
    assert_eq!(minimax(&mut t, 0, 50, 60, true), 0);
}

#[test]
fn a_played_move_leaves_the_mover_out_of_check() {
    let mut s = open_position();
    for (fr, fc, tr, tc) in [(7, 5, 3, 1), (4, 4, 3, 3), (7, 3, 3, 7)] {
        let mut t = GameState { board: s.board, current_turn: s.current_turn };
        if t.move_piece(fr, fc, tr, tc).is_ok() {
            assert!(!t.is_in_check(Color::White));
        }
    }
    s.move_piece(7, 5, 3, 1).unwrap();
    // Black is in check from the bishop on b5 and every answer leaves the king safe.
    assert!(s.is_in_check(Color::Black));
    for ((fr, fc), (tr, tc)) in s.get_all_legal_moves(Color::Black) {
        let mut t = GameState { board: s.board, current_turn: s.current_turn };
        t.move_piece(fr, fc, tr, tc).unwrap();
        assert!(!t.is_in_check(Color::Black));
    }
}

#[test]
fn the_best_move_is_the_first_of_best_value() {
    let s = open_position();
    let moves = s.get_all_legal_moves(Color::White);
    let values: Vec<i32> = moves
        .iter()
        .map(|&((fr, fc), (tr, tc))| {
            let mut t = GameState { board: s.board, current_turn: s.current_turn };
            t.move_piece(fr, fc, tr, tc).unwrap();
            plain_minimax(&t, 1, false)
        })
        .collect();
    let best = *values.iter().max().unwrap();
    let first = values.iter().position(|v| *v == best).unwrap();
    assert_eq!(get_best_move(&s, 2, Color::White), Some(moves[first]));
    assert_eq!(get_best_move(&s, 2, Color::Black), None);
}

#[test]
fn listed_squares_come_in_row_major_order() {
    let s = open_position();
    for r in 0..8 {
        for c in 0..8 {
            let listed = s.get_valid_moves(r, c);
            for w in listed.windows(2) {
                assert!(w[0] < w[1]);
            }
        }
    }
    assert_eq!(GameState::new().get_valid_moves(7, 6), vec![(5, 5), (5, 7)]);
}

#[test]
fn a_side_can_move_exactly_when_its_move_list_is_not_empty() {
    let s = GameState::new();
    assert!(!s.get_all_legal_moves(Color::White).is_empty());
    assert_eq!(s.get_status(), "Active");
    let mut b = empty_board();
    b[0][0] = piece(PieceType::King, Color::Black);
    b[2][1] = piece(PieceType::Queen, Color::White);
    b[7][7] = piece(PieceType::King, Color::White);
    let t = GameState { board: b, current_turn: Color::Black };
    assert!(t.get_all_legal_moves(Color::Black).is_empty());
    assert_eq!(t.get_status(), "Stalemate: Draw");
}
