use wasm_games::janggi::board::{BoardGrid, Color, Piece, PieceType};
use wasm_games::janggi::engine::GameEngine;
use wasm_games::janggi::rules::{get_best_move, minimax, GameState};

fn empty_board() -> BoardGrid {
    [[None; 9]; 10]
}

fn piece(t: PieceType, c: Color) -> Option<Piece> {
    Some(Piece::new(t, c))
}

#[test]
fn janggi_piece_new_has_not_moved() {
    let p = Piece::new(PieceType::Cannon, Color::Han);
    assert_eq!(p.piece_type, PieceType::Cannon);
    assert_eq!(p.color, Color::Han);
    assert!(!p.has_moved);
}

#[test]
fn opposite_swaps_sides() {
    assert_eq!(Color::Han.opposite(), Color::Cho);
    assert_eq!(Color::Cho.opposite(), Color::Han);
    assert_eq!(Color::Cho.opposite().opposite(), Color::Cho);
}

#[test]
fn janggi_starting_position_layout() {
    let s = GameState::new();
    assert_eq!(s.current_turn, Color::Cho);
    assert_eq!(s.board[1][4], piece(PieceType::General, Color::Han));
    assert_eq!(s.board[8][4], piece(PieceType::General, Color::Cho));
    assert_eq!(s.board[0][0], piece(PieceType::Chariot, Color::Han));
    assert_eq!(s.board[9][1], piece(PieceType::Horse, Color::Cho));
    assert_eq!(s.board[9][2], piece(PieceType::Elephant, Color::Cho));
    assert_eq!(s.board[0][3], piece(PieceType::Advisor, Color::Han));
    assert_eq!(s.board[2][7], piece(PieceType::Cannon, Color::Han));
    assert_eq!(s.board[7][1], piece(PieceType::Cannon, Color::Cho));
    assert_eq!(s.board[6][4], piece(PieceType::Soldier, Color::Cho));
    assert_eq!(s.board[3][8], piece(PieceType::Soldier, Color::Han));
    assert_eq!(s.board[0][4], None);
    assert_eq!(s.board[3][1], None);
    assert_eq!(s.board[5][4], None);
}

#[test]
fn soldier_goes_forward_or_sideways() {
    let s = GameState::new();
    assert_eq!(s.get_valid_moves(6, 0), vec![(5, 0), (6, 1)]);
}

#[test]
fn chariot_stops_before_its_own_soldier() {
    let s = GameState::new();
    assert_eq!(s.get_valid_moves(9, 0), vec![(7, 0), (8, 0)]);
}

#[test]
fn horse_is_blocked_by_an_adjacent_piece() {
    let s = GameState::new();
    assert_eq!(s.get_valid_moves(9, 1), vec![(7, 0), (7, 2)]);
}

#[test]
fn cannon_needs_a_screen() {
    let s = GameState::new();
    assert_eq!(s.get_valid_moves(7, 1), vec![]);
}

#[test]
fn cannon_jumps_over_one_screen_but_not_over_a_cannon() {
    let mut s = GameState { board: empty_board(), current_turn: Color::Cho };
    s.board[8][4] = piece(PieceType::General, Color::Cho);
    s.board[1][4] = piece(PieceType::General, Color::Han);
    s.board[5][0] = piece(PieceType::Cannon, Color::Cho);
    s.board[5][2] = piece(PieceType::Soldier, Color::Han);
    s.board[5][5] = piece(PieceType::Horse, Color::Han);
    s.board[3][0] = piece(PieceType::Cannon, Color::Han);
    assert!(s.is_pseudo_legal(5, 0, 5, 3));
    assert!(s.is_pseudo_legal(5, 0, 5, 5));
    assert!(!s.is_pseudo_legal(5, 0, 5, 6));
    assert!(!s.is_pseudo_legal(5, 0, 5, 1));
    assert!(!s.is_pseudo_legal(5, 0, 3, 0));
    assert!(!s.is_pseudo_legal(5, 0, 2, 0));
}

#[test]
fn general_stays_in_its_palace() {
    let s = GameState::new();
    assert!(s.is_pseudo_legal(8, 4, 7, 4));
    assert!(s.is_pseudo_legal(8, 4, 7, 3));
    assert!(!s.is_pseudo_legal(8, 4, 6, 4));
    assert!(s.is_pseudo_legal(8, 4, 9, 4));
    assert!(!s.is_pseudo_legal(8, 4, 8, 4));
}

#[test]
fn janggi_invalid_move_is_refused() {
    let mut s = GameState::new();
    assert_eq!(s.move_piece(9, 0, 5, 0), Err("Invalid move"));
    assert_eq!(s.current_turn, Color::Cho);
}

#[test]
fn move_exposing_the_general_is_refused() {
    let mut s = GameState { board: empty_board(), current_turn: Color::Cho };
    s.board[8][4] = piece(PieceType::General, Color::Cho);
    s.board[7][4] = piece(PieceType::Chariot, Color::Cho);
    s.board[3][4] = piece(PieceType::Chariot, Color::Han);
    s.board[1][3] = piece(PieceType::General, Color::Han);
    assert!(s.is_valid_move(7, 4, 7, 0));
    assert!(s.would_be_in_check(7, 4, 7, 0));
    assert_eq!(s.move_piece(7, 4, 7, 0), Err("Move would put or leave general in check"));
    assert_eq!(s.move_piece(7, 4, 4, 4), Ok(()));
    assert_eq!(s.board[4][4], Some(Piece { piece_type: PieceType::Chariot, color: Color::Cho, has_moved: true }));
    assert_eq!(s.current_turn, Color::Han);
}

#[test]
fn janggi_status_reports_a_missing_general() {
    let mut s = GameState { board: empty_board(), current_turn: Color::Cho };
    s.board[8][4] = piece(PieceType::General, Color::Cho);
    assert_eq!(s.get_status(), "Han General Captured: Cho Wins");
    s.board[8][4] = None;
    s.board[1][4] = piece(PieceType::General, Color::Han);
    assert_eq!(s.get_status(), "Cho General Captured: Han Wins");
}

#[test]
fn janggi_checkmate_is_reported() {
    let mut s = GameState { board: empty_board(), current_turn: Color::Cho };
    s.board[9][3] = piece(PieceType::General, Color::Cho);
    s.board[7][3] = piece(PieceType::Chariot, Color::Han);
    s.board[7][4] = piece(PieceType::Chariot, Color::Han);
    s.board[7][5] = piece(PieceType::Chariot, Color::Han);
    s.board[0][4] = piece(PieceType::General, Color::Han);
    assert!(s.is_in_check(Color::Cho));
    assert_eq!(s.get_status(), "Checkmate: Han Wins");
}

#[test]
fn janggi_starts_active_and_balanced() {
    let s = GameState::new();
    assert_eq!(s.get_status(), "Active");
    assert_eq!(s.evaluate(), 0);
    assert!(!s.is_in_check(Color::Cho));
}

#[test]
fn janggi_material_values() {
    let mut s = GameState::new();
    s.board[9][0] = None;
    assert_eq!(s.evaluate(), 130);
    s.board[2][1] = None;
    assert_eq!(s.evaluate(), 60);
    s.board[6][0] = None;
    assert_eq!(s.evaluate(), 80);
}

#[test]
fn janggi_search_at_depth_zero_is_the_evaluation() {
    let mut s = GameState::new();
    s.board[9][0] = None;
    assert_eq!(minimax(&mut s, 0, i32::MIN, i32::MAX, true), 130);
}

#[test]
fn janggi_best_move_takes_a_free_chariot() {
    let mut s = GameState { board: empty_board(), current_turn: Color::Cho };
    s.board[8][4] = piece(PieceType::General, Color::Cho);
    s.board[1][4] = piece(PieceType::General, Color::Han);
    s.board[5][0] = piece(PieceType::Chariot, Color::Cho);
    s.board[5][8] = piece(PieceType::Chariot, Color::Han);
    assert_eq!(get_best_move(&s, 1, Color::Cho), Some(((5, 0), (5, 8))));
}

#[test]
fn janggi_engine_plays_and_refuses_moves() {
    let mut e = GameEngine::new();
    assert_eq!(e.get_current_turn(), "Black");
    assert_eq!(e.get_status(), "Active");
    assert_eq!(e.get_valid_moves(6, 0), vec![(5, 0), (6, 1)]);
    assert!(e.has_legal_moves());
    let r = e.move_piece(9, 0, 5, 0);
    assert!(!r.success);
    assert_eq!(r.message, "Invalid move");
    let r = e.move_piece(6, 0, 5, 0);
    assert!(r.success);
    assert_eq!(r.message, "Move successful");
    assert_eq!(e.get_current_turn(), "White");
    assert_eq!(e.get_board_state()[5][0], Some(Piece { piece_type: PieceType::Soldier, color: Color::Cho, has_moved: true }));
}

#[test]
fn janggi_engine_best_move_is_a_legal_move() {
    let e = GameEngine::new();
    let m = e.get_best_move(1);
    assert!(m.is_some());
    let ((fr, fc), (tr, tc)) = m.unwrap();
    assert!(e.get_valid_moves(fr, fc).contains(&(tr, tc)));
}

#[test]
fn janggi_listed_moves_are_exactly_the_playable_ones() {
    let s = GameState::new();
    for (r, c) in [(9, 1), (6, 4), (8, 4), (9, 3), (7, 7)] {
        let listed = s.get_valid_moves(r, c);
        for tr in 0..10 {
            for tc in 0..9 {
                let mut t = GameState { board: s.board, current_turn: s.current_turn };
                assert_eq!(t.move_piece(r, c, tr, tc).is_ok(), listed.contains(&(tr, tc)));
            }
        }
    }
}

#[test]
fn janggi_move_piece_does_not_check_whose_turn_it_is() {
    let mut s = GameState::new();
    assert_eq!(s.get_valid_moves(3, 0), vec![]);
    assert_eq!(s.move_piece(3, 0, 4, 0), Ok(()));
    assert_eq!(s.current_turn, Color::Han);
}

#[test]
fn janggi_empty_window_search_follows_the_first_line() {
    let mut s = GameState::new();
    let moves = s.get_all_legal_moves(Color::Han);
    assert!(moves.is_empty());
    // Han has no listed moves while Cho is to move, so the first line ends at once.
    assert_eq!(minimax(&mut s, 1, 0, 0, true), i32::MIN);
    let first = s.get_all_legal_moves(Color::Cho)[0];
    let mut next = GameState { board: s.board, current_turn: s.current_turn };
    next.move_piece(first.0 .0, first.0 .1, first.1 .0, first.1 .1).unwrap();
    assert_eq!(minimax(&mut s, 1, 0, 0, false), next.evaluate());
}

#[test]
fn janggi_listed_points_come_in_row_major_order() {
    let s = GameState::new();
    let mut seen = 0;
    for r in 0..10 {
        for c in 0..9 {
            let listed = s.get_valid_moves(r, c);
            seen += listed.len();
            for w in listed.windows(2) {
                assert!(w[0] < w[1]);
            }
        }
    }
    assert!(seen > 0);
    assert_eq!(seen, s.get_all_legal_moves(Color::Cho).len());
    assert_eq!(s.get_status(), "Active");
}
