use wasm_games::chess2::engine::GameEngine;
use wasm_games::chess2::moves::{
    best_move, board_grid, pick_move, piece_data, role_from_index, row_col_to_square, side_from_index,
    square_to_row_col, status_message, targets, turn_message, MoveData, MoveInfo, PieceRole, Side,
};

fn sorted(mut v: Vec<(usize, usize)>) -> Vec<(usize, usize)> {
    v.sort();
    v
}

fn info(from: u32, to: u32, promotion: Option<PieceRole>, capture: bool) -> MoveInfo {
    MoveInfo { from: Some(from), to, promotion, capture }
}

#[test]
fn squares_and_coordinates() {
    assert_eq!(row_col_to_square(7, 0), 0);
    assert_eq!(row_col_to_square(0, 7), 63);
    assert_eq!(row_col_to_square(6, 4), 12);
    assert_eq!(square_to_row_col(0), (7, 0));
    assert_eq!(square_to_row_col(63), (0, 7));
    assert_eq!(square_to_row_col(12), (6, 4));
    for sq in 0..64u32 {
        let (r, c) = square_to_row_col(sq);
        assert_eq!(row_col_to_square(r, c), sq);
    }
}

#[test]
fn piece_numbers() {
    assert_eq!(role_from_index(1), PieceRole::Pawn);
    assert_eq!(role_from_index(5), PieceRole::Queen);
    assert_eq!(role_from_index(6), PieceRole::King);
    assert_eq!(side_from_index(0), Side::Black);
    assert_eq!(side_from_index(1), Side::White);
}

#[test]
fn status_lines() {
    assert_eq!(status_message(true, false, false, Side::White), "Checkmate! Black wins!");
    assert_eq!(status_message(true, false, true, Side::Black), "Checkmate! White wins!");
    assert_eq!(status_message(false, true, true, Side::White), "Stalemate!");
    assert_eq!(status_message(false, false, true, Side::White), "Draw by insufficient material!");
    assert_eq!(status_message(false, false, false, Side::Black), "Active");
    assert_eq!(turn_message(Side::White), "\"White\"");
    assert_eq!(turn_message(Side::Black), "\"Black\"");
}

#[test]
fn the_requested_move_prefers_a_queen_promotion() {
    let moves = vec![
        info(52, 60, Some(PieceRole::Rook), false),
        info(52, 60, Some(PieceRole::Queen), false),
        info(52, 60, Some(PieceRole::Knight), false),
        info(12, 20, None, false),
    ];
    assert_eq!(pick_move(&moves, 52, 60), Some(1));
    assert_eq!(pick_move(&moves, 12, 20), Some(3));
    assert_eq!(pick_move(&moves, 12, 28), None);
    assert_eq!(pick_move(&vec![], 12, 28), None);
}

#[test]
fn targets_keep_the_order_of_the_moves() {
    let moves = vec![info(12, 28, None, false), info(6, 21, None, false), info(12, 20, None, false)];
    assert_eq!(targets(&moves, 12), vec![(4, 4), (5, 4)]);
    assert_eq!(targets(&moves, 6), vec![(5, 5)]);
    assert_eq!(targets(&moves, 0), vec![]);
}

#[test]
fn the_picked_move_is_the_first_capture() {
    let moves = vec![info(12, 28, None, false), info(28, 35, None, true), info(6, 21, None, true)];
    assert_eq!(best_move(&moves), Some(MoveData { fr: 4, fc: 4, tr: 3, tc: 3 }));
    let quiet = vec![info(12, 28, None, false), info(6, 21, None, false)];
    assert_eq!(best_move(&quiet), Some(MoveData { fr: 6, fc: 4, tr: 4, tc: 4 }));
    assert_eq!(best_move(&vec![]), None);
    let drop = vec![MoveInfo { from: None, to: 20, promotion: None, capture: false }];
    assert_eq!(best_move(&drop), None);
}

#[test]
fn pieces_are_shown_by_name() {
    let d = piece_data(Some((PieceRole::Knight, Side::Black))).unwrap();
    assert_eq!(d.piece_type, "Knight");
    assert_eq!(d.color, "Black");
    assert!(!d.has_moved);
    assert!(piece_data(None).is_none());
    let mut pieces = vec![None; 64];
    pieces[4] = Some((PieceRole::King, Side::White));
    let grid = board_grid(&pieces);
    assert_eq!(grid.len(), 8);
    assert_eq!(grid[7][4].as_ref().unwrap().piece_type, "King");
    assert!(grid[0][4].is_none());
}

#[test]
fn shakmaty_game_starts_active_with_white() {
    let e = GameEngine::new();
    assert_eq!(e.get_status(), "Active");
    assert_eq!(e.get_current_turn(), "\"White\"");
    assert_eq!(sorted(e.get_valid_moves(6, 4)), vec![(4, 4), (5, 4)]);
    assert_eq!(sorted(e.get_valid_moves(7, 1)), vec![(5, 0), (5, 2)]);
    assert_eq!(e.get_valid_moves(1, 4), vec![]);
    assert_eq!(e.get_valid_moves(4, 4), vec![]);
}

#[test]
fn shakmaty_board_shows_the_pieces() {
    let e = GameEngine::new();
    let grid = e.get_board_state();
    let king = grid[7][4].as_ref().unwrap();
    assert_eq!((king.piece_type.as_str(), king.color.as_str(), king.has_moved), ("King", "White", false));
    let queen = grid[0][3].as_ref().unwrap();
    assert_eq!((queen.piece_type.as_str(), queen.color.as_str()), ("Queen", "Black"));
    let pawn = grid[1][0].as_ref().unwrap();
    assert_eq!((pawn.piece_type.as_str(), pawn.color.as_str()), ("Pawn", "Black"));
    assert!(grid[4][4].is_none());
}

#[test]
fn shakmaty_moves_are_played_or_refused() {
    let mut e = GameEngine::new();
    let r = e.move_piece(6, 4, 3, 4);
    assert!(!r.success);
    assert_eq!(r.message, "Invalid move");
    assert_eq!(e.get_current_turn(), "\"White\"");
    let r = e.move_piece(6, 4, 4, 4);
    assert!(r.success);
    assert_eq!(r.message, "OK");
    assert_eq!(e.get_current_turn(), "\"Black\"");
    assert_eq!(e.get_board_state()[4][4].as_ref().unwrap().piece_type, "Pawn");
    assert!(e.get_board_state()[6][4].is_none());
}

#[test]
fn shakmaty_fools_mate() {
    let mut e = GameEngine::new();
    assert!(e.move_piece(6, 5, 5, 5).success);
    assert!(e.move_piece(1, 4, 3, 4).success);
    assert!(e.move_piece(6, 6, 4, 6).success);
    assert!(e.move_piece(0, 3, 4, 7).success);
    assert_eq!(e.get_status(), "Checkmate! Black wins!");
    assert_eq!(e.get_best_move(2), None);
}

#[test]
fn shakmaty_best_move_takes_a_pawn() {
    let mut e = GameEngine::new();
    assert!(e.move_piece(6, 4, 4, 4).success);
    assert!(e.move_piece(1, 3, 3, 3).success);
    assert_eq!(e.get_best_move(3), Some(MoveData { fr: 4, fc: 4, tr: 3, tc: 3 }));
    let quiet = GameEngine::new().get_best_move(1);
    let m = quiet.unwrap();
    assert!(GameEngine::new().get_valid_moves(m.fr, m.fc).contains(&(m.tr, m.tc)));
}

#[test]
fn shakmaty_plays_en_passant_and_queens_a_pawn() {
    let mut e = GameEngine::new();
    for (fr, fc, tr, tc) in [(6, 4, 4, 4), (1, 0, 2, 0), (4, 4, 3, 4), (1, 3, 3, 3), (3, 4, 2, 3)] {
        assert!(e.move_piece(fr, fc, tr, tc).success);
    }
    let grid = e.get_board_state();
    assert_eq!(grid[2][3].as_ref().unwrap().piece_type, "Pawn");
    assert!(grid[3][3].is_none());

    let mut e = GameEngine::new();
    for (fr, fc, tr, tc) in [(6, 7, 4, 7), (1, 6, 3, 6), (4, 7, 3, 6), (1, 7, 2, 7), (3, 6, 2, 7), (0, 1, 2, 2), (2, 7, 1, 7), (2, 2, 0, 1)] {
        assert!(e.move_piece(fr, fc, tr, tc).success);
    }
    let r = e.move_piece(1, 7, 0, 6);
    assert!(r.success);
    let queen = e.get_board_state()[0][6].clone().unwrap();
    assert_eq!((queen.piece_type.as_str(), queen.color.as_str()), ("Queen", "White"));
    assert_eq!(e.get_current_turn(), "\"Black\"");
}
