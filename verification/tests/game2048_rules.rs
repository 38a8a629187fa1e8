use wasm_games::game2048::engine::GameEngine;
use wasm_games::game2048::game::GameState;
use wasm_games::game2048::model::GameStatus;

fn state(board: [[u32; 4]; 4]) -> GameState {
    GameState { board, score: 0, status: GameStatus::Active, target_score: 2048 }
}

fn tile_sum(b: &[[u32; 4]; 4]) -> u32 {
    b.iter().map(|row| row.iter().sum::<u32>()).sum()
}

#[test]
fn new_game_places_two_tiles_on_the_first_empty_cells() {
    let s = GameState::new(0, false, 0, false);
    assert_eq!(s.board, [[2, 2, 0, 0], [0; 4], [0; 4], [0; 4]]);
    assert_eq!(s.score, 0);
    assert_eq!(s.status, GameStatus::Active);
    assert_eq!(s.target_score, 2048);
}

#[test]
fn the_draw_picks_among_the_empty_cells_in_order() {
    let s = GameState::new(u32::MAX, true, 0, false);
    assert_eq!(s.board, [[2, 0, 0, 0], [0; 4], [0; 4], [0, 0, 0, 4]]);
    let t = GameState::new(1 << 31, false, 1 << 31, false);
    // Half way through sixteen cells is (2, 0); 7.5 of the fifteen left rounds down to (1, 3).
    assert_eq!(t.board, [[0; 4], [0, 0, 0, 2], [2, 0, 0, 0], [0; 4]]);
}

#[test]
fn left_merges_pairs_and_scores_them() {
    let mut s = state([[2, 2, 2, 2], [0; 4], [0; 4], [0; 4]]);
    assert_eq!(s.move_board("Left", 0, false), Ok(true));
    assert_eq!(s.board, [[4, 4, 2, 0], [0; 4], [0; 4], [0; 4]]);
    assert_eq!(s.score, 8);
}

#[test]
fn a_merged_tile_does_not_merge_again() {
    let mut s = state([[2, 2, 4, 0], [0; 4], [0; 4], [0; 4]]);
    assert_eq!(s.move_board("Left", 0, true), Ok(true));
    assert_eq!(s.board, [[4, 4, 4, 0], [0; 4], [0; 4], [0; 4]]);
    assert_eq!(s.score, 4);
}

#[test]
fn right_slides_toward_the_right_edge() {
    let mut s = state([[4, 0, 4, 8], [0; 4], [0; 4], [0; 4]]);
    assert_eq!(s.move_board("Right", 0, false), Ok(true));
    assert_eq!(s.board, [[2, 0, 8, 8], [0; 4], [0; 4], [0; 4]]);
    assert_eq!(s.score, 8);
}

#[test]
fn up_and_down_push_columns() {
    let mut s = state([[2, 0, 0, 0], [2, 0, 0, 0], [0, 0, 0, 0], [4, 0, 0, 0]]);
    assert_eq!(s.move_board("Up", 0, false), Ok(true));
    assert_eq!(s.board, [[4, 2, 0, 0], [4, 0, 0, 0], [0; 4], [0; 4]]);
    assert_eq!(s.score, 4);
    let mut t = state([[2, 0, 0, 0], [2, 0, 0, 0], [0, 0, 0, 0], [4, 0, 0, 0]]);
    assert_eq!(t.move_board("Down", 0, false), Ok(true));
    assert_eq!(t.board, [[2, 0, 0, 0], [0; 4], [4, 0, 0, 0], [4, 0, 0, 0]]);
    assert_eq!(t.score, 4);
}

#[test]
fn a_push_that_moves_nothing_changes_nothing() {
    let mut s = state([[2, 4, 0, 0], [8, 0, 0, 0], [0; 4], [0; 4]]);
    s.score = 12;
    assert_eq!(s.move_board("Left", 0, false), Ok(false));
    assert_eq!(s.board, [[2, 4, 0, 0], [8, 0, 0, 0], [0; 4], [0; 4]]);
    assert_eq!(s.score, 12);
    assert_eq!(s.status, GameStatus::Active);
}

#[test]
fn a_push_keeps_the_tile_sum_and_adds_the_new_tile() {
    let mut s = state([[2, 2, 4, 8], [4, 4, 4, 0], [0, 2, 0, 2], [16, 0, 16, 0]]);
    let before = tile_sum(&s.board);
    assert_eq!(s.move_board("Right", 123_456_789, true), Ok(true));
    assert_eq!(tile_sum(&s.board), before + 4);
    assert_eq!(s.score, 4 + 8 + 4 + 32);
}

#[test]
fn reaching_the_target_wins_and_ends_the_game() {
    let mut s = state([[1024, 1024, 0, 0], [0; 4], [0; 4], [0; 4]]);
    assert_eq!(s.move_board("Left", 0, false), Ok(true));
    assert_eq!(s.board[0][0], 2048);
    assert_eq!(s.score, 2048);
    assert_eq!(s.status, GameStatus::Won);
    let board = s.board;
    assert_eq!(s.move_board("Right", 0, false), Err("Game is over"));
    assert_eq!(s.board, board);
}

#[test]
fn an_unknown_direction_is_refused() {
    let mut s = state([[2, 2, 0, 0], [0; 4], [0; 4], [0; 4]]);
    assert_eq!(s.move_board("Diagonal", 0, false), Err("Invalid direction"));
    assert_eq!(s.move_board("left", 0, false), Err("Invalid direction"));
    assert_eq!(s.board, [[2, 2, 0, 0], [0; 4], [0; 4], [0; 4]]);
}

#[test]
fn a_full_board_without_pairs_is_lost() {
    let mut s = state([[2, 4, 2, 4], [4, 2, 4, 2], [2, 4, 2, 4], [0, 8, 16, 32]]);
    assert_eq!(s.move_board("Left", 0, false), Ok(true));
    assert_eq!(s.board[3], [8, 16, 32, 2]);
    assert_eq!(s.status, GameStatus::Lost);
    assert_eq!(s.move_board("Up", 0, false), Err("Game is over"));
}

#[test]
fn a_full_board_with_a_pair_goes_on() {
    let mut s = state([[2, 4, 2, 4], [4, 2, 4, 2], [2, 4, 2, 4], [0, 8, 16, 32]]);
    assert_eq!(s.move_board("Left", 0, true), Ok(true));
    assert_eq!(s.board[3], [8, 16, 32, 4]);
    // (2, 3) and (3, 3) both hold 4.
    assert_eq!(s.status, GameStatus::Active);
}

#[test]
fn engine_reports_moves_and_errors() {
    let mut e = GameEngine::new(0, false, 0, false);
    assert_eq!(e.get_board_state(), [[2, 2, 0, 0], [0; 4], [0; 4], [0; 4]]);
    assert_eq!(e.get_score(), 0);
    assert_eq!(e.get_status(), "Active");
    let r = e.execute_move("Left", 0, false);
    assert!(r.success && r.moved);
    assert_eq!(r.message, "Move executed");
    assert_eq!(e.get_board_state(), [[4, 2, 0, 0], [0; 4], [0; 4], [0; 4]]);
    assert_eq!(e.get_score(), 4);
    let r = e.execute_move("Up", 0, false);
    assert!(r.success && !r.moved);
    assert_eq!(r.message, "Move executed");
    let r = e.execute_move("Sideways", 0, false);
    assert!(!r.success && !r.moved);
    assert_eq!(r.message, "Invalid direction");
    assert_eq!(e.get_score(), 4);
}

#[test]
fn a_board_that_counts_as_lost_cannot_move() {
    let full = [[2, 4, 2, 4], [4, 2, 4, 2], [2, 4, 2, 4], [8, 16, 32, 2]];
    for d in ["Up", "Down", "Left", "Right"] {
        let mut s = state(full);
        assert_eq!(s.move_board(d, 0, false), Ok(false));
        assert_eq!(s.board, full);
        assert_eq!(s.score, 0);
    }
}

fn transpose(b: [[u32; 4]; 4]) -> [[u32; 4]; 4] {
    let mut t = [[0; 4]; 4];
    for r in 0..4 {
        for c in 0..4 {
            t[r][c] = b[c][r];
        }
    }
    t
}

fn mirror(b: [[u32; 4]; 4]) -> [[u32; 4]; 4] {
    let mut m = b;
    for row in m.iter_mut() {
        row.reverse();
    }
    m
}

#[test]
fn up_and_right_match_left_on_the_transposed_and_mirrored_boards() {
    let b = [[2, 0, 4, 4], [2, 8, 4, 0], [0, 8, 2, 2], [4, 0, 2, 16]];
    let mut up = state(b);
    let mut left_t = state(transpose(b));
    assert_eq!(up.move_board("Up", 0, false), left_t.move_board("Left", 0, false));
    assert_eq!(up.score, left_t.score);
    assert_eq!(tile_sum(&up.board), tile_sum(&left_t.board));
    let mut right = state(b);
    let mut left_m = state(mirror(b));
    assert_eq!(right.move_board("Right", 0, false), left_m.move_board("Left", 0, false));
    assert_eq!(right.score, left_m.score);
    assert_eq!(tile_sum(&right.board), tile_sum(&left_m.board));
}
