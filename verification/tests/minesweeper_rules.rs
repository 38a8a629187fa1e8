use wasm_games::minesweeper::board::GameState;
use wasm_games::minesweeper::engine::GameEngine;
use wasm_games::minesweeper::model::{Cell, CellState, GameStatus};

/// A draw that aims at index `i` of `n`: the least `a` with `a * n / 2^32 == i`.
fn aim(i: usize, n: usize) -> u32 {
    (((i as u64) << 32) + n as u64 - 1).checked_div(n as u64).unwrap() as u32
}

fn draw(r: usize, c: usize, rows: usize, cols: usize) -> (u32, u32) {
    (aim(r, rows), aim(c, cols))
}

fn mines(s: &GameState) -> Vec<(usize, usize)> {
    let mut v = Vec::new();
    for r in 0..s.rows {
        for c in 0..s.cols {
            if s.board[r][c].is_mine {
                v.push((r, c));
            }
        }
    }
    v
}

fn count(s: &GameState, st: CellState) -> usize {
    s.board.iter().map(|row| row.iter().filter(|x| x.state == st).count()).sum()
}

#[test]
fn new_field_is_hidden_and_clear() {
    let s = GameState::new(4, 6, 5);
    assert_eq!((s.rows, s.cols, s.total_mines), (4, 6, 5));
    assert_eq!(s.board.len(), 4);
    for row in &s.board {
        assert_eq!(row.len(), 6);
        for x in row {
            assert_eq!(*x, Cell { is_mine: false, adjacent_mines: 0, state: CellState::Hidden });
        }
    }
    assert_eq!(s.status, GameStatus::Active);
    assert!(s.first_click);
}

#[test]
fn draws_land_where_they_aim_and_counts_follow() {
    let mut s = GameState::new(5, 5, 3);
    let draws = vec![draw(0, 0, 5, 5), draw(0, 1, 5, 5), draw(4, 4, 5, 5)];
    s.place_mines(2, 2, &draws);
    assert_eq!(mines(&s), vec![(0, 0), (0, 1), (4, 4)]);
    assert_eq!(s.board[1][0].adjacent_mines, 2);
    assert_eq!(s.board[1][1].adjacent_mines, 2);
    assert_eq!(s.board[0][2].adjacent_mines, 1);
    assert_eq!(s.board[3][3].adjacent_mines, 1);
    assert_eq!(s.board[2][2].adjacent_mines, 0);
    assert_eq!(s.board[2][0].adjacent_mines, 0);
    assert_eq!(s.board[0][0].adjacent_mines, 0);
}

#[test]
fn placement_skips_the_first_cell_and_taken_cells() {
    let mut s = GameState::new(5, 5, 2);
    let draws = vec![draw(2, 2, 5, 5), draw(0, 0, 5, 5), draw(0, 0, 5, 5), draw(4, 4, 5, 5), draw(1, 1, 5, 5)];
    s.place_mines(2, 2, &draws);
    assert_eq!(mines(&s), vec![(0, 0), (4, 4)]);
}

#[test]
fn placement_runs_out_of_draws() {
    let mut s = GameState::new(5, 5, 4);
    let draws = vec![draw(3, 1, 5, 5)];
    s.place_mines(0, 0, &draws);
    assert_eq!(mines(&s), vec![(3, 1)]);
}

#[test]
fn placement_makes_at_most_a_thousand_attempts() {
    let mut s = GameState::new(5, 5, 2);
    let mut draws = vec![draw(0, 0, 5, 5); 1000];
    draws.push(draw(1, 1, 5, 5));
    s.place_mines(0, 0, &draws);
    assert_eq!(mines(&s), vec![]);
}

#[test]
fn first_reveal_lays_mines_and_floods_open_cells() {
    let mut s = GameState::new(5, 5, 1);
    let draws = vec![draw(0, 0, 5, 5)];
    assert_eq!(s.reveal_cell(4, 4, &draws), Ok(()));
    assert!(!s.first_click);
    assert_eq!(mines(&s), vec![(0, 0)]);
    assert_eq!(s.board[0][0].state, CellState::Hidden);
    assert_eq!(count(&s, CellState::Revealed), 24);
    assert_eq!(s.status, GameStatus::Won);
}

#[test]
fn flooding_stops_at_numbered_cells() {
    let mut s = GameState::new(3, 3, 2);
    let draws = vec![draw(2, 2, 3, 3), draw(2, 0, 3, 3)];
    assert_eq!(s.reveal_cell(0, 0, &draws), Ok(()));
    for c in 0..3 {
        assert_eq!(s.board[0][c].state, CellState::Revealed);
        assert_eq!(s.board[1][c].state, CellState::Revealed);
    }
    assert_eq!(s.board[2][1].state, CellState::Hidden);
    assert_eq!(s.board[2][1].adjacent_mines, 2);
    assert_eq!(s.board[1][1].adjacent_mines, 2);
    assert_eq!(s.status, GameStatus::Active);
}

#[test]
fn revealing_a_mine_loses() {
    let mut s = GameState::new(3, 3, 2);
    let draws = vec![draw(2, 2, 3, 3), draw(2, 0, 3, 3)];
    s.reveal_cell(0, 0, &draws).unwrap();
    assert_eq!(s.reveal_cell(2, 0, &draws), Ok(()));
    assert_eq!(s.board[2][0].state, CellState::Revealed);
    assert_eq!(s.status, GameStatus::Lost);
    assert_eq!(s.reveal_cell(2, 1, &draws), Err("Game is over"));
    assert_eq!(s.toggle_flag(2, 1), Err("Game is over"));
}

#[test]
fn later_reveals_keep_the_mines() {
    let mut s = GameState::new(3, 3, 2);
    let draws = vec![draw(2, 2, 3, 3), draw(2, 0, 3, 3)];
    s.reveal_cell(0, 0, &draws).unwrap();
    let other = vec![draw(0, 1, 3, 3)];
    assert_eq!(s.reveal_cell(2, 1, &other), Ok(()));
    assert_eq!(mines(&s), vec![(2, 0), (2, 2)]);
    assert_eq!(s.status, GameStatus::Won);
}

#[test]
fn out_of_range_requests_are_refused() {
    let mut s = GameState::new(3, 4, 1);
    assert_eq!(s.reveal_cell(3, 0, &vec![]), Err("Invalid coordinates"));
    assert_eq!(s.reveal_cell(0, 4, &vec![]), Err("Invalid coordinates"));
    assert_eq!(s.toggle_flag(5, 5), Err("Invalid coordinates"));
    assert!(s.first_click);
}

#[test]
fn flags_toggle_and_block_reveals() {
    let mut s = GameState::new(3, 3, 1);
    assert_eq!(s.toggle_flag(1, 1), Ok(()));
    assert_eq!(s.board[1][1].state, CellState::Flagged);
    assert_eq!(s.reveal_cell(1, 1, &vec![draw(0, 0, 3, 3)]), Ok(()));
    assert_eq!(s.board[1][1].state, CellState::Flagged);
    assert!(s.first_click);
    assert_eq!(s.toggle_flag(1, 1), Ok(()));
    assert_eq!(s.board[1][1].state, CellState::Hidden);
}

#[test]
fn flags_are_not_opened_by_flooding() {
    let mut s = GameState::new(1, 5, 0);
    s.toggle_flag(0, 2).unwrap();
    assert_eq!(s.reveal_cell(0, 0, &vec![]), Ok(()));
    assert_eq!(s.board[0][1].state, CellState::Revealed);
    assert_eq!(s.board[0][2].state, CellState::Flagged);
    assert_eq!(s.board[0][3].state, CellState::Hidden);
    assert_eq!(s.status, GameStatus::Active);
    assert_eq!(s.toggle_flag(0, 0), Ok(()));
    assert_eq!(s.board[0][0].state, CellState::Revealed);
}

#[test]
fn engine_levels_have_their_sizes() {
    let e = GameEngine::new();
    assert_eq!(e.get_board_state().len(), 9);
    assert_eq!(e.get_board_state()[0].len(), 9);
    let b = GameEngine::new_beginner();
    assert_eq!(b.get_board_state().len(), 9);
    let i = GameEngine::new_intermediate();
    assert_eq!(i.get_board_state().len(), 16);
    assert_eq!(i.get_board_state()[15].len(), 16);
    let x = GameEngine::new_expert();
    assert_eq!(x.get_board_state().len(), 16);
    assert_eq!(x.get_board_state()[0].len(), 30);
    assert_eq!(x.get_status(), "Active");
}

#[test]
fn engine_answers_requests() {
    let mut e = GameEngine::new_beginner();
    let r = e.toggle_flag(0, 0);
    assert!(r.success);
    assert_eq!(r.message, "Flag toggled");
    let r = e.reveal_cell(9, 0, &vec![]);
    assert!(!r.success);
    assert_eq!(r.message, "Invalid coordinates");
    let mut draws: Vec<(u32, u32)> = (0..9).map(|k| draw(8, k, 9, 9)).collect();
    draws.push(draw(7, 0, 9, 9));
    let r = e.reveal_cell(4, 4, &draws);
    assert!(r.success);
    assert_eq!(r.message, "Reveal successful");
    let board = e.get_board_state();
    assert_eq!(board[0][0].state, CellState::Flagged);
    assert_eq!(board[4][4].state, CellState::Revealed);
    assert_eq!(board[8].iter().filter(|x| x.is_mine).count(), 9);
    assert_eq!(board[7][4].adjacent_mines, 3);
    assert_eq!(board[7][4].state, CellState::Revealed);
    assert!(board[7][0].is_mine);
    assert_eq!(board[7][1].adjacent_mines, 4);
    assert_eq!(board[6][0].state, CellState::Revealed);
    assert_eq!(board[8][4].state, CellState::Hidden);
    assert_eq!(e.get_status(), "Active");
}

#[test]
fn the_first_reveal_never_hits_a_mine() {
    for (r, c) in [(0, 0), (1, 1), (2, 2), (0, 2)] {
        let mut s = GameState::new(3, 3, 8);
        let draws: Vec<(u32, u32)> = (0..9).map(|k| draw(k / 3, k % 3, 3, 3)).collect();
        assert_eq!(s.reveal_cell(r, c, &draws), Ok(()));
        assert!(!s.board[r][c].is_mine);
        assert_eq!(mines(&s).len(), 8);
        assert_ne!(s.status, GameStatus::Lost);
        assert_eq!(s.status, GameStatus::Won);
    }
}

#[test]
fn toggling_twice_restores_every_cell() {
    let mut s = GameState::new(2, 2, 1);
    let draws = vec![draw(1, 1, 2, 2)];
    s.reveal_cell(0, 0, &draws).unwrap();
    let before: Vec<Vec<Cell>> = s.board.clone();
    for (r, c) in [(0, 0), (0, 1), (1, 1)] {
        s.toggle_flag(r, c).unwrap();
        s.toggle_flag(r, c).unwrap();
        assert_eq!(s.board, before);
    }
}
