use minesweeper_solver::{
    ActionKind, Board, BoardState, CellState, Rgb, SolverEngine, Step, ASSIST_COLOR,
    DEFAULT_STEP_LIMIT,
};
use rand::rngs::StdRng;
use rand::{Rng, SeedableRng};

fn rgb(c: u32) -> Rgb {
    Rgb { r: (c >> 16) as u8, g: (c >> 8) as u8, b: c as u8 }
}

const CLOSED: u32 = 0x4C545C;
const FLAGGED: u32 = 0xD8E0E8;
const MINE: u32 = 0x7B7B7B;
const OPEN_ZERO: u32 = 0x384048;
const OPEN_ONE: u32 = 0x7CC7FF;
const OPEN_EIGHT: u32 = 0xD0D8E0;

fn board(w: u32, h: u32, mines: u32) -> Board {
    Board::new([0, 0, w * 40, h * 40], [0, 0], 40, [w, h], mines).unwrap()
}

fn engine(w: u32, h: u32, mines: u32) -> SolverEngine {
    SolverEngine::new(board(w, h, mines), StdRng::seed_from_u64(7), DEFAULT_STEP_LIMIT)
}

/// A frame listing one pixel per cell, column after column.
fn frame(colors: &[u32]) -> Vec<Rgb> {
    colors.iter().map(|c| rgb(*c)).collect()
}

#[test]
fn single_open_zero_cell_is_solved_without_action() {
    let mut e = engine(1, 1, 0);
    let f = frame(&[OPEN_ZERO]);
    assert_eq!(e.step(&f), Step::Finished(BoardState::Solved));
    assert_eq!(e.board.state, BoardState::Solved);
    assert_eq!(e.board.get_cell_solved(1, 1), Some(true));
    assert_eq!(e.step(&f), Step::Finished(BoardState::Solved));
}

#[test]
fn eight_around_a_full_eight_are_flagged() {
    let mut e = engine(3, 3, 8);
    let mut colors = [CLOSED; 9];
    colors[4] = OPEN_EIGHT;
    let f = frame(&colors);
    let mut flags = Vec::new();
    let outcome = loop {
        match e.step(&f) {
            Step::Deduced { action, from_x, from_y } => {
                assert_eq!(action.kind, ActionKind::Flag);
                assert_eq!((from_x, from_y), (2, 2));
                flags.push((action.x, action.y));
            }
            Step::Idle => {}
            other => break other,
        }
    };
    assert_eq!(outcome, Step::Finished(BoardState::Solved));
    assert_eq!(flags.len(), 8);
    assert_eq!(flags[0], (1, 1));
    assert!(!flags.contains(&(2, 2)));
    assert_eq!(e.board.mines_left, 0);
    for x in 1..=3 {
        for y in 1..=3 {
            assert_eq!(e.board.get_cell_solved(x, y), Some(true));
        }
    }
}

#[test]
fn a_visible_mine_fails_the_board() {
    let mut e = engine(2, 2, 1);
    let f = frame(&[MINE, OPEN_ONE, CLOSED, CLOSED]);
    assert_eq!(e.step(&f), Step::Finished(BoardState::Failed));
    assert_eq!(e.board.state, BoardState::Failed);
    assert_eq!(e.board.get_cell_state(1, 1), Some(CellState::Mine));
}

#[test]
fn a_mine_fails_the_board_whatever_else_is_deducible() {
    let mut e = engine(3, 1, 1);
    let f = frame(&[OPEN_ONE, CLOSED, MINE]);
    assert_eq!(e.step(&f), Step::Finished(BoardState::Failed));
}

#[test]
fn three_idle_scans_lead_to_one_guess() {
    let mut e = engine(3, 1, 1);
    let f = frame(&[CLOSED, OPEN_ONE, CLOSED]);
    assert_eq!(e.step(&f), Step::Idle);
    assert_eq!(e.stuck_tries, 1);
    assert_eq!(e.step(&f), Step::Idle);
    assert_eq!(e.step(&f), Step::Idle);
    assert_eq!(e.stuck_tries, 3);
    match e.step(&f) {
        Step::Guess(a) => {
            assert_eq!(a.kind, ActionKind::Open);
            assert!(a.y == 1 && (a.x == 1 || a.x == 3));
            assert_eq!(e.board.get_cell_state(a.x, a.y), Some(CellState::Closed));
        }
        other => panic!("expected a guess, got {:?}", other),
    }
    assert_eq!(e.stuck_tries, 0);
    assert_eq!(e.step(&f), Step::Idle);
    assert_eq!(e.stuck_tries, 1);
}

#[test]
fn a_blank_board_gets_a_random_first_move() {
    let mut e = engine(30, 16, 50);
    let f = frame(&[CLOSED; 480]);
    match e.step(&f) {
        Step::FirstMove(a) => {
            assert_eq!(a.kind, ActionKind::Open);
            assert!(a.x >= 1 && a.x <= 30 && a.y >= 1 && a.y <= 16);
            let p = e.board.get_cell_position(a.x, a.y).unwrap();
            assert_eq!((a.screen_x, a.screen_y), (p[0], p[1]));
        }
        other => panic!("expected a first move, got {:?}", other),
    }
    assert!(e.is_new);
    assert!(e.should_update);
}

#[test]
fn rule_a_opens_the_first_closed_neighbor() {
    let mut e = engine(2, 2, 1);
    let f = frame(&[OPEN_ONE, FLAGGED, CLOSED, CLOSED]);
    match e.step(&f) {
        Step::Deduced { action, from_x, from_y } => {
            assert_eq!((from_x, from_y), (1, 1));
            assert_eq!(action.kind, ActionKind::Open);
            assert_eq!((action.x, action.y), (2, 1));
        }
        other => panic!("expected a deduction, got {:?}", other),
    }
    assert_eq!(e.stuck_tries, 0);
    assert_eq!(e.board.mines_left, 0);
    assert_eq!(e.board.get_cell_solved(1, 2), Some(true));
}

#[test]
fn an_unknown_color_stops_the_run() {
    let mut e = engine(2, 1, 1);
    let f = frame(&[OPEN_ONE, 0x123456]);
    assert_eq!(
        e.step(&f),
        Step::UnknownColor { x: 2, y: 1, color: rgb(0x123456) }
    );
}

#[test]
fn the_assist_marker_is_opened_first() {
    let mut e = engine(2, 2, 1);
    let f = frame(&[CLOSED, ASSIST_COLOR, CLOSED, CLOSED]);
    match e.step(&f) {
        Step::AssistOpen(a) => {
            assert_eq!((a.kind, a.x, a.y), (ActionKind::Open, 1, 2));
        }
        other => panic!("expected the assist cell, got {:?}", other),
    }
    assert!(e.should_update);
}

#[test]
fn the_step_budget_ends_the_run() {
    let mut e = SolverEngine::new(board(3, 1, 1), StdRng::seed_from_u64(1), 2);
    let f = frame(&[CLOSED, OPEN_ONE, CLOSED]);
    assert_eq!(e.step(&f), Step::Idle);
    assert_eq!(e.step(&f), Step::Idle);
    assert_eq!(e.step(&f), Step::Aborted);
    assert_eq!(e.steps, 2);
}

#[test]
fn solved_marks_stay_over_steps() {
    let mut e = engine(3, 1, 1);
    let f = frame(&[OPEN_ZERO, OPEN_ONE, CLOSED]);
    e.step(&f);
    assert_eq!(e.board.get_cell_solved(1, 1), Some(true));
    let g = frame(&[CLOSED, CLOSED, CLOSED]);
    for _ in 0..6 {
        e.step(&g);
        assert_eq!(e.board.get_cell_solved(1, 1), Some(true));
        assert_eq!(e.board.get_cell_state(1, 1), Some(CellState::Open));
    }
}

#[test]
fn observed_flags_count_against_the_mines() {
    let mut e = engine(2, 1, 2);
    let f = frame(&[FLAGGED, CLOSED]);
    e.step(&f);
    assert_eq!(e.board.mines_left, 1);
    assert_eq!(e.board.get_cell_solved(1, 1), Some(true));
    e.step(&f);
    assert_eq!(e.board.mines_left, 1);
}

#[test]
fn guess_at_and_first_move_at_pick_exact_cells() {
    let mut b = board(2, 2, 1);
    b.set_cell(1, 1, CellState::Open, 1);
    b.set_cell(2, 1, CellState::Open, 1);
    let e = SolverEngine::new(b, StdRng::seed_from_u64(3), 10);
    let a = e.guess_at(1).unwrap();
    assert_eq!((a.kind, a.x, a.y), (ActionKind::Open, 2, 2));
    assert_eq!(e.guess_at(2), None);
    let m = e.first_move_at(1, 0);
    assert_eq!((m.x, m.y, m.screen_x, m.screen_y), (2, 1, 60, 20));
}

#[test]
fn solved_marks_never_revert_under_random_frames() {
    let palette = [
        CLOSED, FLAGGED, OPEN_ZERO, OPEN_ONE, 0x66C266, 0xFF7788, 0xEE88FF, 0xDDAA22, 0x66CCCC,
        0x888888, OPEN_EIGHT,
    ];
    let mut draw = StdRng::seed_from_u64(11);
    for run in 0..20u64 {
        let mut e = SolverEngine::new(board(4, 3, 4), StdRng::seed_from_u64(run), 60);
        let mut solved = vec![false; 12];
        let mut flagged = vec![false; 12];
        for _ in 0..60 {
            let colors: Vec<u32> = (0..12).map(|_| palette[draw.random_range(0..palette.len())]).collect();
            let r = e.step(&frame(&colors));
            for (i, c) in e.board.cells.iter().enumerate() {
                assert!(!solved[i] || c.solved, "cell ({}, {}) lost its solved mark", c.x, c.y);
                assert!(!flagged[i] || c.state == CellState::Flagged);
                assert!(!c.solved || c.state == CellState::Open || c.state == CellState::Flagged);
                solved[i] = c.solved;
                flagged[i] = c.state == CellState::Flagged;
            }
            if matches!(r, Step::Finished(_) | Step::Aborted) {
                break;
            }
        }
    }
}
