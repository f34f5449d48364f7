use minesweeper_solver::{ActionKind, Board, BoardState, CellState, Verdict};

fn screen_board() -> Board {
    Board::new([1173, 308, 2433, 1111], [1203, 443], 40, [30, 16], 50).unwrap()
}

#[test]
fn corner_cell_has_three_neighbors() {
    let b = screen_board();
    let ns = b.get_surrounding_cells(1, 1);
    assert_eq!(ns.len(), 3);
    let coords: Vec<(u32, u32)> = ns.iter().map(|c| (c.x, c.y)).collect();
    assert_eq!(coords, vec![(2, 1), (1, 2), (2, 2)]);
}

#[test]
fn neighbor_counts_by_position() {
    let b = screen_board();
    assert_eq!(b.get_surrounding_cells(5, 5).len(), 8);
    assert_eq!(b.get_surrounding_cells(30, 8).len(), 5);
    assert_eq!(b.get_surrounding_cells(30, 16).len(), 3);
    assert_eq!(b.get_surrounding_cells(0, 1).len(), 0);
    assert_eq!(b.get_surrounding_cells(31, 1).len(), 0);
}

#[test]
fn positions_round_trip() {
    let b = screen_board();
    for x in 1..=30 {
        for y in 1..=16 {
            let p = b.get_cell_position(x, y).unwrap();
            assert_eq!(b.screen_to_grid(p[0], p[1]), Some((x, y)));
            let q = b.get_cell_position_board(x, y).unwrap();
            assert_eq!(b.board_to_grid(q[0], q[1]), Some((x, y)));
        }
    }
}

#[test]
fn cell_positions_are_cell_centers() {
    let b = screen_board();
    assert_eq!(b.get_cell_position(1, 1), Some([1223, 463]));
    assert_eq!(b.get_cell_position(30, 16), Some([2383, 1063]));
    assert_eq!(b.get_cell_position_board(1, 1), Some([50, 155]));
    assert_eq!(b.get_cell_position(31, 1), None);
    assert_eq!(b.get_cell_position(1, 0), None);
    assert_eq!(b.screen_to_grid(1203, 443), Some((1, 1)));
    assert_eq!(b.screen_to_grid(1242, 482), Some((1, 1)));
    assert_eq!(b.screen_to_grid(1243, 482), Some((2, 1)));
    assert_eq!(b.screen_to_grid(1202, 443), None);
    assert_eq!(b.screen_to_grid(1203 + 30 * 40, 443), None);
}

#[test]
fn layouts_that_do_not_fit_are_refused() {
    assert!(Board::new([10, 0, 0, 0], [5, 0], 40, [3, 3], 1).is_none());
    assert!(Board::new([0, 0, 0, 0], [u32::MAX - 10, 0], 40, [3, 3], 1).is_none());
    assert!(Board::new([0, 0, 0, 0], [0, 0], 1, [0, 0], 0).is_some());
}

#[test]
fn fresh_board_is_closed() {
    let b = screen_board();
    assert_eq!(b.get_cell_data(3, 4), Some((CellState::Closed, 0)));
    assert_eq!(b.get_cell_solved(3, 4), Some(false));
    assert_eq!(b.get_cell_data(0, 4), None);
    assert_eq!(b.get_cell_state(31, 4), None);
    assert_eq!(b.get_cell_value(3, 17), None);
    assert_eq!(b.mines_left, 50);
    assert_eq!(b.state, BoardState::Unsolved);
}

#[test]
fn setters_change_one_cell_in_the_grid_only() {
    let mut b = screen_board();
    b.set_cell(2, 3, CellState::Open, 4);
    assert_eq!(b.get_cell_data(2, 3), Some((CellState::Open, 4)));
    b.set_cell_state(2, 3, CellState::Flagged);
    assert_eq!(b.get_cell_data(2, 3), Some((CellState::Flagged, 4)));
    b.set_cell_value(2, 3, 7);
    assert_eq!(b.get_cell_value(2, 3), Some(7));
    b.set_cell_solved(2, 3, true);
    assert_eq!(b.get_cell_solved(2, 3), Some(true));
    assert_eq!(b.get_cell_data(3, 2), Some((CellState::Closed, 0)));
    b.set_cell(40, 3, CellState::Open, 1);
    b.set_cell_solved(0, 0, true);
    assert_eq!(b.mines_left, 50);
}

#[test]
fn flagging_counts_each_cell_once() {
    let mut b = Board::new([0, 0, 80, 40], [0, 0], 40, [2, 1], 1).unwrap();
    let a = b.flag_cell(1, 1).unwrap();
    assert_eq!((a.kind, a.x, a.y, a.screen_x, a.screen_y), (ActionKind::Flag, 1, 1, 20, 20));
    assert_eq!(b.mines_left, 0);
    assert_eq!(b.get_cell_state(1, 1), Some(CellState::Flagged));
    assert_eq!(b.get_cell_solved(1, 1), Some(true));
    b.flag_cell(1, 1);
    assert_eq!(b.mines_left, 0);
    b.flag_cell(2, 1);
    assert_eq!(b.mines_left, 0);
    assert_eq!(b.flag_cell(3, 1), None);
}

#[test]
fn mines_left_falls_by_one_per_flagged_cell() {
    let mut b = Board::new([0, 0, 120, 40], [0, 0], 40, [3, 1], 3).unwrap();
    b.flag_cell(1, 1);
    assert_eq!(b.mines_left, 2);
    b.flag_cell(1, 1);
    assert_eq!(b.mines_left, 2);
    b.flag_cell(3, 1);
    assert_eq!(b.mines_left, 1);
}

#[test]
fn opening_does_not_change_the_board() {
    let b = screen_board();
    let a = b.open_cell(2, 1).unwrap();
    assert_eq!((a.kind, a.screen_x, a.screen_y), (ActionKind::Open, 1263, 463));
    assert_eq!(b.get_cell_state(2, 1), Some(CellState::Closed));
    assert_eq!(b.open_cell(0, 1), None);
}

fn around_center(center: u8, flagged: &[(u32, u32)]) -> Board {
    let mut b = Board::new([0, 0, 120, 120], [0, 0], 40, [3, 3], 8).unwrap();
    b.set_cell(2, 2, CellState::Open, center);
    for (x, y) in flagged {
        b.set_cell_state(*x, *y, CellState::Flagged);
    }
    b
}

#[test]
fn rule_a_needs_flags_equal_to_the_value() {
    let b = around_center(1, &[(1, 1)]);
    let (v, t) = b.assess(2, 2);
    assert_eq!(v, Verdict::OpenNeighbor);
    assert_eq!(t.map(|c| (c.x, c.y)), Some((2, 1)));
    let b = around_center(2, &[(1, 1)]);
    assert_eq!(b.assess(2, 2).0, Verdict::Nothing);
}

#[test]
fn rule_b_needs_flags_and_closed_equal_to_the_value() {
    let mut b = around_center(2, &[(1, 1)]);
    for (x, y) in [(3, 1), (1, 2), (3, 2), (1, 3), (2, 3), (3, 3)] {
        b.set_cell(x, y, CellState::Open, 1);
    }
    let (v, t) = b.assess(2, 2);
    assert_eq!(v, Verdict::FlagNeighbor);
    assert_eq!(t.map(|c| (c.x, c.y)), Some((2, 1)));
    b.set_cell(2, 2, CellState::Open, 3);
    assert_eq!(b.assess(2, 2).0, Verdict::Nothing);
}

#[test]
fn a_satisfied_cell_without_closed_neighbors_is_complete() {
    let mut b = around_center(1, &[(1, 1)]);
    for (x, y) in [(2, 1), (3, 1), (1, 2), (3, 2), (1, 3), (2, 3), (3, 3)] {
        b.set_cell(x, y, CellState::Open, 1);
    }
    assert_eq!(b.assess(2, 2), (Verdict::Complete, None));
    assert_eq!(b.deduce(), None);
    assert_eq!(b.get_cell_solved(2, 2), Some(true));
}

#[test]
fn deduce_acts_from_the_first_cell_in_scan_order() {
    let mut b = Board::new([0, 0, 120, 40], [0, 0], 40, [3, 1], 2).unwrap();
    b.set_cell(1, 1, CellState::Open, 1);
    b.set_cell(3, 1, CellState::Open, 1);
    let (a, fx, fy) = b.deduce().unwrap();
    assert_eq!((a.kind, a.x, a.y, fx, fy), (ActionKind::Flag, 2, 1, 1, 1));
    assert_eq!(b.get_cell_state(2, 1), Some(CellState::Flagged));
    assert_eq!(b.mines_left, 1);
}

#[test]
fn example_board_has_its_mine() {
    let b = Board::new_example();
    assert_eq!(b.get_cell_data(1, 7), Some((CellState::Mine, 0)));
    assert_eq!(b.get_cell_data(2, 2), Some((CellState::Open, 2)));
    assert_eq!(b.get_cell_data(3, 3), Some((CellState::Open, 0)));
    assert_eq!(b.get_cell_data(5, 2), Some((CellState::Closed, 0)));
    assert_eq!(b.mines_left, 40);
    let e = Board::new_empty();
    assert_eq!(e.get_cell_data(1, 1), None);
}

#[test]
fn initialize_board_closes_every_cell() {
    let mut b = Board::new_example();
    b.initialize_board();
    assert_eq!(b.get_cell_data(1, 7), Some((CellState::Closed, 0)));
    assert_eq!(b.get_cell_data(2, 2), Some((CellState::Closed, 0)));
}
