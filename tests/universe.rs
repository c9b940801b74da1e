use wasm_game_of_life::{next_cell, Cell, GridError, Universe};

fn dead_universe(width: u32, height: u32) -> Universe {
    let alive = vec![false; (width * height) as usize];
    Universe::new(width, height, &alive).unwrap()
}

fn with_cells(width: u32, height: u32, coords: &[(u32, u32)]) -> Universe {
    let mut u = dead_universe(width, height);
    u.set_cells(coords).unwrap();
    u
}

fn alive_set(u: &Universe) -> Vec<(u32, u32)> {
    let mut out = Vec::new();
    for (i, c) in u.cells().iter().enumerate() {
        if *c == Cell::Alive {
            let i = i as u32;
            out.push((i % u.width(), i / u.width()));
        }
    }
    out
}

#[test]
fn new_follows_initial_states() {
    let u = Universe::new(3, 2, &[true, false, false, false, true, true]).unwrap();
    assert_eq!(u.width(), 3);
    assert_eq!(u.height(), 2);
    assert_eq!(
        u.cells(),
        &[Cell::Alive, Cell::Dead, Cell::Dead, Cell::Dead, Cell::Alive, Cell::Alive][..]
    );
    assert_eq!(u.get_cells(), u.cells());
}

#[test]
fn new_refuses_wrong_number_of_states() {
    assert!(matches!(Universe::new(2, 2, &[true, false, true]), Err(GridError::SizeMismatch)));
}

#[test]
fn new_refuses_too_many_cells() {
    assert!(matches!(Universe::new(u32::MAX, 2, &[]), Err(GridError::TooLarge)));
}

#[test]
fn new_accepts_empty_grid() {
    let u = Universe::new(0, 5, &[]).unwrap();
    assert_eq!(u.cells().len(), 0);
}

#[test]
fn rule_table() {
    assert_eq!(next_cell(Cell::Alive, 0), Cell::Dead);
    assert_eq!(next_cell(Cell::Alive, 1), Cell::Dead);
    assert_eq!(next_cell(Cell::Alive, 2), Cell::Alive);
    assert_eq!(next_cell(Cell::Alive, 3), Cell::Alive);
    assert_eq!(next_cell(Cell::Alive, 4), Cell::Dead);
    assert_eq!(next_cell(Cell::Alive, 8), Cell::Dead);
    assert_eq!(next_cell(Cell::Dead, 3), Cell::Alive);
    assert_eq!(next_cell(Cell::Dead, 2), Cell::Dead);
    assert_eq!(next_cell(Cell::Dead, 4), Cell::Dead);
    assert_eq!(next_cell(Cell::Dead, 0), Cell::Dead);
}

#[test]
fn neighbour_count_never_exceeds_eight() {
    let alive = vec![true; 9];
    let u = Universe::new(3, 3, &alive).unwrap();
    for y in 0..3 {
        for x in 0..3 {
            assert_eq!(u.live_neighbour_count(x, y), 8);
        }
    }
}

#[test]
fn neighbour_count_on_one_column_grid() {
    // Width 1: the offsets 0 and width - 1 coincide and are both skipped in
    // the middle row; offset 1 wraps onto the cell itself.
    let u = Universe::new(1, 3, &[true, true, true]).unwrap();
    assert_eq!(u.live_neighbour_count(0, 1), 7);
}

#[test]
fn block_is_still_life() {
    let mut u = with_cells(6, 6, &[(2, 2), (3, 2), (2, 3), (3, 3)]);
    let start = u.cells().to_vec();
    for _ in 0..5 {
        u.tick();
        assert_eq!(u.cells(), &start[..]);
    }
}

#[test]
fn block_across_the_edge_is_still_life() {
    let mut u = with_cells(4, 5, &[(3, 4), (0, 4), (3, 0), (0, 0)]);
    let start = u.cells().to_vec();
    u.tick();
    u.tick();
    assert_eq!(u.cells(), &start[..]);
}

#[test]
fn blinker_oscillates() {
    let mut u = with_cells(5, 5, &[(1, 2), (2, 2), (3, 2)]);
    let start = u.cells().to_vec();
    u.tick();
    assert_eq!(alive_set(&u), vec![(2, 1), (2, 2), (2, 3)]);
    u.tick();
    assert_eq!(u.cells(), &start[..]);
}

#[test]
fn corner_cell_is_neighbour_of_opposite_corners() {
    let u = with_cells(5, 4, &[(0, 0)]);
    assert_eq!(u.live_neighbour_count(4, 3), 1);
    assert_eq!(u.live_neighbour_count(4, 0), 1);
    assert_eq!(u.live_neighbour_count(0, 3), 1);
    assert_eq!(u.live_neighbour_count(0, 0), 0);
    assert_eq!(u.live_neighbour_count(2, 2), 0);
}

#[test]
fn set_width_kills_every_cell() {
    let alive = vec![true; 12];
    let mut u = Universe::new(4, 3, &alive).unwrap();
    assert_eq!(u.set_width(5), Ok(()));
    assert_eq!(u.width(), 5);
    assert_eq!(u.height(), 3);
    assert_eq!(u.cells(), &vec![Cell::Dead; 15][..]);
}

#[test]
fn set_height_kills_every_cell() {
    let alive = vec![true; 12];
    let mut u = Universe::new(4, 3, &alive).unwrap();
    assert_eq!(u.set_height(2), Ok(()));
    assert_eq!(u.width(), 4);
    assert_eq!(u.height(), 2);
    assert_eq!(u.cells(), &vec![Cell::Dead; 8][..]);
}

#[test]
fn set_width_refuses_too_many_cells() {
    let mut u = with_cells(2, 2, &[(1, 1)]);
    assert_eq!(u.set_width(u32::MAX), Err(GridError::TooLarge));
    assert_eq!(u.width(), 2);
    assert_eq!(alive_set(&u), vec![(1, 1)]);
}

#[test]
fn set_cells_refuses_out_of_range() {
    let mut u = dead_universe(3, 3);
    assert_eq!(u.set_cells(&[(0, 0), (3, 1)]), Err(GridError::OutOfRange));
    assert_eq!(u.set_cells(&[(1, 3)]), Err(GridError::OutOfRange));
    assert_eq!(alive_set(&u), Vec::<(u32, u32)>::new());
}

#[test]
fn set_cells_leaves_other_cells() {
    let mut u = Universe::new(2, 2, &[false, true, false, false]).unwrap();
    assert_eq!(u.set_cells(&[(0, 1), (0, 1)]), Ok(()));
    assert_eq!(alive_set(&u), vec![(1, 0), (0, 1)]);
}

#[test]
fn vertical_blinker_turns_horizontal() {
    let mut u = with_cells(5, 5, &[(2, 1), (2, 2), (2, 3)]);
    u.tick();
    assert_eq!(alive_set(&u), vec![(1, 2), (2, 2), (3, 2)]);
}

#[test]
fn vertical_blinker_on_three_by_three_fills_the_torus() {
    // On a 3x3 torus every dead cell touches all three live cells.
    let mut u = with_cells(3, 3, &[(1, 0), (1, 1), (1, 2)]);
    u.tick();
    assert_eq!(u.cells(), &vec![Cell::Alive; 9][..]);
}

#[test]
fn tick_on_empty_grid_does_nothing() {
    let mut u = dead_universe(0, 4);
    u.tick();
    assert_eq!(u.cells().len(), 0);
    assert_eq!(u.height(), 4);
}

#[test]
fn lone_cell_dies() {
    let mut u = with_cells(4, 4, &[(1, 1)]);
    u.tick();
    assert_eq!(alive_set(&u), Vec::<(u32, u32)>::new());
}

#[test]
fn render_draws_rows() {
    let u = Universe::new(2, 2, &[true, false, false, true]).unwrap();
    assert_eq!(u.render(), "\u{25FC}\u{25FB}\n\u{25FB}\u{25FC}\n");
}

#[test]
fn render_of_zero_width_has_empty_lines() {
    let u = dead_universe(0, 2);
    assert_eq!(u.render(), "\n\n");
}
