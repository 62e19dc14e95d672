use life_engine::game_of_life::{advance_cell, neighbor_count, step_serial, wrap};

fn dead_grid(width: usize, height: usize) -> Vec<u8> {
    vec![0u8; width * height]
}

fn set_cell(grid: &mut Vec<u8>, width: usize, x: usize, y: usize) {
    grid[y * width + x] = 1;
}

#[test]
fn wrap_reduces_into_range() {
    assert_eq!(wrap(0, 5), 0);
    assert_eq!(wrap(4, 5), 4);
    assert_eq!(wrap(5, 5), 0);
    assert_eq!(wrap(7, 5), 2);
    assert_eq!(wrap(-1, 5), 4);
    assert_eq!(wrap(-6, 5), 4);
    assert_eq!(wrap(-5, 5), 0);
}

#[test]
fn advance_cell_follows_rule_table() {
    // live cell: survives only with 2 or 3 neighbors
    for n in 0u8..=8 {
        let expected = if n == 2 || n == 3 { 1 } else { 0 };
        assert_eq!(advance_cell(1, n), expected);
    }
    // dead cell: born only with exactly 3 neighbors
    for n in 0u8..=8 {
        let expected = if n == 3 { 1 } else { 0 };
        assert_eq!(advance_cell(0, n), expected);
    }
}

#[test]
fn corners_are_diagonal_neighbors_across_the_wrap() {
    let width = 4;
    let height = 4;
    let mut grid = dead_grid(width, height);
    set_cell(&mut grid, width, 0, 0);
    assert_eq!(neighbor_count(&grid, width - 1, height - 1, width, height), 1);

    let mut grid = dead_grid(width, height);
    set_cell(&mut grid, width, width - 1, height - 1);
    assert_eq!(neighbor_count(&grid, 0, 0, width, height), 1);
}

#[test]
fn dead_grid_is_a_fixed_point() {
    let width = 6;
    let height = 5;
    let curr = dead_grid(width, height);
    let mut next = vec![9u8; width * height];
    step_serial(&curr, &mut next, width, height);
    assert_eq!(next, dead_grid(width, height));
}

#[test]
fn two_live_cells_die_of_underpopulation() {
    // 3x3 grid, only the center cell and its right neighbor alive; no cell
    // has exactly 3 live neighbors, so one step kills everything.
    let width = 3;
    let height = 3;
    let mut curr = dead_grid(width, height);
    set_cell(&mut curr, width, 1, 1);
    set_cell(&mut curr, width, 2, 1);
    let mut next = dead_grid(width, height);
    step_serial(&curr, &mut next, width, height);
    assert_eq!(next, dead_grid(width, height));
}

#[test]
fn blinker_oscillates_with_period_two() {
    let width = 5;
    let height = 5;
    let mut horizontal = dead_grid(width, height);
    set_cell(&mut horizontal, width, 1, 2);
    set_cell(&mut horizontal, width, 2, 2);
    set_cell(&mut horizontal, width, 3, 2);

    let mut vertical = dead_grid(width, height);
    set_cell(&mut vertical, width, 2, 1);
    set_cell(&mut vertical, width, 2, 2);
    set_cell(&mut vertical, width, 2, 3);

    let mut after_one = dead_grid(width, height);
    step_serial(&horizontal, &mut after_one, width, height);
    assert_eq!(after_one, vertical);

    let mut after_two = dead_grid(width, height);
    step_serial(&after_one, &mut after_two, width, height);
    assert_eq!(after_two, horizontal);
}
