use life_engine::seed::{seed, seed_gosper};

fn live_count(grid: &[u8]) -> usize {
    grid.iter().filter(|&&c| c == 1).count()
}

#[test]
fn seed_places_glider_and_r_pentomino() {
    let width = 200;
    let height = 200;
    let mut grid = vec![7u8; width * height];
    seed(&mut grid, width, height);

    // glider anchored at the center (100, 100)
    for (dx, dy) in [(1, 0), (2, 1), (0, 2), (1, 2), (2, 2)] {
        let (x, y) = (100 + dx, 100 + dy);
        assert_eq!(grid[y * width + x], 1, "glider cell ({x}, {y})");
    }
    // r-pentomino anchored at (40, 80)
    for (dx, dy) in [(1, 0), (2, 0), (0, 1), (1, 1), (1, 2)] {
        let (x, y) = (40 + dx, 80 + dy);
        assert_eq!(grid[y * width + x], 1, "r-pentomino cell ({x}, {y})");
    }
    assert_eq!(live_count(&grid), 10);
}

#[test]
fn seed_wraps_patterns_on_small_grids() {
    let width = 8;
    let height = 8;
    let mut grid = vec![0u8; width * height];
    seed(&mut grid, width, height);
    // every cell is still 0 or 1, and something was placed
    assert!(grid.iter().all(|&c| c == 0 || c == 1));
    assert!(live_count(&grid) > 0);
}

#[test]
fn seed_gosper_places_the_whole_gun() {
    let width = 100;
    let height = 50;
    let mut grid = vec![3u8; width * height];
    seed_gosper(&mut grid, width, height);

    // anchored at (width / 4, height / 2 - 4) = (25, 21)
    let anchor_x = 25;
    let anchor_y = 21;
    // the left square of the gun
    for (dx, dy) in [(0, 4), (0, 5), (1, 4), (1, 5)] {
        let (x, y) = (anchor_x + dx, anchor_y + dy);
        assert_eq!(grid[y * width + x], 1, "gun cell ({x}, {y})");
    }
    // the far right square
    for (dx, dy) in [(34, 2), (34, 3), (35, 2), (35, 3)] {
        let (x, y) = (anchor_x + dx, anchor_y + dy);
        assert_eq!(grid[y * width + x], 1, "gun cell ({x}, {y})");
    }
    assert_eq!(live_count(&grid), 36);
}
