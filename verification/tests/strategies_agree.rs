use life_engine::game_of_life::step_serial;
use life_engine::implementations::parallel::step_parallel;
use life_engine::implementations::pool::{step_pool, PoolConfig};
use life_engine::implementations::serial;
use life_engine::implementations::workers::step_workers;
use life_engine::seed::{seed, seed_gosper};

fn glider_grid(width: usize, height: usize) -> Vec<u8> {
    let mut grid = vec![0u8; width * height];
    for (dx, dy) in [(1, 0), (2, 1), (0, 2), (1, 2), (2, 2)] {
        grid[dy * width + dx] = 1;
    }
    grid
}

#[test]
fn all_strategies_produce_identical_generations() {
    let width = 16;
    let height = 16;
    let mut curr = vec![0u8; width * height];
    seed(&mut curr, width, height);

    let mut expected = vec![0u8; width * height];
    step_serial(&curr, &mut expected, width, height);

    let mut from_serial_module = vec![0u8; width * height];
    serial::step_serial(&curr, &mut from_serial_module, width, height);
    assert_eq!(from_serial_module, expected);

    for num_threads in [1, 2, 3, 7, 16] {
        let mut next = vec![0u8; width * height];
        step_parallel(&curr, &mut next, num_threads, width, height);
        assert_eq!(next, expected, "static partition, {num_threads} threads");
    }

    for (num_threads, chunk_size) in [(1, 1), (4, 5), (3, 256), (8, 7)] {
        let mut next = vec![0u8; width * height];
        step_workers(&curr, &mut next, num_threads, chunk_size, width, height);
        assert_eq!(next, expected, "dynamic queue, {num_threads} x {chunk_size}");
    }

    let cfg = PoolConfig { num_threads: 4, chunk_size: 3, width, height };
    let mut pool_curr = curr.clone();
    let mut pool_next = vec![0u8; width * height];
    step_pool(&cfg, &mut pool_curr, &mut pool_next);
    assert_eq!(pool_curr, expected, "pool generation");
    assert_eq!(pool_next, curr, "pool swap hands the old buffer back");
}

#[test]
fn chunk_size_one_matches_serial_on_a_glider() {
    let width = 10;
    let height = 8;
    let curr = glider_grid(width, height);

    let mut expected = vec![0u8; width * height];
    step_serial(&curr, &mut expected, width, height);
    assert_ne!(expected, vec![0u8; width * height], "the glider must not die");

    let mut next = vec![0u8; width * height];
    step_workers(&curr, &mut next, 3, 1, width, height);
    assert_eq!(next, expected);
}

#[test]
fn gosper_seeded_grid_steps_identically_everywhere() {
    let width = 48;
    let height = 24;
    let mut curr = vec![0u8; width * height];
    seed_gosper(&mut curr, width, height);

    let mut expected = vec![0u8; width * height];
    step_serial(&curr, &mut expected, width, height);

    let mut banded = vec![0u8; width * height];
    step_parallel(&curr, &mut banded, 5, width, height);
    assert_eq!(banded, expected);

    let mut chunked = vec![0u8; width * height];
    step_workers(&curr, &mut chunked, 2, 64, width, height);
    assert_eq!(chunked, expected);
}
