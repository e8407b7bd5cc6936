use game_of_life::universe::{Cell, Universe, UniverseError};

/// A grid with the listed cells alive and every other cell dead.
fn grid(width: u32, height: u32, alive: &[(u32, u32)]) -> Universe {
    let mut coins = vec![false; (width * height) as usize];
    for &(x, y) in alive {
        coins[(y * width + x) as usize] = true;
    }
    Universe::new(width, height, &coins).unwrap()
}

/// Coins from a small linear congruential generator with a fixed seed.
fn seeded_coins(n: usize, seed: u64) -> Vec<bool> {
    let mut state = seed;
    let mut coins = Vec::with_capacity(n);
    for _ in 0..n {
        state = state.wrapping_mul(6364136223846793005).wrapping_add(1442695040888963407);
        coins.push((state >> 33) & 1 == 1);
    }
    coins
}

fn alive_positions(u: &Universe) -> Vec<(u32, u32)> {
    let w = u.width();
    let mut out = Vec::new();
    for (k, c) in u.cells().iter().enumerate() {
        if *c == Cell::Alive {
            out.push((k as u32 % w, k as u32 / w));
        }
    }
    out
}

#[test]
fn test() {
    let coins = seeded_coins(64 * 64, 7);
    let mut u = Universe::new(64, 64, &coins).unwrap();
    println!("{}", u.render());
    u.tick();
    println!("{}", u.render());
    assert_eq!(u.cells().len(), 64 * 64);
}

#[test]
fn new_takes_one_coin_per_cell() {
    let u = Universe::new(3, 2, &vec![true, false, false, true, true, false]).unwrap();
    assert_eq!(u.width(), 3);
    assert_eq!(u.height(), 2);
    assert_eq!(
        u.cells(),
        &[Cell::Alive, Cell::Dead, Cell::Dead, Cell::Alive, Cell::Alive, Cell::Dead][..]
    );
}

#[test]
fn zero_width_is_rejected() {
    assert_eq!(Universe::new(0, 5, &vec![]).err(), Some(UniverseError::InvalidDimension));
}

#[test]
fn zero_height_is_rejected() {
    assert_eq!(Universe::new(5, 0, &vec![]).err(), Some(UniverseError::InvalidDimension));
}

#[test]
fn cell_count_is_kept_by_tick() {
    let mut u = Universe::new(7, 3, &seeded_coins(21, 3)).unwrap();
    for _ in 0..5 {
        assert_eq!(u.cells().len(), 21);
        u.tick();
        assert_eq!(u.width(), 7);
        assert_eq!(u.height(), 3);
    }
    assert_eq!(u.cells().len(), 21);
}

#[test]
fn neighbours_wrap_around_the_corners() {
    // (0, 0) is dead; its live neighbours (3, 3), (3, 0) and (0, 3) all lie
    // across an edge, so it is born.
    let mut u = grid(4, 4, &[(3, 3), (3, 0), (0, 3)]);
    u.tick();
    assert_eq!(u.cells()[0], Cell::Alive);
    // (3, 3) is dead; its live neighbours (0, 0), (0, 3) and (3, 0) lie
    // across an edge too.
    let mut v = grid(4, 4, &[(0, 0), (0, 3), (3, 0)]);
    v.tick();
    assert_eq!(v.cells()[15], Cell::Alive);
}

#[test]
fn block_is_a_still_life() {
    let start = [(1, 1), (2, 1), (1, 2), (2, 2)];
    let mut u = grid(6, 6, &start);
    let before = u.cells().to_vec();
    for _ in 0..4 {
        u.tick();
        assert_eq!(u.cells(), &before[..]);
    }
    assert_eq!(alive_positions(&u), start.to_vec());
}

#[test]
fn blinker_oscillates_with_period_two() {
    let mut u = grid(5, 5, &[(1, 2), (2, 2), (3, 2)]);
    u.tick();
    assert_eq!(alive_positions(&u), vec![(2, 1), (2, 2), (2, 3)]);
    u.tick();
    assert_eq!(alive_positions(&u), vec![(1, 2), (2, 2), (3, 2)]);
}

#[test]
fn dead_cell_with_three_neighbours_is_born() {
    let mut u = grid(6, 6, &[(1, 1), (3, 1), (2, 3)]);
    u.tick();
    assert_eq!(u.cells()[2 * 6 + 2], Cell::Alive);
}

#[test]
fn dead_cell_with_two_or_four_neighbours_stays_dead() {
    let mut u = grid(6, 6, &[(1, 1), (3, 1)]);
    u.tick();
    assert_eq!(u.cells()[2 * 6 + 2], Cell::Dead);
    let mut v = grid(6, 6, &[(1, 1), (3, 1), (1, 3), (3, 3)]);
    v.tick();
    assert_eq!(v.cells()[2 * 6 + 2], Cell::Dead);
}

#[test]
fn lonely_cells_die() {
    let mut u = grid(6, 6, &[(2, 2)]);
    u.tick();
    assert!(alive_positions(&u).is_empty());
    let mut v = grid(6, 6, &[(2, 2), (3, 2)]);
    v.tick();
    assert!(alive_positions(&v).is_empty());
}

#[test]
fn crowded_cell_dies() {
    // (2, 2) has four live neighbours.
    let mut u = grid(7, 7, &[(2, 2), (1, 1), (3, 1), (1, 3), (3, 3)]);
    u.tick();
    assert_eq!(u.cells()[2 * 7 + 2], Cell::Dead);
}

#[test]
fn live_cell_with_two_neighbours_survives() {
    let mut u = grid(6, 6, &[(2, 2), (1, 1), (3, 3)]);
    u.tick();
    assert_eq!(u.cells()[2 * 6 + 2], Cell::Alive);
}

#[test]
fn render_draws_one_line_per_row() {
    let u = grid(3, 2, &[(0, 0), (2, 1)]);
    assert_eq!(u.render(), "\u{25FC}\u{25FB}\u{25FB}\n\u{25FB}\u{25FB}\u{25FC}\n");
}

#[test]
fn render_twice_gives_the_same_text() {
    let u = Universe::new(9, 4, &seeded_coins(36, 11)).unwrap();
    let first = u.render();
    let second = u.render();
    assert_eq!(first, second);
    assert_eq!(first.lines().count(), 4);
}

#[test]
fn all_dead_grid_stays_dead() {
    let mut u = grid(5, 4, &[]);
    for _ in 0..3 {
        u.tick();
        assert!(u.cells().iter().all(|c| *c == Cell::Dead));
    }
}

#[test]
fn one_by_one_grid() {
    let mut u = grid(1, 1, &[(0, 0)]);
    u.tick();
    assert_eq!(u.cells(), &[Cell::Dead][..]);
}
