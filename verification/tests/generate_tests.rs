use game_of_life::generate::generate_grid;
use game_of_life::grid::LifeError;

#[test]
fn same_seed_same_grid() {
    let a = generate_grid(8, 8, 1000).unwrap();
    let b = generate_grid(8, 8, 1000).unwrap();
    assert_eq!(a, b);

    let c = generate_grid(31, 17, 0xDEAD_BEEF).unwrap();
    let d = generate_grid(31, 17, 0xDEAD_BEEF).unwrap();
    assert_eq!(c, d);
}

#[test]
fn different_seeds_differ() {
    let a = generate_grid(16, 16, 1).unwrap();
    let b = generate_grid(16, 16, 2).unwrap();
    assert_ne!(a, b);
}

#[test]
fn generated_grid_has_requested_shape() {
    let grid = generate_grid(13, 7, 42).unwrap();
    assert_eq!(grid.len(), 7);
    for row in &grid {
        assert_eq!(row.len(), 13);
    }
}

#[test]
fn generated_grid_is_mixed() {
    // a 64-cell fill at 50% density that came out all-alive or all-dead
    // would mean the draws ignore the generator
    let grid = generate_grid(8, 8, 1000).unwrap();
    let live = grid.iter().flatten().filter(|&&c| c).count();
    assert!(live > 0);
    assert!(live < 64);
}

#[test]
fn zero_dimension_is_refused() {
    assert_eq!(generate_grid(0, 5, 7), Err(LifeError::InvalidDimension));
    assert_eq!(generate_grid(5, 0, 7), Err(LifeError::InvalidDimension));
    assert_eq!(generate_grid(0, 0, 7), Err(LifeError::InvalidDimension));
}
