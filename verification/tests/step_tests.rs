use game_of_life::grid::{is_well_formed, LifeError};
use game_of_life::step::{calculate_rule, run_simulation_step, try_simulation_step};

fn blinker_horizontal() -> Vec<Vec<bool>> {
    vec![
        vec![false, false, false],
        vec![true, true, true],
        vec![false, false, false],
    ]
}

#[test]
fn step_preserves_dimensions() {
    let grid = blinker_horizontal();
    let out = run_simulation_step(grid);
    assert_eq!(out.len(), 3);
    for row in &out {
        assert_eq!(row.len(), 3);
    }

    let wide = vec![vec![true, false, true, false, true]; 2];
    let out = run_simulation_step(wide);
    assert_eq!(out.len(), 2);
    for row in &out {
        assert_eq!(row.len(), 5);
    }
}

#[test]
fn blinker_oscillates() {
    let out = run_simulation_step(blinker_horizontal());
    let vertical = vec![
        vec![false, true, false],
        vec![false, true, false],
        vec![false, true, false],
    ];
    assert_eq!(out, vertical);
    let back = run_simulation_step(out);
    assert_eq!(back, blinker_horizontal());
}

#[test]
fn block_still_life_is_stable() {
    let block = vec![
        vec![false, false, false, false],
        vec![false, true, true, false],
        vec![false, true, true, false],
        vec![false, false, false, false],
    ];
    let mut grid = block.clone();
    for _ in 0..5 {
        grid = run_simulation_step(grid);
        assert_eq!(grid, block);
    }
}

#[test]
fn all_dead_grid_stays_dead() {
    let dead = vec![vec![false; 7]; 4];
    let out = run_simulation_step(dead.clone());
    assert_eq!(out, dead);

    let dead1 = vec![vec![false]];
    let out = run_simulation_step(dead1.clone());
    assert_eq!(out, dead1);
}

#[test]
fn neighbor_counts_of_blinker() {
    let grid = blinker_horizontal();
    assert_eq!(calculate_rule(&grid, 1, 1), 2);
    assert_eq!(calculate_rule(&grid, 0, 0), 2);
    assert_eq!(calculate_rule(&grid, 1, 0), 3);
    assert_eq!(calculate_rule(&grid, 1, 2), 3);
    // an end cell of the line sees only the middle cell
    assert_eq!(calculate_rule(&grid, 0, 1), 1);
}

#[test]
fn neighbor_count_full_grid() {
    let full = vec![vec![true; 3]; 3];
    assert_eq!(calculate_rule(&full, 1, 1), 8);
    assert_eq!(calculate_rule(&full, 0, 0), 3);
    assert_eq!(calculate_rule(&full, 1, 0), 5);
}

#[test]
fn overcrowded_cells_die() {
    let full = vec![vec![true; 3]; 3];
    let out = run_simulation_step(full);
    // corners keep 3 neighbors and live; the center (8) and edges (5) die
    let expected = vec![
        vec![true, false, true],
        vec![false, false, false],
        vec![true, false, true],
    ];
    assert_eq!(out, expected);
}

#[test]
fn checked_step_rejects_empty_grid() {
    assert_eq!(
        try_simulation_step(Vec::new()),
        Err(LifeError::InvalidDimension)
    );
    assert_eq!(
        try_simulation_step(vec![Vec::new(), Vec::new()]),
        Err(LifeError::InvalidDimension)
    );
}

#[test]
fn checked_step_rejects_jagged_grid() {
    let jagged = vec![vec![true, false], vec![true]];
    assert_eq!(try_simulation_step(jagged), Err(LifeError::ShapeMismatch));
}

#[test]
fn checked_step_accepts_well_formed_grid() {
    let grid = blinker_horizontal();
    assert!(is_well_formed(&grid));
    let out = try_simulation_step(grid).unwrap();
    assert_eq!(out[0], vec![false, true, false]);
}

#[test]
fn well_formedness_check() {
    assert!(!is_well_formed(&Vec::new()));
    assert!(!is_well_formed(&vec![Vec::new()]));
    assert!(!is_well_formed(&vec![vec![true], vec![true, false]]));
    assert!(is_well_formed(&vec![vec![true], vec![false]]));
}
