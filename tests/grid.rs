use conway_life::conway::{
    checked_live_neighbor_count, get_live_neighbor_count, live_cells, update, GridError, GridWorld,
    STATE,
};

fn is_alive(g: &GridWorld, row: usize, col: usize) -> bool {
    g.grid_[row][col].state_ == STATE::ALIVE
}

fn assert_border_dead(g: &GridWorld) {
    for row in 0..g.rows_ {
        for col in 0..g.cols_ {
            if row == 0 || col == 0 || row == g.rows_ - 1 || col == g.cols_ - 1 {
                assert!(!is_alive(g, row, col));
                assert_eq!(g.grid_[row][col].ticks_alive_, 0);
            }
        }
    }
}

#[test]
fn new_pads_dimensions() {
    let g = GridWorld::new(3, 4);
    assert_eq!(g.rows_, 5);
    assert_eq!(g.cols_, 6);
    assert_eq!(g.ticks_, 0);
    assert_eq!(g.grid_.len(), 5);
    for row in 0..5 {
        assert_eq!(g.grid_[row].len(), 6);
        for col in 0..6 {
            assert_eq!(g.grid_[row][col].row_pos_, row);
            assert_eq!(g.grid_[row][col].col_pos_, col);
            assert_eq!(g.grid_[row][col].ticks_alive_, 0);
        }
    }
}

#[test]
fn new_seeds_interior_of_column_two() {
    let g = GridWorld::new(5, 5);
    assert_eq!(g.rows_, 7);
    assert_eq!(g.cols_, 7);
    for row in 0..7 {
        for col in 0..7 {
            let expected = col == 2 && row >= 1 && row <= 5;
            assert_eq!(is_alive(&g, row, col), expected);
        }
    }
}

#[test]
fn new_single_column_has_no_seed() {
    let g = GridWorld::new(3, 1);
    assert_eq!(g.cols_, 3);
    assert!(live_cells(&g).is_empty());
    assert_border_dead(&g);
}

#[test]
fn new_is_deterministic() {
    let a = GridWorld::new(4, 6);
    let b = GridWorld::new(4, 6);
    assert_eq!(a.rows_, b.rows_);
    assert_eq!(a.cols_, b.cols_);
    assert_eq!(a.ticks_, b.ticks_);
    for row in 0..a.rows_ {
        for col in 0..a.cols_ {
            let (x, y) = (a.grid_[row][col], b.grid_[row][col]);
            assert_eq!(x.row_pos_, y.row_pos_);
            assert_eq!(x.col_pos_, y.col_pos_);
            assert!(x.state_ == y.state_);
            assert_eq!(x.ticks_alive_, y.ticks_alive_);
        }
    }
}

#[test]
fn stripe_after_one_update() {
    let g = GridWorld::new(5, 5);
    let h = update(&g, 1);
    assert_eq!(h.ticks_, 1);
    assert_eq!(h.rows_, 7);
    assert_eq!(h.cols_, 7);
    // The ends of the stripe have one neighbour and die; the three middle
    // cells have two and stay; columns 1 and 3 beside them have three and are
    // born. The result is the 3 x 3 square of rows 2..=4, columns 1..=3.
    for row in 0..7 {
        for col in 0..7 {
            let alive = (2..=4).contains(&row) && (1..=3).contains(&col);
            assert_eq!(is_alive(&h, row, col), alive);
            assert_eq!(h.grid_[row][col].ticks_alive_, if alive { 1 } else { 0 });
        }
    }
    assert_eq!(get_live_neighbor_count(2, 1, &g), 1);
    assert_eq!(get_live_neighbor_count(2, 3, &g), 2);
    assert_eq!(get_live_neighbor_count(1, 3, &g), 3);
    assert_eq!(get_live_neighbor_count(3, 3, &g), 3);
    assert_eq!(get_live_neighbor_count(1, 1, &g), 2);
    assert_eq!(get_live_neighbor_count(4, 3, &g), 0);
    assert_border_dead(&h);
}

#[test]
fn border_stays_dead_over_generations() {
    let mut g = GridWorld::new(6, 6);
    for gen in 1..20u32 {
        g = update(&g, gen);
        assert_eq!(g.ticks_, gen);
        assert_eq!(g.rows_, 8);
        assert_eq!(g.cols_, 8);
        assert_border_dead(&g);
    }
}

#[test]
fn neighbor_count_full_and_empty() {
    let mut seed = Vec::new();
    for row in 1..=3 {
        for col in 1..=3 {
            seed.push((row, col));
        }
    }
    let g = GridWorld::with_seed(3, 3, &seed).unwrap();
    assert_eq!(get_live_neighbor_count(2, 2, &g), 8);
    assert_eq!(get_live_neighbor_count(1, 1, &g), 3);
    assert_eq!(get_live_neighbor_count(2, 1, &g), 5);
    let empty = GridWorld::with_seed(3, 3, &Vec::new()).unwrap();
    assert_eq!(get_live_neighbor_count(2, 2, &empty), 0);
    for row in 1..=3 {
        for col in 1..=3 {
            assert!(get_live_neighbor_count(col, row, &g) <= 8);
        }
    }
}

#[test]
fn checked_count_rejects_border() {
    let g = GridWorld::new(3, 3);
    assert_eq!(checked_live_neighbor_count(2, 2, &g), Ok(2));
    assert_eq!(
        checked_live_neighbor_count(0, 2, &g),
        Err(GridError::OutOfRange { row: 2, col: 0 })
    );
    assert_eq!(
        checked_live_neighbor_count(2, 4, &g),
        Err(GridError::OutOfRange { row: 4, col: 2 })
    );
    assert_eq!(
        checked_live_neighbor_count(9, 9, &g),
        Err(GridError::OutOfRange { row: 9, col: 9 })
    );
}

#[test]
fn with_seed_places_cells() {
    let g = GridWorld::with_seed(4, 5, &vec![(1, 1), (4, 5), (2, 3)]).unwrap();
    assert_eq!(g.rows_, 6);
    assert_eq!(g.cols_, 7);
    assert_eq!(live_cells(&g), vec![(1, 1), (2, 3), (4, 5)]);
    assert_border_dead(&g);
}

#[test]
fn with_seed_rejects_border_coordinate() {
    let r = GridWorld::with_seed(4, 4, &vec![(1, 1), (0, 2), (5, 5)]);
    assert_eq!(r.err(), Some(GridError::OutOfRange { row: 0, col: 2 }));
    let r = GridWorld::with_seed(4, 4, &vec![(2, 5)]);
    assert_eq!(r.err(), Some(GridError::OutOfRange { row: 2, col: 5 }));
    let r = GridWorld::with_seed(4, 4, &vec![(2, 4), (4, 1)]);
    assert!(r.is_ok());
}

#[test]
fn block_is_still_life() {
    let block = vec![(2, 2), (2, 3), (3, 2), (3, 3)];
    let mut g = GridWorld::with_seed(4, 4, &block).unwrap();
    for gen in 1..=5u32 {
        g = update(&g, gen);
        assert_eq!(live_cells(&g), block);
        for &(row, col) in &block {
            assert_eq!(g.grid_[row][col].ticks_alive_, gen);
        }
    }
}

#[test]
fn blinker_has_period_two() {
    let horizontal = vec![(3, 2), (3, 3), (3, 4)];
    let vertical = vec![(2, 3), (3, 3), (4, 3)];
    let g = GridWorld::with_seed(5, 5, &horizontal).unwrap();
    let g1 = update(&g, 1);
    assert_eq!(live_cells(&g1), vertical);
    let g2 = update(&g1, 2);
    assert_eq!(live_cells(&g2), horizontal);
    let g3 = update(&g2, 3);
    assert_eq!(live_cells(&g3), vertical);
}

#[test]
fn ticks_follow_streaks() {
    let g = GridWorld::with_seed(5, 5, &vec![(3, 2), (3, 3), (3, 4)]).unwrap();
    let g1 = update(&g, 1);
    assert_eq!(g1.grid_[3][3].ticks_alive_, 1);
    assert_eq!(g1.grid_[3][2].ticks_alive_, 0);
    assert!(!is_alive(&g1, 3, 2));
    assert_eq!(g1.grid_[2][3].ticks_alive_, 1);
    let g2 = update(&g1, 2);
    assert_eq!(g2.grid_[3][3].ticks_alive_, 2);
    assert_eq!(g2.grid_[2][3].ticks_alive_, 0);
    assert_eq!(g2.grid_[3][2].ticks_alive_, 1);
    let g3 = update(&g2, 3);
    assert_eq!(g3.grid_[3][3].ticks_alive_, 3);
}

#[test]
fn ticks_saturate() {
    let block = vec![(1, 1), (1, 2), (2, 1), (2, 2)];
    let mut g = GridWorld::with_seed(2, 2, &block).unwrap();
    g.grid_[1][1].ticks_alive_ = u32::MAX;
    g.grid_[1][2].ticks_alive_ = u32::MAX - 1;
    let h = update(&g, 7);
    assert_eq!(h.grid_[1][1].ticks_alive_, u32::MAX);
    assert_eq!(h.grid_[1][2].ticks_alive_, u32::MAX);
    assert_eq!(h.grid_[2][2].ticks_alive_, 1);
}

#[test]
fn corner_of_three_becomes_block() {
    // The fourth corner has three live neighbours and is born; the three
    // others have two each and stay. A lone cell dies.
    let g = GridWorld::with_seed(3, 3, &vec![(1, 1), (1, 2), (2, 1)]).unwrap();
    let h = update(&g, 1);
    assert_eq!(live_cells(&h), vec![(1, 1), (1, 2), (2, 1), (2, 2)]);
    assert_eq!(h.grid_[2][2].ticks_alive_, 1);
    assert_eq!(h.grid_[1][1].ticks_alive_, 1);
    let lone = GridWorld::with_seed(3, 3, &vec![(2, 2)]).unwrap();
    assert!(live_cells(&update(&lone, 1)).is_empty());
}
