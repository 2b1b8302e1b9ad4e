use buddhabrot::cell::Cell;

#[test]
fn cell_from_index_form_index_is_same() {
    let cell = Cell::new(1, 2);
    for grid_size in 100..1000 {
        let other = Cell::from_index(cell.index(grid_size), grid_size);
        assert_eq!(cell, other);
    }
}

#[test]
fn index_is_row_times_width_plus_column() {
    let cell = Cell::new(1, 2);
    assert_eq!(cell.index_2d(100), (52, 52));
    assert_eq!(cell.index(100), 52 * 100 + 52);
    let cell = Cell::new(-51, -50);
    assert_eq!(cell.index_2d(100), (0, 0));
    assert_eq!(cell.index(100), 0);
    let cell = Cell::new(48, 7);
    assert_eq!(cell.index_2d(100), (99, 57));
    assert_eq!(cell.index(100), 5799);
}

#[test]
fn from_index_takes_column_and_row_apart() {
    assert_eq!(Cell::from_index(0, 100), Cell::new(-51, -50));
    assert_eq!(Cell::from_index(5799, 100), Cell::new(48, 7));
    assert_eq!(Cell::from_index_2d(52, 52, 100), Cell::new(1, 2));
    assert_eq!(Cell::from_index_2d(3, 4, 7), Cell::new(-1, 1));
}

#[test]
fn every_cell_of_the_window_is_found_again_from_its_index() {
    for grid_size in [1usize, 2, 3, 7, 100] {
        let half = (grid_size / 2) as i32;
        for x in (-half - 1)..(grid_size as i32 - half - 1) {
            for y in -half..(grid_size as i32 - half) {
                let cell = Cell::new(x, y);
                assert_eq!(Cell::from_index(cell.index(grid_size), grid_size), cell);
            }
        }
        for index in 0..grid_size * grid_size {
            assert_eq!(Cell::from_index(index, grid_size).index(grid_size), index);
        }
    }
}

#[test]
fn a_cell_right_of_the_last_column_shares_its_index() {
    let outside = Cell::new(49, 0);
    let inside = Cell::new(-51, 1);
    assert_eq!(outside.index(100), inside.index(100));
    assert_eq!(Cell::from_index(outside.index(100), 100), inside);
}

#[test]
fn neighbors_are_right_above_left_below() {
    let cell = Cell::new(3, -4);
    assert_eq!(
        cell.get_neighbors(),
        vec![Cell::new(4, -4), Cell::new(3, -3), Cell::new(2, -4), Cell::new(3, -5)]
    );
}

#[test]
fn dummy_is_the_origin() {
    assert_eq!(Cell::dummy(), Cell::new(0, 0));
}

#[test]
fn only_cells_below_the_axis_are_negativ() {
    assert!(Cell::new(5, -1).is_y_negativ());
    assert!(!Cell::new(5, 0).is_y_negativ());
    assert!(!Cell::new(-5, 1).is_y_negativ());
}
