use buddhabrot::cell::Cell;
use buddhabrot::covarage_grid::CovarageGrid;
use buddhabrot::sample_cells::SampleCells;
use buddhabrot::sampled_cell::SampledCell;
use buddhabrot::sorting::order_by_key;

const GRID_SIZE: usize = 100;

fn cell(k: usize) -> Cell {
    Cell::new((k % 90) as i32 - 45, (k / 90) as i32 - 50)
}

fn records(depths: &[u16]) -> Vec<SampledCell> {
    depths
        .iter()
        .enumerate()
        .map(|(k, depth)| SampledCell::new(cell(k), *depth, GRID_SIZE))
        .collect()
}

#[test]
fn record_keeps_index_and_depth() {
    let record = SampledCell::new(Cell::new(1, 2), 77, GRID_SIZE);
    assert_eq!(record.cell_index, 5252);
    assert_eq!(record.get_highest_iteration(), 77);
    assert_eq!(record.get_cell(GRID_SIZE), Cell::new(1, 2));
}

#[test]
fn first_cells_takes_as_many_records_as_the_limit_says() {
    let sample_cells = SampleCells::new(records(&[900, 70, 70, 31, 30, 29, 20, 2]), GRID_SIZE);
    assert_eq!(
        sample_cells.first_cells(5),
        vec![
            Cell::new(-45, -50),
            Cell::new(-44, -50),
            Cell::new(-43, -50),
            Cell::new(-42, -50),
            Cell::new(-41, -50)
        ]
    );
    assert_eq!(sample_cells.first_cells(1), vec![Cell::new(-45, -50)]);
    assert_eq!(sample_cells.first_cells(0), Vec::<Cell>::new());
    assert_eq!(sample_cells.first_cells(8).len(), 8);
    assert_eq!(sample_cells.first_cells(9).len(), 8);
    assert_eq!(sample_cells.first_cells(usize::MAX).len(), 8);
    assert_eq!(SampleCells::new(Vec::new(), GRID_SIZE).first_cells(3), Vec::<Cell>::new());
}

#[test]
fn a_limit_of_one_keeps_one_of_two_records() {
    let sample_cells = SampleCells::new(records(&[7, 5]), GRID_SIZE);
    assert_eq!(sample_cells.to_cells(1), vec![cell(0)]);
    assert_eq!(sample_cells.to_cells(2).len(), 2);
    assert_eq!(sample_cells.to_cells(3).len(), 2);
    assert_eq!(sample_cells.to_cells(0), Vec::<Cell>::new());
}

#[test]
fn to_cells_holds_the_same_cells_in_another_order() {
    let depths: Vec<u16> = (0..200).map(|k| 1000 - k).collect();
    let sample_cells = SampleCells::new(records(&depths), GRID_SIZE);
    let ordered = sample_cells.first_cells(101);
    assert_eq!(ordered.len(), 101);
    assert_eq!(ordered, (0..101).map(cell).collect::<Vec<_>>());
    let shuffled = sample_cells.to_cells(101);
    assert_eq!(shuffled.len(), 101);
    assert_ne!(shuffled, ordered);
    let key = |cell: &Cell| (cell.x, cell.y);
    let mut sorted_shuffled = shuffled.clone();
    sorted_shuffled.sort_by_key(key);
    let mut sorted_ordered = ordered.clone();
    sorted_ordered.sort_by_key(key);
    assert_eq!(sorted_shuffled, sorted_ordered);
}

#[test]
fn to_covarage_grid_keeps_order_and_size() {
    let sample_cells = SampleCells::new(records(&[50, 40, 30, 20]), GRID_SIZE);
    let grid = sample_cells.to_covarage_grid(3);
    assert_eq!(grid.get_grid_size(), GRID_SIZE);
    assert_eq!(
        grid.get_cells().clone(),
        vec![cell(0), cell(1), cell(2)]
    );
    assert_eq!(sample_cells.to_covarage_grid(10).get_cells().len(), 4);
}

#[test]
fn covarage_grid_hands_back_what_it_was_given() {
    let grid = CovarageGrid::new(7, vec![Cell::new(1, 1), Cell::new(0, -3)]);
    assert_eq!(grid.get_grid_size(), 7);
    assert_eq!(grid.get_cells().clone(), vec![Cell::new(1, 1), Cell::new(0, -3)]);
}

#[test]
fn file_name_holds_the_three_settings() {
    assert_eq!(
        CovarageGrid::get_file_name(100, 30, 16),
        "./gridsize: 100, limit: 30, samples_per_cells: 16.cells"
    );
    assert_eq!(
        CovarageGrid::get_file_name(0, 7, 1024),
        "./gridsize: 0, limit: 7, samples_per_cells: 1024.cells"
    );
}

#[test]
fn order_by_key_lists_positions_by_ascending_key() {
    let keys: Vec<u16> = vec![40, 10, 30, 20, 0, 50];
    assert_eq!(order_by_key(&keys), vec![4, 1, 3, 2, 0, 5]);
    assert_eq!(order_by_key(&Vec::new()), Vec::<usize>::new());
}

#[test]
fn order_by_key_with_equal_keys_is_a_rearrangement() {
    let keys: Vec<u16> = vec![5, 1, 5, 1, 5, 0, 1];
    let order = order_by_key(&keys);
    let mut positions = order.clone();
    positions.sort();
    assert_eq!(positions, vec![0, 1, 2, 3, 4, 5, 6]);
    for pair in order.windows(2) {
        assert!(keys[pair[0]] <= keys[pair[1]]);
    }
}
