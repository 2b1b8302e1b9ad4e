use buddhabrot::range::{Range, Relation};
use buddhabrot::range_encoder::RangeEncoder;

#[test]
fn relation_before_or_after() {
    let range1 = Range::new(5, 10);
    let range2 = Range::new(15, 20);
    assert_eq!(range1.relation_to(range2), Relation::Before);
    assert_eq!(range2.relation_to(range1), Relation::After);
}

#[test]
fn relation_adjacent_before_or_after() {
    let range1 = Range::new(5, 9);
    let range2 = Range::new(10, 20);
    assert_eq!(range1.relation_to(range2), Relation::AdjacentBefore);
    assert_eq!(range2.relation_to(range1), Relation::AdjacentAfter);
}

#[test]
fn relation_overlapping_half() {
    let range1 = Range::new(5, 10);
    let range2 = Range::new(7, 20);
    assert_eq!(range1.relation_to(range2), Relation::Overlapping);
    assert_eq!(range2.relation_to(range1), Relation::Overlapping);
}

#[test]
fn relation_overlapping_one_inside_other() {
    let range1 = Range::new(5, 15);
    let range2 = Range::new(7, 12);
    assert_eq!(range1.relation_to(range2), Relation::Overlapping);
    assert_eq!(range2.relation_to(range1), Relation::Overlapping);
}

#[test]
fn merge_adjacent_before_or_after() {
    let range1 = Range::new(5, 9);
    let range2 = Range::new(10, 20);
    assert_eq!(range1.merge_with(range2), Some(Range::new(5, 20)));
    assert_eq!(range2.merge_with(range1), Some(Range::new(5, 20)));
}

#[test]
fn merge_not_adjacent_before_or_after() {
    let range1 = Range::new(5, 10);
    let range2 = Range::new(15, 20);
    assert_eq!(range1.merge_with(range2), None);
    assert_eq!(range2.merge_with(range1), None);
}

#[test]
fn merge_overlapping_half() {
    let range1 = Range::new(5, 10);
    let range2 = Range::new(7, 20);
    assert_eq!(range1.merge_with(range2), Some(Range::new(5, 20)));
    assert_eq!(range2.merge_with(range1), Some(Range::new(5, 20)));
}

#[test]
fn merge_overlapping_one_inside_other() {
    let range1 = Range::new(5, 15);
    let range2 = Range::new(7, 12);
    assert_eq!(range1.merge_with(range2), Some(Range::new(5, 15)));
    assert_eq!(range2.merge_with(range1), Some(Range::new(5, 15)));
}

#[test]
fn len_of_range_is_end_minus_start_plus_one() {
    let range = Range::new(5, 10);
    assert_eq!(range.len(), 5 + 1);
}

#[test]
fn len_of_from_index_is_1() {
    let range = Range::from_index(5);
    assert_eq!(range.len(), 1);
}

#[test]
fn one_long_range_from_new() {
    let range = Range::new(5, 5);
    assert_eq!(range.len(), 1)
}

#[test]
fn new_is_empty() {
    assert!(RangeEncoder::new().is_empty());
}

#[test]
fn after_insertion_isnt_empty() {
    let mut range_encoder = RangeEncoder::new();
    range_encoder.insert_index(5);
    assert!(!range_encoder.is_empty());
}

#[test]
fn cell_is_activ_after_isertion() {
    let mut range_encoder = RangeEncoder::new();
    range_encoder.insert_index(5);
    range_encoder.is_activ(5);
}

#[test]
fn all_cells_activ_afet_range_insertion() {
    let mut range_encoder = RangeEncoder::new();
    for i in 0..100 {
        range_encoder.insert_index(i);
    }
    for i in 0..100 {
        assert!(range_encoder.is_activ(i));
    }
}

#[test]
fn after_2_consecutive_insert_only_1_activ_range() {
    let mut range_encoder = RangeEncoder::new();
    range_encoder.insert_index(5);
    range_encoder.insert_index(6);
    assert_eq!(range_encoder.get_activ_ranges().len(), 1)
}

#[test]
fn activ_ranges_are_sorted() {
    let mut range_encoder = RangeEncoder::new();
    for index in [54, 61, 17, 12, 143, 22] {
        range_encoder.insert_index(index);
    }
    for ranges in range_encoder.get_activ_ranges().windows(2) {
        match ranges[0].relation_to(ranges[1]) {
            Relation::Before => {}
            Relation::AdjacentBefore => {}
            Relation::Overlapping => panic!("can't overlapp"),
            Relation::AdjacentAfter => panic!("can't be after"),
            Relation::After => panic!("can't be after"),
        }
    }
}

#[test]
fn is_activ_of_non_activ_cells_is_false() {
    let mut range_encoder = RangeEncoder::new();
    for index in [12, 17, 22, 54, 61, 143] {
        range_encoder.insert_index(index);
    }
    for index in [0, 1, 3, 40, 200, 1000] {
        assert!(!range_encoder.is_activ(index));
    }
}

#[test]
fn from_index_form_index_is_same() {
    for grid_size in 100..1000 {
        let cell = buddhabrot::cell::Cell::new(1, 2);
        let other = buddhabrot::cell::Cell::from_index(cell.index(grid_size), grid_size);
        assert_eq!(cell, other);
    }
}

#[test]
fn cell_activ_afte_insertion() {
    let mut grid = buddhabrot::grid::Grid::new(100);
    grid.insert(buddhabrot::cell::Cell::new(10, 5));
    assert!(grid.is_activ(buddhabrot::cell::Cell::new(10, 5)));
}

#[test]
fn area_of_rect_is_width_times_height() {
    let rect = buddhabrot::rect::Rect::new(0, 0, 10, 10);
    assert_eq!(rect.area(), 100);
    let rect = buddhabrot::u_rect::URect::new(0, 0, 10, 10);
    assert_eq!(rect.area(), 100);
}
