use buddhabrot::range::{Range, Relation};
use buddhabrot::range_encoder::RangeEncoder;

#[test]
fn range_encoder_new_is_empty() {
    assert!(RangeEncoder::new().is_empty());
}

#[test]
fn range_encoder_after_insertion_isnt_empty() {
    let mut range_encoder = RangeEncoder::new();
    range_encoder.insert(5);
    assert!(!range_encoder.is_empty());
}

#[test]
fn after_insertion_activ_cells_is_1() {
    let mut range_encoder = RangeEncoder::new();
    range_encoder.insert(5);
    assert_eq!(range_encoder.activ_count(), 1);
}

#[test]
fn activ_cells_equal_to_inserted_cells() {
    let mut range_encoder = RangeEncoder::new();
    for i in 1..100 {
        range_encoder.insert(i);
        assert_eq!(range_encoder.activ_count(), i);
    }
}

#[test]
fn activ_cells_equal_to_inserted_cells2() {
    let indecies = [0, 2, 3, 4, 45, 67, 89, 90, 91, 92, 93, 94, 95, 96, 99];
    let mut range_encoder = RangeEncoder::new();
    for index in indecies.iter() {
        range_encoder.insert(*index);
    }
    assert_eq!(range_encoder.activ_count(), indecies.len());
}

#[test]
fn iter_is_equal_to_inserted_cells() {
    let mut range_encoder = RangeEncoder::new();
    let indecies = [0, 2, 3, 4, 45, 67, 89, 90, 91, 92, 93, 94, 95, 96, 99];

    for index in indecies.iter() {
        range_encoder.insert(*index);
    }
    assert_eq!(range_encoder.iter().into_iter().collect::<Vec<_>>(), indecies.to_vec());
}

#[test]
fn range_encoder_cell_is_activ_after_isertion() {
    let mut range_encoder = RangeEncoder::new();
    range_encoder.insert(5);
    range_encoder.is_activ(5);
}

#[test]
fn range_encoder_all_cells_activ_afet_range_insertion() {
    let mut range_encoder = RangeEncoder::new();
    for i in 0..100 {
        range_encoder.insert(i);
    }
    for i in 0..100 {
        assert!(range_encoder.is_activ(i));
    }
}

#[test]
fn range_encoder_after_2_consecutive_insert_only_1_activ_range() {
    let mut range_encoder = RangeEncoder::new();
    range_encoder.insert(5);
    range_encoder.insert(6);
    assert_eq!(range_encoder.get_activ_ranges().len(), 1)
}

#[test]
fn itersection_of_two_empty_range_encoder_is_empty() {
    let range_encoder = RangeEncoder::new();
    let range_encoder2 = RangeEncoder::new();
    let intersection = range_encoder.intersect(&range_encoder2);
    assert!(intersection.is_empty());
}

#[test]
fn itersection_of_empty_and_non_empty_range_encoder_is_empty() {
    let mut range_encoder = RangeEncoder::new();
    range_encoder.insert(5);
    let range_encoder2 = RangeEncoder::new();
    let intersection = range_encoder.intersect(&range_encoder2);
    assert!(intersection.is_empty());
}

#[test]
fn itersection_of_equal_range_encoder_is_equal() {
    let mut range_encoder = RangeEncoder::new();
    range_encoder.insert(5);
    range_encoder.insert(6);
    range_encoder.insert(8);
    let intersection = range_encoder.intersect(&range_encoder);
    assert_eq!(range_encoder, intersection);
}

#[test]
fn intersection_of_ranges_are_all_itersections() {
    let mut range_encoder1 = RangeEncoder::new();
    for index in [5, 6, 7, 12, 13, 22] {
        range_encoder1.insert(index);
    }
    let mut range_encoder2 = RangeEncoder::new();
    for index in [4, 5, 7, 8, 11, 12, 13, 22] {
        range_encoder2.insert(index);
    }
    let intersection = range_encoder1.intersect(&range_encoder2);
    assert_eq!(intersection, range_encoder2.intersect(&range_encoder1));
    for index in [5, 7, 12, 13, 22] {
        assert!(intersection.is_activ(index));
    }
}

#[test]
fn range_encoder_activ_ranges_are_sorted() {
    let mut range_encoder = RangeEncoder::new();
    for index in [54, 61, 17, 12, 143, 22] {
        range_encoder.insert(index);
    }
    for ranges in range_encoder.get_activ_ranges().windows(2) {
        match ranges[0].relation_to(ranges[1]) {
            Relation::Before => {}
            Relation::AdjacentBefore => {}
            Relation::Overlapping => panic!("can't overlapp"),
            Relation::AdjacentAfter => panic!("can't be after"),
            Relation::After => panic!("can't be after"),
        }
    }
}

#[test]
fn range_encoder_is_activ_of_non_activ_cells_is_false() {
    let mut range_encoder = RangeEncoder::new();
    for index in [12, 17, 22, 54, 61, 143] {
        range_encoder.insert(index);
    }
    for index in [0, 1, 3, 40, 200, 1000] {
        assert!(!range_encoder.is_activ(index));
    }
}

#[test]
fn insert_closes_the_gap_between_two_runs() {
    let mut range_encoder = RangeEncoder::new();
    for index in [0, 2, 4] {
        range_encoder.insert(index);
    }
    range_encoder.insert(3);
    assert_eq!(
        range_encoder.get_activ_ranges().clone(),
        vec![Range::new(0, 0), Range::new(2, 4)]
    );
    range_encoder.insert(1);
    assert_eq!(range_encoder.get_activ_ranges().clone(), vec![Range::new(0, 4)]);
    assert_eq!(range_encoder.activ_count(), 5);
}

#[test]
fn insert_extends_a_run_at_either_end() {
    let mut range_encoder = RangeEncoder::new();
    range_encoder.insert(10);
    range_encoder.insert(11);
    range_encoder.insert(9);
    range_encoder.insert(20);
    range_encoder.insert(0);
    assert_eq!(
        range_encoder.get_activ_ranges().clone(),
        vec![Range::new(0, 0), Range::new(9, 11), Range::new(20, 20)]
    );
}

#[test]
fn insert_of_an_active_index_changes_nothing() {
    let mut range_encoder = RangeEncoder::new();
    for index in [3, 4, 5, 9] {
        range_encoder.insert(index);
    }
    let before = range_encoder.clone();
    for index in [3, 4, 5, 9] {
        range_encoder.insert(index);
    }
    assert_eq!(range_encoder, before);
    assert_eq!(range_encoder.activ_count(), 4);
}

#[test]
fn any_order_of_insertion_gives_the_same_runs() {
    let indices: [usize; 12] = [7, 3, 9, 4, 8, 0, 15, 14, 1, 5, 16, 2];
    let mut forward = RangeEncoder::new();
    for index in indices.iter() {
        forward.insert(*index);
    }
    let mut backward = RangeEncoder::new();
    for index in indices.iter().rev() {
        backward.insert(*index);
    }
    assert_eq!(forward, backward);
    assert_eq!(
        forward.get_activ_ranges().clone(),
        vec![Range::new(0, 5), Range::new(7, 9), Range::new(14, 16)]
    );
    for index in 0..20 {
        assert_eq!(forward.is_activ(index), indices.contains(&index));
    }
    assert_eq!(forward.activ_count(), indices.len());
}

#[test]
fn intersection_of_disjoint_sets_is_empty() {
    let mut evens = RangeEncoder::new();
    let mut odds = RangeEncoder::new();
    for index in 0..20 {
        if index % 2 == 0 {
            evens.insert(index);
        } else {
            odds.insert(index);
        }
    }
    assert!(evens.intersect(&odds).is_empty());
    assert!(odds.intersect(&evens).is_empty());
}

#[test]
fn intersection_cuts_runs_at_both_ends() {
    let mut long = RangeEncoder::new();
    for index in 0..=10 {
        long.insert(index);
    }
    let mut pieces = RangeEncoder::new();
    for index in [2, 3, 5, 6, 10, 11, 12] {
        pieces.insert(index);
    }
    let expected = vec![Range::new(2, 3), Range::new(5, 6), Range::new(10, 10)];
    assert_eq!(long.intersect(&pieces).get_activ_ranges().clone(), expected);
    assert_eq!(pieces.intersect(&long).get_activ_ranges().clone(), expected);
}

#[test]
fn insert_at_the_upper_end_of_the_index_range() {
    let mut range_encoder = RangeEncoder::new();
    range_encoder.insert(usize::MAX);
    range_encoder.insert(usize::MAX - 1);
    range_encoder.insert(0);
    assert!(range_encoder.is_activ(usize::MAX));
    assert!(!range_encoder.is_activ(usize::MAX - 2));
    assert_eq!(
        range_encoder.get_activ_ranges().clone(),
        vec![Range::new(0, 0), Range::new(usize::MAX - 1, usize::MAX)]
    );
    assert_eq!(range_encoder.activ_count(), 3);
}
