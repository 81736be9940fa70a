use window_systems::strip::LayoutStrip;

#[test]
fn new_strip_is_empty() {
    let strip = LayoutStrip::new(7);
    assert_eq!(strip.id(), 7);
    assert!(strip.all_windows().is_empty());
    assert_eq!(strip.first(), None);
    assert_eq!(strip.index_of(1), None);
}

#[test]
fn empty_columns_are_left_out() {
    let strip = LayoutStrip::from_columns(1, vec![vec![1, 2], vec![], vec![3]]);
    assert_eq!(strip.all_windows(), vec![1, 2, 3]);
    assert_eq!(strip.index_of(2), Some(0));
    assert_eq!(strip.index_of(3), Some(1));
    assert_eq!(strip.first(), Some(1));
}

#[test]
fn append_goes_to_the_right_end() {
    let mut strip = LayoutStrip::from_columns(1, vec![vec![4, 5]]);
    strip.append(6);
    assert_eq!(strip, LayoutStrip::from_columns(1, vec![vec![4, 5], vec![6]]));
}

#[test]
fn remove_drops_an_emptied_column() {
    let mut strip = LayoutStrip::from_columns(1, vec![vec![1], vec![2, 3]]);
    strip.remove(1);
    assert_eq!(strip, LayoutStrip::from_columns(1, vec![vec![2, 3]]));
    strip.remove(2);
    assert_eq!(strip, LayoutStrip::from_columns(1, vec![vec![3]]));
    strip.remove(9);
    assert_eq!(strip.all_windows(), vec![3]);
}

#[test]
fn refresh_keeps_the_order() {
    let mut strip = LayoutStrip::from_columns(1, vec![vec![1], vec![2, 3], vec![4]]);
    strip.refresh(&vec![5, 4, 2]);
    assert_eq!(strip, LayoutStrip::from_columns(1, vec![vec![2], vec![4], vec![5]]));
}

#[test]
fn refresh_twice_changes_nothing_more() {
    let mut strip = LayoutStrip::from_columns(1, vec![vec![1, 2], vec![3]]);
    strip.refresh(&vec![3, 8, 1, 8]);
    let once = strip.clone();
    assert_eq!(once.all_windows(), vec![1, 3, 8]);
    strip.refresh(&vec![3, 8, 1, 8]);
    assert_eq!(strip, once);
}

#[test]
fn refresh_with_nothing_empties_the_strip() {
    let mut strip = LayoutStrip::from_columns(3, vec![vec![1, 2], vec![3]]);
    strip.refresh(&vec![]);
    assert_eq!(strip, LayoutStrip::new(3));
}

#[test]
fn merge_appends_what_is_not_there() {
    let mut strip = LayoutStrip::from_columns(1, vec![vec![1], vec![2, 3]]);
    strip.merge(&LayoutStrip::from_columns(9, vec![vec![4, 2], vec![3], vec![5, 6]]));
    assert_eq!(
        strip,
        LayoutStrip::from_columns(1, vec![vec![1], vec![2, 3], vec![4], vec![5, 6]])
    );
}

#[test]
fn merge_into_an_empty_strip_takes_everything_over() {
    let mut strip = LayoutStrip::new(1);
    strip.merge(&LayoutStrip::from_columns(1, vec![vec![4, 2], vec![3]]));
    assert_eq!(strip, LayoutStrip::from_columns(1, vec![vec![4, 2], vec![3]]));
}
