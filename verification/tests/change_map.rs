use lvmt_state::change_map::ChangeMap;

fn sample() -> ChangeMap {
    let mut map = ChangeMap::new();
    map.insert(vec![3], Some(vec![30]));
    map.insert(vec![1], None);
    map.insert(vec![2, 9], Some(vec![]));
    map
}

#[test]
fn changes_are_kept_in_key_order() {
    let map = sample();
    assert_eq!(
        map.into_pairs(),
        vec![(vec![1], None), (vec![2, 9], Some(vec![])), (vec![3], Some(vec![30]))]
    );
}

#[test]
fn the_last_change_to_a_key_counts() {
    let mut map = sample();
    map.insert(vec![3], None);
    map.insert(vec![1], Some(vec![5]));
    assert_eq!(map.get(&[3]), Some(&None));
    assert_eq!(map.get(&[1]), Some(&Some(vec![5])));
    assert_eq!(map.get(&[9]), None);
}

#[test]
fn later_changes_go_over_earlier_ones() {
    let mut map = sample();
    let mut later = ChangeMap::new();
    later.insert(vec![3], None);
    later.insert(vec![4], Some(vec![4]));
    map.apply(&later);
    assert_eq!(map.present_pairs(), vec![(vec![2, 9], vec![]), (vec![4], vec![4])]);
}

#[test]
fn only_a_range_of_later_changes_is_taken() {
    let mut map = ChangeMap::new();
    map.apply_range(&sample(), &vec![2], &Some(vec![3]));
    assert_eq!(map.into_pairs(), vec![(vec![2, 9], Some(vec![]))]);
}

#[test]
fn only_the_prefix_is_taken() {
    let kept = sample().with_prefix(&[2]);
    assert_eq!(kept.into_pairs(), vec![(vec![2, 9], Some(vec![]))]);
}

#[test]
fn changes_are_written_with_a_mark_for_deletions() {
    let mut out = vec![9];
    sample().write_to(&mut out);
    assert_eq!(out, vec![9, 1, 0, 2, 9, 1, 3, 1, 30]);
}
