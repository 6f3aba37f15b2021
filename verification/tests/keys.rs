use lvmt_state::keys::{key_in_range, order_keys, starts_with, to_key_prefix_iter_upper_bound, KeyOrder};

#[test]
fn upper_bound_raises_the_last_byte() {
    assert_eq!(to_key_prefix_iter_upper_bound(&[1, 2, 3]), Some(vec![1, 2, 4]));
}

#[test]
fn upper_bound_carries_over_full_bytes() {
    assert_eq!(to_key_prefix_iter_upper_bound(&[1, 255]), Some(vec![2, 0]));
    assert_eq!(to_key_prefix_iter_upper_bound(&[7, 255, 255]), Some(vec![8, 0, 0]));
}

#[test]
fn no_upper_bound_for_the_empty_and_the_greatest_prefix() {
    assert_eq!(to_key_prefix_iter_upper_bound(&[]), None);
    assert_eq!(to_key_prefix_iter_upper_bound(&[255]), None);
    assert_eq!(to_key_prefix_iter_upper_bound(&[255, 255]), None);
}

#[test]
fn keys_are_ordered_byte_by_byte() {
    assert_eq!(order_keys(&[1], &[1, 0]), KeyOrder::Before);
    assert_eq!(order_keys(&[2], &[1, 9]), KeyOrder::After);
    assert_eq!(order_keys(&[], &[]), KeyOrder::Same);
}

#[test]
fn prefixed_keys_lie_in_the_range() {
    let prefix = vec![1, 2];
    let upper = to_key_prefix_iter_upper_bound(&prefix);
    for key in [vec![1, 2], vec![1, 2, 0], vec![1, 2, 255, 255]] {
        assert!(starts_with(&key, &prefix));
        assert!(key_in_range(key.as_slice(), prefix.as_slice(), upper.as_ref()));
    }
    for key in [vec![1], vec![1, 1, 255], vec![1, 3]] {
        assert!(!starts_with(&key, &prefix));
        assert!(!key_in_range(key.as_slice(), prefix.as_slice(), upper.as_ref()));
    }
}

#[test]
fn the_range_of_a_full_byte_prefix_holds_a_stub_of_its_bound() {
    let prefix = vec![1, 255];
    let upper = to_key_prefix_iter_upper_bound(&prefix);
    let key = vec![2];
    assert!(!starts_with(&key, &prefix));
    assert!(key_in_range(key.as_slice(), prefix.as_slice(), upper.as_ref()));
}
