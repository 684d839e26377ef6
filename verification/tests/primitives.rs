use entities::primitives::abs;
use entities::primitives::intersection_len;
use entities::primitives::min;
use entities::primitives::sort_by;
use entities::primitives::union_len;
use entities::primitives::uniq;
use entities::primitives::SortOrder;

#[test]
fn intersection_counts_items_of_the_first_list() {
    assert_eq!(intersection_len(&[1, 2, 3], &[2, 3, 4]), 2);
    assert_eq!(intersection_len(&[1, 1, 2], &[1]), 2);
    assert_eq!(intersection_len(&[1], &[1, 1, 2]), 1);
    assert_eq!(intersection_len::<u32>(&[], &[1, 2]), 0);
    assert_eq!(intersection_len::<u32>(&[1, 2], &[]), 0);
    assert_eq!(intersection_len(&['a', 'b'], &['b', 'c']), 1);
}

#[test]
fn union_counts_the_first_list_and_what_the_second_adds() {
    assert_eq!(union_len(&[1, 2, 3], &[2, 3, 4]), 4);
    assert_eq!(union_len(&[1, 1], &[1]), 2);
    assert_eq!(union_len(&[1], &[2, 2]), 3);
    assert_eq!(union_len::<u32>(&[], &[]), 0);
    assert_eq!(union_len::<u32>(&[], &[7, 8]), 2);
    assert_eq!(union_len(&["a".to_string()], &["a".to_string(), "b".to_string()]), 2);
}

#[test]
fn uniq_keeps_first_occurrences_in_order() {
    assert_eq!(uniq(&[3, 1, 3, 2, 1]), vec![3, 1, 2]);
    assert_eq!(uniq::<u32>(&[]), Vec::<u32>::new());
    assert_eq!(uniq(&['a', 'a', 'a']), vec!['a']);
    assert_eq!(uniq(&["b".to_string(), "a".to_string(), "b".to_string()]), vec!["b".to_string(), "a".to_string()]);
}

#[test]
fn min_is_the_least() {
    assert_eq!(min(&[3, 1, 2]), 1);
    assert_eq!(min(&[5]), 5);
    assert_eq!(min(&[2, 2]), 2);
    assert_eq!(min(&[0, usize::MAX]), 0);
}

#[test]
fn abs_drops_the_sign() {
    assert_eq!(abs(-3), 3);
    assert_eq!(abs(3), 3);
    assert_eq!(abs(0), 0);
    assert_eq!(abs(i32::MAX), i32::MAX);
    assert_eq!(abs(i32::MIN + 1), i32::MAX);
}

#[test]
fn sort_by_is_stable_in_both_directions() {
    let items = vec![("a", 2u64), ("b", 1), ("c", 2), ("d", 3), ("e", 1)];

    let mut down = items.clone();
    sort_by(&mut down, |x: &(&str, u64)| x.1, SortOrder::Descending);
    assert_eq!(down, vec![("d", 3), ("a", 2), ("c", 2), ("b", 1), ("e", 1)]);

    let mut up = items.clone();
    sort_by(&mut up, |x: &(&str, u64)| x.1, SortOrder::Ascending);
    assert_eq!(up, vec![("b", 1), ("e", 1), ("a", 2), ("c", 2), ("d", 3)]);

    let mut none: Vec<(&str, u64)> = vec![];
    sort_by(&mut none, |x: &(&str, u64)| x.1, SortOrder::Descending);
    assert!(none.is_empty());

    let mut one = vec![("z", 9u64)];
    sort_by(&mut one, |x: &(&str, u64)| x.1, SortOrder::Ascending);
    assert_eq!(one, vec![("z", 9)]);
}

#[test]
fn sort_by_orders_score_keys_as_the_scores() {
    let scores = [0.0f64, 0.25, 0.599999, 0.6, 1.0, 1.5848931924611136, 3.5];
    let mut keyed: Vec<(usize, u64)> = scores.iter().enumerate().map(|(i, x)| (i, x.to_bits())).rev().collect();
    sort_by(&mut keyed, |x: &(usize, u64)| x.1, SortOrder::Ascending);
    let order: Vec<usize> = keyed.iter().map(|x| x.0).collect();
    assert_eq!(order, vec![0, 1, 2, 3, 4, 5, 6]);
}
