use facecomp::{last_max_index, rank_best_first, total_order_key};

fn key(x: f64) -> i64 {
    total_order_key(x.to_bits())
}

#[test]
fn last_max_index_prefers_the_later_of_equal_scores() {
    assert_eq!(last_max_index(&[3, 7, 7, 1]), Some(2));
    assert_eq!(last_max_index(&[9, 7, 7, 1]), Some(0));
    assert_eq!(last_max_index(&[-5]), Some(0));
    assert_eq!(last_max_index(&[]), None);
}

#[test]
fn last_max_index_agrees_with_max_by_total_cmp() {
    let scores = [0.25f64, 0.75, -1.0, 0.75, 0.5];
    let keys: Vec<i64> = scores.iter().map(|s| key(*s)).collect();
    let expected = (0..scores.len())
        .max_by(|&a, &b| scores[a].total_cmp(&scores[b]))
        .unwrap();
    assert_eq!(last_max_index(&keys), Some(expected));
    assert_eq!(expected, 3);
}

#[test]
fn ranking_lists_best_first_and_keeps_ties_in_order() {
    let keys = [10, 40, 20, 40, 30];
    assert_eq!(rank_best_first(&keys, None), vec![1, 3, 4, 2, 0]);
}

#[test]
fn max_only_trims_the_tail_of_the_ranking() {
    let keys = [10, 40, 20, 40, 30];
    assert_eq!(rank_best_first(&keys, Some(2)), vec![1, 3]);
    assert_eq!(rank_best_first(&keys, Some(1)), vec![1]);
    assert_eq!(rank_best_first(&keys, Some(9)), vec![1, 3, 4, 2, 0]);
    assert_eq!(rank_best_first(&[], Some(3)), Vec::<usize>::new());
    assert_eq!(rank_best_first(&keys, Some(0)), Vec::<usize>::new());
}

#[test]
fn ranking_matches_a_stable_descending_sort_by_total_cmp() {
    let scores = [79.9f64, 29.3, 100.0, 79.9, 0.0, -0.0, 50.0];
    let keys: Vec<i64> = scores.iter().map(|s| key(*s)).collect();
    let mut expected: Vec<usize> = (0..scores.len()).collect();
    expected.sort_by(|&a, &b| scores[b].total_cmp(&scores[a]));
    assert_eq!(rank_best_first(&keys, None), expected);
    assert_eq!(expected, vec![2, 0, 3, 6, 1, 4, 5]);
}

#[test]
fn total_order_key_orders_floats_as_total_cmp_does() {
    let values = [
        f64::NEG_INFINITY,
        -1.5e300,
        -2.0,
        -1.0,
        -f64::MIN_POSITIVE,
        -0.0,
        0.0,
        f64::MIN_POSITIVE,
        0.5,
        1.0,
        f64::MAX,
        f64::INFINITY,
        f64::NAN,
        -f64::NAN,
    ];
    for a in values {
        for b in values {
            assert_eq!(
                key(a).cmp(&key(b)),
                a.total_cmp(&b),
                "keys of {a} and {b} disagree with total_cmp"
            );
        }
    }
}

#[test]
fn total_order_key_exact_values() {
    assert_eq!(total_order_key(0), 0);
    assert_eq!(total_order_key(1.0f64.to_bits()), 0x3FF0_0000_0000_0000);
    assert_eq!(total_order_key(0x8000_0000_0000_0000), -1);
    assert_eq!(total_order_key((-1.0f64).to_bits()), -1 - 0x3FF0_0000_0000_0000);
    assert_eq!(total_order_key(u64::MAX), i64::MIN);
}
