use dataflow_ops::aggregates::{average_parts, max, min, take_while, RunningProduct, RunningSum};
use dataflow_ops::collatz::collatz_step;
use dataflow_ops::frontier_sum::FrontierSum;
use dataflow_ops::largest;
use dataflow_ops::mode::Mode;
use dataflow_ops::orders::{hash_str, Ag};
use dataflow_ops::shapes::Rectangle;
use std::collections::hash_map::DefaultHasher;
use std::hash::{Hash, Hasher};

#[test]
fn largest_of_list() {
    assert_eq!(largest(&[12, 3, 22, 12, 88, 9]), 88);
    assert_eq!(largest(&[-5]), -5);
    assert_eq!(largest(&[-5, -7, -1, -9]), -1);
}

#[test]
fn running_sum_over_batches() {
    let mut s = RunningSum::new();
    assert_eq!(s.on_batch(&[]), None);
    assert_eq!(s.on_batch(&[0, 1, 2, 3, 4, 5, 6, 7, 8, 9]), Some(45));
    assert_eq!(s.on_batch(&[10, 11]), Some(66));
    assert_eq!(s.on_batch(&[]), Some(66));
    assert_eq!(s.total, Some(66));
}

#[test]
fn running_sum_of_first_hundred() {
    let mut s = RunningSum::new();
    let mut last = None;
    for round in 0..10u64 {
        let batch: Vec<u64> = (round * 10..round * 10 + 10).collect();
        last = s.on_batch(&batch);
    }
    assert_eq!(last, Some(4950));
}

#[test]
fn running_sum_batching_does_not_matter() {
    let mut split = RunningSum::new();
    split.on_batch(&[1, 2]);
    split.on_batch(&[3, 4, 5]);
    let mut whole = RunningSum::new();
    whole.on_batch(&[1, 2, 3, 4, 5]);
    assert_eq!(split.total, whole.total);
    assert_eq!(whole.total, Some(15));
}

#[test]
fn running_sum_reaches_u64_max() {
    let mut s = RunningSum { total: Some(u64::MAX - 3) };
    assert_eq!(s.on_batch(&[1, 2]), Some(u64::MAX));
}

#[test]
fn running_product_over_batches() {
    let mut p = RunningProduct::new();
    assert_eq!(p.on_batch(&[]), None);
    assert_eq!(p.on_batch(&[1, 2, 3, 4, 5]), Some(120));
    assert_eq!(p.on_batch(&[2]), Some(240));
    assert_eq!(p.on_batch(&[0]), Some(0));
    assert_eq!(p.on_batch(&[7]), Some(0));
}

#[test]
fn running_product_batching_does_not_matter() {
    let mut split = RunningProduct::new();
    split.on_batch(&[3]);
    split.on_batch(&[5, 7]);
    let mut whole = RunningProduct::new();
    whole.on_batch(&[3, 5, 7]);
    assert_eq!(split.product, whole.product);
    assert_eq!(whole.product, Some(105));
}

#[test]
fn batch_maximum_and_minimum() {
    let data: Vec<u64> = (25..100).collect();
    assert_eq!(max(&data), 99);
    assert_eq!(min(&data), 25);
    let data: Vec<u64> = (3..10).collect();
    assert_eq!(min(&data), 3);
    assert_eq!(max(&[4, 9, 1, 9, 2]), 9);
    assert_eq!(min(&[4, 9, 1, 9, 2]), 1);
    assert_eq!(max(&[7]), 7);
    assert_eq!(min(&[7]), 7);
}

#[test]
fn take_while_stops_at_first_failure() {
    let data: Vec<u64> = (1..10).collect();
    assert_eq!(take_while(data, |x: &u64| *x < 4), vec![1, 2, 3]);
    assert_eq!(take_while(vec![1u64, 2, 9, 3], |x: &u64| *x < 4), vec![1, 2]);
    assert_eq!(take_while(vec![9u64, 1], |x: &u64| *x < 4), Vec::<u64>::new());
    assert_eq!(take_while(vec![1u64, 2], |x: &u64| *x < 4), vec![1, 2]);
    assert_eq!(take_while(Vec::<u64>::new(), |x: &u64| *x < 4), Vec::<u64>::new());
}

#[test]
fn average_parts_of_range() {
    let data: Vec<u32> = (20..1000).collect();
    let (sum, count) = average_parts(&data);
    assert_eq!(sum, 499_310);
    assert_eq!(count, 980);
    assert_eq!(sum as f64 / count as f64, 509.5);
    assert_eq!(average_parts(&[]), (0, 0));
    assert_eq!(average_parts(&[u32::MAX, u32::MAX]), (2 * u32::MAX as u128, 2));
}

#[test]
fn mode_counts_across_batches() {
    let mut m = Mode::new();
    assert_eq!(m.on_batch(&[]), None);
    assert_eq!(m.on_batch(&[1, 2, 2, 2, 3, 5, 5]), Some((2, 3)));
    assert_eq!(m.count(5), 2);
    assert_eq!(m.count(4), 0);
    assert_eq!(m.on_batch(&[5, 5]), Some((5, 4)));
    assert_eq!(m.on_batch(&[]), Some((5, 4)));
    assert_eq!(m.count(2), 3);
}

#[test]
fn mode_of_constant_batch() {
    let mut m = Mode::new();
    let data = vec![0u64; 20000];
    assert_eq!(m.on_batch(&data), Some((0, 20000)));
}

#[test]
fn mode_tie_gives_one_of_the_most_frequent() {
    let mut m = Mode::new();
    let out = m.on_batch(&[1, 1, 2, 2, 3]);
    assert!(out == Some((1, 2)) || out == Some((2, 2)));
}

#[test]
fn frontier_sum_releases_totals_per_time() {
    let mut f = FrontierSum::new();
    f.on_input(0, &[1, 2, 3]);
    f.on_input(1, &[10]);
    f.on_input(0, &[4]);
    f.on_input(2, &[]);
    assert_eq!(f.on_notify(0), Some(10));
    assert_eq!(f.on_notify(0), None);
    assert_eq!(f.on_notify(2), Some(0));
    assert_eq!(f.on_notify(5), None);
    assert_eq!(f.on_notify(1), Some(10));
}

#[test]
fn frontier_sum_input_then_notify_restores() {
    let mut f = FrontierSum::new();
    f.on_input(7, &[5, 6]);
    assert_eq!(f.on_notify(7), Some(11));
    assert_eq!(f.on_notify(7), None);
}

#[test]
fn frontier_sum_of_large_range() {
    let mut f = FrontierSum::new();
    let data: Vec<u64> = (0..100000).collect();
    f.on_input(0, &data);
    assert_eq!(f.on_notify(0), Some(4_999_950_000));
}

fn reference_hash(s: &str) -> u64 {
    let mut h = DefaultHasher::new();
    s.to_string().hash(&mut h);
    h.finish()
}

#[test]
fn hash_str_matches_default_hasher() {
    let eth = "eth".to_string();
    assert_eq!(hash_str(&eth), reference_hash("eth"));
    assert_eq!(hash_str(&eth), hash_str(&"eth".to_string()));
    assert_ne!(hash_str(&eth), hash_str(&"amazon".to_string()));
    assert_ne!(hash_str(&eth), DefaultHasher::new().finish());
}

#[test]
fn ag_accumulates_sum_and_count() {
    let mut eth = Ag::default();
    assert_eq!((eth.sum, eth.total_count), (0, 0));
    eth.absorb(14);
    eth.absorb(26);
    assert_eq!((eth.sum, eth.total_count), (40, 2));
    assert_eq!(eth.sum as f32 / eth.total_count as f32, 20.0);
    let mut amazon = Ag::default();
    amazon.absorb(10);
    assert_eq!((amazon.sum, amazon.total_count), (10, 1));
}

#[test]
fn rectangle_area() {
    assert_eq!(Rectangle { x: 5, y: 40 }.area(), 200);
    assert_eq!(Rectangle { x: 0, y: 40 }.area(), 0);
    assert_eq!(Rectangle { x: 65535, y: 65537 }.area(), u32::MAX);
}

#[test]
fn collatz_steps() {
    assert_eq!(collatz_step(2), 1);
    assert_eq!(collatz_step(3), 10);
    assert_eq!(collatz_step(10), 5);
    let mut x = 7u64;
    let mut steps = 0;
    while x != 1 {
        x = collatz_step(x);
        steps += 1;
    }
    assert_eq!(steps, 16);
}

#[test]
fn running_sum_order_of_records_does_not_matter() {
    let mut a = RunningSum::new();
    a.on_batch(&[5, 1]);
    a.on_batch(&[]);
    a.on_batch(&[9, 2, 7]);
    let mut b = RunningSum::new();
    b.on_batch(&[7, 9]);
    b.on_batch(&[2, 1, 5]);
    assert_eq!(a.total, b.total);
    assert_eq!(a.total, Some(24));
}

#[test]
fn running_product_zero_absorbs() {
    let mut p = RunningProduct::new();
    assert_eq!(p.on_batch(&[3, 4]), Some(12));
    assert_eq!(p.on_batch(&[5, 0, 6]), Some(0));
    assert_eq!(p.on_batch(&[u64::MAX, u64::MAX]), Some(0));
    assert_eq!(p.on_batch(&[]), Some(0));
}

#[test]
fn take_while_twice_is_take_while_once() {
    let data: Vec<u64> = vec![1, 2, 3, 7, 1, 2];
    let once = take_while(data, |x: &u64| *x < 4);
    let twice = take_while(once.clone(), |x: &u64| *x < 4);
    assert_eq!(once, vec![1, 2, 3]);
    assert_eq!(twice, once);
}

#[test]
fn mode_count_grows_by_at_most_the_batch() {
    let mut m = Mode::new();
    let (_, c1) = m.on_batch(&[4, 4, 1]).unwrap();
    let (_, c2) = m.on_batch(&[1, 1, 1, 9]).unwrap();
    let (_, c3) = m.on_batch(&[9]).unwrap();
    assert_eq!((c1, c2, c3), (2, 4, 4));
    assert!(c1 <= c2 && c2 <= c1 + 4);
    assert!(c2 <= c3 && c3 <= c2 + 1);
}

#[test]
fn mode_two_runs_agree() {
    let batches: Vec<Vec<u64>> = vec![vec![3, 3, 8], vec![8, 8], vec![2]];
    let mut a = Mode::new();
    let mut b = Mode::new();
    for batch in &batches {
        assert_eq!(a.on_batch(batch), b.on_batch(batch));
    }
    for x in [2u64, 3, 8, 5] {
        assert_eq!(a.count(x), b.count(x));
    }
}

#[test]
fn frontier_sum_split_and_order_do_not_matter() {
    let mut a = FrontierSum::new();
    a.on_input(1, &[1, 2, 3]);
    a.on_input(2, &[10]);
    a.on_input(1, &[4]);
    let mut b = FrontierSum::new();
    b.on_input(2, &[10]);
    b.on_input(1, &[4, 3]);
    b.on_input(1, &[2, 1]);
    assert_eq!(a.on_notify(1), b.on_notify(1));
    assert_eq!(a.on_notify(2), b.on_notify(2));
    assert_eq!(a.on_notify(1), None);
}
