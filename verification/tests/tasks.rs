use profiling::tasks::{
    aggregate_complex_results, binary_tree_sum, fibonacci, generate_complex_data,
    hash_map_operations, heavy_computation, memory_intensive, process_data_pipeline,
    string_processing, transform_complex_data, vector_operations,
};

fn fib(n: u64) -> u64 {
    let (mut a, mut b) = (0u64, 1u64);
    for _ in 0..n {
        let c = a + b;
        a = b;
        b = c;
    }
    a
}

fn squares(n: u64) -> u64 {
    // (n - 1) n (2n - 1) / 6, wrapping at 64 bits
    if n == 0 {
        return 0;
    }
    let n = n as u128;
    (((n - 1) * n * (2 * n - 1) / 6) % (1u128 << 64)) as u64
}

fn report() -> String {
    let mut s = String::new();
    for i in 0..100u64 {
        s.push_str(&format!("Processing item {}: {}\n", i, fib(i % 15)));
    }
    s
}

#[test]
fn fibonacci_follows_the_recursion() {
    assert_eq!(fibonacci(0), 0);
    assert_eq!(fibonacci(1), 1);
    assert_eq!(fibonacci(2), 1);
    assert_eq!(fibonacci(10), 55);
    assert_eq!(fibonacci(30), 832040);
}

#[test]
fn binary_tree_sum_follows_the_closed_form() {
    assert_eq!(binary_tree_sum(0), 1);
    assert_eq!(binary_tree_sum(1), 3);
    assert_eq!(binary_tree_sum(2), 8);
    assert_eq!(binary_tree_sum(3), 19);
    assert_eq!(binary_tree_sum(10), 3 * 1024 - 12);
    assert_eq!(binary_tree_sum(15), 98287);
}

#[test]
fn heavy_computation_sums_squares() {
    assert_eq!(heavy_computation(0), 0);
    assert_eq!(heavy_computation(1), 0);
    assert_eq!(heavy_computation(4), 14);
    assert_eq!(heavy_computation(500), squares(500));
    assert_eq!(heavy_computation(50_000), 41_665_416_675_000);
}

#[test]
fn heavy_computation_wraps_at_64_bits() {
    let n = 4_000_000u64;
    let exact = (n as u128 - 1) * n as u128 * (2 * n as u128 - 1) / 6;
    assert!(exact > u64::MAX as u128);
    assert_eq!(heavy_computation(n), squares(n));
}

#[test]
fn string_processing_writes_a_hundred_lines() {
    let text = string_processing();
    assert_eq!(text.lines().count(), 100);
    assert!(text.starts_with("Processing item 0: 0\nProcessing item 1: 1\nProcessing item 2: 1\n"));
    assert!(text.ends_with("Processing item 99: 34\n"));
    assert_eq!(text, report());
}

#[test]
fn hash_map_operations_keeps_the_last_value_of_each_key() {
    let empty = hash_map_operations(0);
    assert_eq!(empty.len(), 0);
    let map = hash_map_operations(25);
    // the Fibonacci numbers below the tenth: 0 1 1 2 3 5 8 13 21 34
    assert_eq!(map.len(), 9);
    assert_eq!(map.get("key_0"), Some(&squares(20)));
    assert_eq!(map.get("key_1"), Some(&squares(22)));
    assert_eq!(map.get("key_2"), Some(&squares(23)));
    assert_eq!(map.get("key_3"), Some(&squares(24)));
    assert_eq!(map.get("key_5"), Some(&squares(15)));
    assert_eq!(map.get("key_34"), Some(&squares(19)));
    assert_eq!(map.get("key_4"), None);
    assert!(map.contains_key("key_21"));
    assert!(!map.contains_key("key_55"));
}

#[test]
fn hash_map_operations_takes_the_value_index_modulo_500() {
    let map = hash_map_operations(1000);
    assert_eq!(map.len(), 9);
    assert_eq!(map.get("key_34"), Some(&squares(499)));
    assert_eq!(map.get("key_0"), Some(&squares(490)));
}

#[test]
fn vector_operations_lists_each_number_once_in_order() {
    assert_eq!(vector_operations(0), Vec::<u64>::new());
    assert_eq!(vector_operations(1), vec![0]);
    assert_eq!(vector_operations(3), vec![0, 1]);
    assert_eq!(vector_operations(7), vec![0, 1, 2, 3, 5, 8]);
    let all = vec![0, 1, 2, 3, 5, 8, 13, 21, 34, 55, 89, 144, 233, 377];
    assert_eq!(vector_operations(15), all);
    assert_eq!(vector_operations(1000), all);
    // the same as sorting and removing neighbours that repeat
    let mut expected: Vec<u64> = (0..40u64).map(|x| fib(x % 15)).collect();
    expected.sort_unstable();
    expected.dedup();
    assert_eq!(vector_operations(40), expected);
}

#[test]
fn memory_intensive_makes_ten_thousand_items() {
    let data = memory_intensive();
    assert_eq!(data.len(), 10_000);
    let report = report();
    assert_eq!(data[0], format!("Item 0: {}", report));
    assert_eq!(data[17], format!("Item 17: {}", report));
    assert_eq!(data[9_999], format!("Item 9999: {}", report));
}

#[test]
fn generate_complex_data_pairs_reports_with_tree_sums() {
    assert!(generate_complex_data(0).is_empty());
    let data = generate_complex_data(12);
    assert_eq!(data.len(), 12);
    let report = report();
    for (i, (key, value)) in data.iter().enumerate() {
        assert_eq!(*key, report);
        let depth = (i % 10) as u64;
        assert_eq!(*value, 3 * (1u64 << depth) - depth - 2);
    }
    assert_eq!(data[11].1, 3);
}

#[test]
fn transform_complex_data_renames_and_recomputes() {
    let data = vec![("a".to_string(), 3), (String::new(), 1004), ("a".to_string(), 999)];
    let out = transform_complex_data(data);
    assert_eq!(
        out,
        vec![
            ("processed_a".to_string(), 5),
            ("processed_".to_string(), 14),
            ("processed_a".to_string(), squares(999)),
        ]
    );
}

#[test]
fn aggregate_complex_results_lets_the_later_entry_win() {
    let data = vec![
        ("a".to_string(), 1),
        ("b".to_string(), 2),
        ("a".to_string(), 3),
        ("c".to_string(), 4),
        ("b".to_string(), 5),
    ];
    let map = aggregate_complex_results(data);
    assert_eq!(map.len(), 3);
    assert_eq!(map.get("a"), Some(&3));
    assert_eq!(map.get("b"), Some(&5));
    assert_eq!(map.get("c"), Some(&4));
    assert_eq!(map.get("d"), None);
    assert_eq!(aggregate_complex_results(vec![]).len(), 0);
}

#[test]
fn process_data_pipeline_ends_with_one_key() {
    assert_eq!(process_data_pipeline(0).len(), 0);
    let map = process_data_pipeline(150);
    assert_eq!(map.len(), 1);
    let key = format!("processed_{}", report());
    // the last entry has the tree sum of depth 9, which is 1525
    assert_eq!(map.get(&key), Some(&squares(525)));
    let map = process_data_pipeline(3);
    // depth 2 gives the tree sum 8
    assert_eq!(map.get(&key), Some(&squares(8)));
}
