use bts::collector::{Collector, TopK};

#[test]
fn test_top_k_bound() {
    let mut list: TopK<u32> = TopK::new(3);
    assert_eq!(list.capacity(), 3);
    assert_eq!(list.len(), 0);
    let pushed: [(u32, i128); 7] =
        [(0, 50), (1, 70), (2, 60), (3, 10), (4, 70), (5, 90), (6, 60)];
    for (n, entry) in pushed.iter().enumerate() {
        list.push(*entry);
        assert_eq!(list.len(), (n + 1).min(3));
        let entries = list.entries();
        assert!(entries.windows(2).all(|w| w[0].1 >= w[1].1));
    }
    // equal balances keep the order in which they came
    assert_eq!(list.entries().clone(), vec![(5, 90), (1, 70), (4, 70)]);
}

#[test]
fn test_top_k_order_of_insertion() {
    let mut list: TopK<&str> = TopK::new(5);
    list.push(("a", 10));
    list.push(("b", 30));
    list.push(("c", 20));
    list.push(("d", 30));
    list.push(("e", -5));
    assert_eq!(list.entries().clone(), vec![("b", 30), ("d", 30), ("c", 20), ("a", 10), ("e", -5)]);
    list.push(("f", -5));
    assert_eq!(list.len(), 5);
    assert_eq!(list.entries().last(), Some(&("e", -5)));
    list.push(("g", 25));
    assert_eq!(list.entries().clone(), vec![("b", 30), ("d", 30), ("g", 25), ("c", 20), ("a", 10)]);
}

#[test]
fn test_top_k_without_capacity() {
    let mut list: TopK<u8> = TopK::new(0);
    list.push((1, 1));
    list.push((2, 2));
    assert_eq!(list.len(), 0);
    assert!(list.entries().is_empty());
}

#[test]
fn test_collector_keeps_two_lists() {
    let mut shared: Collector<(usize, usize)> = Collector::new(2);
    shared.push_result(((1, 1), 100), false);
    shared.push_result(((1, 2), 300), false);
    shared.push_result(((1, 3), 50), true);
    shared.push_result(((1, 4), 200), false);
    shared.push_result(((1, 5), 70), true);
    shared.push_result(((1, 6), 60), true);
    assert_eq!(shared.total_balances().clone(), vec![((1, 2), 300), ((1, 4), 200)]);
    assert_eq!(shared.errors().clone(), vec![((1, 5), 70), ((1, 6), 60)]);
    assert_eq!(shared.processed(), 0);
    assert_eq!(shared.increment_iter(), 1);
    assert_eq!(shared.increment_iter(), 2);
    assert_eq!(shared.processed(), 2);
    assert_eq!(shared.total_balances().len(), 2);
}

#[test]
fn test_collector_lists_are_bounded() {
    let mut shared: Collector<u8> = Collector::new(3);
    assert!(shared.total_balances().is_empty() && shared.errors().is_empty());
    for n in 0..10u8 {
        shared.push_result((n, 100 - n as i128), n % 4 == 0);
        let failed = (n as usize) / 4 + 1;
        assert_eq!(shared.errors().len(), failed.min(3));
        assert_eq!(shared.total_balances().len(), (n as usize + 1 - failed).min(3));
    }
    assert_eq!(shared.errors().clone(), vec![(0, 100), (4, 96), (8, 92)]);
    assert_eq!(shared.total_balances().clone(), vec![(1, 99), (2, 98), (3, 97)]);
}
