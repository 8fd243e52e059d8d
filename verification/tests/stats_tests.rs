use stream_race::dual::LatencyTable;
use stream_race::stats::{percent_tenths, print_global_statistics, print_stream_statistics};

fn sample_table() -> LatencyTable {
    // s1: account by a at 1000, transaction by b at 3000 (delta +2000)
    // s2: transaction by b at 5000 only
    // s3: account by b at 7000, transaction by a at 6000 (delta -1000)
    let mut t = LatencyTable::new();
    t.update_account(&"s1".to_string(), &"a".to_string(), 1000, true);
    t.update_transaction(&"s1".to_string(), &"b".to_string(), 3000, true);
    t.update_transaction(&"s2".to_string(), &"b".to_string(), 5000, true);
    t.update_account(&"s3".to_string(), &"b".to_string(), 7000, true);
    t.update_transaction(&"s3".to_string(), &"a".to_string(), 6000, true);
    t
}

#[test]
fn global_statistics_exact_values() {
    let table = sample_table();
    let stats = print_global_statistics(&table);
    assert_eq!(stats.total_signatures, 3);
    assert_eq!(stats.both_received, 2);
    assert_eq!(stats.account_faster, 1);
    assert_eq!(stats.transaction_faster, 1);

    let account: Vec<(String, u64)> =
        stats.account_wins.iter().map(|w| (w.endpoint.clone(), w.wins)).collect();
    assert_eq!(account.len(), 2);
    assert!(account.contains(&("a".to_string(), 1)));
    assert!(account.contains(&("b".to_string(), 1)));

    let tx: Vec<(String, u64)> =
        stats.transaction_wins.iter().map(|w| (w.endpoint.clone(), w.wins)).collect();
    assert_eq!(tx.len(), 2);
    assert!(tx.contains(&("b".to_string(), 2)));
    assert!(tx.contains(&("a".to_string(), 1)));

    let timing = stats.timing.expect("two rows carry both signals");
    assert_eq!(timing.deltas_sorted, vec![-1000, 2000]);
    assert_eq!(timing.avg_micros, 500);
    assert_eq!(timing.median_micros, 2000);
    assert_eq!(timing.min_micros, -1000);
    assert_eq!(timing.max_micros, 2000);
}

#[test]
fn stream_statistics_use_absolute_gaps() {
    let table = sample_table();
    let stats = print_stream_statistics(&table);
    assert_eq!(stats.total_signatures, 3);
    assert_eq!(stats.both_received, 2);
    assert_eq!(stats.account_first, 1);
    assert_eq!(stats.transaction_first, 1);
    let timing = stats.timing.expect("two rows carry both signals");
    assert_eq!(timing.deltas_sorted, vec![1000, 2000]);
    assert_eq!(timing.avg_micros, 1500);
    assert_eq!(timing.median_micros, 2000);
    assert_eq!(timing.min_micros, 1000);
    assert_eq!(timing.max_micros, 2000);
}

#[test]
fn statistics_with_no_qualifying_signatures_carry_no_timing() {
    let mut table = LatencyTable::new();
    table.update_account(&"s1".to_string(), &"a".to_string(), 10, true);
    let stats = print_global_statistics(&table);
    assert_eq!(stats.total_signatures, 1);
    assert_eq!(stats.both_received, 0);
    assert!(stats.timing.is_none());

    let empty = LatencyTable::new();
    let empty_stats = print_global_statistics(&empty);
    assert_eq!(empty_stats.total_signatures, 0);
    assert!(empty_stats.timing.is_none());
    assert!(empty_stats.account_wins.is_empty());
    assert!(empty_stats.transaction_wins.is_empty());
}

#[test]
fn negative_average_truncates_toward_zero() {
    let mut table = LatencyTable::new();
    // Deltas -5 and +2: sum -3 over 2 rows, average -1 (toward zero).
    table.update_account(&"s1".to_string(), &"a".to_string(), 105, true);
    table.update_transaction(&"s1".to_string(), &"a".to_string(), 100, true);
    table.update_account(&"s2".to_string(), &"a".to_string(), 100, true);
    table.update_transaction(&"s2".to_string(), &"a".to_string(), 102, true);
    let stats = print_global_statistics(&table);
    let timing = stats.timing.unwrap();
    assert_eq!(timing.deltas_sorted, vec![-5, 2]);
    assert_eq!(timing.avg_micros, -1);
}

#[test]
fn percent_tenths_rounds_down() {
    assert_eq!(percent_tenths(1, 3), 333);
    assert_eq!(percent_tenths(2, 4), 500);
    assert_eq!(percent_tenths(0, 5), 0);
    assert_eq!(percent_tenths(5, 5), 1000);
}
