use stream_race::dual::LatencyTable;

#[test]
fn global_merge_keeps_minimum_timestamp() {
    // Minimum wins: whatever the arrival order, the stored pair is the
    // earliest submitted timestamp and the endpoint that submitted it.
    let sig = "s1".to_string();
    let mut table = LatencyTable::new();
    table.update_transaction(&sig, &"a".to_string(), 100, true);
    table.update_transaction(&sig, &"b".to_string(), 50, true);
    table.update_transaction(&sig, &"c".to_string(), 70, true);

    assert_eq!(table.row_count(), 1);
    let row = table.row_at(0);
    assert_eq!(row.signature, "s1");
    assert_eq!(row.transaction_timestamp, Some(50));
    assert_eq!(row.transaction_endpoint.as_deref(), Some("b"));
    assert_eq!(row.account_timestamp, None);
    assert_eq!(row.account_endpoint, None);
}

#[test]
fn global_merge_first_submitter_of_equal_minimum_wins() {
    let sig = "s1".to_string();
    let mut table = LatencyTable::new();
    table.update_account(&sig, &"a".to_string(), 60, true);
    table.update_account(&sig, &"b".to_string(), 60, true);
    let row = table.row_at(0);
    assert_eq!(row.account_timestamp, Some(60));
    assert_eq!(row.account_endpoint.as_deref(), Some("a"));
}

#[test]
fn local_view_keeps_first_sighting() {
    // The local slot rule: set once, never replaced, even by an earlier
    // timestamp.
    let sig = "s1".to_string();
    let mut table = LatencyTable::new();
    table.update_account(&sig, &"a".to_string(), 100, false);
    table.update_account(&sig, &"a".to_string(), 50, false);
    let row = table.row_at(0);
    assert_eq!(row.account_timestamp, Some(100));
}

#[test]
fn slots_are_independent_per_signature() {
    let mut table = LatencyTable::new();
    table.update_account(&"s1".to_string(), &"a".to_string(), 10, true);
    table.update_transaction(&"s2".to_string(), &"b".to_string(), 20, true);
    assert_eq!(table.row_count(), 2);
    assert_eq!(table.slots_of(&"s1".to_string()), Some((Some(10), None)));
    assert_eq!(table.slots_of(&"s2".to_string()), Some((None, Some(20))));
    assert_eq!(table.slots_of(&"s3".to_string()), None);
}
