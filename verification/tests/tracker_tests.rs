use stream_race::tracker::{Comparator, TransactionData};

fn obs(sig: &str, ts: u64) -> TransactionData {
    TransactionData { timestamp: ts, signature: sig.to_string(), start_time: 0 }
}

#[test]
fn valid_count_counts_distinct_signatures() {
    let mut comp = Comparator::new();
    assert_eq!(comp.get_valid_count(), 0);
    comp.add("a".to_string(), obs("s1", 10));
    assert_eq!(comp.get_valid_count(), 1);
    comp.add("b".to_string(), obs("s1", 11));
    assert_eq!(comp.get_valid_count(), 1);
    comp.add("a".to_string(), obs("s2", 12));
    assert_eq!(comp.get_valid_count(), 2);
    comp.add("c".to_string(), obs("s2", 13));
    comp.add("c".to_string(), obs("s1", 14));
    assert_eq!(comp.get_valid_count(), 2);
}

#[test]
fn duplicate_add_keeps_first_timestamp() {
    let mut comp = Comparator::new();
    comp.add("a".to_string(), obs("s1", 100));
    comp.add("a".to_string(), obs("s1", 50));
    assert_eq!(comp.get_valid_count(), 1);
    assert_eq!(comp.entry_for(&"s1".to_string(), &"a".to_string()), Some(100));
}

#[test]
fn record_holds_one_entry_per_endpoint() {
    let mut comp = Comparator::new();
    comp.add("a".to_string(), obs("s1", 10_000_000));
    comp.add("b".to_string(), obs("s1", 10_005_000));
    assert_eq!(comp.get_valid_count(), 1);
    assert_eq!(comp.entry_for(&"s1".to_string(), &"a".to_string()), Some(10_000_000));
    assert_eq!(comp.entry_for(&"s1".to_string(), &"b".to_string()), Some(10_005_000));
    assert_eq!(comp.entry_for(&"s1".to_string(), &"c".to_string()), None);
    assert_eq!(comp.entry_for(&"s2".to_string(), &"a".to_string()), None);
}

#[test]
fn valid_count_never_decreases() {
    let mut comp = Comparator::new();
    let mut last = 0;
    let script = [
        ("a", "s1"),
        ("a", "s1"),
        ("b", "s1"),
        ("b", "s2"),
        ("a", "s3"),
        ("c", "s2"),
        ("c", "s4"),
        ("a", "s4"),
    ];
    for (i, (ep, sig)) in script.iter().enumerate() {
        comp.add(ep.to_string(), obs(sig, i as u64));
        let count = comp.get_valid_count();
        assert!(count >= last);
        last = count;
    }
    assert_eq!(last, 4);
}

#[test]
fn target_crossed_exactly_once() {
    let target = 2;
    let mut comp = Comparator::new();
    let mut crossings = 0;
    let script = ["s1", "s1", "s2", "s3", "s2"];
    let mut previous = 0;
    for (i, sig) in script.iter().enumerate() {
        comp.add("a".to_string(), obs(sig, i as u64));
        let count = comp.get_valid_count();
        if previous < target && count >= target {
            crossings += 1;
        }
        previous = count;
    }
    assert_eq!(crossings, 1);
}
