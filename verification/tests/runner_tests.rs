use stream_race::dual::LatencyTable;
use stream_race::runner::{
    Decision, ShredstreamProxyProvider, StreamEvent, YellowstoneAccountsProvider,
};
use stream_race::tracker::Comparator;

#[test]
fn shred_runner_counts_to_target_and_triggers_shutdown() {
    // Target three races: one endpoint reporting three distinct signatures
    // drives the valid count 1, 2, 3 and trips shutdown on the third call.
    let mut comp = Comparator::new();
    let mut runner = ShredstreamProxyProvider::new_runner(
        "a".to_string(),
        "watched".to_string(),
        3,
        0,
    );
    let keys = vec!["other".to_string(), "watched".to_string()];

    let r1 = runner.handle_decoded_transaction("s1".to_string(), &keys, 100, &mut comp);
    assert!(r1.matched);
    assert!(!r1.shutdown);
    assert_eq!(comp.get_valid_count(), 1);

    let r2 = runner.handle_decoded_transaction("s2".to_string(), &keys, 200, &mut comp);
    assert!(r2.matched);
    assert!(!r2.shutdown);
    assert_eq!(comp.get_valid_count(), 2);

    let r3 = runner.handle_decoded_transaction("s3".to_string(), &keys, 300, &mut comp);
    assert!(r3.matched);
    assert!(r3.shutdown);
    assert_eq!(comp.get_valid_count(), 3);
    assert_eq!(runner.transaction_count, 3);
}

#[test]
fn shred_runner_ignores_unmatched_transaction() {
    let mut comp = Comparator::new();
    let mut runner = ShredstreamProxyProvider::new_runner(
        "a".to_string(),
        "watched".to_string(),
        1,
        0,
    );
    let keys = vec!["someone".to_string(), "else".to_string()];
    let r = runner.handle_decoded_transaction("s1".to_string(), &keys, 100, &mut comp);
    assert!(!r.matched);
    assert!(!r.shutdown);
    assert_eq!(comp.get_valid_count(), 0);
    assert_eq!(runner.transaction_count, 0);
}

#[test]
fn stream_decisions_follow_the_state_machine() {
    let mut comp_runner = ShredstreamProxyProvider::new_runner(
        "a".to_string(),
        "w".to_string(),
        1,
        0,
    );
    assert_eq!(comp_runner.handle_control_event(&StreamEvent::ShutdownSignal), Decision::Stop);
    assert_eq!(comp_runner.handle_control_event(&StreamEvent::StreamClosed), Decision::Stop);
    assert_eq!(comp_runner.handle_control_event(&StreamEvent::StreamError), Decision::Stop);
    assert_eq!(comp_runner.handle_control_event(&StreamEvent::Ping), Decision::ReplyPing);
    assert_eq!(comp_runner.handle_control_event(&StreamEvent::DecodeFailed), Decision::Continue);
    assert_eq!(comp_runner.handle_control_event(&StreamEvent::Irrelevant), Decision::Continue);
}

#[test]
fn decode_failure_changes_nothing_and_keeps_running() {
    // A decode failure must not stop the runner and must not move any
    // counter; the next message is processed normally.
    let watched_key = vec![7u8, 7, 7];
    let watched = bs58::encode(&watched_key).into_string();
    let mut comp = Comparator::new();
    let mut global = LatencyTable::new();
    let mut runner =
        YellowstoneAccountsProvider::new_runner("a".to_string(), watched, 2, 0);

    let d = runner.handle_control_event(&StreamEvent::DecodeFailed);
    assert_eq!(d, Decision::Continue);
    assert_eq!(runner.transaction_count, 0);
    assert_eq!(runner.account_update_count, 0);
    assert_eq!(comp.get_valid_count(), 0);

    let sig = vec![1u8, 2, 3];
    let keys = vec![vec![9u8], watched_key];
    let r = runner.handle_transaction(&sig, &keys, 500, &mut comp, &mut global);
    assert!(r.matched);
    assert_eq!(comp.get_valid_count(), 1);
}

#[test]
fn dual_stream_reports_account_lead() {
    // The dual-stream endpoint sees the account signal at t = 5.000 s and
    // the transaction signal at t = 5.020 s: the reported gap is 20 ms with
    // the account signal first.
    let watched_key = vec![42u8; 32];
    let watched = bs58::encode(&watched_key).into_string();
    let sig_bytes = vec![1u8; 64];
    let sig_text = bs58::encode(&sig_bytes).into_string();

    let mut comp = Comparator::new();
    let mut global = LatencyTable::new();
    let mut runner =
        YellowstoneAccountsProvider::new_runner("a".to_string(), watched, 5, 0);

    let acct = runner.handle_account_update(Some(&sig_bytes), 5_000_000, &mut global);
    assert!(acct.recorded);
    assert_eq!(acct.signature.as_deref(), Some(sig_text.as_str()));
    assert_eq!(acct.delta_micros, None);

    let keys = vec![watched_key];
    let tx = runner.handle_transaction(&sig_bytes, &keys, 5_020_000, &mut comp, &mut global);
    assert!(tx.matched);
    assert_eq!(tx.signature.as_deref(), Some(sig_text.as_str()));
    assert_eq!(tx.delta_micros, Some(20_000));
    assert!(!tx.shutdown);
    assert_eq!(comp.get_valid_count(), 1);
    assert_eq!(comp.entry_for(&sig_text, &"a".to_string()), Some(5_020_000));
}

#[test]
fn account_update_without_signature_only_counts() {
    let mut global = LatencyTable::new();
    let mut runner =
        YellowstoneAccountsProvider::new_runner("a".to_string(), "w".to_string(), 5, 0);
    let r = runner.handle_account_update(None, 1_000, &mut global);
    assert!(!r.recorded);
    assert_eq!(r.signature, None);
    assert_eq!(r.delta_micros, None);
    assert_eq!(runner.account_update_count, 1);
    assert_eq!(global.row_count(), 0);
}

#[test]
fn base58_matching_goes_through_the_encoder() {
    // The watched account is matched against the base58 rendering of each
    // key, not against its raw bytes.
    let key = vec![0u8, 0u8];
    let mut comp = Comparator::new();
    let mut global = LatencyTable::new();

    // base58 of [0, 0] is "11".
    assert_eq!(bs58::encode(&key).into_string(), "11");
    let mut matching =
        YellowstoneAccountsProvider::new_runner("a".to_string(), "11".to_string(), 5, 0);
    let r = matching.handle_transaction(&vec![5u8], &vec![key.clone()], 10, &mut comp, &mut global);
    assert!(r.matched);

    // A watched string equal to the raw bytes read as text must not match.
    let mut raw = YellowstoneAccountsProvider::new_runner(
        "a".to_string(),
        "\u{0}\u{0}".to_string(),
        5,
        0,
    );
    let r2 = raw.handle_transaction(&vec![5u8], &vec![key], 10, &mut comp, &mut global);
    assert!(!r2.matched);
}

#[test]
fn two_endpoints_race_one_signature() {
    // Endpoints a and b both report the same signature: one race record,
    // both timestamps kept, valid count grows by one, not two.
    let watched_key = vec![3u8, 1, 4];
    let watched = bs58::encode(&watched_key).into_string();
    let sig_bytes = vec![2u8, 7, 1];
    let sig_text = bs58::encode(&sig_bytes).into_string();

    let mut comp = Comparator::new();
    let mut global = LatencyTable::new();
    let keys = vec![watched_key];

    let mut runner_a =
        YellowstoneAccountsProvider::new_runner("a".to_string(), watched.clone(), 5, 0);
    let mut runner_b =
        YellowstoneAccountsProvider::new_runner("b".to_string(), watched, 5, 0);

    let ra = runner_a.handle_transaction(&sig_bytes, &keys, 10_000_000, &mut comp, &mut global);
    assert!(ra.matched);
    assert_eq!(comp.get_valid_count(), 1);

    let rb = runner_b.handle_transaction(&sig_bytes, &keys, 10_005_000, &mut comp, &mut global);
    assert!(rb.matched);
    assert_eq!(comp.get_valid_count(), 1);

    assert_eq!(comp.entry_for(&sig_text, &"a".to_string()), Some(10_000_000));
    assert_eq!(comp.entry_for(&sig_text, &"b".to_string()), Some(10_005_000));
}
