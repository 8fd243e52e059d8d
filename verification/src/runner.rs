//! The endpoint runner's decision logic: one polymorphic capability, "drive a
//! stream until a terminal event, turning decoded messages into race
//! observations". The transport (connect, subscribe, awaiting the next
//! message or the shutdown signal) lives outside; these functions take the
//! already-decoded message content as plain values and perform every decision
//! and every registry update.

use vstd::prelude::*;

verus! {

use crate::TS_MAX;
use crate::dual::LatencyTable;
use crate::dual::StreamLatencyModel;
use crate::dual::table_has_sig;
use crate::dual::table_row;
use crate::dual::table_update_account;
use crate::dual::table_update_transaction;
use crate::tracker::Comparator;
use crate::tracker::TransactionData;
use crate::tracker::tracker_add;

/// The base58 text of a byte string, as the bs58 encoder produces it.
pub uninterp spec fn base58_of(bytes: Seq<u8>) -> Seq<char>;

/// Relies on `bs58::encode(..).into_string()` with its default (Bitcoin)
/// alphabet: the returned text is a function of the input bytes alone.
#[verifier::external_body]
pub(crate) fn base58_string(bytes: &Vec<u8>) -> (r: String)
    ensures
        r@ == base58_of(bytes@),
{
    bs58::encode(bytes).into_string()
}

/// A control event observed by a runner's stream loop, everything except a
/// decoded matching message.
#[derive(Clone, Copy, PartialEq, Eq, Debug)]
pub enum StreamEvent {
    /// The shutdown broadcast was received.
    ShutdownSignal,
    /// The provider closed the stream gracefully.
    StreamClosed,
    /// The stream yielded an error.
    StreamError,
    /// A keepalive ping from the provider.
    Ping,
    /// A message payload failed to deserialize.
    DecodeFailed,
    /// An update of a kind this runner does not track.
    Irrelevant,
}

/// What the runner's loop does next.
#[derive(Clone, Copy, PartialEq, Eq, Debug)]
pub enum Decision {
    /// Keep reading the stream.
    Continue,
    /// Answer the provider's ping on the subscription channel, then keep
    /// reading.
    ReplyPing,
    /// Leave the loop; the runner is terminal.
    Stop,
}

/// The runner state machine's reaction to each control event: terminal on
/// shutdown, graceful close and stream error; a ping is answered at once; a
/// decode failure drops the single message and the loop continues.
pub open spec fn decision_for(ev: StreamEvent) -> Decision {
    match ev {
        StreamEvent::ShutdownSignal => Decision::Stop,
        StreamEvent::StreamClosed => Decision::Stop,
        StreamEvent::StreamError => Decision::Stop,
        StreamEvent::Ping => Decision::ReplyPing,
        StreamEvent::DecodeFailed => Decision::Continue,
        StreamEvent::Irrelevant => Decision::Continue,
    }
}

/// Decides the runner's next step for a control event. Pure: no counter and
/// no registry is touched, so a decode failure in particular leaves every
/// count unchanged and the loop running.
pub fn stream_decision(ev: &StreamEvent) -> (d: Decision)
    ensures
        d == decision_for(*ev),
{
    match ev {
        StreamEvent::ShutdownSignal => Decision::Stop,
        StreamEvent::StreamClosed => Decision::Stop,
        StreamEvent::StreamError => Decision::Stop,
        StreamEvent::Ping => Decision::ReplyPing,
        StreamEvent::DecodeFailed => Decision::Continue,
        StreamEvent::Irrelevant => Decision::Continue,
    }
}

/// Whether some key, rendered in base58, equals the watched account.
pub open spec fn b58_keys_contain(keys: Seq<Vec<u8>>, watched: Seq<char>) -> bool {
    exists|i: int| 0 <= i < keys.len() && base58_of((#[trigger] keys[i])@) == watched
}

/// Whether some key string equals the watched account.
pub open spec fn keys_contain(keys: Seq<String>, watched: Seq<char>) -> bool {
    exists|i: int| 0 <= i < keys.len() && (#[trigger] keys[i])@ == watched
}

/// The intra-endpoint lead/lag of one latency row: transaction time minus
/// account time, defined once both slots are populated.
pub open spec fn slot_delta(row: StreamLatencyModel) -> Option<int> {
    match (row.account, row.transaction) {
        (Some(a), Some(t)) => Some(t.1 - a.1),
        _ => None,
    }
}

/// The feed variant that delivers bundled ledger entries and therefore
/// filters client-side by scanning account keys.
pub struct ShredstreamProxyProvider;

/// The dual-stream feed variant that watches both account-write
/// notifications and transaction notifications for the same account.
pub struct YellowstoneAccountsProvider;

/// A bundled-entry runner's state: its identity, the watched account, the
/// target race count, and how many matching transactions it has seen.
pub struct ShredRunner {
    pub endpoint_name: String,
    pub watched_account: String,
    pub target: usize,
    pub start_time: u64,
    pub transaction_count: u64,
}

impl ShredRunner {
    pub open spec fn wf(&self) -> bool {
        self.start_time < TS_MAX
    }
}

/// The outcome of feeding one decoded transaction to a bundled-entry runner.
pub struct ShredOutcome {
    /// The transaction touches the watched account and was recorded.
    pub matched: bool,
    /// The valid count reached the target with this observation: the caller
    /// must broadcast shutdown and leave its loop.
    pub shutdown: bool,
}

impl ShredstreamProxyProvider {
    /// The initial runner state for one endpoint of this variant.
    pub fn new_runner(
        endpoint_name: String,
        watched_account: String,
        target: usize,
        start_time: u64,
    ) -> (r: ShredRunner)
        requires
            start_time < TS_MAX,
        ensures
            r.endpoint_name == endpoint_name,
            r.watched_account == watched_account,
            r.target == target,
            r.start_time == start_time,
            r.transaction_count == 0,
            r.wf(),
    {
        ShredRunner { endpoint_name, watched_account, target, start_time, transaction_count: 0 }
    }
}

impl ShredRunner {
    /// Feeds one transaction decoded from a ledger entry to the runner: if
    /// any of its account keys is the watched account, the arrival is folded
    /// into the race registry; otherwise nothing changes. `shutdown` reports
    /// whether the valid count now equals the target.
    pub fn handle_decoded_transaction(
        &mut self,
        signature: String,
        account_keys: &Vec<String>,
        timestamp: u64,
        comparator: &mut Comparator,
    ) -> (r: ShredOutcome)
        requires
            old(self).wf(),
            old(self).transaction_count < u64::MAX,
            old(comparator).wf(),
            timestamp < TS_MAX,
        ensures
            final(self).wf(),
            final(comparator).wf(),
            final(self).endpoint_name == old(self).endpoint_name,
            final(self).watched_account == old(self).watched_account,
            final(self).target == old(self).target,
            final(self).start_time == old(self).start_time,
            r.matched == keys_contain(account_keys@, old(self).watched_account@),
            !r.matched ==> {
                &&& *final(self) == *old(self)
                &&& final(comparator)@ == old(comparator)@
                &&& !r.shutdown
            },
            r.matched ==> {
                &&& final(comparator)@ == tracker_add(
                    old(comparator)@,
                    old(self).endpoint_name@,
                    signature@,
                    timestamp,
                )
                &&& final(self).transaction_count == old(self).transaction_count + 1
                &&& r.shutdown == (final(comparator)@.len() == old(self).target)
            },
    {
        let n = account_keys.len();
        let mut i: usize = 0;
        let mut matched: bool = false;
        while i < n
            invariant
                n == account_keys.len(),
                0 <= i <= n,
                *self == *old(self),
                matched ==> keys_contain(account_keys@, self.watched_account@),
                !matched ==> forall|k: int|
                    0 <= k < i ==> (#[trigger] account_keys@[k])@ != self.watched_account@,
            decreases n - i,
        {
            if account_keys[i] == self.watched_account {
                matched = true;
            }
            i += 1;
        }
        if !matched {
            return ShredOutcome { matched: false, shutdown: false };
        }
        let endpoint = self.endpoint_name.clone();
        comparator.add(
            endpoint,
            TransactionData { timestamp, signature, start_time: self.start_time },
        );
        self.transaction_count = self.transaction_count + 1;
        let shutdown = comparator.get_valid_count() == self.target;
        ShredOutcome { matched: true, shutdown }
    }

    /// A control event: the runner state is untouched, only the loop decision
    /// is produced. In particular a decode failure of one entry's payload
    /// changes no counter and does not stop the runner.
    pub fn handle_control_event(&mut self, ev: &StreamEvent) -> (d: Decision)
        ensures
            *final(self) == *old(self),
            d == decision_for(*ev),
    {
        stream_decision(ev)
    }
}

/// A dual-stream runner's state: identity, watched account, target race
/// count, the two message counters, and the runner's single-writer local
/// latency view.
pub struct DualStreamRunner {
    pub endpoint_name: String,
    pub watched_account: String,
    pub target: usize,
    pub start_time: u64,
    pub transaction_count: u64,
    pub account_update_count: u64,
    pub local: LatencyTable,
}

impl DualStreamRunner {
    pub open spec fn wf(&self) -> bool {
        self.start_time < TS_MAX && self.local.wf()
    }
}

/// The outcome of feeding one transaction-stream message to a dual-stream
/// runner.
pub struct TxOutcome {
    /// The transaction touches the watched account; everything below is only
    /// meaningful when set.
    pub matched: bool,
    /// The transaction's signature in base58, for the caller's log line.
    pub signature: Option<String>,
    /// Transaction time minus account time of the runner's local record,
    /// once both streams have delivered this signature (microseconds,
    /// positive when the transaction signal came later).
    pub delta_micros: Option<i64>,
    /// The valid count reached the target with this observation: the caller
    /// must broadcast shutdown exactly once and leave its loop.
    pub shutdown: bool,
}

/// The outcome of feeding one account-stream message to a dual-stream
/// runner.
pub struct AccountOutcome {
    /// The update carried a transaction signature and was recorded.
    pub recorded: bool,
    /// That signature in base58, for the caller's log line.
    pub signature: Option<String>,
    /// Transaction time minus account time of the runner's local record,
    /// once both streams have delivered this signature.
    pub delta_micros: Option<i64>,
}

impl YellowstoneAccountsProvider {
    /// The initial runner state for one endpoint of this variant.
    pub fn new_runner(
        endpoint_name: String,
        watched_account: String,
        target: usize,
        start_time: u64,
    ) -> (r: DualStreamRunner)
        requires
            start_time < TS_MAX,
        ensures
            r.endpoint_name == endpoint_name,
            r.watched_account == watched_account,
            r.target == target,
            r.start_time == start_time,
            r.transaction_count == 0,
            r.account_update_count == 0,
            r.local@ == Seq::<StreamLatencyModel>::empty(),
            r.wf(),
    {
        DualStreamRunner {
            endpoint_name,
            watched_account,
            target,
            start_time,
            transaction_count: 0,
            account_update_count: 0,
            local: LatencyTable::new(),
        }
    }
}

impl DualStreamRunner {
    /// Feeds one decoded transaction-stream message: when some account key's
    /// base58 form is the watched account, the arrival is recorded in the
    /// runner's local view (first sighting wins), merged into the global
    /// dual-stream instance (minimum wins), and folded into the race
    /// registry; `shutdown` reports whether the valid count now equals the
    /// target. A transaction not touching the watched account changes
    /// nothing.
    pub fn handle_transaction(
        &mut self,
        signature_bytes: &Vec<u8>,
        account_keys: &Vec<Vec<u8>>,
        timestamp: u64,
        comparator: &mut Comparator,
        global: &mut LatencyTable,
    ) -> (r: TxOutcome)
        requires
            old(self).wf(),
            old(self).transaction_count < u64::MAX,
            old(comparator).wf(),
            old(global).wf(),
            timestamp < TS_MAX,
        ensures
            final(self).wf(),
            final(comparator).wf(),
            final(global).wf(),
            final(self).endpoint_name == old(self).endpoint_name,
            final(self).watched_account == old(self).watched_account,
            final(self).target == old(self).target,
            final(self).start_time == old(self).start_time,
            final(self).account_update_count == old(self).account_update_count,
            r.matched == b58_keys_contain(account_keys@, old(self).watched_account@),
            !r.matched ==> {
                &&& *final(self) == *old(self)
                &&& final(comparator)@ == old(comparator)@
                &&& final(global)@ == old(global)@
                &&& r.signature.is_none()
                &&& r.delta_micros.is_none()
                &&& !r.shutdown
            },
            r.matched ==> {
                let sig = base58_of(signature_bytes@);
                let ep = old(self).endpoint_name@;
                &&& r.signature.is_some() && r.signature.unwrap()@ == sig
                &&& final(self).local@ == table_update_transaction(
                    old(self).local@,
                    sig,
                    ep,
                    timestamp,
                    false,
                )
                &&& final(global)@ == table_update_transaction(old(global)@, sig, ep, timestamp, true)
                &&& final(comparator)@ == tracker_add(old(comparator)@, ep, sig, timestamp)
                &&& r.shutdown == (final(comparator)@.len() == old(self).target)
                &&& (r.shutdown ==> final(self).transaction_count == old(self).transaction_count)
                &&& (!r.shutdown ==> final(self).transaction_count == old(self).transaction_count
                    + 1)
                &&& (r.delta_micros.is_some() <==> slot_delta(
                    table_row(final(self).local@, sig),
                ).is_some())
                &&& (r.delta_micros.is_some() ==> r.delta_micros.unwrap() as int == slot_delta(
                    table_row(final(self).local@, sig),
                ).unwrap())
            },
    {
        let n = account_keys.len();
        let mut i: usize = 0;
        let mut matched: bool = false;
        while i < n
            invariant
                n == account_keys.len(),
                0 <= i <= n,
                *self == *old(self),
                matched ==> b58_keys_contain(account_keys@, self.watched_account@),
                !matched ==> forall|k: int|
                    0 <= k < i ==> base58_of((#[trigger] account_keys@[k])@)
                        != self.watched_account@,
            decreases n - i,
        {
            let key_text = base58_string(&account_keys[i]);
            if key_text == self.watched_account {
                matched = true;
            }
            i += 1;
        }
        if !matched {
            return TxOutcome { matched: false, signature: None, delta_micros: None, shutdown: false };
        }
        let sig = base58_string(signature_bytes);
        let endpoint = self.endpoint_name.clone();
        self.local.update_transaction(&sig, &endpoint, timestamp, false);
        global.update_transaction(&sig, &endpoint, timestamp, true);
        proof {
            let l0 = old(self).local@;
            if table_has_sig(l0, sig@) {
                let i = crate::dual::table_sig_index(l0, sig@);
                assert(self.local@[i].signature == sig@);
            } else {
                assert(self.local@[l0.len() as int].signature == sig@);
            }
            assert(table_has_sig(self.local@, sig@));
        }
        let delta = self.local_delta(&sig);
        comparator.add(
            endpoint,
            TransactionData {
                timestamp,
                signature: sig.clone(),
                start_time: self.start_time,
            },
        );
        let shutdown = comparator.get_valid_count() == self.target;
        if !shutdown {
            self.transaction_count = self.transaction_count + 1;
        }
        TxOutcome { matched: true, signature: Some(sig), delta_micros: delta, shutdown }
    }

    /// Feeds one account-stream message. Every update counts towards
    /// `account_update_count`; one carrying a transaction signature is also
    /// recorded in the local view (first sighting wins) and merged into the
    /// global instance (minimum wins). The account stream never feeds the
    /// race registry.
    pub fn handle_account_update(
        &mut self,
        txn_signature: Option<&Vec<u8>>,
        timestamp: u64,
        global: &mut LatencyTable,
    ) -> (r: AccountOutcome)
        requires
            old(self).wf(),
            old(self).account_update_count < u64::MAX,
            old(global).wf(),
            timestamp < TS_MAX,
        ensures
            final(self).wf(),
            final(global).wf(),
            final(self).endpoint_name == old(self).endpoint_name,
            final(self).watched_account == old(self).watched_account,
            final(self).target == old(self).target,
            final(self).start_time == old(self).start_time,
            final(self).transaction_count == old(self).transaction_count,
            final(self).account_update_count == old(self).account_update_count + 1,
            r.recorded == txn_signature.is_some(),
            !r.recorded ==> {
                &&& final(self).local@ == old(self).local@
                &&& final(global)@ == old(global)@
                &&& r.signature.is_none()
                &&& r.delta_micros.is_none()
            },
            r.recorded ==> {
                let sig = base58_of(txn_signature.unwrap()@);
                let ep = old(self).endpoint_name@;
                &&& r.signature.is_some() && r.signature.unwrap()@ == sig
                &&& final(self).local@ == table_update_account(
                    old(self).local@,
                    sig,
                    ep,
                    timestamp,
                    false,
                )
                &&& final(global)@ == table_update_account(old(global)@, sig, ep, timestamp, true)
                &&& (r.delta_micros.is_some() <==> slot_delta(
                    table_row(final(self).local@, sig),
                ).is_some())
                &&& (r.delta_micros.is_some() ==> r.delta_micros.unwrap() as int == slot_delta(
                    table_row(final(self).local@, sig),
                ).unwrap())
            },
    {
        self.account_update_count = self.account_update_count + 1;
        match txn_signature {
            None => AccountOutcome { recorded: false, signature: None, delta_micros: None },
            Some(sig_bytes) => {
                let sig = base58_string(sig_bytes);
                let endpoint = self.endpoint_name.clone();
                self.local.update_account(&sig, &endpoint, timestamp, false);
                global.update_account(&sig, &endpoint, timestamp, true);
                proof {
                    let l0 = old(self).local@;
                    if table_has_sig(l0, sig@) {
                        let i = crate::dual::table_sig_index(l0, sig@);
                        assert(self.local@[i].signature == sig@);
                    } else {
                        assert(self.local@[l0.len() as int].signature == sig@);
                    }
                    assert(table_has_sig(self.local@, sig@));
                }
                let delta = self.local_delta(&sig);
                AccountOutcome { recorded: true, signature: Some(sig), delta_micros: delta }
            },
        }
    }

    /// The local record's lead/lag for `signature`, once both streams have
    /// delivered it.
    fn local_delta(&self, signature: &String) -> (r: Option<i64>)
        requires
            self.local.wf(),
        ensures
            table_has_sig(self.local@, signature@) ==> {
                let d = slot_delta(table_row(self.local@, signature@));
                &&& (r.is_some() <==> d.is_some())
                &&& (r.is_some() ==> r.unwrap() as int == d.unwrap())
            },
            !table_has_sig(self.local@, signature@) ==> r.is_none(),
    {
        let slots = self.local.slots_of(signature);
        match slots {
            Some((Some(a), Some(t))) => {
                proof {
                    let row = table_row(self.local@, signature@);
                    let idx = crate::dual::table_sig_index(self.local@, signature@);
                    assert(0 <= idx < self.local@.len());
                    assert(row.account.unwrap().1 < TS_MAX);
                    assert(row.transaction.unwrap().1 < TS_MAX);
                }
                Some((t as i64) - (a as i64))
            },
            Some(_) => None,
            None => None,
        }
    }

    /// A control event: the runner state is untouched, only the loop decision
    /// is produced. A decode failure of one message changes no counter and
    /// does not stop the runner.
    pub fn handle_control_event(&mut self, ev: &StreamEvent) -> (d: Decision)
        ensures
            *final(self) == *old(self),
            d == decision_for(*ev),
    {
        stream_decision(ev)
    }
}

} // verus!
