//! The dual-stream tracker: per-signature earliest account-update and
//! earliest transaction times. A local instance records each runner's own
//! first sightings; the shared global instance merges every runner's
//! observations under the minimum-wins rule.

use vstd::prelude::*;

verus! {

use crate::TS_MAX;

/// Per-signature latency aggregate: which endpoint saw the account-update
/// signal first and when, and the same for the transaction signal. A slot is
/// populated as a pair: a timestamp is stored exactly when its endpoint is.
pub struct StreamLatencyData {
    pub signature: String,
    pub account_timestamp: Option<u64>,
    pub transaction_timestamp: Option<u64>,
    pub account_endpoint: Option<String>,
    pub transaction_endpoint: Option<String>,
}

/// Mathematical model of one latency row: each slot is either empty or an
/// `(endpoint, timestamp)` pair.
#[verifier::ext_equal]
pub struct StreamLatencyModel {
    pub signature: Seq<char>,
    pub account: Option<(Seq<char>, u64)>,
    pub transaction: Option<(Seq<char>, u64)>,
}

impl StreamLatencyData {
    /// A timestamp is stored in a slot exactly when the endpoint that
    /// produced it is, and every stored timestamp is below `TS_MAX`.
    pub open spec fn wf(&self) -> bool {
        &&& self.account_timestamp.is_some() <==> self.account_endpoint.is_some()
        &&& self.transaction_timestamp.is_some() <==> self.transaction_endpoint.is_some()
        &&& self.account_timestamp.is_some() ==> self.account_timestamp.unwrap() < TS_MAX
        &&& self.transaction_timestamp.is_some() ==> self.transaction_timestamp.unwrap() < TS_MAX
    }
}

impl View for StreamLatencyData {
    type V = StreamLatencyModel;

    open spec fn view(&self) -> StreamLatencyModel {
        StreamLatencyModel {
            signature: self.signature@,
            account: match (self.account_endpoint, self.account_timestamp) {
                (Some(e), Some(t)) => Some((e@, t)),
                _ => None,
            },
            transaction: match (self.transaction_endpoint, self.transaction_timestamp) {
                (Some(e), Some(t)) => Some((e@, t)),
                _ => None,
            },
        }
    }
}

/// The minimum-wins merge rule for one slot: a new observation replaces the
/// stored pair if and only if the slot is empty or the new timestamp is
/// strictly earlier.
pub open spec fn slot_merge(
    slot: Option<(Seq<char>, u64)>,
    e: Seq<char>,
    t: u64,
) -> Option<(Seq<char>, u64)> {
    match slot {
        None => Some((e, t)),
        Some(p) => if t < p.1 {
            Some((e, t))
        } else {
            Some(p)
        },
    }
}

/// The first-sighting rule for one slot of a runner's local view: the slot is
/// set when empty and never changed afterwards.
pub open spec fn slot_first(
    slot: Option<(Seq<char>, u64)>,
    e: Seq<char>,
    t: u64,
) -> Option<(Seq<char>, u64)> {
    match slot {
        None => Some((e, t)),
        Some(p) => Some(p),
    }
}

/// Whether some row of `rows` is keyed by signature `s`.
pub open spec fn table_has_sig(rows: Seq<StreamLatencyModel>, s: Seq<char>) -> bool {
    exists|i: int| 0 <= i < rows.len() && rows[i].signature == s
}

/// The index of the row keyed by `s`; meaningful when signatures are unique
/// and `table_has_sig(rows, s)` holds.
pub open spec fn table_sig_index(rows: Seq<StreamLatencyModel>, s: Seq<char>) -> int {
    choose|i: int| 0 <= i < rows.len() && rows[i].signature == s
}

/// The row keyed by `s`.
pub open spec fn table_row(rows: Seq<StreamLatencyModel>, s: Seq<char>) -> StreamLatencyModel {
    rows[table_sig_index(rows, s)]
}

/// One account-signal observation folded into a table, one slot rule applied
/// to the account slot of the signature's row (created empty on first sight).
pub open spec fn table_update_account(
    rows: Seq<StreamLatencyModel>,
    s: Seq<char>,
    e: Seq<char>,
    t: u64,
    min_wins: bool,
) -> Seq<StreamLatencyModel> {
    if table_has_sig(rows, s) {
        let i = table_sig_index(rows, s);
        rows.update(
            i,
            StreamLatencyModel {
                signature: rows[i].signature,
                account: if min_wins {
                    slot_merge(rows[i].account, e, t)
                } else {
                    slot_first(rows[i].account, e, t)
                },
                transaction: rows[i].transaction,
            },
        )
    } else {
        rows.push(StreamLatencyModel { signature: s, account: Some((e, t)), transaction: None })
    }
}

/// One transaction-signal observation folded into a table, as
/// `table_update_account` but on the transaction slot.
pub open spec fn table_update_transaction(
    rows: Seq<StreamLatencyModel>,
    s: Seq<char>,
    e: Seq<char>,
    t: u64,
    min_wins: bool,
) -> Seq<StreamLatencyModel> {
    if table_has_sig(rows, s) {
        let i = table_sig_index(rows, s);
        rows.update(
            i,
            StreamLatencyModel {
                signature: rows[i].signature,
                account: rows[i].account,
                transaction: if min_wins {
                    slot_merge(rows[i].transaction, e, t)
                } else {
                    slot_first(rows[i].transaction, e, t)
                },
            },
        )
    } else {
        rows.push(StreamLatencyModel { signature: s, account: None, transaction: Some((e, t)) })
    }
}

/// Well-formedness of a latency table model: signatures are unique keys and
/// stored timestamps are below `TS_MAX`.
pub open spec fn table_wf(rows: Seq<StreamLatencyModel>) -> bool {
    &&& forall|i: int, j: int| 0 <= i < j < rows.len() ==> rows[i].signature != rows[j].signature
    &&& forall|i: int|
        0 <= i < rows.len() ==> (#[trigger] rows[i]).account.is_some()
            ==> rows[i].account.unwrap().1 < TS_MAX
    &&& forall|i: int|
        0 <= i < rows.len() ==> (#[trigger] rows[i]).transaction.is_some()
            ==> rows[i].transaction.unwrap().1 < TS_MAX
}

/// With unique signatures, any index holding `s` is `table_sig_index`.
pub proof fn lemma_table_sig_index_unique(rows: Seq<StreamLatencyModel>, s: Seq<char>, i: int)
    requires
        table_wf(rows),
        0 <= i < rows.len(),
        rows[i].signature == s,
    ensures
        table_sig_index(rows, s) == i,
        table_has_sig(rows, s),
{
    assert(table_has_sig(rows, s));
    let j = table_sig_index(rows, s);
    if i < j {
        assert(rows[i].signature != rows[j].signature);
    } else if j < i {
        assert(rows[j].signature != rows[i].signature);
    }
}

/// A registry of latency rows keyed by signature. Serves both as a runner's
/// single-writer local view (first-sighting slot rule) and, behind the
/// caller's lock, as the global cross-endpoint instance (minimum-wins rule).
pub struct LatencyTable {
    rows: Vec<StreamLatencyData>,
}

impl View for LatencyTable {
    type V = Seq<StreamLatencyModel>;

    closed spec fn view(&self) -> Seq<StreamLatencyModel> {
        Seq::new(self.rows@.len(), |i: int| self.rows@[i]@)
    }
}

impl LatencyTable {
    /// Every stored row keeps its slots paired (`StreamLatencyData::wf`).
    pub closed spec fn rows_wf(&self) -> bool {
        forall|i: int| 0 <= i < self.rows@.len() ==> (#[trigger] self.rows@[i]).wf()
    }

    pub open spec fn wf(&self) -> bool {
        table_wf(self@) && self.rows_wf()
    }

    /// An empty table: no signature tracked.
    pub fn new() -> (r: LatencyTable)
        ensures
            r@ == Seq::<StreamLatencyModel>::empty(),
            r.wf(),
    {
        let r = LatencyTable { rows: Vec::new() };
        proof {
            assert(r@ =~= Seq::<StreamLatencyModel>::empty());
        }
        r
    }

    /// The number of signatures tracked.
    pub fn row_count(&self) -> (n: usize)
        ensures
            n == self@.len(),
    {
        self.rows.len()
    }

    /// The row at position `i`, for read-only aggregation.
    pub fn row_at(&self, i: usize) -> (r: &StreamLatencyData)
        requires
            self.wf(),
            i < self@.len(),
        ensures
            r@ == self@[i as int],
            r.wf(),
    {
        proof {
            assert(self@[i as int] == self.rows@[i as int]@);
        }
        &self.rows[i]
    }

    /// The slots currently stored for `signature`: `None` when the signature
    /// is not tracked, else the pair of account and transaction timestamps.
    pub fn slots_of(&self, signature: &String) -> (r: Option<(Option<u64>, Option<u64>)>)
        requires
            self.wf(),
        ensures
            r.is_some() <==> table_has_sig(self@, signature@),
            r.is_some() ==> {
                let row = table_row(self@, signature@);
                &&& (r.unwrap().0 == match row.account {
                    Some(p) => Some(p.1),
                    None => None,
                })
                &&& (r.unwrap().1 == match row.transaction {
                    Some(p) => Some(p.1),
                    None => None,
                })
            },
    {
        let n = self.rows.len();
        let mut i: usize = 0;
        while i < n
            invariant
                n == self@.len(),
                n == self.rows.len(),
                0 <= i <= n,
                self.wf(),
                forall|k: int| 0 <= k < i ==> self@[k].signature != signature@,
            decreases n - i,
        {
            if self.rows[i].signature == *signature {
                proof {
                    assert(self@[i as int] == self.rows@[i as int]@);
                    lemma_table_sig_index_unique(self@, signature@, i as int);
                }
                return Some((self.rows[i].account_timestamp, self.rows[i].transaction_timestamp));
            }
            i += 1;
        }
        proof {
            assert(!table_has_sig(self@, signature@));
        }
        None
    }

    fn locate(&self, signature: &String) -> (r: Option<usize>)
        requires
            self.wf(),
        ensures
            r.is_some() <==> table_has_sig(self@, signature@),
            r.is_some() ==> {
                &&& 0 <= r.unwrap() < self@.len()
                &&& self@[r.unwrap() as int].signature == signature@
                &&& table_sig_index(self@, signature@) == r.unwrap()
            },
    {
        let n = self.rows.len();
        let mut i: usize = 0;
        while i < n
            invariant
                n == self@.len(),
                n == self.rows.len(),
                0 <= i <= n,
                self.wf(),
                forall|k: int| 0 <= k < i ==> self@[k].signature != signature@,
            decreases n - i,
        {
            if self.rows[i].signature == *signature {
                proof {
                    assert(self@[i as int] == self.rows@[i as int]@);
                    lemma_table_sig_index_unique(self@, signature@, i as int);
                }
                return Some(i);
            }
            i += 1;
        }
        proof {
            assert(!table_has_sig(self@, signature@));
        }
        None
    }

    /// Records an account-signal observation under the given slot rule:
    /// minimum-wins for the global instance, first-sighting for a runner's
    /// local view.
    pub fn update_account(
        &mut self,
        signature: &String,
        endpoint: &String,
        timestamp: u64,
        min_wins: bool,
    )
        requires
            old(self).wf(),
            timestamp < TS_MAX,
        ensures
            final(self).wf(),
            final(self)@ == table_update_account(
                old(self)@,
                signature@,
                endpoint@,
                timestamp,
                min_wins,
            ),
    {
        let ghost rows0 = self@;
        let found = self.locate(signature);
        match found {
            Some(i) => {
                let mut row = self.rows.remove(i);
                let ghost r0 = row@;
                let replace = if min_wins {
                    match row.account_timestamp {
                        None => true,
                        Some(t0) => timestamp < t0,
                    }
                } else {
                    row.account_timestamp.is_none()
                };
                if replace {
                    row.account_timestamp = Some(timestamp);
                    row.account_endpoint = Some(endpoint.clone());
                }
                self.rows.insert(i, row);
                proof {
                    assert(self@ =~~= table_update_account(
                        rows0,
                        signature@,
                        endpoint@,
                        timestamp,
                        min_wins,
                    ));
                }
            },
            None => {
                let row = StreamLatencyData {
                    signature: signature.clone(),
                    account_timestamp: Some(timestamp),
                    transaction_timestamp: None,
                    account_endpoint: Some(endpoint.clone()),
                    transaction_endpoint: None,
                };
                self.rows.push(row);
                proof {
                    assert(self@ =~~= table_update_account(
                        rows0,
                        signature@,
                        endpoint@,
                        timestamp,
                        min_wins,
                    ));
                    assert forall|x: int, y: int|
                        0 <= x < y < self@.len() implies self@[x].signature
                        != self@[y].signature by {
                        if y == rows0.len() {
                            if self@[x].signature == signature@ {
                                assert(table_has_sig(rows0, signature@));
                            }
                        }
                    }
                }
            },
        }
    }

    /// Records a transaction-signal observation, as `update_account` but on
    /// the transaction slot.
    pub fn update_transaction(
        &mut self,
        signature: &String,
        endpoint: &String,
        timestamp: u64,
        min_wins: bool,
    )
        requires
            old(self).wf(),
            timestamp < TS_MAX,
        ensures
            final(self).wf(),
            final(self)@ == table_update_transaction(
                old(self)@,
                signature@,
                endpoint@,
                timestamp,
                min_wins,
            ),
    {
        let ghost rows0 = self@;
        let found = self.locate(signature);
        match found {
            Some(i) => {
                let mut row = self.rows.remove(i);
                let replace = if min_wins {
                    match row.transaction_timestamp {
                        None => true,
                        Some(t0) => timestamp < t0,
                    }
                } else {
                    row.transaction_timestamp.is_none()
                };
                if replace {
                    row.transaction_timestamp = Some(timestamp);
                    row.transaction_endpoint = Some(endpoint.clone());
                }
                self.rows.insert(i, row);
                proof {
                    assert(self@ =~~= table_update_transaction(
                        rows0,
                        signature@,
                        endpoint@,
                        timestamp,
                        min_wins,
                    ));
                }
            },
            None => {
                let row = StreamLatencyData {
                    signature: signature.clone(),
                    account_timestamp: None,
                    transaction_timestamp: Some(timestamp),
                    account_endpoint: None,
                    transaction_endpoint: Some(endpoint.clone()),
                };
                self.rows.push(row);
                proof {
                    assert(self@ =~~= table_update_transaction(
                        rows0,
                        signature@,
                        endpoint@,
                        timestamp,
                        min_wins,
                    ));
                    assert forall|x: int, y: int|
                        0 <= x < y < self@.len() implies self@[x].signature
                        != self@[y].signature by {
                        if y == rows0.len() {
                            if self@[x].signature == signature@ {
                                assert(table_has_sig(rows0, signature@));
                            }
                        }
                    }
                }
            },
        }
    }
}

/// The stored pair of one slot after a whole sequence of minimum-wins
/// updates, applied in arrival order to an initially empty slot.
pub open spec fn fold_slot_merge(updates: Seq<(Seq<char>, u64)>) -> Option<(Seq<char>, u64)>
    decreases updates.len(),
{
    if updates.len() == 0 {
        None
    } else {
        slot_merge(fold_slot_merge(updates.drop_last()), updates.last().0, updates.last().1)
    }
}

/// `j` indexes the first update that attains the minimum timestamp of the
/// whole sequence.
pub open spec fn is_first_minimum(updates: Seq<(Seq<char>, u64)>, j: int) -> bool {
    &&& 0 <= j < updates.len()
    &&& forall|k: int| 0 <= k < updates.len() ==> updates[j].1 <= (#[trigger] updates[k]).1
    &&& forall|k: int| 0 <= k < j ==> updates[j].1 < (#[trigger] updates[k]).1
}

/// Minimum wins: after any sequence of minimum-wins updates for one slot,
/// the stored timestamp is the minimum of all submitted timestamps, and the
/// stored endpoint is the one that submitted that minimum (the first, when
/// several submitted the same minimum).
pub proof fn lemma_minimum_wins(updates: Seq<(Seq<char>, u64)>)
    requires
        updates.len() > 0,
    ensures
        exists|j: int|
            is_first_minimum(updates, j) && fold_slot_merge(updates) == Some(
                #[trigger] updates[j],
            ),
    decreases updates.len(),
{
    let last = updates.last();
    if updates.len() == 1 {
        assert(is_first_minimum(updates, 0));
        assert(fold_slot_merge(updates) == Some(updates[0]));
    } else {
        let prefix = updates.drop_last();
        lemma_minimum_wins(prefix);
        let j0 = choose|j: int|
            is_first_minimum(prefix, j) && fold_slot_merge(prefix) == Some(#[trigger] prefix[j]);
        if last.1 < prefix[j0].1 {
            let j = updates.len() - 1;
            assert forall|k: int| 0 <= k < j implies updates[j].1 < (#[trigger] updates[k]).1 by {
                assert(prefix[k] == updates[k]);
                assert(prefix[j0].1 <= prefix[k].1);
            }
            assert(is_first_minimum(updates, j));
            assert(fold_slot_merge(updates) == Some(updates[j]));
        } else {
            assert forall|k: int|
                0 <= k < updates.len() implies updates[j0].1 <= (#[trigger] updates[k]).1 by {
                if k < updates.len() - 1 {
                    assert(prefix[k] == updates[k]);
                    assert(prefix[j0].1 <= prefix[k].1);
                }
            }
            assert forall|k: int| 0 <= k < j0 implies updates[j0].1 < (#[trigger] updates[k]).1 by {
                assert(prefix[k] == updates[k]);
            }
            assert(is_first_minimum(updates, j0));
            assert(fold_slot_merge(updates) == Some(updates[j0]));
        }
    }
}

/// The minimum-wins invariant: the stored timestamp never exceeds any
/// submitted timestamp.
pub proof fn lemma_stored_is_lower_bound(updates: Seq<(Seq<char>, u64)>, k: int)
    requires
        0 <= k < updates.len(),
    ensures
        fold_slot_merge(updates).is_some(),
        fold_slot_merge(updates).unwrap().1 <= updates[k].1,
{
    lemma_minimum_wins(updates);
}


/// A signature's transaction observations folded into a table in arrival
/// order under the minimum-wins rule.
pub open spec fn apply_transaction_merges(
    rows: Seq<StreamLatencyModel>,
    s: Seq<char>,
    updates: Seq<(Seq<char>, u64)>,
) -> Seq<StreamLatencyModel>
    decreases updates.len(),
{
    if updates.len() == 0 {
        rows
    } else {
        table_update_transaction(
            apply_transaction_merges(rows, s, updates.drop_last()),
            s,
            updates.last().0,
            updates.last().1,
            true,
        )
    }
}

/// A signature's account observations folded into a table in arrival order
/// under the minimum-wins rule.
pub open spec fn apply_account_merges(
    rows: Seq<StreamLatencyModel>,
    s: Seq<char>,
    updates: Seq<(Seq<char>, u64)>,
) -> Seq<StreamLatencyModel>
    decreases updates.len(),
{
    if updates.len() == 0 {
        rows
    } else {
        table_update_account(
            apply_account_merges(rows, s, updates.drop_last()),
            s,
            updates.last().0,
            updates.last().1,
            true,
        )
    }
}

/// Minimum wins at the table level, transaction slot: merging any sequence
/// of one signature's observations into a table that does not yet track it
/// leaves every other row unchanged and stores exactly the minimum-wins fold
/// of the observations — by `lemma_minimum_wins`, the earliest submitted
/// timestamp and the endpoint that submitted it.
pub proof fn lemma_table_minimum_wins_transaction(
    rows: Seq<StreamLatencyModel>,
    s: Seq<char>,
    updates: Seq<(Seq<char>, u64)>,
)
    requires
        !table_has_sig(rows, s),
        updates.len() > 0,
    ensures
        apply_transaction_merges(rows, s, updates) == rows.push(
            StreamLatencyModel { signature: s, account: None, transaction: fold_slot_merge(updates) },
        ),
    decreases updates.len(),
{
    if updates.len() == 1 {
        assert(apply_transaction_merges(rows, s, updates.drop_last()) == rows);
        assert(apply_transaction_merges(rows, s, updates) =~~= rows.push(
            StreamLatencyModel { signature: s, account: None, transaction: fold_slot_merge(updates) },
        ));
    } else {
        lemma_table_minimum_wins_transaction(rows, s, updates.drop_last());
        let prev = apply_transaction_merges(rows, s, updates.drop_last());
        let row_prev = StreamLatencyModel {
            signature: s,
            account: None,
            transaction: fold_slot_merge(updates.drop_last()),
        };
        assert(prev == rows.push(row_prev));
        assert(prev[rows.len() as int].signature == s);
        assert(table_has_sig(prev, s));
        let i = table_sig_index(prev, s);
        assert(0 <= i < prev.len() && prev[i].signature == s);
        assert(i == rows.len()) by {
            if i < rows.len() {
                assert(prev[i] == rows[i]);
                assert(table_has_sig(rows, s));
            }
        }
        assert(apply_transaction_merges(rows, s, updates) =~~= rows.push(
            StreamLatencyModel { signature: s, account: None, transaction: fold_slot_merge(updates) },
        ));
    }
}

/// Minimum wins at the table level, account slot.
pub proof fn lemma_table_minimum_wins_account(
    rows: Seq<StreamLatencyModel>,
    s: Seq<char>,
    updates: Seq<(Seq<char>, u64)>,
)
    requires
        !table_has_sig(rows, s),
        updates.len() > 0,
    ensures
        apply_account_merges(rows, s, updates) == rows.push(
            StreamLatencyModel { signature: s, account: fold_slot_merge(updates), transaction: None },
        ),
    decreases updates.len(),
{
    if updates.len() == 1 {
        assert(apply_account_merges(rows, s, updates.drop_last()) == rows);
        assert(apply_account_merges(rows, s, updates) =~~= rows.push(
            StreamLatencyModel { signature: s, account: fold_slot_merge(updates), transaction: None },
        ));
    } else {
        lemma_table_minimum_wins_account(rows, s, updates.drop_last());
        let prev = apply_account_merges(rows, s, updates.drop_last());
        let row_prev = StreamLatencyModel {
            signature: s,
            account: fold_slot_merge(updates.drop_last()),
            transaction: None,
        };
        assert(prev == rows.push(row_prev));
        assert(prev[rows.len() as int].signature == s);
        assert(table_has_sig(prev, s));
        let i = table_sig_index(prev, s);
        assert(0 <= i < prev.len() && prev[i].signature == s);
        assert(i == rows.len()) by {
            if i < rows.len() {
                assert(prev[i] == rows[i]);
                assert(table_has_sig(rows, s));
            }
        }
        assert(apply_account_merges(rows, s, updates) =~~= rows.push(
            StreamLatencyModel { signature: s, account: fold_slot_merge(updates), transaction: None },
        ));
    }
}

} // verus!
