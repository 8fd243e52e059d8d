//! The cross-endpoint race tracker: a registry mapping each transaction
//! signature to the first arrival time reported by each endpoint, together
//! with the completion count that drives shutdown.

use vstd::prelude::*;

verus! {


/// A single arrival event: one endpoint recognized the transaction with this
/// signature at this wall-clock time (microseconds since the epoch).
/// `start_time` is the run's global epoch, carried along for downstream
/// elapsed-time computation.
pub struct TransactionData {
    pub timestamp: u64,
    pub signature: String,
    pub start_time: u64,
}

/// One endpoint's first arrival time for a signature.
pub struct RaceEntry {
    pub endpoint: String,
    pub timestamp: u64,
}

/// Per-signature aggregate: every endpoint's first arrival time, at most one
/// entry per endpoint.
pub struct RaceRecord {
    pub signature: String,
    pub entries: Vec<RaceEntry>,
}

/// Mathematical model of a `RaceRecord`: the signature and the ordered
/// `(endpoint, timestamp)` pairs received so far.
#[verifier::ext_equal]
pub struct RaceRecordModel {
    pub signature: Seq<char>,
    pub entries: Seq<(Seq<char>, u64)>,
}

impl View for RaceEntry {
    type V = (Seq<char>, u64);

    open spec fn view(&self) -> (Seq<char>, u64) {
        (self.endpoint@, self.timestamp)
    }
}

impl View for RaceRecord {
    type V = RaceRecordModel;

    open spec fn view(&self) -> RaceRecordModel {
        RaceRecordModel {
            signature: self.signature@,
            entries: Seq::new(self.entries@.len(), |i: int| self.entries@[i]@),
        }
    }
}

/// Whether some record in `rs` is keyed by signature `s`.
pub open spec fn has_sig(rs: Seq<RaceRecordModel>, s: Seq<char>) -> bool {
    exists|i: int| 0 <= i < rs.len() && rs[i].signature == s
}

/// The index of the record keyed by `s`; meaningful when the signatures of
/// `rs` are distinct and `has_sig(rs, s)` holds.
pub open spec fn sig_index(rs: Seq<RaceRecordModel>, s: Seq<char>) -> int {
    choose|i: int| 0 <= i < rs.len() && rs[i].signature == s
}

/// Whether the record already holds an entry for endpoint `e`.
pub open spec fn record_has_endpoint(r: RaceRecordModel, e: Seq<char>) -> bool {
    exists|j: int| 0 <= j < r.entries.len() && r.entries[j].0 == e
}

/// One observation folded into a record: the entry is appended if and only if
/// the endpoint has no prior entry; a duplicate is dropped, never overwritten.
pub open spec fn record_add(r: RaceRecordModel, e: Seq<char>, t: u64) -> RaceRecordModel {
    if record_has_endpoint(r, e) {
        r
    } else {
        RaceRecordModel { signature: r.signature, entries: r.entries.push((e, t)) }
    }
}

/// One observation folded into the whole registry: a new record is opened for
/// an unseen signature, otherwise the signature's record absorbs the entry.
pub open spec fn tracker_add(
    rs: Seq<RaceRecordModel>,
    e: Seq<char>,
    s: Seq<char>,
    t: u64,
) -> Seq<RaceRecordModel> {
    if has_sig(rs, s) {
        let i = sig_index(rs, s);
        rs.update(i, record_add(rs[i], e, t))
    } else {
        rs.push(RaceRecordModel { signature: s, entries: seq![(e, t)] })
    }
}

/// Well-formedness of one record: at least one entry, and at most one entry
/// per endpoint.
pub open spec fn record_wf(r: RaceRecordModel) -> bool {
    &&& r.entries.len() >= 1
    &&& forall|j: int, k: int|
        0 <= j < k < r.entries.len() ==> r.entries[j].0 != r.entries[k].0
}

/// Well-formedness of the registry: signatures are unique keys, and every
/// record is well-formed.
pub open spec fn tracker_wf(rs: Seq<RaceRecordModel>) -> bool {
    &&& forall|i: int, j: int| 0 <= i < j < rs.len() ==> rs[i].signature != rs[j].signature
    &&& forall|i: int| 0 <= i < rs.len() ==> record_wf(#[trigger] rs[i])
}

/// With unique signatures there is exactly one index holding `s`, so any
/// index that holds `s` is `sig_index`.
pub proof fn lemma_sig_index_unique(rs: Seq<RaceRecordModel>, s: Seq<char>, i: int)
    requires
        tracker_wf(rs),
        0 <= i < rs.len(),
        rs[i].signature == s,
    ensures
        sig_index(rs, s) == i,
        has_sig(rs, s),
{
    assert(has_sig(rs, s));
    let j = sig_index(rs, s);
    if i < j {
        assert(rs[i].signature != rs[j].signature);
    } else if j < i {
        assert(rs[j].signature != rs[i].signature);
    }
}

/// Folding in one observation grows the registry by one record when the
/// signature is new and leaves its length unchanged otherwise.
pub proof fn lemma_tracker_add_len(rs: Seq<RaceRecordModel>, e: Seq<char>, s: Seq<char>, t: u64)
    ensures
        tracker_add(rs, e, s, t).len() == rs.len() + if has_sig(rs, s) { 0int } else { 1int },
{
}

/// The signatures present after folding in one observation are exactly the
/// old signatures together with the observed one.
pub proof fn lemma_tracker_add_sigs(rs: Seq<RaceRecordModel>, e: Seq<char>, s: Seq<char>, t: u64)
    requires
        tracker_wf(rs),
    ensures
        forall|s2: Seq<char>|
            has_sig(tracker_add(rs, e, s, t), s2) <==> (has_sig(rs, s2) || s2 == s),
{
    let rs2 = tracker_add(rs, e, s, t);
    assert forall|s2: Seq<char>| has_sig(rs2, s2) <==> (has_sig(rs, s2) || s2 == s) by {
        if has_sig(rs, s) {
            let i = sig_index(rs, s);
            assert(rs2 == rs.update(i, record_add(rs[i], e, t)));
            if has_sig(rs2, s2) {
                let k = choose|k: int| 0 <= k < rs2.len() && rs2[k].signature == s2;
                if k == i {
                    assert(rs[k].signature == s2 || s2 == s);
                    assert(has_sig(rs, s2) || s2 == s);
                } else {
                    assert(rs[k].signature == s2);
                    assert(has_sig(rs, s2));
                }
            }
            if has_sig(rs, s2) {
                let k = choose|k: int| 0 <= k < rs.len() && rs[k].signature == s2;
                assert(rs2[k].signature == s2);
                assert(has_sig(rs2, s2));
            }
            if s2 == s {
                assert(rs2[i].signature == s);
                assert(has_sig(rs2, s2));
            }
        } else {
            assert(rs2 == rs.push(RaceRecordModel { signature: s, entries: seq![(e, t)] }));
            if has_sig(rs2, s2) {
                let k = choose|k: int| 0 <= k < rs2.len() && rs2[k].signature == s2;
                if k < rs.len() {
                    assert(rs[k].signature == s2);
                } else {
                    assert(s2 == s);
                }
            }
            if has_sig(rs, s2) {
                let k = choose|k: int| 0 <= k < rs.len() && rs[k].signature == s2;
                assert(rs2[k].signature == s2);
            }
            if s2 == s {
                assert(rs2[rs.len() as int].signature == s);
            }
        }
    }
}

/// Folding in one observation preserves well-formedness.
pub proof fn lemma_tracker_add_wf(rs: Seq<RaceRecordModel>, e: Seq<char>, s: Seq<char>, t: u64)
    requires
        tracker_wf(rs),
    ensures
        tracker_wf(tracker_add(rs, e, s, t)),
{
    let rs2 = tracker_add(rs, e, s, t);
    if has_sig(rs, s) {
        let i = sig_index(rs, s);
        let r2 = record_add(rs[i], e, t);
        assert(record_wf(rs[i]));
        if !record_has_endpoint(rs[i], e) {
            assert forall|j: int, k: int|
                0 <= j < k < r2.entries.len() implies r2.entries[j].0 != r2.entries[k].0 by {
                if k == r2.entries.len() - 1 {
                    assert(r2.entries[k].0 == e);
                    assert(!record_has_endpoint(rs[i], e));
                    assert(rs[i].entries[j].0 != e);
                }
            }
        }
        assert(record_wf(r2));
        assert forall|x: int, y: int|
            0 <= x < y < rs2.len() implies rs2[x].signature != rs2[y].signature by {
            assert(rs[x].signature != rs[y].signature);
        }
    } else {
        let r_new = RaceRecordModel { signature: s, entries: seq![(e, t)] };
        assert(record_wf(r_new));
        assert forall|x: int, y: int|
            0 <= x < y < rs2.len() implies rs2[x].signature != rs2[y].signature by {
            if y == rs.len() {
                assert(rs2[y].signature == s);
                assert(rs[x].signature != s) by {
                    if rs[x].signature == s {
                        assert(has_sig(rs, s));
                    }
                }
            } else {
                assert(rs[x].signature != rs[y].signature);
            }
        }
    }
}

/// Idempotence per endpoint and signature: once an endpoint's observation
/// for a signature is recorded, a repeated observation from the same
/// endpoint changes nothing — neither the count nor the stored timestamp,
/// whatever timestamp the repeat carries.
pub proof fn lemma_add_idempotent(
    rs: Seq<RaceRecordModel>,
    e: Seq<char>,
    s: Seq<char>,
    t1: u64,
    t2: u64,
)
    requires
        tracker_wf(rs),
    ensures
        tracker_add(tracker_add(rs, e, s, t1), e, s, t2) == tracker_add(rs, e, s, t1),
{
    let rs1 = tracker_add(rs, e, s, t1);
    lemma_tracker_add_wf(rs, e, s, t1);
    if has_sig(rs, s) {
        let i = sig_index(rs, s);
        lemma_sig_index_unique(rs1, s, i);
        assert(record_has_endpoint(rs1[i], e)) by {
            if record_has_endpoint(rs[i], e) {
                let j = choose|j: int|
                    0 <= j < rs[i].entries.len() && rs[i].entries[j].0 == e;
                assert(rs1[i].entries[j].0 == e);
            } else {
                assert(rs1[i].entries.last().0 == e);
                assert(rs1[i].entries[rs[i].entries.len() as int].0 == e);
            }
        }
        assert(tracker_add(rs1, e, s, t2) =~~= rs1);
    } else {
        let i = rs.len() as int;
        assert(rs1[i].signature == s);
        lemma_sig_index_unique(rs1, s, i);
        assert(rs1[i].entries[0].0 == e);
        assert(record_has_endpoint(rs1[i], e));
        assert(tracker_add(rs1, e, s, t2) =~~= rs1);
    }
}

/// The concurrent race registry. All operations are pure in-memory map
/// mutations; the caller serializes concurrent access with an exclusive lock.
pub struct Comparator {
    records: Vec<RaceRecord>,
}

impl View for Comparator {
    type V = Seq<RaceRecordModel>;

    closed spec fn view(&self) -> Seq<RaceRecordModel> {
        Seq::new(self.records@.len(), |i: int| self.records@[i]@)
    }
}

impl Comparator {
    pub open spec fn wf(&self) -> bool {
        tracker_wf(self@)
    }

    /// An empty registry: no signature seen, valid count zero.
    pub fn new() -> (r: Comparator)
        ensures
            r@ == Seq::<RaceRecordModel>::empty(),
            r.wf(),
    {
        let r = Comparator { records: Vec::new() };
        proof {
            assert(r@ =~= Seq::<RaceRecordModel>::empty());
        }
        r
    }

    /// Records one arrival. The entry is stored if and only if `endpoint_name`
    /// has no prior entry for `data.signature`; a duplicate observation is
    /// silently dropped and overwrites nothing.
    pub fn add(&mut self, endpoint_name: String, data: TransactionData)
        requires
            old(self).wf(),
        ensures
            final(self).wf(),
            final(self)@ == tracker_add(
                old(self)@,
                endpoint_name@,
                data.signature@,
                data.timestamp,
            ),
    {
        proof {
            lemma_tracker_add_wf(self@, endpoint_name@, data.signature@, data.timestamp);
        }
        let ghost rs0 = self@;
        let n = self.records.len();
        let mut i: usize = 0;
        while i < n
            invariant
                n == self.records.len(),
                0 <= i <= n,
                rs0 == old(self)@,
                self@ == rs0,
                self.wf(),
                forall|k: int| 0 <= k < i ==> rs0[k].signature != data.signature@,
            decreases n - i,
        {
            if self.records[i].signature == data.signature {
                proof {
                    lemma_sig_index_unique(rs0, data.signature@, i as int);
                }
                // The signature is already tracked: fold the entry into its
                // record unless this endpoint already reported it.
                let mut rec = self.records.remove(i);
                let ghost r0 = rec@;
                let m = rec.entries.len();
                let mut j: usize = 0;
                let mut seen: bool = false;
                while j < m
                    invariant
                        m == rec.entries.len(),
                        0 <= j <= m,
                        rec@ == r0,
                        seen ==> record_has_endpoint(r0, endpoint_name@),
                        !seen ==> forall|k: int| 0 <= k < j ==> r0.entries[k].0 != endpoint_name@,
                    decreases m - j,
                {
                    if rec.entries[j].endpoint == endpoint_name {
                        proof {
                            assert(r0.entries[j as int].0 == endpoint_name@);
                        }
                        seen = true;
                    }
                    j += 1;
                }
                if !seen {
                    proof {
                        assert(!record_has_endpoint(r0, endpoint_name@));
                    }
                    rec.entries.push(
                        RaceEntry { endpoint: endpoint_name, timestamp: data.timestamp },
                    );
                    proof {
                        assert(rec@ =~~= record_add(r0, endpoint_name@, data.timestamp));
                    }
                } else {
                    proof {
                        assert(rec@ =~~= record_add(r0, endpoint_name@, data.timestamp));
                    }
                }
                self.records.insert(i, rec);
                proof {
                    assert(self@ =~~= tracker_add(
                        rs0,
                        endpoint_name@,
                        data.signature@,
                        data.timestamp,
                    ));
                }
                return ;
            }
            i += 1;
        }
        proof {
            assert(!has_sig(rs0, data.signature@));
        }
        let mut entries: Vec<RaceEntry> = Vec::new();
        entries.push(RaceEntry { endpoint: endpoint_name, timestamp: data.timestamp });
        let rec = RaceRecord { signature: data.signature, entries };
        proof {
            assert(rec@.entries =~= seq![(rec.entries@[0].endpoint@, rec.entries@[0].timestamp)]);
        }
        self.records.push(rec);
        proof {
            assert(self@ =~~= tracker_add(rs0, endpoint_name@, rec.signature@, data.timestamp));
        }
    }

    /// The first-arrival timestamp stored for `endpoint` under `signature`,
    /// if that endpoint has reported that signature.
    pub fn entry_for(&self, signature: &String, endpoint: &String) -> (r: Option<u64>)
        requires
            self.wf(),
        ensures
            r.is_some() <==> (has_sig(self@, signature@) && record_has_endpoint(
                self@[sig_index(self@, signature@)],
                endpoint@,
            )),
            r.is_some() ==> exists|j: int|
                0 <= j < self@[sig_index(self@, signature@)].entries.len()
                    && #[trigger] self@[sig_index(self@, signature@)].entries[j] == (
                endpoint@,
                r.unwrap(),
                ),
    {
        let n = self.records.len();
        let mut i: usize = 0;
        while i < n
            invariant
                n == self@.len(),
                n == self.records.len(),
                0 <= i <= n,
                self.wf(),
                forall|k: int| 0 <= k < i ==> self@[k].signature != signature@,
            decreases n - i,
        {
            if self.records[i].signature == *signature {
                proof {
                    assert(self@[i as int] == self.records@[i as int]@);
                    lemma_sig_index_unique(self@, signature@, i as int);
                }
                let m = self.records[i].entries.len();
                let mut j: usize = 0;
                while j < m
                    invariant
                        0 <= i < self.records.len(),
                        i < self@.len(),
                        self.wf(),
                        self@[i as int] == self.records@[i as int]@,
                        self@[i as int].signature == signature@,
                        has_sig(self@, signature@),
                        sig_index(self@, signature@) == i,
                        m == self.records[i as int].entries.len(),
                        m == self@[i as int].entries.len(),
                        0 <= j <= m,
                        forall|k: int|
                            0 <= k < j ==> self@[i as int].entries[k].0 != endpoint@,
                    decreases m - j,
                {
                    if self.records[i].entries[j].endpoint == *endpoint {
                        proof {
                            assert(self@[i as int].entries[j as int] == (
                                endpoint@,
                                self.records@[i as int].entries@[j as int].timestamp,
                            ));
                        }
                        return Some(self.records[i].entries[j].timestamp);
                    }
                    j += 1;
                }
                proof {
                    assert(!record_has_endpoint(self@[i as int], endpoint@));
                }
                return None;
            }
            i += 1;
        }
        proof {
            assert(!has_sig(self@, signature@));
        }
        None
    }

    /// The number of resolved races: signatures whose record is complete,
    /// which under the current policy (at least one endpoint reported) is
    /// every tracked signature.
    pub fn get_valid_count(&self) -> (r: usize)
        ensures
            r == self@.len(),
    {
        self.records.len()
    }
}

/// One observation at the spec level, for reasoning about whole runs.
pub struct Observation {
    pub endpoint: Seq<char>,
    pub signature: Seq<char>,
    pub timestamp: u64,
}

/// The registry contents after a sequence of `add` calls starting from the
/// empty registry.
pub open spec fn apply_observations(obs: Seq<Observation>) -> Seq<RaceRecordModel>
    decreases obs.len(),
{
    if obs.len() == 0 {
        Seq::empty()
    } else {
        tracker_add(
            apply_observations(obs.drop_last()),
            obs.last().endpoint,
            obs.last().signature,
            obs.last().timestamp,
        )
    }
}

/// The set of distinct signatures occurring in a sequence of observations.
pub open spec fn seen_sigs(obs: Seq<Observation>) -> Set<Seq<char>>
    decreases obs.len(),
{
    if obs.len() == 0 {
        Set::empty()
    } else {
        seen_sigs(obs.drop_last()).insert(obs.last().signature)
    }
}

/// After any sequence of `add` calls, the registry is well-formed, the valid
/// count equals the number of distinct signatures that received at least one
/// observation, and exactly those signatures are tracked.
pub proof fn lemma_count_is_distinct_signatures(obs: Seq<Observation>)
    ensures
        tracker_wf(apply_observations(obs)),
        seen_sigs(obs).finite(),
        apply_observations(obs).len() == seen_sigs(obs).len(),
        forall|s: Seq<char>| has_sig(apply_observations(obs), s) <==> seen_sigs(obs).contains(s),
    decreases obs.len(),
{
    if obs.len() == 0 {
        assert(apply_observations(obs).len() == 0);
        assert(Set::<Seq<char>>::empty().len() == 0);
        assert(forall|s: Seq<char>| !has_sig(apply_observations(obs), s));
    } else {
        let prefix = obs.drop_last();
        let o = obs.last();
        lemma_count_is_distinct_signatures(prefix);
        let rs = apply_observations(prefix);
        lemma_tracker_add_wf(rs, o.endpoint, o.signature, o.timestamp);
        lemma_tracker_add_len(rs, o.endpoint, o.signature, o.timestamp);
        lemma_tracker_add_sigs(rs, o.endpoint, o.signature, o.timestamp);
        if seen_sigs(prefix).contains(o.signature) {
            assert(seen_sigs(obs).len() == seen_sigs(prefix).len());
            assert(has_sig(rs, o.signature));
        } else {
            assert(seen_sigs(obs).len() == seen_sigs(prefix).len() + 1);
            assert(!has_sig(rs, o.signature));
        }
    }
}

/// The valid count after a prefix of the observations never exceeds the valid
/// count after the whole sequence: it is monotonically non-decreasing.
pub proof fn lemma_valid_count_monotonic(obs: Seq<Observation>, k: int)
    requires
        0 <= k <= obs.len(),
    ensures
        apply_observations(obs.take(k)).len() <= apply_observations(obs).len(),
    decreases obs.len(),
{
    if k == obs.len() {
        assert(obs.take(k) =~= obs);
    } else {
        let prefix = obs.drop_last();
        let o = obs.last();
        lemma_valid_count_monotonic(prefix, k);
        assert(obs.take(k) =~= prefix.take(k));
        lemma_tracker_add_len(apply_observations(prefix), o.endpoint, o.signature, o.timestamp);
    }
}

/// The valid count after the first `k` observations.
pub open spec fn count_after(obs: Seq<Observation>, k: int) -> nat {
    apply_observations(obs.take(k)).len()
}

///`k` is the call at which the valid count first reaches `n`: it was below
/// `n` before the call and at least `n` after it.
pub open spec fn crossing_at(obs: Seq<Observation>, n: nat, k: int) -> bool {
    &&& 0 <= k < obs.len()
    &&& count_after(obs, k) < n
    &&& count_after(obs, k + 1) >= n
}

/// One `add` call changes the valid count by at most one, and never
/// decreases it.
pub proof fn lemma_count_step(obs: Seq<Observation>, k: int)
    requires
        0 <= k < obs.len(),
    ensures
        count_after(obs, k) <= count_after(obs, k + 1) <= count_after(obs, k) + 1,
{
    let p = obs.take(k);
    let q = obs.take(k + 1);
    assert(q.drop_last() =~= p);
    assert(q.last() == obs[k]);
    lemma_tracker_add_len(apply_observations(p), obs[k].endpoint, obs[k].signature, obs[k].timestamp);
}

/// The valid count is monotone in the number of calls made.
pub proof fn lemma_count_nondecreasing(obs: Seq<Observation>, k1: int, k2: int)
    requires
        0 <= k1 <= k2 <= obs.len(),
    ensures
        count_after(obs, k1) <= count_after(obs, k2),
    decreases k2 - k1,
{
    if k1 < k2 {
        lemma_count_step(obs, k2 - 1);
        lemma_count_nondecreasing(obs, k1, k2 - 1);
    }
}

proof fn lemma_find_crossing(obs: Seq<Observation>, n: nat, k: int)
    requires
        n >= 1,
        0 <= k <= obs.len(),
        count_after(obs, k) < n,
        count_after(obs, obs.len() as int) >= n,
    ensures
        exists|j: int| k <= j && crossing_at(obs, n, j),
    decreases obs.len() - k,
{
    assert(k < obs.len()) by {
        if k == obs.len() {
            assert(count_after(obs, k) >= n);
        }
    }
    if count_after(obs, k + 1) >= n {
        assert(crossing_at(obs, n, k));
    } else {
        lemma_find_crossing(obs, n, k + 1);
    }
}

/// Exactly-once crossing: in a run whose `add` calls eventually track at
/// least `n` distinct signatures, there is exactly one call after which the
/// valid count reaches `n` for the first time — the unique point at which a
/// runner may trigger shutdown.
pub proof fn lemma_exactly_once_crossing(obs: Seq<Observation>, n: nat)
    requires
        n >= 1,
        apply_observations(obs).len() >= n,
    ensures
        exists|k: int| crossing_at(obs, n, k),
        forall|k1: int, k2: int| crossing_at(obs, n, k1) && crossing_at(obs, n, k2) ==> k1 == k2,
{
    assert(obs.take(0) =~= Seq::<Observation>::empty());
    assert(count_after(obs, 0) == 0);
    assert(obs.take(obs.len() as int) =~= obs);
    lemma_find_crossing(obs, n, 0);
    assert forall|k1: int, k2: int|
        crossing_at(obs, n, k1) && crossing_at(obs, n, k2) implies k1 == k2 by {
        if k1 < k2 {
            lemma_count_nondecreasing(obs, k1 + 1, k2);
            assert(count_after(obs, k2) >= n);
        } else if k2 < k1 {
            lemma_count_nondecreasing(obs, k2 + 1, k1);
            assert(count_after(obs, k1) >= n);
        }
    }
}

} // verus!
