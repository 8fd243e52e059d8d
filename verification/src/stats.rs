//! The statistics reporter: read-only aggregation over the final contents of
//! a latency table, run once after every runner has terminated. Produces win
//! counts per endpoint and the distribution of the lead/lag between the two
//! signals, all in integer microseconds; rendering (including percentages)
//! is the caller's concern.

use vstd::prelude::*;

verus! {

use crate::TS_MAX;
use crate::dual::LatencyTable;
use crate::dual::StreamLatencyModel;

/// A row with both signals delivered.
pub open spec fn row_both(r: StreamLatencyModel) -> bool {
    r.account.is_some() && r.transaction.is_some()
}

/// Transaction time minus account time of a both-signal row.
pub open spec fn row_delta(r: StreamLatencyModel) -> int {
    r.transaction.unwrap().1 - r.account.unwrap().1
}

/// How many rows carry both signals.
pub open spec fn count_both(rows: Seq<StreamLatencyModel>) -> nat
    decreases rows.len(),
{
    if rows.len() == 0 {
        0
    } else {
        count_both(rows.drop_last()) + if row_both(rows.last()) {
            1nat
        } else {
            0nat
        }
    }
}

/// How many both-signal rows saw the account signal strictly first.
pub open spec fn count_account_faster(rows: Seq<StreamLatencyModel>) -> nat
    decreases rows.len(),
{
    if rows.len() == 0 {
        0
    } else {
        count_account_faster(rows.drop_last()) + if row_both(rows.last()) && row_delta(rows.last())
            > 0 {
            1nat
        } else {
            0nat
        }
    }
}

/// How many rows name endpoint `e` as the first to deliver the account
/// signal.
pub open spec fn count_wins_account(rows: Seq<StreamLatencyModel>, e: Seq<char>) -> nat
    decreases rows.len(),
{
    if rows.len() == 0 {
        0
    } else {
        count_wins_account(rows.drop_last(), e) + match rows.last().account {
            Some(p) => if p.0 == e {
                1nat
            } else {
                0nat
            },
            None => 0nat,
        }
    }
}

/// How many rows name endpoint `e` as the first to deliver the transaction
/// signal.
pub open spec fn count_wins_transaction(rows: Seq<StreamLatencyModel>, e: Seq<char>) -> nat
    decreases rows.len(),
{
    if rows.len() == 0 {
        0
    } else {
        count_wins_transaction(rows.drop_last(), e) + match rows.last().transaction {
            Some(p) => if p.0 == e {
                1nat
            } else {
                0nat
            },
            None => 0nat,
        }
    }
}

/// The signed lead/lag of every both-signal row, in table order.
pub open spec fn deltas_of(rows: Seq<StreamLatencyModel>) -> Seq<int>
    decreases rows.len(),
{
    if rows.len() == 0 {
        Seq::empty()
    } else {
        deltas_of(rows.drop_last()) + if row_both(rows.last()) {
            seq![row_delta(rows.last())]
        } else {
            Seq::empty()
        }
    }
}

/// The absolute lead/lag of every both-signal row, in table order.
pub open spec fn abs_deltas_of(rows: Seq<StreamLatencyModel>) -> Seq<int>
    decreases rows.len(),
{
    if rows.len() == 0 {
        Seq::empty()
    } else {
        abs_deltas_of(rows.drop_last()) + if row_both(rows.last()) {
            seq![
                if row_delta(rows.last()) >= 0 {
                    row_delta(rows.last())
                } else {
                    -row_delta(rows.last())
                },
            ]
        } else {
            Seq::empty()
        }
    }
}

/// The sum of a sequence of integers.
pub open spec fn sum_int(s: Seq<int>) -> int
    decreases s.len(),
{
    if s.len() == 0 {
        0
    } else {
        sum_int(s.drop_last()) + s.last()
    }
}

/// Integer division that truncates toward zero, the rounding the reported
/// averages use.
pub open spec fn div_toward_zero(a: int, b: int) -> int {
    if a >= 0 {
        a / b
    } else {
        -((-a) / b)
    }
}

/// A sequence of signed values in ascending order.
pub open spec fn sorted_i64(s: Seq<i64>) -> bool {
    forall|i: int, j: int| 0 <= i <= j < s.len() ==> s[i] <= s[j]
}

/// The same sequence read as mathematical integers.
pub open spec fn int_view(s: Seq<i64>) -> Seq<int> {
    Seq::new(s.len(), |i: int| s[i] as int)
}

/// One endpoint's win count.
pub struct EndpointWins {
    pub endpoint: String,
    pub wins: u64,
}

/// The distribution of the lead/lag between the two signals over the rows
/// that carry both, in microseconds. `deltas_sorted` holds every lead/lag in
/// ascending order; the other fields are its average (truncated toward
/// zero), middle element, first and last.
pub struct TimingStats {
    pub deltas_sorted: Vec<i64>,
    pub avg_micros: i64,
    pub median_micros: i64,
    pub min_micros: i64,
    pub max_micros: i64,
}

/// The cross-endpoint summary of a whole run.
pub struct GlobalStats {
    pub total_signatures: usize,
    pub account_wins: Vec<EndpointWins>,
    pub transaction_wins: Vec<EndpointWins>,
    pub both_received: usize,
    pub account_faster: usize,
    pub transaction_faster: usize,
    pub timing: Option<TimingStats>,
}

/// One endpoint's own dual-stream summary: how often each signal came first,
/// and the distribution of the absolute gap between them.
pub struct StreamStats {
    pub total_signatures: usize,
    pub both_received: usize,
    pub account_first: usize,
    pub transaction_first: usize,
    pub timing: Option<TimingStats>,
}

/// A win table is correct for the account signal: endpoints are unique, each
/// listed count is exact and positive, and every winning endpoint is listed.
pub open spec fn account_wins_correct(
    rows: Seq<StreamLatencyModel>,
    ws: Seq<EndpointWins>,
) -> bool {
    &&& forall|k1: int, k2: int| 0 <= k1 < k2 < ws.len() ==> ws[k1].endpoint@ != ws[k2].endpoint@
    &&& forall|k: int|
        0 <= k < ws.len() ==> (#[trigger] ws[k]).wins == count_wins_account(rows, ws[k].endpoint@)
    &&& forall|k: int| 0 <= k < ws.len() ==> (#[trigger] ws[k]).wins >= 1
    &&& forall|j: int|
        0 <= j < rows.len() && (#[trigger] rows[j]).account.is_some() ==> exists|k: int|
            0 <= k < ws.len() && (#[trigger] ws[k]).endpoint@ == rows[j].account.unwrap().0
}

/// As `account_wins_correct`, for the transaction signal.
pub open spec fn transaction_wins_correct(
    rows: Seq<StreamLatencyModel>,
    ws: Seq<EndpointWins>,
) -> bool {
    &&& forall|k1: int, k2: int| 0 <= k1 < k2 < ws.len() ==> ws[k1].endpoint@ != ws[k2].endpoint@
    &&& forall|k: int|
        0 <= k < ws.len() ==> (#[trigger] ws[k]).wins == count_wins_transaction(
            rows,
            ws[k].endpoint@,
        )
    &&& forall|k: int| 0 <= k < ws.len() ==> (#[trigger] ws[k]).wins >= 1
    &&& forall|j: int|
        0 <= j < rows.len() && (#[trigger] rows[j]).transaction.is_some() ==> exists|k: int|
            0 <= k < ws.len() && (#[trigger] ws[k]).endpoint@ == rows[j].transaction.unwrap().0
}

/// The timing distribution is correct for the multiset of lead/lag values
/// `ds` with sum `total`: a sorted rearrangement, with average, median,
/// minimum and maximum read off it.
pub open spec fn timing_correct(t: TimingStats, ds: Seq<int>, n: nat) -> bool {
    &&& n >= 1
    &&& ds.len() == n
    &&& t.deltas_sorted@.len() == n
    &&& sorted_i64(t.deltas_sorted@)
    &&& int_view(t.deltas_sorted@).to_multiset() == ds.to_multiset()
    &&& t.avg_micros == div_toward_zero(sum_int(ds), n as int)
    &&& t.median_micros == t.deltas_sorted@[n as int / 2]
    &&& t.min_micros == t.deltas_sorted@[0]
    &&& t.max_micros == t.deltas_sorted@[n as int - 1]
}

proof fn lemma_take_step(rows: Seq<StreamLatencyModel>, i: int)
    requires
        0 <= i < rows.len(),
    ensures
        rows.take(i + 1).drop_last() == rows.take(i),
        rows.take(i + 1).last() == rows[i],
{
    assert(rows.take(i + 1).drop_last() =~= rows.take(i));
}

proof fn lemma_seq_insert_to_multiset(t: Seq<int>, pos: int, y: int)
    requires
        0 <= pos <= t.len(),
    ensures
        t.insert(pos, y).to_multiset() == t.to_multiset().insert(y),
{
    let u = t.insert(pos, y);
    u.to_multiset_ensures();
    t.insert_ensures(pos, y);
    assert(u.remove(pos) =~= t);
    assert(u[pos] == y);
    assert(u.to_multiset().remove(y) =~= t.to_multiset());
    assert(u.to_multiset().count(y) > 0) by {
        assert(u.contains(y));
    }
    assert(u.to_multiset() =~= t.to_multiset().insert(y)) by {
        assert(forall|x: int|
            u.to_multiset().count(x) == t.to_multiset().insert(y).count(x)) by {
            assert(forall|x: int|
                x != y ==> u.to_multiset().count(x) == u.to_multiset().remove(y).count(x));
            assert(u.to_multiset().count(y) == u.to_multiset().remove(y).count(y) + 1);
        }
    }
}

/// Sorts the lead/lag values ascending, returning a rearrangement: the same
/// multiset of values in sorted order.
fn sorted_copy(input: &Vec<i64>) -> (r: Vec<i64>)
    ensures
        r@.len() == input@.len(),
        sorted_i64(r@),
        int_view(r@).to_multiset() == int_view(input@).to_multiset(),
{
    let n = input.len();
    let mut out: Vec<i64> = Vec::new();
    proof {
        assert(int_view(out@) =~= Seq::<int>::empty());
        assert(int_view(input@.take(0)) =~= Seq::<int>::empty());
    }
    let mut i: usize = 0;
    while i < n
        invariant
            n == input@.len(),
            0 <= i <= n,
            out@.len() == i,
            sorted_i64(out@),
            int_view(out@).to_multiset() == int_view(input@.take(i as int)).to_multiset(),
        decreases n - i,
    {
        let x = input[i];
        let m = out.len();
        let mut pos: usize = 0;
        while pos < m && out[pos] <= x
            invariant
                m == out@.len(),
                0 <= pos <= m,
                forall|k: int| 0 <= k < pos ==> out@[k] <= x,
            decreases m - pos,
        {
            pos += 1;
        }
        let ghost out0 = out@;
        out.insert(pos, x);
        proof {
            out0.insert_ensures(pos as int, x);
            assert(sorted_i64(out@)) by {
                assert(forall|k: int| 0 <= k < pos ==> out@[k] == out0[k]);
                assert(out@[pos as int] == x);
                assert(forall|k: int| pos < k < out@.len() ==> out@[k] == out0[k - 1]);
                assert(forall|k: int| pos <= k < out0.len() ==> x < out0[k]) by {
                    if (pos as int) < out0.len() {
                        assert(!(out0[pos as int] <= x));
                    }
                }
            }
            assert(int_view(out@) =~= int_view(out0).insert(pos as int, x as int));
            lemma_seq_insert_to_multiset(int_view(out0), pos as int, x as int);
            assert(int_view(input@.take(i as int + 1)) =~= int_view(input@.take(i as int)).push(
                input@[i as int] as int,
            ));
            int_view(input@.take(i as int)).to_multiset_ensures();
        }
        i += 1;
    }
    proof {
        assert(input@.take(n as int) =~= input@);
    }
    out
}

/// The percentage of `part` in `whole`, in tenths of a percent, rounded
/// down: the integer form of the ratio the report renders.
pub fn percent_tenths(part: u64, whole: u64) -> (r: u64)
    requires
        part <= whole,
        whole > 0,
    ensures
        r == (part * 1000) as int / whole as int,
        r <= 1000,
{
    let wide = (part as u128) * 1000 / (whole as u128);
    proof {
        assert((part * 1000) as int / whole as int <= 1000) by (nonlinear_arith)
            requires
                0 < whole,
                part <= whole,
        ;
    }
    wide as u64
}

struct DeltaScan {
    both: usize,
    account_faster: usize,
    deltas: Vec<i64>,
    abs_deltas: Vec<i64>,
}

fn scan_rows(table: &LatencyTable) -> (r: DeltaScan)
    requires
        table.wf(),
    ensures
        r.both == count_both(table@),
        r.account_faster == count_account_faster(table@),
        int_view(r.deltas@) == deltas_of(table@),
        int_view(r.abs_deltas@) == abs_deltas_of(table@),
        forall|k: int|
            0 <= k < r.deltas@.len() ==> -(TS_MAX as i64) < #[trigger] r.deltas@[k] < TS_MAX as i64,
        forall|k: int|
            0 <= k < r.abs_deltas@.len() ==> 0 <= #[trigger] r.abs_deltas@[k] < TS_MAX as i64,
        r.account_faster <= r.both <= table@.len(),
        r.deltas@.len() == r.both,
        r.abs_deltas@.len() == r.both,
{
    let ghost rows = table@;
    let n = table.row_count();
    let mut both: usize = 0;
    let mut account_faster: usize = 0;
    let mut deltas: Vec<i64> = Vec::new();
    let mut abs_deltas: Vec<i64> = Vec::new();
    proof {
        assert(rows.take(0) =~= Seq::<StreamLatencyModel>::empty());
        assert(int_view(deltas@) =~= Seq::<int>::empty());
        assert(int_view(abs_deltas@) =~= Seq::<int>::empty());
    }
    let mut i: usize = 0;
    while i < n
        invariant
            rows == table@,
            table.wf(),
            n == rows.len(),
            0 <= i <= n,
            both == count_both(rows.take(i as int)),
            account_faster == count_account_faster(rows.take(i as int)),
            int_view(deltas@) == deltas_of(rows.take(i as int)),
            int_view(abs_deltas@) == abs_deltas_of(rows.take(i as int)),
            forall|k: int|
                0 <= k < deltas@.len() ==> -(TS_MAX as i64) < #[trigger] deltas@[k] < TS_MAX
                    as i64,
            forall|k: int| 0 <= k < abs_deltas@.len() ==> 0 <= #[trigger] abs_deltas@[k] < TS_MAX
                as i64,
            account_faster <= both <= i,
            deltas@.len() == both,
            abs_deltas@.len() == both,
        decreases n - i,
    {
        proof {
            lemma_take_step(rows, i as int);
        }
        let row = table.row_at(i);
        match (row.account_timestamp, row.transaction_timestamp) {
            (Some(a), Some(t)) => {
                proof {
                    assert(row_both(rows[i as int]));
                    assert(row_delta(rows[i as int]) == t - a);
                }
                let d: i64 = (t as i64) - (a as i64);
                let ghost ds0 = deltas@;
                let ghost as0 = abs_deltas@;
                deltas.push(d);
                abs_deltas.push(if d >= 0 { d } else { -d });
                both += 1;
                if t > a {
                    account_faster += 1;
                }
                proof {
                    assert(int_view(deltas@) =~= int_view(ds0).push(d as int));
                    assert(deltas_of(rows.take(i as int + 1)) =~= deltas_of(rows.take(i as int))
                        + seq![row_delta(rows[i as int])]);
                    assert(int_view(deltas@) =~= deltas_of(rows.take(i as int + 1)));
                    assert(int_view(abs_deltas@) =~= abs_deltas_of(rows.take(i as int + 1)));
                }
            },
            _ => {
                proof {
                    assert(!row_both(rows[i as int]));
                    assert(deltas_of(rows.take(i as int + 1)) =~= deltas_of(rows.take(i as int)));
                    assert(abs_deltas_of(rows.take(i as int + 1)) =~= abs_deltas_of(
                        rows.take(i as int),
                    ));
                }
            },
        }
        i += 1;
    }
    proof {
        assert(rows.take(n as int) =~= rows);
    }
    DeltaScan { both, account_faster, deltas, abs_deltas }
}

fn account_wins_of(table: &LatencyTable) -> (ws: Vec<EndpointWins>)
    requires
        table.wf(),
    ensures
        account_wins_correct(table@, ws@),
{
    let ghost rows = table@;
    let n = table.row_count();
    let mut ws: Vec<EndpointWins> = Vec::new();
    proof {
        assert(rows.take(0) =~= Seq::<StreamLatencyModel>::empty());
    }
    let mut i: usize = 0;
    while i < n
        invariant
            rows == table@,
            table.wf(),
            n == rows.len(),
            0 <= i <= n,
            account_wins_correct(rows.take(i as int), ws@),
            forall|k: int| 0 <= k < ws@.len() ==> (#[trigger] ws@[k]).wins <= i,
        decreases n - i,
    {
        proof {
            lemma_take_step(rows, i as int);
        }
        let row = table.row_at(i);
        match &row.account_endpoint {
            Some(e) => {
                proof {
                    assert(rows[i as int].account.is_some());
                    assert(rows[i as int].account.unwrap().0 == e@);
                }
                let m = ws.len();
                let mut k: usize = 0;
                let mut found: bool = false;
                while k < m && !found
                    invariant
                        m == ws@.len(),
                        0 <= k <= m,
                        !found ==> forall|k2: int| 0 <= k2 < k ==> ws@[k2].endpoint@ != e@,
                        found ==> k < m && ws@[k as int].endpoint@ == e@,
                    decreases m - k + if found {
                        0int
                    } else {
                        1int
                    },
                {
                    if ws[k].endpoint == *e {
                        found = true;
                    } else {
                        k += 1;
                    }
                }
                let ghost ws0 = ws@;
                if found {
                    let w = ws.remove(k);
                    let wins = w.wins;
                    ws.insert(k, EndpointWins { endpoint: w.endpoint, wins: wins + 1 });
                    proof {
                        assert(ws@ =~= ws0.update(
                            k as int,
                            EndpointWins { endpoint: ws0[k as int].endpoint, wins: (ws0[k as int].wins + 1) as u64 },
                        ));
                    }
                } else {
                    ws.push(EndpointWins { endpoint: e.clone(), wins: 1 });
                }
                proof {
                    let rows1 = rows.take(i as int + 1);
                    assert forall|k3: int|
                        0 <= k3 < ws@.len() implies (#[trigger] ws@[k3]).wins
                        == count_wins_account(rows1, ws@[k3].endpoint@) by {
                        assert(count_wins_account(rows1, ws@[k3].endpoint@) == count_wins_account(
                            rows.take(i as int),
                            ws@[k3].endpoint@,
                        ) + if ws@[k3].endpoint@ == e@ {
                            1nat
                        } else {
                            0nat
                        });
                        if found {
                            if k3 != k {
                                assert(ws@[k3] == ws0[k3]);
                                assert(ws@[k3].endpoint@ != e@);
                            }
                        } else {
                            if k3 < ws0.len() {
                                assert(ws@[k3] == ws0[k3]);
                                assert(ws@[k3].endpoint@ != e@);
                            } else {
                                assert(ws@[k3].endpoint@ == e@);
                                assert(count_wins_account(rows.take(i as int), e@) == 0) by {
                                    lemma_no_entry_no_wins_account(rows.take(i as int), ws0, e@);
                                }
                            }
                        }
                    }
                    assert forall|j: int|
                        0 <= j < rows1.len() && (#[trigger] rows1[j]).account.is_some()
                        implies exists|k4: int|
                        0 <= k4 < ws@.len() && (#[trigger] ws@[k4]).endpoint@
                            == rows1[j].account.unwrap().0 by {
                        if j < i {
                            assert(rows.take(i as int)[j].account.is_some());
                            let k0 = choose|k0: int|
                                0 <= k0 < ws0.len() && (#[trigger] ws0[k0]).endpoint@
                                    == rows.take(i as int)[j].account.unwrap().0;
                            assert(ws@[k0].endpoint@ == rows1[j].account.unwrap().0);
                        } else {
                            if found {
                                assert(ws@[k as int].endpoint@ == e@);
                            } else {
                                assert(ws@[ws0.len() as int].endpoint@ == e@);
                            }
                        }
                    }
                }
            },
            None => {
                proof {
                    assert(rows[i as int].account.is_none());
                    let rows1 = rows.take(i as int + 1);
                    assert forall|k3: int|
                        0 <= k3 < ws@.len() implies (#[trigger] ws@[k3]).wins
                        == count_wins_account(rows1, ws@[k3].endpoint@) by {
                        assert(count_wins_account(rows1, ws@[k3].endpoint@) == count_wins_account(
                            rows.take(i as int),
                            ws@[k3].endpoint@,
                        ));
                    }
                    assert forall|j: int|
                        0 <= j < rows1.len() && (#[trigger] rows1[j]).account.is_some()
                        implies exists|k4: int|
                        0 <= k4 < ws@.len() && (#[trigger] ws@[k4]).endpoint@
                            == rows1[j].account.unwrap().0 by {
                        assert(j < i);
                        assert(rows.take(i as int)[j].account.is_some());
                    }
                }
            },
        }
        i += 1;
    }
    proof {
        assert(rows.take(n as int) =~= rows);
    }
    ws
}

/// When no entry of the win table names `e`, and every winning endpoint of
/// `rows` is named by some entry, `e` has no wins in `rows`.
proof fn lemma_no_entry_no_wins_account(
    rows: Seq<StreamLatencyModel>,
    ws: Seq<EndpointWins>,
    e: Seq<char>,
)
    requires
        forall|k: int| 0 <= k < ws.len() ==> (#[trigger] ws[k]).endpoint@ != e,
        forall|j: int|
            0 <= j < rows.len() && (#[trigger] rows[j]).account.is_some() ==> exists|k: int|
                0 <= k < ws.len() && (#[trigger] ws[k]).endpoint@ == rows[j].account.unwrap().0,
    ensures
        count_wins_account(rows, e) == 0,
    decreases rows.len(),
{
    if rows.len() > 0 {
        lemma_no_entry_no_wins_account(rows.drop_last(), ws, e);
        if rows.last().account.is_some() {
            assert(rows[rows.len() - 1].account.is_some());
            let k = choose|k: int|
                0 <= k < ws.len() && (#[trigger] ws[k]).endpoint@ == rows[rows.len()
                    - 1].account.unwrap().0;
            assert(rows.last().account.unwrap().0 != e);
        }
    }
}


fn transaction_wins_of(table: &LatencyTable) -> (ws: Vec<EndpointWins>)
    requires
        table.wf(),
    ensures
        transaction_wins_correct(table@, ws@),
{
    let ghost rows = table@;
    let n = table.row_count();
    let mut ws: Vec<EndpointWins> = Vec::new();
    proof {
        assert(rows.take(0) =~= Seq::<StreamLatencyModel>::empty());
    }
    let mut i: usize = 0;
    while i < n
        invariant
            rows == table@,
            table.wf(),
            n == rows.len(),
            0 <= i <= n,
            transaction_wins_correct(rows.take(i as int), ws@),
            forall|k: int| 0 <= k < ws@.len() ==> (#[trigger] ws@[k]).wins <= i,
        decreases n - i,
    {
        proof {
            lemma_take_step(rows, i as int);
        }
        let row = table.row_at(i);
        match &row.transaction_endpoint {
            Some(e) => {
                proof {
                    assert(rows[i as int].transaction.is_some());
                    assert(rows[i as int].transaction.unwrap().0 == e@);
                }
                let m = ws.len();
                let mut k: usize = 0;
                let mut found: bool = false;
                while k < m && !found
                    invariant
                        m == ws@.len(),
                        0 <= k <= m,
                        !found ==> forall|k2: int| 0 <= k2 < k ==> ws@[k2].endpoint@ != e@,
                        found ==> k < m && ws@[k as int].endpoint@ == e@,
                    decreases m - k + if found {
                        0int
                    } else {
                        1int
                    },
                {
                    if ws[k].endpoint == *e {
                        found = true;
                    } else {
                        k += 1;
                    }
                }
                let ghost ws0 = ws@;
                if found {
                    let w = ws.remove(k);
                    let wins = w.wins;
                    ws.insert(k, EndpointWins { endpoint: w.endpoint, wins: wins + 1 });
                    proof {
                        assert(ws@ =~= ws0.update(
                            k as int,
                            EndpointWins { endpoint: ws0[k as int].endpoint, wins: (ws0[k as int].wins + 1) as u64 },
                        ));
                    }
                } else {
                    ws.push(EndpointWins { endpoint: e.clone(), wins: 1 });
                }
                proof {
                    let rows1 = rows.take(i as int + 1);
                    assert forall|k3: int|
                        0 <= k3 < ws@.len() implies (#[trigger] ws@[k3]).wins
                        == count_wins_transaction(rows1, ws@[k3].endpoint@) by {
                        assert(count_wins_transaction(rows1, ws@[k3].endpoint@)
                            == count_wins_transaction(rows.take(i as int), ws@[k3].endpoint@)
                            + if ws@[k3].endpoint@ == e@ {
                            1nat
                        } else {
                            0nat
                        });
                        if found {
                            if k3 != k {
                                assert(ws@[k3] == ws0[k3]);
                                assert(ws@[k3].endpoint@ != e@);
                            }
                        } else {
                            if k3 < ws0.len() {
                                assert(ws@[k3] == ws0[k3]);
                                assert(ws@[k3].endpoint@ != e@);
                            } else {
                                assert(ws@[k3].endpoint@ == e@);
                                assert(count_wins_transaction(rows.take(i as int), e@) == 0) by {
                                    lemma_no_entry_no_wins_transaction(
                                        rows.take(i as int),
                                        ws0,
                                        e@,
                                    );
                                }
                            }
                        }
                    }
                    assert forall|j: int|
                        0 <= j < rows1.len() && (#[trigger] rows1[j]).transaction.is_some()
                        implies exists|k4: int|
                        0 <= k4 < ws@.len() && (#[trigger] ws@[k4]).endpoint@
                            == rows1[j].transaction.unwrap().0 by {
                        if j < i {
                            assert(rows.take(i as int)[j].transaction.is_some());
                            let k0 = choose|k0: int|
                                0 <= k0 < ws0.len() && (#[trigger] ws0[k0]).endpoint@
                                    == rows.take(i as int)[j].transaction.unwrap().0;
                            assert(ws@[k0].endpoint@ == rows1[j].transaction.unwrap().0);
                        } else {
                            if found {
                                assert(ws@[k as int].endpoint@ == e@);
                            } else {
                                assert(ws@[ws0.len() as int].endpoint@ == e@);
                            }
                        }
                    }
                }
            },
            None => {
                proof {
                    assert(rows[i as int].transaction.is_none());
                    let rows1 = rows.take(i as int + 1);
                    assert forall|k3: int|
                        0 <= k3 < ws@.len() implies (#[trigger] ws@[k3]).wins
                        == count_wins_transaction(rows1, ws@[k3].endpoint@) by {
                        assert(count_wins_transaction(rows1, ws@[k3].endpoint@)
                            == count_wins_transaction(rows.take(i as int), ws@[k3].endpoint@));
                    }
                    assert forall|j: int|
                        0 <= j < rows1.len() && (#[trigger] rows1[j]).transaction.is_some()
                        implies exists|k4: int|
                        0 <= k4 < ws@.len() && (#[trigger] ws@[k4]).endpoint@
                            == rows1[j].transaction.unwrap().0 by {
                        assert(j < i);
                        assert(rows.take(i as int)[j].transaction.is_some());
                    }
                }
            },
        }
        i += 1;
    }
    proof {
        assert(rows.take(n as int) =~= rows);
    }
    ws
}

/// As `lemma_no_entry_no_wins_account`, for the transaction signal.
proof fn lemma_no_entry_no_wins_transaction(
    rows: Seq<StreamLatencyModel>,
    ws: Seq<EndpointWins>,
    e: Seq<char>,
)
    requires
        forall|k: int| 0 <= k < ws.len() ==> (#[trigger] ws[k]).endpoint@ != e,
        forall|j: int|
            0 <= j < rows.len() && (#[trigger] rows[j]).transaction.is_some() ==> exists|k: int|
                0 <= k < ws.len() && (#[trigger] ws[k]).endpoint@
                    == rows[j].transaction.unwrap().0,
    ensures
        count_wins_transaction(rows, e) == 0,
    decreases rows.len(),
{
    if rows.len() > 0 {
        lemma_no_entry_no_wins_transaction(rows.drop_last(), ws, e);
        if rows.last().transaction.is_some() {
            assert(rows[rows.len() - 1].transaction.is_some());
            let k = choose|k: int|
                0 <= k < ws.len() && (#[trigger] ws[k]).endpoint@ == rows[rows.len()
                    - 1].transaction.unwrap().0;
            assert(rows.last().transaction.unwrap().0 != e);
        }
    }
}

fn timing_of(ds: &Vec<i64>, n: usize) -> (t: TimingStats)
    requires
        n >= 1,
        ds@.len() == n,
        forall|k: int| 0 <= k < ds@.len() ==> -(TS_MAX as i64) < #[trigger] ds@[k] < TS_MAX as i64,
    ensures
        timing_correct(t, int_view(ds@), n as nat),
{
    let sorted = sorted_copy(ds);
    let median = sorted[n / 2];
    let lowest = sorted[0];
    let highest = sorted[n - 1];
    let mut pos_sum: u128 = 0;
    let mut neg_sum: u128 = 0;
    let ghost dsv = int_view(ds@);
    proof {
        assert(dsv.take(0) =~= Seq::<int>::empty());
    }
    let mut k: usize = 0;
    while k < n
        invariant
            dsv == int_view(ds@),
            n == ds@.len(),
            0 <= k <= n,
            forall|j: int| 0 <= j < ds@.len() ==> -(TS_MAX as i64) < #[trigger] ds@[j] < TS_MAX
                as i64,
            pos_sum as int - neg_sum as int == sum_int(dsv.take(k as int)),
            pos_sum <= k as int * (TS_MAX as int),
            neg_sum <= k as int * (TS_MAX as int),
        decreases n - k,
    {
        proof {
            assert(dsv.take(k as int + 1).drop_last() =~= dsv.take(k as int));
            assert(dsv.take(k as int + 1).last() == ds@[k as int] as int);
            assert(k as int + 1 <= 0x1_0000_0000_0000_0000);
        }
        let d = ds[k];
        if d >= 0 {
            pos_sum = pos_sum + (d as u128);
        } else {
            neg_sum = neg_sum + ((-d) as u128);
        }
        k += 1;
    }
    proof {
        assert(dsv.take(n as int) =~= dsv);
    }
    let avg: i64 = if pos_sum >= neg_sum {
        let mag = (pos_sum - neg_sum) / (n as u128);
        proof {
            assert(pos_sum - neg_sum <= n as int * (TS_MAX as int));
            assert((pos_sum - neg_sum) as int / (n as u128) as int <= TS_MAX as int) by {
                vstd::arithmetic::div_mod::lemma_div_is_ordered(
                    (pos_sum - neg_sum) as int,
                    n as int * (TS_MAX as int),
                    n as int,
                );
                vstd::arithmetic::div_mod::lemma_div_multiples_vanish(
                    TS_MAX as int,
                    n as int,
                );
            }
        }
        mag as i64
    } else {
        let mag = (neg_sum - pos_sum) / (n as u128);
        proof {
            assert(neg_sum - pos_sum <= n as int * (TS_MAX as int));
            assert((neg_sum - pos_sum) as int / (n as u128) as int <= TS_MAX as int) by {
                vstd::arithmetic::div_mod::lemma_div_is_ordered(
                    (neg_sum - pos_sum) as int,
                    n as int * (TS_MAX as int),
                    n as int,
                );
                vstd::arithmetic::div_mod::lemma_div_multiples_vanish(
                    TS_MAX as int,
                    n as int,
                );
            }
        }
        -(mag as i64)
    };
    TimingStats {
        deltas_sorted: sorted,
        avg_micros: avg,
        median_micros: median,
        min_micros: lowest,
        max_micros: highest,
    }
}

/// The cross-endpoint summary of the whole run, computed from the global
/// dual-stream table after every runner has stopped writing: how many
/// signatures were tracked, per-endpoint win counts for each signal, how
/// often each signal came first, and the distribution of the signed lead/lag
/// over the signatures that carry both signals. With no such signature the
/// timing distribution is absent rather than computed from nothing.
pub fn print_global_statistics(table: &LatencyTable) -> (r: GlobalStats)
    requires
        table.wf(),
    ensures
        r.total_signatures == table@.len(),
        r.both_received == count_both(table@),
        r.account_faster == count_account_faster(table@),
        r.account_faster + r.transaction_faster == r.both_received,
        account_wins_correct(table@, r.account_wins@),
        transaction_wins_correct(table@, r.transaction_wins@),
        r.timing.is_some() <==> count_both(table@) >= 1,
        r.timing.is_some() ==> timing_correct(
            r.timing.unwrap(),
            deltas_of(table@),
            count_both(table@),
        ),
{
    let scan = scan_rows(table);
    let account_wins = account_wins_of(table);
    let transaction_wins = transaction_wins_of(table);
    let timing = if scan.both >= 1 {
        Some(timing_of(&scan.deltas, scan.both))
    } else {
        None
    };
    GlobalStats {
        total_signatures: table.row_count(),
        account_wins,
        transaction_wins,
        both_received: scan.both,
        account_faster: scan.account_faster,
        transaction_faster: scan.both - scan.account_faster,
        timing,
    }
}

/// One endpoint's own dual-stream summary, computed from that runner's local
/// table: how often the account signal preceded the transaction signal, and
/// the distribution of the absolute gap between the two. With no signature
/// carrying both signals the timing distribution is absent.
pub fn print_stream_statistics(table: &LatencyTable) -> (r: StreamStats)
    requires
        table.wf(),
    ensures
        r.total_signatures == table@.len(),
        r.both_received == count_both(table@),
        r.account_first == count_account_faster(table@),
        r.account_first + r.transaction_first == r.both_received,
        r.timing.is_some() <==> count_both(table@) >= 1,
        r.timing.is_some() ==> timing_correct(
            r.timing.unwrap(),
            abs_deltas_of(table@),
            count_both(table@),
        ),
{
    let scan = scan_rows(table);
    let timing = if scan.both >= 1 {
        Some(timing_of(&scan.abs_deltas, scan.both))
    } else {
        None
    };
    StreamStats {
        total_signatures: table.row_count(),
        both_received: scan.both,
        account_first: scan.account_faster,
        transaction_first: scan.both - scan.account_faster,
        timing,
    }
}

} // verus!
