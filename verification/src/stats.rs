//! Latency statistics: per-stream measurement records and their summaries
//! (extremes and percentiles of the sorted samples, totals for the means).
use vstd::prelude::*;
use vstd::relations::{sorted_by, total_ordering};
use vstd::seq_lib::lemma_sorted_unique;
use vstd::slice::slice_to_vec;

verus! {

/// The order the samples are sorted by.
pub open spec fn ascending() -> spec_fn(u64, u64) -> bool {
    |a: u64, b: u64| a <= b
}

/// The samples in ascending order.
pub open spec fn sorted_samples(s: Seq<u64>) -> Seq<u64> {
    s.sort_by(ascending())
}

/// The sum of the samples.
pub open spec fn sample_sum(s: Seq<u64>) -> nat
    decreases s.len(),
{
    if s.len() == 0 {
        0
    } else {
        sample_sum(s.drop_last()) + s.last() as nat
    }
}

/// The sum of a run of sizes.
pub open spec fn size_sum(s: Seq<usize>) -> nat
    decreases s.len(),
{
    if s.len() == 0 {
        0
    } else {
        size_sum(s.drop_last()) + s.last() as nat
    }
}

/// Extremes and percentiles of a non-empty run of samples.
#[derive(Copy, Clone, Debug, PartialEq, Eq)]
pub struct LatencySummary {
    pub count: usize,
    pub min: u64,
    pub max: u64,
    pub p50: u64,
    pub p90: u64,
    pub p95: u64,
    pub p99: u64,
    pub p999: u64,
}

/// The index of the `per_mille`-th per-mille sample among `n`: `n * per_mille / 1000`.
pub open spec fn rank(n: nat, per_mille: nat) -> int {
    (n * per_mille / 1000) as int
}

/// The summary of the samples `s`: with `t` the samples sorted and `n` their
/// number, minimum `t[0]`, maximum `t[n-1]`, and percentiles `t[n/2]`,
/// `t[n*90/100]`, `t[n*95/100]`, `t[n*99/100]` and `t[min(n*999/1000, n-1)]`.
pub open spec fn summary_of(s: Seq<u64>) -> LatencySummary {
    let t = sorted_samples(s);
    let n = s.len();
    LatencySummary {
        count: n as usize,
        min: t[0],
        max: t[n - 1],
        p50: t[(n / 2) as int],
        p90: t[(n * 90 / 100) as int],
        p95: t[(n * 95 / 100) as int],
        p99: t[(n * 99 / 100) as int],
        p999: t[if n * 999 / 1000 <= n - 1 {
            (n * 999 / 1000) as int
        } else {
            n - 1
        }],
    }
}

/// The summary's figures are samples, in order: the minimum is no larger
/// than any sample, the maximum no smaller, and the percentiles rise from
/// the minimum to the maximum.
pub proof fn lemma_summary_ordered(s: Seq<u64>)
    requires
        s.len() > 0,
        s.len() * 999 <= usize::MAX,
    ensures
        ({
            let r = summary_of(s);
            &&& r.min <= r.p50 <= r.p90 <= r.p95 <= r.p99 <= r.p999 <= r.max
            &&& forall|i: int| 0 <= i < s.len() ==> r.min <= #[trigger] s[i] <= r.max
            &&& s.contains(r.min) && s.contains(r.max)
        }),
{
    broadcast use vstd::seq_lib::group_to_multiset_ensures;

    let t = sorted_samples(s);
    let n = s.len();
    s.lemma_sort_by_ensures(ascending());
    assert(t.len() == t.to_multiset().len());
    assert(n == s.to_multiset().len());
    assert(t.len() == n);
    assert forall|i: int, j: int| 0 <= i < j < t.len() implies #[trigger] t[i] <= #[trigger] t[j] by {
        assert(sorted_by(t, ascending()));
        assert(ascending()(t[i], t[j]));
    }
    assert(n / 2 <= n * 90 / 100 <= n * 95 / 100 <= n * 99 / 100 <= n * 999 / 1000) by (
    nonlinear_arith)
        requires
            n > 0,
    ;
    assert(n * 99 / 100 < n) by (nonlinear_arith)
        requires
            n > 0,
    ;
    assert forall|i: int| 0 <= i < s.len() implies t[0] <= #[trigger] s[i] <= t[n - 1] by {
        assert(s.to_multiset().contains(s[i]));
        assert(t.to_multiset().contains(s[i]));
        assert(t.contains(s[i]));
        let j = choose|j: int| 0 <= j < t.len() && t[j] == s[i];
        if j > 0 {
            assert(t[0] <= t[j]);
        }
        if j < n - 1 {
            assert(t[j] <= t[n - 1]);
        }
    }
    assert(t.contains(t[0]));
    assert(t.to_multiset().contains(t[0]));
    assert(s.to_multiset().contains(t[0]));
    assert(t.contains(t[n - 1]));
    assert(t.to_multiset().contains(t[n - 1]));
    assert(s.to_multiset().contains(t[n - 1]));
}

/// The number of samples for which `p` holds.
pub open spec fn count_where(s: Seq<u64>, p: spec_fn(u64) -> bool) -> nat
    decreases s.len(),
{
    if s.len() == 0 {
        0
    } else {
        count_where(s.drop_last(), p) + if p(s.last()) {
            1nat
        } else {
            0nat
        }
    }
}

/// Samples strictly below `v`.
pub open spec fn below(v: u64) -> spec_fn(u64) -> bool {
    |x: u64| x < v
}

/// Samples at or below `v`.
pub open spec fn at_most(v: u64) -> spec_fn(u64) -> bool {
    |x: u64| x <= v
}

/// Whether `v` is the sample of rank `k` (counting from 0) in ascending
/// order: one of the samples, with at most `k` samples strictly below it and
/// more than `k` at or below it.
pub open spec fn is_sample_of_rank(s: Seq<u64>, v: u64, k: int) -> bool {
    &&& s.contains(v)
    &&& count_where(s, below(v)) <= k
    &&& count_where(s, at_most(v)) > k
}

/// Counting over two runs one after the other.
proof fn lemma_count_concat(a: Seq<u64>, b: Seq<u64>, p: spec_fn(u64) -> bool)
    ensures
        count_where(a + b, p) == count_where(a, p) + count_where(b, p),
    decreases b.len(),
{
    if b.len() == 0 {
        assert(a + b =~= a);
    } else {
        assert((a + b).drop_last() =~= a + b.drop_last());
        assert((a + b).last() == b.last());
        lemma_count_concat(a, b.drop_last(), p);
    }
}

/// A count is at most the number of samples, and all of them when `p`
/// holds of every sample, none when it holds of none.
proof fn lemma_count_bounds(s: Seq<u64>, p: spec_fn(u64) -> bool)
    ensures
        count_where(s, p) <= s.len(),
        (forall|i: int| 0 <= i < s.len() ==> p(#[trigger] s[i])) ==> count_where(s, p) == s.len(),
        (forall|i: int| 0 <= i < s.len() ==> !p(#[trigger] s[i])) ==> count_where(s, p) == 0,
    decreases s.len(),
{
    if s.len() > 0 {
        let d = s.drop_last();
        assert forall|i: int| 0 <= i < d.len() implies #[trigger] d[i] == s[i] by {}
        lemma_count_bounds(d, p);
        if forall|i: int| 0 <= i < s.len() ==> p(#[trigger] s[i]) {
            assert forall|i: int| 0 <= i < d.len() implies p(#[trigger] d[i]) by {
                assert(p(s[i]));
            }
            assert(p(s[s.len() - 1]));
        }
        if forall|i: int| 0 <= i < s.len() ==> !p(#[trigger] s[i]) {
            assert forall|i: int| 0 <= i < d.len() implies !p(#[trigger] d[i]) by {
                assert(!p(s[i]));
            }
            assert(!p(s[s.len() - 1]));
        }
    }
}

/// Counts do not depend on the order of the samples.
proof fn lemma_count_permutation(s: Seq<u64>, t: Seq<u64>, p: spec_fn(u64) -> bool)
    requires
        s.to_multiset() == t.to_multiset(),
    ensures
        count_where(s, p) == count_where(t, p),
    decreases s.len(),
{
    broadcast use vstd::seq_lib::group_to_multiset_ensures;
    broadcast use vstd::multiset::group_multiset_axioms;

    vstd::seq_lib::to_multiset_len(s);
    vstd::seq_lib::to_multiset_len(t);
    if s.len() == 0 {
        assert(t.len() == 0);
        assert(t =~= s);
    } else {
        let d = s.drop_last();
        let x = s.last();
        assert(s =~= d.push(x));
        vstd::seq_lib::to_multiset_build(d, x);
        vstd::seq_lib::to_multiset_contains(t, x);
        assert(s.to_multiset().count(x) > 0);
        assert(t.contains(x));
        let j = choose|j: int| 0 <= j < t.len() && t[j] == x;
        let u = t.remove(j);
        vstd::seq_lib::to_multiset_remove(t, j);
        assert(u.to_multiset() =~= d.to_multiset());
        lemma_count_permutation(d, u, p);
        let a = t.take(j);
        let b = t.skip(j + 1);
        assert(u =~= a + b);
        assert(t =~= a + seq![x] + b);
        lemma_count_concat(a, b, p);
        lemma_count_concat(a + seq![x], b, p);
        lemma_count_concat(a, seq![x], p);
        assert(seq![x].drop_last() =~= Seq::<u64>::empty());
        assert(seq![x].last() == x);
        assert(count_where(Seq::<u64>::empty(), p) == 0);
        assert(count_where(seq![x].drop_last(), p) == 0);
        assert(count_where(seq![x], p) == if p(x) {
            1nat
        } else {
            0nat
        });
    }
}

/// In ascending samples, the one at index `k` has at most `k` samples
/// strictly below it and more than `k` at or below it.
proof fn lemma_rank_in_sorted(t: Seq<u64>, k: int)
    requires
        0 <= k < t.len(),
        forall|i: int, j: int| 0 <= i <= j < t.len() ==> t[i] <= t[j],
    ensures
        count_where(t, below(t[k])) <= k,
        count_where(t, at_most(t[k])) > k,
{
    let v = t[k];
    let lo = t.take(k);
    let hi = t.skip(k);
    assert(t =~= lo + hi);
    lemma_count_concat(lo, hi, below(v));
    lemma_count_bounds(lo, below(v));
    assert forall|i: int| 0 <= i < hi.len() implies !below(v)(#[trigger] hi[i]) by {
        assert(hi[i] == t[k + i]);
    }
    lemma_count_bounds(hi, below(v));
    let lo1 = t.take(k + 1);
    let hi1 = t.skip(k + 1);
    assert(t =~= lo1 + hi1);
    lemma_count_concat(lo1, hi1, at_most(v));
    assert forall|i: int| 0 <= i < lo1.len() implies at_most(v)(#[trigger] lo1[i]) by {
        assert(lo1[i] == t[i]);
    }
    lemma_count_bounds(lo1, at_most(v));
}

/// What the summary reports: the minimum, maximum and percentiles are the
/// samples of the ranks `0`, `n - 1`, `n / 2`, `n * 90 / 100`,
/// `n * 95 / 100`, `n * 99 / 100` and `min(n * 999 / 1000, n - 1)`, each
/// being a sample with at most that many samples strictly below it and more
/// than that many at or below it; `count` is the number of samples.
pub proof fn lemma_summary_ranks(s: Seq<u64>)
    requires
        s.len() > 0,
    ensures
        ({
            let r = summary_of(s);
            let n = s.len();
            &&& r.count == n as usize
            &&& is_sample_of_rank(s, r.min, 0)
            &&& is_sample_of_rank(s, r.max, n - 1)
            &&& is_sample_of_rank(s, r.p50, (n / 2) as int)
            &&& is_sample_of_rank(s, r.p90, (n * 90 / 100) as int)
            &&& is_sample_of_rank(s, r.p95, (n * 95 / 100) as int)
            &&& is_sample_of_rank(s, r.p99, (n * 99 / 100) as int)
            &&& is_sample_of_rank(
                s,
                r.p999,
                if n * 999 / 1000 <= n - 1 {
                    (n * 999 / 1000) as int
                } else {
                    n - 1
                },
            )
        }),
{
    broadcast use vstd::seq_lib::group_to_multiset_ensures;

    let t = sorted_samples(s);
    let n = s.len();
    s.lemma_sort_by_ensures(ascending());
    assert(t.len() == t.to_multiset().len());
    assert(n == s.to_multiset().len());
    assert forall|i: int, j: int| 0 <= i <= j < t.len() implies t[i] <= t[j] by {
        if i < j {
            assert(ascending()(t[i], t[j]));
        }
    }
    assert(n / 2 < n && n * 90 / 100 < n && n * 95 / 100 < n && n * 99 / 100 < n) by (
    nonlinear_arith)
        requires
            n > 0,
    ;
    assert forall|k: int| 0 <= k < n implies #[trigger] is_sample_of_rank(s, t[k], k) by {
        lemma_rank_in_sorted(t, k);
        lemma_count_permutation(s, t, below(t[k]));
        lemma_count_permutation(s, t, at_most(t[k]));
        assert(t.contains(t[k]));
        assert(t.to_multiset().contains(t[k]));
        assert(s.to_multiset().contains(t[k]));
    }
    let k999 = if n * 999 / 1000 <= n - 1 {
        (n * 999 / 1000) as int
    } else {
        n - 1
    };
    assert(is_sample_of_rank(s, t[0], 0));
    assert(is_sample_of_rank(s, t[n - 1], n - 1));
    assert(is_sample_of_rank(s, t[(n / 2) as int], (n / 2) as int));
    assert(is_sample_of_rank(s, t[(n * 90 / 100) as int], (n * 90 / 100) as int));
    assert(is_sample_of_rank(s, t[(n * 95 / 100) as int], (n * 95 / 100) as int));
    assert(is_sample_of_rank(s, t[(n * 99 / 100) as int], (n * 99 / 100) as int));
    assert(is_sample_of_rank(s, t[k999], k999));
}

/// `slice::sort_unstable`: leaves the same samples, in ascending order.
#[verifier::external_body]
fn sort_ascending(v: &mut Vec<u64>)
    ensures
        final(v)@.to_multiset() == old(v)@.to_multiset(),
        forall|i: int, j: int| 0 <= i < j < final(v)@.len() ==> final(v)@[i] <= final(v)@[j],
{
    v.sort_unstable();
}

/// The samples in ascending order.
pub fn sorted_copy(samples: &Vec<u64>) -> (t: Vec<u64>)
    ensures
        t@ == sorted_samples(samples@),
{
    let mut t = slice_to_vec(samples.as_slice());
    sort_ascending(&mut t);
    proof {
        let leq = ascending();
        samples@.lemma_sort_by_ensures(leq);
        assert(total_ordering(leq));
        assert(sorted_by(t@, leq));
        lemma_sorted_unique(t@, sorted_samples(samples@), leq);
    }
    t
}

/// The extremes and percentiles of `samples`, or `None` when there are none.
pub fn summarize(samples: &Vec<u64>) -> (r: Option<LatencySummary>)
    requires
        samples@.len() * 999 <= usize::MAX,
    ensures
        samples@.len() == 0 ==> r is None,
        samples@.len() > 0 ==> r == Some(summary_of(samples@)),
{
    let n = samples.len();
    if n == 0 {
        return None;
    }
    let t = sorted_copy(samples);
    proof {
        broadcast use vstd::seq_lib::group_to_multiset_ensures;
        samples@.lemma_sort_by_ensures(ascending());
        assert(t@.len() == t@.to_multiset().len());
        assert(samples@.len() == samples@.to_multiset().len());
    }
    let last = n - 1;
    let i999 = if n * 999 / 1000 <= last {
        n * 999 / 1000
    } else {
        last
    };
    Some(
        LatencySummary {
            count: n,
            min: t[0],
            max: t[last],
            p50: t[n / 2],
            p90: t[n * 90 / 100],
            p95: t[n * 95 / 100],
            p99: t[n * 99 / 100],
            p999: t[i999],
        },
    )
}

/// The sum of `samples`.
pub fn total(samples: &Vec<u64>) -> (s: u64)
    requires
        sample_sum(samples@) <= u64::MAX,
    ensures
        s == sample_sum(samples@),
{
    let mut s: u64 = 0;
    let mut i: usize = 0;
    while i < samples.len()
        invariant
            i <= samples@.len(),
            sample_sum(samples@) <= u64::MAX,
            s == sample_sum(samples@.take(i as int)),
        decreases samples.len() - i,
    {
        proof {
            assert(samples@.take(i + 1).drop_last() =~= samples@.take(i as int));
            lemma_sample_sum_prefix(samples@, i + 1);
        }
        s = s + samples[i];
        i = i + 1;
    }
    assert(samples@.take(i as int) =~= samples@);
    s
}

/// A prefix sums to no more than the whole.
proof fn lemma_sample_sum_prefix(s: Seq<u64>, k: int)
    requires
        0 <= k <= s.len(),
    ensures
        sample_sum(s.take(k)) <= sample_sum(s),
    decreases s.len(),
{
    if k < s.len() {
        assert(s.drop_last().take(k) =~= s.take(k));
        lemma_sample_sum_prefix(s.drop_last(), k);
    } else {
        assert(s.take(k) =~= s);
    }
}

/// A prefix of sizes sums to no more than the whole.
proof fn lemma_size_sum_prefix(s: Seq<usize>, k: int)
    requires
        0 <= k <= s.len(),
    ensures
        size_sum(s.take(k)) <= size_sum(s),
    decreases s.len(),
{
    if k < s.len() {
        assert(s.drop_last().take(k) =~= s.take(k));
        lemma_size_sum_prefix(s.drop_last(), k);
    } else {
        assert(s.take(k) =~= s);
    }
}

/// The sum of `sizes`.
pub fn total_size(sizes: &Vec<usize>) -> (s: usize)
    requires
        size_sum(sizes@) <= usize::MAX,
    ensures
        s == size_sum(sizes@),
{
    let mut s: usize = 0;
    let mut i: usize = 0;
    while i < sizes.len()
        invariant
            i <= sizes@.len(),
            size_sum(sizes@) <= usize::MAX,
            s == size_sum(sizes@.take(i as int)),
        decreases sizes.len() - i,
    {
        proof {
            assert(sizes@.take(i + 1).drop_last() =~= sizes@.take(i as int));
            lemma_size_sum_prefix(sizes@, i + 1);
        }
        s = s + sizes[i];
        i = i + 1;
    }
    assert(sizes@.take(i as int) =~= sizes@);
    s
}

/// The abstract state of the measurements of one JSON stream.
pub struct LatencyStatsView {
    pub network_latencies_ms: Seq<u64>,
    pub parsing_latencies_ns: Seq<u64>,
    pub message_count: nat,
    pub stream_type: Seq<char>,
    pub symbol: Seq<char>,
}

/// Measurements of one JSON stream: for each message, the network latency
/// in milliseconds and the parsing time in nanoseconds.
pub struct LatencyStats {
    network_latencies_ms: Vec<u64>,
    parsing_latencies_ns: Vec<u64>,
    message_count: usize,
    stream_type: String,
    symbol: String,
}

impl View for LatencyStats {
    type V = LatencyStatsView;

    closed spec fn view(&self) -> LatencyStatsView {
        LatencyStatsView {
            network_latencies_ms: self.network_latencies_ms@,
            parsing_latencies_ns: self.parsing_latencies_ns@,
            message_count: self.message_count as nat,
            stream_type: self.stream_type@,
            symbol: self.symbol@,
        }
    }
}

/// What the report of a JSON stream shows: the network latency summary and
/// the total parsing time over the messages.
#[derive(Copy, Clone, Debug, PartialEq, Eq)]
pub struct NetworkLatencyReport {
    pub network: LatencySummary,
    pub parsing_total_ns: u64,
    pub message_count: usize,
}

impl LatencyStats {
    /// Every message adds one network latency and one parsing time.
    pub closed spec fn wf(&self) -> bool {
        &&& self.network_latencies_ms@.len() == self.message_count
        &&& self.parsing_latencies_ns@.len() == self.message_count
    }

    /// Empty measurements of the stream `stream_type` of `symbol`.
    pub fn new(stream_type: String, symbol: String) -> (s: Self)
        ensures
            s.wf(),
            s@ == (LatencyStatsView {
                network_latencies_ms: seq![],
                parsing_latencies_ns: seq![],
                message_count: 0,
                stream_type: stream_type@,
                symbol: symbol@,
            }),
    {
        LatencyStats {
            network_latencies_ms: Vec::with_capacity(1000),
            parsing_latencies_ns: Vec::with_capacity(1000),
            message_count: 0,
            stream_type,
            symbol,
        }
    }

    /// Records one message.
    pub fn add_measurement(&mut self, network_ms: u64, parsing_ns: u64)
        requires
            old(self).wf(),
            old(self)@.message_count < usize::MAX,
        ensures
            final(self).wf(),
            final(self)@ == (LatencyStatsView {
                network_latencies_ms: old(self)@.network_latencies_ms.push(network_ms),
                parsing_latencies_ns: old(self)@.parsing_latencies_ns.push(parsing_ns),
                message_count: old(self)@.message_count + 1,
                ..old(self)@
            }),
    {
        self.network_latencies_ms.push(network_ms);
        self.parsing_latencies_ns.push(parsing_ns);
        self.message_count = self.message_count + 1;
    }

    /// The number of messages recorded.
    pub fn message_count(&self) -> (n: usize)
        requires
            self.wf(),
        ensures
            n == self@.message_count,
            n == self@.network_latencies_ms.len(),
            n == self@.parsing_latencies_ns.len(),
    {
        self.message_count
    }

    /// The parsing times recorded, in nanoseconds.
    pub fn parsing_latencies_ns(&self) -> (v: &Vec<u64>)
        ensures
            v@ == self@.parsing_latencies_ns,
    {
        &self.parsing_latencies_ns
    }

    /// The network latencies recorded, in milliseconds.
    pub fn network_latencies_ms(&self) -> (v: &Vec<u64>)
        ensures
            v@ == self@.network_latencies_ms,
    {
        &self.network_latencies_ms
    }

    /// The stream name.
    pub fn stream_type(&self) -> (s: &String)
        ensures
            s@ == self@.stream_type,
    {
        &self.stream_type
    }

    /// The symbol.
    pub fn symbol(&self) -> (s: &String)
        ensures
            s@ == self@.symbol,
    {
        &self.symbol
    }

    /// The figures of the stream's report, or `None` when no message was recorded.
    pub fn report(&self) -> (r: Option<NetworkLatencyReport>)
        requires
            self.wf(),
            self@.message_count * 999 <= usize::MAX,
            sample_sum(self@.parsing_latencies_ns) <= u64::MAX,
        ensures
            self@.network_latencies_ms.len() == 0 ==> r is None,
            self@.network_latencies_ms.len() > 0 ==> r == Some(
                NetworkLatencyReport {
                    network: summary_of(self@.network_latencies_ms),
                    parsing_total_ns: sample_sum(self@.parsing_latencies_ns) as u64,
                    message_count: self@.message_count as usize,
                },
            ),
    {
        match summarize(&self.network_latencies_ms) {
            None => None,
            Some(network) => Some(
                NetworkLatencyReport {
                    network,
                    parsing_total_ns: total(&self.parsing_latencies_ns),
                    message_count: self.message_count,
                },
            ),
        }
    }
}

/// The abstract state of the measurements of one SBE stream.
pub struct SbeLatencyStatsView {
    pub parsing_latencies_ns: Seq<u64>,
    pub message_sizes: Seq<usize>,
    pub message_count: nat,
    pub stream_type: Seq<char>,
    pub symbol: Seq<char>,
}

/// Measurements of one SBE stream: for each message, the decoding time in
/// nanoseconds and the message size in bytes.
pub struct SbeLatencyStats {
    parsing_latencies_ns: Vec<u64>,
    message_sizes: Vec<usize>,
    message_count: usize,
    stream_type: String,
    symbol: String,
}

impl View for SbeLatencyStats {
    type V = SbeLatencyStatsView;

    closed spec fn view(&self) -> SbeLatencyStatsView {
        SbeLatencyStatsView {
            parsing_latencies_ns: self.parsing_latencies_ns@,
            message_sizes: self.message_sizes@,
            message_count: self.message_count as nat,
            stream_type: self.stream_type@,
            symbol: self.symbol@,
        }
    }
}

/// What the report of an SBE stream shows: the decoding time summary, its
/// total, and the total size of the messages.
#[derive(Copy, Clone, Debug, PartialEq, Eq)]
pub struct SbeLatencyReport {
    pub parsing: LatencySummary,
    pub parsing_total_ns: u64,
    pub size_total: usize,
    pub message_count: usize,
}

impl SbeLatencyStats {
    /// Every message adds one decoding time and one size.
    pub closed spec fn wf(&self) -> bool {
        &&& self.parsing_latencies_ns@.len() == self.message_count
        &&& self.message_sizes@.len() == self.message_count
    }

    /// Empty measurements of the stream `stream_type` of `symbol`.
    pub fn new(stream_type: String, symbol: String) -> (s: Self)
        ensures
            s.wf(),
            s@ == (SbeLatencyStatsView {
                parsing_latencies_ns: seq![],
                message_sizes: seq![],
                message_count: 0,
                stream_type: stream_type@,
                symbol: symbol@,
            }),
    {
        SbeLatencyStats {
            parsing_latencies_ns: Vec::with_capacity(1000),
            message_sizes: Vec::with_capacity(1000),
            message_count: 0,
            stream_type,
            symbol,
        }
    }

    /// Records one message.
    pub fn add_measurement(&mut self, parsing_ns: u64, msg_size: usize)
        requires
            old(self).wf(),
            old(self)@.message_count < usize::MAX,
        ensures
            final(self).wf(),
            final(self)@ == (SbeLatencyStatsView {
                parsing_latencies_ns: old(self)@.parsing_latencies_ns.push(parsing_ns),
                message_sizes: old(self)@.message_sizes.push(msg_size),
                message_count: old(self)@.message_count + 1,
                ..old(self)@
            }),
    {
        self.parsing_latencies_ns.push(parsing_ns);
        self.message_sizes.push(msg_size);
        self.message_count = self.message_count + 1;
    }

    /// The number of messages recorded.
    pub fn message_count(&self) -> (n: usize)
        requires
            self.wf(),
        ensures
            n == self@.message_count,
            n == self@.parsing_latencies_ns.len(),
            n == self@.message_sizes.len(),
    {
        self.message_count
    }

    /// The stream name.
    pub fn stream_type(&self) -> (s: &String)
        ensures
            s@ == self@.stream_type,
    {
        &self.stream_type
    }

    /// The symbol.
    pub fn symbol(&self) -> (s: &String)
        ensures
            s@ == self@.symbol,
    {
        &self.symbol
    }

    /// The decoding times recorded, in nanoseconds.
    pub fn parsing_latencies_ns(&self) -> (v: &Vec<u64>)
        ensures
            v@ == self@.parsing_latencies_ns,
    {
        &self.parsing_latencies_ns
    }

    /// The message sizes recorded, in bytes.
    pub fn message_sizes(&self) -> (v: &Vec<usize>)
        ensures
            v@ == self@.message_sizes,
    {
        &self.message_sizes
    }

    /// The figures of the stream's report, or `None` when no message was recorded.
    pub fn report(&self) -> (r: Option<SbeLatencyReport>)
        requires
            self.wf(),
            self@.message_count * 999 <= usize::MAX,
            sample_sum(self@.parsing_latencies_ns) <= u64::MAX,
            size_sum(self@.message_sizes) <= usize::MAX,
        ensures
            self@.parsing_latencies_ns.len() == 0 ==> r is None,
            self@.parsing_latencies_ns.len() > 0 ==> r == Some(
                SbeLatencyReport {
                    parsing: summary_of(self@.parsing_latencies_ns),
                    parsing_total_ns: sample_sum(self@.parsing_latencies_ns) as u64,
                    size_total: size_sum(self@.message_sizes) as usize,
                    message_count: self@.message_count as usize,
                },
            ),
    {
        match summarize(&self.parsing_latencies_ns) {
            None => None,
            Some(parsing) => Some(
                SbeLatencyReport {
                    parsing,
                    parsing_total_ns: total(&self.parsing_latencies_ns),
                    size_total: total_size(&self.message_sizes),
                    message_count: self.message_count,
                },
            ),
        }
    }
}

} // verus!
