//! Bookkeeping of a combined JSON WebSocket stream: which stream an event
//! belongs to, its network latency, and the per-stream measurements.
use vstd::prelude::*;
use vstd::string::StrSliceExecFns;
use crate::stats::{LatencyStats, LatencyStatsView};
use crate::text::chars_of;

verus! {

/// The stream name an event type is counted under: `bookTicker` events
/// under `bookTicker`, `depthUpdate` events under `depth@100ms`, `trade`
/// events under `trade`; other events are not counted.
pub open spec fn stream_of_event(event_type: Seq<char>) -> Option<Seq<char>> {
    if event_type == "bookTicker"@ {
        Some("bookTicker"@)
    } else if event_type == "depthUpdate"@ {
        Some("depth@100ms"@)
    } else if event_type == "trade"@ {
        Some("trade"@)
    } else {
        None
    }
}

/// Whether two texts are equal.
fn same_text(a: &str, b: &str) -> (r: bool)
    ensures
        r == (a@ == b@),
{
    let x = chars_of(a);
    let y = chars_of(b);
    if x.len() != y.len() {
        return false;
    }
    let mut i: usize = 0;
    while i < x.len()
        invariant
            i <= x@.len() == y@.len(),
            x@ == a@,
            y@ == b@,
            forall|k: int| 0 <= k < i ==> x@[k] == y@[k],
        decreases x.len() - i,
    {
        if x[i] != y[i] {
            assert(x@[i as int] != y@[i as int]);
            return false;
        }
        i = i + 1;
    }
    assert(x@ =~= y@);
    true
}

/// The stream name the event type `event_type` is counted under, if any.
pub fn classify_event(event_type: &str) -> (s: Option<&'static str>)
    ensures
        match stream_of_event(event_type@) {
            Some(name) => s matches Some(n) && n@ == name,
            None => s is None,
        },
{
    if same_text(event_type, "bookTicker") {
        Some("bookTicker")
    } else if same_text(event_type, "depthUpdate") {
        Some("depth@100ms")
    } else if same_text(event_type, "trade") {
        Some("trade")
    } else {
        None
    }
}

/// What `serde_json` reads of a combined-stream text: `None` when the text
/// is not JSON or has no `data` member; else the `e` member of `data` when
/// it is a string, and its `E` member when it is an integer that fits `u64`.
pub uninterp spec fn combined_event_fields(text: Seq<char>) -> Option<(Option<Seq<char>>, Option<u64>)>;

/// `serde_json::from_str::<serde_json::Value>(text)`, then `get("data")`,
/// and of that value `get("e")` with `as_str` and `get("E")` with `as_u64`:
/// the fields named by `combined_event_fields`.
#[verifier::external_body]
fn combined_event(text: &str) -> (r: Option<(Option<String>, Option<u64>)>)
    ensures
        match combined_event_fields(text@) {
            None => r is None,
            Some((e, t)) => r matches Some((re, rt)) && rt == t && match e {
                None => re is None,
                Some(es) => re matches Some(x) && x@ == es,
            },
        },
{
    let wrapper: serde_json::Value = serde_json::from_str(text).ok()?;
    let data = wrapper.get("data")?;
    let event_type = data.get("e").and_then(|e| e.as_str()).map(|e| e.to_string());
    let event_time = data.get("E").and_then(|t| t.as_u64());
    Some((event_type, event_time))
}

/// The stream a combined-stream message is counted under, and the event
/// time it carries, from what `serde_json` reads of it.
pub open spec fn combined_message(fields: Option<(Option<Seq<char>>, Option<u64>)>) -> Option<
    (Seq<char>, Option<u64>),
> {
    match fields {
        Some((Some(e), t)) => match stream_of_event(e) {
            Some(n) => Some((n, t)),
            None => None,
        },
        _ => None,
    }
}

/// The stream a combined-stream message `text` is counted under and the
/// event time it carries; `None` when it is not JSON, has no `data`, or
/// its event type is not a counted one.
pub fn classify_combined_message(text: &str) -> (r: Option<(&'static str, Option<u64>)>)
    ensures
        match combined_message(combined_event_fields(text@)) {
            Some((n, t)) => r matches Some((s, et)) && s@ == n && et == t,
            None => r is None,
        },
{
    match combined_event(text) {
        Some((Some(e), t)) => match classify_event(e.as_str()) {
            Some(s) => Some((s, t)),
            None => None,
        },
        _ => None,
    }
}

/// A millisecond timestamp read as `i64`, as `as i64` reads it.
pub open spec fn as_signed(x: u64) -> int {
    if x <= i64::MAX {
        x as int
    } else {
        x - 0x1_0000_0000_0000_0000
    }
}

/// The difference between the receive and event timestamps, both read as `i64`.
pub open spec fn timestamp_difference(receive_ms: u64, event_ms: u64) -> int {
    as_signed(receive_ms) - as_signed(event_ms)
}

/// Whether the difference and its absolute value fit in `i64`.
pub open spec fn difference_fits(receive_ms: u64, event_ms: u64) -> bool {
    i64::MIN < timestamp_difference(receive_ms, event_ms) <= i64::MAX
}

/// The absolute value of an integer.
pub open spec fn abs(x: int) -> int {
    if x < 0 {
        -x
    } else {
        x
    }
}

/// The network latency between the exchange's event time and the local
/// receive time, in milliseconds: the absolute difference of the two.
pub fn network_latency_ms(receive_ms: u64, event_ms: u64) -> (l: u64)
    requires
        difference_fits(receive_ms, event_ms),
    ensures
        l == abs(timestamp_difference(receive_ms, event_ms)),
{
    let r: i128 = if receive_ms <= 0x7fff_ffff_ffff_ffff {
        receive_ms as i128
    } else {
        receive_ms as i128 - 0x1_0000_0000_0000_0000
    };
    let e: i128 = if event_ms <= 0x7fff_ffff_ffff_ffff {
        event_ms as i128
    } else {
        event_ms as i128 - 0x1_0000_0000_0000_0000
    };
    let d = r - e;
    if d < 0 {
        (0 - d) as u64
    } else {
        d as u64
    }
}

/// The names of `s` in order of first occurrence.
pub open spec fn distinct_names(s: Seq<Seq<char>>) -> Seq<Seq<char>>
    decreases s.len(),
{
    if s.len() == 0 {
        seq![]
    } else {
        let d = distinct_names(s.drop_last());
        if d.contains(s.last()) {
            d
        } else {
            d.push(s.last())
        }
    }
}

/// The number of messages the stream records count together.
pub open spec fn counted_messages(streams: Seq<LatencyStatsView>) -> int
    decreases streams.len(),
{
    if streams.len() == 0 {
        0
    } else {
        counted_messages(streams.drop_last()) + streams.last().message_count
    }
}

/// Replacing one record changes the count by the difference of the two.
proof fn lemma_counted_update(s: Seq<LatencyStatsView>, k: int, x: LatencyStatsView)
    requires
        0 <= k < s.len(),
    ensures
        counted_messages(s.update(k, x)) == counted_messages(s) - s[k].message_count
            + x.message_count,
    decreases s.len(),
{
    let u = s.update(k, x);
    assert(u.drop_last() =~= if k == s.len() - 1 {
        s.drop_last()
    } else {
        s.drop_last().update(k, x)
    });
    if k < s.len() - 1 {
        lemma_counted_update(s.drop_last(), k, x);
    }
}

/// No record counts more than all of them together.
proof fn lemma_counted_bound(s: Seq<LatencyStatsView>, k: int)
    requires
        0 <= k < s.len(),
    ensures
        s[k].message_count <= counted_messages(s),
    decreases s.len(),
{
    lemma_counted_nonnegative(s.drop_last());
    if k < s.len() - 1 {
        lemma_counted_bound(s.drop_last(), k);
    }
}

/// The count is never negative.
proof fn lemma_counted_nonnegative(s: Seq<LatencyStatsView>)
    ensures
        counted_messages(s) >= 0,
    decreases s.len(),
{
    if s.len() > 0 {
        lemma_counted_nonnegative(s.drop_last());
    }
}

/// Records that count nothing count nothing together.
proof fn lemma_counted_zero(s: Seq<LatencyStatsView>)
    requires
        forall|k: int| 0 <= k < s.len() ==> #[trigger] s[k].message_count == 0,
    ensures
        counted_messages(s) == 0,
    decreases s.len(),
{
    if s.len() > 0 {
        lemma_counted_zero(s.drop_last());
    }
}

/// The abstract state of a combined stream.
pub struct CombinedStreamView {
    pub streams: Seq<LatencyStatsView>,
    pub total_messages: int,
}

/// Measurements of a combined stream: one record per subscribed stream
/// name (each name once), and the number of messages counted.
pub struct CombinedStreamStats {
    streams: Vec<LatencyStats>,
    total_messages: i32,
}

/// The index of the stream named `name`, if there is one.
pub open spec fn stream_index(streams: Seq<LatencyStatsView>, name: Seq<char>) -> Option<int> {
    if exists|k: int| 0 <= k < streams.len() && #[trigger] streams[k].stream_type == name {
        Some(choose|k: int| 0 <= k < streams.len() && #[trigger] streams[k].stream_type == name)
    } else {
        None
    }
}

impl View for CombinedStreamStats {
    type V = CombinedStreamView;

    closed spec fn view(&self) -> CombinedStreamView {
        CombinedStreamView {
            streams: Seq::new(self.streams@.len(), |k: int| self.streams@[k]@),
            total_messages: self.total_messages as int,
        }
    }
}

impl CombinedStreamStats {
    /// Each stream record is consistent, names are distinct, and no stream
    /// counts more messages than the total.
    pub closed spec fn wf(&self) -> bool {
        &&& forall|k: int| 0 <= k < self.streams@.len() ==> #[trigger] self.streams@[k].wf()
        &&& forall|j: int, k: int|
            0 <= j < k < self.streams@.len() ==> #[trigger] self.streams@[j]@.stream_type
                != #[trigger] self.streams@[k]@.stream_type
        &&& self.total_messages == counted_messages(self@.streams)
    }

    /// The total is the number of messages the stream records count together.
    pub proof fn lemma_total_is_counted(&self)
        requires
            self.wf(),
        ensures
            self@.total_messages == counted_messages(self@.streams),
    {
    }

    /// One empty record for each distinct name of `streams`, in order of
    /// first occurrence, for `symbol`.
    pub fn new(symbol: &str, streams: &Vec<String>) -> (c: Self)
        ensures
            c.wf(),
            c@.total_messages == 0,
            c@.streams.len() == distinct_names(streams@.map_values(|s: String| s@)).len(),
            forall|k: int|
                0 <= k < c@.streams.len() ==> #[trigger] c@.streams[k] == (LatencyStatsView {
                    network_latencies_ms: seq![],
                    parsing_latencies_ns: seq![],
                    message_count: 0,
                    stream_type: distinct_names(streams@.map_values(|s: String| s@))[k],
                    symbol: symbol@,
                }),
    {
        let ghost names = streams@.map_values(|s: String| s@);
        let mut out: Vec<LatencyStats> = Vec::new();
        let mut i: usize = 0;
        while i < streams.len()
            invariant
                i <= streams@.len(),
                names == streams@.map_values(|s: String| s@),
                out@.len() == distinct_names(names.take(i as int)).len(),
                forall|k: int| 0 <= k < out@.len() ==> #[trigger] out@[k].wf(),
                forall|k: int|
                    0 <= k < out@.len() ==> #[trigger] out@[k]@ == (LatencyStatsView {
                        network_latencies_ms: seq![],
                        parsing_latencies_ns: seq![],
                        message_count: 0,
                        stream_type: distinct_names(names.take(i as int))[k],
                        symbol: symbol@,
                    }),
                forall|j: int, k: int|
                    0 <= j < k < out@.len() ==> #[trigger] out@[j]@.stream_type
                        != #[trigger] out@[k]@.stream_type,
            decreases streams.len() - i,
        {
            let ghost d = distinct_names(names.take(i as int));
            assert(names.take(i + 1).drop_last() =~= names.take(i as int));
            assert(names.take(i + 1).last() == streams@[i as int]@);
            let name = streams[i].as_str();
            let mut found = false;
            let mut k: usize = 0;
            while k < out.len()
                invariant
                    k <= out@.len() == d.len(),
                    forall|m: int| 0 <= m < out@.len() ==> #[trigger] out@[m]@.stream_type == d[m],
                    found == exists|m: int| 0 <= m < k && #[trigger] d[m] == name@,
                decreases out.len() - k,
            {
                if same_text(out[k].stream_type().as_str(), name) {
                    found = true;
                }
                k = k + 1;
            }
            assert(found == d.contains(name@));
            if !found {
                let stats = LatencyStats::new(String::from_str(name), String::from_str(symbol));
                out.push(stats);
            }
            i = i + 1;
        }
        assert(names.take(i as int) =~= names);
        let c = CombinedStreamStats { streams: out, total_messages: 0 };
        proof {
            lemma_counted_zero(c@.streams);
        }
        assert forall|k: int| 0 <= k < c@.streams.len() implies #[trigger] c@.streams[k]
            == (LatencyStatsView {
            network_latencies_ms: seq![],
            parsing_latencies_ns: seq![],
            message_count: 0,
            stream_type: distinct_names(names)[k],
            symbol: symbol@,
        }) by {
            assert(c@.streams[k] == out@[k]@);
        }
        c
    }

    /// The number of messages counted so far.
    pub fn total_messages(&self) -> (n: i32)
        ensures
            n == self@.total_messages,
    {
        self.total_messages
    }

    /// Counts one message of stream `stream_type`, with the event time
    /// `event_ms` (the receive time when the event carries none) and the
    /// parsing time `parsing_ns`: when the network latency is under one
    /// second and a stream of that name is recorded, its record gains the
    /// measurement and the total grows by one (the result is then `true`).
    pub fn record(
        &mut self,
        stream_type: &str,
        receive_ms: u64,
        event_ms: Option<u64>,
        parsing_ns: u64,
    ) -> (counted: bool)
        requires
            old(self).wf(),
            old(self)@.total_messages < i32::MAX,
            difference_fits(receive_ms, event_ms.unwrap_or(receive_ms)),
        ensures
            final(self).wf(),
            ({
                let latency = abs(timestamp_difference(receive_ms, event_ms.unwrap_or(receive_ms)));
                let before = old(self)@;
                match stream_index(before.streams, stream_type@) {
                    Some(k) => if latency < 1000 {
                        &&& counted
                        &&& final(self)@.total_messages == before.total_messages + 1
                        &&& final(self)@.streams == before.streams.update(
                            k,
                            LatencyStatsView {
                                network_latencies_ms: before.streams[k].network_latencies_ms.push(
                                    latency as u64,
                                ),
                                parsing_latencies_ns: before.streams[k].parsing_latencies_ns.push(
                                    parsing_ns,
                                ),
                                message_count: before.streams[k].message_count + 1,
                                ..before.streams[k]
                            },
                        )
                    } else {
                        !counted && final(self)@ == before
                    },
                    None => !counted && final(self)@ == before,
                }
            }),
    {
        let event = match event_ms {
            Some(e) => e,
            None => receive_ms,
        };
        let latency = network_latency_ms(receive_ms, event);
        let ghost before = self@;
        let n = self.streams.len();
        let mut k: usize = 0;
        while k < n
            invariant
                k <= n == self.streams@.len(),
                *self == *old(self),
                before == old(self)@,
                old(self).wf(),
                old(self)@.total_messages < i32::MAX,
                latency == abs(timestamp_difference(receive_ms, event)),
                event == event_ms.unwrap_or(receive_ms),
                forall|m: int| 0 <= m < k ==> #[trigger] before.streams[m].stream_type != stream_type@,
            decreases n - k,
        {
            assert(before.streams[k as int] == self.streams@[k as int]@);
            if same_text(self.streams[k].stream_type().as_str(), stream_type) {
                proof {
                    assert(before.streams[k as int].stream_type == stream_type@);
                    let j = choose|j: int| 0 <= j < before.streams.len() && #[trigger] before.streams[j].stream_type == stream_type@;
                    if j != k {
                        if j < k {
                            assert(self.streams@[j]@.stream_type != self.streams@[k as int]@.stream_type);
                        } else {
                            assert(self.streams@[k as int]@.stream_type != self.streams@[j]@.stream_type);
                        }
                    }
                    assert(stream_index(before.streams, stream_type@) == Some(k as int));
                }
                if latency < 1000 {
                    proof {
                        lemma_counted_bound(before.streams, k as int);
                    }
                    let mut stats = self.streams.remove(k);
                    assert(stats.wf());
                    assert(stats@ == before.streams[k as int]);
                    stats.add_measurement(latency, parsing_ns);
                    self.streams.insert(k, stats);
                    self.total_messages = self.total_messages + 1;
                    proof {
                        assert(self@.streams =~= before.streams.update(
                            k as int,
                            LatencyStatsView {
                                network_latencies_ms: before.streams[k as int].network_latencies_ms.push(
                                    latency,
                                ),
                                parsing_latencies_ns: before.streams[k as int].parsing_latencies_ns.push(
                                    parsing_ns,
                                ),
                                message_count: before.streams[k as int].message_count + 1,
                                ..before.streams[k as int]
                            },
                        ));
                        assert forall|j: int, m: int| 0 <= j < m < self.streams@.len() implies #[trigger] self.streams@[j]@.stream_type
                            != #[trigger] self.streams@[m]@.stream_type by {
                            assert(self.streams@[j]@.stream_type == before.streams[j].stream_type);
                            assert(self.streams@[m]@.stream_type == before.streams[m].stream_type);
                            assert(old(self).streams@[j]@.stream_type != old(self).streams@[m]@.stream_type);
                        }
                        assert forall|m: int| 0 <= m < self.streams@.len() implies #[trigger] self.streams@[m].wf() by {
                            if m != k {
                                assert(self.streams@[m] == old(self).streams@[m]);
                            }
                        }
                        lemma_counted_update(before.streams, k as int, self@.streams[k as int]);
                    }
                    return true;
                }
                return false;
            }
            k = k + 1;
        }
        assert(stream_index(before.streams, stream_type@) is None);
        false
    }

    /// The per-stream records, in order of first subscription.
    pub fn into_streams(self) -> (v: Vec<LatencyStats>)
        requires
            self.wf(),
        ensures
            v@.len() == self@.streams.len(),
            forall|k: int| 0 <= k < v@.len() ==> #[trigger] v@[k]@ == self@.streams[k] && v@[k].wf(),
    {
        self.streams
    }
}

} // verus!
