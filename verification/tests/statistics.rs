use crypto_latency_benchmark::json_stream::{
    classify_combined_message, classify_event, network_latency_ms, CombinedStreamStats,
};
use crypto_latency_benchmark::stats::{
    summarize, sorted_copy, total, LatencyStats, LatencySummary, SbeLatencyStats,
};

#[test]
fn summary_of_samples() {
    let samples: Vec<u64> = (1..=10).rev().collect();
    let s = summarize(&samples).unwrap();
    assert_eq!(
        s,
        LatencySummary { count: 10, min: 1, max: 10, p50: 6, p90: 10, p95: 10, p99: 10, p999: 10 }
    );
    assert!(summarize(&vec![]).is_none());
}

#[test]
fn summary_percentiles_rise() {
    let samples: Vec<u64> = (0..2000u64).map(|i| (i * 7919) % 2003).collect();
    let s = summarize(&samples).unwrap();
    assert!(s.min <= s.p50 && s.p50 <= s.p90 && s.p90 <= s.p95);
    assert!(s.p95 <= s.p99 && s.p99 <= s.p999 && s.p999 <= s.max);
    assert!(samples.iter().all(|&x| s.min <= x && x <= s.max));
    let sorted = sorted_copy(&samples);
    assert_eq!(s.p999, sorted[1998]);
    assert_eq!(s.p50, sorted[1000]);
}

#[test]
fn single_sample_summary() {
    let s = summarize(&vec![42]).unwrap();
    assert_eq!((s.min, s.p50, s.p999, s.max), (42, 42, 42, 42));
}

#[test]
fn totals() {
    assert_eq!(total(&vec![1, 2, 3, u64::MAX - 6]), u64::MAX);
    assert_eq!(total(&vec![]), 0);
}

#[test]
fn json_stream_report() {
    let mut st = LatencyStats::new("trade".to_string(), "btcusdt".to_string());
    assert!(st.report().is_none());
    st.add_measurement(30, 400);
    st.add_measurement(10, 600);
    assert_eq!(st.message_count(), 2);
    let r = st.report().unwrap();
    assert_eq!(r.network.min, 10);
    assert_eq!(r.network.max, 30);
    assert_eq!(r.network.p50, 30);
    assert_eq!(r.parsing_total_ns, 1000);
    assert_eq!(st.stream_type(), "trade");
    assert_eq!(st.symbol(), "btcusdt");
    assert_eq!(st.network_latencies_ms(), &vec![30, 10]);
}

#[test]
fn sbe_stream_report() {
    let mut st = SbeLatencyStats::new("bestBidAsk".to_string(), "btcusdt".to_string());
    assert!(st.report().is_none());
    st.add_measurement(15, 66);
    st.add_measurement(25, 70);
    st.add_measurement(20, 68);
    let r = st.report().unwrap();
    assert_eq!(r.parsing.p50, 20);
    assert_eq!(r.parsing_total_ns, 60);
    assert_eq!(r.size_total, 204);
    assert_eq!(r.message_count, 3);
}

#[test]
fn event_classification() {
    assert_eq!(classify_event("bookTicker"), Some("bookTicker"));
    assert_eq!(classify_event("depthUpdate"), Some("depth@100ms"));
    assert_eq!(classify_event("trade"), Some("trade"));
    assert_eq!(classify_event("aggTrade"), None);
}

#[test]
fn latency_is_absolute_difference() {
    assert_eq!(network_latency_ms(1_700_000_000_500, 1_700_000_000_000), 500);
    assert_eq!(network_latency_ms(1_700_000_000_000, 1_700_000_000_250), 250);
    assert_eq!(network_latency_ms(5, u64::MAX), 6);
}

#[test]
fn combined_stream_counts_per_stream() {
    let streams = vec!["bookTicker".to_string(), "trade".to_string(), "bookTicker".to_string()];
    let mut c = CombinedStreamStats::new("btcusdt", &streams);
    assert!(c.record("trade", 1_000_000, Some(999_900), 300));
    assert!(c.record("bookTicker", 1_000_000, None, 200));
    assert!(!c.record("trade", 1_000_000, Some(998_000), 300));
    assert!(!c.record("depth@100ms", 1_000_000, Some(999_999), 300));
    assert_eq!(c.total_messages(), 2);
    let v = c.into_streams();
    assert_eq!(v.len(), 2);
    assert_eq!(v[0].stream_type(), "bookTicker");
    assert_eq!(v[0].network_latencies_ms(), &vec![0]);
    assert_eq!(v[1].stream_type(), "trade");
    assert_eq!(v[1].network_latencies_ms(), &vec![100]);
    let counted: usize = v.iter().map(|s| s.message_count()).sum();
    assert_eq!(counted, 2);
}

#[test]
fn combined_messages_are_classified_from_their_data() {
    assert_eq!(
        classify_combined_message(r#"{"stream":"btcusdt@trade","data":{"e":"trade","E":1704110400123,"s":"BTCUSDT"}}"#),
        Some(("trade", Some(1704110400123)))
    );
    assert_eq!(
        classify_combined_message(r#"{"data":{"e":"depthUpdate","E":5}}"#),
        Some(("depth@100ms", Some(5)))
    );
    assert_eq!(
        classify_combined_message(r#"{"data":{"e":"bookTicker","u":1}}"#),
        Some(("bookTicker", None))
    );
    assert_eq!(classify_combined_message(r#"{"data":{"e":"kline","E":5}}"#), None);
    assert_eq!(classify_combined_message(r#"{"data":{"e":7,"E":5}}"#), None);
    assert_eq!(classify_combined_message(r#"{"e":"trade","E":5}"#), None);
    assert_eq!(classify_combined_message("not json"), None);
}
