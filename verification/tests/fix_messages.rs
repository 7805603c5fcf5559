use crypto_latency_benchmark::fix_book::{FixBookTicker, FixQuote};
use crypto_latency_benchmark::fix_parse::FixMdParser;
use crypto_latency_benchmark::fix_session::FixSession;
use crypto_latency_benchmark::fix_driver::{ConnectionEvent, FixSessionLoop, SessionAction};
use crypto_latency_benchmark::fix_stream::{fix_message_type_name, take_all_frames, take_next_frame};

const TS: &str = "20240101-12:00:00.000";

fn rfc8032_seed() -> Vec<u8> {
    vec![
        0x9d, 0x61, 0xb1, 0x9d, 0xef, 0xfd, 0x5a, 0x60, 0xba, 0x84, 0x4a, 0xf4, 0x92, 0xec, 0x2c,
        0xc4, 0x44, 0x49, 0xc5, 0x69, 0x7b, 0x32, 0x69, 0x19, 0x70, 0x3b, 0xac, 0x03, 0x1c, 0xae,
        0x7f, 0x60,
    ]
}

/// A PKCS#8 v1 structure of the RFC 8032 test key: 16 bytes of DER header, then the seed.
fn pkcs8_v1_key() -> Vec<u8> {
    let mut k = vec![
        0x30, 0x2e, 0x02, 0x01, 0x00, 0x30, 0x05, 0x06, 0x03, 0x2b, 0x65, 0x70, 0x04, 0x22, 0x04,
        0x20,
    ];
    k.extend_from_slice(&rfc8032_seed());
    k
}

fn sample_book_ticker() -> String {
    "8=FIX.4.4\x0135=X\x0152=20240101-12:00:00.000\x0155=BTCUSDT\x01268=2\x01269=0\x01270=50000.00\x01271=0.50000\x01279=0\x01269=1\x01270=50001.00\x01271=0.30000\x01279=0\x01".to_string()
}

#[test]
fn new_session_starts_at_sequence_one() {
    let s = FixSession::new("k".to_string(), vec![]);
    assert_eq!(s.msg_seq_num(), 1);
}

#[test]
fn checksum_is_byte_sum_mod_256_in_three_digits() {
    let s = FixSession::new("k".to_string(), vec![]);
    assert_eq!(s.calculate_checksum("abc"), "038");
    assert_eq!(s.calculate_checksum(""), "000");
    assert_eq!(s.calculate_checksum("\u{e9}"), "108");
}

#[test]
fn market_data_request_has_exact_framing() {
    let mut s = FixSession::new("testkey".to_string(), vec![]);
    let m = s.build_market_data_request_at("BTCUSDT", TS);
    assert_eq!(
        m,
        "8=FIX.4.4\x019=111\x0135=V\x0149=RUST001\x0156=SPOT\x0134=1\x0152=20240101-12:00:00.000\x01262=REQ1\x01263=1\x01264=10\x01146=1\x0155=BTCUSDT\x01267=2\x01269=0\x01269=1\x0110=086\x01"
    );
    assert_eq!(s.msg_seq_num(), 2);
}

#[test]
fn logon_is_signed_and_framed() {
    let mut s = FixSession::new("testkey".to_string(), pkcs8_v1_key());
    let m = s.build_logon_at(TS);
    assert_eq!(
        m,
        "8=FIX.4.4\x019=190\x0135=A\x0149=RUST001\x0156=SPOT\x0134=1\x0152=20240101-12:00:00.000\x0198=0\x01108=30\x01141=Y\x01553=testkey\x0125035=1\x0195=88\x0196=oWjfVEaKuiGmUB+iSGWjt4RW38WUkWh5+KwrMCWAVfFbuo2euoPUGFLWx9XVAtEmpYTYPgS2Mi83ckI1dBeKBQ==\x0110=153\x01"
    );
    assert_eq!(s.msg_seq_num(), 2);
}

#[test]
fn logon_without_usable_key_carries_empty_signature() {
    let mut s = FixSession::new("testkey".to_string(), vec![1, 2, 3]);
    let m = s.build_logon_at(TS);
    let fields = FixMdParser::new().parse_message(&m);
    assert_eq!(fields.get(&95).map(|v| v.as_str()), Some("0"));
    assert_eq!(fields.get(&96).map(|v| v.as_str()), Some(""));
}

#[test]
fn sequence_numbers_advance_per_message() {
    let mut s = FixSession::new("testkey".to_string(), vec![]);
    let a = s.build_market_data_request_at("ETHUSDT", TS);
    let b = s.build_heartbeat_at("20240101-12:00:05.000");
    let p = FixMdParser::new();
    assert_eq!(p.parse_message(&a).get(&34).unwrap(), "1");
    assert_eq!(p.parse_message(&b).get(&34).unwrap(), "2");
    assert_eq!(s.msg_seq_num(), 3);
}

#[test]
fn heartbeat_has_no_body_length() {
    let mut s = FixSession::new("testkey".to_string(), vec![]);
    s.build_market_data_request_at("BTCUSDT", TS);
    let hb = s.build_heartbeat_at("20240101-12:00:05.000");
    assert_eq!(
        hb,
        "8=FIX.4.4\x0135=0\x0149=RUST001\x0156=SPOT\x0134=2\x0152=20240101-12:00:05.000\x0110=253\x01"
    );
}

#[test]
fn logout_has_fixed_checksum_and_keeps_sequence() {
    let s = FixSession::new("testkey".to_string(), vec![]);
    let m = s.build_logout_at(TS);
    assert_eq!(m, "8=FIX.4.4\x0135=5\x0134=1\x0152=20240101-12:00:00.000\x0110=000\x01");
    assert_eq!(s.msg_seq_num(), 1);
}

#[test]
fn live_timestamp_uses_the_session_format() {
    let mut s = FixSession::new("testkey".to_string(), vec![]);
    let parser = FixMdParser::new();
    let hb = s.build_heartbeat().unwrap();
    let ts = parser.parse_message(&hb).get(&52).unwrap().clone();
    assert_eq!(ts.len(), 21);
    assert!(ts.chars().all(|c| c.is_ascii_digit() || "-+:.".contains(c)));
    assert_eq!(&ts[8..9], "-");
    assert_eq!(s.msg_seq_num(), 2);
    let m = s.build_market_data_request("BTCUSDT").unwrap();
    assert_eq!(parser.parse_message(&m).get(&52).unwrap().len(), 21);
    let logout = s.build_logout().unwrap();
    assert!(logout.starts_with("8=FIX.4.4\x0135=5\x0134=3\x0152="));
    assert!(logout.ends_with("\x0110=000\x01"));
    assert_eq!(s.msg_seq_num(), 3);
}

#[test]
fn request_roundtrip_recovers_fields() {
    let mut s = FixSession::new("testkey".to_string(), vec![]);
    let m = s.build_market_data_request_at("SOL=USDT", TS);
    let f = FixMdParser::new().parse_message(&m);
    assert_eq!(f.get(&55).unwrap(), "SOL=USDT");
    assert_eq!(f.get(&35).unwrap(), "V");
    assert_eq!(f.get(&262).unwrap(), "REQ1");
    assert_eq!(f.get(&8).unwrap(), "FIX.4.4");
    assert_eq!(f.get(&52).unwrap(), TS);
    let body_start = m.find("35=").unwrap();
    let trailer = m.rfind("10=").unwrap();
    assert_eq!(f.get(&9).unwrap(), &(trailer - body_start).to_string());
    assert_eq!(f.get(&10).unwrap(), &s.calculate_checksum(&m[..trailer]));
}

#[test]
fn logon_roundtrip_recovers_credentials() {
    let mut s = FixSession::new("my-api-key".to_string(), pkcs8_v1_key());
    let m = s.build_logon_at(TS);
    let f = FixMdParser::new().parse_message(&m);
    assert_eq!(f.get(&553).unwrap(), "my-api-key");
    assert_eq!(f.get(&35).unwrap(), "A");
    let sig = f.get(&96).unwrap();
    assert_eq!(f.get(&95).unwrap(), &sig.len().to_string());
}

#[test]
fn parse_message_keeps_last_value_and_skips_malformed() {
    let p = FixMdParser::new();
    let f = p.parse_message("35=X\x01junk\x01=1\x01abc=2\x01+55=A=B\x0135=W\x0199999999999=1\x01");
    assert_eq!(f.len(), 2);
    assert_eq!(f.get(&35).unwrap(), "W");
    assert_eq!(f.get(&55).unwrap(), "A=B");
}

#[test]
fn parse_message_of_empty_text_is_empty() {
    assert!(FixMdParser::new().parse_message("").is_empty());
    let f = FixMdParser::new().parse_message("58=");
    assert_eq!(f.get(&58).unwrap(), "");
}

#[test]
fn book_ticker_reads_entries_by_offset_tags() {
    let p = FixMdParser::new();
    let t: FixBookTicker = p.parse_book_ticker(&sample_book_ticker()).unwrap();
    assert_eq!(t.symbol, "BTCUSDT");
    assert!(t.bid.is_none());
    let FixQuote { price, size } = t.ask.unwrap();
    assert_eq!(price, "50001.00");
    assert_eq!(size, "0.30000");
}

#[test]
fn book_ticker_bid_from_single_entry() {
    let p = FixMdParser::new();
    let t = p
        .parse_book_ticker("35=W\x0155=ETHUSDT\x01268=1\x01269=0\x01270=2000.5\x01271=3\x01")
        .unwrap();
    let bid = t.bid.unwrap();
    assert_eq!((bid.price.as_str(), bid.size.as_str()), ("2000.5", "3"));
    assert!(t.ask.is_none());
}

#[test]
fn book_ticker_rejects_other_messages() {
    let p = FixMdParser::new();
    assert!(p.parse_book_ticker("35=A\x0155=X\x01268=0\x01").is_none());
    assert!(p.parse_book_ticker("55=X\x01268=0\x01").is_none());
    assert!(p.parse_book_ticker("35=X\x01268=0\x01").is_none());
    assert!(p.parse_book_ticker("35=X\x0155=X\x01").is_none());
    let t = p.parse_book_ticker("35=X\x0155=X\x01268=many\x01").unwrap();
    assert!(t.bid.is_none() && t.ask.is_none());
}

#[test]
fn frames_are_cut_at_checksum_field() {
    let mut buf = b"garbage8=FIX.4.4\x0135=0\x0110=123\x018=FIX.4.4\x0135=1".to_vec();
    let f = take_next_frame(&mut buf).unwrap();
    assert_eq!(f, b"8=FIX.4.4\x0135=0\x0110=123\x01".to_vec());
    assert_eq!(buf, b"8=FIX.4.4\x0135=1".to_vec());
    assert!(take_next_frame(&mut buf).is_none());
    assert_eq!(buf, b"8=FIX.4.4\x0135=1".to_vec());
}

#[test]
fn frame_needs_delimiter_after_checksum() {
    let mut buf = b"8=FIX.4.4\x0110=12".to_vec();
    assert!(take_next_frame(&mut buf).is_none());
    let mut none = b"no message here".to_vec();
    assert!(take_next_frame(&mut none).is_none());
}

#[test]
fn built_message_is_one_frame() {
    let mut s = FixSession::new("testkey".to_string(), vec![]);
    let m = s.build_market_data_request_at("BTCUSDT", TS);
    let mut buf = m.as_bytes().to_vec();
    buf.extend_from_slice(b"8=FIX");
    let f = take_next_frame(&mut buf).unwrap();
    assert_eq!(f, m.as_bytes().to_vec());
    assert_eq!(buf, b"8=FIX".to_vec());
}

#[test]
fn built_heartbeat_and_logon_are_one_frame_each() {
    let mut s = FixSession::new("testkey".to_string(), pkcs8_v1_key());
    let logon = s.build_logon_at(TS);
    let hb = s.build_heartbeat_at("20240101-12:00:05.000");
    let mut buf = logon.as_bytes().to_vec();
    buf.extend_from_slice(hb.as_bytes());
    assert_eq!(take_next_frame(&mut buf).unwrap(), logon.as_bytes().to_vec());
    assert_eq!(take_next_frame(&mut buf).unwrap(), hb.as_bytes().to_vec());
    assert!(buf.is_empty());
}

#[test]
fn symbol_holding_checksum_marker_is_cut_short() {
    let mut s = FixSession::new("testkey".to_string(), vec![]);
    let m = s.build_market_data_request_at("A10=B", TS);
    let mut buf = m.as_bytes().to_vec();
    let f = take_next_frame(&mut buf).unwrap();
    assert!(f.len() < m.len());
    assert!(f.ends_with(b"55=A10=B\x01"));
}

#[test]
fn all_complete_frames_are_taken_in_order() {
    let mut buf = b"x8=FIX.4.4\x0135=0\x0110=001\x01y8=FIX.4.4\x0135=1\x0110=002\x018=FIX.4.4\x0135=2".to_vec();
    let frames = take_all_frames(&mut buf);
    assert_eq!(
        frames,
        vec![
            b"8=FIX.4.4\x0135=0\x0110=001\x01".to_vec(),
            b"8=FIX.4.4\x0135=1\x0110=002\x01".to_vec()
        ]
    );
    assert_eq!(buf, b"8=FIX.4.4\x0135=2".to_vec());
    assert!(take_all_frames(&mut buf).is_empty());
    assert_eq!(buf, b"8=FIX.4.4\x0135=2".to_vec());
}

#[test]
fn session_loop_frames_reads_and_keeps_alive() {
    let mut reader = FixSessionLoop::new(FixSession::new("testkey".to_string(), vec![]));
    let msg = b"8=FIX.4.4\x0135=W\x0155=BTCUSDT\x0110=123\x01".to_vec();
    match reader.step(ConnectionEvent::Received(msg[..12].to_vec())) {
        SessionAction::Process(frames) => assert!(frames.is_empty()),
        _ => panic!("expected messages to process"),
    }
    match reader.step(ConnectionEvent::Received(msg[12..].to_vec())) {
        SessionAction::Process(frames) => assert_eq!(frames, vec![msg.clone()]),
        _ => panic!("expected messages to process"),
    }
    match reader.step(ConnectionEvent::TimedOut) {
        SessionAction::SendHeartbeat(hb) => {
            assert!(hb.starts_with("8=FIX.4.4\x0135=0\x0149=RUST001\x0156=SPOT\x0134=1\x0152="));
        }
        _ => panic!("expected a heartbeat"),
    }
    assert_eq!(reader.session().msg_seq_num(), 2);
    assert!(matches!(reader.step(ConnectionEvent::Closed), SessionAction::Stop));
    assert!(matches!(reader.step(ConnectionEvent::Failed), SessionAction::Stop));
    assert_eq!(reader.session().msg_seq_num(), 2);
}

#[test]
fn message_type_names() {
    assert_eq!(fix_message_type_name("A"), "Logon");
    assert_eq!(fix_message_type_name("0"), "Heartbeat");
    assert_eq!(fix_message_type_name("3"), "Reject");
    assert_eq!(fix_message_type_name("X"), "MarketDataIncremental");
    assert_eq!(fix_message_type_name("Y"), "MarketDataRequestReject");
    assert_eq!(fix_message_type_name("AB"), "Unknown");
    assert_eq!(fix_message_type_name(""), "Unknown");
}

#[test]
fn book_entry_count_near_tag_limit_is_checked() {
    let p = FixMdParser::new();
    assert!(p.book_entries_fit_in(&sample_book_ticker()));
    assert!(p.book_entries_fit_in("35=X\x0155=X\x01268=4294967025\x01"));
    assert!(p.book_entries_fit_in("35=X\x0155=X\x01268=4294967026\x01"));
    assert!(!p.book_entries_fit_in("35=X\x0155=X\x01268=4294967026\x014294967294=0\x014294967295=1\x01"));
    assert!(!p.book_entries_fit_in("35=X\x0155=X\x01268=4294967027\x014294967295=0\x01"));
    assert!(p.book_entries_fit_in("35=X\x0155=X\x01268=4294967027\x01"));
    assert!(!p.book_entries_fit_in("35=X\x0155=X\x01268=4294967028\x01"));
    assert!(p.book_entries_fit_in("35=X\x0155=X\x01268=lots\x01"));
}
