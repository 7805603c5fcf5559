use crypto_latency_benchmark::sbe::{BestBidAskStreamEvent, SbeMessage, SbeMessageHeader, SbeParser};

fn best_bid_ask_bytes(symbol: &[u8], declared_len: u8) -> Vec<u8> {
    let mut d = Vec::new();
    d.extend_from_slice(&50u16.to_le_bytes());
    d.extend_from_slice(&10001u16.to_le_bytes());
    d.extend_from_slice(&1u16.to_le_bytes());
    d.extend_from_slice(&0u16.to_le_bytes());
    d.extend_from_slice(&1_700_000_000_000_000i64.to_le_bytes());
    d.extend_from_slice(&(-42i64).to_le_bytes());
    d.push((-2i8) as u8);
    d.push((-8i8) as u8);
    d.extend_from_slice(&5_000_012i64.to_le_bytes());
    d.extend_from_slice(&150_000_000i64.to_le_bytes());
    d.extend_from_slice(&5_000_100i64.to_le_bytes());
    d.extend_from_slice(&i64::MIN.to_le_bytes());
    d.push(declared_len);
    d.extend_from_slice(symbol);
    d
}

#[test]
fn header_is_little_endian() {
    let p = SbeParser::new();
    let h = p.parse_header(&[0x32, 0x00, 0x11, 0x27, 0x01, 0x00, 0x02, 0x01]).unwrap();
    assert_eq!(
        h,
        SbeMessageHeader { block_length: 50, template_id: 10001, schema_id: 1, version: 258 }
    );
    assert!(p.parse_header(&[1, 2, 3, 4, 5, 6, 7]).is_none());
}

#[test]
fn best_bid_ask_event_and_symbol() {
    let p = SbeParser::new();
    let (e, s) = p.parse_best_bid_ask(&best_bid_ask_bytes(b"BTCUSDT", 7)).unwrap();
    assert_eq!(
        e,
        BestBidAskStreamEvent {
            event_time: 1_700_000_000_000_000,
            book_update_id: -42,
            price_exponent: -2,
            qty_exponent: -8,
            bid_price: 5_000_012,
            bid_qty: 150_000_000,
            ask_price: 5_000_100,
            ask_qty: i64::MIN,
        }
    );
    assert_eq!(s, "BTCUSDT");
}

#[test]
fn truncated_symbol_is_empty() {
    let p = SbeParser::new();
    let (_, s) = p.parse_best_bid_ask(&best_bid_ask_bytes(b"BTC", 7)).unwrap();
    assert_eq!(s, "");
    let mut exact = best_bid_ask_bytes(b"", 0);
    exact.pop();
    let (_, s2) = p.parse_best_bid_ask(&exact).unwrap();
    assert_eq!(s2, "");
    exact.pop();
    assert!(p.parse_best_bid_ask(&exact).is_none());
}

#[test]
fn invalid_utf8_symbol_is_replaced() {
    let p = SbeParser::new();
    let (_, s) = p.parse_best_bid_ask(&best_bid_ask_bytes(&[b'A', 0xff, b'B'], 3)).unwrap();
    assert_eq!(s, "A\u{fffd}B");
}

#[test]
fn trailing_bytes_do_not_change_decoding() {
    let p = SbeParser::new();
    let base = best_bid_ask_bytes(b"ETH", 3);
    let mut longer = base.clone();
    longer.extend_from_slice(&[0xaa; 20]);
    assert_eq!(p.parse_header(&base), p.parse_header(&longer));
    assert_eq!(p.parse_best_bid_ask(&base).unwrap().0, p.parse_best_bid_ask(&longer).unwrap().0);
}

#[test]
fn messages_are_dispatched_by_template() {
    let p = SbeParser::new();
    match p.decode_message(&best_bid_ask_bytes(b"BTCUSDT", 7)) {
        SbeMessage::BestBidAsk(Some((_, s))) => assert_eq!(s, "BTCUSDT"),
        _ => panic!("expected a best bid / ask event"),
    }
    let mut trade = vec![0u8; 8];
    trade[2..4].copy_from_slice(&10000u16.to_le_bytes());
    assert!(matches!(p.decode_message(&trade), SbeMessage::Trades));
    trade[2..4].copy_from_slice(&10003u16.to_le_bytes());
    assert!(matches!(p.decode_message(&trade), SbeMessage::Depth));
    trade[2..4].copy_from_slice(&10002u16.to_le_bytes());
    assert!(matches!(p.decode_message(&trade), SbeMessage::Depth));
    trade[2..4].copy_from_slice(&10001u16.to_le_bytes());
    assert!(matches!(p.decode_message(&trade), SbeMessage::BestBidAsk(None)));
    trade[2..4].copy_from_slice(&7u16.to_le_bytes());
    assert!(matches!(p.decode_message(&trade), SbeMessage::Other(7)));
    assert!(matches!(p.decode_message(&[1, 2]), SbeMessage::Truncated));
}

#[test]
fn zero_event_with_ascii_symbol() {
    let mut data = vec![0u8; 58];
    data.push(7);
    data.extend_from_slice(b"BTCUSDT");
    let (e, s) = SbeParser::new().parse_best_bid_ask(&data).unwrap();
    assert_eq!(s, "BTCUSDT");
    assert_eq!((e.event_time, e.book_update_id, e.price_exponent, e.qty_exponent), (0, 0, 0, 0));
    assert_eq!((e.bid_price, e.bid_qty, e.ask_price, e.ask_qty), (0, 0, 0, 0));
}
