//! Decoding of Binance Simple Binary Encoding (SBE) market data messages:
//! the message header and the BestBidAsk stream event, little-endian and
//! without padding.
use vstd::prelude::*;
use vstd::slice::slice_subrange;
use vstd::utf8::{decode_utf8, valid_utf8};

verus! {

/// SBE message header.
#[derive(Copy, Clone, Debug, PartialEq, Eq)]
pub struct SbeMessageHeader {
    pub block_length: u16,
    pub template_id: u16,
    pub schema_id: u16,
    pub version: u16,
}

/// BestBidAsk stream event (template 10001); prices and quantities are
/// mantissas scaled by the exponents. The symbol follows it in the message.
#[derive(Copy, Clone, Debug, PartialEq, Eq)]
pub struct BestBidAskStreamEvent {
    pub event_time: i64,
    pub book_update_id: i64,
    pub price_exponent: i8,
    pub qty_exponent: i8,
    pub bid_price: i64,
    pub bid_qty: i64,
    pub ask_price: i64,
    pub ask_qty: i64,
}

/// Template id of trade messages.
pub const TEMPLATE_ID_TRADES: u16 = 10000;

/// Template id of best bid / best ask messages.
pub const TEMPLATE_ID_BEST_BID_ASK: u16 = 10001;

/// Template id of depth snapshots.
pub const TEMPLATE_ID_DEPTH_SNAPSHOT: u16 = 10002;

/// Template id of depth updates.
pub const TEMPLATE_ID_DEPTH_DIFF: u16 = 10003;

/// Size in bytes of the message header.
pub const HEADER_SIZE: usize = 8;

/// Size in bytes of the BestBidAsk event block.
pub const BEST_BID_ASK_SIZE: usize = 50;

/// The unsigned little-endian value of `b`.
pub open spec fn le_value(b: Seq<u8>) -> nat
    decreases b.len(),
{
    if b.len() == 0 {
        0
    } else {
        b[0] as nat + 256 * le_value(b.drop_first())
    }
}

/// 256 to the power `n`.
pub open spec fn pow256(n: nat) -> nat
    decreases n,
{
    if n == 0 {
        1
    } else {
        256 * pow256((n - 1) as nat)
    }
}

/// The unsigned little-endian value of the `len` bytes of `d` at `off`.
pub open spec fn le_at(d: Seq<u8>, off: int, len: int) -> nat {
    le_value(d.subrange(off, off + len))
}

/// The two's complement reading of a 64-bit pattern.
pub open spec fn signed_64(x: nat) -> int {
    if x <= i64::MAX {
        x as int
    } else {
        x - 0x1_0000_0000_0000_0000
    }
}

/// The two's complement reading of a byte.
pub open spec fn signed_8(x: u8) -> int {
    if x <= 127 {
        x as int
    } else {
        x - 256
    }
}

/// The header at the start of `d`.
pub open spec fn header_of(d: Seq<u8>) -> SbeMessageHeader {
    SbeMessageHeader {
        block_length: le_at(d, 0, 2) as u16,
        template_id: le_at(d, 2, 2) as u16,
        schema_id: le_at(d, 4, 2) as u16,
        version: le_at(d, 6, 2) as u16,
    }
}

/// The signed 64-bit field of `d` at `off`.
pub open spec fn i64_at(d: Seq<u8>, off: int) -> i64 {
    signed_64(le_at(d, off, 8)) as i64
}

/// The BestBidAsk event block that follows the header of `d`.
pub open spec fn best_bid_ask_of(d: Seq<u8>) -> BestBidAskStreamEvent {
    BestBidAskStreamEvent {
        event_time: i64_at(d, 8),
        book_update_id: i64_at(d, 16),
        price_exponent: signed_8(d[24]) as i8,
        qty_exponent: signed_8(d[25]) as i8,
        bid_price: i64_at(d, 26),
        bid_qty: i64_at(d, 34),
        ask_price: i64_at(d, 42),
        ask_qty: i64_at(d, 50),
    }
}

/// Decoding reads only the fixed-size blocks at the start of a message:
/// bytes after the header, or after the event block, change neither.
pub proof fn lemma_decoding_reads_prefix(d: Seq<u8>, extra: Seq<u8>)
    ensures
        d.len() >= 8 ==> header_of(d + extra) == header_of(d),
        d.len() >= 58 ==> best_bid_ask_of(d + extra) == best_bid_ask_of(d),
{
    let e = d + extra;
    assert forall|off: int, len: int|
        0 <= off && 0 <= len && off + len <= d.len() implies #[trigger] e.subrange(off, off + len)
        == d.subrange(off, off + len) by {
        assert(e.subrange(off, off + len) =~= d.subrange(off, off + len));
    }
    if d.len() >= 58 {
        assert(e[24] == d[24] && e[25] == d[25]);
    }
}

/// The text `String::from_utf8_lossy` makes of `bytes`.
pub uninterp spec fn utf8_lossy(bytes: Seq<u8>) -> Seq<char>;

/// `String::from_utf8_lossy`: the text of the bytes, with U+FFFD in place
/// of invalid sequences; for valid UTF-8 it is exactly the decoded text.
/// What it gives for invalid input is not stated beyond being a function
/// of the bytes.
#[verifier::external_body]
fn lossy_string(bytes: &[u8]) -> (s: String)
    ensures
        s@ == utf8_lossy(bytes@),
        valid_utf8(bytes@) ==> s@ == decode_utf8(bytes@),
{
    String::from_utf8_lossy(bytes).into_owned()
}

/// The bytes of the symbol after the event block: the length byte at
/// offset 58 gives how many follow it; empty when the message ends before them.
pub open spec fn symbol_bytes(d: Seq<u8>) -> Seq<u8> {
    if d.len() > 58 && d.len() >= 59 + d[58] {
        d.subrange(59, 59 + d[58])
    } else {
        seq![]
    }
}

/// The symbol after the event block: a length byte at offset 58, then that
/// many bytes of text; empty when the message ends before them.
pub open spec fn symbol_of(d: Seq<u8>) -> Seq<char> {
    if d.len() > 58 && d.len() >= 59 + d[58] {
        utf8_lossy(d.subrange(59, 59 + d[58]))
    } else {
        seq![]
    }
}

/// `le_value` stays below `256^len`.
proof fn lemma_le_value_bound(b: Seq<u8>)
    ensures
        le_value(b) < pow256(b.len()),
    decreases b.len(),
{
    if b.len() > 0 {
        lemma_le_value_bound(b.drop_first());
    }
}

/// The little-endian value of the `len` bytes of `data` at `off`.
fn read_le(data: &[u8], off: usize, len: usize) -> (v: u64)
    requires
        off + len <= data@.len(),
        len <= 8,
    ensures
        v as nat == le_at(data@, off as int, len as int),
{
    let n = data.len();
    let mut v: u64 = 0;
    let mut k = len;
    assert(data@.subrange(off + len, off + len) =~= Seq::<u8>::empty());
    proof {
        reveal_with_fuel(pow256, 9);
    }
    assert(pow256(8) == 0x1_0000_0000_0000_0000);
    while k > 0
        invariant
            k <= len <= 8,
            off + len <= data@.len(),
            n == data@.len(),
            pow256(8) == 0x1_0000_0000_0000_0000,
            v as nat == le_value(data@.subrange(off + k, off + len as int)),
        decreases k,
    {
        let ghost tail = data@.subrange(off + k, off + len as int);
        let ghost whole = data@.subrange(off + k - 1, off + len as int);
        assert(whole.drop_first() =~= tail);
        proof {
            lemma_le_value_bound(whole);
            assert(pow256(whole.len()) <= pow256(8)) by {
                lemma_pow256_monotone(whole.len(), 8);
            }
        }
        k = k - 1;
        assert(whole[0] == data@[off + k]);
        v = data[off + k] as u64 + 256 * v;
    }
    v
}

/// `pow256` grows with its exponent.
proof fn lemma_pow256_monotone(a: nat, b: nat)
    requires
        a <= b,
    ensures
        pow256(a) <= pow256(b),
    decreases b,
{
    if a < b {
        lemma_pow256_monotone(a, (b - 1) as nat);
    }
}

/// The two's complement reading of a 64-bit pattern.
fn to_signed_64(x: u64) -> (r: i64)
    ensures
        r == signed_64(x as nat),
{
    if x <= 0x7fff_ffff_ffff_ffff {
        x as i64
    } else {
        (x - 0x8000_0000_0000_0000) as i64 - 0x7fff_ffff_ffff_ffff - 1
    }
}

/// The two's complement reading of a byte.
fn to_signed_8(x: u8) -> (r: i8)
    ensures
        r == signed_8(x),
{
    if x <= 127 {
        x as i8
    } else {
        (x - 128) as i8 - 127 - 1
    }
}

/// A decoded SBE message, by template.
pub enum SbeMessage {
    /// Shorter than a header.
    Truncated,
    /// A best bid / best ask event, when long enough, with its symbol.
    BestBidAsk(Option<(BestBidAskStreamEvent, String)>),
    /// A trade message (not decoded further).
    Trades,
    /// A depth snapshot or update (not decoded further).
    Depth,
    /// A message of another template.
    Other(u16),
}

/// Decoder of SBE market data messages.
pub struct SbeParser;

impl SbeParser {
    /// A decoder.
    pub fn new() -> (p: Self)
        ensures
            p == SbeParser,
    {
        SbeParser
    }

    /// The message header at the start of `data`, if `data` holds one.
    pub fn parse_header(&self, data: &[u8]) -> (h: Option<SbeMessageHeader>)
        ensures
            data@.len() < 8 ==> h is None,
            data@.len() >= 8 ==> h == Some(header_of(data@)),
    {
        if data.len() < HEADER_SIZE {
            return None;
        }
        Some(
            SbeMessageHeader {
                block_length: read_le(data, 0, 2) as u16,
                template_id: read_le(data, 2, 2) as u16,
                schema_id: read_le(data, 4, 2) as u16,
                version: read_le(data, 6, 2) as u16,
            },
        )
    }

    /// The BestBidAsk event after the header of `data` and its symbol (the
    /// empty string when the symbol is cut short), if `data` holds the event.
    pub fn parse_best_bid_ask(&self, data: &[u8]) -> (r: Option<(BestBidAskStreamEvent, String)>)
        ensures
            data@.len() < 58 ==> r is None,
            data@.len() >= 58 ==> (r matches Some((e, s)) && e == best_bid_ask_of(data@) && s@
                == symbol_of(data@)),
            r matches Some((_, s)) ==> (valid_utf8(symbol_bytes(data@)) ==> s@ == decode_utf8(
                symbol_bytes(data@),
            )),
    {
        if data.len() < HEADER_SIZE + BEST_BID_ASK_SIZE {
            return None;
        }
        let event = BestBidAskStreamEvent {
            event_time: to_signed_64(read_le(data, 8, 8)),
            book_update_id: to_signed_64(read_le(data, 16, 8)),
            price_exponent: to_signed_8(data[24]),
            qty_exponent: to_signed_8(data[25]),
            bid_price: to_signed_64(read_le(data, 26, 8)),
            bid_qty: to_signed_64(read_le(data, 34, 8)),
            ask_price: to_signed_64(read_le(data, 42, 8)),
            ask_qty: to_signed_64(read_le(data, 50, 8)),
        };
        let symbol_offset = HEADER_SIZE + BEST_BID_ASK_SIZE;
        if data.len() > symbol_offset {
            let symbol_len = data[symbol_offset] as usize;
            if data.len() - (symbol_offset + 1) >= symbol_len {
                let bytes = slice_subrange(data, symbol_offset + 1, symbol_offset + 1 + symbol_len);
                let symbol = lossy_string(bytes);
                return Some((event, symbol));
            }
        }
        proof {
            assert(symbol_bytes(data@) =~= Seq::<u8>::empty());
            assert(decode_utf8(Seq::<u8>::empty()) =~= Seq::<char>::empty());
        }
        Some((event, String::new()))
    }

    /// The message `data` decoded by its template id: a BestBidAsk event is
    /// decoded with its symbol; trades and depth messages are recognized only.
    pub fn decode_message(&self, data: &[u8]) -> (m: SbeMessage)
        ensures
            data@.len() < 8 ==> m is Truncated,
            data@.len() >= 8 ==> match header_of(data@).template_id {
                10001 => m matches SbeMessage::BestBidAsk(r) && (data@.len() < 58 ==> r is None)
                    && (data@.len() >= 58 ==> (r matches Some((e, s)) && e == best_bid_ask_of(
                    data@,
                ) && s@ == symbol_of(data@) && (valid_utf8(symbol_bytes(data@)) ==> s@
                    == decode_utf8(symbol_bytes(data@))))),
                10000 => m is Trades,
                10002 | 10003 => m is Depth,
                t => m == SbeMessage::Other(t),
            },
    {
        match self.parse_header(data) {
            None => SbeMessage::Truncated,
            Some(header) => {
                if header.template_id == TEMPLATE_ID_BEST_BID_ASK {
                    SbeMessage::BestBidAsk(self.parse_best_bid_ask(data))
                } else if header.template_id == TEMPLATE_ID_TRADES {
                    SbeMessage::Trades
                } else if header.template_id == TEMPLATE_ID_DEPTH_SNAPSHOT
                    || header.template_id == TEMPLATE_ID_DEPTH_DIFF {
                    SbeMessage::Depth
                } else {
                    SbeMessage::Other(header.template_id)
                }
            },
        }
    }
}

} // verus!
