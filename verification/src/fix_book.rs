//! Extraction of top-of-book quotes from FIX market data messages.
use std::collections::HashMap;
use vstd::prelude::*;
use vstd::string::StrSliceExecFns;
use crate::fix_parse::{FixMdParser, fix_fields, parse_decimal, parse_decimal_range, string_map_view};
use crate::text::chars_of;

verus! {

broadcast use vstd::std_specs::hash::group_hash_axioms;

/// FIX tag MsgType.
pub const TAG_MSG_TYPE: u32 = 35;

/// FIX tag Symbol.
pub const TAG_SYMBOL: u32 = 55;

/// FIX tag NoMDEntries.
pub const TAG_NO_MD_ENTRIES: u32 = 268;

/// FIX tag MDEntryType.
pub const TAG_MD_ENTRY_TYPE: u32 = 269;

/// FIX tag MDEntryPx.
pub const TAG_MD_ENTRY_PX: u32 = 270;

/// FIX tag MDEntrySize.
pub const TAG_MD_ENTRY_SIZE: u32 = 271;

/// One quote as it stands in the message: the text of its price and of its size.
pub struct FixQuote {
    pub price: String,
    pub size: String,
}

/// Best bid and best offer of a symbol. A side that no entry of the message
/// set is `None` (the benchmark reports it as price and quantity zero).
pub struct FixBookTicker {
    pub symbol: String,
    pub bid: Option<FixQuote>,
    pub ask: Option<FixQuote>,
}

/// Depth levels of a symbol, each level as the text of its price and size.
pub struct FixDepthUpdate {
    pub symbol: String,
    pub bids: Vec<FixQuote>,
    pub asks: Vec<FixQuote>,
}

/// The text of a quote: price, then size.
pub type QuoteText = (Seq<char>, Seq<char>);

/// The character view of an optional quote.
pub open spec fn quote_view(q: Option<FixQuote>) -> Option<QuoteText> {
    match q {
        Some(q) => Some((q.price@, q.size@)),
        None => None,
    }
}

/// The tag `base + i`, where it is a `u32`.
pub open spec fn entry_tag(base: u32, i: nat) -> Option<u32> {
    if base + i <= u32::MAX {
        Some((base + i) as u32)
    } else {
        None
    }
}

/// Whether the message has the tag `base + i`.
pub open spec fn has_entry_tag(m: Map<u32, Seq<char>>, base: u32, i: nat) -> bool {
    match entry_tag(base, i) {
        Some(t) => m.contains_key(t),
        None => false,
    }
}

/// The value of the tag `base + i`.
pub open spec fn entry_value(m: Map<u32, Seq<char>>, base: u32, i: nat) -> Seq<char> {
    m[(base + i) as u32]
}

/// The bid and offer left after visiting the entries `0..n`: entry `i` is read
/// from tags 269 + i (type), 270 + i (price) and 271 + i (size), and counts
/// only when all three are present; a type starting with `0` sets the bid,
/// one starting with `1` the offer, a later entry overriding an earlier one.
pub open spec fn scan_entries(m: Map<u32, Seq<char>>, n: nat) -> (Option<QuoteText>, Option<
    QuoteText,
>)
    decreases n,
{
    if n == 0 {
        (None, None)
    } else {
        let (bid, ask) = scan_entries(m, (n - 1) as nat);
        let i = (n - 1) as nat;
        if has_entry_tag(m, 269, i) && has_entry_tag(m, 270, i) && has_entry_tag(m, 271, i) {
            let t = entry_value(m, 269, i);
            let q = (entry_value(m, 270, i), entry_value(m, 271, i));
            if t.len() > 0 && t[0] == '0' {
                (Some(q), ask)
            } else if t.len() > 0 && t[0] == '1' {
                (bid, Some(q))
            } else {
                (bid, ask)
            }
        } else {
            (bid, ask)
        }
    }
}

/// Whether visiting the entries `0..n` computes every tag it looks up
/// within `u32` (the tags of an entry are computed one after another, each
/// only when the previous one is present).
pub open spec fn entry_tags_fit(m: Map<u32, Seq<char>>, n: nat) -> bool {
    forall|i: nat| i < n ==> #[trigger] entry_fits(m, i)
}

/// Whether the tags that entry `i` looks up are all within `u32`.
pub open spec fn entry_fits(m: Map<u32, Seq<char>>, i: nat) -> bool {
    &&& 269 + i <= u32::MAX
    &&& has_entry_tag(m, 269, i) ==> 270 + i <= u32::MAX
    &&& has_entry_tag(m, 269, i) && has_entry_tag(m, 270, i) ==> 271 + i <= u32::MAX
}

/// The number of entries the message announces (tag 268), when it reads as a `usize`.
pub open spec fn announced_entries(m: Map<u32, Seq<char>>) -> Option<nat> {
    if m.contains_key(268) {
        parse_decimal(m[268], usize::MAX as nat)
    } else {
        None
    }
}

/// Whether the quotes of the message can be read without a tag overflowing `u32`.
pub open spec fn book_entries_fit(m: Map<u32, Seq<char>>) -> bool {
    match announced_entries(m) {
        Some(n) => entry_tags_fit(m, n),
        None => true,
    }
}

/// Whether parsing the message as a book ticker reads its entries: it is a
/// market data message (MsgType `X` or `W`) with a symbol.
pub open spec fn reads_entries(m: Map<u32, Seq<char>>) -> bool {
    m.contains_key(35) && (is_char_text(m[35], 'X') || is_char_text(m[35], 'W'))
        && m.contains_key(55)
}

/// Whether `s` is the one-character string `c`.
pub open spec fn is_char_text(s: Seq<char>, c: char) -> bool {
    s.len() == 1 && s[0] == c
}

/// The symbol, bid and offer of a market data message (MsgType `X` or `W`)
/// with a symbol and an entry count; `None` for any other message.
pub open spec fn book_ticker_of(m: Map<u32, Seq<char>>) -> Option<
    (Seq<char>, Option<QuoteText>, Option<QuoteText>),
> {
    if !m.contains_key(35) || !(is_char_text(m[35], 'X') || is_char_text(m[35], 'W'))
        || !m.contains_key(55) || !m.contains_key(268) {
        None
    } else {
        match announced_entries(m) {
            Some(n) => {
                let (bid, ask) = scan_entries(m, n);
                Some((m[55], bid, ask))
            },
            None => Some((m[55], None, None)),
        }
    }
}

/// Whether entry `i` of the message has its type, price and size, and a
/// type whose first character is `side`.
pub open spec fn entry_on_side(m: Map<u32, Seq<char>>, i: nat, side: char) -> bool {
    &&& has_entry_tag(m, 269, i) && has_entry_tag(m, 270, i) && has_entry_tag(m, 271, i)
    &&& entry_value(m, 269, i).len() > 0
    &&& entry_value(m, 269, i)[0] == side
}

/// Whether `q` is the quote of the last of the first `n` entries on `side`,
/// or `None` when none of them is on that side.
pub open spec fn last_quote_on_side(
    m: Map<u32, Seq<char>>,
    n: nat,
    side: char,
    q: Option<QuoteText>,
) -> bool {
    match q {
        None => forall|i: nat| i < n ==> !#[trigger] entry_on_side(m, i, side),
        Some(q) => exists|i: nat|
            #![trigger entry_on_side(m, i, side)]
            i < n && entry_on_side(m, i, side) && q == (entry_value(m, 270, i), entry_value(
                m,
                271,
                i,
            )) && forall|j: nat| i < j < n ==> !#[trigger] entry_on_side(m, j, side),
    }
}

/// Scanning the first `n` entries leaves as bid the quote of the last bid
/// entry (type `0`) and as offer that of the last offer entry (type `1`).
proof fn lemma_scan_sides(m: Map<u32, Seq<char>>, n: nat)
    ensures
        last_quote_on_side(m, n, '0', scan_entries(m, n).0),
        last_quote_on_side(m, n, '1', scan_entries(m, n).1),
    decreases n,
{
    if n > 0 {
        let k = (n - 1) as nat;
        lemma_scan_sides(m, k);
        let (bid, ask) = scan_entries(m, k);
        let on0 = entry_on_side(m, k, '0');
        let on1 = entry_on_side(m, k, '1');
        assert(!(on0 && on1));
        if on0 {
            assert(scan_entries(m, n) == (Some((entry_value(m, 270, k), entry_value(m, 271, k))), ask));
            assert forall|j: nat| k < j < n implies !#[trigger] entry_on_side(m, j, '0') by {}
        } else if on1 {
            assert(scan_entries(m, n) == (bid, Some((entry_value(m, 270, k), entry_value(m, 271, k)))));
            assert forall|j: nat| k < j < n implies !#[trigger] entry_on_side(m, j, '1') by {}
        } else {
            assert(scan_entries(m, n) == (bid, ask));
        }
        if !on0 {
            match bid {
                None => {
                    assert forall|i: nat| i < n implies !#[trigger] entry_on_side(m, i, '0') by {
                        if i < k {
                        }
                    }
                },
                Some(q) => {
                    let i = choose|i: nat|
                        #![trigger entry_on_side(m, i, '0')]
                        i < k && entry_on_side(m, i, '0') && q == (entry_value(m, 270, i), entry_value(
                            m,
                            271,
                            i,
                        )) && forall|j: nat| i < j < k ==> !#[trigger] entry_on_side(m, j, '0');
                    assert forall|j: nat| i < j < n implies !#[trigger] entry_on_side(m, j, '0') by {
                        if j < k {
                        }
                    }
                },
            }
        }
        if !on1 {
            match ask {
                None => {
                    assert forall|i: nat| i < n implies !#[trigger] entry_on_side(m, i, '1') by {
                        if i < k {
                        }
                    }
                },
                Some(q) => {
                    let i = choose|i: nat|
                        #![trigger entry_on_side(m, i, '1')]
                        i < k && entry_on_side(m, i, '1') && q == (entry_value(m, 270, i), entry_value(
                            m,
                            271,
                            i,
                        )) && forall|j: nat| i < j < k ==> !#[trigger] entry_on_side(m, j, '1');
                    assert forall|j: nat| i < j < n implies !#[trigger] entry_on_side(m, j, '1') by {
                        if j < k {
                        }
                    }
                },
            }
        }
    }
}

/// What a book ticker reports: for a market data message it gives the
/// symbol, as bid the price and size of the last complete entry whose type
/// starts with `0`, and as offer those of the last one whose type starts
/// with `1`; an entry of any other type (such as `2`, a trade) sets neither
/// side, and a side with no entry of its type is absent.
pub proof fn lemma_book_ticker_sides(m: Map<u32, Seq<char>>)
    ensures
        book_ticker_of(m) matches Some((symbol, bid, ask)) ==> {
            &&& symbol == m[55]
            &&& match announced_entries(m) {
                Some(n) => last_quote_on_side(m, n, '0', bid) && last_quote_on_side(
                    m,
                    n,
                    '1',
                    ask,
                ),
                None => bid is None && ask is None,
            }
        },
{
    if let Some(n) = announced_entries(m) {
        lemma_scan_sides(m, n);
    }
}

/// Whether `s` is the single character `c`.
fn is_single_char(s: &String, c: char) -> (r: bool)
    ensures
        r == is_char_text(s@, c),
{
    let st = s.as_str();
    st.unicode_len() == 1 && st.get_char(0) == c
}

/// Whether `s` starts with the character `c`.
fn starts_with_char(s: &String, c: char) -> (r: bool)
    ensures
        r == (s@.len() > 0 && s@[0] == c),
{
    let st = s.as_str();
    st.unicode_len() > 0 && st.get_char(0) == c
}

/// A copy of a string.
fn copy_string(s: &String) -> (r: String)
    ensures
        r@ == s@,
{
    s.clone()
}

/// Reads a string as `str::parse::<usize>` does.
fn parse_usize(s: &String) -> (res: Option<usize>)
    ensures
        match parse_decimal(s@, usize::MAX as nat) {
            Some(v) => res == Some(v as usize),
            None => res is None,
        },
{
    let chars = chars_of(s.as_str());
    assert(chars@.subrange(0, chars@.len() as int) =~= chars@);
    match parse_decimal_range(&chars, 0, chars.len(), usize::MAX as u64) {
        Some(v) => Some(v as usize),
        None => None,
    }
}

impl FixMdParser {
    /// The symbol and best bid / best offer of a market data message
    /// (MsgType `X` or `W`), or `None` when the message is of another
    /// type or lacks a symbol or an entry count.
    pub fn parse_book_ticker(&self, fix_msg: &str) -> (res: Option<FixBookTicker>)
        requires
            reads_entries(fix_fields(fix_msg@)) ==> book_entries_fit(fix_fields(fix_msg@)),
        ensures
            match book_ticker_of(fix_fields(fix_msg@)) {
                Some((symbol, bid, ask)) => res matches Some(t) && t.symbol@ == symbol
                    && quote_view(t.bid) == bid && quote_view(t.ask) == ask,
                None => res is None,
            },
    {
        let fields = self.parse_message(fix_msg);
        let ghost m = fix_fields(fix_msg@);
        assert(string_map_view(fields@) == m);
        let msg_type = match fields.get(&TAG_MSG_TYPE) {
            Some(t) => t,
            None => {
                assert(!m.contains_key(35));
                return None;
            },
        };
        if !is_single_char(msg_type, 'X') && !is_single_char(msg_type, 'W') {
            return None;
        }
        let symbol = match fields.get(&TAG_SYMBOL) {
            Some(s) => copy_string(s),
            None => {
                assert(!m.contains_key(55));
                return None;
            },
        };
        let count_text = match fields.get(&TAG_NO_MD_ENTRIES) {
            Some(c) => c,
            None => {
                assert(!m.contains_key(268));
                return None;
            },
        };
        assert(reads_entries(m));
        let mut bid: Option<FixQuote> = None;
        let mut ask: Option<FixQuote> = None;
        if let Some(n) = parse_usize(count_text) {
            let ghost nn = n as nat;
            assert(announced_entries(m) == Some(nn));
            let mut i: usize = 0;
            while i < n
                invariant
                    i <= n,
                    n as nat == nn,
                    string_map_view(fields@) == m,
                    entry_tags_fit(m, nn),
                    (quote_view(bid), quote_view(ask)) == scan_entries(m, i as nat),
                decreases n - i,
            {
                let ghost ii = i as nat;
                assert(entry_fits(m, ii));
                let k = i as u32;
                if let Some(entry_type) = fields.get(&(TAG_MD_ENTRY_TYPE + k)) {
                    assert(has_entry_tag(m, 269, ii));
                    assert(270 + ii <= u32::MAX);
                    if let Some(price) = fields.get(&(TAG_MD_ENTRY_PX + k)) {
                        assert(has_entry_tag(m, 270, ii));
                        assert(271 + ii <= u32::MAX);
                        if let Some(size) = fields.get(&(TAG_MD_ENTRY_SIZE + k)) {
                            assert(has_entry_tag(m, 271, ii));
                            let q = FixQuote { price: copy_string(price), size: copy_string(size) };
                            if starts_with_char(entry_type, '0') {
                                bid = Some(q);
                            } else if starts_with_char(entry_type, '1') {
                                ask = Some(q);
                            }
                        } else {
                            assert(!has_entry_tag(m, 271, ii));
                        }
                    } else {
                        assert(!has_entry_tag(m, 270, ii));
                    }
                } else {
                    assert(!has_entry_tag(m, 269, ii));
                }
                i = i + 1;
            }
        }
        Some(FixBookTicker { symbol, bid, ask })
    }

    /// Whether the entries of `fix_msg` can be read without a tag
    /// overflowing `u32`, which `parse_book_ticker` needs.
    pub fn book_entries_fit_in(&self, fix_msg: &str) -> (b: bool)
        ensures
            b == book_entries_fit(fix_fields(fix_msg@)),
    {
        let fields = self.parse_message(fix_msg);
        let ghost m = fix_fields(fix_msg@);
        assert(string_map_view(fields@) == m);
        let count_text = match fields.get(&TAG_NO_MD_ENTRIES) {
            Some(c) => c,
            None => {
                assert(!m.contains_key(268));
                return true;
            },
        };
        let n = match parse_usize(count_text) {
            Some(n) => n,
            None => {
                return true;
            },
        };
        let ghost nn = n as nat;
        assert(announced_entries(m) == Some(nn));
        let top: u32 = 0xffff_ffff;
        if n as u64 <= 0xffff_ffff - 270 {
            assert forall|i: nat| i < nn implies #[trigger] entry_fits(m, i) by {}
            true
        } else if n as u64 > 0xffff_ffff - 268 {
            assert(!entry_fits(m, (0xffff_ffff - 268) as nat));
            false
        } else {
            let has_top = fields.get(&top).is_some();
            let has_below = fields.get(&(top - 1)).is_some();
            assert(has_top == m.contains_key(top));
            assert(has_below == m.contains_key((top - 1) as u32));
            let first_bad = has_below && has_top;
            let second_bad = n as u64 > 0xffff_ffff - 269 && has_top;
            let ghost i0 = (0xffff_ffff - 270) as nat;
            let ghost i1 = (0xffff_ffff - 269) as nat;
            assert(entry_tag(269, i0) == Some((top - 1) as u32));
            assert(entry_tag(270, i0) == Some(top));
            assert(entry_tag(269, i1) == Some(top));
            assert(entry_fits(m, i0) == !first_bad);
            assert(nn > i1 ==> entry_fits(m, i1) == !second_bad);
            assert forall|i: nat| i < nn && i != i0 && i != i1 implies #[trigger] entry_fits(m, i) by {}
            !first_bad && !second_bad
        }
    }
}

} // verus!
