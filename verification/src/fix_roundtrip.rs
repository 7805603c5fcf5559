//! What parsing gives back of the messages a session builds: each field the
//! builder wrote is found again under its tag.
use vstd::prelude::*;
use crate::fix_parse::{
    all_digits, apply_field, apply_fields, digits_value, field_entry, fix_fields, parse_decimal,
    split_fields,
};
use crate::fix_session::{
    FixSessionView, advanced, fix_version, framed_message, header_entries, logon_entries, logon_message,
    logon_payload, market_data_request_entries, market_data_request_message,
};
use crate::fix_signing::{base64_text, signature_text};
use crate::text::{
    FieldEntry, SOH, checksum_chars, decimal, digit_char, field_text, fields_text, find_first,
    is_digit, lemma_fields_text_concat, lemma_find_first_some, utf8_len,
};

verus! {

/// Whether `s` holds no field delimiter.
pub open spec fn no_soh(s: Seq<char>) -> bool {
    forall|i: int| 0 <= i < s.len() ==> s[i] != SOH
}

/// The map that recording `es` in order into `m` gives.
pub open spec fn entries_map(m: Map<u32, Seq<char>>, es: Seq<FieldEntry>) -> Map<u32, Seq<char>>
    decreases es.len(),
{
    if es.len() == 0 {
        m
    } else {
        entries_map(m.insert(es[0].0 as u32, es[0].1), es.drop_first())
    }
}

/// Whether every entry has a `u32` tag and a value without delimiter.
pub open spec fn well_formed_entries(es: Seq<FieldEntry>) -> bool {
    forall|i: int| 0 <= i < es.len() ==> #[trigger] es[i].0 <= u32::MAX && no_soh(es[i].1)
}

/// The decimal rendering of `n` is a non-empty run of digits worth `n`.
proof fn lemma_decimal(n: nat)
    ensures
        decimal(n).len() > 0,
        all_digits(decimal(n)),
        digits_value(decimal(n)) == n,
    decreases n,
{
    assert((digit_char(n % 10) as int) == n % 10 + 48);
    if n < 10 {
        assert(decimal(n) =~= seq![digit_char(n)]);
        assert(decimal(n).drop_last() =~= Seq::<char>::empty());
        assert(digits_value(Seq::<char>::empty()) == 0);
        assert(decimal(n).last() == digit_char(n));
    } else {
        lemma_decimal(n / 10);
        let d = decimal(n / 10);
        assert(decimal(n) == d.push(digit_char(n % 10)));
        assert(decimal(n).drop_last() =~= d);
        assert(decimal(n).last() == digit_char(n % 10));
        assert(n == (n / 10) * 10 + n % 10);
        assert forall|i: int| 0 <= i < decimal(n).len() implies is_digit(#[trigger] decimal(n)[i]) by {
            if i < d.len() {
                assert(decimal(n)[i] == d[i]);
            }
        }
    }
}

/// A field's text without its delimiter reads back as its tag and value.
proof fn lemma_field_entry(t: nat, v: Seq<char>)
    requires
        t <= u32::MAX,
    ensures
        field_entry(decimal(t) + seq!['='] + v) == Some((t as u32, v)),
{
    lemma_decimal(t);
    let d = decimal(t);
    let f = d + seq!['='] + v;
    assert forall|k: int| 0 <= k < d.len() implies f[k] != '=' by {
        assert(f[k] == d[k]);
        assert(is_digit(d[k]));
    }
    lemma_find_first_some(f, '=', d.len() as int);
    assert(f.take(d.len() as int) =~= d);
    assert(f.skip(d.len() + 1 as int) =~= v);
    assert(is_digit(d[0]));
    assert(parse_decimal(d, u32::MAX as nat) == Some(t));
}

/// Splitting the text of well-formed fields and recording the pieces
/// records the fields.
proof fn lemma_fields_roundtrip(m: Map<u32, Seq<char>>, es: Seq<FieldEntry>)
    requires
        well_formed_entries(es),
    ensures
        apply_fields(m, split_fields(fields_text(es))) == entries_map(m, es),
    decreases es.len(),
{
    if es.len() == 0 {
        let empty = Seq::<char>::empty();
        assert(find_first(empty, SOH) is None);
        assert(split_fields(empty) == seq![empty]);
        assert(find_first(empty, '=') is None);
        assert(apply_field(m, empty) == m);
        assert(seq![empty].drop_first() =~= Seq::<Seq<char>>::empty());
        assert(apply_fields(m, seq![empty]) == apply_fields(
            apply_field(m, seq![empty][0]),
            seq![empty].drop_first(),
        ));
        assert(apply_fields(m, Seq::<Seq<char>>::empty()) == m);
    } else {
        let (t, v) = es[0];
        assert(es[0].0 <= u32::MAX && no_soh(es[0].1));
        let piece = decimal(t) + seq!['='] + v;
        let rest = fields_text(es.drop_first());
        let whole = fields_text(es);
        assert(whole == field_text(t, v) + rest);
        assert(whole =~= piece + seq![SOH] + rest);
        lemma_decimal(t);
        assert forall|k: int| 0 <= k < piece.len() implies whole[k] != SOH by {
            assert(whole[k] == piece[k]);
            if k < decimal(t).len() {
                assert(piece[k] == decimal(t)[k]);
                assert(is_digit(decimal(t)[k]));
            } else if k > decimal(t).len() {
                assert(piece[k] == v[k - decimal(t).len() - 1]);
            }
        }
        lemma_find_first_some(whole, SOH, piece.len() as int);
        assert(whole.take(piece.len() as int) =~= piece);
        assert(whole.skip(piece.len() + 1 as int) =~= rest);
        let segs = split_fields(whole);
        assert(segs == seq![piece] + split_fields(rest));
        assert(segs.drop_first() =~= split_fields(rest));
        lemma_field_entry(t, v);
        assert(apply_field(m, piece) == m.insert(t as u32, v));
        assert(segs[0] == piece);
        assert(apply_fields(m, segs) == apply_fields(apply_field(m, segs[0]), segs.drop_first()));
        assert(entries_map(m, es) == entries_map(m.insert(t as u32, v), es.drop_first()));
        assert(well_formed_entries(es.drop_first())) by {
            assert forall|i: int| 0 <= i < es.drop_first().len() implies #[trigger] es.drop_first()[i].0
                <= u32::MAX && no_soh(es.drop_first()[i].1) by {
                assert(es.drop_first()[i] == es[i + 1]);
            }
        }
        lemma_fields_roundtrip(m.insert(t as u32, v), es.drop_first());
    }
}

/// Recording `a` then `b` is recording `a + b`.
proof fn lemma_entries_map_concat(m: Map<u32, Seq<char>>, a: Seq<FieldEntry>, b: Seq<FieldEntry>)
    ensures
        entries_map(m, a + b) == entries_map(entries_map(m, a), b),
    decreases a.len(),
{
    if a.len() == 0 {
        assert(a + b =~= b);
    } else {
        assert((a + b).drop_first() =~= a.drop_first() + b);
        lemma_entries_map_concat(m.insert(a[0].0 as u32, a[0].1), a.drop_first(), b);
    }
}

/// Recording fields none of which has tag `k` leaves `k` as it was.
proof fn lemma_entries_map_untouched(m: Map<u32, Seq<char>>, es: Seq<FieldEntry>, k: u32)
    requires
        forall|i: int| 0 <= i < es.len() ==> (#[trigger] es[i].0) as u32 != k,
    ensures
        entries_map(m, es).contains_key(k) == m.contains_key(k),
        entries_map(m, es)[k] == m[k],
    decreases es.len(),
{
    if es.len() > 0 {
        assert(es[0].0 as u32 != k);
        assert forall|i: int| 0 <= i < es.drop_first().len() implies (#[trigger] es.drop_first()[i].0) as u32 != k by {
            assert(es.drop_first()[i] == es[i + 1]);
        }
        lemma_entries_map_untouched(m.insert(es[0].0 as u32, es[0].1), es.drop_first(), k);
    }
}

/// The value recorded for the tag of entry `i` when no later entry has that tag.
proof fn lemma_entries_map_lookup(m: Map<u32, Seq<char>>, es: Seq<FieldEntry>, i: int)
    requires
        0 <= i < es.len(),
        forall|j: int| i < j < es.len() ==> (#[trigger] es[j].0) as u32 != es[i].0 as u32,
    ensures
        entries_map(m, es).contains_key(es[i].0 as u32),
        entries_map(m, es)[es[i].0 as u32] == es[i].1,
{
    let a = es.take(i + 1);
    let b = es.skip(i + 1);
    assert(es =~= a + b);
    lemma_entries_map_concat(m, a, b);
    let k = es[i].0 as u32;
    assert(a =~= es.take(i).push(es[i]));
    assert(es.take(i) + seq![es[i]] =~= a);
    lemma_entries_map_concat(m, es.take(i), seq![es[i]]);
    assert(seq![es[i]].drop_first() =~= Seq::<FieldEntry>::empty());
    assert(entries_map(entries_map(m, es.take(i)).insert(k, es[i].1), Seq::<FieldEntry>::empty())
        == entries_map(m, es.take(i)).insert(k, es[i].1));
    assert(entries_map(entries_map(m, es.take(i)), seq![es[i]]) == entries_map(m, es.take(i)).insert(
        k,
        es[i].1,
    ));
    assert forall|j: int| 0 <= j < b.len() implies (#[trigger] b[j].0) as u32 != k by {
        assert(b[j] == es[i + 1 + j]);
    }
    lemma_entries_map_untouched(entries_map(m, a), b, k);
}

/// The fields of a framed message: BeginString, BodyLength, the body
/// fields, then CheckSum.
pub open spec fn framed_entries(body: Seq<FieldEntry>) -> Seq<FieldEntry> {
    let prefix = fields_text(header_entries(fields_text(body))) + fields_text(body);
    header_entries(fields_text(body)) + body + seq![(10nat, checksum_chars(prefix))]
}

/// A framed message is the text of its fields, and parsing it records them.
proof fn lemma_framed_fields(body: Seq<FieldEntry>)
    requires
        well_formed_entries(body),
    ensures
        fix_fields(framed_message(body)) == entries_map(Map::empty(), framed_entries(body)),
{
    let h = header_entries(fields_text(body));
    let prefix = fields_text(h) + fields_text(body);
    let t = seq![(10nat, checksum_chars(prefix))];
    lemma_fields_text_concat(h, body);
    lemma_fields_text_concat(h + body, t);
    assert(t.drop_first() =~= Seq::<FieldEntry>::empty());
    assert(fields_text(t.drop_first()) =~= Seq::<char>::empty());
    assert(fields_text(t) =~= field_text(10, checksum_chars(prefix)));
    assert(framed_message(body) =~= fields_text(framed_entries(body)));
    lemma_decimal(utf8_len(fields_text(body)));
    assert(well_formed_entries(framed_entries(body))) by {
        let all = framed_entries(body);
        assert forall|i: int| 0 <= i < all.len() implies #[trigger] all[i].0 <= u32::MAX && no_soh(all[i].1) by {
            if i == 0 {
                assert(all[i] == (8nat, fix_version()));
            } else if i == 1 {
                let d = decimal(utf8_len(fields_text(body)));
                assert(all[i] == (9nat, d));
                assert forall|k: int| 0 <= k < d.len() implies d[k] != SOH by {
                    assert(is_digit(d[k]));
                }
            } else if i < 2 + body.len() {
                assert(all[i] == body[i - 2]);
            } else {
                let c = checksum_chars(prefix);
                assert(all[i] == (10nat, c));
                assert(no_soh(c));
            }
        }
    }
    lemma_fields_roundtrip(Map::empty(), framed_entries(body));
}

/// Parsing a MarketDataRequest built by a session gives back, under their
/// tags, the BeginString, the BodyLength (the byte length of the body),
/// the message type `V`, the sender and target, the sequence number, the
/// sending time, the request id, the subscription type, the depth, the
/// number of symbols, the symbol, the number of entry types, the last entry
/// type (offers) and the CheckSum (the checksum of everything before it),
/// provided none of the texts holds a SOH.
pub proof fn lemma_market_data_request_roundtrip(v: FixSessionView, ts: Seq<char>, symbol: Seq<char>)
    requires
        no_soh(v.sender_comp_id),
        no_soh(v.target_comp_id),
        no_soh(ts),
        no_soh(symbol),
    ensures
        ({
            let body = market_data_request_entries(v, ts, symbol);
            let body_text = fields_text(body);
            let prefix = fields_text(header_entries(body_text)) + body_text;
            let m = fix_fields(market_data_request_message(v, ts, symbol));
            &&& m.contains_key(8) && m[8] == fix_version()
            &&& m.contains_key(9) && m[9] == decimal(utf8_len(body_text))
            &&& m.contains_key(35) && m[35] == seq!['V']
            &&& m.contains_key(49) && m[49] == v.sender_comp_id
            &&& m.contains_key(56) && m[56] == v.target_comp_id
            &&& m.contains_key(34) && m[34] == decimal(v.msg_seq_num)
            &&& m.contains_key(52) && m[52] == ts
            &&& m.contains_key(262) && m[262] == seq!['R', 'E', 'Q'] + decimal(v.msg_seq_num)
            &&& m.contains_key(263) && m[263] == seq!['1']
            &&& m.contains_key(264) && m[264] == seq!['1', '0']
            &&& m.contains_key(146) && m[146] == seq!['1']
            &&& m.contains_key(55) && m[55] == symbol
            &&& m.contains_key(267) && m[267] == seq!['2']
            &&& m.contains_key(269) && m[269] == seq!['1']
            &&& m.contains_key(10) && m[10] == checksum_chars(prefix)
        }),
{
    let body = market_data_request_entries(v, ts, symbol);
    lemma_decimal(v.msg_seq_num);
    let d = decimal(v.msg_seq_num);
    assert forall|k: int| 0 <= k < d.len() implies d[k] != SOH by {
        assert(is_digit(d[k]));
    }
    let req = seq!['R', 'E', 'Q'] + d;
    assert forall|k: int| 0 <= k < req.len() implies req[k] != SOH by {
        if k >= 3 {
            assert(req[k] == d[k - 3]);
        }
    }
    assert(well_formed_entries(body)) by {
        assert forall|i: int| 0 <= i < body.len() implies #[trigger] body[i].0 <= u32::MAX && no_soh(
            body[i].1,
        ) by {}
    }
    lemma_framed_fields(body);
    let all = framed_entries(body);
    assert(all.len() == 16);
    assert(all[0].0 == 8 && all[1].0 == 9 && all[2].0 == 35 && all[3].0 == 49 && all[4].0 == 56
        && all[5].0 == 34 && all[6].0 == 52 && all[7].0 == 262 && all[8].0 == 263 && all[9].0 == 264
        && all[10].0 == 146 && all[11].0 == 55 && all[12].0 == 267 && all[13].0 == 269 && all[14].0
        == 269 && all[15].0 == 10);
    lemma_entries_map_lookup(Map::empty(), all, 0);
    lemma_entries_map_lookup(Map::empty(), all, 1);
    lemma_entries_map_lookup(Map::empty(), all, 2);
    lemma_entries_map_lookup(Map::empty(), all, 3);
    lemma_entries_map_lookup(Map::empty(), all, 4);
    lemma_entries_map_lookup(Map::empty(), all, 5);
    lemma_entries_map_lookup(Map::empty(), all, 6);
    lemma_entries_map_lookup(Map::empty(), all, 7);
    lemma_entries_map_lookup(Map::empty(), all, 8);
    lemma_entries_map_lookup(Map::empty(), all, 9);
    lemma_entries_map_lookup(Map::empty(), all, 10);
    lemma_entries_map_lookup(Map::empty(), all, 11);
    lemma_entries_map_lookup(Map::empty(), all, 12);
    lemma_entries_map_lookup(Map::empty(), all, 14);
    lemma_entries_map_lookup(Map::empty(), all, 15);
}

/// Parsing a Logon built by a session gives back, under their tags, the
/// BeginString, the BodyLength, the message type `A`, the sender and target,
/// the sequence number, the sending time, EncryptMethod `0`, the heartbeat
/// interval, ResetSeqNumFlag `Y`, the API key as Username, MessageHandling
/// `1`, the signature as RawData with its byte length as RawDataLength, and
/// the CheckSum, provided none of the texts holds a SOH (the signature,
/// being base64, never does).
pub proof fn lemma_logon_roundtrip(v: FixSessionView, ts: Seq<char>)
    requires
        no_soh(v.sender_comp_id),
        no_soh(v.target_comp_id),
        no_soh(v.api_key),
        no_soh(ts),
        base64_text(signature_text(v.private_key, logon_payload(v, ts))),
    ensures
        ({
            let sig = signature_text(v.private_key, logon_payload(v, ts));
            let body_text = fields_text(logon_entries(v, ts, sig));
            let prefix = fields_text(header_entries(body_text)) + body_text;
            let m = fix_fields(logon_message(v, ts));
            &&& m.contains_key(8) && m[8] == fix_version()
            &&& m.contains_key(9) && m[9] == decimal(utf8_len(body_text))
            &&& m.contains_key(35) && m[35] == seq!['A']
            &&& m.contains_key(49) && m[49] == v.sender_comp_id
            &&& m.contains_key(56) && m[56] == v.target_comp_id
            &&& m.contains_key(98) && m[98] == seq!['0']
            &&& m.contains_key(108) && m[108] == decimal(v.heartbeat_interval)
            &&& m.contains_key(141) && m[141] == seq!['Y']
            &&& m.contains_key(25035) && m[25035] == seq!['1']
            &&& m.contains_key(10) && m[10] == checksum_chars(prefix)
            &&& m.contains_key(34) && m[34] == decimal(v.msg_seq_num)
            &&& m.contains_key(52) && m[52] == ts
            &&& m.contains_key(553) && m[553] == v.api_key
            &&& m.contains_key(95) && m[95] == decimal(utf8_len(sig))
            &&& m.contains_key(96) && m[96] == sig
        }),
{
    let sig = signature_text(v.private_key, logon_payload(v, ts));
    assert forall|k: int| 0 <= k < sig.len() implies sig[k] != SOH by {
        assert(crate::fix_signing::is_base64_char(sig[k]));
    }
    let body = logon_entries(v, ts, sig);
    lemma_decimal(v.msg_seq_num);
    lemma_decimal(v.heartbeat_interval);
    lemma_decimal(utf8_len(sig));
    let d1 = decimal(v.msg_seq_num);
    let d2 = decimal(v.heartbeat_interval);
    let d3 = decimal(utf8_len(sig));
    assert forall|k: int| 0 <= k < d1.len() implies d1[k] != SOH by {
        assert(is_digit(d1[k]));
    }
    assert forall|k: int| 0 <= k < d2.len() implies d2[k] != SOH by {
        assert(is_digit(d2[k]));
    }
    assert forall|k: int| 0 <= k < d3.len() implies d3[k] != SOH by {
        assert(is_digit(d3[k]));
    }
    assert(well_formed_entries(body)) by {
        assert forall|i: int| 0 <= i < body.len() implies #[trigger] body[i].0 <= u32::MAX && no_soh(
            body[i].1,
        ) by {}
    }
    lemma_framed_fields(body);
    let all = framed_entries(body);
    assert(all.len() == 15);
    assert(all[2].0 == 35 && all[3].0 == 49 && all[4].0 == 56 && all[5].0 == 34 && all[6].0 == 52
        && all[7].0 == 98 && all[8].0 == 108 && all[9].0 == 141 && all[10].0 == 553 && all[11].0
        == 25035 && all[12].0 == 95 && all[13].0 == 96 && all[14].0 == 10);
    assert(all[0].0 == 8 && all[1].0 == 9);
    lemma_entries_map_lookup(Map::empty(), all, 0);
    lemma_entries_map_lookup(Map::empty(), all, 1);
    lemma_entries_map_lookup(Map::empty(), all, 2);
    lemma_entries_map_lookup(Map::empty(), all, 3);
    lemma_entries_map_lookup(Map::empty(), all, 4);
    lemma_entries_map_lookup(Map::empty(), all, 5);
    lemma_entries_map_lookup(Map::empty(), all, 6);
    lemma_entries_map_lookup(Map::empty(), all, 7);
    lemma_entries_map_lookup(Map::empty(), all, 8);
    lemma_entries_map_lookup(Map::empty(), all, 9);
    lemma_entries_map_lookup(Map::empty(), all, 10);
    lemma_entries_map_lookup(Map::empty(), all, 11);
    lemma_entries_map_lookup(Map::empty(), all, 12);
    lemma_entries_map_lookup(Map::empty(), all, 13);
    lemma_entries_map_lookup(Map::empty(), all, 14);
}

/// The session after `k` more messages were sent.
pub open spec fn advanced_by(v: FixSessionView, k: nat) -> FixSessionView
    decreases k,
{
    if k == 0 {
        v
    } else {
        advanced(advanced_by(v, (k - 1) as nat))
    }
}

/// Sequence numbers over a session: after `k` messages, the session keeps
/// its credentials and identities, and the MarketDataRequest it builds next
/// carries the sequence number it started with plus `k` (for a fresh
/// session, the message numbered from zero as `k` carries `k + 1`).
pub proof fn lemma_sequence_numbers(v: FixSessionView, k: nat, ts: Seq<char>, symbol: Seq<char>)
    requires
        no_soh(v.sender_comp_id),
        no_soh(v.target_comp_id),
        no_soh(ts),
        no_soh(symbol),
    ensures
        advanced_by(v, k) == (FixSessionView { msg_seq_num: v.msg_seq_num + k, ..v }),
        ({
            let m = fix_fields(market_data_request_message(advanced_by(v, k), ts, symbol));
            m.contains_key(34) && m[34] == decimal(v.msg_seq_num + k)
        }),
    decreases k,
{
    if k > 0 {
        lemma_sequence_numbers(v, (k - 1) as nat, ts, symbol);
    }
    lemma_market_data_request_roundtrip(advanced_by(v, k), ts, symbol);
}

} // verus!
