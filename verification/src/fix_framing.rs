//! What framing gives back of the messages a session builds: a built message
//! at the front of the received bytes is cut out whole, and only it.
use vstd::prelude::*;
use vstd::utf8::{encode_utf8, is_ascii_chars, is_ascii_chars_encode_utf8};
use crate::fix_session::{
    FixSessionView, fix_version, framed_message, header_entries, heartbeat_message,
    is_timestamp_text, logon_entries, logon_message, logon_payload, market_data_request_entries,
    market_data_request_message, with_trailer,
};
use crate::fix_signing::signature_text;
use crate::fix_stream::{
    begin_string_marker, checksum_marker, lemma_find_pattern_some, next_frame, occurs_at,
};
use crate::text::{
    FieldEntry, SOH, checksum_chars, decimal, digit_char, field_text, fields_text, is_digit,
    lemma_fields_text_concat, lemma_find_first_some, three_digits, utf8_len,
};

verus! {

/// Whether `s` holds no `10=`, the start of the checksum field.
pub open spec fn no_checksum_marker(s: Seq<char>) -> bool {
    forall|k: int|
        0 <= k && k + 3 <= s.len() ==> !(#[trigger] s[k] == '1' && s[k + 1] == '0' && s[k + 2]
            == '=')
}

/// Whether `v` is a field value that framing reads past: ASCII, without
/// delimiter, and without `10=`.
pub open spec fn plain_value(v: Seq<char>) -> bool {
    &&& is_ascii_chars(v)
    &&& forall|i: int| 0 <= i < v.len() ==> #[trigger] v[i] != SOH
    &&& no_checksum_marker(v)
}

/// Whether every entry has a plain value and a tag whose decimal rendering
/// does not end in `10`.
pub open spec fn plain_entries(es: Seq<FieldEntry>) -> bool {
    forall|i: int| #![trigger es[i]] 0 <= i < es.len() ==> es[i].0 % 100 != 10 && plain_value(es[i].1)
}

/// The character of a digit determines the digit.
proof fn lemma_digit_char(d: nat)
    requires
        d < 10,
    ensures
        digit_char(d) as int == d + 48,
        is_digit(digit_char(d)),
        digit_char(d) <= '\u{7f}',
{
}

/// The decimal rendering of `n` is a non-empty run of digits, one long below
/// ten and otherwise ending in the digits of `n / 10 % 10` and `n % 10`.
proof fn lemma_decimal_tail(n: nat)
    ensures
        decimal(n).len() >= 1,
        forall|i: int| 0 <= i < decimal(n).len() ==> is_digit(#[trigger] decimal(n)[i]),
        n < 10 ==> decimal(n).len() == 1,
        n >= 10 ==> decimal(n).len() >= 2 && decimal(n).last() == digit_char(n % 10) && decimal(
            n,
        )[decimal(n).len() - 2] == digit_char((n / 10) % 10),
    decreases n,
{
    lemma_digit_char(n % 10);
    if n >= 10 {
        lemma_decimal_tail(n / 10);
        let d = decimal(n / 10);
        assert(decimal(n) == d.push(digit_char(n % 10)));
        if n / 10 < 10 {
            assert((n / 10) % 10 == n / 10);
        } else {
            lemma_decimal_tail((n / 10) / 10);
        }
        assert forall|i: int| 0 <= i < decimal(n).len() implies is_digit(#[trigger] decimal(n)[i]) by {
            if i < d.len() {
                assert(decimal(n)[i] == d[i]);
            }
        }
    }
}

/// A decimal rendering is a plain value.
proof fn lemma_decimal_plain(n: nat)
    ensures
        plain_value(decimal(n)),
{
    lemma_decimal_tail(n);
}

/// A tag whose two last digits are `1` and `0` is `10` modulo 100.
proof fn lemma_tag_ends_in_ten(tag: nat)
    requires
        tag % 10 == 0,
        (tag / 10) % 10 == 1,
    ensures
        tag % 100 == 10,
{
    assert(tag == 10 * (tag / 10)) by (nonlinear_arith)
        requires
            tag % 10 == 0,
    ;
    assert(tag / 10 == 10 * ((tag / 10) / 10) + 1) by (nonlinear_arith)
        requires
            (tag / 10) % 10 == 1,
    ;
    let q = (tag / 10) / 10;
    assert(tag == 100 * q + 10) by (nonlinear_arith)
        requires
            tag == 10 * (tag / 10),
            tag / 10 == 10 * q + 1,
    ;
    assert((100 * q + 10) % 100 == 10) by (nonlinear_arith);
}

/// The text of a field with a plain value and a tag not ending in `10` is
/// ASCII, ends with the delimiter, and holds no `10=`.
proof fn lemma_field_text_plain(tag: nat, v: Seq<char>)
    requires
        tag % 100 != 10,
        plain_value(v),
    ensures
        is_ascii_chars(field_text(tag, v)),
        field_text(tag, v).len() > 0,
        field_text(tag, v).last() == SOH,
        no_checksum_marker(field_text(tag, v)),
{
    lemma_decimal_tail(tag);
    let d = decimal(tag);
    let f = field_text(tag, v);
    let e = d.len() as int;
    assert(f == d + seq!['='] + v + seq![SOH]);
    assert(f.len() == e + 1 + v.len() + 1);
    assert forall|i: int| 0 <= i < f.len() implies '\0' <= #[trigger] f[i] <= '\u{7f}' by {
        if i < e {
            assert(f[i] == d[i]);
            assert(is_digit(d[i]));
        } else if e < i < e + 1 + v.len() {
            assert(f[i] == v[i - e - 1]);
        }
    }
    assert forall|k: int| 0 <= k && k + 3 <= f.len() implies !(#[trigger] f[k] == '1' && f[k + 1]
        == '0' && f[k + 2] == '=') by {
        if f[k] == '1' && f[k + 1] == '0' && f[k + 2] == '=' {
            if k + 2 < e {
                assert(f[k + 2] == d[k + 2]);
                assert(is_digit(d[k + 2]));
            } else if k + 2 == e {
                assert(e >= 2);
                assert(tag >= 10);
                assert(d[e - 2] == '1' && d.last() == '0');
                lemma_digit_char(tag % 10);
                lemma_digit_char((tag / 10) % 10);
                lemma_tag_ends_in_ten(tag);
            } else if k >= e + 1 && k + 3 <= e + 1 + v.len() {
                assert(v[k - e - 1] == '1' && v[k - e] == '0' && v[k - e + 1] == '=');
            }
        }
    }
}

/// Two texts without `10=`, the first ending with the delimiter, hold no
/// `10=` one after the other.
proof fn lemma_no_marker_concat(a: Seq<char>, b: Seq<char>)
    requires
        a.len() > 0,
        a.last() == SOH,
        no_checksum_marker(a),
        no_checksum_marker(b),
    ensures
        no_checksum_marker(a + b),
{
    let c = a + b;
    assert forall|k: int| 0 <= k && k + 3 <= c.len() implies !(#[trigger] c[k] == '1' && c[k + 1]
        == '0' && c[k + 2] == '=') by {
        if k + 3 <= a.len() {
            assert(c[k] == a[k] && c[k + 1] == a[k + 1] && c[k + 2] == a[k + 2]);
        } else if k >= a.len() {
            assert(c[k] == b[k - a.len()] && c[k + 1] == b[k + 1 - a.len()] && c[k + 2] == b[k + 2
                - a.len()]);
        } else if k + 2 == a.len() {
            assert(c[k + 1] == a.last());
        } else {
            assert(c[k] == a.last());
        }
    }
}

/// The text of a run of plain entries is ASCII, holds no `10=`, and, when
/// not empty, ends with the delimiter.
proof fn lemma_fields_text_plain(es: Seq<FieldEntry>)
    requires
        plain_entries(es),
    ensures
        is_ascii_chars(fields_text(es)),
        no_checksum_marker(fields_text(es)),
        es.len() > 0 ==> fields_text(es).len() > 0 && fields_text(es).last() == SOH,
    decreases es.len(),
{
    if es.len() > 0 {
        let rest = es.drop_first();
        assert(plain_entries(rest)) by {
            assert forall|i: int| #![trigger rest[i]] 0 <= i < rest.len() implies rest[i].0 % 100
                != 10 && plain_value(rest[i].1) by {
                assert(rest[i] == es[i + 1]);
            }
        }
        lemma_fields_text_plain(rest);
        assert(es[0].0 % 100 != 10 && plain_value(es[0].1));
        lemma_field_text_plain(es[0].0, es[0].1);
        let f = field_text(es[0].0, es[0].1);
        let r = fields_text(rest);
        assert(fields_text(es) == f + r);
        lemma_no_marker_concat(f, r);
        assert forall|i: int| 0 <= i < (f + r).len() implies '\0' <= #[trigger] (f + r)[i]
            <= '\u{7f}' by {
            if i < f.len() {
                assert((f + r)[i] == f[i]);
            } else {
                assert((f + r)[i] == r[i - f.len()]);
            }
        }
        if r.len() > 0 {
            assert((f + r).last() == r.last());
        } else {
            assert(f + r =~= f);
        }
    }
}

/// A message made of plain fields that begins with the BeginString field,
/// followed by its CheckSum field, is taken whole as the first frame of any
/// bytes that begin with it.
proof fn lemma_trailer_frames(es: Seq<FieldEntry>, rest: Seq<u8>)
    requires
        es.len() > 0,
        es[0] == (8nat, fix_version()),
        plain_entries(es),
    ensures
        ({
            let b = encode_utf8(with_trailer(fields_text(es)));
            next_frame(b + rest) == Some((0nat, b.len()))
        }),
{
    let p = fields_text(es);
    let c = checksum_chars(p);
    let t = field_text(10, c);
    let m = with_trailer(p);
    lemma_fields_text_plain(es);
    // The checksum field: `10=`, three digits, the delimiter.
    assert(decimal(1) == seq![digit_char(1)]);
    assert(decimal(10) == decimal(1).push(digit_char(0)));
    assert(decimal(10) =~= seq!['1', '0']);
    let n = crate::text::byte_sum(encode_utf8(p)) % 256;
    lemma_digit_char(n / 100);
    lemma_digit_char((n / 10) % 10);
    lemma_digit_char(n % 10);
    assert(c == three_digits(n));
    assert(t =~= seq!['1', '0', '=', c[0], c[1], c[2], SOH]);
    assert(m == p + t);
    // The whole message is ASCII, so its bytes are its characters.
    assert forall|i: int| 0 <= i < m.len() implies '\0' <= #[trigger] m[i] <= '\u{7f}' by {
        if i < p.len() {
            assert(m[i] == p[i]);
        } else {
            assert(m[i] == t[i - p.len()]);
        }
    }
    assert(is_ascii_chars(m));
    is_ascii_chars_encode_utf8(m);
    let b = encode_utf8(m);
    let buf = b + rest;
    let pl = p.len() as int;
    assert(b.len() == pl + 7);
    // It begins with `8=FIX`.
    let first = field_text(8, fix_version());
    assert(decimal(8) == seq![digit_char(8)]);
    assert(p == first + fields_text(es.drop_first()));
    assert(first =~= seq!['8', '=', 'F', 'I', 'X', '.', '4', '.', '4', SOH]);
    assert forall|i: int| 0 <= i < 5 implies buf[i] == #[trigger] begin_string_marker()[i] by {
        assert(buf[i] == b[i]);
        assert(b[i] == m[i] as u8);
        assert(m[i] == p[i]);
        assert(p[i] == first[i]);
    }
    assert(buf.subrange(0, 5) =~= begin_string_marker());
    lemma_find_pattern_some(buf, begin_string_marker(), 0);
    assert(buf.skip(0) =~= buf);
    // Its first `10=` is the checksum field's.
    assert forall|i: int| 0 <= i < 7 implies buf[pl + i] == #[trigger] t[i] as u8 by {
        assert(buf[pl + i] == b[pl + i]);
        assert(m[pl + i] == t[i]);
    }
    assert(buf.subrange(pl, pl + 3) =~= checksum_marker());
    assert forall|k: int| 0 <= k < pl implies !#[trigger] occurs_at(buf, checksum_marker(), k) by {
        if occurs_at(buf, checksum_marker(), k) {
            assert(buf.subrange(k, k + 3)[0] == 49u8);
            assert(buf.subrange(k, k + 3)[1] == 48u8);
            assert(buf.subrange(k, k + 3)[2] == 61u8);
            assert(buf[k] == m[k] as u8 && buf[k + 1] == m[k + 1] as u8 && buf[k + 2] == m[k
                + 2] as u8);
            if k + 3 <= pl {
                assert(m[k] == p[k] && m[k + 1] == p[k + 1] && m[k + 2] == p[k + 2]);
                assert(!(p[k] == '1' && p[k + 1] == '0' && p[k + 2] == '='));
            } else if k + 2 == pl {
                assert(m[k + 1] == p.last());
            } else {
                assert(m[k] == p.last());
            }
        }
    }
    lemma_find_pattern_some(buf, checksum_marker(), pl);
    // The delimiter after the three checksum digits ends the frame.
    let after = buf.skip(pl + 3);
    assert forall|j: int| 0 <= j < 3 implies #[trigger] after[j] != 1u8 by {
        assert(after[j] == buf[pl + 3 + j]);
    }
    assert(after[3] == buf[pl + 6]);
    lemma_find_first_some(after, 1u8, 3);
}

/// An ASCII value without delimiter and without `=` is plain.
proof fn lemma_plain_without_equals(v: Seq<char>)
    requires
        forall|i: int|
            0 <= i < v.len() ==> #[trigger] v[i] != SOH && v[i] != '=' && '\0' <= v[i] <= '\u{7f}',
    ensures
        plain_value(v),
{
    assert forall|k: int| 0 <= k && k + 3 <= v.len() implies !(#[trigger] v[k] == '1' && v[k + 1]
        == '0' && v[k + 2] == '=') by {
        assert(v[k + 2] != '=');
    }
    assert forall|i: int| 0 <= i < v.len() implies '\0' <= #[trigger] v[i] <= '\u{7f}' by {
        assert(v[i] <= '\u{7f}');
    }
}

/// A timestamp text is a plain value.
proof fn lemma_timestamp_plain(ts: Seq<char>)
    requires
        is_timestamp_text(ts),
    ensures
        plain_value(ts),
{
    assert forall|i: int| 0 <= i < ts.len() implies #[trigger] ts[i] != SOH && ts[i] != '='
        && '\0' <= ts[i] <= '\u{7f}' by {
        assert(crate::fix_session::is_timestamp_char(ts[i]));
    }
    lemma_plain_without_equals(ts);
}

/// A message framed from plain body fields, sent ahead of any other bytes,
/// is the first frame of them, whole.
proof fn lemma_framed_message_frames(body: Seq<FieldEntry>, rest: Seq<u8>)
    requires
        plain_entries(body),
    ensures
        ({
            let b = encode_utf8(framed_message(body));
            next_frame(b + rest) == Some((0nat, b.len()))
        }),
{
    let header = header_entries(fields_text(body));
    lemma_fields_text_concat(header, body);
    let es = header + body;
    lemma_decimal_plain(utf8_len(fields_text(body)));
    lemma_plain_without_equals(fix_version());
    assert forall|i: int| #![trigger es[i]] 0 <= i < es.len() implies es[i].0 % 100 != 10
        && plain_value(es[i].1) by {
        if i >= 2 {
            assert(es[i] == body[i - 2]);
        }
    }
    assert(es[0] == (8nat, fix_version()));
    lemma_trailer_frames(es, rest);
}

/// Framing a MarketDataRequest: when its bytes begin the received bytes, the
/// first frame cut from them is exactly the request (for sender and target
/// IDs and a symbol that are plain values, and a timestamp).
pub proof fn lemma_market_data_request_frames(
    v: FixSessionView,
    ts: Seq<char>,
    symbol: Seq<char>,
    rest: Seq<u8>,
)
    requires
        plain_value(v.sender_comp_id),
        plain_value(v.target_comp_id),
        plain_value(symbol),
        is_timestamp_text(ts),
    ensures
        ({
            let b = encode_utf8(market_data_request_message(v, ts, symbol));
            next_frame(b + rest) == Some((0nat, b.len()))
        }),
{
    let es = market_data_request_entries(v, ts, symbol);
    lemma_timestamp_plain(ts);
    lemma_decimal_plain(v.msg_seq_num);
    lemma_decimal_tail(v.msg_seq_num);
    let req = seq!['R', 'E', 'Q'] + decimal(v.msg_seq_num);
    assert forall|i: int| 0 <= i < req.len() implies #[trigger] req[i] != SOH && req[i] != '='
        && '\0' <= req[i] <= '\u{7f}' by {
        if i >= 3 {
            assert(req[i] == decimal(v.msg_seq_num)[i - 3]);
        }
    }
    lemma_plain_without_equals(req);
    lemma_plain_without_equals(seq!['V']);
    lemma_plain_without_equals(seq!['1']);
    lemma_plain_without_equals(seq!['1', '0']);
    lemma_plain_without_equals(seq!['2']);
    lemma_plain_without_equals(seq!['0']);
    assert(plain_entries(es));
    lemma_framed_message_frames(es, rest);
}

/// Framing a Logon: when its bytes begin the received bytes, the first frame
/// cut from them is exactly the Logon (for an API key, sender and target IDs
/// and a signature text that are plain values, and a timestamp).
pub proof fn lemma_logon_frames(v: FixSessionView, ts: Seq<char>, rest: Seq<u8>)
    requires
        plain_value(v.api_key),
        plain_value(v.sender_comp_id),
        plain_value(v.target_comp_id),
        plain_value(signature_text(v.private_key, logon_payload(v, ts))),
        is_timestamp_text(ts),
    ensures
        ({
            let b = encode_utf8(logon_message(v, ts));
            next_frame(b + rest) == Some((0nat, b.len()))
        }),
{
    let sig = signature_text(v.private_key, logon_payload(v, ts));
    let es = logon_entries(v, ts, sig);
    lemma_timestamp_plain(ts);
    lemma_decimal_plain(v.msg_seq_num);
    lemma_decimal_plain(v.heartbeat_interval);
    lemma_decimal_plain(utf8_len(sig));
    lemma_plain_without_equals(seq!['A']);
    lemma_plain_without_equals(seq!['0']);
    lemma_plain_without_equals(seq!['Y']);
    lemma_plain_without_equals(seq!['1']);
    assert(plain_entries(es));
    lemma_framed_message_frames(es, rest);
}

/// Framing a Heartbeat: when its bytes begin the received bytes, the first
/// frame cut from them is exactly the Heartbeat (for sender and target IDs
/// that are plain values, and a timestamp).
pub proof fn lemma_heartbeat_frames(v: FixSessionView, ts: Seq<char>, rest: Seq<u8>)
    requires
        plain_value(v.sender_comp_id),
        plain_value(v.target_comp_id),
        is_timestamp_text(ts),
    ensures
        ({
            let b = encode_utf8(heartbeat_message(v, ts));
            next_frame(b + rest) == Some((0nat, b.len()))
        }),
{
    let es = seq![
        (8nat, fix_version()),
        (35nat, seq!['0']),
        (49nat, v.sender_comp_id),
        (56nat, v.target_comp_id),
        (34nat, decimal(v.msg_seq_num)),
        (52nat, ts),
    ];
    lemma_timestamp_plain(ts);
    lemma_decimal_plain(v.msg_seq_num);
    lemma_plain_without_equals(fix_version());
    lemma_plain_without_equals(seq!['0']);
    assert(plain_entries(es));
    lemma_trailer_frames(es, rest);
}

} // verus!
