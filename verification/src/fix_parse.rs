//! Parsing of FIX tag=value messages into a tag → value map.
use std::collections::HashMap;
use vstd::prelude::*;
use crate::text::{chars_of, is_digit, find_first, lemma_find_first_some, lemma_find_first_none, lemma_find_first_result, SOH};

verus! {

broadcast use vstd::std_specs::hash::group_hash_axioms;

/// The pieces of `s` between delimiters, as `str::split(SOH)` yields them
/// (always at least one piece; an empty piece follows a trailing delimiter).
pub open spec fn split_fields(s: Seq<char>) -> Seq<Seq<char>>
    decreases s.len(),
{
    match find_first(s, SOH) {
        Some(i) => {
            proof {
                lemma_find_first_result(s, SOH);
            }
            seq![s.take(i as int)] + split_fields(s.skip(i + 1 as int))
        },
        None => seq![s],
    }
}

/// The value of a run of decimal digits.
pub open spec fn digits_value(d: Seq<char>) -> nat
    decreases d.len(),
{
    if d.len() == 0 {
        0
    } else {
        digits_value(d.drop_last()) * 10 + (d.last() as int - 48) as nat
    }
}

/// Whether every character of `d` is a decimal digit.
pub open spec fn all_digits(d: Seq<char>) -> bool {
    forall|i: int| 0 <= i < d.len() ==> is_digit(#[trigger] d[i])
}

/// The unsigned integer that `str::parse` reads from `s` for a type whose
/// largest value is `max`: an optional `+`, then one or more digits, with
/// no overflow.
pub open spec fn parse_decimal(s: Seq<char>, max: nat) -> Option<nat> {
    let d = if s.len() > 0 && s[0] == '+' {
        s.drop_first()
    } else {
        s
    };
    if d.len() > 0 && all_digits(d) && digits_value(d) <= max {
        Some(digits_value(d))
    } else {
        None
    }
}

/// The tag and value of one `tag=value` field: the tag is what precedes the
/// first `=`, read as a `u32`; the value is everything after it.
pub open spec fn field_entry(f: Seq<char>) -> Option<(u32, Seq<char>)> {
    match find_first(f, '=') {
        Some(p) => match parse_decimal(f.take(p as int), u32::MAX as nat) {
            Some(t) => Some((t as u32, f.skip(p + 1 as int))),
            None => None,
        },
        None => None,
    }
}

/// Records one field in the map; pieces that are not `tag=value` leave it unchanged.
pub open spec fn apply_field(m: Map<u32, Seq<char>>, f: Seq<char>) -> Map<u32, Seq<char>> {
    match field_entry(f) {
        Some((t, v)) => m.insert(t, v),
        None => m,
    }
}

/// Records the fields in order, so that a later field with the same tag wins.
pub open spec fn apply_fields(m: Map<u32, Seq<char>>, fs: Seq<Seq<char>>) -> Map<
    u32,
    Seq<char>,
>
    decreases fs.len(),
{
    if fs.len() == 0 {
        m
    } else {
        apply_fields(apply_field(m, fs[0]), fs.drop_first())
    }
}

/// The tag → value map of a FIX message.
pub open spec fn fix_fields(msg: Seq<char>) -> Map<u32, Seq<char>> {
    apply_fields(Map::empty(), split_fields(msg))
}

/// The character view of a map whose values are strings.
pub open spec fn string_map_view(m: Map<u32, String>) -> Map<u32, Seq<char>> {
    Map::new(|k: u32| m.contains_key(k), |k: u32| m[k]@)
}

/// All digits makes the value grow with each digit added.
pub proof fn lemma_digits_value_prefix(d: Seq<char>, k: int)
    requires
        0 <= k <= d.len(),
        all_digits(d),
    ensures
        digits_value(d.take(k)) <= digits_value(d),
    decreases d.len(),
{
    if k < d.len() {
        assert(d.drop_last().take(k) =~= d.take(k));
        assert(all_digits(d.drop_last())) by {
            assert forall|i: int| 0 <= i < d.drop_last().len() implies is_digit(
                #[trigger] d.drop_last()[i],
            ) by {
                assert(d.drop_last()[i] == d[i]);
            }
        }
        lemma_digits_value_prefix(d.drop_last(), k);
    } else {
        assert(d.take(k) =~= d);
    }
}

/// Reads `chars[a..b]` as `str::parse` reads an unsigned integer whose
/// largest value is `max`.
pub fn parse_decimal_range(chars: &Vec<char>, a: usize, b: usize, max: u64) -> (res: Option<u64>)
    requires
        a <= b <= chars.len(),
    ensures
        match parse_decimal(chars@.subrange(a as int, b as int), max as nat) {
            Some(v) => res == Some(v as u64),
            None => res is None,
        },
{
    let ghost s = chars@.subrange(a as int, b as int);
    let mut i = a;
    if i < b && chars[i] == '+' {
        i = i + 1;
    }
    let ds = i;
    let ghost d = chars@.subrange(ds as int, b as int);
    assert(d =~= (if s.len() > 0 && s[0] == '+' {
        s.drop_first()
    } else {
        s
    }));
    if ds == b {
        return None;
    }
    let mut v: u64 = 0;
    while i < b
        invariant
            ds <= i <= b <= chars.len(),
            d == chars@.subrange(ds as int, b as int),
            s == chars@.subrange(a as int, b as int),
            d == (if s.len() > 0 && s[0] == '+' {
                s.drop_first()
            } else {
                s
            }),
            all_digits(chars@.subrange(ds as int, i as int)),
            v as nat == digits_value(chars@.subrange(ds as int, i as int)),
            v <= max,
        decreases b - i,
    {
        let c = chars[i];
        let ghost pre = chars@.subrange(ds as int, i as int);
        let ghost next = chars@.subrange(ds as int, i + 1);
        assert(next.drop_last() =~= pre);
        assert(d.take(i - ds) =~= pre);
        assert(d.take(i + 1 - ds) =~= next);
        if !('0' <= c && c <= '9') {
            assert(d[i - ds] == c);
            assert(!is_digit(d[i - ds]));
            assert(!all_digits(d));
            return None;
        }
        let dig = (c as u32 - 48) as u64;
        assert(all_digits(next)) by {
            assert forall|k: int| 0 <= k < next.len() implies is_digit(#[trigger] next[k]) by {
                if k < pre.len() {
                    assert(next[k] == pre[k]);
                }
            }
        }
        let m = v.checked_mul(10);
        let w = match m {
            Some(m) => m.checked_add(dig),
            None => None,
        };
        match w {
            Some(w) if w <= max => {
                v = w;
            },
            _ => {
                proof {
                    if all_digits(d) {
                        lemma_digits_value_prefix(d, i + 1 - ds);
                    }
                }
                return None;
            },
        }
        i = i + 1;
    }
    assert(chars@.subrange(ds as int, i as int) =~= d);
    Some(v)
}

/// The string made of `chars[a..b]`.
pub fn string_of_range(chars: &Vec<char>, a: usize, b: usize) -> (s: String)
    requires
        a <= b <= chars.len(),
    ensures
        s@ == chars@.subrange(a as int, b as int),
{
    let mut s = String::new();
    let mut i = a;
    while i < b
        invariant
            a <= i <= b <= chars.len(),
            s@ == chars@.subrange(a as int, i as int),
        decreases b - i,
    {
        s.push(chars[i]);
        assert(s@ =~= chars@.subrange(a as int, i + 1));
        i = i + 1;
    }
    s
}

/// Records the field `chars[a..b]` in `fields`.
fn record_field(chars: &Vec<char>, a: usize, b: usize, fields: &mut HashMap<u32, String>)
    requires
        a <= b <= chars.len(),
    ensures
        string_map_view(final(fields)@) == apply_field(
            string_map_view(old(fields)@),
            chars@.subrange(a as int, b as int),
        ),
{
    let ghost f = chars@.subrange(a as int, b as int);
    let mut p = a;
    while p < b && chars[p] != '='
        invariant
            a <= p <= b <= chars.len(),
            forall|k: int| a <= k < p ==> chars@[k] != '=',
        decreases b - p,
    {
        p = p + 1;
    }
    if p == b {
        proof {
            lemma_find_first_none(f, '=');
        }
        return;
    }
    proof {
        lemma_find_first_some(f, '=', p - a);
    }
    let tag = parse_decimal_range(chars, a, p, 0xffff_ffffu64);
    assert(f.take(p - a) =~= chars@.subrange(a as int, p as int));
    match tag {
        Some(t) => {
            let value = string_of_range(chars, p + 1, b);
            assert(f.skip(p - a + 1) =~= chars@.subrange(p + 1, b as int));
            fields.insert(t as u32, value);
            assert(string_map_view(fields@) =~= string_map_view(old(fields)@).insert(
                t as u32,
                chars@.subrange(p + 1, b as int),
            ));
        },
        None => {},
    }
}

/// Parser of FIX market data messages.
pub struct FixMdParser;

impl FixMdParser {
    /// A parser.
    pub fn new() -> (p: Self)
        ensures
            p == FixMdParser,
    {
        FixMdParser
    }

    /// The tag → value map of `fix_msg`: the message is split at each SOH,
    /// and every piece of the form `tag=value` whose tag reads as a `u32`
    /// is recorded, later pieces overriding earlier ones with the same tag.
    pub fn parse_message(&self, fix_msg: &str) -> (fields: HashMap<u32, String>)
        ensures
            string_map_view(fields@) == fix_fields(fix_msg@),
    {
        let chars = chars_of(fix_msg);
        let n = chars.len();
        let mut fields: HashMap<u32, String> = HashMap::new();
        assert(string_map_view(fields@) =~= Map::<u32, Seq<char>>::empty());
        let mut start: usize = 0;
        assert(chars@.skip(0) =~= chars@);
        loop
            invariant
                start <= n == chars.len(),
                chars@ == fix_msg@,
                apply_fields(string_map_view(fields@), split_fields(chars@.skip(start as int)))
                    == fix_fields(chars@),
            decreases n - start,
        {
            let ghost rest = chars@.skip(start as int);
            let mut j = start;
            while j < n && chars[j] != SOH
                invariant
                    start <= j <= n == chars.len(),
                    forall|k: int| start <= k < j ==> chars@[k] != SOH,
                decreases n - j,
            {
                j = j + 1;
            }
            let ghost before = string_map_view(fields@);
            record_field(&chars, start, j, &mut fields);
            if j == n {
                proof {
                    lemma_find_first_none(rest, SOH);
                    assert(rest =~= chars@.subrange(start as int, j as int));
                    assert(split_fields(rest) == seq![rest]);
                    let segs = split_fields(rest);
                    assert(segs.drop_first() =~= Seq::<Seq<char>>::empty());
                    assert(apply_fields(before, segs) == apply_fields(
                        apply_field(before, segs[0]),
                        segs.drop_first(),
                    ));
                }
                return fields;
            }
            proof {
                lemma_find_first_some(rest, SOH, j - start);
                let segs = split_fields(rest);
                assert(rest.take(j - start) =~= chars@.subrange(start as int, j as int));
                assert(rest.skip(j - start + 1) =~= chars@.skip(j + 1));
                assert(segs[0] == chars@.subrange(start as int, j as int));
                assert(segs.drop_first() =~= split_fields(chars@.skip(j + 1)));
                assert(apply_fields(before, segs) == apply_fields(
                    apply_field(before, segs[0]),
                    segs.drop_first(),
                ));
            }
            start = j + 1;
        }
    }
}

} // verus!
