//! Character-level helpers shared by the text protocols: decimal rendering,
//! UTF-8 byte accounting and a few trusted string primitives.
use vstd::prelude::*;
use vstd::string::StringExecFns;
use vstd::utf8::encode_utf8;

verus! {

/// `String::push` appends one character.
pub assume_specification[ String::push ](s: &mut String, ch: char)
    ensures
        final(s)@ == old(s)@.push(ch),
;

/// The character of a decimal digit.
pub open spec fn digit_char(d: nat) -> char
    recommends
        d < 10,
{
    (d + 48) as char
}

/// Whether `c` is an ASCII decimal digit.
pub open spec fn is_digit(c: char) -> bool {
    '0' <= c && c <= '9'
}

/// The decimal rendering of `n`, as `format!("{}", n)` gives it.
pub open spec fn decimal(n: nat) -> Seq<char>
    decreases n,
{
    if n < 10 {
        seq![digit_char(n)]
    } else {
        decimal(n / 10).push(digit_char(n % 10))
    }
}

/// The character of the digit `d`.
pub fn digit_to_char(d: u8) -> (c: char)
    requires
        d < 10,
    ensures
        c == digit_char(d as nat),
{
    (d + 48) as char
}

/// Appends the decimal rendering of `n` to `s`.
pub fn push_decimal(s: &mut String, n: u64)
    ensures
        final(s)@ == old(s)@ + decimal(n as nat),
    decreases n,
{
    if n >= 10 {
        push_decimal(s, n / 10);
    }
    let c = digit_to_char((n % 10) as u8);
    s.push(c);
    proof {
        if n >= 10 {
            assert(decimal(n as nat) == decimal((n / 10) as nat).push(digit_char((n % 10) as nat)));
        }
        assert(final(s)@ =~= old(s)@ + decimal(n as nat));
    }
}

/// The characters of `s`, collected in order.
pub fn chars_of(s: &str) -> (v: Vec<char>)
    ensures
        v@ == s@,
{
    broadcast use vstd::string::group_string_axioms;
    let mut v: Vec<char> = Vec::new();
    for c in it: s.chars()
        invariant
            v@ == it.seq().take(it.index() as int),
    {
        v.push(c);
    }
    v
}

/// A string holding the decimal rendering of `n`.
pub fn decimal_string(n: u64) -> (s: String)
    ensures
        s@ == decimal(n as nat),
{
    let mut s = String::new();
    push_decimal(&mut s, n);
    assert(s@ =~= decimal(n as nat));
    s
}

/// The FIX field delimiter (Start Of Header, byte 0x01).
pub const SOH: char = '\x01';

/// One FIX field: its numeric tag and the text of its value.
pub type FieldEntry = (nat, Seq<char>);

/// The text of one field: `tag=value` followed by SOH.
pub open spec fn field_text(tag: nat, value: Seq<char>) -> Seq<char> {
    decimal(tag) + seq!['='] + value + seq![SOH]
}

/// The text of a run of fields, in order.
pub open spec fn fields_text(entries: Seq<FieldEntry>) -> Seq<char>
    decreases entries.len(),
{
    if entries.len() == 0 {
        seq![]
    } else {
        field_text(entries[0].0, entries[0].1) + fields_text(entries.drop_first())
    }
}

/// Appending a field to a run appends its text.
pub proof fn lemma_fields_text_push(entries: Seq<FieldEntry>, e: FieldEntry)
    ensures
        fields_text(entries.push(e)) == fields_text(entries) + field_text(e.0, e.1),
    decreases entries.len(),
{
    if entries.len() == 0 {
        assert(entries.push(e).drop_first() =~= Seq::<FieldEntry>::empty());
        assert(fields_text(entries.push(e).drop_first()) =~= Seq::<char>::empty());
        assert(entries.push(e)[0] == e);
        assert(fields_text(entries.push(e)) =~= field_text(e.0, e.1));
    } else {
        lemma_fields_text_push(entries.drop_first(), e);
        assert(entries.push(e).drop_first() =~= entries.drop_first().push(e));
        assert(fields_text(entries.push(e)) =~= fields_text(entries) + field_text(e.0, e.1));
    }
}

/// The text of two runs of fields, one after the other.
pub proof fn lemma_fields_text_concat(a: Seq<FieldEntry>, b: Seq<FieldEntry>)
    ensures
        fields_text(a + b) == fields_text(a) + fields_text(b),
    decreases a.len(),
{
    if a.len() == 0 {
        assert(a + b =~= b);
        assert(fields_text(a + b) =~= fields_text(a) + fields_text(b));
    } else {
        lemma_fields_text_concat(a.drop_first(), b);
        assert((a + b).drop_first() =~= a.drop_first() + b);
        assert(fields_text(a + b) =~= fields_text(a) + fields_text(b));
    }
}

/// Appends the field `tag=value` and its delimiter to `s`.
pub fn append_field(s: &mut String, tag: u64, value: &str)
    ensures
        final(s)@ == old(s)@ + field_text(tag as nat, value@),
{
    push_decimal(s, tag);
    s.push('=');
    s.append(value);
    s.push(SOH);
    assert(s@ =~= old(s)@ + field_text(tag as nat, value@));
}

/// Appends the field `tag=value` and its delimiter to `s`, which holds the
/// text of `entries`.
pub fn push_field(s: &mut String, tag: u64, value: &str, Ghost(entries): Ghost<Seq<FieldEntry>>)
    requires
        old(s)@ == fields_text(entries),
    ensures
        final(s)@ == fields_text(entries.push((tag as nat, value@))),
{
    append_field(s, tag, value);
    proof {
        lemma_fields_text_push(entries, (tag as nat, value@));
    }
}

/// The number of bytes of the UTF-8 encoding of `s`.
pub open spec fn utf8_len(s: Seq<char>) -> nat {
    encode_utf8(s).len()
}

/// The sum of a run of bytes.
pub open spec fn byte_sum(b: Seq<u8>) -> nat
    decreases b.len(),
{
    if b.len() == 0 {
        0
    } else {
        byte_sum(b.drop_last()) + b.last() as nat
    }
}

/// `n`, below 1000, written with exactly three digits, as `format!("{:03}", n)`.
pub open spec fn three_digits(n: nat) -> Seq<char> {
    seq![digit_char(n / 100), digit_char((n / 10) % 10), digit_char(n % 10)]
}

/// The FIX checksum of a text: the sum of its UTF-8 bytes modulo 256, in three digits.
pub open spec fn checksum_chars(m: Seq<char>) -> Seq<char> {
    three_digits(byte_sum(encode_utf8(m)) % 256)
}

/// The FIX checksum of `message`, as three digits.
pub fn checksum_of(message: &str) -> (c: String)
    ensures
        c@ == checksum_chars(message@),
{
    let bytes = message.as_bytes();
    let mut sum: u32 = 0;
    let mut i: usize = 0;
    while i < bytes.len()
        invariant
            i <= bytes@.len(),
            bytes@ == encode_utf8(message@),
            sum as nat == byte_sum(bytes@.take(i as int)) % 256,
        decreases bytes.len() - i,
    {
        assert(bytes@.take(i + 1).drop_last() =~= bytes@.take(i as int));
        sum = (sum + bytes[i] as u32) % 256;
        i = i + 1;
    }
    assert(bytes@.take(i as int) =~= bytes@);
    let mut c = String::new();
    c.push(digit_to_char((sum / 100) as u8));
    c.push(digit_to_char(((sum / 10) % 10) as u8));
    c.push(digit_to_char((sum % 10) as u8));
    assert(c@ =~= checksum_chars(message@));
    c
}

/// Index of the first occurrence of `c` in `s`.
pub open spec fn find_first<A>(s: Seq<A>, c: A) -> Option<nat>
    decreases s.len(),
{
    if s.len() == 0 {
        None
    } else if s[0] == c {
        Some(0)
    } else {
        match find_first(s.drop_first(), c) {
            Some(i) => Some(i + 1),
            None => None,
        }
    }
}

/// `find_first` gives the first index holding `c`.
pub proof fn lemma_find_first_some<A>(s: Seq<A>, c: A, i: int)
    requires
        0 <= i < s.len(),
        s[i] == c,
        forall|k: int| 0 <= k < i ==> s[k] != c,
    ensures
        find_first(s, c) == Some(i as nat),
    decreases s.len(),
{
    if i > 0 {
        lemma_find_first_some(s.drop_first(), c, i - 1);
    }
}

/// `find_first` finds nothing when `c` does not occur.
pub proof fn lemma_find_first_none<A>(s: Seq<A>, c: A)
    requires
        forall|k: int| 0 <= k < s.len() ==> s[k] != c,
    ensures
        find_first(s, c) is None,
    decreases s.len(),
{
    if s.len() > 0 {
        lemma_find_first_none(s.drop_first(), c);
    }
}

/// What `find_first` returns is an index that holds `c`, with no earlier `c`.
pub proof fn lemma_find_first_result<A>(s: Seq<A>, c: A)
    ensures
        find_first(s, c) matches Some(i) ==> i < s.len() && s[i as int] == c && (forall|k: int|
            0 <= k < i ==> s[k] != c),
        find_first(s, c) is None ==> forall|k: int| 0 <= k < s.len() ==> s[k] != c,
    decreases s.len(),
{
    if s.len() > 0 {
        lemma_find_first_result(s.drop_first(), c);
        if s[0] != c {
            assert forall|k: int| 1 <= k < s.len() implies s[k] == s.drop_first()[k - 1] by {}
        }
    }
}

/// `l` without one trailing carriage return `cr`.
pub open spec fn strip_cr<A>(l: Seq<A>, cr: A) -> Seq<A> {
    if l.len() > 0 && l.last() == cr {
        l.drop_last()
    } else {
        l
    }
}

/// The lines of `s` as `str::lines` yields them: split at each newline
/// `nl`, a carriage return `cr` before a newline dropped, no line after a
/// final newline.
pub open spec fn lines_of<A>(s: Seq<A>, nl: A, cr: A) -> Seq<Seq<A>>
    decreases s.len(),
{
    if s.len() == 0 {
        seq![]
    } else {
        match find_first(s, nl) {
            Some(i) => {
                proof {
                    lemma_find_first_result(s, nl);
                }
                seq![strip_cr(s.take(i as int), cr)] + lines_of(s.skip(i + 1 as int), nl, cr)
            },
            None => seq![s],
        }
    }
}

} // verus!
