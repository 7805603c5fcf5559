//! The exchange credentials: reading them from the text of a `.env` file,
//! and turning the configured private key into key bytes.
use base64::DecodeError;
use vstd::prelude::*;
use vstd::slice::slice_to_vec;
use vstd::utf8::encode_utf8;
use crate::fix_parse::string_of_range;
use crate::fix_signing::{base64_decode, base64_decoding};
use crate::text::{
    chars_of, find_first, lemma_find_first_none, lemma_find_first_result, lemma_find_first_some,
    lines_of, strip_cr,
};

verus! {

/// The API key and secret found in a `.env` text (empty when absent).
pub struct EnvCredentials {
    pub api_key: String,
    pub api_secret: String,
}

/// Whether `s` starts with `p`.
pub open spec fn starts_with(s: Seq<char>, p: Seq<char>) -> bool {
    p.len() <= s.len() && s.take(p.len() as int) == p
}

/// The setting name of the API key, with its `=`.
pub open spec fn api_key_prefix() -> Seq<char> {
    "BINANCE_API_KEY="@
}

/// The setting name of the API secret, with its `=`.
pub open spec fn api_secret_prefix() -> Seq<char> {
    "BINANCE_API_SECRET="@
}

/// The key and secret after reading `lines` in order, starting from
/// `key` and `secret`: a line setting one of them replaces its value.
pub open spec fn read_settings(lines: Seq<Seq<char>>, key: Seq<char>, secret: Seq<char>) -> (
    Seq<char>,
    Seq<char>,
)
    decreases lines.len(),
{
    if lines.len() == 0 {
        (key, secret)
    } else {
        let l = lines[0];
        if starts_with(l, api_key_prefix()) {
            read_settings(lines.drop_first(), l.skip(api_key_prefix().len() as int), secret)
        } else if starts_with(l, api_secret_prefix()) {
            read_settings(lines.drop_first(), key, l.skip(api_secret_prefix().len() as int))
        } else {
            read_settings(lines.drop_first(), key, secret)
        }
    }
}

/// The API key and secret a `.env` text sets; the last setting of each wins.
pub open spec fn env_settings(content: Seq<char>) -> (Seq<char>, Seq<char>) {
    read_settings(lines_of(content, '\n', '\r'), seq![], seq![])
}

/// Reading two runs of lines one after the other.
proof fn lemma_read_settings_concat(
    a: Seq<Seq<char>>,
    b: Seq<Seq<char>>,
    key: Seq<char>,
    secret: Seq<char>,
)
    ensures
        read_settings(a + b, key, secret) == ({
            let (k, s) = read_settings(a, key, secret);
            read_settings(b, k, s)
        }),
    decreases a.len(),
{
    if a.len() == 0 {
        assert(a + b =~= b);
    } else {
        assert((a + b).drop_first() =~= a.drop_first() + b);
        assert((a + b)[0] == a[0]);
        let l = a[0];
        if starts_with(l, api_key_prefix()) {
            lemma_read_settings_concat(
                a.drop_first(),
                b,
                l.skip(api_key_prefix().len() as int),
                secret,
            );
        } else if starts_with(l, api_secret_prefix()) {
            lemma_read_settings_concat(
                a.drop_first(),
                b,
                key,
                l.skip(api_secret_prefix().len() as int),
            );
        } else {
            lemma_read_settings_concat(a.drop_first(), b, key, secret);
        }
    }
}

/// The lines of a text that ends with a newline, followed by more text,
/// are its lines followed by those of the rest.
proof fn lemma_lines_concat(x: Seq<char>, y: Seq<char>)
    requires
        x.len() > 0,
        x.last() == '\n',
    ensures
        lines_of(x + y, '\n', '\r') == lines_of(x, '\n', '\r') + lines_of(y, '\n', '\r'),
    decreases x.len(),
{
    let xy = x + y;
    lemma_find_first_result(x, '\n');
    let i = find_first(x, '\n').unwrap();
    assert forall|k: int| 0 <= k < i implies xy[k] != '\n' by {
        assert(xy[k] == x[k]);
    }
    assert(xy[i as int] == x[i as int]);
    lemma_find_first_some(xy, '\n', i as int);
    assert(xy.take(i as int) =~= x.take(i as int));
    let rest = x.skip(i + 1 as int);
    assert(xy.skip(i + 1 as int) =~= rest + y);
    if rest.len() == 0 {
        assert(rest + y =~= y);
        assert(lines_of(rest, '\n', '\r') =~= Seq::<Seq<char>>::empty());
        assert(lines_of(x, '\n', '\r') =~= seq![strip_cr(x.take(i as int), '\r')]);
    } else {
        assert(rest.last() == x.last());
        lemma_lines_concat(rest, y);
    }
    assert(lines_of(xy, '\n', '\r') =~= lines_of(x, '\n', '\r') + lines_of(y, '\n', '\r'));
}

/// An empty line, as the lines of a text starting with a newline begin.
proof fn lemma_lines_leading_newline(y: Seq<char>)
    ensures
        lines_of(seq!['\n'] + y, '\n', '\r') == seq![Seq::<char>::empty()] + lines_of(
            y,
            '\n',
            '\r',
        ),
{
    let s = seq!['\n'] + y;
    lemma_find_first_some(s, '\n', 0);
    assert(s.take(0) =~= Seq::<char>::empty());
    assert(s.skip(1) =~= y);
    assert(strip_cr(Seq::<char>::empty(), '\r') =~= Seq::<char>::empty());
}

/// A blank line in a `.env` text changes nothing and does not end the
/// reading: the settings of `a`, a blank line and `b` are those of `a`
/// followed directly by `b` on the next line.
pub proof fn lemma_blank_line_ignored(a: Seq<char>, b: Seq<char>)
    ensures
        env_settings(a + seq!['\n', '\n'] + b) == env_settings(a + seq!['\n'] + b),
{
    reveal_strlit("BINANCE_API_KEY=");
    reveal_strlit("BINANCE_API_SECRET=");
    let x = a + seq!['\n'];
    assert(a + seq!['\n', '\n'] + b =~= x + (seq!['\n'] + b));
    assert(a + seq!['\n'] + b =~= x + b);
    lemma_lines_concat(x, seq!['\n'] + b);
    lemma_lines_concat(x, b);
    lemma_lines_leading_newline(b);
    let lx = lines_of(x, '\n', '\r');
    let lb = lines_of(b, '\n', '\r');
    let blank = seq![Seq::<char>::empty()];
    assert(lx + (blank + lb) =~= (lx + blank) + lb);
    lemma_read_settings_concat(lx + blank, lb, seq![], seq![]);
    lemma_read_settings_concat(lx, blank, seq![], seq![]);
    lemma_read_settings_concat(lx, lb, seq![], seq![]);
    let (k, s) = read_settings(lx, seq![], seq![]);
    assert(blank.drop_first() =~= Seq::<Seq<char>>::empty());
    assert(blank[0].len() == 0);
    assert(api_key_prefix().len() > 0 && api_secret_prefix().len() > 0);
    assert(!starts_with(blank[0], api_key_prefix()));
    assert(!starts_with(blank[0], api_secret_prefix()));
    assert(read_settings(blank, k, s) == read_settings(blank.drop_first(), k, s));
    assert(read_settings(Seq::<Seq<char>>::empty(), k, s) == (k, s));
    assert(read_settings(blank, k, s) == (k, s));
}

/// A setting on the last line of a `.env` text is found, whatever lines
/// come before it (blank ones included): after any text ending in a
/// newline, a line `BINANCE_API_SECRET=v` sets the secret to `v` and keeps
/// the key, and a line `BINANCE_API_KEY=v` sets the key to `v` and keeps the
/// secret.
pub proof fn lemma_last_line_setting(a: Seq<char>, v: Seq<char>)
    requires
        forall|i: int| 0 <= i < v.len() ==> v[i] != '\n',
    ensures
        env_settings(a + seq!['\n'] + api_secret_prefix() + v) == (
            env_settings(a + seq!['\n']).0,
            v,
        ),
        env_settings(a + seq!['\n'] + api_key_prefix() + v) == (
            v,
            env_settings(a + seq!['\n']).1,
        ),
{
    reveal_strlit("BINANCE_API_KEY=");
    reveal_strlit("BINANCE_API_SECRET=");
    let x = a + seq!['\n'];
    let lx = lines_of(x, '\n', '\r');
    let (k, s) = read_settings(lx, seq![], seq![]);
    assert(env_settings(x) == (k, s));
    let ls = api_secret_prefix() + v;
    let lk = api_key_prefix() + v;
    assert(a + seq!['\n'] + api_secret_prefix() + v =~= x + ls);
    assert(a + seq!['\n'] + api_key_prefix() + v =~= x + lk);
    lemma_lines_concat(x, ls);
    lemma_lines_concat(x, lk);
    assert forall|i: int| 0 <= i < ls.len() implies ls[i] != '\n' by {
        if i >= api_secret_prefix().len() {
            assert(ls[i] == v[i - api_secret_prefix().len()]);
        }
    }
    assert forall|i: int| 0 <= i < lk.len() implies lk[i] != '\n' by {
        if i >= api_key_prefix().len() {
            assert(lk[i] == v[i - api_key_prefix().len()]);
        }
    }
    lemma_find_first_none(ls, '\n');
    lemma_find_first_none(lk, '\n');
    assert(lines_of(ls, '\n', '\r') == seq![ls]);
    assert(lines_of(lk, '\n', '\r') == seq![lk]);
    lemma_read_settings_concat(lx, seq![ls], seq![], seq![]);
    lemma_read_settings_concat(lx, seq![lk], seq![], seq![]);
    assert(ls.take(api_secret_prefix().len() as int) =~= api_secret_prefix());
    assert(ls.skip(api_secret_prefix().len() as int) =~= v);
    assert(ls[12] != api_key_prefix()[12]);
    assert(!starts_with(ls, api_key_prefix()));
    assert(lk.take(api_key_prefix().len() as int) =~= api_key_prefix());
    assert(lk.skip(api_key_prefix().len() as int) =~= v);
    assert(seq![ls].drop_first() =~= Seq::<Seq<char>>::empty());
    assert(seq![lk].drop_first() =~= Seq::<Seq<char>>::empty());
    assert(seq![ls][0] == ls);
    assert(seq![lk][0] == lk);
    assert(read_settings(seq![ls], k, s) == read_settings(seq![ls].drop_first(), k, v));
    assert(read_settings(seq![lk], k, s) == read_settings(seq![lk].drop_first(), v, s));
    assert(read_settings(Seq::<Seq<char>>::empty(), k, v) == (k, v));
    assert(read_settings(Seq::<Seq<char>>::empty(), v, s) == (v, s));
    assert(env_settings(x + ls) == read_settings(lx + seq![ls], seq![], seq![]));
    assert(env_settings(x + lk) == read_settings(lx + seq![lk], seq![], seq![]));
}

/// Whether `chars[a..b]` starts with `p`.
fn range_starts_with(chars: &Vec<char>, a: usize, b: usize, p: &Vec<char>) -> (r: bool)
    requires
        a <= b <= chars@.len(),
    ensures
        r == starts_with(chars@.subrange(a as int, b as int), p@),
{
    let ghost s = chars@.subrange(a as int, b as int);
    if p.len() > b - a {
        return false;
    }
    let mut i: usize = 0;
    while i < p.len()
        invariant
            i <= p@.len() <= b - a,
            a <= b <= chars@.len(),
            s == chars@.subrange(a as int, b as int),
            forall|k: int| 0 <= k < i ==> chars@[a + k] == p@[k],
        decreases p.len() - i,
    {
        if chars[a + i] != p[i] {
            assert(s.take(p@.len() as int)[i as int] != p@[i as int]);
            return false;
        }
        i = i + 1;
    }
    assert(s.take(p@.len() as int) =~= p@);
    true
}

/// The API key and secret set by the `.env` text `content`.
pub fn parse_env_credentials(content: &str) -> (c: EnvCredentials)
    ensures
        (c.api_key@, c.api_secret@) == env_settings(content@),
{
    let chars = chars_of(content);
    let key_prefix = chars_of("BINANCE_API_KEY=");
    let secret_prefix = chars_of("BINANCE_API_SECRET=");
    let n = chars.len();
    let mut api_key = String::new();
    let mut api_secret = String::new();
    let mut pos: usize = 0;
    assert(chars@.skip(0) =~= chars@);
    while pos < n
        invariant
            pos <= n == chars@.len(),
            chars@ == content@,
            key_prefix@ == api_key_prefix(),
            secret_prefix@ == api_secret_prefix(),
            read_settings(lines_of(chars@.skip(pos as int), '\n', '\r'), api_key@, api_secret@)
                == env_settings(content@),
        decreases n - pos,
    {
        let ghost rest = chars@.skip(pos as int);
        let mut j = pos;
        while j < n && chars[j] != '\n'
            invariant
                pos <= j <= n == chars@.len(),
                forall|k: int| pos <= k < j ==> chars@[k] != '\n',
            decreases n - j,
        {
            j = j + 1;
        }
        let line_end = if j < n && j > pos && chars[j - 1] == '\r' {
            j - 1
        } else {
            j
        };
        let ghost line = chars@.subrange(pos as int, line_end as int);
        let ghost lines = lines_of(rest, '\n', '\r');
        proof {
            if j < n {
                lemma_find_first_some(rest, '\n', j - pos);
                assert(rest.take(j - pos) =~= chars@.subrange(pos as int, j as int));
                assert(strip_cr(rest.take(j - pos), '\r') =~= line);
                assert(rest.skip(j - pos + 1) =~= chars@.skip(j + 1));
                assert(lines.drop_first() =~= lines_of(chars@.skip(j + 1), '\n', '\r'));
            } else {
                lemma_find_first_none(rest, '\n');
                assert(rest =~= line);
                assert(lines.drop_first() =~= Seq::<Seq<char>>::empty());
                assert(chars@.skip(n as int) =~= Seq::<char>::empty());
            }
            assert(lines[0] == line);
        }
        if range_starts_with(&chars, pos, line_end, &key_prefix) {
            api_key = string_of_range(&chars, pos + key_prefix.len(), line_end);
            assert(line.skip(api_key_prefix().len() as int) =~= api_key@);
        } else if range_starts_with(&chars, pos, line_end, &secret_prefix) {
            api_secret = string_of_range(&chars, pos + secret_prefix.len(), line_end);
            assert(line.skip(api_secret_prefix().len() as int) =~= api_secret@);
        }
        pos = if j < n {
            j + 1
        } else {
            n
        };
    }
    assert(chars@.skip(pos as int) =~= Seq::<char>::empty());
    EnvCredentials { api_key, api_secret }
}

/// Why the configured private key could not be turned into key bytes.
pub enum PrivateKeyError {
    /// The key looked base64-encoded but did not decode.
    InvalidBase64(DecodeError),
}

/// The base64 encoding of `-----BEGIN`, the start of a doubly encoded PEM key.
pub open spec fn encoded_pem_prefix() -> Seq<char> {
    "LS0tLS1CRUdJTi"@
}

/// The start of a PEM key, `-----BEGIN`.
pub open spec fn pem_prefix() -> Seq<char> {
    "-----BEGIN"@
}

/// The key bytes of the configured secret: the base64 decoding of a
/// base64-encoded PEM text (`None` when it does not decode), the text itself
/// when it is PEM, and otherwise its base64 decoding when there is one, the
/// text itself when not.
pub open spec fn private_key_bytes(secret: Seq<char>) -> Option<Seq<u8>> {
    let b = encode_utf8(secret);
    if starts_with(secret, encoded_pem_prefix()) {
        base64_decoding(b)
    } else if starts_with(secret, pem_prefix()) {
        Some(b)
    } else {
        match base64_decoding(b) {
            Some(k) => Some(k),
            None => Some(b),
        }
    }
}

/// Whether `s` starts with `p`.
fn str_starts_with(s: &Vec<char>, p: &str) -> (r: bool)
    ensures
        r == starts_with(s@, p@),
{
    let pc = chars_of(p);
    assert(s@.subrange(0, s@.len() as int) =~= s@);
    range_starts_with(s, 0, s.len(), &pc)
}

/// The private key bytes of the configured secret `secret`.
pub fn decode_private_key(secret: &str) -> (res: Result<Vec<u8>, PrivateKeyError>)
    ensures
        match private_key_bytes(secret@) {
            Some(k) => res matches Ok(v) && v@ == k,
            None => res is Err,
        },
{
    let chars = chars_of(secret);
    let bytes = secret.as_bytes();
    if str_starts_with(&chars, "LS0tLS1CRUdJTi") {
        match base64_decode(bytes) {
            Ok(k) => Ok(k),
            Err(e) => Err(PrivateKeyError::InvalidBase64(e)),
        }
    } else if str_starts_with(&chars, "-----BEGIN") {
        Ok(slice_to_vec(bytes))
    } else {
        match base64_decode(bytes) {
            Ok(k) => Ok(k),
            Err(_) => Ok(slice_to_vec(bytes)),
        }
    }
}

} // verus!
