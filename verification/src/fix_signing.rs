//! Ed25519 signing of FIX logon payloads: extracting the key from its PEM
//! armour, locating the private seed, and encoding the signature in base64.
#![allow(deprecated)]
use base64::DecodeError;
use ring::signature::Ed25519KeyPair;
use vstd::prelude::*;
use vstd::slice::{slice_subrange, slice_to_vec};
use vstd::utf8::encode_utf8;
use crate::text::{lemma_find_first_none, lemma_find_first_some, lines_of, strip_cr};

verus! {

#[verifier::external_type_specification]
#[verifier::external_body]
pub struct ExEd25519KeyPair(Ed25519KeyPair);

#[verifier::external_type_specification]
#[verifier::external_body]
pub struct ExDecodeError(DecodeError);

/// Where an Ed25519 key pair was built from.
pub enum KeyOrigin {
    /// A PKCS#8 document.
    Pkcs8(Seq<u8>),
    /// A 32-byte private seed.
    Seed(Seq<u8>),
}

/// An Ed25519 key pair together with the material it was built from.
pub struct SigningKey {
    pair: Ed25519KeyPair,
    origin: Ghost<KeyOrigin>,
}

impl SigningKey {
    /// The material the key pair was built from.
    pub closed spec fn origin(&self) -> KeyOrigin {
        self.origin@
    }
}

/// Whether `Ed25519KeyPair::from_pkcs8` accepts the document.
pub uninterp spec fn pkcs8_accepted(doc: Seq<u8>) -> bool;

/// The Ed25519 signature of `msg` under the key built from `origin`.
pub uninterp spec fn ed25519_signature(origin: KeyOrigin, msg: Seq<u8>) -> Seq<u8>;

/// The standard (padded) base64 encoding of `bytes`.
pub uninterp spec fn base64_encoding(bytes: Seq<u8>) -> Seq<char>;

/// The bytes that standard base64 decoding gives for `text`, if it is valid.
pub uninterp spec fn base64_decoding(text: Seq<u8>) -> Option<Seq<u8>>;

/// Whether `c` belongs to the standard base64 alphabet, padding included.
pub open spec fn is_base64_char(c: char) -> bool {
    ('A' <= c && c <= 'Z') || ('a' <= c && c <= 'z') || ('0' <= c && c <= '9') || c == '+' || c
        == '/' || c == '='
}

/// Whether `t` is made of base64 characters only.
pub open spec fn base64_text(t: Seq<char>) -> bool {
    forall|i: int| 0 <= i < t.len() ==> is_base64_char(#[trigger] t[i])
}

/// `ring::signature::Ed25519KeyPair::from_pkcs8`: accepts exactly the
/// documents of `pkcs8_accepted` (whether it does depends on the bytes
/// alone), and the key pair it builds is the one of that document.
#[verifier::external_body]
fn key_from_pkcs8(doc: &[u8]) -> (res: Option<SigningKey>)
    ensures
        res is Some <==> pkcs8_accepted(doc@),
        res matches Some(k) ==> k.origin() == KeyOrigin::Pkcs8(doc@),
{
    match Ed25519KeyPair::from_pkcs8(doc) {
        Ok(pair) => Some(SigningKey { pair, origin: Ghost(KeyOrigin::Pkcs8(doc@)) }),
        Err(_) => None,
    }
}

/// `ring::signature::Ed25519KeyPair::from_seed_unchecked`: succeeds exactly
/// when the seed is 32 bytes long (its source converts the slice to a
/// 32-byte array and fails only there).
#[verifier::external_body]
fn key_from_seed(seed: &[u8]) -> (res: Option<SigningKey>)
    ensures
        res is Some <==> seed@.len() == 32,
        res matches Some(k) ==> k.origin() == KeyOrigin::Seed(seed@),
{
    match Ed25519KeyPair::from_seed_unchecked(seed) {
        Ok(pair) => Some(SigningKey { pair, origin: Ghost(KeyOrigin::Seed(seed@)) }),
        Err(_) => None,
    }
}

/// `Ed25519KeyPair::sign`: Ed25519 signatures are deterministic, so the
/// 64 signature bytes are a function of the key material and the message.
#[verifier::external_body]
fn sign_bytes(key: &SigningKey, msg: &[u8]) -> (sig: Vec<u8>)
    ensures
        sig@ == ed25519_signature(key.origin(), msg@),
        sig@.len() == 64,
{
    key.pair.sign(msg).as_ref().to_vec()
}

/// The number of `=` that pad the standard base64 encoding of `n` bytes.
pub open spec fn base64_padding(n: nat) -> nat {
    if n % 3 == 0 {
        0
    } else {
        (3 - n % 3) as nat
    }
}

/// `base64::encode`: the standard padded encoding, made of characters of
/// the base64 alphabet only, four for every three bytes begun, with `=`
/// exactly in the padding that fills the last group.
#[verifier::external_body]
fn base64_encode(bytes: &[u8]) -> (text: String)
    ensures
        text@ == base64_encoding(bytes@),
        text@.len() == 4 * ((bytes@.len() + 2) / 3),
        forall|i: int| 0 <= i < text@.len() ==> is_base64_char(#[trigger] text@[i]),
        forall|i: int|
            0 <= i < text@.len() ==> (#[trigger] text@[i] == '=' <==> i >= text@.len()
                - base64_padding(bytes@.len())),
{
    base64::encode(bytes)
}

/// `base64::decode`: standard decoding, which succeeds exactly when
/// `base64_decoding` gives a result, and then returns it.
#[verifier::external_body]
pub(crate) fn base64_decode(text: &[u8]) -> (res: Result<Vec<u8>, DecodeError>)
    ensures
        res is Ok <==> base64_decoding(text@) is Some,
        res matches Ok(v) ==> base64_decoding(text@) == Some(v@),
{
    base64::decode(text)
}

/// Whether `pat` occurs in `s`.
pub open spec fn contains_bytes(s: Seq<u8>, pat: Seq<u8>) -> bool {
    exists|i: int| 0 <= i && i + pat.len() <= s.len() && #[trigger] s.subrange(i, i + pat.len()) == pat
}

/// The bytes of `BEGIN`.
pub open spec fn begin_marker() -> Seq<u8> {
    seq![66u8, 69, 71, 73, 78]
}

/// The bytes of `END`.
pub open spec fn end_marker() -> Seq<u8> {
    seq![69u8, 78, 68]
}

/// The base64 text between the PEM armour lines: lines after a line holding
/// `BEGIN` are gathered (empty lines skipped) until a line holding `END`.
pub open spec fn pem_body_from(lines: Seq<Seq<u8>>, in_key: bool) -> Seq<u8>
    decreases lines.len(),
{
    if lines.len() == 0 {
        seq![]
    } else {
        let l = lines[0];
        if contains_bytes(l, begin_marker()) {
            pem_body_from(lines.drop_first(), true)
        } else if contains_bytes(l, end_marker()) {
            seq![]
        } else if in_key && l.len() > 0 {
            l + pem_body_from(lines.drop_first(), in_key)
        } else {
            pem_body_from(lines.drop_first(), in_key)
        }
    }
}

/// Whether the key text looks PEM-armoured: it holds both `BEGIN` and `END`.
pub open spec fn pem_armored(key: Seq<u8>) -> bool {
    contains_bytes(key, begin_marker()) && contains_bytes(key, end_marker())
}

/// The DER or raw key bytes: the decoded PEM body of an armoured key, the
/// key itself otherwise; `None` when the PEM body is not valid base64.
pub open spec fn key_material(key: Seq<u8>) -> Option<Seq<u8>> {
    if pem_armored(key) {
        base64_decoding(pem_body_from(lines_of(key, 10u8, 13u8), false))
    } else {
        Some(key)
    }
}

/// Position of the first DER OCTET STRING header of 32 bytes (`04 20`).
pub open spec fn seed_marker(d: Seq<u8>) -> Option<nat>
    decreases d.len(),
{
    if d.len() < 2 {
        None
    } else if d[0] == 4 && d[1] == 32 {
        Some(0)
    } else {
        match seed_marker(d.drop_first()) {
            Some(i) => Some(i + 1),
            None => None,
        }
    }
}

/// The key the material yields when ring accepts it as a PKCS#8 document
/// exactly if `accepted`: the document itself when accepted; else, for 48
/// bytes, the seed at offset 16; else the 32 bytes after the first `04 20`
/// header, when they are all there.
pub open spec fn origin_choice(d: Seq<u8>, accepted: bool) -> Option<KeyOrigin> {
    if accepted {
        Some(KeyOrigin::Pkcs8(d))
    } else if d.len() == 48 {
        Some(KeyOrigin::Seed(d.subrange(16, 48)))
    } else {
        match seed_marker(d) {
            Some(p) => if d.len() >= p + 34 {
                Some(KeyOrigin::Seed(d.subrange(p + 2 as int, p + 34 as int)))
            } else {
                None
            },
            None => None,
        }
    }
}

/// The base64 signature of `payload` under the private key, or the empty
/// text when no key can be obtained from it.
pub open spec fn signature_text(private_key: Seq<u8>, payload: Seq<char>) -> Seq<char> {
    match key_material(private_key) {
        Some(d) => match signing_origin(d) {
            Some(o) => base64_encoding(ed25519_signature(o, encode_utf8(payload))),
            None => seq![],
        },
        None => seq![],
    }
}

/// The key the material yields, with ring's own verdict on the document.
pub open spec fn signing_origin(d: Seq<u8>) -> Option<KeyOrigin> {
    origin_choice(d, pkcs8_accepted(d))
}

/// Where in the key material the key is read from.
pub enum KeySource {
    /// The whole material, as a PKCS#8 document.
    Document,
    /// The 32-byte seed starting at this offset.
    Seed(usize),
}

/// The key that `src` reads from the material `d`.
pub open spec fn source_origin(d: Seq<u8>, src: KeySource) -> KeyOrigin {
    match src {
        KeySource::Document => KeyOrigin::Pkcs8(d),
        KeySource::Seed(off) => KeyOrigin::Seed(d.subrange(off as int, off + 32)),
    }
}

/// Where the key of `material` is read from, given whether ring accepted
/// it as a PKCS#8 document; `None` when it yields no key.
pub fn key_source(material: &[u8], pkcs8_accepted: bool) -> (r: Option<KeySource>)
    ensures
        match origin_choice(material@, pkcs8_accepted) {
            Some(o) => r matches Some(src) && source_origin(material@, src) == o && (
            src matches KeySource::Seed(off) ==> off + 32 <= material@.len()),
            None => r is None,
        },
{
    if pkcs8_accepted {
        return Some(KeySource::Document);
    }
    if material.len() == 48 {
        return Some(KeySource::Seed(16));
    }
    match find_seed_marker(material) {
        Some(pos) => if material.len() - pos >= 34 {
            Some(KeySource::Seed(pos + 2))
        } else {
            None
        },
        None => None,
    }
}

/// `seed_marker` finds the first `04 20` pair.
proof fn lemma_seed_marker_some(d: Seq<u8>, i: int)
    requires
        0 <= i && i + 1 < d.len(),
        d[i] == 4 && d[i + 1] == 32,
        forall|k: int| 0 <= k < i ==> !(d[k] == 4 && #[trigger] d[k + 1] == 32),
    ensures
        seed_marker(d) == Some(i as nat),
    decreases d.len(),
{
    if i > 0 {
        assert forall|k: int| 0 <= k < i - 1 implies !(d.drop_first()[k] == 4 && #[trigger] d.drop_first()[k + 1] == 32) by {
            assert(d.drop_first()[k] == d[k + 1]);
            assert(d.drop_first()[k + 1] == d[k + 2]);
        }
        assert(!(d[0] == 4 && d[0int + 1] == 32));
        lemma_seed_marker_some(d.drop_first(), i - 1);
    }
}

/// `seed_marker` finds nothing when no `04 20` pair occurs.
proof fn lemma_seed_marker_none(d: Seq<u8>)
    requires
        forall|k: int| 0 <= k && k + 1 < d.len() ==> !(d[k] == 4 && #[trigger] d[k + 1] == 32),
    ensures
        seed_marker(d) is None,
    decreases d.len(),
{
    if d.len() >= 2 {
        assert forall|k: int| 0 <= k && k + 1 < d.drop_first().len() implies !(d.drop_first()[k] == 4 && #[trigger] d.drop_first()[k + 1] == 32) by {
            assert(d.drop_first()[k] == d[k + 1]);
            assert(d.drop_first()[k + 1] == d[k + 2]);
        }
        assert(!(d[0] == 4 && d[0int + 1] == 32));
        lemma_seed_marker_none(d.drop_first());
    }
}

/// Whether `pat` occurs in `s[a..b]`.
fn contains_in(s: &[u8], a: usize, b: usize, pat: &[u8]) -> (r: bool)
    requires
        a <= b <= s@.len(),
    ensures
        r == contains_bytes(s@.subrange(a as int, b as int), pat@),
{
    let ghost t = s@.subrange(a as int, b as int);
    let m = pat.len();
    if m > b - a {
        assert forall|i: int| 0 <= i && i + m <= t.len() implies #[trigger] t.subrange(i, i + m) != pat@ by {}
        return false;
    }
    let mut i = a;
    while i <= b - m
        invariant
            a <= i <= b - m + 1,
            m == pat@.len(),
            m <= b - a,
            b <= s@.len(),
            t == s@.subrange(a as int, b as int),
            forall|k: int| 0 <= k < i - a ==> #[trigger] t.subrange(k, k + m) != pat@,
        decreases b - m + 1 - i,
    {
        let mut j: usize = 0;
        while j < m && s[i + j] == pat[j]
            invariant
                j <= m,
                i + m <= b <= s@.len(),
                m == pat@.len(),
                forall|k: int| 0 <= k < j ==> s@[i + k] == pat@[k],
            decreases m - j,
        {
            j = j + 1;
        }
        if j == m {
            assert(t.subrange(i - a, i - a + m) =~= pat@);
            return true;
        }
        assert(t.subrange(i - a, i - a + m)[j as int] != pat@[j as int]);
        i = i + 1;
    }
    assert forall|k: int| 0 <= k && k + m <= t.len() implies #[trigger] t.subrange(k, k + m) != pat@ by {
        assert(k < i - a);
    }
    false
}

/// The base64 text inside the PEM armour of `key`.
fn pem_body(key: &[u8]) -> (body: Vec<u8>)
    ensures
        body@ == pem_body_from(lines_of(key@, 10u8, 13u8), false),
{
    let begin = [66u8, 69, 71, 73, 78];
    let end = [69u8, 78, 68];
    let n = key.len();
    let mut body: Vec<u8> = Vec::new();
    let mut in_key = false;
    let mut pos: usize = 0;
    assert(key@.skip(0) =~= key@);
    while pos < n
        invariant
            pos <= n == key@.len(),
            begin@ == begin_marker(),
            end@ == end_marker(),
            body@ + pem_body_from(lines_of(key@.skip(pos as int), 10u8, 13u8), in_key) == pem_body_from(
                lines_of(key@, 10u8, 13u8),
                false,
            ),
        decreases n - pos,
    {
        let ghost rest = key@.skip(pos as int);
        let mut j = pos;
        while j < n && key[j] != 10u8
            invariant
                pos <= j <= n == key@.len(),
                forall|k: int| pos <= k < j ==> key@[k] != 10u8,
            decreases n - j,
        {
            j = j + 1;
        }
        let line_end = if j < n && j > pos && key[j - 1] == 13u8 {
            j - 1
        } else {
            j
        };
        let ghost line = key@.subrange(pos as int, line_end as int);
        let ghost lines = lines_of(rest, 10u8, 13u8);
        proof {
            if j < n {
                lemma_find_first_some(rest, 10u8, j - pos);
                assert(rest.take(j - pos) =~= key@.subrange(pos as int, j as int));
                assert(strip_cr(rest.take(j - pos), 13u8) =~= line);
                assert(rest.skip(j - pos + 1) =~= key@.skip(j + 1));
                assert(lines[0] == line);
                assert(lines.drop_first() =~= lines_of(key@.skip(j + 1), 10u8, 13u8));
            } else {
                lemma_find_first_none(rest, 10u8);
                assert(rest =~= line);
                assert(lines == seq![line]);
                assert(lines.drop_first() =~= Seq::<Seq<u8>>::empty());
                assert(pem_body_from(lines.drop_first(), true) =~= Seq::<u8>::empty());
                assert(pem_body_from(lines.drop_first(), in_key) =~= Seq::<u8>::empty());
                assert(key@.skip(n as int) =~= Seq::<u8>::empty());
            }
        }
        let next = if j < n {
            j + 1
        } else {
            n
        };
        if contains_in(key, pos, line_end, begin.as_slice()) {
            in_key = true;
        } else if contains_in(key, pos, line_end, end.as_slice()) {
            assert(body@ + Seq::<u8>::empty() =~= body@);
            return body;
        } else if in_key && line_end > pos {
            let mut k = pos;
            let ghost old_body = body@;
            while k < line_end
                invariant
                    pos <= k <= line_end <= n == key@.len(),
                    body@ == old_body + key@.subrange(pos as int, k as int),
                decreases line_end - k,
            {
                body.push(key[k]);
                assert(body@ =~= old_body + key@.subrange(pos as int, k + 1));
                k = k + 1;
            }
            assert(body@ + pem_body_from(lines.drop_first(), in_key) =~= old_body + (line
                + pem_body_from(lines.drop_first(), in_key)));
        }
        pos = next;
    }
    assert(key@.skip(pos as int) =~= Seq::<u8>::empty());
    assert(body@ + Seq::<u8>::empty() =~= body@);
    body
}

/// Position of the first `04 20` pair in `d`.
fn find_seed_marker(d: &[u8]) -> (res: Option<usize>)
    ensures
        res matches Some(p) ==> seed_marker(d@) == Some(p as nat) && p + 1 < d@.len(),
        res is None ==> seed_marker(d@) is None,
{
    let n = d.len();
    if n < 2 {
        proof {
            lemma_seed_marker_none(d@);
        }
        return None;
    }
    let mut i: usize = 0;
    while i < n - 1
        invariant
            n == d@.len(),
            n >= 2,
            forall|k: int| 0 <= k < i && k + 1 < n ==> !(d@[k] == 4 && #[trigger] d@[k + 1] == 32),
        decreases n - i,
    {
        if d[i] == 4 && d[i + 1] == 32 {
            proof {
                lemma_seed_marker_some(d@, i as int);
            }
            return Some(i);
        }
        i = i + 1;
    }
    proof {
        lemma_seed_marker_none(d@);
    }
    None
}

/// The base64 signature of `payload` under `private_key`, a PEM-armoured
/// or raw Ed25519 key: the key material is the decoded PEM body (or the
/// raw bytes), then read as a PKCS#8 document, or as a 48-byte PKCS#8 v1
/// structure with the seed at offset 16, or by locating the seed after
/// its `04 20` header. Empty when none of these yields a key.
pub fn sign_payload(private_key: &[u8], payload: &str) -> (sig: String)
    ensures
        sig@ == signature_text(private_key@, payload@),
        base64_text(sig@),
        sig@.len() == 0 || (sig@.len() == 88 && sig@[85] != '=' && sig@[86] == '=' && sig@[87]
            == '='),
{
    let begin = [66u8, 69, 71, 73, 78];
    let end = [69u8, 78, 68];
    let n = private_key.len();
    assert(private_key@.subrange(0, n as int) =~= private_key@);
    let armored = contains_in(private_key, 0, n, begin.as_slice()) && contains_in(
        private_key,
        0,
        n,
        end.as_slice(),
    );
    let material: Vec<u8> = if armored {
        let body = pem_body(private_key);
        match base64_decode(body.as_slice()) {
            Ok(der) => der,
            Err(_) => {
                return String::new();
            },
        }
    } else {
        slice_to_vec(private_key)
    };
    assert(key_material(private_key@) == Some(material@));
    let msg = payload.as_bytes();
    let document = key_from_pkcs8(material.as_slice());
    let key = match key_source(material.as_slice(), document.is_some()) {
        Some(KeySource::Document) => match document {
            Some(k) => k,
            None => {
                return String::new();
            },
        },
        Some(KeySource::Seed(off)) => match key_from_seed(
            slice_subrange(material.as_slice(), off, off + 32),
        ) {
            Some(k) => k,
            None => {
                return String::new();
            },
        },
        None => {
            return String::new();
        },
    };
    let sig = sign_bytes(&key, msg);
    let text = base64_encode(sig.as_slice());
    proof {
        assert(text@.len() == 88);
        assert(base64_padding(64) == 2);
    }
    text
}

} // verus!
