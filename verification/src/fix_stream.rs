//! Cutting complete FIX messages out of the bytes received so far, and
//! naming the message types the session reports on.
use vstd::prelude::*;
use vstd::string::StrSliceExecFns;
use crate::text::{find_first, lemma_find_first_none, lemma_find_first_result, lemma_find_first_some};

verus! {

/// Index of the first occurrence of `pat` in `s`.
pub open spec fn find_pattern(s: Seq<u8>, pat: Seq<u8>) -> Option<nat>
    decreases s.len(),
{
    if s.len() < pat.len() {
        None
    } else if s.take(pat.len() as int) == pat {
        Some(0)
    } else if s.len() == 0 {
        None
    } else {
        match find_pattern(s.drop_first(), pat) {
            Some(i) => Some(i + 1),
            None => None,
        }
    }
}

/// Whether `pat` occurs in `s` at index `i`.
pub open spec fn occurs_at(s: Seq<u8>, pat: Seq<u8>, i: int) -> bool {
    0 <= i && i + pat.len() <= s.len() && s.subrange(i, i + pat.len()) == pat
}

/// `find_pattern` gives the first index where `pat` occurs.
pub proof fn lemma_find_pattern_some(s: Seq<u8>, pat: Seq<u8>, i: int)
    requires
        occurs_at(s, pat, i),
        forall|k: int| 0 <= k < i ==> !#[trigger] occurs_at(s, pat, k),
    ensures
        find_pattern(s, pat) == Some(i as nat),
    decreases s.len(),
{
    assert(s.take(pat.len() as int) =~= s.subrange(0, pat.len() as int));
    if i > 0 {
        assert(!occurs_at(s, pat, 0));
        let t = s.drop_first();
        assert(t.subrange(i - 1, i - 1 + pat.len()) =~= s.subrange(i, i + pat.len()));
        assert forall|k: int| 0 <= k < i - 1 implies !#[trigger] occurs_at(t, pat, k) by {
            assert(!occurs_at(s, pat, k + 1));
            if k + pat.len() <= t.len() {
                assert(t.subrange(k, k + pat.len()) =~= s.subrange(k + 1, k + 1 + pat.len()));
            }
        }
        lemma_find_pattern_some(t, pat, i - 1);
    }
}

/// `find_pattern` finds nothing when `pat` never occurs.
pub proof fn lemma_find_pattern_none(s: Seq<u8>, pat: Seq<u8>)
    requires
        forall|k: int| 0 <= k ==> !#[trigger] occurs_at(s, pat, k),
    ensures
        find_pattern(s, pat) is None,
    decreases s.len(),
{
    if s.len() >= pat.len() {
        assert(s.take(pat.len() as int) =~= s.subrange(0, pat.len() as int));
        assert(!occurs_at(s, pat, 0));
        if s.len() > 0 {
            let t = s.drop_first();
            assert forall|k: int| 0 <= k implies !#[trigger] occurs_at(t, pat, k) by {
                assert(!occurs_at(s, pat, k + 1));
                if k + pat.len() <= t.len() {
                    assert(t.subrange(k, k + pat.len()) =~= s.subrange(k + 1, k + 1 + pat.len()));
                }
            }
            lemma_find_pattern_none(t, pat);
        }
    }
}

/// The bytes of `8=FIX`, the start of a message.
pub open spec fn begin_string_marker() -> Seq<u8> {
    seq![56u8, 61, 70, 73, 88]
}

/// The bytes of `10=`, the start of the checksum field.
pub open spec fn checksum_marker() -> Seq<u8> {
    seq![49u8, 48, 61]
}

/// The first complete message in `buf`, as a start and end index: it starts
/// at the first `8=FIX`, and ends after the SOH that follows the first
/// `10=` after that start. `None` while no such message is complete.
pub open spec fn next_frame(buf: Seq<u8>) -> Option<(nat, nat)> {
    match find_pattern(buf, begin_string_marker()) {
        Some(s) => match find_pattern(buf.skip(s as int), checksum_marker()) {
            Some(c) => match find_first(buf.skip(s + c + 3 as int), 1u8) {
                Some(e) => Some((s, s + c + 3 + e + 1)),
                None => None,
            },
            None => None,
        },
        None => None,
    }
}

/// Where `find_pattern` finds `pat`, all of it lies within `s`.
proof fn lemma_find_pattern_bound(s: Seq<u8>, pat: Seq<u8>)
    ensures
        find_pattern(s, pat) matches Some(i) ==> i + pat.len() <= s.len(),
    decreases s.len(),
{
    if s.len() >= pat.len() && s.take(pat.len() as int) != pat && s.len() > 0 {
        lemma_find_pattern_bound(s.drop_first(), pat);
    }
}

/// A complete message is a non-empty run of the buffer.
pub proof fn lemma_next_frame_bounds(buf: Seq<u8>)
    ensures
        next_frame(buf) matches Some((s, e)) ==> s < e <= buf.len(),
{
    lemma_find_pattern_bound(buf, begin_string_marker());
    if let Some(s) = find_pattern(buf, begin_string_marker()) {
        lemma_find_pattern_bound(buf.skip(s as int), checksum_marker());
        if let Some(c) = find_pattern(buf.skip(s as int), checksum_marker()) {
            lemma_find_first_result(buf.skip(s + c + 3 as int), 1u8);
        }
    }
}

/// The complete messages of `buf`, cut one after the other from its front,
/// and the bytes left once no further message is complete.
pub open spec fn drain_frames(buf: Seq<u8>) -> (Seq<Seq<u8>>, Seq<u8>)
    decreases buf.len(),
{
    match next_frame(buf) {
        Some((s, e)) => {
            proof {
                lemma_next_frame_bounds(buf);
            }
            let (fs, r) = drain_frames(buf.skip(e as int));
            (seq![buf.subrange(s as int, e as int)] + fs, r)
        },
        None => (seq![], buf),
    }
}

/// Removes every complete message from the front of `buf`, in order, and
/// returns them; `buf` keeps the bytes after the last of them.
pub fn take_all_frames(buf: &mut Vec<u8>) -> (frames: Vec<Vec<u8>>)
    ensures
        frames@.map_values(|f: Vec<u8>| f@) == drain_frames(old(buf)@).0,
        final(buf)@ == drain_frames(old(buf)@).1,
{
    let ghost whole = buf@;
    let mut frames: Vec<Vec<u8>> = Vec::new();
    loop
        invariant_except_break
            drain_frames(whole).0 == frames@.map_values(|f: Vec<u8>| f@) + drain_frames(buf@).0,
            drain_frames(whole).1 == drain_frames(buf@).1,
        ensures
            drain_frames(whole).0 == frames@.map_values(|f: Vec<u8>| f@),
            drain_frames(whole).1 == buf@,
        decreases buf@.len(),
    {
        let ghost before = buf@;
        proof {
            lemma_next_frame_bounds(before);
        }
        match take_next_frame(buf) {
            Some(f) => {
                let ghost done = frames@.map_values(|g: Vec<u8>| g@);
                frames.push(f);
                proof {
                    assert(frames@.map_values(|g: Vec<u8>| g@) =~= done.push(f@));
                    assert(done.push(f@) + drain_frames(buf@).0 =~= done + (seq![f@]
                        + drain_frames(buf@).0));
                }
            },
            None => {
                proof {
                    assert(drain_frames(before).0 =~= Seq::<Seq<u8>>::empty());
                    assert(frames@.map_values(|g: Vec<u8>| g@) + Seq::<Seq<u8>>::empty()
                        =~= frames@.map_values(|g: Vec<u8>| g@));
                }
                break;
            },
        }
    }
    frames
}

/// The first index at or after `from` where `pat` occurs in `s`.
fn find_pattern_from(s: &Vec<u8>, from: usize, pat: &[u8]) -> (res: Option<usize>)
    requires
        from <= s@.len(),
        pat@.len() > 0,
    ensures
        res matches Some(i) ==> i + pat@.len() <= s@.len(),
        res matches Some(i) ==> from <= i && find_pattern(s@.skip(from as int), pat@) == Some(
            (i - from) as nat,
        ),
        res is None ==> find_pattern(s@.skip(from as int), pat@) is None,
{
    let ghost t = s@.skip(from as int);
    let n = s.len();
    let m = pat.len();
    let mut i = from;
    while i < n && n - i >= m
        invariant
            from <= i <= n == s@.len(),
            m == pat@.len(),
            m > 0,
            t == s@.skip(from as int),
            forall|k: int| 0 <= k < i - from ==> !#[trigger] occurs_at(t, pat@, k),
        decreases n - i,
    {
        let mut j: usize = 0;
        while j < m && s[i + j] == pat[j]
            invariant
                j <= m,
                i + m <= n == s@.len(),
                m == pat@.len(),
                forall|k: int| 0 <= k < j ==> s@[i + k] == pat@[k],
            decreases m - j,
        {
            j = j + 1;
        }
        if j == m {
            proof {
                assert(t.subrange(i - from, i - from + m) =~= pat@);
                lemma_find_pattern_some(t, pat@, i - from);
            }
            return Some(i);
        }
        assert(t.subrange(i - from, i - from + m)[j as int] != pat@[j as int]);
        i = i + 1;
    }
    proof {
        assert forall|k: int| 0 <= k implies !#[trigger] occurs_at(t, pat@, k) by {
            if k >= i - from {
                assert(k + m > t.len());
            }
        }
        lemma_find_pattern_none(t, pat@);
    }
    None
}

/// Removes the first complete message from `buf` and returns it; the bytes
/// before it go with it. Leaves `buf` as it is when no message is complete.
pub fn take_next_frame(buf: &mut Vec<u8>) -> (frame: Option<Vec<u8>>)
    ensures
        match next_frame(old(buf)@) {
            Some((s, e)) => frame matches Some(f) && f@ == old(buf)@.subrange(s as int, e as int)
                && final(buf)@ == old(buf)@.skip(e as int),
            None => frame is None && final(buf)@ == old(buf)@,
        },
{
    let begin = [56u8, 61, 70, 73, 88];
    let checksum = [49u8, 48, 61];
    assert(begin@ == begin_string_marker());
    assert(checksum@ == checksum_marker());
    assert(buf@.skip(0) =~= buf@);
    let start = match find_pattern_from(buf, 0, begin.as_slice()) {
        Some(s) => s,
        None => {
            return None;
        },
    };
    let cs = match find_pattern_from(buf, start, checksum.as_slice()) {
        Some(c) => c,
        None => {
            return None;
        },
    };
    let n = buf.len();
    let mut e = cs + 3;
    while e < n && buf[e] != 1u8
        invariant
            cs + 3 <= e <= n == buf@.len(),
            forall|k: int| cs + 3 <= k < e ==> buf@[k] != 1u8,
        decreases n - e,
    {
        e = e + 1;
    }
    let ghost tail = buf@.skip(cs + 3);
    assert(buf@.skip(start as int).skip(cs - start + 3) =~= tail);
    if e == n {
        proof {
            lemma_find_first_none(tail, 1u8);
        }
        return None;
    }
    proof {
        lemma_find_first_some(tail, 1u8, e - (cs + 3));
    }
    let end = e + 1;
    let mut f: Vec<u8> = Vec::new();
    let mut k = start;
    while k < end
        invariant
            start <= k <= end <= n == buf@.len(),
            f@ == buf@.subrange(start as int, k as int),
        decreases end - k,
    {
        f.push(buf[k]);
        assert(f@ =~= buf@.subrange(start as int, k + 1));
        k = k + 1;
    }
    let mut rest: Vec<u8> = Vec::new();
    let mut r = end;
    while r < n
        invariant
            end <= r <= n == buf@.len(),
            rest@ == buf@.subrange(end as int, r as int),
        decreases n - r,
    {
        rest.push(buf[r]);
        assert(rest@ =~= buf@.subrange(end as int, r + 1));
        r = r + 1;
    }
    assert(rest@ =~= buf@.skip(end as int));
    *buf = rest;
    Some(f)
}

/// The name of a FIX message type, as the session log prints it.
pub open spec fn message_type_name(t: Seq<char>) -> Seq<char> {
    if t == seq!['A'] {
        seq!['L', 'o', 'g', 'o', 'n']
    } else if t == seq!['0'] {
        seq!['H', 'e', 'a', 'r', 't', 'b', 'e', 'a', 't']
    } else if t == seq!['1'] {
        seq!['T', 'e', 's', 't', 'R', 'e', 'q', 'u', 'e', 's', 't']
    } else if t == seq!['3'] {
        seq!['R', 'e', 'j', 'e', 'c', 't']
    } else if t == seq!['5'] {
        seq!['L', 'o', 'g', 'o', 'u', 't']
    } else if t == seq!['W'] {
        seq![
            'M', 'a', 'r', 'k', 'e', 't', 'D', 'a', 't', 'a', 'S', 'n', 'a', 'p', 's', 'h', 'o', 't',
        ]
    } else if t == seq!['X'] {
        seq![
            'M', 'a', 'r', 'k', 'e', 't', 'D', 'a', 't', 'a', 'I', 'n', 'c', 'r', 'e', 'm', 'e', 'n',
            't', 'a', 'l',
        ]
    } else if t == seq!['Y'] {
        seq![
            'M', 'a', 'r', 'k', 'e', 't', 'D', 'a', 't', 'a', 'R', 'e', 'q', 'u', 'e', 's', 't', 'R',
            'e', 'j', 'e', 'c', 't',
        ]
    } else {
        seq!['U', 'n', 'k', 'n', 'o', 'w', 'n']
    }
}

/// The name of the FIX message type `msg_type`.
pub fn fix_message_type_name(msg_type: &str) -> (name: &'static str)
    ensures
        name@ == message_type_name(msg_type@),
{
    proof {
        reveal_strlit("Logon");
        reveal_strlit("Heartbeat");
        reveal_strlit("TestRequest");
        reveal_strlit("Reject");
        reveal_strlit("Logout");
        reveal_strlit("MarketDataSnapshot");
        reveal_strlit("MarketDataIncremental");
        reveal_strlit("MarketDataRequestReject");
        reveal_strlit("Unknown");
    }
    if msg_type.unicode_len() != 1 {
        return "Unknown";
    }
    let c = msg_type.get_char(0);
    assert(msg_type@ =~= seq![c]);
    if c == 'A' {
        "Logon"
    } else if c == '0' {
        "Heartbeat"
    } else if c == '1' {
        "TestRequest"
    } else if c == '3' {
        "Reject"
    } else if c == '5' {
        "Logout"
    } else if c == 'W' {
        "MarketDataSnapshot"
    } else if c == 'X' {
        "MarketDataIncremental"
    } else if c == 'Y' {
        "MarketDataRequestReject"
    } else {
        "Unknown"
    }
}

} // verus!
