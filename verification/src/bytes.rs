//! Byte-sequence utilities shared by the marker guard and the backup
//! merge engine: substring search, equality, and appending.

use vstd::prelude::*;

verus! {

pub const HASH: u8 = 35;

/// `pat` occurs somewhere in `text` as a contiguous run of bytes.
pub open spec fn has_substring(text: Seq<u8>, pat: Seq<u8>) -> bool {
    exists|i: int|
        0 <= i && i + pat.len() <= text.len() && #[trigger] text.subrange(
            i,
            i + pat.len(),
        ) == pat
}

/// `pat` occurs at position `i` of `text`.
pub(crate) fn matches_at(text: &[u8], pat: &[u8], i: usize) -> (r: bool)
    requires
        i + pat@.len() <= text@.len(),
    ensures
        r == (text@.subrange(i as int, i + pat@.len()) == pat@),
{
    let n = text.len();
    let mut j: usize = 0;
    while j < pat.len()
        invariant
            n == text@.len(),
            i + pat@.len() <= n,
            j <= pat@.len(),
            forall|k: int| 0 <= k < j ==> text@[i + k] == pat@[k],
        decreases pat@.len() - j,
    {
        if text[i + j] != pat[j] {
            assert(text@.subrange(i as int, i + pat@.len())[j as int] != pat@[j as int]);
            return false;
        }
        j += 1;
    }
    assert(text@.subrange(i as int, i + pat@.len()) =~= pat@);
    true
}

/// Byte-level substring search.
pub fn contains_bytes(text: &[u8], pat: &[u8]) -> (r: bool)
    ensures
        r == has_substring(text@, pat@),
{
    if pat.len() > text.len() {
        return false;
    }
    let bound = text.len() - pat.len();
    let mut i: usize = 0;
    while i < bound
        invariant
            pat@.len() <= text@.len(),
            bound == text@.len() - pat@.len(),
            i <= bound,
            forall|k: int| 0 <= k < i ==> #[trigger] text@.subrange(k, k + pat@.len()) != pat@,
        decreases bound - i,
    {
        if matches_at(text, pat, i) {
            return true;
        }
        i += 1;
    }
    if matches_at(text, pat, bound) {
        return true;
    }
    false
}

/// Byte-for-byte equality of two slices.
pub fn bytes_eq(a: &[u8], b: &[u8]) -> (r: bool)
    ensures
        r == (a@ == b@),
{
    if a.len() != b.len() {
        return false;
    }
    let r = matches_at(a, b, 0);
    assert(a@.subrange(0, a@.len() as int) =~= a@);
    r
}

/// `s` begins with `prefix`.
pub open spec fn starts_with(s: Seq<u8>, prefix: Seq<u8>) -> bool {
    s.len() >= prefix.len() && s.subrange(0, prefix.len() as int) == prefix
}

/// Decides whether `s` begins with `prefix`.
pub fn starts_with_bytes(s: &[u8], prefix: &[u8]) -> (r: bool)
    ensures
        r == starts_with(s@, prefix@),
{
    if s.len() < prefix.len() {
        return false;
    }
    matches_at(s, prefix, 0)
}

/// A byte of ASCII whitespace.
pub open spec fn is_ascii_blank(b: u8) -> bool {
    b == 32 || b == 9 || b == 10 || b == 13 || b == 11 || b == 12
}

/// `s` without its leading whitespace bytes.
pub open spec fn trim_start_blank(s: Seq<u8>) -> Seq<u8>
    decreases s.len(),
{
    if s.len() > 0 && is_ascii_blank(s[0]) {
        trim_start_blank(s.drop_first())
    } else {
        s
    }
}

/// `s` without its trailing whitespace bytes.
pub open spec fn trim_end_blank(s: Seq<u8>) -> Seq<u8>
    decreases s.len(),
{
    if s.len() > 0 && is_ascii_blank(s.last()) {
        trim_end_blank(s.drop_last())
    } else {
        s
    }
}

/// `s` without leading or trailing whitespace bytes.
pub open spec fn trim_blank(s: Seq<u8>) -> Seq<u8> {
    trim_end_blank(trim_start_blank(s))
}

/// The position where the trimmed-from-the-left rest of `s` begins.
fn trim_start_index(s: &[u8]) -> (lo: usize)
    ensures
        lo <= s@.len(),
        s@.skip(lo as int) == trim_start_blank(s@),
{
    let n: usize = s.len();
    let mut i: usize = 0;
    assert(s@.skip(0) =~= s@);
    while i < n && (s[i] == 32 || s[i] == 9 || s[i] == 10 || s[i] == 13 || s[i] == 11 || s[i]
        == 12)
        invariant
            n == s@.len(),
            i <= n,
            trim_start_blank(s@) == trim_start_blank(s@.skip(i as int)),
        decreases n - i,
    {
        assert(s@.skip(i as int)[0] == s@[i as int]);
        assert(s@.skip(i as int).drop_first() =~= s@.skip(i + 1));
        i += 1;
    }
    proof {
        if i < n {
            assert(s@.skip(i as int)[0] == s@[i as int]);
        }
    }
    i
}

/// The position just past the trimmed-from-the-right rest of `s`.
fn trim_end_index(s: &[u8]) -> (hi: usize)
    ensures
        hi <= s@.len(),
        s@.subrange(0, hi as int) == trim_end_blank(s@),
{
    let mut i: usize = s.len();
    assert(s@.subrange(0, s@.len() as int) =~= s@);
    while i > 0 && (s[i - 1] == 32 || s[i - 1] == 9 || s[i - 1] == 10 || s[i - 1] == 13 || s[i - 1]
        == 11 || s[i - 1] == 12)
        invariant
            i <= s@.len(),
            trim_end_blank(s@) == trim_end_blank(s@.subrange(0, i as int)),
        decreases i,
    {
        assert(s@.subrange(0, i as int).last() == s@[i - 1]);
        assert(s@.subrange(0, i as int).drop_last() =~= s@.subrange(0, i - 1));
        i -= 1;
    }
    proof {
        if i > 0 {
            assert(s@.subrange(0, i as int).last() == s@[i - 1]);
        }
    }
    i
}

/// `s` with leading and trailing ASCII whitespace removed.
pub fn trim_blank_slice(s: &[u8]) -> (r: &[u8])
    ensures
        r@ == trim_blank(s@),
{
    let lo = trim_start_index(s);
    let rest: &[u8] = &s[lo..s.len()];
    let hi = trim_end_index(rest);
    &rest[0..hi]
}

/// `s` without its leading run of `b` bytes.
pub open spec fn trim_start_byte(s: Seq<u8>, b: u8) -> Seq<u8>
    decreases s.len(),
{
    if s.len() > 0 && s[0] == b {
        trim_start_byte(s.drop_first(), b)
    } else {
        s
    }
}

/// `s` without its trailing run of `b` bytes.
pub open spec fn trim_end_byte(s: Seq<u8>, b: u8) -> Seq<u8>
    decreases s.len(),
{
    if s.len() > 0 && s.last() == b {
        trim_end_byte(s.drop_last(), b)
    } else {
        s
    }
}

/// `s` without leading or trailing runs of `b` bytes.
pub open spec fn trim_byte(s: Seq<u8>, b: u8) -> Seq<u8> {
    trim_end_byte(trim_start_byte(s, b), b)
}

/// `s` with leading and trailing runs of `b` removed.
pub fn trim_byte_slice(s: &[u8], b: u8) -> (r: &[u8])
    ensures
        r@ == trim_byte(s@, b),
{
    let n: usize = s.len();
    let mut lo: usize = 0;
    assert(s@.skip(0) =~= s@);
    while lo < n && s[lo] == b
        invariant
            n == s@.len(),
            lo <= n,
            trim_start_byte(s@, b) == trim_start_byte(s@.skip(lo as int), b),
        decreases n - lo,
    {
        assert(s@.skip(lo as int)[0] == s@[lo as int]);
        assert(s@.skip(lo as int).drop_first() =~= s@.skip(lo + 1));
        lo += 1;
    }
    proof {
        if lo < n {
            assert(s@.skip(lo as int)[0] == s@[lo as int]);
        }
    }
    let rest: &[u8] = &s[lo..n];
    assert(rest@ == trim_start_byte(s@, b));
    let m: usize = rest.len();
    let mut hi: usize = m;
    assert(rest@.subrange(0, m as int) =~= rest@);
    while hi > 0 && rest[hi - 1] == b
        invariant
            m == rest@.len(),
            hi <= m,
            trim_end_byte(rest@, b) == trim_end_byte(rest@.subrange(0, hi as int), b),
        decreases hi,
    {
        assert(rest@.subrange(0, hi as int).last() == rest@[hi - 1]);
        assert(rest@.subrange(0, hi as int).drop_last() =~= rest@.subrange(0, hi - 1));
        hi -= 1;
    }
    proof {
        if hi > 0 {
            assert(rest@.subrange(0, hi as int).last() == rest@[hi - 1]);
        }
    }
    &rest[0..hi]
}

/// A fresh vector holding the bytes of `s`.
pub fn to_vec_bytes(s: &[u8]) -> (r: Vec<u8>)
    ensures
        r@ == s@,
{
    let mut r: Vec<u8> = Vec::new();
    push_bytes(&mut r, s);
    assert(r@ =~= s@);
    r
}

/// Appends all of `src` onto `dst`.
pub fn push_bytes(dst: &mut Vec<u8>, src: &[u8])
    ensures
        final(dst)@ == old(dst)@ + src@,
{
    let n: usize = src.len();
    let mut j: usize = 0;
    assert(old(dst)@ + src@.subrange(0, 0) =~= old(dst)@);
    while j < n
        invariant
            n == src@.len(),
            j <= n,
            dst@ == old(dst)@ + src@.subrange(0, j as int),
        decreases n - j,
    {
        dst.push(src[j]);
        assert(dst@ =~= old(dst)@ + src@.subrange(0, j + 1));
        j += 1;
    }
    assert(src@.subrange(0, n as int) =~= src@);
}

} // verus!
