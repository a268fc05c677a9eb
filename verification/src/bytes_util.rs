//! Byte-sequence helpers: equality, prefix, suffix and substring tests.

use vstd::prelude::*;
use vstd::string::StringSliceAdditionalSpecFns;

verus! {

/// `bytes` occurs in `buf` starting exactly at position `start`.
pub open spec fn match_at(buf: Seq<u8>, bytes: Seq<u8>, start: int) -> bool {
    &&& 0 <= start
    &&& start + bytes.len() <= buf.len()
    &&& buf.subrange(start, start + bytes.len() as int) == bytes
}

/// `pat` is a byte prefix of `s`.
pub open spec fn is_prefix(s: Seq<u8>, pat: Seq<u8>) -> bool {
    match_at(s, pat, 0)
}

/// `pat` is a byte suffix of `s`.
pub open spec fn is_suffix(s: Seq<u8>, pat: Seq<u8>) -> bool {
    match_at(s, pat, s.len() - pat.len())
}

/// `pat` occurs somewhere in `s`.
pub open spec fn is_substring(s: Seq<u8>, pat: Seq<u8>) -> bool {
    exists|start: int| match_at(s, pat, start)
}

/// Exact byte equality of two slices.
pub fn bytes_eq(a: &[u8], b: &[u8]) -> (r: bool)
    ensures
        r == (a@ == b@),
{
    if a.len() != b.len() {
        proof {
            assert(a@.len() != b@.len());
        }
        return false;
    }
    let mut i: usize = 0;
    while i < a.len()
        invariant
            i <= a.len(),
            a.len() == b.len(),
            forall|k: int| 0 <= k < i ==> a@[k] == b@[k],
        decreases a.len() - i,
    {
        if a[i] != b[i] {
            return false;
        }
        i += 1;
    }
    proof {
        assert(a@ =~= b@);
    }
    true
}

/// Whether `pat` occurs in `s` starting at `start`.
pub fn matches_at(s: &[u8], pat: &[u8], start: usize) -> (r: bool)
    requires
        start + pat@.len() <= s@.len(),
    ensures
        r == match_at(s@, pat@, start as int),
{
    let n = s.len();
    let m = pat.len();
    let mut j: usize = 0;
    while j < m
        invariant
            j <= m,
            n == s@.len(),
            m == pat@.len(),
            start + pat@.len() <= s@.len(),
            forall|k: int| 0 <= k < j ==> s@[start + k] == pat@[k],
        decreases m - j,
    {
        if s[start + j] != pat[j] {
            proof {
                assert(s@.subrange(start as int, start + pat@.len())[j as int] != pat@[j as int]);
            }
            return false;
        }
        j += 1;
    }
    proof {
        assert(s@.subrange(start as int, start + pat@.len()) =~= pat@);
    }
    true
}

/// Byte-prefix test.
pub fn starts_with_bytes(s: &[u8], pat: &[u8]) -> (r: bool)
    ensures
        r == is_prefix(s@, pat@),
{
    if pat.len() > s.len() {
        return false;
    }
    matches_at(s, pat, 0)
}

/// Byte-suffix test.
pub fn ends_with_bytes(s: &[u8], pat: &[u8]) -> (r: bool)
    ensures
        r == is_suffix(s@, pat@),
{
    if pat.len() > s.len() {
        return false;
    }
    matches_at(s, pat, s.len() - pat.len())
}

/// Byte-substring test.
pub fn contains_bytes(s: &[u8], pat: &[u8]) -> (r: bool)
    ensures
        r == is_substring(s@, pat@),
{
    if pat.len() == 0 {
        proof {
            assert(s@.subrange(0, 0) =~= pat@);
            assert(match_at(s@, pat@, 0));
        }
        return true;
    }
    if pat.len() > s.len() {
        proof {
            assert(forall|start: int| !match_at(s@, pat@, start));
        }
        return false;
    }
    let last = s.len() - pat.len();
    let mut start: usize = 0;
    while start <= last
        invariant
            1 <= pat@.len() <= s@.len(),
            last == s@.len() - pat@.len(),
            s@.len() <= usize::MAX,
            start <= last + 1,
            forall|k: int| 0 <= k < start ==> !match_at(s@, pat@, k),
        decreases last + 1 - start,
    {
        if matches_at(s, pat, start) {
            return true;
        }
        start += 1;
    }
    proof {
        assert(forall|k: int| match_at(s@, pat@, k) ==> 0 <= k <= s@.len() - pat@.len());
    }
    false
}

/// Exact equality of two string slices, decided on their UTF-8 bytes.
pub fn str_eq(a: &str, b: &str) -> (r: bool)
    ensures
        r == (a@ == b@),
{
    let r = bytes_eq(a.as_bytes(), b.as_bytes());
    proof {
        if a.spec_bytes() == b.spec_bytes() {
            vstd::utf8::encode_utf8_decode_utf8(a@);
            vstd::utf8::encode_utf8_decode_utf8(b@);
        }
    }
    r
}

/// Exact equality of a string slice and an owned string.
pub fn str_eq_string(a: &String, b: &str) -> (r: bool)
    ensures
        r == (a@ == b@),
{
    str_eq(a.as_str(), b)
}

} // verus!
