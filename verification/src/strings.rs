//! String helpers: verified character-level comparisons, and the few places
//! where the decoder leans on outside code (UTF-8 / UTF-16 decoding, base64,
//! and the fertilized-egg class-name pattern).

use vstd::prelude::*;
use vstd::string::StrSliceExecFns;
use vstd::utf8::{decode_utf8, valid_utf8};

verus! {

/// `p` is a prefix of `s`.
pub open spec fn spec_starts_with(s: Seq<char>, p: Seq<char>) -> bool {
    p.len() <= s.len() && s.subrange(0, p.len() as int) == p
}

/// `p` is a suffix of `s`.
pub open spec fn spec_ends_with(s: Seq<char>, p: Seq<char>) -> bool {
    p.len() <= s.len() && s.subrange(s.len() - p.len(), s.len() as int) == p
}

/// Character-for-character string equality.
pub fn str_eq(a: &str, b: &str) -> (r: bool)
    ensures
        r == (a@ == b@),
{
    let n = a.unicode_len();
    let m = b.unicode_len();
    if n != m {
        assert(a@ != b@);
        return false;
    }
    let mut i: usize = 0;
    while i < n
        invariant
            n == a@.len(),
            n == b@.len(),
            0 <= i <= n,
            forall|k: int| 0 <= k < i ==> a@[k] == b@[k],
        decreases n - i,
    {
        if a.get_char(i) != b.get_char(i) {
            assert(a@[i as int] != b@[i as int]);
            return false;
        }
        i = i + 1;
    }
    assert(a@ =~= b@);
    true
}

/// Does `s` start with `p`?
pub fn str_starts_with(s: &str, p: &str) -> (r: bool)
    ensures
        r == spec_starts_with(s@, p@),
{
    let n = s.unicode_len();
    let m = p.unicode_len();
    if m > n {
        return false;
    }
    let mut i: usize = 0;
    while i < m
        invariant
            n == s@.len(),
            m == p@.len(),
            m <= n,
            0 <= i <= m,
            forall|k: int| 0 <= k < i ==> s@[k] == p@[k],
        decreases m - i,
    {
        if s.get_char(i) != p.get_char(i) {
            assert(s@.subrange(0, p@.len() as int)[i as int] != p@[i as int]);
            return false;
        }
        i = i + 1;
    }
    assert(s@.subrange(0, p@.len() as int) =~= p@);
    true
}

/// Does `s` end with `p`?
pub fn str_ends_with(s: &str, p: &str) -> (r: bool)
    ensures
        r == spec_ends_with(s@, p@),
{
    let n = s.unicode_len();
    let m = p.unicode_len();
    if m > n {
        return false;
    }
    let off = n - m;
    let mut i: usize = 0;
    while i < m
        invariant
            n == s@.len(),
            m == p@.len(),
            m <= n,
            off == n - m,
            0 <= i <= m,
            forall|k: int| 0 <= k < i ==> s@[off + k] == p@[k],
        decreases m - i,
    {
        if s.get_char(off + i) != p.get_char(i) {
            assert(s@.subrange(s@.len() - p@.len(), s@.len() as int)[i as int] != p@[i as int]);
            return false;
        }
        i = i + 1;
    }
    assert(s@.subrange(s@.len() - p@.len(), s@.len() as int) =~= p@);
    true
}

/// Turn UTF-8 bytes into a string.
///
/// Relies on `String::from_utf8`: it succeeds exactly on valid UTF-8 input
/// and returns the string whose encoding is that input.
#[verifier::external_body]
pub fn utf8_string(bytes: Vec<u8>) -> (r: Option<String>)
    ensures
        match r {
            Some(s) => valid_utf8(bytes@) && s@ == decode_utf8(bytes@),
            None => !valid_utf8(bytes@),
        },
{
    match String::from_utf8(bytes) {
        Ok(s) => Some(s),
        Err(_) => None,
    }
}

/// What UTF-16 decoding yields on a sequence of code units, when it succeeds:
/// a function of the code units alone.
pub uninterp spec fn utf16_decode_of(words: Seq<u16>) -> Option<Seq<char>>;

/// Turn UTF-16 code units into a string.
///
/// Relies on `String::from_utf16`: the outcome depends on the code units
/// alone.
#[verifier::external_body]
pub fn utf16_string(words: &Vec<u16>) -> (r: Option<String>)
    ensures
        match r {
            Some(s) => utf16_decode_of(words@) == Some(s@),
            None => utf16_decode_of(words@) is None,
        },
{
    match String::from_utf16(words.as_slice()) {
        Ok(s) => Some(s),
        Err(_) => None,
    }
}

/// What base64 decoding yields, when it succeeds: a function of the input
/// bytes alone.
pub uninterp spec fn base64_decode_of(input: Seq<u8>) -> Option<Seq<u8>>;

/// Decode a base64 payload.
///
/// Relies on `base64::decode` (the standard alphabet, with padding): the
/// outcome depends on the input bytes alone.
#[verifier::external_body]
pub fn base64_decode(input: &Vec<u8>) -> (r: Option<Vec<u8>>)
    ensures
        match r {
            Some(v) => base64_decode_of(input@) == Some(v@),
            None => base64_decode_of(input@) is None,
        },
{
    match base64::decode(input.as_slice()) {
        Ok(v) => Some(v),
        Err(_) => None,
    }
}

/// Does `s` contain `Egg` followed — with no newline in between — by a later
/// `Fertilized`? This is what the pattern `Egg.*Fertilized` accepts.
pub open spec fn egg_fertilized_match(s: Seq<char>) -> bool {
    exists|i: int, j: int|
        #![trigger s.subrange(i, i + 3), s.subrange(j, j + 10)]
        0 <= i && i + 3 <= j && j + 10 <= s.len() && s.subrange(i, i + 3) =~= seq!['E', 'g', 'g']
            && s.subrange(j, j + 10) =~= seq!['F', 'e', 'r', 't', 'i', 'l', 'i', 'z', 'e', 'd'] && (
        forall|k: int| i + 3 <= k < j ==> s[k] != '\n')
}

/// Test a class name against the fertilized-egg pattern.
///
/// Relies on `regex::Regex::is_match` with the pattern `Egg.*Fertilized`:
/// true exactly when the name holds `Egg` followed by `Fertilized` with no
/// newline between them (`.` does not cross newlines).
#[verifier::external_body]
pub fn egg_class_match(s: &str) -> (r: bool)
    ensures
        r == egg_fertilized_match(s@),
{
    regex::Regex::new("Egg.*Fertilized").unwrap().is_match(s)
}

} // verus!
