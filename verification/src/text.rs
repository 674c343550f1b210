//! Character and string primitives shared by the rest of the library.
//!
//! Case mapping of non-ASCII characters and the Unicode `Alphabetic`
//! property come from the standard library; everything else is computed here.
use vstd::prelude::*;

verus! {

/// The first character of the full Unicode lowercase mapping of `c`
/// (as given by `char::to_lowercase`), or `c` itself when the mapping is empty.
pub uninterp spec fn unicode_lower_first(c: char) -> char;

/// The first character of the full Unicode uppercase mapping of `c`
/// (as given by `char::to_uppercase`), or `c` itself when the mapping is empty.
pub uninterp spec fn unicode_upper_first(c: char) -> char;

/// Whether `c` has the Unicode `Alphabetic` property (`char::is_alphabetic`).
pub uninterp spec fn unicode_alphabetic(c: char) -> bool;

/// The lowercase form of a whole string as `str::to_lowercase` computes it.
pub uninterp spec fn unicode_lower_str(s: Seq<char>) -> Seq<char>;

/// Calls `char::to_lowercase` and keeps the first character of the mapping.
/// The contract only ties the result to `c` through `unicode_lower_first`:
/// the Unicode case tables themselves are not restated.
#[verifier::external_body]
pub(crate) fn std_lower_first(c: char) -> (r: char)
    ensures
        r == unicode_lower_first(c),
{
    c.to_lowercase().next().unwrap_or(c)
}

/// Calls `char::to_uppercase` and keeps the first character of the mapping.
/// The contract only ties the result to `c` through `unicode_upper_first`.
#[verifier::external_body]
pub(crate) fn std_upper_first(c: char) -> (r: char)
    ensures
        r == unicode_upper_first(c),
{
    c.to_uppercase().next().unwrap_or(c)
}

/// Calls `char::is_alphabetic`; the result is named, not restated.
#[verifier::external_body]
pub(crate) fn std_is_alphabetic(c: char) -> (r: bool)
    ensures
        r == unicode_alphabetic(c),
{
    c.is_alphabetic()
}

/// Calls `str::to_lowercase`; the result is named, not restated.
#[verifier::external_body]
pub(crate) fn std_str_to_lowercase(s: &str) -> (r: String)
    ensures
        r@ == unicode_lower_str(s@),
{
    s.to_lowercase()
}

/// Calls `String::push`, which appends one character at the end.
#[verifier::external_body]
pub(crate) fn string_push(s: &mut String, c: char)
    ensures
        final(s)@ == old(s)@.push(c),
{
    s.push(c)
}

/// Whether `c` is an ASCII character (code point below 128).
pub open spec fn is_ascii_char(c: char) -> bool {
    (c as u32) < 128
}

pub open spec fn spec_ascii_lower(c: char) -> char {
    if 'A' <= c && c <= 'Z' {
        ((c as u32) + 32) as char
    } else {
        c
    }
}

pub open spec fn spec_ascii_upper(c: char) -> char {
    if 'a' <= c && c <= 'z' {
        ((c as u32) - 32) as char
    } else {
        c
    }
}

/// ASCII-only lowercase (`char::to_ascii_lowercase`).
pub fn ascii_lower(c: char) -> (r: char)
    ensures
        r == spec_ascii_lower(c),
{
    if 'A' <= c && c <= 'Z' {
        let v: u32 = (c as u32) + 32;
        let b: u8 = v as u8;
        b as char
    } else {
        c
    }
}

/// ASCII-only uppercase (`char::to_ascii_uppercase`).
pub fn ascii_upper(c: char) -> (r: char)
    ensures
        r == spec_ascii_upper(c),
{
    if 'a' <= c && c <= 'z' {
        let v: u32 = (c as u32) - 32;
        let b: u8 = v as u8;
        b as char
    } else {
        c
    }
}

pub fn is_ascii(c: char) -> (r: bool)
    ensures
        r == is_ascii_char(c),
{
    (c as u32) < 128
}

/// The characters of a string, in order.
pub fn str_chars(s: &str) -> (r: Vec<char>)
    ensures
        r@ == s@,
{
    let mut out: Vec<char> = Vec::new();
    for c in it: s.chars()
        invariant
            out@ == it.seq().take(it.index() as int),
            it.seq() == s@,
    {
        out.push(c);
    }
    assert(out@ =~= s@);
    out
}

/// Character-wise equality of two strings.
pub fn str_eq(a: &str, b: &str) -> (r: bool)
    ensures
        r == (a@ == b@),
{
    let x = str_chars(a);
    let y = str_chars(b);
    chars_eq(x.as_slice(), y.as_slice())
}

/// Equality of two character slices.
pub fn chars_eq(a: &[char], b: &[char]) -> (r: bool)
    ensures
        r == (a@ == b@),
{
    if a.len() != b.len() {
        return false;
    }
    let mut i: usize = 0;
    while i < a.len()
        invariant
            a@.len() == b@.len(),
            i <= a@.len(),
            forall|j: int| 0 <= j < i ==> a@[j] == b@[j],
        decreases a@.len() - i,
    {
        if a[i] != b[i] {
            return false;
        }
        i = i + 1;
    }
    assert(a@ =~= b@);
    true
}

/// Builds a `String` holding exactly the given characters.
pub fn string_from_chars(cs: &[char]) -> (r: String)
    ensures
        r@ == cs@,
{
    let mut out = String::new();
    let mut i: usize = 0;
    while i < cs.len()
        invariant
            i <= cs@.len(),
            out@ == cs@.take(i as int),
        decreases cs@.len() - i,
    {
        string_push(&mut out, cs[i]);
        assert(cs@.take(i + 1) =~= cs@.take(i as int).push(cs@[i as int]));
        i = i + 1;
    }
    assert(cs@.take(cs@.len() as int) =~= cs@);
    out
}

} // verus!
