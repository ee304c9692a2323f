//! Searching and comparing the bytes of strings.

use vstd::prelude::*;
use vstd::string::StringSliceAdditionalSpecFns;

verus! {

/// Whether `needle` occurs in `hay` at offset `i`.
pub open spec fn occurs_at(hay: Seq<u8>, needle: Seq<u8>, i: int) -> bool {
    0 <= i && i + needle.len() <= hay.len() && hay.subrange(i, i + needle.len()) == needle
}

/// Whether `needle` occurs somewhere in `hay`.
pub open spec fn has_sub(hay: Seq<u8>, needle: Seq<u8>) -> bool {
    exists|i: int| occurs_at(hay, needle, i)
}

/// The lower-case form of an ASCII capital; any other byte itself.
pub open spec fn spec_ascii_lower(b: u8) -> u8 {
    if 0x41 <= b <= 0x5A {
        (b + 0x20) as u8
    } else {
        b
    }
}

/// Whether `s` ends with `suffix` when ASCII capitals in `s` count as
/// their lower-case forms.
pub open spec fn ends_with_lowered(s: Seq<u8>, suffix: Seq<u8>) -> bool {
    &&& suffix.len() <= s.len()
    &&& forall|k: int|
        0 <= k < suffix.len() ==> spec_ascii_lower(#[trigger] s[s.len() - suffix.len() + k])
            == suffix[k]
}

/// Whether `s` is `word` when ASCII capitals in `s` count as their
/// lower-case forms.
pub open spec fn equals_lowered(s: Seq<u8>, word: Seq<u8>) -> bool {
    s.len() == word.len() && ends_with_lowered(s, word)
}

pub fn ascii_lower(b: u8) -> (r: u8)
    ensures
        r == spec_ascii_lower(b),
{
    if 0x41 <= b && b <= 0x5A {
        b + 0x20
    } else {
        b
    }
}

/// Whether `needle` occurs in `hay` at offset `i`.
fn matches_at(hay: &[u8], needle: &[u8], i: usize) -> (r: bool)
    requires
        i + needle@.len() <= hay@.len(),
    ensures
        r == occurs_at(hay@, needle@, i as int),
{
    let n: usize = needle.len();
    let h: usize = hay.len();
    let mut k: usize = 0;
    while k < n
        invariant
            n == needle@.len(),
            h == hay@.len(),
            i + n <= hay@.len(),
            k <= n,
            forall|j: int| 0 <= j < k ==> hay@[i + j] == needle@[j],
        decreases n - k,
    {
        if hay[i + k] != needle[k] {
            proof {
                assert(hay@.subrange(i as int, i + n)[k as int] == hay@[i + k]);
            }
            return false;
        }
        k += 1;
    }
    proof {
        assert(hay@.subrange(i as int, i + n) =~= needle@);
    }
    true
}

/// Whether `needle` occurs somewhere in `hay`.
pub fn contains_bytes(hay: &[u8], needle: &[u8]) -> (r: bool)
    ensures
        r == has_sub(hay@, needle@),
{
    let h: usize = hay.len();
    let n: usize = needle.len();
    if n > h {
        return false;
    }
    let mut i: usize = 0;
    while i < h - n
        invariant
            h == hay@.len(),
            n == needle@.len(),
            n <= h,
            i <= h - n,
            forall|j: int| 0 <= j < i ==> !occurs_at(hay@, needle@, j),
        decreases h - n - i,
    {
        if matches_at(hay, needle, i) {
            return true;
        }
        i += 1;
    }
    matches_at(hay, needle, i)
}

/// Whether the text `hay` holds the text `needle`.
pub fn contains_str(hay: &str, needle: &str) -> (r: bool)
    ensures
        r == has_sub(hay.spec_bytes(), needle.spec_bytes()),
{
    contains_bytes(hay.as_bytes(), needle.as_bytes())
}

/// Whether `s` ends with `suffix` when ASCII capitals in `s` count as
/// their lower-case forms.
pub fn ends_with_ignore_case(s: &[u8], suffix: &[u8]) -> (r: bool)
    ensures
        r == ends_with_lowered(s@, suffix@),
{
    let n: usize = suffix.len();
    let len: usize = s.len();
    if n > len {
        return false;
    }
    let start: usize = len - n;
    let mut k: usize = 0;
    while k < n
        invariant
            n == suffix@.len(),
            len == s@.len(),
            start == len - n,
            k <= n,
            forall|j: int| 0 <= j < k ==> spec_ascii_lower(#[trigger] s@[start + j]) == suffix@[j],
        decreases n - k,
    {
        if ascii_lower(s[start + k]) != suffix[k] {
            return false;
        }
        k += 1;
    }
    true
}

/// Whether `s` is `word` when ASCII capitals in `s` count as their
/// lower-case forms.
pub fn equals_ignore_case(s: &[u8], word: &[u8]) -> (r: bool)
    ensures
        r == equals_lowered(s@, word@),
{
    s.len() == word.len() && ends_with_ignore_case(s, word)
}

/// Whether `code` is a Unicode scalar value.
pub open spec fn is_char_code(code: u32) -> bool {
    code <= 0xD7FF || (0xE000 <= code <= 0x10FFFF)
}

/// Calls `char::from_u32`: the character with the given code, or `None`
/// where the number is a surrogate or lies beyond the last code point.
#[verifier::external_body]
pub(crate) fn char_from_u32(code: u32) -> (r: Option<char>)
    ensures
        r == if is_char_code(code) {
            Some(code as char)
        } else {
            None
        },
{
    char::from_u32(code)
}

/// What `str::to_lowercase` makes of a text.
pub uninterp spec fn lowercase_of(s: Seq<char>) -> Seq<char>;

/// Calls `str::to_lowercase`. The contract claims that the result depends
/// on the text alone; it says nothing of what it is.
#[verifier::external_body]
pub(crate) fn to_lowercase(s: &str) -> (r: String)
    ensures
        r@ == lowercase_of(s@),
{
    s.to_lowercase()
}

} // verus!
