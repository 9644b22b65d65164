//! Small text helpers shared by the analysis and the synthesis.

use vstd::prelude::*;
use vstd::string::*;

verus! {

/// The letters that count as vowels. Everything else, upper case letters and
/// punctuation included, counts as a consonant.
pub open spec fn is_vowel(c: char) -> bool {
    c == 'a' || c == 'e' || c == 'i' || c == 'o' || c == 'u'
}

/// Executable form of [`is_vowel`].
pub fn vowel(c: char) -> (b: bool)
    ensures
        b == is_vowel(c),
{
    c == 'a' || c == 'e' || c == 'i' || c == 'o' || c == 'u'
}

/// The upper-case expansion of one character, as the standard library's
/// Unicode tables give it. It may be longer than one character.
pub uninterp spec fn uppercase_of(c: char) -> Seq<char>;

/// Calls `char::to_uppercase` and collects what it yields. The contract only
/// names the result: it is the expansion of `c`, a function of `c` alone.
#[verifier::external_body]
fn to_upper(c: char) -> (r: String)
    ensures
        r@ == uppercase_of(c),
{
    c.to_uppercase().collect::<String>()
}

/// A text with its first character replaced by `head`; the empty text
/// stays empty.
pub open spec fn with_head(head: Seq<char>, s: Seq<char>) -> Seq<char> {
    if s.len() == 0 {
        s
    } else {
        head + s.subrange(1, s.len() as int)
    }
}

/// Replaces the first character of `s` by `head`.
pub fn replace_head(head: &str, s: &str) -> (r: String)
    ensures
        r@ == with_head(head@, s@),
{
    let n = s.unicode_len();
    if n == 0 {
        let r = String::new();
        assert(r@ =~= s@);
        r
    } else {
        String::from_str(head).concat(s.substring_char(1, n))
    }
}

/// A text with its first character replaced by that character's upper-case
/// expansion; the empty text stays empty.
pub open spec fn capitalized(s: Seq<char>) -> Seq<char> {
    if s.len() == 0 {
        s
    } else {
        with_head(uppercase_of(s[0]), s)
    }
}

/// Capitalizes the first character of `s`.
pub fn capitalize(s: &str) -> (r: String)
    ensures
        r@ == capitalized(s@),
{
    if s.unicode_len() == 0 {
        replace_head("", s)
    } else {
        let head = to_upper(s.get_char(0));
        replace_head(head.as_str(), s)
    }
}

/// Whether a text begins with a consonant. The empty text does not.
pub open spec fn begins_closed(s: Seq<char>) -> bool {
    s.len() > 0 && !is_vowel(s[0])
}

/// Whether a text ends with a consonant. The empty text does not.
pub open spec fn ends_closed(s: Seq<char>) -> bool {
    s.len() > 0 && !is_vowel(s[s.len() - 1])
}

/// Whether `s` begins with a consonant.
pub fn starts_with_consonant(s: &str) -> (b: bool)
    ensures
        b == begins_closed(s@),
{
    let n = s.unicode_len();
    if n == 0 {
        false
    } else {
        !vowel(s.get_char(0))
    }
}

/// Whether `s` ends with a consonant.
pub fn ends_with_consonant(s: &str) -> (b: bool)
    ensures
        b == ends_closed(s@),
{
    let n = s.unicode_len();
    if n == 0 {
        false
    } else {
        !vowel(s.get_char(n - 1))
    }
}

/// Whether two texts are the same.
pub fn same_text(a: &str, b: &str) -> (r: bool)
    ensures
        r == (a@ == b@),
{
    let n = a.unicode_len();
    if n != b.unicode_len() {
        return false;
    }
    let mut i: usize = 0;
    while i < n
        invariant
            i <= n,
            n == a@.len(),
            n == b@.len(),
            forall|j: int| 0 <= j < i ==> a@[j] == b@[j],
        decreases n - i,
    {
        if a.get_char(i) != b.get_char(i) {
            return false;
        }
        i += 1;
    }
    assert(a@ =~= b@);
    true
}

} // verus!
