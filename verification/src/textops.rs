//! Character and string primitives.
//!
//! The named spec functions here stand for what the corresponding Unicode
//! routines return; each is a function of its arguments alone. Everything
//! else in the library is specified and proved in terms of these names.

use vstd::prelude::*;
use vstd::string::StrSliceExecFns;

use unicode_segmentation::UnicodeSegmentation;

verus! {

/// Convert a string to the vector of its characters.
pub fn to_chars(s: &str) -> (r: Vec<char>)
    ensures
        r@ == s@,
{
    let n = s.unicode_len();
    let mut r: Vec<char> = Vec::new();
    let mut i: usize = 0;
    while i < n
        invariant
            n == s@.len(),
            0 <= i <= n,
            r@ =~= s@.take(i as int),
        decreases n - i,
    {
        let c = s.get_char(i);
        r.push(c);
        proof {
            assert(r@ =~= s@.take(i + 1));
        }
        i = i + 1;
    }
    proof {
        assert(s@.take(n as int) =~= s@);
    }
    r
}

/// Relies on std's `FromIterator<char>` for `String`: collecting characters
/// yields the string of exactly those characters.
#[verifier::external_body]
pub fn string_from_chars(v: &Vec<char>) -> (r: String)
    ensures
        r@ == v@,
{
    v.iter().collect()
}

/// Whether a character has the Unicode whitespace property.
pub uninterp spec fn white_char(c: char) -> bool;

/// Relies on char::is_whitespace: the Unicode whitespace property of the
/// character.
#[verifier::external_body]
pub fn is_whitespace_char(c: char) -> (r: bool)
    ensures
        r == white_char(c),
{
    c.is_whitespace()
}

/// Whether a character is uppercase per Unicode.
pub uninterp spec fn upper_char(c: char) -> bool;

/// Relies on char::is_uppercase: the Unicode uppercase property of the
/// character.
#[verifier::external_body]
pub fn is_uppercase_char(c: char) -> (r: bool)
    ensures
        r == upper_char(c),
{
    c.is_uppercase()
}

/// Whether a character is alphanumeric per Unicode.
pub uninterp spec fn alnum_char(c: char) -> bool;

/// Relies on char::is_alphanumeric: the Unicode alphanumeric property of the
/// character.
#[verifier::external_body]
pub fn is_alphanumeric_char(c: char) -> (r: bool)
    ensures
        r == alnum_char(c),
{
    c.is_alphanumeric()
}

/// The Unicode lowercasing of a character sequence.
pub uninterp spec fn lower_of(s: Seq<char>) -> Seq<char>;

/// Relies on str::to_lowercase: the lowercased text is a function of the
/// characters alone, and an empty text stays empty.
#[verifier::external_body]
pub fn to_lowercase_str(s: &str) -> (r: String)
    ensures
        r@ == lower_of(s@),
        s@.len() == 0 ==> r@.len() == 0,
{
    s.to_lowercase()
}

/// The word tokens of a text, per Unicode text segmentation.
pub uninterp spec fn words_of(s: Seq<char>) -> Seq<Seq<char>>;

/// Relies on unicode_segmentation's `unicode_words`: the word tokens of the
/// text (punctuation and whitespace excluded), a function of the characters
/// alone; an empty text has no words.
#[verifier::external_body]
pub fn unicode_words_vec(s: &str) -> (r: Vec<String>)
    ensures
        r.deep_view() == words_of(s@),
        s@.len() == 0 ==> r.deep_view().len() == 0,
{
    s.unicode_words().map(|w| w.to_string()).collect()
}

} // verus!
