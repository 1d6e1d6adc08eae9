//! Regular-expression matching, through the regex crate.
//!
//! Compiled patterns come from configuration, so what they match cannot be
//! stated here; instead the match lists are named spec functions of the
//! pattern text and the haystack, and the contracts of the rest of the
//! library are exact relative to those names. All offsets are character
//! offsets.

use vstd::prelude::*;

verus! {

#[verifier::external_type_specification]
#[verifier::external_body]
pub struct ExRegex(regex::Regex);

/// The source pattern a compiled regex was built from.
pub uninterp spec fn re_pattern(re: regex::Regex) -> Seq<char>;

/// Whether `regex::Regex::new` accepts a pattern; compilation success is a
/// function of the pattern text alone.
pub uninterp spec fn re_valid(pat: Seq<char>) -> bool;

/// The successive non-overlapping match spans that `find_iter` reports for a
/// pattern on a text, as character ranges, earliest first: a function of the
/// pattern and the text.
pub uninterp spec fn re_find_spans(pat: Seq<char>, text: Seq<char>) -> Seq<(usize, usize)>;

/// The capture reports of `captures_iter` for a pattern on a text: per
/// match, the full match as a character range together with the reported
/// text — the `name` capture group if it participated, else the `title`
/// group, else the whole match. A function of the pattern and the text.
pub uninterp spec fn re_capture_reports(pat: Seq<char>, text: Seq<char>) -> Seq<
    (usize, usize, Seq<char>),
>;

/// A capture report: the full match span and the reported text.
#[derive(Debug, Clone)]
pub struct ReCapture {
    pub start: usize,
    pub end: usize,
    pub text: String,
}

/// Relies on regex::Regex's Clone: a clone is a regex for the same pattern.
pub assume_specification[ <regex::Regex as Clone>::clone ](re: &regex::Regex) -> (r:
    regex::Regex)
    ensures
        re_pattern(r) == re_pattern(*re),
;

/// Relies on regex::Regex::new: compiles the pattern, or reports why it is
/// invalid; success depends on the pattern text alone.
#[verifier::external_body]
pub fn regex_new(pat: &str) -> (r: Result<regex::Regex, String>)
    ensures
        r matches Ok(re) ==> re_pattern(re) == pat@ && re_valid(pat@),
        r is Err ==> !re_valid(pat@),
{
    regex::Regex::new(pat).map_err(|e| e.to_string())
}

/// Relies on regex::Regex::find_iter: the successive non-overlapping matches
/// of the pattern in the text, earliest first; match offsets lie on character
/// boundaries and are converted here from byte offsets to character offsets.
#[verifier::external_body]
pub fn regex_find(re: &regex::Regex, text: &str) -> (r: Vec<(usize, usize)>)
    ensures
        r@ == re_find_spans(re_pattern(*re), text@),
        forall|k: int| 0 <= k < r@.len() ==> (#[trigger] r@[k]).0 <= r@[k].1 <= text@.len(),
        forall|k: int| 0 < k < r@.len() ==> r@[k - 1].1 <= (#[trigger] r@[k]).0,
{
    let idx: Vec<usize> = text.char_indices().map(|(b, _)| b).collect();
    let at = |b: usize| idx.partition_point(|x| *x < b);
    re.find_iter(text).map(|m| (at(m.start()), at(m.end()))).collect()
}

/// Relies on regex::Regex::captures_iter: the successive non-overlapping
/// matches of the pattern with their capture groups; the reported text is
/// the `name` group if it participated, else the `title` group, else the
/// whole match; match offsets are converted from byte offsets to character
/// offsets.
#[verifier::external_body]
pub fn regex_captures(re: &regex::Regex, text: &str) -> (r: Vec<ReCapture>)
    ensures
        r@.len() == re_capture_reports(re_pattern(*re), text@).len(),
        forall|k: int| 0 <= k < r@.len() ==> {
            let c = #[trigger] r@[k];
            &&& c.start == re_capture_reports(re_pattern(*re), text@)[k].0
            &&& c.end == re_capture_reports(re_pattern(*re), text@)[k].1
            &&& c.text@ == re_capture_reports(re_pattern(*re), text@)[k].2
            &&& c.start <= c.end <= text@.len()
        },
{
    let idx: Vec<usize> = text.char_indices().map(|(b, _)| b).collect();
    let at = |b: usize| idx.partition_point(|x| *x < b);
    re.captures_iter(text)
        .map(|cap| {
            let m = cap.get(0).unwrap();
            let rep = cap.name("name").or_else(|| cap.name("title")).unwrap_or(m);
            ReCapture { start: at(m.start()), end: at(m.end()), text: rep.as_str().to_string() }
        })
        .collect()
}

} // verus!
