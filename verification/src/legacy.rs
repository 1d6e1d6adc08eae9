//! The first-generation extraction API: three fixed rules over a text,
//! kept for compatibility. The full pipeline in `parser` supersedes it.

use vstd::prelude::*;
use vstd::string::StrSliceExecFns;

use crate::rex::{re_find_spans, re_valid, regex_new};
use crate::textops::white_char;

verus! {

/// The legacy candidate kinds.
#[derive(Debug, Clone, Copy, PartialEq, Eq, Structural)]
pub enum EntityKind {
    Person,
    Place,
    Item,
}

impl DeepView for EntityKind {
    type V = EntityKind;

    open spec fn deep_view(&self) -> EntityKind {
        *self
    }
}

/// A legacy extraction candidate: a surface text and its guessed kind.
#[derive(Debug, Clone)]
pub struct EntityCandidate {
    pub text: String,
    pub kind: EntityKind,
}

/// Mathematical view of a candidate.
pub ghost struct EntityCandidateV {
    pub text: Seq<char>,
    pub kind: EntityKind,
}

impl DeepView for EntityCandidate {
    type V = EntityCandidateV;

    open spec fn deep_view(&self) -> EntityCandidateV {
        EntityCandidateV { text: self.text@, kind: self.kind }
    }
}

/// The rule recognizing a title followed by a capitalized name.
pub open spec fn legacy_person_pattern() -> Seq<char> {
    r"\b(?:Lord|Lady|Sir|Dame|Prince|Princess)\s+[A-Z][a-zA-Z']+\b"@
}

/// The rule recognizing capitalized multi-word sequences.
pub open spec fn legacy_place_pattern() -> Seq<char> {
    r"\b([A-Z][a-z]+(?:\s+[A-Z][a-z]+)+)\b"@
}

/// The rule recognizing "The" followed by a capitalized word.
pub open spec fn legacy_item_pattern() -> Seq<char> {
    r"\bThe\s+[A-Z][a-zA-Z']+\b"@
}

/// The number of whitespace-separated words in `s[i..]`; `in_word` records
/// whether position `i` continues a word already counted.
pub open spec fn ws_words_from(s: Seq<char>, i: int, in_word: bool) -> int
    decreases s.len() - i,
    when 0 <= i
{
    if i >= s.len() {
        0
    } else if white_char(s[i]) {
        ws_words_from(s, i + 1, false)
    } else if in_word {
        ws_words_from(s, i + 1, true)
    } else {
        1 + ws_words_from(s, i + 1, true)
    }
}

/// The candidates from one rule's match spans, each carrying the matched
/// text.
pub open spec fn span_candidates(
    text: Seq<char>,
    spans: Seq<(usize, usize)>,
    kind: EntityKind,
) -> Seq<EntityCandidateV> {
    spans.map_values(
        |sp: (usize, usize)|
            EntityCandidateV { text: text.subrange(sp.0 as int, sp.1 as int), kind },
    )
}

/// The place candidates: match spans kept only when the matched text holds at
/// least two whitespace-separated words.
pub open spec fn place_candidates(text: Seq<char>, spans: Seq<(usize, usize)>) -> Seq<
    EntityCandidateV,
>
    decreases spans.len(),
{
    if spans.len() == 0 {
        Seq::empty()
    } else {
        let rest = place_candidates(text, spans.drop_last());
        let sp = spans.last();
        let piece = text.subrange(sp.0 as int, sp.1 as int);
        if ws_words_from(piece, 0, false) >= 2 {
            rest.push(EntityCandidateV { text: piece, kind: EntityKind::Place })
        } else {
            rest
        }
    }
}

/// The legacy person candidates of a text: one per rule match, or none when
/// the rule's pattern is rejected by the regex engine.
pub open spec fn legacy_persons(text: Seq<char>) -> Seq<EntityCandidateV> {
    if re_valid(legacy_person_pattern()) {
        span_candidates(
            text,
            re_find_spans(legacy_person_pattern(), text),
            EntityKind::Person,
        )
    } else {
        Seq::empty()
    }
}

/// The legacy place candidates of a text.
pub open spec fn legacy_places(text: Seq<char>) -> Seq<EntityCandidateV> {
    if re_valid(legacy_place_pattern()) {
        place_candidates(text, re_find_spans(legacy_place_pattern(), text))
    } else {
        Seq::empty()
    }
}

/// The legacy item candidates of a text.
pub open spec fn legacy_items(text: Seq<char>) -> Seq<EntityCandidateV> {
    if re_valid(legacy_item_pattern()) {
        span_candidates(text, re_find_spans(legacy_item_pattern(), text), EntityKind::Item)
    } else {
        Seq::empty()
    }
}

/// Count the whitespace-separated words of a string.
#[verifier::loop_isolation(false)]
fn count_ws_words(piece: &str) -> (r: usize)
    ensures
        r == ws_words_from(piece@, 0, false),
{
    let chars = crate::textops::to_chars(piece);
    let n = chars.len();
    let mut acc: usize = 0;
    let mut in_word: bool = false;
    let mut i: usize = 0;
    while i < n
        invariant
            0 <= i <= n,
            acc <= i,
            acc + ws_words_from(chars@, i as int, in_word) == ws_words_from(chars@, 0, false),
        decreases n - i,
    {
        if crate::textops::is_whitespace_char(chars[i]) {
            in_word = false;
        } else if !in_word {
            acc = acc + 1;
            in_word = true;
        } else {
            in_word = true;
        }
        i = i + 1;
    }
    acc
}

/// The person candidates of the title rule.
#[verifier::loop_isolation(false)]
fn extract_persons(text: &str) -> (r: Vec<EntityCandidate>)
    ensures
        r.deep_view() == legacy_persons(text@),
{
    let mut out: Vec<EntityCandidate> = Vec::new();
    if let Ok(re) = regex_new(r"\b(?:Lord|Lady|Sir|Dame|Prince|Princess)\s+[A-Z][a-zA-Z']+\b") {
        let spans = crate::rex::regex_find(&re, text);
        let ghost sp = re_find_spans(legacy_person_pattern(), text@);
        let n = spans.len();
        let mut i: usize = 0;
        while i < n
            invariant
                n == spans@.len(),
                spans@ == sp,
                forall|k: int|
                    0 <= k < n ==> (#[trigger] spans@[k]).0 <= spans@[k].1 <= text@.len(),
                0 <= i <= n,
                out.deep_view() =~= span_candidates(text@, sp.take(i as int), EntityKind::Person),
            decreases n - i,
        {
            let ghost old_out = out.deep_view();
            let (s, e) = spans[i];
            let piece = text.substring_char(s, e).to_owned();
            out.push(EntityCandidate { text: piece, kind: EntityKind::Person });
            proof {
                assert(out.deep_view() =~= old_out.push(
                    EntityCandidateV {
                        text: text@.subrange(sp[i as int].0 as int, sp[i as int].1 as int),
                        kind: EntityKind::Person,
                    },
                ));
                assert(out.deep_view() =~= span_candidates(
                    text@,
                    sp.take(i + 1),
                    EntityKind::Person,
                ));
            }
            i = i + 1;
        }
        proof {
            assert(sp.take(n as int) =~= sp);
        }
    }
    proof {
        assert(out.deep_view() =~= legacy_persons(text@));
    }
    out
}

/// The place candidates of the capitalized multi-word rule.
#[verifier::loop_isolation(false)]
fn extract_places(text: &str) -> (r: Vec<EntityCandidate>)
    ensures
        r.deep_view() == legacy_places(text@),
{
    let mut out: Vec<EntityCandidate> = Vec::new();
    if let Ok(re) = regex_new(r"\b([A-Z][a-z]+(?:\s+[A-Z][a-z]+)+)\b") {
        let spans = crate::rex::regex_find(&re, text);
        let ghost sp = re_find_spans(legacy_place_pattern(), text@);
        let n = spans.len();
        let mut i: usize = 0;
        while i < n
            invariant
                n == spans@.len(),
                spans@ == sp,
                forall|k: int|
                    0 <= k < n ==> (#[trigger] spans@[k]).0 <= spans@[k].1 <= text@.len(),
                0 <= i <= n,
                out.deep_view() =~= place_candidates(text@, sp.take(i as int)),
            decreases n - i,
        {
            let ghost old_out = out.deep_view();
            let (s, e) = spans[i];
            let piece = text.substring_char(s, e);
            proof {
                assert(sp.take(i + 1).drop_last() =~= sp.take(i as int));
                assert(sp.take(i + 1).last() == sp[i as int]);
            }
            if count_ws_words(piece) >= 2 {
                let owned = piece.to_owned();
                out.push(EntityCandidate { text: owned, kind: EntityKind::Place });
                proof {
                    assert(out.deep_view() =~= old_out.push(
                        EntityCandidateV {
                            text: text@.subrange(sp[i as int].0 as int, sp[i as int].1 as int),
                            kind: EntityKind::Place,
                        },
                    ));
                }
            }
            i = i + 1;
        }
        proof {
            assert(sp.take(n as int) =~= sp);
        }
    }
    proof {
        assert(out.deep_view() =~= legacy_places(text@));
    }
    out
}

/// The item candidates of the "The"-prefix rule.
#[verifier::loop_isolation(false)]
fn extract_items(text: &str) -> (r: Vec<EntityCandidate>)
    ensures
        r.deep_view() == legacy_items(text@),
{
    let mut out: Vec<EntityCandidate> = Vec::new();
    if let Ok(re) = regex_new(r"\bThe\s+[A-Z][a-zA-Z']+\b") {
        let spans = crate::rex::regex_find(&re, text);
        let ghost sp = re_find_spans(legacy_item_pattern(), text@);
        let n = spans.len();
        let mut i: usize = 0;
        while i < n
            invariant
                n == spans@.len(),
                spans@ == sp,
                forall|k: int|
                    0 <= k < n ==> (#[trigger] spans@[k]).0 <= spans@[k].1 <= text@.len(),
                0 <= i <= n,
                out.deep_view() =~= span_candidates(text@, sp.take(i as int), EntityKind::Item),
            decreases n - i,
        {
            let ghost old_out = out.deep_view();
            let (s, e) = spans[i];
            let piece = text.substring_char(s, e).to_owned();
            out.push(EntityCandidate { text: piece, kind: EntityKind::Item });
            proof {
                assert(out.deep_view() =~= old_out.push(
                    EntityCandidateV {
                        text: text@.subrange(sp[i as int].0 as int, sp[i as int].1 as int),
                        kind: EntityKind::Item,
                    },
                ));
                assert(out.deep_view() =~= span_candidates(
                    text@,
                    sp.take(i + 1),
                    EntityKind::Item,
                ));
            }
            i = i + 1;
        }
        proof {
            assert(sp.take(n as int) =~= sp);
        }
    }
    proof {
        assert(out.deep_view() =~= legacy_items(text@));
    }
    out
}

/// Extract naive candidates with the three legacy rules: titled persons,
/// capitalized multi-word places, and "The"-prefixed items, in that order.
pub fn extract(text: &str) -> (r: Vec<EntityCandidate>)
    ensures
        r.deep_view() == legacy_persons(text@) + legacy_places(text@) + legacy_items(text@),
{
    let mut out = extract_persons(text);
    let mut places = extract_places(text);
    let mut items = extract_items(text);
    out.append(&mut places);
    out.append(&mut items);
    proof {
        assert(out.deep_view() =~= legacy_persons(text@) + legacy_places(text@) + legacy_items(
            text@,
        ));
    }
    out
}

} // verus!
