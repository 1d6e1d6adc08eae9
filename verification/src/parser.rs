//! The parser: the end-to-end annotation pipeline. Dictionary and pattern
//! matches outside stop zones are merged into non-overlapping hits,
//! optionally joined by fuzzy candidates, rescored from context, extended
//! with coreference hits, and ordered by (start ascending, score descending).

use vstd::prelude::*;
use vstd::string::StrSliceExecFns;

use crate::dict::{Gazetteer, ac_standard, dictionary_hits};
use crate::patterns::{CompiledPattern, CompiledPatternV, PatternSet};
use crate::rex::{re_capture_reports, re_find_spans, re_valid, regex_captures};
use crate::textops::words_of;
use crate::types::{
    EntityHit, HitSource, HitV, Kind, KindV, Link, LinkV, ParseRequest, ParseResponse, Span, SpanV,
};
use crate::util::{
    context_score_spec, coref_title_pattern, dedupe_merge, dedupe_merge_spec, fuzzy_pattern,
    hits_wf, pronoun_pattern, slug_of,
};
use crate::zones::{Zone, range_in_zones, stop_zones, zones_normal};

verus! {

broadcast use vstd::seq_lib::group_seq_properties;

/// The hits of `hits` whose spans do not intersect any zone of `zs`, in
/// order.
pub open spec fn zone_filter(hits: Seq<HitV>, zs: Seq<Zone>) -> Seq<HitV>
    decreases hits.len(),
{
    if hits.len() == 0 {
        Seq::empty()
    } else {
        let rest = zone_filter(hits.drop_last(), zs);
        let h = hits.last();
        if range_in_zones(zs, h.span.start as int, h.span.end as int) {
            rest
        } else {
            rest.push(h)
        }
    }
}

/// The hit a rule derives from one capture report: the span is the full
/// match, the text is the reported text, the source is `Pattern`, and the
/// score and identifier come from the rule.
pub open spec fn rule_hit(rule: CompiledPatternV, cap: (usize, usize, Seq<char>)) -> HitV {
    HitV {
        kind: rule.kind,
        span: SpanV { start: cap.0 as nat, end: cap.1 as nat, text: cap.2 },
        source: HitSource::Pattern,
        pattern_id: Some(rule.id),
        score: rule.score,
        link: None,
    }
}

/// The hits one rule yields on a text: one per capture report.
pub open spec fn rule_hits(rule: CompiledPatternV, text: Seq<char>) -> Seq<HitV> {
    re_capture_reports(rule.pattern, text).map_values(|cap| rule_hit(rule, cap))
}

/// The pattern hits of a rule list on a text: each rule's hits outside the
/// stop zones, rules in order.
pub open spec fn pattern_hits(rules: Seq<CompiledPatternV>, text: Seq<char>, zs: Seq<Zone>) -> Seq<
    HitV,
>
    decreases rules.len(),
{
    if rules.len() == 0 {
        Seq::empty()
    } else {
        pattern_hits(rules.drop_last(), text, zs) + zone_filter(
            rule_hits(rules.last(), text),
            zs,
        )
    }
}

/// The fuzzy candidate hits of a text, or nothing when the detector's
/// pattern is rejected by the regex engine.
pub open spec fn fuzzy_list(text: Seq<char>) -> Seq<HitV> {
    if re_valid(fuzzy_pattern()) {
        re_find_spans(fuzzy_pattern(), text).map_values(
            |sp: (usize, usize)|
                HitV {
                    kind: KindV::Custom("Unknown"@),
                    span: SpanV {
                        start: sp.0 as nat,
                        end: sp.1 as nat,
                        text: text.subrange(sp.0 as int, sp.1 as int),
                    },
                    source: HitSource::Fuzzy,
                    pattern_id: None,
                    score: 500,
                    link: None,
                },
        )
    } else {
        Seq::empty()
    }
}

/// The coreference candidate spans of a text: pronouns, then "the <title>"
/// phrases; nothing when either detector pattern is rejected.
pub open spec fn coref_list(text: Seq<char>) -> Seq<SpanV> {
    if re_valid(pronoun_pattern()) && re_valid(coref_title_pattern()) {
        (re_find_spans(pronoun_pattern(), text) + re_find_spans(coref_title_pattern(), text))
            .map_values(
            |sp: (usize, usize)|
                SpanV {
                    start: sp.0 as nat,
                    end: sp.1 as nat,
                    text: text.subrange(sp.0 as int, sp.1 as int),
                },
        )
    } else {
        Seq::empty()
    }
}

/// All hits rescored from context.
pub open spec fn rescore(text: Seq<char>, hits: Seq<HitV>) -> Seq<HitV> {
    hits.map_values(
        |h: HitV|
            HitV {
                kind: h.kind,
                span: h.span,
                source: h.source,
                pattern_id: h.pattern_id,
                score: context_score_spec(text, h) as nat,
                link: h.link,
            },
    )
}

/// The Person hits of a list, in order.
pub open spec fn persons_of(hits: Seq<HitV>) -> Seq<HitV>
    decreases hits.len(),
{
    if hits.len() == 0 {
        Seq::empty()
    } else {
        let rest = persons_of(hits.drop_last());
        if hits.last().kind is Person {
            rest.push(hits.last())
        } else {
            rest
        }
    }
}

/// Stable insertion of a hit into a sequence sorted by start position.
pub open spec fn person_insert(s: Seq<HitV>, h: HitV) -> Seq<HitV>
    decreases s.len(),
{
    if s.len() == 0 {
        seq![h]
    } else if s.last().span.start > h.span.start {
        person_insert(s.drop_last(), h).push(s.last())
    } else {
        s.push(h)
    }
}

/// The stable sort of hits by start position.
pub open spec fn person_sort(s: Seq<HitV>) -> Seq<HitV>
    decreases s.len(),
{
    if s.len() == 0 {
        Seq::empty()
    } else {
        person_insert(person_sort(s.drop_last()), s.last())
    }
}

/// The nearest antecedent: scanning `persons` from the end, the first hit
/// that starts strictly before `cstart`.
pub open spec fn antecedent(persons: Seq<HitV>, cstart: int) -> Option<HitV>
    decreases persons.len(),
{
    if persons.len() == 0 {
        None
    } else if persons.last().span.start < cstart {
        Some(persons.last())
    } else {
        antecedent(persons.drop_last(), cstart)
    }
}

/// Whether a candidate span overlaps any existing hit.
pub open spec fn span_overlaps_any(hits: Seq<HitV>, c: SpanV) -> bool {
    exists|k: int|
        0 <= k < hits.len() && !(c.end <= (#[trigger] hits[k]).span.start || c.start
            >= hits[k].span.end)
}

/// The coreference score: nine tenths of the antecedent's score, rounded
/// down, capped at 850 thousandths.
pub open spec fn coref_score(ant_score: nat) -> nat {
    let s = (ant_score * 9) / 10;
    if s >= 850 {
        850nat
    } else {
        s
    }
}

/// The coreference hit a candidate derives from its antecedent: a Person hit
/// over the candidate's span with source `Fuzzy` and pattern id `coref`,
/// linked to the antecedent by its id and slug (or a slug derived from its
/// surface text) and carrying the antecedent's surface text as name.
pub open spec fn coref_hit(ant: HitV, c: SpanV) -> HitV {
    HitV {
        kind: KindV::Person,
        span: c,
        source: HitSource::Fuzzy,
        pattern_id: Some("coref"@),
        score: coref_score(ant.score),
        link: Some(
            LinkV {
                id: match ant.link {
                    Some(l) => l.id,
                    None => None,
                },
                slug: match ant.link {
                    Some(l) => match l.slug {
                        Some(s) => Some(s),
                        None => Some(slug_of(ant.span.text)),
                    },
                    None => Some(slug_of(ant.span.text)),
                },
                name: ant.span.text,
                kind: KindV::Person,
            },
        ),
    }
}

/// The extra hits of coreference resolution: for each candidate in order,
/// the hit from its nearest antecedent, skipping candidates without one and
/// candidates that overlap an existing hit. `hits` must be empty-checked by
/// the caller: with no hits at all there are no persons and so no extras.
pub open spec fn coref_extra(persons: Seq<HitV>, hits: Seq<HitV>, cands: Seq<SpanV>) -> Seq<HitV>
    decreases cands.len(),
{
    if cands.len() == 0 {
        Seq::empty()
    } else {
        let rest = coref_extra(persons, hits, cands.drop_last());
        let c = cands.last();
        match antecedent(persons, c.start as int) {
            None => rest,
            Some(ant) => if span_overlaps_any(hits, c) {
                rest
            } else {
                rest.push(coref_hit(ant, c))
            },
        }
    }
}

/// Final-order comparison: `a` sorts strictly after `b` when it starts
/// later, or starts at the same position with a lower score.
pub open spec fn final_after(a: HitV, b: HitV) -> bool {
    a.span.start > b.span.start || (a.span.start == b.span.start && a.score < b.score)
}

/// Stable insertion of a hit into a sequence sorted by the final order.
pub open spec fn final_insert(s: Seq<HitV>, h: HitV) -> Seq<HitV>
    decreases s.len(),
{
    if s.len() == 0 {
        seq![h]
    } else if final_after(s.last(), h) {
        final_insert(s.drop_last(), h).push(s.last())
    } else {
        s.push(h)
    }
}

/// The stable sort of hits by (start ascending, score descending).
pub open spec fn final_sort(s: Seq<HitV>) -> Seq<HitV>
    decreases s.len(),
{
    if s.len() == 0 {
        Seq::empty()
    } else {
        final_insert(final_sort(s.drop_last()), s.last())
    }
}

} // verus!

verus! {

/// Keep the hits whose spans do not intersect any zone.
fn filter_zones(hits: Vec<EntityHit>, zones: &Vec<Zone>) -> (r: Vec<EntityHit>)
    requires
        zones_normal(zones@),
    ensures
        r.deep_view() == zone_filter(hits.deep_view(), zones@),
        forall|k: int| 0 <= k < r.deep_view().len() ==> exists|q: int|
            0 <= q < hits.deep_view().len() && #[trigger] r.deep_view()[k] == hits.deep_view()[q],
        forall|k: int|
            0 <= k < r.deep_view().len() ==> !range_in_zones(
                zones@,
                (#[trigger] r.deep_view()[k]).span.start as int,
                r.deep_view()[k].span.end as int,
            ),
{
    let ghost all = hits.deep_view();
    let mut v = hits;
    let mut out: Vec<EntityHit> = Vec::new();
    let ghost mut taken: int = 0;
    proof {
        assert(zone_filter(all.take(0), zones@) =~= Seq::<HitV>::empty());
    }
    while v.len() > 0
        invariant
            zones_normal(zones@),
            0 <= taken <= all.len(),
            v.deep_view() =~= all.skip(taken),
            out.deep_view() == zone_filter(all.take(taken), zones@),
            forall|k: int| 0 <= k < out.deep_view().len() ==> exists|q: int|
                0 <= q < all.len() && #[trigger] out.deep_view()[k] == all[q],
            forall|k: int|
                0 <= k < out.deep_view().len() ==> !range_in_zones(
                    zones@,
                    (#[trigger] out.deep_view()[k]).span.start as int,
                    out.deep_view()[k].span.end as int,
                ),
        decreases v@.len(),
    {
        let ghost old_v = v.deep_view();
        let ghost old_out = out.deep_view();
        proof {
            assert(all.skip(taken).len() > 0);
            vstd::seq_lib::lemma_seq_skip_index(all, taken, 0);
        }
        let h = v.remove(0);
        proof {
            assert(h.deep_view() == all[taken]);
            assert(v.deep_view() =~= all.skip(taken + 1));
            assert(all.take(taken + 1).drop_last() =~= all.take(taken));
            assert(all.take(taken + 1).last() == all[taken]);
        }
        if !crate::zones::in_zones(zones.as_slice(), h.span.start, h.span.end) {
            out.push(h);
            proof {
                assert(out.deep_view() =~= old_out.push(all[taken]));
            }
        }
        proof {
            taken = taken + 1;
        }
    }
    proof {
        assert(all.take(taken) =~= all);
    }
    out
}

proof fn lemma_person_insert_prefix(s: Seq<HitV>, h: HitV, j: int)
    requires
        0 <= j <= s.len(),
        forall|k: int| j <= k < s.len() ==> (#[trigger] s[k]).span.start > h.span.start,
        j > 0 ==> !(s[j - 1].span.start > h.span.start),
    ensures
        person_insert(s, h) == s.insert(j, h),
    decreases s.len(),
{
    if s.len() == 0 {
        assert(person_insert(s, h) =~= s.insert(j, h));
    } else if s.last().span.start > h.span.start {
        lemma_person_insert_prefix(s.drop_last(), h, j);
        assert(person_insert(s, h) =~= s.insert(j, h));
    } else {
        assert(j == s.len());
        assert(person_insert(s, h) =~= s.insert(j, h));
    }
}

proof fn lemma_person_insert_members(s: Seq<HitV>, h: HitV)
    ensures
        ({
            let r = person_insert(s, h);
            &&& r.len() == s.len() + 1
            &&& forall|p: int| 0 <= p < r.len() ==> (exists|q: int|
                0 <= q < s.len() && #[trigger] r[p] == s[q]) || r[p] == h
        }),
    decreases s.len(),
{
    if s.len() != 0 && s.last().span.start > h.span.start {
        lemma_person_insert_members(s.drop_last(), h);
        let r0 = person_insert(s.drop_last(), h);
        let r = r0.push(s.last());
        assert forall|p: int| 0 <= p < r.len() implies (exists|q: int|
            0 <= q < s.len() && #[trigger] r[p] == s[q]) || r[p] == h by {
            if p < r0.len() {
                assert(r[p] == r0[p]);
                if exists|q: int| 0 <= q < s.drop_last().len() && r0[p] == s.drop_last()[q] {
                    let q = choose|q: int| 0 <= q < s.drop_last().len() && r0[p] == s.drop_last()[q];
                    assert(r[p] == s[q]);
                }
            } else {
                assert(r[p] == s[s.len() - 1]);
            }
        }
    }
}

proof fn lemma_person_sort_members(s: Seq<HitV>)
    ensures
        person_sort(s).len() == s.len(),
        forall|p: int| 0 <= p < person_sort(s).len() ==> exists|q: int|
            0 <= q < s.len() && #[trigger] person_sort(s)[p] == s[q],
    decreases s.len(),
{
    if s.len() != 0 {
        lemma_person_sort_members(s.drop_last());
        let r0 = person_sort(s.drop_last());
        lemma_person_insert_members(r0, s.last());
        let r = person_insert(r0, s.last());
        assert forall|p: int| 0 <= p < r.len() implies exists|q: int|
            0 <= q < s.len() && #[trigger] r[p] == s[q] by {
            if exists|q: int| 0 <= q < r0.len() && r[p] == r0[q] {
                let q = choose|q: int| 0 <= q < r0.len() && r[p] == r0[q];
                let q2 = choose|q2: int| 0 <= q2 < s.drop_last().len() && r0[q] == s.drop_last()[q2];
                assert(r[p] == s[q2]);
            } else {
                assert(r[p] == s[s.len() - 1]);
            }
        }
    }
}

/// The Person hits of a list, as owned copies.
fn filter_persons(hits: &Vec<EntityHit>) -> (r: Vec<EntityHit>)
    ensures
        r.deep_view() == persons_of(hits.deep_view()),
{
    let n = hits.len();
    let mut out: Vec<EntityHit> = Vec::new();
    let mut i: usize = 0;
    proof {
        assert(persons_of(hits.deep_view().take(0)) =~= Seq::<HitV>::empty());
    }
    while i < n
        invariant
            n == hits@.len(),
            0 <= i <= n,
            out.deep_view() == persons_of(hits.deep_view().take(i as int)),
        decreases n - i,
    {
        let ghost old_out = out.deep_view();
        let ghost dv = hits.deep_view();
        proof {
            assert(dv.take(i + 1).drop_last() =~= dv.take(i as int));
            assert(dv.take(i + 1).last() == dv[i as int]);
            assert(hits@[i as int].deep_view() == dv[i as int]);
        }
        if matches!(&hits[i].kind, Kind::Person) {
            let h = hits[i].clone_hit();
            out.push(h);
            proof {
                assert(out.deep_view() =~= old_out.push(dv[i as int]));
            }
        }
        i = i + 1;
    }
    proof {
        assert(hits.deep_view().take(n as int) =~= hits.deep_view());
    }
    out
}

/// Sort hits by start position, stably.
fn sort_persons(hits: Vec<EntityHit>) -> (r: Vec<EntityHit>)
    ensures
        r.deep_view() == person_sort(hits.deep_view()),
{
    let ghost all = hits.deep_view();
    let mut v = hits;
    let mut r: Vec<EntityHit> = Vec::new();
    let ghost mut taken: int = 0;
    proof {
        assert(person_sort(all.take(0)) =~= Seq::<HitV>::empty());
    }
    while v.len() > 0
        invariant
            0 <= taken <= all.len(),
            v.deep_view() =~= all.skip(taken),
            r.deep_view() == person_sort(all.take(taken)),
        decreases v@.len(),
    {
        let ghost old_v = v.deep_view();
        let ghost old_r = r.deep_view();
        proof {
            assert(all.skip(taken).len() > 0);
            vstd::seq_lib::lemma_seq_skip_index(all, taken, 0);
        }
        let h = v.remove(0);
        proof {
            assert(h.deep_view() == all[taken]);
            assert(v.deep_view() =~= all.skip(taken + 1));
        }
        let mut j: usize = r.len();
        while j > 0 && r[j - 1].span.start > h.span.start
            invariant
                0 <= j <= r@.len(),
                r.deep_view() == old_r,
                forall|k: int|
                    j <= k < r.deep_view().len() ==> (#[trigger] r.deep_view()[k]).span.start
                        > h.deep_view().span.start,
            decreases j,
        {
            proof {
                assert(r@[j - 1].deep_view() == r.deep_view()[j - 1]);
            }
            j = j - 1;
        }
        proof {
            if j > 0 {
                assert(r@[j - 1].deep_view() == r.deep_view()[j - 1]);
            }
            lemma_person_insert_prefix(r.deep_view(), h.deep_view(), j as int);
        }
        r.insert(j, h);
        proof {
            assert(r.deep_view() =~= old_r.insert(j as int, all[taken]));
            assert(all.take(taken + 1).drop_last() =~= all.take(taken));
            assert(all.take(taken + 1).last() == all[taken]);
            taken = taken + 1;
        }
    }
    proof {
        assert(all.take(taken) =~= all);
    }
    r
}

proof fn lemma_final_insert_prefix(s: Seq<HitV>, h: HitV, j: int)
    requires
        0 <= j <= s.len(),
        forall|k: int| j <= k < s.len() ==> final_after(#[trigger] s[k], h),
        j > 0 ==> !final_after(s[j - 1], h),
    ensures
        final_insert(s, h) == s.insert(j, h),
    decreases s.len(),
{
    if s.len() == 0 {
        assert(final_insert(s, h) =~= s.insert(j, h));
    } else if final_after(s.last(), h) {
        lemma_final_insert_prefix(s.drop_last(), h, j);
        assert(final_insert(s, h) =~= s.insert(j, h));
    } else {
        assert(j == s.len());
        assert(final_insert(s, h) =~= s.insert(j, h));
    }
}

proof fn lemma_final_insert_members(s: Seq<HitV>, h: HitV)
    ensures
        ({
            let r = final_insert(s, h);
            &&& r.len() == s.len() + 1
            &&& forall|p: int| 0 <= p < r.len() ==> (exists|q: int|
                0 <= q < s.len() && #[trigger] r[p] == s[q]) || r[p] == h
        }),
    decreases s.len(),
{
    if s.len() != 0 && final_after(s.last(), h) {
        lemma_final_insert_members(s.drop_last(), h);
        let r0 = final_insert(s.drop_last(), h);
        let r = r0.push(s.last());
        assert forall|p: int| 0 <= p < r.len() implies (exists|q: int|
            0 <= q < s.len() && #[trigger] r[p] == s[q]) || r[p] == h by {
            if p < r0.len() {
                assert(r[p] == r0[p]);
                if exists|q: int| 0 <= q < s.drop_last().len() && r0[p] == s.drop_last()[q] {
                    let q = choose|q: int| 0 <= q < s.drop_last().len() && r0[p] == s.drop_last()[q];
                    assert(r[p] == s[q]);
                }
            } else {
                assert(r[p] == s[s.len() - 1]);
            }
        }
    }
}

/// Every hit of the final sort is one of the sorted hits.
pub proof fn lemma_final_sort_members(s: Seq<HitV>)
    ensures
        final_sort(s).len() == s.len(),
        forall|p: int| 0 <= p < final_sort(s).len() ==> exists|q: int|
            0 <= q < s.len() && #[trigger] final_sort(s)[p] == s[q],
    decreases s.len(),
{
    if s.len() != 0 {
        lemma_final_sort_members(s.drop_last());
        let r0 = final_sort(s.drop_last());
        lemma_final_insert_members(r0, s.last());
        let r = final_insert(r0, s.last());
        assert forall|p: int| 0 <= p < r.len() implies exists|q: int|
            0 <= q < s.len() && #[trigger] r[p] == s[q] by {
            if exists|q: int| 0 <= q < r0.len() && r[p] == r0[q] {
                let q = choose|q: int| 0 <= q < r0.len() && r[p] == r0[q];
                let q2 = choose|q2: int| 0 <= q2 < s.drop_last().len() && r0[q] == s.drop_last()[q2];
                assert(r[p] == s[q2]);
            } else {
                assert(r[p] == s[s.len() - 1]);
            }
        }
    }
}

/// Sort hits by (start ascending, score descending), stably.
fn sort_final(hits: Vec<EntityHit>) -> (r: Vec<EntityHit>)
    ensures
        r.deep_view() == final_sort(hits.deep_view()),
{
    let ghost all = hits.deep_view();
    let mut v = hits;
    let mut r: Vec<EntityHit> = Vec::new();
    let ghost mut taken: int = 0;
    proof {
        assert(final_sort(all.take(0)) =~= Seq::<HitV>::empty());
    }
    while v.len() > 0
        invariant
            0 <= taken <= all.len(),
            v.deep_view() =~= all.skip(taken),
            r.deep_view() == final_sort(all.take(taken)),
        decreases v@.len(),
    {
        let ghost old_v = v.deep_view();
        let ghost old_r = r.deep_view();
        proof {
            assert(all.skip(taken).len() > 0);
            vstd::seq_lib::lemma_seq_skip_index(all, taken, 0);
        }
        let h = v.remove(0);
        proof {
            assert(h.deep_view() == all[taken]);
            assert(v.deep_view() =~= all.skip(taken + 1));
        }
        let mut j: usize = r.len();
        while j > 0 && (r[j - 1].span.start > h.span.start || (r[j - 1].span.start == h.span.start
            && r[j - 1].score < h.score))
            invariant
                0 <= j <= r@.len(),
                r.deep_view() == old_r,
                forall|k: int|
                    j <= k < r.deep_view().len() ==> final_after(
                        #[trigger] r.deep_view()[k],
                        h.deep_view(),
                    ),
            decreases j,
        {
            proof {
                assert(r@[j - 1].deep_view() == r.deep_view()[j - 1]);
            }
            j = j - 1;
        }
        proof {
            if j > 0 {
                assert(r@[j - 1].deep_view() == r.deep_view()[j - 1]);
            }
            lemma_final_insert_prefix(r.deep_view(), h.deep_view(), j as int);
        }
        r.insert(j, h);
        proof {
            assert(r.deep_view() =~= old_r.insert(j as int, all[taken]));
            assert(all.take(taken + 1).drop_last() =~= all.take(taken));
            assert(all.take(taken + 1).last() == all[taken]);
            taken = taken + 1;
        }
    }
    proof {
        assert(all.take(taken) =~= all);
    }
    r
}

} // verus!

verus! {

/// Every coreference extra has source `Fuzzy`.
proof fn lemma_coref_extra_sources(persons: Seq<HitV>, hits: Seq<HitV>, cands: Seq<SpanV>)
    ensures
        forall|k: int|
            0 <= k < coref_extra(persons, hits, cands).len() ==> (#[trigger] coref_extra(
                persons,
                hits,
                cands,
            )[k]).source == HitSource::Fuzzy,
    decreases cands.len(),
{
    if cands.len() != 0 {
        lemma_coref_extra_sources(persons, hits, cands.drop_last());
    }
}

/// Coreference resolution: link pronouns and title mentions to the nearest
/// preceding Person hit. Produces the extra hits only; they carry the
/// antecedent's surface text and identity as a link.
#[verifier::loop_isolation(false)]
fn coref_link(text: &str, hits: &Vec<EntityHit>) -> (r: Vec<EntityHit>)
    requires
        forall|k: int| 0 <= k < hits.deep_view().len() ==> (#[trigger] hits.deep_view()[k]).score
            <= 990,
    ensures
        r.deep_view() == coref_extra(
            person_sort(persons_of(hits.deep_view())),
            hits.deep_view(),
            coref_list(text@),
        ),
        forall|k: int| 0 <= k < r.deep_view().len() ==> (#[trigger] r.deep_view()[k]).source
            == HitSource::Fuzzy,
        forall|k: int| 0 <= k < r.deep_view().len() ==> (#[trigger] r.deep_view()[k]).span.start
            <= r.deep_view()[k].span.end <= text@.len(),
{
    let ghost hv = hits.deep_view();
    let persons = sort_persons(filter_persons(hits));
    let ghost pv = person_sort(persons_of(hv));
    proof {
        lemma_person_sort_members(persons_of(hv));
        lemma_persons_of_members(hv);
        assert forall|k: int| 0 <= k < pv.len() implies (#[trigger] pv[k]).score <= 990 by {
            let q = choose|q: int| 0 <= q < persons_of(hv).len() && pv[k] == persons_of(hv)[q];
            let q2 = choose|q2: int| 0 <= q2 < hv.len() && persons_of(hv)[q] == hv[q2];
        }
    }
    let cands = crate::util::coref_candidates(text);
    let ghost cv = coref_list(text@);
    proof {
        if re_valid(pronoun_pattern()) && re_valid(coref_title_pattern()) {
            assert(cands.deep_view() =~= cv);
        } else {
            assert(cands.deep_view() =~= cv);
        }
        assert(forall|k: int|
            0 <= k < cv.len() ==> (#[trigger] cv[k]).start <= cv[k].end <= text@.len()) by {
            assert forall|k: int|
                0 <= k < cv.len() implies (#[trigger] cv[k]).start <= cv[k].end
                    <= text@.len() by {
                assert(cv[k] == cands@[k].deep_view());
            }
        }
        assert(coref_extra(pv, hv, cv.take(0)) =~= Seq::<HitV>::empty());
        lemma_coref_extra_sources(pv, hv, cv);
    }
    let n = cands.len();
    let mut out: Vec<EntityHit> = Vec::new();
    let mut i: usize = 0;
    while i < n
        invariant
            n == cands@.len(),
            cands.deep_view() == cv,
            cv.len() == n,
            persons.deep_view() == pv,
            hits.deep_view() == hv,
            forall|k: int| 0 <= k < pv.len() ==> (#[trigger] pv[k]).score <= 990,
            0 <= i <= n,
            out.deep_view() == coref_extra(pv, hv, cv.take(i as int)),
            forall|k: int|
                0 <= k < out.deep_view().len() ==> (#[trigger] out.deep_view()[k]).span.start
                    <= out.deep_view()[k].span.end <= text@.len(),
        decreases n - i,
    {
        let ghost old_out = out.deep_view();
        let c = &cands[i];
        proof {
            assert(cands@[i as int].deep_view() == cv[i as int]);
            assert(cv.take(i + 1).drop_last() =~= cv.take(i as int));
            assert(cv.take(i + 1).last() == cv[i as int]);
        }
        // nearest preceding person: scan persons from the end
        let mut j: usize = persons.len();
        let mut found: bool = false;
        while j > 0 && !found
            invariant
                persons.deep_view() == pv,
                0 <= j <= pv.len(),
                cands.deep_view() == cv,
                cv.len() == n,
                cands@[i as int].deep_view() == cv[i as int],
                i < n,
                n == cands@.len(),
                !found ==> antecedent(pv, cv[i as int].start as int) == antecedent(
                    pv.take(j as int),
                    cv[i as int].start as int,
                ),
                found ==> j < pv.len() && antecedent(pv, cv[i as int].start as int) == Some(
                    pv[j as int],
                ),
            decreases j + (if found {
                0int
            } else {
                1int
            }),
        {
            proof {
                assert(persons@[j - 1].deep_view() == pv[j - 1]);
                assert(pv.take(j as int).last() == pv[j - 1]);
                assert(pv.take(j as int).drop_last() =~= pv.take(j - 1));
            }
            if persons[j - 1].span.start < c.start {
                found = true;
                j = j - 1;
            } else {
                j = j - 1;
            }
        }
        proof {
            if !found {
                assert(pv.take(0) =~= Seq::<HitV>::empty());
                assert(antecedent(pv, cv[i as int].start as int) is None);
            }
        }
        if found {
            let ant = &persons[j];
            proof {
                assert(ant.deep_view() == pv[j as int]);
            }
            // skip when the candidate overlaps any existing hit
            let mut k: usize = 0;
            let mut overlap: bool = false;
            while k < hits.len() && !overlap
                invariant
                    hits.deep_view() == hv,
                    0 <= k <= hv.len(),
                    cands.deep_view() == cv,
                    cv.len() == n,
                    cands@[i as int].deep_view() == cv[i as int],
                    i < n,
                    n == cands@.len(),
                    !overlap ==> forall|p: int|
                        0 <= p < k ==> (cv[i as int].end <= (#[trigger] hv[p]).span.start
                            || cv[i as int].start >= hv[p].span.end),
                    overlap ==> span_overlaps_any(hv, cv[i as int]),
                decreases hv.len() - k + (if overlap {
                    0int
                } else {
                    1int
                }),
            {
                let h = &hits[k];
                proof {
                    assert(h.deep_view() == hv[k as int]);
                }
                if !(c.end <= h.span.start || c.start >= h.span.end) {
                    overlap = true;
                } else {
                    k = k + 1;
                }
            }
            if !overlap {
                proof {
                    assert(!span_overlaps_any(hv, cv[i as int]));
                }
                let s9 = (ant.score * 9) / 10;
                let sc = if s9 >= 850 {
                    850
                } else {
                    s9
                };
                let link_id = match &ant.link {
                    Some(l) => match &l.id {
                        Some(s) => Some(s.clone()),
                        None => None,
                    },
                    None => None,
                };
                let link_slug = match &ant.link {
                    Some(l) => match &l.slug {
                        Some(s) => Some(s.clone()),
                        None => Some(crate::util::slugify(ant.span.text.as_str())),
                    },
                    None => Some(crate::util::slugify(ant.span.text.as_str())),
                };
                out.push(
                    EntityHit {
                        kind: Kind::Person,
                        span: Span { start: c.start, end: c.end, text: c.text.clone() },
                        source: HitSource::Fuzzy,
                        pattern_id: Some("coref".to_owned()),
                        score: sc,
                        link: Some(
                            Link {
                                id: link_id,
                                slug: link_slug,
                                name: ant.span.text.clone(),
                                kind: Kind::Person,
                            },
                        ),
                    },
                );
                proof {
                    assert(out.deep_view() =~= old_out.push(
                        coref_hit(pv[j as int], cv[i as int]),
                    ));
                }
            }
        }
        i = i + 1;
    }
    proof {
        assert(cv.take(n as int) =~= cv);
        assert forall|k: int| 0 <= k < out.deep_view().len() implies (
        #[trigger] out.deep_view()[k]).source == HitSource::Fuzzy by {
            lemma_coref_extra_sources(pv, hv, cv);
        }
    }
    out
}

/// Every Person-filtered hit is one of the input hits.
proof fn lemma_persons_of_members(hits: Seq<HitV>)
    ensures
        forall|p: int| 0 <= p < persons_of(hits).len() ==> exists|q: int|
            0 <= q < hits.len() && #[trigger] persons_of(hits)[p] == hits[q],
    decreases hits.len(),
{
    if hits.len() != 0 {
        lemma_persons_of_members(hits.drop_last());
        let rest = persons_of(hits.drop_last());
        let r = persons_of(hits);
        assert forall|p: int| 0 <= p < r.len() implies exists|q: int|
            0 <= q < hits.len() && #[trigger] r[p] == hits[q] by {
            if p < rest.len() {
                let q = choose|q: int| 0 <= q < hits.drop_last().len() && rest[p] == hits.drop_last()[q];
                assert(r[p] == hits[q]);
            } else {
                assert(r[p] == hits[hits.len() - 1]);
            }
        }
    }
}

} // verus!

verus! {

/// The hits the pipeline computes from the dictionary hits, the rules and
/// the text: matches outside stop zones, merged; fuzzy candidates merged in
/// when requested; everything rescored from context; coreference extras
/// appended; the whole ordered by (start ascending, score descending).
pub open spec fn pipeline_hits(
    gz_all: Seq<HitV>,
    rules: Seq<CompiledPatternV>,
    text: Seq<char>,
    fuzzy: bool,
) -> Seq<HitV> {
    let zs = stop_zones(text);
    let base = zone_filter(gz_all, zs) + pattern_hits(rules, text, zs);
    let merged = dedupe_merge_spec(base);
    let merged2 = if fuzzy {
        dedupe_merge_spec(merged + fuzzy_list(text))
    } else {
        merged
    };
    let rescored = rescore(text, merged2);
    let extra = coref_extra(person_sort(persons_of(rescored)), rescored, coref_list(text));
    final_sort(rescored + extra)
}

/// What `parse` returns: the pipeline applied to the dictionary hits of the
/// parser's gazetteer. A function of the parser's immutable configuration,
/// the text and the fuzzy flag, so equal inputs parse to equal hits.
pub open spec fn parse_hits_spec(
    g: Gazetteer,
    rules: Seq<CompiledPatternV>,
    text: Seq<char>,
    fuzzy: bool,
) -> Seq<HitV> {
    pipeline_hits(dictionary_hits(g, text), rules, text, fuzzy)
}

/// The hits whose kind is among `kinds`, in order.
pub open spec fn kind_filter(hits: Seq<HitV>, kinds: Seq<KindV>) -> Seq<HitV>
    decreases hits.len(),
{
    if hits.len() == 0 {
        Seq::empty()
    } else {
        let rest = kind_filter(hits.drop_last(), kinds);
        if kinds.contains(hits.last().kind) {
            rest.push(hits.last())
        } else {
            rest
        }
    }
}

/// The effective fuzzy flag of a request: true when absent.
pub open spec fn req_fuzzy(req: ParseRequest) -> bool {
    match req.fuzzy {
        Some(b) => b,
        None => true,
    }
}

/// The pattern hits of all rules on a text, outside the stop zones: per
/// rule, one hit per capture report whose full span does not intersect a
/// zone, rules in order.
#[verifier::loop_isolation(false)]
fn collect_pattern_hits(rules: &Vec<CompiledPattern>, text: &str, zones: &Vec<Zone>) -> (r: Vec<
    EntityHit,
>)
    requires
        zones_normal(zones@),
    ensures
        r.deep_view() == pattern_hits(rules.deep_view(), text@, zones@),
        forall|k: int|
            0 <= k < r.deep_view().len() ==> hit_bounded(
                #[trigger] r.deep_view()[k],
                text@.len() as int,
            ) && !range_in_zones(
                zones@,
                r.deep_view()[k].span.start as int,
                r.deep_view()[k].span.end as int,
            ),
{
    let ghost zs = zones@;
    let ghost rules_dv = rules.deep_view();
    let mut hits: Vec<EntityHit> = Vec::new();
    let nrules = rules.len();
    let mut ri: usize = 0;
    proof {
        assert(pattern_hits(rules_dv.take(0), text@, zs) =~= Seq::<HitV>::empty());
    }
    while ri < nrules
        invariant
            nrules == rules@.len(),
            rules_dv == rules.deep_view(),
            zones@ == zs,
            zones_normal(zones@),
            0 <= ri <= nrules,
            hits.deep_view() == pattern_hits(rules_dv.take(ri as int), text@, zs),
            forall|k: int|
                0 <= k < hits.deep_view().len() ==> hit_bounded(
                    #[trigger] hits.deep_view()[k],
                    text@.len() as int,
                ) && !range_in_zones(
                    zs,
                    hits.deep_view()[k].span.start as int,
                    hits.deep_view()[k].span.end as int,
                ),
        decreases nrules - ri,
    {
        let rule = &rules[ri];
        let ghost rv = rules_dv[ri as int];
        proof {
            assert(rules@[ri as int].deep_view() == rv);
            assert(rules_dv.take(ri + 1).drop_last() =~= rules_dv.take(ri as int));
            assert(rules_dv.take(ri + 1).last() == rv);
        }
        let caps = crate::rex::regex_captures(&rule.regex, text);
        let ghost capsv = re_capture_reports(rv.pattern, text@);
        let ghost rh = rule_hits(rv, text@);
        proof {
            assert(rh.len() == capsv.len());
        }
        let ncaps = caps.len();
        let mut ci: usize = 0;
        let ghost base = hits.deep_view();
        proof {
            assert(zone_filter(rh.take(0), zs) =~= Seq::<HitV>::empty());
            assert(hits.deep_view() =~= base + zone_filter(rh.take(0), zs));
        }
        while ci < ncaps
            invariant
                zones@ == zs,
                zones_normal(zones@),
                ncaps == caps@.len(),
                capsv == re_capture_reports(rv.pattern, text@),
                caps@.len() == capsv.len(),
                forall|k: int|
                    0 <= k < caps@.len() ==> {
                        let c = #[trigger] caps@[k];
                        c.start == capsv[k].0 && c.end == capsv[k].1 && c.text@ == capsv[k].2
                            && c.start <= c.end <= text@.len()
                    },
                rh == rule_hits(rv, text@),
                rh.len() == capsv.len(),
                rules@[ri as int].deep_view() == rv,
                ri < nrules,
                nrules == rules@.len(),
                0 <= ci <= ncaps,
                hits.deep_view() == base + zone_filter(rh.take(ci as int), zs),
                forall|k: int|
                    0 <= k < hits.deep_view().len() ==> hit_bounded(
                        #[trigger] hits.deep_view()[k],
                        text@.len() as int,
                    ) && !range_in_zones(
                        zs,
                        hits.deep_view()[k].span.start as int,
                        hits.deep_view()[k].span.end as int,
                    ),
            decreases ncaps - ci,
        {
            let ghost old_hits = hits.deep_view();
            let c = &caps[ci];
            proof {
                assert(caps@[ci as int] == *c);
                assert(rh[ci as int] == rule_hit(rv, capsv[ci as int]));
                assert(rh.take(ci + 1).drop_last() =~= rh.take(ci as int));
                assert(rh.take(ci + 1).last() == rh[ci as int]);
            }
            if !crate::zones::in_zones(zones.as_slice(), c.start, c.end) {
                let h = EntityHit {
                    kind: rule.kind.clone_kind(),
                    span: Span { start: c.start, end: c.end, text: c.text.clone() },
                    source: HitSource::Pattern,
                    pattern_id: Some(rule.id.clone()),
                    score: rule.score,
                    link: None,
                };
                proof {
                    assert(h.deep_view().kind == rv.kind);
                    assert(h.deep_view().span == rh[ci as int].span);
                    assert(h.deep_view().pattern_id == rh[ci as int].pattern_id);
                    assert(h.deep_view() == rh[ci as int]);
                }
                hits.push(h);
                proof {
                    assert(hits.deep_view() =~= old_hits.push(rh[ci as int]));
                }
            }
            ci = ci + 1;
        }
        proof {
            assert(rh.take(ncaps as int) =~= rh);
            assert(hits.deep_view() =~= pattern_hits(rules_dv.take(ri + 1), text@, zs));
        }
        ri = ri + 1;
    }
    proof {
        assert(rules_dv.take(nrules as int) =~= rules_dv);
    }
    hits
}

/// The lore parser: an immutable snapshot of a dictionary matcher and a
/// pattern set. Parsing is a pure function over it and the request text.
pub struct Parser {
    gz: Gazetteer,
    pat: PatternSet,
}

impl Parser {
    /// The parser's gazetteer.
    pub closed spec fn gaz(self) -> Gazetteer {
        self.gz
    }

    /// The parser's compiled rules, as views.
    pub closed spec fn rules_view(self) -> Seq<CompiledPatternV> {
        self.pat.rules.deep_view()
    }

    /// The parser's machine-level invariant: its automaton supports
    /// overlapping search.
    pub open spec fn wf(self) -> bool {
        ac_standard(self.gaz().ac)
    }

    /// Create a parser over a gazetteer and a pattern set.
    pub fn new(gz: Gazetteer, pat: PatternSet) -> (r: Parser)
        requires
            ac_standard(gz.ac),
        ensures
            r.wf(),
            r.gaz() == gz,
            r.rules_view() == pat.rules.deep_view(),
    {
        Parser { gz, pat }
    }

    /// Parse text and extract entities. Total over any text: the hits are
    /// the pipeline's hits, the tokens the text's words, and no hit from the
    /// dictionary or a pattern rule intersects a stop zone.
    #[verifier::loop_isolation(false)]
    #[verifier::rlimit(100)]
    pub fn parse(&self, text: &str, fuzzy: bool) -> (r: ParseResponse)
        requires
            self.wf(),
        ensures
            r.tokens.deep_view() == words_of(text@),
            r.hits.deep_view() == parse_hits_spec(self.gaz(), self.rules_view(), text@, fuzzy),
            forall|k: int|
                0 <= k < r.hits.deep_view().len() ==> (#[trigger] r.hits.deep_view()[k]).span.start
                    <= r.hits.deep_view()[k].span.end <= text@.len(),
            forall|k: int|
                0 <= k < r.hits.deep_view().len() ==> (((#[trigger] r.hits.deep_view()[k]).source
                    == HitSource::Gazetteer || r.hits.deep_view()[k].source == HitSource::Pattern)
                    ==> !range_in_zones(
                    stop_zones(text@),
                    r.hits.deep_view()[k].span.start as int,
                    r.hits.deep_view()[k].span.end as int,
                )),
    {
        let tokens = crate::util::tokenize(text);
        let chars = crate::textops::to_chars(text);
        let zones = crate::zones::find_stop_zones(&chars);
        let ghost zs = stop_zones(text@);
        proof {
            assert(zones@ == zs);
        }
        // dictionary hits outside stop zones
        let gz_all = self.gz.find_all(text);
        let ghost gz_dv = gz_all.deep_view();
        let ghost rules_dv = self.pat.rules.deep_view();
        let mut hits = filter_zones(gz_all, &zones);
        proof {
            assert(pattern_hits(rules_dv.take(0), text@, zs) =~= Seq::<HitV>::empty());
            assert(hits.deep_view() =~= zone_filter(gz_dv, zs) + pattern_hits(
                rules_dv.take(0),
                text@,
                zs,
            ));
            assert forall|k: int| 0 <= k < hits.deep_view().len() implies hit_bounded(
                #[trigger] hits.deep_view()[k],
                text@.len() as int,
            ) && !range_in_zones(
                zs,
                hits.deep_view()[k].span.start as int,
                hits.deep_view()[k].span.end as int,
            ) by {
                let q = choose|q: int| 0 <= q < gz_dv.len() && hits.deep_view()[k] == gz_dv[q];
            }
        }
        // pattern hits outside stop zones, rule by rule
        let mut phits = collect_pattern_hits(&self.pat.rules, text, &zones);
        let ghost phits_dv = phits.deep_view();
        hits.append(&mut phits);
        proof {
            assert(hits.deep_view() =~= zone_filter(gz_dv, zs) + pattern_hits(
                rules_dv,
                text@,
                zs,
            ));
            assert forall|k: int| 0 <= k < hits.deep_view().len() implies hit_bounded(
                #[trigger] hits.deep_view()[k],
                text@.len() as int,
            ) && !range_in_zones(
                zs,
                hits.deep_view()[k].span.start as int,
                hits.deep_view()[k].span.end as int,
            ) by {
                let zgz = zone_filter(gz_dv, zs);
                if k >= zgz.len() {
                    assert(hits.deep_view()[k] == phits_dv[k - zgz.len()]);
                }
            }
        }
        let ghost base_dv = hits.deep_view();
        // merge overlapping hits
        proof {
            assert(hits_wf(hits.deep_view()));
        }
        let merged = dedupe_merge(hits);
        let ghost merged_dv = merged.deep_view();
        proof {
            crate::util::lemma_dedupe_merge_members(base_dv);
            assert forall|k: int| 0 <= k < merged_dv.len() implies hit_bounded(
                #[trigger] merged_dv[k],
                text@.len() as int,
            ) && !range_in_zones(
                zs,
                merged_dv[k].span.start as int,
                merged_dv[k].span.end as int,
            ) by {
                let q = choose|q: int| 0 <= q < base_dv.len() && merged_dv[k] == base_dv[q];
            }
        }
        // fuzzy candidates, merged in
        let merged2 = if fuzzy {
            let mut m = merged;
            let mut fz = crate::util::fuzzy_candidates(text);
            proof {
                assert(fz.deep_view() =~= fuzzy_list(text@));
            }
            m.append(&mut fz);
            proof {
                assert(m.deep_view() =~= merged_dv + fuzzy_list(text@));
                assert(hits_wf(m.deep_view())) by {
                    assert forall|k: int| 0 <= k < m.deep_view().len() implies crate::util::hit_span_wf(
                        #[trigger] m.deep_view()[k],
                    ) by {
                        if k < merged_dv.len() {
                            assert(m.deep_view()[k] == merged_dv[k]);
                        } else {
                            assert(m.deep_view()[k] == fuzzy_list(text@)[k - merged_dv.len()]);
                        }
                    }
                }
            }
            dedupe_merge(m)
        } else {
            merged
        };
        let ghost m2_dv = merged2.deep_view();
        proof {
            if fuzzy {
                crate::util::lemma_dedupe_merge_members(merged_dv + fuzzy_list(text@));
            }
            assert forall|k: int| 0 <= k < m2_dv.len() implies hit_bounded(
                #[trigger] m2_dv[k],
                text@.len() as int,
            ) && ((m2_dv[k].source == HitSource::Gazetteer || m2_dv[k].source
                == HitSource::Pattern) ==> !range_in_zones(
                zs,
                m2_dv[k].span.start as int,
                m2_dv[k].span.end as int,
            )) by {
                if fuzzy {
                    let mix = merged_dv + fuzzy_list(text@);
                    let q = choose|q: int| 0 <= q < mix.len() && m2_dv[k] == mix[q];
                    if q < merged_dv.len() {
                        assert(mix[q] == merged_dv[q]);
                    } else {
                        assert(mix[q] == fuzzy_list(text@)[q - merged_dv.len()]);
                    }
                }
            }
        }
        // contextual rescoring
        let mut v = merged2;
        let mut rescored: Vec<EntityHit> = Vec::new();
        let ghost mut taken: int = 0;
        proof {
            assert(rescore(text@, m2_dv.take(0)) =~= Seq::<HitV>::empty());
        }
        while v.len() > 0
            invariant
                0 <= taken <= m2_dv.len(),
                v.deep_view() =~= m2_dv.skip(taken),
                rescored.deep_view() =~= rescore(text@, m2_dv.take(taken)),
                chars@ == text@,
                forall|k: int|
                    0 <= k < m2_dv.len() ==> hit_bounded(#[trigger] m2_dv[k], text@.len() as int),
            decreases v@.len(),
        {
            proof {
                assert(m2_dv.skip(taken).len() > 0);
                vstd::seq_lib::lemma_seq_skip_index(m2_dv, taken, 0);
            }
            let ghost old_r = rescored.deep_view();
            let mut h = v.remove(0);
            proof {
                assert(h.deep_view() == m2_dv[taken]);
                assert(v.deep_view() =~= m2_dv.skip(taken + 1));
                assert(hit_bounded(m2_dv[taken], text@.len() as int));
            }
            let ghost hv0 = h.deep_view();
            let sc = crate::util::context_score_chars(&chars, &h);
            h.score = sc;
            proof {
                assert(sc == context_score_spec(text@, hv0));
                assert(h.deep_view() == HitV {
                    kind: hv0.kind,
                    span: hv0.span,
                    source: hv0.source,
                    pattern_id: hv0.pattern_id,
                    score: sc as nat,
                    link: hv0.link,
                });
            }
            rescored.push(h);
            proof {
                assert(rescored.deep_view() =~= old_r.push(h.deep_view()));
                assert forall|k: int|
                    0 <= k < taken + 1 implies rescored.deep_view()[k] == rescore(
                    text@,
                    m2_dv.take(taken + 1),
                )[k] by {
                    if k < taken {
                        assert(rescored.deep_view()[k] == rescore(text@, m2_dv.take(taken))[k]);
                    } else {
                        assert(rescored.deep_view()[k] == h.deep_view());
                    }
                }
                assert(rescored.deep_view() =~= rescore(text@, m2_dv.take(taken + 1)));
                taken = taken + 1;
            }
        }
        proof {
            assert(m2_dv.take(taken) =~= m2_dv);
        }
        let ghost res_dv = rescored.deep_view();
        proof {
            assert(res_dv == rescore(text@, m2_dv));
            assert forall|k: int| 0 <= k < res_dv.len() implies (#[trigger] res_dv[k]).score <= 990
                && res_dv[k].span == m2_dv[k].span && res_dv[k].source == m2_dv[k].source by {
                assert(res_dv[k] == rescore(text@, m2_dv)[k]);
            }
        }
        // coreference extras
        let mut extra = coref_link(text, &rescored);
        let ghost extra_dv = extra.deep_view();
        let mut allh = rescored;
        allh.append(&mut extra);
        proof {
            assert(allh.deep_view() =~= res_dv + extra_dv);
        }
        // final ordering
        let hits_final = sort_final(allh);
        proof {
            lemma_final_sort_members(res_dv + extra_dv);
            assert forall|k: int|
                0 <= k < hits_final.deep_view().len() implies ((((
            #[trigger] hits_final.deep_view()[k]).source == HitSource::Gazetteer
                || hits_final.deep_view()[k].source == HitSource::Pattern) ==> !range_in_zones(
                zs,
                hits_final.deep_view()[k].span.start as int,
                hits_final.deep_view()[k].span.end as int,
            )) && hits_final.deep_view()[k].span.start <= hits_final.deep_view()[k].span.end
                <= text@.len()) by {
                let mix = res_dv + extra_dv;
                let q = choose|q: int| 0 <= q < mix.len() && hits_final.deep_view()[k] == mix[q];
                if q < res_dv.len() {
                    assert(mix[q] == res_dv[q]);
                } else {
                    assert(mix[q] == extra_dv[q - res_dv.len()]);
                }
            }
            assert(gz_dv == dictionary_hits(self.gaz(), text@));
            assert(hits_final.deep_view() == parse_hits_spec(
                self.gaz(),
                rules_dv,
                text@,
                fuzzy,
            ));
        }
        ParseResponse { hits: hits_final, tokens }
    }

    /// Parse a request: fuzzy detection defaults to on; when the request
    /// names kinds, only hits of those kinds are kept.
    #[verifier::loop_isolation(false)]
    pub fn parse_request(&self, req: &ParseRequest) -> (r: ParseResponse)
        requires
            self.wf(),
        ensures
            r.tokens.deep_view() == words_of(req.text@),
            ({
                let hits0 = parse_hits_spec(
                    self.gaz(),
                    self.rules_view(),
                    req.text@,
                    req_fuzzy(*req),
                );
                match req.kinds {
                    Some(ks) => r.hits.deep_view() == kind_filter(hits0, ks.deep_view()),
                    None => r.hits.deep_view() == hits0,
                }
            }),
            forall|k: int|
                0 <= k < r.hits.deep_view().len() ==> (#[trigger] r.hits.deep_view()[k]).span.start
                    <= r.hits.deep_view()[k].span.end <= req.text@.len(),
    {
        let fuzzy = match req.fuzzy {
            Some(b) => b,
            None => true,
        };
        let resp = self.parse(req.text.as_str(), fuzzy);
        let ghost hits0 = resp.hits.deep_view();
        match &req.kinds {
            None => resp,
            Some(ks) => {
                let n = resp.hits.len();
                let mut kept: Vec<EntityHit> = Vec::new();
                let hits_in = resp.hits;
                let ghost hv = hits_in.deep_view();
                let mut i: usize = 0;
                proof {
                    assert(kind_filter(hv.take(0), ks.deep_view()) =~= Seq::<HitV>::empty());
                }
                while i < n
                    invariant
                        n == hits_in@.len(),
                        hv == hits_in.deep_view(),
                        0 <= i <= n,
                        kept.deep_view() == kind_filter(hv.take(i as int), ks.deep_view()),
                        forall|k: int|
                            0 <= k < kept.deep_view().len() ==> (
                            #[trigger] kept.deep_view()[k]).span.start
                                <= kept.deep_view()[k].span.end <= req.text@.len(),
                    decreases n - i,
                {
                    let ghost old_kept = kept.deep_view();
                    proof {
                        assert(hits_in@[i as int].deep_view() == hv[i as int]);
                        assert(hv.take(i + 1).drop_last() =~= hv.take(i as int));
                        assert(hv.take(i + 1).last() == hv[i as int]);
                    }
                    if kind_in(ks, &hits_in[i].kind) {
                        let h = hits_in[i].clone_hit();
                        kept.push(h);
                        proof {
                            assert(kept.deep_view() =~= old_kept.push(hv[i as int]));
                        }
                    }
                    i = i + 1;
                }
                proof {
                    assert(hv.take(n as int) =~= hv);
                }
                ParseResponse { hits: kept, tokens: resp.tokens }
            },
        }
    }
}

/// A hit's span lies within the text.
pub open spec fn hit_bounded(h: HitV, n: int) -> bool {
    h.span.start <= h.span.end <= n
}

/// Whether a kind is among a list of kinds.
fn kind_in(ks: &Vec<Kind>, k: &Kind) -> (r: bool)
    ensures
        r == ks.deep_view().contains(k.deep_view()),
{
    let n = ks.len();
    let mut i: usize = 0;
    while i < n
        invariant
            n == ks@.len(),
            0 <= i <= n,
            forall|p: int| 0 <= p < i ==> (#[trigger] ks@[p]).deep_view() != k.deep_view(),
        decreases n - i,
    {
        if &ks[i] == k {
            proof {
                assert(ks.deep_view()[i as int] == ks@[i as int].deep_view());
            }
            return true;
        }
        i = i + 1;
    }
    proof {
        assert forall|p: int| 0 <= p < ks.deep_view().len() implies ks.deep_view()[p]
            != k.deep_view() by {
            assert(ks.deep_view()[p] == ks@[p].deep_view());
        }
    }
    false
}

} // verus!

verus! {

proof fn lemma_final_insert_sorted(s: Seq<HitV>, h: HitV)
    requires
        forall|i: int, j: int| 0 <= i < j < s.len() ==> !final_after(#[trigger] s[i], #[trigger] s[j]),
    ensures
        ({
            let r = final_insert(s, h);
            forall|i: int, j: int|
                0 <= i < j < r.len() ==> !final_after(#[trigger] r[i], #[trigger] r[j])
        }),
    decreases s.len(),
{
    if s.len() != 0 && final_after(s.last(), h) {
        lemma_final_insert_sorted(s.drop_last(), h);
        lemma_final_insert_members(s.drop_last(), h);
        let r0 = final_insert(s.drop_last(), h);
        let r = r0.push(s.last());
        assert forall|i: int, j: int| 0 <= i < j < r.len() implies !final_after(
            #[trigger] r[i],
            #[trigger] r[j],
        ) by {
            if j == r.len() - 1 {
                assert(r[j] == s.last());
                assert(r[i] == r0[i]);
                if exists|q: int| 0 <= q < s.drop_last().len() && r0[i] == s.drop_last()[q] {
                    let q = choose|q: int| 0 <= q < s.drop_last().len() && r0[i] == s.drop_last()[q];
                    assert(s[q] == r[i]);
                } else {
                    assert(r[i] == h);
                }
            }
        }
    }
}

/// The response order law: the hits of the final sort come in start order,
/// and hits starting at the same position come in descending score order;
/// `parse` returns its hits in exactly this order.
pub proof fn lemma_final_sort_sorted(s: Seq<HitV>)
    ensures
        forall|i: int, j: int|
            0 <= i < j < final_sort(s).len() ==> !final_after(
                #[trigger] final_sort(s)[i],
                #[trigger] final_sort(s)[j],
            ),
    decreases s.len(),
{
    if s.len() != 0 {
        lemma_final_sort_sorted(s.drop_last());
        lemma_final_insert_sorted(final_sort(s.drop_last()), s.last());
    }
}

} // verus!
