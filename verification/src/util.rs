//! Hit utilities: overlap resolution (merge/dedupe) and its ordering laws.
//!
//! `dedupe_merge` resolves a set of possibly-overlapping hits into a set of
//! mutually non-overlapping hits, preferring higher scores and, on equal
//! scores, longer spans.

use vstd::prelude::*;

use crate::textops::{
    is_alphanumeric_char, is_uppercase_char, is_whitespace_char, alnum_char, upper_char, white_char,
    words_of,
};
use crate::rex::{re_find_spans, re_valid};
use crate::textops::lower_of;
use crate::types::{EntityHit, HitSource, HitV, Kind, KindV, Span, hits_overlap};
use vstd::string::StrSliceExecFns;

verus! {

broadcast use vstd::seq_lib::group_seq_lib_default, vstd::seq_lib::group_seq_properties;

/// Merge-order comparison: `a` sorts strictly after `b` when it starts later,
/// or starts at the same position with a shorter span.
pub open spec fn merge_after(a: HitV, b: HitV) -> bool {
    a.span.start > b.span.start || (a.span.start == b.span.start && a.span_len() < b.span_len())
}

/// Stable insertion of `h` into a sequence sorted by the merge order.
pub open spec fn merge_insert(s: Seq<HitV>, h: HitV) -> Seq<HitV>
    decreases s.len(),
{
    if s.len() == 0 {
        seq![h]
    } else if merge_after(s.last(), h) {
        merge_insert(s.drop_last(), h).push(s.last())
    } else {
        s.push(h)
    }
}

/// The stable sort of hits by (start ascending, span length descending).
pub open spec fn merge_sort_hits(s: Seq<HitV>) -> Seq<HitV>
    decreases s.len(),
{
    if s.len() == 0 {
        Seq::empty()
    } else {
        merge_insert(merge_sort_hits(s.drop_last()), s.last())
    }
}

/// Index of the first already-kept hit that overlaps `h`, if any.
pub open spec fn first_overlap_from(out: Seq<HitV>, h: HitV, i: int) -> Option<int>
    decreases out.len() - i,
{
    if i < 0 || i >= out.len() {
        None
    } else if hits_overlap(out[i], h) {
        Some(i)
    } else {
        first_overlap_from(out, h, i + 1)
    }
}

/// Whether a new hit `h` displaces the kept hit `o` it overlaps: strictly
/// higher score, or equal score and strictly longer span.
pub open spec fn displaces(o: HitV, h: HitV) -> bool {
    h.score > o.score || (h.score == o.score && h.span_len() > o.span_len())
}

/// One step of overlap resolution: `h` either displaces the first kept hit it
/// overlaps, loses to it, or is appended as newly kept.
pub open spec fn dedupe_step(out: Seq<HitV>, h: HitV) -> Seq<HitV> {
    match first_overlap_from(out, h, 0) {
        Some(k) => if displaces(out[k], h) {
            out.update(k, h)
        } else {
            out
        },
        None => out.push(h),
    }
}

/// Overlap resolution over a whole (sorted) sequence, left to right.
pub open spec fn dedupe_fold(s: Seq<HitV>) -> Seq<HitV>
    decreases s.len(),
{
    if s.len() == 0 {
        Seq::empty()
    } else {
        dedupe_step(dedupe_fold(s.drop_last()), s.last())
    }
}

/// The value computed by `dedupe_merge`: hits sorted by (start ascending,
/// length descending), then folded left to right, each hit displacing, losing
/// to, or standing beside the hits kept before it.
pub open spec fn dedupe_merge_spec(s: Seq<HitV>) -> Seq<HitV> {
    dedupe_fold(merge_sort_hits(s))
}

/// No two hits of `s` overlap.
pub open spec fn pairwise_non_overlapping(s: Seq<HitV>) -> bool {
    forall|i: int, j: int| 0 <= i < j < s.len() ==> !hits_overlap(#[trigger] s[i], #[trigger] s[j])
}

/// Hits sorted by start position.
pub open spec fn hits_sorted_by_start(s: Seq<HitV>) -> bool {
    forall|i: int, j: int|
        0 <= i < j < s.len() ==> (#[trigger] s[i]).span.start <= (#[trigger] s[j]).span.start
}

proof fn lemma_first_overlap_from(out: Seq<HitV>, h: HitV, i: int)
    requires
        0 <= i,
    ensures
        match first_overlap_from(out, h, i) {
            Some(k) => i <= k < out.len() && hits_overlap(out[k], h) && (forall|p: int|
                i <= p < k ==> !hits_overlap(#[trigger] out[p], h)),
            None => forall|p: int| i <= p < out.len() ==> !hits_overlap(#[trigger] out[p], h),
        },
    decreases out.len() - i,
{
    if i < out.len() && !hits_overlap(out[i], h) {
        lemma_first_overlap_from(out, h, i + 1);
    }
}

proof fn lemma_merge_insert_props(s: Seq<HitV>, h: HitV)
    ensures
        ({
            let r = merge_insert(s, h);
            &&& r.len() == s.len() + 1
            &&& forall|p: int| 0 <= p < r.len() ==> (exists|q: int|
                0 <= q < s.len() && #[trigger] r[p] == s[q]) || r[p] == h
        }),
    decreases s.len(),
{
    if s.len() != 0 && merge_after(s.last(), h) {
        lemma_merge_insert_props(s.drop_last(), h);
        let r0 = merge_insert(s.drop_last(), h);
        let r = r0.push(s.last());
        assert forall|p: int| 0 <= p < r.len() implies (exists|q: int|
            0 <= q < s.len() && #[trigger] r[p] == s[q]) || r[p] == h by {
            if p < r0.len() {
                assert(r[p] == r0[p]);
                if exists|q: int| 0 <= q < s.drop_last().len() && r0[p] == s.drop_last()[q] {
                    let q = choose|q: int| 0 <= q < s.drop_last().len() && r0[p] == s.drop_last()[q];
                    assert(r[p] == s[q]);
                }
            } else {
                assert(r[p] == s[s.len() - 1]);
            }
        }
    }
}

proof fn lemma_merge_insert_sorted(s: Seq<HitV>, h: HitV)
    requires
        hits_sorted_by_start(s),
        forall|i: int, j: int|
            0 <= i < j < s.len() && (#[trigger] s[i]).span.start == (#[trigger] s[j]).span.start
                ==> s[i].span_len() >= s[j].span_len(),
    ensures
        ({
            let r = merge_insert(s, h);
            &&& hits_sorted_by_start(r)
            &&& forall|i: int, j: int|
                0 <= i < j < r.len() && (#[trigger] r[i]).span.start == (
                #[trigger] r[j]).span.start ==> r[i].span_len() >= r[j].span_len()
        }),
    decreases s.len(),
{
    if s.len() != 0 && merge_after(s.last(), h) {
        lemma_merge_insert_sorted(s.drop_last(), h);
        lemma_merge_insert_props(s.drop_last(), h);
        let r0 = merge_insert(s.drop_last(), h);
        let r = r0.push(s.last());
        assert forall|i: int, j: int| 0 <= i < j < r.len() implies {
            &&& (#[trigger] r[i]).span.start <= (#[trigger] r[j]).span.start
            &&& (r[i].span.start == r[j].span.start ==> r[i].span_len() >= r[j].span_len())
        } by {
            if j == r.len() - 1 {
                assert(r[j] == s.last());
                assert(r[i] == r0[i]);
                if exists|q: int| 0 <= q < s.drop_last().len() && r0[i] == s.drop_last()[q] {
                    let q = choose|q: int| 0 <= q < s.drop_last().len() && r0[i] == s.drop_last()[q];
                    assert(s[q] == r[i]);
                } else {
                    assert(r[i] == h);
                }
            }
        }
    }
}

proof fn lemma_merge_sort_props(s: Seq<HitV>)
    ensures
        ({
            let r = merge_sort_hits(s);
            &&& r.len() == s.len()
            &&& hits_sorted_by_start(r)
            &&& forall|p: int| 0 <= p < r.len() ==> exists|q: int|
                0 <= q < s.len() && #[trigger] r[p] == s[q]
        }),
    decreases s.len(),
{
    if s.len() != 0 {
        lemma_merge_sort_props(s.drop_last());
        let r0 = merge_sort_hits(s.drop_last());
        lemma_merge_insert_props(r0, s.last());
        lemma_merge_sort_ties(s);
        let r = merge_insert(r0, s.last());
        assert forall|p: int| 0 <= p < r.len() implies exists|q: int|
            0 <= q < s.len() && #[trigger] r[p] == s[q] by {
            if exists|q: int| 0 <= q < r0.len() && r[p] == r0[q] {
                let q = choose|q: int| 0 <= q < r0.len() && r[p] == r0[q];
                let q2 = choose|q2: int| 0 <= q2 < s.drop_last().len() && r0[q] == s.drop_last()[q2];
                assert(r[p] == s[q2]);
            } else {
                assert(r[p] == s[s.len() - 1]);
            }
        }
    }
}

/// The sorted sequence also orders equal starts by descending span length.
proof fn lemma_merge_sort_ties(s: Seq<HitV>)
    ensures
        ({
            let r = merge_sort_hits(s);
            &&& hits_sorted_by_start(r)
            &&& forall|i: int, j: int|
                0 <= i < j < r.len() && (#[trigger] r[i]).span.start == (
                #[trigger] r[j]).span.start ==> r[i].span_len() >= r[j].span_len()
        }),
    decreases s.len(),
{
    if s.len() != 0 {
        lemma_merge_sort_ties(s.drop_last());
        lemma_merge_insert_sorted(merge_sort_hits(s.drop_last()), s.last());
    }
}

/// A new hit that starts at or after every kept hit's start overlaps at most
/// one hit of a pairwise non-overlapping list.
proof fn lemma_at_most_one_overlap(out: Seq<HitV>, h: HitV, i: int, j: int)
    requires
        pairwise_non_overlapping(out),
        forall|p: int| 0 <= p < out.len() ==> (#[trigger] out[p]).span.start <= h.span.start,
        0 <= i < j < out.len(),
        hits_overlap(out[i], h),
    ensures
        !hits_overlap(out[j], h),
{
    assert(!hits_overlap(out[i], out[j]));
}

/// One dedupe step preserves pairwise non-overlap, provided the new hit
/// starts no earlier than every kept hit.
proof fn lemma_dedupe_step_inv(out: Seq<HitV>, h: HitV)
    requires
        pairwise_non_overlapping(out),
        forall|p: int| 0 <= p < out.len() ==> (#[trigger] out[p]).span.start <= h.span.start,
    ensures
        ({
            let r = dedupe_step(out, h);
            &&& pairwise_non_overlapping(r)
            &&& forall|p: int| 0 <= p < r.len() ==> (exists|q: int|
                0 <= q < out.len() && #[trigger] r[p] == out[q]) || r[p] == h
        }),
{
    lemma_first_overlap_from(out, h, 0);
    match first_overlap_from(out, h, 0) {
        Some(k) => {
            if displaces(out[k], h) {
                let r = out.update(k, h);
                assert forall|i: int, j: int| 0 <= i < j < r.len() implies !hits_overlap(
                    #[trigger] r[i],
                    #[trigger] r[j],
                ) by {
                    if i == k {
                        if hits_overlap(h, out[j]) {
                            assert(hits_overlap(out[j], h));
                            if k < j {
                                lemma_at_most_one_overlap(out, h, k, j);
                            }
                        }
                    } else if j == k {
                        if hits_overlap(out[i], h) {
                            assert(i < k);
                            assert(!hits_overlap(out[i], h));
                        }
                    }
                }
            }
        },
        None => {
            let r = out.push(h);
            assert forall|i: int, j: int| 0 <= i < j < r.len() implies !hits_overlap(
                #[trigger] r[i],
                #[trigger] r[j],
            ) by {
                if j == r.len() - 1 {
                    assert(!hits_overlap(out[i], h));
                }
            }
        },
    }
}

proof fn lemma_dedupe_fold_inv(s: Seq<HitV>)
    requires
        hits_sorted_by_start(s),
    ensures
        ({
            let r = dedupe_fold(s);
            &&& pairwise_non_overlapping(r)
            &&& forall|p: int| 0 <= p < r.len() ==> exists|q: int|
                0 <= q < s.len() && #[trigger] r[p] == s[q]
        }),
    decreases s.len(),
{
    if s.len() != 0 {
        lemma_dedupe_fold_inv(s.drop_last());
        let out = dedupe_fold(s.drop_last());
        let h = s.last();
        assert forall|p: int| 0 <= p < out.len() implies (#[trigger] out[p]).span.start
            <= h.span.start by {
            let q = choose|q: int| 0 <= q < s.drop_last().len() && out[p] == s.drop_last()[q];
            assert(out[p] == s[q]);
        }
        lemma_dedupe_step_inv(out, h);
        let r = dedupe_fold(s);
        assert forall|p: int| 0 <= p < r.len() implies exists|q: int|
            0 <= q < s.len() && #[trigger] r[p] == s[q] by {
            if exists|q: int| 0 <= q < out.len() && r[p] == out[q] {
                let q = choose|q: int| 0 <= q < out.len() && r[p] == out[q];
                let q2 = choose|q2: int| 0 <= q2 < s.drop_last().len() && out[q] == s.drop_last()[q2];
                assert(r[p] == s[q2]);
            } else {
                assert(r[p] == s[s.len() - 1]);
            }
        }
    }
}

/// Overlap resolution always yields pairwise non-overlapping hits: for any
/// input hits whatsoever, no two hits returned by `dedupe_merge` overlap.
pub proof fn lemma_dedupe_merge_non_overlapping(hits: Seq<HitV>)
    ensures
        pairwise_non_overlapping(dedupe_merge_spec(hits)),
{
    lemma_merge_sort_props(hits);
    lemma_dedupe_fold_inv(merge_sort_hits(hits));
}

/// Every hit that `dedupe_merge` keeps is one of the input hits.
pub proof fn lemma_dedupe_merge_members(hits: Seq<HitV>)
    ensures
        forall|p: int| 0 <= p < dedupe_merge_spec(hits).len() ==> exists|q: int|
            0 <= q < hits.len() && #[trigger] dedupe_merge_spec(hits)[p] == hits[q],
{
    lemma_merge_sort_props(hits);
    lemma_dedupe_fold_inv(merge_sort_hits(hits));
    let m = merge_sort_hits(hits);
    let r = dedupe_fold(m);
    assert forall|p: int| 0 <= p < r.len() implies exists|q: int|
        0 <= q < hits.len() && #[trigger] r[p] == hits[q] by {
        let q = choose|q: int| 0 <= q < m.len() && r[p] == m[q];
        let q2 = choose|q2: int| 0 <= q2 < hits.len() && m[q] == hits[q2];
        assert(r[p] == hits[q2]);
    }
}

/// Of two overlapping hits, in either input order, `dedupe_merge` keeps
/// exactly one: the higher-scoring hit when the scores differ, else the hit
/// with the longer span when the lengths differ.
pub proof fn lemma_dedupe_merge_overlap_pair(a: HitV, b: HitV)
    requires
        hits_overlap(a, b),
    ensures
        a.score > b.score ==> dedupe_merge_spec(seq![a, b]) =~= seq![a] && dedupe_merge_spec(
            seq![b, a],
        ) =~= seq![a],
        b.score > a.score ==> dedupe_merge_spec(seq![a, b]) =~= seq![b] && dedupe_merge_spec(
            seq![b, a],
        ) =~= seq![b],
        a.score == b.score && a.span_len() > b.span_len() ==> dedupe_merge_spec(seq![a, b])
            =~= seq![a] && dedupe_merge_spec(seq![b, a]) =~= seq![a],
        a.score == b.score && b.span_len() > a.span_len() ==> dedupe_merge_spec(seq![a, b])
            =~= seq![b] && dedupe_merge_spec(seq![b, a]) =~= seq![b],
{
    lemma_pair_outcome(a, b);
    lemma_pair_outcome(b, a);
}

/// The outcome of `dedupe_merge` on the two-element input `[x, y]`.
proof fn lemma_pair_outcome(x: HitV, y: HitV)
    requires
        hits_overlap(x, y),
    ensures
        x.score > y.score ==> dedupe_merge_spec(seq![x, y]) =~= seq![x],
        y.score > x.score ==> dedupe_merge_spec(seq![x, y]) =~= seq![y],
        x.score == y.score && x.span_len() > y.span_len() ==> dedupe_merge_spec(seq![x, y])
            =~= seq![x],
        x.score == y.score && y.span_len() > x.span_len() ==> dedupe_merge_spec(seq![x, y])
            =~= seq![y],
{
    let s = seq![x, y];
    assert(s.drop_last() =~= seq![x]);
    assert(seq![x].drop_last() =~= Seq::<HitV>::empty());
    assert(merge_sort_hits(seq![x]) =~= seq![x]) by {
        assert(merge_sort_hits(Seq::<HitV>::empty()) =~= Seq::<HitV>::empty());
        assert(merge_insert(Seq::<HitV>::empty(), x) =~= seq![x]);
    }
    let m = merge_sort_hits(s);
    assert(m == merge_insert(seq![x], y));
    // overlap is symmetric in the span test
    assert(hits_overlap(y, x));
    if merge_after(x, y) {
        assert(merge_insert(Seq::<HitV>::empty(), y) =~= seq![y]);
        assert(m =~= seq![y].push(x));
        assert(m =~= seq![y, x]);
        assert(m.drop_last() =~= seq![y]);
        lemma_fold_pair(y, x);
    } else {
        assert(merge_insert(seq![x], y) == seq![x].push(y));
        assert(m =~= seq![x, y]);
        assert(m.drop_last() =~= seq![x]);
        lemma_fold_pair(x, y);
    }
}

/// The outcome of the dedupe fold on a sorted two-element sequence.
proof fn lemma_fold_pair(p: HitV, q: HitV)
    requires
        hits_overlap(p, q),
    ensures
        displaces(p, q) ==> dedupe_fold(seq![p, q]) =~= seq![q],
        !displaces(p, q) ==> dedupe_fold(seq![p, q]) =~= seq![p],
{
    let s = seq![p, q];
    assert(s.drop_last() =~= seq![p]);
    assert(seq![p].drop_last() =~= Seq::<HitV>::empty());
    assert(dedupe_fold(Seq::<HitV>::empty()) =~= Seq::<HitV>::empty());
    assert(first_overlap_from(Seq::<HitV>::empty(), p, 0) is None);
    assert(dedupe_fold(seq![p]) =~= seq![p]);
    assert(hits_overlap(seq![p][0], q));
    assert(first_overlap_from(seq![p], q, 0) == Some(0int));
    if displaces(p, q) {
        assert(dedupe_step(seq![p], q) =~= seq![p].update(0, q));
        assert(seq![p].update(0, q) =~= seq![q]);
    } else {
        assert(dedupe_step(seq![p], q) =~= seq![p]);
    }
}

} // verus!

verus! {

/// A hit's span is a well-formed range.
pub open spec fn hit_span_wf(h: HitV) -> bool {
    h.span.start <= h.span.end
}

/// All hits have well-formed spans.
pub open spec fn hits_wf(s: Seq<HitV>) -> bool {
    forall|i: int| 0 <= i < s.len() ==> hit_span_wf(#[trigger] s[i])
}

/// All hits of an executable vector have well-formed spans.
pub open spec fn vec_hits_wf(v: Seq<EntityHit>) -> bool {
    forall|i: int| 0 <= i < v.len() ==> hit_span_wf((#[trigger] v[i]).deep_view())
}

fn merge_after_exec(a: &EntityHit, b: &EntityHit) -> (r: bool)
    requires
        hit_span_wf(a.deep_view()),
        hit_span_wf(b.deep_view()),
    ensures
        r == merge_after(a.deep_view(), b.deep_view()),
{
    a.span.start > b.span.start || (a.span.start == b.span.start && a.span.end - a.span.start
        < b.span.end - b.span.start)
}

proof fn lemma_merge_insert_prefix(s: Seq<HitV>, h: HitV, j: int)
    requires
        0 <= j <= s.len(),
        forall|k: int| j <= k < s.len() ==> merge_after(#[trigger] s[k], h),
        j > 0 ==> !merge_after(s[j - 1], h),
    ensures
        merge_insert(s, h) == s.insert(j, h),
    decreases s.len(),
{
    if s.len() == 0 {
        assert(merge_insert(s, h) =~= s.insert(j, h));
    } else if merge_after(s.last(), h) {
        lemma_merge_insert_prefix(s.drop_last(), h, j);
        assert(merge_insert(s, h) =~= s.insert(j, h));
    } else {
        assert(j == s.len());
        assert(merge_insert(s, h) =~= s.insert(j, h));
    }
}

/// Sort hits by (start ascending, span length descending), stably.
fn sort_hits_for_merge(hits: Vec<EntityHit>) -> (r: Vec<EntityHit>)
    requires
        hits_wf(hits.deep_view()),
    ensures
        r.deep_view() == merge_sort_hits(hits.deep_view()),
{
    let ghost all = hits.deep_view();
    let mut v = hits;
    let mut r: Vec<EntityHit> = Vec::new();
    let ghost mut taken: int = 0;
    proof {
        assert(all.take(0) =~= Seq::<HitV>::empty());
    }
    while v.len() > 0
        invariant
            0 <= taken <= all.len(),
            v.deep_view() =~= all.skip(taken),
            r.deep_view() == merge_sort_hits(all.take(taken)),
            hits_wf(all),
            vec_hits_wf(r@),
        decreases v@.len(),
    {
        let ghost old_v = v.deep_view();
        let ghost old_r = r.deep_view();
        proof {
            assert(all.skip(taken).len() > 0);
            assert(taken < all.len());
            vstd::seq_lib::lemma_seq_skip_index(all, taken, 0);
            assert(old_v[0] == all.skip(taken)[0]);
            assert(all.skip(taken)[0] == all[taken]);
        }
        let h = v.remove(0);
        proof {
            assert(h.deep_view() == old_v[0]);
            assert(v.deep_view() =~= old_v.drop_first());
            assert(v.deep_view() =~= all.skip(taken + 1));
            assert(h.deep_view() == all[taken]);
        }
        let mut j: usize = r.len();
        while j > 0 && merge_after_exec(&r[j - 1], &h)
            invariant
                0 <= j <= r@.len(),
                r.deep_view() == old_r,
                vec_hits_wf(r@),
                hit_span_wf(h.deep_view()),
                forall|k: int|
                    j <= k < r.deep_view().len() ==> merge_after(
                        #[trigger] r.deep_view()[k],
                        h.deep_view(),
                    ),
            decreases j,
        {
            proof {
                assert(r@[j - 1].deep_view() == r.deep_view()[j - 1]);
            }
            j = j - 1;
        }
        proof {
            if j > 0 {
                assert(r@[j - 1].deep_view() == r.deep_view()[j - 1]);
            }
            lemma_merge_insert_prefix(r.deep_view(), h.deep_view(), j as int);
        }
        r.insert(j, h);
        proof {
            assert(r.deep_view() =~= old_r.insert(j as int, h.deep_view()));
            assert(all.take(taken + 1).drop_last() =~= all.take(taken));
            assert(all.take(taken + 1).last() == all[taken]);
            taken = taken + 1;
            lemma_merge_sort_props(all.take(taken));
            assert forall|i: int| 0 <= i < r@.len() implies hit_span_wf(
                (#[trigger] r@[i]).deep_view(),
            ) by {
                assert(r@[i].deep_view() == r.deep_view()[i]);
                let q = choose|q: int|
                    0 <= q < all.take(taken).len() && r.deep_view()[i] == all.take(taken)[q];
            }
        }
    }
    proof {
        assert(all.skip(taken) =~= v.deep_view());
        assert(taken == all.len());
        assert(all.take(taken) =~= all);
    }
    r
}

fn overlaps_exec(o: &EntityHit, h: &EntityHit) -> (r: bool)
    ensures
        r == hits_overlap(o.deep_view(), h.deep_view()),
{
    !(h.span.end <= o.span.start || h.span.start >= o.span.end)
}

fn displaces_exec(o: &EntityHit, h: &EntityHit) -> (r: bool)
    requires
        hit_span_wf(o.deep_view()),
        hit_span_wf(h.deep_view()),
    ensures
        r == displaces(o.deep_view(), h.deep_view()),
{
    h.score > o.score || (h.score == o.score && h.span.end - h.span.start > o.span.end
        - o.span.start)
}

/// Deduplicate and merge overlapping hits. The hits are sorted by (start
/// ascending, span length descending); each hit in turn then either displaces
/// the first kept hit it overlaps (when it scores higher, or scores equally
/// with a longer span), loses to it, or is kept alongside. The result is a
/// set of mutually non-overlapping hits.
pub fn dedupe_merge(hits: Vec<EntityHit>) -> (r: Vec<EntityHit>)
    requires
        hits_wf(hits.deep_view()),
    ensures
        r.deep_view() == dedupe_merge_spec(hits.deep_view()),
        pairwise_non_overlapping(r.deep_view()),
        hits_wf(r.deep_view()),
{
    let ghost input = hits.deep_view();
    let mut v = sort_hits_for_merge(hits);
    let ghost sorted = v.deep_view();
    let mut out: Vec<EntityHit> = Vec::new();
    let ghost mut taken: int = 0;
    proof {
        assert(sorted.take(0) =~= Seq::<HitV>::empty());
        lemma_merge_sort_props(input);
        assert(hits_wf(sorted)) by {
            assert forall|i: int| 0 <= i < sorted.len() implies hit_span_wf(
                #[trigger] sorted[i],
            ) by {
                let q = choose|q: int| 0 <= q < input.len() && sorted[i] == input[q];
            }
        }
    }
    while v.len() > 0
        invariant
            0 <= taken <= sorted.len(),
            v.deep_view() =~= sorted.skip(taken),
            out.deep_view() == dedupe_fold(sorted.take(taken)),
            hits_wf(sorted),
            vec_hits_wf(out@),
        decreases v@.len(),
    {
        let ghost old_v = v.deep_view();
        let ghost old_out = out.deep_view();
        proof {
            assert(sorted.skip(taken).len() > 0);
            assert(taken < sorted.len());
            vstd::seq_lib::lemma_seq_skip_index(sorted, taken, 0);
            assert(old_v[0] == sorted.skip(taken)[0]);
            assert(sorted.skip(taken)[0] == sorted[taken]);
        }
        let h = v.remove(0);
        proof {
            assert(h.deep_view() == old_v[0]);
            assert(v.deep_view() =~= old_v.drop_first());
            assert(v.deep_view() =~= sorted.skip(taken + 1));
            assert(h.deep_view() == sorted[taken]);
        }
        let mut k: usize = 0;
        let mut found: bool = false;
        while k < out.len() && !found
            invariant
                0 <= k <= out@.len(),
                out.deep_view() == old_out,
                !found ==> forall|p: int|
                    0 <= p < k ==> !hits_overlap(#[trigger] out.deep_view()[p], h.deep_view()),
                found ==> k < out@.len() && hits_overlap(out.deep_view()[k as int], h.deep_view())
                    && (forall|p: int|
                    0 <= p < k ==> !hits_overlap(#[trigger] out.deep_view()[p], h.deep_view())),
            decreases out@.len() - k + (if found {
                0int
            } else {
                1int
            }),
        {
            if overlaps_exec(&out[k], &h) {
                proof {
                    assert(out@[k as int].deep_view() == out.deep_view()[k as int]);
                }
                found = true;
            } else {
                proof {
                    assert(out@[k as int].deep_view() == out.deep_view()[k as int]);
                }
                k = k + 1;
            }
        }
        proof {
            lemma_first_overlap_from(old_out, h.deep_view(), 0);
            if found {
                assert(first_overlap_from(old_out, h.deep_view(), 0) == Some(k as int)) by {
                    if first_overlap_from(old_out, h.deep_view(), 0) is Some {
                        let kk = first_overlap_from(old_out, h.deep_view(), 0)->Some_0;
                        if kk < k {
                            assert(!hits_overlap(old_out[kk], h.deep_view()));
                        } else if kk > k {
                            assert(!hits_overlap(old_out[k as int], h.deep_view()));
                        }
                    } else {
                        assert(!hits_overlap(old_out[k as int], h.deep_view()));
                    }
                }
            } else {
                assert(first_overlap_from(old_out, h.deep_view(), 0) is None) by {
                    if first_overlap_from(old_out, h.deep_view(), 0) is Some {
                        let kk = first_overlap_from(old_out, h.deep_view(), 0)->Some_0;
                        assert(!hits_overlap(old_out[kk], h.deep_view()));
                    }
                }
            }
        }
        if found {
            if displaces_exec(&out[k], &h) {
                let _ = out.remove(k);
                out.insert(k, h);
                proof {
                    assert(out.deep_view() =~= old_out.update(k as int, h.deep_view()));
                }
            } else {
                proof {
                    assert(out.deep_view() =~= old_out);
                }
            }
        } else {
            out.push(h);
            proof {
                assert(out.deep_view() =~= old_out.push(h.deep_view()));
            }
        }
        proof {
            assert(sorted.take(taken + 1).drop_last() =~= sorted.take(taken));
            assert(sorted.take(taken + 1).last() == sorted[taken]);
            taken = taken + 1;
            assert(out.deep_view() == dedupe_fold(sorted.take(taken)));
            assert(vec_hits_wf(out@)) by {
                lemma_dedupe_fold_sorted_members(sorted.take(taken));
                assert forall|i: int| 0 <= i < out@.len() implies hit_span_wf(
                    (#[trigger] out@[i]).deep_view(),
                ) by {
                    assert(out@[i].deep_view() == out.deep_view()[i]);
                    let q = choose|q: int|
                        0 <= q < sorted.take(taken).len() && out.deep_view()[i] == sorted.take(
                            taken,
                        )[q];
                }
            }
        }
    }
    proof {
        assert(taken == sorted.len());
        assert(sorted.take(taken) =~= sorted);
        lemma_merge_sort_props(input);
        lemma_dedupe_fold_inv(sorted);
        assert forall|i: int| 0 <= i < out.deep_view().len() implies hit_span_wf(
            #[trigger] out.deep_view()[i],
        ) by {
            assert(out@[i].deep_view() == out.deep_view()[i]);
        }
    }
    out
}

/// Every hit kept by the fold is one of the folded hits (without assuming
/// sortedness).
proof fn lemma_dedupe_fold_sorted_members(s: Seq<HitV>)
    ensures
        forall|p: int| 0 <= p < dedupe_fold(s).len() ==> exists|q: int|
            0 <= q < s.len() && #[trigger] dedupe_fold(s)[p] == s[q],
    decreases s.len(),
{
    if s.len() != 0 {
        lemma_dedupe_fold_sorted_members(s.drop_last());
        let out = dedupe_fold(s.drop_last());
        let h = s.last();
        let r = dedupe_fold(s);
        lemma_first_overlap_from(out, h, 0);
        assert forall|p: int| 0 <= p < r.len() implies exists|q: int|
            0 <= q < s.len() && #[trigger] r[p] == s[q] by {
            if r[p] == h {
                assert(r[p] == s[s.len() - 1]);
            } else {
                match first_overlap_from(out, h, 0) {
                    Some(k) => {
                        assert(out[p] == r[p] || (displaces(out[k], h) && p != k && out[p] == r[p])
                            || r[p] == h);
                    },
                    None => {
                        assert(p < out.len() ==> r[p] == out[p]);
                    },
                }
                let q = choose|q: int|
                    0 <= q < s.drop_last().len() && r[p] == s.drop_last()[q];
                assert(r[p] == s[q]);
            }
        }
    }
}

} // verus!

verus! {

/// The greatest index below `b` holding a whitespace character, if any.
pub open spec fn last_ws_before(s: Seq<char>, b: int) -> Option<int>
    decreases b,
{
    if b <= 0 || b > s.len() {
        None
    } else if white_char(s[b - 1]) {
        Some(b - 1)
    } else {
        last_ws_before(s, b - 1)
    }
}

/// The word run immediately left of position `b`: the characters after the
/// last whitespace before `b`, or nothing when no whitespace precedes `b`.
pub open spec fn left_context(s: Seq<char>, b: int) -> Seq<char> {
    match last_ws_before(s, b) {
        Some(k) => s.subrange(k + 1, b),
        None => Seq::empty(),
    }
}

/// The additive score boost of a hit from its immediate context, in
/// thousandths: +50 for a Person whose preceding word is a title word, +40
/// for a Place whose preceding word is a preposition, +20 for any hit whose
/// preceding word is "the", +10 when the hit's reported text starts with an
/// uppercase character. The preceding word is the left context: the word run
/// strictly after the last whitespace before the hit, so a cue fires only
/// when it abuts the hit with no whitespace between them; a hit directly
/// preceded by a space has an empty left context.
pub open spec fn context_boost(text: Seq<char>, h: HitV) -> int {
    let left = left_context(text, h.span.start as int);
    (if h.kind is Person && (left == "Lord"@ || left == "Lady"@ || left == "Queen"@ || left
        == "Captain"@ || left == "Archmage"@) {
        50int
    } else {
        0int
    }) + (if h.kind is Place && (left == "of"@ || left == "at"@ || left == "near"@) {
        40int
    } else {
        0int
    }) + (if left == "the"@ {
        20int
    } else {
        0int
    }) + (if h.span.text.len() > 0 && upper_char(h.span.text[0]) {
        10int
    } else {
        0int
    })
}

/// The context-rescored value of a hit: its score plus all applicable
/// boosts, clamped to at most 990 thousandths.
pub open spec fn context_score_spec(text: Seq<char>, h: HitV) -> int {
    let s = h.score + context_boost(text, h);
    if s >= 990 {
        990int
    } else {
        s
    }
}

proof fn lemma_last_ws_before(s: Seq<char>, b: int)
    requires
        b <= s.len(),
    ensures
        match last_ws_before(s, b) {
            Some(k) => 0 <= k < b && white_char(s[k]) && (forall|p: int|
                k < p < b ==> !white_char(s[p])),
            None => forall|p: int| 0 <= p < b ==> !white_char(s[p]),
        },
    decreases b,
{
    if b > 0 && !white_char(s[b - 1]) {
        lemma_last_ws_before(s, b - 1);
    }
}

/// Whether the character range `[lo, hi)` of `text` equals `pat`.
fn range_equals(text: &Vec<char>, lo: usize, hi: usize, pat: &Vec<char>) -> (r: bool)
    requires
        lo <= hi <= text@.len(),
    ensures
        r == (text@.subrange(lo as int, hi as int) == pat@),
{
    let n = hi - lo;
    let m = pat.len();
    if m != n {
        proof {
            assert(text@.subrange(lo as int, hi as int).len() != pat@.len());
        }
        return false;
    }
    let mut i: usize = 0;
    while i < m
        invariant
            m == n,
            n == hi - lo,
            lo <= hi <= text@.len(),
            m == pat@.len(),
            0 <= i <= m,
            forall|p: int| 0 <= p < i ==> text@[lo + p] == pat@[p],
        decreases m - i,
    {
        if text[lo + i] != pat[i] {
            proof {
                let sub = text@.subrange(lo as int, hi as int);
                assert(sub[i as int] == text@[lo + i]);
            }
            return false;
        }
        i = i + 1;
    }
    proof {
        assert(text@.subrange(lo as int, hi as int) =~= pat@);
    }
    true
}

/// Context rescoring over the text's characters.
pub fn context_score_chars(text: &Vec<char>, h: &EntityHit) -> (s: u32)
    requires
        h.span.start <= text@.len(),
    ensures
        s == context_score_spec(text@, h.deep_view()),
{
    let b = h.span.start;
    // find the last whitespace before the hit
    let mut k: usize = b;
    let mut ws: bool = false;
    while k > 0 && !ws
        invariant
            0 <= k <= b <= text@.len(),
            !ws ==> forall|p: int| k <= p < b ==> !white_char(text@[p]),
            ws ==> k > 0 && white_char(text@[k - 1]) && (forall|p: int|
                k <= p < b ==> !white_char(text@[p])),
        decreases k + (if ws {
            0int
        } else {
            1int
        }),
    {
        if is_whitespace_char(text[k - 1]) {
            ws = true;
        } else {
            k = k - 1;
        }
    }
    proof {
        lemma_last_ws_before(text@, b as int);
        if ws {
            assert(last_ws_before(text@, b as int) == Some(k - 1int)) by {
                match last_ws_before(text@, b as int) {
                    Some(q) => {
                        if q < k - 1 {
                            assert(!white_char(text@[k - 1]));
                        } else if q > k - 1 {
                            assert(!white_char(text@[q]));
                        }
                    },
                    None => {
                        assert(!white_char(text@[k - 1]));
                    },
                }
            }
        } else {
            assert(k == 0);
            assert(last_ws_before(text@, b as int) is None) by {
                if last_ws_before(text@, b as int) is Some {
                    let q = last_ws_before(text@, b as int)->Some_0;
                    assert(!white_char(text@[q]));
                }
            }
        }
    }
    // the left context is text[k..b) when a whitespace was found, else empty
    let lo = if ws {
        k
    } else {
        b
    };
    proof {
        if !ws {
            assert(left_context(text@, b as int) =~= text@.subrange(lo as int, b as int));
        }
    }
    let mut boost: u32 = 0;
    let is_person = matches!(h.kind, Kind::Person);
    let is_place = matches!(h.kind, Kind::Place);
    if is_person {
        let w1 = crate::textops::to_chars("Lord");
        let w2 = crate::textops::to_chars("Lady");
        let w3 = crate::textops::to_chars("Queen");
        let w4 = crate::textops::to_chars("Captain");
        let w5 = crate::textops::to_chars("Archmage");
        if range_equals(text, lo, b, &w1) || range_equals(text, lo, b, &w2) || range_equals(
            text,
            lo,
            b,
            &w3,
        ) || range_equals(text, lo, b, &w4) || range_equals(text, lo, b, &w5) {
            boost = boost + 50;
        }
    }
    if is_place {
        let w1 = crate::textops::to_chars("of");
        let w2 = crate::textops::to_chars("at");
        let w3 = crate::textops::to_chars("near");
        if range_equals(text, lo, b, &w1) || range_equals(text, lo, b, &w2) || range_equals(
            text,
            lo,
            b,
            &w3,
        ) {
            boost = boost + 40;
        }
    }
    let wthe = crate::textops::to_chars("the");
    if range_equals(text, lo, b, &wthe) {
        boost = boost + 20;
    }
    let tlen = h.span.text.as_str().unicode_len();
    if tlen > 0 {
        let c0 = h.span.text.as_str().get_char(0);
        if is_uppercase_char(c0) {
            boost = boost + 10;
        }
    }
    proof {
        assert(boost == context_boost(text@, h.deep_view()));
    }
    if h.score >= 990 {
        990
    } else {
        let t = h.score + boost;
        if t >= 990 {
            990
        } else {
            t
        }
    }
}

/// Calculate the context-aware score of a hit: its current score plus the
/// applicable boosts, clamped to at most 990 thousandths.
pub fn context_score(text: &str, h: &EntityHit) -> (s: u32)
    requires
        h.span.start <= text@.len(),
    ensures
        s == context_score_spec(text@, h.deep_view()),
{
    let chars = crate::textops::to_chars(text);
    context_score_chars(&chars, h)
}

/// Tokenize text into its Unicode word tokens.
pub fn tokenize(s: &str) -> (r: Vec<String>)
    ensures
        r.deep_view() == words_of(s@),
{
    crate::textops::unicode_words_vec(s)
}

} // verus!

verus! {

/// Slug folding of an already-lowercased, dash-mapped character sequence:
/// runs of characters other than `-` are kept and joined by single dashes;
/// leading, trailing and repeated dashes disappear. `acc` is the output so
/// far and `open` whether the previous character continued a kept run.
pub open spec fn slug_join(m: Seq<char>, i: int, acc: Seq<char>, open: bool) -> Seq<char>
    decreases m.len() - i,
    when 0 <= i
{
    if i >= m.len() {
        acc
    } else if m[i] == '-' {
        slug_join(m, i + 1, acc, false)
    } else if open || acc.len() == 0 {
        slug_join(m, i + 1, acc.push(m[i]), true)
    } else {
        slug_join(m, i + 1, acc.push('-').push(m[i]), true)
    }
}

/// Every character that is not alphanumeric becomes a dash.
pub open spec fn dash_mapped(s: Seq<char>) -> Seq<char> {
    s.map_values(
        |c: char|
            if alnum_char(c) {
                c
            } else {
                '-'
            },
    )
}

/// The slug of a text: the text lowercased, every non-alphanumeric character
/// replaced by a dash, and the nonempty dash-separated pieces joined by
/// single dashes.
pub open spec fn slug_of(s: Seq<char>) -> Seq<char> {
    slug_join(dash_mapped(lower_of(s)), 0, Seq::empty(), false)
}

/// Convert text to slug form: lowercase, alphanumeric runs joined by single
/// hyphens.
pub fn slugify(s: &str) -> (r: String)
    ensures
        r@ == slug_of(s@),
{
    let low = crate::textops::to_lowercase_str(s);
    let chars = crate::textops::to_chars(low.as_str());
    let ghost m = dash_mapped(low@);
    proof {
        assert(m.len() == chars@.len());
    }
    let n = chars.len();
    let mut out: Vec<char> = Vec::new();
    let mut open_run: bool = false;
    let mut i: usize = 0;
    while i < n
        invariant
            n == chars@.len(),
            m == dash_mapped(chars@),
            m.len() == n,
            0 <= i <= n,
            slug_join(m, i as int, out@, open_run) == slug_join(m, 0, Seq::empty(), false),
        decreases n - i,
    {
        let c = chars[i];
        let mc = if is_alphanumeric_char(c) {
            c
        } else {
            '-'
        };
        proof {
            assert(m[i as int] == mc);
        }
        if mc == '-' {
            open_run = false;
        } else if open_run || out.len() == 0 {
            out.push(mc);
            open_run = true;
        } else {
            out.push('-');
            out.push(mc);
            open_run = true;
        }
        i = i + 1;
    }
    crate::textops::string_from_chars(&out)
}

/// The title vocabulary used by coreference resolution.
pub open spec fn title_words_spec() -> Seq<Seq<char>> {
    seq![
        "King"@,
        "Queen"@,
        "Lord"@,
        "Lady"@,
        "Captain"@,
        "Archmage"@,
        "Commander"@,
        "Priest"@,
        "Priestess"@,
        "Duke"@,
        "Duchess"@,
        "Prince"@,
        "Princess"@,
        "Sir"@,
        "Dame"@,
    ]
}

/// Title words used for coreference resolution.
pub fn title_words() -> (r: Vec<&'static str>)
    ensures
        r.deep_view() =~= title_words_spec(),
{
    let mut r: Vec<&'static str> = Vec::new();
    r.push("King");
    r.push("Queen");
    r.push("Lord");
    r.push("Lady");
    r.push("Captain");
    r.push("Archmage");
    r.push("Commander");
    r.push("Priest");
    r.push("Priestess");
    r.push("Duke");
    r.push("Duchess");
    r.push("Prince");
    r.push("Princess");
    r.push("Sir");
    r.push("Dame");
    r
}

/// The pattern behind the fuzzy candidate detector: one to three capitalized
/// words in a row.
pub open spec fn fuzzy_pattern() -> Seq<char> {
    r"\b([A-Z][\p{L}''-]+(?:\s+[A-Z][\p{L}''-]+){0,2})\b"@
}

/// Find fuzzy candidates: capitalized phrases of one to three words, reported
/// as hits of kind `Custom("Unknown")` with source `Fuzzy` and score 500
/// thousandths. When the detector's pattern is rejected by the regex engine,
/// no candidates are reported.
pub fn fuzzy_candidates(text: &str) -> (r: Vec<EntityHit>)
    ensures
        re_valid(fuzzy_pattern()) ==> {
            let spans = re_find_spans(fuzzy_pattern(), text@);
            &&& r@.len() == spans.len()
            &&& forall|k: int| 0 <= k < r@.len() ==> {
                let h = (#[trigger] r@[k]).deep_view();
                &&& h.span.start == spans[k].0
                &&& h.span.end == spans[k].1
                &&& h.span.start <= h.span.end <= text@.len()
                &&& h.span.text == text@.subrange(spans[k].0 as int, spans[k].1 as int)
                &&& h.kind == KindV::Custom("Unknown"@)
                &&& h.source == HitSource::Fuzzy
                &&& h.score == 500
                &&& h.pattern_id is None
                &&& h.link is None
            }
        },
        forall|k: int|
            0 < k < r@.len() ==> (#[trigger] r@[k]).deep_view().span.start >= r@[k
                - 1].deep_view().span.end,
        !re_valid(fuzzy_pattern()) ==> r@.len() == 0,
{
    let mut out: Vec<EntityHit> = Vec::new();
    let re = match crate::rex::regex_new(r"\b([A-Z][\p{L}''-]+(?:\s+[A-Z][\p{L}''-]+){0,2})\b") {
        Ok(re) => re,
        Err(_) => {
            return out;
        },
    };
    let spans = crate::rex::regex_find(&re, text);
    let ghost sp = re_find_spans(fuzzy_pattern(), text@);
    let n = spans.len();
    let mut i: usize = 0;
    while i < n
        invariant
            n == spans@.len(),
            spans@ == sp,
            forall|k: int| 0 <= k < n ==> (#[trigger] spans@[k]).0 <= spans@[k].1 <= text@.len(),
            0 <= i <= n,
            out@.len() == i,
            forall|k: int| 0 <= k < i ==> {
                let h = (#[trigger] out@[k]).deep_view();
                &&& h.span.start == sp[k].0
                &&& h.span.end == sp[k].1
                &&& h.span.start <= h.span.end <= text@.len()
                &&& h.span.text == text@.subrange(sp[k].0 as int, sp[k].1 as int)
                &&& h.kind == KindV::Custom("Unknown"@)
                &&& h.source == HitSource::Fuzzy
                &&& h.score == 500
                &&& h.pattern_id is None
                &&& h.link is None
            },
        decreases n - i,
    {
        let (s, e) = spans[i];
        let piece = text.substring_char(s, e).to_owned();
        out.push(
            EntityHit {
                kind: Kind::Custom("Unknown".to_owned()),
                span: Span { start: s, end: e, text: piece },
                source: HitSource::Fuzzy,
                pattern_id: None,
                score: 500,
                link: None,
            },
        );
        i = i + 1;
    }
    out
}

/// The pattern matching coreference pronouns, lowercase only.
pub open spec fn pronoun_pattern() -> Seq<char> {
    r"\b(she|her|hers|he|him|his|they|them|theirs)\b"@
}

/// The pattern matching "the" followed by a title word, case-insensitively.
/// Its vocabulary is exactly `title_words_spec`.
pub open spec fn coref_title_pattern() -> Seq<char> {
    r"(?i)\bthe\s+(King|Queen|Lord|Lady|Captain|Archmage|Commander|Priest|Priestess|Duke|Duchess|Prince|Princess|Sir|Dame)\b"@
}

/// Find coreference candidate spans: pronouns, then "the <title>" phrases.
/// When either detector pattern is rejected by the regex engine, no
/// candidates are reported.
pub fn coref_candidates(text: &str) -> (r: Vec<Span>)
    ensures
        re_valid(pronoun_pattern()) && re_valid(coref_title_pattern()) ==> {
            let spans = re_find_spans(pronoun_pattern(), text@) + re_find_spans(
                coref_title_pattern(),
                text@,
            );
            &&& r@.len() == spans.len()
            &&& forall|k: int| 0 <= k < r@.len() ==> {
                let c = (#[trigger] r@[k]).deep_view();
                &&& c.start == spans[k].0
                &&& c.end == spans[k].1
                &&& c.start <= c.end <= text@.len()
                &&& c.text == text@.subrange(spans[k].0 as int, spans[k].1 as int)
            }
        },
        !(re_valid(pronoun_pattern()) && re_valid(coref_title_pattern())) ==> r@.len() == 0,
{
    let empty: Vec<Span> = Vec::new();
    let re_p = match crate::rex::regex_new(r"\b(she|her|hers|he|him|his|they|them|theirs)\b") {
        Ok(re) => re,
        Err(_) => {
            return empty;
        },
    };
    let re_t = match crate::rex::regex_new(
        r"(?i)\bthe\s+(King|Queen|Lord|Lady|Captain|Archmage|Commander|Priest|Priestess|Duke|Duchess|Prince|Princess|Sir|Dame)\b",
    ) {
        Ok(re) => re,
        Err(_) => {
            return empty;
        },
    };
    let mut spans = crate::rex::regex_find(&re_p, text);
    let mut spans_t = crate::rex::regex_find(&re_t, text);
    spans.append(&mut spans_t);
    let ghost sp = re_find_spans(pronoun_pattern(), text@) + re_find_spans(
        coref_title_pattern(),
        text@,
    );
    proof {
        assert(spans@ == sp);
    }
    let n = spans.len();
    let mut out: Vec<Span> = Vec::new();
    let mut i: usize = 0;
    while i < n
        invariant
            n == spans@.len(),
            spans@ == sp,
            forall|k: int| 0 <= k < n ==> (#[trigger] spans@[k]).0 <= spans@[k].1 <= text@.len(),
            0 <= i <= n,
            out@.len() == i,
            forall|k: int| 0 <= k < i ==> {
                let c = (#[trigger] out@[k]).deep_view();
                &&& c.start == sp[k].0
                &&& c.end == sp[k].1
                &&& c.start <= c.end <= text@.len()
                &&& c.text == text@.subrange(sp[k].0 as int, sp[k].1 as int)
            },
        decreases n - i,
    {
        let (s, e) = spans[i];
        let piece = text.substring_char(s, e).to_owned();
        out.push(Span { start: s, end: e, text: piece });
        i = i + 1;
    }
    out
}

} // verus!
