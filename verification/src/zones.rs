//! Stop zones: ranges of the text (code fences, inline code, quoted spans)
//! in which entity detection is suppressed.
//!
//! A zone is a half-open character range `[start, end)`. The detector scans
//! the text for triple-backtick fences, single-backtick inline code, straight
//! double- and single-quoted spans, and curly double- and single-quoted
//! spans; the collected zones are then sorted by start and merged into a
//! normalized list of separated ranges.

use vstd::prelude::*;

verus! {

/// An excluded character range `[start, end)`.
#[derive(Debug, Clone, Copy, PartialEq, Eq, Structural)]
pub struct Zone {
    pub start: usize,
    pub end: usize,
}

/// A zone is a well-formed range.
pub open spec fn zone_wf(z: Zone) -> bool {
    z.start <= z.end
}

/// Zones are normalized: each well-formed, and strictly separated in order.
pub open spec fn zones_normal(zs: Seq<Zone>) -> bool {
    &&& forall|i: int| 0 <= i < zs.len() ==> zone_wf(#[trigger] zs[i])
    &&& forall|i: int, j: int| 0 <= i < j < zs.len() ==> (#[trigger] zs[i]).end < (#[trigger] zs[j]).start
}

/// Whether the range `[start, end)` intersects the zone `z`.
pub open spec fn range_hits_zone(z: Zone, start: int, end: int) -> bool {
    !(end <= z.start || start >= z.end)
}

/// Whether the range `[start, end)` intersects any zone of `zs`.
pub open spec fn range_in_zones(zs: Seq<Zone>, start: int, end: int) -> bool {
    exists|k: int| 0 <= k < zs.len() && range_hits_zone(#[trigger] zs[k], start, end)
}

/// Index of the first occurrence of `c` in `s` at or after `i`, if any.
pub open spec fn find_char_from(s: Seq<char>, c: char, i: int) -> Option<int>
    decreases s.len() - i,
{
    if i < 0 || i >= s.len() {
        None
    } else if s[i] == c {
        Some(i)
    } else {
        find_char_from(s, c, i + 1)
    }
}

proof fn lemma_find_char_from(s: Seq<char>, c: char, i: int)
    requires
        0 <= i,
    ensures
        match find_char_from(s, c, i) {
            Some(j) => i <= j < s.len() && s[j] == c && (forall|k: int|
                i <= k < j ==> s[k] != c),
            None => forall|k: int| i <= k < s.len() ==> s[k] != c,
        },
    decreases s.len() - i,
{
    if i < s.len() && s[i] != c {
        lemma_find_char_from(s, c, i + 1);
    }
}

/// The zones found by scanning for an opening delimiter character and the
/// first closing delimiter character after it, resuming after each closed
/// span; an unclosed opener matches nothing.
pub open spec fn delimited_zones(s: Seq<char>, open: char, close: char, i: int) -> Seq<Zone>
    decreases s.len() - i,
    when 0 <= i
    via delimited_zones_dec
{
    if i >= s.len() {
        Seq::empty()
    } else if s[i] == open {
        match find_char_from(s, close, i + 1) {
            Some(j) => seq![
                Zone { start: i as usize, end: (j + 1) as usize },
            ] + delimited_zones(s, open, close, j + 1),
            None => delimited_zones(s, open, close, i + 1),
        }
    } else {
        delimited_zones(s, open, close, i + 1)
    }
}

#[via_fn]
proof fn delimited_zones_dec(s: Seq<char>, open: char, close: char, i: int) {
    if 0 <= i < s.len() && s[i] == open {
        lemma_find_char_from(s, close, i + 1);
    }
}

/// Whether a triple-backtick fence delimiter begins at position `i`.
pub open spec fn fence_at(s: Seq<char>, i: int) -> bool {
    &&& 0 <= i
    &&& i + 3 <= s.len()
    &&& s[i] == '`'
    &&& s[i + 1] == '`'
    &&& s[i + 2] == '`'
}

/// Position of the first fence delimiter at or after `i`, if any.
pub open spec fn find_fence_from(s: Seq<char>, i: int) -> Option<int>
    decreases s.len() - i,
{
    if i < 0 || i + 3 > s.len() {
        None
    } else if fence_at(s, i) {
        Some(i)
    } else {
        find_fence_from(s, i + 1)
    }
}

proof fn lemma_find_fence_from(s: Seq<char>, i: int)
    requires
        0 <= i,
    ensures
        match find_fence_from(s, i) {
            Some(j) => i <= j && fence_at(s, j) && (forall|k: int| i <= k < j ==> !fence_at(s, k)),
            None => forall|k: int| i <= k ==> !fence_at(s, k),
        },
    decreases s.len() - i,
{
    if i + 3 <= s.len() && !fence_at(s, i) {
        lemma_find_fence_from(s, i + 1);
    }
}

/// The zones of triple-backtick fenced blocks: an opening fence, the nearest
/// closing fence after it, and everything between them; an unclosed fence
/// matches nothing.
pub open spec fn fence_zones(s: Seq<char>, i: int) -> Seq<Zone>
    decreases s.len() - i,
    when 0 <= i
    via fence_zones_dec
{
    if i >= s.len() {
        Seq::empty()
    } else if fence_at(s, i) {
        match find_fence_from(s, i + 3) {
            Some(j) => seq![
                Zone { start: i as usize, end: (j + 3) as usize },
            ] + fence_zones(s, j + 3),
            None => fence_zones(s, i + 1),
        }
    } else {
        fence_zones(s, i + 1)
    }
}

#[via_fn]
proof fn fence_zones_dec(s: Seq<char>, i: int) {
    if 0 <= i < s.len() && fence_at(s, i) {
        lemma_find_fence_from(s, i + 3);
    }
}

/// Scan for spans between an opening and a closing delimiter character.
fn scan_delimited(chars: &Vec<char>, open: char, close: char) -> (r: Vec<Zone>)
    ensures
        r@ == delimited_zones(chars@, open, close, 0),
{
    let n = chars.len();
    let mut r: Vec<Zone> = Vec::new();
    let mut i: usize = 0;
    while i < n
        invariant
            n == chars@.len(),
            0 <= i <= n,
            delimited_zones(chars@, open, close, 0) == r@ + delimited_zones(
                chars@,
                open,
                close,
                i as int,
            ),
        decreases n - i,
    {
        if chars[i] == open {
            // look for the closing delimiter after i
            let mut j: usize = i + 1;
            let mut found: bool = false;
            while j < n && !found
                invariant
                    n == chars@.len(),
                    i + 1 <= j <= n,
                    !found ==> forall|k: int| i + 1 <= k < j ==> chars@[k] != close,
                    found ==> j < n && chars@[j as int] == close && (forall|k: int|
                        i + 1 <= k < j ==> chars@[k] != close),
                decreases n - j + (if found {
                    0int
                } else {
                    1int
                }),
            {
                if chars[j] == close {
                    found = true;
                } else {
                    j = j + 1;
                }
            }
            proof {
                lemma_find_char_from(chars@, close, i + 1);
            }
            if found {
                r.push(Zone { start: i, end: j + 1 });
                proof {
                    assert(find_char_from(chars@, close, i + 1) == Some(j as int)) by {
                        lemma_find_char_from(chars@, close, i + 1);
                        if find_char_from(chars@, close, i + 1) is None {
                            assert(chars@[j as int] != close);
                        } else {
                            let jj = find_char_from(chars@, close, i + 1)->Some_0;
                            if jj < j {
                                assert(chars@[jj] != close);
                            } else if jj > j {
                                assert(chars@[j as int] != close);
                            }
                        }
                    }
                }
                i = j + 1;
            } else {
                proof {
                    assert(find_char_from(chars@, close, i + 1) is None) by {
                        lemma_find_char_from(chars@, close, i + 1);
                        if find_char_from(chars@, close, i + 1) is Some {
                            let jj = find_char_from(chars@, close, i + 1)->Some_0;
                            assert(chars@[jj] != close);
                        }
                    }
                }
                i = i + 1;
            }
        } else {
            i = i + 1;
        }
        proof {
            assert(delimited_zones(chars@, open, close, 0) == r@ + delimited_zones(
                chars@,
                open,
                close,
                i as int,
            ));
        }
    }
    r
}

/// Whether a fence delimiter starts at `i`, as executable code.
fn fence_at_exec(chars: &Vec<char>, i: usize) -> (r: bool)
    requires
        i <= chars@.len(),
    ensures
        r == fence_at(chars@, i as int),
{
    let n = chars.len();
    n >= 3 && i <= n - 3 && chars[i] == '`' && chars[i + 1] == '`' && chars[i + 2] == '`'
}

/// Scan for triple-backtick fenced blocks.
fn scan_fences(chars: &Vec<char>) -> (r: Vec<Zone>)
    ensures
        r@ == fence_zones(chars@, 0),
{
    let n = chars.len();
    let mut r: Vec<Zone> = Vec::new();
    let mut i: usize = 0;
    while i < n
        invariant
            n == chars@.len(),
            0 <= i <= n,
            fence_zones(chars@, 0) == r@ + fence_zones(chars@, i as int),
        decreases n - i,
    {
        if fence_at_exec(chars, i) {
            let mut j: usize = i + 3;
            let mut found: bool = false;
            while j <= n - 3 && !found
                invariant
                    n == chars@.len(),
                    n >= 3,
                    i + 3 <= j,
                    j <= n,
                    !found ==> forall|k: int| i + 3 <= k < j ==> !fence_at(chars@, k),
                    found ==> fence_at(chars@, j as int) && (forall|k: int|
                        i + 3 <= k < j ==> !fence_at(chars@, k)),
                decreases n - j + (if found {
                    0int
                } else {
                    1int
                }),
            {
                if fence_at_exec(chars, j) {
                    found = true;
                } else {
                    j = j + 1;
                }
            }
            proof {
                lemma_find_fence_from(chars@, i + 3);
                if !found {
                    assert(forall|k: int| i + 3 <= k ==> !fence_at(chars@, k)) by {
                        assert(forall|k: int| k + 3 > n ==> !fence_at(chars@, k));
                    }
                }
            }
            if found {
                proof {
                    assert(find_fence_from(chars@, i + 3) == Some(j as int)) by {
                        lemma_find_fence_from(chars@, i + 3);
                        if find_fence_from(chars@, i + 3) is Some {
                            let jj = find_fence_from(chars@, i + 3)->Some_0;
                            if jj < j {
                                assert(!fence_at(chars@, jj));
                            } else if jj > j {
                                assert(!fence_at(chars@, j as int));
                            }
                        }
                    }
                }
                r.push(Zone { start: i, end: j + 3 });
                i = j + 3;
            } else {
                proof {
                    assert(find_fence_from(chars@, i + 3) is None) by {
                        lemma_find_fence_from(chars@, i + 3);
                        if find_fence_from(chars@, i + 3) is Some {
                            let jj = find_fence_from(chars@, i + 3)->Some_0;
                            assert(!fence_at(chars@, jj));
                        }
                    }
                }
                i = i + 1;
            }
        } else {
            i = i + 1;
        }
    }
    r
}

/// Stable insertion of a zone into a sequence sorted by start.
pub open spec fn zone_insert(s: Seq<Zone>, z: Zone) -> Seq<Zone>
    decreases s.len(),
{
    if s.len() == 0 {
        seq![z]
    } else if s.last().start > z.start {
        zone_insert(s.drop_last(), z).push(s.last())
    } else {
        s.push(z)
    }
}

/// The stable sort of a zone sequence by start position.
pub open spec fn zone_sort(s: Seq<Zone>) -> Seq<Zone>
    decreases s.len(),
{
    if s.len() == 0 {
        Seq::empty()
    } else {
        zone_insert(zone_sort(s.drop_last()), s.last())
    }
}

proof fn lemma_zone_insert_props(s: Seq<Zone>, z: Zone)
    requires
        forall|i: int, j: int| 0 <= i < j < s.len() ==> (#[trigger] s[i]).start <= (
        #[trigger] s[j]).start,
    ensures
        ({
            let r = zone_insert(s, z);
            &&& r.len() == s.len() + 1
            &&& forall|i: int, j: int|
                0 <= i < j < r.len() ==> (#[trigger] r[i]).start <= (#[trigger] r[j]).start
            &&& forall|p: int| 0 <= p < r.len() ==> (exists|q: int|
                0 <= q < s.len() && #[trigger] r[p] == s[q]) || r[p] == z
        }),
    decreases s.len(),
{
    if s.len() != 0 && s.last().start > z.start {
        lemma_zone_insert_props(s.drop_last(), z);
        let r0 = zone_insert(s.drop_last(), z);
        let r = r0.push(s.last());
        assert forall|i: int, j: int| 0 <= i < j < r.len() implies (#[trigger] r[i]).start <= (
        #[trigger] r[j]).start by {
            if j == r.len() - 1 {
                if i < r0.len() {
                    assert(r[i] == r0[i]);
                    let p = r0[i];
                    if exists|q: int| 0 <= q < s.drop_last().len() && p == s.drop_last()[q] {
                        let q = choose|q: int|
                            0 <= q < s.drop_last().len() && p == s.drop_last()[q];
                        assert(s[q] == p);
                    }
                }
            }
        }
    }
}

proof fn lemma_zone_sort_props(s: Seq<Zone>)
    ensures
        ({
            let r = zone_sort(s);
            &&& r.len() == s.len()
            &&& forall|i: int, j: int|
                0 <= i < j < r.len() ==> (#[trigger] r[i]).start <= (#[trigger] r[j]).start
            &&& forall|p: int| 0 <= p < r.len() ==> exists|q: int|
                0 <= q < s.len() && #[trigger] r[p] == s[q]
        }),
    decreases s.len(),
{
    if s.len() != 0 {
        lemma_zone_sort_props(s.drop_last());
        lemma_zone_insert_props(zone_sort(s.drop_last()), s.last());
        let r0 = zone_sort(s.drop_last());
        let r = zone_insert(r0, s.last());
        assert forall|p: int| 0 <= p < r.len() implies exists|q: int|
            0 <= q < s.len() && #[trigger] r[p] == s[q] by {
            if exists|q: int| 0 <= q < r0.len() && r[p] == r0[q] {
                let q = choose|q: int| 0 <= q < r0.len() && r[p] == r0[q];
                let q2 = choose|q2: int| 0 <= q2 < s.drop_last().len() && r0[q] == s.drop_last()[q2];
                assert(r[p] == s[q2]);
            } else {
                assert(r[p] == s[s.len() - 1]);
            }
        }
    }
}

/// Sort a zone vector by start position, stably.
fn sort_zones(v: Vec<Zone>) -> (r: Vec<Zone>)
    ensures
        r@ == zone_sort(v@),
{
    let n = v.len();
    let mut r: Vec<Zone> = Vec::new();
    let mut i: usize = 0;
    while i < n
        invariant
            n == v@.len(),
            0 <= i <= n,
            r@ == zone_sort(v@.take(i as int)),
        decreases n - i,
    {
        let z = v[i];
        // insert z into the sorted prefix r, after all entries with start <= z.start
        let mut j: usize = r.len();
        while j > 0 && r[j - 1].start > z.start
            invariant
                0 <= j <= r@.len(),
                forall|k: int| j <= k < r@.len() ==> (#[trigger] r@[k]).start > z.start,
            decreases j,
        {
            j = j - 1;
        }
        proof {
            lemma_zone_insert_prefix(r@, z, j as int);
        }
        r.insert(j, z);
        proof {
            assert(v@.take(i + 1).drop_last() =~= v@.take(i as int));
            assert(v@.take(i + 1).last() == v@[i as int]);
        }
        i = i + 1;
    }
    proof {
        assert(v@.take(n as int) =~= v@);
    }
    r
}

proof fn lemma_zone_insert_prefix(s: Seq<Zone>, z: Zone, j: int)
    requires
        0 <= j <= s.len(),
        forall|k: int| j <= k < s.len() ==> (#[trigger] s[k]).start > z.start,
        j > 0 ==> s[j - 1].start <= z.start,
    ensures
        zone_insert(s, z) == s.insert(j, z),
    decreases s.len(),
{
    if s.len() == 0 {
        assert(zone_insert(s, z) =~= s.insert(j, z));
    } else if s.last().start > z.start {
        lemma_zone_insert_prefix(s.drop_last(), z, j);
        assert(zone_insert(s, z) =~= s.insert(j, z));
    } else {
        assert(j == s.len());
        assert(zone_insert(s, z) =~= s.insert(j, z));
    }
}

/// One step of zone normalization: merge `z` into the last zone of `acc`
/// when it starts at or before that zone's end, extending the end as needed;
/// otherwise start a new zone.
pub open spec fn merge_step(acc: Seq<Zone>, z: Zone) -> Seq<Zone> {
    if acc.len() > 0 && z.start <= acc.last().end {
        acc.update(
            acc.len() - 1,
            Zone {
                start: acc.last().start,
                end: if acc.last().end >= z.end {
                    acc.last().end
                } else {
                    z.end
                },
            },
        )
    } else {
        acc.push(z)
    }
}

/// Normalization of a sorted zone sequence: fold every zone into the output
/// with `merge_step`.
pub open spec fn merge_zones_spec(zs: Seq<Zone>) -> Seq<Zone>
    decreases zs.len(),
{
    if zs.len() == 0 {
        Seq::empty()
    } else {
        merge_step(merge_zones_spec(zs.drop_last()), zs.last())
    }
}

/// Merge a sorted zone vector into a normalized one.
fn merge_zones(v: Vec<Zone>) -> (r: Vec<Zone>)
    ensures
        r@ == merge_zones_spec(v@),
{
    let n = v.len();
    let mut r: Vec<Zone> = Vec::new();
    let mut i: usize = 0;
    while i < n
        invariant
            n == v@.len(),
            0 <= i <= n,
            r@ == merge_zones_spec(v@.take(i as int)),
        decreases n - i,
    {
        let z = v[i];
        let m = r.len();
        if m > 0 && z.start <= r[m - 1].end {
            let prev = r[m - 1];
            let newend = if prev.end >= z.end {
                prev.end
            } else {
                z.end
            };
            let merged = Zone { start: prev.start, end: newend };
            let _ = r.remove(m - 1);
            r.push(merged);
            proof {
                assert(r@ =~= merge_zones_spec(v@.take(i as int)).update(
                    merge_zones_spec(v@.take(i as int)).len() - 1,
                    merged,
                ));
            }
        } else {
            r.push(z);
        }
        proof {
            assert(v@.take(i + 1).drop_last() =~= v@.take(i as int));
            assert(v@.take(i + 1).last() == v@[i as int]);
        }
        i = i + 1;
    }
    proof {
        assert(v@.take(n as int) =~= v@);
    }
    r
}

} // verus!

verus! {

/// Whether position `p` lies inside some zone of `zs`.
pub open spec fn point_in_zones(zs: Seq<Zone>, p: int) -> bool {
    exists|k: int| 0 <= k < zs.len() && (#[trigger] zs[k]).start <= p < zs[k].end
}

/// All zones well-formed and nonempty, inside the bound `n`.
pub open spec fn zones_wf_upto(zs: Seq<Zone>, n: int) -> bool {
    forall|k: int| 0 <= k < zs.len() ==> {
        let z = #[trigger] zs[k];
        z.start < z.end <= n
    }
}

/// Zones sorted by start position.
pub open spec fn zones_sorted_by_start(zs: Seq<Zone>) -> bool {
    forall|i: int, j: int| 0 <= i < j < zs.len() ==> (#[trigger] zs[i]).start <= (#[trigger] zs[j]).start
}

proof fn lemma_fence_zones_wf(s: Seq<char>, i: int)
    requires
        0 <= i,
        s.len() <= usize::MAX,
    ensures
        ({
            let r = fence_zones(s, i);
            forall|k: int| 0 <= k < r.len() ==> {
                let z = #[trigger] r[k];
                i <= z.start < z.end <= s.len()
            }
        }),
    decreases s.len() - i,
{
    if i < s.len() {
        if fence_at(s, i) {
            match find_fence_from(s, i + 3) {
                Some(j) => {
                    lemma_find_fence_from(s, i + 3);
                    lemma_fence_zones_wf(s, j + 3);
                    assert(i + 3 <= j && fence_at(s, j));
                    assert(j + 3 <= s.len() <= usize::MAX);
                    let rest = fence_zones(s, j + 3);
                    let r = fence_zones(s, i);
                    assert(r == seq![Zone { start: i as usize, end: (j + 3) as usize }] + rest);
                    assert forall|k: int| 0 <= k < r.len() implies {
                        let z = #[trigger] r[k];
                        i <= z.start < z.end <= s.len()
                    } by {
                        if k > 0 {
                            assert(r[k] == rest[k - 1]);
                        }
                    }
                },
                None => {
                    lemma_fence_zones_wf(s, i + 1);
                    assert(fence_zones(s, i) == fence_zones(s, i + 1));
                },
            }
        } else {
            lemma_fence_zones_wf(s, i + 1);
            assert(fence_zones(s, i) == fence_zones(s, i + 1));
        }
    } else {
        assert(fence_zones(s, i) =~= Seq::<Zone>::empty());
    }
}

proof fn lemma_delimited_zones_wf(s: Seq<char>, open: char, close: char, i: int)
    requires
        0 <= i,
        s.len() <= usize::MAX,
    ensures
        ({
            let r = delimited_zones(s, open, close, i);
            forall|k: int| 0 <= k < r.len() ==> {
                let z = #[trigger] r[k];
                i <= z.start < z.end <= s.len()
            }
        }),
    decreases s.len() - i,
{
    if i < s.len() {
        if s[i] == open {
            match find_char_from(s, close, i + 1) {
                Some(j) => {
                    lemma_find_char_from(s, close, i + 1);
                    lemma_delimited_zones_wf(s, open, close, j + 1);
                    assert(i + 1 <= j < s.len() <= usize::MAX);
                    let rest = delimited_zones(s, open, close, j + 1);
                    let r = delimited_zones(s, open, close, i);
                    assert(r == seq![Zone { start: i as usize, end: (j + 1) as usize }] + rest);
                    assert forall|k: int| 0 <= k < r.len() implies {
                        let z = #[trigger] r[k];
                        i <= z.start < z.end <= s.len()
                    } by {
                        if k > 0 {
                            assert(r[k] == rest[k - 1]);
                        }
                    }
                },
                None => {
                    lemma_delimited_zones_wf(s, open, close, i + 1);
                    assert(delimited_zones(s, open, close, i) == delimited_zones(s, open, close, i + 1));
                },
            }
        } else {
            lemma_delimited_zones_wf(s, open, close, i + 1);
            assert(delimited_zones(s, open, close, i) == delimited_zones(s, open, close, i + 1));
        }
    } else {
        assert(delimited_zones(s, open, close, i) =~= Seq::<Zone>::empty());
    }
}

/// Normalization is sound and complete for point coverage: the merged list is
/// normalized, every merged zone starts where some input zone starts, and a
/// position is inside a merged zone exactly when it is inside an input zone.
proof fn lemma_merge_normal(zs: Seq<Zone>, n: int)
    requires
        zones_sorted_by_start(zs),
        zones_wf_upto(zs, n),
    ensures
        ({
            let m = merge_zones_spec(zs);
            &&& zones_normal(m)
            &&& zones_wf_upto(m, n)
            &&& m.len() <= zs.len()
            &&& zs.len() > 0 ==> m.len() > 0 && (exists|k: int|
                0 <= k < zs.len() && m.last().start == (#[trigger] zs[k]).start)
            &&& forall|p: int| point_in_zones(m, p) <==> point_in_zones(zs, p)
        }),
    decreases zs.len(),
{
    if zs.len() > 0 {
        let prev = zs.drop_last();
        let z = zs.last();
        lemma_merge_normal(prev, n);
        let m0 = merge_zones_spec(prev);
        let m = merge_zones_spec(zs);
        assert(zs[zs.len() - 1] == z);
        assert(forall|k: int| 0 <= k < prev.len() ==> prev[k] == zs[k]);
        if m0.len() > 0 && z.start <= m0.last().end {
            // z is folded into the last zone of m0
            let lastk = choose|k: int|
                0 <= k < prev.len() && m0.last().start == (#[trigger] prev[k]).start;
            assert(m0.last().start <= z.start);
            let nl = Zone {
                start: m0.last().start,
                end: if m0.last().end >= z.end {
                    m0.last().end
                } else {
                    z.end
                },
            };
            assert(m == m0.update(m0.len() - 1, nl));
            assert(m.last() == nl);
            assert(forall|k: int| 0 <= k < m.len() - 1 ==> m[k] == m0[k]);
            assert(zones_normal(m));
            assert(m.last().start == prev[lastk].start);
            assert forall|p: int| point_in_zones(m, p) implies point_in_zones(zs, p) by {
                let k = choose|k: int| 0 <= k < m.len() && (#[trigger] m[k]).start <= p < m[k].end;
                if k < m.len() - 1 {
                    assert(point_in_zones(m0, p));
                    let k2 = choose|k2: int|
                        0 <= k2 < prev.len() && (#[trigger] prev[k2]).start <= p < prev[k2].end;
                    assert(zs[k2].start <= p < zs[k2].end);
                } else {
                    // p is in the extended last zone: in the old last zone or in z
                    if p < m0.last().end {
                        assert(point_in_zones(m0, p));
                        let k2 = choose|k2: int|
                            0 <= k2 < prev.len() && (#[trigger] prev[k2]).start <= p < prev[k2].end;
                        assert(zs[k2].start <= p < zs[k2].end);
                    } else {
                        assert(z.start <= p < z.end);
                        assert(zs[zs.len() - 1].start <= p < zs[zs.len() - 1].end);
                    }
                }
            }
            assert forall|p: int| point_in_zones(zs, p) implies point_in_zones(m, p) by {
                let k = choose|k: int|
                    0 <= k < zs.len() && (#[trigger] zs[k]).start <= p < zs[k].end;
                if k < zs.len() - 1 {
                    assert(prev[k].start <= p < prev[k].end);
                    assert(point_in_zones(m0, p));
                    let k2 = choose|k2: int|
                        0 <= k2 < m0.len() && (#[trigger] m0[k2]).start <= p < m0[k2].end;
                    if k2 == m0.len() - 1 {
                        assert(m[m.len() - 1].start <= p < m[m.len() - 1].end);
                    } else {
                        assert(m[k2].start <= p < m[k2].end);
                    }
                } else {
                    assert(z.start <= p < z.end);
                    assert(m[m.len() - 1].start <= p < m[m.len() - 1].end);
                }
            }
        } else {
            // z starts past the last merged zone: appended as a new zone
            assert(m == m0.push(z));
            if m0.len() > 0 {
                assert(zones_normal(m)) by {
                    assert(forall|k: int| 0 <= k < m0.len() - 1 ==> (#[trigger] m0[k]).end < m0[
                        m0.len() - 1].start);
                    assert(m0.last().start <= m0.last().end);
                    assert(m0.last().end < z.start);
                }
            }
            assert forall|p: int| point_in_zones(m, p) implies point_in_zones(zs, p) by {
                let k = choose|k: int| 0 <= k < m.len() && (#[trigger] m[k]).start <= p < m[k].end;
                if k < m0.len() {
                    assert(point_in_zones(m0, p));
                    let k2 = choose|k2: int|
                        0 <= k2 < prev.len() && (#[trigger] prev[k2]).start <= p < prev[k2].end;
                    assert(zs[k2].start <= p < zs[k2].end);
                } else {
                    assert(zs[zs.len() - 1].start <= p < zs[zs.len() - 1].end);
                }
            }
            assert forall|p: int| point_in_zones(zs, p) implies point_in_zones(m, p) by {
                let k = choose|k: int|
                    0 <= k < zs.len() && (#[trigger] zs[k]).start <= p < zs[k].end;
                if k < zs.len() - 1 {
                    assert(prev[k].start <= p < prev[k].end);
                    assert(point_in_zones(m0, p));
                    let k2 = choose|k2: int|
                        0 <= k2 < m0.len() && (#[trigger] m0[k2]).start <= p < m0[k2].end;
                    assert(m[k2].start <= p < m[k2].end);
                } else {
                    assert(m[m.len() - 1].start <= p < m[m.len() - 1].end);
                }
            }
        }
    }
}

/// The raw stop zones of a text: fenced code blocks, inline code, straight
/// double- and single-quoted spans, and curly double- and single-quoted
/// spans, in that order of collection.
pub open spec fn raw_stop_zones(s: Seq<char>) -> Seq<Zone> {
    fence_zones(s, 0) + delimited_zones(s, '`', '`', 0) + delimited_zones(s, '"', '"', 0)
        + delimited_zones(s, '\'', '\'', 0) + delimited_zones(s, '\u{201C}', '\u{201D}', 0)
        + delimited_zones(s, '\u{2018}', '\u{2019}', 0)
}

/// The normalized stop zones of a text: the raw zones, sorted by start and
/// merged wherever one zone starts at or before the previous zone's end.
pub open spec fn stop_zones(s: Seq<char>) -> Seq<Zone> {
    merge_zones_spec(zone_sort(raw_stop_zones(s)))
}

/// Find the normalized stop zones of a text.
pub fn find_stop_zones(chars: &Vec<char>) -> (r: Vec<Zone>)
    ensures
        r@ == stop_zones(chars@),
        zones_normal(r@),
        forall|k: int| 0 <= k < r@.len() ==> (#[trigger] r@[k]).start < r@[k].end <= chars@.len(),
        forall|p: int| point_in_zones(r@, p) <==> point_in_zones(raw_stop_zones(chars@), p),
{
    let mut all = scan_fences(chars);
    let mut z1 = scan_delimited(chars, '`', '`');
    all.append(&mut z1);
    let mut z2 = scan_delimited(chars, '"', '"');
    all.append(&mut z2);
    let mut z3 = scan_delimited(chars, '\'', '\'');
    all.append(&mut z3);
    let mut z4 = scan_delimited(chars, '\u{201C}', '\u{201D}');
    all.append(&mut z4);
    let mut z5 = scan_delimited(chars, '\u{2018}', '\u{2019}');
    all.append(&mut z5);
    proof {
        assert(all@ == raw_stop_zones(chars@));
    }
    let sorted = sort_zones(all);
    proof {
        let s = chars@;
        assert(s.len() <= usize::MAX) by {
            let tmp = chars.len();
        }
        lemma_fence_zones_wf(s, 0);
        lemma_delimited_zones_wf(s, '`', '`', 0);
        lemma_delimited_zones_wf(s, '"', '"', 0);
        lemma_delimited_zones_wf(s, '\'', '\'', 0);
        lemma_delimited_zones_wf(s, '\u{201C}', '\u{201D}', 0);
        lemma_delimited_zones_wf(s, '\u{2018}', '\u{2019}', 0);
        assert(zones_wf_upto(raw_stop_zones(s), s.len() as int));
        lemma_zone_sort_props(raw_stop_zones(s));
        assert(zones_wf_upto(sorted@, s.len() as int)) by {
            assert forall|k: int| 0 <= k < sorted@.len() implies {
                let z = #[trigger] sorted@[k];
                z.start < z.end <= s.len()
            } by {
                let q = choose|q: int|
                    0 <= q < raw_stop_zones(s).len() && sorted@[k] == raw_stop_zones(s)[q];
            }
        }
        lemma_merge_normal(sorted@, s.len() as int);
        lemma_sort_point_coverage(raw_stop_zones(s));
    }
    merge_zones(sorted)
}

/// Sorting preserves point coverage.
proof fn lemma_sort_point_coverage(zs: Seq<Zone>)
    ensures
        forall|p: int| point_in_zones(zone_sort(zs), p) <==> point_in_zones(zs, p),
{
    lemma_zone_sort_props(zs);
    let m = zone_sort(zs);
    assert forall|p: int| point_in_zones(m, p) implies point_in_zones(zs, p) by {
        let k = choose|k: int| 0 <= k < m.len() && (#[trigger] m[k]).start <= p < m[k].end;
        let q = choose|q: int| 0 <= q < zs.len() && m[k] == zs[q];
        assert(zs[q].start <= p < zs[q].end);
    }
    assert forall|p: int| point_in_zones(zs, p) implies point_in_zones(m, p) by {
        let k = choose|k: int| 0 <= k < zs.len() && (#[trigger] zs[k]).start <= p < zs[k].end;
        lemma_sort_contains(zs, k);
        let q = choose|q: int| 0 <= q < m.len() && m[q] == zs[k];
        assert(m[q].start <= p < m[q].end);
    }
}

/// Every input zone appears somewhere in the sorted output.
proof fn lemma_sort_contains(zs: Seq<Zone>, k: int)
    requires
        0 <= k < zs.len(),
    ensures
        exists|q: int| 0 <= q < zone_sort(zs).len() && zone_sort(zs)[q] == zs[k],
    decreases zs.len(),
{
    let m0 = zone_sort(zs.drop_last());
    assert(zone_sort(zs) == zone_insert(m0, zs.last()));
    if k == zs.len() - 1 {
        lemma_insert_contains_new(m0, zs.last());
        let q = choose|q: int| 0 <= q < zone_insert(m0, zs.last()).len() && zone_insert(m0, zs.last())[q] == zs.last();
        assert(zone_sort(zs)[q] == zs[k]);
    } else {
        lemma_sort_contains(zs.drop_last(), k);
        let q0 = choose|q: int| 0 <= q < m0.len() && m0[q] == zs.drop_last()[k];
        assert(zs.drop_last()[k] == zs[k]);
        lemma_insert_contains_old(m0, zs.last(), q0);
        let q = choose|q: int| 0 <= q < zone_insert(m0, zs.last()).len() && zone_insert(m0, zs.last())[q] == m0[q0];
        assert(zone_sort(zs)[q] == zs[k]);
    }
}

proof fn lemma_insert_contains_new(s: Seq<Zone>, z: Zone)
    ensures
        exists|q: int| 0 <= q < zone_insert(s, z).len() && zone_insert(s, z)[q] == z,
    decreases s.len(),
{
    if s.len() == 0 {
        assert(zone_insert(s, z)[0] == z);
    } else if s.last().start > z.start {
        lemma_insert_contains_new(s.drop_last(), z);
        let r0 = zone_insert(s.drop_last(), z);
        let q = choose|q: int| 0 <= q < r0.len() && r0[q] == z;
        assert(zone_insert(s, z)[q] == z);
    } else {
        assert(zone_insert(s, z)[s.len() as int] == z);
    }
}

proof fn lemma_insert_contains_old(s: Seq<Zone>, z: Zone, k: int)
    requires
        0 <= k < s.len(),
    ensures
        exists|q: int| 0 <= q < zone_insert(s, z).len() && zone_insert(s, z)[q] == s[k],
    decreases s.len(),
{
    if s.last().start > z.start {
        if k == s.len() - 1 {
            assert(zone_insert(s, z).last() == s[k]);
        } else {
            lemma_insert_contains_old(s.drop_last(), z, k);
            let r0 = zone_insert(s.drop_last(), z);
            let q = choose|q: int| 0 <= q < r0.len() && r0[q] == s.drop_last()[k];
            assert(zone_insert(s, z)[q] == s[k]);
        }
    } else {
        assert(zone_insert(s, z)[k] == s[k]);
    }
}

/// Report whether the character range `[start, end)` intersects any zone of
/// a normalized zone list, by binary search.
pub fn in_zones(zones: &[Zone], start: usize, end: usize) -> (r: bool)
    requires
        zones_normal(zones@),
    ensures
        r == range_in_zones(zones@, start as int, end as int),
{
    let mut lo: usize = 0;
    let mut hi: usize = zones.len();
    while lo < hi
        invariant
            0 <= lo <= hi <= zones@.len(),
            zones_normal(zones@),
            forall|k: int|
                0 <= k < zones@.len() && !(lo <= k < hi) ==> !range_hits_zone(
                    #[trigger] zones@[k],
                    start as int,
                    end as int,
                ),
        decreases hi - lo,
    {
        let mid = lo + (hi - lo) / 2;
        let z = zones[mid];
        if end <= z.start {
            proof {
                assert forall|k: int|
                    mid <= k < zones@.len() implies !range_hits_zone(
                    #[trigger] zones@[k],
                    start as int,
                    end as int,
                ) by {
                    if k > mid {
                        assert(zones@[mid as int].end < zones@[k].start);
                        assert(zones@[mid as int].start <= zones@[mid as int].end);
                    }
                }
            }
            hi = mid;
        } else if start >= z.end {
            proof {
                assert forall|k: int|
                    0 <= k <= mid implies !range_hits_zone(
                    #[trigger] zones@[k],
                    start as int,
                    end as int,
                ) by {
                    if k < mid {
                        assert(zones@[k].end < zones@[mid as int].start);
                        assert(zones@[mid as int].start <= zones@[mid as int].end);
                    }
                }
            }
            lo = mid + 1;
        } else {
            proof {
                assert(range_hits_zone(zones@[mid as int], start as int, end as int));
            }
            return true;
        }
    }
    false
}

} // verus!

verus! {

/// The stop-zone exclusion law: a character range that does not intersect
/// the normalized stop zones contains no position lying inside any raw stop
/// zone (code fence, inline code, or quoted span) of the text.
pub proof fn lemma_excluded_range_has_no_stop_point(
    text: Seq<char>,
    start: int,
    end: int,
    p: int,
)
    requires
        text.len() <= usize::MAX,
        !range_in_zones(stop_zones(text), start, end),
        start <= p < end,
    ensures
        !point_in_zones(raw_stop_zones(text), p),
{
    if point_in_zones(raw_stop_zones(text), p) {
        lemma_sort_point_coverage(raw_stop_zones(text));
        lemma_fence_zones_wf(text, 0);
        lemma_delimited_zones_wf(text, '`', '`', 0);
        lemma_delimited_zones_wf(text, '"', '"', 0);
        lemma_delimited_zones_wf(text, '\'', '\'', 0);
        lemma_delimited_zones_wf(text, '\u{201C}', '\u{201D}', 0);
        lemma_delimited_zones_wf(text, '\u{2018}', '\u{2019}', 0);
        assert(zones_wf_upto(raw_stop_zones(text), text.len() as int));
        let sorted = zone_sort(raw_stop_zones(text));
        lemma_zone_sort_props(raw_stop_zones(text));
        assert(zones_wf_upto(sorted, text.len() as int)) by {
            assert forall|k: int| 0 <= k < sorted.len() implies {
                let z = #[trigger] sorted[k];
                z.start < z.end <= text.len()
            } by {
                let q = choose|q: int|
                    0 <= q < raw_stop_zones(text).len() && sorted[k] == raw_stop_zones(text)[q];
            }
        }
        lemma_merge_normal(sorted, text.len() as int);
        assert(point_in_zones(stop_zones(text), p));
        let k = choose|k: int|
            0 <= k < stop_zones(text).len() && (#[trigger] stop_zones(text)[k]).start <= p
                < stop_zones(text)[k].end;
        assert(range_hits_zone(stop_zones(text)[k], start, end));
    }
}

} // verus!
