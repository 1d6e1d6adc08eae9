//! Dictionary matcher: exact multi-pattern search over a fixed vocabulary,
//! through the aho-corasick crate.
//!
//! The automaton's behavior has an exact statement: it reports every
//! occurrence of every pattern, where an occurrence of pattern `p` at
//! character position `s` means the text's characters from `s` on equal `p`.
//! An occurrence of a nonempty pattern is reported exactly once; an empty
//! pattern can be reported more than once at one position. Occurrences come
//! in non-decreasing end order, nothing more is promised about the order of
//! distinct patterns matching at one position, and the whole report is a
//! deterministic function of the patterns and the text.

use vstd::prelude::*;
use vstd::string::StrSliceExecFns;

use crate::types::{EntityHit, HitSource, HitV, Kind, KindV, Span, SpanV, kind_of_label};

verus! {

broadcast use vstd::seq_lib::group_seq_lib_default, vstd::seq_lib::group_seq_properties;

#[verifier::external_type_specification]
#[verifier::external_body]
pub struct ExAhoCorasick(aho_corasick::AhoCorasick);

/// The patterns an automaton was built from.
pub uninterp spec fn ac_patterns(ac: aho_corasick::AhoCorasick) -> Seq<Seq<char>>;

/// Whether an automaton was built with the default (standard,
/// overlapping-capable) match semantics.
pub uninterp spec fn ac_standard(ac: aho_corasick::AhoCorasick) -> bool;

/// Whether automaton construction accepts a pattern list; success is a
/// function of the patterns alone.
pub uninterp spec fn ac_buildable(pats: Seq<Seq<char>>) -> bool;

/// The match list an overlapping search reports for a pattern list on a
/// text: a deterministic function of the two, since both the automaton
/// construction and the search are deterministic in them.
pub uninterp spec fn ac_report(pats: Seq<Seq<char>>, text: Seq<char>) -> Seq<
    (usize, usize, usize),
>;

/// A dictionary occurrence: pattern `p` occurs over `[s, e)` of the text.
pub open spec fn dict_match(pats: Seq<Seq<char>>, text: Seq<char>, s: int, e: int, p: int) -> bool {
    &&& 0 <= p < pats.len()
    &&& 0 <= s
    &&& e == s + pats[p].len()
    &&& e <= text.len()
    &&& text.subrange(s, e) == pats[p]
}

/// What an overlapping search reports: every occurrence of every pattern, in
/// non-decreasing end order; an occurrence of a nonempty pattern appears
/// exactly once, while an empty pattern can be reported more than once at
/// one position.
pub open spec fn overlapping_report(
    pats: Seq<Seq<char>>,
    text: Seq<char>,
    ms: Seq<(usize, usize, usize)>,
) -> bool {
    &&& forall|k: int|
        0 <= k < ms.len() ==> dict_match(
            pats,
            text,
            (#[trigger] ms[k]).0 as int,
            ms[k].1 as int,
            ms[k].2 as int,
        )
    &&& forall|s: int, p: int|
        0 <= p < pats.len() && 0 <= s && s + pats[p].len() <= text.len() && #[trigger] text.subrange(
            s,
            s + pats[p].len(),
        ) == pats[p] ==> exists|k: int|
            0 <= k < ms.len() && (#[trigger] ms[k]).0 == s && ms[k].2 == p
    &&& forall|k1: int, k2: int|
        0 <= k1 < k2 < ms.len() ==> !((#[trigger] ms[k1]).0 == (#[trigger] ms[k2]).0 && ms[k1].2
            == ms[k2].2 && pats[ms[k1].2 as int].len() > 0)
    &&& forall|k: int| 0 < k < ms.len() ==> (#[trigger] ms[k - 1]).1 <= (#[trigger] ms[k]).1
}

/// Relies on aho_corasick::AhoCorasick::new: builds an automaton over exactly
/// the given patterns, with the default configuration (standard match
/// semantics, case sensitive); construction fails only when the pattern list
/// exceeds the crate's limits, so success depends on the patterns alone, and
/// an empty pattern list always builds.
#[verifier::external_body]
fn ac_build(patterns: &Vec<String>) -> (r: Result<aho_corasick::AhoCorasick, String>)
    ensures
        r matches Ok(ac) ==> ac_patterns(ac) == patterns.deep_view() && ac_standard(ac),
        r is Ok <==> ac_buildable(patterns.deep_view()),
        patterns@.len() == 0 ==> r is Ok,
{
    aho_corasick::AhoCorasick::new(patterns).map_err(|e| e.to_string())
}

/// Relies on AhoCorasick::find_overlapping_iter under standard semantics: it
/// reports every occurrence of every pattern, including overlapping
/// occurrences, advancing through the text so that match ends never
/// decrease; an occurrence of a nonempty pattern is reported exactly once,
/// an empty pattern possibly more than once. The search is deterministic in
/// the automaton and the text. Byte offsets are converted here to character
/// offsets. Each reported triple is (start, end, pattern index).
#[verifier::external_body]
fn ac_find_overlapping(ac: &aho_corasick::AhoCorasick, text: &str) -> (r: Vec<
    (usize, usize, usize),
>)
    requires
        ac_standard(*ac),
    ensures
        r@ == ac_report(ac_patterns(*ac), text@),
        overlapping_report(ac_patterns(*ac), text@, r@),
{
    let idx: Vec<usize> = text.char_indices().map(|(b, _)| b).collect();
    let at = |b: usize| idx.partition_point(|x| *x < b);
    ac.find_overlapping_iter(text)
        .map(|m| (at(m.start()), at(m.end()), m.pattern().as_usize()))
        .collect()
}

/// The dictionary hit built from an occurrence of entry `ent` over `[s, e)`.
pub open spec fn dict_hit(ent: (KindV, Seq<char>), text: Seq<char>, s: int, e: int) -> HitV {
    HitV {
        kind: ent.0,
        span: SpanV { start: s as nat, end: e as nat, text: text.subrange(s, e) },
        source: HitSource::Gazetteer,
        pattern_id: None,
        score: 930,
        link: None,
    }
}

/// The hits built from a match list: one hit per occurrence whose pattern
/// index has a dictionary entry, each with source `Gazetteer` and score 930
/// thousandths.
pub open spec fn hits_of_matches(
    entries: Seq<(KindV, Seq<char>)>,
    text: Seq<char>,
    ms: Seq<(usize, usize, usize)>,
) -> Seq<HitV>
    decreases ms.len(),
{
    if ms.len() == 0 {
        Seq::empty()
    } else {
        let rest = hits_of_matches(entries, text, ms.drop_last());
        let m = ms.last();
        if m.2 < entries.len() {
            rest.push(dict_hit(entries[m.2 as int], text, m.0 as int, m.1 as int))
        } else {
            rest
        }
    }
}

/// The dictionary hits of a gazetteer on a text: the hits built from the
/// overlapping search's report over the gazetteer's searchable patterns.
pub open spec fn dictionary_hits(g: Gazetteer, text: Seq<char>) -> Seq<HitV> {
    hits_of_matches(g.entries_view(), text, ac_report(ac_patterns(g.ac), text))
}

/// Gazetteer: a dictionary matcher built from kind-tagged surface strings.
/// The automaton searches the surfaces; `entries` maps each pattern index to
/// its kind and surface. An entry added by `add_entry` is not searchable
/// until the gazetteer is rebuilt from configuration.
pub struct Gazetteer {
    pub ac: aho_corasick::AhoCorasick,
    pub entries: Vec<(Kind, String)>,
}

impl Gazetteer {
    /// The entry list as (kind, surface) views.
    pub open spec fn entries_view(self) -> Seq<(KindV, Seq<char>)> {
        Seq::new(self.entries@.len(), |i: int| (self.entries@[i].0.deep_view(), self.entries@[i].1@))
    }

    /// The gazetteer's automaton searches exactly its entries' surfaces.
    pub open spec fn wf(self) -> bool {
        &&& ac_standard(self.ac)
        &&& ac_patterns(self.ac).len() == self.entries@.len()
        &&& forall|i: int|
            0 <= i < self.entries@.len() ==> ac_patterns(self.ac)[i] == (
            #[trigger] self.entries@[i]).1@
    }

    /// Create an empty gazetteer, which matches nothing.
    pub fn empty() -> (r: Gazetteer)
        ensures
            r.wf(),
            r.entries@.len() == 0,
    {
        let patterns: Vec<String> = Vec::new();
        let ac = match ac_build(&patterns) {
            Ok(ac) => ac,
            Err(_) => {
                proof {
                    assert(false);
                }
                unreached()
            },
        };
        proof {
            assert(ac_patterns(ac) =~= Seq::<Seq<char>>::empty());
        }
        Gazetteer { ac, entries: Vec::new() }
    }

    /// Add a single entry. The entry is recorded but not searchable: the
    /// automaton is not rebuilt, so searches still cover only the entries the
    /// gazetteer was built from.
    pub fn add_entry(&mut self, kind: Kind, surface: String)
        ensures
            final(self).ac == old(self).ac,
            final(self).entries@ == old(self).entries@.push((kind, surface)),
    {
        self.entries.push((kind, surface));
    }

    /// Build a gazetteer from configuration: a list of kind labels, each with
    /// its surface strings. Pattern indices follow configuration order. Fails
    /// exactly when the automaton cannot be built over the configured
    /// surfaces.
    pub fn from_config(cfg: &Vec<(String, Vec<String>)>) -> (r: Result<Gazetteer, String>)
        ensures
            r matches Ok(g) ==> g.wf() && g.entries_view() =~= config_entries(cfg.deep_view()),
            r is Ok <==> ac_buildable(
                config_entries(cfg.deep_view()).map_values(|e: (KindV, Seq<char>)| e.1),
            ),
    {
        let mut patterns: Vec<String> = Vec::new();
        let mut entries: Vec<(Kind, String)> = Vec::new();
        let ghost cfgv = cfg.deep_view();
        let n = cfg.len();
        let mut i: usize = 0;
        proof {
            assert(cfgv =~= cfg.deep_view());
            assert(config_entries(cfgv.take(0)) =~= Seq::<(KindV, Seq<char>)>::empty());
        }
        while i < n
            invariant
                n == cfg@.len(),
                cfgv == cfg.deep_view(),
                cfgv.len() == n,
                0 <= i <= n,
                patterns@.len() == entries@.len(),
                Seq::new(
                    entries@.len(),
                    |q: int| (entries@[q].0.deep_view(), entries@[q].1@),
                ) =~= config_entries(cfgv.take(i as int)),
                forall|q: int|
                    0 <= q < entries@.len() ==> (#[trigger] entries@[q]).1@ == patterns@[q]@,
            decreases n - i,
        {
            let kind = Kind::from_str(cfg[i].0.as_str());
            let m = cfg[i].1.len();
            let mut j: usize = 0;
            proof {
                assert(cfgv[i as int].0 == cfg@[i as int].0@);
                assert(cfgv[i as int].1 =~= cfg@[i as int].1.deep_view());
                assert(cfgv.take(i + 1).drop_last() =~= cfgv.take(i as int));
                assert(cfgv.take(i + 1).last() == cfgv[i as int]);
                assert(config_entries(cfgv.take(i + 1)) =~= config_entries(cfgv.take(i as int))
                    + kind_entries(kind_of_label(cfgv[i as int].0), cfgv[i as int].1));
                assert(kind_entries(kind_of_label(cfgv[i as int].0), cfgv[i as int].1.take(0))
                    =~= Seq::<(KindV, Seq<char>)>::empty());
            }
            while j < m
                invariant
                    n == cfg@.len(),
                    cfgv == cfg.deep_view(),
                    cfgv.len() == n,
                    0 <= i < n,
                    m == cfg@[i as int].1@.len(),
                    cfgv[i as int].1.len() == m,
                    0 <= j <= m,
                    kind.deep_view() == kind_of_label(cfgv[i as int].0),
                    patterns@.len() == entries@.len(),
                    Seq::new(
                        entries@.len(),
                        |q: int| (entries@[q].0.deep_view(), entries@[q].1@),
                    ) =~= config_entries(cfgv.take(i as int)) + kind_entries(
                        kind_of_label(cfgv[i as int].0),
                        cfgv[i as int].1.take(j as int),
                    ),
                    forall|q: int|
                        0 <= q < entries@.len() ==> (#[trigger] entries@[q]).1@ == patterns@[q]@,
                decreases m - j,
            {
                let ghost pre = Seq::new(
                    entries@.len(),
                    |q: int| (entries@[q].0.deep_view(), entries@[q].1@),
                );
                let surface = cfg[i].1[j].clone();
                let surface2 = cfg[i].1[j].clone();
                proof {
                    assert(cfgv[i as int].1[j as int] == cfg@[i as int].1@[j as int]@);
                    assert(kind_entries(
                        kind_of_label(cfgv[i as int].0),
                        cfgv[i as int].1.take(j + 1),
                    ) =~= kind_entries(
                        kind_of_label(cfgv[i as int].0),
                        cfgv[i as int].1.take(j as int),
                    ).push((kind_of_label(cfgv[i as int].0), cfgv[i as int].1[j as int])));
                }
                patterns.push(surface);
                let tagged = kind.clone_kind();
                proof {
                    assert(tagged.deep_view() == kind_of_label(cfgv[i as int].0));
                    assert(surface2@ == cfgv[i as int].1[j as int]);
                }
                entries.push((tagged, surface2));
                proof {
                    assert(Seq::new(
                        entries@.len(),
                        |q: int| (entries@[q].0.deep_view(), entries@[q].1@),
                    ) =~= pre.push(
                        (kind_of_label(cfgv[i as int].0), cfgv[i as int].1[j as int]),
                    ));
                    assert(Seq::new(
                        entries@.len(),
                        |q: int| (entries@[q].0.deep_view(), entries@[q].1@),
                    ) =~= config_entries(cfgv.take(i as int)) + kind_entries(
                        kind_of_label(cfgv[i as int].0),
                        cfgv[i as int].1.take(j + 1),
                    ));
                }
                j = j + 1;
            }
            proof {
                assert(cfgv[i as int].1.take(m as int) =~= cfgv[i as int].1);
            }
            i = i + 1;
        }
        proof {
            assert(cfgv.take(n as int) =~= cfgv);
        }
        proof {
            assert(patterns.deep_view() =~= config_entries(cfg.deep_view()).map_values(
                |e: (KindV, Seq<char>)| e.1,
            ));
        }
        let ac = match ac_build(&patterns) {
            Ok(ac) => ac,
            Err(e) => {
                return Err(e);
            },
        };
        proof {
            assert forall|q: int| 0 <= q < entries@.len() implies ac_patterns(ac)[q] == (
            #[trigger] entries@[q]).1@ by {
                assert(patterns.deep_view()[q] == patterns@[q]@);
            }
        }
        Ok(Gazetteer { ac, entries })
    }

    /// Find all dictionary occurrences in the text, including overlapping
    /// ones, as hits with source `Gazetteer` and score 930 thousandths; an
    /// occurrence whose pattern has no entry is skipped. An occurrence of a
    /// nonempty surface yields exactly one hit; an empty surface can yield
    /// more than one hit at a position.
    pub fn find_all(&self, text: &str) -> (r: Vec<EntityHit>)
        requires
            ac_standard(self.ac),
        ensures
            r.deep_view() == dictionary_hits(*self, text@),
            overlapping_report(ac_patterns(self.ac), text@, ac_report(ac_patterns(self.ac), text@)),
            forall|k: int|
                0 <= k < r.deep_view().len() ==> {
                    let h = #[trigger] r.deep_view()[k];
                    h.span.start <= h.span.end <= text@.len() && h.score == 930 && h.source
                        == HitSource::Gazetteer
                },
    {
        let ms = ac_find_overlapping(&self.ac, text);
        let ghost msv = ms@;
        let n = ms.len();
        let mut out: Vec<EntityHit> = Vec::new();
        let mut i: usize = 0;
        proof {
            assert(hits_of_matches(self.entries_view(), text@, msv.take(0)) =~= Seq::<
                HitV,
            >::empty());
        }
        while i < n
            invariant
                n == ms@.len(),
                msv == ms@,
                overlapping_report(ac_patterns(self.ac), text@, msv),
                0 <= i <= n,
                out.deep_view() =~= hits_of_matches(self.entries_view(), text@, msv.take(i as int)),
                forall|k: int|
                    0 <= k < out.deep_view().len() ==> {
                        let h = #[trigger] out.deep_view()[k];
                        h.span.start <= h.span.end <= text@.len() && h.score == 930 && h.source
                            == HitSource::Gazetteer
                    },
            decreases n - i,
        {
            let (s, e, p) = ms[i];
            let ghost old_out = out.deep_view();
            proof {
                assert(dict_match(ac_patterns(self.ac), text@, s as int, e as int, p as int));
                assert(msv.take(i + 1).drop_last() =~= msv.take(i as int));
                assert(msv.take(i + 1).last() == msv[i as int]);
            }
            if p < self.entries.len() {
                let kind = self.entries[p].0.clone_kind();
                let piece = text.substring_char(s, e).to_owned();
                out.push(
                    EntityHit {
                        kind,
                        span: Span { start: s, end: e, text: piece },
                        source: HitSource::Gazetteer,
                        pattern_id: None,
                        score: 930,
                        link: None,
                    },
                );
                proof {
                    assert(out.deep_view() =~= old_out.push(
                        dict_hit(
                            self.entries_view()[p as int],
                            text@,
                            s as int,
                            e as int,
                        ),
                    ));
                }
            }
            i = i + 1;
        }
        proof {
            assert(msv.take(n as int) =~= msv);
            assert(msv == ac_report(ac_patterns(self.ac), text@));
            assert(out.deep_view() == dictionary_hits(*self, text@));
        }
        out
    }
}

/// The entries contributed by one kind label over its surface list.
pub open spec fn kind_entries(kind: KindV, surfaces: Seq<Seq<char>>) -> Seq<(KindV, Seq<char>)> {
    surfaces.map_values(|s: Seq<char>| (kind, s))
}

/// The entry list of a configuration: each kind label's surfaces, tagged with
/// the label's kind, in configuration order.
pub open spec fn config_entries(cfg: Seq<(Seq<char>, Seq<Seq<char>>)>) -> Seq<(KindV, Seq<char>)>
    decreases cfg.len(),
{
    if cfg.len() == 0 {
        Seq::empty()
    } else {
        config_entries(cfg.drop_last()) + kind_entries(
            kind_of_label(cfg.last().0),
            cfg.last().1,
        )
    }
}

} // verus!
