//! Pattern set: compiled regular-expression rules, each tagged with a kind,
//! a static confidence score (in thousandths) and optional constraints and
//! hints. Constraints and hints are parsed from configuration but not
//! consulted by matching; they are carried as declared, inert metadata.

use vstd::prelude::*;

use crate::rex::{re_pattern, re_valid, regex_new};
use crate::types::{Kind, KindV, kind_of_label};

verus! {

/// Optional per-rule constraints, declared but not enforced by matching.
#[derive(Debug, Clone)]
pub struct Constraints {
    pub min_len: Option<usize>,
    pub max_tokens: Option<usize>,
    pub disallow: Option<Vec<String>>,
}

/// Mathematical view of `Constraints`.
pub ghost struct ConstraintsV {
    pub min_len: Option<usize>,
    pub max_tokens: Option<usize>,
    pub disallow: Option<Seq<Seq<char>>>,
}

impl DeepView for Constraints {
    type V = ConstraintsV;

    open spec fn deep_view(&self) -> ConstraintsV {
        ConstraintsV {
            min_len: self.min_len,
            max_tokens: self.max_tokens,
            disallow: match &self.disallow {
                Some(v) => Some(v.deep_view()),
                None => None,
            },
        }
    }
}

impl Default for Constraints {
    /// The empty constraints: nothing declared.
    fn default() -> (r: Constraints)
        ensures
            r.min_len is None && r.max_tokens is None && r.disallow is None,
    {
        Constraints { min_len: None, max_tokens: None, disallow: None }
    }
}

/// Optional per-rule context hints, declared but not enforced by matching.
#[derive(Debug, Clone)]
pub struct Hints {
    pub left: Option<Vec<String>>,
    pub right: Option<Vec<String>>,
}

/// Mathematical view of `Hints`.
pub ghost struct HintsV {
    pub left: Option<Seq<Seq<char>>>,
    pub right: Option<Seq<Seq<char>>>,
}

impl DeepView for Hints {
    type V = HintsV;

    open spec fn deep_view(&self) -> HintsV {
        HintsV {
            left: match &self.left {
                Some(v) => Some(v.deep_view()),
                None => None,
            },
            right: match &self.right {
                Some(v) => Some(v.deep_view()),
                None => None,
            },
        }
    }
}

impl Default for Hints {
    /// The empty hints: nothing declared.
    fn default() -> (r: Hints)
        ensures
            r.left is None && r.right is None,
    {
        Hints { left: None, right: None }
    }
}

/// A pattern rule as configured: an identifier, a kind label, a regex
/// source, a score in thousandths, and optional constraints and hints.
#[derive(Debug, Clone)]
pub struct PatternRule {
    pub id: String,
    pub kind: String,
    pub regex: String,
    pub score: u32,
    pub constraints: Option<Constraints>,
    pub hints: Option<Hints>,
}

/// A compiled pattern rule.
#[derive(Debug, Clone)]
pub struct CompiledPattern {
    pub id: String,
    pub kind: Kind,
    pub regex: regex::Regex,
    pub score: u32,
    pub constraints: Constraints,
    pub hints: Hints,
}

/// Mathematical view of a compiled rule; `pattern` is the regex source the
/// rule was compiled from.
pub ghost struct CompiledPatternV {
    pub id: Seq<char>,
    pub kind: KindV,
    pub pattern: Seq<char>,
    pub score: nat,
    pub constraints: ConstraintsV,
    pub hints: HintsV,
}

impl DeepView for CompiledPattern {
    type V = CompiledPatternV;

    open spec fn deep_view(&self) -> CompiledPatternV {
        CompiledPatternV {
            id: self.id@,
            kind: self.kind.deep_view(),
            pattern: re_pattern(self.regex),
            score: self.score as nat,
            constraints: self.constraints.deep_view(),
            hints: self.hints.deep_view(),
        }
    }
}

/// The compiled form of a configured rule: kind parsed from its label, regex
/// compiled from its source, absent constraints and hints defaulted to empty.
pub open spec fn compiled_of_rule(r: PatternRule, c: CompiledPatternV) -> bool {
    &&& c.id == r.id@
    &&& c.kind == kind_of_label(r.kind@)
    &&& c.pattern == r.regex@
    &&& re_valid(r.regex@)
    &&& c.score == r.score as nat
    &&& match r.constraints {
        Some(cs) => c.constraints == cs.deep_view(),
        None => c.constraints.min_len is None && c.constraints.max_tokens is None
            && c.constraints.disallow is None,
    }
    &&& match r.hints {
        Some(hs) => c.hints == hs.deep_view(),
        None => c.hints.left is None && c.hints.right is None,
    }
}

/// Pattern set: the compiled rules, in configuration order.
pub struct PatternSet {
    pub rules: Vec<CompiledPattern>,
}

impl PatternSet {
    /// Create an empty pattern set.
    pub fn empty() -> (r: PatternSet)
        ensures
            r.rules@.len() == 0,
    {
        PatternSet { rules: Vec::new() }
    }

    /// Compile a list of configured rules, in order, failing fast on the
    /// first rule whose regex is invalid; the error starts with that rule's
    /// identifier.
    pub fn from_config(rules: Vec<PatternRule>) -> (r: Result<PatternSet, String>)
        ensures
            r matches Ok(ps) ==> ps.rules@.len() == rules@.len() && (forall|k: int|
                0 <= k < rules@.len() ==> compiled_of_rule(
                    rules@[k],
                    (#[trigger] ps.rules@[k]).deep_view(),
                )),
            r matches Err(e) ==> exists|k: int|
                0 <= k < rules@.len() && !re_valid((#[trigger] rules@[k]).regex@) && (forall|j: int|
                    0 <= j < k ==> re_valid(#[trigger] rules@[j].regex@)) && e@.len()
                    >= rules@[k].id@.len() && e@.subrange(0, rules@[k].id@.len() as int)
                    == rules@[k].id@,
            r is Ok ==> forall|k: int|
                0 <= k < rules@.len() ==> re_valid((#[trigger] rules@[k]).regex@),
    {
        let mut out: Vec<CompiledPattern> = Vec::new();
        let n = rules.len();
        let mut i: usize = 0;
        while i < n
            invariant
                n == rules@.len(),
                0 <= i <= n,
                out@.len() == i,
                forall|k: int|
                    0 <= k < i ==> compiled_of_rule(
                        rules@[k],
                        (#[trigger] out@[k]).deep_view(),
                    ),
                forall|k: int| 0 <= k < i ==> re_valid((#[trigger] rules@[k]).regex@),
            decreases n - i,
        {
            let rule = &rules[i];
            let re = match regex_new(rule.regex.as_str()) {
                Ok(re) => re,
                Err(msg) => {
                    let mut err = rule.id.clone();
                    err.append(": ");
                    err.append(msg.as_str());
                    proof {
                        assert(err@.subrange(0, rules@[i as int].id@.len() as int) =~= rules@[
                            i as int].id@);
                    }
                    return Err(err);
                },
            };
            let kind = Kind::from_str(rule.kind.as_str());
            let constraints = match &rule.constraints {
                Some(c) => c.clone_constraints(),
                None => Constraints::default(),
            };
            let hints = match &rule.hints {
                Some(h) => h.clone_hints(),
                None => Hints::default(),
            };
            out.push(
                CompiledPattern {
                    id: rule.id.clone(),
                    kind,
                    regex: re,
                    score: rule.score,
                    constraints,
                    hints,
                },
            );
            i = i + 1;
        }
        Ok(PatternSet { rules: out })
    }

    /// Append one rule with empty constraints and hints, compiling its regex;
    /// the set is unchanged when the regex is invalid.
    pub fn add_pattern(&mut self, id: String, kind: Kind, regex_str: &str, score: u32) -> (r:
        Result<(), String>)
        ensures
            r is Ok ==> re_valid(regex_str@) && final(self).rules@.len() == old(
                self,
            ).rules@.len() + 1 && (forall|k: int|
                0 <= k < old(self).rules@.len() ==> final(self).rules@[k] == old(
                    self,
                ).rules@[k]) && {
                let c = final(self).rules@[old(self).rules@.len() as int].deep_view();
                &&& c.id == id@
                &&& c.kind == kind.deep_view()
                &&& c.pattern == regex_str@
                &&& c.score == score as nat
                &&& c.constraints.min_len is None && c.constraints.max_tokens is None
                    && c.constraints.disallow is None
                &&& c.hints.left is None && c.hints.right is None
            },
            r is Err ==> !re_valid(regex_str@) && final(self).rules@ == old(self).rules@,
    {
        let re = match regex_new(regex_str) {
            Ok(re) => re,
            Err(msg) => {
                return Err(msg);
            },
        };
        self.rules.push(
            CompiledPattern {
                id,
                kind,
                regex: re,
                score,
                constraints: Constraints::default(),
                hints: Hints::default(),
            },
        );
        Ok(())
    }

    /// Append dynamically generated rules (identifier, kind, regex source,
    /// score), such as the calendar's date patterns; fails on the first
    /// invalid regex, in which case the set is consumed and nothing is
    /// returned.
    pub fn with_extra(self, extra: Vec<(String, Kind, String, u32)>) -> (r: Result<
        PatternSet,
        String,
    >)
        ensures
            r matches Ok(ps) ==> ps.rules@.len() == self.rules@.len() + extra@.len() && (forall|
                k: int,
            |
                0 <= k < self.rules@.len() ==> ps.rules@[k] == self.rules@[k]) && (forall|k: int|
                0 <= k < extra@.len() ==> {
                    let c = (#[trigger] ps.rules@[self.rules@.len() + k]).deep_view();
                    &&& c.id == extra@[k].0@
                    &&& c.kind == extra@[k].1.deep_view()
                    &&& c.pattern == extra@[k].2@
                    &&& re_valid(extra@[k].2@)
                    &&& c.score == extra@[k].3 as nat
                    &&& c.constraints.min_len is None && c.constraints.max_tokens is None
                        && c.constraints.disallow is None
                    &&& c.hints.left is None && c.hints.right is None
                }),
            r is Err ==> exists|k: int|
                0 <= k < extra@.len() && !re_valid((#[trigger] extra@[k]).2@),
    {
        let mut me = self;
        let ghost base = me.rules@;
        let n = extra.len();
        let mut v = extra;
        let ghost extrav = v@;
        let mut i: usize = 0;
        while i < n
            invariant
                extrav == extra@,
                n == extrav.len(),
                v@ =~= extrav.skip(i as int),
                0 <= i <= n,
                me.rules@.len() == base.len() + i,
                forall|k: int| 0 <= k < base.len() ==> me.rules@[k] == base[k],
                forall|k: int|
                    0 <= k < i ==> {
                        let c = (#[trigger] me.rules@[base.len() + k]).deep_view();
                        &&& c.id == extrav[k].0@
                        &&& c.kind == extrav[k].1.deep_view()
                        &&& c.pattern == extrav[k].2@
                        &&& re_valid(extrav[k].2@)
                        &&& c.score == extrav[k].3 as nat
                        &&& c.constraints.min_len is None && c.constraints.max_tokens is None
                            && c.constraints.disallow is None
                        &&& c.hints.left is None && c.hints.right is None
                    },
            decreases n - i,
        {
            let ghost old_v = v@;
            let (id, kind, regex_src, score) = v.remove(0);
            proof {
                assert(old_v[0] == extrav[i as int]);
                assert(v@ =~= extrav.skip(i + 1));
            }
            let ghost src_view = regex_src@;
            proof {
                assert(src_view == extrav[i as int].2@);
            }
            match me.add_pattern(id, kind, regex_src.as_str(), score) {
                Ok(_) => {},
                Err(msg) => {
                    proof {
                        assert(!re_valid(extrav[i as int].2@));
                    }
                    return Err(msg);
                },
            }
            i = i + 1;
        }
        Ok(me)
    }
}

impl Constraints {
    /// A copy of the constraints, preserving their view.
    pub fn clone_constraints(&self) -> (r: Constraints)
        ensures
            r.deep_view() == self.deep_view(),
    {
        Constraints {
            min_len: self.min_len,
            max_tokens: self.max_tokens,
            disallow: match &self.disallow {
                Some(v) => Some(clone_string_vec(v)),
                None => None,
            },
        }
    }
}

impl Hints {
    /// A copy of the hints, preserving their view.
    pub fn clone_hints(&self) -> (r: Hints)
        ensures
            r.deep_view() == self.deep_view(),
    {
        Hints {
            left: match &self.left {
                Some(v) => Some(clone_string_vec(v)),
                None => None,
            },
            right: match &self.right {
                Some(v) => Some(clone_string_vec(v)),
                None => None,
            },
        }
    }
}

/// A copy of a string vector, preserving its views.
pub fn clone_string_vec(v: &Vec<String>) -> (r: Vec<String>)
    ensures
        r.deep_view() == v.deep_view(),
{
    let mut r: Vec<String> = Vec::new();
    let n = v.len();
    let mut i: usize = 0;
    while i < n
        invariant
            n == v@.len(),
            0 <= i <= n,
            r@.len() == i,
            forall|k: int| 0 <= k < i ==> (#[trigger] r@[k])@ == v@[k]@,
        decreases n - i,
    {
        r.push(v[i].clone());
        i = i + 1;
    }
    proof {
        assert(r.deep_view() =~= v.deep_view());
    }
    r
}

} // verus!
