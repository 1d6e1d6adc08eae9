//! Linker: resolve finished hits against an externally supplied entity
//! directory, injected as a lookup function. Misses are not errors: a hit
//! with no match keeps its link unchanged. Three independent strategies are
//! offered: exact (kind, text) lookup, slug lookup, and case-folded name
//! lookup.

use vstd::prelude::*;
use vstd::string::StrSliceExecFns;

use crate::textops::lower_of;
use crate::types::{EntityHit, HitV, Kind, Link};

verus! {

/// The fields of a hit that linking never touches.
pub open spec fn same_but_link(a: HitV, b: HitV) -> bool {
    &&& a.kind == b.kind
    &&& a.span == b.span
    &&& a.source == b.source
    &&& a.pattern_id == b.pattern_id
    &&& a.score == b.score
}

/// The slug form that `Linker::to_slug` computes: spaces become hyphens, then
/// the whole text is lowercased.
pub open spec fn to_slug_spec(s: Seq<char>) -> Seq<char> {
    lower_of(
        s.map_values(
            |c: char|
                if c == ' ' {
                    '-'
                } else {
                    c
                },
        ),
    )
}

/// Link parsed entities to directory records.
pub struct Linker {

}

impl Linker {
    /// Convert text to slug form: spaces to hyphens, lowercased.
    pub fn to_slug(text: &str) -> (r: String)
        ensures
            r@ == to_slug_spec(text@),
    {
        let chars = crate::textops::to_chars(text);
        let n = chars.len();
        let mut mapped: Vec<char> = Vec::new();
        let mut i: usize = 0;
        while i < n
            invariant
                n == chars@.len(),
                0 <= i <= n,
                mapped@ =~= chars@.take(i as int).map_values(
                    |c: char|
                        if c == ' ' {
                            '-'
                        } else {
                            c
                        },
                ),
            decreases n - i,
        {
            let c = chars[i];
            if c == ' ' {
                mapped.push('-');
            } else {
                mapped.push(c);
            }
            proof {
                assert(mapped@ =~= chars@.take(i + 1).map_values(
                    |c: char|
                        if c == ' ' {
                            '-'
                        } else {
                            c
                        },
                ));
            }
            i = i + 1;
        }
        proof {
            assert(chars@.take(n as int) =~= chars@);
        }
        let replaced = crate::textops::string_from_chars(&mapped);
        crate::textops::to_lowercase_str(replaced.as_str())
    }

    /// Link entities with a lookup over (kind, surface text): wherever the
    /// lookup returns a link for a hit's kind and exact surface text, that
    /// link is set; otherwise the hit is unchanged.
    #[verifier::loop_isolation(false)]
    pub fn link_entities<F: Fn(&Kind, &str) -> Option<Link>>(hits: Vec<EntityHit>, lookup: F) -> (r:
        Vec<EntityHit>)
        requires
            forall|k: &Kind, t: &str| #[trigger] call_requires(lookup, (k, t)),
        ensures
            r.deep_view().len() == hits.deep_view().len(),
            forall|i: int|
                0 <= i < r.deep_view().len() ==> {
                    let h0 = hits.deep_view()[i];
                    let h1 = #[trigger] r.deep_view()[i];
                    &&& same_but_link(h0, h1)
                    &&& exists|args: (&Kind, &str), res: Option<Link>|
                        #[trigger] call_ensures(lookup, args, res) && args.0.deep_view() == h0.kind
                            && args.1@ == h0.span.text && (match res {
                            Some(l) => h1.link == Some(l.deep_view()),
                            None => h1.link == h0.link,
                        })
                },
    {
        let ghost all = hits.deep_view();
        let mut v = hits;
        let mut out: Vec<EntityHit> = Vec::new();
        let ghost mut taken: int = 0;
        while v.len() > 0
            invariant
                0 <= taken <= all.len(),
                v.deep_view() =~= all.skip(taken),
                out.deep_view().len() == taken,
                forall|i: int|
                    0 <= i < taken ==> {
                        let h0 = all[i];
                        let h1 = #[trigger] out.deep_view()[i];
                        &&& same_but_link(h0, h1)
                        &&& exists|args: (&Kind, &str), res: Option<Link>|
                            #[trigger] call_ensures(lookup, args, res) && args.0.deep_view()
                                == h0.kind && args.1@ == h0.span.text && (match res {
                                Some(l) => h1.link == Some(l.deep_view()),
                                None => h1.link == h0.link,
                            })
                    },
            decreases v@.len(),
        {
            let ghost old_v = v.deep_view();
            proof {
                assert(all.skip(taken).len() > 0);
                vstd::seq_lib::lemma_seq_skip_index(all, taken, 0);
            }
            let mut h = v.remove(0);
            proof {
                assert(h.deep_view() == old_v[0]);
                assert(h.deep_view() == all[taken]);
                assert(v.deep_view() =~= old_v.drop_first());
                assert(v.deep_view() =~= all.skip(taken + 1));
            }
            let ghost old_out = out.deep_view();
            let ghost pre = h.deep_view();
            let found = lookup(&h.kind, h.span.text.as_str());
            let ghost gf = found;
            match found {
                Some(l) => {
                    h.link = Some(l);
                },
                None => {},
            }
            proof {
                if gf is Some {
                    assert(h.deep_view().link == Some(gf->Some_0.deep_view()));
                } else {
                    assert(h.deep_view().link == pre.link);
                }
                assert(same_but_link(all[taken], h.deep_view()));
            }
            out.push(h);
            proof {
                assert(out.deep_view() =~= old_out.push(h.deep_view()));
                taken = taken + 1;
            }
        }
        out
    }

    /// Link entities with a slug lookup: each hit's surface text is reduced
    /// to its slug; wherever the lookup returns a link for that slug, the
    /// link is set, else the hit is unchanged.
    #[verifier::loop_isolation(false)]
    pub fn link_with_slug<F: Fn(&str) -> Option<Link>>(hits: Vec<EntityHit>, lookup: F) -> (r: Vec<
        EntityHit,
    >)
        requires
            forall|t: &str| #[trigger] call_requires(lookup, (t,)),
        ensures
            r.deep_view().len() == hits.deep_view().len(),
            forall|i: int|
                0 <= i < r.deep_view().len() ==> {
                    let h0 = hits.deep_view()[i];
                    let h1 = #[trigger] r.deep_view()[i];
                    &&& same_but_link(h0, h1)
                    &&& exists|args: (&str,), res: Option<Link>|
                        #[trigger] call_ensures(lookup, args, res) && args.0@ == to_slug_spec(
                            h0.span.text,
                        ) && (match res {
                            Some(l) => h1.link == Some(l.deep_view()),
                            None => h1.link == h0.link,
                        })
                },
    {
        let ghost all = hits.deep_view();
        let mut v = hits;
        let mut out: Vec<EntityHit> = Vec::new();
        let ghost mut taken: int = 0;
        while v.len() > 0
            invariant
                0 <= taken <= all.len(),
                v.deep_view() =~= all.skip(taken),
                out.deep_view().len() == taken,
                forall|i: int|
                    0 <= i < taken ==> {
                        let h0 = all[i];
                        let h1 = #[trigger] out.deep_view()[i];
                        &&& same_but_link(h0, h1)
                        &&& exists|args: (&str,), res: Option<Link>|
                            #[trigger] call_ensures(lookup, args, res) && args.0@ == to_slug_spec(
                                h0.span.text,
                            ) && (match res {
                                Some(l) => h1.link == Some(l.deep_view()),
                                None => h1.link == h0.link,
                            })
                    },
            decreases v@.len(),
        {
            let ghost old_v = v.deep_view();
            proof {
                assert(all.skip(taken).len() > 0);
                vstd::seq_lib::lemma_seq_skip_index(all, taken, 0);
            }
            let mut h = v.remove(0);
            proof {
                assert(h.deep_view() == old_v[0]);
                assert(h.deep_view() == all[taken]);
                assert(v.deep_view() =~= old_v.drop_first());
                assert(v.deep_view() =~= all.skip(taken + 1));
            }
            let ghost old_out = out.deep_view();
            let ghost pre = h.deep_view();
            let slug = Linker::to_slug(h.span.text.as_str());
            let found = lookup(slug.as_str());
            let ghost gf = found;
            match found {
                Some(l) => {
                    h.link = Some(l);
                },
                None => {},
            }
            proof {
                if gf is Some {
                    assert(h.deep_view().link == Some(gf->Some_0.deep_view()));
                } else {
                    assert(h.deep_view().link == pre.link);
                }
                assert(same_but_link(all[taken], h.deep_view()));
            }
            out.push(h);
            proof {
                assert(out.deep_view() =~= old_out.push(h.deep_view()));
                taken = taken + 1;
            }
        }
        out
    }

    /// Link entities by case-folded name: each hit's surface text is
    /// lowercased; wherever the lookup returns a link for the hit's kind and
    /// that name, the link is set, else the hit is unchanged.
    #[verifier::loop_isolation(false)]
    pub fn link_by_name<F: Fn(&Kind, &str) -> Option<Link>>(hits: Vec<EntityHit>, lookup: F) -> (r:
        Vec<EntityHit>)
        requires
            forall|k: &Kind, t: &str| #[trigger] call_requires(lookup, (k, t)),
        ensures
            r.deep_view().len() == hits.deep_view().len(),
            forall|i: int|
                0 <= i < r.deep_view().len() ==> {
                    let h0 = hits.deep_view()[i];
                    let h1 = #[trigger] r.deep_view()[i];
                    &&& same_but_link(h0, h1)
                    &&& exists|args: (&Kind, &str), res: Option<Link>|
                        #[trigger] call_ensures(lookup, args, res) && args.0.deep_view() == h0.kind
                            && args.1@ == lower_of(h0.span.text) && (match res {
                            Some(l) => h1.link == Some(l.deep_view()),
                            None => h1.link == h0.link,
                        })
                },
    {
        let ghost all = hits.deep_view();
        let mut v = hits;
        let mut out: Vec<EntityHit> = Vec::new();
        let ghost mut taken: int = 0;
        while v.len() > 0
            invariant
                0 <= taken <= all.len(),
                v.deep_view() =~= all.skip(taken),
                out.deep_view().len() == taken,
                forall|i: int|
                    0 <= i < taken ==> {
                        let h0 = all[i];
                        let h1 = #[trigger] out.deep_view()[i];
                        &&& same_but_link(h0, h1)
                        &&& exists|args: (&Kind, &str), res: Option<Link>|
                            #[trigger] call_ensures(lookup, args, res) && args.0.deep_view()
                                == h0.kind && args.1@ == lower_of(h0.span.text) && (match res {
                                Some(l) => h1.link == Some(l.deep_view()),
                                None => h1.link == h0.link,
                            })
                    },
            decreases v@.len(),
        {
            let ghost old_v = v.deep_view();
            proof {
                assert(all.skip(taken).len() > 0);
                vstd::seq_lib::lemma_seq_skip_index(all, taken, 0);
            }
            let mut h = v.remove(0);
            proof {
                assert(h.deep_view() == old_v[0]);
                assert(h.deep_view() == all[taken]);
                assert(v.deep_view() =~= old_v.drop_first());
                assert(v.deep_view() =~= all.skip(taken + 1));
            }
            let ghost old_out = out.deep_view();
            let ghost pre = h.deep_view();
            let name = crate::textops::to_lowercase_str(h.span.text.as_str());
            let found = lookup(&h.kind, name.as_str());
            let ghost gf = found;
            match found {
                Some(l) => {
                    h.link = Some(l);
                },
                None => {},
            }
            proof {
                if gf is Some {
                    assert(h.deep_view().link == Some(gf->Some_0.deep_view()));
                } else {
                    assert(h.deep_view().link == pre.link);
                }
                assert(same_but_link(all[taken], h.deep_view()));
            }
            out.push(h);
            proof {
                assert(out.deep_view() =~= old_out.push(h.deep_view()));
                taken = taken + 1;
            }
        }
        out
    }
}

} // verus!
