//! Core data types: spans, entity kinds, hits and links, and their
//! mathematical views.

use vstd::prelude::*;

verus! {

/// A text span. `start` and `end` are character offsets into the source text
/// (indices into the text viewed as a sequence of `char`s), with
/// `start <= end <= text length`. `text` is the reported surface form; for
/// dictionary and fuzzy hits it equals the source text between `start` and
/// `end`, while for pattern hits it may be a capture group inside that range.
#[derive(Debug, Clone)]
pub struct Span {
    pub start: usize,
    pub end: usize,
    pub text: String,
}

/// Mathematical view of a `Span`.
pub ghost struct SpanV {
    pub start: nat,
    pub end: nat,
    pub text: Seq<char>,
}

impl DeepView for Span {
    type V = SpanV;

    open spec fn deep_view(&self) -> SpanV {
        SpanV { start: self.start as nat, end: self.end as nat, text: self.text@ }
    }
}

/// Entity kind. The closed set of recognized kinds, plus an open
/// `Custom(label)` fallback for configuration labels outside that set.
#[derive(Debug, Clone)]
pub enum Kind {
    Person,
    Place,
    Faction,
    Item,
    Creature,
    Magic,
    Date,
    Custom(String),
}

/// Mathematical view of a `Kind`.
pub ghost enum KindV {
    Person,
    Place,
    Faction,
    Item,
    Creature,
    Magic,
    Date,
    Custom(Seq<char>),
}

impl DeepView for Kind {
    type V = KindV;

    open spec fn deep_view(&self) -> KindV {
        match self {
            Kind::Person => KindV::Person,
            Kind::Place => KindV::Place,
            Kind::Faction => KindV::Faction,
            Kind::Item => KindV::Item,
            Kind::Creature => KindV::Creature,
            Kind::Magic => KindV::Magic,
            Kind::Date => KindV::Date,
            Kind::Custom(s) => KindV::Custom(s@),
        }
    }
}

impl PartialEq for Kind {
    fn eq(&self, other: &Kind) -> (r: bool)
        ensures
            r == (self.deep_view() == other.deep_view()),
    {
        match self {
            Kind::Person => matches!(other, Kind::Person),
            Kind::Place => matches!(other, Kind::Place),
            Kind::Faction => matches!(other, Kind::Faction),
            Kind::Item => matches!(other, Kind::Item),
            Kind::Creature => matches!(other, Kind::Creature),
            Kind::Magic => matches!(other, Kind::Magic),
            Kind::Date => matches!(other, Kind::Date),
            Kind::Custom(a) => match other {
                Kind::Custom(b) => a.eq(b),
                _ => false,
            },
        }
    }
}

impl Eq for Kind {

}

impl vstd::std_specs::cmp::PartialEqSpecImpl for Kind {
    open spec fn obeys_eq_spec() -> bool {
        true
    }

    open spec fn eq_spec(&self, other: &Kind) -> bool {
        self.deep_view() == other.deep_view()
    }
}

/// The label that `Kind::from_str` maps to each closed kind, as a spec-level
/// mapping from a label to the resulting kind view.
pub open spec fn kind_of_label(s: Seq<char>) -> KindV {
    if s == "Person"@ {
        KindV::Person
    } else if s == "Place"@ {
        KindV::Place
    } else if s == "Faction"@ {
        KindV::Faction
    } else if s == "Item"@ {
        KindV::Item
    } else if s == "Creature"@ {
        KindV::Creature
    } else if s == "Magic"@ {
        KindV::Magic
    } else if s == "Date"@ {
        KindV::Date
    } else {
        KindV::Custom(s)
    }
}

impl Kind {
    /// Parse a configuration label into a `Kind`. Labels outside the closed
    /// set become `Custom` carrying the label itself.
    pub fn from_str(s: &str) -> (r: Kind)
        ensures
            r.deep_view() == kind_of_label(s@),
    {
        let owned = s.to_owned();
        if owned == "Person".to_owned() {
            proof {
                reveal_strlit("Person");
            }
            Kind::Person
        } else if owned == "Place".to_owned() {
            proof {
                reveal_strlit("Place");
            }
            Kind::Place
        } else if owned == "Faction".to_owned() {
            proof {
                reveal_strlit("Faction");
            }
            Kind::Faction
        } else if owned == "Item".to_owned() {
            proof {
                reveal_strlit("Item");
            }
            Kind::Item
        } else if owned == "Creature".to_owned() {
            proof {
                reveal_strlit("Creature");
            }
            Kind::Creature
        } else if owned == "Magic".to_owned() {
            proof {
                reveal_strlit("Magic");
            }
            Kind::Magic
        } else if owned == "Date".to_owned() {
            proof {
                reveal_strlit("Date");
            }
            Kind::Date
        } else {
            Kind::Custom(owned)
        }
    }
}

impl Kind {
    /// A copy of the kind, preserving its view.
    pub fn clone_kind(&self) -> (r: Kind)
        ensures
            r.deep_view() == self.deep_view(),
    {
        match self {
            Kind::Person => Kind::Person,
            Kind::Place => Kind::Place,
            Kind::Faction => Kind::Faction,
            Kind::Item => Kind::Item,
            Kind::Creature => Kind::Creature,
            Kind::Magic => Kind::Magic,
            Kind::Date => Kind::Date,
            Kind::Custom(s) => Kind::Custom(s.clone()),
        }
    }
}

/// Provenance of a hit: exact dictionary match, pattern-rule match, or the
/// fuzzy capitalized-phrase / coreference pass.
#[derive(Debug, Clone, Copy, PartialEq, Eq, Structural)]
pub enum HitSource {
    Gazetteer,
    Pattern,
    Fuzzy,
}

impl DeepView for HitSource {
    type V = HitSource;

    open spec fn deep_view(&self) -> HitSource {
        *self
    }
}

/// A reference into an external entity directory. Absence of a link means
/// "no match found", never an error.
#[derive(Debug, Clone)]
pub struct Link {
    pub id: Option<String>,
    pub slug: Option<String>,
    pub name: String,
    pub kind: Kind,
}

/// Mathematical view of a `Link`.
pub ghost struct LinkV {
    pub id: Option<Seq<char>>,
    pub slug: Option<Seq<char>>,
    pub name: Seq<char>,
    pub kind: KindV,
}

impl DeepView for Link {
    type V = LinkV;

    open spec fn deep_view(&self) -> LinkV {
        LinkV {
            id: self.id.deep_view(),
            slug: self.slug.deep_view(),
            name: self.name@,
            kind: self.kind.deep_view(),
        }
    }
}

/// A detected entity mention. `score` is a confidence in thousandths,
/// between 0 and 1000.
#[derive(Debug, Clone)]
pub struct EntityHit {
    pub kind: Kind,
    pub span: Span,
    pub source: HitSource,
    pub pattern_id: Option<String>,
    pub score: u32,
    pub link: Option<Link>,
}

/// Mathematical view of an `EntityHit`.
pub ghost struct HitV {
    pub kind: KindV,
    pub span: SpanV,
    pub source: HitSource,
    pub pattern_id: Option<Seq<char>>,
    pub score: nat,
    pub link: Option<LinkV>,
}

impl DeepView for EntityHit {
    type V = HitV;

    open spec fn deep_view(&self) -> HitV {
        HitV {
            kind: self.kind.deep_view(),
            span: self.span.deep_view(),
            source: self.source,
            pattern_id: self.pattern_id.deep_view(),
            score: self.score as nat,
            link: self.link.deep_view(),
        }
    }
}

impl HitV {
    /// Length of the hit's span.
    pub open spec fn span_len(self) -> int {
        self.span.end - self.span.start
    }
}

/// Two span ranges overlap unless one starts at or after the other's end.
pub open spec fn hits_overlap(a: HitV, b: HitV) -> bool {
    !(a.span.end <= b.span.start || a.span.start >= b.span.end)
}

impl Link {
    /// A copy of the link, preserving its view.
    pub fn clone_link(&self) -> (r: Link)
        ensures
            r.deep_view() == self.deep_view(),
    {
        Link {
            id: match &self.id {
                Some(s) => Some(s.clone()),
                None => None,
            },
            slug: match &self.slug {
                Some(s) => Some(s.clone()),
                None => None,
            },
            name: self.name.clone(),
            kind: self.kind.clone_kind(),
        }
    }
}

impl EntityHit {
    /// A copy of the hit, preserving its view.
    pub fn clone_hit(&self) -> (r: EntityHit)
        ensures
            r.deep_view() == self.deep_view(),
    {
        EntityHit {
            kind: self.kind.clone_kind(),
            span: Span {
                start: self.span.start,
                end: self.span.end,
                text: self.span.text.clone(),
            },
            source: self.source,
            pattern_id: match &self.pattern_id {
                Some(s) => Some(s.clone()),
                None => None,
            },
            score: self.score,
            link: match &self.link {
                Some(l) => Some(l.clone_link()),
                None => None,
            },
        }
    }
}

/// A request to annotate `text`. `kinds`, when present, filters the response
/// to hits of those kinds; `fuzzy` defaults to true when absent.
#[derive(Debug, Clone)]
pub struct ParseRequest {
    pub text: String,
    pub project_id: Option<String>,
    pub kinds: Option<Vec<Kind>>,
    pub fuzzy: Option<bool>,
}

/// The annotated result: ordered hits plus the text's word tokens.
#[derive(Debug, Clone)]
pub struct ParseResponse {
    pub hits: Vec<EntityHit>,
    pub tokens: Vec<String>,
}

} // verus!

