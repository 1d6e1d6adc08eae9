//! Entity annotation for narrative prose.
//!
//! The library finds mentions of domain entities (people, places, factions,
//! items, creatures, magic, dates) in a text by combining exact dictionary
//! lookup, regular-expression rules, dynamically generated date patterns and
//! a lightweight coreference pass, and returns a ranked, non-overlapping set
//! of scored spans.
//!
//! All offsets reported by this library are character offsets into the text
//! (indices into the text viewed as a sequence of `char`s), and all scores
//! are integers in thousandths, between 0 and 1000.

pub mod calendar;
pub mod dict;
pub mod legacy;
pub mod linker;
pub mod parser;
pub mod patterns;
pub mod rex;
pub mod textops;
pub mod types;
pub mod util;
pub mod zones;

pub use types::{EntityHit, HitSource, Kind, Link, ParseRequest, ParseResponse, Span};
pub use calendar::{Calendar, CalendarConfig};
pub use dict::Gazetteer;
pub use legacy::{EntityCandidate, EntityKind, extract};
pub use linker::Linker;
pub use parser::Parser;
pub use patterns::{CompiledPattern, Constraints, Hints, PatternRule, PatternSet};
pub use zones::Zone;
