//! Calendar pattern generator: builds date-recognition rules from
//! configurable month, epoch and season vocabularies. Merging an override
//! configuration extends the base vocabularies by concatenation; defaults are
//! never discarded.

use vstd::prelude::*;

use crate::types::{Kind, KindV};

verus! {

broadcast use vstd::seq_lib::group_seq_properties;

/// Calendar configuration: each list is optional; a merge extends present
/// lists additively.
#[derive(Debug, Clone)]
pub struct CalendarConfig {
    pub months: Option<Vec<String>>,
    pub epochs: Option<Vec<String>>,
    pub seasons: Option<Vec<String>>,
    pub day_suffixes: Option<Vec<String>>,
}

/// Mathematical view of a calendar configuration.
pub ghost struct CalendarConfigV {
    pub months: Option<Seq<Seq<char>>>,
    pub epochs: Option<Seq<Seq<char>>>,
    pub seasons: Option<Seq<Seq<char>>>,
    pub day_suffixes: Option<Seq<Seq<char>>>,
}

impl DeepView for CalendarConfig {
    type V = CalendarConfigV;

    open spec fn deep_view(&self) -> CalendarConfigV {
        CalendarConfigV {
            months: match &self.months {
                Some(v) => Some(v.deep_view()),
                None => None,
            },
            epochs: match &self.epochs {
                Some(v) => Some(v.deep_view()),
                None => None,
            },
            seasons: match &self.seasons {
                Some(v) => Some(v.deep_view()),
                None => None,
            },
            day_suffixes: match &self.day_suffixes {
                Some(v) => Some(v.deep_view()),
                None => None,
            },
        }
    }
}

/// The default month names.
pub open spec fn default_months() -> Seq<Seq<char>> {
    seq![
        "January"@,
        "February"@,
        "March"@,
        "April"@,
        "May"@,
        "June"@,
        "July"@,
        "August"@,
        "September"@,
        "October"@,
        "November"@,
        "December"@,
    ]
}

/// The default epoch markers.
pub open spec fn default_epochs() -> Seq<Seq<char>> {
    seq!["AD"@, "BC"@, "CE"@, "BCE"@]
}

/// The default season names.
pub open spec fn default_seasons() -> Seq<Seq<char>> {
    seq!["Spring"@, "Summer"@, "Autumn"@, "Fall"@, "Winter"@]
}

/// The default ordinal day suffixes.
pub open spec fn default_day_suffixes() -> Seq<Seq<char>> {
    seq!["st"@, "nd"@, "rd"@, "th"@]
}

impl Default for CalendarConfig {
    /// The default configuration: twelve Gregorian months, four epoch
    /// markers, five season names, four day suffixes.
    fn default() -> (r: CalendarConfig)
        ensures
            r.deep_view().months matches Some(m) && m =~= default_months(),
            r.deep_view().epochs matches Some(e) && e =~= default_epochs(),
            r.deep_view().seasons matches Some(s) && s =~= default_seasons(),
            r.deep_view().day_suffixes matches Some(d) && d =~= default_day_suffixes(),
    {
        let mut months: Vec<String> = Vec::new();
        months.push("January".to_owned());
        months.push("February".to_owned());
        months.push("March".to_owned());
        months.push("April".to_owned());
        months.push("May".to_owned());
        months.push("June".to_owned());
        months.push("July".to_owned());
        months.push("August".to_owned());
        months.push("September".to_owned());
        months.push("October".to_owned());
        months.push("November".to_owned());
        months.push("December".to_owned());
        let mut epochs: Vec<String> = Vec::new();
        epochs.push("AD".to_owned());
        epochs.push("BC".to_owned());
        epochs.push("CE".to_owned());
        epochs.push("BCE".to_owned());
        let mut seasons: Vec<String> = Vec::new();
        seasons.push("Spring".to_owned());
        seasons.push("Summer".to_owned());
        seasons.push("Autumn".to_owned());
        seasons.push("Fall".to_owned());
        seasons.push("Winter".to_owned());
        let mut day_suffixes: Vec<String> = Vec::new();
        day_suffixes.push("st".to_owned());
        day_suffixes.push("nd".to_owned());
        day_suffixes.push("rd".to_owned());
        day_suffixes.push("th".to_owned());
        CalendarConfig {
            months: Some(months),
            epochs: Some(epochs),
            seasons: Some(seasons),
            day_suffixes: Some(day_suffixes),
        }
    }
}

/// Alternation of a vocabulary: the entries joined by `|`.
pub open spec fn join_alts(xs: Seq<Seq<char>>) -> Seq<char>
    decreases xs.len(),
{
    if xs.len() == 0 {
        Seq::empty()
    } else if xs.len() == 1 {
        xs[0]
    } else {
        join_alts(xs.drop_last()) + "|"@ + xs.last()
    }
}

/// The month-date rule's regex source: an ordinal or bare day, an optional
/// "of", and a month name.
pub open spec fn month_regex(months: Seq<Seq<char>>) -> Seq<char> {
    r"\b(\d{1,2}(?:st|nd|rd|th)?\s+(?:of\s+)?(?:"@ + join_alts(months) + r"))\b"@
}

/// The epoch-year rule's regex source: an optional "Year", one to four
/// digits, and an epoch marker.
pub open spec fn epoch_regex(epochs: Seq<Seq<char>>) -> Seq<char> {
    r"\b(?:Year\s+)?(\d{1,4}\s+(?:"@ + join_alts(epochs) + r"))\b"@
}

/// The season-date rule's regex source: Early, Mid or Late and a season name.
pub open spec fn season_regex(seasons: Seq<Seq<char>>) -> Seq<char> {
    r"\b((?:Early|Mid|Late)\s+(?:"@ + join_alts(seasons) + r"))\b"@
}

/// The full-date rule's regex source: a day of month, a month, an optional
/// comma, a year and an epoch marker.
pub open spec fn full_date_regex(months: Seq<Seq<char>>, epochs: Seq<Seq<char>>) -> Seq<char> {
    r"\b(\d{1,2}(?:st|nd|rd|th)?\s+(?:of\s+)?(?:"@ + join_alts(months)
        + r"),?\s+(?:Year\s+)?\d{1,4}\s+(?:"@ + join_alts(epochs) + r"))\b"@
}

/// The generated rules of a configuration, in order: `date_month` (score 880)
/// when months are present; `epoch_year` (900) when epochs are present;
/// `season_date` (850) when seasons are present; `full_date` (950) when both
/// months and epochs are present.
pub open spec fn generated_patterns(c: CalendarConfigV) -> Seq<(Seq<char>, KindV, Seq<char>, u32)> {
    (match c.months {
        Some(m) => seq![("date_month"@, KindV::Date, month_regex(m), 880u32)],
        None => Seq::empty(),
    }) + (match c.epochs {
        Some(e) => seq![("epoch_year"@, KindV::Date, epoch_regex(e), 900u32)],
        None => Seq::empty(),
    }) + (match c.seasons {
        Some(s) => seq![("season_date"@, KindV::Date, season_regex(s), 850u32)],
        None => Seq::empty(),
    }) + (match (c.months, c.epochs) {
        (Some(m), Some(e)) => seq![("full_date"@, KindV::Date, full_date_regex(m, e), 950u32)],
        _ => Seq::empty(),
    })
}

/// Join a vocabulary with `|`.
fn join_alts_exec(xs: &Vec<String>) -> (r: String)
    ensures
        r@ == join_alts(xs.deep_view()),
{
    let mut acc = String::new();
    let n = xs.len();
    let mut i: usize = 0;
    while i < n
        invariant
            n == xs@.len(),
            0 <= i <= n,
            acc@ == join_alts(xs.deep_view().take(i as int)),
        decreases n - i,
    {
        if i > 0 {
            acc.append("|");
        }
        acc.append(xs[i].as_str());
        proof {
            let dv = xs.deep_view();
            assert(dv.take(i + 1).drop_last() =~= dv.take(i as int));
            assert(dv.take(i + 1).last() == dv[i as int]);
            assert(dv[i as int] == xs@[i as int]@);
            if i == 0 {
                assert(acc@ == join_alts(dv.take(1)));
            }
        }
        i = i + 1;
    }
    proof {
        assert(xs.deep_view().take(n as int) =~= xs.deep_view());
    }
    acc
}

/// Calendar pattern generator over one configuration.
pub struct Calendar {
    config: CalendarConfig,
}

impl Calendar {
    /// The generator's configuration view.
    pub closed spec fn config_view(self) -> CalendarConfigV {
        self.config.deep_view()
    }

    /// Create a calendar with the default configuration.
    pub fn default() -> (r: Calendar)
        ensures
            r.config_view().months matches Some(m) && m =~= default_months(),
            r.config_view().epochs matches Some(e) && e =~= default_epochs(),
            r.config_view().seasons matches Some(s) && s =~= default_seasons(),
            r.config_view().day_suffixes matches Some(d) && d =~= default_day_suffixes(),
    {
        Calendar { config: CalendarConfig::default() }
    }

    /// Create a calendar over a given configuration.
    pub fn from_config(config: CalendarConfig) -> (r: Calendar)
        ensures
            r.config_view() == config.deep_view(),
    {
        Calendar { config }
    }

    /// Generate the dynamic date rules of this calendar's configuration:
    /// (identifier, kind, regex source, score in thousandths) per rule.
    pub fn generate_patterns(&self) -> (r: Vec<(String, Kind, String, u32)>)
        ensures
            r.deep_view() =~= generated_patterns(self.config_view()),
    {
        let mut out: Vec<(String, Kind, String, u32)> = Vec::new();
        if let Some(months) = &self.config.months {
            let mut src = String::new();
            src.append(r"\b(\d{1,2}(?:st|nd|rd|th)?\s+(?:of\s+)?(?:");
            let alts = join_alts_exec(months);
            src.append(alts.as_str());
            src.append(r"))\b");
            out.push(("date_month".to_owned(), Kind::Date, src, 880));
        }
        if let Some(epochs) = &self.config.epochs {
            let mut src = String::new();
            src.append(r"\b(?:Year\s+)?(\d{1,4}\s+(?:");
            let alts = join_alts_exec(epochs);
            src.append(alts.as_str());
            src.append(r"))\b");
            out.push(("epoch_year".to_owned(), Kind::Date, src, 900));
        }
        if let Some(seasons) = &self.config.seasons {
            let mut src = String::new();
            src.append(r"\b((?:Early|Mid|Late)\s+(?:");
            let alts = join_alts_exec(seasons);
            src.append(alts.as_str());
            src.append(r"))\b");
            out.push(("season_date".to_owned(), Kind::Date, src, 850));
        }
        if let Some(months) = &self.config.months {
            if let Some(epochs) = &self.config.epochs {
                let mut src = String::new();
                src.append(r"\b(\d{1,2}(?:st|nd|rd|th)?\s+(?:of\s+)?(?:");
                let alts_m = join_alts_exec(months);
                src.append(alts_m.as_str());
                src.append(r"),?\s+(?:Year\s+)?\d{1,4}\s+(?:");
                let alts_e = join_alts_exec(epochs);
                src.append(alts_e.as_str());
                src.append(r"))\b");
                out.push(("full_date".to_owned(), Kind::Date, src, 950));
            }
        }
        proof {
            assert(out.deep_view() =~= generated_patterns(self.config_view()));
        }
        out
    }

    /// Merge an override configuration into this calendar: each list the
    /// override provides is appended to the base list (or to an empty list
    /// when the base has none); lists the override omits stay as they are.
    pub fn merge(self, other: CalendarConfig) -> (r: Calendar)
        ensures
            r.config_view().months == merged_field(
                self.config_view().months,
                other.deep_view().months,
            ),
            r.config_view().epochs == merged_field(
                self.config_view().epochs,
                other.deep_view().epochs,
            ),
            r.config_view().seasons == merged_field(
                self.config_view().seasons,
                other.deep_view().seasons,
            ),
            r.config_view().day_suffixes == merged_field(
                self.config_view().day_suffixes,
                other.deep_view().day_suffixes,
            ),
    {
        let config = CalendarConfig {
            months: merge_field(self.config.months, other.months),
            epochs: merge_field(self.config.epochs, other.epochs),
            seasons: merge_field(self.config.seasons, other.seasons),
            day_suffixes: merge_field(self.config.day_suffixes, other.day_suffixes),
        };
        Calendar { config }
    }
}

/// The merge of one optional vocabulary: an override extends the base by
/// concatenation, a missing override leaves the base unchanged.
pub open spec fn merged_field(
    base: Option<Seq<Seq<char>>>,
    over: Option<Seq<Seq<char>>>,
) -> Option<Seq<Seq<char>>> {
    match over {
        None => base,
        Some(b) => match base {
            Some(a) => Some(a + b),
            None => Some(Seq::empty() + b),
        },
    }
}

/// Merge one optional vocabulary field.
fn merge_field(base: Option<Vec<String>>, over: Option<Vec<String>>) -> (r: Option<Vec<String>>)
    ensures
        (match r {
            Some(v) => Some(v.deep_view()),
            None => None,
        }) == merged_field(
            match base {
                Some(v) => Some(v.deep_view()),
                None => None,
            },
            match over {
                Some(v) => Some(v.deep_view()),
                None => None,
            },
        ),
{
    match over {
        None => base,
        Some(mut b) => match base {
            Some(mut a) => {
                let ghost av = a.deep_view();
                let ghost bv = b.deep_view();
                a.append(&mut b);
                proof {
                    assert(a.deep_view() =~= av + bv);
                }
                Some(a)
            },
            None => {
                proof {
                    assert(b.deep_view() =~= Seq::<Seq<char>>::empty() + b.deep_view());
                }
                Some(b)
            },
        },
    }
}

} // verus!
