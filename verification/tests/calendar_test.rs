use lore_parser::{Calendar, CalendarConfig};
use regex::Regex;

#[test]
fn test_default_calendar() {
    let cal = Calendar::default();
    let patterns = cal.generate_patterns();
    assert!(patterns.len() > 0);
}

#[test]
fn test_generate_month_pattern() {
    let cal = Calendar::default();
    let patterns = cal.generate_patterns();

    // find the month pattern
    let month_pattern = patterns
        .iter()
        .find(|(id, _, _, _)| id == "date_month")
        .unwrap();

    let regex = Regex::new(&month_pattern.2).unwrap();
    assert!(regex.is_match("3rd of January"));
    assert!(regex.is_match("15th December"));
}

#[test]
fn test_generate_epoch_pattern() {
    let cal = Calendar::default();
    let patterns = cal.generate_patterns();

    // find the epoch pattern
    let epoch_pattern = patterns
        .iter()
        .find(|(id, _, _, _)| id == "epoch_year")
        .unwrap();

    let regex = Regex::new(&epoch_pattern.2).unwrap();
    assert!(regex.is_match("Year 412 AD"));
    assert!(regex.is_match("3024 CE"));
}

#[test]
fn test_merge_calendars() {
    let base = Calendar::default();
    let override_config = CalendarConfig {
        months: Some(vec!["Stormtide".into(), "Frostfall".into()]),
        epochs: Some(vec!["AE".into()]),
        seasons: None,
        day_suffixes: None,
    };

    let merged = base.merge(override_config);
    let patterns = merged.generate_patterns();

    // should have both default and custom months
    let month_pattern = patterns
        .iter()
        .find(|(id, _, _, _)| id == "date_month")
        .unwrap();

    let regex = Regex::new(&month_pattern.2).unwrap();
    assert!(regex.is_match("3rd of January")); // default
    assert!(regex.is_match("15th Stormtide")); // custom
}

#[test]
fn test_full_date_pattern() {
    let cal = Calendar::default();
    let patterns = cal.generate_patterns();
    assert_eq!(patterns.len(), 4);

    let full = patterns.iter().find(|(id, _, _, _)| id == "full_date").unwrap();
    assert_eq!(full.3, 950);
    let regex = Regex::new(&full.2).unwrap();
    assert!(regex.is_match("3rd of January, Year 412 AD"));

    let season = patterns.iter().find(|(id, _, _, _)| id == "season_date").unwrap();
    assert_eq!(season.3, 850);
    let regex = Regex::new(&season.2).unwrap();
    assert!(regex.is_match("Early Spring"));
    assert!(regex.is_match("Late Winter"));
}
