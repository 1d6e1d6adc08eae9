use lore_parser::Kind;
use lore_parser::zones::{find_stop_zones, in_zones};

#[test]
fn test_find_stop_zones_merge() {
    // a fence, an inline span and a quoted span; all zones come out
    // normalized: sorted and strictly separated
    let text = "a `x` b \"quoted\" c ```code\nblock``` d";
    let chars: Vec<char> = text.chars().collect();
    let zones = find_stop_zones(&chars);
    assert!(zones.len() >= 3);
    for w in zones.windows(2) {
        assert!(w[0].end < w[1].start);
    }
    for z in &zones {
        assert!(z.start < z.end);
    }
}

#[test]
fn test_in_zones_lookup() {
    let text = "say `abc` now";
    let chars: Vec<char> = text.chars().collect();
    let zones = find_stop_zones(&chars);
    assert_eq!(zones.len(), 1);
    // the inline code span covers `abc` including the backticks
    assert!(in_zones(&zones, 5, 8));
    // a range before the zone does not intersect it
    assert!(!in_zones(&zones, 0, 3));
    // a range after the zone does not intersect it
    assert!(!in_zones(&zones, 10, 13));
}

#[test]
fn test_unclosed_fence_matches_nothing() {
    // an unclosed fence yields no fenced block; the inline-code scan still
    // pairs the first two backticks
    let text = "```code with no closing fence";
    let chars: Vec<char> = text.chars().collect();
    let zones = find_stop_zones(&chars);
    assert_eq!(zones.len(), 1);
    assert_eq!(zones[0].start, 0);
    assert_eq!(zones[0].end, 2);
}

#[test]
fn test_kind_from_str() {
    assert_eq!(Kind::from_str("Person"), Kind::Person);
    assert_eq!(Kind::from_str("Place"), Kind::Place);
    assert_eq!(Kind::from_str("Faction"), Kind::Faction);
    assert_eq!(Kind::from_str("Item"), Kind::Item);
    assert_eq!(Kind::from_str("Creature"), Kind::Creature);
    assert_eq!(Kind::from_str("Magic"), Kind::Magic);
    assert_eq!(Kind::from_str("Date"), Kind::Date);
    assert_eq!(
        Kind::from_str("Relic"),
        Kind::Custom("Relic".to_string())
    );
}

#[test]
fn test_extract_legacy() {
    let cands = lore_parser::extract("Lady Amicae crossed the Storm Coast. The Aegis glowed.");
    let texts: Vec<_> = cands.iter().map(|c| (c.text.as_str(), c.kind)).collect();
    assert!(texts.contains(&("Lady Amicae", lore_parser::EntityKind::Person)));
    assert!(texts.contains(&("Storm Coast", lore_parser::EntityKind::Place)));
    assert!(texts.contains(&("The Aegis", lore_parser::EntityKind::Item)));
    // single capitalized words are not places
    assert!(!texts.iter().any(|(t, k)| *t == "Aegis" && *k == lore_parser::EntityKind::Place));
}
