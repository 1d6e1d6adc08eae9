use lore_parser::{Gazetteer, Kind};

#[test]
fn test_empty_gazetteer() {
    let gz = Gazetteer::empty();
    assert_eq!(gz.entries.len(), 0);
}

#[test]
fn test_add_entry() {
    let mut gz = Gazetteer::empty();
    gz.add_entry(Kind::Person, "Amicae".to_string());
    assert_eq!(gz.entries.len(), 1);
    assert_eq!(gz.entries[0].0, Kind::Person);
}

#[test]
fn test_from_config_find_all() {
    let cfg = vec![
        (
            "Person".to_string(),
            vec!["Amicae".to_string(), "Rawn".to_string()],
        ),
        ("Place".to_string(), vec!["Eryndor".to_string()]),
    ];
    let gz = Gazetteer::from_config(&cfg).unwrap();
    assert_eq!(gz.entries.len(), 3);

    let hits = gz.find_all("Amicae rode to Eryndor.");
    assert_eq!(hits.len(), 2);
    assert_eq!(hits[0].span.text, "Amicae");
    assert_eq!(hits[0].kind, Kind::Person);
    assert_eq!(hits[0].score, 930);
    assert_eq!(hits[1].span.text, "Eryndor");
    assert_eq!(hits[1].kind, Kind::Place);
    assert_eq!(hits[1].span.start, 15);
    assert_eq!(hits[1].span.end, 22);
}

#[test]
fn test_find_all_overlapping() {
    let cfg = vec![(
        "Person".to_string(),
        vec!["Rawn".to_string(), "Lord Rawn".to_string()],
    )];
    let gz = Gazetteer::from_config(&cfg).unwrap();

    // both the shorter and the longer surface match, overlapping
    let hits = gz.find_all("Lord Rawn spoke.");
    assert_eq!(hits.len(), 2);
    let texts: Vec<_> = hits.iter().map(|h| h.span.text.as_str()).collect();
    assert!(texts.contains(&"Rawn"));
    assert!(texts.contains(&"Lord Rawn"));
}
