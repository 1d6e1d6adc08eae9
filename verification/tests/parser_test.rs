use lore_parser::{Gazetteer, HitSource, Kind, ParseRequest, Parser, PatternSet};

#[test]
fn test_parser_empty() {
    let gz = Gazetteer::empty();
    let pat = PatternSet::empty();
    let parser = Parser::new(gz, pat);

    let response = parser.parse("Hello world", false);
    assert_eq!(response.hits.len(), 0);
    assert_eq!(response.tokens, vec!["Hello", "world"]);
}

#[test]
fn test_parser_with_pattern() {
    let gz = Gazetteer::empty();
    let mut pat = PatternSet::empty();
    pat.add_pattern(
        "person_title".to_string(),
        Kind::Person,
        r"(?:Lord|Lady)\s+([A-Z][a-z]+)",
        900,
    )
    .unwrap();

    let parser = Parser::new(gz, pat);
    let response = parser.parse("Lord Rawn stood tall", false);

    assert_eq!(response.hits.len(), 1);
    assert_eq!(response.hits[0].kind, Kind::Person);
    assert!(response.hits[0].span.text.contains("Rawn"));
}

#[test]
fn test_parser_fuzzy() {
    let gz = Gazetteer::empty();
    let pat = PatternSet::empty();
    let parser = Parser::new(gz, pat);

    let response = parser.parse("Queen Amicae of Eryndor", true);

    // should find fuzzy candidates
    assert!(response.hits.len() > 0);
    let texts: Vec<_> = response.hits.iter().map(|h| h.span.text.as_str()).collect();
    assert!(texts.iter().any(|t| t.contains("Queen")));
}

#[test]
fn test_parse_request_filter_kinds() {
    let gz = Gazetteer::empty();
    let mut pat = PatternSet::empty();
    pat.add_pattern(
        "person".to_string(),
        Kind::Person,
        r"Lord\s+([A-Z][a-z]+)",
        900,
    )
    .unwrap();
    pat.add_pattern("place".to_string(), Kind::Place, r"(Storm\s+Coast)", 900)
        .unwrap();

    let parser = Parser::new(gz, pat);
    let req = ParseRequest {
        text: "Lord Rawn at Storm Coast".to_string(),
        project_id: None,
        kinds: Some(vec![Kind::Person]),
        fuzzy: Some(false),
    };

    let response = parser.parse_request(&req);

    // should only return Person entities
    assert_eq!(response.hits.len(), 1);
    assert_eq!(response.hits[0].kind, Kind::Person);
}

#[test]
fn test_stop_zones_exclude_matches() {
    let cfg = vec![(
        "Item".to_string(),
        vec!["Scorchblade".to_string(), "Mind Reaver".to_string()],
    )];
    let gz = Gazetteer::from_config(&cfg).unwrap();
    let pat = PatternSet::empty();
    let parser = Parser::new(gz, pat);

    // dictionary entries inside inline code and quotes must not match
    let text = "The hero said `Mind Reaver` softly. Also \"Scorchblade\" in quotes.";
    let response = parser.parse(text, false);
    assert_eq!(response.hits.len(), 0);

    // curly quotes suppress matches too
    let curly = "She wrote \u{201C}Scorchblade\u{201D} on the wall.";
    let response2 = parser.parse(curly, false);
    assert_eq!(response2.hits.len(), 0);

    // outside any zone the same entry matches
    let open_text = "The Scorchblade gleamed.";
    let response3 = parser.parse(open_text, false);
    assert_eq!(response3.hits.len(), 1);
    assert_eq!(response3.hits[0].span.text, "Scorchblade");
}

#[test]
fn test_coref_end_to_end() {
    let gz = Gazetteer::empty();
    let mut pat = PatternSet::empty();
    pat.add_pattern(
        "person_title".to_string(),
        Kind::Person,
        r"(?:Lord|Lady)\s+([A-Z][a-z]+)",
        900,
    )
    .unwrap();
    let parser = Parser::new(gz, pat);

    let text = "Lord Rawn entered the hall. He drew his sword. The Lord commanded silence.";
    let response = parser.parse(text, false);

    // the pattern hit for "Lord Rawn"
    let rawn = response
        .hits
        .iter()
        .find(|h| h.span.text.contains("Rawn"))
        .expect("the Lord Rawn hit must be present");
    assert_eq!(rawn.kind, Kind::Person);
    let surface = rawn.span.text.clone();

    // at least one coreference-derived Person hit, linked to Lord Rawn
    let corefs: Vec<_> = response
        .hits
        .iter()
        .filter(|h| h.pattern_id.as_deref() == Some("coref"))
        .collect();
    assert!(corefs.len() >= 1);
    for c in &corefs {
        assert_eq!(c.kind, Kind::Person);
        assert_eq!(c.source, HitSource::Fuzzy);
        assert!(c.score <= 850);
        let link = c.link.as_ref().expect("coref hits carry a link");
        assert_eq!(link.name, surface);
    }
}

#[test]
fn test_parser_with_gazetteer_and_calendar() {
    let cfg = vec![("Person".to_string(), vec!["Amicae".to_string()])];
    let gz = Gazetteer::from_config(&cfg).unwrap();
    let pat = PatternSet::empty();
    let cal = lore_parser::Calendar::default();
    let pat = pat.with_extra(cal.generate_patterns()).unwrap();
    let parser = Parser::new(gz, pat);

    let text = "Amicae arrived on the 3rd of January, in Early Spring.";
    let response = parser.parse(text, false);

    let kinds: Vec<_> = response.hits.iter().map(|h| h.kind.clone()).collect();
    assert!(kinds.contains(&Kind::Person));
    assert!(kinds.contains(&Kind::Date));
    let amicae = response.hits.iter().find(|h| h.span.text == "Amicae").unwrap();
    assert_eq!(amicae.source, HitSource::Gazetteer);
}

#[test]
fn test_final_order() {
    let cfg = vec![(
        "Person".to_string(),
        vec!["Amicae".to_string(), "Rawn".to_string()],
    )];
    let gz = Gazetteer::from_config(&cfg).unwrap();
    let parser = Parser::new(gz, PatternSet::empty());

    let response = parser.parse("Rawn saw Amicae.", false);
    assert_eq!(response.hits.len(), 2);
    // ordered by start position
    assert!(response.hits[0].span.start <= response.hits[1].span.start);
    assert_eq!(response.hits[0].span.text, "Rawn");
    assert_eq!(response.hits[1].span.text, "Amicae");
}

#[test]
fn test_parse_request_fuzzy_defaults_on() {
    let parser = Parser::new(Gazetteer::empty(), PatternSet::empty());
    let req = ParseRequest {
        text: "Queen Amicae of Eryndor".to_string(),
        project_id: None,
        kinds: None,
        fuzzy: None,
    };
    let response = parser.parse_request(&req);
    // fuzzy defaults to true, so capitalized phrases are found
    assert!(response.hits.len() > 0);
    assert!(response.hits.iter().all(|h| h.source == HitSource::Fuzzy));
    assert!(response.hits.iter().all(|h| h.score >= 500));
}

#[test]
fn test_parse_epoch_dates() {
    let gz = Gazetteer::empty();
    let pat = PatternSet::empty()
        .with_extra(lore_parser::Calendar::default().generate_patterns())
        .unwrap();
    let parser = Parser::new(gz, pat);

    let response = parser.parse("The battle of Year 412 AD ended by 3024 CE.", false);
    let dates: Vec<_> = response
        .hits
        .iter()
        .filter(|h| h.kind == Kind::Date)
        .collect();
    assert_eq!(dates.len(), 2);
    assert!(dates[0].span.text.contains("412 AD"));
    assert!(dates[1].span.text.contains("3024 CE"));
}
