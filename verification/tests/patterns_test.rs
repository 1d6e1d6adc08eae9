use lore_parser::{Kind, PatternRule, PatternSet};

#[test]
fn test_empty_pattern_set() {
    let ps = PatternSet::empty();
    assert_eq!(ps.rules.len(), 0);
}

#[test]
fn test_add_pattern() {
    let mut ps = PatternSet::empty();
    ps.add_pattern("test".to_string(), Kind::Person, r"\b[A-Z][a-z]+\b", 800)
        .unwrap();
    assert_eq!(ps.rules.len(), 1);
    assert_eq!(ps.rules[0].id, "test");
}

#[test]
fn test_pattern_matching() {
    let mut ps = PatternSet::empty();
    ps.add_pattern(
        "person_title".to_string(),
        Kind::Person,
        r"(?:Lord|Lady)\s+([A-Z][a-z]+)",
        900,
    )
    .unwrap();

    let text = "Lord Rawn stood tall";
    let matches: Vec<_> = ps.rules[0].regex.find_iter(text).collect();
    assert_eq!(matches.len(), 1);
    assert_eq!(matches[0].as_str(), "Lord Rawn");
}

#[test]
fn test_add_pattern_invalid() {
    let mut ps = PatternSet::empty();
    let r = ps.add_pattern("broken".to_string(), Kind::Person, r"(unclosed", 800);
    assert!(r.is_err());
    assert_eq!(ps.rules.len(), 0);
}

#[test]
fn test_from_config_reports_offending_rule() {
    let rules = vec![
        PatternRule {
            id: "good".to_string(),
            kind: "Person".to_string(),
            regex: r"[A-Z][a-z]+".to_string(),
            score: 700,
            constraints: None,
            hints: None,
        },
        PatternRule {
            id: "bad_rule".to_string(),
            kind: "Place".to_string(),
            regex: r"(unclosed".to_string(),
            score: 700,
            constraints: None,
            hints: None,
        },
    ];
    let r = PatternSet::from_config(rules);
    match r {
        Err(msg) => assert!(msg.contains("bad_rule")),
        Ok(_) => panic!("an invalid regex must fail the build"),
    }
}

#[test]
fn test_from_config_custom_kind() {
    let rules = vec![PatternRule {
        id: "relic".to_string(),
        kind: "Relic".to_string(),
        regex: r"the\s+[A-Z][a-z]+".to_string(),
        score: 600,
        constraints: None,
        hints: None,
    }];
    let ps = PatternSet::from_config(rules).unwrap();
    assert_eq!(ps.rules.len(), 1);
    match &ps.rules[0].kind {
        Kind::Custom(name) => assert_eq!(name, "Relic"),
        other => panic!("expected a custom kind, got {:?}", other),
    }
}

#[test]
fn test_from_config_keeps_constraints() {
    let rules = vec![PatternRule {
        id: "strict".to_string(),
        kind: "Person".to_string(),
        regex: r"[A-Z][a-z]+".to_string(),
        score: 700,
        constraints: Some(lore_parser::Constraints {
            min_len: Some(3),
            max_tokens: Some(2),
            disallow: Some(vec!["the".to_string()]),
        }),
        hints: Some(lore_parser::Hints {
            left: Some(vec!["Lord".to_string()]),
            right: None,
        }),
    }];
    let ps = PatternSet::from_config(rules).unwrap();
    assert_eq!(ps.rules[0].constraints.min_len, Some(3));
    assert_eq!(ps.rules[0].constraints.max_tokens, Some(2));
    assert_eq!(
        ps.rules[0].constraints.disallow,
        Some(vec!["the".to_string()])
    );
    assert_eq!(ps.rules[0].hints.left, Some(vec!["Lord".to_string()]));
    assert_eq!(ps.rules[0].hints.right, None);
}
