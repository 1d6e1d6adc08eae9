use lore_parser::{EntityHit, HitSource, Kind, Link, Linker, Span};

#[test]
fn test_to_slug() {
    assert_eq!(Linker::to_slug("Storm Coast"), "storm-coast");
    assert_eq!(Linker::to_slug("Queen Amicae"), "queen-amicae");
    assert_eq!(Linker::to_slug("Ironforge"), "ironforge");
}

#[test]
fn test_link_with_slug() {
    let hits = vec![EntityHit {
        kind: Kind::Place,
        span: Span {
            start: 0,
            end: 11,
            text: "Storm Coast".to_string(),
        },
        source: HitSource::Gazetteer,
        pattern_id: None,
        score: 900,
        link: None,
    }];

    let lookup = |slug: &str| -> Option<Link> {
        if slug == "storm-coast" {
            Some(Link {
                id: Some("123".to_string()),
                slug: Some(slug.to_string()),
                name: "Storm Coast".to_string(),
                kind: Kind::Place,
            })
        } else {
            None
        }
    };

    let linked = Linker::link_with_slug(hits, lookup);
    assert_eq!(linked.len(), 1);
    assert!(linked[0].link.is_some());
    assert_eq!(linked[0].link.as_ref().unwrap().id, Some("123".to_string()));
}

#[test]
fn test_link_entities() {
    let hits = vec![
        EntityHit {
            kind: Kind::Person,
            span: Span {
                start: 0,
                end: 6,
                text: "Amicae".to_string(),
            },
            source: HitSource::Gazetteer,
            pattern_id: None,
            score: 900,
            link: None,
        },
        EntityHit {
            kind: Kind::Place,
            span: Span {
                start: 10,
                end: 18,
                text: "Eryndor".to_string(),
            },
            source: HitSource::Gazetteer,
            pattern_id: None,
            score: 900,
            link: None,
        },
    ];

    let lookup = |kind: &Kind, text: &str| -> Option<Link> {
        match (kind, text) {
            (Kind::Person, "Amicae") => Some(Link {
                id: Some("p1".to_string()),
                slug: Some("amicae".to_string()),
                name: "Queen Amicae".to_string(),
                kind: Kind::Person,
            }),
            (Kind::Place, "Eryndor") => Some(Link {
                id: Some("pl1".to_string()),
                slug: Some("eryndor".to_string()),
                name: "Eryndor".to_string(),
                kind: Kind::Place,
            }),
            _ => None,
        }
    };

    let linked = Linker::link_entities(hits, lookup);
    assert_eq!(linked.len(), 2);
    assert!(linked[0].link.is_some());
    assert!(linked[1].link.is_some());
    assert_eq!(linked[0].link.as_ref().unwrap().name, "Queen Amicae");
    assert_eq!(linked[1].link.as_ref().unwrap().name, "Eryndor");
}

#[test]
fn test_link_by_name_case_insensitive() {
    let hits = vec![EntityHit {
        kind: Kind::Person,
        span: Span {
            start: 0,
            end: 6,
            text: "AMICAE".to_string(),
        },
        source: HitSource::Fuzzy,
        pattern_id: None,
        score: 500,
        link: None,
    }];

    let lookup = |kind: &Kind, name: &str| -> Option<Link> {
        match (kind, name) {
            (Kind::Person, "amicae") => Some(Link {
                id: Some("p1".to_string()),
                slug: None,
                name: "Amicae".to_string(),
                kind: Kind::Person,
            }),
            _ => None,
        }
    };

    let linked = Linker::link_by_name(hits, lookup);
    assert!(linked[0].link.is_some());
    assert_eq!(linked[0].link.as_ref().unwrap().name, "Amicae");
}

#[test]
fn test_linker_miss_keeps_hit_unchanged() {
    let hits = vec![EntityHit {
        kind: Kind::Magic,
        span: Span {
            start: 0,
            end: 7,
            text: "Tempest".to_string(),
        },
        source: HitSource::Gazetteer,
        pattern_id: None,
        score: 930,
        link: None,
    }];

    let linked = Linker::link_entities(hits, |_kind: &Kind, _text: &str| None);
    assert_eq!(linked.len(), 1);
    assert!(linked[0].link.is_none());
    assert_eq!(linked[0].score, 930);
}
