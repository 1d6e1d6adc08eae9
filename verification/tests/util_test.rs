use lore_parser::util::{context_score, dedupe_merge, fuzzy_candidates, slugify, tokenize};
use lore_parser::{EntityHit, HitSource, Kind, Span};

#[test]
fn test_tokenize() {
    let tokens = tokenize("Hello, world! This is a test.");
    assert_eq!(tokens, vec!["Hello", "world", "This", "is", "a", "test"]);
}

#[test]
fn test_tokenize_unicode() {
    let tokens = tokenize("Café résumé naïve");
    assert_eq!(tokens, vec!["Café", "résumé", "naïve"]);
}

#[test]
fn test_dedupe_merge_no_overlap() {
    let hits = vec![
        EntityHit {
            kind: Kind::Person,
            span: Span {
                start: 0,
                end: 5,
                text: "Alice".to_string(),
            },
            source: HitSource::Gazetteer,
            pattern_id: None,
            score: 900,
            link: None,
        },
        EntityHit {
            kind: Kind::Place,
            span: Span {
                start: 10,
                end: 15,
                text: "Paris".to_string(),
            },
            source: HitSource::Gazetteer,
            pattern_id: None,
            score: 800,
            link: None,
        },
    ];

    let result = dedupe_merge(hits);
    assert_eq!(result.len(), 2);
}

#[test]
fn test_dedupe_merge_overlap_higher_score() {
    let hits = vec![
        EntityHit {
            kind: Kind::Person,
            span: Span {
                start: 0,
                end: 10,
                text: "Lord Rawn".to_string(),
            },
            source: HitSource::Pattern,
            pattern_id: Some("person_title".to_string()),
            score: 950,
            link: None,
        },
        EntityHit {
            kind: Kind::Person,
            span: Span {
                start: 5,
                end: 10,
                text: "Rawn".to_string(),
            },
            source: HitSource::Gazetteer,
            pattern_id: None,
            score: 800,
            link: None,
        },
    ];

    let result = dedupe_merge(hits);
    assert_eq!(result.len(), 1);
    assert_eq!(result[0].span.text, "Lord Rawn");
    assert_eq!(result[0].score, 950);
}

#[test]
fn test_dedupe_merge_order_independent() {
    // the same two overlapping hits, in the other input order
    let hits = vec![
        EntityHit {
            kind: Kind::Person,
            span: Span {
                start: 5,
                end: 10,
                text: "Rawn".to_string(),
            },
            source: HitSource::Gazetteer,
            pattern_id: None,
            score: 800,
            link: None,
        },
        EntityHit {
            kind: Kind::Person,
            span: Span {
                start: 0,
                end: 10,
                text: "Lord Rawn".to_string(),
            },
            source: HitSource::Pattern,
            pattern_id: Some("person_title".to_string()),
            score: 950,
            link: None,
        },
    ];

    let result = dedupe_merge(hits);
    assert_eq!(result.len(), 1);
    assert_eq!(result[0].span.text, "Lord Rawn");
    assert_eq!(result[0].score, 950);
}

#[test]
fn test_dedupe_merge_equal_score_longer_span() {
    let hits = vec![
        EntityHit {
            kind: Kind::Person,
            span: Span {
                start: 5,
                end: 10,
                text: "Rawn".to_string(),
            },
            source: HitSource::Gazetteer,
            pattern_id: None,
            score: 900,
            link: None,
        },
        EntityHit {
            kind: Kind::Person,
            span: Span {
                start: 0,
                end: 10,
                text: "Lord Rawn".to_string(),
            },
            source: HitSource::Pattern,
            pattern_id: Some("person_title".to_string()),
            score: 900,
            link: None,
        },
    ];

    let result = dedupe_merge(hits);
    assert_eq!(result.len(), 1);
    assert_eq!(result[0].span.text, "Lord Rawn");
}

#[test]
fn test_context_score_person_title() {
    let hit = EntityHit {
        kind: Kind::Person,
        span: Span {
            start: 5,
            end: 10,
            text: "Rawn".to_string(),
        },
        source: HitSource::Gazetteer,
        pattern_id: None,
        score: 800,
        link: None,
    };

    let text = "Lord Rawn stood tall";
    let score = context_score(text, &hit);
    assert!(score > 800); // should be boosted
}

#[test]
fn test_fuzzy_candidates() {
    let text = "Queen Amicae of Eryndor met Lord Rawn at the Storm Coast.";
    let candidates = fuzzy_candidates(text);

    assert!(candidates.len() >= 3);
    let texts: Vec<_> = candidates.iter().map(|c| c.span.text.as_str()).collect();
    assert!(texts.contains(&"Queen Amicae"));
    assert!(texts.contains(&"Lord Rawn"));
    assert!(texts.contains(&"Storm Coast"));
}

#[test]
fn test_slugify() {
    assert_eq!(slugify("Storm Coast"), "storm-coast");
    assert_eq!(slugify("Queen Amicae"), "queen-amicae");
    assert_eq!(slugify("  The  Iron -- Legion! "), "the-iron-legion");
}

#[test]
fn test_context_score_cue_is_whole_word() {
    // the preceding word must BE the cue, not merely end with it
    let hit = |start: usize, end: usize, text: &str| EntityHit {
        kind: Kind::Person,
        span: Span {
            start,
            end,
            text: text.to_string(),
        },
        source: HitSource::Gazetteer,
        pattern_id: None,
        score: 800,
        link: None,
    };

    // left word run is exactly "Lord": title boost (+50) and capitalization (+10)
    let abutting = hit(6, 10, "Rawn");
    assert_eq!(context_score("a LordRawn", &abutting), 860);

    // left word run is "XLord": not a title word, only capitalization applies
    let suffix_only = hit(7, 11, "rawn");
    assert_eq!(context_score("a XLordrawn", &suffix_only), 800);
}

#[test]
fn test_slugify_idempotent_instances() {
    for s in ["Storm Coast", "Queen Amicae", "  The  Iron -- Legion! ", "Café résumé"] {
        let once = slugify(s);
        assert_eq!(slugify(&once), once);
    }
}
