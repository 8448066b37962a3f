use atlas::color::{blend_fg_color, composited_foreground, terminal_background, Rgba};
use atlas::explain::{blank_topic_error, citation_anchor_text, ExplainCitation};
use atlas::extract::parse_source_outcome;
use atlas::graph::score_points;
use atlas::parse::{LanguageKind, ParseOutcome, ParseOutput, MAX_PARSE_BYTES};

#[test]
fn parse_outcomes_cover_each_case() {
    assert!(matches!(
        parse_source_outcome("a.py", LanguageKind::Python, None),
        ParseOutcome::ReadFailed
    ));
    let big = "x".repeat(MAX_PARSE_BYTES + 1);
    assert!(matches!(
        parse_source_outcome("a.py", LanguageKind::Python, Some(&big)),
        ParseOutcome::TooLarge
    ));
    match parse_source_outcome("pkg/a.py", LanguageKind::Python, Some("def run():\n    go()\n")) {
        ParseOutcome::Parsed(f) => {
            assert_eq!(f.path, "pkg/a.py");
            assert_eq!(f.language, "python");
            assert!(f.definitions.iter().any(|d| d.name == "run" && d.line == 1));
            assert!(f.calls.iter().any(|c| c.target == "go"));
        }
        other => panic!("expected a parsed file, got {other:?}"),
    }
}

#[test]
fn recorded_outcomes_are_counted_and_sorted() {
    let mut output = ParseOutput::new();
    output.record(ParseOutcome::Unsupported);
    output.record(parse_source_outcome("b.py", LanguageKind::Python, Some("def b():\n    pass\n")));
    output.record(parse_source_outcome("a.py", LanguageKind::Python, Some("def a():\n    pass\n")));
    output.record(ParseOutcome::ReadFailed);
    output.record(ParseOutcome::TooLarge);
    let output = output.finish();
    assert_eq!(output.summary.parsed, 2);
    assert_eq!(output.summary.unsupported, 1);
    assert_eq!(output.summary.failed, 1);
    assert_eq!(output.summary.too_large, 1);
    let paths: Vec<&str> = output.files.iter().map(|f| f.path.as_str()).collect();
    assert_eq!(paths, vec!["a.py", "b.py"]);
}

#[test]
fn translucent_colors_blend_over_the_terminal_background() {
    let fg = Rgba { r: 100, g: 100, b: 100, a: 128 };
    let blended = blend_fg_color(fg, terminal_background());
    assert_eq!(blended, Rgba { r: 56, g: 58, b: 61, a: 255 });
    assert_eq!(composited_foreground(fg), Some(blended));
    let opaque = Rgba { r: 1, g: 2, b: 3, a: 255 };
    assert_eq!(composited_foreground(opaque), Some(opaque));
    assert_eq!(composited_foreground(Rgba { r: 0, g: 0, b: 0, a: 0 }), None);
    let transparent_white = Rgba { r: 255, g: 255, b: 255, a: 0 };
    assert_eq!(
        composited_foreground(transparent_white),
        Some(Rgba { r: 255, g: 255, b: 255, a: 255 })
    );
}

#[test]
fn scores_round_half_up_for_columns() {
    assert_eq!(score_points(2_500_000), 3);
    assert_eq!(score_points(2_499_999), 2);
    assert_eq!(score_points(0), 0);
}

#[test]
fn citation_anchors_name_symbol_and_line() {
    let mut c = ExplainCitation {
        path: "auth/routes.py".to_string(),
        role: "core".to_string(),
        score: 0,
        inbound_refs: 0,
        anchor_line: Some(21),
        anchor_symbol: Some("login_handler".to_string()),
        snippet: None,
    };
    assert_eq!(citation_anchor_text(&c), " @ login_handler:21");
    c.anchor_line = None;
    assert_eq!(citation_anchor_text(&c), " @ login_handler");
    c.anchor_symbol = None;
    c.anchor_line = Some(7);
    assert_eq!(citation_anchor_text(&c), " @ line 7");
    c.anchor_line = None;
    assert_eq!(citation_anchor_text(&c), "");
}

#[test]
fn blank_explain_topics_are_refused_first() {
    assert_eq!(blank_topic_error("  \t").as_deref(), Some("explain topic cannot be empty"));
    assert_eq!(blank_topic_error(" Auth "), None);
}
