use atlas::explain::{
    build_overview, build_purpose, execution_flow_heading, flow_overview, normalize_route_path,
    ExplainCitation, ExplainEvidence, ExplainMatchKind,
};
use atlas::parse::{ParseOutput, ParseSummary};

fn citation(
    path: &str,
    role: &str,
    score: u128,
    inbound_refs: usize,
    anchor_line: Option<usize>,
    anchor_symbol: Option<&str>,
) -> ExplainCitation {
    ExplainCitation {
        path: path.to_string(),
        role: role.to_string(),
        score,
        inbound_refs,
        anchor_line,
        anchor_symbol: anchor_symbol.map(|s| s.to_string()),
        snippet: None,
    }
}

fn sample_evidence() -> ExplainEvidence {
    ExplainEvidence {
        topic: "auth".to_string(),
        repository_name: "demo_app".to_string(),
        match_kind: ExplainMatchKind::Subsystem,
        flow_seed: None,
        subsystem_name: "Auth".to_string(),
        subsystem_key: "auth".to_string(),
        file_count: 5,
        internal_links: 4,
        citations: vec![
            citation(
                "auth/routes.py",
                "HTTP routes and handlers",
                42_000_000,
                2,
                Some(21),
                Some("login_handler"),
            ),
            citation("auth/service.py", "business logic layer", 35_000_000, 1, Some(16), Some("login")),
        ],
        entrypoints: vec!["main.py".to_string()],
        wiring_hints: Vec::new(),
        execution_flow: Vec::new(),
        purpose: Vec::new(),
        request_walkthrough: Vec::new(),
    }
}

fn no_symbols() -> ParseOutput {
    ParseOutput {
        version: 1,
        summary: ParseSummary::new(),
        files: Vec::new(),
    }
}

#[test]
fn normalize_route_path_extracts_http_path() {
    assert_eq!(normalize_route_path("route.post /login"), "/login");
    assert_eq!(normalize_route_path("/logout"), "/logout");
}

#[test]
fn middleware_heading_is_non_authoritative() {
    let evidence = ExplainEvidence {
        topic: "middleware".to_string(),
        repository_name: "starlette".to_string(),
        match_kind: ExplainMatchKind::Subsystem,
        flow_seed: None,
        subsystem_name: "Middleware".to_string(),
        subsystem_key: "starlette/middleware".to_string(),
        file_count: 11,
        internal_links: 0,
        citations: vec![citation("starlette/middleware/base.py", "core", 42_000_000, 3, None, None)],
        entrypoints: Vec::new(),
        wiring_hints: Vec::new(),
        execution_flow: Vec::new(),
        purpose: Vec::new(),
        request_walkthrough: Vec::new(),
    };

    assert_eq!(execution_flow_heading(&evidence), "Representative middleware flow");
}

#[test]
fn auth_purpose_is_generated() {
    let evidence = sample_evidence();
    let purpose = build_purpose(&evidence, &no_symbols());
    assert!(purpose.iter().any(|line| line.contains("Authentication")));
}

#[test]
fn overview_has_multiple_paragraphs_for_subsystem() {
    let evidence = sample_evidence();
    let overview = build_overview(&evidence);
    assert!(overview.summary_lines[0].contains("Auth"));
    assert!(overview.reading_steps.len() >= 2);
    assert!(overview.reading_steps[0].path.contains("auth/routes.py"));
}

#[test]
fn flow_overview_includes_call_chain() {
    let evidence = ExplainEvidence {
        match_kind: ExplainMatchKind::Flow,
        flow_seed: Some("login_handler".to_string()),
        citations: vec![
            citation(
                "auth/routes.py",
                "flow step: login_handler",
                13_000_000,
                1,
                Some(21),
                Some("login_handler"),
            ),
            citation("auth/service.py", "flow step: login", 20_000_000, 2, Some(16), Some("login")),
        ],
        topic: "login".to_string(),
        repository_name: "demo_app".to_string(),
        subsystem_name: "Auth".to_string(),
        subsystem_key: "auth".to_string(),
        file_count: 2,
        internal_links: 3,
        entrypoints: vec!["main.py".to_string()],
        wiring_hints: Vec::new(),
        execution_flow: Vec::new(),
        purpose: Vec::new(),
        request_walkthrough: Vec::new(),
    };

    let paragraphs = flow_overview(&evidence);
    assert!(paragraphs.iter().any(|line| line.contains("login_handler")));
    assert!(paragraphs.iter().any(|line| line.contains("→")));
}

#[test]
fn zero_internal_links_uses_precise_wording() {
    let mut evidence = sample_evidence();
    evidence.internal_links = 0;
    let overview = build_overview(&evidence);
    assert!(overview.summary_lines[1].contains("no direct imports within this folder"));
    assert!(overview.summary_lines.iter().any(|line| line.contains("runtime wiring")));
}

#[test]
fn flow_overview_handles_single_file_trace() {
    let evidence = ExplainEvidence {
        match_kind: ExplainMatchKind::Flow,
        flow_seed: Some("app".to_string()),
        citations: vec![citation(
            "fastapi/routing.py",
            "flow step: app",
            447_000_000,
            14,
            Some(119),
            Some("app"),
        )],
        topic: "routing".to_string(),
        repository_name: "fastapi".to_string(),
        subsystem_name: "Fastapi".to_string(),
        subsystem_key: "fastapi".to_string(),
        file_count: 1,
        internal_links: 0,
        entrypoints: Vec::new(),
        wiring_hints: Vec::new(),
        execution_flow: Vec::new(),
        purpose: Vec::new(),
        request_walkthrough: Vec::new(),
    };

    let paragraphs = flow_overview(&evidence);
    assert!(paragraphs
        .iter()
        .any(|line| line.contains("did not resolve a reliable downstream")));
    assert!(!paragraphs.iter().any(|line| line.contains("0 downstream")));
}

#[test]
fn citation_paths_match_evidence() {
    let evidence = sample_evidence();
    let paths: Vec<&str> = evidence
        .citations
        .iter()
        .map(|citation| citation.path.as_str())
        .collect();
    assert_eq!(paths, vec!["auth/routes.py", "auth/service.py"]);
}
