use atlas::explain::{
    citation_reading_detail, file_stem_label, format_http_route, subsystem_size_line,
    wiring_path_score, ExplainCitation, ExplainEvidence, ExplainMatchKind,
};
use atlas::graph::RankedFile;
use atlas::learn::{learn_priority, reason_for};

fn evidence(file_count: usize, internal_links: usize) -> ExplainEvidence {
    ExplainEvidence {
        topic: "auth".to_string(),
        repository_name: "demo".to_string(),
        match_kind: ExplainMatchKind::Subsystem,
        flow_seed: None,
        subsystem_name: "Auth".to_string(),
        subsystem_key: "auth".to_string(),
        file_count,
        internal_links,
        citations: Vec::new(),
        entrypoints: Vec::new(),
        wiring_hints: Vec::new(),
        execution_flow: Vec::new(),
        purpose: Vec::new(),
        request_walkthrough: Vec::new(),
    }
}

fn row(path: &str, inbound_refs: usize, is_entrypoint: bool) -> RankedFile {
    RankedFile {
        file_path: path.to_string(),
        score: 0,
        inbound_refs,
        outbound_refs: 0,
        definitions: 0,
        is_entrypoint,
    }
}

#[test]
fn size_lines_count_files_and_links() {
    assert_eq!(subsystem_size_line(&evidence(5, 0)), "5 files · no direct imports within this folder");
    assert_eq!(
        subsystem_size_line(&evidence(5, 3)),
        "5 files · 3 direct import link(s) within this folder"
    );
}

#[test]
fn reading_details_round_scores() {
    let c = ExplainCitation {
        path: "auth/routes.py".to_string(),
        role: "HTTP routes and handlers".to_string(),
        score: 42_500_000,
        inbound_refs: 2,
        anchor_line: None,
        anchor_symbol: None,
        snippet: None,
    };
    assert_eq!(citation_reading_detail(&c, 0), "HTTP routes and handlers · score 42 · 2 inbound ref(s)");
    assert_eq!(citation_reading_detail(&c, 1), "HTTP routes and handlers · score 42");
}

#[test]
fn http_routes_pick_a_method() {
    assert_eq!(format_http_route("login", "route.post /login"), "POST /login");
    assert_eq!(format_http_route("get_user", "/users"), "GET /users");
    assert_eq!(format_http_route("orders", "/orders"), "REQUEST /orders");
}

#[test]
fn stem_labels_drop_the_folder_and_extension() {
    assert_eq!(file_stem_label("auth/service.py"), "service");
    assert_eq!(file_stem_label("web\\api.ts"), "api");
    assert_eq!(file_stem_label("cmd/main.go"), "main");
    assert_eq!(file_stem_label("lib/util.c"), "util.c");
}

#[test]
fn wiring_scores_prefer_application_files() {
    assert_eq!(wiring_path_score("tests/test_main.py"), -1000);
    assert_eq!(wiring_path_score("starlette/applications.py"), 100);
    assert_eq!(wiring_path_score("main.py"), 90);
    assert_eq!(wiring_path_score("api/router.py"), 50);
    assert_eq!(wiring_path_score("auth/service.py"), 0);
}

#[test]
fn reading_priority_and_reasons() {
    assert_eq!(learn_priority("auth/routes.py"), 0);
    assert_eq!(learn_priority("MAIN.PY"), 1);
    assert_eq!(learn_priority("auth/service.py"), 2);
    assert_eq!(learn_priority("app/models/user.py"), 3);
    assert_eq!(learn_priority("auth/helpers.py"), 4);
    assert_eq!(learn_priority("auth/__init__.py"), 5);

    assert_eq!(reason_for(&row("auth/routes.py", 0, false)), "HTTP routes and handlers");
    assert_eq!(reason_for(&row("main.py", 0, true)), "entrypoint");
    assert_eq!(reason_for(&row("auth/service.py", 0, false)), "business logic layer");
    assert_eq!(reason_for(&row("auth/repository.py", 0, false)), "data access layer");
    assert_eq!(reason_for(&row("auth/tokens.py", 3, false)), "depended on by 3 file(s)");
    assert_eq!(reason_for(&row("auth/tokens.py", 0, false)), "core file in subsystem");
}
