use atlas::architecture::{analyze, detect_subsystems};
use atlas::diagram::{row_padding, tee_column, tee_split};
use atlas::explain::{
    all_cited_paths_exist_in_graph, attach_snippets, enrich_context, gather_evidence, round_points,
    ExplainMatchKind,
};
use atlas::flow::{compress_flow_steps, extract_flow, FlowStep};
use atlas::graph::{
    default_limit, file_score, rank_files, select_top_files, top_fetch_limit, top_files_notes,
    FileIndex, FileStats, InventoryFile, RankedFile,
};
use atlas::learn::{build_learning_path, find_subsystem};
use atlas::parse::{is_too_large, Call, Definition, Import, ParseOutput, ParseSummary, ParsedFile, MAX_PARSE_BYTES};
use atlas::paths::{is_config_or_docs_path, is_test_path};
use atlas::scan::{is_probably_binary, is_skipped_dir_name, list_counts, skip_file_reason, sort_inventory};
use atlas::snippets::snippet_from_source;
use atlas::store::{atlas_dir, graph_db_path, require_atlas_dir, require_graph_db};
use atlas::style::heading;
use atlas::paths::normalize_path;
use atlas::text::lower_of;

fn inv(path: &str) -> InventoryFile {
    InventoryFile {
        path: path.to_string(),
        size_bytes: 1,
    }
}

fn def(kind: &str, name: &str, line: usize) -> Definition {
    Definition {
        kind: kind.to_string(),
        name: name.to_string(),
        line,
    }
}

fn demo_inventory() -> Vec<InventoryFile> {
    vec![
        inv("README.md"),
        inv("auth/routes.py"),
        inv("auth/service.py"),
        inv("main.py"),
        inv("tests/test_auth.py"),
    ]
}

fn demo_parsed() -> Vec<ParsedFile> {
    vec![
        ParsedFile {
            path: "auth/routes.py".to_string(),
            language: "python".to_string(),
            definitions: vec![def("function", "login_handler", 3)],
            imports: vec![Import {
                kind: "import".to_string(),
                target: "auth.service".to_string(),
                line: 1,
            }],
            calls: vec![Call {
                target: "service.login".to_string(),
                line: 4,
            }],
        },
        ParsedFile {
            path: "auth/service.py".to_string(),
            language: "python".to_string(),
            definitions: vec![def("function", "login", 2)],
            imports: vec![],
            calls: vec![],
        },
        ParsedFile {
            path: "main.py".to_string(),
            language: "python".to_string(),
            definitions: vec![def("function", "main", 1)],
            imports: vec![Import {
                kind: "import".to_string(),
                target: "auth.routes".to_string(),
                line: 1,
            }],
            calls: vec![],
        },
        ParsedFile {
            path: "tests/test_auth.py".to_string(),
            language: "python".to_string(),
            definitions: vec![def("function", "test_login", 1)],
            imports: vec![],
            calls: vec![],
        },
    ]
}

fn demo_symbols() -> ParseOutput {
    ParseOutput {
        version: 1,
        summary: ParseSummary::new(),
        files: demo_parsed(),
    }
}

fn ranked(score: u128, path: &str) -> RankedFile {
    RankedFile {
        file_path: path.to_string(),
        score,
        inbound_refs: 0,
        outbound_refs: 0,
        definitions: 0,
        is_entrypoint: false,
    }
}

#[test]
fn ranking_is_descending_and_complete() {
    let ranked = rank_files(&demo_inventory(), &demo_parsed()).expect("rank files");
    assert_eq!(ranked.len(), 5);
    for pair in ranked.windows(2) {
        assert!(pair[0].score > pair[1].score
            || (pair[0].score == pair[1].score && pair[0].file_path <= pair[1].file_path));
    }
    let mut paths: Vec<&str> = ranked.iter().map(|f| f.file_path.as_str()).collect();
    paths.sort();
    assert_eq!(
        paths,
        vec!["README.md", "auth/routes.py", "auth/service.py", "main.py", "tests/test_auth.py"]
    );
}

#[test]
fn exact_scores_follow_the_weights() {
    let ranked = rank_files(&demo_inventory(), &demo_parsed()).expect("rank files");
    let service = ranked.iter().find(|f| f.file_path == "auth/service.py").unwrap();
    // one importer (3.0) and one definition (0.3): 3.3 points
    assert_eq!(service.inbound_refs, 1);
    assert_eq!(service.definitions, 1);
    assert_eq!(service.score, 3_300_000);
    let main = ranked.iter().find(|f| f.file_path == "main.py").unwrap();
    assert!(main.is_entrypoint);
}

#[test]
fn test_files_score_a_twentieth() {
    let inventory = vec![inv("app.py"), inv("tests/app.py")];
    let parsed = vec![
        ParsedFile {
            path: "app.py".to_string(),
            language: "python".to_string(),
            definitions: vec![def("function", "run", 1)],
            imports: vec![],
            calls: vec![],
        },
        ParsedFile {
            path: "tests/app.py".to_string(),
            language: "python".to_string(),
            definitions: vec![def("function", "run", 1)],
            imports: vec![],
            calls: vec![],
        },
    ];
    let ranked = rank_files(&inventory, &parsed).expect("rank files");
    let app = ranked.iter().find(|f| f.file_path == "app.py").unwrap().score;
    let test = ranked.iter().find(|f| f.file_path == "tests/app.py").unwrap().score;
    assert_eq!(app, 20 * test);
}

#[test]
fn more_references_score_higher() {
    let few = FileStats {
        path: "lib/a.c".to_string(),
        inbound_refs: 1,
        outbound_refs: 2,
        definitions: 3,
        is_entrypoint: false,
    };
    let more = FileStats {
        path: "lib/a.c".to_string(),
        inbound_refs: 2,
        outbound_refs: 2,
        definitions: 3,
        is_entrypoint: false,
    };
    assert!(file_score(&few) < file_score(&more));
}

#[test]
fn parsed_file_missing_from_inventory_is_an_error() {
    let inventory = vec![inv("app.py")];
    let parsed = vec![ParsedFile {
        path: "ghost.py".to_string(),
        language: "python".to_string(),
        definitions: vec![],
        imports: vec![],
        calls: vec![],
    }];
    let err = rank_files(&inventory, &parsed).unwrap_err();
    assert_eq!(err, "missing file node for ghost.py");
}

#[test]
fn top_files_hide_tests_and_docs_and_respect_limit() {
    let rows = vec![
        ranked(9_000_000, "tests/test_a.py"),
        ranked(8_000_000, "README.md"),
        ranked(7_000_000, "a.py"),
        ranked(6_000_000, "b.py"),
        ranked(5_000_000, "c.py"),
    ];
    let shown = select_top_files(&rows, 2, false, false);
    let paths: Vec<&str> = shown.iter().map(|f| f.file_path.as_str()).collect();
    assert_eq!(paths, vec!["a.py", "b.py"]);
    assert!(shown.iter().all(|f| !is_test_path(&f.file_path) && !is_config_or_docs_path(&f.file_path)));

    let everything = select_top_files(&rows, 3, true, true);
    let paths: Vec<&str> = everything.iter().map(|f| f.file_path.as_str()).collect();
    assert_eq!(paths, vec!["tests/test_a.py", "README.md", "a.py"]);
}

#[test]
fn top_files_fetch_and_notes() {
    assert_eq!(default_limit(), 20);
    assert_eq!(top_fetch_limit(20, false, false), 240);
    assert_eq!(top_fetch_limit(20, true, true), 20);
    assert_eq!(top_files_notes(3, 20, false, false), None);
    assert_eq!(
        top_files_notes(20, 20, false, true).as_deref(),
        Some("showing top 20 code files — use --limit to change · tests excluded (use --include-tests)")
    );
}

#[test]
fn subsystems_are_keyed_by_code_files_only() {
    let ranked = rank_files(&demo_inventory(), &demo_parsed()).expect("rank files");
    let subsystems = detect_subsystems(&ranked, &Vec::new());
    let keys: Vec<&str> = subsystems.iter().map(|s| s.key.as_str()).collect();
    assert!(keys.contains(&"auth"));
    assert!(!keys.contains(&"tests"));
    let auth = subsystems.iter().find(|s| s.key == "auth").unwrap();
    assert_eq!(auth.name, "Auth");
    assert_eq!(auth.file_count, 2);
}

#[test]
fn relative_imports_join_the_importer_folder_verbatim() {
    // The folder of the importer is joined with the target as it is, without
    // normalizing `./`, so only an inventory path spelled that way matches.
    let files = vec![inv("web/app.js"), inv("web/util.js")];
    let index = FileIndex::from_inventory(&files);
    assert_eq!(index.resolve_import("web/app.js", "./util.js").as_deref(), None);
    let files = vec![inv("web/app.js"), inv("web/./util.js")];
    let index = FileIndex::from_inventory(&files);
    assert_eq!(
        index.resolve_import("web/app.js", "./util.js").as_deref(),
        Some("web/./util.js")
    );
}

#[test]
fn flow_errors_name_the_query() {
    let symbols = demo_symbols();
    assert_eq!(extract_flow(&symbols, "   ").unwrap_err(), "flow name cannot be empty");
    let empty = ParseOutput {
        version: 1,
        summary: ParseSummary::new(),
        files: Vec::new(),
    };
    assert_eq!(
        extract_flow(&empty, "payments").unwrap_err(),
        "no flow seed found for 'payments' — try a function, route, or file name from the scan"
    );
}

#[test]
fn flow_starts_at_its_seed() {
    let symbols = demo_symbols();
    let flow = extract_flow(&symbols, "login").expect("flow");
    assert_eq!(flow.seed, "login_handler");
    assert_eq!(flow.steps[0].label, flow.seed);
    let labels: Vec<&str> = flow.steps.iter().map(|s| s.label.as_str()).collect();
    assert_eq!(labels, vec!["login_handler", "login"]);
}

#[test]
fn compressed_flow_keeps_at_most_eight_steps() {
    let steps: Vec<FlowStep> = (0..12)
        .map(|i| FlowStep {
            label: format!("handle_step_{i}"),
            kind: "function".to_string(),
            file: "svc/app.py".to_string(),
            line: Some(i + 1),
        })
        .collect();
    let compressed = compress_flow_steps(&steps, false);
    assert!(compressed.len() <= 8);
    assert_eq!(compressed[0].label, "handle_step_0");
    assert_eq!(compress_flow_steps(&steps, true).len(), 12);
}

#[test]
fn learning_path_reads_subsystem_files() {
    let ranked = rank_files(&demo_inventory(), &demo_parsed()).expect("rank files");
    let subsystems = detect_subsystems(&ranked, &Vec::new());
    let plan = build_learning_path(&subsystems, &ranked, "auth").expect("plan");
    assert_eq!(plan.subsystem, "Auth");
    assert_eq!(plan.steps.len(), 2);
    assert_eq!(plan.estimated_minutes, 10);
    assert!(plan.steps.iter().all(|s| s.path.starts_with("auth/")));
}

#[test]
fn learning_path_errors() {
    let ranked = rank_files(&demo_inventory(), &demo_parsed()).expect("rank files");
    let subsystems = detect_subsystems(&ranked, &Vec::new());
    assert_eq!(find_subsystem(&subsystems, "  ").unwrap_err(), "topic cannot be empty");
    assert_eq!(
        build_learning_path(&subsystems, &ranked, "billing").unwrap_err(),
        "no subsystem matched 'billing' — try `atlas architecture` to see names"
    );
}

#[test]
fn evidence_cites_only_graph_files() {
    let ranked = rank_files(&demo_inventory(), &demo_parsed()).expect("rank files");
    let report = analyze(Some("demo_app".to_string()), &ranked, &Vec::new());
    assert_eq!(report.repository_name, "demo_app");
    let symbols = demo_symbols();
    let evidence = gather_evidence("auth", &report, &ranked, &symbols).expect("evidence");
    assert_eq!(evidence.match_kind, ExplainMatchKind::Subsystem);
    assert!(!evidence.citations.is_empty());
    assert!(all_cited_paths_exist_in_graph(&ranked, &evidence));

    let invented = vec![ranked.iter().find(|f| f.file_path == "main.py").unwrap().duplicate()];
    assert!(!all_cited_paths_exist_in_graph(&invented, &evidence));
}

#[test]
fn empty_explain_topic_is_an_error() {
    let ranked = rank_files(&demo_inventory(), &demo_parsed()).expect("rank files");
    let report = analyze(None, &ranked, &Vec::new());
    assert_eq!(report.repository_name, "repository");
    let err = gather_evidence(" ", &report, &ranked, &demo_symbols()).unwrap_err();
    assert_eq!(err, "explain topic cannot be empty");
}

#[test]
fn points_round_half_to_even() {
    assert_eq!(round_points(2_500_000), 2);
    assert_eq!(round_points(3_500_000), 4);
    assert_eq!(round_points(3_499_999), 3);
    assert_eq!(round_points(0), 0);
}

#[test]
fn snippet_of_empty_file_is_an_error() {
    assert_eq!(snippet_from_source("a.py", "", 1).unwrap_err(), "file is empty: a.py");
    let snippet = snippet_from_source("a.py", "def f():\n    return 1\n", 1).expect("snippet");
    assert_eq!(snippet.start_line, 1);
    assert_eq!(snippet.lines[0], "def f():");
}

#[test]
fn store_paths_and_errors() {
    assert_eq!(atlas_dir("repo"), "repo/.atlas");
    assert_eq!(graph_db_path("repo"), "repo/.atlas/graph.db");
    assert_eq!(require_atlas_dir("repo", true).unwrap(), "repo/.atlas");
    assert_eq!(
        require_atlas_dir("repo", false).unwrap_err(),
        "no Atlas data found at repo/.atlas — run `atlas scan .` first"
    );
    assert_eq!(
        require_graph_db("repo", false).unwrap_err(),
        "no graph database at repo/.atlas/graph.db — run `atlas scan .` first"
    );
}

#[test]
fn scan_skips_and_limits() {
    assert!(is_skipped_dir_name("node_modules"));
    assert!(!is_skipped_dir_name("src"));
    assert!(is_probably_binary(&[1, 0, 2]));
    assert!(!is_probably_binary(b"text"));
    assert_eq!(skip_file_reason("data.bin.txt", &[0]), Some("binary content"));
    assert_eq!(skip_file_reason("IMG/LOGO.PNG", &[]), Some("binary or asset extension"));
    assert_eq!(list_counts(10), (10, None));
    assert_eq!(list_counts(60), (50, Some(10)));
    let sorted = sort_inventory(vec![inv("b.py"), inv("a/z.py"), inv("a.py")]);
    let paths: Vec<&str> = sorted.iter().map(|f| f.path.as_str()).collect();
    assert_eq!(paths, vec!["a.py", "a/z.py", "b.py"]);
}

#[test]
fn oversized_files_are_not_parsed() {
    assert_eq!(MAX_PARSE_BYTES, 5 * 1024 * 1024);
    assert!(!is_too_large(MAX_PARSE_BYTES));
    assert!(is_too_large(MAX_PARSE_BYTES + 1));
}

#[test]
fn diagram_geometry() {
    assert_eq!(row_padding(10, 4), (3, 3));
    assert_eq!(row_padding(10, 5), (2, 3));
    assert_eq!(tee_split(9), (4, 4));
    assert_eq!(tee_column(2, 9), 7);
}

#[test]
fn text_wrappers_convert() {
    assert_eq!(normalize_path("AuTh\\Routes.PY"), "auth/routes.py");
    assert_eq!(lower_of(&['A', 'b', 'Ä']), vec!['a', 'b', 'ä']);
}

#[test]
fn headings_are_painted_when_color_is_forced() {
    colored::control::set_override(true);
    let h = heading("Subsystems");
    assert_ne!(h, "Subsystems");
    assert!(h.starts_with('\u{1b}'));
    assert!(h.contains("Subsystems"));
    assert!(h.ends_with("\u{1b}[0m"));
}

#[test]
fn auth_subsystem_includes_login_walkthrough() {
    let ranked = rank_files(&demo_inventory(), &demo_parsed()).expect("rank files");
    let report = analyze(Some("demo_app".to_string()), &ranked, &Vec::new());
    let symbols = demo_symbols();
    let mut evidence = gather_evidence("auth", &report, &ranked, &symbols).expect("evidence");
    let contents: Vec<Option<String>> = vec![
        Some("def login_handler():\n    return service.login()\n".to_string()),
        None,
    ];
    attach_snippets(&mut evidence, &symbols, "auth", &contents);
    enrich_context(&mut evidence, &symbols).expect("enrich");
    assert!(
        !evidence.request_walkthrough.is_empty(),
        "expected request walkthrough for auth subsystem"
    );
    let joined = evidence.request_walkthrough.join("\n");
    assert!(joined.contains("login_handler"));
    assert!(joined.contains("auth/service.py::login"));
    assert!(joined.contains("response returned"));
    assert_eq!(
        evidence.request_walkthrough,
        vec![
            "Call-graph walkthrough (approximate — dynamic dispatch may be missing):",
            "  auth/routes.py::login_handler",
            "    ↓",
            "  auth/service.py::login",
            "    ↓",
            "  response returned",
        ]
    );
    let routes = evidence.citations.iter().find(|c| c.path == "auth/routes.py").unwrap();
    assert_eq!(routes.anchor_symbol.as_deref(), Some("login_handler"));
    assert_eq!(routes.anchor_line, Some(3));
    assert!(routes.snippet.is_some());
}

#[test]
fn imports_resolve_only_to_inventory_files() {
    let files = vec![
        inv("auth/service.py"),
        inv("pkg/__init__.py"),
        inv("web/api/index.ts"),
        inv("include/linux/sched.h"),
        inv("src/util.go"),
    ];
    let index = FileIndex::from_inventory(&files);
    let cases = [
        ("main.py", "auth.service", Some("auth/service.py")),
        ("main.py", "pkg", Some("pkg/__init__.py")),
        ("web/app.ts", "'web/api'", Some("web/api/index.ts")),
        ("kernel/core.c", "\"linux/sched.h\"", Some("include/linux/sched.h")),
        ("cmd/main.go", "util.go", Some("src/util.go")),
        ("main.py", "os", None),
        ("main.py", "  ", None),
    ];
    for (source, target, expected) in cases {
        let resolved = index.resolve_import(source, target);
        assert_eq!(resolved.as_deref(), expected, "{source} imports {target}");
        if let Some(path) = resolved {
            assert!(files.iter().any(|f| f.path == path));
        }
    }
}

#[test]
fn flow_evidence_cites_parsed_files_of_the_graph() {
    let all = rank_files(&demo_inventory(), &demo_parsed()).expect("rank files");
    let code = select_top_files(&all, usize::MAX, false, false);
    let report = analyze(Some("demo_app".to_string()), &code, &Vec::new());
    let evidence = gather_evidence("login", &report, &code, &demo_symbols()).expect("evidence");
    assert_eq!(evidence.match_kind, ExplainMatchKind::Flow);
    assert_eq!(evidence.flow_seed.as_deref(), Some("login_handler"));
    let cited: Vec<&str> = evidence.citations.iter().map(|c| c.path.as_str()).collect();
    assert_eq!(cited, vec!["auth/routes.py", "auth/service.py"]);
    assert!(all_cited_paths_exist_in_graph(&all, &evidence));
}

#[test]
fn data_folder_joins_without_doubled_separators() {
    assert_eq!(atlas_dir("repo/"), "repo/.atlas");
    assert_eq!(atlas_dir(""), ".atlas");
    assert_eq!(graph_db_path("/srv/app"), "/srv/app/.atlas/graph.db");
}
