use atlas::flow::{
    call_lookup_keys, compress_flow_steps, find_seeds, flow_subsystem_score, trace_flow,
    DefinitionIndex, FlowResult, FlowStep, Seed,
};
use atlas::parse::{Call, Definition, Import, ParseOutput, ParseSummary, ParsedFile};
use atlas::paths::is_test_path;

fn q(s: &str) -> Vec<char> {
    s.chars().collect()
}

fn def(kind: &str, name: &str, line: usize) -> Definition {
    Definition {
        kind: kind.to_string(),
        name: name.to_string(),
        line,
    }
}

fn call(target: &str, line: usize) -> Call {
    Call {
        target: target.to_string(),
        line,
    }
}

fn best_seed(symbols: &ParseOutput, query: &str) -> Seed {
    let seeds = find_seeds(symbols, &q(query));
    seeds.into_iter().max_by_key(|seed| seed.score).unwrap()
}

fn step(label: &str, file: &str, line: usize) -> FlowStep {
    FlowStep {
        label: label.to_string(),
        kind: "function".to_string(),
        file: file.to_string(),
        line: Some(line),
    }
}

fn sample_symbols() -> ParseOutput {
    ParseOutput {
        version: 1,
        summary: ParseSummary::new(),
        files: vec![
            ParsedFile {
                path: "core.c".to_string(),
                language: "c".to_string(),
                definitions: vec![def("function", "core_init", 3)],
                imports: vec![Import {
                    kind: "include".to_string(),
                    target: "util.h".to_string(),
                    line: 1,
                }],
                calls: vec![call("helper", 4)],
            },
            ParsedFile {
                path: "util.c".to_string(),
                language: "c".to_string(),
                definitions: vec![def("function", "helper", 3)],
                imports: vec![],
                calls: vec![],
            },
        ],
    }
}

#[test]
fn traces_call_chain_for_seed() {
    let symbols = sample_symbols();
    let index = DefinitionIndex::from_symbols(&symbols);
    let seed = best_seed(&symbols, "core");
    let steps = trace_flow(&seed, &symbols, &index);
    assert!(steps.iter().any(|step| step.label == "core_init"));
    assert!(steps.iter().any(|step| step.label == "helper"));
}

#[test]
fn resolves_dotted_call_targets() {
    let symbols = ParseOutput {
        version: 1,
        summary: ParseSummary::new(),
        files: vec![
            ParsedFile {
                path: "auth/service.py".to_string(),
                language: "python".to_string(),
                definitions: vec![def("function", "login", 5), def("function", "get_by_email", 20)],
                imports: vec![],
                calls: vec![call("self.user_repo.get_by_email", 6), call("log_info", 7)],
            },
            ParsedFile {
                path: "utils/logger.py".to_string(),
                language: "python".to_string(),
                definitions: vec![def("function", "log_info", 1)],
                imports: vec![],
                calls: vec![],
            },
        ],
    };

    let index = DefinitionIndex::from_symbols(&symbols);
    let keys = call_lookup_keys("self.user_repo.get_by_email");
    assert!(keys.contains(&q("get_by_email")));

    let seed = best_seed(&symbols, "login");
    let steps = trace_flow(&seed, &symbols, &index);
    assert!(steps.iter().any(|step| step.label == "get_by_email"));
    assert!(!steps.iter().any(|step| step.label == "log_info"));
}

#[test]
fn skips_init_and_private_helpers() {
    let symbols = ParseOutput {
        version: 1,
        summary: ParseSummary::new(),
        files: vec![ParsedFile {
            path: "auth/repository.py".to_string(),
            language: "python".to_string(),
            definitions: vec![def("function", "verify_password", 10), def("function", "_fetch_hash", 20)],
            imports: vec![],
            calls: vec![call("_fetch_hash", 11)],
        }],
    };

    let index = DefinitionIndex::from_symbols(&symbols);
    let seed = Seed {
        file: "auth/repository.py".to_string(),
        definition: symbols.files[0].definitions[0].duplicate(),
        score: 100,
    };
    let steps = trace_flow(&seed, &symbols, &index);
    assert_eq!(steps.len(), 1);
    assert!(!steps.iter().any(|step| step.label == "_fetch_hash"));
}

#[test]
fn handler_seed_reaches_service_method_without_init() {
    let symbols = ParseOutput {
        version: 1,
        summary: ParseSummary::new(),
        files: vec![
            ParsedFile {
                path: "auth/routes.py".to_string(),
                language: "python".to_string(),
                definitions: vec![def("function", "login_handler", 3)],
                imports: vec![],
                calls: vec![call("AuthService", 4), call("log_info", 5), call("service.login", 6)],
            },
            ParsedFile {
                path: "auth/service.py".to_string(),
                language: "python".to_string(),
                definitions: vec![
                    def("class", "AuthService", 1),
                    def("function", "__init__", 2),
                    def("function", "login", 8),
                ],
                imports: vec![],
                calls: vec![],
            },
        ],
    };

    let index = DefinitionIndex::from_symbols(&symbols);
    let seed = best_seed(&symbols, "login");
    let steps = trace_flow(&seed, &symbols, &index);
    let labels: Vec<_> = steps.iter().map(|step| step.label.as_str()).collect();
    assert_eq!(labels, vec!["login_handler", "login"]);
}

#[test]
fn prefers_handler_over_service_method() {
    let symbols = ParseOutput {
        version: 1,
        summary: ParseSummary::new(),
        files: vec![
            ParsedFile {
                path: "auth/routes.py".to_string(),
                language: "python".to_string(),
                definitions: vec![def("function", "login_handler", 3)],
                imports: vec![],
                calls: vec![call("service.login", 4)],
            },
            ParsedFile {
                path: "auth/service.py".to_string(),
                language: "python".to_string(),
                definitions: vec![def("function", "login", 8)],
                imports: vec![],
                calls: vec![],
            },
        ],
    };

    let seed = best_seed(&symbols, "login");
    assert_eq!(seed.definition.name, "login_handler");
}

#[test]
fn prefers_gate_handler_over_success_template() {
    let symbols = ParseOutput {
        version: 1,
        summary: ParseSummary::new(),
        files: vec![ParsedFile {
            path: "gate/app.py".to_string(),
            language: "python".to_string(),
            definitions: vec![
                def("function", "checkin_gate", 705),
                def("function", "checkin_verify_and_log", 964),
                def("function", "checkin_success", 1762),
            ],
            imports: vec![],
            calls: vec![call("checkin_verify_and_log", 706), call("get", 1763)],
        }],
    };

    let seed = best_seed(&symbols, "checkin");
    assert_eq!(seed.definition.name, "checkin_gate");
}

#[test]
fn prefers_imported_module_over_legacy_duplicate() {
    let symbols = ParseOutput {
        version: 1,
        summary: ParseSummary::new(),
        files: vec![
            ParsedFile {
                path: "auth/routes.py".to_string(),
                language: "python".to_string(),
                definitions: vec![def("function", "login_handler", 12)],
                imports: vec![Import {
                    kind: "import".to_string(),
                    target: "auth.service".to_string(),
                    line: 3,
                }],
                calls: vec![call("service.login", 18)],
            },
            ParsedFile {
                path: "auth/service.py".to_string(),
                language: "python".to_string(),
                definitions: vec![def("function", "login", 16)],
                imports: vec![],
                calls: vec![],
            },
            ParsedFile {
                path: "legacy_final/auth_service_final_v2.py".to_string(),
                language: "python".to_string(),
                definitions: vec![def("function", "login", 5)],
                imports: vec![],
                calls: vec![],
            },
        ],
    };

    let index = DefinitionIndex::from_symbols(&symbols);
    let seed = best_seed(&symbols, "login");
    let steps = trace_flow(&seed, &symbols, &index);
    let labels: Vec<_> = steps.iter().map(|step| step.label.as_str()).collect();
    assert_eq!(labels, vec!["login_handler", "login"]);
    assert_eq!(steps[1].file, "auth/service.py");
}

#[test]
fn production_flow_does_not_resolve_into_tests() {
    let symbols = ParseOutput {
        version: 1,
        summary: ParseSummary::new(),
        files: vec![
            ParsedFile {
                path: "fastapi/routing.py".to_string(),
                language: "python".to_string(),
                definitions: vec![def("function", "app", 10)],
                imports: vec![],
                calls: vec![call("f", 11)],
            },
            ParsedFile {
                path: "tests/test_routing.py".to_string(),
                language: "python".to_string(),
                definitions: vec![def("function", "f", 3)],
                imports: vec![],
                calls: vec![],
            },
        ],
    };

    let index = DefinitionIndex::from_symbols(&symbols);
    let seed = Seed {
        file: "fastapi/routing.py".to_string(),
        definition: symbols.files[0].definitions[0].duplicate(),
        score: 100,
    };
    let steps = trace_flow(&seed, &symbols, &index);
    assert_eq!(steps.len(), 1);
    assert!(!steps.iter().any(|step| is_test_path(&step.file)));
}

#[test]
fn compresses_noisy_checkin_chain() {
    let steps = vec![
        step("checkin_verify_and_log", "gate/app.py", 964),
        step("get", "gate/app.py", 106),
        step("parse_qr_payload", "gate/qr_module.py", 159),
        step("validate_qr_token", "gate/qr_module.py", 177),
        step("child", "gate/app.py", 87),
        step("process_checkin", "gate/app.py", 1509),
        step("l2_distance", "gate/app.py", 266),
    ];

    let compressed = compress_flow_steps(&steps, false);
    assert!(compressed.len() < steps.len());
    assert!(!compressed.iter().any(|step| step.label == "get"));
    assert!(!compressed.iter().any(|step| step.label == "child"));
    assert!(!compressed.iter().any(|step| step.label == "l2_distance"));
    assert_eq!(
        compressed.first().map(|step| step.label.as_str()),
        Some("checkin_verify_and_log")
    );
    assert!(compressed.iter().any(|step| step.label == "process_checkin"));
    assert_eq!(compress_flow_steps(&steps, true).len(), steps.len());
}

#[test]
fn flow_subsystem_score_requires_seed_in_target_subsystem() {
    let registration_flow = FlowResult {
        query: "register".to_string(),
        seed: "finalize_registration".to_string(),
        steps: vec![
            step("finalize_registration", "registration/app.py", 1085),
            step("get_face_embedding", "registration/app.py", 524),
        ],
    };
    let gate_flow = FlowResult {
        query: "checkin".to_string(),
        seed: "checkin_verify_and_log".to_string(),
        steps: vec![
            step("checkin_verify_and_log", "gate/app.py", 964),
            step("parse_qr_payload", "gate/qr_module.py", 159),
        ],
    };

    assert!(flow_subsystem_score(&registration_flow, "registration") > 0);
    assert_eq!(flow_subsystem_score(&gate_flow, "registration"), 0);
    assert!(flow_subsystem_score(&gate_flow, "gate") > 0);
}
