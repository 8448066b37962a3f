use atlas::architecture::{display_subsystem_name, subsystem_key};
use atlas::diagram::{char_count, inner_width_for_lines, BoxLine};
use atlas::graph::{is_entrypoint, FileIndex, InventoryFile};
use atlas::parse::{syntax_extension_for_path, LanguageKind};
use atlas::paths::{
    is_config_or_docs_path, is_documentation_file, is_excluded_from_clustering,
    is_project_metadata_path, is_test_path,
};
use atlas::scan::skip_file_reason;

#[test]
fn inner_width_fits_longest_line_pair() {
    let lines = vec![BoxLine {
        primary: "1. auth/routes.py".to_string(),
        secondary: "HTTP routes and handlers".to_string(),
    }];
    assert!(inner_width_for_lines(&lines) >= char_count("HTTP routes and handlers") + 4);
}

#[test]
fn resolves_c_include_suffix() {
    let files = vec![
        InventoryFile {
            path: "include/linux/sched.h".to_string(),
            size_bytes: 1,
        },
        InventoryFile {
            path: "kernel/sched/core.c".to_string(),
            size_bytes: 1,
        },
    ];
    let index = FileIndex::from_inventory(&files);
    let resolved = index.resolve_import("kernel/sched/core.c", "linux/sched.h");
    assert_eq!(resolved.as_deref(), Some("include/linux/sched.h"));
}

#[test]
fn detects_entrypoint_main_c() {
    assert!(is_entrypoint("init/main.c"));
}

#[test]
fn nested_wsgi_is_not_entrypoint() {
    assert!(!is_entrypoint("starlette/middleware/wsgi.py"));
    assert!(is_entrypoint("wsgi.py"));
}

#[test]
fn resolves_python_from_windows_style_path() {
    assert_eq!(syntax_extension_for_path(r"auth\routes.py"), Some("py"));
}

#[test]
fn subsystem_key_groups_kernel_style_paths() {
    assert_eq!(subsystem_key("drivers/gpu/drm/drm_drv.c"), "drivers/gpu/drm");
    assert_eq!(subsystem_key("core.c"), "(root)");
    assert_eq!(subsystem_key("auth/service.py"), "auth");
}

#[test]
fn humanizes_directory_names() {
    assert_eq!(display_subsystem_name("drivers/gpu/drm"), "Drivers / Gpu / Drm");
}

#[test]
fn documentation_files_are_detected() {
    assert!(is_documentation_file("README.md"));
    assert!(is_documentation_file("docs/guide.rst"));
    assert!(!is_documentation_file("main.py"));
}

#[test]
fn excluded_paths_are_not_clustered() {
    assert!(is_excluded_from_clustering("tests/test_auth.py"));
    assert!(!is_excluded_from_clustering("auth/service.py"));
}

#[test]
fn detects_c_and_header_files() {
    assert_eq!(LanguageKind::from_path("kernel/sched.c"), Some(LanguageKind::C));
    assert_eq!(LanguageKind::from_path("include/linux/mm.h"), Some(LanguageKind::C));
}

#[test]
fn ignores_unsupported_extensions() {
    assert_eq!(LanguageKind::from_path("README.md"), None);
}

#[test]
fn detects_test_paths() {
    assert!(is_test_path("tests/test_routing.py"));
    assert!(is_test_path("test/app.router.js"));
    assert!(is_test_path("tests/middleware/test_cors.py"));
    assert!(is_test_path("src/routes/user.spec.ts"));
    assert!(is_test_path("src/__tests__/router.js"));
    assert!(!is_test_path("starlette/routing.py"));
}

#[test]
fn detects_metadata_paths() {
    assert!(is_project_metadata_path(".github/workflows/main.yml"));
    assert!(is_project_metadata_path(".editorconfig"));
    assert!(is_project_metadata_path("examples/auth/index.js"));
    assert!(is_project_metadata_path("mkdocs.yml"));
    assert!(!is_project_metadata_path("starlette/routing.py"));
}

#[test]
fn detects_config_and_docs_for_top_files() {
    assert!(is_config_or_docs_path("README.md"));
    assert!(is_config_or_docs_path(".env.example"));
    assert!(is_config_or_docs_path("gate/requirements.txt"));
    assert!(is_config_or_docs_path("admin/run_dashboard.sh"));
    assert!(!is_config_or_docs_path("registration/app.py"));
    assert!(!is_config_or_docs_path("gate/qr_module.py"));
}

#[test]
fn skips_binary_extension() {
    assert_eq!(
        skip_file_reason("assets/logo.png", &[]),
        Some("binary or asset extension")
    );
    assert_eq!(skip_file_reason("src/main.rs", &[]), None);
}

#[test]
fn humanizing_keeps_digits_and_capitalizes_each_word() {
    assert_eq!(display_subsystem_name("payments_v2"), "Payments V2");
    assert_eq!(display_subsystem_name("core/http_2_client"), "Core / Http 2 Client");
}
