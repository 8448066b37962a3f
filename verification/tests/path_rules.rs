use atlas::paths::{
    is_config_or_docs_path, is_deprioritized_path, is_documentation_file, is_excluded_from_clustering,
    is_project_metadata_path, is_test_path, is_test_subsystem_key, normalize_path,
};

#[test]
fn test_paths_by_folder_and_name() {
    assert!(is_test_path("pkg\\tests\\helpers.py"));
    assert!(is_test_path("app/conftest.py"));
    assert!(is_test_path("Test_Models.py"));
    assert!(is_test_path("api/user_test.py"));
    assert!(is_test_path("web/app.test.ts"));
    assert!(!is_test_path("conftest.py"));
    assert!(!is_test_path("contest/app.py"));
    assert!(!is_test_path("latest/app.py"));
}

#[test]
fn documentation_and_metadata() {
    assert!(is_documentation_file("NOTES.TXT"));
    assert!(is_documentation_file("site/docs/index.html"));
    assert!(!is_documentation_file("docs.py"));
    assert!(is_project_metadata_path("scripts/build.py"));
    assert!(is_project_metadata_path("LICENSE"));
    assert!(is_project_metadata_path("sub/Makefile"));
    assert!(is_project_metadata_path("site/docs/overrides/main.html"));
    assert!(!is_project_metadata_path("src/license_check.py"));
    assert!(is_excluded_from_clustering("examples/demo.py"));
    assert!(!is_excluded_from_clustering("src/lib.c"));
}

#[test]
fn configuration_files_are_hidden_from_top_files() {
    for path in [
        ".env.local",
        "Dockerfile",
        "deploy/app.yaml",
        "web/index.html",
        "package.json",
        "Cargo.lock",
        "setup.toml",
        "go.sum",
    ] {
        assert!(is_config_or_docs_path(path), "{path}");
    }
    for path in ["src/main.c", "include/util.h", "web/app.js", "env.py"] {
        assert!(!is_config_or_docs_path(path), "{path}");
    }
}

#[test]
fn test_keys_and_deprioritized_paths() {
    assert!(is_test_subsystem_key("tests"));
    assert!(is_test_subsystem_key("Tests/unit"));
    assert!(!is_test_subsystem_key("testing"));
    assert!(is_deprioritized_path("app/legacy_auth.py"));
    assert!(is_deprioritized_path("temp/x.py"));
    assert!(is_deprioritized_path("src/unused_helpers.py"));
    assert!(is_deprioritized_path("db_backup/old.py"));
    assert!(!is_deprioritized_path("src/templates.py"));
}

#[test]
fn leftover_folders_of_the_stress_fixture_are_deprioritized() {
    assert!(is_deprioritized_path("legacy/auth.py"));
    assert!(is_deprioritized_path("legacy_v2/login.py"));
    assert!(is_deprioritized_path("legacy_final/auth_service_final_v2.py"));
    assert!(is_deprioritized_path("legacy_final_fixed/routes.py"));
    assert!(is_deprioritized_path("Legacy_V2\\Login.py"));
    assert!(is_deprioritized_path("temp/auth_routes_backup.py"));
    assert!(is_deprioritized_path("services/unused_auth_service.py"));
    assert!(!is_deprioritized_path("auth/service.py"));
}

#[test]
fn normalizing_twice_changes_nothing() {
    let once = normalize_path(r"Auth\Routes.PY");
    assert_eq!(once, "auth/routes.py");
    assert_eq!(normalize_path(&once), once);
    assert!(!once.contains('\\'));
    let mixed = normalize_path(r"Src\Über\Mixed/Path.RS");
    assert_eq!(normalize_path(&mixed), mixed);
    assert!(!mixed.contains('\\'));
}
