use atlas::graph::{rank_files, select_top_files, InventoryFile};
use atlas::parse::{Call, Definition, Import, ParsedFile};
use atlas::paths::{is_config_or_docs_path, is_test_path};

fn inv(path: &str) -> InventoryFile {
    InventoryFile {
        path: path.to_string(),
        size_bytes: 1,
    }
}

#[test]
fn ranks_imported_file_higher() {
    let inventory = vec![inv("core.c"), inv("include/util.h"), inv("notes.txt")];
    let parsed = vec![
        ParsedFile {
            path: "core.c".to_string(),
            language: "c".to_string(),
            definitions: vec![Definition {
                kind: "function".to_string(),
                name: "run".to_string(),
                line: 1,
            }],
            imports: vec![Import {
                kind: "include".to_string(),
                target: "util.h".to_string(),
                line: 1,
            }],
            calls: vec![],
        },
        ParsedFile {
            path: "include/util.h".to_string(),
            language: "c".to_string(),
            definitions: vec![Definition {
                kind: "function".to_string(),
                name: "helper".to_string(),
                line: 2,
            }],
            imports: vec![],
            calls: vec![],
        },
    ];

    let ranked = rank_files(&inventory, &parsed).expect("rank files");

    let util_rank = ranked
        .iter()
        .position(|file| file.file_path == "include/util.h")
        .expect("util.h ranked");
    let notes_rank = ranked
        .iter()
        .position(|file| file.file_path == "notes.txt")
        .expect("notes ranked");

    assert!(util_rank < notes_rank);
    assert!(ranked[util_rank].inbound_refs >= 1);
}

#[test]
fn excludes_test_files_by_default() {
    let inventory = vec![inv("app.py"), inv("tests/test_app.py")];
    let parsed = vec![
        ParsedFile {
            path: "app.py".to_string(),
            language: "python".to_string(),
            definitions: vec![Definition {
                kind: "function".to_string(),
                name: "run".to_string(),
                line: 1,
            }],
            imports: vec![],
            calls: vec![],
        },
        ParsedFile {
            path: "tests/test_app.py".to_string(),
            language: "python".to_string(),
            definitions: vec![Definition {
                kind: "function".to_string(),
                name: "test_run".to_string(),
                line: 1,
            }],
            imports: vec![],
            calls: vec![Call {
                target: "mock".to_string(),
                line: 2,
            }],
        },
    ];

    let ranked = rank_files(&inventory, &parsed).expect("rank files");

    let production = select_top_files(&ranked, 10, false, false);
    assert!(production.iter().all(|file| !is_test_path(&file.file_path)));
    assert!(production
        .iter()
        .all(|file| !is_config_or_docs_path(&file.file_path)));
    assert_eq!(production[0].file_path, "app.py");

    let with_tests = select_top_files(&ranked, 10, true, false);
    assert!(with_tests
        .iter()
        .any(|file| file.file_path == "tests/test_app.py"));
}
