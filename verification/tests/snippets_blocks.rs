use atlas::parse::{Definition, ParsedFile};
use atlas::snippets::{resolve_anchor, snippet_from_source};

fn def(kind: &str, name: &str, line: usize) -> Definition {
    Definition {
        kind: kind.to_string(),
        name: name.to_string(),
        line,
    }
}

#[test]
fn blocks_end_before_the_next_peer_definition() {
    let source = "def a():\n    x = 1\n\ndef b():\n    pass\n";
    let snippet = snippet_from_source("m.py", source, 1).expect("snippet");
    assert_eq!(snippet.start_line, 1);
    assert_eq!(snippet.end_line, 3);
    assert_eq!(snippet.lines, vec!["def a():", "    x = 1", ""]);
    assert!(!snippet.truncated);

    let nested = snippet_from_source("m.py", "class A:\n    def f(self):\n        return 1\n    @property\n    def g(self):\n        pass\n", 2)
        .expect("snippet");
    assert_eq!(nested.lines, vec!["    def f(self):", "        return 1"]);
}

#[test]
fn long_blocks_are_truncated_and_lines_are_clamped() {
    let mut source = String::from("def long():\n");
    for i in 0..40 {
        source.push_str(&format!("    x{i} = {i}\n"));
    }
    let snippet = snippet_from_source("m.py", &source, 1).expect("snippet");
    assert_eq!(snippet.lines.len(), 32);
    assert_eq!(snippet.end_line, 32);
    assert!(snippet.truncated);

    let last = snippet_from_source("m.py", "a = 1\nb = 2\r\n", 99).expect("snippet");
    assert_eq!(last.start_line, 2);
    assert_eq!(last.lines, vec!["b = 2"]);
}

#[test]
fn anchors_prefer_entry_methods_of_classes() {
    let parsed = ParsedFile {
        path: "starlette/middleware/base.py".to_string(),
        language: "python".to_string(),
        definitions: vec![
            def("class", "BaseHTTPMiddleware", 10),
            def("function", "__init__", 11),
            def("function", "__call__", 20),
            def("function", "dispatch", 40),
        ],
        imports: Vec::new(),
        calls: Vec::new(),
    };
    assert_eq!(
        resolve_anchor(&parsed, "middleware", "core", None),
        Some((20, "__call__".to_string()))
    );
    assert_eq!(
        resolve_anchor(&parsed, "zzz", "core", Some("dispatch")),
        Some((40, "dispatch".to_string()))
    );
    let empty = ParsedFile {
        path: "x.py".to_string(),
        language: "python".to_string(),
        definitions: Vec::new(),
        imports: Vec::new(),
        calls: Vec::new(),
    };
    assert_eq!(resolve_anchor(&empty, "x", "core", None), None);
}
