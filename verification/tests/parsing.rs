use atlas::extract::parse_file;
use atlas::parse::{Definition, LanguageKind, ParsedFile};
use atlas::snippets::resolve_anchor;

#[test]
fn resolve_anchor_prefers_topic_match() {
    let parsed = ParsedFile {
        path: "auth/routes.py".to_string(),
        language: "python".to_string(),
        definitions: vec![
            Definition {
                kind: "function".to_string(),
                name: "health".to_string(),
                line: 5,
            },
            Definition {
                kind: "function".to_string(),
                name: "login_handler".to_string(),
                line: 21,
            },
        ],
        imports: Vec::new(),
        calls: Vec::new(),
    };

    let anchor = resolve_anchor(&parsed, "login", "HTTP routes", None).expect("anchor");
    assert_eq!(anchor, (21, "login_handler".to_string()));
}

#[test]
fn parses_c_function_and_include() {
    let source = r#"
#include <linux/sched.h>

int schedule(void) {
    printk("sched");
    return 0;
}
"#;
    let parsed = parse_file("sched.c", LanguageKind::C, source).expect("parse C");
    assert!(parsed
        .imports
        .iter()
        .any(|i| i.target.contains("linux/sched.h")));
    assert!(parsed.definitions.iter().any(|d| d.name == "schedule"));
    assert!(parsed.calls.iter().any(|c| c.target == "printk"));
}

#[test]
fn parses_python_import_and_call() {
    let source = r#"
from auth.service import AuthService

def login():
    AuthService.authenticate()
"#;
    let parsed = parse_file("auth.py", LanguageKind::Python, source).expect("parse python");
    assert!(parsed.imports.iter().any(|i| i.target.contains("auth")));
    assert!(parsed.definitions.iter().any(|d| d.name == "login"));
    assert!(parsed
        .calls
        .iter()
        .any(|c| c.target.contains("authenticate")));
}
