use atlas::extract::parse_file;
use atlas::parse::{LanguageKind, ParsedFile};

fn defs(f: &ParsedFile) -> Vec<(String, String, usize)> {
    f.definitions
        .iter()
        .map(|d| (d.kind.clone(), d.name.clone(), d.line))
        .collect()
}

fn imports(f: &ParsedFile) -> Vec<(String, String, usize)> {
    f.imports
        .iter()
        .map(|i| (i.kind.clone(), i.target.clone(), i.line))
        .collect()
}

fn calls(f: &ParsedFile) -> Vec<(String, usize)> {
    f.calls.iter().map(|c| (c.target.clone(), c.line)).collect()
}

fn t(a: &str, b: &str, n: usize) -> (String, String, usize) {
    (a.to_string(), b.to_string(), n)
}

fn c(a: &str, n: usize) -> (String, usize) {
    (a.to_string(), n)
}

#[test]
fn javascript_routes_imports_and_classes() {
    let source = r#"import { Router } from "express";
const router = Router();
router.get("/users", listUsers);
function listUsers(req, res) { res.json([]); }
class UserController {}
"#;
    let f = parse_file("web/routes.js", LanguageKind::JavaScript, source).expect("parse js");
    assert_eq!(f.language, "javascript");
    assert_eq!(imports(&f), vec![t("import", "express", 1)]);
    assert_eq!(
        defs(&f),
        vec![
            t("route", "get /users", 3),
            t("function", "listUsers", 4),
            t("class", "UserController", 5),
        ]
    );
    assert_eq!(calls(&f), vec![c("Router", 2), c("get", 3), c("json", 4)]);
}

#[test]
fn go_imports_types_and_methods() {
    let source = "package main\n\nimport (\n\t\"fmt\"\n\t\"net/http\"\n)\n\ntype Server struct{}\n\nfunc (s *Server) Start() {\n\tfmt.Println(\"start\")\n}\n\nfunc main() {\n\thttp.HandleFunc(\"/health\", nil)\n}\n";
    let f = parse_file("cmd/main.go", LanguageKind::Go, source).expect("parse go");
    assert_eq!(f.language, "go");
    assert_eq!(imports(&f), vec![t("import", "fmt", 3), t("import", "net/http", 3)]);
    assert_eq!(
        defs(&f),
        vec![t("type", "Server", 8), t("method", "Start", 10), t("function", "main", 14)]
    );
    assert_eq!(calls(&f), vec![c("Println", 11), c("HandleFunc", 15)]);
}

#[test]
fn python_route_decorator_calls_are_routes() {
    let source = r#"from flask import Flask
app = Flask(__name__)

@app.route("/login", methods=["POST"])
def login():
    return authenticate()
"#;
    let f = parse_file("app.py", LanguageKind::Python, source).expect("parse python");
    assert_eq!(imports(&f), vec![t("import", "flask", 1)]);
    assert_eq!(defs(&f), vec![t("route", "app.route /login", 4), t("function", "login", 5)]);
    assert_eq!(calls(&f), vec![c("Flask", 2), c("app.route", 4), c("authenticate", 6)]);
}

#[test]
fn c_structs_and_declarator_names() {
    let source = "struct point { int x; };\nstatic int add(int a, int b) { return a + b; }\n";
    let f = parse_file("src/math.c", LanguageKind::C, source).expect("parse c");
    assert_eq!(defs(&f), vec![t("struct", "point", 1), t("function", "add", 2)]);
    assert!(f.imports.is_empty());
    assert!(f.calls.is_empty());
}

#[test]
fn typescript_imports_and_exported_functions() {
    let source = "import type { User } from \"./models\";\nexport async function getUser(id: string): Promise<User> { return fetchUser(id); }\n";
    let f = parse_file("api/users.ts", LanguageKind::TypeScript, source).expect("parse ts");
    assert_eq!(f.language, "typescript");
    assert_eq!(imports(&f), vec![t("import", "./models", 1)]);
    assert_eq!(defs(&f), vec![t("function", "getUser", 2)]);
    assert_eq!(calls(&f), vec![c("fetchUser", 2)]);
}
