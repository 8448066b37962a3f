use atlas::extract::parse_file;
use atlas::parse::{Definition, LanguageKind, ParsedFile};
use atlas::snippets::{resolve_anchor, snippet_from_source};

const DEMO_ROUTES: &str = r#""""HTTP routes for authentication."""
from fastapi import APIRouter

from auth import service
from auth.schemas import LoginRequest, RegisterRequest

router = APIRouter(prefix="/auth")


@router.get("/health")
def health():
    return {"status": "ok"}


def _client_ip(request):
    return request.client.host



@router.post("/login")
def login_handler(payload: LoginRequest):
    token = service.login(payload.email, payload.password)
    return {"access_token": token}


@router.post("/register")
def register_handler(payload: RegisterRequest):
    user = service.register(payload.email, payload.password)
    return {"id": user.id}
"#;

const MIDDLEWARE_BASE: &str = r#"import anyio

class _CachedRequest(Request):
    def __init__(self, scope, receive):
        super().__init__(scope, receive)
        self._wrapped_rcv_disconnected = False

    async def wrapped_receive(self):
        if self._wrapped_rcv_disconnected:
            return {"type": "http.disconnect"}
        return await self.receive()


class BaseHTTPMiddleware:
    def __init__(self, app, dispatch=None):
        self.app = app
        self.dispatch_func = self.dispatch if dispatch is None else dispatch

    async def __call__(self, scope, receive, send):
        if scope["type"] != "http":
            await self.app(scope, receive, send)
            return
        request = _CachedRequest(scope, receive)
        response = await self.dispatch_func(request, self.app)
        await response(scope, request.wrapped_receive, send)

    async def dispatch(self, request, call_next):
        raise NotImplementedError()
"#;

const MIDDLEWARE_ERRORS: &str = r#"import html
import traceback

STYLES = """
p { color: #211c1c; }
"""

LINE = """
<p><span class="lineno">{lineno}.</span> {line}</p>
"""


class ServerErrorMiddleware:
    def __init__(self, app, handler=None, debug=False):
        self.app = app
        self.handler = handler
        self.debug = debug

    async def __call__(self, scope, receive, send):
        if scope["type"] != "http":
            await self.app(scope, receive, send)
            return
        await self.app(scope, receive, send)

    def format_line(self, index, line, frame_lineno, is_center):
        return LINE.format(lineno=frame_lineno, line=html.escape(line))
"#;

#[test]
fn read_snippet_from_demo_fixture_shows_handler_body() {
    let parsed = ParsedFile {
        path: "auth/routes.py".to_string(),
        language: "python".to_string(),
        definitions: vec![Definition {
            kind: "function".to_string(),
            name: "login_handler".to_string(),
            line: 21,
        }],
        imports: Vec::new(),
        calls: Vec::new(),
    };

    let (line, _) = resolve_anchor(&parsed, "login", "HTTP routes", None).expect("anchor");
    let snippet = snippet_from_source("auth/routes.py", DEMO_ROUTES, line).expect("snippet");
    assert!(snippet.lines.iter().any(|line| line.contains("service.login")));
    assert!(snippet.lines.iter().any(|line| line.contains("def login_handler")));
    assert!(!snippet.lines.iter().any(|line| line.contains("register_handler")));
}

#[test]
fn middleware_fixture_prefers_call_over_class() {
    let path = "starlette/middleware/base.py";
    let parsed = parse_file(path, LanguageKind::Python, MIDDLEWARE_BASE).expect("parsed file");

    let anchor = resolve_anchor(&parsed, "middleware", "depended on by 3 file(s)", None)
        .expect("anchor");
    assert_eq!(anchor.1, "__call__");

    let snippet = snippet_from_source(path, MIDDLEWARE_BASE, anchor.0).expect("snippet");
    assert!(snippet.lines.iter().any(|line| line.contains("async def __call__")));
    assert!(!snippet.lines.iter().any(|line| line.contains("_wrapped_rcv_disconnected")));
}

#[test]
fn errors_snippet_starts_at_class_not_html_template() {
    let path = "starlette/middleware/errors.py";
    let parsed = parse_file(path, LanguageKind::Python, MIDDLEWARE_ERRORS).expect("parsed file");

    let (line, _) = resolve_anchor(
        &parsed,
        "middleware",
        "depended on by 2 file(s)",
        Some("ServerErrorMiddleware"),
    )
    .expect("anchor");
    let snippet = snippet_from_source(path, MIDDLEWARE_ERRORS, line).expect("snippet");
    assert!(snippet
        .lines
        .first()
        .expect("first line")
        .contains("async def __call__")
        || snippet.lines.iter().any(|line| line.contains("async def __call__")));
    assert!(!snippet.lines.iter().any(|line| line.contains("<span class=\"lineno\">")));
}
