//! Classification of repository paths: documentation, tests, project metadata,
//! configuration and deprioritized leftovers.
use vstd::prelude::*;

use crate::text::{
    contains, contains_lit, ends_with, ends_with_lit, eq_lit, last_segment, last_segment_exec,
    normalize, normalize_chars, starts_with, starts_with_lit, string_of, all_ascii, ascii_lower,
    replace_char,
};

verus! {

/// The file name of a normalized path: the part after its last slash.
pub open spec fn file_name_of(n: Seq<char>) -> Seq<char> {
    last_segment(n, '/')
}

/// Documentation: `.md`, `.txt` or `.rst` files, or anything under a `docs` folder.
pub open spec fn documentation_file(p: Seq<char>) -> bool {
    let n = normalize(p);
    ends_with(n, ".md"@) || ends_with(n, ".txt"@) || ends_with(n, ".rst"@) || contains(
        n,
        "/docs/"@,
    )
}

/// A test file name: `test_*`, `*_test.py`, or a `.test`/`.spec` JavaScript or TypeScript file.
pub open spec fn test_file_name(name: Seq<char>) -> bool {
    starts_with(name, "test_"@) || ends_with(name, "_test.py"@) || ends_with(name, ".test.js"@)
        || ends_with(name, ".test.ts"@) || ends_with(name, ".spec.js"@) || ends_with(
        name,
        ".spec.ts"@,
    )
}

/// A test path: under a `tests`, `test` or `__tests__` folder, a `conftest.py`,
/// or a file whose name marks it as a test.
pub open spec fn test_path(p: Seq<char>) -> bool {
    let n = normalize(p);
    starts_with(n, "tests/"@) || starts_with(n, "test/"@) || contains(n, "/tests/"@) || contains(
        n,
        "/test/"@,
    ) || contains(n, "/__tests__/"@) || starts_with(n, "__tests__/"@) || ends_with(
        n,
        "/conftest.py"@,
    ) || test_file_name(file_name_of(n))
}

/// File names that are project metadata wherever they stand.
pub open spec fn metadata_file_name(name: Seq<char>) -> bool {
    name == ".gitignore"@ || name == "mkdocs.yml"@ || name == "citation.cff"@ || name
        == "codecov.yml"@ || name == ".editorconfig"@ || name == ".eslintignore"@ || name
        == ".gitattributes"@ || name == ".npmrc"@ || name == ".npmignore"@ || name
        == ".prettierignore"@ || name == "license"@ || name == "license.md"@ || name
        == "makefile"@
}

/// Project metadata: CI, scripts, docs and examples folders, and well-known metadata files.
pub open spec fn project_metadata_path(p: Seq<char>) -> bool {
    let n = normalize(p);
    starts_with(n, ".github/"@) || starts_with(n, "scripts/"@) || starts_with(n, "docs/"@)
        || starts_with(n, "examples/"@) || contains(n, "/docs/overrides/"@) || metadata_file_name(
        file_name_of(n),
    )
}

/// Files left out of subsystem clustering.
pub open spec fn excluded_from_clustering(p: Seq<char>) -> bool {
    documentation_file(p) || test_path(p) || project_metadata_path(p)
}

/// File names of configuration, packaging and deployment files.
pub open spec fn config_file_name(name: Seq<char>) -> bool {
    name == ".gitignore"@ || name == ".dockerignore"@ || name == ".cursorignore"@ || name
        == "requirements.txt"@ || name == "requirements-dev.txt"@ || name == "pyproject.toml"@
        || name == "package.json"@ || name == "package-lock.json"@ || name == "cargo.toml"@
        || name == "cargo.lock"@ || name == "go.mod"@ || name == "go.sum"@ || name
        == "procfile"@ || name == "uv.lock"@ || name == "poetry.lock"@ || name
        == "wrangler.toml"@ || name == "dockerfile"@ || name == "makefile"@ || name
        == "license"@ || name == "license.md"@
}

/// File name endings of configuration and generated files.
pub open spec fn config_file_suffix(name: Seq<char>) -> bool {
    ends_with(name, ".sh"@) || ends_with(name, ".toml"@) || ends_with(name, ".lock"@) || (
    ends_with(name, ".txt"@) && !ends_with(name, ".c"@) && !ends_with(name, ".h"@)) || (ends_with(
        name,
        ".yml"@,
    ) || ends_with(name, ".yaml"@)) || ends_with(name, ".html"@) || ends_with(name, ".json"@)
}

/// Docs, config and deployment artifacts.
pub open spec fn config_or_docs_path(p: Seq<char>) -> bool {
    let name = file_name_of(normalize(p));
    documentation_file(p) || project_metadata_path(p) || starts_with(name, ".env"@)
        || config_file_name(name) || config_file_suffix(name)
}

/// A subsystem key that names a test folder.
pub open spec fn test_subsystem_key(k: Seq<char>) -> bool {
    let n = normalize(k);
    n == "tests"@ || starts_with(n, "tests/"@) || n == "test"@ || starts_with(n, "test/"@) || n
        == "__tests__"@ || starts_with(n, "__tests__/"@)
}

/// Legacy, temporary, unused or backup code: a `legacy…` folder or file at
/// the root or below it, a `temp` folder, or `unused` / `_backup` in the path.
pub open spec fn deprioritized_path(p: Seq<char>) -> bool {
    let n = normalize(p);
    contains(n, "/legacy"@) || starts_with(n, "legacy"@) || contains(n, "/temp/"@) || starts_with(
        n,
        "temp/"@,
    ) || contains(n, "unused"@) || contains(n, "_backup"@)
}

/// A path with backslashes turned into slashes, lowercased.
pub fn normalize_path(path: &str) -> (r: String)
    ensures
        r@ == normalize(path@),
        all_ascii(path@) ==> r@ == ascii_lower(replace_char(path@, '\\', '/')),
{
    let v = normalize_chars(path);
    string_of(v.as_slice())
}

/// Whether `path` is a documentation file.
pub fn is_documentation_file(path: &str) -> (r: bool)
    ensures
        r == documentation_file(path@),
{
    let n = normalize_chars(path);
    let n = n.as_slice();
    ends_with_lit(n, ".md") || ends_with_lit(n, ".txt") || ends_with_lit(n, ".rst")
        || contains_lit(n, "/docs/")
}

fn is_test_file_name(name: &[char]) -> (r: bool)
    ensures
        r == test_file_name(name@),
{
    starts_with_lit(name, "test_") || ends_with_lit(name, "_test.py") || ends_with_lit(
        name,
        ".test.js",
    ) || ends_with_lit(name, ".test.ts") || ends_with_lit(name, ".spec.js") || ends_with_lit(
        name,
        ".spec.ts",
    )
}

/// Whether `path` is a test file.
pub fn is_test_path(path: &str) -> (r: bool)
    ensures
        r == test_path(path@),
{
    let nv = normalize_chars(path);
    let n = nv.as_slice();
    if starts_with_lit(n, "tests/") || starts_with_lit(n, "test/") || contains_lit(n, "/tests/")
        || contains_lit(n, "/test/") || contains_lit(n, "/__tests__/") || starts_with_lit(
        n,
        "__tests__/",
    ) || ends_with_lit(n, "/conftest.py") {
        return true;
    }
    let name = last_segment_exec(n, '/');
    is_test_file_name(name.as_slice())
}

fn is_metadata_file_name(name: &[char]) -> (r: bool)
    ensures
        r == metadata_file_name(name@),
{
    eq_lit(name, ".gitignore") || eq_lit(name, "mkdocs.yml") || eq_lit(name, "citation.cff")
        || eq_lit(name, "codecov.yml") || eq_lit(name, ".editorconfig") || eq_lit(
        name,
        ".eslintignore",
    ) || eq_lit(name, ".gitattributes") || eq_lit(name, ".npmrc") || eq_lit(name, ".npmignore")
        || eq_lit(name, ".prettierignore") || eq_lit(name, "license") || eq_lit(name, "license.md")
        || eq_lit(name, "makefile")
}

/// Whether `path` is project metadata (CI, scripts, docs, examples, metadata files).
pub fn is_project_metadata_path(path: &str) -> (r: bool)
    ensures
        r == project_metadata_path(path@),
{
    let nv = normalize_chars(path);
    let n = nv.as_slice();
    if starts_with_lit(n, ".github/") || starts_with_lit(n, "scripts/") || starts_with_lit(
        n,
        "docs/",
    ) || starts_with_lit(n, "examples/") || contains_lit(n, "/docs/overrides/") {
        return true;
    }
    let name = last_segment_exec(n, '/');
    is_metadata_file_name(name.as_slice())
}

/// Whether `path` is left out of subsystem clustering.
pub fn is_excluded_from_clustering(path: &str) -> (r: bool)
    ensures
        r == excluded_from_clustering(path@),
{
    is_documentation_file(path) || is_test_path(path) || is_project_metadata_path(path)
}

fn is_config_file_name(name: &[char]) -> (r: bool)
    ensures
        r == config_file_name(name@),
{
    eq_lit(name, ".gitignore") || eq_lit(name, ".dockerignore") || eq_lit(name, ".cursorignore")
        || eq_lit(name, "requirements.txt") || eq_lit(name, "requirements-dev.txt") || eq_lit(
        name,
        "pyproject.toml",
    ) || eq_lit(name, "package.json") || eq_lit(name, "package-lock.json") || eq_lit(
        name,
        "cargo.toml",
    ) || eq_lit(name, "cargo.lock") || eq_lit(name, "go.mod") || eq_lit(name, "go.sum")
        || eq_lit(name, "procfile") || eq_lit(name, "uv.lock") || eq_lit(name, "poetry.lock")
        || eq_lit(name, "wrangler.toml") || eq_lit(name, "dockerfile") || eq_lit(name, "makefile")
        || eq_lit(name, "license") || eq_lit(name, "license.md")
}

fn is_config_file_suffix(name: &[char]) -> (r: bool)
    ensures
        r == config_file_suffix(name@),
{
    ends_with_lit(name, ".sh") || ends_with_lit(name, ".toml") || ends_with_lit(name, ".lock") || (
    ends_with_lit(name, ".txt") && !ends_with_lit(name, ".c") && !ends_with_lit(name, ".h")) || (
    ends_with_lit(name, ".yml") || ends_with_lit(name, ".yaml")) || ends_with_lit(name, ".html")
        || ends_with_lit(name, ".json")
}

/// Whether `path` is documentation, configuration or a deployment artifact,
/// the files that `top-files` hides by default.
pub fn is_config_or_docs_path(path: &str) -> (r: bool)
    ensures
        r == config_or_docs_path(path@),
{
    if is_documentation_file(path) || is_project_metadata_path(path) {
        return true;
    }
    let nv = normalize_chars(path);
    let name = last_segment_exec(nv.as_slice(), '/');
    let name = name.as_slice();
    if starts_with_lit(name, ".env") {
        return true;
    }
    if is_config_file_name(name) {
        return true;
    }
    is_config_file_suffix(name)
}

/// Whether a subsystem key names a test folder.
pub fn is_test_subsystem_key(key: &str) -> (r: bool)
    ensures
        r == test_subsystem_key(key@),
{
    let nv = normalize_chars(key);
    let n = nv.as_slice();
    eq_lit(n, "tests") || starts_with_lit(n, "tests/") || eq_lit(n, "test") || starts_with_lit(
        n,
        "test/",
    ) || eq_lit(n, "__tests__") || starts_with_lit(n, "__tests__/")
}

/// Whether `path` is dead code or a migration leftover, which ranking and call
/// resolution push down.
pub fn is_deprioritized_path(path: &str) -> (r: bool)
    ensures
        r == deprioritized_path(path@),
{
    let nv = normalize_chars(path);
    let n = nv.as_slice();
    contains_lit(n, "/legacy") || starts_with_lit(n, "legacy") || contains_lit(n, "/temp/")
        || starts_with_lit(n, "temp/") || contains_lit(n, "unused") || contains_lit(n, "_backup")
}

} // verus!
