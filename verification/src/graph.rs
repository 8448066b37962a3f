//! The repository graph: entrypoint detection, import resolution against the
//! inventory, and the per-file reference counts that ranking uses.
use vstd::prelude::*;

use crate::order::{merge_sort, SortOrder};

use crate::parse::{Import, ParsedFile};
use crate::paths::{
    config_or_docs_path, deprioritized_path, is_config_or_docs_path, is_deprioritized_path,
    is_project_metadata_path, is_test_path, project_metadata_path, test_path,
};
use crate::text::{
    append_chars, chars_of, ends_with, ends_with_lit, eq_lit, last_segment, last_segment_exec,
    key_text_before, lemma_key_text_order, replace_char, replace_char_exec, seq_eq,
    seq_less_exec, starts_with, starts_with_lit, string_of, trim, trim_exec,
};

verus! {

/// A file found by the inventory walk.
#[derive(Debug)]
pub struct InventoryFile {
    pub path: String,
    pub size_bytes: u64,
}

/// Node and edge counts of a stored graph.
#[derive(Debug, Clone, Copy)]
pub struct GraphStats {
    pub nodes: usize,
    pub edges: usize,
}

/// A ranked file, with its score in millionths of a point.
#[derive(Debug)]
pub struct RankedFile {
    pub file_path: String,
    pub score: u128,
    pub inbound_refs: usize,
    pub outbound_refs: usize,
    pub definitions: usize,
    pub is_entrypoint: bool,
}

impl RankedFile {
    /// A copy of this ranked file.
    pub fn duplicate(&self) -> (r: RankedFile)
        ensures
            r == *self,
    {
        RankedFile {
            file_path: self.file_path.clone(),
            score: self.score.clone(),
            inbound_refs: self.inbound_refs,
            outbound_refs: self.outbound_refs,
            definitions: self.definitions,
            is_entrypoint: self.is_entrypoint,
        }
    }
}

/// File names that start execution (when at most one folder deep).
pub open spec fn entrypoint_file_name(name: Seq<char>) -> bool {
    name == "main.py"@ || name == "app.py"@ || name == "wsgi.py"@ || name == "manage.py"@ || name
        == "main.go"@ || name == "index.ts"@ || name == "index.js"@ || name == "main.ts"@ || name
        == "server.ts"@ || name == "app.ts"@ || name == "main.c"@ || name == "init.c"@ || name
        == "mod.rs"@ || name == "lib.rs"@ || name == "main.rs"@
}

/// The number of occurrences of `c` in `s`.
pub open spec fn count_char(s: Seq<char>, c: char) -> int
    decreases s.len(),
{
    if s.len() == 0 {
        0
    } else {
        count_char(s.drop_last(), c) + if s.last() == c {
            1int
        } else {
            0int
        }
    }
}

/// An entrypoint: a well-known entry file name at most one folder deep, or a
/// file named `main`, `index`, `mod` or `lib` without extension.
pub open spec fn entrypoint(path: Seq<char>) -> bool {
    let n = replace_char(path, '\\', '/');
    let name = last_segment(n, '/');
    if entrypoint_file_name(name) {
        count_char(n, '/') <= 1
    } else {
        name == "main"@ || name == "index"@ || name == "mod"@ || name == "lib"@
    }
}

fn is_entrypoint_file_name(name: &[char]) -> (r: bool)
    ensures
        r == entrypoint_file_name(name@),
{
    eq_lit(name, "main.py") || eq_lit(name, "app.py") || eq_lit(name, "wsgi.py") || eq_lit(
        name,
        "manage.py",
    ) || eq_lit(name, "main.go") || eq_lit(name, "index.ts") || eq_lit(name, "index.js")
        || eq_lit(name, "main.ts") || eq_lit(name, "server.ts") || eq_lit(name, "app.ts")
        || eq_lit(name, "main.c") || eq_lit(name, "init.c") || eq_lit(name, "mod.rs") || eq_lit(
        name,
        "lib.rs",
    ) || eq_lit(name, "main.rs")
}

fn count_char_exec(s: &[char], c: char) -> (r: usize)
    ensures
        r as int == count_char(s@, c),
{
    let mut n: usize = 0;
    let mut i: usize = 0;
    while i < s.len()
        invariant
            i <= s@.len(),
            n <= i,
            n as int == count_char(s@.subrange(0, i as int), c),
        decreases s.len() - i,
    {
        assert(s@.subrange(0, i + 1).drop_last() =~= s@.subrange(0, i as int));
        if s[i] == c {
            n = n + 1;
        }
        i = i + 1;
    }
    assert(s@.subrange(0, s@.len() as int) =~= s@);
    n
}

/// Whether a path is an entrypoint of the repository.
pub fn is_entrypoint(file_path: &str) -> (r: bool)
    ensures
        r == entrypoint(file_path@),
{
    let cs = chars_of(file_path);
    let n = replace_char_exec(cs.as_slice(), '\\', '/');
    let name = last_segment_exec(n.as_slice(), '/');
    if is_entrypoint_file_name(name.as_slice()) {
        return count_char_exec(n.as_slice(), '/') <= 1;
    }
    eq_lit(name.as_slice(), "main") || eq_lit(name.as_slice(), "index") || eq_lit(
        name.as_slice(),
        "mod",
    ) || eq_lit(name.as_slice(), "lib")
}

/// The node kind a definition is stored as.
pub open spec fn node_kind(kind: Seq<char>) -> Seq<char> {
    if kind == "class"@ || kind == "struct"@ || kind == "type"@ {
        "class"@
    } else {
        "function"@
    }
}

/// The node kind a definition is stored as: classes, structs and types are
/// classes, everything else a function.
pub fn map_definition_kind(kind: &str) -> (r: &'static str)
    ensures
        r@ == node_kind(kind@),
{
    let k = chars_of(kind);
    if eq_lit(k.as_slice(), "class") || eq_lit(k.as_slice(), "struct") || eq_lit(
        k.as_slice(),
        "type",
    ) {
        "class"
    } else {
        "function"
    }
}

} // verus!

verus! {

/// A quote character.
pub open spec fn quote(c: char) -> bool {
    c == '"' || c == '\''
}

/// `s` without leading quotes.
pub open spec fn strip_quotes_start(s: Seq<char>) -> Seq<char>
    decreases s.len(),
{
    if s.len() > 0 && quote(s[0]) {
        strip_quotes_start(s.drop_first())
    } else {
        s
    }
}

/// `s` without trailing quotes.
pub open spec fn strip_quotes_end(s: Seq<char>) -> Seq<char>
    decreases s.len(),
{
    if s.len() > 0 && quote(s.last()) {
        strip_quotes_end(s.drop_last())
    } else {
        s
    }
}

/// `s` without leading and trailing quotes (`trim_matches(['"', '\''])`).
pub open spec fn strip_quotes(s: Seq<char>) -> Seq<char> {
    strip_quotes_start(strip_quotes_end(s))
}

/// A path with slashes for backslashes.
pub open spec fn slashed(p: Seq<char>) -> Seq<char> {
    replace_char(p, '\\', '/')
}

/// Some inventory path is exactly `c`.
pub open spec fn exact_has(paths: Seq<String>, c: Seq<char>) -> bool {
    exists|i: int| 0 <= i < paths.len() && #[trigger] paths[i]@ == c
}

/// The first inventory path whose slashed form, or whose file name, is `k`.
pub open spec fn suffix_first(paths: Seq<String>, k: Seq<char>) -> Option<Seq<char>>
    decreases paths.len(),
{
    if paths.len() == 0 {
        None
    } else if slashed(paths[0]@) == k || last_segment(slashed(paths[0]@), '/') == k {
        Some(paths[0]@)
    } else {
        suffix_first(paths.drop_first(), k)
    }
}

/// The shortest inventory path whose slashed form ends with `k` (the first of
/// equally short ones).
pub open spec fn shortest_ending(paths: Seq<String>, k: Seq<char>) -> Option<Seq<char>>
    decreases paths.len(),
{
    if paths.len() == 0 {
        None
    } else {
        let prev = shortest_ending(paths.drop_last(), k);
        let p = paths.last()@;
        if ends_with(slashed(p), k) {
            match prev {
                None => Some(p),
                Some(b) => if slashed(p).len() < slashed(b).len() {
                    Some(p)
                } else {
                    Some(b)
                },
            }
        } else {
            prev
        }
    }
}

/// A path that ends with `s`: one keyed by it, else the shortest one.
pub open spec fn find_suffix(paths: Seq<String>, s: Seq<char>) -> Option<Seq<char>> {
    let k = slashed(s);
    match suffix_first(paths, k) {
        Some(p) => Some(p),
        None => shortest_ending(paths, k),
    }
}

/// A candidate path: itself when in the inventory, else by suffix.
pub open spec fn try_candidates(paths: Seq<String>, c: Seq<char>) -> Option<Seq<char>> {
    if exact_has(paths, c) {
        Some(c)
    } else {
        find_suffix(paths, c)
    }
}

/// The parent folder of a path, as `Path::parent` gives it.
pub uninterp spec fn parent_of(p: Seq<char>) -> Option<Seq<char>>;

/// A path joined onto another, as `Path::join` gives it on the target the
/// library is built for.
pub uninterp spec fn join_of(base: Seq<char>, rel: Seq<char>) -> Seq<char>;

/// A character that separates path components on some target: `/` everywhere,
/// `\\` on Windows as well.
pub open spec fn is_path_separator(c: char) -> bool {
    c == '/' || c == '\\'
}

/// Joining `rel` onto `base` means the same on every target: neither holds a
/// `:` (no drive prefix), `base` does not start with two separators (no UNC or
/// verbatim prefix) nor end in `\\`, and `rel` does not start at a root.
pub open spec fn portable_join(base: Seq<char>, rel: Seq<char>) -> bool {
    &&& !base.contains(':')
    &&& !rel.contains(':')
    &&& !(base.len() >= 2 && is_path_separator(base[0]) && is_path_separator(base[1]))
    &&& !(base.len() > 0 && base.last() == '\\')
    &&& !(rel.len() > 0 && is_path_separator(rel[0]))
}

/// What joining `rel` onto `base` gives on every target, where the join is
/// portable: `rel` itself after an empty base, `base` and `rel` run together
/// after a base that ends in `/`, and otherwise `base`, one separator (`/` or
/// `\\`, by target) and `rel`.
pub open spec fn separator_joined(base: Seq<char>, rel: Seq<char>, r: Seq<char>) -> bool {
    portable_join(base, rel) ==> if base.len() == 0 {
        r == rel
    } else if base.last() == '/' {
        r == base + rel
    } else {
        r == base + "/"@ + rel || r == base + "\\"@ + rel
    }
}

/// The parent folder of a path (`Path::parent`), as text.
#[verifier::external_body]
fn path_parent(p: &str) -> (r: Option<String>)
    ensures
        match r {
            None => parent_of(p@) is None,
            Some(s) => parent_of(p@) == Some(s@),
        },
{
    std::path::Path::new(p).parent().map(|q| q.to_string_lossy().to_string())
}

/// A path joined onto a folder with `Path::join` (`PathBuf::push` on a copy),
/// as text; the text of a path made from a `str` comes back unchanged. Where
/// the join is portable (no drive, UNC or verbatim prefix, no root on the
/// relative part), `rel` is appended to `base` after the target's main
/// separator, which is left out after an empty base or one that already ends
/// in a separator. The separator itself (`/` or `\\`) and the joins that are
/// not portable depend on the target and are only named.
#[verifier::external_body]
pub(crate) fn path_join(base: &str, rel: &str) -> (r: String)
    ensures
        r@ == join_of(base@, rel@),
        separator_joined(base@, rel@, r@),
{
    std::path::Path::new(base).join(rel).to_string_lossy().to_string()
}

/// A relative import target resolved against the folder of the importing file.
pub open spec fn relative_target(source: Seq<char>, target: Seq<char>) -> Option<Seq<char>> {
    match parent_of(source) {
        None => None,
        Some(par) => Some(slashed(join_of(par, target))),
    }
}

/// Module-style candidates: Python module paths, then JavaScript/TypeScript files.
pub open spec fn module_candidates(paths: Seq<String>, n: Seq<char>) -> Option<Seq<char>> {
    let pp = replace_char(n, '.', '/');
    if try_candidates(paths, pp + ".py"@) is Some {
        try_candidates(paths, pp + ".py"@)
    } else if try_candidates(paths, pp + "/__init__.py"@) is Some {
        try_candidates(paths, pp + "/__init__.py"@)
    } else if try_candidates(paths, n + ".ts"@) is Some {
        try_candidates(paths, n + ".ts"@)
    } else if try_candidates(paths, n + ".tsx"@) is Some {
        try_candidates(paths, n + ".tsx"@)
    } else if try_candidates(paths, n + ".js"@) is Some {
        try_candidates(paths, n + ".js"@)
    } else if try_candidates(paths, n + ".jsx"@) is Some {
        try_candidates(paths, n + ".jsx"@)
    } else if try_candidates(paths, n + "/index.ts"@) is Some {
        try_candidates(paths, n + "/index.ts"@)
    } else {
        try_candidates(paths, n + "/index.js"@)
    }
}

/// Resolution of a non-relative import target.
pub open spec fn resolve_plain(paths: Seq<String>, n: Seq<char>) -> Option<Seq<char>> {
    if ends_with(n, ".py"@) || ends_with(n, ".go"@) {
        try_candidates(paths, n)
    } else if find_suffix(paths, n) is Some {
        find_suffix(paths, n)
    } else {
        module_candidates(paths, n)
    }
}

/// The inventory file an import target of `source` resolves to: the exact
/// path, a relative path, a file with that suffix, or a Python or JavaScript
/// module file.
pub open spec fn resolve_target(paths: Seq<String>, source: Seq<char>, target: Seq<char>) -> Option<
    Seq<char>,
> {
    let t = strip_quotes(trim(target));
    if t.len() == 0 {
        None
    } else if exact_has(paths, t) {
        Some(t)
    } else {
        let n = slashed(t);
        if (starts_with(n, "./"@) || starts_with(n, "../"@)) && relative_target(source, n) is Some {
            try_candidates(paths, relative_target(source, n)->0)
        } else {
            resolve_plain(paths, n)
        }
    }
}

/// The inventory paths, for resolving imports to files, with their
/// characters, slashed forms and file names kept for lookups.
pub struct FileIndex {
    paths: Vec<String>,
    path_chars: Vec<Vec<char>>,
    slashed_paths: Vec<Vec<char>>,
    file_names: Vec<Vec<char>>,
}

impl View for FileIndex {
    type V = Seq<String>;

    /// The inventory paths, in order.
    closed spec fn view(&self) -> Seq<String> {
        self.paths@
    }
}

fn strip_quotes_exec(s: &[char]) -> (r: Vec<char>)
    ensures
        r@ == strip_quotes(s@),
{
    let mut end: usize = s.len();
    assert(s@.subrange(0, s@.len() as int) =~= s@);
    while end > 0 && (s[end - 1] == '"' || s[end - 1] == '\'')
        invariant
            end <= s@.len(),
            strip_quotes_end(s@) == strip_quotes_end(s@.subrange(0, end as int)),
        decreases end,
    {
        let ghost pre = s@.subrange(0, end as int);
        assert(pre.drop_last() =~= s@.subrange(0, end - 1));
        end = end - 1;
    }
    let ghost te = s@.subrange(0, end as int);
    let mut start: usize = 0;
    assert(te.subrange(0, te.len() as int) =~= te);
    while start < end && (s[start] == '"' || s[start] == '\'')
        invariant
            start <= end <= s@.len(),
            te == s@.subrange(0, end as int),
            strip_quotes_start(te) == strip_quotes_start(te.subrange(start as int, end as int)),
        decreases end - start,
    {
        let ghost rest = te.subrange(start as int, end as int);
        assert(rest.drop_first() =~= te.subrange(start + 1, end as int));
        start = start + 1;
    }
    let mut r: Vec<char> = Vec::new();
    let mut i: usize = start;
    while i < end
        invariant
            start <= i <= end <= s@.len(),
            r@ == s@.subrange(start as int, i as int),
        decreases end - i,
    {
        r.push(s[i]);
        assert(s@.subrange(start as int, i + 1) =~= s@.subrange(start as int, i as int).push(
            s@[i as int],
        ));
        i = i + 1;
    }
    assert(te.subrange(start as int, end as int) =~= r@);
    r
}

impl FileIndex {
    /// The kept forms match the paths: their characters, their slashed forms
    /// and the file names of those.
    pub closed spec fn wf(&self) -> bool {
        &&& self.path_chars@.len() == self.paths@.len()
        &&& self.slashed_paths@.len() == self.paths@.len()
        &&& self.file_names@.len() == self.paths@.len()
        &&& forall|i: int|
            0 <= i < self.paths@.len() ==> {
                &&& (#[trigger] self.path_chars@[i])@ == self.paths@[i]@
                &&& self.slashed_paths@[i]@ == slashed(self.paths@[i]@)
                &&& self.file_names@[i]@ == last_segment(slashed(self.paths@[i]@), '/')
            }
    }

    /// The index of an inventory.
    pub fn from_inventory(files: &Vec<InventoryFile>) -> (r: FileIndex)
        ensures
            r.wf(),
            r@.len() == files@.len(),
            forall|i: int| 0 <= i < files@.len() ==> #[trigger] r@[i] == files@[i].path,
    {
        let mut paths: Vec<String> = Vec::new();
        let mut path_chars: Vec<Vec<char>> = Vec::new();
        let mut slashed_paths: Vec<Vec<char>> = Vec::new();
        let mut file_names: Vec<Vec<char>> = Vec::new();
        let mut i: usize = 0;
        while i < files.len()
            invariant
                i <= files@.len(),
                paths@.len() == i,
                path_chars@.len() == i,
                slashed_paths@.len() == i,
                file_names@.len() == i,
                forall|k: int| 0 <= k < i ==> #[trigger] paths@[k] == files@[k].path,
                forall|k: int|
                    0 <= k < i ==> {
                        &&& (#[trigger] path_chars@[k])@ == paths@[k]@
                        &&& slashed_paths@[k]@ == slashed(paths@[k]@)
                        &&& file_names@[k]@ == last_segment(slashed(paths@[k]@), '/')
                    },
            decreases files.len() - i,
        {
            let pc = chars_of(files[i].path.as_str());
            let norm = replace_char_exec(pc.as_slice(), '\\', '/');
            let name = last_segment_exec(norm.as_slice(), '/');
            paths.push(files[i].path.clone());
            path_chars.push(pc);
            slashed_paths.push(norm);
            file_names.push(name);
            i = i + 1;
        }
        FileIndex { paths, path_chars, slashed_paths, file_names }
    }

    fn exact(&self, c: &[char]) -> (r: bool)
        requires
            self.wf(),
        ensures
            r == exact_has(self.paths@, c@),
    {
        let mut i: usize = 0;
        while i < self.paths.len()
            invariant
                self.wf(),
                i <= self.paths@.len(),
                forall|k: int| 0 <= k < i ==> #[trigger] self.paths@[k]@ != c@,
            decreases self.paths.len() - i,
        {
            assert(self.path_chars@[i as int]@ == self.paths@[i as int]@);
            if seq_eq(self.path_chars[i].as_slice(), c) {
                return true;
            }
            i = i + 1;
        }
        false
    }

    fn find_suffix(&self, suffix: &[char]) -> (r: Option<String>)
        requires
            self.wf(),
        ensures
            match r {
                None => find_suffix(self.paths@, suffix@) is None,
                Some(p) => find_suffix(self.paths@, suffix@) == Some(p@),
            },
    {
        let k = replace_char_exec(suffix, '\\', '/');
        let mut i: usize = 0;
        assert(self.paths@.subrange(0, self.paths@.len() as int) =~= self.paths@);
        while i < self.paths.len()
            invariant
                self.wf(),
                i <= self.paths@.len(),
                k@ == slashed(suffix@),
                suffix_first(self.paths@, k@) == suffix_first(
                    self.paths@.subrange(i as int, self.paths@.len() as int),
                    k@,
                ),
            decreases self.paths.len() - i,
        {
            let ghost rest = self.paths@.subrange(i as int, self.paths@.len() as int);
            assert(rest.drop_first() =~= self.paths@.subrange(i + 1, self.paths@.len() as int));
            assert(self.path_chars@[i as int]@ == self.paths@[i as int]@);
            let norm = self.slashed_paths[i].as_slice();
            let name = self.file_names[i].as_slice();
            if seq_eq(norm, k.as_slice()) || seq_eq(name, k.as_slice()) {
                return Some(self.paths[i].clone());
            }
            i = i + 1;
        }
        let mut best: Option<usize> = None;
        let mut best_len: usize = 0;
        let mut j: usize = 0;
        while j < self.paths.len()
            invariant
                self.wf(),
                j <= self.paths@.len(),
                k@ == slashed(suffix@),
                match best {
                    None => shortest_ending(self.paths@.subrange(0, j as int), k@) is None,
                    Some(b) => b < j && shortest_ending(self.paths@.subrange(0, j as int), k@)
                        == Some(self.paths@[b as int]@) && best_len == slashed(
                        self.paths@[b as int]@,
                    ).len(),
                },
            decreases self.paths.len() - j,
        {
            assert(self.paths@.subrange(0, j + 1).drop_last() =~= self.paths@.subrange(0, j as int));
            assert(self.path_chars@[j as int]@ == self.paths@[j as int]@);
            let norm = self.slashed_paths[j].as_slice();
            if crate::text::ends_with_seq(norm, k.as_slice()) {
                match best {
                    None => {
                        best = Some(j);
                        best_len = norm.len();
                    },
                    Some(_) => {
                        if norm.len() < best_len {
                            best = Some(j);
                            best_len = norm.len();
                        }
                    },
                }
            }
            j = j + 1;
        }
        assert(self.paths@.subrange(0, self.paths@.len() as int) =~= self.paths@);
        match best {
            Some(b) => Some(self.paths[b].clone()),
            None => None,
        }
    }

    fn try_candidates(&self, candidate: &[char]) -> (r: Option<String>)
        requires
            self.wf(),
        ensures
            match r {
                None => try_candidates(self.paths@, candidate@) is None,
                Some(p) => try_candidates(self.paths@, candidate@) == Some(p@),
            },
    {
        if self.exact(candidate) {
            return Some(string_of(candidate));
        }
        self.find_suffix(candidate)
    }

    fn try_with(&self, base: &[char], ending: &str) -> (r: Option<String>)
        requires
            self.wf(),
        ensures
            match r {
                None => try_candidates(self.paths@, base@ + ending@) is None,
                Some(p) => try_candidates(self.paths@, base@ + ending@) == Some(p@),
            },
    {
        let mut c: Vec<char> = Vec::new();
        append_chars(&mut c, base);
        let e = chars_of(ending);
        append_chars(&mut c, e.as_slice());
        self.try_candidates(c.as_slice())
    }

    fn module_candidates(&self, n: &[char]) -> (r: Option<String>)
        requires
            self.wf(),
        ensures
            match r {
                None => module_candidates(self.paths@, n@) is None,
                Some(p) => module_candidates(self.paths@, n@) == Some(p@),
            },
    {
        let pp = replace_char_exec(n, '.', '/');
        let pp = pp.as_slice();
        if let Some(p) = self.try_with(pp, ".py") {
            return Some(p);
        }
        if let Some(p) = self.try_with(pp, "/__init__.py") {
            return Some(p);
        }
        if let Some(p) = self.try_with(n, ".ts") {
            return Some(p);
        }
        if let Some(p) = self.try_with(n, ".tsx") {
            return Some(p);
        }
        if let Some(p) = self.try_with(n, ".js") {
            return Some(p);
        }
        if let Some(p) = self.try_with(n, ".jsx") {
            return Some(p);
        }
        if let Some(p) = self.try_with(n, "/index.ts") {
            return Some(p);
        }
        self.try_with(n, "/index.js")
    }

    /// The inventory file that an import of `source_file` refers to, if any.
    pub fn resolve_import(&self, source_file: &str, target: &str) -> (r: Option<String>)
        requires
            self.wf(),
        ensures
            match r {
                None => resolve_target(self@, source_file@, target@) is None,
                Some(p) => resolve_target(self@, source_file@, target@) == Some(p@),
            },
    {
        let tc = chars_of(target);
        let trimmed = trim_exec(tc.as_slice());
        let t = strip_quotes_exec(trimmed.as_slice());
        if t.len() == 0 {
            return None;
        }
        if self.exact(t.as_slice()) {
            return Some(string_of(t.as_slice()));
        }
        let n = replace_char_exec(t.as_slice(), '\\', '/');
        if starts_with_lit(n.as_slice(), "./") || starts_with_lit(n.as_slice(), "../") {
            let ns = string_of(n.as_slice());
            if let Some(par) = path_parent(source_file) {
                let joined = path_join(par.as_str(), ns.as_str());
                let jc = chars_of(joined.as_str());
                let resolved = replace_char_exec(jc.as_slice(), '\\', '/');
                return self.try_candidates(resolved.as_slice());
            }
        }
        if ends_with_lit(n.as_slice(), ".py") || ends_with_lit(n.as_slice(), ".go") {
            return self.try_candidates(n.as_slice());
        }
        if let Some(p) = self.find_suffix(n.as_slice()) {
            return Some(p);
        }
        self.module_candidates(n.as_slice())
    }
}

} // verus!

verus! {

/// A resolved import between files: (imported file, importing file).
pub struct ImportPair {
    pub target: String,
    pub source: String,
}

/// The resolved imports of one file's import list, in order.
pub open spec fn file_pairs(paths: Seq<String>, source: String, imports: Seq<Import>) -> Seq<
    (Seq<char>, Seq<char>),
>
    decreases imports.len(),
{
    if imports.len() == 0 {
        Seq::empty()
    } else {
        let prev = file_pairs(paths, source, imports.drop_last());
        match resolve_target(paths, source@, imports.last().target@) {
            Some(t) => prev.push((t, source@)),
            None => prev,
        }
    }
}

/// The resolved imports of all parsed files, file by file in order.
pub open spec fn import_pairs(paths: Seq<String>, parsed: Seq<ParsedFile>) -> Seq<
    (Seq<char>, Seq<char>),
>
    decreases parsed.len(),
{
    if parsed.len() == 0 {
        Seq::empty()
    } else {
        import_pairs(paths, parsed.drop_last()) + file_pairs(
            paths,
            parsed.last().path,
            parsed.last().imports@,
        )
    }
}

/// The views of a list of import pairs.
pub open spec fn pair_views(ps: Seq<ImportPair>) -> Seq<(Seq<char>, Seq<char>)> {
    ps.map_values(|p: ImportPair| (p.target@, p.source@))
}

proof fn lemma_pair_views_push(ps: Seq<ImportPair>, p: ImportPair)
    ensures
        pair_views(ps.push(p)) == pair_views(ps).push((p.target@, p.source@)),
{
    assert(pair_views(ps.push(p)) =~= pair_views(ps).push((p.target@, p.source@)));
}

impl FileIndex {
    /// Every import of every parsed file resolved against the inventory.
    pub fn import_pairs(&self, parsed: &Vec<ParsedFile>) -> (r: Vec<ImportPair>)
        requires
            self.wf(),
        ensures
            pair_views(r@) == import_pairs(self@, parsed@),
    {
        let mut out: Vec<ImportPair> = Vec::new();
        let mut i: usize = 0;
        while i < parsed.len()
            invariant
                self.wf(),
                i <= parsed@.len(),
                pair_views(out@) == import_pairs(self.paths@, parsed@.subrange(0, i as int)),
            decreases parsed.len() - i,
        {
            let f = &parsed[i];
            let ghost before = pair_views(out@);
            let mut j: usize = 0;
            while j < f.imports.len()
                invariant
                    self.wf(),
                    j <= f.imports@.len(),
                    pair_views(out@) == before + file_pairs(
                        self.paths@,
                        f.path,
                        f.imports@.subrange(0, j as int),
                    ),
                decreases f.imports.len() - j,
            {
                assert(f.imports@.subrange(0, j + 1).drop_last() =~= f.imports@.subrange(
                    0,
                    j as int,
                ));
                let res = self.resolve_import(f.path.as_str(), f.imports[j].target.as_str());
                if let Some(t) = res {
                    let p = ImportPair { target: t, source: f.path.clone() };
                    proof {
                        lemma_pair_views_push(out@, p);
                    }
                    out.push(p);
                    assert(pair_views(out@) =~= before + file_pairs(
                        self.paths@,
                        f.path,
                        f.imports@.subrange(0, j + 1),
                    ));
                }
                j = j + 1;
            }
            assert(f.imports@.subrange(0, f.imports@.len() as int) =~= f.imports@);
            assert(parsed@.subrange(0, i + 1).drop_last() =~= parsed@.subrange(0, i as int));
            i = i + 1;
        }
        assert(parsed@.subrange(0, parsed@.len() as int) =~= parsed@);
        out
    }
}

/// Import edges into `f` from other files.
pub open spec fn inbound_count(pairs: Seq<(Seq<char>, Seq<char>)>, f: Seq<char>) -> int
    decreases pairs.len(),
{
    if pairs.len() == 0 {
        0
    } else {
        inbound_count(pairs.drop_last(), f) + if pairs.last().0 == f && pairs.last().1 != f {
            1int
        } else {
            0int
        }
    }
}

/// Import edges from `f` to other files.
pub open spec fn outbound_pairs(pairs: Seq<(Seq<char>, Seq<char>)>, f: Seq<char>) -> int
    decreases pairs.len(),
{
    if pairs.len() == 0 {
        0
    } else {
        outbound_pairs(pairs.drop_last(), f) + if pairs.last().1 == f && pairs.last().0 != f {
            1int
        } else {
            0int
        }
    }
}

/// Import statements and calls of the parsed files with path `f`.
pub open spec fn statement_count(parsed: Seq<ParsedFile>, f: Seq<char>) -> int
    decreases parsed.len(),
{
    if parsed.len() == 0 {
        0
    } else {
        statement_count(parsed.drop_last(), f) + if parsed.last().path@ == f {
            (parsed.last().imports@.len() + parsed.last().calls@.len()) as int
        } else {
            0int
        }
    }
}

/// Import statements of the parsed files with path `f`.
pub open spec fn import_count(parsed: Seq<ParsedFile>, f: Seq<char>) -> int
    decreases parsed.len(),
{
    if parsed.len() == 0 {
        0
    } else {
        import_count(parsed.drop_last(), f) + if parsed.last().path@ == f {
            parsed.last().imports@.len() as int
        } else {
            0int
        }
    }
}

/// Definitions of the last parsed file with path `f` (0 when none).
pub open spec fn definition_count(parsed: Seq<ParsedFile>, f: Seq<char>) -> int
    decreases parsed.len(),
{
    if parsed.len() == 0 {
        0
    } else if parsed.last().path@ == f {
        parsed.last().definitions@.len() as int
    } else {
        definition_count(parsed.drop_last(), f)
    }
}

/// The reference counts of one inventory file.
#[derive(Debug)]
pub struct FileStats {
    pub path: String,
    pub inbound_refs: usize,
    pub outbound_refs: usize,
    pub definitions: usize,
    pub is_entrypoint: bool,
}

/// The stats of file `f`: files that import it, its imports, calls and file
/// imports, its definitions, and whether it is an entrypoint.
pub open spec fn stats_match(
    s: FileStats,
    f: Seq<char>,
    pairs: Seq<(Seq<char>, Seq<char>)>,
    parsed: Seq<ParsedFile>,
) -> bool {
    &&& s.path@ == f
    &&& s.inbound_refs == inbound_count(pairs, f)
    &&& s.outbound_refs == statement_count(parsed, f) + outbound_pairs(pairs, f)
    &&& s.definitions == definition_count(parsed, f)
    &&& s.is_entrypoint == entrypoint(f)
}

/// Every parsed file is in the inventory.
pub open spec fn parsed_in_inventory(paths: Seq<String>, parsed: Seq<ParsedFile>) -> bool {
    forall|i: int| 0 <= i < parsed.len() ==> exact_has(paths, #[trigger] parsed[i].path@)
}

/// The paths of the inventory files, in order.
pub open spec fn inventory_paths(inventory: Seq<InventoryFile>) -> Seq<String> {
    inventory.map_values(|f: InventoryFile| f.path)
}

/// Parsed file `i` is the first one that is not in the inventory.
pub open spec fn missing_at(paths: Seq<String>, parsed: Seq<ParsedFile>, i: int) -> bool {
    &&& 0 <= i < parsed.len()
    &&& !exact_has(paths, parsed[i].path@)
    &&& forall|j: int| 0 <= j < i ==> exact_has(paths, #[trigger] parsed[j].path@)
}

/// The first parsed file that is not in the inventory.
pub open spec fn first_missing(paths: Seq<String>, parsed: Seq<ParsedFile>) -> Option<int> {
    if parsed_in_inventory(paths, parsed) {
        None
    } else {
        Some(choose|i: int| missing_at(paths, parsed, i))
    }
}

fn count_pairs(pairs: &Vec<ImportPair>, ends: &Vec<(Vec<char>, Vec<char>)>, f: &[char]) -> (r: (
    usize,
    usize,
))
    requires
        ends@.len() == pairs@.len(),
        forall|i: int|
            0 <= i < pairs@.len() ==> (#[trigger] ends@[i]).0@ == pairs@[i].target@ && ends@[i].1@
                == pairs@[i].source@,
    ensures
        r.0 as int == inbound_count(pair_views(pairs@), f@),
        r.1 as int == outbound_pairs(pair_views(pairs@), f@),
{
    let mut inb: usize = 0;
    let mut outb: usize = 0;
    let mut i: usize = 0;
    while i < pairs.len()
        invariant
            ends@.len() == pairs@.len(),
            forall|i: int|
                0 <= i < pairs@.len() ==> (#[trigger] ends@[i]).0@ == pairs@[i].target@
                    && ends@[i].1@ == pairs@[i].source@,
            i <= pairs@.len(),
            inb <= i,
            outb <= i,
            inb as int == inbound_count(pair_views(pairs@.subrange(0, i as int)), f@),
            outb as int == outbound_pairs(pair_views(pairs@.subrange(0, i as int)), f@),
        decreases pairs.len() - i,
    {
        proof {
            assert(pairs@.subrange(0, i + 1) =~= pairs@.subrange(0, i as int).push(pairs@[i as int]));
            lemma_pair_views_push(pairs@.subrange(0, i as int), pairs@[i as int]);
            assert(pair_views(pairs@.subrange(0, i + 1)).drop_last() =~= pair_views(
                pairs@.subrange(0, i as int),
            ));
        }
        assert(ends@[i as int].0@ == pairs@[i as int].target@);
        let t_is = seq_eq(ends[i].0.as_slice(), f);
        let s_is = seq_eq(ends[i].1.as_slice(), f);
        if t_is && !s_is {
            inb = inb + 1;
        }
        if s_is && !t_is {
            outb = outb + 1;
        }
        i = i + 1;
    }
    assert(pairs@.subrange(0, pairs@.len() as int) =~= pairs@);
    (inb, outb)
}

fn parsed_counts(parsed: &Vec<ParsedFile>, paths: &Vec<Vec<char>>, f: &[char]) -> (r: (usize, usize))
    requires
        paths@.len() == parsed@.len(),
        forall|i: int| 0 <= i < parsed@.len() ==> (#[trigger] paths@[i])@ == parsed@[i].path@,
        statement_count(parsed@, f@) <= usize::MAX,
    ensures
        r.0 as int == statement_count(parsed@, f@),
        r.1 as int == definition_count(parsed@, f@),
{
    let mut stmts: usize = 0;
    let mut defs: usize = 0;
    let mut i: usize = 0;
    while i < parsed.len()
        invariant
            paths@.len() == parsed@.len(),
            forall|i: int| 0 <= i < parsed@.len() ==> (#[trigger] paths@[i])@ == parsed@[i].path@,
            i <= parsed@.len(),
            statement_count(parsed@, f@) <= usize::MAX,
            stmts as int == statement_count(parsed@.subrange(0, i as int), f@),
            defs as int == definition_count(parsed@.subrange(0, i as int), f@),
        decreases parsed.len() - i,
    {
        assert(parsed@.subrange(0, i + 1).drop_last() =~= parsed@.subrange(0, i as int));
        proof {
            lemma_statement_count_prefix(parsed@, f@, i + 1);
        }
        assert(paths@[i as int]@ == parsed@[i as int].path@);
        if seq_eq(paths[i].as_slice(), f) {
            stmts = stmts + parsed[i].imports.len() + parsed[i].calls.len();
            defs = parsed[i].definitions.len();
        }
        i = i + 1;
    }
    assert(parsed@.subrange(0, parsed@.len() as int) =~= parsed@);
    (stmts, defs)
}

proof fn lemma_statement_count_prefix(parsed: Seq<ParsedFile>, f: Seq<char>, i: int)
    requires
        0 <= i <= parsed.len(),
    ensures
        statement_count(parsed.subrange(0, i), f) <= statement_count(parsed, f),
    decreases parsed.len() - i,
{
    if i < parsed.len() {
        lemma_statement_count_prefix(parsed, f, i + 1);
        assert(parsed.subrange(0, i + 1).drop_last() =~= parsed.subrange(0, i));
    } else {
        assert(parsed.subrange(0, i) =~= parsed);
    }
}

/// The reference counts of every inventory file, in inventory order, as the
/// graph holds them; an error names the first parsed file that is not in the
/// inventory.
pub fn file_stats(inventory: &Vec<InventoryFile>, parsed: &Vec<ParsedFile>) -> (r: Result<
    Vec<FileStats>,
    String,
>)
    requires
        forall|i: int|
            0 <= i < inventory@.len() ==> statement_count(parsed@, #[trigger] inventory@[i].path@)
                + import_count(parsed@, inventory@[i].path@) <= usize::MAX,
    ensures
        match r {
            Err(e) => first_missing(inventory_paths(inventory@), parsed@)
                matches Some(k) && e@ == "missing file node for "@ + parsed@[k].path@,
            Ok(stats) => first_missing(
                inventory_paths(inventory@),
                parsed@,
            ) is None && stats@.len() == inventory@.len() && forall|i: int|
                0 <= i < inventory@.len() ==> stats_match(
                    #[trigger] stats@[i],
                    inventory@[i].path@,
                    import_pairs(inventory_paths(inventory@), parsed@),
                    parsed@,
                ),
        },
{
    let index = FileIndex::from_inventory(inventory);
    let ghost paths = inventory_paths(inventory@);
    assert(index.paths@ =~= paths);
    let mut i: usize = 0;
    while i < parsed.len()
        invariant
            index.wf(),
            i <= parsed@.len(),
            index.paths@ == paths,
            paths == inventory_paths(inventory@),
            forall|j: int| 0 <= j < i ==> exact_has(paths, #[trigger] parsed@[j].path@),
        decreases parsed.len() - i,
    {
        let pc = chars_of(parsed[i].path.as_str());
        if !index.exact(pc.as_slice()) {
            let mut msg = String::from_str("missing file node for ");
            msg.append(parsed[i].path.as_str());
            proof {
                assert(missing_at(paths, parsed@, i as int));
                assert(!parsed_in_inventory(paths, parsed@));
                let k = choose|k: int| missing_at(paths, parsed@, k);
                assert(k == i) by {
                    if k < i {
                        assert(exact_has(paths, parsed@[k].path@));
                    } else if k > i {
                        assert(exact_has(paths, parsed@[i as int].path@));
                    }
                }
            }
            return Err(msg);
        }
        i = i + 1;
    }
    let pairs = index.import_pairs(parsed);
    let mut ends: Vec<(Vec<char>, Vec<char>)> = Vec::new();
    let mut e: usize = 0;
    while e < pairs.len()
        invariant
            e <= pairs@.len(),
            ends@.len() == e,
            forall|i: int|
                0 <= i < e ==> (#[trigger] ends@[i]).0@ == pairs@[i].target@ && ends@[i].1@
                    == pairs@[i].source@,
        decreases pairs.len() - e,
    {
        ends.push((chars_of(pairs[e].target.as_str()), chars_of(pairs[e].source.as_str())));
        e = e + 1;
    }
    let mut parsed_paths: Vec<Vec<char>> = Vec::new();
    let mut q: usize = 0;
    while q < parsed.len()
        invariant
            q <= parsed@.len(),
            parsed_paths@.len() == q,
            forall|i: int| 0 <= i < q ==> (#[trigger] parsed_paths@[i])@ == parsed@[i].path@,
        decreases parsed.len() - q,
    {
        parsed_paths.push(chars_of(parsed[q].path.as_str()));
        q = q + 1;
    }
    let mut stats: Vec<FileStats> = Vec::new();
    let mut k: usize = 0;
    while k < inventory.len()
        invariant
            k <= inventory@.len(),
            index.paths@ == paths,
            paths == inventory_paths(inventory@),
            pair_views(pairs@) == import_pairs(paths, parsed@),
            ends@.len() == pairs@.len(),
            forall|i: int|
                0 <= i < pairs@.len() ==> (#[trigger] ends@[i]).0@ == pairs@[i].target@
                    && ends@[i].1@ == pairs@[i].source@,
            parsed_paths@.len() == parsed@.len(),
            forall|i: int| 0 <= i < parsed@.len() ==> (#[trigger] parsed_paths@[i])@ == parsed@[i].path@,
            forall|i: int|
                0 <= i < inventory@.len() ==> statement_count(
                    parsed@,
                    #[trigger] inventory@[i].path@,
                ) + import_count(parsed@, inventory@[i].path@) <= usize::MAX,
            stats@.len() == k,
            forall|i: int|
                0 <= i < k ==> stats_match(
                    #[trigger] stats@[i],
                    inventory@[i].path@,
                    import_pairs(paths, parsed@),
                    parsed@,
                ),
        decreases inventory.len() - k,
    {
        let path = &inventory[k].path;
        let f = chars_of(path.as_str());
        assert(statement_count(parsed@, f@) + import_count(parsed@, f@) <= usize::MAX);
        let (inb, outb) = count_pairs(&pairs, &ends, f.as_slice());
        proof {
            lemma_import_pairs_outbound(paths, parsed@, f@);
            lemma_import_count_nonneg(parsed@, f@);
            lemma_statement_count_nonneg(parsed@, f@);
        }
        let (stmts, defs) = parsed_counts(parsed, &parsed_paths, f.as_slice());
        let outbound = stmts + outb;
        stats.push(
            FileStats {
                path: path.clone(),
                inbound_refs: inb,
                outbound_refs: outbound,
                definitions: defs,
                is_entrypoint: is_entrypoint(path.as_str()),
            },
        );
        k = k + 1;
    }
    Ok(stats)
}

proof fn lemma_import_count_nonneg(parsed: Seq<ParsedFile>, f: Seq<char>)
    ensures
        import_count(parsed, f) >= 0,
    decreases parsed.len(),
{
    if parsed.len() > 0 {
        lemma_import_count_nonneg(parsed.drop_last(), f);
    }
}

proof fn lemma_statement_count_nonneg(parsed: Seq<ParsedFile>, f: Seq<char>)
    ensures
        statement_count(parsed, f) >= 0,
    decreases parsed.len(),
{
    if parsed.len() > 0 {
        lemma_statement_count_nonneg(parsed.drop_last(), f);
    }
}

proof fn lemma_outbound_concat(
    a: Seq<(Seq<char>, Seq<char>)>,
    b: Seq<(Seq<char>, Seq<char>)>,
    f: Seq<char>,
)
    ensures
        outbound_pairs(a + b, f) == outbound_pairs(a, f) + outbound_pairs(b, f),
    decreases b.len(),
{
    if b.len() == 0 {
        assert(a + b =~= a);
    } else {
        lemma_outbound_concat(a, b.drop_last(), f);
        assert((a + b).drop_last() =~= a + b.drop_last());
    }
}

proof fn lemma_file_pairs_outbound(
    paths: Seq<String>,
    source: String,
    imports: Seq<Import>,
    f: Seq<char>,
)
    ensures
        outbound_pairs(file_pairs(paths, source, imports), f) <= if source@ == f {
            imports.len() as int
        } else {
            0int
        },
        outbound_pairs(file_pairs(paths, source, imports), f) >= 0,
    decreases imports.len(),
{
    if imports.len() > 0 {
        let prev = file_pairs(paths, source, imports.drop_last());
        lemma_file_pairs_outbound(paths, source, imports.drop_last(), f);
        match resolve_target(paths, source@, imports.last().target@) {
            Some(t) => {
                assert(prev.push((t, source@)).drop_last() =~= prev);
            },
            None => {},
        }
    }
}

proof fn lemma_import_pairs_outbound(paths: Seq<String>, parsed: Seq<ParsedFile>, f: Seq<char>)
    ensures
        outbound_pairs(import_pairs(paths, parsed), f) <= import_count(parsed, f),
    decreases parsed.len(),
{
    if parsed.len() > 0 {
        lemma_import_pairs_outbound(paths, parsed.drop_last(), f);
        lemma_outbound_concat(
            import_pairs(paths, parsed.drop_last()),
            file_pairs(paths, parsed.last().path, parsed.last().imports@),
            f,
        );
        lemma_file_pairs_outbound(paths, parsed.last().path, parsed.last().imports@, f);
    }
}


/// The weight of a file in tenths of a point: three points per file that
/// imports it, half a point per outbound reference, 0.3 per definition, and
/// forty points for an entrypoint.
pub open spec fn file_weight(inbound: int, outbound: int, definitions: int, entry: bool) -> int {
    30 * inbound + 5 * outbound + 3 * definitions + if entry {
        400int
    } else {
        0int
    }
}

/// Millionths of a point per tenth of weight: a tenth of a point, times 0.05
/// for test files, 0.1 for project metadata and 0.25 for deprioritized paths.
pub open spec fn score_unit(path: Seq<char>) -> int {
    let t = if test_path(path) {
        5_000int
    } else {
        100_000int
    };
    let m = if project_metadata_path(path) {
        t / 10
    } else {
        t
    };
    if deprioritized_path(path) {
        m / 4
    } else {
        m
    }
}

/// The score of a file in millionths of a point.
pub open spec fn score_micros(
    inbound: int,
    outbound: int,
    definitions: int,
    entry: bool,
    path: Seq<char>,
) -> int {
    file_weight(inbound, outbound, definitions, entry) * score_unit(path)
}

/// The score multipliers apply exactly: the score in millionths, scaled back
/// by 20 for a test file, 10 for project metadata and 4 for a deprioritized
/// path, is a million times the weighted sum.
pub proof fn law_score_multipliers(
    inbound: nat,
    outbound: nat,
    definitions: nat,
    entry: bool,
    path: Seq<char>,
)
    ensures
        score_micros(inbound as int, outbound as int, definitions as int, entry, path) * (if test_path(path) {
            20int
        } else {
            1int
        }) * (if project_metadata_path(path) {
            10int
        } else {
            1int
        }) * (if deprioritized_path(path) {
            4int
        } else {
            1int
        }) == 100_000 * file_weight(inbound as int, outbound as int, definitions as int, entry),
        score_micros(inbound as int, outbound as int, definitions as int, entry, path) >= 0,
{
    let w = file_weight(inbound as int, outbound as int, definitions as int, entry);
    let u = score_unit(path);
    let a: int = if test_path(path) { 20 } else { 1 };
    let b: int = if project_metadata_path(path) { 10 } else { 1 };
    let c: int = if deprioritized_path(path) { 4 } else { 1 };
    assert(u * a * b * c == 100_000);
    assert(w >= 0);
    assert(u >= 0);
    assert(w * u * a * b * c == w * (u * a * b * c)) by (nonlinear_arith);
    assert(w * u >= 0) by (nonlinear_arith)
        requires
            w >= 0,
            u >= 0,
    ;
}

/// The score of one inventory file, in millionths of a point.
pub fn file_score(stats: &FileStats) -> (r: u128)
    ensures
        r as int == score_micros(
            stats.inbound_refs as int,
            stats.outbound_refs as int,
            stats.definitions as int,
            stats.is_entrypoint,
            stats.path@,
        ),
{
    let test = is_test_path(stats.path.as_str());
    let meta = is_project_metadata_path(stats.path.as_str());
    let dep = is_deprioritized_path(stats.path.as_str());
    let mut unit: u128 = if test {
        5_000
    } else {
        100_000
    };
    if meta {
        unit = unit / 10;
    }
    if dep {
        unit = unit / 4;
    }
    let entry: u128 = if stats.is_entrypoint {
        400
    } else {
        0
    };
    let weight: u128 = 30 * (stats.inbound_refs as u128) + 5 * (stats.outbound_refs as u128) + 3 * (
    stats.definitions as u128) + entry;
    assert(weight <= 40 * 0x1_0000_0000_0000_0000);
    assert(unit <= 100_000);
    assert(weight * unit <= 40 * 0x1_0000_0000_0000_0000 * 100_000) by (nonlinear_arith)
        requires
            weight <= 40 * 0x1_0000_0000_0000_0000,
            unit <= 100_000,
    ;
    weight * unit
}

/// The ranked file of an inventory file, given the resolved imports and the
/// parsed files.
pub open spec fn ranked_entry(
    f: InventoryFile,
    pairs: Seq<(Seq<char>, Seq<char>)>,
    parsed: Seq<ParsedFile>,
) -> RankedFile {
    let p = f.path@;
    let inbound = inbound_count(pairs, p);
    let outbound = statement_count(parsed, p) + outbound_pairs(pairs, p);
    let defs = definition_count(parsed, p);
    RankedFile {
        file_path: f.path,
        score: score_micros(inbound, outbound, defs, entrypoint(p), p) as u128,
        inbound_refs: inbound as usize,
        outbound_refs: outbound as usize,
        definitions: defs as usize,
        is_entrypoint: entrypoint(p),
    }
}

/// The ranked files of an inventory, in inventory order.
pub open spec fn ranked_entries(inventory: Seq<InventoryFile>, parsed: Seq<ParsedFile>) -> Seq<
    RankedFile,
> {
    inventory.map_values(
        |f: InventoryFile|
            ranked_entry(f, import_pairs(inventory_paths(inventory), parsed), parsed),
    )
}

/// `a` ranks before `b`: a higher score, or an equal score and a smaller path.
pub open spec fn rank_before(a: RankedFile, b: RankedFile) -> bool {
    key_text_before(-a.score, a.file_path@, -b.score, b.file_path@)
}

/// Ranked files in rank order: no file ranks before one ahead of it.
pub open spec fn rank_sorted(s: Seq<RankedFile>) -> bool {
    forall|i: int, j: int| 0 <= i < j < s.len() ==> !rank_before(#[trigger] s[j], #[trigger] s[i])
}

proof fn lemma_rank_order(x: RankedFile, a: RankedFile, b: RankedFile)
    ensures
        rank_before(x, a) ==> !rank_before(a, x),
        rank_before(x, a) && !rank_before(b, a) ==> rank_before(x, b),
{
    lemma_key_text_order(
        -x.score,
        x.file_path@,
        -a.score,
        a.file_path@,
        -b.score,
        b.file_path@,
    );
}

/// Whether `a` ranks before `b`.
pub fn ranks_before(a: &RankedFile, b: &RankedFile) -> (r: bool)
    ensures
        r == rank_before(*a, *b),
{
    if a.score != b.score {
        return a.score > b.score;
    }
    let pa = chars_of(a.file_path.as_str());
    let pb = chars_of(b.file_path.as_str());
    seq_less_exec(pa.as_slice(), pb.as_slice())
}

/// The rank order of ranked files: descending score, then ascending path.
struct RankOrder;

impl SortOrder<RankedFile> for RankOrder {
    open spec fn before(a: RankedFile, b: RankedFile) -> bool {
        rank_before(a, b)
    }

    proof fn lemma_order(x: RankedFile, a: RankedFile, b: RankedFile) {
        lemma_rank_order(x, a, b);
    }

    fn goes_before(a: &RankedFile, b: &RankedFile) -> (r: bool) {
        ranks_before(a, b)
    }
}

/// The files in rank order: descending score, then ascending path.
pub fn sort_ranked(files: &Vec<RankedFile>) -> (r: Vec<RankedFile>)
    ensures
        rank_sorted(r@),
        r@.to_multiset() == files@.to_multiset(),
{
    let mut copies: Vec<RankedFile> = Vec::new();
    let mut i: usize = 0;
    while i < files.len()
        invariant
            i <= files@.len(),
            copies@ == files@.take(i as int),
        decreases files.len() - i,
    {
        copies.push(files[i].duplicate());
        assert(copies@ =~= files@.take(i + 1));
        i = i + 1;
    }
    assert(copies@ =~= files@);
    let r = merge_sort::<RankedFile, RankOrder>(copies);
    assert forall|i: int, j: int| 0 <= i < j < r@.len() implies !rank_before(
        #[trigger] r@[j],
        #[trigger] r@[i],
    ) by {
        assert(!RankOrder::before(r@[j], r@[i]));
    }
    r
}

/// Every inventory file scored and ranked: descending score, then path. An
/// error names the first parsed file that is not in the inventory.
pub fn rank_files(inventory: &Vec<InventoryFile>, parsed: &Vec<ParsedFile>) -> (r: Result<
    Vec<RankedFile>,
    String,
>)
    requires
        forall|i: int|
            0 <= i < inventory@.len() ==> statement_count(parsed@, #[trigger] inventory@[i].path@)
                + import_count(parsed@, inventory@[i].path@) <= usize::MAX,
    ensures
        match r {
            Err(e) => first_missing(inventory_paths(inventory@), parsed@) matches Some(k) && e@
                == "missing file node for "@ + parsed@[k].path@,
            Ok(ranked) => first_missing(inventory_paths(inventory@), parsed@) is None
                && rank_sorted(ranked@) && ranked@.to_multiset() == ranked_entries(
                inventory@,
                parsed@,
            ).to_multiset(),
        },
{
    let stats = match file_stats(inventory, parsed) {
        Ok(s) => s,
        Err(e) => return Err(e),
    };
    let ghost pairs = import_pairs(inventory_paths(inventory@), parsed@);
    let mut entries: Vec<RankedFile> = Vec::new();
    let mut k: usize = 0;
    while k < stats.len()
        invariant
            k <= stats@.len(),
            stats@.len() == inventory@.len(),
            pairs == import_pairs(inventory_paths(inventory@), parsed@),
            forall|i: int|
                0 <= i < inventory@.len() ==> stats_match(
                    #[trigger] stats@[i],
                    inventory@[i].path@,
                    pairs,
                    parsed@,
                ),
            entries@.len() == k,
            forall|i: int|
                0 <= i < k ==> #[trigger] entries@[i] == ranked_entry(inventory@[i], pairs, parsed@),
        decreases stats.len() - k,
    {
        let s = &stats[k];
        let score = file_score(s);
        entries.push(
            RankedFile {
                file_path: inventory[k].path.clone(),
                score,
                inbound_refs: s.inbound_refs,
                outbound_refs: s.outbound_refs,
                definitions: s.definitions,
                is_entrypoint: s.is_entrypoint,
            },
        );
        k = k + 1;
    }
    assert(entries@ =~= ranked_entries(inventory@, parsed@));
    Ok(sort_ranked(&entries))
}


/// How many ranked rows a top-files listing reads before filtering: `limit`
/// when tests and metadata are both shown, else twelve times as many.
pub open spec fn fetch_limit(limit: nat, include_tests: bool, include_metadata: bool) -> nat {
    if include_tests && include_metadata {
        limit
    } else if limit * 12 <= usize::MAX {
        limit * 12
    } else {
        usize::MAX as nat
    }
}

/// How many ranked rows a top-files listing reads before filtering.
pub fn top_fetch_limit(limit: usize, include_tests: bool, include_metadata: bool) -> (r: usize)
    ensures
        r == fetch_limit(limit as nat, include_tests, include_metadata),
{
    if include_tests && include_metadata {
        limit
    } else if limit <= usize::MAX / 12 {
        limit * 12
    } else {
        usize::MAX
    }
}

/// A ranked file that a top-files listing shows: tests only when asked for,
/// configuration and documentation only when asked for.
pub open spec fn shown_in_top(f: RankedFile, include_tests: bool, include_metadata: bool) -> bool {
    (include_tests || !test_path(f.file_path@)) && (include_metadata || !config_or_docs_path(
        f.file_path@,
    ))
}

/// The rows that a top-files listing shows, in order.
pub open spec fn shown_rows(rows: Seq<RankedFile>, include_tests: bool, include_metadata: bool) -> Seq<
    RankedFile,
>
    decreases rows.len(),
{
    if rows.len() == 0 {
        Seq::empty()
    } else {
        let prev = shown_rows(rows.drop_last(), include_tests, include_metadata);
        if shown_in_top(rows.last(), include_tests, include_metadata) {
            prev.push(rows.last())
        } else {
            prev
        }
    }
}

/// The top files from ranked rows in rank order: the rows within the fetch
/// limit, without hidden files, at most `limit` of them.
pub open spec fn top_selection(
    rows: Seq<RankedFile>,
    limit: nat,
    include_tests: bool,
    include_metadata: bool,
) -> Seq<RankedFile> {
    let fetched = rows.take(
        if rows.len() < fetch_limit(limit, include_tests, include_metadata) {
            rows.len() as int
        } else {
            fetch_limit(limit, include_tests, include_metadata) as int
        },
    );
    let shown = shown_rows(fetched, include_tests, include_metadata);
    shown.take(
        if shown.len() < limit {
            shown.len() as int
        } else {
            limit as int
        },
    )
}

/// Whether a ranked file is shown in a top-files listing.
pub fn is_shown_in_top(f: &RankedFile, include_tests: bool, include_metadata: bool) -> (r: bool)
    ensures
        r == shown_in_top(*f, include_tests, include_metadata),
{
    (include_tests || !is_test_path(f.file_path.as_str())) && (include_metadata
        || !is_config_or_docs_path(f.file_path.as_str()))
}

/// The top files of ranked rows given in rank order.
pub fn select_top_files(
    rows: &Vec<RankedFile>,
    limit: usize,
    include_tests: bool,
    include_metadata: bool,
) -> (r: Vec<RankedFile>)
    ensures
        r@ == top_selection(rows@, limit as nat, include_tests, include_metadata),
{
    let fetch = top_fetch_limit(limit, include_tests, include_metadata);
    let n = if rows.len() < fetch {
        rows.len()
    } else {
        fetch
    };
    let ghost fetched = rows@.take(n as int);
    let mut shown: Vec<RankedFile> = Vec::new();
    let mut i: usize = 0;
    while i < n
        invariant
            n <= rows@.len(),
            fetched == rows@.take(n as int),
            i <= n,
            shown@ == shown_rows(fetched.take(i as int), include_tests, include_metadata),
        decreases n - i,
    {
        assert(fetched.take(i + 1).drop_last() =~= fetched.take(i as int));
        if is_shown_in_top(&rows[i], include_tests, include_metadata) {
            shown.push(rows[i].duplicate());
        }
        i = i + 1;
    }
    assert(fetched.take(n as int) =~= fetched);
    let ghost all_shown = shown@;
    let m = if shown.len() < limit {
        shown.len()
    } else {
        limit
    };
    shown.truncate(m);
    assert(shown@ =~= all_shown.take(m as int));
    shown
}


/// How many files a top-files listing shows by default.
pub const DEFAULT_LIMIT: usize = 20;

/// How many files a top-files listing shows by default.
pub fn default_limit() -> (r: usize)
    ensures
        r == DEFAULT_LIMIT,
{
    DEFAULT_LIMIT
}

/// The note under a full top-files listing: the limit, and what was left out.
pub open spec fn top_files_note(limit: nat, include_tests: bool, include_metadata: bool) -> Seq<
    char,
> {
    let first = "showing top "@ + crate::text::decimal(limit) + " code files — use --limit to change"@;
    let with_tests = if include_tests {
        first
    } else {
        first + " · "@ + "tests excluded (use --include-tests)"@
    };
    if include_metadata {
        with_tests
    } else {
        with_tests + " · "@ + "docs/config excluded (use --include-metadata)"@
    }
}

/// The note under a top-files listing that shows `shown` files: only when it
/// is full.
pub fn top_files_notes(shown: usize, limit: usize, include_tests: bool, include_metadata: bool) -> (r:
    Option<String>)
    ensures
        shown != limit ==> r is None,
        shown == limit ==> (r matches Some(n) && n@ == top_files_note(
            limit as nat,
            include_tests,
            include_metadata,
        )),
{
    if shown != limit {
        return None;
    }
    let mut out = chars_of("showing top ");
    let d = crate::text::decimal_exec(limit);
    append_chars(&mut out, d.as_slice());
    crate::text::push_str(&mut out, " code files — use --limit to change");
    if !include_tests {
        crate::text::push_str(&mut out, " · ");
        crate::text::push_str(&mut out, "tests excluded (use --include-tests)");
    }
    if !include_metadata {
        crate::text::push_str(&mut out, " · ");
        crate::text::push_str(&mut out, "docs/config excluded (use --include-metadata)");
    }
    Some(string_of(out.as_slice()))
}

} // verus!

verus! {

proof fn lemma_shown_rows(rows: Seq<RankedFile>, include_tests: bool, include_metadata: bool)
    ensures
        ({
            let s = shown_rows(rows, include_tests, include_metadata);
            &&& s.len() <= rows.len()
            &&& forall|i: int|
                0 <= i < s.len() ==> shown_in_top(#[trigger] s[i], include_tests, include_metadata)
                    && exists|k: int| 0 <= k < rows.len() && rows[k] == s[i]
            &&& rank_sorted(rows) ==> rank_sorted(s)
        }),
    decreases rows.len(),
{
    if rows.len() > 0 {
        let init = rows.drop_last();
        lemma_shown_rows(init, include_tests, include_metadata);
        let prev = shown_rows(init, include_tests, include_metadata);
        let s = shown_rows(rows, include_tests, include_metadata);
        assert forall|i: int| 0 <= i < s.len() implies shown_in_top(
            #[trigger] s[i],
            include_tests,
            include_metadata,
        ) && exists|k: int| 0 <= k < rows.len() && rows[k] == s[i] by {
            if i < prev.len() {
                assert(s[i] == prev[i]);
                let k = choose|k: int| 0 <= k < init.len() && init[k] == prev[i];
                assert(rows[k] == s[i]);
            } else {
                assert(rows[rows.len() - 1] == s[i]);
            }
        }
        if rank_sorted(rows) {
            assert(rank_sorted(init));
            assert forall|i: int, j: int| 0 <= i < j < s.len() implies !rank_before(
                #[trigger] s[j],
                #[trigger] s[i],
            ) by {
                if j < prev.len() {
                    assert(s[i] == prev[i] && s[j] == prev[j]);
                } else {
                    assert(s[j] == rows[rows.len() - 1]);
                    assert(s[i] == prev[i]);
                    let k = choose|k: int| 0 <= k < init.len() && init[k] == prev[i];
                    assert(rows[k] == s[i]);
                }
            }
        }
    }
}

/// A top-files listing shows at most `limit` ranked rows, never a test file
/// unless tests are asked for nor a documentation or configuration file
/// unless metadata is asked for, and keeps the rank order of the rows.
pub proof fn law_top_files_shown(
    rows: Seq<RankedFile>,
    limit: nat,
    include_tests: bool,
    include_metadata: bool,
)
    ensures
        ({
            let t = top_selection(rows, limit, include_tests, include_metadata);
            &&& t.len() <= limit
            &&& forall|i: int|
                0 <= i < t.len() ==> (include_tests || !test_path((#[trigger] t[i]).file_path@))
                    && (include_metadata || !config_or_docs_path(t[i].file_path@))
                    && rows.contains(t[i])
            &&& rank_sorted(rows) ==> rank_sorted(t)
        }),
{
    let f = fetch_limit(limit, include_tests, include_metadata);
    let n: int = if rows.len() < f {
        rows.len() as int
    } else {
        f as int
    };
    let fetched = rows.take(n);
    lemma_shown_rows(fetched, include_tests, include_metadata);
    let shown = shown_rows(fetched, include_tests, include_metadata);
    let t = top_selection(rows, limit, include_tests, include_metadata);
    let m: int = if shown.len() < limit {
        shown.len() as int
    } else {
        limit as int
    };
    assert(t == shown.take(m));
    assert forall|i: int| 0 <= i < t.len() implies (include_tests || !test_path(
        (#[trigger] t[i]).file_path@,
    )) && (include_metadata || !config_or_docs_path(t[i].file_path@)) && rows.contains(t[i]) by {
        assert(t[i] == shown[i]);
        assert(shown_in_top(shown[i], include_tests, include_metadata));
        let k = choose|k: int| 0 <= k < fetched.len() && fetched[k] == shown[i];
        assert(rows[k] == t[i]);
    }
    if rank_sorted(rows) {
        assert(rank_sorted(fetched));
        assert(rank_sorted(shown));
        assert forall|i: int, j: int| 0 <= i < j < t.len() implies !rank_before(
            #[trigger] t[j],
            #[trigger] t[i],
        ) by {
            assert(t[i] == shown[i] && t[j] == shown[j]);
        }
    }
}

} // verus!

verus! {

/// Of two files with the same path kind, entrypoint status and counts, the
/// one that more files import (or that imports or defines more) scores
/// strictly higher.
pub proof fn law_references_raise_score(
    inbound: nat,
    outbound: nat,
    definitions: nat,
    more_inbound: nat,
    more_outbound: nat,
    more_definitions: nat,
    entry: bool,
    path: Seq<char>,
)
    requires
        inbound <= more_inbound,
        outbound <= more_outbound,
        definitions <= more_definitions,
        inbound + outbound + definitions < more_inbound + more_outbound + more_definitions,
    ensures
        score_micros(inbound as int, outbound as int, definitions as int, entry, path)
            < score_micros(
            more_inbound as int,
            more_outbound as int,
            more_definitions as int,
            entry,
            path,
        ),
{
    let w1 = file_weight(inbound as int, outbound as int, definitions as int, entry);
    let w2 = file_weight(more_inbound as int, more_outbound as int, more_definitions as int, entry);
    let u = score_unit(path);
    assert(u >= 125);
    assert(w1 < w2);
    assert(w1 * u < w2 * u) by (nonlinear_arith)
        requires
            w1 < w2,
            u > 0,
    ;
}

} // verus!

verus! {

/// A score in millionths rounded to whole points, halves up (as `f64::round`
/// rounds a non-negative score).
pub open spec fn nearest_points(m: nat) -> nat {
    (m + 500_000) / 1_000_000
}

/// A score in millionths rounded to whole points, halves up.
pub fn score_points(m: u128) -> (r: u128)
    ensures
        r as nat == nearest_points(m as nat),
{
    let q = m / 1_000_000;
    let rem = m % 1_000_000;
    assert(m == q * 1_000_000 + rem);
    if rem >= 500_000 {
        assert((m + 500_000) / 1_000_000 == q + 1) by (nonlinear_arith)
            requires
                m == q * 1_000_000 + rem,
                500_000 <= rem < 1_000_000,
        ;
        q + 1
    } else {
        assert((m + 500_000) / 1_000_000 == q) by (nonlinear_arith)
            requires
                m == q * 1_000_000 + rem,
                0 <= rem < 500_000,
        ;
        q
    }
}

} // verus!

verus! {

/// A path of the inventory (by its text).
pub open spec fn listed(paths: Seq<String>, p: Seq<char>) -> bool {
    exists|i: int| 0 <= i < paths.len() && #[trigger] paths[i]@ == p
}

proof fn lemma_suffix_first_listed(paths: Seq<String>, k: Seq<char>)
    ensures
        suffix_first(paths, k) matches Some(p) ==> listed(paths, p),
    decreases paths.len(),
{
    if paths.len() > 0 {
        lemma_suffix_first_listed(paths.drop_first(), k);
        if let Some(p) = suffix_first(paths.drop_first(), k) {
            if !(slashed(paths[0]@) == k || last_segment(slashed(paths[0]@), '/') == k) {
                let i = choose|i: int| 0 <= i < paths.drop_first().len() && paths.drop_first()[i]@ == p;
                assert(paths[i + 1]@ == p);
            }
        }
        if slashed(paths[0]@) == k || last_segment(slashed(paths[0]@), '/') == k {
            assert(paths[0]@ == paths[0]@);
        }
    }
}

proof fn lemma_shortest_ending_listed(paths: Seq<String>, k: Seq<char>)
    ensures
        shortest_ending(paths, k) matches Some(p) ==> listed(paths, p),
    decreases paths.len(),
{
    if paths.len() > 0 {
        lemma_shortest_ending_listed(paths.drop_last(), k);
        let last = paths.len() - 1;
        assert(paths[last]@ == paths.last()@);
        if let Some(b) = shortest_ending(paths.drop_last(), k) {
            let i = choose|i: int| 0 <= i < paths.drop_last().len() && paths.drop_last()[i]@ == b;
            assert(paths[i]@ == b);
        }
    }
}

proof fn lemma_try_candidates_listed(paths: Seq<String>, c: Seq<char>)
    ensures
        try_candidates(paths, c) matches Some(p) ==> listed(paths, p),
{
    lemma_suffix_first_listed(paths, slashed(c));
    lemma_shortest_ending_listed(paths, slashed(c));
}

/// Imports resolve only to files of the inventory: whatever an import target
/// resolves to is one of the inventory's paths.
pub proof fn law_imports_resolve_to_inventory(
    paths: Seq<String>,
    source: Seq<char>,
    target: Seq<char>,
)
    ensures
        resolve_target(paths, source, target) matches Some(p) ==> listed(paths, p),
{
    let t = strip_quotes(trim(target));
    let n = slashed(t);
    if exact_has(paths, t) {
        let i = choose|i: int| 0 <= i < paths.len() && #[trigger] paths[i]@ == t;
        assert(paths[i]@ == t);
    }
    if relative_target(source, n) is Some {
        lemma_try_candidates_listed(paths, relative_target(source, n)->0);
    }
    lemma_try_candidates_listed(paths, n);
    lemma_suffix_first_listed(paths, slashed(n));
    lemma_shortest_ending_listed(paths, slashed(n));
    let pp = replace_char(n, '.', '/');
    lemma_try_candidates_listed(paths, pp + ".py"@);
    lemma_try_candidates_listed(paths, pp + "/__init__.py"@);
    lemma_try_candidates_listed(paths, n + ".ts"@);
    lemma_try_candidates_listed(paths, n + ".tsx"@);
    lemma_try_candidates_listed(paths, n + ".js"@);
    lemma_try_candidates_listed(paths, n + ".jsx"@);
    lemma_try_candidates_listed(paths, n + "/index.ts"@);
    lemma_try_candidates_listed(paths, n + "/index.js"@);
}

} // verus!

verus! {

/// Every inventory file is ranked, and so is every parsed file when the
/// ranking succeeds: some ranked row has its path.
pub proof fn law_ranking_covers_files(
    inventory: Seq<InventoryFile>,
    parsed: Seq<ParsedFile>,
    ranked: Seq<RankedFile>,
)
    requires
        first_missing(inventory_paths(inventory), parsed) is None,
        ranked.to_multiset() == ranked_entries(inventory, parsed).to_multiset(),
    ensures
        forall|j: int|
            0 <= j < inventory.len() ==> exists|k: int|
                0 <= k < ranked.len() && ranked[k].file_path@ == (#[trigger] inventory[j]).path@,
        forall|i: int|
            0 <= i < parsed.len() ==> exists|k: int|
                0 <= k < ranked.len() && ranked[k].file_path@ == (#[trigger] parsed[i]).path@,
{
    broadcast use vstd::seq_lib::group_to_multiset_ensures;

    let paths = inventory_paths(inventory);
    let entries = ranked_entries(inventory, parsed);
    assert forall|j: int| 0 <= j < inventory.len() implies exists|k: int|
        0 <= k < ranked.len() && ranked[k].file_path@ == (#[trigger] inventory[j]).path@ by {
        assert(entries[j].file_path == inventory[j].path);
        assert(entries.contains(entries[j]));
        assert(entries.to_multiset().count(entries[j]) > 0);
        assert(ranked.to_multiset().count(entries[j]) > 0);
        assert(ranked.contains(entries[j]));
        let k = choose|k: int| 0 <= k < ranked.len() && ranked[k] == entries[j];
        assert(ranked[k].file_path@ == inventory[j].path@);
    }
    assert(parsed_in_inventory(paths, parsed));
    assert forall|i: int| 0 <= i < parsed.len() implies exists|k: int|
        0 <= k < ranked.len() && ranked[k].file_path@ == (#[trigger] parsed[i]).path@ by {
        assert(exact_has(paths, parsed[i].path@));
        let j = choose|j: int| 0 <= j < paths.len() && #[trigger] paths[j]@ == parsed[i].path@;
        assert(paths[j] == inventory[j].path);
        assert(exists|k: int| 0 <= k < ranked.len() && ranked[k].file_path@ == inventory[j].path@);
    }
}


/// An extensionless, non-relative import with no exact, suffix, Python,
/// `.ts` or `.tsx` match resolves to the JavaScript file of that name when the
/// inventory holds one.
pub proof fn law_javascript_module_resolves(paths: Seq<String>, source: Seq<char>, target: Seq<char>)
    requires
        ({
            let t = strip_quotes(trim(target));
            let n = slashed(t);
            let pp = replace_char(n, '.', '/');
            &&& t.len() > 0
            &&& !exact_has(paths, t)
            &&& !starts_with(n, "./"@)
            &&& !starts_with(n, "../"@)
            &&& !ends_with(n, ".py"@)
            &&& !ends_with(n, ".go"@)
            &&& find_suffix(paths, n) is None
            &&& try_candidates(paths, pp + ".py"@) is None
            &&& try_candidates(paths, pp + "/__init__.py"@) is None
            &&& try_candidates(paths, n + ".ts"@) is None
            &&& try_candidates(paths, n + ".tsx"@) is None
            &&& listed(paths, n + ".js"@)
        }),
    ensures
        resolve_target(paths, source, target) == Some(slashed(strip_quotes(trim(target))) + ".js"@),
{
}

} // verus!
