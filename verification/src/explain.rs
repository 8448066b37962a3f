//! Explanations of a topic: the evidence (cited files, entrypoints, wiring,
//! flows) and the prose built from it.
use vstd::prelude::*;

use crate::architecture::{key_of, subsystem_key, ArchitectureReport, Subsystem};
use crate::learn::{
    best_match, build_learning_path, empty_subsystem_message, find_subsystem, learn_candidates,
    learn_reason, learn_sorted, no_match_message, normalized_topic, LearnStep,
};
use crate::graph::{rank_before, rank_sorted, sort_ranked};
use crate::paths::{excluded_from_clustering, is_excluded_from_clustering};
use crate::flow::{file_seeds, lemma_best_seed_traces, law_trace_in_parsed_files, parsed_path};
use crate::flow::{
    best_seed, compress_flow_steps, compressed, extract_flow, flow_query, flow_score_in,
    flow_subsystem_score, length_term, records_of, seeds_of, steps_in_subsystem, subsystem_base_score,
    traced, FlowResult, FlowStep,
};
use crate::graph::RankedFile;
use crate::parse::{Definition, ParseOutput, ParsedFile};
use crate::paths::{is_test_path, test_path};
use crate::snippets::{anchor, resolve_anchor, snippet_from_source, snippet_of, FileSnippet};
use crate::snippets::text_lines;
use crate::text::{
    append_chars, chars_of, contains, contains_lit, contains_seq, decimal, decimal_exec,
    decimal_wide, ends_with, ends_with_lit, eq_lit, is_ws, is_ws_exec, last_segment,
    join, join_exec, last_segment_exec, lower_chars, lower_text, push_str, replace_char, replace_char_exec, seq_eq,
    starts_with, string_of,
};
use crate::architecture::views;

verus! {

/// At most this many files are cited.
pub const MAX_CITATIONS: usize = 8;

/// At most this many citations get a snippet.
pub const MAX_SNIPPETS: usize = 5;

/// How a topic was matched.
#[derive(Debug, Clone, Copy, PartialEq, Eq, Structural)]
pub enum ExplainMatchKind {
    Subsystem,
    Flow,
    Path,
}

/// A cited file, with its score in millionths of a point.
#[derive(Debug)]
pub struct ExplainCitation {
    pub path: String,
    pub role: String,
    pub score: u128,
    pub inbound_refs: usize,
    pub anchor_line: Option<usize>,
    pub anchor_symbol: Option<String>,
    pub snippet: Option<FileSnippet>,
}

/// Everything an explanation is built from.
#[derive(Debug)]
pub struct ExplainEvidence {
    pub topic: String,
    pub repository_name: String,
    pub match_kind: ExplainMatchKind,
    pub flow_seed: Option<String>,
    pub subsystem_name: String,
    pub subsystem_key: String,
    pub file_count: usize,
    pub internal_links: usize,
    pub citations: Vec<ExplainCitation>,
    pub entrypoints: Vec<String>,
    pub wiring_hints: Vec<String>,
    pub execution_flow: Vec<String>,
    pub purpose: Vec<String>,
    pub request_walkthrough: Vec<String>,
}

/// One file of the overview's reading order.
#[derive(Debug)]
pub struct OverviewReadingStep {
    pub path: String,
    pub detail: String,
}

/// The overview paragraph lines and reading order of an explanation.
#[derive(Debug)]
pub struct ExplainOverview {
    pub summary_lines: Vec<String>,
    pub reading_steps: Vec<OverviewReadingStep>,
}

/// The longest prefix of `s` without whitespace.
pub open spec fn leading_word(s: Seq<char>) -> Seq<char>
    decreases s.len(),
{
    if s.len() == 0 || is_ws(s[0]) {
        Seq::empty()
    } else {
        seq![s[0]] + leading_word(s.drop_first())
    }
}

/// The leading word is a prefix of non-whitespace characters, ended by whitespace or the end.
pub proof fn lemma_leading_word(s: Seq<char>)
    ensures
        leading_word(s).len() <= s.len(),
        leading_word(s) == s.take(leading_word(s).len() as int),
        leading_word(s).len() < s.len() ==> is_ws(s[leading_word(s).len() as int]),
        forall|k: int| 0 <= k < leading_word(s).len() ==> !is_ws(#[trigger] s[k]),
    decreases s.len(),
{
    if s.len() > 0 && !is_ws(s[0]) {
        lemma_leading_word(s.drop_first());
        assert(leading_word(s) =~= s.take(leading_word(s).len() as int));
        assert forall|k: int| 0 <= k < leading_word(s).len() implies !is_ws(#[trigger] s[k]) by {
            if k > 0 {
                assert(s[k] == s.drop_first()[k - 1]);
            }
        }
    }
}

/// The first whitespace-separated word of `s` that starts with `/`.
pub open spec fn first_slash_word(s: Seq<char>) -> Option<Seq<char>>
    decreases s.len(),
{
    if s.len() == 0 {
        None
    } else if is_ws(s[0]) {
        first_slash_word(s.drop_first())
    } else if s[0] == '/' {
        Some(leading_word(s))
    } else {
        proof {
            lemma_leading_word(s);
        }
        first_slash_word(s.skip(leading_word(s).len() as int))
    }
}

/// The URL path of a route definition name: its first word starting with
/// `/`, else the name itself when it starts with `/`, else the name after `/`.
pub open spec fn route_path_of(name: Seq<char>) -> Seq<char> {
    match first_slash_word(name) {
        Some(w) => w,
        None => if starts_with(name, "/"@) {
            name
        } else {
            "/"@ + name
        },
    }
}

/// The URL path of a route definition name (`route.post /login` gives `/login`).
pub fn normalize_route_path(route_name: &str) -> (r: String)
    ensures
        r@ == route_path_of(route_name@),
{
    let s = chars_of(route_name);
    let mut i: usize = 0;
    assert(s@.skip(0) =~= s@);
    while i < s.len()
        invariant
            i <= s@.len(),
            s@ == route_name@,
            first_slash_word(s@) == first_slash_word(s@.skip(i as int)),
        decreases s.len() - i,
    {
        let ghost rest = s@.skip(i as int);
        if is_ws_exec(s[i]) {
            assert(rest.drop_first() =~= s@.skip(i + 1));
            i = i + 1;
        } else {
            let mut j: usize = i;
            while j < s.len() && !is_ws_exec(s[j])
                invariant
                    i <= j <= s@.len(),
                    forall|k: int| i <= k < j ==> !is_ws(#[trigger] s@[k]),
                decreases s.len() - j,
            {
                j = j + 1;
            }
            proof {
                lemma_leading_word(rest);
                let n = leading_word(rest).len() as int;
                if n < j - i {
                    assert(!is_ws(s@[i + n]));
                    assert(rest[n] == s@[i + n]);
                } else if n > j - i {
                    assert(rest[j - i] == s@[j as int]);
                    assert(!is_ws(rest[j - i]));
                }
                assert(n == j - i);
                assert(leading_word(rest) =~= s@.subrange(i as int, j as int));
                assert(rest.skip(n) =~= s@.skip(j as int));
            }
            if s[i] == '/' {
                let mut w: Vec<char> = Vec::new();
                let mut k: usize = i;
                while k < j
                    invariant
                        i <= k <= j <= s@.len(),
                        w@ == s@.subrange(i as int, k as int),
                    decreases j - k,
                {
                    w.push(s[k]);
                    assert(w@ =~= s@.subrange(i as int, k + 1));
                    k = k + 1;
                }
                return string_of(w.as_slice());
            }
            i = j;
        }
    }
    proof {
        reveal_strlit("/");
        assert(s@.skip(s@.len() as int) =~= Seq::<char>::empty());
    }
    if s.len() > 0 && s[0] == '/' {
        return String::from_str(route_name);
    }
    let mut out = chars_of("/");
    append_chars(&mut out, s.as_slice());
    string_of(out.as_slice())
}

/// The HTTP method a query suggests: `POST` for login, logout and register,
/// `GET` for get, else `REQUEST`.
pub open spec fn query_method(query: Seq<char>) -> Seq<char> {
    let q = lower_text(query);
    if contains(q, "logout"@) || contains(q, "login"@) || contains(q, "register"@) {
        "POST"@
    } else if contains(q, "get"@) {
        "GET"@
    } else {
        "REQUEST"@
    }
}

/// A route shown as `METHOD /path`.
pub open spec fn http_route(query: Seq<char>, route: Seq<char>) -> Seq<char> {
    query_method(query) + " "@ + route_path_of(route)
}

/// A route shown as `METHOD /path`, the method guessed from the query.
pub fn format_http_route(query: &str, route_path: &str) -> (r: String)
    ensures
        r@ == http_route(query@, route_path@),
{
    let path = normalize_route_path(route_path);
    let q = lower_chars(query);
    let method = if contains_lit(q.as_slice(), "logout") || contains_lit(q.as_slice(), "login")
        || contains_lit(q.as_slice(), "register") {
        "POST"
    } else if contains_lit(q.as_slice(), "get") {
        "GET"
    } else {
        "REQUEST"
    };
    let mut out = chars_of(method);
    let sp = chars_of(" ");
    append_chars(&mut out, sp.as_slice());
    let pc = chars_of(path.as_str());
    append_chars(&mut out, pc.as_slice());
    string_of(out.as_slice())
}

/// `s` without its leading `c` characters.
pub open spec fn trim_start_char(s: Seq<char>, c: char) -> Seq<char>
    decreases s.len(),
{
    if s.len() > 0 && s[0] == c {
        trim_start_char(s.drop_first(), c)
    } else {
        s
    }
}

/// A route matches a query when one contains the other (lowercased, the
/// route's leading slashes dropped for the second test).
pub open spec fn route_matches(route: Seq<char>, query: Seq<char>) -> bool {
    let rl = lower_text(route);
    let ql = lower_text(query);
    contains(rl, ql) || contains(ql, trim_start_char(rl, '/'))
}

/// Whether a route name matches a query.
pub fn route_matches_query(route_path: &str, query: &str) -> (r: bool)
    ensures
        r == route_matches(route_path@, query@),
{
    let rl = lower_chars(route_path);
    let ql = lower_chars(query);
    if contains_seq(rl.as_slice(), ql.as_slice()) {
        return true;
    }
    let mut i: usize = 0;
    assert(rl@.skip(0) =~= rl@);
    while i < rl.len() && rl[i] == '/'
        invariant
            i <= rl@.len(),
            trim_start_char(rl@, '/') == trim_start_char(rl@.skip(i as int), '/'),
        decreases rl.len() - i,
    {
        assert(rl@.skip(i as int).drop_first() =~= rl@.skip(i + 1));
        i = i + 1;
    }
    let mut rest: Vec<char> = Vec::new();
    let mut k: usize = i;
    while k < rl.len()
        invariant
            i <= k <= rl@.len(),
            rest@ == rl@.subrange(i as int, k as int),
        decreases rl.len() - k,
    {
        rest.push(rl[k]);
        assert(rest@ =~= rl@.subrange(i as int, k + 1));
        k = k + 1;
    }
    assert(rest@ =~= rl@.skip(i as int));
    contains_seq(ql.as_slice(), rest.as_slice())
}

/// `s` without every trailing copy of `suffix`.
pub open spec fn trim_end_all(s: Seq<char>, suffix: Seq<char>) -> Seq<char>
    decreases s.len(),
{
    if suffix.len() > 0 && ends_with(s, suffix) {
        trim_end_all(s.subrange(0, s.len() - suffix.len()), suffix)
    } else {
        s
    }
}

fn trim_end_all_exec(s: &[char], suffix: &str) -> (r: Vec<char>)
    ensures
        r@ == trim_end_all(s@, suffix@),
{
    let suf = chars_of(suffix);
    let mut end: usize = s.len();
    let mut cur: Vec<char> = Vec::new();
    let mut k: usize = 0;
    while k < s.len()
        invariant
            k <= s@.len(),
            cur@ == s@.subrange(0, k as int),
        decreases s.len() - k,
    {
        cur.push(s[k]);
        assert(cur@ =~= s@.subrange(0, k + 1));
        k = k + 1;
    }
    assert(cur@ =~= s@);
    while suf.len() > 0 && crate::text::ends_with_seq(cur.as_slice(), suf.as_slice())
        invariant
            suf@ == suffix@,
            trim_end_all(cur@, suf@) == trim_end_all(s@, suf@),
        decreases cur@.len(),
    {
        let n = cur.len() - suf.len();
        let ghost before = cur@;
        cur.truncate(n);
        assert(cur@ =~= before.subrange(0, before.len() - suf@.len()));
    }
    cur
}

/// A short label for a file: its name without `.py`, `.ts` and `.go` endings.
pub open spec fn stem_label(path: Seq<char>) -> Seq<char> {
    let name = last_segment(replace_char(path, '\\', '/'), '/');
    trim_end_all(trim_end_all(trim_end_all(name, ".py"@), ".ts"@), ".go"@)
}

/// A short label for a file path.
pub fn file_stem_label(path: &str) -> (r: String)
    ensures
        r@ == stem_label(path@),
{
    let cs = chars_of(path);
    let n = replace_char_exec(cs.as_slice(), '\\', '/');
    let name = last_segment_exec(n.as_slice(), '/');
    let a = trim_end_all_exec(name.as_slice(), ".py");
    let b = trim_end_all_exec(a.as_slice(), ".ts");
    let c = trim_end_all_exec(b.as_slice(), ".go");
    string_of(c.as_slice())
}

/// The first class definition satisfying `middleware_only` (a name ending in
/// `Middleware`) or, failing that, any class.
pub open spec fn first_class(defs: Seq<Definition>, middleware_only: bool) -> Option<Seq<char>>
    decreases defs.len(),
{
    if defs.len() == 0 {
        None
    } else if defs[0].kind@ == "class"@ && (!middleware_only || ends_with(
        defs[0].name@,
        "Middleware"@,
    )) {
        Some(defs[0].name@)
    } else {
        first_class(defs.drop_first(), middleware_only)
    }
}

/// The class a file is about: its first `...Middleware` class, else its first class.
pub open spec fn primary_class(defs: Seq<Definition>) -> Option<Seq<char>> {
    if first_class(defs, true) is Some {
        first_class(defs, true)
    } else {
        first_class(defs, false)
    }
}

fn find_class(defs: &Vec<Definition>, middleware_only: bool) -> (r: Option<String>)
    ensures
        match r {
            None => first_class(defs@, middleware_only) is None,
            Some(n) => first_class(defs@, middleware_only) == Some(n@),
        },
{
    let mut i: usize = 0;
    assert(defs@.skip(0) =~= defs@);
    while i < defs.len()
        invariant
            i <= defs@.len(),
            first_class(defs@, middleware_only) == first_class(defs@.skip(i as int), middleware_only),
        decreases defs.len() - i,
    {
        assert(defs@.skip(i as int)[0] == defs@[i as int]);
        let d = &defs[i];
        let kc = chars_of(d.kind.as_str());
        let nc = chars_of(d.name.as_str());
        if eq_lit(kc.as_slice(), "class") && (!middleware_only || ends_with_lit(
            nc.as_slice(),
            "Middleware",
        )) {
            return Some(d.name.clone());
        }
        assert(defs@.skip(i as int).drop_first() =~= defs@.skip(i + 1));
        i = i + 1;
    }
    None
}

/// The class a parsed file is about.
pub fn primary_class_name(parsed: &ParsedFile) -> (r: Option<String>)
    ensures
        match r {
            None => primary_class(parsed.definitions@) is None,
            Some(n) => primary_class(parsed.definitions@) == Some(n@),
        },
{
    match find_class(&parsed.definitions, true) {
        Some(n) => Some(n),
        None => find_class(&parsed.definitions, false),
    }
}

/// How likely a file is to wire an application together.
pub open spec fn wiring_score(path: Seq<char>) -> int {
    if test_path(path) {
        -1000
    } else if contains(replace_char(path, '\\', '/'), "applications."@) {
        100
    } else if contains(path, "main."@) {
        90
    } else if contains(path, "router"@) {
        50
    } else {
        0
    }
}

/// How likely a file is to wire an application together.
pub fn wiring_path_score(path: &str) -> (r: i32)
    ensures
        r as int == wiring_score(path@),
{
    if is_test_path(path) {
        return -1000;
    }
    let cs = chars_of(path);
    let n = replace_char_exec(cs.as_slice(), '\\', '/');
    if contains_lit(n.as_slice(), "applications.") {
        return 100;
    }
    if contains_lit(cs.as_slice(), "main.") {
        return 90;
    }
    if contains_lit(cs.as_slice(), "router") {
        return 50;
    }
    0
}

/// A definition that wires an application together.
#[derive(Debug)]
pub struct WiringSymbol {
    pub name: String,
    pub path: String,
    pub line: usize,
}

/// The best wiring definition named `name` among `defs` of `path`, given the
/// best one of earlier files: a higher or equal score replaces it.
pub open spec fn wiring_in_defs(
    acc: Option<(int, Seq<char>, usize)>,
    path: Seq<char>,
    defs: Seq<Definition>,
    name: Seq<char>,
) -> Option<(int, Seq<char>, usize)>
    decreases defs.len(),
{
    if defs.len() == 0 {
        acc
    } else {
        let prev = wiring_in_defs(acc, path, defs.drop_last(), name);
        if defs.last().name@ == name && (prev is None || wiring_score(path) >= (prev->0).0) {
            Some((wiring_score(path), path, defs.last().line))
        } else {
            prev
        }
    }
}

/// The definition named `name` in the file with the highest wiring score (the
/// last such definition on a tie), as (score, path, line).
pub open spec fn wiring_best(files: Seq<ParsedFile>, name: Seq<char>) -> Option<
    (int, Seq<char>, usize),
>
    decreases files.len(),
{
    if files.len() == 0 {
        None
    } else {
        wiring_in_defs(
            wiring_best(files.drop_last(), name),
            files.last().path@,
            files.last().definitions@,
            name,
        )
    }
}

/// The definition named `name` that most likely wires the application.
pub fn find_wiring_symbol(symbols: &ParseOutput, name: &str) -> (r: Option<WiringSymbol>)
    ensures
        match r {
            None => wiring_best(symbols.files@, name@) is None,
            Some(w) => wiring_best(symbols.files@, name@) matches Some(b) && w.name@ == name@
                && w.path@ == b.1 && w.line == b.2,
        },
{
    let nc = chars_of(name);
    let mut best: Option<WiringSymbol> = None;
    let mut best_score: i32 = 0;
    let mut i: usize = 0;
    while i < symbols.files.len()
        invariant
            i <= symbols.files@.len(),
            nc@ == name@,
            match best {
                None => wiring_best(symbols.files@.take(i as int), name@) is None,
                Some(w) => wiring_best(symbols.files@.take(i as int), name@) == Some(
                    (best_score as int, w.path@, w.line),
                ) && w.name@ == name@,
            },
        decreases symbols.files.len() - i,
    {
        assert(symbols.files@.take(i + 1).drop_last() =~= symbols.files@.take(i as int));
        let f = &symbols.files[i];
        let ghost acc = wiring_best(symbols.files@.take(i as int), name@);
        let score = wiring_path_score(f.path.as_str());
        let mut j: usize = 0;
        while j < f.definitions.len()
            invariant
                j <= f.definitions@.len(),
                nc@ == name@,
                score as int == wiring_score(f.path@),
                match best {
                    None => wiring_in_defs(acc, f.path@, f.definitions@.take(j as int), name@) is None,
                    Some(w) => wiring_in_defs(acc, f.path@, f.definitions@.take(j as int), name@)
                        == Some((best_score as int, w.path@, w.line)) && w.name@ == name@,
                },
            decreases f.definitions.len() - j,
        {
            assert(f.definitions@.take(j + 1).drop_last() =~= f.definitions@.take(j as int));
            let d = &f.definitions[j];
            let dn = chars_of(d.name.as_str());
            if seq_eq(dn.as_slice(), nc.as_slice()) {
                let replace = match &best {
                    None => true,
                    Some(_) => score >= best_score,
                };
                if replace {
                    best = Some(
                        WiringSymbol { name: d.name.clone(), path: f.path.clone(), line: d.line },
                    );
                    best_score = score;
                }
            }
            j = j + 1;
        }
        assert(f.definitions@.take(f.definitions@.len() as int) =~= f.definitions@);
        i = i + 1;
    }
    assert(symbols.files@.take(symbols.files@.len() as int) =~= symbols.files@);
    best
}


/// The entrypoints of a report that lie in subsystem `key` or at the root.
pub open spec fn entrypoints_in(entrypoints: Seq<String>, key: Seq<char>) -> Seq<Seq<char>>
    decreases entrypoints.len(),
{
    if entrypoints.len() == 0 {
        Seq::empty()
    } else {
        let prev = entrypoints_in(entrypoints.drop_last(), key);
        let e = entrypoints.last()@;
        if key_of(e) == key || key_of(e) == "(root)"@ {
            prev.push(e)
        } else {
            prev
        }
    }
}

/// The entrypoints of a report that lie in subsystem `key` or at the root.
pub fn entrypoints_for_key(report: &ArchitectureReport, key: &str) -> (r: Vec<String>)
    ensures
        views(r@) == entrypoints_in(report.entrypoints@, key@),
{
    let kc = chars_of(key);
    let mut out: Vec<String> = Vec::new();
    let mut i: usize = 0;
    while i < report.entrypoints.len()
        invariant
            i <= report.entrypoints@.len(),
            kc@ == key@,
            views(out@) == entrypoints_in(report.entrypoints@.take(i as int), key@),
        decreases report.entrypoints.len() - i,
    {
        assert(report.entrypoints@.take(i + 1).drop_last() =~= report.entrypoints@.take(i as int));
        let e = &report.entrypoints[i];
        let ek = subsystem_key(e.as_str());
        let ekc = chars_of(ek.as_str());
        if seq_eq(ekc.as_slice(), kc.as_slice()) || eq_lit(ekc.as_slice(), "(root)") {
            let ghost old_views = views(out@);
            out.push(e.clone());
            assert(views(out@) =~= old_views.push(e@));
        }
        i = i + 1;
    }
    assert(report.entrypoints@.take(report.entrypoints@.len() as int) =~= report.entrypoints@);
    out
}

/// The size line of a subsystem explanation.
pub open spec fn size_line(file_count: usize, internal_links: usize) -> Seq<char> {
    if internal_links == 0 {
        decimal(file_count as nat) + " files · no direct imports within this folder"@
    } else {
        decimal(file_count as nat) + " files · "@ + decimal(internal_links as nat)
            + " direct import link(s) within this folder"@
    }
}

/// The size line of a subsystem explanation.
pub fn subsystem_size_line(evidence: &ExplainEvidence) -> (r: String)
    ensures
        r@ == size_line(evidence.file_count, evidence.internal_links),
{
    let mut out = decimal_exec(evidence.file_count);
    if evidence.internal_links == 0 {
        push_str(&mut out, " files · no direct imports within this folder");
    } else {
        push_str(&mut out, " files · ");
        let d = decimal_exec(evidence.internal_links);
        append_chars(&mut out, d.as_slice());
        push_str(&mut out, " direct import link(s) within this folder");
    }
    string_of(out.as_slice())
}

/// The note that a subsystem without internal imports gets.
pub open spec fn wiring_note_text() -> Seq<char> {
    "Note: graph tracks import statements, not runtime wiring (e.g. middleware stacks)."@
}

/// A note on runtime wiring, for a subsystem without internal imports.
pub fn subsystem_wiring_note(evidence: &ExplainEvidence) -> (r: Option<String>)
    ensures
        match r {
            None => evidence.internal_links != 0,
            Some(n) => evidence.internal_links == 0 && n@ == wiring_note_text(),
        },
{
    if evidence.internal_links == 0 {
        Some(
            String::from_str(
                "Note: graph tracks import statements, not runtime wiring (e.g. middleware stacks).",
            ),
        )
    } else {
        None
    }
}

/// A score in millionths rounded to whole points, halves to even.
pub open spec fn rounded_points(m: nat) -> nat {
    let q = m / 1_000_000;
    let r = m % 1_000_000;
    if r > 500_000 || (r == 500_000 && q % 2 == 1) {
        q + 1
    } else {
        q
    }
}

/// A score in millionths rounded to whole points, halves to even.
pub fn round_points(m: u128) -> (r: u128)
    ensures
        r as nat == rounded_points(m as nat),
{
    let q = m / 1_000_000;
    let rem = m % 1_000_000;
    if rem > 500_000 || (rem == 500_000 && q % 2 == 1) {
        q + 1
    } else {
        q
    }
}

/// The detail of a citation in the overview's reading order.
pub open spec fn reading_detail(c: ExplainCitation, index: int) -> Seq<char> {
    let base = c.role@ + " · score "@ + decimal(rounded_points(c.score as nat));
    if index == 0 {
        base + " · "@ + decimal(c.inbound_refs as nat) + " inbound ref(s)"@
    } else {
        base
    }
}

/// The detail of a citation in the overview's reading order.
pub fn citation_reading_detail(citation: &ExplainCitation, index: usize) -> (r: String)
    ensures
        r@ == reading_detail(*citation, index as int),
{
    let mut out = chars_of(citation.role.as_str());
    push_str(&mut out, " · score ");
    let d = decimal_wide(round_points(citation.score));
    append_chars(&mut out, d.as_slice());
    if index == 0 {
        push_str(&mut out, " · ");
        let n = decimal_exec(citation.inbound_refs);
        append_chars(&mut out, n.as_slice());
        push_str(&mut out, " inbound ref(s)");
    }
    string_of(out.as_slice())
}

/// An explanation about middleware: by its subsystem key, its topic, or a
/// cited path.
pub open spec fn middleware_area(e: ExplainEvidence) -> bool {
    contains(e.subsystem_key@, "middleware"@) || contains(lower_text(e.topic@), "middleware"@)
        || exists|i: int|
        0 <= i < e.citations@.len() && contains(
            lower_text(#[trigger] e.citations@[i].path@),
            "middleware"@,
        )
}

/// Whether an explanation is about middleware.
pub fn is_middleware_area(evidence: &ExplainEvidence) -> (r: bool)
    ensures
        r == middleware_area(*evidence),
{
    let kc = chars_of(evidence.subsystem_key.as_str());
    if contains_lit(kc.as_slice(), "middleware") {
        return true;
    }
    let tl = lower_chars(evidence.topic.as_str());
    if contains_lit(tl.as_slice(), "middleware") {
        return true;
    }
    let mut i: usize = 0;
    while i < evidence.citations.len()
        invariant
            i <= evidence.citations@.len(),
            forall|k: int|
                0 <= k < i ==> !contains(
                    lower_text(#[trigger] evidence.citations@[k].path@),
                    "middleware"@,
                ),
        decreases evidence.citations.len() - i,
    {
        let pl = lower_chars(evidence.citations[i].path.as_str());
        if contains_lit(pl.as_slice(), "middleware") {
            return true;
        }
        i = i + 1;
    }
    false
}

/// The heading of the flow section of an explanation.
pub open spec fn flow_heading(e: ExplainEvidence) -> Seq<char> {
    if e.match_kind == ExplainMatchKind::Flow {
        "Request walkthrough"@
    } else if middleware_area(e) {
        "Representative middleware flow"@
    } else if e.match_kind == ExplainMatchKind::Subsystem {
        "Suggested reading flow"@
    } else {
        "Execution flow"@
    }
}

/// The heading of the flow section of an explanation.
pub fn execution_flow_heading(evidence: &ExplainEvidence) -> (r: &'static str)
    ensures
        r@ == flow_heading(*evidence),
{
    if evidence.match_kind == ExplainMatchKind::Flow {
        "Request walkthrough"
    } else if is_middleware_area(evidence) {
        "Representative middleware flow"
    } else if evidence.match_kind == ExplainMatchKind::Subsystem {
        "Suggested reading flow"
    } else {
        "Execution flow"
    }
}

/// The arrow line between the steps of a flow.
pub open spec fn arrow() -> Seq<char> {
    "    ↓"@
}

/// The first `n` citations as a reading order: `path (role)` lines joined by arrows.
pub open spec fn reading_lines(cs: Seq<ExplainCitation>, n: nat) -> Seq<Seq<char>>
    decreases n,
{
    if n == 0 {
        Seq::empty()
    } else {
        let prev = reading_lines(cs, (n - 1) as nat);
        let c = cs[n - 1];
        let line = "  "@ + c.path@ + " ("@ + c.role@ + ")"@;
        if n > 1 {
            prev.push(arrow()).push(line)
        } else {
            prev.push(line)
        }
    }
}

/// At most `limit` (or the length of `s`, if smaller).
pub open spec fn capped(len: nat, limit: nat) -> nat {
    if len < limit {
        len
    } else {
        limit
    }
}

/// The first six citations as a reading order.
pub fn reading_order_flow(evidence: &ExplainEvidence) -> (r: Vec<String>)
    ensures
        views(r@) == reading_lines(evidence.citations@, capped(evidence.citations@.len(), 6)),
{
    let mut lines: Vec<String> = Vec::new();
    let mut i: usize = 0;
    while i < evidence.citations.len() && i < 6
        invariant
            i <= evidence.citations@.len(),
            i <= 6,
            views(lines@) == reading_lines(evidence.citations@, i as nat),
        decreases evidence.citations.len() - i,
    {
        let ghost old_views = views(lines@);
        let c = &evidence.citations[i];
        let mut line = chars_of("  ");
        let pc = chars_of(c.path.as_str());
        append_chars(&mut line, pc.as_slice());
        push_str(&mut line, " (");
        let rc = chars_of(c.role.as_str());
        append_chars(&mut line, rc.as_slice());
        push_str(&mut line, ")");
        if i > 0 {
            let a = String::from_str("    ↓");
            lines.push(a);
            let l = string_of(line.as_slice());
            lines.push(l);
            assert(views(lines@) =~= old_views.push(arrow()).push(l@));
        } else {
            let l = string_of(line.as_slice());
            lines.push(l);
            assert(views(lines@) =~= old_views.push(l@));
        }
        i = i + 1;
    }
    lines
}


/// The hint for the wiring definition named `name`, if there is one.
pub open spec fn wiring_hint_for(files: Seq<ParsedFile>, name: Seq<char>) -> Seq<Seq<char>> {
    match wiring_best(files, name) {
        Some(b) => seq!["Likely wired via "@ + name + " ("@ + b.1 + ":"@ + decimal(b.2 as nat) + ")"@],
        None => Seq::empty(),
    }
}

/// The note on how middleware classes are stacked.
pub open spec fn middleware_stack_note() -> Seq<char> {
    "Middleware classes are stacked at app setup; each __call__ delegates to the next with await self.app(scope, receive, send)."@
}

/// The wiring hints of an explanation.
pub open spec fn wiring_hints_of(e: ExplainEvidence, files: Seq<ParsedFile>) -> Seq<Seq<char>> {
    let h0 = if e.entrypoints@.len() == 0 {
        seq![
            "No entrypoint files inside "@ + e.subsystem_key@
                + " — execution is wired from elsewhere."@,
        ]
    } else {
        Seq::empty()
    };
    let h1 = if middleware_area(e) {
        h0 + wiring_hint_for(files, "add_middleware"@)
    } else {
        h0 + wiring_hint_for(files, "add_middleware"@) + wiring_hint_for(files, "add_route"@)
            + wiring_hint_for(files, "mount"@) + wiring_hint_for(files, "include_router"@)
    };
    let h2 = if middleware_area(e) {
        h1.push(middleware_stack_note())
    } else {
        h1
    };
    if h2.len() == 0 && e.entrypoints@.len() > 0 {
        h2.push("Entrypoint files in this subsystem start execution here."@)
    } else {
        h2
    }
}

fn push_wiring_hint(hints: &mut Vec<String>, symbols: &ParseOutput, name: &str)
    ensures
        views(final(hints)@) == views(old(hints)@) + wiring_hint_for(symbols.files@, name@),
{
    let ghost before = views(hints@);
    if let Some(w) = find_wiring_symbol(symbols, name) {
        let mut out = chars_of("Likely wired via ");
        let nc = chars_of(w.name.as_str());
        append_chars(&mut out, nc.as_slice());
        push_str(&mut out, " (");
        let pc = chars_of(w.path.as_str());
        append_chars(&mut out, pc.as_slice());
        push_str(&mut out, ":");
        let lc = decimal_exec(w.line);
        append_chars(&mut out, lc.as_slice());
        push_str(&mut out, ")");
        let line = string_of(out.as_slice());
        hints.push(line);
        assert(views(hints@) =~= before + wiring_hint_for(symbols.files@, name@));
    } else {
        assert(views(hints@) =~= before + wiring_hint_for(symbols.files@, name@));
    }
}

/// Where execution of the explained code is wired from.
pub fn build_wiring_hints(evidence: &ExplainEvidence, symbols: &ParseOutput) -> (r: Vec<String>)
    ensures
        views(r@) == wiring_hints_of(*evidence, symbols.files@),
{
    let mut hints: Vec<String> = Vec::new();
    if evidence.entrypoints.len() == 0 {
        let mut out = chars_of("No entrypoint files inside ");
        let kc = chars_of(evidence.subsystem_key.as_str());
        append_chars(&mut out, kc.as_slice());
        push_str(&mut out, " — execution is wired from elsewhere.");
        hints.push(string_of(out.as_slice()));
    }
    assert(views(hints@) =~= (if evidence.entrypoints@.len() == 0 {
        seq![
            "No entrypoint files inside "@ + evidence.subsystem_key@
                + " — execution is wired from elsewhere."@,
        ]
    } else {
        Seq::<Seq<char>>::empty()
    }));
    let middleware = is_middleware_area(evidence);
    push_wiring_hint(&mut hints, symbols, "add_middleware");
    if !middleware {
        push_wiring_hint(&mut hints, symbols, "add_route");
        push_wiring_hint(&mut hints, symbols, "mount");
        push_wiring_hint(&mut hints, symbols, "include_router");
    }
    if middleware {
        let ghost before = views(hints@);
        hints.push(
            String::from_str(
                "Middleware classes are stacked at app setup; each __call__ delegates to the next with await self.app(scope, receive, send).",
            ),
        );
        assert(views(hints@) =~= before.push(middleware_stack_note()));
    }
    if hints.len() == 0 && evidence.entrypoints.len() > 0 {
        let ghost before = views(hints@);
        hints.push(String::from_str("Entrypoint files in this subsystem start execution here."));
        assert(views(hints@) =~= before.push(
            "Entrypoint files in this subsystem start execution here."@,
        ));
    }
    hints
}

/// The last parsed file with path `p`.
pub open spec fn last_parsed(files: Seq<ParsedFile>, p: Seq<char>) -> Option<ParsedFile>
    decreases files.len(),
{
    if files.len() == 0 {
        None
    } else if files.last().path@ == p {
        Some(files.last())
    } else {
        last_parsed(files.drop_last(), p)
    }
}

/// The last parsed file with path `p`.
pub fn find_parsed<'a>(files: &'a Vec<ParsedFile>, p: &str) -> (r: Option<&'a ParsedFile>)
    ensures
        match r {
            None => last_parsed(files@, p@) is None,
            Some(f) => last_parsed(files@, p@) == Some(*f),
        },
{
    let pc = chars_of(p);
    let mut i: usize = files.len();
    assert(files@.take(files@.len() as int) =~= files@);
    while i > 0
        invariant
            i <= files@.len(),
            pc@ == p@,
            last_parsed(files@, p@) == last_parsed(files@.take(i as int), p@),
        decreases i,
    {
        assert(files@.take(i as int).last() == files@[i - 1]);
        let fc = chars_of(files[i - 1].path.as_str());
        if seq_eq(fc.as_slice(), pc.as_slice()) {
            return Some(&files[i - 1]);
        }
        assert(files@.take(i as int).drop_last() =~= files@.take(i - 1));
        i = i - 1;
    }
    None
}

/// The label of a cited file in a middleware flow: its primary class, else
/// its file stem.
pub open spec fn layer_label(files: Seq<ParsedFile>, path: Seq<char>) -> Seq<char> {
    match last_parsed(files, path) {
        Some(f) => match primary_class(f.definitions@) {
            Some(n) => n,
            None => stem_label(path),
        },
        None => stem_label(path),
    }
}

/// The layer lines of the first `n` citations of a middleware flow.
pub open spec fn layer_lines(cs: Seq<ExplainCitation>, files: Seq<ParsedFile>, n: nat) -> Seq<
    Seq<char>,
>
    decreases n,
{
    if n == 0 {
        Seq::empty()
    } else {
        layer_lines(cs, files, (n - 1) as nat).push(
            "  "@ + layer_label(files, cs[n - 1].path@) + " (representative layer)"@,
        ).push(arrow())
    }
}

/// A possible request path through middleware.
pub open spec fn middleware_lines(e: ExplainEvidence, files: Seq<ParsedFile>) -> Seq<Seq<char>> {
    let head = seq![
        "Possible request path — not the actual runtime stack (order depends on app configuration):"@,
        "  Incoming request"@,
        arrow(),
    ];
    let wired = match wiring_best(files, "add_middleware"@) {
        Some(b) => seq![
            "  Middleware stack entry (configured via "@ + b.1 + ":"@ + decimal(b.2 as nat) + ")"@,
            arrow(),
        ],
        None => Seq::empty(),
    };
    head + wired + layer_lines(e.citations@, files, capped(e.citations@.len(), 6)) + seq![
        "  Router → endpoint handler"@,
        "  Layers above are ranked by graph importance, not install order."@,
    ]
}

fn layer_label_of(files: &Vec<ParsedFile>, path: &str) -> (r: String)
    ensures
        r@ == layer_label(files@, path@),
{
    match find_parsed(files, path) {
        Some(f) => match primary_class_name(f) {
            Some(n) => n,
            None => file_stem_label(path),
        },
        None => file_stem_label(path),
    }
}

/// A possible request path through middleware: the entry, the cited layers
/// and the router.
pub fn middleware_execution_lines(evidence: &ExplainEvidence, symbols: &ParseOutput) -> (r: Vec<
    String,
>)
    ensures
        views(r@) == middleware_lines(*evidence, symbols.files@),
{
    let mut lines: Vec<String> = Vec::new();
    lines.push(
        String::from_str(
            "Possible request path — not the actual runtime stack (order depends on app configuration):",
        ),
    );
    lines.push(String::from_str("  Incoming request"));
    lines.push(String::from_str("    ↓"));
    let ghost head = views(lines@);
    if let Some(w) = find_wiring_symbol(symbols, "add_middleware") {
        let mut out = chars_of("  Middleware stack entry (configured via ");
        let pc = chars_of(w.path.as_str());
        append_chars(&mut out, pc.as_slice());
        push_str(&mut out, ":");
        let lc = decimal_exec(w.line);
        append_chars(&mut out, lc.as_slice());
        push_str(&mut out, ")");
        lines.push(string_of(out.as_slice()));
        lines.push(String::from_str("    ↓"));
    }
    let ghost start = views(lines@);
    assert(start =~= seq![
        "Possible request path — not the actual runtime stack (order depends on app configuration):"@,
        "  Incoming request"@,
        arrow(),
    ] + match wiring_best(symbols.files@, "add_middleware"@) {
        Some(b) => seq![
            "  Middleware stack entry (configured via "@ + b.1 + ":"@ + decimal(b.2 as nat) + ")"@,
            arrow(),
        ],
        None => Seq::empty(),
    });
    let mut i: usize = 0;
    while i < evidence.citations.len() && i < 6
        invariant
            i <= evidence.citations@.len(),
            i <= 6,
            views(lines@) == start + layer_lines(evidence.citations@, symbols.files@, i as nat),
        decreases evidence.citations.len() - i,
    {
        let ghost before = views(lines@);
        let label = layer_label_of(&symbols.files, evidence.citations[i].path.as_str());
        let mut out = chars_of("  ");
        let lc = chars_of(label.as_str());
        append_chars(&mut out, lc.as_slice());
        push_str(&mut out, " (representative layer)");
        let line = string_of(out.as_slice());
        lines.push(line);
        lines.push(String::from_str("    ↓"));
        assert(views(lines@) =~= before.push(line@).push(arrow()));
        i = i + 1;
    }
    let ghost before = views(lines@);
    lines.push(String::from_str("  Router → endpoint handler"));
    lines.push(String::from_str("  Layers above are ranked by graph importance, not install order."));
    assert(views(lines@) =~= before + seq![
        "  Router → endpoint handler"@,
        "  Layers above are ranked by graph importance, not install order."@,
    ]);
    lines
}

/// The flow section of an explanation: nothing for a flow (its walkthrough
/// stands elsewhere), a middleware path for a middleware subsystem, else the
/// reading order.
pub open spec fn execution_flow_of(e: ExplainEvidence, files: Seq<ParsedFile>) -> Seq<Seq<char>> {
    if e.match_kind == ExplainMatchKind::Flow {
        Seq::empty()
    } else if e.match_kind == ExplainMatchKind::Subsystem && middleware_area(e) {
        middleware_lines(e, files)
    } else {
        reading_lines(e.citations@, capped(e.citations@.len(), 6))
    }
}

/// The flow section of an explanation.
pub fn build_execution_flow(evidence: &ExplainEvidence, symbols: &ParseOutput) -> (r: Vec<String>)
    ensures
        views(r@) == execution_flow_of(*evidence, symbols.files@),
{
    if evidence.match_kind == ExplainMatchKind::Flow {
        let v: Vec<String> = Vec::new();
        assert(views(v@) =~= Seq::<Seq<char>>::empty());
        return v;
    }
    if evidence.match_kind == ExplainMatchKind::Subsystem && is_middleware_area(evidence) {
        return middleware_execution_lines(evidence, symbols);
    }
    reading_order_flow(evidence)
}

/// What a cited middleware file is responsible for, by its path or class name.
pub open spec fn responsibility(path_lower: Seq<char>, class_lower: Seq<char>) -> Option<Seq<char>> {
    if contains(path_lower, "session"@) || contains(class_lower, "session"@) {
        Some("Sessions"@)
    } else if contains(path_lower, "cors"@) || contains(class_lower, "cors"@) {
        Some("CORS"@)
    } else if contains(path_lower, "gzip"@) || contains(class_lower, "gzip"@) {
        Some("Compression"@)
    } else if contains(path_lower, "error"@) || contains(class_lower, "error"@) {
        Some("Error handling"@)
    } else if contains(path_lower, "auth"@) || contains(class_lower, "auth"@) {
        Some("Authentication"@)
    } else if contains(path_lower, "trusted"@) || contains(class_lower, "trusted"@) {
        Some("Host validation"@)
    } else if contains(path_lower, "wsgi"@) || contains(class_lower, "wsgi"@) {
        Some("WSGI bridging"@)
    } else if contains(path_lower, "exception"@) || contains(class_lower, "exception"@) {
        Some("Exception handling"@)
    } else if contains(path_lower, "base"@) || contains(class_lower, "basehttp"@) {
        Some("Base dispatch wrapper"@)
    } else {
        None
    }
}

/// The lowercased primary class name of the last parsed file with `path`
/// (empty when there is none).
pub open spec fn class_lower(files: Seq<ParsedFile>, path: Seq<char>) -> Seq<char> {
    lower_text(
        match last_parsed(files, path) {
            Some(f) => match primary_class(f.definitions@) {
                Some(n) => n,
                None => Seq::empty(),
            },
            None => Seq::empty(),
        },
    )
}

/// The distinct responsibilities of the cited middleware files, in order.
pub open spec fn responsibilities(cs: Seq<ExplainCitation>, files: Seq<ParsedFile>) -> Seq<
    Seq<char>,
>
    decreases cs.len(),
{
    if cs.len() == 0 {
        Seq::empty()
    } else {
        let prev = responsibilities(cs.drop_last(), files);
        let c = cs.last();
        match responsibility(lower_text(c.path@), class_lower(files, c.path@)) {
            Some(l) => if prev.contains(l) {
                prev
            } else {
                prev.push(l)
            },
            None => prev,
        }
    }
}

fn responsibility_of(path_lower: &[char], class_lower: &[char]) -> (r: Option<&'static str>)
    ensures
        match r {
            None => responsibility(path_lower@, class_lower@) is None,
            Some(l) => responsibility(path_lower@, class_lower@) == Some(l@),
        },
{
    if contains_lit(path_lower, "session") || contains_lit(class_lower, "session") {
        Some("Sessions")
    } else if contains_lit(path_lower, "cors") || contains_lit(class_lower, "cors") {
        Some("CORS")
    } else if contains_lit(path_lower, "gzip") || contains_lit(class_lower, "gzip") {
        Some("Compression")
    } else if contains_lit(path_lower, "error") || contains_lit(class_lower, "error") {
        Some("Error handling")
    } else if contains_lit(path_lower, "auth") || contains_lit(class_lower, "auth") {
        Some("Authentication")
    } else if contains_lit(path_lower, "trusted") || contains_lit(class_lower, "trusted") {
        Some("Host validation")
    } else if contains_lit(path_lower, "wsgi") || contains_lit(class_lower, "wsgi") {
        Some("WSGI bridging")
    } else if contains_lit(path_lower, "exception") || contains_lit(class_lower, "exception") {
        Some("Exception handling")
    } else if contains_lit(path_lower, "base") || contains_lit(class_lower, "basehttp") {
        Some("Base dispatch wrapper")
    } else {
        None
    }
}

fn contains_text(list: &Vec<Vec<char>>, x: &[char]) -> (r: bool)
    ensures
        r == list.deep_view().contains(x@),
{
    let ghost dv = list.deep_view();
    let mut i: usize = 0;
    while i < list.len()
        invariant
            i <= list@.len(),
            dv == list.deep_view(),
            forall|j: int| 0 <= j < i ==> dv[j] != x@,
        decreases list.len() - i,
    {
        assert(dv[i as int] == list@[i as int]@);
        if seq_eq(list[i].as_slice(), x) {
            return true;
        }
        i = i + 1;
    }
    false
}

/// The distinct responsibilities of the cited middleware files, in order.
pub fn detect_middleware_responsibilities(
    citations: &Vec<ExplainCitation>,
    files: &Vec<ParsedFile>,
) -> (r: Vec<Vec<char>>)
    ensures
        r.deep_view() == responsibilities(citations@, files@),
{
    let mut out: Vec<Vec<char>> = Vec::new();
    let mut i: usize = 0;
    while i < citations.len()
        invariant
            i <= citations@.len(),
            out.deep_view() == responsibilities(citations@.take(i as int), files@),
        decreases citations.len() - i,
    {
        assert(citations@.take(i + 1).drop_last() =~= citations@.take(i as int));
        let c = &citations[i];
        let pl = lower_chars(c.path.as_str());
        let class_name = match find_parsed(files, c.path.as_str()) {
            Some(f) => match primary_class_name(f) {
                Some(n) => n,
                None => String::new(),
            },
            None => String::new(),
        };
        let cl = lower_chars(class_name.as_str());
        assert(cl@ == class_lower(files@, c.path@));
        if let Some(l) = responsibility_of(pl.as_slice(), cl.as_slice()) {
            let lc = chars_of(l);
            if !contains_text(&out, lc.as_slice()) {
                let ghost old_dv = out.deep_view();
                proof {
                    crate::text::lemma_chars_deep_view(&lc);
                }
                out.push(lc);
                assert(out.deep_view() =~= old_dv.push(l@));
            }
        }
        i = i + 1;
    }
    assert(citations@.take(citations@.len() as int) =~= citations@);
    out
}

/// What middleware is for, and which middleware this repository has.
pub open spec fn middleware_purpose_of(e: ExplainEvidence, files: Seq<ParsedFile>) -> Seq<Seq<char>> {
    let head = seq![
        "Middleware intercepts requests before they reach route handlers."@,
        "Each layer wraps the next application component and can inspect or modify requests and responses."@,
    ];
    let resp = responsibilities(e.citations@, files);
    if resp.len() > 0 {
        head.push("Components detected in this repo: "@ + join(resp, ", "@) + "."@)
    } else {
        head.push(
            "Common responsibilities in this pattern: sessions, error handling, compression, CORS, and authentication."@,
        )
    }
}

/// What middleware is for, and which middleware this repository has.
pub fn middleware_purpose(evidence: &ExplainEvidence, symbols: &ParseOutput) -> (r: Vec<String>)
    ensures
        views(r@) == middleware_purpose_of(*evidence, symbols.files@),
{
    let mut lines: Vec<String> = Vec::new();
    lines.push(String::from_str("Middleware intercepts requests before they reach route handlers."));
    lines.push(
        String::from_str(
            "Each layer wraps the next application component and can inspect or modify requests and responses.",
        ),
    );
    let ghost head = views(lines@);
    let resp = detect_middleware_responsibilities(&evidence.citations, &symbols.files);
    if resp.len() > 0 {
        let mut out = chars_of("Components detected in this repo: ");
        let j = join_exec(&resp, ", ");
        append_chars(&mut out, j.as_slice());
        push_str(&mut out, ".");
        let line = string_of(out.as_slice());
        lines.push(line);
        assert(views(lines@) =~= head.push(line@));
    } else {
        lines.push(
            String::from_str(
                "Common responsibilities in this pattern: sessions, error handling, compression, CORS, and authentication.",
            ),
        );
        assert(views(lines@) =~= head.push(
            "Common responsibilities in this pattern: sessions, error handling, compression, CORS, and authentication."@,
        ));
    }
    lines
}

/// The seed an explanation's flow starts at: the flow seed, else the topic.
pub open spec fn seed_or_topic(e: ExplainEvidence) -> Seq<char> {
    match e.flow_seed {
        Some(s) => s@,
        None => e.topic@,
    }
}

/// What the explained code is for.
pub open spec fn purpose_of(e: ExplainEvidence, files: Seq<ParsedFile>) -> Seq<Seq<char>> {
    let topic = lower_text(e.topic@);
    let key = lower_text(e.subsystem_key@);
    if middleware_area(e) {
        middleware_purpose_of(e, files)
    } else if contains(topic, "auth"@) || contains(key, "auth"@) {
        seq![
            "Authentication verifies identity before protected handlers run."@,
            "Typical layers: HTTP routes/handlers, service logic, token or session storage, and user lookup."@,
        ]
    } else if contains(topic, "route"@) || contains(key, "route"@) || contains(key, "api"@) {
        seq![
            "Routing maps incoming HTTP paths and methods to handler functions."@,
            "Route modules declare endpoints; services and repositories implement the work behind them."@,
        ]
    } else if e.match_kind == ExplainMatchKind::Flow {
        seq![
            "This topic traces a call-graph path starting at \""@ + seed_or_topic(e) + "\"."@,
            "Follow the citations below to see which functions call which — dynamic dispatch may be missing."@,
        ]
    } else {
        seq![
            "The "@ + e.subsystem_name@ + " area groups related code for \""@ + e.topic@
                + "\" — read ranked files below to see how responsibilities split across modules."@,
        ]
    }
}

/// What the explained code is for.
pub fn build_purpose(evidence: &ExplainEvidence, symbols: &ParseOutput) -> (r: Vec<String>)
    ensures
        views(r@) == purpose_of(*evidence, symbols.files@),
{
    if is_middleware_area(evidence) {
        return middleware_purpose(evidence, symbols);
    }
    let topic = lower_chars(evidence.topic.as_str());
    let key = lower_chars(evidence.subsystem_key.as_str());
    let mut lines: Vec<String> = Vec::new();
    if contains_lit(topic.as_slice(), "auth") || contains_lit(key.as_slice(), "auth") {
        lines.push(String::from_str("Authentication verifies identity before protected handlers run."));
        lines.push(
            String::from_str(
                "Typical layers: HTTP routes/handlers, service logic, token or session storage, and user lookup.",
            ),
        );
        assert(views(lines@) =~= seq![
            "Authentication verifies identity before protected handlers run."@,
            "Typical layers: HTTP routes/handlers, service logic, token or session storage, and user lookup."@,
        ]);
        return lines;
    }
    if contains_lit(topic.as_slice(), "route") || contains_lit(key.as_slice(), "route")
        || contains_lit(key.as_slice(), "api") {
        lines.push(
            String::from_str("Routing maps incoming HTTP paths and methods to handler functions."),
        );
        lines.push(
            String::from_str(
                "Route modules declare endpoints; services and repositories implement the work behind them.",
            ),
        );
        assert(views(lines@) =~= seq![
            "Routing maps incoming HTTP paths and methods to handler functions."@,
            "Route modules declare endpoints; services and repositories implement the work behind them."@,
        ]);
        return lines;
    }
    if evidence.match_kind == ExplainMatchKind::Flow {
        let mut out = chars_of("This topic traces a call-graph path starting at \"");
        match &evidence.flow_seed {
            Some(seed) => {
                let sc = chars_of(seed.as_str());
                append_chars(&mut out, sc.as_slice());
            },
            None => {
                let tc = chars_of(evidence.topic.as_str());
                append_chars(&mut out, tc.as_slice());
            },
        }
        push_str(&mut out, "\".");
        let first = string_of(out.as_slice());
        lines.push(first);
        lines.push(
            String::from_str(
                "Follow the citations below to see which functions call which — dynamic dispatch may be missing.",
            ),
        );
        assert(views(lines@) =~= seq![
            first@,
            "Follow the citations below to see which functions call which — dynamic dispatch may be missing."@,
        ]);
        return lines;
    }
    let mut out = chars_of("The ");
    let nc = chars_of(evidence.subsystem_name.as_str());
    append_chars(&mut out, nc.as_slice());
    push_str(&mut out, " area groups related code for \"");
    let tc = chars_of(evidence.topic.as_str());
    append_chars(&mut out, tc.as_slice());
    push_str(
        &mut out,
        "\" — read ranked files below to see how responsibilities split across modules.",
    );
    let line = string_of(out.as_slice());
    lines.push(line);
    assert(views(lines@) =~= seq![line@]);
    lines
}


/// The first parsed file with path `p`.
pub open spec fn first_parsed(files: Seq<ParsedFile>, p: Seq<char>) -> Option<ParsedFile>
    decreases files.len(),
{
    if files.len() == 0 {
        None
    } else if files[0].path@ == p {
        Some(files[0])
    } else {
        first_parsed(files.drop_first(), p)
    }
}

fn find_first_parsed<'a>(files: &'a Vec<ParsedFile>, p: &str) -> (r: Option<&'a ParsedFile>)
    ensures
        match r {
            None => first_parsed(files@, p@) is None,
            Some(f) => first_parsed(files@, p@) == Some(*f),
        },
{
    let pc = chars_of(p);
    let mut i: usize = 0;
    assert(files@.skip(0) =~= files@);
    while i < files.len()
        invariant
            i <= files@.len(),
            pc@ == p@,
            first_parsed(files@, p@) == first_parsed(files@.skip(i as int), p@),
        decreases files.len() - i,
    {
        assert(files@.skip(i as int)[0] == files@[i as int]);
        let fc = chars_of(files[i].path.as_str());
        if seq_eq(fc.as_slice(), pc.as_slice()) {
            return Some(&files[i]);
        }
        assert(files@.skip(i as int).drop_first() =~= files@.skip(i + 1));
        i = i + 1;
    }
    None
}

/// The route definition at or before `line` with the greatest line (the last
/// such one on a tie).
pub open spec fn latest_route(defs: Seq<Definition>, line: usize) -> Option<Definition>
    decreases defs.len(),
{
    if defs.len() == 0 {
        None
    } else {
        let prev = latest_route(defs.drop_last(), line);
        let d = defs.last();
        if d.kind@ == "route"@ && d.line <= line && (prev is None || d.line >= prev->0.line) {
            Some(d)
        } else {
            prev
        }
    }
}

/// The first route definition that matches the query.
pub open spec fn matching_route(defs: Seq<Definition>, query: Seq<char>) -> Option<Definition>
    decreases defs.len(),
{
    if defs.len() == 0 {
        None
    } else if defs[0].kind@ == "route"@ && route_matches(defs[0].name@, query) {
        Some(defs[0])
    } else {
        matching_route(defs.drop_first(), query)
    }
}

/// The HTTP route a walkthrough starts at: the route declared at most five
/// lines above the first step, else a route of its file that matches the query.
pub open spec fn request_label(query: Seq<char>, steps: Seq<FlowStep>, files: Seq<ParsedFile>) -> Option<
    Seq<char>,
> {
    if steps.len() == 0 {
        None
    } else {
        match first_parsed(files, steps[0].file@) {
            None => None,
            Some(p) => {
                let near = match steps[0].line {
                    Some(l) => match latest_route(p.definitions@, l) {
                        Some(r) => if l - r.line <= 5 {
                            Some(http_route(query, r.name@))
                        } else {
                            None
                        },
                        None => None,
                    },
                    None => None,
                };
                if near is Some {
                    near
                } else {
                    match matching_route(p.definitions@, query) {
                        Some(r) => Some(http_route(query, r.name@)),
                        None => None,
                    }
                }
            },
        }
    }
}

fn latest_route_exec(defs: &Vec<Definition>, line: usize) -> (r: Option<&Definition>)
    ensures
        match r {
            None => latest_route(defs@, line) is None,
            Some(d) => latest_route(defs@, line) == Some(*d) && d.line <= line,
        },
{
    let mut best: Option<&Definition> = None;
    let mut i: usize = 0;
    while i < defs.len()
        invariant
            i <= defs@.len(),
            match best {
                None => latest_route(defs@.take(i as int), line) is None,
                Some(d) => latest_route(defs@.take(i as int), line) == Some(*d) && d.line <= line,
            },
        decreases defs.len() - i,
    {
        assert(defs@.take(i + 1).drop_last() =~= defs@.take(i as int));
        let d = &defs[i];
        let kc = chars_of(d.kind.as_str());
        if eq_lit(kc.as_slice(), "route") && d.line <= line {
            let replace = match best {
                None => true,
                Some(b) => d.line >= b.line,
            };
            if replace {
                best = Some(d);
            }
        }
        i = i + 1;
    }
    assert(defs@.take(defs@.len() as int) =~= defs@);
    best
}

fn matching_route_exec<'a>(defs: &'a Vec<Definition>, query: &str) -> (r: Option<&'a Definition>)
    ensures
        match r {
            None => matching_route(defs@, query@) is None,
            Some(d) => matching_route(defs@, query@) == Some(*d),
        },
{
    let mut i: usize = 0;
    assert(defs@.skip(0) =~= defs@);
    while i < defs.len()
        invariant
            i <= defs@.len(),
            matching_route(defs@, query@) == matching_route(defs@.skip(i as int), query@),
        decreases defs.len() - i,
    {
        assert(defs@.skip(i as int)[0] == defs@[i as int]);
        let d = &defs[i];
        let kc = chars_of(d.kind.as_str());
        if eq_lit(kc.as_slice(), "route") && route_matches_query(d.name.as_str(), query) {
            return Some(d);
        }
        assert(defs@.skip(i as int).drop_first() =~= defs@.skip(i + 1));
        i = i + 1;
    }
    None
}

/// The HTTP route that a flow's walkthrough starts at, if one is known.
pub fn infer_request_label(flow: &FlowResult, symbols: &ParseOutput) -> (r: Option<String>)
    ensures
        match r {
            None => request_label(flow.query@, flow.steps@, symbols.files@) is None,
            Some(l) => request_label(flow.query@, flow.steps@, symbols.files@) == Some(l@),
        },
{
    if flow.steps.len() == 0 {
        return None;
    }
    let first = &flow.steps[0];
    let parsed = match find_first_parsed(&symbols.files, first.file.as_str()) {
        Some(p) => p,
        None => return None,
    };
    if let Some(line) = first.line {
        if let Some(route) = latest_route_exec(&parsed.definitions, line) {
            if line - route.line <= 5 {
                return Some(format_http_route(flow.query.as_str(), route.name.as_str()));
            }
        }
    }
    match matching_route_exec(&parsed.definitions, flow.query.as_str()) {
        Some(route) => Some(format_http_route(flow.query.as_str(), route.name.as_str())),
        None => None,
    }
}

/// The `file::label` lines of the first `n` steps, with arrows between them.
pub open spec fn step_lines(steps: Seq<FlowStep>, n: nat) -> Seq<Seq<char>>
    decreases n,
{
    if n == 0 {
        Seq::empty()
    } else {
        let prev = step_lines(steps, (n - 1) as nat);
        let line = "  "@ + steps[n - 1].file@ + "::"@ + steps[n - 1].label@;
        if n > 1 {
            prev.push(arrow()).push(line)
        } else {
            prev.push(line)
        }
    }
}

/// The heading of a compressed walkthrough.
pub open spec fn compressed_heading() -> Seq<char> {
    "Call-graph walkthrough (compressed primary path — use `atlas flow --verbose` for full trace):"@
}

/// The heading of a full walkthrough.
pub open spec fn full_heading() -> Seq<char> {
    "Call-graph walkthrough (approximate — dynamic dispatch may be missing):"@
}

/// The walkthrough of a flow: a heading, the inferred route, the displayed
/// steps, and the response.
pub open spec fn walkthrough_lines(
    query: Seq<char>,
    steps: Seq<FlowStep>,
    files: Seq<ParsedFile>,
    verbose: bool,
) -> Seq<Seq<char>> {
    let display = compressed(steps, verbose);
    let head = if !verbose && display.len() < steps.len() {
        seq![compressed_heading()]
    } else {
        seq![full_heading()]
    };
    let label = match request_label(query, steps, files) {
        Some(l) => seq!["  "@ + l, arrow()],
        None => Seq::empty(),
    };
    head + label + step_lines(display, display.len()) + seq![arrow(), "  response returned"@]
}

/// The walkthrough of a flow.
pub fn format_flow_walkthrough_with_symbols(
    flow: &FlowResult,
    symbols: &ParseOutput,
    verbose: bool,
) -> (r: Result<Vec<String>, String>)
    ensures
        r matches Ok(lines) && views(lines@) == walkthrough_lines(
            flow.query@,
            flow.steps@,
            symbols.files@,
            verbose,
        ),
{
    let display = compress_flow_steps(flow.steps.as_slice(), verbose);
    let is_compressed = !verbose && display.len() < flow.steps.len();
    let mut lines: Vec<String> = Vec::new();
    if is_compressed {
        lines.push(
            String::from_str(
                "Call-graph walkthrough (compressed primary path — use `atlas flow --verbose` for full trace):",
            ),
        );
    } else {
        lines.push(
            String::from_str(
                "Call-graph walkthrough (approximate — dynamic dispatch may be missing):",
            ),
        );
    }
    if let Some(label) = infer_request_label(flow, symbols) {
        let mut out = chars_of("  ");
        let lc = chars_of(label.as_str());
        append_chars(&mut out, lc.as_slice());
        lines.push(string_of(out.as_slice()));
        lines.push(String::from_str("    ↓"));
    }
    let ghost start = views(lines@);
    assert(start =~= (if !verbose && display@.len() < flow.steps@.len() {
        seq![compressed_heading()]
    } else {
        seq![full_heading()]
    }) + match request_label(flow.query@, flow.steps@, symbols.files@) {
        Some(l) => seq!["  "@ + l, arrow()],
        None => Seq::empty(),
    });
    let mut i: usize = 0;
    while i < display.len()
        invariant
            i <= display@.len(),
            views(lines@) == start + step_lines(display@, i as nat),
        decreases display.len() - i,
    {
        let ghost before = views(lines@);
        let s = &display[i];
        let mut out = chars_of("  ");
        let fc = chars_of(s.file.as_str());
        append_chars(&mut out, fc.as_slice());
        push_str(&mut out, "::");
        let lc = chars_of(s.label.as_str());
        append_chars(&mut out, lc.as_slice());
        let line = string_of(out.as_slice());
        if i > 0 {
            lines.push(String::from_str("    ↓"));
            lines.push(line);
            assert(views(lines@) =~= before.push(arrow()).push(line@));
        } else {
            lines.push(line);
            assert(views(lines@) =~= before.push(line@));
        }
        i = i + 1;
    }
    let ghost before = views(lines@);
    lines.push(String::from_str("    ↓"));
    lines.push(String::from_str("  response returned"));
    assert(views(lines@) =~= before + seq![arrow(), "  response returned"@]);
    Ok(lines)
}

/// The steps of a flow that lie in subsystem `key`.
pub open spec fn scoped_steps(steps: Seq<FlowStep>, key: Seq<char>) -> Seq<FlowStep>
    decreases steps.len(),
{
    if steps.len() == 0 {
        Seq::empty()
    } else {
        let prev = scoped_steps(steps.drop_last(), key);
        if key_of(steps.last().file@) == key {
            prev.push(steps.last())
        } else {
            prev
        }
    }
}

/// The walkthrough of a flow restricted to subsystem `key` (nothing when
/// fewer than two displayed steps lie there).
pub open spec fn subsystem_walk_lines(
    query: Seq<char>,
    steps: Seq<FlowStep>,
    key: Seq<char>,
    files: Seq<ParsedFile>,
    verbose: bool,
) -> Seq<Seq<char>> {
    let scoped = scoped_steps(compressed(steps, verbose), key);
    if scoped.len() < 2 {
        Seq::empty()
    } else {
        walkthrough_lines(query, scoped, files, verbose)
    }
}

/// The walkthrough of a flow restricted to the subsystem `target_key`.
pub fn format_subsystem_walkthrough(
    flow: &FlowResult,
    target_key: &str,
    symbols: &ParseOutput,
    verbose: bool,
) -> (r: Result<Vec<String>, String>)
    ensures
        r matches Ok(lines) && views(lines@) == subsystem_walk_lines(
            flow.query@,
            flow.steps@,
            target_key@,
            symbols.files@,
            verbose,
        ),
{
    let display = compress_flow_steps(flow.steps.as_slice(), verbose);
    let tk = chars_of(target_key);
    let mut scoped: Vec<FlowStep> = Vec::new();
    let mut i: usize = 0;
    while i < display.len()
        invariant
            i <= display@.len(),
            tk@ == target_key@,
            scoped@ == scoped_steps(display@.take(i as int), target_key@),
        decreases display.len() - i,
    {
        assert(display@.take(i + 1).drop_last() =~= display@.take(i as int));
        let k = subsystem_key(display[i].file.as_str());
        let kc = chars_of(k.as_str());
        if seq_eq(kc.as_slice(), tk.as_slice()) {
            scoped.push(display[i].duplicate());
        }
        i = i + 1;
    }
    assert(display@.take(display@.len() as int) =~= display@);
    if scoped.len() < 2 {
        let v: Vec<String> = Vec::new();
        assert(views(v@) =~= Seq::<Seq<char>>::empty());
        return Ok(v);
    }
    let scoped_flow = FlowResult { query: flow.query.clone(), seed: flow.seed.clone(), steps: scoped };
    format_flow_walkthrough_with_symbols(&scoped_flow, symbols, verbose)
}

/// The flow steps that the anchored citations form: each anchor symbol as a
/// step of its cited file.
pub open spec fn anchored_steps_match(cs: Seq<ExplainCitation>, steps: Seq<FlowStep>) -> bool
    decreases cs.len(),
{
    if cs.len() == 0 {
        steps.len() == 0
    } else {
        match cs.last().anchor_symbol {
            Some(a) => steps.len() > 0 && anchored_steps_match(cs.drop_last(), steps.drop_last())
                && steps.last().label == a && steps.last().kind@ == Seq::<char>::empty()
                && steps.last().file == cs.last().path && steps.last().line
                == cs.last().anchor_line,
            None => anchored_steps_match(cs.drop_last(), steps),
        }
    }
}

/// The walkthrough of the cited anchors of a flow explanation.
pub fn format_request_walkthrough(evidence: &ExplainEvidence, symbols: &ParseOutput) -> (r: Result<
    Vec<String>,
    String,
>)
    ensures
        r matches Ok(lines) && exists|steps: Seq<FlowStep>|
            {
                &&& anchored_steps_match(evidence.citations@, steps)
                &&& views(lines@) == if steps.len() < 2 {
                    Seq::empty()
                } else {
                    walkthrough_lines(seed_or_topic(*evidence), steps, symbols.files@, false)
                }
            },
{
    let query = match &evidence.flow_seed {
        Some(s) => s.clone(),
        None => evidence.topic.clone(),
    };
    let mut steps: Vec<FlowStep> = Vec::new();
    let mut i: usize = 0;
    while i < evidence.citations.len()
        invariant
            i <= evidence.citations@.len(),
            anchored_steps_match(evidence.citations@.take(i as int), steps@),
        decreases evidence.citations.len() - i,
    {
        assert(evidence.citations@.take(i + 1).drop_last() =~= evidence.citations@.take(i as int));
        let c = &evidence.citations[i];
        if let Some(a) = &c.anchor_symbol {
            let ghost before = steps@;
            steps.push(
                FlowStep { label: a.clone(), kind: String::new(), file: c.path.clone(), line: c.anchor_line },
            );
            assert(steps@.drop_last() =~= before);
        }
        i = i + 1;
    }
    assert(evidence.citations@.take(evidence.citations@.len() as int) =~= evidence.citations@);
    if steps.len() < 2 {
        let v: Vec<String> = Vec::new();
        assert(views(v@) =~= Seq::<Seq<char>>::empty());
        return Ok(v);
    }
    let flow = FlowResult { query: query.clone(), seed: query, steps };
    format_flow_walkthrough_with_symbols(&flow, symbols, false)
}

/// The anchor symbols of cited route files, in order.
pub open spec fn route_anchors(cs: Seq<ExplainCitation>) -> Seq<Seq<char>>
    decreases cs.len(),
{
    if cs.len() == 0 {
        Seq::empty()
    } else {
        let prev = route_anchors(cs.drop_last());
        let c = cs.last();
        if contains(lower_text(c.path@), "routes"@) && c.anchor_symbol is Some {
            prev.push(c.anchor_symbol->0@)
        } else {
            prev
        }
    }
}

/// The flow queries to try for a walkthrough, before removing repeats.
pub open spec fn query_candidates(e: ExplainEvidence) -> Seq<Seq<char>> {
    let t = lower_text(e.topic@);
    let k = lower_text(e.subsystem_key@);
    let a = if contains(t, "auth"@) || contains(k, "auth"@) {
        seq!["login"@, "register"@, "logout"@]
    } else {
        Seq::empty()
    };
    let b = if contains(t, "registration"@) || contains(k, "registration"@) {
        seq!["finalize_registration"@, "verify_face"@, "register"@, "verify"@]
    } else {
        Seq::empty()
    };
    let c = if contains(t, "gate"@) || contains(k, "gate"@) {
        seq!["checkin"@, "checkout"@]
    } else {
        Seq::empty()
    };
    let d = if contains(t, "order"@) || contains(k, "order"@) {
        seq!["order"@, "create"@]
    } else {
        Seq::empty()
    };
    a + b + c + d + seq![e.topic@] + route_anchors(e.citations@)
}

/// The texts without repeats, ignoring case; the first of equal ones stays.
pub open spec fn dedup_lower(s: Seq<Seq<char>>) -> Seq<Seq<char>>
    decreases s.len(),
{
    if s.len() == 0 {
        Seq::empty()
    } else {
        let prev = dedup_lower(s.drop_last());
        if exists|i: int| 0 <= i < prev.len() && lower_text(#[trigger] prev[i]) == lower_text(s.last()) {
            prev
        } else {
            prev.push(s.last())
        }
    }
}

/// The flow queries to try for a walkthrough.
pub open spec fn walk_queries(e: ExplainEvidence) -> Seq<Seq<char>> {
    dedup_lower(query_candidates(e))
}

fn push_lit(v: &mut Vec<String>, s: &str)
    ensures
        views(final(v)@) == views(old(v)@).push(s@),
{
    let ghost before = views(v@);
    v.push(String::from_str(s));
    assert(views(v@) =~= before.push(s@));
}

/// The flow queries to try for a walkthrough of an explanation.
pub fn walkthrough_queries(evidence: &ExplainEvidence) -> (r: Vec<String>)
    ensures
        views(r@) == walk_queries(*evidence),
{
    let t = lower_chars(evidence.topic.as_str());
    let k = lower_chars(evidence.subsystem_key.as_str());
    let mut cands: Vec<String> = Vec::new();
    if contains_lit(t.as_slice(), "auth") || contains_lit(k.as_slice(), "auth") {
        push_lit(&mut cands, "login");
        push_lit(&mut cands, "register");
        push_lit(&mut cands, "logout");
    }
    let ghost va = views(cands@);
    if contains_lit(t.as_slice(), "registration") || contains_lit(k.as_slice(), "registration") {
        push_lit(&mut cands, "finalize_registration");
        push_lit(&mut cands, "verify_face");
        push_lit(&mut cands, "register");
        push_lit(&mut cands, "verify");
    }
    let ghost vb = views(cands@);
    if contains_lit(t.as_slice(), "gate") || contains_lit(k.as_slice(), "gate") {
        push_lit(&mut cands, "checkin");
        push_lit(&mut cands, "checkout");
    }
    let ghost vc = views(cands@);
    if contains_lit(t.as_slice(), "order") || contains_lit(k.as_slice(), "order") {
        push_lit(&mut cands, "order");
        push_lit(&mut cands, "create");
    }
    let ghost vd = views(cands@);
    let ghost before_topic = views(cands@);
    cands.push(evidence.topic.clone());
    assert(views(cands@) =~= before_topic.push(evidence.topic@));
    let ghost base = views(cands@);
    let mut i: usize = 0;
    while i < evidence.citations.len()
        invariant
            i <= evidence.citations@.len(),
            views(cands@) == base + route_anchors(evidence.citations@.take(i as int)),
        decreases evidence.citations.len() - i,
    {
        assert(evidence.citations@.take(i + 1).drop_last() =~= evidence.citations@.take(i as int));
        let c = &evidence.citations[i];
        let pl = lower_chars(c.path.as_str());
        if contains_lit(pl.as_slice(), "routes") {
            if let Some(a) = &c.anchor_symbol {
                let ghost before = views(cands@);
                cands.push(a.clone());
                assert(views(cands@) =~= before.push(a@));
            }
        }
        i = i + 1;
    }
    assert(evidence.citations@.take(evidence.citations@.len() as int) =~= evidence.citations@);
    assert(views(cands@) =~= query_candidates(*evidence));
    let mut out: Vec<String> = Vec::new();
    let mut seen: Vec<Vec<char>> = Vec::new();
    let mut j: usize = 0;
    while j < cands.len()
        invariant
            j <= cands@.len(),
            views(out@) == dedup_lower(views(cands@).take(j as int)),
            seen@.len() == out@.len(),
            forall|m: int| 0 <= m < seen@.len() ==> #[trigger] seen@[m]@ == lower_text(out@[m]@),
        decreases cands.len() - j,
    {
        assert(views(cands@).take(j + 1).drop_last() =~= views(cands@).take(j as int));
        assert(views(cands@).take(j + 1).last() == cands@[j as int]@);
        let lc = lower_chars(cands[j].as_str());
        let mut found = false;
        let mut m: usize = 0;
        while m < seen.len()
            invariant
                m <= seen@.len(),
                seen@.len() == out@.len(),
                forall|q: int| 0 <= q < seen@.len() ==> #[trigger] seen@[q]@ == lower_text(out@[q]@),
                found == exists|q: int| 0 <= q < m && lower_text(#[trigger] views(out@)[q]) == lc@,
            decreases seen.len() - m,
        {
            assert(views(out@)[m as int] == out@[m as int]@);
            if seq_eq(seen[m].as_slice(), lc.as_slice()) {
                found = true;
            }
            m = m + 1;
        }
        if !found {
            let ghost before = views(out@);
            let ghost before_seen = seen@;
            out.push(cands[j].clone());
            seen.push(lc);
            assert(views(out@) =~= before.push(cands@[j as int]@));
            assert forall|q: int| 0 <= q < seen@.len() implies #[trigger] seen@[q]@ == lower_text(
                out@[q]@,
            ) by {
                if q < before_seen.len() {
                    assert(seen@[q] == before_seen[q]);
                }
            }
        }
        j = j + 1;
    }
    assert(views(cands@).take(cands@.len() as int) =~= views(cands@));
    out
}

/// How well a flow serves as a walkthrough of subsystem `key`: zero unless it
/// starts there with at least two steps there; otherwise its subsystem score,
/// plus 20 per step inside, minus 80 per step outside.
pub open spec fn walk_score(steps: Seq<FlowStep>, key: Seq<char>) -> int {
    let n = steps_in_subsystem(steps, key);
    if steps.len() == 0 || key_of(steps[0].file@) != key || n < 2 {
        0
    } else {
        300 + 40 * n + (24 - steps.len()) + 20 * n - 80 * (steps.len() - n)
    }
}

/// The `i32` arithmetic of the walkthrough score stays in range: the step
/// counts fit in `i32`, and neither the sums nor the out-of-subsystem penalty
/// leave it.
pub open spec fn walk_score_fits(steps: Seq<FlowStep>, key: Seq<char>) -> bool {
    let n = steps_in_subsystem(steps, key);
    let len = steps.len() as int;
    steps.len() == 0 || key_of(steps[0].file@) != key || n < 2 || {
        &&& len <= i32::MAX
        &&& 300 + 40 * n <= i32::MAX
        &&& 300 + 60 * n + 24 - len <= i32::MAX
        &&& 80 * (len - n) <= i32::MAX
        &&& walk_score(steps, key) >= i32::MIN
    }
}

/// The number of steps of `flow` whose file lies in subsystem `key`.
fn count_steps_in(flow: &FlowResult, key: &str) -> (n: usize)
    ensures
        n as int == steps_in_subsystem(flow.steps@, key@),
        n <= flow.steps@.len(),
{
    let tk = chars_of(key);
    let ghost pred = |s: FlowStep| key_of(s.file@) == key@;
    let mut n: usize = 0;
    let mut i: usize = 0;
    while i < flow.steps.len()
        invariant
            i <= flow.steps@.len(),
            tk@ == key@,
            pred == (|s: FlowStep| key_of(s.file@) == key@),
            n == flow.steps@.subrange(0, i as int).filter(pred).len(),
            n <= i,
        decreases flow.steps.len() - i,
    {
        proof {
            reveal_with_fuel(Seq::<_>::filter, 1);
            assert(flow.steps@.subrange(0, i + 1).drop_last() =~= flow.steps@.subrange(0, i as int));
        }
        let k = subsystem_key(flow.steps[i].file.as_str());
        let kc = chars_of(k.as_str());
        if seq_eq(kc.as_slice(), tk.as_slice()) {
            n = n + 1;
        }
        i = i + 1;
    }
    assert(flow.steps@.subrange(0, flow.steps@.len() as int) =~= flow.steps@);
    n
}

/// Whether the walkthrough score of `flow` stays within `i32`.
fn walk_score_fits_exec(flow: &FlowResult, target_key: &str) -> (r: bool)
    ensures
        r == walk_score_fits(flow.steps@, target_key@),
{
    if flow.steps.len() == 0 {
        return true;
    }
    let tk = chars_of(target_key);
    let fk = subsystem_key(flow.steps[0].file.as_str());
    let fkc = chars_of(fk.as_str());
    if !seq_eq(fkc.as_slice(), tk.as_slice()) {
        return true;
    }
    let n = count_steps_in(flow, target_key);
    if n < 2 {
        return true;
    }
    let n = n as i128;
    let len = flow.steps.len() as i128;
    let score = 300 + 40 * n + (24 - len) + 20 * n - 80 * (len - n);
    len <= i32::MAX as i128 && 300 + 40 * n <= i32::MAX as i128 && 300 + 60 * n + 24 - len
        <= i32::MAX as i128 && 80 * (len - n) <= i32::MAX as i128 && score >= i32::MIN as i128
}

/// How well a flow serves as a walkthrough of subsystem `target_key`.
pub fn walkthrough_flow_score(flow: &FlowResult, target_key: &str) -> (r: i32)
    requires
        walk_score_fits(flow.steps@, target_key@),
    ensures
        r as int == walk_score(flow.steps@, target_key@),
{
    if flow.steps.len() == 0 {
        return 0;
    }
    let tk = chars_of(target_key);
    let fk = subsystem_key(flow.steps[0].file.as_str());
    let fkc = chars_of(fk.as_str());
    if !seq_eq(fkc.as_slice(), tk.as_slice()) {
        return 0;
    }
    let in_subsystem = count_steps_in(flow, target_key);
    if in_subsystem < 2 {
        return 0;
    }
    let n = in_subsystem as i64;
    let len = flow.steps.len() as i64;
    assert(subsystem_base_score(*flow, target_key@) == 300 + 40 * n);
    assert(length_term(flow.steps@.len() as int) == 24 - len);
    let base = flow_subsystem_score(flow, target_key) as i64;
    let score = base + n * 20 - (len - n) * 80;
    score as i32
}

/// The seed and steps of the flow that `extract_flow` traces for `q`.
pub open spec fn flow_for(files: Seq<ParsedFile>, q: Seq<char>) -> Option<(Seq<char>, Seq<FlowStep>)> {
    let nq = flow_query(q);
    let seeds = seeds_of(files, nq);
    let records = records_of(files);
    if nq.len() == 0 {
        None
    } else {
        match best_seed(seeds, records, files) {
            Some(k) => Some(
                (
                    seeds[k].definition.name@,
                    traced(records, files, seeds[k].file, seeds[k].definition),
                ),
            ),
            None => None,
        }
    }
}

/// The walkthrough score of query `q`, when its flow can serve as one: at
/// least two steps, neither seed nor first step private, a positive score.
/// A flow whose score would leave `i32` is passed over.
pub open spec fn walk_candidate(files: Seq<ParsedFile>, q: Seq<char>, key: Seq<char>) -> Option<int> {
    match flow_for(files, q) {
        Some(f) => if f.1.len() >= 2 && walk_score_fits(f.1, key) && !starts_with(f.0, "_"@)
            && !starts_with(f.1[0].label@, "_"@) && walk_score(f.1, key) > 0 {
            Some(walk_score(f.1, key))
        } else {
            None
        },
        None => None,
    }
}

/// The index of the query among the first `n` with the highest walkthrough
/// score (the first such one on a tie).
pub open spec fn best_walk(files: Seq<ParsedFile>, qs: Seq<Seq<char>>, key: Seq<char>, n: nat) -> Option<
    int,
>
    decreases n,
{
    if n == 0 {
        None
    } else {
        let prev = best_walk(files, qs, key, (n - 1) as nat);
        match walk_candidate(files, qs[n - 1], key) {
            Some(sc) => if prev is None || sc > walk_candidate(files, qs[prev->0], key)->0 {
                Some(n - 1)
            } else {
                prev
            },
            None => prev,
        }
    }
}

/// The request walkthrough of an explanation: for a flow, its cited anchors;
/// for a subsystem outside middleware, the best walkthrough flow of its queries.
pub open spec fn subsystem_request_walk(e: ExplainEvidence, files: Seq<ParsedFile>) -> Seq<
    Seq<char>,
> {
    let qs = walk_queries(e);
    match best_walk(files, qs, e.subsystem_key@, qs.len()) {
        None => Seq::empty(),
        Some(i) => subsystem_walk_lines(
            qs[i],
            (flow_for(files, qs[i])->0).1,
            e.subsystem_key@,
            files,
            false,
        ),
    }
}

proof fn lemma_best_walk_bound(files: Seq<ParsedFile>, qs: Seq<Seq<char>>, key: Seq<char>, n: nat)
    ensures
        best_walk(files, qs, key, n) matches Some(i) ==> 0 <= i < n && walk_candidate(
            files,
            qs[i],
            key,
        ) is Some,
    decreases n,
{
    if n > 0 {
        lemma_best_walk_bound(files, qs, key, (n - 1) as nat);
    }
}

fn starts_private(s: &str) -> (r: bool)
    ensures
        r == starts_with(s@, "_"@),
{
    let cs = chars_of(s);
    proof {
        reveal_strlit("_");
        if cs@.len() > 0 && cs@[0] == '_' {
            assert(cs@.subrange(0, 1) =~= "_"@);
        } else if cs@.len() > 0 {
            assert(cs@.subrange(0, 1)[0] != "_"@[0]);
        }
    }
    cs.len() > 0 && cs[0] == '_'
}

/// The request walkthrough of an explanation.
pub fn build_request_walkthrough(evidence: &ExplainEvidence, symbols: &ParseOutput) -> (r: Result<
    Vec<String>,
    String,
>)
    ensures
        r matches Ok(lines) && if evidence.match_kind == ExplainMatchKind::Flow {
            exists|steps: Seq<FlowStep>|
                {
                    &&& anchored_steps_match(evidence.citations@, steps)
                    &&& views(lines@) == if steps.len() < 2 {
                        Seq::empty()
                    } else {
                        walkthrough_lines(seed_or_topic(*evidence), steps, symbols.files@, false)
                    }
                }
        } else if evidence.match_kind != ExplainMatchKind::Subsystem || middleware_area(*evidence) {
            views(lines@) == Seq::<Seq<char>>::empty()
        } else {
            views(lines@) == subsystem_request_walk(*evidence, symbols.files@)
        },
{
    if evidence.match_kind == ExplainMatchKind::Flow {
        return format_request_walkthrough(evidence, symbols);
    }
    if evidence.match_kind != ExplainMatchKind::Subsystem || is_middleware_area(evidence) {
        let v: Vec<String> = Vec::new();
        assert(views(v@) =~= Seq::<Seq<char>>::empty());
        return Ok(v);
    }
    let queries = walkthrough_queries(evidence);
    let ghost qs = views(queries@);
    let ghost key = evidence.subsystem_key@;
    let mut best: Option<FlowResult> = None;
    let mut best_index: usize = 0;
    let mut best_score: i32 = 0;
    let mut i: usize = 0;
    while i < queries.len()
        invariant
            i <= queries@.len(),
            qs == views(queries@),
            key == evidence.subsystem_key@,
            match best {
                None => best_walk(symbols.files@, qs, key, i as nat) is None,
                Some(f) => best_walk(symbols.files@, qs, key, i as nat) == Some(best_index as int)
                    && best_index < i && walk_candidate(symbols.files@, qs[best_index as int], key)
                    == Some(best_score as int) && f.query@ == qs[best_index as int] && Some(
                    (f.seed@, f.steps@),
                ) == flow_for(symbols.files@, qs[best_index as int]),
            },
        decreases queries.len() - i,
    {
        assert(qs[i as int] == queries@[i as int]@);
        let res = extract_flow(symbols, queries[i].as_str());
        if let Ok(flow) = res {
            assert(flow_for(symbols.files@, qs[i as int]) == Some((flow.seed@, flow.steps@)));
            if flow.steps.len() >= 2 && walk_score_fits_exec(&flow, evidence.subsystem_key.as_str())
                && !starts_private(
                flow.seed.as_str(),
            ) && !starts_private(flow.steps[0].label.as_str()) {
                let score = walkthrough_flow_score(&flow, evidence.subsystem_key.as_str());
                if score > 0 {
                    let better = match &best {
                        None => true,
                        Some(_) => score > best_score,
                    };
                    if better {
                        best = Some(flow);
                        best_index = i;
                        best_score = score;
                    }
                }
            }
        } else {
            assert(flow_for(symbols.files@, qs[i as int]) is None);
        }
        i = i + 1;
    }
    match best {
        None => {
            let v: Vec<String> = Vec::new();
            assert(views(v@) =~= Seq::<Seq<char>>::empty());
            Ok(v)
        },
        Some(flow) => format_subsystem_walkthrough(
            &flow,
            evidence.subsystem_key.as_str(),
            symbols,
            false,
        ),
    }
}


/// The last ranked file with path `p`.
pub open spec fn last_ranked(ranked: Seq<RankedFile>, p: Seq<char>) -> Option<RankedFile>
    decreases ranked.len(),
{
    if ranked.len() == 0 {
        None
    } else if ranked.last().file_path@ == p {
        Some(ranked.last())
    } else {
        last_ranked(ranked.drop_last(), p)
    }
}

/// The score of the last ranked file with path `p`, or 0.
pub open spec fn score_or_zero(ranked: Seq<RankedFile>, p: Seq<char>) -> u128 {
    match last_ranked(ranked, p) {
        Some(f) => f.score,
        None => 0,
    }
}

/// The inbound references of the last ranked file with path `p`, or 0.
pub open spec fn inbound_or_zero(ranked: Seq<RankedFile>, p: Seq<char>) -> usize {
    match last_ranked(ranked, p) {
        Some(f) => f.inbound_refs,
        None => 0,
    }
}

fn find_ranked<'a>(ranked: &'a Vec<RankedFile>, p: &str) -> (r: Option<&'a RankedFile>)
    ensures
        match r {
            None => last_ranked(ranked@, p@) is None,
            Some(f) => last_ranked(ranked@, p@) == Some(*f),
        },
{
    let pc = chars_of(p);
    let mut i: usize = ranked.len();
    assert(ranked@.take(ranked@.len() as int) =~= ranked@);
    while i > 0
        invariant
            i <= ranked@.len(),
            pc@ == p@,
            last_ranked(ranked@, p@) == last_ranked(ranked@.take(i as int), p@),
        decreases i,
    {
        assert(ranked@.take(i as int).last() == ranked@[i - 1]);
        let fc = chars_of(ranked[i - 1].file_path.as_str());
        if seq_eq(fc.as_slice(), pc.as_slice()) {
            return Some(&ranked[i - 1]);
        }
        assert(ranked@.take(i as int).drop_last() =~= ranked@.take(i - 1));
        i = i - 1;
    }
    None
}

/// A citation of a file with a role, its ranking numbers, and no anchor.
pub open spec fn plain_citation(
    c: ExplainCitation,
    path: Seq<char>,
    role: Seq<char>,
    ranked: Seq<RankedFile>,
) -> bool {
    &&& c.path@ == path
    &&& c.role@ == role
    &&& c.score == score_or_zero(ranked, path)
    &&& c.inbound_refs == inbound_or_zero(ranked, path)
    &&& c.anchor_line is None
    &&& c.anchor_symbol is None
    &&& c.snippet is None
}

/// The citations of the first eight steps of a reading plan.
pub fn citations_from_learn_steps(steps: &Vec<LearnStep>, ranked: &Vec<RankedFile>) -> (r: Vec<
    ExplainCitation,
>)
    ensures
        r@.len() == capped(steps@.len(), MAX_CITATIONS as nat),
        forall|i: int|
            0 <= i < r@.len() ==> plain_citation(
                #[trigger] r@[i],
                steps@[i].path@,
                steps@[i].reason@,
                ranked@,
            ),
{
    let mut out: Vec<ExplainCitation> = Vec::new();
    let mut i: usize = 0;
    while i < steps.len() && i < MAX_CITATIONS
        invariant
            i <= steps@.len(),
            i <= MAX_CITATIONS,
            out@.len() == i,
            forall|k: int|
                0 <= k < i ==> plain_citation(
                    #[trigger] out@[k],
                    steps@[k].path@,
                    steps@[k].reason@,
                    ranked@,
                ),
        decreases steps.len() - i,
    {
        let step = &steps[i];
        let (score, inbound) = match find_ranked(ranked, step.path.as_str()) {
            Some(f) => (f.score, f.inbound_refs),
            None => (0, 0),
        };
        out.push(
            ExplainCitation {
                path: step.path.clone(),
                role: step.reason.clone(),
                score,
                inbound_refs: inbound,
                anchor_line: None,
                anchor_symbol: None,
                snippet: None,
            },
        );
        i = i + 1;
    }
    out
}

/// The evidence fields that every match kind fills the same way: the topic,
/// the repository, the subsystem key and the entrypoints of that key, and no
/// derived sections yet.
pub open spec fn evidence_frame(
    e: ExplainEvidence,
    topic: Seq<char>,
    report: ArchitectureReport,
    key: Seq<char>,
) -> bool {
    &&& e.topic@ == topic
    &&& e.repository_name@ == report.repository_name@
    &&& e.subsystem_key@ == key
    &&& views(e.entrypoints@) == entrypoints_in(report.entrypoints@, key)
    &&& e.wiring_hints@.len() == 0
    &&& e.execution_flow@.len() == 0
    &&& e.purpose@.len() == 0
    &&& e.request_walkthrough@.len() == 0
}

/// The evidence of a subsystem match: the reading plan's first eight files as
/// citations.
pub open spec fn subsystem_evidence(
    e: ExplainEvidence,
    topic: Seq<char>,
    report: ArchitectureReport,
    ranked: Seq<RankedFile>,
    s: Subsystem,
) -> bool {
    &&& evidence_frame(e, topic, report, s.key@)
    &&& e.match_kind == ExplainMatchKind::Subsystem
    &&& e.flow_seed is None
    &&& e.subsystem_name@ == s.name@
    &&& e.file_count == s.file_count
    &&& e.internal_links == s.internal_links
    &&& exists|order: Seq<RankedFile>|
        {
            &&& learn_sorted(order)
            &&& order.to_multiset() == learn_candidates(ranked, s.key@).to_multiset()
            &&& e.citations@.len() == capped(order.len(), MAX_CITATIONS as nat)
            &&& forall|i: int|
                0 <= i < e.citations@.len() ==> plain_citation(
                    #[trigger] e.citations@[i],
                    order[i].file_path@,
                    learn_reason(order[i]),
                    ranked,
                )
        }
}

/// The evidence of a topic that names a subsystem.
pub fn gather_from_subsystem(
    topic: &str,
    report: &ArchitectureReport,
    ranked: &Vec<RankedFile>,
    subsystem: &Subsystem,
) -> (r: Result<ExplainEvidence, String>)
    requires
        ranked@.len() * 5 <= usize::MAX,
        normalized_topic(topic@).len() > 0,
        best_match(report.subsystems@, normalized_topic(topic@), report.subsystems@.len()) matches Some(
            k,
        ) && report.subsystems@[k] == *subsystem,
    ensures
        match r {
            Ok(e) => subsystem_evidence(e, topic@, *report, ranked@, *subsystem) && learn_candidates(
                ranked@,
                subsystem.key@,
            ).len() > 0,
            Err(msg) => learn_candidates(ranked@, subsystem.key@).len() == 0 && msg@
                == empty_subsystem_message(subsystem.name@),
        },
{
    let plan = match build_learning_path(&report.subsystems, ranked, topic) {
        Ok(p) => p,
        Err(e) => return Err(e),
    };
    let citations = citations_from_learn_steps(&plan.steps, ranked);
    let entrypoints = entrypoints_for_key(report, subsystem.key.as_str());
    let e = ExplainEvidence {
        topic: String::from_str(topic),
        repository_name: report.repository_name.clone(),
        match_kind: ExplainMatchKind::Subsystem,
        flow_seed: None,
        subsystem_name: subsystem.name.clone(),
        subsystem_key: subsystem.key.clone(),
        file_count: subsystem.file_count,
        internal_links: subsystem.internal_links,
        citations,
        entrypoints,
        wiring_hints: Vec::new(),
        execution_flow: Vec::new(),
        purpose: Vec::new(),
        request_walkthrough: Vec::new(),
    };
    proof {
        let order = choose|order: Seq<RankedFile>|
            {
                &&& learn_sorted(order)
                &&& order.to_multiset() == learn_candidates(
                    ranked@,
                    report.subsystems@[best_match(
                        report.subsystems@,
                        normalized_topic(topic@),
                        report.subsystems@.len(),
                    )->0].key@,
                ).to_multiset()
                &&& plan.steps@.len() == order.len()
                &&& forall|i: int|
                    0 <= i < order.len() ==> (#[trigger] plan.steps@[i]).path@
                        == order[i].file_path@ && plan.steps@[i].reason@ == learn_reason(order[i])
            };
        assert forall|i: int| 0 <= i < e.citations@.len() implies plain_citation(
            #[trigger] e.citations@[i],
            order[i].file_path@,
            learn_reason(order[i]),
            ranked@,
        ) by {
            assert(plain_citation(
                e.citations@[i],
                plan.steps@[i].path@,
                plan.steps@[i].reason@,
                ranked@,
            ));
        }
    }
    Ok(e)
}


/// The first step of each file of a flow, in order.
pub open spec fn first_steps(steps: Seq<FlowStep>) -> Seq<FlowStep>
    decreases steps.len(),
{
    if steps.len() == 0 {
        Seq::empty()
    } else {
        let prev = first_steps(steps.drop_last());
        if exists|k: int| 0 <= k < prev.len() && (#[trigger] prev[k]).file@ == steps.last().file@ {
            prev
        } else {
            prev.push(steps.last())
        }
    }
}

proof fn lemma_first_steps_prefix(steps: Seq<FlowStep>, i: int)
    requires
        0 <= i <= steps.len(),
    ensures
        first_steps(steps.take(i)).len() <= first_steps(steps).len(),
        first_steps(steps.take(i)) == first_steps(steps).take(first_steps(steps.take(i)).len() as int),
    decreases steps.len() - i,
{
    if i == steps.len() {
        assert(steps.take(i) =~= steps);
        assert(first_steps(steps).take(first_steps(steps).len() as int) =~= first_steps(steps));
    } else {
        lemma_first_steps_prefix(steps, i + 1);
        assert(steps.take(i + 1).drop_last() =~= steps.take(i));
        let a = first_steps(steps.take(i));
        let b = first_steps(steps.take(i + 1));
        let c = first_steps(steps);
        assert(a =~= b.take(a.len() as int));
        assert(a =~= c.take(a.len() as int));
    }
}

/// A citation of a flow step: its file, role, ranking numbers and anchor.
pub open spec fn flow_citation(c: ExplainCitation, s: FlowStep, ranked: Seq<RankedFile>) -> bool {
    &&& c.path@ == s.file@
    &&& c.role@ == "flow step: "@ + s.label@
    &&& c.score == score_or_zero(ranked, s.file@)
    &&& c.inbound_refs == inbound_or_zero(ranked, s.file@)
    &&& c.anchor_line == s.line
    &&& c.anchor_symbol matches Some(a) && a@ == s.label@
    &&& c.snippet is None
}

/// The index of the first subsystem with key `key`.
pub open spec fn subsystem_index(subs: Seq<Subsystem>, key: Seq<char>) -> Option<int>
    decreases subs.len(),
{
    if subs.len() == 0 {
        None
    } else if subs[0].key@ == key {
        Some(0)
    } else {
        match subsystem_index(subs.drop_first(), key) {
            Some(i) => Some(i + 1),
            None => None,
        }
    }
}

proof fn lemma_subsystem_index(subs: Seq<Subsystem>, key: Seq<char>)
    ensures
        subsystem_index(subs, key) matches Some(i) ==> 0 <= i < subs.len() && subs[i].key@ == key,
    decreases subs.len(),
{
    if subs.len() > 0 {
        lemma_subsystem_index(subs.drop_first(), key);
    }
}

fn find_subsystem_by_key<'a>(subs: &'a Vec<Subsystem>, key: &[char]) -> (r: Option<&'a Subsystem>)
    ensures
        match r {
            None => subsystem_index(subs@, key@) is None,
            Some(s) => subsystem_index(subs@, key@) matches Some(i) && *s == subs@[i],
        },
{
    let mut i: usize = 0;
    assert(subs@.skip(0) =~= subs@);
    while i < subs.len()
        invariant
            i <= subs@.len(),
            subsystem_index(subs@, key@) == match subsystem_index(subs@.skip(i as int), key@) {
                Some(j) => Some(j + i),
                None => None,
            },
        decreases subs.len() - i,
    {
        assert(subs@.skip(i as int)[0] == subs@[i as int]);
        let kc = chars_of(subs[i].key.as_str());
        if seq_eq(kc.as_slice(), key) {
            return Some(&subs[i]);
        }
        assert(subs@.skip(i as int).drop_first() =~= subs@.skip(i + 1));
        i = i + 1;
    }
    None
}

/// The subsystem key that a list of cited paths points to: that of the first
/// path, or `(root)`.
pub open spec fn dominant_key(first_path: Option<Seq<char>>) -> Seq<char> {
    match first_path {
        Some(p) => key_of(p),
        None => "(root)"@,
    }
}

/// The subsystem name and link count of the evidence for key `key`: those of
/// the first subsystem with that key, else `fallback` and none.
pub open spec fn named_area(
    e: ExplainEvidence,
    subs: Seq<Subsystem>,
    key: Seq<char>,
    fallback: Seq<char>,
) -> bool {
    match subsystem_index(subs, key) {
        Some(j) => e.subsystem_name@ == subs[j].name@ && e.internal_links == subs[j].internal_links,
        None => e.subsystem_name@ == fallback && e.internal_links == 0,
    }
}

/// The evidence of a flow match: the first step of each file (at most eight)
/// as citations.
pub open spec fn flow_evidence(
    e: ExplainEvidence,
    topic: Seq<char>,
    report: ArchitectureReport,
    ranked: Seq<RankedFile>,
    seed: Seq<char>,
    steps: Seq<FlowStep>,
) -> bool {
    let fs = first_steps(steps);
    let cs = fs.take(capped(fs.len(), MAX_CITATIONS as nat) as int);
    let key = dominant_key(
        if cs.len() > 0 {
            Some(cs[0].file@)
        } else {
            None
        },
    );
    &&& evidence_frame(e, topic, report, key)
    &&& e.match_kind == ExplainMatchKind::Flow
    &&& e.flow_seed matches Some(sd) && sd@ == seed
    &&& e.citations@.len() == cs.len()
    &&& forall|i: int|
        0 <= i < cs.len() ==> flow_citation(#[trigger] e.citations@[i], cs[i], ranked)
    &&& e.file_count == cs.len()
    &&& named_area(e, report.subsystems@, key, "Flow trace"@)
}

/// The evidence of a topic that names a flow.
pub fn gather_from_flow(
    topic: &str,
    report: &ArchitectureReport,
    ranked: &Vec<RankedFile>,
    flow: &FlowResult,
) -> (r: Result<ExplainEvidence, String>)
    ensures
        r matches Ok(e) && flow_evidence(e, topic@, *report, ranked@, flow.seed@, flow.steps@),
{
    let ghost steps = flow.steps@;
    let mut citations: Vec<ExplainCitation> = Vec::new();
    let mut i: usize = 0;
    while i < flow.steps.len() && citations.len() < MAX_CITATIONS
        invariant
            i <= steps.len(),
            steps == flow.steps@,
            citations@.len() == first_steps(steps.take(i as int)).len(),
            citations@.len() <= MAX_CITATIONS,
            forall|k: int|
                0 <= k < citations@.len() ==> flow_citation(
                    #[trigger] citations@[k],
                    first_steps(steps.take(i as int))[k],
                    ranked@,
                ),
        decreases steps.len() - i,
    {
        assert(steps.take(i + 1).drop_last() =~= steps.take(i as int));
        assert(steps.take(i + 1).last() == steps[i as int]);
        let ghost prev = first_steps(steps.take(i as int));
        let step = &flow.steps[i];
        let fc = chars_of(step.file.as_str());
        let mut seen = false;
        let mut k: usize = 0;
        while k < citations.len()
            invariant
                k <= citations@.len(),
                citations@.len() == prev.len(),
                fc@ == step.file@,
                forall|m: int|
                    0 <= m < citations@.len() ==> flow_citation(#[trigger] citations@[m], prev[m], ranked@),
                seen == exists|m: int| 0 <= m < k && (#[trigger] prev[m]).file@ == step.file@,
            decreases citations.len() - k,
        {
            assert(flow_citation(citations@[k as int], prev[k as int], ranked@));
            let pc = chars_of(citations[k].path.as_str());
            if seq_eq(pc.as_slice(), fc.as_slice()) {
                seen = true;
            }
            k = k + 1;
        }
        if !seen {
            let (score, inbound) = match find_ranked(ranked, step.file.as_str()) {
                Some(f) => (f.score, f.inbound_refs),
                None => (0, 0),
            };
            let mut role = chars_of("flow step: ");
            let lc = chars_of(step.label.as_str());
            append_chars(&mut role, lc.as_slice());
            let ghost before = citations@;
            citations.push(
                ExplainCitation {
                    path: step.file.clone(),
                    role: string_of(role.as_slice()),
                    score,
                    inbound_refs: inbound,
                    anchor_line: step.line,
                    anchor_symbol: Some(step.label.clone()),
                    snippet: None,
                },
            );
            assert forall|m: int| 0 <= m < citations@.len() implies flow_citation(
                #[trigger] citations@[m],
                first_steps(steps.take(i + 1))[m],
                ranked@,
            ) by {
                if m < before.len() {
                    assert(citations@[m] == before[m]);
                }
            }
        }
        i = i + 1;
    }
    proof {
        lemma_first_steps_prefix(steps, i as int);
        if i == steps.len() {
            assert(steps.take(i as int) =~= steps);
        }
    }
    let ghost cs = first_steps(steps).take(
        capped(first_steps(steps).len(), MAX_CITATIONS as nat) as int,
    );
    assert(first_steps(steps.take(i as int)) =~= cs);
    let key = if citations.len() > 0 {
        subsystem_key(citations[0].path.as_str())
    } else {
        String::from_str("(root)")
    };
    let kc = chars_of(key.as_str());
    let found = find_subsystem_by_key(&report.subsystems, kc.as_slice());
    proof {
        lemma_subsystem_index(report.subsystems@, kc@);
    }
    let (name, links) = match found {
        Some(s) => (s.name.clone(), s.internal_links),
        None => (String::from_str("Flow trace"), 0),
    };
    let entrypoints = entrypoints_for_key(report, key.as_str());
    let count = citations.len();
    Ok(
        ExplainEvidence {
            topic: String::from_str(topic),
            repository_name: report.repository_name.clone(),
            match_kind: ExplainMatchKind::Flow,
            flow_seed: Some(flow.seed.clone()),
            subsystem_name: name,
            subsystem_key: key,
            file_count: count,
            internal_links: links,
            citations,
            entrypoints,
            wiring_hints: Vec::new(),
            execution_flow: Vec::new(),
            purpose: Vec::new(),
            request_walkthrough: Vec::new(),
        },
    )
}


/// A code path that contains the topic.
pub open spec fn path_hit(p: Seq<char>, nt: Seq<char>) -> bool {
    !excluded_from_clustering(p) && contains(lower_text(p), nt)
}

/// A parsed code file with a definition whose name contains the topic.
pub open spec fn symbol_hit(f: ParsedFile, nt: Seq<char>) -> bool {
    !excluded_from_clustering(f.path@) && exists|d: int|
        0 <= d < f.definitions@.len() && contains(lower_text(#[trigger] f.definitions@[d].name@), nt)
}

/// A path matched by name or by the symbols of a parsed file with that path.
pub open spec fn path_matched(files: Seq<ParsedFile>, p: Seq<char>, nt: Seq<char>) -> bool {
    path_hit(p, nt) || exists|k: int| 0 <= k < files.len() && #[trigger] files[k].path@ == p && symbol_hit(
        files[k],
        nt,
    )
}

/// Some ranked path or parsed file matches the topic.
pub open spec fn any_path_match(ranked: Seq<RankedFile>, files: Seq<ParsedFile>, nt: Seq<char>) -> bool {
    (exists|k: int| 0 <= k < ranked.len() && path_hit(#[trigger] ranked[k].file_path@, nt)) || (
    exists|k: int| 0 <= k < files.len() && symbol_hit(#[trigger] files[k], nt))
}

/// The ranked files whose paths are matched, in order.
pub open spec fn matched_rows(ranked: Seq<RankedFile>, files: Seq<ParsedFile>, nt: Seq<char>) -> Seq<
    RankedFile,
>
    decreases ranked.len(),
{
    if ranked.len() == 0 {
        Seq::empty()
    } else {
        let prev = matched_rows(ranked.drop_last(), files, nt);
        if path_matched(files, ranked.last().file_path@, nt) {
            prev.push(ranked.last())
        } else {
            prev
        }
    }
}

/// The message for a topic that matches nothing.
pub open spec fn no_match_anywhere(topic: Seq<char>) -> Seq<char> {
    "no subsystem, flow, or file match for '"@ + topic
        + "' — try `atlas architecture` or `atlas flow "@ + topic + "`"@
}

/// A citation of a ranked file matched by path or symbol name.
pub open spec fn match_citation(c: ExplainCitation, f: RankedFile) -> bool {
    &&& c.path@ == f.file_path@
    &&& c.role@ == "path or symbol name match"@
    &&& c.score == f.score
    &&& c.inbound_refs == f.inbound_refs
    &&& c.anchor_line is None
    &&& c.anchor_symbol is None
    &&& c.snippet is None
}

/// The evidence of a path or symbol-name match: the best eight matched files.
pub open spec fn path_evidence(
    e: ExplainEvidence,
    topic: Seq<char>,
    report: ArchitectureReport,
    ranked: Seq<RankedFile>,
    files: Seq<ParsedFile>,
) -> bool {
    let nt = normalized_topic(topic);
    exists|order: Seq<RankedFile>|
        #![trigger rank_sorted(order)]
        {
            let cs = order.take(capped(order.len(), MAX_CITATIONS as nat) as int);
            let key = dominant_key(
                if cs.len() > 0 {
                    Some(cs[0].file_path@)
                } else {
                    None
                },
            );
            &&& rank_sorted(order)
            &&& order.to_multiset() == matched_rows(ranked, files, nt).to_multiset()
            &&& evidence_frame(e, topic, report, key)
            &&& e.match_kind == ExplainMatchKind::Path
            &&& e.flow_seed is None
            &&& e.citations@.len() == cs.len()
            &&& forall|i: int|
                0 <= i < cs.len() ==> match_citation(#[trigger] e.citations@[i], cs[i])
            &&& e.file_count == cs.len()
            &&& named_area(e, report.subsystems@, key, "Matched files"@)
        }
}

fn has_symbol_hit(f: &ParsedFile, nt: &[char]) -> (r: bool)
    ensures
        r == symbol_hit(*f, nt@),
{
    if is_excluded_from_clustering(f.path.as_str()) {
        return false;
    }
    let mut d: usize = 0;
    while d < f.definitions.len()
        invariant
            d <= f.definitions@.len(),
            !excluded_from_clustering(f.path@),
            forall|k: int|
                0 <= k < d ==> !contains(lower_text(#[trigger] f.definitions@[k].name@), nt@),
        decreases f.definitions.len() - d,
    {
        let nl = lower_chars(f.definitions[d].name.as_str());
        if contains_seq(nl.as_slice(), nt) {
            assert(contains(lower_text(f.definitions@[d as int].name@), nt@));
            return true;
        }
        d = d + 1;
    }
    false
}

fn is_path_hit(p: &str, nt: &[char]) -> (r: bool)
    ensures
        r == path_hit(p@, nt@),
{
    if is_excluded_from_clustering(p) {
        return false;
    }
    let pl = lower_chars(p);
    contains_seq(pl.as_slice(), nt)
}

fn is_path_matched(files: &Vec<ParsedFile>, p: &str, nt: &[char]) -> (r: bool)
    ensures
        r == path_matched(files@, p@, nt@),
{
    if is_path_hit(p, nt) {
        return true;
    }
    let pc = chars_of(p);
    let mut k: usize = 0;
    while k < files.len()
        invariant
            k <= files@.len(),
            pc@ == p@,
            forall|j: int|
                0 <= j < k ==> !(#[trigger] files@[j].path@ == p@ && symbol_hit(files@[j], nt@)),
        decreases files.len() - k,
    {
        let fc = chars_of(files[k].path.as_str());
        if seq_eq(fc.as_slice(), pc.as_slice()) && has_symbol_hit(&files[k], nt) {
            return true;
        }
        k = k + 1;
    }
    false
}

/// The evidence of a topic matched by file path or symbol name.
pub fn gather_from_path_match(
    topic: &str,
    report: &ArchitectureReport,
    ranked: &Vec<RankedFile>,
    symbols: &ParseOutput,
) -> (r: Result<ExplainEvidence, String>)
    ensures
        match r {
            Ok(e) => any_path_match(ranked@, symbols.files@, normalized_topic(topic@)) && path_evidence(
                e,
                topic@,
                *report,
                ranked@,
                symbols.files@,
            ),
            Err(msg) => !any_path_match(ranked@, symbols.files@, normalized_topic(topic@)) && msg@
                == no_match_anywhere(topic@),
        },
{
    let tc = chars_of(topic);
    let trimmed = crate::text::trim_exec(tc.as_slice());
    let ts = string_of(trimmed.as_slice());
    let nt = lower_chars(ts.as_str());
    let ghost ntv = normalized_topic(topic@);
    assert(nt@ == ntv);
    let mut any = false;
    let mut i: usize = 0;
    while i < ranked.len()
        invariant
            i <= ranked@.len(),
            any == exists|k: int| 0 <= k < i && path_hit(#[trigger] ranked@[k].file_path@, nt@),
        decreases ranked.len() - i,
    {
        if is_path_hit(ranked[i].file_path.as_str(), nt.as_slice()) {
            any = true;
        }
        i = i + 1;
    }
    let mut j: usize = 0;
    while j < symbols.files.len()
        invariant
            j <= symbols.files@.len(),
            any == ((exists|k: int| 0 <= k < ranked@.len() && path_hit(#[trigger] ranked@[k].file_path@, nt@))
                || exists|k: int| 0 <= k < j && symbol_hit(#[trigger] symbols.files@[k], nt@)),
        decreases symbols.files.len() - j,
    {
        if has_symbol_hit(&symbols.files[j], nt.as_slice()) {
            any = true;
        }
        j = j + 1;
    }
    if !any {
        let mut msg = chars_of("no subsystem, flow, or file match for '");
        append_chars(&mut msg, tc.as_slice());
        push_str(&mut msg, "' — try `atlas architecture` or `atlas flow ");
        append_chars(&mut msg, tc.as_slice());
        push_str(&mut msg, "`");
        return Err(string_of(msg.as_slice()));
    }
    let mut rows: Vec<RankedFile> = Vec::new();
    let mut m: usize = 0;
    while m < ranked.len()
        invariant
            m <= ranked@.len(),
            rows@ == matched_rows(ranked@.take(m as int), symbols.files@, nt@),
        decreases ranked.len() - m,
    {
        assert(ranked@.take(m + 1).drop_last() =~= ranked@.take(m as int));
        if is_path_matched(&symbols.files, ranked[m].file_path.as_str(), nt.as_slice()) {
            rows.push(ranked[m].duplicate());
        }
        m = m + 1;
    }
    assert(ranked@.take(ranked@.len() as int) =~= ranked@);
    let order = sort_ranked(&rows);
    let mut citations: Vec<ExplainCitation> = Vec::new();
    let mut c: usize = 0;
    while c < order.len() && c < MAX_CITATIONS
        invariant
            c <= order@.len(),
            c <= MAX_CITATIONS,
            citations@.len() == c,
            forall|k: int| 0 <= k < c ==> match_citation(#[trigger] citations@[k], order@[k]),
        decreases order.len() - c,
    {
        let f = &order[c];
        citations.push(
            ExplainCitation {
                path: f.file_path.clone(),
                role: String::from_str("path or symbol name match"),
                score: f.score,
                inbound_refs: f.inbound_refs,
                anchor_line: None,
                anchor_symbol: None,
                snippet: None,
            },
        );
        c = c + 1;
    }
    let ghost cs = order@.take(capped(order@.len(), MAX_CITATIONS as nat) as int);
    let key = if citations.len() > 0 {
        subsystem_key(citations[0].path.as_str())
    } else {
        String::from_str("(root)")
    };
    let kc = chars_of(key.as_str());
    let found = find_subsystem_by_key(&report.subsystems, kc.as_slice());
    let (name, links) = match found {
        Some(s) => (s.name.clone(), s.internal_links),
        None => (String::from_str("Matched files"), 0),
    };
    let entrypoints = entrypoints_for_key(report, key.as_str());
    let count = citations.len();
    let e = ExplainEvidence {
        topic: String::from_str(topic),
        repository_name: report.repository_name.clone(),
        match_kind: ExplainMatchKind::Path,
        flow_seed: None,
        subsystem_name: name,
        subsystem_key: key,
        file_count: count,
        internal_links: links,
        citations,
        entrypoints,
        wiring_hints: Vec::new(),
        execution_flow: Vec::new(),
        purpose: Vec::new(),
        request_walkthrough: Vec::new(),
    };
    proof {
        assert(forall|i: int| 0 <= i < cs.len() ==> cs[i] == order@[i]);
    }
    Ok(e)
}


/// The evidence for a topic: a subsystem the topic names, else a flow it
/// names, else the files whose path or symbols match it.
pub open spec fn evidence_for(
    e: ExplainEvidence,
    topic: Seq<char>,
    report: ArchitectureReport,
    ranked: Seq<RankedFile>,
    files: Seq<ParsedFile>,
) -> bool {
    let nt = normalized_topic(topic);
    match best_match(report.subsystems@, nt, report.subsystems@.len()) {
        Some(k) => subsystem_evidence(e, topic, report, ranked, report.subsystems@[k])
            && learn_candidates(ranked, report.subsystems@[k].key@).len() > 0,
        None => match flow_for(files, topic) {
            Some(f) => flow_evidence(e, topic, report, ranked, f.0, f.1),
            None => any_path_match(ranked, files, nt) && path_evidence(e, topic, report, ranked, files),
        },
    }
}

/// Why no evidence is found for a topic.
pub open spec fn evidence_error(
    msg: Seq<char>,
    topic: Seq<char>,
    report: ArchitectureReport,
    ranked: Seq<RankedFile>,
    files: Seq<ParsedFile>,
) -> bool {
    let nt = normalized_topic(topic);
    if nt.len() == 0 {
        msg == "explain topic cannot be empty"@
    } else {
        match best_match(report.subsystems@, nt, report.subsystems@.len()) {
            Some(k) => learn_candidates(ranked, report.subsystems@[k].key@).len() == 0 && msg
                == empty_subsystem_message(report.subsystems@[k].name@),
            None => flow_for(files, topic) is None && !any_path_match(ranked, files, nt) && msg
                == no_match_anywhere(topic),
        }
    }
}

/// The evidence for an explanation of a topic, from the architecture report,
/// the ranked code files and the parsed files (before snippets and the
/// derived sections are added).
pub fn gather_evidence(
    topic: &str,
    report: &ArchitectureReport,
    ranked: &Vec<RankedFile>,
    symbols: &ParseOutput,
) -> (r: Result<ExplainEvidence, String>)
    requires
        ranked@.len() * 5 <= usize::MAX,
    ensures
        match r {
            Ok(e) => normalized_topic(topic@).len() > 0 && evidence_for(
                e,
                topic@,
                *report,
                ranked@,
                symbols.files@,
            ),
            Err(msg) => evidence_error(msg@, topic@, *report, ranked@, symbols.files@),
        },
{
    let tc = chars_of(topic);
    let trimmed = crate::text::trim_exec(tc.as_slice());
    let ts = string_of(trimmed.as_slice());
    let nt = lower_chars(ts.as_str());
    if nt.len() == 0 {
        return Err(String::from_str("explain topic cannot be empty"));
    }
    if let Ok(subsystem) = find_subsystem(&report.subsystems, topic) {
        return gather_from_subsystem(topic, report, ranked, subsystem);
    }
    if let Ok(flow) = extract_flow(symbols, topic) {
        assert(flow_for(symbols.files@, topic@) == Some((flow.seed@, flow.steps@)));
        return gather_from_flow(topic, report, ranked, &flow);
    }
    gather_from_path_match(topic, report, ranked, symbols)
}

/// The view of an optional string.
pub open spec fn string_opt_view(o: Option<String>) -> Option<Seq<char>> {
    match o {
        Some(s) => Some(s@),
        None => None,
    }
}

/// The text read for citation `i`, if any.
pub open spec fn content_at(contents: Seq<Option<String>>, i: int) -> Option<Seq<char>> {
    if 0 <= i < contents.len() {
        string_opt_view(contents[i])
    } else {
        None
    }
}

/// A citation after a snippet is attached: when its file is parsed, an anchor
/// is found, and its text was read and is not empty, the anchor and the
/// snippet are set; otherwise it stays as it was.
pub open spec fn with_snippet(
    old: ExplainCitation,
    new: ExplainCitation,
    files: Seq<ParsedFile>,
    topic: Seq<char>,
    content: Option<Seq<char>>,
) -> bool {
    match last_parsed(files, old.path@) {
        None => new == old,
        Some(p) => match anchor(p.definitions@, topic, old.role@, string_opt_view(old.anchor_symbol)) {
            None => new == old,
            Some(a) => match content {
                None => new == old,
                Some(text) => if text_lines(text).len() == 0 {
                    new == old
                } else {
                    &&& new.path == old.path
                    &&& new.role == old.role
                    &&& new.score == old.score
                    &&& new.inbound_refs == old.inbound_refs
                    &&& new.anchor_line == Some(a.0)
                    &&& new.anchor_symbol matches Some(sym) && sym@ == a.1
                    &&& new.snippet matches Some(sn) && snippet_of(sn, text, a.0)
                },
            },
        },
    }
}

/// Two evidences that differ at most in their citations.
pub open spec fn same_but_citations(a: ExplainEvidence, b: ExplainEvidence) -> bool {
    &&& a.topic == b.topic
    &&& a.repository_name == b.repository_name
    &&& a.match_kind == b.match_kind
    &&& a.flow_seed == b.flow_seed
    &&& a.subsystem_name == b.subsystem_name
    &&& a.subsystem_key == b.subsystem_key
    &&& a.file_count == b.file_count
    &&& a.internal_links == b.internal_links
    &&& a.entrypoints == b.entrypoints
    &&& a.wiring_hints == b.wiring_hints
    &&& a.execution_flow == b.execution_flow
    &&& a.purpose == b.purpose
    &&& a.request_walkthrough == b.request_walkthrough
}

fn opt_str<'a>(o: &'a Option<String>) -> (r: Option<&'a str>)
    ensures
        crate::snippets::str_opt_view(r) == string_opt_view(*o),
{
    match o {
        Some(s) => Some(s.as_str()),
        None => None,
    }
}

/// Attaches source snippets to the first five citations, from the texts read
/// for them (`contents[i]` for citation `i`, `None` when it could not be read).
pub fn attach_snippets(
    evidence: &mut ExplainEvidence,
    symbols: &ParseOutput,
    topic: &str,
    contents: &Vec<Option<String>>,
)
    ensures
        same_but_citations(*final(evidence), *old(evidence)),
        final(evidence).citations@.len() == old(evidence).citations@.len(),
        forall|i: int|
            0 <= i < old(evidence).citations@.len() ==> if i < MAX_SNIPPETS {
                with_snippet(
                    old(evidence).citations@[i],
                    #[trigger] final(evidence).citations@[i],
                    symbols.files@,
                    topic@,
                    content_at(contents@, i),
                )
            } else {
                final(evidence).citations@[i] == old(evidence).citations@[i]
            },
{
    let mut rest: Vec<ExplainCitation> = Vec::new();
    std::mem::swap(&mut evidence.citations, &mut rest);
    let ghost orig = rest@;
    let n = rest.len();
    let mut done: Vec<ExplainCitation> = Vec::new();
    let mut i: usize = 0;
    while rest.len() > 0
        invariant
            n == orig.len(),
            i + rest@.len() == orig.len(),
            rest@ == orig.skip(i as int),
            done@.len() == i,
            forall|k: int|
                0 <= k < i ==> if k < MAX_SNIPPETS {
                    with_snippet(
                        orig[k],
                        #[trigger] done@[k],
                        symbols.files@,
                        topic@,
                        content_at(contents@, k),
                    )
                } else {
                    done@[k] == orig[k]
                },
        decreases rest@.len(),
    {
        let c = rest.remove(0);
        assert(c == orig[i as int]);
        assert(rest@ =~= orig.skip(i + 1));
        let mut updated = false;
        let mut next: Option<ExplainCitation> = None;
        if i < MAX_SNIPPETS {
            if let Some(parsed) = find_parsed(&symbols.files, c.path.as_str()) {
                let preferred = opt_str(&c.anchor_symbol);
                if let Some((line, symbol)) = resolve_anchor(
                    parsed,
                    topic,
                    c.role.as_str(),
                    preferred,
                ) {
                    if i < contents.len() {
                        if let Some(text) = &contents[i] {
                            if let Ok(snippet) = snippet_from_source(
                                c.path.as_str(),
                                text.as_str(),
                                line,
                            ) {
                                next = Some(
                                    ExplainCitation {
                                        path: c.path.clone(),
                                        role: c.role.clone(),
                                        score: c.score,
                                        inbound_refs: c.inbound_refs,
                                        anchor_line: Some(line),
                                        anchor_symbol: Some(symbol),
                                        snippet: Some(snippet),
                                    },
                                );
                                updated = true;
                            }
                        }
                    }
                }
            }
        }
        match next {
            Some(n) => done.push(n),
            None => done.push(c),
        }
        i = i + 1;
    }
    evidence.citations = done;
}

/// Adds the derived sections of an explanation: wiring hints, execution flow,
/// purpose and request walkthrough.
pub fn enrich_context(evidence: &mut ExplainEvidence, symbols: &ParseOutput) -> (r: Result<
    (),
    String,
>)
    ensures
        r is Ok,
        final(evidence).topic == old(evidence).topic,
        final(evidence).repository_name == old(evidence).repository_name,
        final(evidence).match_kind == old(evidence).match_kind,
        final(evidence).flow_seed == old(evidence).flow_seed,
        final(evidence).subsystem_name == old(evidence).subsystem_name,
        final(evidence).subsystem_key == old(evidence).subsystem_key,
        final(evidence).file_count == old(evidence).file_count,
        final(evidence).internal_links == old(evidence).internal_links,
        final(evidence).citations == old(evidence).citations,
        final(evidence).entrypoints == old(evidence).entrypoints,
        views(final(evidence).wiring_hints@) == wiring_hints_of(*old(evidence), symbols.files@),
        views(final(evidence).execution_flow@) == execution_flow_of(
            *old(evidence),
            symbols.files@,
        ),
        views(final(evidence).purpose@) == purpose_of(*old(evidence), symbols.files@),
        if old(evidence).match_kind == ExplainMatchKind::Flow {
            exists|steps: Seq<FlowStep>|
                {
                    &&& anchored_steps_match(old(evidence).citations@, steps)
                    &&& views(final(evidence).request_walkthrough@) == if steps.len() < 2 {
                        Seq::empty()
                    } else {
                        walkthrough_lines(seed_or_topic(*old(evidence)), steps, symbols.files@, false)
                    }
                }
        } else if old(evidence).match_kind != ExplainMatchKind::Subsystem || middleware_area(
            *old(evidence),
        ) {
            views(final(evidence).request_walkthrough@) == Seq::<Seq<char>>::empty()
        } else {
            views(final(evidence).request_walkthrough@) == subsystem_request_walk(
                *old(evidence),
                symbols.files@,
            )
        },
{
    let hints = build_wiring_hints(evidence, symbols);
    let flow_lines = build_execution_flow(evidence, symbols);
    let purpose = build_purpose(evidence, symbols);
    let walk = match build_request_walkthrough(evidence, symbols) {
        Ok(w) => w,
        Err(e) => return Err(e),
    };
    evidence.wiring_hints = hints;
    evidence.execution_flow = flow_lines;
    evidence.purpose = purpose;
    evidence.request_walkthrough = walk;
    Ok(())
}


/// The reading steps of an overview: the first five citations with their details.
pub open spec fn reading_steps_match(steps: Seq<OverviewReadingStep>, cs: Seq<ExplainCitation>) -> bool {
    &&& steps.len() == capped(cs.len(), 5)
    &&& forall|i: int|
        0 <= i < steps.len() ==> (#[trigger] steps[i]).path == cs[i].path && steps[i].detail@
            == reading_detail(cs[i], i)
}

/// The summary lines of a subsystem overview.
pub open spec fn subsystem_summary(e: ExplainEvidence) -> Seq<Seq<char>> {
    let head = seq![
        "Matched \""@ + e.topic@ + "\" → "@ + e.subsystem_name@ + " ("@ + e.subsystem_key@ + ")"@,
        size_line(e.file_count, e.internal_links),
    ];
    if e.internal_links == 0 {
        head.push(wiring_note_text())
    } else {
        head
    }
}

/// The overview of a subsystem explanation.
pub fn subsystem_overview(evidence: &ExplainEvidence) -> (r: ExplainOverview)
    ensures
        views(r.summary_lines@) == subsystem_summary(*evidence),
        reading_steps_match(r.reading_steps@, evidence.citations@),
{
    let mut first = chars_of("Matched \"");
    let tc = chars_of(evidence.topic.as_str());
    append_chars(&mut first, tc.as_slice());
    push_str(&mut first, "\" → ");
    let nc = chars_of(evidence.subsystem_name.as_str());
    append_chars(&mut first, nc.as_slice());
    push_str(&mut first, " (");
    let kc = chars_of(evidence.subsystem_key.as_str());
    append_chars(&mut first, kc.as_slice());
    push_str(&mut first, ")");
    let mut summary: Vec<String> = Vec::new();
    let l1 = string_of(first.as_slice());
    let l2 = subsystem_size_line(evidence);
    summary.push(l1);
    summary.push(l2);
    assert(views(summary@) =~= seq![l1@, l2@]);
    if let Some(note) = subsystem_wiring_note(evidence) {
        let ghost before = views(summary@);
        summary.push(note);
        assert(views(summary@) =~= before.push(wiring_note_text()));
    }
    let mut steps: Vec<OverviewReadingStep> = Vec::new();
    let mut i: usize = 0;
    while i < evidence.citations.len() && i < 5
        invariant
            i <= evidence.citations@.len(),
            i <= 5,
            steps@.len() == i,
            forall|k: int|
                0 <= k < i ==> (#[trigger] steps@[k]).path == evidence.citations@[k].path
                    && steps@[k].detail@ == reading_detail(evidence.citations@[k], k),
        decreases evidence.citations.len() - i,
    {
        let c = &evidence.citations[i];
        steps.push(
            OverviewReadingStep { path: c.path.clone(), detail: citation_reading_detail(c, i) },
        );
        i = i + 1;
    }
    ExplainOverview { summary_lines: summary, reading_steps: steps }
}

/// The anchor symbols of the citations, in order.
pub open spec fn anchor_chain(cs: Seq<ExplainCitation>) -> Seq<Seq<char>>
    decreases cs.len(),
{
    if cs.len() == 0 {
        Seq::empty()
    } else {
        let prev = anchor_chain(cs.drop_last());
        match cs.last().anchor_symbol {
            Some(a) => prev.push(a@),
            None => prev,
        }
    }
}

/// The overview of a flow explanation.
pub open spec fn flow_overview_of(e: ExplainEvidence) -> Seq<Seq<char>> {
    let cs = e.citations@;
    let first = seq![
        "Atlas resolved \""@ + e.topic@ + "\" as a call-graph flow starting at seed \""@
            + seed_or_topic(e) + "\" in the "@ + e.subsystem_name@ + " area."@,
    ];
    let second = if cs.len() == 0 {
        Seq::empty()
    } else {
        let anchor = match cs[0].anchor_symbol {
            Some(a) => a@,
            None => "the matched symbol"@,
        };
        if cs.len() == 1 {
            seq![
                "Atlas found the matching seed in "@ + cs[0].path@ + " at "@ + anchor
                    + ", but did not resolve a reliable downstream file transition."@,
            ]
        } else {
            seq![
                "The trace begins in "@ + cs[0].path@ + " at "@ + anchor + " and continues through "@
                    + decimal((cs.len() - 1) as nat) + " downstream file(s)."@,
            ]
        }
    };
    let chain = anchor_chain(cs);
    let third = if chain.len() > 1 {
        seq!["Call chain: "@ + join(chain, " → "@) + "."@]
    } else {
        Seq::empty()
    };
    first + second + third
}

/// The overview paragraphs of a flow explanation.
pub fn flow_overview(evidence: &ExplainEvidence) -> (r: Vec<String>)
    ensures
        views(r@) == flow_overview_of(*evidence),
{
    let mut out = chars_of("Atlas resolved \"");
    let tc = chars_of(evidence.topic.as_str());
    append_chars(&mut out, tc.as_slice());
    push_str(&mut out, "\" as a call-graph flow starting at seed \"");
    match &evidence.flow_seed {
        Some(seed) => {
            let sc = chars_of(seed.as_str());
            append_chars(&mut out, sc.as_slice());
        },
        None => {
            append_chars(&mut out, tc.as_slice());
        },
    }
    push_str(&mut out, "\" in the ");
    let nc = chars_of(evidence.subsystem_name.as_str());
    append_chars(&mut out, nc.as_slice());
    push_str(&mut out, " area.");
    let mut lines: Vec<String> = Vec::new();
    let l1 = string_of(out.as_slice());
    lines.push(l1);
    assert(views(lines@) =~= seq![l1@]);
    let ghost after_first = views(lines@);
    if evidence.citations.len() > 0 {
        let first = &evidence.citations[0];
        let anchor = match &first.anchor_symbol {
            Some(a) => chars_of(a.as_str()),
            None => chars_of("the matched symbol"),
        };
        let pc = chars_of(first.path.as_str());
        let downstream = evidence.citations.len() - 1;
        let mut l: Vec<char>;
        if downstream == 0 {
            l = chars_of("Atlas found the matching seed in ");
            append_chars(&mut l, pc.as_slice());
            push_str(&mut l, " at ");
            append_chars(&mut l, anchor.as_slice());
            push_str(&mut l, ", but did not resolve a reliable downstream file transition.");
        } else {
            l = chars_of("The trace begins in ");
            append_chars(&mut l, pc.as_slice());
            push_str(&mut l, " at ");
            append_chars(&mut l, anchor.as_slice());
            push_str(&mut l, " and continues through ");
            let d = decimal_exec(downstream);
            append_chars(&mut l, d.as_slice());
            push_str(&mut l, " downstream file(s).");
        }
        let line = string_of(l.as_slice());
        lines.push(line);
        assert(views(lines@) =~= after_first.push(line@));
    }
    let ghost after_second = views(lines@);
    let mut chain: Vec<Vec<char>> = Vec::new();
    let mut i: usize = 0;
    while i < evidence.citations.len()
        invariant
            i <= evidence.citations@.len(),
            chain.deep_view() == anchor_chain(evidence.citations@.take(i as int)),
        decreases evidence.citations.len() - i,
    {
        assert(evidence.citations@.take(i + 1).drop_last() =~= evidence.citations@.take(i as int));
        if let Some(a) = &evidence.citations[i].anchor_symbol {
            let ac = chars_of(a.as_str());
            let ghost before = chain.deep_view();
            proof {
                crate::text::lemma_chars_deep_view(&ac);
            }
            chain.push(ac);
            assert(chain.deep_view() =~= before.push(a@));
        }
        i = i + 1;
    }
    assert(evidence.citations@.take(evidence.citations@.len() as int) =~= evidence.citations@);
    if chain.len() > 1 {
        let mut l = chars_of("Call chain: ");
        let j = join_exec(&chain, " → ");
        append_chars(&mut l, j.as_slice());
        push_str(&mut l, ".");
        let line = string_of(l.as_slice());
        lines.push(line);
        assert(views(lines@) =~= after_second.push(line@));
    }
    lines
}

/// The first `n` cited paths.
pub open spec fn cited_paths(cs: Seq<ExplainCitation>, n: nat) -> Seq<Seq<char>> {
    cs.take(n as int).map_values(|c: ExplainCitation| c.path@)
}

/// The overview of a path-match explanation.
pub open spec fn path_overview_of(e: ExplainEvidence) -> Seq<Seq<char>> {
    let cs = e.citations@;
    seq![
        "Atlas matched \""@ + e.topic@ + "\" by file path or symbol name in the "@
            + e.subsystem_name@ + " area ("@ + decimal(cs.len()) + " hit(s) in the graph)."@,
        "Top matches: "@ + join(cited_paths(cs, capped(cs.len(), 4)), ", "@) + "."@,
    ]
}

/// The overview paragraphs of a path-match explanation.
pub fn path_overview(evidence: &ExplainEvidence) -> (r: Vec<String>)
    ensures
        views(r@) == path_overview_of(*evidence),
{
    let mut a = chars_of("Atlas matched \"");
    let tc = chars_of(evidence.topic.as_str());
    append_chars(&mut a, tc.as_slice());
    push_str(&mut a, "\" by file path or symbol name in the ");
    let nc = chars_of(evidence.subsystem_name.as_str());
    append_chars(&mut a, nc.as_slice());
    push_str(&mut a, " area (");
    let d = decimal_exec(evidence.citations.len());
    append_chars(&mut a, d.as_slice());
    push_str(&mut a, " hit(s) in the graph).");
    let mut paths: Vec<Vec<char>> = Vec::new();
    let mut i: usize = 0;
    while i < evidence.citations.len() && i < 4
        invariant
            i <= evidence.citations@.len(),
            i <= 4,
            paths.deep_view() == cited_paths(evidence.citations@, i as nat),
        decreases evidence.citations.len() - i,
    {
        let pc = chars_of(evidence.citations[i].path.as_str());
        let ghost before = paths.deep_view();
        proof {
            crate::text::lemma_chars_deep_view(&pc);
        }
        paths.push(pc);
        assert(paths.deep_view() =~= before.push(evidence.citations@[i as int].path@));
        assert(cited_paths(evidence.citations@, (i + 1) as nat) =~= cited_paths(
            evidence.citations@,
            i as nat,
        ).push(evidence.citations@[i as int].path@));
        i = i + 1;
    }
    let mut b = chars_of("Top matches: ");
    let j = join_exec(&paths, ", ");
    append_chars(&mut b, j.as_slice());
    push_str(&mut b, ".");
    let mut lines: Vec<String> = Vec::new();
    let la = string_of(a.as_slice());
    let lb = string_of(b.as_slice());
    lines.push(la);
    lines.push(lb);
    assert(views(lines@) =~= seq![la@, lb@]);
    lines
}

/// The overview of an explanation, by how its topic was matched.
pub fn build_overview(evidence: &ExplainEvidence) -> (r: ExplainOverview)
    ensures
        evidence.match_kind == ExplainMatchKind::Subsystem ==> views(r.summary_lines@)
            == subsystem_summary(*evidence) && reading_steps_match(
            r.reading_steps@,
            evidence.citations@,
        ),
        evidence.match_kind == ExplainMatchKind::Flow ==> views(r.summary_lines@)
            == flow_overview_of(*evidence) && r.reading_steps@.len() == 0,
        evidence.match_kind == ExplainMatchKind::Path ==> views(r.summary_lines@)
            == path_overview_of(*evidence) && r.reading_steps@.len() == 0,
{
    match evidence.match_kind {
        ExplainMatchKind::Subsystem => subsystem_overview(evidence),
        ExplainMatchKind::Flow => ExplainOverview {
            summary_lines: flow_overview(evidence),
            reading_steps: Vec::new(),
        },
        ExplainMatchKind::Path => ExplainOverview {
            summary_lines: path_overview(evidence),
            reading_steps: Vec::new(),
        },
    }
}

/// Every cited path is the path of some graph file.
pub open spec fn cited_in_graph(cs: Seq<ExplainCitation>, graph: Seq<RankedFile>) -> bool {
    forall|i: int|
        0 <= i < cs.len() ==> exists|k: int|
            0 <= k < graph.len() && #[trigger] graph[k].file_path@ == (#[trigger] cs[i]).path@
}

/// Whether every cited path is a file of the graph.
pub fn all_cited_paths_exist_in_graph(graph: &Vec<RankedFile>, evidence: &ExplainEvidence) -> (r:
    bool)
    ensures
        r == cited_in_graph(evidence.citations@, graph@),
{
    let mut i: usize = 0;
    while i < evidence.citations.len()
        invariant
            i <= evidence.citations@.len(),
            cited_in_graph(evidence.citations@.take(i as int), graph@),
        decreases evidence.citations.len() - i,
    {
        let pc = chars_of(evidence.citations[i].path.as_str());
        let mut found = false;
        let mut k: usize = 0;
        while k < graph.len() && !found
            invariant
                k <= graph@.len(),
                pc@ == evidence.citations@[i as int].path@,
                found ==> exists|m: int|
                    0 <= m < graph@.len() && #[trigger] graph@[m].file_path@
                        == evidence.citations@[i as int].path@,
                !found ==> forall|m: int|
                    0 <= m < k ==> #[trigger] graph@[m].file_path@
                        != evidence.citations@[i as int].path@,
            decreases graph.len() - k,
        {
            let gc = chars_of(graph[k].file_path.as_str());
            if seq_eq(gc.as_slice(), pc.as_slice()) {
                found = true;
            }
            k = k + 1;
        }
        if !found {
            assert(!cited_in_graph(evidence.citations@, graph@)) by {
                assert(evidence.citations@[i as int] == evidence.citations@[i as int]);
            }
            return false;
        }
        assert forall|j: int| 0 <= j < i + 1 implies exists|k: int|
            0 <= k < graph@.len() && #[trigger] graph@[k].file_path@ == (
            #[trigger] evidence.citations@.take(i + 1)[j]).path@ by {
            if j < i {
                assert(evidence.citations@.take(i + 1)[j] == evidence.citations@.take(i as int)[j]);
            }
        }
        i = i + 1;
    }
    assert(evidence.citations@.take(evidence.citations@.len() as int) =~= evidence.citations@);
    true
}

} // verus!

verus! {

proof fn lemma_learn_candidates_in(rows: Seq<RankedFile>, key: Seq<char>, x: RankedFile)
    requires
        learn_candidates(rows, key).contains(x),
    ensures
        exists|k: int| 0 <= k < rows.len() && rows[k] == x,
    decreases rows.len(),
{
    let c = learn_candidates(rows, key);
    let prev = learn_candidates(rows.drop_last(), key);
    let j = choose|j: int| 0 <= j < c.len() && c[j] == x;
    if j < prev.len() {
        assert(prev[j] == x);
        assert(prev.contains(x));
        lemma_learn_candidates_in(rows.drop_last(), key, x);
        let k = choose|k: int| 0 <= k < rows.drop_last().len() && rows.drop_last()[k] == x;
        assert(rows[k] == x);
    } else {
        assert(rows[rows.len() - 1] == x);
    }
}

proof fn lemma_matched_rows_in(rows: Seq<RankedFile>, files: Seq<ParsedFile>, nt: Seq<char>, x: RankedFile)
    requires
        matched_rows(rows, files, nt).contains(x),
    ensures
        exists|k: int| 0 <= k < rows.len() && rows[k] == x,
    decreases rows.len(),
{
    let c = matched_rows(rows, files, nt);
    let prev = matched_rows(rows.drop_last(), files, nt);
    let j = choose|j: int| 0 <= j < c.len() && c[j] == x;
    if j < prev.len() {
        assert(prev[j] == x);
        assert(prev.contains(x));
        lemma_matched_rows_in(rows.drop_last(), files, nt, x);
        let k = choose|k: int| 0 <= k < rows.drop_last().len() && rows.drop_last()[k] == x;
        assert(rows[k] == x);
    } else {
        assert(rows[rows.len() - 1] == x);
    }
}

/// The evidence of a subsystem or of matched files cites only files of the
/// ranked graph: no cited path is invented.
pub proof fn law_evidence_cites_graph(
    e: ExplainEvidence,
    topic: Seq<char>,
    report: ArchitectureReport,
    ranked: Seq<RankedFile>,
    files: Seq<ParsedFile>,
)
    requires
        evidence_for(e, topic, report, ranked, files),
        e.match_kind != ExplainMatchKind::Flow,
    ensures
        cited_in_graph(e.citations@, ranked),
{
    broadcast use vstd::seq_lib::group_to_multiset_ensures;

    let nt = normalized_topic(topic);
    match best_match(report.subsystems@, nt, report.subsystems@.len()) {
        Some(k) => {
            let s = report.subsystems@[k];
            let order = choose|order: Seq<RankedFile>|
                {
                    &&& learn_sorted(order)
                    &&& order.to_multiset() == learn_candidates(ranked, s.key@).to_multiset()
                    &&& e.citations@.len() == capped(order.len(), MAX_CITATIONS as nat)
                    &&& forall|i: int|
                        0 <= i < e.citations@.len() ==> plain_citation(
                            #[trigger] e.citations@[i],
                            order[i].file_path@,
                            learn_reason(order[i]),
                            ranked,
                        )
                };
            assert forall|i: int| 0 <= i < e.citations@.len() implies exists|m: int|
                0 <= m < ranked.len() && #[trigger] ranked[m].file_path@ == (
                #[trigger] e.citations@[i]).path@ by {
                assert(plain_citation(e.citations@[i], order[i].file_path@, learn_reason(order[i]), ranked));
                assert(order.contains(order[i]));
                assert(learn_candidates(ranked, s.key@).to_multiset().count(order[i]) > 0);
                lemma_learn_candidates_in(ranked, s.key@, order[i]);
                let m = choose|m: int| 0 <= m < ranked.len() && ranked[m] == order[i];
                assert(ranked[m].file_path@ == e.citations@[i].path@);
            }
        },
        None => {
            if flow_for(files, topic) is None {
                let order = choose|order: Seq<RankedFile>|
                    #![trigger rank_sorted(order)]
                    {
                        let cs = order.take(capped(order.len(), MAX_CITATIONS as nat) as int);
                        let key = dominant_key(
                            if cs.len() > 0 {
                                Some(cs[0].file_path@)
                            } else {
                                None
                            },
                        );
                        &&& rank_sorted(order)
                        &&& order.to_multiset() == matched_rows(ranked, files, nt).to_multiset()
                        &&& evidence_frame(e, topic, report, key)
                        &&& e.match_kind == ExplainMatchKind::Path
                        &&& e.flow_seed is None
                        &&& e.citations@.len() == cs.len()
                        &&& forall|i: int|
                            0 <= i < cs.len() ==> match_citation(#[trigger] e.citations@[i], cs[i])
                        &&& e.file_count == cs.len()
                        &&& named_area(e, report.subsystems@, key, "Matched files"@)
                    };
                let cs = order.take(capped(order.len(), MAX_CITATIONS as nat) as int);
                assert forall|i: int| 0 <= i < e.citations@.len() implies exists|m: int|
                    0 <= m < ranked.len() && #[trigger] ranked[m].file_path@ == (
                    #[trigger] e.citations@[i]).path@ by {
                    assert(match_citation(e.citations@[i], cs[i]));
                    assert(cs[i] == order[i]);
                    assert(order.contains(order[i]));
                    assert(matched_rows(ranked, files, nt).to_multiset().count(order[i]) > 0);
                    lemma_matched_rows_in(ranked, files, nt, order[i]);
                    let m = choose|m: int| 0 <= m < ranked.len() && ranked[m] == order[i];
                    assert(ranked[m].file_path@ == e.citations@[i].path@);
                }
            }
        },
    }
}

} // verus!

verus! {

/// The anchor shown after a cited path: ` @ symbol:line`, ` @ symbol`,
/// ` @ line N`, or nothing.
pub open spec fn anchor_text(symbol: Option<Seq<char>>, line: Option<usize>) -> Seq<char> {
    match (symbol, line) {
        (Some(s), Some(l)) => " @ "@ + s + ":"@ + decimal(l as nat),
        (Some(s), None) => " @ "@ + s,
        (None, Some(l)) => " @ line "@ + decimal(l as nat),
        (None, None) => Seq::empty(),
    }
}

/// The anchor shown after a cited path.
pub fn citation_anchor_text(citation: &ExplainCitation) -> (r: String)
    ensures
        r@ == anchor_text(string_opt_view(citation.anchor_symbol), citation.anchor_line),
{
    let mut out: Vec<char> = Vec::new();
    match (&citation.anchor_symbol, citation.anchor_line) {
        (Some(s), Some(l)) => {
            push_str(&mut out, " @ ");
            push_str(&mut out, s.as_str());
            push_str(&mut out, ":");
            let d = decimal_exec(l);
            append_chars(&mut out, d.as_slice());
        },
        (Some(s), None) => {
            push_str(&mut out, " @ ");
            push_str(&mut out, s.as_str());
        },
        (None, Some(l)) => {
            push_str(&mut out, " @ line ");
            let d = decimal_exec(l);
            append_chars(&mut out, d.as_slice());
        },
        (None, None) => {},
    }
    string_of(out.as_slice())
}

} // verus!

verus! {

/// The error for an explanation topic that is blank, checked before
/// anything is loaded for it.
pub fn blank_topic_error(topic: &str) -> (r: Option<String>)
    ensures
        r is Some <==> normalized_topic(topic@).len() == 0,
        r matches Some(e) ==> e@ == "explain topic cannot be empty"@,
{
    let tc = chars_of(topic);
    let trimmed = crate::text::trim_exec(tc.as_slice());
    let ts = string_of(trimmed.as_slice());
    let nt = lower_chars(ts.as_str());
    if nt.len() == 0 {
        Some(String::from_str("explain topic cannot be empty"))
    } else {
        None
    }
}

} // verus!

verus! {

proof fn lemma_file_seeds_in(path: String, defs: Seq<Definition>, q: Seq<char>)
    ensures
        forall|i: int|
            0 <= i < file_seeds(path, defs, q).len() ==> (#[trigger] file_seeds(path, defs, q)[i]).file
                == path,
    decreases defs.len(),
{
    if defs.len() > 0 {
        lemma_file_seeds_in(path, defs.drop_last(), q);
        let p = file_seeds(path, defs.drop_last(), q);
        let fs = file_seeds(path, defs, q);
        assert forall|i: int| 0 <= i < fs.len() implies (#[trigger] fs[i]).file == path by {
            if i < p.len() {
                assert(fs[i] == p[i]);
            }
        }
    }
}

proof fn lemma_seeds_in(files: Seq<ParsedFile>, q: Seq<char>)
    ensures
        forall|i: int|
            0 <= i < seeds_of(files, q).len() ==> parsed_path(files, (#[trigger] seeds_of(files, q)[i]).file@),
    decreases files.len(),
{
    if files.len() > 0 {
        let init = files.drop_last();
        lemma_seeds_in(init, q);
        lemma_file_seeds_in(files.last().path, files.last().definitions@, q);
        let prev = seeds_of(init, q);
        let ss = seeds_of(files, q);
        assert forall|i: int| 0 <= i < ss.len() implies parsed_path(files, (#[trigger] ss[i]).file@) by {
            if i < prev.len() {
                assert(ss[i] == prev[i]);
                let k = choose|k: int| 0 <= k < init.len() && #[trigger] init[k].path@ == prev[i].file@;
                assert(files[k].path@ == ss[i].file@);
            } else {
                let fs = file_seeds(files.last().path, files.last().definitions@, q);
                assert(ss[i] == fs[i - prev.len()]);
                assert(files[files.len() - 1].path@ == ss[i].file@);
            }
        }
    }
}

proof fn lemma_first_steps_in(steps: Seq<FlowStep>)
    ensures
        forall|i: int|
            0 <= i < first_steps(steps).len() ==> exists|j: int|
                0 <= j < steps.len() && steps[j] == #[trigger] first_steps(steps)[i],
    decreases steps.len(),
{
    if steps.len() > 0 {
        let init = steps.drop_last();
        lemma_first_steps_in(init);
        let prev = first_steps(init);
        let fs = first_steps(steps);
        assert forall|i: int| 0 <= i < fs.len() implies exists|j: int|
            0 <= j < steps.len() && steps[j] == #[trigger] fs[i] by {
            if i < prev.len() {
                assert(fs[i] == prev[i]);
                let j = choose|j: int| 0 <= j < init.len() && init[j] == prev[i];
                assert(steps[j] == fs[i]);
            } else {
                assert(steps[steps.len() - 1] == fs[i]);
            }
        }
    }
}

/// The evidence of a flow cites only parsed files: every cited path is the
/// path of a file that the flow's steps lie in.
pub proof fn law_flow_evidence_cites_parsed_files(
    e: ExplainEvidence,
    topic: Seq<char>,
    report: ArchitectureReport,
    ranked: Seq<RankedFile>,
    files: Seq<ParsedFile>,
)
    requires
        evidence_for(e, topic, report, ranked, files),
        e.match_kind == ExplainMatchKind::Flow,
    ensures
        forall|i: int| 0 <= i < e.citations@.len() ==> parsed_path(files, (#[trigger] e.citations@[i]).path@),
{
    let nt = normalized_topic(topic);
    if best_match(report.subsystems@, nt, report.subsystems@.len()) is None {
        if let Some(f) = flow_for(files, topic) {
            let nq = flow_query(topic);
            let seeds = seeds_of(files, nq);
            let records = records_of(files);
            lemma_best_seed_traces(seeds, records, files);
            let k = best_seed(seeds, records, files)->0;
            lemma_seeds_in(files, nq);
            assert(parsed_path(files, seeds[k].file@));
            law_trace_in_parsed_files(files, seeds[k].file, seeds[k].definition);
            let steps = f.1;
            assert(steps == traced(records, files, seeds[k].file, seeds[k].definition));
            lemma_first_steps_in(steps);
            let fs = first_steps(steps);
            let cs = fs.take(capped(fs.len(), MAX_CITATIONS as nat) as int);
            assert forall|i: int| 0 <= i < e.citations@.len() implies parsed_path(
                files,
                (#[trigger] e.citations@[i]).path@,
            ) by {
                assert(flow_citation(e.citations@[i], cs[i], ranked));
                assert(cs[i] == fs[i]);
                let j = choose|j: int| 0 <= j < steps.len() && steps[j] == fs[i];
                assert(parsed_path(files, steps[j].file@));
            }
        }
    }
}

} // verus!

verus! {

/// Every path of the rows `sub` is the path of a row of `graph`.
pub open spec fn paths_within(sub: Seq<RankedFile>, graph: Seq<RankedFile>) -> bool {
    forall|i: int|
        0 <= i < sub.len() ==> exists|k: int|
            0 <= k < graph.len() && graph[k].file_path@ == (#[trigger] sub[i]).file_path@
}

/// Every parsed file is the path of a row of `graph`.
pub open spec fn files_within(files: Seq<ParsedFile>, graph: Seq<RankedFile>) -> bool {
    forall|i: int|
        0 <= i < files.len() ==> exists|k: int|
            0 <= k < graph.len() && graph[k].file_path@ == (#[trigger] files[i]).path@
}

/// An explanation cites only files of its graph: when the ranked rows and
/// the parsed files it was gathered from are files of `graph`, so is every
/// cited path, whether it names a subsystem, a flow or matched files.
pub proof fn law_explanation_cites_graph(
    e: ExplainEvidence,
    topic: Seq<char>,
    report: ArchitectureReport,
    ranked: Seq<RankedFile>,
    files: Seq<ParsedFile>,
    graph: Seq<RankedFile>,
)
    requires
        evidence_for(e, topic, report, ranked, files),
        paths_within(ranked, graph),
        files_within(files, graph),
    ensures
        cited_in_graph(e.citations@, graph),
{
    if e.match_kind == ExplainMatchKind::Flow {
        law_flow_evidence_cites_parsed_files(e, topic, report, ranked, files);
        assert forall|i: int| 0 <= i < e.citations@.len() implies exists|k: int|
            0 <= k < graph.len() && #[trigger] graph[k].file_path@ == (
            #[trigger] e.citations@[i]).path@ by {
            let j = choose|j: int| 0 <= j < files.len() && #[trigger] files[j].path@ == e.citations@[i].path@;
            assert(exists|k: int| 0 <= k < graph.len() && graph[k].file_path@ == files[j].path@);
        }
    } else {
        law_evidence_cites_graph(e, topic, report, ranked, files);
        assert forall|i: int| 0 <= i < e.citations@.len() implies exists|k: int|
            0 <= k < graph.len() && #[trigger] graph[k].file_path@ == (
            #[trigger] e.citations@[i]).path@ by {
            let m = choose|m: int| 0 <= m < ranked.len() && #[trigger] ranked[m].file_path@ == e.citations@[i].path@;
            assert(exists|k: int| 0 <= k < graph.len() && graph[k].file_path@ == ranked[m].file_path@);
        }
    }
}

} // verus!
