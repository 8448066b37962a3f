//! Code snippets for citations: the anchor definition of a file for a topic,
//! and the block of source lines that belongs to it.
use vstd::prelude::*;

use crate::parse::{Definition, ParsedFile};
use crate::text::{
    chars_of, contains, contains_lit, eq_lit, lower_chars, lower_text, starts_with,
    starts_with_lit, trim, trim_start,
};

verus! {

/// The longest snippet shown, in lines.
pub const MAX_SNIPPET_LINES: usize = 32;

/// A block of source lines around an anchor definition.
#[derive(Debug, PartialEq, Eq)]
pub struct FileSnippet {
    pub start_line: usize,
    pub end_line: usize,
    pub lines: Vec<String>,
    pub truncated: bool,
}

/// The first definition that satisfies `p`.
pub open spec fn first_def(defs: Seq<Definition>, p: spec_fn(Definition) -> bool) -> Option<
    Definition,
>
    decreases defs.len(),
{
    if defs.len() == 0 {
        None
    } else if p(defs[0]) {
        Some(defs[0])
    } else {
        first_def(defs.drop_first(), p)
    }
}

/// What a definition search looks for.
pub enum DefQuery {
    /// A definition with exactly this name.
    Named(Vec<char>),
    /// A function that is not a constructor.
    NonInit,
    /// A definition whose lowercased name contains this text.
    NameContains(Vec<char>),
    /// A function whose name mentions handlers or routes.
    Handler,
    /// A class.
    Class,
    /// A function defined after the line, with exactly this name.
    NamedAfter(usize, Vec<char>),
    /// A function defined after the line that is not a constructor.
    NonInitAfter(usize),
}

/// Whether a definition is what the search looks for.
pub open spec fn query_holds(q: DefQuery, d: Definition) -> bool {
    match q {
        DefQuery::Named(n) => d.name@ == n@,
        DefQuery::NonInit => non_init_function(d),
        DefQuery::NameContains(t) => contains(lower_text(d.name@), t@),
        DefQuery::Handler => handler_function(d),
        DefQuery::Class => d.kind@ == "class"@,
        DefQuery::NamedAfter(line, n) => function_after(d, line) && d.name@ == n@,
        DefQuery::NonInitAfter(line) => function_after(d, line) && d.name@ != "__init__"@,
    }
}

fn query_matches(q: &DefQuery, d: &Definition) -> (b: bool)
    ensures
        b == query_holds(*q, *d),
{
    let kc = chars_of(d.kind.as_str());
    let nc = chars_of(d.name.as_str());
    match q {
        DefQuery::Named(n) => crate::text::seq_eq(nc.as_slice(), n.as_slice()),
        DefQuery::NonInit => eq_lit(kc.as_slice(), "function") && !eq_lit(nc.as_slice(), "__init__"),
        DefQuery::NameContains(t) => {
            let nl = lower_chars(d.name.as_str());
            crate::text::contains_seq(nl.as_slice(), t.as_slice())
        },
        DefQuery::Handler => {
            let nl = lower_chars(d.name.as_str());
            eq_lit(kc.as_slice(), "function") && (contains_lit(nl.as_slice(), "handler")
                || contains_lit(nl.as_slice(), "route"))
        },
        DefQuery::Class => eq_lit(kc.as_slice(), "class"),
        DefQuery::NamedAfter(line, n) => eq_lit(kc.as_slice(), "function") && d.line > *line
            && crate::text::seq_eq(nc.as_slice(), n.as_slice()),
        DefQuery::NonInitAfter(line) => eq_lit(kc.as_slice(), "function") && d.line > *line
            && !eq_lit(nc.as_slice(), "__init__"),
    }
}

/// The position of the first definition that the search finds.
fn first_def_index(defs: &Vec<Definition>, q: &DefQuery) -> (r: Option<usize>)
    ensures
        match r {
            None => first_def(defs@, |d: Definition| query_holds(*q, d)) is None,
            Some(k) => k < defs@.len() && first_def(defs@, |d: Definition| query_holds(*q, d))
                == Some(defs@[k as int]),
        },
{
    let ghost p = |d: Definition| query_holds(*q, d);
    let mut i: usize = 0;
    assert(defs@.subrange(0, defs@.len() as int) =~= defs@);
    while i < defs.len()
        invariant
            i <= defs@.len(),
            p == (|d: Definition| query_holds(*q, d)),
            first_def(defs@, p) == first_def(defs@.subrange(i as int, defs@.len() as int), p),
        decreases defs.len() - i,
    {
        let ghost rest = defs@.subrange(i as int, defs@.len() as int);
        assert(rest.drop_first() =~= defs@.subrange(i + 1, defs@.len() as int));
        if query_matches(q, &defs[i]) {
            return Some(i);
        }
        i = i + 1;
    }
    None
}

/// The methods that best represent how a file is entered, in order of preference.
pub open spec fn entry_method_name(k: int) -> Seq<char> {
    if k == 0 {
        "__call__"@
    } else if k == 1 {
        "dispatch"@
    } else if k == 2 {
        "handle"@
    } else if k == 3 {
        "process_request"@
    } else if k == 4 {
        "login"@
    } else {
        "register"@
    }
}

/// A function definition that is not a constructor.
pub open spec fn non_init_function(d: Definition) -> bool {
    d.kind@ == "function"@ && d.name@ != "__init__"@
}

/// The first definition named `m`, trying the entry method names in order
/// from `k` on.
pub open spec fn entry_from(defs: Seq<Definition>, k: int) -> Option<Definition>
    decreases 6 - k,
{
    if k < 0 || k >= 6 {
        None
    } else {
        match first_def(defs, |d: Definition| d.name@ == entry_method_name(k)) {
            Some(d) => Some(d),
            None => entry_from(defs, k + 1),
        }
    }
}

/// The entry method of a file: a definition with an entry method name (by
/// preference), else its first function that is not a constructor.
pub open spec fn entry_method(defs: Seq<Definition>) -> Option<Definition> {
    match entry_from(defs, 0) {
        Some(d) => Some(d),
        None => first_def(defs, |d: Definition| non_init_function(d)),
    }
}

/// A function defined after `line`.
pub open spec fn function_after(d: Definition, line: usize) -> bool {
    d.kind@ == "function"@ && d.line > line
}

/// Like `entry_from`, among the functions defined after `line`.
pub open spec fn method_from(defs: Seq<Definition>, line: usize, k: int) -> Option<Definition>
    decreases 6 - k,
{
    if k < 0 || k >= 6 {
        None
    } else {
        match first_def(
            defs,
            |d: Definition| function_after(d, line) && d.name@ == entry_method_name(k),
        ) {
            Some(d) => Some(d),
            None => method_from(defs, line, k + 1),
        }
    }
}

/// The method that represents a class defined at `line`: an entry method
/// after it, else the first function after it that is not a constructor.
pub open spec fn method_after(defs: Seq<Definition>, line: usize) -> Option<Definition> {
    match method_from(defs, line, 0) {
        Some(d) => Some(d),
        None => first_def(
            defs,
            |d: Definition| function_after(d, line) && d.name@ != "__init__"@,
        ),
    }
}

/// The anchor of a found definition: a class is represented by its method
/// when it has one.
pub open spec fn anchor_of(defs: Seq<Definition>, d: Definition) -> (usize, Seq<char>) {
    if d.kind@ == "class"@ && method_after(defs, d.line) is Some {
        (method_after(defs, d.line)->0.line, method_after(defs, d.line)->0.name@)
    } else {
        (d.line, d.name@)
    }
}

/// A function whose name mentions handlers or routes.
pub open spec fn handler_function(d: Definition) -> bool {
    d.kind@ == "function"@ && (contains(lower_text(d.name@), "handler"@) || contains(
        lower_text(d.name@),
        "route"@,
    ))
}

/// The definition a snippet of a file starts at, as (line, name): the
/// preferred symbol, else the first definition whose name contains the topic,
/// else the entry method, else by role a handler or a service function, else
/// the first class, else the first definition.
pub open spec fn anchor(
    defs: Seq<Definition>,
    topic: Seq<char>,
    role: Seq<char>,
    preferred: Option<Seq<char>>,
) -> Option<(usize, Seq<char>)> {
    let by_pref = found_spec(defs, preferred);
    let t = lower_text(trim(topic));
    let by_topic = topic_def(defs, t);
    let rl = lower_text(role);
    if by_pref is Some {
        Some(anchor_of(defs, by_pref->0))
    } else if t.len() > 0 && by_topic is Some {
        Some(anchor_of(defs, by_topic->0))
    } else if entry_method(defs) is Some {
        Some((entry_method(defs)->0.line, entry_method(defs)->0.name@))
    } else if (contains(rl, "http"@) || contains(rl, "route"@) || contains(rl, "handler"@))
        && first_def(defs, |d: Definition| handler_function(d)) is Some {
        let d = first_def(defs, |d: Definition| handler_function(d))->0;
        Some((d.line, d.name@))
    } else if (contains(rl, "service"@) || contains(rl, "business"@)) && first_def(
        defs,
        |d: Definition| non_init_function(d),
    ) is Some {
        let d = first_def(defs, |d: Definition| non_init_function(d))->0;
        Some((d.line, d.name@))
    } else {
        match first_def(defs, |d: Definition| d.kind@ == "class"@) {
            Some(d) => Some((d.line, d.name@)),
            None => if defs.len() > 0 {
                Some((defs[0].line, defs[0].name@))
            } else {
                None
            },
        }
    }
}

/// The first definition whose lowercased name contains `t`.
pub open spec fn topic_def(defs: Seq<Definition>, t: Seq<char>) -> Option<Definition> {
    first_def(defs, |d: Definition| contains(lower_text(d.name@), t))
}

/// The view of an optional text.
pub open spec fn str_opt_view(o: Option<&str>) -> Option<Seq<char>> {
    match o {
        Some(s) => Some(s@),
        None => None,
    }
}

/// The first definition with the preferred name, if one is preferred.
pub open spec fn found_spec(defs: Seq<Definition>, preferred: Option<Seq<char>>) -> Option<
    Definition,
> {
    match preferred {
        Some(sym) => first_def(defs, |d: Definition| d.name@ == sym),
        None => None,
    }
}

/// The definition named `name`, if any.
pub fn find_definition_by_name<'a>(parsed: &'a ParsedFile, name: &str) -> (r: Option<
    &'a Definition,
>)
    ensures
        match r {
            None => first_def(parsed.definitions@, |d: Definition| d.name@ == name@) is None,
            Some(d) => first_def(parsed.definitions@, |d: Definition| d.name@ == name@) == Some(
                *d,
            ),
        },
{
    let q = DefQuery::Named(chars_of(name));
    let found = first_def_index(&parsed.definitions, &q);
    assert((|d: Definition| query_holds(q, d)) =~= (|d: Definition| d.name@ == name@));
    match found {
        Some(k) => Some(&parsed.definitions[k]),
        None => None,
    }
}

/// The first function that is not a constructor, if any.
pub fn first_non_init_function<'a>(parsed: &'a ParsedFile) -> (r: Option<&'a Definition>)
    ensures
        match r {
            None => first_def(parsed.definitions@, |d: Definition| non_init_function(d)) is None,
            Some(d) => first_def(parsed.definitions@, |d: Definition| non_init_function(d)) == Some(
                *d,
            ),
        },
{
    let q = DefQuery::NonInit;
    let found = first_def_index(&parsed.definitions, &q);
    assert((|d: Definition| query_holds(q, d)) =~= (|d: Definition| non_init_function(d)));
    match found {
        Some(k) => Some(&parsed.definitions[k]),
        None => None,
    }
}

fn entry_name_str(k: usize) -> (r: &'static str)
    requires
        k < 6,
    ensures
        r@ == entry_method_name(k as int),
{
    if k == 0 {
        "__call__"
    } else if k == 1 {
        "dispatch"
    } else if k == 2 {
        "handle"
    } else if k == 3 {
        "process_request"
    } else if k == 4 {
        "login"
    } else {
        "register"
    }
}

/// The entry method of a file as (line, name), if any.
pub fn pick_entry_method(parsed: &ParsedFile) -> (r: Option<(usize, String)>)
    ensures
        match r {
            None => entry_method(parsed.definitions@) is None,
            Some(p) => entry_method(parsed.definitions@) matches Some(d) && p.0 == d.line && p.1@
                == d.name@,
        },
{
    let mut k: usize = 0;
    while k < 6
        invariant
            k <= 6,
            entry_from(parsed.definitions@, 0) == entry_from(parsed.definitions@, k as int),
        decreases 6 - k,
    {
        let m = entry_name_str(k);
        assert((|d: Definition| d.name@ == m@) =~= (|d: Definition| d.name@ == entry_method_name(
            k as int,
        )));
        assert(entry_from(parsed.definitions@, k as int) == match first_def(
            parsed.definitions@,
            |d: Definition| d.name@ == entry_method_name(k as int),
        ) {
            Some(d) => Some(d),
            None => entry_from(parsed.definitions@, k + 1),
        });
        if let Some(d) = find_definition_by_name(parsed, m) {
            return Some((d.line, d.name.clone()));
        }
        k = k + 1;
    }
    match first_non_init_function(parsed) {
        Some(d) => Some((d.line, d.name.clone())),
        None => None,
    }
}

/// The method that represents a class defined at `class_line`, if any.
pub fn pick_method_after_line(parsed: &ParsedFile, class_line: usize) -> (r: Option<
    (usize, String),
>)
    ensures
        match r {
            None => method_after(parsed.definitions@, class_line) is None,
            Some(p) => method_after(parsed.definitions@, class_line) matches Some(d) && p.0
                == d.line && p.1@ == d.name@,
        },
{
    let mut k: usize = 0;
    while k < 6
        invariant
            k <= 6,
            method_from(parsed.definitions@, class_line, 0) == method_from(
                parsed.definitions@,
                class_line,
                k as int,
            ),
        decreases 6 - k,
    {
        let m = entry_name_str(k);
        let q = DefQuery::NamedAfter(class_line, chars_of(m));
        let found = first_def_index(&parsed.definitions, &q);
        assert((|d: Definition| query_holds(q, d)) =~= (|d: Definition| function_after(d, class_line)
            && d.name@ == entry_method_name(k as int)));
        assert(method_from(parsed.definitions@, class_line, k as int) == match first_def(
            parsed.definitions@,
            |d: Definition| function_after(d, class_line) && d.name@ == entry_method_name(k as int),
        ) {
            Some(d) => Some(d),
            None => method_from(parsed.definitions@, class_line, k + 1),
        });
        if let Some(i) = found {
            return Some((parsed.definitions[i].line, parsed.definitions[i].name.clone()));
        }
        k = k + 1;
    }
    let q = DefQuery::NonInitAfter(class_line);
    let found = first_def_index(&parsed.definitions, &q);
    assert((|d: Definition| query_holds(q, d)) =~= (|d: Definition| function_after(d, class_line)
        && d.name@ != "__init__"@));
    match found {
        Some(i) => Some((parsed.definitions[i].line, parsed.definitions[i].name.clone())),
        None => None,
    }
}

fn anchor_for(parsed: &ParsedFile, d: &Definition) -> (r: (usize, String))
    ensures
        r.0 == anchor_of(parsed.definitions@, *d).0 && r.1@ == anchor_of(parsed.definitions@, *d).1,
{
    let kc = chars_of(d.kind.as_str());
    if eq_lit(kc.as_slice(), "class") {
        if let Some(m) = pick_method_after_line(parsed, d.line) {
            return m;
        }
    }
    (d.line, d.name.clone())
}

/// The definition a snippet of `parsed` starts at for a topic and citation
/// role, as (line, name).
pub fn resolve_anchor(
    parsed: &ParsedFile,
    topic: &str,
    role: &str,
    preferred_symbol: Option<&str>,
) -> (r: Option<(usize, String)>)
    ensures
        match r {
            None => anchor(
                parsed.definitions@,
                topic@,
                role@,
                str_opt_view(preferred_symbol),
            ) is None,
            Some(p) => anchor(
                parsed.definitions@,
                topic@,
                role@,
                str_opt_view(preferred_symbol),
            ) == Some((p.0, p.1@)),
        },
{
    let ghost defs = parsed.definitions@;
    if let Some(symbol) = preferred_symbol {
        let found = find_definition_by_name(parsed, symbol);
        let ghost sv = symbol@;
        assert((|d: Definition| d.name@ == symbol@) =~= (|d: Definition| d.name@ == sv));
        assert(first_def(defs, |d: Definition| d.name@ == symbol@) == found_spec(
            defs,
            str_opt_view(preferred_symbol),
        ));
        if let Some(definition) = found {
            return Some(anchor_for(parsed, definition));
        }
    }
    let tc = chars_of(topic);
    let trimmed = crate::text::trim_exec(tc.as_slice());
    let t = crate::text::lower_of(trimmed.as_slice());
    if t.len() > 0 {
        let q = DefQuery::NameContains(t);
        let found = first_def_index(&parsed.definitions, &q);
        assert((|d: Definition| query_holds(q, d)) =~= (|d: Definition| contains(
            lower_text(d.name@),
            t@,
        )));
        assert(first_def(defs, |d: Definition| query_holds(q, d)) == topic_def(defs, t@));
        if let Some(k) = found {
            return Some(anchor_for(parsed, &parsed.definitions[k]));
        }
    }
    if let Some(m) = pick_entry_method(parsed) {
        return Some(m);
    }
    let rl = lower_chars(role);
    let r = rl.as_slice();
    if contains_lit(r, "http") || contains_lit(r, "route") || contains_lit(r, "handler") {
        let q = DefQuery::Handler;
        let found = first_def_index(&parsed.definitions, &q);
        assert((|d: Definition| query_holds(q, d)) =~= (|d: Definition| handler_function(d)));
        if let Some(k) = found {
            return Some((parsed.definitions[k].line, parsed.definitions[k].name.clone()));
        }
    }
    if contains_lit(r, "service") || contains_lit(r, "business") {
        if let Some(d) = first_non_init_function(parsed) {
            return Some((d.line, d.name.clone()));
        }
    }
    let q = DefQuery::Class;
    let found = first_def_index(&parsed.definitions, &q);
    assert((|d: Definition| query_holds(q, d)) =~= (|d: Definition| d.kind@ == "class"@));
    if let Some(k) = found {
        return Some((parsed.definitions[k].line, parsed.definitions[k].name.clone()));
    }
    if parsed.definitions.len() > 0 {
        return Some((parsed.definitions[0].line, parsed.definitions[0].name.clone()));
    }
    None
}

} // verus!

verus! {

/// The number of leading spaces and tabs of a line.
pub open spec fn lead_ws(s: Seq<char>) -> int
    decreases s.len(),
{
    if s.len() > 0 && (s[0] == ' ' || s[0] == '\t') {
        1 + lead_ws(s.drop_first())
    } else {
        0
    }
}

/// A line that starts a new definition at its level.
pub open spec fn peer_definition(line: Seq<char>) -> bool {
    let t = trim_start(line);
    starts_with(t, "def "@) || starts_with(t, "async def "@) || starts_with(t, "class "@)
        || starts_with(t, "@"@) || starts_with(t, "pub fn "@) || starts_with(t, "fn "@)
        || starts_with(t, "func "@)
}

/// A line holding only whitespace.
pub open spec fn blank(line: Seq<char>) -> bool {
    trim(line).len() == 0
}

/// The last line of a block: lines after the anchor belong to it until a
/// non-blank line at most as indented as the anchor starts a peer definition.
pub open spec fn block_end(lines: Seq<String>, base: int, i: int, end: int) -> int
    decreases lines.len() - i,
{
    if i < 0 || i >= lines.len() {
        end
    } else if blank(lines[i]@) {
        block_end(lines, base, i + 1, i)
    } else if lead_ws(lines[i]@) <= base && peer_definition(lines[i]@) {
        end
    } else {
        block_end(lines, base, i + 1, i)
    }
}

/// The index of the anchor line: one before `start_line`, within the file.
pub open spec fn start_index(len: int, start_line: usize) -> int {
    let s = if start_line >= 1 {
        start_line - 1
    } else {
        0
    };
    if s < len - 1 {
        s
    } else {
        len - 1
    }
}

/// The index of the last line shown: the block end, or the 32nd line when the
/// block is longer.
pub open spec fn shown_end(lines: Seq<String>, start_line: usize) -> int {
    let s = start_index(lines.len() as int, start_line);
    let e = block_end(lines, lead_ws(lines[s]@), s + 1, s);
    if e - s + 1 > MAX_SNIPPET_LINES {
        s + MAX_SNIPPET_LINES - 1
    } else {
        e
    }
}

/// Whether the block was cut at 32 lines.
pub open spec fn block_truncated(lines: Seq<String>, start_line: usize) -> bool {
    let s = start_index(lines.len() as int, start_line);
    block_end(lines, lead_ws(lines[s]@), s + 1, s) - s + 1 > MAX_SNIPPET_LINES
}

/// The number of leading spaces and tabs of a line.
pub fn leading_whitespace(line: &str) -> (r: usize)
    ensures
        r as int == lead_ws(line@),
{
    let cs = chars_of(line);
    let mut i: usize = 0;
    assert(line@.subrange(0, line@.len() as int) =~= line@);
    while i < cs.len() && (cs[i] == ' ' || cs[i] == '\t')
        invariant
            i <= cs@.len(),
            cs@ == line@,
            lead_ws(line@) == i + lead_ws(line@.subrange(i as int, line@.len() as int)),
        decreases cs.len() - i,
    {
        let ghost rest = line@.subrange(i as int, line@.len() as int);
        assert(rest.drop_first() =~= line@.subrange(i + 1, line@.len() as int));
        i = i + 1;
    }
    i
}

proof fn lemma_block_end_bounds(lines: Seq<String>, base: int, i: int, end: int)
    requires
        0 <= end < lines.len(),
        end < i,
    ensures
        end <= block_end(lines, base, i, end) < lines.len(),
    decreases lines.len() - i,
{
    if i < 0 || i >= lines.len() {
    } else if blank(lines[i]@) {
        lemma_block_end_bounds(lines, base, i + 1, i);
    } else if lead_ws(lines[i]@) <= base && peer_definition(lines[i]@) {
    } else {
        lemma_block_end_bounds(lines, base, i + 1, i);
    }
}

/// Whether a line starts a new definition (`def`, `class`, a decorator, `fn`, `func`, ...).
pub fn is_peer_definition(line: &str) -> (r: bool)
    ensures
        r == peer_definition(line@),
{
    let cs = chars_of(line);
    let t = trim_start_exec(cs.as_slice());
    let t = t.as_slice();
    starts_with_lit(t, "def ") || starts_with_lit(t, "async def ") || starts_with_lit(t, "class ")
        || starts_with_lit(t, "@") || starts_with_lit(t, "pub fn ") || starts_with_lit(t, "fn ")
        || starts_with_lit(t, "func ")
}

fn trim_start_exec(s: &[char]) -> (r: Vec<char>)
    ensures
        r@ == trim_start(s@),
{
    let mut start: usize = 0;
    assert(s@.subrange(0, s@.len() as int) =~= s@);
    while start < s.len() && crate::text::is_ws_exec(s[start])
        invariant
            start <= s@.len(),
            trim_start(s@) == trim_start(s@.subrange(start as int, s@.len() as int)),
        decreases s.len() - start,
    {
        let ghost rest = s@.subrange(start as int, s@.len() as int);
        assert(rest.drop_first() =~= s@.subrange(start + 1, s@.len() as int));
        start = start + 1;
    }
    let mut r: Vec<char> = Vec::new();
    let mut i: usize = start;
    while i < s.len()
        invariant
            start <= i <= s@.len(),
            r@ == s@.subrange(start as int, i as int),
        decreases s.len() - i,
    {
        r.push(s[i]);
        assert(s@.subrange(start as int, i + 1) =~= s@.subrange(start as int, i as int).push(
            s@[i as int],
        ));
        i = i + 1;
    }
    r
}

fn is_blank(line: &str) -> (r: bool)
    ensures
        r == blank(line@),
{
    let cs = chars_of(line);
    let t = crate::text::trim_exec(cs.as_slice());
    t.len() == 0
}

/// The block of lines that belongs to the definition at `start_line` (1-based),
/// at most 32 lines long.
pub fn extract_definition_block(lines: &Vec<String>, start_line: usize) -> (r: Result<
    FileSnippet,
    String,
>)
    requires
        lines@.len() > 0,
    ensures
        ({
            let s = start_index(lines@.len() as int, start_line);
            let e = shown_end(lines@, start_line);
            &&& r matches Ok(snippet)
            &&& snippet.start_line == s + 1
            &&& snippet.end_line == e + 1
            &&& snippet.truncated == block_truncated(lines@, start_line)
            &&& snippet.lines@ == lines@.subrange(s, e + 1)
        }),
{
    let s0 = if start_line >= 1 {
        start_line - 1
    } else {
        0
    };
    let start = if s0 < lines.len() - 1 {
        s0
    } else {
        lines.len() - 1
    };
    let base = leading_whitespace(lines[start].as_str());
    let ghost goal = block_end(lines@, base as int, start + 1, start as int);
    let mut end = start;
    let mut index = start + 1;
    while index < lines.len()
        invariant
            start < lines@.len(),
            start <= end < index <= lines@.len(),
            block_end(lines@, base as int, index as int, end as int) == goal,
        ensures
            end == goal,
        decreases lines.len() - index,
    {
        let line = lines[index].as_str();
        if is_blank(line) {
            end = index;
            index = index + 1;
            continue;
        }
        let indent = leading_whitespace(line);
        if indent <= base && is_peer_definition(line) {
            assert(block_end(lines@, base as int, index as int, end as int) == end);
            break;
        }
        end = index;
        index = index + 1;
    }
    proof {
        lemma_block_end_bounds(lines@, base as int, start + 1, start as int);
    }
    let mut truncated = false;
    let line_count = end - start + 1;
    if line_count > MAX_SNIPPET_LINES {
        end = start + MAX_SNIPPET_LINES - 1;
        truncated = true;
    }
    let mut out: Vec<String> = Vec::new();
    let mut i: usize = start;
    while i <= end
        invariant
            start <= i <= end + 1,
            end < lines@.len(),
            end < lines.len(),
            out@ == lines@.subrange(start as int, i as int),
        decreases end + 1 - i,
    {
        out.push(lines[i].clone());
        assert(lines@.subrange(start as int, i + 1) =~= lines@.subrange(start as int, i as int).push(
            lines@[i as int],
        ));
        i = i + 1;
    }
    Ok(FileSnippet { start_line: start + 1, end_line: end + 1, lines: out, truncated })
}

/// The texts of a sequence of strings.
pub open spec fn views_of(ls: Seq<String>) -> Seq<Seq<char>> {
    ls.map_values(|l: String| l@)
}

proof fn lemma_views_push(ls: Seq<String>, x: String)
    ensures
        views_of(ls.push(x)) == views_of(ls).push(x@),
{
    assert(views_of(ls.push(x)) =~= views_of(ls).push(x@));
}

proof fn lemma_stripped_push(ps: Seq<Seq<char>>, p: Seq<char>)
    ensures
        stripped(ps.push(p)) == stripped(ps).push(strip_cr(p)),
{
    assert(stripped(ps.push(p)) =~= stripped(ps).push(strip_cr(p)));
}

/// Lines without their trailing carriage returns.
pub open spec fn stripped(ps: Seq<Seq<char>>) -> Seq<Seq<char>> {
    ps.map_values(|l: Seq<char>| strip_cr(l))
}

/// A line of text without a trailing carriage return.
pub open spec fn strip_cr(l: Seq<char>) -> Seq<char> {
    if l.len() > 0 && l.last() == '\r' {
        l.drop_last()
    } else {
        l
    }
}

/// The lines of a text, as `str::lines` yields them: split at `\n`, a `\r`
/// before a `\n` dropped, and no empty line after a final `\n`.
pub open spec fn text_lines(s: Seq<char>) -> Seq<Seq<char>> {
    let pieces = crate::text::split_on(s, '\n');
    let body = stripped(pieces.drop_last());
    if pieces.last().len() > 0 {
        body.push(pieces.last())
    } else {
        body
    }
}

/// The lines of a text (see `text_lines`).
pub fn split_lines(content: &str) -> (r: Vec<String>)
    ensures
        views_of(r@) == text_lines(content@),
{
    let cs = chars_of(content);
    let pieces = crate::text::split_exec(cs.as_slice(), '\n');
    proof {
        crate::text::lemma_split_nonempty(content@, '\n');
    }
    let ghost pv = pieces.deep_view();
    let n = pieces.len();
    let mut out: Vec<String> = Vec::new();
    let mut i: usize = 0;
    while i + 1 < n
        invariant
            n == pieces@.len(),
            n >= 1,
            pv == pieces.deep_view(),
            pv == crate::text::split_on(content@, '\n'),
            i + 1 <= n,
            views_of(out@) == stripped(pv.subrange(0, i as int)),
        decreases n - i,
    {
        let p = &pieces[i];
        assert(p@ == pv[i as int]);
        let line = if p.len() > 0 && p[p.len() - 1] == '\r' {
            let mut q: Vec<char> = Vec::new();
            let mut k: usize = 0;
            while k + 1 < p.len()
                invariant
                    p@.len() > 0,
                    k + 1 <= p@.len(),
                    q@ == p@.subrange(0, k as int),
                decreases p.len() - k,
            {
                q.push(p[k]);
                assert(p@.subrange(0, k + 1) =~= p@.subrange(0, k as int).push(p@[k as int]));
                k = k + 1;
            }
            assert(q@ =~= p@.drop_last());
            assert(strip_cr(p@) == p@.drop_last());
            crate::text::string_of(q.as_slice())
        } else {
            crate::text::string_of(p.as_slice())
        };
        assert(line@ == strip_cr(pv[i as int]));
        let ghost old_out = out@;
        out.push(line);
        proof {
            lemma_views_push(old_out, line);
            lemma_stripped_push(pv.subrange(0, i as int), pv[i as int]);
            assert(pv.subrange(0, i + 1) =~= pv.subrange(0, i as int).push(pv[i as int]));
        }
        i = i + 1;
    }
    assert(pv.subrange(0, (n - 1) as int) =~= pv.drop_last());
    let last = &pieces[n - 1];
    assert(last@ == pv.last());
    if last.len() > 0 {
        let ghost old_out = out@;
        let l = crate::text::string_of(last.as_slice());
        out.push(l);
        assert(views_of(out@) =~= text_lines(content@)) by {
            assert(out@ == old_out.push(l));
        }
    }
    out
}

/// The snippet of text `content` for the definition at `anchor_line`: the
/// block that `extract_definition_block` takes from its lines.
pub open spec fn snippet_of(snippet: FileSnippet, content: Seq<char>, anchor_line: usize) -> bool {
    exists|ls: Seq<String>|
        #![trigger views_of(ls)]
        {
            let s = start_index(ls.len() as int, anchor_line);
            let e = shown_end(ls, anchor_line);
            &&& views_of(ls) == text_lines(content)
            &&& ls.len() > 0
            &&& snippet.start_line == s + 1
            &&& snippet.end_line == e + 1
            &&& snippet.truncated == block_truncated(ls, anchor_line)
            &&& snippet.lines@ == ls.subrange(s, e + 1)
        }
}

/// The snippet of a file's source for the definition at `anchor_line`, or an
/// error for an empty file.
pub fn snippet_from_source(rel_path: &str, content: &str, anchor_line: usize) -> (r: Result<
    FileSnippet,
    String,
>)
    ensures
        match r {
            Err(e) => text_lines(content@).len() == 0 && e@ == "file is empty: "@ + rel_path@,
            Ok(snippet) => text_lines(content@).len() > 0 && snippet_of(
                snippet,
                content@,
                anchor_line,
            ),
        },
{
    let lines = split_lines(content);
    if lines.len() == 0 {
        let mut msg = String::from_str("file is empty: ");
        msg.append(rel_path);
        return Err(msg);
    }
    let res = extract_definition_block(&lines, anchor_line);
    assert(views_of(lines@).len() == lines@.len());
    res
}

} // verus!
