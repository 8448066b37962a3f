//! Symbol extraction: the definitions, imports and calls of a source file,
//! read from its syntax tree.
//!
//! The tree comes from tree-sitter as a preorder sequence of events: an
//! `Enter` for each node (its kind, byte range, row, whether it is named and
//! the field it fills in its parent), and a `Leave` after its children. A
//! node is named by the position of its `Enter`.
use vstd::prelude::*;

use crate::parse::{
    extension_exec, file_name_exec, language_name, name_extension, path_file_name, Call,
    Definition, Import, LanguageKind, ParsedFile,
};
use crate::text::{
    append_chars, chars_of, contains, ends_with, eq_lit, lower_chars, lower_text, push_str,
    seq_eq, string_of, utf8_len, utf8_len_exceeds,
};
use crate::parse::{ParseOutcome, MAX_PARSE_BYTES};
use self::Grammar::{C, Go, JavaScript, Python, Tsx, TypeScript};
use self::SyntaxEvent::{Enter, Leave};
use tree_sitter::Parser;
use tree_sitter_c::LANGUAGE as C_GRAMMAR;
use tree_sitter_go::LANGUAGE as GO_GRAMMAR;
use tree_sitter_javascript::LANGUAGE as JAVASCRIPT_GRAMMAR;
use tree_sitter_python::LANGUAGE as PYTHON_GRAMMAR;
use tree_sitter_typescript::{LANGUAGE_TSX, LANGUAGE_TYPESCRIPT};

verus! {

/// A tree-sitter grammar.
#[derive(Debug, Clone, Copy, PartialEq, Eq, Structural)]
pub enum Grammar {
    Python,
    TypeScript,
    Tsx,
    JavaScript,
    Go,
    C,
}

/// The grammar that parses a file of language `kind` at `path`: TSX for
/// TypeScript files with the extension `tsx`.
pub open spec fn grammar_of(kind: LanguageKind, path: Seq<char>) -> Grammar {
    match kind {
        LanguageKind::Python => Grammar::Python,
        LanguageKind::TypeScript => if (match path_file_name(path) {
            Some(name) => name_extension(name) == Some("tsx"@),
            None => false,
        }) {
            Grammar::Tsx
        } else {
            Grammar::TypeScript
        },
        LanguageKind::JavaScript => Grammar::JavaScript,
        LanguageKind::Go => Grammar::Go,
        LanguageKind::C => Grammar::C,
    }
}

impl LanguageKind {
    /// The tree-sitter grammar for a file of this language at `path`.
    pub fn tree_sitter_language(self, path: &str) -> (r: Grammar)
        ensures
            r == grammar_of(self, path@),
    {
        match self {
            LanguageKind::Python => Grammar::Python,
            LanguageKind::TypeScript => {
                let pc = chars_of(path);
                let tsx = match file_name_exec(pc.as_slice()) {
                    Some(name) => match extension_exec(name.as_slice()) {
                        Some(ext) => eq_lit(ext.as_slice(), "tsx"),
                        None => false,
                    },
                    None => false,
                };
                if tsx {
                    Grammar::Tsx
                } else {
                    Grammar::TypeScript
                }
            },
            LanguageKind::JavaScript => Grammar::JavaScript,
            LanguageKind::Go => Grammar::Go,
            LanguageKind::C => Grammar::C,
        }
    }
}

/// One step of a preorder walk of a syntax tree.
#[derive(Debug)]
pub enum SyntaxEvent {
    /// A node: its kind, its start and end byte in the source, its start row,
    /// whether it is named, and the field it fills in its parent.
    Enter(&'static str, usize, usize, usize, bool, Option<&'static str>),
    /// The end of the node entered last and not yet left.
    Leave,
}

/// The syntax tree of a source, as tree-sitter builds it with a grammar, in
/// preorder events.
pub uninterp spec fn syntax_of(grammar: Grammar, source: Seq<char>) -> Option<Seq<SyntaxEvent>>;

/// Parses a source with tree-sitter (`Parser::set_language`, `Parser::parse`)
/// and walks the tree with a `TreeCursor`, recording each node on the way in
/// (`kind`, `start_byte`, `end_byte`, `start_position().row`, `is_named`,
/// `field_name`) and each node on the way out. `None` when the grammar is
/// refused or no tree is produced. The tree is named by its grammar and
/// source; its shape is not spelled out.
#[verifier::external_body]
fn syntax_events(grammar: Grammar, source: &str) -> (r: Option<Vec<SyntaxEvent>>)
    ensures
        match r {
            Some(v) => syntax_of(grammar, source@) == Some(v@),
            None => syntax_of(grammar, source@) is None,
        },
{
    let lf = match grammar { Python => PYTHON_GRAMMAR, TypeScript => LANGUAGE_TYPESCRIPT, Tsx => LANGUAGE_TSX, JavaScript => JAVASCRIPT_GRAMMAR, Go => GO_GRAMMAR, C => C_GRAMMAR };
    let mut p = Parser::new();
    p.set_language(&lf.into()).ok()?;
    let tree = p.parse(source, None)?;
    let mut c = tree.walk();
    let mut e = vec![];
    loop {
        let n = c.node();
        e.push(Enter(n.kind(), n.start_byte(), n.end_byte(), n.start_position().row, n.is_named(), c.field_name()));
        if c.goto_first_child() { continue; }
        loop { e.push(Leave); if c.goto_next_sibling() { break; } if !c.goto_parent() { return Some(e); } }
    }
}

/// The text of a source between two byte offsets: the characters from the
/// one that starts at byte `start` up to the one that starts at byte `end`
/// (the end of the text counts as a start). Empty when either offset falls
/// inside a character or past the end, or `start` lies after `end`.
pub open spec fn source_slice(source: Seq<char>, start: usize, end: usize) -> Seq<char> {
    if exists|i: int, j: int|
        0 <= i <= j <= source.len() && utf8_len(source.take(i)) == start && utf8_len(
            source.take(j),
        ) == end {
        let (i, j) = choose|i: int, j: int|
            0 <= i <= j <= source.len() && utf8_len(source.take(i)) == start && utf8_len(
                source.take(j),
            ) == end;
        source.subrange(i, j)
    } else {
        Seq::empty()
    }
}

/// The text between two byte offsets of a source with `str::get`, which gives
/// the subslice when both offsets lie on character boundaries within the text
/// and `start <= end`, and nothing otherwise; nothing becomes the empty text.
#[verifier::external_body]
fn slice_text(source: &str, start: usize, end: usize) -> (r: String)
    ensures
        r@ == source_slice(source@, start, end),
{
    source.get(start..end).unwrap_or("").to_string()
}

/// The kind of an event's node (empty for a `Leave`).
pub open spec fn ev_kind(e: SyntaxEvent) -> Seq<char> {
    match e {
        SyntaxEvent::Enter(kind, _, _, _, _, _) => kind@,
        SyntaxEvent::Leave => Seq::empty(),
    }
}

/// The field an event's node fills in its parent.
pub open spec fn ev_field(e: SyntaxEvent) -> Option<Seq<char>> {
    match e {
        SyntaxEvent::Enter(_, _, _, _, _, field) => match field {
            Some(f) => Some(f@),
            None => None,
        },
        SyntaxEvent::Leave => None,
    }
}

/// Whether an event's node is named.
pub open spec fn ev_named(e: SyntaxEvent) -> bool {
    match e {
        SyntaxEvent::Enter(_, _, _, _, named, _) => named,
        SyntaxEvent::Leave => false,
    }
}

/// The 1-based line an event's node starts on.
pub open spec fn ev_line(e: SyntaxEvent) -> usize {
    match e {
        SyntaxEvent::Enter(_, _, _, row, _, _) => if row < usize::MAX {
            (row + 1) as usize
        } else {
            usize::MAX
        },
        SyntaxEvent::Leave => 0,
    }
}

/// The source text of an event's node.
pub open spec fn ev_text(e: SyntaxEvent, src: Seq<char>) -> Seq<char> {
    match e {
        SyntaxEvent::Enter(_, start, end, _, _, _) => source_slice(src, start, end),
        SyntaxEvent::Leave => Seq::empty(),
    }
}

/// The position after the `Leave` that closes `d` open nodes, scanning from `i`
/// (the end of the events when there is none).
pub open spec fn close_from(evs: Seq<SyntaxEvent>, i: int, d: int) -> int
    decreases evs.len() - i,
{
    if i < 0 || i >= evs.len() {
        evs.len() as int
    } else if evs[i] is Enter {
        close_from(evs, i + 1, d + 1)
    } else if d <= 1 {
        i + 1
    } else {
        close_from(evs, i + 1, d - 1)
    }
}

/// The position after the subtree of node `k`.
pub open spec fn span_end(evs: Seq<SyntaxEvent>, k: int) -> int {
    close_from(evs, k + 1, 1)
}

/// A scan stays within the events and moves forward.
pub proof fn lemma_close_from(evs: Seq<SyntaxEvent>, i: int, d: int)
    requires
        0 <= i <= evs.len(),
    ensures
        i <= close_from(evs, i, d) <= evs.len(),
        i < evs.len() ==> i < close_from(evs, i, d),
    decreases evs.len() - i,
{
    if i < evs.len() {
        if evs[i] is Enter {
            lemma_close_from(evs, i + 1, d + 1);
        } else if d > 1 {
            lemma_close_from(evs, i + 1, d - 1);
        }
    }
}

/// The first sibling from position `c` that fills field `name`.
pub open spec fn field_child_from(evs: Seq<SyntaxEvent>, c: int, name: Seq<char>) -> Option<int>
    decreases evs.len() - c,
{
    if c < 0 || c >= evs.len() || !(evs[c] is Enter) {
        None
    } else if ev_field(evs[c]) == Some(name) {
        Some(c)
    } else {
        proof {
            lemma_close_from(evs, c + 1, 1);
        }
        field_child_from(evs, span_end(evs, c), name)
    }
}

/// The child of node `k` that fills field `name`.
pub open spec fn field_child(evs: Seq<SyntaxEvent>, k: int, name: Seq<char>) -> Option<int> {
    field_child_from(evs, k + 1, name)
}

/// The first named sibling from position `c`.
pub open spec fn named_child_from(evs: Seq<SyntaxEvent>, c: int) -> Option<int>
    decreases evs.len() - c,
{
    if c < 0 || c >= evs.len() || !(evs[c] is Enter) {
        None
    } else if ev_named(evs[c]) {
        Some(c)
    } else {
        proof {
            lemma_close_from(evs, c + 1, 1);
        }
        named_child_from(evs, span_end(evs, c))
    }
}

/// A sibling search finds a node at or after where it starts.
pub proof fn lemma_child_after(evs: Seq<SyntaxEvent>, c: int, name: Seq<char>)
    requires
        0 <= c,
    ensures
        field_child_from(evs, c, name) matches Some(x) ==> c <= x < evs.len() && evs[x] is Enter,
        named_child_from(evs, c) matches Some(x) ==> c <= x < evs.len() && evs[x] is Enter,
    decreases evs.len() - c,
{
    if c < evs.len() && evs[c] is Enter {
        lemma_close_from(evs, c + 1, 1);
        lemma_child_after(evs, span_end(evs, c), name);
    }
}

/// The event positions of a syntax tree.
fn span_end_exec(evs: &Vec<SyntaxEvent>, k: usize) -> (r: usize)
    requires
        k < evs@.len(),
    ensures
        r == span_end(evs@, k as int),
        k < r <= evs@.len(),
{
    proof {
        lemma_close_from(evs@, k + 1, 1);
    }
    let total = evs.len();
    let mut i: usize = k + 1;
    let mut d: usize = 1;
    while i < total
        invariant
            total == evs@.len(),
            k < i <= evs@.len(),
            d >= 1,
            d <= i,
            close_from(evs@, i as int, d as int) == span_end(evs@, k as int),
        decreases evs.len() - i,
    {
        match &evs[i] {
            SyntaxEvent::Enter(..) => {
                d = d + 1;
            },
            SyntaxEvent::Leave => {
                if d <= 1 {
                    return i + 1;
                }
                d = d - 1;
            },
        }
        i = i + 1;
    }
    evs.len()
}

/// The child of node `k` that fills field `name`.
fn field_child_exec(evs: &Vec<SyntaxEvent>, k: usize, name: &str) -> (r: Option<usize>)
    requires
        k < evs@.len(),
    ensures
        match r {
            None => field_child(evs@, k as int, name@) is None,
            Some(c) => field_child(evs@, k as int, name@) == Some(c as int),
        },
{
    let nc = chars_of(name);
    let total = evs.len();
    let mut c: usize = k + 1;
    while c < total
        invariant
            total == evs@.len(),
            k < c <= evs@.len(),
            nc@ == name@,
            field_child(evs@, k as int, name@) == field_child_from(evs@, c as int, name@),
        decreases evs.len() - c,
    {
        match &evs[c] {
            SyntaxEvent::Leave => {
                return None;
            },
            SyntaxEvent::Enter(_, _, _, _, _, field) => {
                let hit = match field {
                    Some(f) => {
                        let fc = chars_of(f);
                        seq_eq(fc.as_slice(), nc.as_slice())
                    },
                    None => false,
                };
                if hit {
                    return Some(c);
                }
            },
        }
        c = span_end_exec(evs, c);
    }
    None
}

/// The first named child of node `k`.
fn named_child_exec(evs: &Vec<SyntaxEvent>, k: usize) -> (r: Option<usize>)
    requires
        k < evs@.len(),
    ensures
        match r {
            None => named_child_from(evs@, k + 1) is None,
            Some(c) => named_child_from(evs@, k + 1) == Some(c as int),
        },
{
    let total = evs.len();
    let mut c: usize = k + 1;
    while c < total
        invariant
            total == evs@.len(),
            k < c <= evs@.len(),
            named_child_from(evs@, k + 1) == named_child_from(evs@, c as int),
        decreases evs.len() - c,
    {
        match &evs[c] {
            SyntaxEvent::Leave => {
                return None;
            },
            SyntaxEvent::Enter(_, _, _, _, named, _) => {
                if *named {
                    return Some(c);
                }
            },
        }
        c = span_end_exec(evs, c);
    }
    None
}

/// The source text of node `k`.
fn text_exec(evs: &Vec<SyntaxEvent>, src: &str, k: usize) -> (r: String)
    requires
        k < evs@.len(),
    ensures
        r@ == ev_text(evs@[k as int], src@),
{
    match &evs[k] {
        SyntaxEvent::Enter(_, start, end, _, _, _) => slice_text(src, *start, *end),
        SyntaxEvent::Leave => String::new(),
    }
}

/// The kind of node `k`.
fn kind_exec(evs: &Vec<SyntaxEvent>, k: usize) -> (r: Vec<char>)
    requires
        k < evs@.len(),
    ensures
        r@ == ev_kind(evs@[k as int]),
{
    match &evs[k] {
        SyntaxEvent::Enter(kind, _, _, _, _, _) => chars_of(kind),
        SyntaxEvent::Leave => Vec::new(),
    }
}

/// The line of node `k`.
fn line_exec(evs: &Vec<SyntaxEvent>, k: usize) -> (r: usize)
    requires
        k < evs@.len(),
    ensures
        r == ev_line(evs@[k as int]),
{
    match &evs[k] {
        SyntaxEvent::Enter(_, _, _, row, _, _) => if *row < usize::MAX {
            *row + 1
        } else {
            usize::MAX
        },
        SyntaxEvent::Leave => 0,
    }
}


/// Node kinds that name something.
pub open spec fn identifier_kind(kind: Seq<char>) -> bool {
    kind == "identifier"@ || kind == "type_identifier"@ || kind == "field_identifier"@
}

/// Node kinds of string literals.
pub open spec fn string_kind(kind: Seq<char>) -> bool {
    kind == "string"@ || kind == "string_literal"@
}

/// The first node from position `p` up to `end` (in preorder) whose kind is an
/// identifier kind (`identifiers`) or a string kind (otherwise).
pub open spec fn first_in(evs: Seq<SyntaxEvent>, p: int, end: int, identifiers: bool) -> Option<int>
    decreases end - p,
{
    if p < 0 || p >= end || p >= evs.len() {
        None
    } else if evs[p] is Enter && (if identifiers {
        identifier_kind(ev_kind(evs[p]))
    } else {
        string_kind(ev_kind(evs[p]))
    }) {
        Some(p)
    } else {
        first_in(evs, p + 1, end, identifiers)
    }
}

/// The first identifier in the subtree of node `k`, in preorder.
pub open spec fn first_identifier(evs: Seq<SyntaxEvent>, src: Seq<char>, k: int) -> Option<Seq<char>> {
    match first_in(evs, k, span_end(evs, k), true) {
        Some(p) => Some(ev_text(evs[p], src)),
        None => None,
    }
}

/// `s` without the characters of `set` at either end.
pub open spec fn trim_set(s: Seq<char>, set: Seq<char>) -> Seq<char> {
    trim_set_end(trim_set_start(s, set), set)
}

/// `s` without the characters of `set` at its start.
pub open spec fn trim_set_start(s: Seq<char>, set: Seq<char>) -> Seq<char>
    decreases s.len(),
{
    if s.len() > 0 && set.contains(s[0]) {
        trim_set_start(s.drop_first(), set)
    } else {
        s
    }
}

/// `s` without the characters of `set` at its end.
pub open spec fn trim_set_end(s: Seq<char>, set: Seq<char>) -> Seq<char>
    decreases s.len(),
{
    if s.len() > 0 && set.contains(s.last()) {
        trim_set_end(s.drop_last(), set)
    } else {
        s
    }
}

fn in_set(c: char, set: &[char]) -> (r: bool)
    ensures
        r == set@.contains(c),
{
    let mut i: usize = 0;
    while i < set.len()
        invariant
            i <= set@.len(),
            forall|k: int| 0 <= k < i ==> set@[k] != c,
        decreases set.len() - i,
    {
        if set[i] == c {
            assert(set@[i as int] == c);
            return true;
        }
        i = i + 1;
    }
    false
}

/// `s` without the characters of `set` at either end (`str::trim_matches`).
pub fn trim_set_exec(s: &[char], set: &str) -> (r: Vec<char>)
    ensures
        r@ == trim_set(s@, set@),
{
    let sc = chars_of(set);
    let mut a: usize = 0;
    assert(s@.skip(0) =~= s@);
    while a < s.len() && in_set(s[a], sc.as_slice())
        invariant
            a <= s@.len(),
            sc@ == set@,
            trim_set_start(s@, set@) == trim_set_start(s@.skip(a as int), set@),
        decreases s.len() - a,
    {
        assert(s@.skip(a as int).drop_first() =~= s@.skip(a + 1));
        a = a + 1;
    }
    let ghost mid = s@.skip(a as int);
    assert(trim_set_start(s@, set@) == mid);
    let mut b: usize = s.len();
    assert(mid.take((b - a) as int) =~= mid);
    while b > a && in_set(s[b - 1], sc.as_slice())
        invariant
            a <= b <= s@.len(),
            sc@ == set@,
            mid == s@.skip(a as int),
            trim_set_end(mid, set@) == trim_set_end(mid.take((b - a) as int), set@),
        decreases b,
    {
        assert(mid.take((b - a) as int).drop_last() =~= mid.take((b - 1 - a) as int));
        assert(mid.take((b - a) as int).last() == s@[b - 1]);
        b = b - 1;
    }
    let mut out: Vec<char> = Vec::new();
    let mut i: usize = a;
    while i < b
        invariant
            a <= i <= b <= s@.len(),
            out@ == s@.subrange(a as int, i as int),
        decreases b - i,
    {
        out.push(s[i]);
        assert(out@ =~= s@.subrange(a as int, i + 1));
        i = i + 1;
    }
    assert(out@ =~= mid.take((b - a) as int));
    out
}

/// The first string literal in the subtree of node `k`, without its quotes.
pub open spec fn first_string_like(evs: Seq<SyntaxEvent>, src: Seq<char>, k: int) -> Option<Seq<char>> {
    match first_in(evs, k, span_end(evs, k), false) {
        Some(p) => Some(trim_set(ev_text(evs[p], src), "\"'"@)),
        None => None,
    }
}

fn first_in_exec(evs: &Vec<SyntaxEvent>, k: usize, identifiers: bool) -> (r: Option<usize>)
    requires
        k < evs@.len(),
    ensures
        match r {
            None => first_in(evs@, k as int, span_end(evs@, k as int), identifiers) is None,
            Some(p) => first_in(evs@, k as int, span_end(evs@, k as int), identifiers) == Some(
                p as int,
            ) && p < evs@.len(),
        },
{
    let end = span_end_exec(evs, k);
    let mut p: usize = k;
    while p < end
        invariant
            k <= p <= end <= evs@.len(),
            end == span_end(evs@, k as int),
            first_in(evs@, k as int, end as int, identifiers) == first_in(
                evs@,
                p as int,
                end as int,
                identifiers,
            ),
        decreases end - p,
    {
        match &evs[p] {
            SyntaxEvent::Enter(kind, _, _, _, _, _) => {
                let kc = chars_of(kind);
                let hit = if identifiers {
                    eq_lit(kc.as_slice(), "identifier") || eq_lit(kc.as_slice(), "type_identifier")
                        || eq_lit(kc.as_slice(), "field_identifier")
                } else {
                    eq_lit(kc.as_slice(), "string") || eq_lit(kc.as_slice(), "string_literal")
                };
                if hit {
                    return Some(p);
                }
            },
            SyntaxEvent::Leave => {},
        }
        p = p + 1;
    }
    None
}

fn first_identifier_exec(evs: &Vec<SyntaxEvent>, src: &str, k: usize) -> (r: Option<String>)
    requires
        k < evs@.len(),
    ensures
        match r {
            None => first_identifier(evs@, src@, k as int) is None,
            Some(t) => first_identifier(evs@, src@, k as int) == Some(t@),
        },
{
    match first_in_exec(evs, k, true) {
        Some(p) => Some(text_exec(evs, src, p)),
        None => None,
    }
}

fn first_string_like_exec(evs: &Vec<SyntaxEvent>, src: &str, k: usize) -> (r: Option<String>)
    requires
        k < evs@.len(),
    ensures
        match r {
            None => first_string_like(evs@, src@, k as int) is None,
            Some(t) => first_string_like(evs@, src@, k as int) == Some(t@),
        },
{
    match first_in_exec(evs, k, false) {
        Some(p) => {
            let t = text_exec(evs, src, p);
            let tc = chars_of(t.as_str());
            let trimmed = trim_set_exec(tc.as_slice(), "\"'");
            Some(string_of(trimmed.as_slice()))
        },
        None => None,
    }
}

/// The name inside a C declarator: the identifier itself, or the name of the
/// inner declarator of a function, pointer or parenthesized declarator, else
/// its first identifier.
pub open spec fn declarator_name(evs: Seq<SyntaxEvent>, src: Seq<char>, d: int) -> Option<Seq<char>>
    decreases evs.len() - d,
{
    if d < 0 || d >= evs.len() {
        None
    } else {
        let kind = ev_kind(evs[d]);
        if identifier_kind(kind) {
            Some(ev_text(evs[d], src))
        } else if kind == "function_declarator"@ || kind == "pointer_declarator"@ || kind
            == "parenthesized_declarator"@ {
            proof {
                lemma_child_after(evs, d + 1, "declarator"@);
            }
            match field_child(evs, d, "declarator"@) {
                Some(inner) => declarator_name(evs, src, inner),
                None => first_identifier(evs, src, d),
            }
        } else {
            first_identifier(evs, src, d)
        }
    }
}

fn declarator_name_exec(evs: &Vec<SyntaxEvent>, src: &str, d: usize) -> (r: Option<String>)
    requires
        d < evs@.len(),
    ensures
        match r {
            None => declarator_name(evs@, src@, d as int) is None,
            Some(t) => declarator_name(evs@, src@, d as int) == Some(t@),
        },
    decreases evs@.len() - d,
{
    let kind = kind_exec(evs, d);
    if eq_lit(kind.as_slice(), "identifier") || eq_lit(kind.as_slice(), "type_identifier")
        || eq_lit(kind.as_slice(), "field_identifier") {
        return Some(text_exec(evs, src, d));
    }
    if eq_lit(kind.as_slice(), "function_declarator") || eq_lit(kind.as_slice(), "pointer_declarator")
        || eq_lit(kind.as_slice(), "parenthesized_declarator") {
        proof {
            lemma_child_after(evs@, d + 1, "declarator"@);
        }
        return match field_child_exec(evs, d, "declarator") {
            Some(inner) => declarator_name_exec(evs, src, inner),
            None => first_identifier_exec(evs, src, d),
        };
    }
    first_identifier_exec(evs, src, d)
}

/// The name of a definition node: its `name` field, else the name in its
/// declarator, else its first identifier.
pub open spec fn definition_name(evs: Seq<SyntaxEvent>, src: Seq<char>, k: int) -> Option<Seq<char>> {
    match field_child(evs, k, "name"@) {
        Some(n) => Some(ev_text(evs[n], src)),
        None => match field_child(evs, k, "declarator"@) {
            Some(d) => if declarator_name(evs, src, d) is Some {
                declarator_name(evs, src, d)
            } else {
                first_identifier(evs, src, k)
            },
            None => first_identifier(evs, src, k),
        },
    }
}

fn definition_name_exec(evs: &Vec<SyntaxEvent>, src: &str, k: usize) -> (r: Option<String>)
    requires
        k < evs@.len(),
    ensures
        match r {
            None => definition_name(evs@, src@, k as int) is None,
            Some(t) => definition_name(evs@, src@, k as int) == Some(t@),
        },
{
    proof {
        lemma_child_after(evs@, k + 1, "name"@);
        lemma_child_after(evs@, k + 1, "declarator"@);
    }
    if let Some(n) = field_child_exec(evs, k, "name") {
        return Some(text_exec(evs, src, n));
    }
    if let Some(d) = field_child_exec(evs, k, "declarator") {
        if let Some(name) = declarator_name_exec(evs, src, d) {
            return Some(name);
        }
    }
    first_identifier_exec(evs, src, k)
}


/// The module that an import statement names: for Python the `from` module,
/// else the imported name (unquoted), else the module; for JavaScript and
/// TypeScript the source (unquoted); otherwise, or failing those, the first
/// string literal in the statement.
pub open spec fn import_target(
    evs: Seq<SyntaxEvent>,
    src: Seq<char>,
    lang: LanguageKind,
    k: int,
) -> Option<Seq<char>> {
    let fallback = first_string_like(evs, src, k);
    match lang {
        LanguageKind::Python => if ev_kind(evs[k]) == "import_from_statement"@ && field_child(
            evs,
            k,
            "module_name"@,
        ) is Some {
            Some(ev_text(evs[field_child(evs, k, "module_name"@)->0], src))
        } else if field_child(evs, k, "name"@) is Some {
            Some(trim_set(ev_text(evs[field_child(evs, k, "name"@)->0], src), "\"'"@))
        } else if field_child(evs, k, "module_name"@) is Some {
            Some(ev_text(evs[field_child(evs, k, "module_name"@)->0], src))
        } else {
            fallback
        },
        LanguageKind::JavaScript | LanguageKind::TypeScript => match field_child(evs, k, "source"@) {
            Some(x) => Some(trim_set(ev_text(evs[x], src), "\"'"@)),
            None => fallback,
        },
        _ => fallback,
    }
}

fn unquoted_text(evs: &Vec<SyntaxEvent>, src: &str, k: usize, set: &str) -> (r: String)
    requires
        k < evs@.len(),
    ensures
        r@ == trim_set(ev_text(evs@[k as int], src@), set@),
{
    let t = text_exec(evs, src, k);
    let tc = chars_of(t.as_str());
    let trimmed = trim_set_exec(tc.as_slice(), set);
    string_of(trimmed.as_slice())
}

fn import_target_exec(evs: &Vec<SyntaxEvent>, src: &str, lang: LanguageKind, k: usize) -> (r: Option<
    String,
>)
    requires
        k < evs@.len(),
    ensures
        match r {
            None => import_target(evs@, src@, lang, k as int) is None,
            Some(t) => import_target(evs@, src@, lang, k as int) == Some(t@),
        },
{
    proof {
        lemma_child_after(evs@, k + 1, "module_name"@);
        lemma_child_after(evs@, k + 1, "name"@);
        lemma_child_after(evs@, k + 1, "source"@);
    }
    match lang {
        LanguageKind::Python => {
            let kind = kind_exec(evs, k);
            if eq_lit(kind.as_slice(), "import_from_statement") {
                if let Some(m) = field_child_exec(evs, k, "module_name") {
                    return Some(text_exec(evs, src, m));
                }
            }
            if let Some(n) = field_child_exec(evs, k, "name") {
                return Some(unquoted_text(evs, src, n, "\"'"));
            }
            if let Some(m) = field_child_exec(evs, k, "module_name") {
                return Some(text_exec(evs, src, m));
            }
        },
        LanguageKind::JavaScript | LanguageKind::TypeScript => {
            if let Some(x) = field_child_exec(evs, k, "source") {
                return Some(unquoted_text(evs, src, x, "\"'"));
            }
        },
        _ => {},
    }
    first_string_like_exec(evs, src, k)
}

/// The first child from position `c` that is a string or system library
/// string literal.
pub open spec fn include_child_from(evs: Seq<SyntaxEvent>, c: int) -> Option<int>
    decreases evs.len() - c,
{
    if c < 0 || c >= evs.len() || !(evs[c] is Enter) {
        None
    } else if ev_kind(evs[c]) == "string_literal"@ || ev_kind(evs[c]) == "system_lib_string"@ {
        Some(c)
    } else {
        proof {
            lemma_close_from(evs, c + 1, 1);
        }
        include_child_from(evs, span_end(evs, c))
    }
}

/// A sibling search for an include path finds a node at or after where it starts.
pub proof fn lemma_include_child(evs: Seq<SyntaxEvent>, c: int)
    requires
        0 <= c,
    ensures
        include_child_from(evs, c) matches Some(x) ==> c <= x < evs.len(),
    decreases evs.len() - c,
{
    if c < evs.len() && evs[c] is Enter {
        lemma_close_from(evs, c + 1, 1);
        lemma_include_child(evs, span_end(evs, c));
    }
}

/// The path of an `#include`: its string or system library literal without
/// quotes or angle brackets.
pub open spec fn include_target(evs: Seq<SyntaxEvent>, src: Seq<char>, k: int) -> Option<Seq<char>> {
    match include_child_from(evs, k + 1) {
        Some(x) => Some(trim_set(ev_text(evs[x], src), "\"<>'"@)),
        None => None,
    }
}

fn include_target_exec(evs: &Vec<SyntaxEvent>, src: &str, k: usize) -> (r: Option<String>)
    requires
        k < evs@.len(),
    ensures
        match r {
            None => include_target(evs@, src@, k as int) is None,
            Some(t) => include_target(evs@, src@, k as int) == Some(t@),
        },
{
    let total = evs.len();
    let mut c: usize = k + 1;
    while c < total
        invariant
            total == evs@.len(),
            k < c <= evs@.len(),
            include_child_from(evs@, k + 1) == include_child_from(evs@, c as int),
        decreases evs.len() - c,
    {
        match &evs[c] {
            SyntaxEvent::Leave => {
                return None;
            },
            SyntaxEvent::Enter(kind, _, _, _, _, _) => {
                let kc = chars_of(kind);
                if eq_lit(kc.as_slice(), "string_literal") || eq_lit(kc.as_slice(), "system_lib_string") {
                    return Some(unquoted_text(evs, src, c, "\"<>'"));
                }
            },
        }
        c = span_end_exec(evs, c);
    }
    None
}

/// The text of a called expression: an identifier; the property or field of a
/// member access; a scoped identifier whole; the function of a generic call;
/// else the whole expression.
pub open spec fn callable_text(evs: Seq<SyntaxEvent>, src: Seq<char>, n: int) -> Seq<char>
    decreases evs.len() - n,
{
    if n < 0 || n >= evs.len() {
        Seq::empty()
    } else {
        let kind = ev_kind(evs[n]);
        if kind == "member_expression"@ || kind == "field_expression"@ || kind
            == "selector_expression"@ {
            match field_child(evs, n, "property"@) {
                Some(p) => ev_text(evs[p], src),
                None => match field_child(evs, n, "field"@) {
                    Some(f) => ev_text(evs[f], src),
                    None => ev_text(evs[n], src),
                },
            }
        } else if kind == "generic_function"@ {
            proof {
                lemma_child_after(evs, n + 1, "function"@);
            }
            match field_child(evs, n, "function"@) {
                Some(f) => callable_text(evs, src, f),
                None => ev_text(evs[n], src),
            }
        } else {
            ev_text(evs[n], src)
        }
    }
}

fn callable_text_exec(evs: &Vec<SyntaxEvent>, src: &str, n: usize) -> (r: String)
    requires
        n < evs@.len(),
    ensures
        r@ == callable_text(evs@, src@, n as int),
    decreases evs@.len() - n,
{
    let kind = kind_exec(evs, n);
    proof {
        lemma_child_after(evs@, n + 1, "property"@);
        lemma_child_after(evs@, n + 1, "field"@);
        lemma_child_after(evs@, n + 1, "function"@);
    }
    if eq_lit(kind.as_slice(), "member_expression") || eq_lit(kind.as_slice(), "field_expression")
        || eq_lit(kind.as_slice(), "selector_expression") {
        if let Some(p) = field_child_exec(evs, n, "property") {
            return text_exec(evs, src, p);
        }
        if let Some(f) = field_child_exec(evs, n, "field") {
            return text_exec(evs, src, f);
        }
        return text_exec(evs, src, n);
    }
    if eq_lit(kind.as_slice(), "generic_function") {
        if let Some(f) = field_child_exec(evs, n, "function") {
            return callable_text_exec(evs, src, f);
        }
    }
    text_exec(evs, src, n)
}

/// The called expression of a call: its `function` field, else its first
/// named child.
pub open spec fn callee(evs: Seq<SyntaxEvent>, k: int) -> Option<int> {
    match field_child(evs, k, "function"@) {
        Some(f) => Some(f),
        None => named_child_from(evs, k + 1),
    }
}

fn callee_exec(evs: &Vec<SyntaxEvent>, k: usize) -> (r: Option<usize>)
    requires
        k < evs@.len(),
    ensures
        match r {
            None => callee(evs@, k as int) is None,
            Some(c) => callee(evs@, k as int) == Some(c as int) && c < evs@.len(),
        },
{
    proof {
        lemma_child_after(evs@, k + 1, "function"@);
    }
    match field_child_exec(evs, k, "function") {
        Some(f) => Some(f),
        None => named_child_exec(evs, k),
    }
}

/// The target of a call: the text of its called expression.
pub open spec fn call_target(evs: Seq<SyntaxEvent>, src: Seq<char>, k: int) -> Option<Seq<char>> {
    match callee(evs, k) {
        Some(c) => Some(callable_text(evs, src, c)),
        None => None,
    }
}

/// The HTTP verbs (and `route`) that a routing call is named after.
pub open spec fn http_verbs() -> Seq<Seq<char>> {
    seq!["get"@, "post"@, "put"@, "patch"@, "delete"@, "options"@, "head"@, "route"@]
}

/// A lowercased callee named after an HTTP verb, alone or after a dot.
pub open spec fn http_method(method: Seq<char>) -> bool {
    exists|i: int|
        0 <= i < http_verbs().len() && (method == #[trigger] http_verbs()[i] || ends_with(
            method,
            "."@ + http_verbs()[i],
        ))
}

/// The route a routing call declares: `method path`, when the call is named
/// after an HTTP verb and its first string literal holds a slash.
pub open spec fn http_route_call(evs: Seq<SyntaxEvent>, src: Seq<char>, k: int) -> Option<Seq<char>> {
    match callee(evs, k) {
        None => None,
        Some(c) => {
            let method = lower_text(callable_text(evs, src, c));
            if !http_method(method) {
                None
            } else {
                match first_string_like(evs, src, k) {
                    Some(route) => if contains(route, "/"@) {
                        Some(method + " "@ + route)
                    } else {
                        None
                    },
                    None => None,
                }
            }
        },
    }
}

fn is_http_method(method: &[char]) -> (r: bool)
    ensures
        r == http_method(method@),
{
    let verbs: Vec<&str> = vec!["get", "post", "put", "patch", "delete", "options", "head", "route"];
    assert(verbs@.map_values(|s: &str| s@) =~= http_verbs());
    let mut i: usize = 0;
    while i < verbs.len()
        invariant
            i <= verbs@.len(),
            verbs@.map_values(|s: &str| s@) == http_verbs(),
            forall|k: int|
                0 <= k < i ==> !(method@ == #[trigger] http_verbs()[k] || ends_with(
                    method@,
                    "."@ + http_verbs()[k],
                )),
        decreases verbs.len() - i,
    {
        assert(http_verbs()[i as int] == verbs@[i as int]@);
        let v = chars_of(verbs[i]);
        let mut dotted = chars_of(".");
        append_chars(&mut dotted, v.as_slice());
        if seq_eq(method, v.as_slice()) || crate::text::ends_with_seq(method, dotted.as_slice()) {
            return true;
        }
        i = i + 1;
    }
    false
}

fn http_route_call_exec(evs: &Vec<SyntaxEvent>, src: &str, k: usize) -> (r: Option<String>)
    requires
        k < evs@.len(),
    ensures
        match r {
            None => http_route_call(evs@, src@, k as int) is None,
            Some(t) => http_route_call(evs@, src@, k as int) == Some(t@),
        },
{
    let c = match callee_exec(evs, k) {
        Some(c) => c,
        None => return None,
    };
    let ct = callable_text_exec(evs, src, c);
    let method = lower_chars(ct.as_str());
    if !is_http_method(method.as_slice()) {
        return None;
    }
    let route = match first_string_like_exec(evs, src, k) {
        Some(r) => r,
        None => return None,
    };
    let rc = chars_of(route.as_str());
    if !crate::text::contains_lit(rc.as_slice(), "/") {
        return None;
    }
    let mut out = method;
    push_str(&mut out, " ");
    append_chars(&mut out, rc.as_slice());
    Some(string_of(out.as_slice()))
}

/// The routes declared by the decorators among the children from position
/// `c`: a decorator that mentions route, get or post, with a first string
/// literal that holds a slash.
pub open spec fn decorator_routes_from(evs: Seq<SyntaxEvent>, src: Seq<char>, c: int) -> Seq<
    (Seq<char>, Seq<char>, usize),
>
    decreases evs.len() - c,
{
    if c < 0 || c >= evs.len() || !(evs[c] is Enter) {
        Seq::empty()
    } else {
        proof {
            lemma_close_from(evs, c + 1, 1);
        }
        let rest = decorator_routes_from(evs, src, span_end(evs, c));
        let text = lower_text(ev_text(evs[c], src));
        let here = if ev_kind(evs[c]) == "decorator"@ && (contains(text, "route"@) || contains(
            text,
            "get"@,
        ) || contains(text, "post"@)) {
            match first_string_like(evs, src, c) {
                Some(route) => if contains(route, "/"@) {
                    seq![("route"@, route, ev_line(evs[c]))]
                } else {
                    Seq::empty()
                },
                None => Seq::empty(),
            }
        } else {
            Seq::empty()
        };
        here + rest
    }
}


/// The views of definitions: (kind, name, line).
pub open spec fn def_views(v: Seq<Definition>) -> Seq<(Seq<char>, Seq<char>, usize)> {
    v.map_values(|d: Definition| (d.kind@, d.name@, d.line))
}

/// The views of imports: (kind, target, line).
pub open spec fn import_views(v: Seq<Import>) -> Seq<(Seq<char>, Seq<char>, usize)> {
    v.map_values(|i: Import| (i.kind@, i.target@, i.line))
}

/// The views of calls: (target, line).
pub open spec fn call_views(v: Seq<Call>) -> Seq<(Seq<char>, usize)> {
    v.map_values(|c: Call| (c.target@, c.line))
}

fn push_def(defs: &mut Vec<Definition>, kind: &str, name: String, line: usize)
    ensures
        def_views(final(defs)@) == def_views(old(defs)@).push((kind@, name@, line)),
{
    let ghost before = def_views(defs@);
    defs.push(Definition { kind: String::from_str(kind), name, line });
    assert(def_views(defs@) =~= before.push((kind@, name@, line)));
}

fn push_import(imports: &mut Vec<Import>, kind: &str, target: String, line: usize)
    ensures
        import_views(final(imports)@) == import_views(old(imports)@).push((kind@, target@, line)),
{
    let ghost before = import_views(imports@);
    imports.push(Import { kind: String::from_str(kind), target, line });
    assert(import_views(imports@) =~= before.push((kind@, target@, line)));
}

fn push_decorator_routes(evs: &Vec<SyntaxEvent>, src: &str, k: usize, defs: &mut Vec<Definition>)
    requires
        k < evs@.len(),
    ensures
        def_views(final(defs)@) == def_views(old(defs)@) + decorator_routes_from(
            evs@,
            src@,
            k + 1,
        ),
{
    let ghost start = def_views(defs@);
    let total = evs.len();
    let mut c: usize = k + 1;
    assert(start + decorator_routes_from(evs@, src@, k + 1) =~= def_views(defs@)
        + decorator_routes_from(evs@, src@, c as int));
    while c < total
        invariant
            total == evs@.len(),
            k < c <= evs@.len(),
            start == def_views(old(defs)@),
            start + decorator_routes_from(evs@, src@, k + 1) == def_views(defs@)
                + decorator_routes_from(evs@, src@, c as int),
        decreases evs.len() - c,
    {
        if let SyntaxEvent::Leave = &evs[c] {
            assert(decorator_routes_from(evs@, src@, c as int) =~= Seq::empty());
            assert(def_views(defs@) + decorator_routes_from(evs@, src@, c as int) =~= def_views(
                defs@,
            ));
            return;
        }
        let next = span_end_exec(evs, c);
        let ghost before = def_views(defs@);
        let kind = kind_exec(evs, c);
        if eq_lit(kind.as_slice(), "decorator") {
            let t = text_exec(evs, src, c);
            let tl = lower_chars(t.as_str());
            if crate::text::contains_lit(tl.as_slice(), "route") || crate::text::contains_lit(
                tl.as_slice(),
                "get",
            ) || crate::text::contains_lit(tl.as_slice(), "post") {
                if let Some(route) = first_string_like_exec(evs, src, c) {
                    let rc = chars_of(route.as_str());
                    if crate::text::contains_lit(rc.as_slice(), "/") {
                        let line = line_exec(evs, c);
                        push_def(defs, "route", route, line);
                    }
                }
            }
        }
        assert(def_views(defs@) + decorator_routes_from(evs@, src@, next as int) =~= before
            + decorator_routes_from(evs@, src@, c as int));
        c = next;
    }
    assert(decorator_routes_from(evs@, src@, c as int) =~= Seq::empty());
    assert(def_views(defs@) + decorator_routes_from(evs@, src@, c as int) =~= def_views(defs@));
}

/// The imports of the outermost `import_spec` nodes from position `p` up to
/// `end`, in order, each with its unquoted `path`.
pub open spec fn go_specs(
    evs: Seq<SyntaxEvent>,
    src: Seq<char>,
    p: int,
    end: int,
    line: usize,
) -> Seq<(Seq<char>, Seq<char>, usize)>
    decreases end - p,
{
    if p < 0 || p >= end || p >= evs.len() {
        Seq::empty()
    } else if evs[p] is Enter && ev_kind(evs[p]) == "import_spec"@ {
        proof {
            lemma_close_from(evs, p + 1, 1);
        }
        let here = match field_child(evs, p, "path"@) {
            Some(x) => seq![("import"@, trim_set(ev_text(evs[x], src), "\""@), line)],
            None => Seq::empty(),
        };
        if span_end(evs, p) >= end {
            here
        } else {
            here + go_specs(evs, src, span_end(evs, p), end, line)
        }
    } else {
        go_specs(evs, src, p + 1, end, line)
    }
}

/// The imports of the import specs among the children from position `c` of
/// a Go import declaration.
pub open spec fn go_decl_imports_from(
    evs: Seq<SyntaxEvent>,
    src: Seq<char>,
    c: int,
    line: usize,
) -> Seq<(Seq<char>, Seq<char>, usize)>
    decreases evs.len() - c,
{
    if c < 0 || c >= evs.len() || !(evs[c] is Enter) {
        Seq::empty()
    } else {
        proof {
            lemma_close_from(evs, c + 1, 1);
        }
        let rest = go_decl_imports_from(evs, src, span_end(evs, c), line);
        if ev_kind(evs[c]) == "import_spec"@ || ev_kind(evs[c]) == "import_spec_list"@ {
            go_specs(evs, src, c, span_end(evs, c), line) + rest
        } else {
            rest
        }
    }
}

fn push_go_specs(
    evs: &Vec<SyntaxEvent>,
    src: &str,
    c: usize,
    end: usize,
    line: usize,
    imports: &mut Vec<Import>,
)
    requires
        c < end <= evs@.len(),
    ensures
        import_views(final(imports)@) == import_views(old(imports)@) + go_specs(
            evs@,
            src@,
            c as int,
            end as int,
            line,
        ),
{
    let ghost start = import_views(imports@);
    let mut p: usize = c;
    assert(start + go_specs(evs@, src@, c as int, end as int, line) =~= import_views(imports@)
        + go_specs(evs@, src@, p as int, end as int, line));
    while p < end
        invariant
            c <= p,
            end <= evs@.len(),
            start + go_specs(evs@, src@, c as int, end as int, line) == import_views(imports@)
                + go_specs(evs@, src@, p as int, end as int, line),
        decreases end - p,
    {
        let ghost before = import_views(imports@);
        let kind = kind_exec(evs, p);
        let is_spec = match &evs[p] {
            SyntaxEvent::Enter(..) => eq_lit(kind.as_slice(), "import_spec"),
            SyntaxEvent::Leave => false,
        };
        if is_spec {
            proof {
                lemma_child_after(evs@, p + 1, "path"@);
            }
            if let Some(x) = field_child_exec(evs, p, "path") {
                let t = unquoted_text(evs, src, x, "\"");
                push_import(imports, "import", t, line);
            }
            let next = span_end_exec(evs, p);
            if next >= end {
                assert(go_specs(evs@, src@, next as int, end as int, line) =~= Seq::empty());
            }
            assert(import_views(imports@) + go_specs(evs@, src@, next as int, end as int, line)
                =~= before + go_specs(evs@, src@, p as int, end as int, line));
            if next >= end {
                assert(go_specs(evs@, src@, end as int, end as int, line) =~= Seq::empty());
                assert(import_views(imports@) + go_specs(evs@, src@, end as int, end as int, line)
                    =~= import_views(imports@));
                p = end;
            } else {
                p = next;
            }
        } else {
            p = p + 1;
        }
    }
    assert(go_specs(evs@, src@, p as int, end as int, line) =~= Seq::empty());
    assert(import_views(imports@) + go_specs(evs@, src@, p as int, end as int, line) =~= import_views(
        imports@,
    ));
}

fn push_go_declaration(
    evs: &Vec<SyntaxEvent>,
    src: &str,
    k: usize,
    line: usize,
    imports: &mut Vec<Import>,
)
    requires
        k < evs@.len(),
    ensures
        import_views(final(imports)@) == import_views(old(imports)@) + go_decl_imports_from(
            evs@,
            src@,
            k + 1,
            line,
        ),
{
    let ghost start = import_views(imports@);
    let total = evs.len();
    let mut c: usize = k + 1;
    assert(start + go_decl_imports_from(evs@, src@, k + 1, line) =~= import_views(imports@)
        + go_decl_imports_from(evs@, src@, c as int, line));
    while c < total
        invariant
            total == evs@.len(),
            k < c <= evs@.len(),
            start == import_views(old(imports)@),
            start + go_decl_imports_from(evs@, src@, k + 1, line) == import_views(imports@)
                + go_decl_imports_from(evs@, src@, c as int, line),
        decreases evs.len() - c,
    {
        if let SyntaxEvent::Leave = &evs[c] {
            assert(go_decl_imports_from(evs@, src@, c as int, line) =~= Seq::empty());
            assert(import_views(imports@) + go_decl_imports_from(evs@, src@, c as int, line)
                =~= import_views(imports@));
            return;
        }
        let next = span_end_exec(evs, c);
        let ghost before = import_views(imports@);
        let kind = kind_exec(evs, c);
        if eq_lit(kind.as_slice(), "import_spec") || eq_lit(kind.as_slice(), "import_spec_list") {
            push_go_specs(evs, src, c, next, line, imports);
        }
        assert(import_views(imports@) + go_decl_imports_from(evs@, src@, next as int, line) =~= before
            + go_decl_imports_from(evs@, src@, c as int, line));
        c = next;
    }
    assert(go_decl_imports_from(evs@, src@, c as int, line) =~= Seq::empty());
    assert(import_views(imports@) + go_decl_imports_from(evs@, src@, c as int, line) =~= import_views(
        imports@,
    ));
}


/// Kinds of function and method definitions.
pub open spec fn function_kind(kind: Seq<char>) -> bool {
    kind == "function_definition"@ || kind == "function_declaration"@ || kind
        == "method_declaration"@ || kind == "function_item"@
}

/// A definition of kind `dk` named after node `k`, when it has a name.
pub open spec fn named_def(evs: Seq<SyntaxEvent>, src: Seq<char>, k: int, dk: Seq<char>) -> Seq<
    (Seq<char>, Seq<char>, usize),
> {
    match definition_name(evs, src, k) {
        Some(n) => seq![(dk, n, ev_line(evs[k]))],
        None => Seq::empty(),
    }
}

/// The definitions that node `k` contributes: functions and methods (with
/// the routes of their decorators), classes, structs, enums, Go types, and
/// the routes of routing calls.
pub open spec fn node_defs(evs: Seq<SyntaxEvent>, src: Seq<char>, lang: LanguageKind, k: int) -> Seq<
    (Seq<char>, Seq<char>, usize),
> {
    let kind = ev_kind(evs[k]);
    if function_kind(kind) {
        named_def(
            evs,
            src,
            k,
            if kind == "method_declaration"@ {
                "method"@
            } else {
                "function"@
            },
        ) + decorator_routes_from(evs, src, k + 1)
    } else if kind == "class_definition"@ || kind == "class_declaration"@ {
        named_def(evs, src, k, "class"@)
    } else if kind == "struct_specifier"@ || kind == "struct_item"@ {
        named_def(evs, src, k, "struct"@)
    } else if kind == "enum_specifier"@ || kind == "enum_item"@ {
        named_def(evs, src, k, "enum"@)
    } else if kind == "type_declaration"@ && lang == LanguageKind::Go {
        named_def(evs, src, k, "type"@)
    } else if kind == "call_expression"@ || kind == "call"@ {
        match http_route_call(evs, src, k) {
            Some(r) => seq![("route"@, r, ev_line(evs[k]))],
            None => Seq::empty(),
        }
    } else {
        Seq::empty()
    }
}

/// The imports that node `k` contributes: import statements, includes, and
/// the specs of Go import declarations.
pub open spec fn node_imports(evs: Seq<SyntaxEvent>, src: Seq<char>, lang: LanguageKind, k: int) -> Seq<
    (Seq<char>, Seq<char>, usize),
> {
    let kind = ev_kind(evs[k]);
    let line = ev_line(evs[k]);
    if kind == "import_statement"@ || kind == "import_from_statement"@ {
        match import_target(evs, src, lang, k) {
            Some(t) => seq![("import"@, t, line)],
            None => Seq::empty(),
        }
    } else if kind == "preproc_include"@ {
        match include_target(evs, src, k) {
            Some(t) => seq![("include"@, t, line)],
            None => Seq::empty(),
        }
    } else if kind == "import_declaration"@ && lang == LanguageKind::Go {
        go_decl_imports_from(evs, src, k + 1, line)
    } else {
        Seq::empty()
    }
}

/// The call that node `k` contributes, when it is a call.
pub open spec fn node_calls(evs: Seq<SyntaxEvent>, src: Seq<char>, k: int) -> Seq<(Seq<char>, usize)> {
    let kind = ev_kind(evs[k]);
    if kind == "call_expression"@ || kind == "call"@ {
        match call_target(evs, src, k) {
            Some(t) => seq![(t, ev_line(evs[k]))],
            None => Seq::empty(),
        }
    } else {
        Seq::empty()
    }
}

/// The definitions of the first `n` events' nodes, in order.
pub open spec fn defs_upto(evs: Seq<SyntaxEvent>, src: Seq<char>, lang: LanguageKind, n: nat) -> Seq<
    (Seq<char>, Seq<char>, usize),
>
    decreases n,
{
    if n == 0 {
        Seq::empty()
    } else {
        defs_upto(evs, src, lang, (n - 1) as nat) + if evs[n - 1] is Enter {
            node_defs(evs, src, lang, n - 1)
        } else {
            Seq::empty()
        }
    }
}

/// The imports of the first `n` events' nodes, in order.
pub open spec fn imports_upto(evs: Seq<SyntaxEvent>, src: Seq<char>, lang: LanguageKind, n: nat) -> Seq<
    (Seq<char>, Seq<char>, usize),
>
    decreases n,
{
    if n == 0 {
        Seq::empty()
    } else {
        imports_upto(evs, src, lang, (n - 1) as nat) + if evs[n - 1] is Enter {
            node_imports(evs, src, lang, n - 1)
        } else {
            Seq::empty()
        }
    }
}

/// The calls of the first `n` events' nodes, in order.
pub open spec fn calls_upto(evs: Seq<SyntaxEvent>, src: Seq<char>, n: nat) -> Seq<
    (Seq<char>, usize),
>
    decreases n,
{
    if n == 0 {
        Seq::empty()
    } else {
        calls_upto(evs, src, (n - 1) as nat) + if evs[n - 1] is Enter {
            node_calls(evs, src, n - 1)
        } else {
            Seq::empty()
        }
    }
}

fn push_named_def(
    evs: &Vec<SyntaxEvent>,
    src: &str,
    k: usize,
    dk: &str,
    defs: &mut Vec<Definition>,
)
    requires
        k < evs@.len(),
    ensures
        def_views(final(defs)@) == def_views(old(defs)@) + named_def(evs@, src@, k as int, dk@),
{
    let ghost before = def_views(defs@);
    if let Some(n) = definition_name_exec(evs, src, k) {
        let line = line_exec(evs, k);
        push_def(defs, dk, n, line);
        assert(def_views(defs@) =~= before + named_def(evs@, src@, k as int, dk@));
    } else {
        assert(def_views(defs@) =~= before + named_def(evs@, src@, k as int, dk@));
    }
}

/// Adds what node `k` contributes to the definitions, imports and calls.
pub fn collect_from_node(
    evs: &Vec<SyntaxEvent>,
    src: &str,
    lang: LanguageKind,
    k: usize,
    definitions: &mut Vec<Definition>,
    imports: &mut Vec<Import>,
    calls: &mut Vec<Call>,
)
    requires
        k < evs@.len(),
    ensures
        def_views(final(definitions)@) == def_views(old(definitions)@) + node_defs(
            evs@,
            src@,
            lang,
            k as int,
        ),
        import_views(final(imports)@) == import_views(old(imports)@) + node_imports(
            evs@,
            src@,
            lang,
            k as int,
        ),
        call_views(final(calls)@) == call_views(old(calls)@) + node_calls(evs@, src@, k as int),
{
    let ghost d0 = def_views(definitions@);
    let ghost i0 = import_views(imports@);
    let ghost c0 = call_views(calls@);
    let kind = kind_exec(evs, k);
    let line = line_exec(evs, k);
    let k_function = eq_lit(kind.as_slice(), "function_definition") || eq_lit(
        kind.as_slice(),
        "function_declaration",
    ) || eq_lit(kind.as_slice(), "method_declaration") || eq_lit(kind.as_slice(), "function_item");
    let k_call = eq_lit(kind.as_slice(), "call_expression") || eq_lit(kind.as_slice(), "call");
    if k_function {
        let dk = if eq_lit(kind.as_slice(), "method_declaration") {
            "method"
        } else {
            "function"
        };
        push_named_def(evs, src, k, dk, definitions);
        push_decorator_routes(evs, src, k, definitions);
        assert(def_views(definitions@) =~= d0 + node_defs(evs@, src@, lang, k as int));
    } else if eq_lit(kind.as_slice(), "class_definition") || eq_lit(
        kind.as_slice(),
        "class_declaration",
    ) {
        push_named_def(evs, src, k, "class", definitions);
    } else if eq_lit(kind.as_slice(), "struct_specifier") || eq_lit(kind.as_slice(), "struct_item") {
        push_named_def(evs, src, k, "struct", definitions);
    } else if eq_lit(kind.as_slice(), "enum_specifier") || eq_lit(kind.as_slice(), "enum_item") {
        push_named_def(evs, src, k, "enum", definitions);
    } else if eq_lit(kind.as_slice(), "type_declaration") && lang == LanguageKind::Go {
        push_named_def(evs, src, k, "type", definitions);
    } else if k_call {
        if let Some(r) = http_route_call_exec(evs, src, k) {
            push_def(definitions, "route", r, line);
        }
        assert(def_views(definitions@) =~= d0 + node_defs(evs@, src@, lang, k as int));
    } else {
        assert(def_views(definitions@) =~= d0 + node_defs(evs@, src@, lang, k as int));
    }
    if eq_lit(kind.as_slice(), "import_statement") || eq_lit(kind.as_slice(), "import_from_statement") {
        if let Some(t) = import_target_exec(evs, src, lang, k) {
            push_import(imports, "import", t, line);
        }
        assert(import_views(imports@) =~= i0 + node_imports(evs@, src@, lang, k as int));
    } else if eq_lit(kind.as_slice(), "preproc_include") {
        if let Some(t) = include_target_exec(evs, src, k) {
            push_import(imports, "include", t, line);
        }
        assert(import_views(imports@) =~= i0 + node_imports(evs@, src@, lang, k as int));
    } else if eq_lit(kind.as_slice(), "import_declaration") && lang == LanguageKind::Go {
        push_go_declaration(evs, src, k, line, imports);
    } else {
        assert(import_views(imports@) =~= i0 + node_imports(evs@, src@, lang, k as int));
    }
    if k_call {
        if let Some(c) = callee_exec(evs, k) {
            let t = callable_text_exec(evs, src, c);
            let ghost before = call_views(calls@);
            calls.push(Call { target: t, line });
            assert(call_views(calls@) =~= before.push((t@, line)));
        }
        assert(call_views(calls@) =~= c0 + node_calls(evs@, src@, k as int));
    } else {
        assert(call_views(calls@) =~= c0 + node_calls(evs@, src@, k as int));
    }
}

/// The symbols of a syntax tree: what every node contributes, in preorder.
pub fn walk_node(evs: &Vec<SyntaxEvent>, src: &str, lang: LanguageKind) -> (r: (
    Vec<Definition>,
    Vec<Import>,
    Vec<Call>,
))
    ensures
        def_views(r.0@) == defs_upto(evs@, src@, lang, evs@.len()),
        import_views(r.1@) == imports_upto(evs@, src@, lang, evs@.len()),
        call_views(r.2@) == calls_upto(evs@, src@, evs@.len()),
{
    let mut definitions: Vec<Definition> = Vec::new();
    let mut imports: Vec<Import> = Vec::new();
    let mut calls: Vec<Call> = Vec::new();
    let mut k: usize = 0;
    assert(def_views(definitions@) =~= Seq::<(Seq<char>, Seq<char>, usize)>::empty());
    assert(import_views(imports@) =~= Seq::<(Seq<char>, Seq<char>, usize)>::empty());
    assert(call_views(calls@) =~= Seq::<(Seq<char>, usize)>::empty());
    while k < evs.len()
        invariant
            k <= evs@.len(),
            def_views(definitions@) == defs_upto(evs@, src@, lang, k as nat),
            import_views(imports@) == imports_upto(evs@, src@, lang, k as nat),
            call_views(calls@) == calls_upto(evs@, src@, k as nat),
        decreases evs.len() - k,
    {
        match &evs[k] {
            SyntaxEvent::Enter(..) => {
                collect_from_node(evs, src, lang, k, &mut definitions, &mut imports, &mut calls);
            },
            SyntaxEvent::Leave => {
                assert(defs_upto(evs@, src@, lang, (k + 1) as nat) =~= defs_upto(
                    evs@,
                    src@,
                    lang,
                    k as nat,
                ));
                assert(imports_upto(evs@, src@, lang, (k + 1) as nat) =~= imports_upto(
                    evs@,
                    src@,
                    lang,
                    k as nat,
                ));
                assert(calls_upto(evs@, src@, (k + 1) as nat) =~= calls_upto(evs@, src@, k as nat));
            },
        }
        k = k + 1;
    }
    (definitions, imports, calls)
}

/// The parsed file of a source, when it is small enough to parse and
/// tree-sitter produces a tree for it: the definitions, imports and calls of
/// its syntax tree.
pub fn parse_file(path: &str, language: LanguageKind, source: &str) -> (r: Option<ParsedFile>)
    ensures
        utf8_len(source@) > MAX_PARSE_BYTES ==> r is None,
        utf8_len(source@) <= MAX_PARSE_BYTES ==> match syntax_of(
            grammar_of(language, path@),
            source@,
        ) {
            None => r is None,
            Some(evs) => r matches Some(f) && f.path@ == path@ && f.language@ == language_name(
                language,
            ) && def_views(f.definitions@) == defs_upto(evs, source@, language, evs.len())
                && import_views(f.imports@) == imports_upto(evs, source@, language, evs.len())
                && call_views(f.calls@) == calls_upto(evs, source@, evs.len()),
        },
{
    if utf8_len_exceeds(source, MAX_PARSE_BYTES) {
        return None;
    }
    let grammar = language.tree_sitter_language(path);
    let evs = match syntax_events(grammar, source) {
        Some(v) => v,
        None => return None,
    };
    let (definitions, imports, calls) = walk_node(&evs, source, language);
    Some(
        ParsedFile {
            path: String::from_str(path),
            language: String::from_str(language.as_str()),
            definitions,
            imports,
            calls,
        },
    )
}

} // verus!

verus! {

/// What parsing one inventory file of a supported language comes to, given
/// its text (none when it could not be read): a failed read, a file too large
/// to parse, the parsed file, or a failed parse.
pub fn parse_source_outcome(path: &str, language: LanguageKind, source: Option<&str>) -> (r:
    ParseOutcome)
    ensures
        match source {
            None => r is ReadFailed,
            Some(s) => if utf8_len(s@) > MAX_PARSE_BYTES {
                r is TooLarge
            } else {
                match syntax_of(grammar_of(language, path@), s@) {
                    None => r is ParseFailed,
                    Some(evs) => r matches ParseOutcome::Parsed(f) && f.path@ == path@
                        && f.language@ == language_name(language) && def_views(f.definitions@)
                        == defs_upto(evs, s@, language, evs.len()) && import_views(f.imports@)
                        == imports_upto(evs, s@, language, evs.len()) && call_views(f.calls@)
                        == calls_upto(evs, s@, evs.len()),
                }
            },
        },
{
    match source {
        None => ParseOutcome::ReadFailed,
        Some(s) => if utf8_len_exceeds(s, MAX_PARSE_BYTES) {
            ParseOutcome::TooLarge
        } else {
            match parse_file(path, language, s) {
                Some(f) => ParseOutcome::Parsed(f),
                None => ParseOutcome::ParseFailed,
            }
        },
    }
}


proof fn lemma_defs_upto_keeps(
    evs: Seq<SyntaxEvent>,
    src: Seq<char>,
    lang: LanguageKind,
    a: nat,
    b: nat,
    x: (Seq<char>, Seq<char>, usize),
)
    requires
        a <= b,
        defs_upto(evs, src, lang, a).contains(x),
    ensures
        defs_upto(evs, src, lang, b).contains(x),
    decreases b,
{
    if a < b {
        lemma_defs_upto_keeps(evs, src, lang, a, (b - 1) as nat, x);
        let prev = defs_upto(evs, src, lang, (b - 1) as nat);
        let i = choose|i: int| 0 <= i < prev.len() && prev[i] == x;
        let next = defs_upto(evs, src, lang, b);
        assert(next[i] == x);
    }
}

/// Every class node (`class_definition` or `class_declaration`) that has a
/// name yields a `class` definition of that name on the node's line.
pub proof fn law_named_classes_are_definitions(
    evs: Seq<SyntaxEvent>,
    src: Seq<char>,
    lang: LanguageKind,
    k: int,
    name: Seq<char>,
)
    requires
        0 <= k < evs.len(),
        evs[k] is Enter,
        ev_kind(evs[k]) == "class_definition"@ || ev_kind(evs[k]) == "class_declaration"@,
        definition_name(evs, src, k) == Some(name),
    ensures
        defs_upto(evs, src, lang, evs.len()).contains(("class"@, name, ev_line(evs[k]))),
{
    reveal_strlit("class_definition");
    reveal_strlit("class_declaration");
    reveal_strlit("function_definition");
    reveal_strlit("function_declaration");
    reveal_strlit("method_declaration");
    reveal_strlit("function_item");
    let x = ("class"@, name, ev_line(evs[k]));
    let kind = ev_kind(evs[k]);
    assert(!function_kind(kind)) by {
        if kind == "class_definition"@ {
            assert(kind[0] == 'c');
        } else {
            assert(kind[0] == 'c');
        }
    }
    assert(node_defs(evs, src, lang, k) =~= seq![x]);
    let before = defs_upto(evs, src, lang, k as nat);
    let upto = defs_upto(evs, src, lang, (k + 1) as nat);
    assert(upto == before + seq![x]);
    assert(upto[before.len() as int] == x);
    lemma_defs_upto_keeps(evs, src, lang, (k + 1) as nat, evs.len(), x);
}

} // verus!
