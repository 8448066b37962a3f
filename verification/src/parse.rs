//! The parsed-symbol model: definitions, imports and calls found in each file,
//! and the languages whose files are parsed.
use vstd::prelude::*;

use crate::order::{merge_sort, SortOrder};

use crate::text::{
    chars_of, ends_with, eq_lit, last_segment, lemma_key_text_order, lower_text, normalize,
    normalize_chars, seq_less, seq_less_exec, split_on, string_of, lower_of,
};

verus! {

/// A definition (function, method, class, struct, route, ...) found in a file.
#[derive(Debug)]
pub struct Definition {
    pub kind: String,
    pub name: String,
    pub line: usize,
}

/// An import, include or use statement found in a file.
#[derive(Debug)]
pub struct Import {
    pub kind: String,
    pub target: String,
    pub line: usize,
}

/// A call expression found in a file.
#[derive(Debug)]
pub struct Call {
    pub target: String,
    pub line: usize,
}

/// Everything extracted from one source file.
#[derive(Debug)]
pub struct ParsedFile {
    pub path: String,
    pub language: String,
    pub definitions: Vec<Definition>,
    pub imports: Vec<Import>,
    pub calls: Vec<Call>,
}

/// Counts of parsed, unsupported, failed and oversized files.
#[derive(Debug)]
pub struct ParseSummary {
    pub parsed: usize,
    pub unsupported: usize,
    pub failed: usize,
    pub too_large: usize,
}

/// The symbols of a whole repository.
#[derive(Debug)]
pub struct ParseOutput {
    pub version: u32,
    pub summary: ParseSummary,
    pub files: Vec<ParsedFile>,
}

impl Definition {
    /// A copy of this definition.
    pub fn duplicate(&self) -> (r: Definition)
        ensures
            r == *self,
    {
        Definition { kind: self.kind.clone(), name: self.name.clone(), line: self.line }
    }
}

impl ParseSummary {
    /// All counts zero.
    pub fn new() -> (r: ParseSummary)
        ensures
            r.parsed == 0 && r.unsupported == 0 && r.failed == 0 && r.too_large == 0,
    {
        ParseSummary { parsed: 0, unsupported: 0, failed: 0, too_large: 0 }
    }
}

/// Definitions, imports and calls summed over the files of `files`.
pub open spec fn totals(files: Seq<ParsedFile>) -> (int, int, int)
    decreases files.len(),
{
    if files.len() == 0 {
        (0, 0, 0)
    } else {
        let t = totals(files.drop_last());
        let f = files.last();
        (
            t.0 + f.definitions@.len(),
            t.1 + f.imports@.len(),
            t.2 + f.calls@.len(),
        )
    }
}

proof fn lemma_totals_monotone(files: Seq<ParsedFile>, i: int)
    requires
        0 <= i <= files.len(),
    ensures
        totals(files.subrange(0, i)).0 <= totals(files).0,
        totals(files.subrange(0, i)).1 <= totals(files).1,
        totals(files.subrange(0, i)).2 <= totals(files).2,
    decreases files.len() - i,
{
    if i < files.len() {
        lemma_totals_monotone(files, i + 1);
        assert(files.subrange(0, i + 1).drop_last() =~= files.subrange(0, i));
    } else {
        assert(files.subrange(0, i) =~= files);
    }
}

/// Total definitions, imports and calls across all parsed files.
pub fn symbol_totals(output: &ParseOutput) -> (r: (usize, usize, usize))
    requires
        totals(output.files@).0 <= usize::MAX,
        totals(output.files@).1 <= usize::MAX,
        totals(output.files@).2 <= usize::MAX,
    ensures
        r.0 == totals(output.files@).0,
        r.1 == totals(output.files@).1,
        r.2 == totals(output.files@).2,
{
    let mut definitions: usize = 0;
    let mut imports: usize = 0;
    let mut calls: usize = 0;
    let mut i: usize = 0;
    while i < output.files.len()
        invariant
            i <= output.files@.len(),
            totals(output.files@).0 <= usize::MAX,
            totals(output.files@).1 <= usize::MAX,
            totals(output.files@).2 <= usize::MAX,
            (definitions as int, imports as int, calls as int) == totals(
                output.files@.subrange(0, i as int),
            ),
        decreases output.files.len() - i,
    {
        proof {
            lemma_totals_monotone(output.files@, i + 1);
            assert(output.files@.subrange(0, i + 1).drop_last() =~= output.files@.subrange(
                0,
                i as int,
            ));
        }
        let file = &output.files[i];
        definitions = definitions + file.definitions.len();
        imports = imports + file.imports.len();
        calls = calls + file.calls.len();
        i = i + 1;
    }
    assert(output.files@.subrange(0, i as int) =~= output.files@);
    (definitions, imports, calls)
}

/// The languages whose files are parsed, for display.
pub fn supported_languages_label() -> (r: &'static str)
    ensures
        r@ == "Python, TypeScript, JavaScript, Go, C"@,
{
    "Python, TypeScript, JavaScript, Go, C"
}

/// A source language that the parser understands.
#[derive(Debug, Clone, Copy, PartialEq, Eq, Structural)]
pub enum LanguageKind {
    Python,
    TypeScript,
    JavaScript,
    Go,
    C,
}

/// The final normal component of a Unix path, as `Path::file_name` gives it:
/// the last piece between slashes that is neither empty nor `.`, unless that
/// piece is `..` or there is none.
pub open spec fn path_file_name(p: Seq<char>) -> Option<Seq<char>> {
    let parts = split_on(p, '/').filter(|x: Seq<char>| x.len() > 0 && x != "."@);
    if parts.len() == 0 || parts.last() == ".."@ {
        None
    } else {
        Some(parts.last())
    }
}

/// The extension of a file name, as `Path::extension` gives it: the part after
/// the last dot, unless there is no dot or the only dot leads the name.
pub open spec fn name_extension(name: Seq<char>) -> Option<Seq<char>> {
    let ext = last_segment(name, '.');
    if ext.len() == name.len() || ext.len() + 1 == name.len() && name[0] == '.' {
        None
    } else {
        Some(ext)
    }
}

/// The language of an extension (already lowercased).
pub open spec fn language_of_extension(ext: Seq<char>) -> Option<LanguageKind> {
    if ext == "py"@ || ext == "pyw"@ {
        Some(LanguageKind::Python)
    } else if ext == "ts"@ || ext == "mts"@ || ext == "cts"@ || ext == "tsx"@ {
        Some(LanguageKind::TypeScript)
    } else if ext == "js"@ || ext == "mjs"@ || ext == "cjs"@ || ext == "jsx"@ {
        Some(LanguageKind::JavaScript)
    } else if ext == "go"@ {
        Some(LanguageKind::Go)
    } else if ext == "c"@ || ext == "h"@ {
        Some(LanguageKind::C)
    } else {
        None
    }
}

/// The language of a path, from the lowercased extension of its file name.
pub open spec fn language_of_path(p: Seq<char>) -> Option<LanguageKind> {
    match path_file_name(p) {
        None => None,
        Some(name) => match name_extension(name) {
            None => None,
            Some(ext) => language_of_extension(lower_text(ext)),
        },
    }
}

/// The name of a language as stored in the symbols file.
pub open spec fn language_name(k: LanguageKind) -> Seq<char> {
    match k {
        LanguageKind::Python => "python"@,
        LanguageKind::TypeScript => "typescript"@,
        LanguageKind::JavaScript => "javascript"@,
        LanguageKind::Go => "go"@,
        LanguageKind::C => "c"@,
    }
}

/// The file name of a path (see `path_file_name`).
pub fn file_name_exec(p: &[char]) -> (r: Option<Vec<char>>)
    ensures
        match r {
            None => path_file_name(p@) is None,
            Some(v) => path_file_name(p@) == Some(v@),
        },
{
    let ghost pred = |x: Seq<char>| x.len() > 0 && x != "."@;
    // pieces kept so far, and the piece being read
    let mut last: Vec<char> = Vec::new();
    let mut have_last = false;
    let mut cur: Vec<char> = Vec::new();
    let mut i: usize = 0;
    while i < p.len()
        invariant
            i <= p@.len(),
            pred == (|x: Seq<char>| x.len() > 0 && x != "."@),
            ({
                let pieces = split_on(p@.subrange(0, i as int), '/');
                &&& pieces.last() == cur@
                &&& have_last == (pieces.drop_last().filter(pred).len() > 0)
                &&& have_last ==> pieces.drop_last().filter(pred).last() == last@
            }),
        decreases p.len() - i,
    {
        let ghost pre = p@.subrange(0, i as int);
        let ghost pieces = split_on(pre, '/');
        proof { crate::text::lemma_split_nonempty(pre, '/'); }
        assert(p@.subrange(0, i + 1).drop_last() =~= pre);
        if p[i] == '/' {
            proof {
                reveal_with_fuel(Seq::<_>::filter, 1);
                assert(split_on(p@.subrange(0, i + 1), '/') == pieces.push(Seq::<char>::empty()));
                assert(pieces.push(Seq::<char>::empty()).drop_last() =~= pieces);
                assert(pieces =~= pieces.drop_last().push(pieces.last()));
            }
            let dot = eq_lit(cur.as_slice(), ".");
            proof {
                assert(pred(cur@) == (cur@.len() > 0 && !dot));
                assert(pieces.filter(pred) == if pred(pieces.last()) {
                    pieces.drop_last().filter(pred).push(pieces.last())
                } else {
                    pieces.drop_last().filter(pred)
                });
            }
            if cur.len() > 0 && !dot {
                last = cur;
                have_last = true;
            }
            cur = Vec::new();
            assert(have_last == (pieces.filter(pred).len() > 0));
        } else {
            proof {
                assert(split_on(p@.subrange(0, i + 1), '/') == pieces.update(
                    pieces.len() - 1,
                    pieces.last().push(p@[i as int]),
                ));
                assert(pieces.update(pieces.len() - 1, pieces.last().push(p@[i as int])).drop_last()
                    =~= pieces.drop_last());
            }
            cur.push(p[i]);
        }
        i = i + 1;
    }
    assert(p@.subrange(0, p@.len() as int) =~= p@);
    proof {
        let pieces = split_on(p@, '/');
        crate::text::lemma_split_nonempty(p@, '/');
        reveal_with_fuel(Seq::<_>::filter, 1);
        assert(pieces =~= pieces.drop_last().push(pieces.last()));
    }
    let dot = eq_lit(cur.as_slice(), ".");
    if cur.len() > 0 && !dot {
        last = cur;
        have_last = true;
    }
    if !have_last {
        return None;
    }
    if eq_lit(last.as_slice(), "..") {
        return None;
    }
    Some(last)
}

/// The extension of a file name (see `name_extension`).
pub fn extension_exec(name: &[char]) -> (r: Option<Vec<char>>)
    ensures
        match r {
            None => name_extension(name@) is None,
            Some(v) => name_extension(name@) == Some(v@),
        },
{
    let ext = crate::text::last_segment_exec(name, '.');
    proof { crate::text::lemma_last_segment_len(name@, '.'); }
    if ext.len() == name.len() || (name.len() > 0 && ext.len() == name.len() - 1 && name[0]
        == '.') {
        None
    } else {
        Some(ext)
    }
}

impl LanguageKind {
    /// The language of a path, or `None` when its extension is not supported.
    pub fn from_path(path: &str) -> (r: Option<LanguageKind>)
        ensures
            r == language_of_path(path@),
    {
        let p = crate::text::chars_of(path);
        let file = match file_name_exec(p.as_slice()) {
            Some(f) => f,
            None => return None,
        };
        let ext = match extension_exec(file.as_slice()) {
            Some(e) => e,
            None => return None,
        };
        let ext = lower_of(ext.as_slice());
        let e = ext.as_slice();
        if eq_lit(e, "py") || eq_lit(e, "pyw") {
            Some(LanguageKind::Python)
        } else if eq_lit(e, "ts") || eq_lit(e, "mts") || eq_lit(e, "cts") || eq_lit(e, "tsx") {
            Some(LanguageKind::TypeScript)
        } else if eq_lit(e, "js") || eq_lit(e, "mjs") || eq_lit(e, "cjs") || eq_lit(e, "jsx") {
            Some(LanguageKind::JavaScript)
        } else if eq_lit(e, "go") {
            Some(LanguageKind::Go)
        } else if eq_lit(e, "c") || eq_lit(e, "h") {
            Some(LanguageKind::C)
        } else {
            None
        }
    }

    /// The name of the language as stored in the symbols file.
    pub fn as_str(self) -> (r: &'static str)
        ensures
            r@ == language_name(self),
    {
        match self {
            LanguageKind::Python => "python",
            LanguageKind::TypeScript => "typescript",
            LanguageKind::JavaScript => "javascript",
            LanguageKind::Go => "go",
            LanguageKind::C => "c",
        }
    }
}

/// The highlighter's syntax extension for a path (backslashes accepted), or
/// `None` for unsupported files.
pub open spec fn syntax_extension(path: Seq<char>) -> Option<Seq<char>> {
    match language_of_path(last_segment(normalize(path), '/')) {
        None => None,
        Some(LanguageKind::Python) => Some("py"@),
        Some(LanguageKind::TypeScript) => Some("ts"@),
        Some(LanguageKind::JavaScript) => Some("js"@),
        Some(LanguageKind::Go) => Some("go"@),
        Some(LanguageKind::C) => Some("c"@),
    }
}

/// The extension under which the highlighter finds a syntax for `path`.
pub fn syntax_extension_for_path(path: &str) -> (r: Option<&'static str>)
    ensures
        match r {
            None => syntax_extension(path@) is None,
            Some(e) => syntax_extension(path@) == Some(e@),
        },
{
    let normalized = normalize_chars(path);
    let name = crate::text::last_segment_exec(normalized.as_slice(), '/');
    let name = string_of(name.as_slice());
    match LanguageKind::from_path(name.as_str()) {
        None => None,
        Some(LanguageKind::Python) => Some("py"),
        Some(LanguageKind::TypeScript) => Some("ts"),
        Some(LanguageKind::JavaScript) => Some("js"),
        Some(LanguageKind::Go) => Some("go"),
        Some(LanguageKind::C) => Some("c"),
    }
}


/// Sources larger than this many bytes are not parsed.
pub const MAX_PARSE_BYTES: usize = 5242880;

/// Whether a source of `byte_len` bytes is too large to parse.
pub fn is_too_large(byte_len: usize) -> (r: bool)
    ensures
        r == (byte_len > MAX_PARSE_BYTES),
{
    byte_len > MAX_PARSE_BYTES
}

/// What happened to one inventory file during parsing.
#[derive(Debug)]
pub enum ParseOutcome {
    Unsupported,
    ReadFailed,
    TooLarge,
    Parsed(ParsedFile),
    ParseFailed,
}

/// The summary counts are below their limit, so one more can be recorded.
pub open spec fn can_record(o: ParseOutput) -> bool {
    &&& o.summary.parsed < usize::MAX
    &&& o.summary.unsupported < usize::MAX
    &&& o.summary.failed < usize::MAX
    &&& o.summary.too_large < usize::MAX
}

/// How many files the summary counts, whatever became of them.
pub open spec fn counted_files(o: ParseOutput) -> int {
    o.summary.parsed + o.summary.unsupported + o.summary.failed + o.summary.too_large
}

/// Every parsed file counted is kept, and only those.
pub open spec fn keeps_parsed(o: ParseOutput) -> bool {
    o.files@.len() == o.summary.parsed
}

/// Files in path order.
pub open spec fn files_sorted(s: Seq<ParsedFile>) -> bool {
    forall|i: int, j: int|
        0 <= i < j < s.len() ==> !seq_less(#[trigger] s[j].path@, #[trigger] s[i].path@)
}

/// The path order of parsed files.
struct FilePathOrder;

impl SortOrder<ParsedFile> for FilePathOrder {
    open spec fn before(a: ParsedFile, b: ParsedFile) -> bool {
        seq_less(a.path@, b.path@)
    }

    proof fn lemma_order(x: ParsedFile, a: ParsedFile, b: ParsedFile) {
        lemma_key_text_order(0, x.path@, 0, a.path@, 0, b.path@);
    }

    fn goes_before(a: &ParsedFile, b: &ParsedFile) -> (r: bool) {
        let pa = chars_of(a.path.as_str());
        let pb = chars_of(b.path.as_str());
        seq_less_exec(pa.as_slice(), pb.as_slice())
    }
}

impl ParseOutput {
    /// An empty output of the current format.
    pub fn new() -> (r: ParseOutput)
        ensures
            r.version == 1,
            r.summary.parsed == 0 && r.summary.unsupported == 0 && r.summary.failed == 0
                && r.summary.too_large == 0,
            r.files@.len() == 0,
    {
        ParseOutput { version: 1, summary: ParseSummary::new(), files: Vec::new() }
    }

    /// Counts one file's outcome; a parsed file is kept.
    pub fn record(&mut self, outcome: ParseOutcome)
        requires
            can_record(*old(self)),
        ensures
            final(self).version == old(self).version,
            counted_files(*final(self)) == counted_files(*old(self)) + 1,
            keeps_parsed(*old(self)) ==> keeps_parsed(*final(self)),
            match outcome {
                ParseOutcome::Unsupported => final(self).summary.unsupported
                    == old(self).summary.unsupported + 1 && final(self).summary.parsed
                    == old(self).summary.parsed && final(self).summary.failed
                    == old(self).summary.failed && final(self).summary.too_large
                    == old(self).summary.too_large && final(self).files@ == old(self).files@,
                ParseOutcome::TooLarge => final(self).summary.too_large
                    == old(self).summary.too_large + 1 && final(self).summary.parsed
                    == old(self).summary.parsed && final(self).summary.failed
                    == old(self).summary.failed && final(self).summary.unsupported
                    == old(self).summary.unsupported && final(self).files@ == old(self).files@,
                ParseOutcome::Parsed(f) => final(self).summary.parsed == old(self).summary.parsed
                    + 1 && final(self).summary.failed == old(self).summary.failed
                    && final(self).summary.unsupported == old(self).summary.unsupported
                    && final(self).summary.too_large == old(self).summary.too_large
                    && final(self).files@ == old(self).files@.push(f),
                _ => final(self).summary.failed == old(self).summary.failed + 1
                    && final(self).summary.parsed == old(self).summary.parsed
                    && final(self).summary.unsupported == old(self).summary.unsupported
                    && final(self).summary.too_large == old(self).summary.too_large
                    && final(self).files@ == old(self).files@,
            },
    {
        match outcome {
            ParseOutcome::Unsupported => {
                self.summary.unsupported = self.summary.unsupported + 1;
            },
            ParseOutcome::TooLarge => {
                self.summary.too_large = self.summary.too_large + 1;
            },
            ParseOutcome::Parsed(f) => {
                self.summary.parsed = self.summary.parsed + 1;
                self.files.push(f);
            },
            _ => {
                self.summary.failed = self.summary.failed + 1;
            },
        }
    }

    /// The output with its files in path order (a permutation of them).
    pub fn finish(self) -> (r: ParseOutput)
        ensures
            r.version == self.version,
            r.summary == self.summary,
            files_sorted(r.files@),
            r.files@.to_multiset() == self.files@.to_multiset(),
            r.files@.len() == self.files@.len(),
    {
        broadcast use vstd::seq_lib::group_to_multiset_ensures;

        let ParseOutput { version, summary, files } = self;
        let ghost given = files@;
        let out = merge_sort::<ParsedFile, FilePathOrder>(files);
        assert(out@.to_multiset().len() == out@.len());
        assert(given.to_multiset().len() == given.len());
        assert forall|i: int, j: int| 0 <= i < j < out@.len() implies !seq_less(
            #[trigger] out@[j].path@,
            #[trigger] out@[i].path@,
        ) by {
            assert(!FilePathOrder::before(out@[j], out@[i]));
        }
        ParseOutput { version, summary, files: out }
    }
}

} // verus!
