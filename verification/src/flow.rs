//! Execution-flow tracing: seeds that match a query, call resolution through a
//! definition index, a bounded breadth-first trace, and compression of a trace
//! to its primary path.
use vstd::prelude::*;

use crate::architecture::{key_of, subsystem_key};
use crate::parse::{Call, Definition, Import, ParseOutput, ParsedFile};
use crate::paths::{
    deprioritized_path, excluded_from_clustering, is_deprioritized_path,
    is_excluded_from_clustering, is_test_path, test_path,
};
use crate::text::{
    append_chars, contains, contains_lit, ends_with, ends_with_lit, eq_lit, last_segment,
    lower_chars, lower_text, normalize, normalize_chars, replace_char, replace_char_exec,
    starts_with, starts_with_lit, trim, trim_exec,
};

verus! {

/// How deep the trace follows calls.
pub const MAX_DEPTH: usize = 12;

/// How many steps a trace collects before it stops expanding.
pub const MAX_STEPS: usize = 24;

/// How many steps a compressed flow keeps.
pub const COMPRESSED_FLOW_LIMIT: usize = 8;

/// One function on a traced path.
#[derive(Debug)]
pub struct FlowStep {
    pub label: String,
    pub kind: String,
    pub file: String,
    pub line: Option<usize>,
}

/// A traced flow: the query, the seed it started from, and the steps reached.
#[derive(Debug)]
pub struct FlowResult {
    pub query: String,
    pub seed: String,
    pub steps: Vec<FlowStep>,
}

impl FlowStep {
    /// A copy of this step.
    pub fn duplicate(&self) -> (r: FlowStep)
        ensures
            r == *self,
    {
        FlowStep {
            label: self.label.clone(),
            kind: self.kind.clone(),
            file: self.file.clone(),
            line: self.line,
        }
    }
}

/// Names that the in-memory database mock helpers use.
pub open spec fn db_mock_helper(name: Seq<char>) -> bool {
    name == "get"@ || name == "set"@ || name == "child"@ || name == "update"@ || name
        == "db_reference"@ || name == "get_or_create"@
}

/// Logging, printing, private helpers, constructors, classes, utilities and
/// configuration getters: calls that a trace does not follow.
pub open spec fn flow_noise(name: Seq<char>, file: Seq<char>, kind: Seq<char>) -> bool {
    let nl = lower_text(name);
    let fl = normalize(file);
    kind == "class"@ || nl == "__init__"@ || starts_with(nl, "log_"@) || nl == "setup_logging"@
        || nl == "println"@ || nl == "print"@ || nl == "printf"@ || nl == "fprintf"@ || nl
        == "debug_print"@ || (starts_with(name, "_"@) && !starts_with(name, "__"@)) || contains(
        fl,
        "/utils/"@,
    ) || starts_with(fl, "utils/"@) || ((contains(fl, "/config/"@) || starts_with(
        fl,
        "config/"@,
    )) && (nl == "get_database_url"@ || nl == "load_settings"@ || nl == "get_setting"@ || nl
        == "get"@))
}

/// Steps that support the main path without being part of it.
pub open spec fn supporting_step(name: Seq<char>, file: Seq<char>, kind: Seq<char>) -> bool {
    let nl = lower_text(name);
    flow_noise(name, file, kind) || db_mock_helper(nl) || (starts_with(nl, "send_"@) && ends_with(
        nl,
        "_email"@,
    )) || nl == "l2_distance"@ || nl == "absolute_feedback_link"@ || nl
        == "send_exceeded_email"@ || nl == "process_checkout"@ || nl
        == "collect_department_choices"@
}

/// Names that mark a step of the primary path.
pub open spec fn primary_name(nl: Seq<char>) -> bool {
    contains(nl, "process_"@) || contains(nl, "validate_"@) || contains(nl, "parse_"@) || contains(
        nl,
        "verify"@,
    ) || contains(nl, "register"@) || contains(nl, "login"@) || contains(nl, "logout"@)
        || contains(nl, "checkin"@) || contains(nl, "checkout"@) || contains(nl, "create_"@)
        || contains(nl, "handle_"@) || ends_with(nl, "_handler"@) || ends_with(nl, "_gate"@)
        || contains(nl, "_verify_and_"@) || contains(nl, "get_by_"@) || contains(nl, "record_"@)
        || contains(nl, "generate_"@) || contains(nl, "invalidate_"@) || contains(
        nl,
        "update_qr"@,
    ) || contains(nl, "get_face"@) || contains(nl, "find_all_face"@) || contains(
        nl,
        "detect_twin"@,
    )
}

/// A step of the primary path: neither noise nor supporting, with a name that
/// marks request handling, validation or business work.
pub open spec fn primary_step(name: Seq<char>, file: Seq<char>, kind: Seq<char>) -> bool {
    !flow_noise(name, file, kind) && !supporting_step(name, file, kind) && primary_name(
        lower_text(name),
    )
}

/// Whether a lowercased name is one of the database mock helpers.
pub fn is_db_mock_helper(name: &[char]) -> (r: bool)
    ensures
        r == db_mock_helper(name@),
{
    eq_lit(name, "get") || eq_lit(name, "set") || eq_lit(name, "child") || eq_lit(name, "update")
        || eq_lit(name, "db_reference") || eq_lit(name, "get_or_create")
}

/// Whether a resolved call is noise that a trace skips.
pub fn is_flow_noise(name: &str, file: &str, kind: &str) -> (r: bool)
    ensures
        r == flow_noise(name@, file@, kind@),
{
    let kc = crate::text::chars_of(kind);
    if eq_lit(kc.as_slice(), "class") {
        return true;
    }
    let nlv = lower_chars(name);
    let nl = nlv.as_slice();
    let flv = normalize_chars(file);
    let fl = flv.as_slice();
    if eq_lit(nl, "__init__") {
        return true;
    }
    if starts_with_lit(nl, "log_") || eq_lit(nl, "setup_logging") || eq_lit(nl, "println")
        || eq_lit(nl, "print") || eq_lit(nl, "printf") || eq_lit(nl, "fprintf") || eq_lit(
        nl,
        "debug_print",
    ) {
        return true;
    }
    let nc = crate::text::chars_of(name);
    if starts_with_lit(nc.as_slice(), "_") && !starts_with_lit(nc.as_slice(), "__") {
        return true;
    }
    if contains_lit(fl, "/utils/") || starts_with_lit(fl, "utils/") {
        return true;
    }
    if (contains_lit(fl, "/config/") || starts_with_lit(fl, "config/")) && (eq_lit(
        nl,
        "get_database_url",
    ) || eq_lit(nl, "load_settings") || eq_lit(nl, "get_setting") || eq_lit(nl, "get")) {
        return true;
    }
    false
}

/// Whether a step supports the main path (mock helpers, e-mail, distances, ...).
pub fn is_supporting_flow_step(name: &str, file: &str, kind: &str) -> (r: bool)
    ensures
        r == supporting_step(name@, file@, kind@),
{
    if is_flow_noise(name, file, kind) {
        return true;
    }
    let nlv = lower_chars(name);
    let nl = nlv.as_slice();
    if is_db_mock_helper(nl) {
        return true;
    }
    (starts_with_lit(nl, "send_") && ends_with_lit(nl, "_email")) || eq_lit(nl, "l2_distance")
        || eq_lit(nl, "absolute_feedback_link") || eq_lit(nl, "send_exceeded_email") || eq_lit(
        nl,
        "process_checkout",
    ) || eq_lit(nl, "collect_department_choices")
}

fn is_primary_name(nl: &[char]) -> (r: bool)
    ensures
        r == primary_name(nl@),
{
    contains_lit(nl, "process_") || contains_lit(nl, "validate_") || contains_lit(nl, "parse_")
        || contains_lit(nl, "verify") || contains_lit(nl, "register") || contains_lit(nl, "login")
        || contains_lit(nl, "logout") || contains_lit(nl, "checkin") || contains_lit(
        nl,
        "checkout",
    ) || contains_lit(nl, "create_") || contains_lit(nl, "handle_") || ends_with_lit(
        nl,
        "_handler",
    ) || ends_with_lit(nl, "_gate") || contains_lit(nl, "_verify_and_") || contains_lit(
        nl,
        "get_by_",
    ) || contains_lit(nl, "record_") || contains_lit(nl, "generate_") || contains_lit(
        nl,
        "invalidate_",
    ) || contains_lit(nl, "update_qr") || contains_lit(nl, "get_face") || contains_lit(
        nl,
        "find_all_face",
    ) || contains_lit(nl, "detect_twin")
}

/// Whether a step belongs to the primary path of a flow.
pub fn is_primary_flow_step(name: &str, file: &str, kind: &str) -> (r: bool)
    ensures
        r == primary_step(name@, file@, kind@),
{
    if is_flow_noise(name, file, kind) || is_supporting_flow_step(name, file, kind) {
        return false;
    }
    let nlv = lower_chars(name);
    is_primary_name(nlv.as_slice())
}

/// A step of the primary path.
pub open spec fn step_is_primary(s: FlowStep) -> bool {
    primary_step(s.label@, s.file@, s.kind@)
}

/// A step that is not supporting.
pub open spec fn step_not_supporting(s: FlowStep) -> bool {
    !supporting_step(s.label@, s.file@, s.kind@)
}

/// The steps that a compressed display keeps: every step when `verbose` or
/// when there are at most two; otherwise the first eight primary steps, or,
/// with fewer than two of those, the first eight non-supporting steps, or,
/// with fewer than two of those, the first eight steps.
pub open spec fn compressed(steps: Seq<FlowStep>, verbose: bool) -> Seq<FlowStep> {
    if verbose || steps.len() <= 2 {
        steps
    } else {
        let primary = steps.filter(|s: FlowStep| step_is_primary(s));
        let plain = steps.filter(|s: FlowStep| step_not_supporting(s));
        if primary.len() >= 2 {
            take_up_to(primary, COMPRESSED_FLOW_LIMIT as int)
        } else if plain.len() >= 2 {
            take_up_to(plain, COMPRESSED_FLOW_LIMIT as int)
        } else {
            take_up_to(steps, COMPRESSED_FLOW_LIMIT as int)
        }
    }
}

/// The first `n` items of `s`, or all of `s` when it is shorter.
pub open spec fn take_up_to<A>(s: Seq<A>, n: int) -> Seq<A> {
    if n < s.len() {
        s.take(n)
    } else {
        s
    }
}

fn copy_steps(steps: &[FlowStep], limit: usize) -> (r: Vec<FlowStep>)
    ensures
        r@ == take_up_to(steps@, limit as int),
{
    let n = if limit < steps.len() {
        limit
    } else {
        steps.len()
    };
    let mut r: Vec<FlowStep> = Vec::new();
    let mut i: usize = 0;
    while i < n
        invariant
            i <= n <= steps@.len(),
            r@ == steps@.subrange(0, i as int),
        decreases n - i,
    {
        r.push(steps[i].duplicate());
        assert(steps@.subrange(0, i + 1) =~= steps@.subrange(0, i as int).push(steps@[i as int]));
        i = i + 1;
    }
    assert(steps@.subrange(0, steps@.len() as int) =~= steps@);
    r
}

fn filter_primary(steps: &[FlowStep]) -> (r: Vec<FlowStep>)
    ensures
        r@ == steps@.filter(|s: FlowStep| step_is_primary(s)),
{
    let mut r: Vec<FlowStep> = Vec::new();
    let mut i: usize = 0;
    while i < steps.len()
        invariant
            i <= steps@.len(),
            r@ == steps@.subrange(0, i as int).filter(|s: FlowStep| step_is_primary(s)),
        decreases steps.len() - i,
    {
        proof {
            reveal_with_fuel(Seq::<_>::filter, 1);
            assert(steps@.subrange(0, i + 1).drop_last() =~= steps@.subrange(0, i as int));
        }
        let s = &steps[i];
        if is_primary_flow_step(s.label.as_str(), s.file.as_str(), s.kind.as_str()) {
            r.push(s.duplicate());
        }
        i = i + 1;
    }
    assert(steps@.subrange(0, steps@.len() as int) =~= steps@);
    r
}

fn filter_not_supporting(steps: &[FlowStep]) -> (r: Vec<FlowStep>)
    ensures
        r@ == steps@.filter(|s: FlowStep| step_not_supporting(s)),
{
    let mut r: Vec<FlowStep> = Vec::new();
    let mut i: usize = 0;
    while i < steps.len()
        invariant
            i <= steps@.len(),
            r@ == steps@.subrange(0, i as int).filter(|s: FlowStep| step_not_supporting(s)),
        decreases steps.len() - i,
    {
        proof {
            reveal_with_fuel(Seq::<_>::filter, 1);
            assert(steps@.subrange(0, i + 1).drop_last() =~= steps@.subrange(0, i as int));
        }
        let s = &steps[i];
        if !is_supporting_flow_step(s.label.as_str(), s.file.as_str(), s.kind.as_str()) {
            r.push(s.duplicate());
        }
        i = i + 1;
    }
    assert(steps@.subrange(0, steps@.len() as int) =~= steps@);
    r
}

/// The steps of a flow that a display shows: all of them when `verbose`,
/// otherwise its primary path (see `compressed`).
pub fn compress_flow_steps(steps: &[FlowStep], verbose: bool) -> (r: Vec<FlowStep>)
    ensures
        r@ == compressed(steps@, verbose),
{
    if verbose || steps.len() <= 2 {
        return copy_steps(steps, steps.len());
    }
    let primary = filter_primary(steps);
    if primary.len() >= 2 {
        return copy_steps(primary.as_slice(), COMPRESSED_FLOW_LIMIT);
    }
    let plain = filter_not_supporting(steps);
    if plain.len() >= 2 {
        return copy_steps(plain.as_slice(), COMPRESSED_FLOW_LIMIT);
    }
    copy_steps(steps, COMPRESSED_FLOW_LIMIT)
}


/// A definition as the index holds it: name, kind, file and line.
#[derive(Debug)]
pub struct DefinitionRecord {
    pub name: String,
    pub kind: String,
    pub file: String,
    pub line: usize,
}

impl DefinitionRecord {
    /// A copy of this record.
    pub fn duplicate(&self) -> (r: DefinitionRecord)
        ensures
            r == *self,
    {
        DefinitionRecord {
            name: self.name.clone(),
            kind: self.kind.clone(),
            file: self.file.clone(),
            line: self.line,
        }
    }
}

/// The records of the definitions of one file, in order.
pub open spec fn file_records(path: String, defs: Seq<Definition>) -> Seq<DefinitionRecord> {
    defs.map_values(
        |d: Definition| DefinitionRecord { name: d.name, kind: d.kind, file: path, line: d.line },
    )
}

/// The records of all definitions, file by file in order.
pub open spec fn records_of(files: Seq<ParsedFile>) -> Seq<DefinitionRecord>
    decreases files.len(),
{
    if files.len() == 0 {
        Seq::empty()
    } else {
        records_of(files.drop_last()) + file_records(files.last().path, files.last().definitions@)
    }
}

/// All definitions of a repository, looked up by lowercased name.
pub struct DefinitionIndex {
    pub records: Vec<DefinitionRecord>,
    pub keys: Vec<Vec<char>>,
}

impl DefinitionIndex {
    /// Each key is the lowercased name of its record.
    pub open spec fn wf(&self) -> bool {
        &&& self.keys@.len() == self.records@.len()
        &&& forall|i: int|
            0 <= i < self.keys@.len() ==> #[trigger] self.keys@[i]@ == lower_text(
                self.records@[i].name@,
            )
    }

    /// Indexes every definition of every parsed file.
    pub fn from_symbols(symbols: &ParseOutput) -> (r: DefinitionIndex)
        ensures
            r.wf(),
            r.records@ == records_of(symbols.files@),
    {
        let mut records: Vec<DefinitionRecord> = Vec::new();
        let mut keys: Vec<Vec<char>> = Vec::new();
        let mut i: usize = 0;
        while i < symbols.files.len()
            invariant
                i <= symbols.files@.len(),
                records@ == records_of(symbols.files@.subrange(0, i as int)),
                keys@.len() == records@.len(),
                forall|k: int|
                    0 <= k < keys@.len() ==> #[trigger] keys@[k]@ == lower_text(records@[k].name@),
            decreases symbols.files.len() - i,
        {
            let parsed = &symbols.files[i];
            let ghost before = records@;
            let mut j: usize = 0;
            while j < parsed.definitions.len()
                invariant
                    j <= parsed.definitions@.len(),
                    records@ == before + file_records(
                        parsed.path,
                        parsed.definitions@.subrange(0, j as int),
                    ),
                    keys@.len() == records@.len(),
                    forall|k: int|
                        0 <= k < keys@.len() ==> #[trigger] keys@[k]@ == lower_text(
                            records@[k].name@,
                        ),
                decreases parsed.definitions.len() - j,
            {
                let d = &parsed.definitions[j];
                let rec = DefinitionRecord {
                    name: d.name.clone(),
                    kind: d.kind.clone(),
                    file: parsed.path.clone(),
                    line: d.line,
                };
                let key = lower_chars(d.name.as_str());
                records.push(rec);
                keys.push(key);
                assert(file_records(parsed.path, parsed.definitions@.subrange(0, j + 1))
                    =~= file_records(parsed.path, parsed.definitions@.subrange(0, j as int)).push(
                    rec,
                ));
                j = j + 1;
            }
            assert(parsed.definitions@.subrange(0, parsed.definitions@.len() as int)
                =~= parsed.definitions@);
            assert(symbols.files@.subrange(0, i + 1).drop_last() =~= symbols.files@.subrange(
                0,
                i as int,
            ));
            i = i + 1;
        }
        assert(symbols.files@.subrange(0, symbols.files@.len() as int) =~= symbols.files@);
        DefinitionIndex { records, keys }
    }
}

/// An import names the module of `file`: its dotted target, with dots as
/// slashes, is the file's `.py` path or a `.py` path suffix of it.
pub open spec fn import_matches(target: Seq<char>, file: Seq<char>) -> bool {
    let module = replace_char(trim(target), '.', '/');
    module.len() > 0 && (normalize(file) == module + ".py"@ || ends_with(
        normalize(file),
        "/"@ + module + ".py"@,
    ))
}

/// How many imports name the module of `file`.
pub open spec fn matching_imports(imports: Seq<Import>, file: Seq<char>) -> int
    decreases imports.len(),
{
    if imports.len() == 0 {
        0
    } else {
        matching_imports(imports.drop_last(), file) + if import_matches(
            imports.last().target@,
            file,
        ) {
            1int
        } else {
            0int
        }
    }
}

/// The line term of a candidate score: `(line as i32).min(99)`.
pub open spec fn line_term(line: usize) -> int {
    let l = (line as i32) as int;
    if l < 99 {
        l
    } else {
        99
    }
}

/// How well a definition fits a call from `caller`: +200 in the caller's
/// subsystem, -10000 for a test file called from production code, +500 per
/// import of its module, -600 for deprioritized code, minus its line (capped at 99).
pub open spec fn candidate_score(r: DefinitionRecord, caller: Option<ParsedFile>) -> int {
    let context = match caller {
        Some(c) => (if key_of(r.file@) == key_of(c.path@) {
            200int
        } else {
            0int
        }) + (if !test_path(c.path@) && test_path(r.file@) {
            -10000int
        } else {
            0int
        }) + 500 * matching_imports(c.imports@, r.file@),
        None => 0int,
    };
    context + (if deprioritized_path(r.file@) {
        -600int
    } else {
        0int
    }) - line_term(r.line)
}

/// The records whose lowercased name is `key`, in index order.
pub open spec fn candidates(records: Seq<DefinitionRecord>, key: Seq<char>) -> Seq<
    DefinitionRecord,
> {
    records.filter(|r: DefinitionRecord| lower_text(r.name@) == key)
}

/// The first record with the smallest line (`min_by_key`).
pub open spec fn first_min_line(s: Seq<DefinitionRecord>) -> Option<DefinitionRecord>
    decreases s.len(),
{
    if s.len() == 0 {
        None
    } else {
        match first_min_line(s.drop_last()) {
            None => Some(s.last()),
            Some(p) => if s.last().line < p.line {
                Some(s.last())
            } else {
                Some(p)
            },
        }
    }
}

/// The last record with the highest candidate score (`max_by_key`).
pub open spec fn last_max_score(s: Seq<DefinitionRecord>, caller: Option<ParsedFile>) -> Option<
    DefinitionRecord,
>
    decreases s.len(),
{
    if s.len() == 0 {
        None
    } else {
        match last_max_score(s.drop_last(), caller) {
            None => Some(s.last()),
            Some(p) => if candidate_score(s.last(), caller) >= candidate_score(p, caller) {
                Some(s.last())
            } else {
                Some(p)
            },
        }
    }
}

/// The candidate in the caller's own file with the lowest line (the first of equals).
pub open spec fn local_of(cs: Seq<DefinitionRecord>, caller: Option<ParsedFile>) -> Option<
    DefinitionRecord,
> {
    match caller {
        Some(c) => first_min_line(cs.filter(|r: DefinitionRecord| r.file@ == c.path@)),
        None => None,
    }
}

proof fn lemma_local_push(cs: Seq<DefinitionRecord>, x: DefinitionRecord, caller: Option<ParsedFile>)
    ensures
        local_of(cs.push(x), caller) == match caller {
            None => None,
            Some(c) => if x.file@ == c.path@ {
                match local_of(cs, caller) {
                    None => Some(x),
                    Some(p) => if x.line < p.line {
                        Some(x)
                    } else {
                        Some(p)
                    },
                }
            } else {
                local_of(cs, caller)
            },
        },
{
    if let Some(c) = caller {
        let pred = |r: DefinitionRecord| r.file@ == c.path@;
        reveal_with_fuel(Seq::<_>::filter, 1);
        assert(cs.push(x).drop_last() =~= cs);
        let f = cs.filter(pred);
        if pred(x) {
            assert(cs.push(x).filter(pred) == f.push(x));
            assert(f.push(x).drop_last() =~= f);
        }
    }
}

proof fn lemma_candidates_push(records: Seq<DefinitionRecord>, x: DefinitionRecord, key: Seq<char>)
    ensures
        candidates(records.push(x), key) == if lower_text(x.name@) == key {
            candidates(records, key).push(x)
        } else {
            candidates(records, key)
        },
{
    reveal_with_fuel(Seq::<_>::filter, 1);
    assert(records.push(x).drop_last() =~= records);
}

proof fn lemma_last_max_push(cs: Seq<DefinitionRecord>, x: DefinitionRecord, caller: Option<ParsedFile>)
    ensures
        last_max_score(cs.push(x), caller) == match last_max_score(cs, caller) {
            None => Some(x),
            Some(p) => if candidate_score(x, caller) >= candidate_score(p, caller) {
                Some(x)
            } else {
                Some(p)
            },
        },
{
    assert(cs.push(x).drop_last() =~= cs);
}

/// The definition a name resolves to: one in the caller's own file (lowest
/// line first), else the best-scoring candidate unless it scores -5000 or less.
pub open spec fn pick(records: Seq<DefinitionRecord>, key: Seq<char>, caller: Option<ParsedFile>) -> Option<
    DefinitionRecord,
> {
    let cs = candidates(records, key);
    let local = local_of(cs, caller);
    if cs.len() == 0 {
        None
    } else if local is Some {
        local
    } else {
        match last_max_score(cs, caller) {
            Some(b) => if candidate_score(b, caller) > -5000 {
                Some(b)
            } else {
                None
            },
            None => None,
        }
    }
}

/// The lookup keys of a call target: the method after its last dot (when that
/// is not empty), then the whole lowercased, trimmed target.
pub open spec fn lookup_keys(target: Seq<char>) -> Seq<Seq<char>> {
    let n = lower_text(trim(target));
    let m = last_segment(n, '.');
    if n.contains('.') && m.len() > 0 {
        if m == n {
            seq![n]
        } else {
            seq![m, n]
        }
    } else {
        seq![n]
    }
}

/// The first key that resolves decides; a class resolves to nothing.
pub open spec fn resolve_keys(
    records: Seq<DefinitionRecord>,
    keys: Seq<Seq<char>>,
    caller: Option<ParsedFile>,
) -> Option<DefinitionRecord>
    decreases keys.len(),
{
    if keys.len() == 0 {
        None
    } else {
        match pick(records, keys[0], caller) {
            Some(r) => if r.kind@ == "class"@ {
                None
            } else {
                Some(r)
            },
            None => resolve_keys(records, keys.drop_first(), caller),
        }
    }
}

/// The definition that a call target resolves to.
pub open spec fn resolved(
    records: Seq<DefinitionRecord>,
    target: Seq<char>,
    caller: Option<ParsedFile>,
) -> Option<DefinitionRecord> {
    resolve_keys(records, lookup_keys(target), caller)
}

/// Whether an import target names the module of `file_path`.
pub fn import_matches_file(import_target: &str, file_path: &str) -> (r: bool)
    ensures
        r == import_matches(import_target@, file_path@),
{
    let tc = crate::text::chars_of(import_target);
    let trimmed = trim_exec(tc.as_slice());
    let module = replace_char_exec(trimmed.as_slice(), '.', '/');
    if module.len() == 0 {
        return false;
    }
    let normalized = normalize_chars(file_path);
    let mut with_py = module.clone();
    let py = crate::text::chars_of(".py");
    append_chars(&mut with_py, py.as_slice());
    let mut slashed = crate::text::chars_of("/");
    append_chars(&mut slashed, with_py.as_slice());
    assert(slashed@ =~= "/"@ + module@ + ".py"@);
    crate::text::seq_eq(normalized.as_slice(), with_py.as_slice()) || crate::text::ends_with_seq(
        normalized.as_slice(),
        slashed.as_slice(),
    )
}

fn count_matching_imports(imports: &[Import], file: &str) -> (r: usize)
    ensures
        r as int == matching_imports(imports@, file@),
        r <= imports@.len(),
{
    let mut count: usize = 0;
    let mut i: usize = 0;
    while i < imports.len()
        invariant
            i <= imports@.len(),
            count <= i,
            count as int == matching_imports(imports@.subrange(0, i as int), file@),
        decreases imports.len() - i,
    {
        assert(imports@.subrange(0, i + 1).drop_last() =~= imports@.subrange(0, i as int));
        if import_matches_file(imports[i].target.as_str(), file) {
            count = count + 1;
        }
        i = i + 1;
    }
    assert(imports@.subrange(0, imports@.len() as int) =~= imports@);
    count
}

/// The score of a candidate definition for a call from `caller`.
pub fn score_call_candidate(record: &DefinitionRecord, caller: Option<&ParsedFile>) -> (r: i128)
    ensures
        r as int == candidate_score(
            *record,
            match caller {
                Some(c) => Some(*c),
                None => None,
            },
        ),
{
    let mut score: i128 = 0;
    if let Some(c) = caller {
        let rk = subsystem_key(record.file.as_str());
        let ck = subsystem_key(c.path.as_str());
        let rkc = crate::text::chars_of(rk.as_str());
        let ckc = crate::text::chars_of(ck.as_str());
        if crate::text::seq_eq(rkc.as_slice(), ckc.as_slice()) {
            score = score + 200;
        }
        if !is_test_path(c.path.as_str()) && is_test_path(record.file.as_str()) {
            score = score - 10_000;
        }
        let n = count_matching_imports(c.imports.as_slice(), record.file.as_str());
        score = score + 500 * (n as i128);
    }
    if is_deprioritized_path(record.file.as_str()) {
        score = score - 600;
    }
    let l = #[verifier::truncate] (record.line as i32);
    let lt: i32 = if l < 99 {
        l
    } else {
        99
    };
    score - (lt as i128)
}

/// Steps of a flow whose file lies in subsystem `key`.
pub open spec fn steps_in_subsystem(steps: Seq<FlowStep>, key: Seq<char>) -> int {
    steps.filter(|s: FlowStep| key_of(s.file@) == key).len() as int
}

/// The score part before the length term: `300 + 40 * (count as i32)`.
pub open spec fn subsystem_base_score(flow: FlowResult, key: Seq<char>) -> int {
    300 + 40 * ((steps_in_subsystem(flow.steps@, key) as usize) as i32) as int
}

/// `24.saturating_sub(len as i32)` on `i32`.
pub open spec fn length_term(len: int) -> int {
    let l = ((len as usize) as i32) as int;
    let d = 24 - l;
    if d > i32::MAX {
        i32::MAX as int
    } else if d < i32::MIN {
        i32::MIN as int
    } else {
        d
    }
}

/// How strongly a flow belongs to subsystem `key`: zero unless its first step
/// lies there, otherwise 300, plus 40 per step inside, plus 24 minus the
/// number of steps.
pub open spec fn flow_score_in(flow: FlowResult, key: Seq<char>) -> int {
    if flow.steps@.len() == 0 || key_of(flow.steps@[0].file@) != key {
        0
    } else {
        subsystem_base_score(flow, key) + length_term(flow.steps@.len() as int)
    }
}

/// The `i32` arithmetic of `flow_subsystem_score` does not overflow.
pub open spec fn flow_score_fits(flow: FlowResult, key: Seq<char>) -> bool {
    flow.steps@.len() == 0 || key_of(flow.steps@[0].file@) != key || (i32::MIN
        <= subsystem_base_score(flow, key) - 300 && subsystem_base_score(flow, key) <= i32::MAX
        && i32::MIN <= subsystem_base_score(flow, key) + length_term(
        flow.steps@.len() as int,
    ) <= i32::MAX)
}

/// How strongly a flow belongs to the subsystem `target_key` (zero when its
/// seed lies elsewhere).
pub fn flow_subsystem_score(flow: &FlowResult, target_key: &str) -> (r: i32)
    requires
        flow_score_fits(*flow, target_key@),
    ensures
        r as int == flow_score_in(*flow, target_key@),
{
    if flow.steps.len() == 0 {
        return 0;
    }
    let first_key = subsystem_key(flow.steps[0].file.as_str());
    let tk = crate::text::chars_of(target_key);
    let fk = crate::text::chars_of(first_key.as_str());
    if !crate::text::seq_eq(fk.as_slice(), tk.as_slice()) {
        return 0;
    }
    let ghost pred = |s: FlowStep| key_of(s.file@) == target_key@;
    let mut in_subsystem: usize = 0;
    let mut i: usize = 0;
    while i < flow.steps.len()
        invariant
            i <= flow.steps@.len(),
            tk@ == target_key@,
            pred == (|s: FlowStep| key_of(s.file@) == target_key@),
            in_subsystem == flow.steps@.subrange(0, i as int).filter(pred).len(),
            in_subsystem <= i,
        decreases flow.steps.len() - i,
    {
        proof {
            reveal_with_fuel(Seq::<_>::filter, 1);
            assert(flow.steps@.subrange(0, i + 1).drop_last() =~= flow.steps@.subrange(0, i as int));
        }
        let k = subsystem_key(flow.steps[i].file.as_str());
        let kc = crate::text::chars_of(k.as_str());
        if crate::text::seq_eq(kc.as_slice(), tk.as_slice()) {
            in_subsystem = in_subsystem + 1;
        }
        i = i + 1;
    }
    assert(flow.steps@.subrange(0, flow.steps@.len() as int) =~= flow.steps@);
    assert(in_subsystem == steps_in_subsystem(flow.steps@, target_key@));
    let count = #[verifier::truncate] (in_subsystem as i32);
    let base: i32 = 300 + count * 40;
    let l = #[verifier::truncate] (flow.steps.len() as i32);
    let d: i64 = 24 - (l as i64);
    let len_term: i32 = if d > i32::MAX as i64 {
        i32::MAX
    } else if d < i32::MIN as i64 {
        i32::MIN
    } else {
        d as i32
    };
    base + len_term
}

} // verus!

verus! {

/// The caller as a plain optional value.
pub open spec fn caller_view(caller: Option<&ParsedFile>) -> Option<ParsedFile> {
    match caller {
        Some(c) => Some(*c),
        None => None,
    }
}

impl DefinitionIndex {
    /// The definition that the name `key` picks for a call from `caller`.
    pub fn pick_candidate(&self, key: &[char], caller: Option<&ParsedFile>) -> (r: Option<
        DefinitionRecord,
    >)
        requires
            self.wf(),
        ensures
            r == pick(self.records@, key@, caller_view(caller)),
    {
        let ghost cv = caller_view(caller);
        let caller_path: Vec<char> = match caller {
            Some(c) => crate::text::chars_of(c.path.as_str()),
            None => Vec::new(),
        };
        let mut any = false;
        let mut local: Option<usize> = None;
        let mut best: Option<usize> = None;
        let mut best_score: i128 = 0;
        let mut i: usize = 0;
        while i < self.records.len()
            invariant
                self.wf(),
                i <= self.records@.len(),
                cv == caller_view(caller),
                caller matches Some(c) ==> caller_path@ == c.path@,
                any == (candidates(self.records@.subrange(0, i as int), key@).len() > 0),
                match local {
                    None => local_of(candidates(self.records@.subrange(0, i as int), key@), cv)
                        is None,
                    Some(k) => k < i && local_of(
                        candidates(self.records@.subrange(0, i as int), key@),
                        cv,
                    ) == Some(self.records@[k as int]),
                },
                match best {
                    None => last_max_score(
                        candidates(self.records@.subrange(0, i as int), key@),
                        cv,
                    ) is None,
                    Some(k) => k < i && last_max_score(
                        candidates(self.records@.subrange(0, i as int), key@),
                        cv,
                    ) == Some(self.records@[k as int]) && best_score as int == candidate_score(
                        self.records@[k as int],
                        cv,
                    ),
                },
            decreases self.records.len() - i,
        {
            let ghost pre = self.records@.subrange(0, i as int);
            let ghost x = self.records@[i as int];
            proof {
                assert(self.records@.subrange(0, i + 1) =~= pre.push(x));
                lemma_candidates_push(pre, x, key@);
                lemma_local_push(candidates(pre, key@), x, cv);
                lemma_last_max_push(candidates(pre, key@), x, cv);
            }
            assert(self.keys@[i as int]@ == lower_text(x.name@));
            if crate::text::seq_eq(self.keys[i].as_slice(), key) {
                any = true;
                let rec = &self.records[i];
                if let Some(c) = caller {
                    let fc = crate::text::chars_of(rec.file.as_str());
                    if crate::text::seq_eq(fc.as_slice(), caller_path.as_slice()) {
                        match local {
                            None => {
                                local = Some(i);
                            },
                            Some(k) => {
                                if rec.line < self.records[k].line {
                                    local = Some(i);
                                }
                            },
                        }
                    }
                }
                let sc = score_call_candidate(rec, caller);
                match best {
                    None => {
                        best = Some(i);
                        best_score = sc;
                    },
                    Some(_) => {
                        if sc >= best_score {
                            best = Some(i);
                            best_score = sc;
                        }
                    },
                }
            }
            i = i + 1;
        }
        assert(self.records@.subrange(0, self.records@.len() as int) =~= self.records@);
        if !any {
            return None;
        }
        if let Some(k) = local {
            return Some(self.records[k].duplicate());
        }
        match best {
            Some(k) => {
                if best_score > -5000 {
                    Some(self.records[k].duplicate())
                } else {
                    None
                }
            },
            None => None,
        }
    }

    /// The definition that a call target resolves to, or `None`.
    pub fn resolve_call(&self, target: &str, caller: Option<&ParsedFile>) -> (r: Option<
        DefinitionRecord,
    >)
        requires
            self.wf(),
        ensures
            r == resolved(self.records@, target@, caller_view(caller)),
    {
        let keys = call_lookup_keys(target);
        let ghost kd = keys.deep_view();
        assert(kd == lookup_keys(target@));
        match self.pick_candidate(keys[0].as_slice(), caller) {
            Some(rec) => {
                assert(keys@[0]@ == kd[0]);
                let kc = crate::text::chars_of(rec.kind.as_str());
                if eq_lit(kc.as_slice(), "class") {
                    return None;
                }
                return Some(rec);
            },
            None => {},
        }
        assert(keys@[0]@ == kd[0]);
        if keys.len() < 2 {
            assert(kd.drop_first().len() == 0);
            assert(resolve_keys(self.records@, kd.drop_first(), caller_view(caller)) is None);
            return None;
        }
        assert(keys@[1]@ == kd[1]);
        assert(kd.drop_first().drop_first().len() == 0);
        assert(kd.drop_first()[0] == kd[1]);
        assert(resolve_keys(self.records@, kd.drop_first().drop_first(), caller_view(caller)) is None);
        match self.pick_candidate(keys[1].as_slice(), caller) {
            Some(rec) => {
                let kc = crate::text::chars_of(rec.kind.as_str());
                if eq_lit(kc.as_slice(), "class") {
                    return None;
                }
                Some(rec)
            },
            None => None,
        }
    }
}

/// The keys under which a call target is looked up.
pub fn call_lookup_keys(target: &str) -> (r: Vec<Vec<char>>)
    ensures
        r.deep_view() == lookup_keys(target@),
        1 <= r@.len() <= 2,
{
    let tc = crate::text::chars_of(target);
    let trimmed = trim_exec(tc.as_slice());
    let n = crate::text::lower_of(trimmed.as_slice());
    let mut keys: Vec<Vec<char>> = Vec::new();
    if crate::text::has_char(n.as_slice(), '.') {
        let m = crate::text::last_segment_exec(n.as_slice(), '.');
        if m.len() > 0 {
            if crate::text::seq_eq(m.as_slice(), n.as_slice()) {
                proof {
                    crate::text::lemma_chars_deep_view(&n);
                }
                keys.push(n);
                assert(keys.deep_view() =~= lookup_keys(target@));
                return keys;
            }
            proof {
                crate::text::lemma_chars_deep_view(&n);
                crate::text::lemma_chars_deep_view(&m);
            }
            let ghost mv = m@;
            let ghost nv = n@;
            keys.push(m);
            keys.push(n);
            assert(keys.deep_view() =~= seq![mv, nv]);
            return keys;
        }
    }
    proof {
        crate::text::lemma_chars_deep_view(&n);
    }
    keys.push(n);
    assert(keys.deep_view() =~= lookup_keys(target@));
    keys
}

} // verus!

verus! {

/// The first definition line after `line`, or `usize::MAX` when none follows.
pub open spec fn next_def_line(defs: Seq<Definition>, line: usize) -> usize
    decreases defs.len(),
{
    if defs.len() == 0 {
        usize::MAX
    } else {
        let p = next_def_line(defs.drop_last(), line);
        let l = defs.last().line;
        if l > line && l < p {
            l
        } else {
            p
        }
    }
}

/// The targets of the calls whose line lies in `[lo, hi)`, in order.
pub open spec fn call_targets(calls: Seq<Call>, lo: usize, hi: usize) -> Seq<String>
    decreases calls.len(),
{
    if calls.len() == 0 {
        Seq::empty()
    } else {
        let p = call_targets(calls.drop_last(), lo, hi);
        let c = calls.last();
        if c.line >= lo && c.line < hi {
            p.push(c.target)
        } else {
            p
        }
    }
}

/// The calls made inside the definition that starts at `line`: from that line
/// up to the next definition.
pub open spec fn calls_of(f: ParsedFile, line: usize) -> Seq<String> {
    call_targets(f.calls@, line, next_def_line(f.definitions@, line))
}

/// The first line of a later definition of a file, or `usize::MAX`.
pub fn next_definition_line(parsed: &ParsedFile, line: usize) -> (r: usize)
    ensures
        r == next_def_line(parsed.definitions@, line),
{
    let mut best: usize = usize::MAX;
    let mut i: usize = 0;
    while i < parsed.definitions.len()
        invariant
            i <= parsed.definitions@.len(),
            best == next_def_line(parsed.definitions@.subrange(0, i as int), line),
        decreases parsed.definitions.len() - i,
    {
        assert(parsed.definitions@.subrange(0, i + 1).drop_last() =~= parsed.definitions@.subrange(
            0,
            i as int,
        ));
        let l = parsed.definitions[i].line;
        if l > line && l < best {
            best = l;
        }
        i = i + 1;
    }
    assert(parsed.definitions@.subrange(0, parsed.definitions@.len() as int)
        =~= parsed.definitions@);
    best
}

/// The call targets inside the definition that starts at `line`.
pub fn calls_for_symbol(parsed: &ParsedFile, line: usize) -> (r: Vec<String>)
    ensures
        r@ == calls_of(*parsed, line),
{
    let end_line = next_definition_line(parsed, line);
    let mut r: Vec<String> = Vec::new();
    let mut i: usize = 0;
    while i < parsed.calls.len()
        invariant
            i <= parsed.calls@.len(),
            end_line == next_def_line(parsed.definitions@, line),
            r@ == call_targets(parsed.calls@.subrange(0, i as int), line, end_line),
        decreases parsed.calls.len() - i,
    {
        assert(parsed.calls@.subrange(0, i + 1).drop_last() =~= parsed.calls@.subrange(
            0,
            i as int,
        ));
        let c = &parsed.calls[i];
        if c.line >= line && c.line < end_line {
            r.push(c.target.clone());
        }
        i = i + 1;
    }
    assert(parsed.calls@.subrange(0, parsed.calls@.len() as int) =~= parsed.calls@);
    r
}

/// The step for a resolved definition.
pub open spec fn record_step(r: DefinitionRecord) -> FlowStep {
    FlowStep { label: r.name, kind: r.kind, file: r.file, line: Some(r.line) }
}

/// A step stands for the definition `r` (same file, name and line).
pub open spec fn step_matches(s: FlowStep, r: DefinitionRecord) -> bool {
    s.file@ == r.file@ && s.label@ == r.name@ && s.line == Some(r.line)
}

/// Some step already stands for `r`.
pub open spec fn visited(steps: Seq<FlowStep>, r: DefinitionRecord) -> bool {
    exists|i: int| 0 <= i < steps.len() && step_matches(#[trigger] steps[i], r)
}

/// The trace after following the call targets of one definition in order:
/// each target that resolves to a new definition that is not noise becomes a
/// step at depth `d`.
pub open spec fn push_targets(
    records: Seq<DefinitionRecord>,
    caller: ParsedFile,
    targets: Seq<String>,
    steps: Seq<FlowStep>,
    depths: Seq<usize>,
    d: usize,
) -> (Seq<FlowStep>, Seq<usize>)
    decreases targets.len(),
{
    if targets.len() == 0 {
        (steps, depths)
    } else {
        let prev = push_targets(records, caller, targets.drop_last(), steps, depths, d);
        match resolved(records, targets.last()@, Some(caller)) {
            None => prev,
            Some(r) => if flow_noise(r.name@, r.file@, r.kind@) || visited(prev.0, r) {
                prev
            } else {
                (prev.0.push(record_step(r)), prev.1.push(d))
            },
        }
    }
}

/// The first parsed file with the given path.
pub open spec fn first_file(files: Seq<ParsedFile>, path: Seq<char>) -> Option<ParsedFile>
    decreases files.len(),
{
    if files.len() == 0 {
        None
    } else if files[0].path@ == path {
        Some(files[0])
    } else {
        first_file(files.drop_first(), path)
    }
}

/// The line of a step (0 for a step without one).
pub open spec fn step_line(s: FlowStep) -> usize {
    match s.line {
        Some(l) => l,
        None => 0,
    }
}

/// Breadth-first expansion of a trace from queue position `head`: a step is
/// expanded only while its depth is below `MAX_DEPTH` and fewer than
/// `MAX_STEPS` steps exist; the trace stops at the first step that fails that.
pub open spec fn bfs(
    records: Seq<DefinitionRecord>,
    files: Seq<ParsedFile>,
    steps: Seq<FlowStep>,
    depths: Seq<usize>,
    head: int,
    fuel: nat,
) -> Seq<FlowStep>
    decreases fuel,
{
    if fuel == 0 || head < 0 || head >= steps.len() {
        steps
    } else if depths[head] >= MAX_DEPTH || steps.len() >= MAX_STEPS {
        steps
    } else {
        match first_file(files, steps[head].file@) {
            None => bfs(records, files, steps, depths, head + 1, (fuel - 1) as nat),
            Some(f) => {
                let next = push_targets(
                    records,
                    f,
                    calls_of(f, step_line(steps[head])),
                    steps,
                    depths,
                    (depths[head] + 1) as usize,
                );
                bfs(records, files, next.0, next.1, head + 1, (fuel - 1) as nat)
            },
        }
    }
}

/// The step a trace starts from.
pub open spec fn seed_step(file: String, d: Definition) -> FlowStep {
    FlowStep { label: d.name, kind: d.kind, file: file, line: Some(d.line) }
}

/// The trace that starts at definition `d` of `file`.
pub open spec fn traced(
    records: Seq<DefinitionRecord>,
    files: Seq<ParsedFile>,
    file: String,
    d: Definition,
) -> Seq<FlowStep> {
    bfs(records, files, seq![seed_step(file, d)], seq![0usize], 0, MAX_STEPS as nat)
}

proof fn lemma_push_targets_len(
    records: Seq<DefinitionRecord>,
    caller: ParsedFile,
    targets: Seq<String>,
    steps: Seq<FlowStep>,
    depths: Seq<usize>,
    d: usize,
)
    requires
        steps.len() == depths.len(),
    ensures
        push_targets(records, caller, targets, steps, depths, d).0.len() == push_targets(
            records,
            caller,
            targets,
            steps,
            depths,
            d,
        ).1.len(),
        push_targets(records, caller, targets, steps, depths, d).0.len() >= steps.len(),
        push_targets(records, caller, targets, steps, depths, d).0.subrange(0, steps.len() as int)
            == steps,
    decreases targets.len(),
{
    if targets.len() > 0 {
        lemma_push_targets_len(records, caller, targets.drop_last(), steps, depths, d);
        let prev = push_targets(records, caller, targets.drop_last(), steps, depths, d);
        match resolved(records, targets.last()@, Some(caller)) {
            Some(r) => {
                let x = record_step(r);
                assert(prev.0.push(x).subrange(0, steps.len() as int) =~= prev.0.subrange(
                    0,
                    steps.len() as int,
                ));
            },
            None => {},
        }
    }
}

} // verus!

verus! {

/// Whether some step stands for `r`.
fn is_visited(steps: &Vec<FlowStep>, r: &DefinitionRecord) -> (b: bool)
    ensures
        b == visited(steps@, *r),
{
    let rf = crate::text::chars_of(r.file.as_str());
    let rn = crate::text::chars_of(r.name.as_str());
    let mut i: usize = 0;
    while i < steps.len()
        invariant
            i <= steps@.len(),
            rf@ == r.file@,
            rn@ == r.name@,
            forall|k: int| 0 <= k < i ==> !step_matches(#[trigger] steps@[k], *r),
        decreases steps.len() - i,
    {
        let s = &steps[i];
        let sf = crate::text::chars_of(s.file.as_str());
        let sl = crate::text::chars_of(s.label.as_str());
        let same_line = match s.line {
            Some(l) => l == r.line,
            None => false,
        };
        if same_line && crate::text::seq_eq(sf.as_slice(), rf.as_slice()) && crate::text::seq_eq(
            sl.as_slice(),
            rn.as_slice(),
        ) {
            assert(step_matches(steps@[i as int], *r));
            return true;
        }
        i = i + 1;
    }
    false
}

/// The position of the first parsed file with the given path.
fn find_file(files: &Vec<ParsedFile>, path: &str) -> (r: Option<usize>)
    ensures
        match r {
            None => first_file(files@, path@) is None,
            Some(k) => k < files@.len() && first_file(files@, path@) == Some(files@[k as int]),
        },
{
    let pc = crate::text::chars_of(path);
    let mut i: usize = 0;
    assert(files@.subrange(0, files@.len() as int) =~= files@);
    while i < files.len()
        invariant
            i <= files@.len(),
            pc@ == path@,
            first_file(files@, path@) == first_file(files@.subrange(i as int, files@.len() as int), path@),
        decreases files.len() - i,
    {
        let ghost rest = files@.subrange(i as int, files@.len() as int);
        assert(rest.drop_first() =~= files@.subrange(i + 1, files@.len() as int));
        let fc = crate::text::chars_of(files[i].path.as_str());
        if crate::text::seq_eq(fc.as_slice(), pc.as_slice()) {
            return Some(i);
        }
        i = i + 1;
    }
    None
}

/// Follows the calls of one definition: each target that resolves to a new
/// definition that is not noise becomes a step at depth `d`.
fn expand_targets(
    index: &DefinitionIndex,
    caller: &ParsedFile,
    targets: &Vec<String>,
    steps: &mut Vec<FlowStep>,
    depths: &mut Vec<usize>,
    d: usize,
)
    requires
        index.wf(),
        old(steps)@.len() == old(depths)@.len(),
    ensures
        (final(steps)@, final(depths)@) == push_targets(
            index.records@,
            *caller,
            targets@,
            old(steps)@,
            old(depths)@,
            d,
        ),
{
    let ghost s0 = steps@;
    let ghost d0 = depths@;
    let mut j: usize = 0;
    while j < targets.len()
        invariant
            index.wf(),
            j <= targets@.len(),
            (steps@, depths@) == push_targets(
                index.records@,
                *caller,
                targets@.subrange(0, j as int),
                s0,
                d0,
                d,
            ),
            steps@.len() == depths@.len(),
        decreases targets.len() - j,
    {
        assert(targets@.subrange(0, j + 1).drop_last() =~= targets@.subrange(0, j as int));
        assert(targets@.subrange(0, j + 1).last() == targets@[j as int]);
        let next = index.resolve_call(targets[j].as_str(), Some(caller));
        match next {
            None => {},
            Some(rec) => {
                if !is_flow_noise(rec.name.as_str(), rec.file.as_str(), rec.kind.as_str())
                    && !is_visited(steps, &rec) {
                    steps.push(
                        FlowStep {
                            label: rec.name.clone(),
                            kind: rec.kind.clone(),
                            file: rec.file.clone(),
                            line: Some(rec.line),
                        },
                    );
                    depths.push(d);
                }
            },
        }
        j = j + 1;
    }
    assert(targets@.subrange(0, targets@.len() as int) =~= targets@);
}

/// A definition that a query matches, with the file it is in and its score.
#[derive(Debug)]
pub struct Seed {
    pub file: String,
    pub definition: Definition,
    pub score: i32,
}

/// The breadth-first trace of calls from a seed definition (see `bfs`).
pub fn trace_flow(seed: &Seed, symbols: &ParseOutput, index: &DefinitionIndex) -> (r: Vec<
    FlowStep,
>)
    requires
        index.wf(),
    ensures
        r@ == traced(index.records@, symbols.files@, seed.file, seed.definition),
{
    let ghost goal = traced(index.records@, symbols.files@, seed.file, seed.definition);
    let mut steps: Vec<FlowStep> = Vec::new();
    steps.push(
        FlowStep {
            label: seed.definition.name.clone(),
            kind: seed.definition.kind.clone(),
            file: seed.file.clone(),
            line: Some(seed.definition.line),
        },
    );
    let mut depths: Vec<usize> = Vec::new();
    depths.push(0);
    assert(steps@ =~= seq![seed_step(seed.file, seed.definition)]);
    assert(depths@ =~= seq![0usize]);
    let mut head: usize = 0;
    loop
        invariant
            index.wf(),
            head <= MAX_STEPS,
            head <= steps@.len(),
            steps@.len() == depths@.len(),
            bfs(index.records@, symbols.files@, steps@, depths@, head as int, (MAX_STEPS - head) as nat)
                == goal,
        ensures
            steps@ == goal,
        decreases MAX_STEPS - head,
    {
        if head >= steps.len() {
            break;
        }
        let current = head;
        let depth = depths[current];
        if depth >= MAX_DEPTH || steps.len() >= MAX_STEPS {
            break;
        }
        head = head + 1;
        let line = match steps[current].line {
            Some(l) => l,
            None => 0,
        };
        let found = find_file(&symbols.files, steps[current].file.as_str());
        match found {
            None => {},
            Some(k) => {
                let parsed = &symbols.files[k];
                let targets = calls_for_symbol(parsed, line);
                proof {
                    lemma_push_targets_len(
                        index.records@,
                        *parsed,
                        targets@,
                        steps@,
                        depths@,
                        (depth + 1) as usize,
                    );
                }
                expand_targets(index, parsed, &targets, &mut steps, &mut depths, depth + 1);
            },
        }
    }
    steps
}

/// Score for the name matching the query exactly (120) or partly (70).
pub open spec fn name_term(name: Seq<char>, q: Seq<char>) -> int {
    if name == q {
        120
    } else if contains(name, q) {
        70
    } else {
        0
    }
}

/// Score for handler names of the query (100).
pub open spec fn handler_term(name: Seq<char>, q: Seq<char>) -> int {
    if name == q + "_handler"@ || name == "handle_"@ + q {
        100
    } else {
        0
    }
}

/// Penalty for success pages, templates and backups (-100).
pub open spec fn template_term(name: Seq<char>) -> int {
    if ends_with(name, "_success"@) || ends_with(name, "_page"@) || ends_with(name, "_template"@)
        || ends_with(name, "_backup"@) {
        -100
    } else {
        0
    }
}

/// Score for gate and verify names.
pub open spec fn gate_term(name: Seq<char>, q: Seq<char>) -> int {
    if name == q + "_gate"@ {
        120
    } else if ends_with(name, "_gate"@) {
        70
    } else if contains(name, "_verify_and_"@) {
        25
    } else if ends_with(name, "_verify"@) {
        40
    } else {
        0
    }
}

/// Score for `query_*` names that are not success pages (35).
pub open spec fn prefix_term(name: Seq<char>, q: Seq<char>) -> int {
    if starts_with(name, q + "_"@) && !ends_with(name, "_success"@) {
        35
    } else {
        0
    }
}

/// Path-dependent terms: path match (25), route files (50), service
/// duplicates (-30), tests (-200), production code (30).
pub open spec fn path_terms(path: Seq<char>, name: Seq<char>, q: Seq<char>) -> int {
    let p = lower_text(path);
    (if contains(p, q) {
        25int
    } else {
        0int
    }) + (if contains(p, "routes"@) && contains(name, q) {
        50int
    } else {
        0int
    }) + (if name == q && contains(p, "service"@) {
        -30int
    } else {
        0int
    }) + (if test_path(path) || starts_with(name, "test_"@) {
        -200int
    } else {
        0int
    }) + (if !test_path(path) && !excluded_from_clustering(path) {
        30int
    } else {
        0int
    })
}

/// How well a definition matches a (normalized) query: exact and partial
/// name matches, path matches, handler and gate names, route files and
/// production code score up; templates, service duplicates and tests down;
/// functions and methods get 10; routes themselves are never seeds.
pub open spec fn seed_score(path: Seq<char>, d: Definition, q: Seq<char>) -> int {
    if d.kind@ == "route"@ {
        0
    } else {
        let name = lower_text(d.name@);
        name_term(name, q) + handler_term(name, q) + template_term(name) + gate_term(name, q)
            + prefix_term(name, q) + path_terms(path, name, q) + (if d.kind@ == "function"@
            || d.kind@ == "method"@ {
            10int
        } else {
            0int
        })
    }
}

fn cat(a: &[char], b: &str) -> (r: Vec<char>)
    ensures
        r@ == a@ + b@,
{
    let mut v: Vec<char> = Vec::new();
    append_chars(&mut v, a);
    let bc = crate::text::chars_of(b);
    append_chars(&mut v, bc.as_slice());
    v
}

fn cat_front(a: &str, b: &[char]) -> (r: Vec<char>)
    ensures
        r@ == a@ + b@,
{
    let mut v = crate::text::chars_of(a);
    append_chars(&mut v, b);
    v
}

fn name_score(name: &[char], q: &[char]) -> (r: i32)
    ensures
        r == name_term(name@, q@) + handler_term(name@, q@) + template_term(name@) + gate_term(
            name@,
            q@,
        ) + prefix_term(name@, q@),
{
    let mut score: i32 = 0;
    if crate::text::seq_eq(name, q) {
        score = score + 120;
    } else if crate::text::contains_seq(name, q) {
        score = score + 70;
    }
    let handler = cat(q, "_handler");
    let handle = cat_front("handle_", q);
    if crate::text::seq_eq(name, handler.as_slice()) || crate::text::seq_eq(name, handle.as_slice()) {
        score = score + 100;
    }
    if ends_with_lit(name, "_success") || ends_with_lit(name, "_page") || ends_with_lit(
        name,
        "_template",
    ) || ends_with_lit(name, "_backup") {
        score = score - 100;
    }
    let gate = cat(q, "_gate");
    if crate::text::seq_eq(name, gate.as_slice()) {
        score = score + 120;
    } else if ends_with_lit(name, "_gate") {
        score = score + 70;
    } else if contains_lit(name, "_verify_and_") {
        score = score + 25;
    } else if ends_with_lit(name, "_verify") {
        score = score + 40;
    }
    let prefix = cat(q, "_");
    if crate::text::starts_with_seq(name, prefix.as_slice()) && !ends_with_lit(name, "_success") {
        score = score + 35;
    }
    score
}

fn path_score(path: &str, name: &[char], q: &[char]) -> (r: i32)
    ensures
        r == path_terms(path@, name@, q@),
{
    let pv = lower_chars(path);
    let p = pv.as_slice();
    let mut score: i32 = 0;
    if crate::text::contains_seq(p, q) {
        score = score + 25;
    }
    if contains_lit(p, "routes") && crate::text::contains_seq(name, q) {
        score = score + 50;
    }
    if crate::text::seq_eq(name, q) && contains_lit(p, "service") {
        score = score - 30;
    }
    let test = is_test_path(path);
    if test || starts_with_lit(name, "test_") {
        score = score - 200;
    }
    if !test && !is_excluded_from_clustering(path) {
        score = score + 30;
    }
    score
}

/// The score of a definition of `path` for the normalized query `query`.
pub fn score_seed(path: &str, definition: &Definition, query: &[char]) -> (r: i32)
    ensures
        r as int == seed_score(path@, *definition, query@),
{
    let kind = crate::text::chars_of(definition.kind.as_str());
    if eq_lit(kind.as_slice(), "route") {
        return 0;
    }
    let namev = lower_chars(definition.name.as_str());
    let a = name_score(namev.as_slice(), query);
    let b = path_score(path, namev.as_slice(), query);
    let c: i32 = if eq_lit(kind.as_slice(), "function") || eq_lit(kind.as_slice(), "method") {
        10
    } else {
        0
    };
    a + b + c
}

/// The seeds of one file's definitions, in order.
pub open spec fn file_seeds(path: String, defs: Seq<Definition>, q: Seq<char>) -> Seq<Seed>
    decreases defs.len(),
{
    if defs.len() == 0 {
        Seq::empty()
    } else {
        let p = file_seeds(path, defs.drop_last(), q);
        let d = defs.last();
        let sc = seed_score(path@, d, q);
        if sc > 0 {
            p.push(Seed { file: path, definition: d, score: sc as i32 })
        } else {
            p
        }
    }
}

/// Every definition that scores above zero for the query, file by file in order.
pub open spec fn seeds_of(files: Seq<ParsedFile>, q: Seq<char>) -> Seq<Seed>
    decreases files.len(),
{
    if files.len() == 0 {
        Seq::empty()
    } else {
        seeds_of(files.drop_last(), q) + file_seeds(files.last().path, files.last().definitions@, q)
    }
}

/// The seeds of a normalized query.
pub fn find_seeds(symbols: &ParseOutput, query: &[char]) -> (r: Vec<Seed>)
    ensures
        r@ == seeds_of(symbols.files@, query@),
{
    let mut seeds: Vec<Seed> = Vec::new();
    let mut i: usize = 0;
    while i < symbols.files.len()
        invariant
            i <= symbols.files@.len(),
            seeds@ == seeds_of(symbols.files@.subrange(0, i as int), query@),
        decreases symbols.files.len() - i,
    {
        let parsed = &symbols.files[i];
        let ghost before = seeds@;
        let mut j: usize = 0;
        while j < parsed.definitions.len()
            invariant
                j <= parsed.definitions@.len(),
                seeds@ == before + file_seeds(
                    parsed.path,
                    parsed.definitions@.subrange(0, j as int),
                    query@,
                ),
            decreases parsed.definitions.len() - j,
        {
            let ghost pre = parsed.definitions@.subrange(0, j as int);
            assert(parsed.definitions@.subrange(0, j + 1).drop_last() =~= pre);
            let d = &parsed.definitions[j];
            let score = score_seed(parsed.path.as_str(), d, query);
            if score > 0 {
                let seed = Seed { file: parsed.path.clone(), definition: d.duplicate(), score };
                seeds.push(seed);
                assert(seeds@ =~= before + file_seeds(
                    parsed.path,
                    parsed.definitions@.subrange(0, j + 1),
                    query@,
                ));
            } else {
                assert(seeds@ =~= before + file_seeds(
                    parsed.path,
                    parsed.definitions@.subrange(0, j + 1),
                    query@,
                ));
            }
            j = j + 1;
        }
        assert(parsed.definitions@.subrange(0, parsed.definitions@.len() as int)
            =~= parsed.definitions@);
        assert(symbols.files@.subrange(0, i + 1).drop_last() =~= symbols.files@.subrange(
            0,
            i as int,
        ));
        i = i + 1;
    }
    assert(symbols.files@.subrange(0, symbols.files@.len() as int) =~= symbols.files@);
    seeds
}

} // verus!

verus! {

/// The seed a flow starts from: among the seeds whose trace reaches beyond
/// the seed itself, the highest-scoring one, the earliest of equals.
pub open spec fn best_seed(
    seeds: Seq<Seed>,
    records: Seq<DefinitionRecord>,
    files: Seq<ParsedFile>,
) -> Option<int>
    decreases seeds.len(),
{
    if seeds.len() == 0 {
        None
    } else {
        let prev = best_seed(seeds.drop_last(), records, files);
        let x = seeds.last();
        if traced(records, files, x.file, x.definition).len() <= 1 {
            prev
        } else {
            match prev {
                None => Some(seeds.len() - 1),
                Some(i) => if x.score > seeds[i].score {
                    Some(seeds.len() - 1)
                } else {
                    Some(i)
                },
            }
        }
    }
}

/// The normalized form of a flow query: trimmed and lowercased.
pub open spec fn flow_query(query: Seq<char>) -> Seq<char> {
    lower_text(trim(query))
}

/// The message for a query with no matching definition.
pub open spec fn no_seed_message(query: Seq<char>) -> Seq<char> {
    "no flow seed found for '"@ + query
        + "' — try a function, route, or file name from the scan"@
}

/// The message for a query whose seeds reach no further call.
pub open spec fn no_downstream_message(query: Seq<char>) -> Seq<char> {
    "seed found for '"@ + query
        + "' but no downstream calls were resolved — graph may be incomplete"@
}

proof fn lemma_best_seed_bound(seeds: Seq<Seed>, records: Seq<DefinitionRecord>, files: Seq<ParsedFile>)
    ensures
        best_seed(seeds, records, files) matches Some(i) ==> 0 <= i < seeds.len(),
    decreases seeds.len(),
{
    if seeds.len() > 0 {
        lemma_best_seed_bound(seeds.drop_last(), records, files);
    }
}

/// Traces the execution flow that a query names: the best seed (see
/// `best_seed`) and the calls reachable from it (see `traced`).
pub fn extract_flow(symbols: &ParseOutput, query: &str) -> (r: Result<FlowResult, String>)
    ensures
        ({
            let q = flow_query(query@);
            let seeds = seeds_of(symbols.files@, q);
            let records = records_of(symbols.files@);
            match r {
                Err(e) => if q.len() == 0 {
                    e@ == "flow name cannot be empty"@
                } else if seeds.len() == 0 {
                    e@ == no_seed_message(query@)
                } else {
                    best_seed(seeds, records, symbols.files@) is None && e@
                        == no_downstream_message(query@)
                },
                Ok(f) => {
                    &&& q.len() > 0
                    &&& best_seed(seeds, records, symbols.files@) matches Some(k)
                    &&& f.query@ == query@
                    &&& f.seed == seeds[k].definition.name
                    &&& f.steps@ == traced(
                        records,
                        symbols.files@,
                        seeds[k].file,
                        seeds[k].definition,
                    )
                },
            }
        }),
{
    let qc = crate::text::chars_of(query);
    let trimmed = trim_exec(qc.as_slice());
    let nq = crate::text::lower_of(trimmed.as_slice());
    if nq.len() == 0 {
        return Err(String::from_str("flow name cannot be empty"));
    }
    let index = DefinitionIndex::from_symbols(symbols);
    let seeds = find_seeds(symbols, nq.as_slice());
    if seeds.len() == 0 {
        let mut msg = String::from_str("no flow seed found for '");
        msg.append(query);
        msg.append("' — try a function, route, or file name from the scan");
        return Err(msg);
    }
    let ghost records = index.records@;
    let mut best: Option<usize> = None;
    let mut best_steps: Vec<FlowStep> = Vec::new();
    let mut best_score: i32 = 0;
    let mut k: usize = 0;
    while k < seeds.len()
        invariant
            index.wf(),
            records == index.records@,
            records == records_of(symbols.files@),
            k <= seeds@.len(),
            match best {
                None => best_seed(seeds@.subrange(0, k as int), records, symbols.files@) is None,
                Some(b) => b < k && best_seed(seeds@.subrange(0, k as int), records, symbols.files@)
                    == Some(b as int) && best_score == seeds@[b as int].score && best_steps@
                    == traced(
                    records,
                    symbols.files@,
                    seeds@[b as int].file,
                    seeds@[b as int].definition,
                ),
            },
        decreases seeds.len() - k,
    {
        let ghost pre = seeds@.subrange(0, k as int);
        assert(seeds@.subrange(0, k + 1).drop_last() =~= pre);
        proof {
            lemma_best_seed_bound(pre, records, symbols.files@);
        }
        let skip = match best {
            Some(_) => seeds[k].score <= best_score,
            None => false,
        };
        if !skip {
            let steps = trace_flow(&seeds[k], symbols, &index);
            if steps.len() > 1 {
                best = Some(k);
                best_steps = steps;
                best_score = seeds[k].score;
            }
        }
        k = k + 1;
    }
    assert(seeds@.subrange(0, seeds@.len() as int) =~= seeds@);
    match best {
        None => {
            let mut msg = String::from_str("seed found for '");
            msg.append(query);
            msg.append("' but no downstream calls were resolved — graph may be incomplete");
            Err(msg)
        },
        Some(b) => Ok(
            FlowResult {
                query: String::from_str(query),
                seed: seeds[b].definition.name.clone(),
                steps: best_steps,
            },
        ),
    }
}

} // verus!

verus! {

/// No two steps stand for the same definition (file, name and line).
pub open spec fn distinct_steps(s: Seq<FlowStep>) -> bool {
    forall|i: int, j: int|
        0 <= i < j < s.len() ==> !(#[trigger] s[i].file@ == #[trigger] s[j].file@ && s[i].label@
            == s[j].label@ && s[i].line == s[j].line)
}

/// Every step after the first is free of noise.
pub open spec fn noise_free_after_first(s: Seq<FlowStep>) -> bool {
    forall|i: int| 0 < i < s.len() ==> !flow_noise(#[trigger] s[i].label@, s[i].file@, s[i].kind@)
}

#[verifier::spinoff_prover]
#[verifier::rlimit(40)]
proof fn lemma_push_targets_keeps(
    records: Seq<DefinitionRecord>,
    caller: ParsedFile,
    targets: Seq<String>,
    steps: Seq<FlowStep>,
    depths: Seq<usize>,
    d: usize,
)
    requires
        steps.len() >= 1,
        distinct_steps(steps),
        noise_free_after_first(steps),
    ensures
        ({
            let out = push_targets(records, caller, targets, steps, depths, d).0;
            &&& distinct_steps(out)
            &&& noise_free_after_first(out)
            &&& out.len() >= steps.len()
            &&& out.subrange(0, steps.len() as int) == steps
        }),
    decreases targets.len(),
{
    if targets.len() > 0 {
        lemma_push_targets_keeps(records, caller, targets.drop_last(), steps, depths, d);
        let prev = push_targets(records, caller, targets.drop_last(), steps, depths, d);
        match resolved(records, targets.last()@, Some(caller)) {
            Some(r) => {
                if !(flow_noise(r.name@, r.file@, r.kind@) || visited(prev.0, r)) {
                    let out = prev.0.push(record_step(r));
                    assert(out.subrange(0, steps.len() as int) =~= prev.0.subrange(
                        0,
                        steps.len() as int,
                    ));
                    assert forall|i: int, j: int| 0 <= i < j < out.len() implies !(
                    #[trigger] out[i].file@ == #[trigger] out[j].file@ && out[i].label@
                        == out[j].label@ && out[i].line == out[j].line) by {
                        if j == out.len() - 1 && out[i].file@ == out[j].file@ && out[i].label@
                            == out[j].label@ && out[i].line == out[j].line {
                            assert(step_matches(prev.0[i], r));
                        }
                    }
                    assert forall|i: int| 0 < i < out.len() implies !flow_noise(
                        #[trigger] out[i].label@,
                        out[i].file@,
                        out[i].kind@,
                    ) by {
                        if i < out.len() - 1 {
                            assert(out[i] == prev.0[i]);
                            assert(!flow_noise(prev.0[i].label@, prev.0[i].file@, prev.0[i].kind@));
                        } else {
                            assert(out[i] == record_step(r));
                            assert(out[i].label@ == r.name@ && out[i].file@ == r.file@
                                && out[i].kind@ == r.kind@);
                        }
                    }
                }
            },
            None => {},
        }
    }
}

proof fn lemma_bfs_keeps(
    records: Seq<DefinitionRecord>,
    files: Seq<ParsedFile>,
    steps: Seq<FlowStep>,
    depths: Seq<usize>,
    head: int,
    fuel: nat,
)
    requires
        steps.len() >= 1,
        steps.len() == depths.len(),
        distinct_steps(steps),
        noise_free_after_first(steps),
    ensures
        ({
            let out = bfs(records, files, steps, depths, head, fuel);
            &&& distinct_steps(out)
            &&& noise_free_after_first(out)
            &&& out.len() >= 1
            &&& out[0] == steps[0]
        }),
    decreases fuel,
{
    if fuel == 0 || head < 0 || head >= steps.len() {
    } else if depths[head] >= MAX_DEPTH || steps.len() >= MAX_STEPS {
    } else {
        match first_file(files, steps[head].file@) {
            None => lemma_bfs_keeps(records, files, steps, depths, head + 1, (fuel - 1) as nat),
            Some(f) => {
                let t = calls_of(f, step_line(steps[head]));
                let d = (depths[head] + 1) as usize;
                lemma_push_targets_keeps(records, f, t, steps, depths, d);
                lemma_push_targets_len(records, f, t, steps, depths, d);
                let next = push_targets(records, f, t, steps, depths, d);
                assert(next.0[0] == next.0.subrange(0, steps.len() as int)[0]);
                lemma_bfs_keeps(records, files, next.0, next.1, head + 1, (fuel - 1) as nat);
            },
        }
    }
}

/// A trace starts at its seed, never lists the same definition twice, and
/// holds no noise (logging, private helpers, constructors, classes,
/// utilities) after the seed.
pub proof fn law_trace_shape(
    records: Seq<DefinitionRecord>,
    files: Seq<ParsedFile>,
    file: String,
    d: Definition,
)
    ensures
        ({
            let t = traced(records, files, file, d);
            &&& t.len() >= 1
            &&& t[0] == seed_step(file, d)
            &&& distinct_steps(t)
            &&& noise_free_after_first(t)
        }),
{
    let s = seq![seed_step(file, d)];
    assert(distinct_steps(s));
    assert(noise_free_after_first(s));
    lemma_bfs_keeps(records, files, s, seq![0usize], 0, MAX_STEPS as nat);
}

/// A traced flow starts at the definition named by its seed.
pub proof fn law_flow_starts_at_seed(symbols: ParseOutput, query: Seq<char>, f: FlowResult)
    requires
        ({
            let q = flow_query(query);
            let seeds = seeds_of(symbols.files@, q);
            let records = records_of(symbols.files@);
            &&& best_seed(seeds, records, symbols.files@) matches Some(k)
            &&& f.seed == seeds[k].definition.name
            &&& f.steps@ == traced(records, symbols.files@, seeds[k].file, seeds[k].definition)
        }),
    ensures
        f.steps@.len() >= 2,
        f.steps@[0].label == f.seed,
        distinct_steps(f.steps@),
        noise_free_after_first(f.steps@),
{
    let q = flow_query(query);
    let seeds = seeds_of(symbols.files@, q);
    let records = records_of(symbols.files@);
    lemma_best_seed_traces(seeds, records, symbols.files@);
    let k = best_seed(seeds, records, symbols.files@)->0;
    law_trace_shape(records, symbols.files@, seeds[k].file, seeds[k].definition);
}

pub(crate) proof fn lemma_best_seed_traces(seeds: Seq<Seed>, records: Seq<DefinitionRecord>, files: Seq<ParsedFile>)
    ensures
        best_seed(seeds, records, files) matches Some(i) ==> 0 <= i < seeds.len() && traced(
            records,
            files,
            seeds[i].file,
            seeds[i].definition,
        ).len() > 1,
    decreases seeds.len(),
{
    if seeds.len() > 0 {
        lemma_best_seed_traces(seeds.drop_last(), records, files);
    }
}

} // verus!

verus! {

proof fn lemma_first_min_in(s: Seq<DefinitionRecord>)
    ensures
        first_min_line(s) matches Some(x) ==> exists|i: int| 0 <= i < s.len() && s[i] == x,
    decreases s.len(),
{
    if s.len() > 0 {
        lemma_first_min_in(s.drop_last());
        if let Some(x) = first_min_line(s) {
            if x != s.last() {
                let i = choose|i: int| 0 <= i < s.drop_last().len() && s.drop_last()[i] == x;
                assert(s[i] == x);
            } else {
                assert(s[s.len() - 1] == x);
            }
        }
    }
}

proof fn lemma_pick_production(
    records: Seq<DefinitionRecord>,
    key: Seq<char>,
    c: ParsedFile,
)
    ensures
        pick(records, key, Some(c)) matches Some(r) ==> (!test_path(c.path@) && test_path(r.file@)
            ==> 500 * matching_imports(c.imports@, r.file@) - line_term(r.line) > 4800),
{
    let cs = candidates(records, key);
    let pred = |r: DefinitionRecord| r.file@ == c.path@;
    let local = first_min_line(cs.filter(pred));
    lemma_first_min_in(cs.filter(pred));
    broadcast use vstd::seq_lib::group_filter_ensures;

    if let Some(x) = local {
        let i = choose|i: int| 0 <= i < cs.filter(pred).len() && cs.filter(pred)[i] == x;
        assert(pred(cs.filter(pred)[i]));
    }
}

proof fn lemma_resolve_production(
    records: Seq<DefinitionRecord>,
    keys: Seq<Seq<char>>,
    c: ParsedFile,
)
    ensures
        resolve_keys(records, keys, Some(c)) matches Some(r) ==> (!test_path(c.path@) && test_path(
            r.file@,
        ) ==> 500 * matching_imports(c.imports@, r.file@) - line_term(r.line) > 4800),
    decreases keys.len(),
{
    if keys.len() > 0 {
        lemma_pick_production(records, keys[0], c);
        lemma_resolve_production(records, keys.drop_first(), c);
    }
}

/// A call from production code resolves into a test file only when the
/// caller imports that test module so often that the +500 per import
/// outweighs the -10000 test penalty and the -5000 cut-off: for a definition
/// line that fits in `i32`, at least ten such imports.
pub proof fn law_production_calls_avoid_tests(
    records: Seq<DefinitionRecord>,
    target: Seq<char>,
    caller: ParsedFile,
)
    ensures
        resolved(records, target, Some(caller)) matches Some(r) ==> (!test_path(caller.path@)
            && test_path(r.file@) ==> 500 * matching_imports(caller.imports@, r.file@) - line_term(
            r.line,
        ) > 4800),
        resolved(records, target, Some(caller)) matches Some(r) ==> (!test_path(caller.path@)
            && test_path(r.file@) && r.line <= i32::MAX ==> matching_imports(
            caller.imports@,
            r.file@,
        ) >= 10),
{
    lemma_resolve_production(records, lookup_keys(target), caller);
    if let Some(r) = resolved(records, target, Some(caller)) {
        if r.line <= i32::MAX {
            assert((r.line as i32) as int == r.line);
            assert(line_term(r.line) >= 0);
        }
    }
}

/// A verbose display keeps every step; a compressed one keeps at most eight
/// steps of a longer flow, each of them a step of the flow.
pub proof fn law_compression(steps: Seq<FlowStep>)
    ensures
        compressed(steps, true) == steps,
        steps.len() > 2 ==> compressed(steps, false).len() <= COMPRESSED_FLOW_LIMIT,
        forall|i: int|
            0 <= i < compressed(steps, false).len() ==> steps.contains(
                #[trigger] compressed(steps, false)[i],
            ),
{
    let primary = steps.filter(|s: FlowStep| step_is_primary(s));
    let plain = steps.filter(|s: FlowStep| step_not_supporting(s));
    broadcast use vstd::seq_lib::group_filter_ensures;

    assert forall|i: int| 0 <= i < compressed(steps, false).len() implies steps.contains(
        #[trigger] compressed(steps, false)[i],
    ) by {
        let c = compressed(steps, false);
        if steps.len() <= 2 {
            assert(steps[i] == c[i]);
        } else if primary.len() >= 2 {
            assert(c[i] == primary[i]);
            lemma_filter_elem(steps, |s: FlowStep| step_is_primary(s), i);
        } else if plain.len() >= 2 {
            assert(c[i] == plain[i]);
            lemma_filter_elem(steps, |s: FlowStep| step_not_supporting(s), i);
        } else {
            assert(steps[i] == c[i]);
        }
    }
}

proof fn lemma_filter_elem<A>(s: Seq<A>, pred: spec_fn(A) -> bool, i: int)
    requires
        0 <= i < s.filter(pred).len(),
    ensures
        s.contains(s.filter(pred)[i]),
    decreases s.len(),
{
    reveal_with_fuel(Seq::<_>::filter, 1);
    if s.len() > 0 {
        let sub = s.drop_last().filter(pred);
        if i < sub.len() {
            lemma_filter_elem(s.drop_last(), pred, i);
            let j = choose|j: int| 0 <= j < s.drop_last().len() && s.drop_last()[j] == sub[i];
            assert(s[j] == s.filter(pred)[i]);
        } else {
            assert(s[s.len() - 1] == s.filter(pred)[i]);
        }
    }
}

} // verus!

verus! {

/// `p` is the path of some parsed file.
pub open spec fn parsed_path(files: Seq<ParsedFile>, p: Seq<char>) -> bool {
    exists|k: int| 0 <= k < files.len() && #[trigger] files[k].path@ == p
}

/// Every step lies in a parsed file.
pub open spec fn steps_in_files(steps: Seq<FlowStep>, files: Seq<ParsedFile>) -> bool {
    forall|i: int| 0 <= i < steps.len() ==> parsed_path(files, #[trigger] steps[i].file@)
}

/// Every record lies in a parsed file.
pub open spec fn records_in_files(records: Seq<DefinitionRecord>, files: Seq<ParsedFile>) -> bool {
    forall|i: int| 0 <= i < records.len() ==> parsed_path(files, #[trigger] records[i].file@)
}

proof fn lemma_records_in_files(files: Seq<ParsedFile>)
    ensures
        records_in_files(records_of(files), files),
    decreases files.len(),
{
    if files.len() > 0 {
        let init = files.drop_last();
        lemma_records_in_files(init);
        let rs = records_of(files);
        let prev = records_of(init);
        let last = files.len() - 1;
        assert forall|i: int| 0 <= i < rs.len() implies parsed_path(files, #[trigger] rs[i].file@) by {
            if i < prev.len() {
                assert(rs[i] == prev[i]);
                let k = choose|k: int| 0 <= k < init.len() && #[trigger] init[k].path@ == prev[i].file@;
                assert(files[k].path@ == rs[i].file@);
            } else {
                assert(rs[i] == file_records(files.last().path, files.last().definitions@)[i - prev.len()]);
                assert(files[last].path@ == rs[i].file@);
            }
        }
    }
}

proof fn lemma_last_max_in(s: Seq<DefinitionRecord>, caller: Option<ParsedFile>)
    ensures
        last_max_score(s, caller) matches Some(x) ==> exists|i: int| 0 <= i < s.len() && s[i] == x,
    decreases s.len(),
{
    if s.len() > 0 {
        lemma_last_max_in(s.drop_last(), caller);
        if let Some(x) = last_max_score(s, caller) {
            if x != s.last() {
                let i = choose|i: int| 0 <= i < s.drop_last().len() && s.drop_last()[i] == x;
                assert(s[i] == x);
            } else {
                assert(s[s.len() - 1] == x);
            }
        }
    }
}

proof fn lemma_pick_in(records: Seq<DefinitionRecord>, key: Seq<char>, caller: Option<ParsedFile>)
    ensures
        pick(records, key, caller) matches Some(r) ==> records.contains(r),
{
    let p1 = |r: DefinitionRecord| lower_text(r.name@) == key;
    let cs = candidates(records, key);
    assert(cs == records.filter(p1));
    if let Some(r) = pick(records, key, caller) {
        let j: int = if local_of(cs, caller) is Some {
            let c = caller->0;
            let p2 = |x: DefinitionRecord| x.file@ == c.path@;
            lemma_first_min_in(cs.filter(p2));
            let m = choose|m: int| 0 <= m < cs.filter(p2).len() && cs.filter(p2)[m] == r;
            lemma_filter_elem(cs, p2, m);
            choose|j: int| 0 <= j < cs.len() && cs[j] == r
        } else {
            lemma_last_max_in(cs, caller);
            choose|j: int| 0 <= j < cs.len() && cs[j] == r
        };
        lemma_filter_elem(records, p1, j);
    }
}

proof fn lemma_resolve_keys_in(
    records: Seq<DefinitionRecord>,
    keys: Seq<Seq<char>>,
    caller: Option<ParsedFile>,
)
    ensures
        resolve_keys(records, keys, caller) matches Some(r) ==> records.contains(r),
    decreases keys.len(),
{
    if keys.len() > 0 {
        lemma_pick_in(records, keys[0], caller);
        lemma_resolve_keys_in(records, keys.drop_first(), caller);
    }
}

proof fn lemma_push_targets_in(
    records: Seq<DefinitionRecord>,
    files: Seq<ParsedFile>,
    caller: ParsedFile,
    targets: Seq<String>,
    steps: Seq<FlowStep>,
    depths: Seq<usize>,
    d: usize,
)
    requires
        records_in_files(records, files),
        steps_in_files(steps, files),
    ensures
        steps_in_files(push_targets(records, caller, targets, steps, depths, d).0, files),
    decreases targets.len(),
{
    if targets.len() > 0 {
        lemma_push_targets_in(records, files, caller, targets.drop_last(), steps, depths, d);
        let prev = push_targets(records, caller, targets.drop_last(), steps, depths, d);
        lemma_resolve_keys_in(records, lookup_keys(targets.last()@), Some(caller));
        if let Some(r) = resolved(records, targets.last()@, Some(caller)) {
            let j = choose|j: int| 0 <= j < records.len() && records[j] == r;
            assert(parsed_path(files, records[j].file@));
            let out = prev.0.push(record_step(r));
            assert forall|i: int| 0 <= i < out.len() implies parsed_path(files, #[trigger] out[i].file@) by {
                if i < prev.0.len() {
                    assert(out[i] == prev.0[i]);
                }
            }
        }
    }
}

proof fn lemma_bfs_in(
    records: Seq<DefinitionRecord>,
    files: Seq<ParsedFile>,
    steps: Seq<FlowStep>,
    depths: Seq<usize>,
    head: int,
    fuel: nat,
)
    requires
        records_in_files(records, files),
        steps_in_files(steps, files),
    ensures
        steps_in_files(bfs(records, files, steps, depths, head, fuel), files),
    decreases fuel,
{
    if fuel == 0 || head < 0 || head >= steps.len() {
    } else if depths[head] >= MAX_DEPTH || steps.len() >= MAX_STEPS {
    } else {
        match first_file(files, steps[head].file@) {
            None => lemma_bfs_in(records, files, steps, depths, head + 1, (fuel - 1) as nat),
            Some(f) => {
                let t = calls_of(f, step_line(steps[head]));
                let dd = (depths[head] + 1) as usize;
                lemma_push_targets_in(records, files, f, t, steps, depths, dd);
                let next = push_targets(records, f, t, steps, depths, dd);
                lemma_bfs_in(records, files, next.0, next.1, head + 1, (fuel - 1) as nat);
            },
        }
    }
}

/// A traced flow stays inside the parsed files: when the seed's file is one
/// of them, every step's file is one of them.
pub proof fn law_trace_in_parsed_files(files: Seq<ParsedFile>, file: String, d: Definition)
    requires
        parsed_path(files, file@),
    ensures
        steps_in_files(traced(records_of(files), files, file, d), files),
{
    lemma_records_in_files(files);
    let s = seq![seed_step(file, d)];
    assert(s[0].file@ == file@);
    lemma_bfs_in(records_of(files), files, s, seq![0usize], 0, MAX_STEPS as nat);
}


proof fn lemma_next_def_line_below(defs: Seq<Definition>, line: usize, d: int)
    requires
        0 <= d < defs.len(),
        defs[d].line > line,
    ensures
        next_def_line(defs, line) <= defs[d].line,
    decreases defs.len(),
{
    if d < defs.len() - 1 {
        assert(defs.drop_last()[d] == defs[d]);
        lemma_next_def_line_below(defs.drop_last(), line, d);
    }
}

proof fn lemma_call_targets_from_calls(calls: Seq<Call>, lo: usize, hi: usize, k: int)
    requires
        0 <= k < call_targets(calls, lo, hi).len(),
    ensures
        exists|m: int|
            0 <= m < calls.len() && #[trigger] calls[m].target == call_targets(calls, lo, hi)[k]
                && lo <= calls[m].line < hi,
    decreases calls.len(),
{
    let p = call_targets(calls.drop_last(), lo, hi);
    if k < p.len() {
        lemma_call_targets_from_calls(calls.drop_last(), lo, hi, k);
        let m = choose|m: int|
            0 <= m < calls.drop_last().len() && #[trigger] calls.drop_last()[m].target == p[k]
                && lo <= calls.drop_last()[m].line < hi;
        assert(calls[m] == calls.drop_last()[m]);
    } else {
        assert(calls[calls.len() - 1] == calls.last());
    }
}

/// Every call that a flow step expands lies inside that step's definition:
/// on or after its line, and before the line of every later definition of
/// the same file.
pub proof fn law_calls_stay_in_their_definition(f: ParsedFile, line: usize, k: int)
    requires
        0 <= k < calls_of(f, line).len(),
    ensures
        exists|m: int|
            {
                &&& 0 <= m < f.calls@.len()
                &&& #[trigger] f.calls@[m].target == calls_of(f, line)[k]
                &&& f.calls@[m].line >= line
                &&& forall|d: int|
                    0 <= d < f.definitions@.len() && #[trigger] f.definitions@[d].line > line
                        ==> f.calls@[m].line < f.definitions@[d].line
            },
{
    let hi = next_def_line(f.definitions@, line);
    lemma_call_targets_from_calls(f.calls@, line, hi, k);
    let m = choose|m: int|
        0 <= m < f.calls@.len() && #[trigger] f.calls@[m].target == call_targets(f.calls@, line, hi)[k]
            && line <= f.calls@[m].line < hi;
    assert forall|d: int|
        0 <= d < f.definitions@.len() && #[trigger] f.definitions@[d].line > line implies f.calls@[m].line
        < f.definitions@[d].line by {
        lemma_next_def_line_below(f.definitions@, line, d);
    }
}

} // verus!
