//! Learning paths: which subsystem a topic names, and in what order to read
//! its files.
use vstd::prelude::*;

use crate::order::{merge_sort, SortOrder};

use crate::architecture::{key_of, subsystem_key, Subsystem};
use crate::graph::RankedFile;
use crate::paths::{
    excluded_from_clustering, is_excluded_from_clustering, is_test_subsystem_key,
    test_subsystem_key,
};
use crate::text::{
    append_chars, chars_of, contains, contains_lit, contains_seq, decimal, decimal_exec, ends_with,
    ends_with_lit, ends_with_seq, key_text_before, lemma_key_text_order, lower_chars, lower_text,
    replace_char, replace_char_exec, seq_eq, seq_less_exec, string_of, to_lowercase, trim,
    trim_exec,
};

verus! {

/// One file to read, and why.
#[derive(Debug)]
pub struct LearnStep {
    pub path: String,
    pub reason: String,
}

/// A reading plan for one subsystem.
#[derive(Debug)]
pub struct LearnResult {
    pub topic: String,
    pub subsystem: String,
    pub steps: Vec<LearnStep>,
    pub estimated_minutes: usize,
}

/// The topic as it is matched: trimmed and lowercased.
pub open spec fn normalized_topic(topic: Seq<char>) -> Seq<char> {
    lower_text(trim(topic))
}

/// A subsystem whose lowercased name or key contains the topic.
pub open spec fn topic_matches(s: Subsystem, t: Seq<char>) -> bool {
    contains(lower_text(s.name@), t) || contains(lower_text(s.key@), t)
}

/// Whole points of a total score (in millionths), capped at `i32::MAX`.
pub open spec fn whole_points_i32(total: u128) -> int {
    if total / 1_000_000 > i32::MAX {
        i32::MAX as int
    } else {
        (total / 1_000_000) as int
    }
}

/// How well a subsystem fits a topic: its whole points, 10000 less for test
/// subsystems, 500 more when its key is the topic or ends in `/topic`, 300
/// more when its name is the topic.
pub open spec fn subsystem_priority(s: Subsystem, t: Seq<char>) -> int {
    let key = lower_text(s.key@);
    let name = lower_text(s.name@);
    whole_points_i32(s.total_score) - (if test_subsystem_key(s.key@) {
        10_000int
    } else {
        0int
    }) + (if key == t || ends_with(key, "/"@ + t) {
        500int
    } else {
        0int
    }) + (if name == t {
        300int
    } else {
        0int
    })
}

/// The index of the matching subsystem with the highest priority among the
/// first `n` (the last such one on a tie).
pub open spec fn best_match(subs: Seq<Subsystem>, t: Seq<char>, n: nat) -> Option<int>
    decreases n,
{
    if n == 0 {
        None
    } else {
        let prev = best_match(subs, t, (n - 1) as nat);
        let i = n - 1;
        if topic_matches(subs[i], t) && (prev is None || subsystem_priority(subs[i], t)
            >= subsystem_priority(subs[prev->0], t)) {
            Some(i)
        } else {
            prev
        }
    }
}

/// The message for a topic that no subsystem matches.
pub open spec fn no_match_message(topic: Seq<char>) -> Seq<char> {
    "no subsystem matched '"@ + topic + "' — try `atlas architecture` to see names"@
}

fn priority_of(s: &Subsystem, t: &[char]) -> (r: i64)
    ensures
        r as int == subsystem_priority(*s, t@),
{
    let key = lower_chars(s.key.as_str());
    let name = lower_chars(s.name.as_str());
    let points = s.total_score / 1_000_000;
    let mut score: i64 = if points > 2147483647 {
        2147483647
    } else {
        points as i64
    };
    if is_test_subsystem_key(s.key.as_str()) {
        score = score - 10_000;
    }
    let mut slash_topic: Vec<char> = chars_of("/");
    append_chars(&mut slash_topic, t);
    if seq_eq(key.as_slice(), t) || ends_with_seq(key.as_slice(), slash_topic.as_slice()) {
        score = score + 500;
    }
    if seq_eq(name.as_slice(), t) {
        score = score + 300;
    }
    score
}

/// The subsystem that a topic names: among those whose lowercased name or key
/// contains the trimmed, lowercased topic, the one with the highest priority
/// (the last one on a tie).
pub fn find_subsystem<'a>(subsystems: &'a Vec<Subsystem>, topic: &str) -> (r: Result<
    &'a Subsystem,
    String,
>)
    ensures
        match r {
            Ok(s) => {
                &&& normalized_topic(topic@).len() > 0
                &&& best_match(subsystems@, normalized_topic(topic@), subsystems@.len()) matches Some(
                    k,
                )
                &&& *s == subsystems@[k]
            },
            Err(e) => if normalized_topic(topic@).len() == 0 {
                e@ == "topic cannot be empty"@
            } else {
                best_match(subsystems@, normalized_topic(topic@), subsystems@.len()) is None && e@
                    == no_match_message(topic@)
            },
        },
{
    let tc = chars_of(topic);
    let trimmed = trim_exec(tc.as_slice());
    let ts = string_of(trimmed.as_slice());
    let t = lower_chars(ts.as_str());
    if t.len() == 0 {
        return Err(String::from_str("topic cannot be empty"));
    }
    let mut best: Option<usize> = None;
    let mut best_priority: i64 = 0;
    let mut i: usize = 0;
    while i < subsystems.len()
        invariant
            i <= subsystems@.len(),
            t@ == normalized_topic(topic@),
            match best {
                None => best_match(subsystems@, t@, i as nat) is None,
                Some(b) => best_match(subsystems@, t@, i as nat) == Some(b as int) && b < i
                    && best_priority as int == subsystem_priority(subsystems@[b as int], t@),
            },
        decreases subsystems.len() - i,
    {
        let s = &subsystems[i];
        let name = lower_chars(s.name.as_str());
        let key = lower_chars(s.key.as_str());
        if contains_seq(name.as_slice(), t.as_slice()) || contains_seq(key.as_slice(), t.as_slice()) {
            let p = priority_of(s, t.as_slice());
            match best {
                None => {
                    best = Some(i);
                    best_priority = p;
                },
                Some(_) => {
                    if p >= best_priority {
                        best = Some(i);
                        best_priority = p;
                    }
                },
            }
        }
        i = i + 1;
    }
    match best {
        Some(b) => Ok(&subsystems[b]),
        None => {
            let mut msg = String::from_str("no subsystem matched '");
            msg.append(topic);
            msg.append("' — try `atlas architecture` to see names");
            Err(msg)
        },
    }
}

/// The reading order of a file: routes first, then `main.py`/`main.go`, then
/// services, then repositories and models, then other files, then
/// `__init__.py`.
pub open spec fn learn_rank(path: Seq<char>) -> int {
    let n = lower_text(replace_char(path, '\\', '/'));
    if contains(n, "routes"@) {
        0
    } else if ends_with(n, "main.py"@) || ends_with(n, "main.go"@) {
        1
    } else if contains(n, "service"@) {
        2
    } else if contains(n, "repositor"@) || contains(n, "/models"@) {
        3
    } else if ends_with(n, "__init__.py"@) {
        5
    } else {
        4
    }
}

/// The reading order of a file path.
pub fn learn_priority(path: &str) -> (r: u8)
    ensures
        r as int == learn_rank(path@),
{
    let cs = chars_of(path);
    let replaced = replace_char_exec(cs.as_slice(), '\\', '/');
    let rs = string_of(replaced.as_slice());
    let n = lower_chars(rs.as_str());
    if contains_lit(n.as_slice(), "routes") {
        return 0;
    }
    if ends_with_lit(n.as_slice(), "main.py") || ends_with_lit(n.as_slice(), "main.go") {
        return 1;
    }
    if contains_lit(n.as_slice(), "service") {
        return 2;
    }
    if contains_lit(n.as_slice(), "repositor") || contains_lit(n.as_slice(), "/models") {
        return 3;
    }
    if ends_with_lit(n.as_slice(), "__init__.py") {
        return 5;
    }
    4
}

/// The sort key of a file in a reading plan: reading order, then
/// entrypoints first, then descending score.
pub open spec fn learn_key(f: RankedFile) -> int {
    learn_rank(f.file_path@) * 0x2_0000_0000_0000_0000_0000_0000_0000_0000 + (if f.is_entrypoint {
        0int
    } else {
        0x1_0000_0000_0000_0000_0000_0000_0000_0000int
    }) + (0x1_0000_0000_0000_0000_0000_0000_0000_0000int - 1 - f.score)
}

/// File `a` is read before `b`: a smaller key, then a smaller path.
pub open spec fn learn_before(a: RankedFile, b: RankedFile) -> bool {
    key_text_before(learn_key(a), a.file_path@, learn_key(b), b.file_path@)
}

/// Files in reading order.
pub open spec fn learn_sorted(s: Seq<RankedFile>) -> bool {
    forall|i: int, j: int| 0 <= i < j < s.len() ==> !learn_before(#[trigger] s[j], #[trigger] s[i])
}

/// The ranked code files of subsystem `key`, in order.
pub open spec fn learn_candidates(rows: Seq<RankedFile>, key: Seq<char>) -> Seq<RankedFile>
    decreases rows.len(),
{
    if rows.len() == 0 {
        Seq::empty()
    } else {
        let prev = learn_candidates(rows.drop_last(), key);
        let f = rows.last();
        if !excluded_from_clustering(f.file_path@) && key_of(f.file_path@) == key {
            prev.push(f)
        } else {
            prev
        }
    }
}

/// Why a file is in a reading plan.
pub open spec fn learn_reason(f: RankedFile) -> Seq<char> {
    let lower = lower_text(f.file_path@);
    if contains(lower, "routes"@) {
        "HTTP routes and handlers"@
    } else if f.is_entrypoint {
        "entrypoint"@
    } else if contains(lower, "service"@) {
        "business logic layer"@
    } else if contains(lower, "repositor"@) {
        "data access layer"@
    } else if f.inbound_refs > 0 {
        "depended on by "@ + decimal(f.inbound_refs as nat) + " file(s)"@
    } else {
        "core file in subsystem"@
    }
}

/// The message for a subsystem without ranked files.
pub open spec fn empty_subsystem_message(name: Seq<char>) -> Seq<char> {
    "subsystem '"@ + name + "' matched but no ranked files were found — rescan the repository"@
}

proof fn lemma_learn_order(x: RankedFile, a: RankedFile, b: RankedFile)
    ensures
        learn_before(x, a) ==> !learn_before(a, x),
        learn_before(x, a) && !learn_before(b, a) ==> learn_before(x, b),
{
    lemma_key_text_order(
        learn_key(x),
        x.file_path@,
        learn_key(a),
        a.file_path@,
        learn_key(b),
        b.file_path@,
    );
}

fn reads_before(a: &RankedFile, b: &RankedFile) -> (r: bool)
    ensures
        r == learn_before(*a, *b),
{
    let pa = learn_priority(a.file_path.as_str());
    let pb = learn_priority(b.file_path.as_str());
    if pa != pb {
        return pa < pb;
    }
    if a.is_entrypoint != b.is_entrypoint {
        return a.is_entrypoint;
    }
    if a.score != b.score {
        return a.score > b.score;
    }
    let ca = chars_of(a.file_path.as_str());
    let cb = chars_of(b.file_path.as_str());
    seq_less_exec(ca.as_slice(), cb.as_slice())
}

/// The reading order of ranked files.
struct ReadingOrder;

impl SortOrder<RankedFile> for ReadingOrder {
    open spec fn before(a: RankedFile, b: RankedFile) -> bool {
        learn_before(a, b)
    }

    proof fn lemma_order(x: RankedFile, a: RankedFile, b: RankedFile) {
        lemma_learn_order(x, a, b);
    }

    fn goes_before(a: &RankedFile, b: &RankedFile) -> (r: bool) {
        reads_before(a, b)
    }
}

/// Files in reading order; a permutation of the input.
fn sort_for_reading(files: &Vec<RankedFile>) -> (r: Vec<RankedFile>)
    ensures
        learn_sorted(r@),
        r@.to_multiset() == files@.to_multiset(),
{
    let mut copies: Vec<RankedFile> = Vec::new();
    let mut i: usize = 0;
    while i < files.len()
        invariant
            i <= files@.len(),
            copies@ == files@.take(i as int),
        decreases files.len() - i,
    {
        copies.push(files[i].duplicate());
        assert(copies@ =~= files@.take(i + 1));
        i = i + 1;
    }
    assert(copies@ =~= files@);
    let r = merge_sort::<RankedFile, ReadingOrder>(copies);
    assert forall|i: int, j: int| 0 <= i < j < r@.len() implies !learn_before(
        #[trigger] r@[j],
        #[trigger] r@[i],
    ) by {
        assert(!ReadingOrder::before(r@[j], r@[i]));
    }
    r
}

/// Why a file is in a reading plan.
pub fn reason_for(f: &RankedFile) -> (r: String)
    ensures
        r@ == learn_reason(*f),
{
    let lower = lower_chars(f.file_path.as_str());
    if contains_lit(lower.as_slice(), "routes") {
        String::from_str("HTTP routes and handlers")
    } else if f.is_entrypoint {
        String::from_str("entrypoint")
    } else if contains_lit(lower.as_slice(), "service") {
        String::from_str("business logic layer")
    } else if contains_lit(lower.as_slice(), "repositor") {
        String::from_str("data access layer")
    } else if f.inbound_refs > 0 {
        let mut out = chars_of("depended on by ");
        let d = decimal_exec(f.inbound_refs);
        append_chars(&mut out, d.as_slice());
        let tail = chars_of(" file(s)");
        append_chars(&mut out, tail.as_slice());
        string_of(out.as_slice())
    } else {
        String::from_str("core file in subsystem")
    }
}

fn candidates_of(ranked: &Vec<RankedFile>, key: &[char]) -> (r: Vec<RankedFile>)
    ensures
        r@ == learn_candidates(ranked@, key@),
{
    let mut out: Vec<RankedFile> = Vec::new();
    let mut i: usize = 0;
    while i < ranked.len()
        invariant
            i <= ranked@.len(),
            out@ == learn_candidates(ranked@.take(i as int), key@),
        decreases ranked.len() - i,
    {
        assert(ranked@.take(i + 1).drop_last() =~= ranked@.take(i as int));
        let path = ranked[i].file_path.as_str();
        if !is_excluded_from_clustering(path) {
            let k = subsystem_key(path);
            let kc = chars_of(k.as_str());
            if seq_eq(kc.as_slice(), key) {
                out.push(ranked[i].duplicate());
            }
        }
        i = i + 1;
    }
    assert(ranked@.take(ranked@.len() as int) =~= ranked@);
    out
}

/// A reading plan for a topic: the subsystem that the topic names, its code
/// files in reading order with the reason to read each, and five minutes per
/// file.
pub fn build_learning_path(
    subsystems: &Vec<Subsystem>,
    ranked: &Vec<RankedFile>,
    topic: &str,
) -> (r: Result<LearnResult, String>)
    requires
        ranked@.len() * 5 <= usize::MAX,
    ensures
        match r {
            Ok(plan) => {
                &&& normalized_topic(topic@).len() > 0
                &&& best_match(subsystems@, normalized_topic(topic@), subsystems@.len()) matches Some(
                    k,
                )
                &&& plan.topic@ == topic@
                &&& plan.subsystem@ == subsystems@[k].name@
                &&& learn_candidates(ranked@, subsystems@[k].key@).len() > 0
                &&& plan.estimated_minutes == plan.steps@.len() * 5
                &&& exists|order: Seq<RankedFile>|
                {
                    &&& learn_sorted(order)
                    &&& order.to_multiset() == learn_candidates(
                        ranked@,
                        subsystems@[k].key@,
                    ).to_multiset()
                    &&& plan.steps@.len() == order.len()
                    &&& forall|i: int|
                        0 <= i < order.len() ==> (#[trigger] plan.steps@[i]).path@
                            == order[i].file_path@ && plan.steps@[i].reason@ == learn_reason(
                            order[i],
                        )
                }
            },
            Err(e) => if normalized_topic(topic@).len() == 0 {
                e@ == "topic cannot be empty"@
            } else {
                match best_match(subsystems@, normalized_topic(topic@), subsystems@.len()) {
                    None => e@ == no_match_message(topic@),
                    Some(k) => learn_candidates(ranked@, subsystems@[k].key@).len() == 0 && e@
                        == empty_subsystem_message(subsystems@[k].name@),
                }
            },
        },
{
    let subsystem = match find_subsystem(subsystems, topic) {
        Ok(s) => s,
        Err(e) => return Err(e),
    };
    let key = chars_of(subsystem.key.as_str());
    let candidates = candidates_of(ranked, key.as_slice());
    if candidates.len() == 0 {
        let mut msg = String::from_str("subsystem '");
        msg.append(subsystem.name.as_str());
        msg.append("' matched but no ranked files were found — rescan the repository");
        return Err(msg);
    }
    proof {
        vstd::seq_lib::to_multiset_len(candidates@);
        assert(candidates@.len() <= ranked@.len()) by {
            lemma_candidates_len(ranked@, key@);
        }
    }
    let ordered = sort_for_reading(&candidates);
    proof {
        vstd::seq_lib::to_multiset_len(ordered@);
    }
    let mut steps: Vec<LearnStep> = Vec::new();
    let mut i: usize = 0;
    while i < ordered.len()
        invariant
            i <= ordered@.len(),
            steps@.len() == i,
            forall|j: int|
                0 <= j < i ==> (#[trigger] steps@[j]).path@ == ordered@[j].file_path@
                    && steps@[j].reason@ == learn_reason(ordered@[j]),
        decreases ordered.len() - i,
    {
        let step = LearnStep {
            path: ordered[i].file_path.clone(),
            reason: reason_for(&ordered[i]),
        };
        steps.push(step);
        i = i + 1;
    }
    let minutes = steps.len() * 5;
    Ok(
        LearnResult {
            topic: String::from_str(topic),
            subsystem: subsystem.name.clone(),
            steps,
            estimated_minutes: minutes,
        },
    )
}

proof fn lemma_candidates_len(rows: Seq<RankedFile>, key: Seq<char>)
    ensures
        learn_candidates(rows, key).len() <= rows.len(),
    decreases rows.len(),
{
    if rows.len() > 0 {
        lemma_candidates_len(rows.drop_last(), key);
    }
}


/// In a reading order, of two files with the same reading priority and the
/// same entrypoint status, the one read first has the higher (or equal) score.
pub proof fn law_higher_score_read_first(order: Seq<RankedFile>, i: int, j: int)
    requires
        learn_sorted(order),
        0 <= i < j < order.len(),
        learn_rank(order[i].file_path@) == learn_rank(order[j].file_path@),
        order[i].is_entrypoint == order[j].is_entrypoint,
    ensures
        order[i].score >= order[j].score,
{
    assert(!learn_before(order[j], order[i]));
}

} // verus!
