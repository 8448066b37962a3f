//! Subsystem keys and names, code-file selection, entrypoint detection and
//! subsystem clustering over ranked files.
use vstd::prelude::*;

use crate::graph::{entrypoint, is_entrypoint, RankedFile};
use crate::paths::{excluded_from_clustering, is_excluded_from_clustering};
use crate::text::{
    append_chars, chars_of, eq_lit, join, join_exec, key_text_before, lemma_key_text_order,
    nonempty_parts, nonempty_parts_exec, replace_char, replace_char_exec, seq_eq, seq_less_exec,
    split_exec, split_on, string_of,
};

verus! {

/// The subsystem a path belongs to: its folder, at most three levels deep;
/// files at the repository root belong to `(root)`.
pub open spec fn key_of(path: Seq<char>) -> Seq<char> {
    let parts = nonempty_parts(replace_char(path, '\\', '/'), '/');
    if parts.len() <= 1 {
        "(root)"@
    } else if parts.len() == 2 {
        parts[0]
    } else if parts.len() == 3 {
        parts[0] + "/"@ + parts[1]
    } else {
        parts[0] + "/"@ + parts[1] + "/"@ + parts[2]
    }
}

/// The subsystem key of a file path.
pub fn subsystem_key(path: &str) -> (r: String)
    ensures
        r@ == key_of(path@),
{
    let cs = chars_of(path);
    let normalized = replace_char_exec(cs.as_slice(), '\\', '/');
    let parts = nonempty_parts_exec(normalized.as_slice(), '/');
    let ghost dv = parts.deep_view();
    assert(dv.len() == parts@.len());
    if parts.len() <= 1 {
        return String::from_str("(root)");
    }
    let mut out: Vec<char> = Vec::new();
    append_chars(&mut out, parts[0].as_slice());
    assert(parts[0]@ == dv[0]);
    if parts.len() == 2 {
        return string_of(out.as_slice());
    }
    let slash = chars_of("/");
    append_chars(&mut out, slash.as_slice());
    append_chars(&mut out, parts[1].as_slice());
    assert(parts[1]@ == dv[1]);
    if parts.len() == 3 {
        return string_of(out.as_slice());
    }
    append_chars(&mut out, slash.as_slice());
    append_chars(&mut out, parts[2].as_slice());
    assert(parts[2]@ == dv[2]);
    string_of(out.as_slice())
}

/// The uppercase form of a character, as `char::to_uppercase` gives it (one to
/// three characters).
pub uninterp spec fn uppercase_char(c: char) -> Seq<char>;

/// Uppercases one character with `char::to_uppercase`. ASCII letters map to
/// their capital, other ASCII characters to themselves; beyond ASCII the
/// Unicode mapping is named, not spelled out.
#[verifier::external_body]
fn char_to_uppercase(c: char) -> (r: String)
    ensures
        r@ == uppercase_char(c),
        'a' <= c && c <= 'z' ==> r@ == seq![((c as u32) - 32) as char],
        (c as u32) < 128 && !('a' <= c && c <= 'z') ==> r@ == seq![c],
{
    c.to_uppercase().collect::<String>()
}

/// The uppercase form of a character: the capital of an ASCII letter, any
/// other ASCII character itself, and beyond ASCII the Unicode mapping.
pub open spec fn upper_char(c: char) -> Seq<char> {
    if 'a' <= c && c <= 'z' {
        seq![((c as u32) - 32) as char]
    } else if (c as u32) < 128 {
        seq![c]
    } else {
        uppercase_char(c)
    }
}

/// A word with its first character uppercased.
pub open spec fn capitalize(w: Seq<char>) -> Seq<char> {
    if w.len() == 0 {
        w
    } else {
        upper_char(w[0]) + w.drop_first()
    }
}

/// A folder name made readable: `_`-separated words capitalized and joined by spaces.
pub open spec fn humanized(segment: Seq<char>) -> Seq<char> {
    join(split_on(segment, '_').map_values(|w: Seq<char>| capitalize(w)), " "@)
}

fn capitalize_exec(w: &[char]) -> (r: Vec<char>)
    ensures
        r@ == capitalize(w@),
{
    if w.len() == 0 {
        return Vec::new();
    }
    let up = char_to_uppercase(w[0]);
    let mut r = chars_of(up.as_str());
    let mut i: usize = 1;
    while i < w.len()
        invariant
            1 <= i <= w@.len(),
            r@ == upper_char(w@[0]) + w@.subrange(1, i as int),
        decreases w.len() - i,
    {
        r.push(w[i]);
        assert(upper_char(w@[0]) + w@.subrange(1, i + 1) =~= (upper_char(w@[0])
            + w@.subrange(1, i as int)).push(w@[i as int]));
        i = i + 1;
    }
    assert(w@.subrange(1, w@.len() as int) =~= w@.drop_first());
    r
}

/// A folder name made readable (`gpu_drivers` becomes `Gpu Drivers`).
pub fn humanize_segment(segment: &[char]) -> (r: Vec<char>)
    ensures
        r@ == humanized(segment@),
{
    let words = split_exec(segment, '_');
    let mut caps: Vec<Vec<char>> = Vec::new();
    let mut i: usize = 0;
    while i < words.len()
        invariant
            i <= words@.len(),
            words.deep_view() == split_on(segment@, '_'),
            caps.deep_view() == words.deep_view().subrange(0, i as int).map_values(
                |w: Seq<char>| capitalize(w),
            ),
        decreases words.len() - i,
    {
        let c = capitalize_exec(words[i].as_slice());
        let ghost old_caps = caps.deep_view();
        proof {
            crate::text::lemma_chars_deep_view(&c);
        }
        caps.push(c);
        assert(caps.deep_view() =~= words.deep_view().subrange(0, i + 1).map_values(
            |w: Seq<char>| capitalize(w),
        )) by {
            assert(caps.deep_view() =~= old_caps.push(c@));
            assert(words.deep_view()[i as int] =~= words@[i as int]@);
        }
        i = i + 1;
    }
    assert(words.deep_view().subrange(0, words@.len() as int) =~= words.deep_view());
    join_exec(&caps, " ")
}

/// The display name of a subsystem key: `Root` for `(root)`, otherwise each
/// folder humanized and joined with ` / `.
pub open spec fn display_name(key: Seq<char>) -> Seq<char> {
    if key == "(root)"@ {
        "Root"@
    } else {
        join(split_on(key, '/').map_values(|s: Seq<char>| humanized(s)), " / "@)
    }
}

/// The display name of a subsystem key.
pub fn display_subsystem_name(key: &str) -> (r: String)
    ensures
        r@ == display_name(key@),
{
    let kc = chars_of(key);
    if eq_lit(kc.as_slice(), "(root)") {
        return String::from_str("Root");
    }
    let segments = split_exec(kc.as_slice(), '/');
    let mut names: Vec<Vec<char>> = Vec::new();
    let mut i: usize = 0;
    while i < segments.len()
        invariant
            i <= segments@.len(),
            segments.deep_view() == split_on(key@, '/'),
            names.deep_view() == segments.deep_view().subrange(0, i as int).map_values(
                |s: Seq<char>| humanized(s),
            ),
        decreases segments.len() - i,
    {
        let h = humanize_segment(segments[i].as_slice());
        let ghost old_names = names.deep_view();
        proof {
            crate::text::lemma_chars_deep_view(&h);
        }
        names.push(h);
        assert(names.deep_view() =~= segments.deep_view().subrange(0, i + 1).map_values(
            |s: Seq<char>| humanized(s),
        )) by {
            assert(names.deep_view() =~= old_names.push(h@));
            assert(segments.deep_view()[i as int] =~= segments@[i as int]@);
        }
        i = i + 1;
    }
    assert(segments.deep_view().subrange(0, segments@.len() as int) =~= segments.deep_view());
    let joined = join_exec(&names, " / ");
    string_of(joined.as_slice())
}

/// A file at the repository root: no slash or backslash in its path.
pub open spec fn repo_root_file(path: Seq<char>) -> bool {
    !replace_char(path, '\\', '/').contains('/')
}

/// Whether a path names a file at the repository root.
pub fn is_repo_root_file(path: &str) -> (r: bool)
    ensures
        r == repo_root_file(path@),
{
    let cs = chars_of(path);
    let normalized = replace_char_exec(cs.as_slice(), '\\', '/');
    !crate::text::has_char(normalized.as_slice(), '/')
}


/// At most this many subsystems are reported.
pub const MAX_SUBSYSTEMS: usize = 8;

/// The number of most critical files reported.
pub const CRITICAL_FILE_COUNT: usize = 5;

/// At most this many entrypoints are reported.
pub const ENTRYPOINT_LIMIT: usize = 10;

/// The ranked files that take part in clustering, in order.
pub open spec fn code_rows(rows: Seq<RankedFile>) -> Seq<RankedFile>
    decreases rows.len(),
{
    if rows.len() == 0 {
        Seq::empty()
    } else {
        let prev = code_rows(rows.drop_last());
        if excluded_from_clustering(rows.last().file_path@) {
            prev
        } else {
            prev.push(rows.last())
        }
    }
}

/// The ranked files that take part in clustering: no documentation, tests or
/// project metadata.
pub fn code_files(ranked: &Vec<RankedFile>) -> (r: Vec<RankedFile>)
    ensures
        r@ == code_rows(ranked@),
{
    let mut out: Vec<RankedFile> = Vec::new();
    let mut i: usize = 0;
    while i < ranked.len()
        invariant
            i <= ranked@.len(),
            out@ == code_rows(ranked@.take(i as int)),
        decreases ranked.len() - i,
    {
        assert(ranked@.take(i + 1).drop_last() =~= ranked@.take(i as int));
        if !is_excluded_from_clustering(ranked[i].file_path.as_str()) {
            out.push(ranked[i].duplicate());
        }
        i = i + 1;
    }
    assert(ranked@.take(ranked@.len() as int) =~= ranked@);
    out
}

/// A ranked file that is reported as an entrypoint: code that is marked as
/// an entrypoint, is named like one, or is a root file with at least two
/// outbound references and no inbound ones.
pub open spec fn entry_candidate(f: RankedFile) -> bool {
    &&& !excluded_from_clustering(f.file_path@)
    &&& (f.is_entrypoint || entrypoint(f.file_path@) || (repo_root_file(f.file_path@)
        && f.outbound_refs >= 2 && f.inbound_refs == 0))
}

/// The score of the first ranked file with path `p`, or 0.
pub open spec fn score_of(rows: Seq<RankedFile>, p: Seq<char>) -> int
    decreases rows.len(),
{
    if rows.len() == 0 {
        0
    } else if rows[0].file_path@ == p {
        rows[0].score as int
    } else {
        score_of(rows.drop_first(), p)
    }
}

/// Entrypoint `a` is listed before `b`: higher score, then smaller path.
pub open spec fn entry_before(rows: Seq<RankedFile>, a: Seq<char>, b: Seq<char>) -> bool {
    key_text_before(-score_of(rows, a), a, -score_of(rows, b), b)
}

/// Some ranked file among the first `n` is an entrypoint candidate with path `p`.
pub open spec fn entry_path_in(rows: Seq<RankedFile>, p: Seq<char>, n: int) -> bool {
    exists|k: int| 0 <= k < n && #[trigger] entry_candidate(rows[k]) && rows[k].file_path@ == p
}

/// Paths in strict entrypoint order (so without repeats).
pub open spec fn entry_ordered(rows: Seq<RankedFile>, s: Seq<Seq<char>>) -> bool {
    forall|i: int, j: int| 0 <= i < j < s.len() ==> entry_before(rows, #[trigger] s[i], #[trigger] s[j])
}

/// The views of a list of strings.
pub open spec fn views(v: Seq<String>) -> Seq<Seq<char>> {
    v.map_values(|s: String| s@)
}

proof fn lemma_views_insert(v: Seq<String>, p: int, x: String)
    requires
        0 <= p <= v.len(),
    ensures
        views(v.insert(p, x)) == views(v).insert(p, x@),
{
    assert(views(v.insert(p, x)) =~= views(v).insert(p, x@));
}

fn first_score(rows: &Vec<RankedFile>, p: &[char]) -> (r: u128)
    ensures
        r as int == score_of(rows@, p@),
{
    let mut i: usize = 0;
    assert(rows@.skip(0) =~= rows@);
    while i < rows.len()
        invariant
            i <= rows@.len(),
            score_of(rows@, p@) == score_of(rows@.skip(i as int), p@),
        decreases rows.len() - i,
    {
        assert(rows@.skip(i as int)[0] == rows@[i as int]);
        let q = chars_of(rows[i].file_path.as_str());
        if seq_eq(q.as_slice(), p) {
            return rows[i].score;
        }
        assert(rows@.skip(i as int).drop_first() =~= rows@.skip(i + 1));
        i = i + 1;
    }
    0
}

fn is_entry_candidate(f: &RankedFile) -> (r: bool)
    ensures
        r == entry_candidate(*f),
{
    let path = f.file_path.as_str();
    !is_excluded_from_clustering(path) && (f.is_entrypoint || is_entrypoint(path) || (
    is_repo_root_file(path) && f.outbound_refs >= 2 && f.inbound_refs == 0))
}

fn path_key_before(a: &str, ka: u128, b: &[char], kb: u128) -> (r: bool)
    ensures
        r == key_text_before(-ka, a@, -kb, b@),
{
    if ka != kb {
        return ka > kb;
    }
    let ac = chars_of(a);
    seq_less_exec(ac.as_slice(), b)
}

proof fn lemma_contains_insert(s: Seq<Seq<char>>, p: int, x: Seq<char>)
    requires
        0 <= p <= s.len(),
    ensures
        forall|q: Seq<char>| s.insert(p, x).contains(q) <==> (s.contains(q) || q == x),
{
    let t = s.insert(p, x);
    assert forall|q: Seq<char>| t.contains(q) <==> (s.contains(q) || q == x) by {
        if t.contains(q) {
            let k = choose|k: int| 0 <= k < t.len() && t[k] == q;
            if k < p {
                assert(s[k] == q);
            } else if k > p {
                assert(s[k - 1] == q);
            }
        }
        if s.contains(q) {
            let k = choose|k: int| 0 <= k < s.len() && s[k] == q;
            if k < p {
                assert(t[k] == q);
            } else {
                assert(t[k + 1] == q);
            }
        }
        if q == x {
            assert(t[p] == q);
        }
    }
}

/// The entrypoints among ranked files: every distinct candidate path, by
/// descending score (of the first file with that path), then path, at most
/// ten of them.
pub fn detect_entrypoints(ranked: &Vec<RankedFile>) -> (r: Vec<String>)
    ensures
        exists|full: Seq<Seq<char>>|
            {
                &&& entry_ordered(ranked@, full)
                &&& forall|p: Seq<char>|
                    full.contains(p) <==> entry_path_in(ranked@, p, ranked@.len() as int)
                &&& views(r@) == full.take(
                    if full.len() < ENTRYPOINT_LIMIT {
                        full.len() as int
                    } else {
                        ENTRYPOINT_LIMIT as int
                    },
                )
            },
{
    let mut out: Vec<String> = Vec::new();
    let mut keys: Vec<u128> = Vec::new();
    let mut i: usize = 0;
    assert(views(out@) =~= Seq::<Seq<char>>::empty());
    while i < ranked.len()
        invariant
            i <= ranked@.len(),
            keys@.len() == out@.len(),
            forall|k: int|
                0 <= k < out@.len() ==> #[trigger] keys@[k] == score_of(ranked@, out@[k]@),
            entry_ordered(ranked@, views(out@)),
            forall|p: Seq<char>| views(out@).contains(p) <==> entry_path_in(ranked@, p, i as int),
        decreases ranked.len() - i,
    {
        let ghost old_views = views(out@);
        if is_entry_candidate(&ranked[i]) {
            let x = ranked[i].file_path.clone();
            let xc = chars_of(x.as_str());
            let kx = first_score(ranked, xc.as_slice());
            let mut p: usize = 0;
            while p < out.len() && path_key_before(out[p].as_str(), keys[p], xc.as_slice(), kx)
                invariant
                    p <= out@.len(),
                    xc@ == x@,
                    kx == score_of(ranked@, x@),
                    keys@.len() == out@.len(),
                    forall|k: int|
                        0 <= k < out@.len() ==> #[trigger] keys@[k] == score_of(
                            ranked@,
                            out@[k]@,
                        ),
                    forall|k: int|
                        0 <= k < p ==> entry_before(ranked@, #[trigger] views(out@)[k], x@),
                decreases out.len() - p,
            {
                assert(views(out@)[p as int] == out@[p as int]@);
                assert(keys@[p as int] == score_of(ranked@, out@[p as int]@));
                assert(xc@ == x@);
                assert(kx == score_of(ranked@, x@));
                assert(entry_before(ranked@, views(out@)[p as int], x@));
                p = p + 1;
            }
            let mut dup = false;
            if p < out.len() {
                let oc = chars_of(out[p].as_str());
                dup = seq_eq(oc.as_slice(), xc.as_slice());
            }
            if dup {
                proof {
                    assert(old_views[p as int] == x@);
                    assert forall|q: Seq<char>|
                        old_views.contains(q) <==> entry_path_in(ranked@, q, i + 1) by {
                        if entry_path_in(ranked@, q, i + 1) && !entry_path_in(ranked@, q, i as int) {
                            assert(q == x@);
                        }
                        if entry_path_in(ranked@, q, i as int) {
                            let k = choose|k: int|
                                0 <= k < i && #[trigger] entry_candidate(ranked@[k])
                                    && ranked@[k].file_path@ == q;
                            assert(entry_path_in(ranked@, q, i + 1));
                        }
                    }
                }
            } else {
                proof {
                    let vs = old_views;
                    assert forall|j: int| p <= j < vs.len() implies entry_before(
                        ranked@,
                        x@,
                        #[trigger] vs[j],
                    ) by {
                        assert(vs[p as int] == out@[p as int]@);
                        lemma_key_text_order(
                            -score_of(ranked@, x@),
                            x@,
                            -score_of(ranked@, vs[p as int]),
                            vs[p as int],
                            -score_of(ranked@, vs[j]),
                            vs[j],
                        );
                        if j > p {
                            assert(entry_before(ranked@, vs[p as int], vs[j]));
                        }
                    }
                    lemma_views_insert(out@, p as int, x);
                    lemma_contains_insert(vs, p as int, x@);
                    assert forall|a: int, b: int|
                        0 <= a < b < vs.len() + 1 implies entry_before(
                        ranked@,
                        #[trigger] vs.insert(p as int, x@)[a],
                        #[trigger] vs.insert(p as int, x@)[b],
                    ) by {
                        let t = vs.insert(p as int, x@);
                        if b < p {
                            assert(t[a] == vs[a] && t[b] == vs[b]);
                        } else if b == p {
                            assert(t[a] == vs[a]);
                        } else if a < p {
                            assert(t[a] == vs[a] && t[b] == vs[b - 1]);
                            lemma_key_text_order(
                                -score_of(ranked@, vs[a]),
                                vs[a],
                                -score_of(ranked@, x@),
                                x@,
                                -score_of(ranked@, vs[b - 1]),
                                vs[b - 1],
                            );
                        } else if a == p {
                            assert(t[b] == vs[b - 1]);
                        } else {
                            assert(t[a] == vs[a - 1] && t[b] == vs[b - 1]);
                        }
                    }
                    assert forall|q: Seq<char>|
                        vs.insert(p as int, x@).contains(q) <==> entry_path_in(
                            ranked@,
                            q,
                            i + 1,
                        ) by {
                        if entry_path_in(ranked@, q, i + 1) && !entry_path_in(ranked@, q, i as int) {
                            assert(q == x@);
                        }
                        if entry_path_in(ranked@, q, i as int) {
                            let k = choose|k: int|
                                0 <= k < i && #[trigger] entry_candidate(ranked@[k])
                                    && ranked@[k].file_path@ == q;
                            assert(entry_path_in(ranked@, q, i + 1));
                        }
                        if q == x@ {
                            assert(entry_candidate(ranked@[i as int]));
                        }
                    }
                }
                let ghost old_keys = keys@;
                let ghost old_out = out@;
                out.insert(p, x);
                keys.insert(p, kx);
                proof {
                    assert forall|k: int| 0 <= k < out@.len() implies #[trigger] keys@[k]
                        == score_of(ranked@, out@[k]@) by {
                        if k > p {
                            assert(keys@[k] == old_keys[k - 1]);
                            assert(out@[k] == old_out[k - 1]);
                        } else if k < p {
                            assert(keys@[k] == old_keys[k]);
                            assert(out@[k] == old_out[k]);
                        }
                    }
                }
            }
        } else {
            proof {
                assert forall|q: Seq<char>|
                    old_views.contains(q) <==> entry_path_in(ranked@, q, i + 1) by {
                    if entry_path_in(ranked@, q, i as int) {
                        let k = choose|k: int|
                            0 <= k < i && #[trigger] entry_candidate(ranked@[k])
                                && ranked@[k].file_path@ == q;
                        assert(entry_path_in(ranked@, q, i + 1));
                    }
                }
            }
        }
        i = i + 1;
    }
    let ghost full = views(out@);
    let n = if out.len() < ENTRYPOINT_LIMIT {
        out.len()
    } else {
        ENTRYPOINT_LIMIT
    };
    out.truncate(n);
    assert(views(out@) =~= full.take(n as int));
    out
}


/// Files that share a subsystem key, with their counts and most important files.
#[derive(Debug)]
pub struct Subsystem {
    pub key: String,
    pub name: String,
    pub file_count: usize,
    /// The sum of the members' scores in millionths of a point (saturating).
    pub total_score: u128,
    pub internal_links: usize,
    pub top_files: Vec<String>,
}

/// The subsystem keys of the code rows, in order of first appearance.
pub open spec fn cluster_keys(rows: Seq<RankedFile>) -> Seq<Seq<char>>
    decreases rows.len(),
{
    if rows.len() == 0 {
        Seq::empty()
    } else {
        let prev = cluster_keys(rows.drop_last());
        let p = rows.last().file_path@;
        if excluded_from_clustering(p) || prev.contains(key_of(p)) {
            prev
        } else {
            prev.push(key_of(p))
        }
    }
}

/// The (path, score) pairs of the code rows in subsystem `key`, in order.
pub open spec fn members(rows: Seq<RankedFile>, key: Seq<char>) -> Seq<(Seq<char>, u128)>
    decreases rows.len(),
{
    if rows.len() == 0 {
        Seq::empty()
    } else {
        let prev = members(rows.drop_last(), key);
        let f = rows.last();
        if !excluded_from_clustering(f.file_path@) && key_of(f.file_path@) == key {
            prev.push((f.file_path@, f.score))
        } else {
            prev
        }
    }
}

/// The sum of the member scores, saturating at `u128::MAX`.
pub open spec fn capped_total(ms: Seq<(Seq<char>, u128)>) -> int
    decreases ms.len(),
{
    if ms.len() == 0 {
        0
    } else {
        let t = capped_total(ms.drop_last()) + ms.last().1;
        if t <= u128::MAX {
            t
        } else {
            u128::MAX as int
        }
    }
}

/// `x` placed into a list ordered by descending score, after every member
/// whose score is at least as high.
pub open spec fn insert_desc(s: Seq<(Seq<char>, u128)>, x: (Seq<char>, u128)) -> Seq<
    (Seq<char>, u128),
>
    decreases s.len(),
{
    if s.len() == 0 || s.last().1 >= x.1 {
        s.push(x)
    } else {
        insert_desc(s.drop_last(), x).push(s.last())
    }
}

/// Members ordered by descending score; equal scores keep their order.
pub open spec fn sort_desc(s: Seq<(Seq<char>, u128)>) -> Seq<(Seq<char>, u128)>
    decreases s.len(),
{
    if s.len() == 0 {
        s
    } else {
        insert_desc(sort_desc(s.drop_last()), s.last())
    }
}

/// The paths of the first three of a member list.
pub open spec fn top_three(s: Seq<(Seq<char>, u128)>) -> Seq<Seq<char>> {
    s.take(
        if s.len() < 3 {
            s.len() as int
        } else {
            3
        },
    ).map_values(|m: (Seq<char>, u128)| m.0)
}

/// `p` is the path of some code row.
pub open spec fn code_path(rows: Seq<RankedFile>, p: Seq<char>) -> bool {
    exists|k: int|
        0 <= k < rows.len() && !excluded_from_clustering(#[trigger] rows[k].file_path@)
            && rows[k].file_path@ == p
}

/// The views of (source, target) pairs of strings.
pub open spec fn edge_views(edges: Seq<(String, String)>) -> Seq<(Seq<char>, Seq<char>)> {
    edges.map_values(|e: (String, String)| (e.0@, e.1@))
}

/// Import edges between code files that both lie in subsystem `key`.
pub open spec fn links_in(
    rows: Seq<RankedFile>,
    edges: Seq<(Seq<char>, Seq<char>)>,
    key: Seq<char>,
) -> int
    decreases edges.len(),
{
    if edges.len() == 0 {
        0
    } else {
        let e = edges.last();
        links_in(rows, edges.drop_last(), key) + if code_path(rows, e.0) && code_path(rows, e.1)
            && key_of(e.0) == key && key_of(e.1) == key {
            1int
        } else {
            0int
        }
    }
}

/// `s` is the subsystem of key `key` over these rows and import edges.
pub open spec fn subsystem_of(
    s: Subsystem,
    rows: Seq<RankedFile>,
    edges: Seq<(Seq<char>, Seq<char>)>,
    key: Seq<char>,
) -> bool {
    let ms = members(rows, key);
    &&& s.key@ == key
    &&& s.name@ == display_name(key)
    &&& s.file_count == ms.len()
    &&& s.total_score == capped_total(ms)
    &&& s.internal_links == links_in(rows, edges, key)
    &&& views(s.top_files@) == top_three(sort_desc(ms))
}

fn contains_key(keys: &Vec<Vec<char>>, k: &[char]) -> (r: bool)
    ensures
        r == keys.deep_view().contains(k@),
{
    let ghost dv = keys.deep_view();
    let mut i: usize = 0;
    while i < keys.len()
        invariant
            i <= keys@.len(),
            dv == keys.deep_view(),
            forall|j: int| 0 <= j < i ==> dv[j] != k@,
        decreases keys.len() - i,
    {
        assert(dv[i as int] == keys@[i as int]@);
        if seq_eq(keys[i].as_slice(), k) {
            return true;
        }
        i = i + 1;
    }
    false
}

/// The subsystem keys of the code rows, in order of first appearance.
fn subsystem_keys(rows: &Vec<RankedFile>) -> (r: Vec<Vec<char>>)
    ensures
        r.deep_view() == cluster_keys(rows@),
{
    let mut keys: Vec<Vec<char>> = Vec::new();
    let mut i: usize = 0;
    while i < rows.len()
        invariant
            i <= rows@.len(),
            keys.deep_view() == cluster_keys(rows@.take(i as int)),
        decreases rows.len() - i,
    {
        assert(rows@.take(i + 1).drop_last() =~= rows@.take(i as int));
        let path = rows[i].file_path.as_str();
        if !is_excluded_from_clustering(path) {
            let k = subsystem_key(path);
            let kc = chars_of(k.as_str());
            if !contains_key(&keys, kc.as_slice()) {
                let ghost old_dv = keys.deep_view();
                proof {
                    crate::text::lemma_chars_deep_view(&kc);
                }
                keys.push(kc);
                assert(keys.deep_view() =~= old_dv.push(k@));
            }
        }
        i = i + 1;
    }
    assert(rows@.take(rows@.len() as int) =~= rows@);
    keys
}

proof fn lemma_insert_desc_at(s: Seq<(Seq<char>, u128)>, x: (Seq<char>, u128), p: int)
    requires
        0 <= p <= s.len(),
        p == 0 || s[p - 1].1 >= x.1,
        forall|k: int| p <= k < s.len() ==> #[trigger] s[k].1 < x.1,
    ensures
        insert_desc(s, x) == s.insert(p, x),
    decreases s.len() - p,
{
    if p == s.len() {
        assert(s.insert(p, x) =~= s.push(x));
    } else {
        lemma_insert_desc_at(s.drop_last(), x, p);
        assert(s.insert(p, x) =~= s.drop_last().insert(p, x).push(s.last()));
    }
}

/// Members of one subsystem: the paths in descending score order (equal
/// scores in listing order), the capped total and the count.
fn member_stats(rows: &Vec<RankedFile>, key: &[char]) -> (r: (Vec<(Vec<char>, u128)>, u128, usize))
    ensures
        r.1 as int == capped_total(members(rows@, key@)),
        r.2 as int == members(rows@, key@).len(),
        r.0@.map_values(|m: (Vec<char>, u128)| (m.0@, m.1)) == sort_desc(members(rows@, key@)),
{
    let mut sorted: Vec<(Vec<char>, u128)> = Vec::new();
    let mut total: u128 = 0;
    let mut count: usize = 0;
    let mut i: usize = 0;
    while i < rows.len()
        invariant
            i <= rows@.len(),
            count as int == members(rows@.take(i as int), key@).len(),
            count <= i,
            total as int == capped_total(members(rows@.take(i as int), key@)),
            sorted@.map_values(|m: (Vec<char>, u128)| (m.0@, m.1)) == sort_desc(
                members(rows@.take(i as int), key@),
            ),
        decreases rows.len() - i,
    {
        assert(rows@.take(i + 1).drop_last() =~= rows@.take(i as int));
        assert(rows@.take(i + 1).last() == rows@[i as int]);
        let path = rows[i].file_path.as_str();
        let excluded = is_excluded_from_clustering(path);
        let k = subsystem_key(path);
        let kc = chars_of(k.as_str());
        let same = seq_eq(kc.as_slice(), key);
        if excluded || !same {
            assert(members(rows@.take(i + 1), key@) == members(rows@.take(i as int), key@));
        }
        if !excluded {
            if same {
                let score = rows[i].score;
                assert(members(rows@.take(i + 1), key@) == members(rows@.take(i as int), key@).push(
                    (path@, score),
                ));
                assert(members(rows@.take(i + 1), key@).drop_last() =~= members(
                    rows@.take(i as int),
                    key@,
                ));
                total = if total <= u128::MAX - score {
                    total + score
                } else {
                    u128::MAX
                };
                count = count + 1;
                let ghost sv = sorted@.map_values(|m: (Vec<char>, u128)| (m.0@, m.1));
                let mut p: usize = sorted.len();
                while p > 0 && sorted[p - 1].1 < score
                    invariant
                        p <= sorted@.len(),
                        sv == sorted@.map_values(|m: (Vec<char>, u128)| (m.0@, m.1)),
                        forall|k: int| p <= k < sorted@.len() ==> #[trigger] sv[k].1 < score,
                    decreases p,
                {
                    p = p - 1;
                }
                let pc = chars_of(path);
                let ghost x = (pc@, score);
                proof {
                    lemma_insert_desc_at(sv, x, p as int);
                }
                sorted.insert(p, (pc, score));
                assert(sorted@.map_values(|m: (Vec<char>, u128)| (m.0@, m.1)) =~= sv.insert(
                    p as int,
                    x,
                ));
            }
        }
        i = i + 1;
    }
    assert(rows@.take(rows@.len() as int) =~= rows@);
    (sorted, total, count)
}

fn is_code_path(rows: &Vec<RankedFile>, p: &str) -> (r: bool)
    ensures
        r == code_path(rows@, p@),
{
    let pc = chars_of(p);
    let mut i: usize = 0;
    while i < rows.len()
        invariant
            i <= rows@.len(),
            pc@ == p@,
            forall|k: int|
                0 <= k < i ==> excluded_from_clustering(#[trigger] rows@[k].file_path@)
                    || rows@[k].file_path@ != p@,
        decreases rows.len() - i,
    {
        let q = chars_of(rows[i].file_path.as_str());
        if seq_eq(q.as_slice(), pc.as_slice()) && !is_excluded_from_clustering(
            rows[i].file_path.as_str(),
        ) {
            return true;
        }
        i = i + 1;
    }
    false
}

fn count_links(rows: &Vec<RankedFile>, edges: &Vec<(String, String)>, key: &[char]) -> (r: usize)
    ensures
        r as int == links_in(rows@, edge_views(edges@), key@),
{
    let mut n: usize = 0;
    let mut i: usize = 0;
    while i < edges.len()
        invariant
            i <= edges@.len(),
            n <= i,
            n as int == links_in(rows@, edge_views(edges@.take(i as int)), key@),
        decreases edges.len() - i,
    {
        assert(edge_views(edges@.take(i + 1)).drop_last() =~= edge_views(edges@.take(i as int)));
        let (src, dst) = (&edges[i].0, &edges[i].1);
        if is_code_path(rows, src.as_str()) && is_code_path(rows, dst.as_str()) {
            let ks = subsystem_key(src.as_str());
            let kd = subsystem_key(dst.as_str());
            let ksc = chars_of(ks.as_str());
            let kdc = chars_of(kd.as_str());
            if seq_eq(ksc.as_slice(), key) && seq_eq(kdc.as_slice(), key) {
                n = n + 1;
            }
        }
        i = i + 1;
    }
    assert(edges@.take(edges@.len() as int) =~= edges@);
    n
}

/// Subsystem `a` is listed before `b`: a higher total score, then more
/// files, then a smaller name.
pub open spec fn subsystem_before(a: Subsystem, b: Subsystem) -> bool {
    key_text_before(
        -(a.total_score * 0x1_0000_0000_0000_0000 + a.file_count),
        a.name@,
        -(b.total_score * 0x1_0000_0000_0000_0000 + b.file_count),
        b.name@,
    )
}

/// Subsystems in listing order: none comes before one ahead of it.
pub open spec fn subsystems_sorted(s: Seq<Subsystem>) -> bool {
    forall|i: int, j: int|
        0 <= i < j < s.len() ==> !subsystem_before(#[trigger] s[j], #[trigger] s[i])
}

fn goes_before(a: &Subsystem, b: &Subsystem) -> (r: bool)
    ensures
        r == subsystem_before(*a, *b),
{
    if a.total_score != b.total_score {
        return a.total_score > b.total_score;
    }
    if a.file_count != b.file_count {
        return a.file_count > b.file_count;
    }
    let an = chars_of(a.name.as_str());
    let bn = chars_of(b.name.as_str());
    seq_less_exec(an.as_slice(), bn.as_slice())
}

/// The subsystem of one key.
fn build_subsystem(rows: &Vec<RankedFile>, edges: &Vec<(String, String)>, key: &[char]) -> (r:
    Subsystem)
    ensures
        subsystem_of(r, rows@, edge_views(edges@), key@),
{
    let ks = string_of(key);
    let name = display_subsystem_name(ks.as_str());
    let (sorted, total, count) = member_stats(rows, key);
    let ghost sv = sorted@.map_values(|m: (Vec<char>, u128)| (m.0@, m.1));
    let n = if sorted.len() < 3 {
        sorted.len()
    } else {
        3
    };
    let mut top: Vec<String> = Vec::new();
    let mut i: usize = 0;
    while i < n
        invariant
            n <= sorted@.len(),
            n == (if sorted@.len() < 3 {
                sorted@.len()
            } else {
                3
            }),
            i <= n,
            sv == sorted@.map_values(|m: (Vec<char>, u128)| (m.0@, m.1)),
            views(top@) == sv.take(i as int).map_values(|m: (Seq<char>, u128)| m.0),
        decreases n - i,
    {
        let ghost old_top = views(top@);
        assert(sv[i as int] == (sorted@[i as int].0@, sorted@[i as int].1));
        let name_i = string_of(sorted[i].0.as_slice());
        top.push(name_i);
        assert(views(top@) =~= old_top.push(name_i@));
        assert(sv.take(i + 1).map_values(|m: (Seq<char>, u128)| m.0) =~= sv.take(
            i as int,
        ).map_values(|m: (Seq<char>, u128)| m.0).push(sv[i as int].0));
        assert(views(top@) =~= sv.take(i + 1).map_values(|m: (Seq<char>, u128)| m.0));
        i = i + 1;
    }
    let links = count_links(rows, edges, key);
    Subsystem {
        key: ks,
        name,
        file_count: count,
        total_score: total,
        internal_links: links,
        top_files: top,
    }
}


/// `s` is the subsystem of one of the first `n` keys.
pub open spec fn is_cluster(
    s: Subsystem,
    rows: Seq<RankedFile>,
    edges: Seq<(Seq<char>, Seq<char>)>,
    keys: Seq<Seq<char>>,
    n: int,
) -> bool {
    exists|j: int| 0 <= j < n && #[trigger] subsystem_of(s, rows, edges, keys[j])
}

/// Some subsystem in `s` has key `k`.
pub open spec fn key_listed(s: Seq<Subsystem>, k: Seq<char>) -> bool {
    exists|i: int| 0 <= i < s.len() && #[trigger] s[i].key@ == k
}

proof fn lemma_subsystem_order(x: Subsystem, a: Subsystem, b: Subsystem)
    ensures
        subsystem_before(x, a) ==> !subsystem_before(a, x),
        subsystem_before(x, a) && !subsystem_before(b, a) ==> subsystem_before(x, b),
{
    lemma_key_text_order(
        -(x.total_score * 0x1_0000_0000_0000_0000 + x.file_count),
        x.name@,
        -(a.total_score * 0x1_0000_0000_0000_0000 + a.file_count),
        a.name@,
        -(b.total_score * 0x1_0000_0000_0000_0000 + b.file_count),
        b.name@,
    );
}

/// The subsystems of the code rows, one per key: ordered by descending total
/// score, then file count, then name, and at most eight of them.
pub fn detect_subsystems(ranked: &Vec<RankedFile>, import_edges: &Vec<(String, String)>) -> (r:
    Vec<Subsystem>)
    ensures
        exists|full: Seq<Subsystem>|
            {
                &&& full.len() == cluster_keys(ranked@).len()
                &&& subsystems_sorted(full)
                &&& forall|i: int|
                    0 <= i < full.len() ==> is_cluster(
                        #[trigger] full[i],
                        ranked@,
                        edge_views(import_edges@),
                        cluster_keys(ranked@),
                        cluster_keys(ranked@).len() as int,
                    )
                &&& forall|j: int|
                    0 <= j < cluster_keys(ranked@).len() ==> key_listed(
                        full,
                        #[trigger] cluster_keys(ranked@)[j],
                    )
                &&& r@ == full.take(
                    if full.len() < MAX_SUBSYSTEMS {
                        full.len() as int
                    } else {
                        MAX_SUBSYSTEMS as int
                    },
                )
            },
{
    let keys = subsystem_keys(ranked);
    let ghost ks = keys.deep_view();
    let ghost rows = ranked@;
    let ghost edges = edge_views(import_edges@);
    let mut out: Vec<Subsystem> = Vec::new();
    let mut j: usize = 0;
    while j < keys.len()
        invariant
            ks == cluster_keys(rows),
            ks == keys.deep_view(),
            rows == ranked@,
            edges == edge_views(import_edges@),
            j <= keys@.len(),
            out@.len() == j,
            subsystems_sorted(out@),
            forall|i: int|
                0 <= i < out@.len() ==> is_cluster(#[trigger] out@[i], rows, edges, ks, j as int),
            forall|jj: int| 0 <= jj < j ==> key_listed(out@, #[trigger] ks[jj]),
        decreases keys.len() - j,
    {
        assert(ks[j as int] == keys@[j as int]@);
        let x = build_subsystem(ranked, import_edges, keys[j].as_slice());
        let mut p: usize = 0;
        while p < out.len() && !goes_before(&x, &out[p])
            invariant
                p <= out@.len(),
                forall|k: int| 0 <= k < p ==> !subsystem_before(x, #[trigger] out@[k]),
            decreases out.len() - p,
        {
            p = p + 1;
        }
        let ghost old_out = out@;
        proof {
            assert forall|k: int| p <= k < old_out.len() implies subsystem_before(
                x,
                #[trigger] old_out[k],
            ) by {
                if k > p {
                    lemma_subsystem_order(x, old_out[p as int], old_out[k]);
                }
            }
        }
        out.insert(p, x);
        proof {
            assert forall|a: int, b: int| 0 <= a < b < out@.len() implies !subsystem_before(
                #[trigger] out@[b],
                #[trigger] out@[a],
            ) by {
                if a < p && b == p {
                } else if a == p {
                    lemma_subsystem_order(x, old_out[b - 1], old_out[b - 1]);
                } else if a < p && b > p {
                    assert(out@[b] == old_out[b - 1]);
                } else if b < p {
                    assert(out@[a] == old_out[a]);
                    assert(out@[b] == old_out[b]);
                } else {
                    assert(out@[a] == old_out[a - 1]);
                    assert(out@[b] == old_out[b - 1]);
                }
            }
            assert forall|i: int| 0 <= i < out@.len() implies is_cluster(
                #[trigger] out@[i],
                rows,
                edges,
                ks,
                j + 1,
            ) by {
                if i < p {
                    assert(out@[i] == old_out[i]);
                    assert(is_cluster(old_out[i], rows, edges, ks, j as int));
                    let w = choose|w: int|
                        0 <= w < j && #[trigger] subsystem_of(old_out[i], rows, edges, ks[w]);
                    assert(subsystem_of(out@[i], rows, edges, ks[w]));
                } else if i == p {
                    assert(subsystem_of(out@[i], rows, edges, ks[j as int]));
                } else {
                    assert(out@[i] == old_out[i - 1]);
                    assert(is_cluster(old_out[i - 1], rows, edges, ks, j as int));
                    let w = choose|w: int|
                        0 <= w < j && #[trigger] subsystem_of(old_out[i - 1], rows, edges, ks[w]);
                    assert(subsystem_of(out@[i], rows, edges, ks[w]));
                }
            }
            assert forall|jj: int| 0 <= jj < j + 1 implies key_listed(out@, #[trigger] ks[jj]) by {
                if jj < j {
                    assert(key_listed(old_out, ks[jj]));
                    let w = choose|w: int| 0 <= w < old_out.len() && #[trigger] old_out[w].key@ == ks[jj];
                    if w < p {
                        assert(out@[w] == old_out[w]);
                    } else {
                        assert(out@[w + 1] == old_out[w]);
                    }
                } else {
                    assert(out@[p as int].key@ == ks[jj]);
                }
            }
        }
        j = j + 1;
    }
    let ghost full = out@;
    let n = if out.len() < MAX_SUBSYSTEMS {
        out.len()
    } else {
        MAX_SUBSYSTEMS
    };
    out.truncate(n);
    assert(out@ =~= full.take(n as int));
    out
}

/// The architecture of a repository: its subsystems, entrypoints and most
/// critical code files.
#[derive(Debug)]
pub struct ArchitectureReport {
    pub repository_name: String,
    pub subsystems: Vec<Subsystem>,
    pub entrypoints: Vec<String>,
    pub critical_files: Vec<RankedFile>,
}

/// The architecture report of ranked files (in rank order) and the import
/// edges between files. The repository is named by its folder name when it
/// has a non-empty one, else `repository`.
pub fn analyze(
    folder_name: Option<String>,
    ranked: &Vec<RankedFile>,
    import_edges: &Vec<(String, String)>,
) -> (r: ArchitectureReport)
    ensures
        r.repository_name@ == (match folder_name {
            Some(n) => if n@.len() > 0 {
                n@
            } else {
                "repository"@
            },
            None => "repository"@,
        }),
        r.critical_files@ == code_rows(ranked@).take(
            if code_rows(ranked@).len() < CRITICAL_FILE_COUNT {
                code_rows(ranked@).len() as int
            } else {
                CRITICAL_FILE_COUNT as int
            },
        ),
        exists|full: Seq<Subsystem>|
            {
                &&& full.len() == cluster_keys(code_rows(ranked@)).len()
                &&& subsystems_sorted(full)
                &&& forall|i: int|
                    0 <= i < full.len() ==> is_cluster(
                        #[trigger] full[i],
                        code_rows(ranked@),
                        edge_views(import_edges@),
                        cluster_keys(code_rows(ranked@)),
                        cluster_keys(code_rows(ranked@)).len() as int,
                    )
                &&& forall|j: int|
                    0 <= j < cluster_keys(code_rows(ranked@)).len() ==> key_listed(
                        full,
                        #[trigger] cluster_keys(code_rows(ranked@))[j],
                    )
                &&& r.subsystems@ == full.take(
                    if full.len() < MAX_SUBSYSTEMS {
                        full.len() as int
                    } else {
                        MAX_SUBSYSTEMS as int
                    },
                )
            },
        exists|full: Seq<Seq<char>>|
            {
                &&& entry_ordered(code_rows(ranked@), full)
                &&& forall|p: Seq<char>|
                    full.contains(p) <==> entry_path_in(
                        code_rows(ranked@),
                        p,
                        code_rows(ranked@).len() as int,
                    )
                &&& views(r.entrypoints@) == full.take(
                    if full.len() < ENTRYPOINT_LIMIT {
                        full.len() as int
                    } else {
                        ENTRYPOINT_LIMIT as int
                    },
                )
            },
{
    let repository_name = match folder_name {
        Some(n) => if n.as_str().unicode_len() > 0 {
            n
        } else {
            String::from_str("repository")
        },
        None => String::from_str("repository"),
    };
    let code = code_files(ranked);
    let subsystems = detect_subsystems(&code, import_edges);
    let entrypoints = detect_entrypoints(&code);
    let mut critical: Vec<RankedFile> = Vec::new();
    let mut i: usize = 0;
    while i < code.len() && i < CRITICAL_FILE_COUNT
        invariant
            i <= code@.len(),
            i <= CRITICAL_FILE_COUNT,
            critical@ == code@.take(i as int),
        decreases code.len() - i,
    {
        critical.push(code[i].duplicate());
        assert(critical@ =~= code@.take(i + 1));
        i = i + 1;
    }
    ArchitectureReport { repository_name, subsystems, entrypoints, critical_files: critical }
}

} // verus!

verus! {

/// Subsystems are keyed by code files alone: every cluster key is the key of
/// a file that is no test, documentation or metadata file, and no key is
/// listed twice.
pub proof fn law_cluster_keys_from_code(rows: Seq<RankedFile>)
    ensures
        forall|j: int|
            0 <= j < cluster_keys(rows).len() ==> exists|k: int|
                0 <= k < rows.len() && !excluded_from_clustering(rows[k].file_path@) && key_of(
                    rows[k].file_path@,
                ) == #[trigger] cluster_keys(rows)[j],
        forall|i: int, j: int|
            0 <= i < j < cluster_keys(rows).len() ==> #[trigger] cluster_keys(rows)[i]
                != #[trigger] cluster_keys(rows)[j],
    decreases rows.len(),
{
    if rows.len() > 0 {
        let init = rows.drop_last();
        law_cluster_keys_from_code(init);
        let prev = cluster_keys(init);
        let ks = cluster_keys(rows);
        assert forall|j: int| 0 <= j < ks.len() implies exists|k: int|
            0 <= k < rows.len() && !excluded_from_clustering(rows[k].file_path@) && key_of(
                rows[k].file_path@,
            ) == #[trigger] ks[j] by {
            if j < prev.len() {
                assert(ks[j] == prev[j]);
                let k = choose|k: int|
                    0 <= k < init.len() && !excluded_from_clustering(init[k].file_path@) && key_of(
                        init[k].file_path@,
                    ) == prev[j];
                assert(rows[k] == init[k]);
            } else {
                assert(ks[j] == key_of(rows[rows.len() - 1].file_path@));
            }
        }
        assert forall|i: int, j: int| 0 <= i < j < ks.len() implies #[trigger] ks[i]
            != #[trigger] ks[j] by {
            if j < prev.len() {
                assert(ks[i] == prev[i] && ks[j] == prev[j]);
            } else {
                assert(ks[i] == prev[i]);
                assert(prev.contains(prev[i]));
            }
        }
    }
}


proof fn lemma_links_count_filter(
    rows: Seq<RankedFile>,
    edges: Seq<(Seq<char>, Seq<char>)>,
    key: Seq<char>,
    inside: spec_fn((Seq<char>, Seq<char>)) -> bool,
)
    requires
        forall|e: (Seq<char>, Seq<char>)|
            #[trigger] inside(e) == (code_path(rows, e.0) && code_path(rows, e.1) && key_of(e.0)
                == key && key_of(e.1) == key),
    ensures
        links_in(rows, edges, key) == edges.filter(inside).len(),
    decreases edges.len(),
{
    reveal_with_fuel(Seq::<_>::filter, 1);
    if edges.len() > 0 {
        lemma_links_count_filter(rows, edges.drop_last(), key, inside);
    }
}

/// A subsystem's internal links are exactly the import edges from a code file
/// of the subsystem to a code file of the subsystem: an edge that starts or
/// ends in another subsystem, or at a file left out of clustering, never
/// counts.
pub proof fn law_internal_links_stay_inside(
    s: Subsystem,
    rows: Seq<RankedFile>,
    edges: Seq<(Seq<char>, Seq<char>)>,
    key: Seq<char>,
)
    requires
        subsystem_of(s, rows, edges, key),
    ensures
        s.internal_links == edges.filter(
            |e: (Seq<char>, Seq<char>)|
                code_path(rows, e.0) && code_path(rows, e.1) && key_of(e.0) == key && key_of(e.1)
                    == key,
        ).len(),
{
    let inside = |e: (Seq<char>, Seq<char>)|
        code_path(rows, e.0) && code_path(rows, e.1) && key_of(e.0) == key && key_of(e.1) == key;
    lemma_links_count_filter(rows, edges, key, inside);
}

} // verus!
